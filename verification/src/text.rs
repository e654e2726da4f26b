//! Verified text utilities: substring search over the character view of
//! strings. Everything is specified against `Seq<char>`.

use vstd::prelude::*;

verus! {

/// The pattern `pat` occurs in `s` starting at character index `i`.
pub open spec fn match_at(s: Seq<char>, pat: Seq<char>, i: int) -> bool {
    0 <= i && i + pat.len() <= s.len() && s.subrange(i, i + pat.len()) == pat
}

/// The pattern `pat` occurs somewhere in `s`.
pub open spec fn contains_seq(s: Seq<char>, pat: Seq<char>) -> bool {
    exists|i: int| match_at(s, pat, i)
}

/// Compare `pat` against the characters of `s` starting at `i`.
pub fn match_at_exec(s: &str, pat: &str, i: usize) -> (r: bool)
    requires
        i + pat@.len() <= s@.len(),
    ensures
        r == match_at(s@, pat@, i as int),
{
    let sn = s.unicode_len();
    let n = pat.unicode_len();
    let mut j: usize = 0;
    while j < n
        invariant
            sn == s@.len(),
            n == pat@.len(),
            i + n <= s@.len(),
            0 <= j <= n,
            forall|m: int| 0 <= m < j ==> s@[i + m] == pat@[m],
        decreases n - j,
    {
        if s.get_char(i + j) != pat.get_char(j) {
            assert(s@.subrange(i as int, i + pat@.len()) != pat@) by {
                assert(s@.subrange(i as int, i + pat@.len())[j as int] != pat@[j as int]);
            }
            return false;
        }
        j += 1;
    }
    assert(s@.subrange(i as int, i + pat@.len()) =~= pat@);
    true
}

/// Index of the first occurrence of `pat` in `s`, if any.
pub fn find_first(s: &str, pat: &str) -> (r: Option<usize>)
    ensures
        match r {
            Some(i) => match_at(s@, pat@, i as int) && forall|j: int|
                0 <= j < i ==> !match_at(s@, pat@, j),
            None => !contains_seq(s@, pat@),
        },
{
    let n = s.unicode_len();
    let m = pat.unicode_len();
    if m > n {
        assert(forall|j: int| !match_at(s@, pat@, j));
        return None;
    }
    if m == 0 {
        assert(s@.subrange(0, 0) =~= pat@);
        return Some(0);
    }
    let last = n - m;
    let mut i: usize = 0;
    while i <= last
        invariant
            n == s@.len(),
            m == pat@.len(),
            1 <= m <= n,
            last == n - m,
            0 <= i <= last + 1,
            forall|j: int| 0 <= j < i ==> !match_at(s@, pat@, j),
        decreases last + 1 - i,
    {
        if match_at_exec(s, pat, i) {
            return Some(i);
        }
        i += 1;
    }
    assert(forall|j: int| j > last ==> !match_at(s@, pat@, j));
    None
}

/// Index of the last occurrence of `pat` in `s` starting at or after `from`,
/// if any.
pub fn find_last_from(s: &str, pat: &str, from: usize) -> (r: Option<usize>)
    ensures
        match r {
            Some(i) => from <= i && match_at(s@, pat@, i as int) && forall|j: int|
                i < j ==> !match_at(s@, pat@, j),
            None => forall|j: int| from <= j ==> !match_at(s@, pat@, j),
        },
{
    let n = s.unicode_len();
    let m = pat.unicode_len();
    if m > n || from > n - m {
        assert(forall|j: int| from <= j ==> !match_at(s@, pat@, j));
        return None;
    }
    let last = n - m;
    let mut i: usize = last;
    loop
        invariant
            n == s@.len(),
            m == pat@.len(),
            m <= n,
            last == n - m,
            from <= i <= last,
            forall|j: int| i < j ==> !match_at(s@, pat@, j),
        decreases i,
    {
        if match_at_exec(s, pat, i) {
            return Some(i);
        }
        if i == from {
            return None;
        }
        i -= 1;
    }
}

/// Whether `pat` occurs anywhere in `s`.
pub fn contains_str(s: &str, pat: &str) -> (r: bool)
    ensures
        r == contains_seq(s@, pat@),
{
    match find_first(s, pat) {
        Some(_) => true,
        None => false,
    }
}

/// The index of the first occurrence of `pat` in `s`; meaningful only when
/// an occurrence exists.
pub open spec fn first_match_idx(s: Seq<char>, pat: Seq<char>) -> int {
    choose|i: int|
        match_at(s, pat, i) && (forall|j: int| 0 <= j < i ==> !match_at(s, pat, j))
}

/// The index of the last occurrence of `pat` in `s` at or after `from`;
/// meaningful only when such an occurrence exists.
pub open spec fn last_match_idx_from(s: Seq<char>, pat: Seq<char>, from: int) -> int {
    choose|i: int|
        from <= i && match_at(s, pat, i) && (forall|j: int| j > i ==> !match_at(s, pat, j))
}

/// A first occurrence pins down `first_match_idx`.
pub proof fn lemma_first_match_idx(s: Seq<char>, pat: Seq<char>, i: int)
    requires
        match_at(s, pat, i),
        forall|j: int| 0 <= j < i ==> !match_at(s, pat, j),
    ensures
        first_match_idx(s, pat) == i,
{
    let i2 = first_match_idx(s, pat);
    assert(match_at(s, pat, i2) && (forall|j: int| 0 <= j < i2 ==> !match_at(s, pat, j)));
    if i2 < i {
        assert(!match_at(s, pat, i2));
    } else if i2 > i {
        assert(!match_at(s, pat, i));
    }
}

/// A last occurrence at or after `from` pins down `last_match_idx_from`.
pub proof fn lemma_last_match_idx_from(s: Seq<char>, pat: Seq<char>, from: int, i: int)
    requires
        from <= i,
        match_at(s, pat, i),
        forall|j: int| j > i ==> !match_at(s, pat, j),
    ensures
        last_match_idx_from(s, pat, from) == i,
{
    let i2 = last_match_idx_from(s, pat, from);
    assert(from <= i2 && match_at(s, pat, i2) && (forall|j: int| j > i2 ==> !match_at(s, pat, j)));
    if i2 < i {
        assert(!match_at(s, pat, i));
    } else if i2 > i {
        assert(!match_at(s, pat, i2));
    }
}

/// Wherever an occurrence exists, a first one does.
pub proof fn lemma_first_match_exists(s: Seq<char>, pat: Seq<char>, i: int)
    requires
        match_at(s, pat, i),
    ensures
        match_at(s, pat, first_match_idx(s, pat)),
        forall|j: int| 0 <= j < first_match_idx(s, pat) ==> !match_at(s, pat, j),
    decreases i,
{
    if exists|j: int| 0 <= j < i && match_at(s, pat, j) {
        let j = choose|j: int| 0 <= j < i && match_at(s, pat, j);
        lemma_first_match_exists(s, pat, j);
    } else {
        lemma_first_match_idx(s, pat, i);
    }
}

/// Relies on String::push: appends exactly one character to the end of the
/// string.
#[verifier::external_body]
pub(crate) fn push_char(s: &mut String, c: char)
    ensures
        final(s)@ == old(s)@.push(c),
{
    s.push(c);
}

/// The character views of a sequence of strings.
pub open spec fn str_views(v: Seq<String>) -> Seq<Seq<char>> {
    Seq::new(v.len(), |i: int| v[i]@)
}

/// A hard cut after `max` characters; shorter text is unchanged.
pub open spec fn spec_truncate(s: Seq<char>, max: int) -> Seq<char> {
    if s.len() <= max {
        s
    } else {
        s.subrange(0, max)
    }
}

/// Keep at most the first `max` characters of `s`.
pub fn take_chars(s: &str, max: usize) -> (r: String)
    ensures
        r@ == spec_truncate(s@, max as int),
{
    let n = s.unicode_len();
    if n <= max {
        String::from_str(s)
    } else {
        String::from_str(s.substring_char(0, max))
    }
}

/// ASCII whitespace: the separators between command tokens and between
/// configuration entries.
pub open spec fn is_space(c: char) -> bool {
    c == ' ' || c == '\t' || c == '\n' || c == '\u{c}' || c == '\r'
}

pub fn is_space_exec(c: char) -> (r: bool)
    ensures
        r == is_space(c),
{
    c == ' ' || c == '\t' || c == '\n' || c == '\u{c}' || c == '\r'
}

/// First index at or after `i` holding a non-separator, or the length.
pub open spec fn spec_skip_spaces(s: Seq<char>, i: int) -> int
    decreases s.len() - i,
{
    if i < 0 {
        i
    } else if i >= s.len() {
        s.len() as int
    } else if is_space(s[i]) {
        spec_skip_spaces(s, i + 1)
    } else {
        i
    }
}

/// First index at or after `i` holding a separator, or the length.
pub open spec fn spec_token_end(s: Seq<char>, i: int) -> int
    decreases s.len() - i,
{
    if i < 0 {
        i
    } else if i >= s.len() {
        s.len() as int
    } else if !is_space(s[i]) {
        spec_token_end(s, i + 1)
    } else {
        i
    }
}

pub proof fn lemma_skip_spaces(s: Seq<char>, i: int)
    requires
        0 <= i <= s.len(),
    ensures
        i <= spec_skip_spaces(s, i) <= s.len(),
        forall|m: int| i <= m < spec_skip_spaces(s, i) ==> is_space(s[m]),
        spec_skip_spaces(s, i) < s.len() ==> !is_space(s[spec_skip_spaces(s, i)]),
    decreases s.len() - i,
{
    if i < s.len() && is_space(s[i]) {
        lemma_skip_spaces(s, i + 1);
    }
}

pub proof fn lemma_token_end(s: Seq<char>, i: int)
    requires
        0 <= i <= s.len(),
    ensures
        i <= spec_token_end(s, i) <= s.len(),
        forall|m: int| i <= m < spec_token_end(s, i) ==> !is_space(s[m]),
        spec_token_end(s, i) < s.len() ==> is_space(s[spec_token_end(s, i)]),
    decreases s.len() - i,
{
    if i < s.len() && !is_space(s[i]) {
        lemma_token_end(s, i + 1);
    }
}

/// Advance past separators, starting at `from`.
pub fn skip_spaces(s: &str, from: usize) -> (r: usize)
    requires
        from <= s@.len(),
    ensures
        r == spec_skip_spaces(s@, from as int),
        from <= r <= s@.len(),
{
    proof {
        lemma_skip_spaces(s@, from as int);
    }
    let n = s.unicode_len();
    let mut i: usize = from;
    loop
        invariant
            n == s@.len(),
            from <= i <= n,
            spec_skip_spaces(s@, from as int) == spec_skip_spaces(s@, i as int),
        decreases n - i,
    {
        if i == n {
            return i;
        }
        if !is_space_exec(s.get_char(i)) {
            return i;
        }
        i += 1;
    }
}

/// Advance to the end of the token that starts at `from`.
pub fn token_end(s: &str, from: usize) -> (r: usize)
    requires
        from <= s@.len(),
    ensures
        r == spec_token_end(s@, from as int),
        from <= r <= s@.len(),
{
    proof {
        lemma_token_end(s@, from as int);
    }
    let n = s.unicode_len();
    let mut i: usize = from;
    loop
        invariant
            n == s@.len(),
            from <= i <= n,
            spec_token_end(s@, from as int) == spec_token_end(s@, i as int),
        decreases n - i,
    {
        if i == n {
            return i;
        }
        if is_space_exec(s.get_char(i)) {
            return i;
        }
        i += 1;
    }
}

/// A line with its trailing carriage return removed, as the standard line
/// iterator does for lines that end in `\r\n`.
pub open spec fn strip_cr(l: Seq<char>) -> Seq<char> {
    if l.len() > 0 && l[l.len() - 1] == '\r' {
        l.drop_last()
    } else {
        l
    }
}

/// Index of the first newline in `s`, or the length if there is none.
pub open spec fn first_nl(s: Seq<char>) -> nat
    decreases s.len(),
{
    if s.len() == 0 {
        0
    } else if s[0] == '\n' {
        0
    } else {
        (1 + first_nl(s.drop_first())) as nat
    }
}

pub proof fn lemma_first_nl(s: Seq<char>)
    ensures
        first_nl(s) <= s.len(),
        first_nl(s) < s.len() ==> s[first_nl(s) as int] == '\n',
        forall|m: int| 0 <= m < first_nl(s) ==> s[m] != '\n',
    decreases s.len(),
{
    if s.len() > 0 && s[0] != '\n' {
        lemma_first_nl(s.drop_first());
        assert forall|m: int| 0 <= m < first_nl(s) implies s[m] != '\n' by {
            if m >= 1 {
                assert(s[m] == s.drop_first()[m - 1]);
            }
        }
    }
}

pub proof fn lemma_first_nl_at(s: Seq<char>, i: int)
    requires
        0 <= i <= s.len(),
        forall|m: int| 0 <= m < i ==> s[m] != '\n',
        i < s.len() ==> s[i] == '\n',
    ensures
        first_nl(s) == i,
    decreases s.len(),
{
    if s.len() == 0 {
    } else if s[0] == '\n' {
        if i > 0 {
            assert(s[0] != '\n');
        }
    } else {
        assert(i >= 1);
        lemma_first_nl_at(s.drop_first(), i - 1);
    }
}

/// The lines of `s`, as the standard line iterator yields them: split at
/// every newline, a carriage return directly before a newline is dropped,
/// and a final line ending is optional.
pub open spec fn spec_lines(s: Seq<char>) -> Seq<Seq<char>>
    decreases s.len(),
{
    if s.len() == 0 {
        Seq::empty()
    } else {
        let i = first_nl(s);
        if i >= s.len() {
            seq![s]
        } else {
            seq![strip_cr(s.subrange(0, i as int))] + spec_lines(
                s.subrange(i + 1 as int, s.len() as int),
            )
        }
    }
}

/// The lines joined back with single newlines.
pub open spec fn spec_join_nl(ls: Seq<Seq<char>>) -> Seq<char>
    decreases ls.len(),
{
    if ls.len() == 0 {
        Seq::empty()
    } else if ls.len() == 1 {
        ls[0]
    } else {
        spec_join_nl(ls.drop_last()) + seq!['\n'] + ls.last()
    }
}

/// All lines from index `k` on; an out-of-range `k` leaves nothing.
pub open spec fn spec_skip_lines(ls: Seq<Seq<char>>, k: int) -> Seq<Seq<char>> {
    if k > ls.len() {
        Seq::empty()
    } else {
        ls.skip(k)
    }
}

/// Dropping the first `k` lines of `s` and joining the rest with newlines.
pub open spec fn spec_drop_lines(s: Seq<char>, k: int) -> Seq<char> {
    spec_join_nl(spec_skip_lines(spec_lines(s), k))
}

/// Split `s` into its lines.
pub fn split_lines(s: &str) -> (r: Vec<String>)
    ensures
        str_views(r@) == spec_lines(s@),
{
    let n = s.unicode_len();
    let mut res: Vec<String> = Vec::new();
    let mut a: usize = 0;
    let mut j: usize = 0;
    proof {
        assert(s@.subrange(0, n as int) =~= s@);
        assert(str_views(res@) + spec_lines(s@) =~= spec_lines(s@));
    }
    while j < n
        invariant
            n == s@.len(),
            a <= j <= n,
            forall|m: int| a <= m < j ==> s@[m] != '\n',
            spec_lines(s@) == str_views(res@) + spec_lines(s@.subrange(a as int, n as int)),
        decreases n - j,
    {
        if s.get_char(j) == '\n' {
            let line_end = if j > a && s.get_char(j - 1) == '\r' {
                j - 1
            } else {
                j
            };
            let piece = String::from_str(s.substring_char(a, line_end));
            proof {
                let suf = s@.subrange(a as int, n as int);
                assert forall|m: int| 0 <= m < j - a implies suf[m] != '\n' by {
                    assert(suf[m] == s@[a + m]);
                }
                lemma_first_nl_at(suf, j - a);
                assert(strip_cr(suf.subrange(0, (j - a) as int)) =~= piece@) by {
                    assert(suf.subrange(0, (j - a) as int) =~= s@.subrange(a as int, j as int));
                    if j > a && s@[j - 1] == '\r' {
                        assert(s@.subrange(a as int, j as int).drop_last() =~= s@.subrange(
                            a as int,
                            (j - 1) as int,
                        ));
                    }
                }
                assert(suf.subrange((j - a + 1) as int, suf.len() as int) =~= s@.subrange(
                    (j + 1) as int,
                    n as int,
                ));
                assert(str_views(res@.push(piece)) =~= str_views(res@) + seq![piece@]);
                assert(spec_lines(s@) == str_views(res@.push(piece)) + spec_lines(
                    s@.subrange((j + 1) as int, n as int),
                )) by {
                    assert(spec_lines(suf) == seq![strip_cr(suf.subrange(0, (j - a) as int))]
                        + spec_lines(suf.subrange((j - a + 1) as int, suf.len() as int)));
                    assert((str_views(res@) + seq![piece@]) + spec_lines(
                        s@.subrange((j + 1) as int, n as int),
                    ) =~= str_views(res@) + (seq![piece@] + spec_lines(
                        s@.subrange((j + 1) as int, n as int),
                    )));
                }
            }
            res.push(piece);
            a = j + 1;
        }
        j += 1;
    }
    if a < n {
        let piece = String::from_str(s.substring_char(a, n));
        proof {
            let suf = s@.subrange(a as int, n as int);
            assert forall|m: int| 0 <= m < suf.len() implies suf[m] != '\n' by {
                assert(suf[m] == s@[a + m]);
            }
            lemma_first_nl_at(suf, suf.len() as int);
            assert(spec_lines(suf) == seq![suf]);
            assert(suf =~= piece@);
            assert(str_views(res@.push(piece)) =~= str_views(res@) + seq![piece@]);
        }
        res.push(piece);
    } else {
        proof {
            assert(s@.subrange(a as int, n as int) =~= Seq::<char>::empty());
        }
    }
    proof {
        assert(str_views(res@) =~= str_views(res@) + Seq::<Seq<char>>::empty());
    }
    res
}

/// Join the lines from index `k` on with newlines.
pub fn join_skip(ls: &Vec<String>, k: usize) -> (r: String)
    ensures
        r@ == spec_join_nl(spec_skip_lines(str_views(ls@), k as int)),
{
    let len = ls.len();
    let start = if k > len {
        len
    } else {
        k
    };
    let mut out = String::new();
    let mut i: usize = start;
    while i < len
        invariant
            len == ls@.len(),
            start <= i <= len,
            start <= len,
            out@ == spec_join_nl(str_views(ls@).subrange(start as int, i as int)),
        decreases len - i,
    {
        if i > start {
            out.append("\n");
            proof {
                reveal_strlit("\n");
                assert("\n"@ =~= seq!['\n']);
            }
        }
        out.append(ls[i].as_str());
        proof {
            let vs = str_views(ls@);
            assert(vs.subrange(start as int, (i + 1) as int).drop_last() =~= vs.subrange(
                start as int,
                i as int,
            ));
            assert(vs.subrange(start as int, (i + 1) as int).last() == ls@[i as int]@);
            if i > start {
                assert(out@ == spec_join_nl(vs.subrange(start as int, (i + 1) as int)));
            } else {
                assert(vs.subrange(start as int, (i + 1) as int).len() == 1);
                assert(out@ =~= ls@[i as int]@);
            }
        }
        i += 1;
    }
    proof {
        let vs = str_views(ls@);
        if start < len || k <= len {
            assert(vs.subrange(start as int, len as int) =~= spec_skip_lines(vs, k as int));
        } else {
            assert(vs.subrange(start as int, len as int) =~= Seq::<Seq<char>>::empty());
            assert(spec_skip_lines(vs, k as int) =~= Seq::<Seq<char>>::empty());
        }
    }
    out
}

/// An occurrence inside a subrange is an occurrence in the whole.
pub proof fn lemma_contains_of_subrange(s: Seq<char>, pat: Seq<char>, a: int, b: int)
    requires
        0 <= a <= b <= s.len(),
        contains_seq(s.subrange(a, b), pat),
    ensures
        contains_seq(s, pat),
{
    let i = choose|i: int| match_at(s.subrange(a, b), pat, i);
    assert(s.subrange(a + i, a + i + pat.len() as int) =~= s.subrange(a, b).subrange(
        i,
        i + pat.len() as int,
    ));
    assert(match_at(s, pat, a + i));
}

/// Every line of `s` is a contiguous piece of `s`.
pub proof fn lemma_lines_are_subranges(s: Seq<char>)
    ensures
        forall|k: int|
            0 <= k < spec_lines(s).len() ==> exists|a: int, b: int|
                0 <= a <= b <= s.len() && #[trigger] spec_lines(s)[k] == s.subrange(a, b),
    decreases s.len(),
{
    if s.len() == 0 {
    } else {
        let i = first_nl(s) as int;
        lemma_first_nl(s);
        if i >= s.len() {
            assert(s.subrange(0, s.len() as int) =~= s);
            assert(spec_lines(s)[0] == s.subrange(0, s.len() as int));
        } else {
            let head = strip_cr(s.subrange(0, i));
            let rest = s.subrange(i + 1, s.len() as int);
            lemma_lines_are_subranges(rest);
            assert forall|k: int| 0 <= k < spec_lines(s).len() implies exists|a: int, b: int|
                0 <= a <= b <= s.len() && #[trigger] spec_lines(s)[k] == s.subrange(a, b) by {
                if k == 0 {
                    let piece = s.subrange(0, i);
                    if piece.len() > 0 && piece[piece.len() - 1] == '\r' {
                        assert(piece.drop_last() =~= s.subrange(0, i - 1));
                        assert(spec_lines(s)[0] == s.subrange(0, i - 1));
                    } else {
                        assert(spec_lines(s)[0] == s.subrange(0, i));
                    }
                } else {
                    assert(spec_lines(s)[k] == spec_lines(rest)[k - 1]);
                    let (a, b) = choose|a: int, b: int|
                        0 <= a <= b <= rest.len() && #[trigger] spec_lines(rest)[k - 1]
                            == rest.subrange(a, b);
                    assert(rest.subrange(a, b) =~= s.subrange(i + 1 + a, i + 1 + b));
                    assert(spec_lines(s)[k] == s.subrange(i + 1 + a, i + 1 + b));
                }
            }
        }
    }
}

/// Joining lines that are free of a newline-less pattern yields text free of
/// that pattern: the only characters the join inserts are newlines.
pub proof fn lemma_join_free(ls: Seq<Seq<char>>, pat: Seq<char>)
    requires
        pat.len() > 0,
        forall|m: int| 0 <= m < pat.len() ==> pat[m] != '\n',
        forall|k: int| 0 <= k < ls.len() ==> !contains_seq(#[trigger] ls[k], pat),
    ensures
        !contains_seq(spec_join_nl(ls), pat),
    decreases ls.len(),
{
    if ls.len() == 0 {
        assert forall|i: int| !match_at(spec_join_nl(ls), pat, i) by {}
    } else if ls.len() == 1 {
        assert(spec_join_nl(ls) == ls[0]);
    } else {
        lemma_join_free(ls.drop_last(), pat);
        let front = spec_join_nl(ls.drop_last());
        let last = ls.last();
        let joined = front + seq!['\n'] + last;
        let ln = front.len() as int;
        assert forall|i: int| !match_at(joined, pat, i) by {
            if match_at(joined, pat, i) {
                assert(joined.subrange(i, i + pat.len() as int) == pat);
                if i + pat.len() <= ln {
                    assert(front.subrange(i, i + pat.len() as int) =~= joined.subrange(
                        i,
                        i + pat.len() as int,
                    ));
                    assert(match_at(front, pat, i));
                    assert(contains_seq(front, pat));
                } else if i > ln {
                    let o = i - ln - 1;
                    assert(last.subrange(o, o + pat.len() as int) =~= joined.subrange(
                        i,
                        i + pat.len() as int,
                    ));
                    assert(match_at(last, pat, o));
                    assert(contains_seq(last, pat));
                    assert(ls[ls.len() - 1] == last);
                } else {
                    assert(joined[ln] == '\n');
                    assert(pat[ln - i] == joined.subrange(i, i + pat.len() as int)[ln - i]);
                    assert(pat[ln - i] == '\n');
                }
            }
        }
    }
}

/// The lowercase hexadecimal digit for a value below sixteen.
pub open spec fn hex_digit(d: int) -> char {
    if d == 0 {
        '0'
    } else if d == 1 {
        '1'
    } else if d == 2 {
        '2'
    } else if d == 3 {
        '3'
    } else if d == 4 {
        '4'
    } else if d == 5 {
        '5'
    } else if d == 6 {
        '6'
    } else if d == 7 {
        '7'
    } else if d == 8 {
        '8'
    } else if d == 9 {
        '9'
    } else if d == 10 {
        'a'
    } else if d == 11 {
        'b'
    } else if d == 12 {
        'c'
    } else if d == 13 {
        'd'
    } else if d == 14 {
        'e'
    } else {
        'f'
    }
}

fn hex_digit_exec(d: u32) -> (c: char)
    requires
        d < 16,
    ensures
        c == hex_digit(d as int),
{
    if d == 0 {
        '0'
    } else if d == 1 {
        '1'
    } else if d == 2 {
        '2'
    } else if d == 3 {
        '3'
    } else if d == 4 {
        '4'
    } else if d == 5 {
        '5'
    } else if d == 6 {
        '6'
    } else if d == 7 {
        '7'
    } else if d == 8 {
        '8'
    } else if d == 9 {
        '9'
    } else if d == 10 {
        'a'
    } else if d == 11 {
        'b'
    } else if d == 12 {
        'c'
    } else if d == 13 {
        'd'
    } else if d == 14 {
        'e'
    } else {
        'f'
    }
}

/// How one character appears inside a JSON string literal: quotes,
/// backslashes and control characters are escaped, everything else is kept.
pub open spec fn json_escape_char(c: char) -> Seq<char> {
    if c == '"' {
        seq!['\\', '"']
    } else if c == '\\' {
        seq!['\\', '\\']
    } else if c == '\u{8}' {
        seq!['\\', 'b']
    } else if c == '\t' {
        seq!['\\', 't']
    } else if c == '\n' {
        seq!['\\', 'n']
    } else if c == '\u{c}' {
        seq!['\\', 'f']
    } else if c == '\r' {
        seq!['\\', 'r']
    } else if (c as u32) < 32 {
        seq!['\\', 'u', '0', '0', hex_digit(c as int / 16), hex_digit(c as int % 16)]
    } else {
        seq![c]
    }
}

/// The body of a JSON string literal holding the text `s`.
pub open spec fn json_escape_seq(s: Seq<char>) -> Seq<char>
    decreases s.len(),
{
    if s.len() == 0 {
        Seq::empty()
    } else {
        json_escape_seq(s.drop_last()) + json_escape_char(s.last())
    }
}

/// Escape `s` for inclusion in a JSON string literal.
pub fn json_escape(s: &str) -> (r: String)
    ensures
        r@ == json_escape_seq(s@),
{
    let n = s.unicode_len();
    let mut out = String::new();
    let mut i: usize = 0;
    while i < n
        invariant
            n == s@.len(),
            i <= n,
            out@ == json_escape_seq(s@.subrange(0, i as int)),
        decreases n - i,
    {
        let c = s.get_char(i);
        if c == '"' {
            out.append("\\\"");
            proof {
                reveal_strlit("\\\"");
                assert("\\\""@ =~= json_escape_char(c));
            }
        } else if c == '\\' {
            out.append("\\\\");
            proof {
                reveal_strlit("\\\\");
                assert("\\\\"@ =~= json_escape_char(c));
            }
        } else if c == '\u{8}' {
            out.append("\\b");
            proof {
                reveal_strlit("\\b");
                assert("\\b"@ =~= json_escape_char(c));
            }
        } else if c == '\t' {
            out.append("\\t");
            proof {
                reveal_strlit("\\t");
                assert("\\t"@ =~= json_escape_char(c));
            }
        } else if c == '\n' {
            out.append("\\n");
            proof {
                reveal_strlit("\\n");
                assert("\\n"@ =~= json_escape_char(c));
            }
        } else if c == '\u{c}' {
            out.append("\\f");
            proof {
                reveal_strlit("\\f");
                assert("\\f"@ =~= json_escape_char(c));
            }
        } else if c == '\r' {
            out.append("\\r");
            proof {
                reveal_strlit("\\r");
                assert("\\r"@ =~= json_escape_char(c));
            }
        } else if (c as u32) < 32 {
            let v = c as u32;
            out.append("\\u00");
            push_char(&mut out, hex_digit_exec(v / 16));
            push_char(&mut out, hex_digit_exec(v % 16));
            proof {
                reveal_strlit("\\u00");
                assert("\\u00"@.push(hex_digit(v as int / 16)).push(hex_digit(v as int % 16))
                    =~= json_escape_char(c));
            }
        } else {
            push_char(&mut out, c);
            proof {
                assert(out@ =~= json_escape_seq(s@.subrange(0, i as int)) + json_escape_char(c));
            }
        }
        proof {
            assert(s@.subrange(0, (i + 1) as int).drop_last() =~= s@.subrange(0, i as int));
            assert(s@.subrange(0, (i + 1) as int).last() == s@[i as int]);
        }
        i += 1;
    }
    proof {
        assert(s@.subrange(0, n as int) =~= s@);
    }
    out
}

} // verus!

