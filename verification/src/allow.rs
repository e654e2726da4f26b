//! The allow-list: the set of conversation identifiers (or wildcard
//! patterns) the bot is permitted to act in. Built once at startup from a
//! whitespace-separated configuration value, read-only afterwards. Pattern
//! matching itself is done by the `globset` crate behind trusted items.

use vstd::prelude::*;

use globset::GlobMatcher;

use crate::text::{
    is_space, lemma_skip_spaces, lemma_token_end, skip_spaces, spec_skip_spaces, spec_token_end,
    str_views, token_end,
};

verus! {

#[verifier::external_type_specification]
#[verifier::external_body]
pub struct ExGlobMatcher(GlobMatcher);

/// The glob pattern a matcher was compiled from.
pub uninterp spec fn glob_pattern(m: GlobMatcher) -> Seq<char>;

/// Whether a text is a well-formed glob pattern.
pub uninterp spec fn glob_ok(pattern: Seq<char>) -> bool;

/// Whether a glob pattern matches a candidate text.
pub uninterp spec fn glob_match(pattern: Seq<char>, text: Seq<char>) -> bool;

/// The longest pattern the list accepts. globset compiles each pattern to a
/// regex whose automaton is capped at ten megabytes, and it panics, rather
/// than erring, when a pattern that parsed as a glob overruns that cap; a
/// parsed glob cannot nest alternations, so its automaton grows by a small
/// constant per pattern character, and patterns within this bound stay far
/// under the cap.
pub const MAX_GLOB_PATTERN_LEN: usize = 4096;

/// Relies on globset::Glob::new and globset::Glob::compile_matcher: parsing
/// succeeds exactly for well-formed patterns, and a pattern that parses
/// compiles to a matcher for exactly that pattern. The length bound keeps
/// the compiled automaton far below the internal ten-megabyte cap beyond
/// which compile_matcher panics.
#[verifier::external_body]
fn compile_glob(pattern: &str) -> (r: Option<GlobMatcher>)
    requires
        pattern@.len() <= MAX_GLOB_PATTERN_LEN,
    ensures
        r is Some <==> glob_ok(pattern@),
        r matches Some(m) ==> glob_pattern(m) == pattern@,
{
    match globset::Glob::new(pattern) {
        Ok(g) => Some(g.compile_matcher()),
        Err(_) => None,
    }
}

/// Relies on globset::GlobMatcher::is_match: the result is a function of the
/// compiled pattern and the candidate text alone (the candidate is the text's
/// bytes, with path separators normalized the same way for equal texts).
#[verifier::external_body]
fn matcher_is_match(m: &GlobMatcher, text: &str) -> (r: bool)
    ensures
        r == glob_match(glob_pattern(*m), text@),
{
    m.is_match(text)
}

/// Some pattern of the list matches the identifier.
pub open spec fn spec_allowed(patterns: Seq<Seq<char>>, id: Seq<char>) -> bool {
    exists|i: int| 0 <= i < patterns.len() && glob_match(patterns[i], id)
}

/// The set of permitted conversation identifiers or patterns. Constructed
/// once at startup; never mutated afterwards.
pub struct AllowList {
    matchers: Vec<GlobMatcher>,
}

impl View for AllowList {
    type V = Seq<Seq<char>>;

    closed spec fn view(&self) -> Seq<Seq<char>> {
        Seq::new(self.matchers@.len(), |i: int| glob_pattern(self.matchers@[i]))
    }
}

impl AllowList {
    /// Compile each pattern entry; `None` exactly when some entry is over
    /// the length bound or is not a well-formed glob.
    pub fn new(patterns: &Vec<String>) -> (r: Option<AllowList>)
        ensures
            r is Some <==> (forall|i: int|
                0 <= i < patterns@.len() ==> (#[trigger] patterns@[i]@).len()
                    <= MAX_GLOB_PATTERN_LEN && glob_ok(patterns@[i]@)),
            r matches Some(a) ==> a@ == patterns@.map(|i: int, p: String| p@),
    {
        let mut matchers: Vec<GlobMatcher> = Vec::new();
        let n = patterns.len();
        let mut i: usize = 0;
        while i < n
            invariant
                n == patterns@.len(),
                i <= n,
                matchers@.len() == i,
                forall|j: int| 0 <= j < i ==> glob_pattern(#[trigger] matchers@[j]) == patterns@[j]@,
                forall|j: int|
                    0 <= j < i ==> (#[trigger] patterns@[j]@).len() <= MAX_GLOB_PATTERN_LEN
                        && glob_ok(patterns@[j]@),
            decreases n - i,
        {
            if patterns[i].as_str().unicode_len() > MAX_GLOB_PATTERN_LEN {
                return None;
            }
            match compile_glob(patterns[i].as_str()) {
                Some(m) => {
                    matchers.push(m);
                },
                None => {
                    return None;
                },
            }
            i += 1;
        }
        let list = AllowList { matchers };
        proof {
            assert(list@ =~= patterns@.map(|i: int, p: String| p@));
        }
        Some(list)
    }

    /// Whether a conversation identifier matches some pattern of the list.
    pub fn is_allowed(&self, id: &str) -> (r: bool)
        ensures
            r == spec_allowed(self@, id@),
    {
        let n = self.matchers.len();
        let mut i: usize = 0;
        while i < n
            invariant
                n == self.matchers@.len(),
                n == self@.len(),
                i <= n,
                forall|j: int| 0 <= j < i ==> !glob_match(#[trigger] self@[j], id@),
        decreases n - i,
        {
            proof {
                assert(self@[i as int] == glob_pattern(self.matchers@[i as int]));
            }
            if matcher_is_match(&self.matchers[i], id) {
                return true;
            }
            i += 1;
        }
        false
    }
}

/// The whitespace-separated entries of `s`, in order.
pub open spec fn spec_entries(s: Seq<char>, i: int) -> Seq<Seq<char>>
    decreases s.len() - i,
    when 0 <= i <= s.len()
    via spec_entries_decreases
{
    let a = spec_skip_spaces(s, i);
    if a >= s.len() {
        Seq::empty()
    } else {
        seq![s.subrange(a, spec_token_end(s, a))] + spec_entries(s, spec_token_end(s, a))
    }
}

#[via_fn]
proof fn spec_entries_decreases(s: Seq<char>, i: int) {
    lemma_skip_spaces(s, i);
    let a = spec_skip_spaces(s, i);
    if a < s.len() {
        lemma_token_end(s, a);
        assert(spec_token_end(s, a) > a) by {
            assert(!is_space(s[a]));
        }
    }
}

/// Split a configuration value into its whitespace-separated entries.
pub fn split_entries(s: &str) -> (r: Vec<String>)
    ensures
        str_views(r@) == spec_entries(s@, 0),
{
    let n = s.unicode_len();
    let mut res: Vec<String> = Vec::new();
    let mut pos: usize = 0;
    proof {
        assert(str_views(res@) + spec_entries(s@, 0) =~= spec_entries(s@, 0));
    }
    loop
        invariant
            n == s@.len(),
            pos <= n,
            spec_entries(s@, 0) == str_views(res@) + spec_entries(s@, pos as int),
        decreases n - pos,
    {
        let a = skip_spaces(s, pos);
        if a == n {
            proof {
                assert(spec_entries(s@, pos as int) =~= Seq::<Seq<char>>::empty());
                assert(str_views(res@) + Seq::<Seq<char>>::empty() =~= str_views(res@));
            }
            return res;
        }
        let e = token_end(s, a);
        proof {
            lemma_skip_spaces(s@, pos as int);
            lemma_token_end(s@, a as int);
            assert(e > a) by {
                assert(!is_space(s@[a as int]));
            }
        }
        let piece = String::from_str(s.substring_char(a, e));
        proof {
            assert(spec_entries(s@, pos as int) == seq![s@.subrange(a as int, e as int)]
                + spec_entries(s@, e as int));
            assert(str_views(res@.push(piece)) =~= str_views(res@) + seq![piece@]);
            assert((str_views(res@) + seq![piece@]) + spec_entries(s@, e as int) =~= str_views(
                res@,
            ) + (seq![piece@] + spec_entries(s@, e as int)));
        }
        res.push(piece);
        pos = e;
    }
}

} // verus!
