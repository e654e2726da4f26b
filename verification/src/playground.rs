//! The task model and the playground wire formats: which toolchain channel a
//! snippet runs on, whether it is a program or a test-harness library, the
//! immutable unit of work sent to the playground service, the JSON bodies of
//! the two remote requests, and the cleaning of compiler output for display.

use vstd::prelude::*;

use crate::text::{
    contains_seq, find_first, first_match_idx, json_escape, json_escape_seq, join_skip,
    lemma_first_match_idx, spec_drop_lines, spec_truncate, split_lines, take_chars,
};

verus! {

/// The Rust release channel a task is compiled on.
#[derive(Clone, Copy, Debug, PartialEq, Eq, Structural)]
pub enum RustChannel {
    Stable,
    Beta,
    Nightly,
}

impl RustChannel {
    /// The canonical lowercase name, used in request bodies and URLs.
    pub open spec fn spec_name(self) -> Seq<char> {
        match self {
            RustChannel::Stable => "stable"@,
            RustChannel::Beta => "beta"@,
            RustChannel::Nightly => "nightly"@,
        }
    }

    pub fn as_str(&self) -> (r: &'static str)
        ensures
            r@ == self.spec_name(),
    {
        match self {
            RustChannel::Stable => "stable",
            RustChannel::Beta => "beta",
            RustChannel::Nightly => "nightly",
        }
    }

    /// Parse a channel name, case-insensitively.
    pub fn from_str(s: &str) -> (r: Result<RustChannel, ()>)
        ensures
            spec_parse_channel(s@) matches Some(c) ==> r == Ok::<RustChannel, ()>(c),
            spec_parse_channel(s@) is None ==> r is Err,
    {
        if eq_ignore_case(s, "stable") {
            Ok(RustChannel::Stable)
        } else if eq_ignore_case(s, "beta") {
            Ok(RustChannel::Beta)
        } else if eq_ignore_case(s, "nightly") {
            Ok(RustChannel::Nightly)
        } else {
            Err(())
        }
    }
}

/// `t` is `p` up to ASCII case: either the same character, or the uppercase
/// form of a lowercase letter of `p`.
pub open spec fn char_matches_ci(t: char, p: char) -> bool {
    t == p || ('a' <= p && p <= 'z' && t as int + 32 == p as int)
}

/// `s` equals the lowercase word `p` up to ASCII case.
pub open spec fn eq_ignore_ascii_case(s: Seq<char>, p: Seq<char>) -> bool {
    s.len() == p.len() && forall|i: int| 0 <= i < s.len() ==> char_matches_ci(s[i], p[i])
}

/// The channel a user-supplied token names, if any.
pub open spec fn spec_parse_channel(s: Seq<char>) -> Option<RustChannel> {
    if eq_ignore_ascii_case(s, "stable"@) {
        Some(RustChannel::Stable)
    } else if eq_ignore_ascii_case(s, "beta"@) {
        Some(RustChannel::Beta)
    } else if eq_ignore_ascii_case(s, "nightly"@) {
        Some(RustChannel::Nightly)
    } else {
        None
    }
}

fn eq_ignore_case(s: &str, p: &str) -> (r: bool)
    ensures
        r == eq_ignore_ascii_case(s@, p@),
{
    let n = s.unicode_len();
    let m = p.unicode_len();
    if n != m {
        return false;
    }
    let mut i: usize = 0;
    while i < n
        invariant
            n == s@.len(),
            m == p@.len(),
            n == m,
            i <= n,
            forall|j: int| 0 <= j < i ==> char_matches_ci(s@[j], p@[j]),
        decreases n - i,
    {
        let tc = s.get_char(i);
        let pc = p.get_char(i);
        let ok = tc == pc || ('a' <= pc && pc <= 'z' && (tc as u32) + 32 == (pc as u32));
        if !ok {
            return false;
        }
        i += 1;
    }
    true
}

/// Whether the playground runs the snippet as an executable program or as a
/// test-harness library.
#[derive(Clone, Copy, Debug, PartialEq, Eq, Structural)]
pub enum CrateType {
    Lib,
    Bin,
}

impl CrateType {
    /// The name the execution endpoint expects in its `crateType` field.
    pub open spec fn spec_name(self) -> Seq<char> {
        match self {
            CrateType::Lib => "lib"@,
            CrateType::Bin => "bin"@,
        }
    }

    pub fn as_str(&self) -> (r: &'static str)
        ensures
            r@ == self.spec_name(),
    {
        match self {
            CrateType::Lib => "lib",
            CrateType::Bin => "bin",
        }
    }
}

/// The mathematical content of a task: every field the execution endpoint
/// receives.
pub struct TaskView {
    pub channel: RustChannel,
    pub mode: Seq<char>,
    pub edition: Seq<char>,
    pub crate_type: CrateType,
    pub tests: bool,
    pub code: Seq<char>,
    pub backtrace: bool,
}

impl TaskView {
    /// Every task the library builds satisfies this: the build mode and the
    /// edition are fixed, backtraces are off, tests run exactly for library
    /// snippets, and the extracted code is non-empty.
    pub open spec fn well_formed(self) -> bool {
        &&& self.mode == "debug"@
        &&& self.edition == "2018"@
        &&& !self.backtrace
        &&& self.tests == (self.crate_type == CrateType::Lib)
        &&& self.code.len() > 0
    }
}

/// One unit of work for the playground service, constructed once per inbound
/// command and immutable thereafter.
#[derive(Debug)]
pub struct PlaygroundTask {
    channel: RustChannel,
    mode: String,
    edition: String,
    pub crate_type: CrateType,
    tests: bool,
    code: String,
    backtrace: bool,
}

impl View for PlaygroundTask {
    type V = TaskView;

    closed spec fn view(&self) -> TaskView {
        TaskView {
            channel: self.channel,
            mode: self.mode@,
            edition: self.edition@,
            crate_type: self.crate_type,
            tests: self.tests,
            code: self.code@,
            backtrace: self.backtrace,
        }
    }
}

/// The JSON text `true` or `false`.
pub open spec fn spec_bool_text(b: bool) -> Seq<char> {
    if b {
        "true"@
    } else {
        "false"@
    }
}

fn bool_text(b: bool) -> (r: &'static str)
    ensures
        r@ == spec_bool_text(b),
{
    if b {
        "true"
    } else {
        "false"
    }
}

/// The JSON body sent to the execution endpoint.
pub open spec fn spec_execute_body(t: TaskView) -> Seq<char> {
    "{\"channel\":\""@ + t.channel.spec_name() + "\",\"mode\":\""@ + t.mode
        + "\",\"edition\":\""@ + t.edition + "\",\"crateType\":\""@ + t.crate_type.spec_name()
        + "\",\"tests\":"@ + spec_bool_text(t.tests) + ",\"code\":\""@ + json_escape_seq(t.code)
        + "\",\"backtrace\":"@ + spec_bool_text(t.backtrace) + "}"@
}

/// The JSON body sent to the sharing endpoint.
pub open spec fn spec_share_body(t: TaskView) -> Seq<char> {
    "{\"code\":\""@ + json_escape_seq(t.code) + "\"}"@
}

/// The display URL for a persisted copy of the code, embedding the channel
/// and the remote-assigned identifier verbatim.
pub open spec fn spec_share_link_url(channel: RustChannel, id: Seq<char>) -> Seq<char> {
    "https://play.rust-lang.org/?version="@ + channel.spec_name()
        + "&mode=debug&edition=2018&gist="@ + id
}

impl PlaygroundTask {
    pub fn new(code: String, channel: RustChannel, crate_type: CrateType) -> (r: Self)
        requires
            code@.len() > 0,
        ensures
            r@.channel == channel,
            r@.crate_type == crate_type,
            r@.code == code@,
            r@.tests == (crate_type == CrateType::Lib),
            r@.well_formed(),
    {
        PlaygroundTask {
            mode: String::from_str("debug"),
            edition: String::from_str("2018"),
            backtrace: false,
            tests: crate_type == CrateType::Lib,
            crate_type,
            channel,
            code,
        }
    }

    pub fn channel(&self) -> (r: RustChannel)
        ensures
            r == self@.channel,
    {
        self.channel
    }

    pub fn tests(&self) -> (r: bool)
        ensures
            r == self@.tests,
    {
        self.tests
    }

    pub fn code(&self) -> (r: &str)
        ensures
            r@ == self@.code,
    {
        self.code.as_str()
    }

    /// The serialized form of the whole task, as the execution endpoint
    /// expects it.
    pub fn execute_request_body(&self) -> (r: String)
        ensures
            r@ == spec_execute_body(self@),
    {
        let mut out = String::from_str("{\"channel\":\"");
        out.append(self.channel.as_str());
        out.append("\",\"mode\":\"");
        out.append(self.mode.as_str());
        out.append("\",\"edition\":\"");
        out.append(self.edition.as_str());
        out.append("\",\"crateType\":\"");
        out.append(self.crate_type.as_str());
        out.append("\",\"tests\":");
        out.append(bool_text(self.tests));
        out.append(",\"code\":\"");
        let escaped = json_escape(self.code.as_str());
        out.append(escaped.as_str());
        out.append("\",\"backtrace\":");
        out.append(bool_text(self.backtrace));
        out.append("}");
        out
    }

    /// The serialized form of the code alone, as the sharing endpoint
    /// expects it.
    pub fn share_request_body(&self) -> (r: String)
        ensures
            r@ == spec_share_body(self@),
    {
        let mut out = String::from_str("{\"code\":\"");
        let escaped = json_escape(self.code.as_str());
        out.append(escaped.as_str());
        out.append("\"}");
        out
    }

    /// The display URL for the persisted copy of the code, given the
    /// identifier `id` that the sharing endpoint chose for it.
    pub fn share_link_url(&self, id: &str) -> (r: String)
        ensures
            r@ == spec_share_link_url(self@.channel, id@),
    {
        let mut out = String::from_str("https://play.rust-lang.org/?version=");
        out.append(self.channel.as_str());
        out.append("&mode=debug&edition=2018&gist=");
        out.append(id);
        out
    }
}

/// The URL of the execution endpoint.
pub fn execute_endpoint() -> (r: &'static str)
    ensures
        r@ == "https://play.rust-lang.org/execute"@,
{
    "https://play.rust-lang.org/execute"
}

/// The URL of the sharing endpoint.
pub fn share_endpoint() -> (r: &'static str)
    ensures
        r@ == "https://play.rust-lang.org/meta/gist/"@,
{
    "https://play.rust-lang.org/meta/gist/"
}

/// A share link always embeds the channel name and the remote identifier
/// verbatim.
pub proof fn lemma_share_link_embeds(channel: RustChannel, id: Seq<char>)
    ensures
        contains_seq(spec_share_link_url(channel, id), channel.spec_name()),
        contains_seq(spec_share_link_url(channel, id), id),
{
    let a = "https://play.rust-lang.org/?version="@;
    let b = "&mode=debug&edition=2018&gist="@;
    let name = channel.spec_name();
    let url = spec_share_link_url(channel, id);
    assert(url.subrange(a.len() as int, (a.len() + name.len()) as int) =~= name);
    assert(crate::text::match_at(url, name, a.len() as int));
    let p = (a.len() + name.len() + b.len()) as int;
    assert(url.subrange(p, p + id.len() as int) =~= id);
    assert(crate::text::match_at(url, id, p));
}

/// The maximum number of characters of stdout or stderr that is kept for
/// display.
pub const OUTPUT_LIMIT: usize = 900;

/// How many leading lines are dropped from the text before the
/// terminal-failure marker: the repeated diagnostic header the compiler
/// emits before the first real diagnostic.
pub const FAILED_COMPILE_HEADER_LINES: usize = 1;

/// How many leading lines are dropped from the output of a successful
/// program-mode compile: the fixed banner that invocation always emits.
pub const BINARY_BANNER_LINES: usize = 3;

/// The diagnostic the compiler ends a failed build with.
pub open spec fn abort_marker() -> Seq<char> {
    "error: aborting due to previous error"@
}

/// The cleaned view of compiler output: for a failed compile, the text
/// before the terminal-failure marker with its first line dropped; for a
/// library run, the output unchanged; for a program run, the output with its
/// fixed three-line banner dropped.
pub open spec fn spec_formatted_stderr(stderr: Seq<char>, crate_type: CrateType) -> Seq<char> {
    if contains_seq(stderr, abort_marker()) {
        spec_drop_lines(
            stderr.subrange(0, first_match_idx(stderr, abort_marker())),
            FAILED_COMPILE_HEADER_LINES as int,
        )
    } else if crate_type == CrateType::Lib {
        stderr
    } else {
        spec_drop_lines(stderr, BINARY_BANNER_LINES as int)
    }
}

/// The outcome of a remote run, as the execution endpoint reports it.
#[derive(Clone, Debug)]
pub struct ExecutionResponse {
    pub success: bool,
    pub stdout: String,
    pub stderr: String,
}

impl ExecutionResponse {
    /// Cut both output streams to the display limit, so that the reply never
    /// exceeds downstream message-size bounds.
    pub fn truncate_for_display(&mut self)
        ensures
            final(self).success == old(self).success,
            final(self).stdout@ == spec_truncate(old(self).stdout@, OUTPUT_LIMIT as int),
            final(self).stderr@ == spec_truncate(old(self).stderr@, OUTPUT_LIMIT as int),
    {
        let stdout = take_chars(self.stdout.as_str(), OUTPUT_LIMIT);
        self.stdout = stdout;
        let stderr = take_chars(self.stderr.as_str(), OUTPUT_LIMIT);
        self.stderr = stderr;
    }

    /// Formats the stderr to have a cleaner output with less noise.
    pub fn get_formatted_stderr(&self, task: &PlaygroundTask) -> (r: String)
        ensures
            r@ == spec_formatted_stderr(self.stderr@, task@.crate_type),
    {
        match find_first(self.stderr.as_str(), "error: aborting due to previous error") {
            Some(i) => {
                proof {
                    lemma_first_match_idx(self.stderr@, abort_marker(), i as int);
                }
                let prefix = self.stderr.as_str().substring_char(0, i);
                let lines = split_lines(prefix);
                join_skip(&lines, FAILED_COMPILE_HEADER_LINES)
            },
            None => {
                match task.crate_type {
                    CrateType::Lib => self.stderr.clone(),
                    CrateType::Bin => {
                        let lines = split_lines(self.stderr.as_str());
                        join_skip(&lines, BINARY_BANNER_LINES)
                    },
                }
            },
        }
    }
}

/// The terminal-failure marker is thirty-seven characters long and holds no
/// newline.
pub proof fn lemma_marker_has_no_newline()
    ensures
        abort_marker().len() == 37,
        forall|m: int| 0 <= m < abort_marker().len() ==> abort_marker()[m] != '\n',
{
    reveal_strlit("error: aborting due to previous error");
    assert(abort_marker().len() == 37);
    assert forall|m: int| 0 <= m < abort_marker().len() implies abort_marker()[m] != '\n' by {
        assert(m == 0 || m == 1 || m == 2 || m == 3 || m == 4 || m == 5 || m == 6 || m == 7 || m
            == 8 || m == 9 || m == 10 || m == 11 || m == 12 || m == 13 || m == 14 || m == 15 || m
            == 16 || m == 17 || m == 18 || m == 19 || m == 20 || m == 21 || m == 22 || m == 23 || m
            == 24 || m == 25 || m == 26 || m == 27 || m == 28 || m == 29 || m == 30 || m == 31 || m
            == 32 || m == 33 || m == 34 || m == 35 || m == 36);
    }
}

/// Cleaning the output of a failed compile keeps only the header-stripped
/// prefix before the terminal-failure marker, and the result never contains
/// the marker itself.
pub proof fn lemma_failed_compile_cleaning(stderr: Seq<char>, crate_type: CrateType)
    requires
        contains_seq(stderr, abort_marker()),
    ensures
        spec_formatted_stderr(stderr, crate_type) == spec_drop_lines(
            stderr.subrange(0, first_match_idx(stderr, abort_marker())),
            FAILED_COMPILE_HEADER_LINES as int,
        ),
        !contains_seq(spec_formatted_stderr(stderr, crate_type), abort_marker()),
{
    let pat = abort_marker();
    lemma_marker_has_no_newline();
    let w = choose|i: int| crate::text::match_at(stderr, pat, i);
    crate::text::lemma_first_match_exists(stderr, pat, w);
    let f = first_match_idx(stderr, pat);
    let prefix = stderr.subrange(0, f);
    assert(!contains_seq(prefix, pat)) by {
        if exists|j: int| crate::text::match_at(prefix, pat, j) {
            let j = choose|j: int| crate::text::match_at(prefix, pat, j);
            assert(stderr.subrange(j, j + 37) =~= prefix.subrange(j, j + 37));
            assert(crate::text::match_at(stderr, pat, j));
            assert(!crate::text::match_at(stderr, pat, j));
        }
    }
    let ls = crate::text::spec_lines(prefix);
    crate::text::lemma_lines_are_subranges(prefix);
    assert forall|k: int| 0 <= k < ls.len() implies !contains_seq(#[trigger] ls[k], pat) by {
        let (a, b) = choose|a: int, b: int|
            0 <= a <= b <= prefix.len() && #[trigger] crate::text::spec_lines(prefix)[k]
                == prefix.subrange(a, b);
        if contains_seq(ls[k], pat) {
            crate::text::lemma_contains_of_subrange(prefix, pat, a, b);
        }
    }
    let kept = crate::text::spec_skip_lines(ls, FAILED_COMPILE_HEADER_LINES as int);
    assert forall|k: int| 0 <= k < kept.len() implies !contains_seq(#[trigger] kept[k], pat) by {
        assert(kept[k] == ls[k + 1]);
    }
    crate::text::lemma_join_free(kept, pat);
}

/// Truncation is idempotent, and output already within the bound is never
/// altered.
pub proof fn lemma_truncate_idempotent(s: Seq<char>, bound: int)
    requires
        0 <= bound,
    ensures
        spec_truncate(spec_truncate(s, bound), bound) == spec_truncate(s, bound),
        s.len() <= bound ==> spec_truncate(s, bound) == s,
{
}

} // verus!
