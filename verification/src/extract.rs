//! The command extractor: decides whether an inbound chat message is an
//! execution command, and if so turns it into a task. A message counts only
//! when it carries the command prefix and arrives in an allow-listed
//! conversation; the optional leading token picks the channel; the code is
//! everything between the first opening fence and the last closing fence.

use vstd::prelude::*;

use crate::allow::{spec_allowed, AllowList};
use crate::errors::TaskMessageError;
use crate::playground::{spec_parse_channel, CrateType, PlaygroundTask, RustChannel};
use crate::text::{
    contains_seq, contains_str, find_first, find_last_from, first_match_idx, is_space,
    is_space_exec, last_match_idx_from, lemma_first_match_idx, lemma_last_match_idx_from,
    lemma_skip_spaces, lemma_token_end, match_at, match_at_exec, skip_spaces, spec_skip_spaces,
    spec_token_end, token_end,
};

verus! {

/// The message opens with the command prefix, either alone or followed by a
/// separator.
pub open spec fn spec_is_command(content: Seq<char>) -> bool {
    &&& content.len() >= 5
    &&& content.subrange(0, 5) == "!rust"@
    &&& (content.len() == 5 || is_space(content[5]))
}

/// Where the argument text begins.
pub open spec fn spec_args_start(content: Seq<char>) -> int {
    spec_skip_spaces(content, 5)
}

/// Where the first argument token ends.
pub open spec fn spec_first_token_end(content: Seq<char>) -> int {
    spec_token_end(content, spec_args_start(content))
}

/// The first argument token.
pub open spec fn spec_first_token(content: Seq<char>) -> Seq<char> {
    content.subrange(spec_args_start(content), spec_first_token_end(content))
}

/// The first token is itself the start of a fenced code block, so no channel
/// token was given.
pub open spec fn spec_token_starts_fence(content: Seq<char>) -> bool {
    &&& spec_first_token_end(content) - spec_args_start(content) >= 7
    &&& content.subrange(spec_args_start(content), spec_args_start(content) + 7) == "```rust"@
}

/// The channel the command selects: the default when the code block starts
/// immediately, otherwise whatever the leading token names.
pub open spec fn spec_command_channel(content: Seq<char>) -> Option<RustChannel> {
    if spec_token_starts_fence(content) {
        Some(RustChannel::Stable)
    } else {
        spec_parse_channel(spec_first_token(content))
    }
}

/// Where the text searched for the code block begins.
pub open spec fn spec_code_start(content: Seq<char>) -> int {
    if spec_token_starts_fence(content) {
        spec_args_start(content)
    } else {
        spec_skip_spaces(content, spec_first_token_end(content))
    }
}

/// The text searched for the code block.
pub open spec fn spec_code_text(content: Seq<char>) -> Seq<char> {
    content.subrange(spec_code_start(content), content.len() as int)
}

/// The body of the fenced block in `t`: everything between the first opening
/// fence and the last closing fence after it, if both exist.
pub open spec fn spec_fence_body(t: Seq<char>) -> Option<Seq<char>> {
    if !contains_seq(t, "```rust\n"@) {
        None
    } else {
        let bs = first_match_idx(t, "```rust\n"@) + 8;
        if exists|j: int| bs <= j && match_at(t, "```"@, j) {
            Some(t.subrange(bs, last_match_idx_from(t, "```"@, bs)))
        } else {
            None
        }
    }
}

/// The code a well-formed command carries: a non-empty fence body.
pub open spec fn spec_extracted_code(content: Seq<char>) -> Option<Seq<char>> {
    match spec_fence_body(spec_code_text(content)) {
        None => None,
        Some(b) => if b.len() == 0 {
            None
        } else {
            Some(b)
        },
    }
}

/// A snippet is a program exactly when it contains the entry-point marker.
pub open spec fn spec_crate_type_of(code: Seq<char>) -> CrateType {
    if contains_seq(code, "fn main"@) {
        CrateType::Bin
    } else {
        CrateType::Lib
    }
}

/// Code that carries a test attribute and no entry-point marker runs as a
/// test-harness library, and every well-formed task over such code has its
/// tests flag set.
pub proof fn lemma_test_snippet_runs_as_library(code: Seq<char>)
    requires
        contains_seq(code, "#[test]"@),
        !contains_seq(code, "fn main"@),
    ensures
        spec_crate_type_of(code) == CrateType::Lib,
        forall|t: crate::playground::TaskView|
            (#[trigger] t.well_formed()) && t.crate_type == spec_crate_type_of(code) ==> t.tests,
{
}

/// What the extractor decides for one inbound message.
pub enum CommandOutcome {
    /// Not a command, or not a permitted conversation: no reply is owed.
    Ignored,
    /// A malformed command: the error reply is owed, and no remote call is
    /// made.
    Rejected(TaskMessageError),
    /// A well-formed command: the task to run.
    Accepted(PlaygroundTask),
}

/// Extract an execution task from one inbound message.
///
/// The outcome is `Ignored` exactly when the message is no command or the
/// conversation is not allow-listed; each rejection names the first rule the
/// command breaks; an accepted task carries the selected channel, the fence
/// body as its code, and the crate type inferred from the entry-point
/// marker.
pub fn extract_task(allow: &AllowList, conversation_id: &str, content: &str) -> (r: CommandOutcome)
    ensures
        (r is Ignored) <==> (!spec_allowed(allow@, conversation_id@) || !spec_is_command(
            content@,
        )),
        (r == CommandOutcome::Rejected(TaskMessageError::NoCode)) <==> (spec_allowed(
            allow@,
            conversation_id@,
        ) && spec_is_command(content@) && spec_args_start(content@) >= content@.len()),
        (r == CommandOutcome::Rejected(TaskMessageError::InvalidRustChannel)) <==> (spec_allowed(
            allow@,
            conversation_id@,
        ) && spec_is_command(content@) && spec_args_start(content@) < content@.len()
            && spec_command_channel(content@) is None),
        (r == CommandOutcome::Rejected(TaskMessageError::InvalidCodeFormat)) <==> (spec_allowed(
            allow@,
            conversation_id@,
        ) && spec_is_command(content@) && spec_args_start(content@) < content@.len()
            && spec_command_channel(content@) is Some && spec_extracted_code(content@) is None),
        (r is Accepted) <==> (spec_allowed(allow@, conversation_id@) && spec_is_command(content@)
            && spec_args_start(content@) < content@.len() && spec_command_channel(
            content@,
        ) is Some && spec_extracted_code(content@) is Some),
        r matches CommandOutcome::Accepted(task) ==> {
            &&& task@.channel == spec_command_channel(content@)->0
            &&& task@.code == spec_extracted_code(content@)->0
            &&& task@.crate_type == spec_crate_type_of(task@.code)
            &&& task@.well_formed()
        },
{
    if !allow.is_allowed(conversation_id) {
        return CommandOutcome::Ignored;
    }
    let n = content.unicode_len();
    proof {
        reveal_strlit("!rust");
    }
    if n < 5 {
        return CommandOutcome::Ignored;
    }
    if !match_at_exec(content, "!rust", 0) {
        proof {
            assert(!spec_is_command(content@)) by {
                if content@.subrange(0, 5) == "!rust"@ {
                    assert(match_at(content@, "!rust"@, 0));
                }
            }
        }
        return CommandOutcome::Ignored;
    }
    if n > 5 && !is_space_exec(content.get_char(5)) {
        return CommandOutcome::Ignored;
    }
    assert(spec_is_command(content@));
    let a = skip_spaces(content, 5);
    proof {
        lemma_skip_spaces(content@, 5);
    }
    if a == n {
        return CommandOutcome::Rejected(TaskMessageError::NoCode);
    }
    let e = token_end(content, a);
    proof {
        lemma_token_end(content@, a as int);
        reveal_strlit("```rust");
    }
    let fence_token = e - a >= 7 && match_at_exec(content, "```rust", a);
    proof {
        assert(fence_token == spec_token_starts_fence(content@)) by {
            if e - a >= 7 {
                assert(match_at(content@, "```rust"@, a as int) <==> content@.subrange(
                    a as int,
                    a + 7,
                ) == "```rust"@);
            }
        }
    }
    let channel: RustChannel;
    let code_start: usize;
    if fence_token {
        channel = RustChannel::Stable;
        code_start = a;
    } else {
        let token = content.substring_char(a, e);
        assert(token@ == spec_first_token(content@));
        match RustChannel::from_str(token) {
            Ok(c) => {
                channel = c;
            },
            Err(_) => {
                return CommandOutcome::Rejected(TaskMessageError::InvalidRustChannel);
            },
        }
        code_start = skip_spaces(content, e);
    }
    assert(spec_command_channel(content@) == Some(channel));
    assert(code_start == spec_code_start(content@));
    let code_text = content.substring_char(code_start, n);
    assert(code_text@ == spec_code_text(content@));
    proof {
        reveal_strlit("```rust\n");
        reveal_strlit("```");
    }
    let oi = match find_first(code_text, "```rust\n") {
        Some(oi) => oi,
        None => {
            assert(spec_extracted_code(content@) is None);
            return CommandOutcome::Rejected(TaskMessageError::InvalidCodeFormat);
        },
    };
    proof {
        lemma_first_match_idx(code_text@, "```rust\n"@, oi as int);
    }
    let bs = oi + 8;
    let ci = match find_last_from(code_text, "```", bs) {
        Some(ci) => ci,
        None => {
            assert(spec_extracted_code(content@) is None) by {
                assert(!(exists|j: int| bs <= j && match_at(code_text@, "```"@, j)));
            }
            return CommandOutcome::Rejected(TaskMessageError::InvalidCodeFormat);
        },
    };
    proof {
        lemma_last_match_idx_from(code_text@, "```"@, bs as int, ci as int);
    }
    if ci == bs {
        assert(spec_extracted_code(content@) is None);
        return CommandOutcome::Rejected(TaskMessageError::InvalidCodeFormat);
    }
    let body = code_text.substring_char(bs, ci);
    assert(spec_extracted_code(content@) == Some(body@));
    let crate_type = if contains_str(body, "fn main") {
        CrateType::Bin
    } else {
        CrateType::Lib
    };
    assert(crate_type == spec_crate_type_of(body@));
    let code = String::from_str(body);
    let task = PlaygroundTask::new(code, channel, crate_type);
    CommandOutcome::Accepted(task)
}

} // verus!
