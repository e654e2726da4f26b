//! Composing the outbound replies: the interim acknowledgment, the single
//! success reply with its bounded output sections, and the single error
//! reply. A reply is a structured embed of a title, a description, a color
//! and ordered (label, body, inline) fields.

use vstd::prelude::*;

use crate::errors::TaskMessageError;
use crate::playground::{
    spec_formatted_stderr, ExecutionResponse, PlaygroundTask, OUTPUT_LIMIT,
};
use crate::text::{spec_truncate, take_chars};

verus! {

/// One ordered field of a structured reply.
pub struct EmbedField {
    pub name: String,
    pub value: String,
    pub inline: bool,
}

/// A structured reply, ready for the chat gateway.
pub struct MessageEmbed {
    pub title: String,
    pub description: String,
    pub color: (u8, u8, u8),
    pub fields: Vec<EmbedField>,
}

/// The mathematical content of a field list.
pub open spec fn field_views(fs: Seq<EmbedField>) -> Seq<(Seq<char>, Seq<char>, bool)> {
    Seq::new(fs.len(), |i: int| (fs[i].name@, fs[i].value@, fs[i].inline))
}

/// An output section is wrapped in a plain code fence.
pub open spec fn spec_code_block(s: Seq<char>) -> Seq<char> {
    "```\n"@ + s + "```"@
}

/// The description of a successful reply, embedding the share link.
pub open spec fn spec_success_description(link: Seq<char>) -> Seq<char> {
    "Here is the code on the [Rust playground]("@ + link + ")."@
}

/// The fields of a successful reply: a stdout section only when stdout is
/// non-empty, then a stderr section only when the cleaned stderr is
/// non-empty.
pub open spec fn spec_success_fields(stdout: Seq<char>, stderr: Seq<char>) -> Seq<
    (Seq<char>, Seq<char>, bool),
> {
    (if stdout.len() > 0 {
        seq![("Stdout"@, spec_code_block(stdout), false)]
    } else {
        Seq::empty()
    }) + (if stderr.len() > 0 {
        seq![("Stderr"@, spec_code_block(stderr), false)]
    } else {
        Seq::empty()
    })
}

fn code_block(s: &str) -> (r: String)
    ensures
        r@ == spec_code_block(s@),
{
    let mut out = String::from_str("```\n");
    out.append(s);
    out.append("```");
    out
}

/// The interim acknowledgment sent as soon as a task starts running.
pub fn acknowledgement() -> (r: &'static str)
    ensures
        r@ == "Executing..."@,
{
    "Executing..."
}

/// The single reply for a completed run: fixed title, the share link in the
/// description, and the truncated stdout and cleaned stderr as optional
/// sections.
pub fn success_reply(task: &PlaygroundTask, share_link: &str, response: &ExecutionResponse) -> (r:
    MessageEmbed)
    ensures
        r.title@ == "Rust Playground"@,
        r.description@ == spec_success_description(share_link@),
        r.color == (222u8, 165u8, 132u8),
        field_views(r.fields@) == spec_success_fields(
            spec_truncate(response.stdout@, OUTPUT_LIMIT as int),
            spec_formatted_stderr(
                spec_truncate(response.stderr@, OUTPUT_LIMIT as int),
                task@.crate_type,
            ),
        ),
{
    let bounded = ExecutionResponse {
        success: response.success,
        stdout: take_chars(response.stdout.as_str(), OUTPUT_LIMIT),
        stderr: take_chars(response.stderr.as_str(), OUTPUT_LIMIT),
    };
    let stderr = bounded.get_formatted_stderr(task);
    let mut description = String::from_str("Here is the code on the [Rust playground](");
    description.append(share_link);
    description.append(").");
    let mut fields: Vec<EmbedField> = Vec::new();
    if !bounded.stdout.as_str().is_empty() {
        fields.push(
            EmbedField {
                name: String::from_str("Stdout"),
                value: code_block(bounded.stdout.as_str()),
                inline: false,
            },
        );
    }
    if !stderr.as_str().is_empty() {
        fields.push(
            EmbedField {
                name: String::from_str("Stderr"),
                value: code_block(stderr.as_str()),
                inline: false,
            },
        );
    }
    proof {
        assert(field_views(fields@) =~= spec_success_fields(
            spec_truncate(response.stdout@, OUTPUT_LIMIT as int),
            spec_formatted_stderr(
                spec_truncate(response.stderr@, OUTPUT_LIMIT as int),
                task@.crate_type,
            ),
        ));
    }
    MessageEmbed {
        title: String::from_str("Rust Playground"),
        description,
        color: (222, 165, 132),
        fields,
    }
}

/// How the remote phase of one command ended: both calls returned, or the
/// first failure aborted the flow.
pub enum RunOutcome {
    /// The sharing endpoint assigned an identifier and the execution
    /// endpoint reported a result.
    Completed { share_id: String, response: ExecutionResponse },
    /// A remote call or a delivery failed; no success reply is owed.
    Failed(TaskMessageError),
}

/// The single reply owed after the remote phase: the formatted result when
/// both calls returned, else the error reply carrying the failure.
pub fn conclude_run(task: &PlaygroundTask, outcome: RunOutcome) -> (r: MessageEmbed)
    ensures
        outcome matches RunOutcome::Completed { share_id, response } ==> {
            &&& r.title@ == "Rust Playground"@
            &&& r.description@ == spec_success_description(
                crate::playground::spec_share_link_url(task@.channel, share_id@),
            )
            &&& r.color == (222u8, 165u8, 132u8)
            &&& field_views(r.fields@) == spec_success_fields(
                spec_truncate(response.stdout@, OUTPUT_LIMIT as int),
                spec_formatted_stderr(
                    spec_truncate(response.stderr@, OUTPUT_LIMIT as int),
                    task@.crate_type,
                ),
            )
        },
        outcome matches RunOutcome::Failed(error) ==> {
            &&& r.title@ == "Rust Playground"@
            &&& r.description@ == "Error occured while evaluating **Rust**."@
            &&& r.color == (255u8, 35u8, 35u8)
            &&& field_views(r.fields@) == seq![("Message"@, error.spec_message(), false)]
        },
{
    match outcome {
        RunOutcome::Completed { share_id, response } => {
            let link = task.share_link_url(share_id.as_str());
            success_reply(task, link.as_str(), &response)
        },
        RunOutcome::Failed(error) => error_reply(&error),
    }
}

/// The single reply for any failure: fixed title and category line, with the
/// failure's own description as the one field.
pub fn error_reply(error: &TaskMessageError) -> (r: MessageEmbed)
    ensures
        r.title@ == "Rust Playground"@,
        r.description@ == "Error occured while evaluating **Rust**."@,
        r.color == (255u8, 35u8, 35u8),
        field_views(r.fields@) == seq![("Message"@, error.spec_message(), false)],
{
    let mut fields: Vec<EmbedField> = Vec::new();
    fields.push(
        EmbedField { name: String::from_str("Message"), value: error.message(), inline: false },
    );
    proof {
        assert(field_views(fields@) =~= seq![("Message"@, error.spec_message(), false)]);
    }
    MessageEmbed {
        title: String::from_str("Rust Playground"),
        description: String::from_str("Error occured while evaluating **Rust**."),
        color: (255, 35, 35),
        fields,
    }
}

} // verus!
