use playground_bot::errors::TaskMessageError;
use playground_bot::playground::{CrateType, ExecutionResponse, PlaygroundTask, RustChannel};
use playground_bot::reply::{acknowledgement, conclude_run, error_reply, success_reply, RunOutcome};

fn bin_task() -> PlaygroundTask {
    PlaygroundTask::new(
        String::from("fn main() {}"),
        RustChannel::Stable,
        CrateType::Bin,
    )
}

fn lib_task() -> PlaygroundTask {
    PlaygroundTask::new(String::from("#[test]\nfn t() {}"), RustChannel::Stable, CrateType::Lib)
}

fn response(stdout: &str, stderr: &str) -> ExecutionResponse {
    ExecutionResponse {
        success: true,
        stdout: String::from(stdout),
        stderr: String::from(stderr),
    }
}

#[test]
fn truncation_caps_both_streams_at_the_limit() {
    let mut resp = response(&"a".repeat(1000), &"b".repeat(2000));
    resp.truncate_for_display();
    assert_eq!(resp.stdout.len(), 900);
    assert_eq!(resp.stderr.len(), 900);
    assert_eq!(resp.stdout, "a".repeat(900));
}

#[test]
fn truncation_is_idempotent_and_keeps_short_output() {
    let mut resp = response(&"a".repeat(1000), "short");
    resp.truncate_for_display();
    let once = resp.clone();
    resp.truncate_for_display();
    assert_eq!(resp.stdout, once.stdout);
    assert_eq!(resp.stderr, "short");
    let mut small = response(&"x".repeat(900), "");
    small.truncate_for_display();
    assert_eq!(small.stdout, "x".repeat(900));
}

#[test]
fn failed_compile_keeps_header_stripped_prefix_only() {
    let stderr = "   Compiling playground\nerror[E0425]: cannot find value\nmore context\nerror: aborting due to previous error\n\nFor more information";
    let resp = response("", stderr);
    let cleaned = resp.get_formatted_stderr(&bin_task());
    assert_eq!(cleaned, "error[E0425]: cannot find value\nmore context");
    assert!(!cleaned.contains("error: aborting due to previous error"));
    let cleaned_lib = resp.get_formatted_stderr(&lib_task());
    assert_eq!(cleaned_lib, cleaned);
}

#[test]
fn library_stderr_is_kept_verbatim_without_marker() {
    let stderr = "running 1 test\ntest t ... ok";
    let resp = response("", stderr);
    assert_eq!(resp.get_formatted_stderr(&lib_task()), stderr);
}

#[test]
fn binary_stderr_drops_the_three_line_banner() {
    let stderr = "   Compiling playground v0.0.1\n    Finished dev\n     Running target\nactual output";
    let resp = response("", stderr);
    assert_eq!(resp.get_formatted_stderr(&bin_task()), "actual output");
}

#[test]
fn success_reply_includes_only_non_empty_sections() {
    let task = bin_task();
    let link = "https://play.rust-lang.org/?version=stable&mode=debug&edition=2018&gist=abc";
    let reply = success_reply(&task, link, &response("hi\n", ""));
    assert_eq!(reply.title, "Rust Playground");
    assert_eq!(
        reply.description,
        format!("Here is the code on the [Rust playground]({}).", link)
    );
    assert_eq!(reply.color, (222, 165, 132));
    assert_eq!(reply.fields.len(), 1);
    assert_eq!(reply.fields[0].name, "Stdout");
    assert_eq!(reply.fields[0].value, "```\nhi\n```");
    assert!(!reply.fields[0].inline);

    let both = success_reply(&task, link, &response("out", "a\nb\nc\nerr"));
    assert_eq!(both.fields.len(), 2);
    assert_eq!(both.fields[1].name, "Stderr");
    assert_eq!(both.fields[1].value, "```\nerr```");

    let neither = success_reply(&task, link, &response("", ""));
    assert_eq!(neither.fields.len(), 0);
}

#[test]
fn completed_run_concludes_with_the_formatted_reply() {
    let task = bin_task();
    let outcome = RunOutcome::Completed {
        share_id: String::from("abc123"),
        response: response("hi\n", ""),
    };
    let reply = conclude_run(&task, outcome);
    assert_eq!(reply.color, (222, 165, 132));
    assert_eq!(
        reply.description,
        "Here is the code on the [Rust playground](https://play.rust-lang.org/?version=stable&mode=debug&edition=2018&gist=abc123)."
    );
    assert_eq!(reply.fields.len(), 1);
    assert_eq!(reply.fields[0].value, "```\nhi\n```");
}

#[test]
fn failed_run_concludes_with_the_error_reply() {
    let task = bin_task();
    let outcome = RunOutcome::Failed(TaskMessageError::RequestError(String::from("timed out")));
    let reply = conclude_run(&task, outcome);
    assert_eq!(reply.color, (255, 35, 35));
    assert_eq!(reply.fields.len(), 1);
    assert_eq!(reply.fields[0].name, "Message");
    assert_eq!(reply.fields[0].value, "Http request error");
}

#[test]
fn error_reply_carries_the_failure_message() {
    let reply = error_reply(&TaskMessageError::InvalidRustChannel);
    assert_eq!(reply.title, "Rust Playground");
    assert_eq!(reply.description, "Error occured while evaluating **Rust**.");
    assert_eq!(reply.color, (255, 35, 35));
    assert_eq!(reply.fields.len(), 1);
    assert_eq!(reply.fields[0].name, "Message");
    assert_eq!(
        reply.fields[0].value,
        "Provided rust channel does not exist, please use Stable, Beta, or Nightly"
    );
}

#[test]
fn failure_messages_are_fixed() {
    assert_eq!(TaskMessageError::NoCode.message(), "No code provided");
    assert_eq!(TaskMessageError::InvalidCodeFormat.message(), "No code provided");
    assert_eq!(
        TaskMessageError::RequestError(String::from("timed out")).message(),
        "Http request error"
    );
    assert_eq!(
        TaskMessageError::DiscordError(String::from("gateway")).message(),
        "Error while sending discord message"
    );
}

#[test]
fn truncation_counts_characters_not_bytes() {
    let mut resp = response(&"é".repeat(1000), "");
    resp.truncate_for_display();
    assert_eq!(resp.stdout.chars().count(), 900);
    assert_eq!(resp.stdout, "é".repeat(900));
}

#[test]
fn marker_at_the_start_cleans_to_nothing() {
    let resp = response("", "error: aborting due to previous error\nrest");
    assert_eq!(resp.get_formatted_stderr(&bin_task()), "");
}

#[test]
fn empty_stderr_stays_empty_for_both_kinds() {
    let resp = response("", "");
    assert_eq!(resp.get_formatted_stderr(&bin_task()), "");
    assert_eq!(resp.get_formatted_stderr(&lib_task()), "");
}

#[test]
fn carriage_returns_are_dropped_at_line_ends() {
    let stderr = "one\r\ntwo\r\nthree\r\nfour\r\nfive";
    let resp = response("", stderr);
    assert_eq!(resp.get_formatted_stderr(&bin_task()), "four\nfive");
}

#[test]
fn acknowledgement_text_is_fixed() {
    assert_eq!(acknowledgement(), "Executing...");
}
