use playground_bot::allow::{split_entries, AllowList};
use playground_bot::errors::TaskMessageError;
use playground_bot::extract::{extract_task, CommandOutcome};
use playground_bot::playground::{CrateType, PlaygroundTask, RustChannel};

fn allow_all() -> AllowList {
    AllowList::new(&vec![String::from("*")]).expect("valid pattern")
}

#[test]
fn stable_binary_command() {
    let list = allow_all();
    let content = String::from("!rust ```rust\nfn main() { println!(\"hi\"); }\n```");
    match extract_task(&list, "123", &content) {
        CommandOutcome::Accepted(task) => {
            assert_eq!(task.channel(), RustChannel::Stable);
            assert_eq!(task.crate_type, CrateType::Bin);
            assert!(!task.tests());
            assert_eq!(task.code(), "fn main() { println!(\"hi\"); }\n");
        }
        _ => panic!("expected an accepted task"),
    }
}

#[test]
fn beta_test_command() {
    let list = allow_all();
    let content = String::from("!rust beta ```rust\n#[test]\nfn t() { assert!(true); }\n```");
    match extract_task(&list, "123", &content) {
        CommandOutcome::Accepted(task) => {
            assert_eq!(task.channel(), RustChannel::Beta);
            assert_eq!(task.crate_type, CrateType::Lib);
            assert!(task.tests());
        }
        _ => panic!("expected an accepted task"),
    }
}

#[test]
fn missing_fence_is_invalid_code_format() {
    let list = allow_all();
    let content = String::from("!rust stable just text");
    match extract_task(&list, "123", &content) {
        CommandOutcome::Rejected(TaskMessageError::InvalidCodeFormat) => {}
        _ => panic!("expected an invalid-code-format rejection"),
    }
}

#[test]
fn unknown_channel_token_is_invalid_channel() {
    let list = allow_all();
    let content = String::from("!rust foo ```rust\nfn main() {}\n```");
    match extract_task(&list, "123", &content) {
        CommandOutcome::Rejected(TaskMessageError::InvalidRustChannel) => {}
        _ => panic!("expected an invalid-channel rejection"),
    }
}

#[test]
fn channel_only_token_without_fence_is_invalid_channel() {
    let list = allow_all();
    let content = String::from("!rust just text");
    match extract_task(&list, "123", &content) {
        CommandOutcome::Rejected(TaskMessageError::InvalidRustChannel) => {}
        _ => panic!("expected an invalid-channel rejection"),
    }
}

#[test]
fn non_command_text_is_ignored() {
    let list = allow_all();
    let content = String::from("hello there");
    match extract_task(&list, "123", &content) {
        CommandOutcome::Ignored => {}
        _ => panic!("expected the message to be ignored"),
    }
}

#[test]
fn disallowed_conversation_is_ignored() {
    let list = AllowList::new(&vec![String::from("42")]).expect("valid pattern");
    let content = String::from("!rust ```rust\nfn main() {}\n```");
    match extract_task(&list, "99", &content) {
        CommandOutcome::Ignored => {}
        _ => panic!("expected the message to be ignored"),
    }
}

#[test]
fn wildcard_pattern_gates_conversations() {
    let list = AllowList::new(&vec![String::from("12*")]).expect("valid pattern");
    assert!(list.is_allowed("123"));
    assert!(list.is_allowed("12"));
    assert!(!list.is_allowed("456"));
    assert!(!list.is_allowed("312"));
}

#[test]
fn invalid_pattern_is_refused() {
    assert!(AllowList::new(&vec![String::from("[")]).is_none());
}

#[test]
fn over_long_pattern_is_refused() {
    assert!(AllowList::new(&vec!["a".repeat(4097)]).is_none());
    assert!(AllowList::new(&vec![String::from("*"), "b".repeat(10_000)]).is_none());
}

#[test]
fn pattern_at_the_length_bound_is_accepted() {
    let pattern = "a".repeat(4096);
    let list = AllowList::new(&vec![pattern.clone()]).expect("valid pattern");
    assert!(list.is_allowed(&pattern));
    assert!(!list.is_allowed("a"));
}

#[test]
fn empty_arguments_are_no_code() {
    let list = allow_all();
    for content in ["!rust", "!rust   "] {
        match extract_task(&list, "123", &String::from(content)) {
            CommandOutcome::Rejected(TaskMessageError::NoCode) => {}
            _ => panic!("expected a no-code rejection"),
        }
    }
}

#[test]
fn empty_fence_body_is_invalid_code_format() {
    let list = allow_all();
    let content = String::from("!rust ```rust\n```");
    match extract_task(&list, "123", &content) {
        CommandOutcome::Rejected(TaskMessageError::InvalidCodeFormat) => {}
        _ => panic!("expected an invalid-code-format rejection"),
    }
}

#[test]
fn channel_token_is_case_insensitive() {
    let list = allow_all();
    let content = String::from("!rust NIGHTLY ```rust\n#[test]\nfn t() {}\n```");
    match extract_task(&list, "123", &content) {
        CommandOutcome::Accepted(task) => {
            assert_eq!(task.channel(), RustChannel::Nightly);
        }
        _ => panic!("expected an accepted task"),
    }
}

#[test]
fn fence_capture_is_greedy_to_last_close() {
    let list = allow_all();
    let content = String::from("!rust ```rust\ncode``` more ```");
    match extract_task(&list, "123", &content) {
        CommandOutcome::Accepted(task) => {
            assert_eq!(task.code(), "code``` more ");
            assert_eq!(task.crate_type, CrateType::Lib);
        }
        _ => panic!("expected an accepted task"),
    }
}

#[test]
fn channel_parsing_by_name() {
    assert_eq!(RustChannel::from_str("Stable"), Ok(RustChannel::Stable));
    assert_eq!(RustChannel::from_str("beta"), Ok(RustChannel::Beta));
    assert_eq!(RustChannel::from_str("NIGHTLY"), Ok(RustChannel::Nightly));
    assert_eq!(RustChannel::from_str("foo"), Err(()));
    assert_eq!(RustChannel::from_str(""), Err(()));
}

#[test]
fn task_fields_are_fixed_by_construction() {
    let task = PlaygroundTask::new(
        String::from("#[test]\nfn it_works() {\n\tassert!(true)\n}"),
        RustChannel::Stable,
        CrateType::Lib,
    );
    assert!(task.tests());
    assert_eq!(task.crate_type, CrateType::Lib);
    let task = PlaygroundTask::new(
        String::from("fn main() {\n\tprintln!(\"Hello, world!\");\n}"),
        RustChannel::Stable,
        CrateType::Bin,
    );
    assert!(!task.tests());
    assert_eq!(task.crate_type, CrateType::Bin);
}

#[test]
fn prefix_must_end_at_a_separator() {
    let list = allow_all();
    for content in ["!rusty things", "!rust```rust\nfn main() {}\n```", "!rus"] {
        match extract_task(&list, "123", &String::from(content)) {
            CommandOutcome::Ignored => {}
            _ => panic!("expected the message to be ignored"),
        }
    }
}

#[test]
fn channel_token_without_code_is_invalid_code_format() {
    let list = allow_all();
    match extract_task(&list, "123", &String::from("!rust beta")) {
        CommandOutcome::Rejected(TaskMessageError::InvalidCodeFormat) => {}
        _ => panic!("expected an invalid-code-format rejection"),
    }
}

#[test]
fn config_entries_split_on_whitespace() {
    let entries = split_entries("a b  c\n d\t");
    let views: Vec<&str> = entries.iter().map(|s| s.as_str()).collect();
    assert_eq!(views, vec!["a", "b", "c", "d"]);
    assert!(split_entries("   ").is_empty());
}
