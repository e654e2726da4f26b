use playground_bot::playground::{
    execute_endpoint, share_endpoint, CrateType, PlaygroundTask, RustChannel,
};

#[test]
fn execute_body_serializes_the_whole_task() {
    let task = PlaygroundTask::new(
        String::from("fn main() {\n\tprintln!(\"hi\");\n}"),
        RustChannel::Stable,
        CrateType::Bin,
    );
    assert_eq!(
        task.execute_request_body(),
        "{\"channel\":\"stable\",\"mode\":\"debug\",\"edition\":\"2018\",\"crateType\":\"bin\",\"tests\":false,\"code\":\"fn main() {\\n\\tprintln!(\\\"hi\\\");\\n}\",\"backtrace\":false}"
    );
}

#[test]
fn execute_body_for_a_test_harness_library() {
    let task = PlaygroundTask::new(
        String::from("#[test]\nfn t() {}"),
        RustChannel::Nightly,
        CrateType::Lib,
    );
    assert_eq!(
        task.execute_request_body(),
        "{\"channel\":\"nightly\",\"mode\":\"debug\",\"edition\":\"2018\",\"crateType\":\"lib\",\"tests\":true,\"code\":\"#[test]\\nfn t() {}\",\"backtrace\":false}"
    );
}

#[test]
fn share_body_holds_the_code_alone() {
    let task = PlaygroundTask::new(
        String::from("fn main() {}"),
        RustChannel::Beta,
        CrateType::Bin,
    );
    assert_eq!(task.share_request_body(), "{\"code\":\"fn main() {}\"}");
}

#[test]
fn escaping_covers_quotes_backslashes_and_control_characters() {
    let task = PlaygroundTask::new(
        String::from("a\"b\\c\u{8}d\te\rf\u{c}g\u{1}h"),
        RustChannel::Stable,
        CrateType::Lib,
    );
    assert_eq!(
        task.share_request_body(),
        "{\"code\":\"a\\\"b\\\\c\\bd\\te\\rf\\fg\\u0001h\"}"
    );
}

#[test]
fn share_link_embeds_channel_and_identifier() {
    let task = PlaygroundTask::new(
        String::from("fn main() {}"),
        RustChannel::Nightly,
        CrateType::Bin,
    );
    let url = task.share_link_url("abc123");
    assert_eq!(
        url,
        "https://play.rust-lang.org/?version=nightly&mode=debug&edition=2018&gist=abc123"
    );
    assert!(url.contains("nightly"));
    assert!(url.contains("abc123"));
}

#[test]
fn endpoints_are_fixed() {
    assert_eq!(execute_endpoint(), "https://play.rust-lang.org/execute");
    assert_eq!(share_endpoint(), "https://play.rust-lang.org/meta/gist/");
}
