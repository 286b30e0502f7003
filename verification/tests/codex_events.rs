use napaxi_codex::api::run_event_json;
use napaxi_codex::events::{map_app_server_message, map_app_server_message_with, ChatEvent};
use napaxi_codex::json::{Json, JsonNumber};

fn to_json(v: &serde_json::Value) -> Json {
    match v {
        serde_json::Value::Null => Json::Null,
        serde_json::Value::Bool(b) => Json::Bool(*b),
        serde_json::Value::Number(n) => {
            if let Some(u) = n.as_u64() {
                Json::Number(JsonNumber::PosInt(u))
            } else if let Some(i) = n.as_i64() {
                Json::Number(JsonNumber::NegInt(i))
            } else {
                Json::Number(JsonNumber::Float(n.to_string()))
            }
        }
        serde_json::Value::String(s) => Json::Str(s.clone()),
        serde_json::Value::Array(a) => Json::Array(a.iter().map(to_json).collect()),
        serde_json::Value::Object(m) => {
            Json::Object(m.iter().map(|(k, x)| (k.clone(), to_json(x))).collect())
        }
    }
}

fn doc(text: &str) -> Json {
    to_json(&serde_json::from_str::<serde_json::Value>(text).unwrap())
}

fn read(text: &str) -> Result<Json, String> {
    serde_json::from_str::<serde_json::Value>(text)
        .map(|v| to_json(&v))
        .map_err(|e| e.to_string())
}

#[test]
fn maps_assistant_delta_fixture() {
    let outcome = map_app_server_message(&doc(
        r#"{"method": "thread/event", "params": {"type": "assistant_delta", "delta": "hello"}}"#,
    ));
    assert!(
        matches!(outcome.event, Some(ChatEvent::ResponseDelta { content }) if content == "hello")
    );
}

#[test]
fn maps_reasoning_delta_fixture() {
    let outcome = map_app_server_message(&doc(
        r#"{"method": "thread/event", "params": {"type": "reasoning_delta", "delta": "thinking"}}"#,
    ));
    assert!(
        matches!(outcome.event, Some(ChatEvent::ReasoningDelta { content }) if content == "thinking")
    );
}

#[test]
fn maps_command_output_fixture() {
    let outcome = map_app_server_message(&doc(
        r#"{"method": "thread/event", "params": {"type": "command_output_delta", "call_id": "c1", "stream": "stdout", "delta": "out"}}"#,
    ));
    assert!(
        matches!(outcome.event, Some(ChatEvent::ToolOutputChunk { call_id, content, stream }) if call_id == "c1" && content == "out" && stream == "stdout")
    );
}

#[test]
fn maps_turn_completed_fixture() {
    let outcome = map_app_server_message(&doc(
        r#"{"method": "thread/event", "params": {"type": "turn_completed"}}"#,
    ));
    assert!(outcome.completed);
    assert!(!outcome.failed);
}

#[test]
fn maps_turn_error_fixture() {
    let outcome = map_app_server_message(&doc(
        r#"{"method": "thread/event", "params": {"type": "turn_error", "message": "boom"}}"#,
    ));
    assert!(outcome.completed);
    assert!(outcome.failed);
    assert!(matches!(outcome.event, Some(ChatEvent::Error { message }) if message == "boom"));
}

#[test]
fn maps_user_input_request_fixture() {
    let outcome = map_app_server_message(&doc(
        r#"{"method": "thread/event", "params": {"type": "user_input_request", "request_id": "h1", "question": "Continue?", "options": ["yes", "no"]}}"#,
    ));
    assert!(
        matches!(outcome.event, Some(ChatEvent::AskingHuman { request_id, question, options, .. }) if request_id == "h1" && question == "Continue?" && options.len() == 2)
    );
    assert!(!outcome.completed);
    assert!(!outcome.failed);
}

#[test]
fn maps_real_app_server_notifications() {
    let assistant = map_app_server_message(&doc(
        r#"{"jsonrpc": "2.0", "method": "item/agentMessage/delta", "params": {"itemId": "i1", "delta": "hello"}}"#,
    ));
    assert!(
        matches!(assistant.event, Some(ChatEvent::ResponseDelta { content }) if content == "hello")
    );

    let reasoning = map_app_server_message(&doc(
        r#"{"jsonrpc": "2.0", "method": "item/reasoning/textDelta", "params": {"itemId": "r1", "delta": "why"}}"#,
    ));
    assert!(
        matches!(reasoning.event, Some(ChatEvent::ReasoningDelta { content }) if content == "why")
    );

    let output = map_app_server_message(&doc(
        r#"{"jsonrpc": "2.0", "method": "item/commandExecution/outputDelta", "params": {"itemId": "cmd1", "delta": "out"}}"#,
    ));
    assert!(
        matches!(output.event, Some(ChatEvent::ToolOutputChunk { call_id, content, stream }) if call_id == "cmd1" && content == "out" && stream == "stdout")
    );

    let done = map_app_server_message(&doc(
        r#"{"jsonrpc": "2.0", "method": "turn/completed", "params": {}}"#,
    ));
    assert!(done.completed);
}

#[test]
fn maps_real_user_input_request() {
    let outcome = map_app_server_message(&doc(
        r#"{"jsonrpc": "2.0", "id": 9, "method": "item/tool/requestUserInput", "params": {"questions": [{"id": "approval", "header": "Confirm", "question": "Proceed?", "options": [{"label": "yes"}, {"label": "no"}]}]}}"#,
    ));
    assert!(
        matches!(outcome.event, Some(ChatEvent::AskingHuman { request_id, question, options, context }) if request_id.starts_with("codex:") && question == "Proceed?" && options == vec!["yes", "no"] && context.as_deref() == Some("Confirm"))
    );
    assert!(!outcome.completed);
}

#[test]
fn real_user_input_request_is_recorded_for_an_answer() {
    let outcome = map_app_server_message_with(
        &doc(r#"{"jsonrpc": "2.0", "id": 9, "method": "item/tool/requestUserInput", "params": {"questions": [{"id": "approval", "question": "Proceed?"}]}}"#),
        "0f0e0d0c-0b0a-4908-8706-050403020100",
    );
    let human = outcome.human_request.expect("an rpc request is recorded");
    assert_eq!(human.request_id, "codex:0f0e0d0c-0b0a-4908-8706-050403020100");
    assert_eq!(human.rpc_id, "9");
    assert_eq!(human.question_id, "approval");
}

#[test]
fn fresh_request_ids_are_version_four_uuids() {
    let outcome = map_app_server_message(&doc(
        r#"{"method": "thread/event", "params": {"type": "ask_human", "question": "Go?"}}"#,
    ));
    match outcome.event {
        Some(ChatEvent::AskingHuman { request_id, question, .. }) => {
            assert_eq!(question, "Go?");
            let chars: Vec<char> = request_id.chars().collect();
            assert_eq!(chars.len(), 36);
            assert_eq!(chars[8], '-');
            assert_eq!(chars[14], '4');
            assert!(matches!(chars[19], '8' | '9' | 'a' | 'b'));
        }
        _ => panic!("expected a question"),
    }
}

#[test]
fn aborted_turn_is_interrupted_and_failed() {
    let outcome = map_app_server_message(&doc(
        r#"{"method": "thread/event", "params": {"type": "turn_aborted"}}"#,
    ));
    assert!(matches!(outcome.event, Some(ChatEvent::Interrupted)));
    assert!(outcome.completed && outcome.failed);
}

#[test]
fn unknown_message_means_nothing() {
    let outcome = map_app_server_message(&doc(r#"{"method": "thread/unknown", "params": {}}"#));
    assert!(outcome.event.is_none());
    assert!(!outcome.completed && !outcome.failed);
    assert!(outcome.human_request.is_none());
}

#[test]
fn run_event_json_returns_error_for_invalid_request() {
    let result = run_event_json(read("{}"));
    assert!(
        result.contains("error") || result.contains("null"),
        "invalid request should not panic: {result}"
    );
}

#[test]
fn run_event_json_returns_error_for_malformed_json() {
    let result = run_event_json(read("not json"));
    assert!(result.contains("error"), "malformed json: {result}");
}

#[test]
fn run_event_json_reports_the_mapped_event() {
    let result = run_event_json(read(
        r#"{"method": "thread/event", "params": {"type": "assistant_delta", "delta": "hi"}}"#,
    ));
    assert_eq!(
        result,
        r#"{"completed":false,"event":{"content":"hi","type":"response_delta"},"failed":false,"human_request":null}"#
    );
}
