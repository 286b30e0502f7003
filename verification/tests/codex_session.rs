use napaxi_codex::config::{codex_config_dir, configure_target, configure_written_reply, ConfigureCodexRequest};
use napaxi_codex::api::configure_codex_agent_engine_json;
use napaxi_codex::json::{Json, JsonNumber};
use napaxi_codex::protocol::{frame_json_lines, AgentEngineTurnRequest, CodexSessionState};
use napaxi_codex::registry::{
    parse_u64, rpc_id_json_value, Acquire, AnswerStep, CodexRegistry, StartAction,
};
use napaxi_codex::state::{session_key, state_json_text, state_path};
use napaxi_codex::turn::{CodexTurn, MessageStep, Preflight, preflight, unsupported_turn};
use napaxi_codex::events::ChatEvent;

fn to_json(v: &serde_json::Value) -> Json {
    match v {
        serde_json::Value::Null => Json::Null,
        serde_json::Value::Bool(b) => Json::Bool(*b),
        serde_json::Value::Number(n) => {
            if let Some(u) = n.as_u64() {
                Json::Number(JsonNumber::PosInt(u))
            } else if let Some(i) = n.as_i64() {
                Json::Number(JsonNumber::NegInt(i))
            } else {
                Json::Number(JsonNumber::Float(n.to_string()))
            }
        }
        serde_json::Value::String(s) => Json::Str(s.clone()),
        serde_json::Value::Array(a) => Json::Array(a.iter().map(to_json).collect()),
        serde_json::Value::Object(m) => {
            Json::Object(m.iter().map(|(k, x)| (k.clone(), to_json(x))).collect())
        }
    }
}

fn doc(text: &str) -> Json {
    to_json(&serde_json::from_str::<serde_json::Value>(text).unwrap())
}

fn value(text: &str) -> serde_json::Value {
    serde_json::from_str(text).unwrap()
}

fn request(config: &str) -> AgentEngineTurnRequest {
    AgentEngineTurnRequest {
        message: "hi".to_string(),
        run_id: "run-1".to_string(),
        account_id: "acct".to_string(),
        agent_id: "agent".to_string(),
        session_key_json: "{\"thread_id\":\"t\"}".to_string(),
        files_dir: "/files".to_string(),
        workspace_files_dir: "/files/ws".to_string(),
        engine_config: doc(config),
    }
}

#[test]
fn codex_config_dir_targets_linux_env_rootfs_home() {
    assert_eq!(
        std::path::PathBuf::from(codex_config_dir("app_files")),
        std::path::Path::new("app_files")
            .join("linux-env")
            .join("rootfs")
            .join("root")
            .join(".codex"),
    );
}

#[test]
fn parses_json_lines_and_filters_noise() {
    let mut buf = String::new();
    let out: Vec<serde_json::Value> = frame_json_lines(&mut buf, "noise\n{\"jsonrpc\":\"2.0\"}\n")
        .iter()
        .filter_map(|line| serde_json::from_str(line).ok())
        .collect();
    assert_eq!(out.len(), 1);
    assert_eq!(out[0]["jsonrpc"], "2.0");
}

#[test]
fn incomplete_lines_wait_in_the_buffer() {
    let mut buf = String::new();
    assert!(frame_json_lines(&mut buf, "{\"a\":").is_empty());
    assert_eq!(buf, "{\"a\":");
    let lines = frame_json_lines(&mut buf, "1}\r\n\u{1b}[0m{\"b\":2}\n");
    assert_eq!(lines, vec!["{\"a\":1}".to_string(), "{\"b\":2}".to_string()]);
    assert_eq!(buf, "");
}

#[test]
fn session_key_and_state_path() {
    let r = request("{}");
    let key = session_key(&r);
    assert_eq!(key, "acct::agent::{\"thread_id\":\"t\"}");
    assert_eq!(
        state_path("/files", &key),
        "/files/agent_engine/codex/acct__agent____thread_id___t__.json"
    );
    assert_eq!(state_path("/files/", "k"), "/files/agent_engine/codex/k.json");
}

#[test]
fn session_state_is_written_pretty() {
    let state = CodexSessionState { native_thread_id: Some("th-1".to_string()) };
    let mut m = serde_json::Map::new();
    m.insert("native_thread_id".to_string(), serde_json::Value::String("th-1".to_string()));
    assert_eq!(
        state_json_text(&state),
        serde_json::to_string_pretty(&serde_json::Value::Object(m)).unwrap()
    );
    assert_eq!(
        state_json_text(&CodexSessionState { native_thread_id: None }),
        "{\n  \"native_thread_id\": null\n}"
    );
}

#[test]
fn rpc_ids_read_as_numbers_when_they_are() {
    assert_eq!(parse_u64("9"), Some(9));
    assert_eq!(parse_u64("+7"), Some(7));
    assert_eq!(parse_u64("18446744073709551615"), Some(u64::MAX));
    assert_eq!(parse_u64("18446744073709551616"), None);
    assert_eq!(parse_u64(""), None);
    assert_eq!(parse_u64("+"), None);
    assert_eq!(parse_u64("-1"), None);
    assert_eq!(rpc_id_json_value("12").to_text(), "12");
    assert_eq!(rpc_id_json_value("req-1").to_text(), "\"req-1\"");
}

#[test]
fn new_session_opens_connection_then_thread() {
    let mut reg = CodexRegistry::new();
    let r = request("{}");
    let state = CodexSessionState { native_thread_id: None };
    let (closed, found) = reg.begin_turn("k", &r, &state, 1_000);
    assert!(closed.is_empty());
    assert!(matches!(found, Acquire::Spawn));
    let (lines, action) = reg.add_session("k", 7, &state, 1_000);
    assert_eq!(lines.len(), 2);
    let init = value(&lines[0]);
    assert_eq!(init["method"], "initialize");
    assert_eq!(init["id"], 1);
    assert_eq!(value(&lines[1])["method"], "initialized");
    match action {
        StartAction::OpenThread { request_id, line, is_resume } => {
            assert_eq!(request_id, 2);
            assert!(!is_resume);
            assert_eq!(value(&line)["method"], "thread/start");
        }
        _ => panic!("a new session opens its thread"),
    }
}

#[test]
fn busy_session_refuses_second_turn() {
    let mut reg = CodexRegistry::new();
    let r = request("{}");
    let state = CodexSessionState { native_thread_id: None };
    reg.add_session("k", 7, &state, 0);
    let (_, found) = reg.begin_turn("k", &r, &state, 10);
    assert!(matches!(found, Acquire::Busy));
    assert!(matches!(napaxi_codex::turn::busy_event(), ChatEvent::Error { message } if message == "Codex agent engine session already has an active turn"));
}

#[test]
fn released_session_is_reused_with_next_ids() {
    let mut reg = CodexRegistry::new();
    let r = request("{\"reasoning_effort\":\"high\"}");
    let state = CodexSessionState { native_thread_id: Some("th".to_string()) };
    reg.add_session("k", 7, &state, 0);
    assert_eq!(reg.release("k", false, 5), None);
    let (_, found) = reg.begin_turn("k", &r, &state, 10);
    match found {
        Acquire::Reuse { pty, action: StartAction::StartTurn { line } } => {
            assert_eq!(pty, 7);
            let v = value(&line);
            assert_eq!(v["id"], 3);
            assert_eq!(v["method"], "turn/start");
            assert_eq!(v["params"]["threadId"], "th");
            assert_eq!(v["params"]["effort"], "high");
            assert_eq!(v["params"]["input"][0]["text"], "hi");
        }
        _ => panic!("an idle session takes the turn"),
    }
}

#[test]
fn idle_sessions_are_cleaned_up() {
    let mut reg = CodexRegistry::new();
    let state = CodexSessionState { native_thread_id: None };
    reg.add_session("old", 3, &state, 0);
    reg.release("old", false, 0);
    reg.add_session("busy", 4, &state, 0);
    let closed = reg.cleanup_idle_sessions(600_001, 600_000);
    assert_eq!(closed, vec![3]);
    let (_, found) = reg.begin_turn("busy", &request("{}"), &state, 600_002);
    assert!(matches!(found, Acquire::Busy));
}

#[test]
fn closing_release_drops_session_and_its_questions() {
    let mut reg = CodexRegistry::new();
    let state = CodexSessionState { native_thread_id: None };
    reg.add_session("k", 7, &state, 0);
    reg.register_human_request("k", "q1", "9", "approval");
    assert_eq!(reg.release("k", true, 1), Some(7));
    assert!(matches!(reg.prepare_answer("q1", "yes"), AnswerStep::NotPending));
}

#[test]
fn answer_goes_to_the_asking_session_and_is_reported_once() {
    let mut reg = CodexRegistry::new();
    let state = CodexSessionState { native_thread_id: None };
    reg.add_session("k", 7, &state, 0);
    reg.register_human_request("k", "q1", "9", "approval");
    match reg.prepare_answer("q1", "yes") {
        AnswerStep::Write { pty, line, pending } => {
            assert_eq!(pty, 7);
            assert_eq!(line, "{\"id\":9,\"jsonrpc\":\"2.0\",\"result\":{\"answers\":{\"approval\":{\"answers\":[\"yes\"]}}}}");
            assert!(reg.complete_answer("q1", "yes", pending, true));
        }
        _ => panic!("the question is pending"),
    }
    let first = reg.drain_human_responses("k", 2);
    assert_eq!(first, vec![("q1".to_string(), "yes".to_string())]);
    assert!(reg.drain_human_responses("k", 3).is_empty());
}

#[test]
fn unwritten_answer_stays_pending() {
    let mut reg = CodexRegistry::new();
    let state = CodexSessionState { native_thread_id: None };
    reg.add_session("k", 7, &state, 0);
    reg.register_human_request("k", "q1", "req-1", "approval");
    match reg.prepare_answer("q1", "yes") {
        AnswerStep::Write { line, pending, .. } => {
            assert!(line.starts_with("{\"id\":\"req-1\""));
            assert!(!reg.complete_answer("q1", "yes", pending, false));
        }
        _ => panic!("the question is pending"),
    }
    assert!(matches!(reg.prepare_answer("q1", "no"), AnswerStep::Write { .. }));
}

#[test]
fn question_of_a_gone_session_waits() {
    let mut reg = CodexRegistry::new();
    reg.register_human_request("gone", "q1", "1", "a");
    assert!(matches!(reg.prepare_answer("q1", "yes"), AnswerStep::NoSession));
    assert!(matches!(reg.prepare_answer("q1", "yes"), AnswerStep::NoSession));
}

#[test]
fn native_library_dir_comes_from_config_or_registry() {
    let mut reg = CodexRegistry::new();
    match preflight(true, &request("{}"), &reg) {
        Preflight::Cancelled { events } => {
            assert_eq!(events.len(), 1);
            assert!(matches!(events[0], ChatEvent::Interrupted));
        }
        _ => panic!("expected a cancelled turn"),
    }
    match preflight(false, &request("{}"), &reg) {
        Preflight::Fail { event: ChatEvent::Error { message } } => {
            assert_eq!(message, "missing native_library_dir for Android Codex agent engine")
        }
        _ => panic!("no native library dir is known"),
    }
    reg.register_native_library_dir("/files", Some("/lib"));
    reg.register_native_library_dir("/other", None);
    match preflight(false, &request("{}"), &reg) {
        Preflight::Ready { native_library_dir, key } => {
            assert_eq!(native_library_dir, "/lib");
            assert_eq!(key, "acct::agent::{\"thread_id\":\"t\"}");
        }
        _ => panic!("the registry knows the dir"),
    }
    match preflight(false, &request("{\"native_library_dir\":\"/cfg\"}"), &reg) {
        Preflight::Ready { native_library_dir, .. } => assert_eq!(native_library_dir, "/cfg"),
        _ => panic!("the configuration names the dir"),
    }
}

#[test]
fn turn_opens_thread_then_sends_turn() {
    let mut reg = CodexRegistry::new();
    let state = CodexSessionState { native_thread_id: None };
    let (_, action) = reg.add_session("k", 7, &state, 0);
    let (mut turn, first) = CodexTurn::start("k".to_string(), request("{}"), state, action);
    assert_eq!(value(&first)["method"], "thread/start");
    let (step, save) = turn.on_message(&mut reg, &doc(r#"{"id":2,"result":{"thread":{"id":"th-9"}}}"#), 1);
    assert!(save);
    assert_eq!(turn.state.native_thread_id.as_deref(), Some("th-9"));
    match step {
        MessageStep::Write { line } => {
            let v = value(&line);
            assert_eq!(v["method"], "turn/start");
            assert_eq!(v["id"], 3);
            assert_eq!(v["params"]["threadId"], "th-9");
        }
        _ => panic!("the turn is sent"),
    }
    assert!(matches!(turn.after_write(None), MessageStep::Next));
    assert!(turn.sent_turn);
    let (step, _) = turn.on_message(&mut reg, &doc(r#"{"method":"item/agentMessage/delta","params":{"delta":"hey"}}"#), 2);
    assert!(matches!(step, MessageStep::Next));
    let (step, _) = turn.on_message(&mut reg, &doc(r#"{"method":"turn/completed","params":{}}"#), 3);
    assert!(matches!(step, MessageStep::Next));
    assert!(turn.end_round(10));
    let (close, events) = turn.finish(&mut reg, 11);
    assert_eq!(close, None);
    assert_eq!(events.len(), 1);
    assert!(matches!(&events[0], ChatEvent::ResponseDelta { content } if content == "hey"));
}

#[test]
fn turn_waits_for_a_thread_id() {
    let mut reg = CodexRegistry::new();
    let state = CodexSessionState { native_thread_id: None };
    let (_, action) = reg.add_session("k", 7, &state, 0);
    let (mut turn, _) = CodexTurn::start("k".to_string(), request("{}"), state, action);
    let (step, save) = turn.on_message(&mut reg, &doc(r#"{"id":2,"result":{}}"#), 1);
    assert!(matches!(step, MessageStep::Next));
    assert!(!save);
    assert!(turn.pending_thread_open.is_some());
    let (step, save) = turn.on_message(&mut reg, &doc(r#"{"method":"thread/started","params":{"thread":{"id":"late"}}}"#), 2);
    assert!(save);
    assert!(matches!(step, MessageStep::Write { .. }));
}

#[test]
fn refused_resume_retries_with_new_thread() {
    let mut reg = CodexRegistry::new();
    let state = CodexSessionState { native_thread_id: Some("stale".to_string()) };
    let (_, action) = reg.add_session("k", 7, &state, 0);
    let (mut turn, first) = CodexTurn::start("k".to_string(), request("{}"), state, action);
    assert_eq!(value(&first)["method"], "thread/resume");
    let (step, _) = turn.on_message(&mut reg, &doc(r#"{"id":2,"error":{"message":"no such thread"}}"#), 1);
    match step {
        MessageStep::Write { line } => {
            assert_eq!(value(&line)["method"], "thread/start");
            assert_eq!(value(&line)["id"], 3);
        }
        _ => panic!("a new thread is started"),
    }
    assert_eq!(turn.pending_thread_open, Some((3, false)));
    assert!(matches!(turn.after_write(None), MessageStep::Next));
    let (step, _) = turn.on_message(&mut reg, &doc(r#"{"id":3,"error":{"code":-1}}"#), 2);
    assert!(matches!(step, MessageStep::StopBatch));
    assert!(matches!(&turn.events[0], ChatEvent::Error { message } if message == "thread/start failed: {\"code\":-1}"));
    let (close, _) = turn.finish(&mut reg, 3);
    assert_eq!(close, Some(7));
}

#[test]
fn turn_failure_closes_session() {
    let mut reg = CodexRegistry::new();
    let state = CodexSessionState { native_thread_id: Some("th".to_string()) };
    reg.add_session("k", 7, &state, 0);
    reg.release("k", false, 0);
    let (_, found) = reg.begin_turn("k", &request("{}"), &state, 1);
    let action = match found {
        Acquire::Reuse { action, .. } => action,
        _ => panic!("idle session"),
    };
    let (mut turn, _) = CodexTurn::start("k".to_string(), request("{}"), state, action);
    assert!(turn.sent_turn);
    let (step, _) = turn.on_message(&mut reg, &doc(r#"{"method":"thread/event","params":{"type":"turn_error","message":"boom"}}"#), 2);
    assert!(matches!(step, MessageStep::StopBatch));
    assert!(turn.should_close);
    assert!(turn.end_round(3));
    let (close, events) = turn.finish(&mut reg, 4);
    assert_eq!(close, Some(7));
    assert!(matches!(&events[0], ChatEvent::Error { message } if message == "boom"));
}

#[test]
fn cancelled_and_timed_out_turns_stop() {
    let mut reg = CodexRegistry::new();
    let state = CodexSessionState { native_thread_id: None };
    let (_, action) = reg.add_session("k", 7, &state, 0);
    let (mut turn, _) = CodexTurn::start("k".to_string(), request("{}"), state, action);
    assert!(!turn.begin_round(false, 10));
    assert!(!turn.end_round(10));
    assert!(turn.end_round(5_001));
    assert!(matches!(&turn.events[0], ChatEvent::Error { message } if message == "Codex app-server did not open a thread before startup timeout"));
    assert!(turn.begin_round(true, 6_000));
    assert!(matches!(turn.events[1], ChatEvent::Interrupted));
    assert!(turn.begin_round(false, 3_600_001));
    assert!(matches!(&turn.events[2], ChatEvent::Error { message } if message == "Codex agent engine turn timed out"));
}

#[test]
fn exit_before_completion_is_an_error() {
    let mut reg = CodexRegistry::new();
    let state = CodexSessionState { native_thread_id: None };
    let (_, action) = reg.add_session("k", 7, &state, 0);
    let (mut turn, _) = CodexTurn::start("k".to_string(), request("{}"), state, action);
    turn.app_server_exited();
    assert!(matches!(&turn.events[0], ChatEvent::Error { message } if message == "Codex app-server exited before the turn completed"));
    turn.app_server_exited();
    assert_eq!(turn.events.len(), 1);
}

#[test]
fn answers_are_reported_as_human_responses() {
    let mut reg = CodexRegistry::new();
    let state = CodexSessionState { native_thread_id: None };
    let (_, action) = reg.add_session("k", 7, &state, 0);
    let (mut turn, _) = CodexTurn::start("k".to_string(), request("{}"), state, action);
    let (_, _) = turn.on_message(&mut reg, &doc(r#"{"jsonrpc":"2.0","id":5,"method":"item/tool/requestUserInput","params":{"questions":[{"id":"approval","question":"Go?"}]}}"#), 1);
    let request_id = match &turn.events[0] {
        ChatEvent::AskingHuman { request_id, .. } => request_id.clone(),
        _ => panic!("a question"),
    };
    match reg.prepare_answer(&request_id, "yes") {
        AnswerStep::Write { pending, line, .. } => {
            assert!(line.starts_with("{\"id\":5,"));
            assert!(reg.complete_answer(&request_id, "yes", pending, true));
        }
        _ => panic!("pending"),
    }
    turn.report_human_responses(&mut reg, 2);
    assert!(matches!(&turn.events[1], ChatEvent::HumanResponse { request_id: r, response } if *r == request_id && response == "yes"));
}

#[test]
fn unsupported_platform_turn_is_one_error() {
    let events = unsupported_turn();
    assert_eq!(events.len(), 1);
    assert!(matches!(&events[0], ChatEvent::Error { message } if message == "napaxi.agent_engine.codex is unsupported on this platform"));
}

#[test]
fn configure_replies() {
    let req = ConfigureCodexRequest {
        files_dir: " ".to_string(),
        config_toml: String::new(),
        auth_json: String::new(),
    };
    let missing = value(&configure_codex_agent_engine_json(None, Ok(req)));
    assert_eq!(missing["error"], "invalid engine handle or missing files_dir");
    assert_eq!(missing["providerAvailable"], false);
    let req = ConfigureCodexRequest {
        files_dir: " ".to_string(),
        config_toml: String::new(),
        auth_json: String::new(),
    };
    let refused = value(&configure_codex_agent_engine_json(Some("/files".to_string()), Ok(req)));
    assert_eq!(refused["error"], "napaxi.agent_engine.codex is unsupported on this platform");
    assert_eq!(refused["success"], false);
    let bad = value(&configure_codex_agent_engine_json(None, Err("EOF".to_string())));
    assert_eq!(bad["error"], "Invalid Codex config request JSON: EOF");
    let req = ConfigureCodexRequest {
        files_dir: "/mine".to_string(),
        config_toml: String::new(),
        auth_json: String::new(),
    };
    assert_eq!(configure_target(None, &req), Some("/mine".to_string()));
    assert_eq!(configure_written_reply(Ok(())), "{\"providerAvailable\":true,\"success\":true}");
    assert_eq!(
        configure_written_reply(Err("disk full".to_string())),
        "{\"error\":\"disk full\",\"providerAvailable\":true,\"success\":false}"
    );
}

#[test]
fn framing_does_not_depend_on_chunking() {
    let text = "noise\n{\"a\":1}\n  {\"b\":2}  \r\n{\"c\":";
    let mut whole = String::new();
    let all = frame_json_lines(&mut whole, text);
    for cut in 0..text.len() {
        if !text.is_char_boundary(cut) {
            continue;
        }
        let mut buf = String::new();
        let mut lines = frame_json_lines(&mut buf, &text[..cut]);
        lines.extend(frame_json_lines(&mut buf, &text[cut..]));
        assert_eq!(lines, all);
        assert_eq!(buf, whole);
    }
    assert_eq!(all, vec!["{\"a\":1}".to_string(), "{\"b\":2}".to_string()]);
    assert_eq!(whole, "{\"c\":");
}
