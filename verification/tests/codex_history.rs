use napaxi_codex::api::query_codex_agent_engine_history_json;
use napaxi_codex::history::{
    after_read, after_resume, after_workspace_list, bound_reply, extract_thread_items, history_open_check,
    rpc_failed_reply, ListStep, ReadStep, history_call_reply, is_history_request, listed_threads,
    map_history_item, map_thread_summary, messages_reply, plan_history_request, threads_reply,
    timestamp_millis_of, CodexHistoryRequest, HistoryStep,
};
use napaxi_codex::history::bind_reply;
use napaxi_codex::json::{Json, JsonNumber};
use napaxi_codex::protocol::{
    initialize_request, initialized_notification, thread_history_resume_request, thread_list_request,
    thread_read_request, JsonRpcClient,
};

fn to_json(v: &serde_json::Value) -> Json {
    match v {
        serde_json::Value::Null => Json::Null,
        serde_json::Value::Bool(b) => Json::Bool(*b),
        serde_json::Value::Number(n) => {
            if let Some(u) = n.as_u64() {
                Json::Number(JsonNumber::PosInt(u))
            } else if let Some(i) = n.as_i64() {
                Json::Number(JsonNumber::NegInt(i))
            } else {
                Json::Number(JsonNumber::Float(n.to_string()))
            }
        }
        serde_json::Value::String(s) => Json::Str(s.clone()),
        serde_json::Value::Array(a) => Json::Array(a.iter().map(to_json).collect()),
        serde_json::Value::Object(m) => {
            Json::Object(m.iter().map(|(k, x)| (k.clone(), to_json(x))).collect())
        }
    }
}

fn doc(text: &str) -> Json {
    to_json(&serde_json::from_str::<serde_json::Value>(text).unwrap())
}

fn value(j: &Json) -> serde_json::Value {
    serde_json::from_str(&j.to_text()).unwrap()
}

#[test]
fn extracts_current_codex_turn_items_and_maps_messages() {
    let result = doc(
        r#"{"thread": {"turns": [{"items": [
            {"id": "u1", "type": "userMessage", "content": [{"type": "text", "text": "hello"}]},
            {"id": "a1", "type": "agentMessage", "text": "world"},
            {"id": "r1", "type": "reasoning", "summary": ["thinking"]}
        ]}]}}"#,
    );
    let messages = extract_thread_items(Some(&result))
        .iter()
        .filter_map(map_history_item)
        .map(|m| value(&m))
        .collect::<Vec<_>>();
    assert_eq!(messages.len(), 3);
    assert_eq!(messages[0]["role"], "user");
    assert_eq!(messages[0]["content"], "hello");
    assert_eq!(messages[1]["role"], "assistant");
    assert_eq!(messages[2]["role"], "reasoning");
}

#[test]
fn maps_native_thread_summary_timestamps_to_milliseconds() {
    let summary = value(
        &map_thread_summary(&doc(
            r#"{"id": "thread-1", "name": "Conversation", "preview": "hello", "createdAt": 1700000000, "updatedAt": 1700000001}"#,
        ))
        .unwrap(),
    );
    assert_eq!(summary["id"], "thread-1");
    assert_eq!(summary["createdAt"], 1_700_000_000_000_i64);
}

#[test]
fn maps_null_native_thread_name_to_empty_for_preview_fallback() {
    let summary = value(
        &map_thread_summary(&doc(
            r#"{"id": "thread-1", "name": null, "preview": "first user message", "createdAt": 1700000000, "updatedAt": 1700000001}"#,
        ))
        .unwrap(),
    );
    assert_eq!(summary["name"], "");
    assert_eq!(summary["preview"], "first user message");
}

#[test]
fn maps_codex_tool_items_to_tool_call_history_schema() {
    let message = value(
        &map_history_item(&doc(
            r#"{"id": "call-1", "type": "commandExecution", "command": "pwd", "aggregatedOutput": "/workspace", "status": "completed"}"#,
        ))
        .unwrap(),
    );
    assert_eq!(message["role"], "tool_calls");
    let content: serde_json::Value =
        serde_json::from_str(message["content"].as_str().unwrap()).unwrap();
    assert_eq!(content["calls"][0]["name"], "shell");
}

#[test]
fn millisecond_timestamps_are_kept() {
    let ms = Json::Number(JsonNumber::PosInt(1_700_000_000_000));
    assert_eq!(timestamp_millis_of(Some(&ms)), 1_700_000_000_000);
    let secs = Json::Number(JsonNumber::PosInt(1_700_000_000));
    assert_eq!(timestamp_millis_of(Some(&secs)), 1_700_000_000_000);
    assert_eq!(timestamp_millis_of(None), 0);
}

#[test]
fn history_query_is_refused_where_codex_cannot_run() {
    let request = CodexHistoryRequest {
        operation: "history_list_threads".to_string(),
        thread_id: String::new(),
        account_id: String::new(),
        agent_id: String::new(),
        session_key_json: String::new(),
    };
    let reply: serde_json::Value =
        serde_json::from_str(&query_codex_agent_engine_history_json(1, Ok(request))).unwrap();
    assert_eq!(reply["success"], false);
    assert_eq!(reply["errorCode"], "unsupported_platform");
}

#[test]
fn unreadable_history_query_is_reported() {
    let reply: serde_json::Value = serde_json::from_str(&query_codex_agent_engine_history_json(
        1,
        Err("expected value at line 1 column 1".to_string()),
    ))
    .unwrap();
    assert_eq!(reply["errorCode"], "history_query_failed");
    assert_eq!(
        reply["error"],
        "Invalid Codex history request: expected value at line 1 column 1"
    );
}

fn history_request(operation: &str, thread_id: &str, session_key_json: &str) -> CodexHistoryRequest {
    CodexHistoryRequest {
        operation: operation.to_string(),
        thread_id: thread_id.to_string(),
        account_id: " ".to_string(),
        agent_id: String::new(),
        session_key_json: session_key_json.to_string(),
    }
}

#[test]
fn history_requests_are_recognised_by_operation() {
    assert!(is_history_request(Some(&doc(r#"{"operation": "history_list_threads"}"#))));
    assert!(!is_history_request(Some(&doc(r#"{"operation": "run"}"#))));
    assert!(!is_history_request(Some(&doc(r#"{"operation": 3}"#))));
    assert!(!is_history_request(None));
}

#[test]
fn history_requests_are_planned() {
    assert!(matches!(
        plan_history_request(Some("/f"), &history_request("history_list_threads", "", "")),
        HistoryStep::ListThreads
    ));
    match plan_history_request(Some("/f"), &history_request("history_read_thread", " th ", "")) {
        HistoryStep::ReadThread { thread_id } => assert_eq!(thread_id, "th"),
        _ => panic!("read"),
    }
    match plan_history_request(Some("/f"), &history_request("history_read_thread", "  ", "")) {
        HistoryStep::Reply(r) => assert_eq!(value(&r)["errorCode"], "missing_native_thread"),
        _ => panic!("reply"),
    }
    match plan_history_request(Some("/f"), &history_request("history_bind_thread", "th", "{}")) {
        HistoryStep::BindThread { thread_id, account_id, agent_id, session_key_json } => {
            assert_eq!(thread_id, "th");
            assert_eq!(account_id, "default");
            assert_eq!(agent_id, "engine.codex");
            assert_eq!(session_key_json, "{}");
        }
        _ => panic!("bind"),
    }
    match plan_history_request(Some("/f"), &history_request("history_bind_thread", "th", " ")) {
        HistoryStep::Reply(r) => assert_eq!(value(&r)["error"], "Codex thread ID and session key are required"),
        _ => panic!("reply"),
    }
    match plan_history_request(Some("/f"), &history_request("history_drop", "", "")) {
        HistoryStep::Reply(r) => assert_eq!(value(&r)["error"], "Unknown Codex history operation: history_drop"),
        _ => panic!("reply"),
    }
    match plan_history_request(None, &history_request("history_list_threads", "", "")) {
        HistoryStep::Reply(r) => {
            let v = value(&r);
            assert_eq!(v["errorCode"], "unsupported_platform");
            assert_eq!(v["error"], "invalid engine handle");
            assert_eq!(v["providerAvailable"], false);
        }
        _ => panic!("reply"),
    }
}

#[test]
fn history_replies() {
    let data = vec![
        doc(r#"{"id": "t1", "name": "N", "preview": "p", "createdAt": 1, "updatedAt": 2}"#),
        doc(r#"{"id": "  "}"#),
    ];
    let listed = value(&threads_reply(&data));
    assert_eq!(listed["success"], true);
    assert_eq!(listed["threads"].as_array().unwrap().len(), 1);
    assert_eq!(listed["threads"][0]["createdAt"], 1000);
    let items = vec![doc(r#"{"type": "agentMessage", "text": "hi"}"#)];
    let read = value(&messages_reply("t1", &items));
    assert_eq!(read["nativeThreadId"], "t1");
    assert_eq!(read["messages"][0]["content"], "hi");
    let bound = value(&bound_reply("t1"));
    assert_eq!(bound["nativeThreadId"], "t1");
    assert_eq!(bound["errorCode"], serde_json::Value::Null);
}

#[test]
fn history_calls_take_their_own_answer() {
    assert!(history_call_reply(&doc(r#"{"id": 4, "result": {}}"#), 5).is_none());
    assert!(history_call_reply(&doc(r#"{"id": 5, "method": "x"}"#), 5).is_none());
    match history_call_reply(&doc(r#"{"id": 5, "result": {"data": [1, 2]}}"#), 5) {
        Some(Ok(result)) => assert_eq!(listed_threads(&result).len(), 2),
        _ => panic!("result"),
    }
    match history_call_reply(&doc(r#"{"id": 5, "error": {"message": "nope"}}"#), 5) {
        Some(Err(e)) => assert_eq!(e, "nope"),
        _ => panic!("error"),
    }
    match history_call_reply(&doc(r#"{"id": 5}"#), 5) {
        Some(Ok(Json::Null)) => {}
        _ => panic!("null result"),
    }
    assert!(listed_threads(&doc(r#"{"data": 3}"#)).is_empty());
}

#[test]
fn history_connection_needs_configuration_and_native_dir() {
    assert_eq!(history_open_check(false, Some("/lib".to_string())), Err("Codex sandbox configuration is missing".to_string()));
    assert_eq!(history_open_check(true, None), Err("missing native_library_dir for Android Codex history".to_string()));
    assert_eq!(history_open_check(true, Some("/lib".to_string())), Ok("/lib".to_string()));
}

#[test]
fn listing_and_reading_fall_back() {
    assert!(matches!(after_workspace_list(&Vec::new()), ListStep::ListAll));
    match after_workspace_list(&vec![doc(r#"{"id": "t1"}"#)]) {
        ListStep::Reply(r) => assert_eq!(value(&r)["threads"][0]["id"], "t1"),
        _ => panic!("reply"),
    }
    assert!(matches!(after_resume("t1", None), ReadStep::Read));
    assert!(matches!(after_resume("t1", Some(&doc(r#"{"thread": {"turns": []}}"#))), ReadStep::Read));
    let resumed = doc(r#"{"thread": {"turns": [{"items": [{"type": "agentMessage", "text": "hi"}]}]}}"#);
    match after_resume("t1", Some(&resumed)) {
        ReadStep::Reply(r) => assert_eq!(value(&r)["messages"][0]["content"], "hi"),
        _ => panic!("reply"),
    }
    assert_eq!(value(&after_read("t1", &resumed))["nativeThreadId"], "t1");
    let failed = value(&rpc_failed_reply("Codex history request timed out"));
    assert_eq!(failed["errorCode"], "history_query_failed");
    assert_eq!(failed["providerAvailable"], true);
}

#[test]
fn history_requests_are_framed() {
    let mut rpc = JsonRpcClient::new();
    let (id, line) = initialize_request(&mut rpc);
    assert_eq!(id, 1);
    let v: serde_json::Value = serde_json::from_str(&line).unwrap();
    assert_eq!(v["method"], "initialize");
    assert_eq!(v["params"]["clientInfo"]["name"], "napaxi-core");
    assert_eq!(initialized_notification(&rpc), r#"{"jsonrpc":"2.0","method":"initialized"}"#);
    let (id, line) = thread_list_request(&mut rpc, Some("/workspace"));
    assert_eq!(id, 2);
    assert_eq!(line, r#"{"id":2,"jsonrpc":"2.0","method":"thread/list","params":{"cwd":"/workspace"}}"#);
    let (_, line) = thread_list_request(&mut rpc, None);
    assert_eq!(line, r#"{"id":3,"jsonrpc":"2.0","method":"thread/list","params":{}}"#);
    let (_, line) = thread_history_resume_request(&mut rpc, "t1");
    assert_eq!(line, r#"{"id":4,"jsonrpc":"2.0","method":"thread/resume","params":{"threadId":"t1"}}"#);
    let (id, line) = thread_read_request(&mut rpc, "t1");
    assert_eq!(id, 5);
    assert_eq!(
        line,
        r#"{"id":5,"jsonrpc":"2.0","method":"thread/read","params":{"includeTurns":true,"threadId":"t1"}}"#
    );
}

#[test]
fn binding_needs_synchronized_config() {
    let v: serde_json::Value = serde_json::from_str(&bind_reply(true, "t1").to_text()).unwrap();
    assert_eq!(v["success"], true);
    assert_eq!(v["nativeThreadId"], "t1");
    let v: serde_json::Value = serde_json::from_str(&bind_reply(false, "t1").to_text()).unwrap();
    assert_eq!(v["success"], false);
    assert_eq!(v["errorCode"], "missing_main_model");
    assert_eq!(v["providerAvailable"], true);
    assert_eq!(napaxi_codex::state::session_key_of("default", "engine.codex", "{}"), "default::engine.codex::{}");
}

#[test]
fn fractional_timestamps_count_by_their_value() {
    let ts = |text: &str| timestamp_millis_of(Some(&Json::Number(JsonNumber::Float(text.to_string()))));
    assert_eq!(ts("1700000000.5"), 1_700_000_000_500);
    assert_eq!(ts("1.7e9"), 1_700_000_000_000);
    assert_eq!(ts("1700000000123.7"), 1_700_000_000_123);
    assert_eq!(ts("1000000000000.0"), 1_000_000_000_000_000);
    assert_eq!(ts("-1.5"), -1_500);
    assert_eq!(ts("2.5E-1"), 250);
    assert_eq!(ts("1e400"), i64::MAX);
    assert_eq!(ts("-1e400"), i64::MIN);
    assert_eq!(ts("1e-400"), 0);
    assert_eq!(ts("abc"), 0);
    assert_eq!(ts("1."), 0);
    let summary = map_thread_summary(&to_json(
        &serde_json::from_str::<serde_json::Value>(r#"{"id": "t", "createdAt": 1700000000.5}"#).unwrap(),
    ))
    .unwrap();
    let v: serde_json::Value = serde_json::from_str(&summary.to_text()).unwrap();
    assert_eq!(v["createdAt"], 1_700_000_000_500i64);
}
