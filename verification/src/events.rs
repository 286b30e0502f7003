//! Mapping Codex app-server messages to chat events.
use vstd::prelude::*;
use crate::json::{
    first_string_of, string_array_of, u64_text, view_opt, views, Json,
    as_arr, as_arr_opt, as_str, as_str_opt, as_u64, decimal, first_string, get, key_views, str_views,
    string_array, string_opt, JsonV,
};
use crate::text::{same_text, starts_with, text_starts_with};

verus! {

/// An event of a chat turn, as the engine reports it to its host.
pub enum ChatEvent {
    ResponseDelta { content: String },
    ReasoningDelta { content: String },
    ToolOutputChunk { call_id: String, content: String, stream: String },
    Interrupted,
    Error { message: String },
    AskingHuman { question: String, request_id: String, options: Vec<String>, context: Option<String> },
    HumanResponse { request_id: String, response: String },
}

pub enum ChatEventV {
    ResponseDelta { content: Seq<char> },
    ReasoningDelta { content: Seq<char> },
    ToolOutputChunk { call_id: Seq<char>, content: Seq<char>, stream: Seq<char> },
    Interrupted,
    Error { message: Seq<char> },
    AskingHuman {
        question: Seq<char>,
        request_id: Seq<char>,
        options: Seq<Seq<char>>,
        context: Option<Seq<char>>,
    },
    HumanResponse { request_id: Seq<char>, response: Seq<char> },
}

impl View for ChatEvent {
    type V = ChatEventV;

    open spec fn view(&self) -> ChatEventV {
        match self {
            ChatEvent::ResponseDelta { content } => ChatEventV::ResponseDelta { content: content@ },
            ChatEvent::ReasoningDelta { content } => ChatEventV::ReasoningDelta { content: content@ },
            ChatEvent::ToolOutputChunk { call_id, content, stream } => ChatEventV::ToolOutputChunk {
                call_id: call_id@,
                content: content@,
                stream: stream@,
            },
            ChatEvent::Interrupted => ChatEventV::Interrupted,
            ChatEvent::Error { message } => ChatEventV::Error { message: message@ },
            ChatEvent::AskingHuman { question, request_id, options, context } =>
                ChatEventV::AskingHuman {
                question: question@,
                request_id: request_id@,
                options: str_views(options@),
                context: string_opt(*context),
            },
            ChatEvent::HumanResponse { request_id, response } => ChatEventV::HumanResponse {
                request_id: request_id@,
                response: response@,
            },
        }
    }
}

/// A question that Codex asked through a JSON-RPC request, to be answered later.
pub struct CodexHumanRequest {
    pub request_id: String,
    pub rpc_id: String,
    pub question_id: String,
}

pub struct HumanRequestV {
    pub request_id: Seq<char>,
    pub rpc_id: Seq<char>,
    pub question_id: Seq<char>,
}

impl View for CodexHumanRequest {
    type V = HumanRequestV;

    open spec fn view(&self) -> HumanRequestV {
        HumanRequestV {
            request_id: self.request_id@,
            rpc_id: self.rpc_id@,
            question_id: self.question_id@,
        }
    }
}

/// What one app-server message means for the running turn.
pub struct CodexTurnOutcome {
    pub event: Option<ChatEvent>,
    pub completed: bool,
    pub failed: bool,
    pub human_request: Option<CodexHumanRequest>,
}

pub struct OutcomeV {
    pub event: Option<ChatEventV>,
    pub completed: bool,
    pub failed: bool,
    pub human_request: Option<HumanRequestV>,
}

impl View for CodexTurnOutcome {
    type V = OutcomeV;

    open spec fn view(&self) -> OutcomeV {
        OutcomeV {
            event: match self.event {
                Some(e) => Some(e@),
                None => None,
            },
            completed: self.completed,
            failed: self.failed,
            human_request: match self.human_request {
                Some(h) => Some(h@),
                None => None,
            },
        }
    }
}

pub open spec fn quiet() -> OutcomeV {
    OutcomeV { event: None, completed: false, failed: false, human_request: None }
}

pub open spec fn with_event(e: ChatEventV) -> OutcomeV {
    OutcomeV { event: Some(e), completed: false, failed: false, human_request: None }
}

pub open spec fn unwrap_or(o: Option<Seq<char>>, d: Seq<char>) -> Seq<char> {
    match o {
        Some(s) => s,
        None => d,
    }
}

pub open spec fn or_else(a: Option<Seq<char>>, b: Option<Seq<char>>) -> Option<Seq<char>> {
    match a {
        Some(s) => Some(s),
        None => b,
    }
}

/// Where the payload of a message lies: `params`, else `result`, else the message.
pub open spec fn payload(m: JsonV) -> JsonV {
    match get(m, "params"@) {
        Some(p) => p,
        None => match get(m, "result"@) {
            Some(r) => r,
            None => m,
        },
    }
}

/// The event of a message: the payload's `event` member, else the payload.
pub open spec fn event_of(m: JsonV) -> JsonV {
    match get(payload(m), "event"@) {
        Some(e) => e,
        None => payload(m),
    }
}

/// The type that a payload names for itself.
pub open spec fn event_type(v: JsonV) -> Option<Seq<char>> {
    or_else(first_string(v, seq!["type"@, "event"@, "kind"@]), as_str_opt(get(v, "name"@)))
}

pub open spec fn routed_method(method: Seq<char>) -> bool {
    starts_with(method, "item/"@) || starts_with(method, "turn/"@) || starts_with(
        method,
        "codex/event/"@,
    )
}

/// The kind of a message: its method when that is an item, turn or Codex
/// event notification, else the type that its event names.
pub open spec fn message_kind(m: JsonV) -> Option<Seq<char>> {
    match as_str_opt(get(m, "method"@)) {
        Some(method) => if routed_method(method) {
            Some(method)
        } else {
            event_type(event_of(m))
        },
        None => event_type(event_of(m)),
    }
}

pub open spec fn is_response_delta(k: Seq<char>) -> bool {
    k == "item/agentMessage/delta"@ || k == "assistant_delta"@ || k == "response_delta"@ || k
        == "message_delta"@
}

pub open spec fn is_reasoning_delta(k: Seq<char>) -> bool {
    k == "item/reasoning/textDelta"@ || k == "item/reasoning/summaryTextDelta"@ || k
        == "reasoning_delta"@ || k == "thinking_delta"@
}

pub open spec fn is_output_delta(k: Seq<char>) -> bool {
    k == "item/commandExecution/outputDelta"@ || k == "command_output_delta"@ || k
        == "tool_output_delta"@ || k == "exec_output_delta"@
}

pub open spec fn is_completion(k: Seq<char>) -> bool {
    k == "turn/completed"@ || k == "codex/event/task_complete"@ || k == "turn_completed"@ || k
        == "completed"@ || k == "done"@
}

pub open spec fn is_abort(k: Seq<char>) -> bool {
    k == "codex/event/turn_aborted"@ || k == "turn_aborted"@ || k == "aborted"@ || k
        == "interrupted"@
}

pub open spec fn is_failure(k: Seq<char>) -> bool {
    k == "turn_error"@ || k == "error"@ || k == "failed"@
}

pub open spec fn is_input_request(k: Seq<char>) -> bool {
    k == "item/tool/requestUserInput"@ || k == "user_input_request"@ || k == "ask_human"@ || k
        == "input_request"@
}

pub open spec fn text_keys() -> Seq<Seq<char>> {
    seq!["delta"@, "content"@, "text"@]
}

/// A text event built from `text`, or nothing when there is no text.
pub open spec fn text_outcome(text: Option<Seq<char>>, reasoning: bool) -> OutcomeV {
    match text {
        Some(content) => if content.len() == 0 {
            quiet()
        } else if reasoning {
            with_event(ChatEventV::ReasoningDelta { content })
        } else {
            with_event(ChatEventV::ResponseDelta { content })
        },
        None => quiet(),
    }
}

/// The labels of an options array: plain strings, or the `label` of objects.
pub open spec fn option_label(v: JsonV) -> Option<Seq<char>> {
    match as_str(v) {
        Some(s) => Some(s),
        None => as_str_opt(get(v, "label"@)),
    }
}

pub open spec fn option_labels(xs: Seq<JsonV>) -> Seq<Seq<char>>
    decreases xs.len(),
{
    if xs.len() == 0 {
        Seq::empty()
    } else {
        let rest = option_labels(xs.subrange(0, xs.len() - 1));
        match option_label(xs[xs.len() - 1]) {
            Some(s) => rest.push(s),
            None => rest,
        }
    }
}

pub open spec fn option_labels_of(v: JsonV) -> Seq<Seq<char>> {
    match as_arr(v) {
        Some(xs) => option_labels(xs),
        None => Seq::empty(),
    }
}

/// The first entry of the event's `questions` array.
pub open spec fn first_question(event: JsonV) -> Option<JsonV> {
    match as_arr_opt(get(event, "questions"@)) {
        Some(qs) => if qs.len() > 0 {
            Some(qs[0])
        } else {
            None
        },
        None => None,
    }
}

pub open spec fn from_question(q: Option<JsonV>, keys: Seq<Seq<char>>) -> Option<Seq<char>> {
    match q {
        Some(q) => first_string(q, keys),
        None => None,
    }
}

/// The JSON-RPC id of a message, as text.
pub open spec fn rpc_id(m: JsonV) -> Option<Seq<char>> {
    match get(m, "id"@) {
        Some(id) => match as_str(id) {
            Some(s) => Some(s),
            None => match as_u64(id) {
                Some(n) => Some(decimal(n as nat)),
                None => None,
            },
        },
        None => None,
    }
}

pub open spec fn question_options(q: Option<JsonV>, event: JsonV) -> Seq<Seq<char>> {
    let from_q = match q {
        Some(q) => match get(q, "options"@) {
            Some(o) => option_labels_of(o),
            None => Seq::empty(),
        },
        None => Seq::empty(),
    };
    if from_q.len() > 0 {
        from_q
    } else {
        string_array(get(event, "options"@))
    }
}

/// What a request for user input means, where `fresh` is a newly generated id.
pub open spec fn input_request_outcome(m: JsonV, event: JsonV, fresh: Seq<char>) -> OutcomeV {
    let q = first_question(event);
    let question = unwrap_or(
        or_else(
            from_question(q, seq!["question"@, "prompt"@, "message"@]),
            first_string(event, seq!["question"@, "prompt"@, "message"@]),
        ),
        "Codex needs input"@,
    );
    let rpc = rpc_id(m);
    let is_rpc_request = as_str_opt(get(m, "method"@)) == Some("item/tool/requestUserInput"@);
    let request_id = if is_rpc_request {
        "codex:"@ + fresh
    } else {
        unwrap_or(or_else(first_string(event, seq!["request_id"@, "requestId"@, "id"@]), rpc), fresh)
    };
    let context = or_else(
        from_question(q, seq!["context"@, "header"@]),
        first_string(event, seq!["context"@, "header"@]),
    );
    let question_id = unwrap_or(
        or_else(
            from_question(q, seq!["id"@, "request_id"@, "requestId"@]),
            first_string(event, seq!["question_id"@, "questionId"@]),
        ),
        "answer"@,
    );
    OutcomeV {
        event: Some(
            ChatEventV::AskingHuman {
                question,
                request_id,
                options: question_options(q, event),
                context,
            },
        ),
        completed: false,
        failed: false,
        human_request: match rpc {
            Some(r) => Some(HumanRequestV { request_id, rpc_id: r, question_id }),
            None => None,
        },
    }
}

/// What an app-server message means for the turn, where `fresh` is a newly
/// generated id used when a request for user input carries none of its own.
pub open spec fn message_outcome(m: JsonV, fresh: Seq<char>) -> OutcomeV {
    let event = event_of(m);
    match message_kind(m) {
        Some(k) => if is_response_delta(k) {
            text_outcome(first_string(event, text_keys()), false)
        } else if is_reasoning_delta(k) {
            text_outcome(first_string(event, text_keys()), true)
        } else if is_output_delta(k) {
            with_event(
                ChatEventV::ToolOutputChunk {
                    call_id: unwrap_or(
                        first_string(event, seq!["call_id"@, "callId"@, "itemId"@, "id"@]),
                        "codex-command"@,
                    ),
                    content: unwrap_or(
                        first_string(event, seq!["delta"@, "content"@, "output"@]),
                        Seq::empty(),
                    ),
                    stream: unwrap_or(first_string(event, seq!["stream"@]), "stdout"@),
                },
            )
        } else if is_completion(k) {
            OutcomeV { event: None, completed: true, failed: false, human_request: None }
        } else if is_abort(k) {
            OutcomeV {
                event: Some(ChatEventV::Interrupted),
                completed: true,
                failed: true,
                human_request: None,
            }
        } else if is_failure(k) {
            OutcomeV {
                event: Some(
                    ChatEventV::Error {
                        message: unwrap_or(
                            first_string(event, seq!["message"@, "error"@, "reason"@]),
                            "Codex agent engine failed"@,
                        ),
                    },
                ),
                completed: true,
                failed: true,
                human_request: None,
            }
        } else if is_input_request(k) {
            input_request_outcome(m, event, fresh)
        } else {
            quiet()
        },
        None => quiet(),
    }
}


fn payload_of(m: &Json) -> (r: &Json)
    ensures
        r@ == payload(m@),
{
    match m.get("params") {
        Some(p) => p,
        None => match m.get("result") {
            Some(r) => r,
            None => m,
        },
    }
}

fn event_from(m: &Json) -> (r: &Json)
    ensures
        r@ == event_of(m@),
{
    let p = payload_of(m);
    match p.get("event") {
        Some(e) => e,
        None => p,
    }
}

fn event_type_of(v: &Json) -> (r: Option<String>)
    ensures
        string_opt(r) == event_type(v@),
{
    let keys = vec!["type", "event", "kind"];
    assert(key_views(keys@) =~= seq!["type"@, "event"@, "kind"@]);
    match first_string_of(v, &keys) {
        Some(s) => Some(s),
        None => match v.get("name") {
            Some(n) => match n.as_str() {
                Some(s) => Some(s.clone()),
                None => None,
            },
            None => None,
        },
    }
}

fn message_kind_of(m: &Json) -> (r: Option<String>)
    ensures
        string_opt(r) == message_kind(m@),
{
    let method = match m.get("method") {
        Some(x) => x.as_str(),
        None => None,
    };
    match method {
        Some(method) => {
            if text_starts_with(method.as_str(), "item/") || text_starts_with(
                method.as_str(),
                "turn/",
            ) || text_starts_with(method.as_str(), "codex/event/") {
                Some(method.clone())
            } else {
                event_type_of(event_from(m))
            }
        },
        None => event_type_of(event_from(m)),
    }
}

fn string_or(o: Option<String>, d: &str) -> (r: String)
    ensures
        r@ == unwrap_or(string_opt(o), d@),
{
    match o {
        Some(s) => s,
        None => String::from_str(d),
    }
}

fn event_from_text(text: Option<String>, reasoning: bool) -> (r: CodexTurnOutcome)
    ensures
        r@ == text_outcome(string_opt(text), reasoning),
{
    match text {
        Some(content) => {
            if content.as_str().is_empty() {
                quiet_outcome()
            } else if reasoning {
                CodexTurnOutcome {
                    event: Some(ChatEvent::ReasoningDelta { content }),
                    completed: false,
                    failed: false,
                    human_request: None,
                }
            } else {
                CodexTurnOutcome {
                    event: Some(ChatEvent::ResponseDelta { content }),
                    completed: false,
                    failed: false,
                    human_request: None,
                }
            }
        },
        None => quiet_outcome(),
    }
}

fn quiet_outcome() -> (r: CodexTurnOutcome)
    ensures
        r@ == quiet(),
{
    CodexTurnOutcome { event: None, completed: false, failed: false, human_request: None }
}

fn option_labels_from(v: &Json) -> (r: Vec<String>)
    ensures
        str_views(r@) == option_labels_of(v@),
{
    let mut out: Vec<String> = Vec::new();
    match v.as_array() {
        Some(items) => {
            let ghost xs = views(items@);
            let mut i: usize = 0;
            while i < items.len()
                invariant
                    i <= items.len(),
                    xs == views(items@),
                    str_views(out@) == option_labels(xs.subrange(0, i as int)),
                decreases items.len() - i,
            {
                let ghost before = out@;
                assert(xs.subrange(0, i + 1).subrange(0, i as int) =~= xs.subrange(0, i as int));
                let label: Option<String> = match items[i].as_str() {
                    Some(s) => Some(s.clone()),
                    None => match items[i].get("label") {
                        Some(l) => match l.as_str() {
                            Some(s) => Some(s.clone()),
                            None => None,
                        },
                        None => None,
                    },
                };
                match label {
                    Some(s) => {
                        out.push(s);
                        assert(str_views(out@) =~= str_views(before).push(s@));
                    },
                    None => {},
                }
                i += 1;
            }
            assert(xs.subrange(0, xs.len() as int) =~= xs);
        },
        None => {},
    }
    assert(str_views(Seq::<String>::empty()) =~= Seq::<Seq<char>>::empty());
    out
}

fn first_question_of(event: &Json) -> (r: Option<&Json>)
    ensures
        view_opt(r) == first_question(event@),
{
    match event.get("questions") {
        Some(q) => match q.as_array() {
            Some(qs) => {
                if qs.len() > 0 {
                    Some(&qs[0])
                } else {
                    None
                }
            },
            None => None,
        },
        None => None,
    }
}

fn from_question_of(q: Option<&Json>, keys: &Vec<&str>) -> (r: Option<String>)
    ensures
        string_opt(r) == from_question(view_opt(q), key_views(keys@)),
{
    match q {
        Some(q) => first_string_of(q, keys),
        None => None,
    }
}

fn or_string(a: Option<String>, b: Option<String>) -> (r: Option<String>)
    ensures
        string_opt(r) == or_else(string_opt(a), string_opt(b)),
{
    match a {
        Some(s) => Some(s),
        None => b,
    }
}

fn rpc_id_of(m: &Json) -> (r: Option<String>)
    ensures
        string_opt(r) == rpc_id(m@),
{
    match m.get("id") {
        Some(id) => match id.as_str() {
            Some(s) => Some(s.clone()),
            None => match id.as_u64() {
                Some(n) => Some(u64_text(n)),
                None => None,
            },
        },
        None => None,
    }
}

fn copy_opt(o: &Option<String>) -> (r: Option<String>)
    ensures
        string_opt(r) == string_opt(*o),
{
    match o {
        Some(s) => Some(s.clone()),
        None => None,
    }
}

fn input_request(m: &Json, event: &Json, fresh: &str) -> (r: CodexTurnOutcome)
    ensures
        r@ == input_request_outcome(m@, event@, fresh@),
{
    let q = first_question_of(event);
    let k_question = vec!["question", "prompt", "message"];
    assert(key_views(k_question@) =~= seq!["question"@, "prompt"@, "message"@]);
    let question = string_or(
        or_string(from_question_of(q, &k_question), first_string_of(event, &k_question)),
        "Codex needs input",
    );
    let rpc = rpc_id_of(m);
    let is_rpc_request = match m.get("method") {
        Some(x) => match x.as_str() {
            Some(s) => same_text(s.as_str(), "item/tool/requestUserInput"),
            None => false,
        },
        None => false,
    };
    let request_id = if is_rpc_request {
        String::from_str("codex:").concat(fresh)
    } else {
        let k_req = vec!["request_id", "requestId", "id"];
        assert(key_views(k_req@) =~= seq!["request_id"@, "requestId"@, "id"@]);
        string_or(or_string(first_string_of(event, &k_req), copy_opt(&rpc)), fresh)
    };
    let options_q: Vec<String> = match q {
        Some(qv) => match qv.get("options") {
            Some(o) => option_labels_from(o),
            None => Vec::new(),
        },
        None => Vec::new(),
    };
    assert(str_views(Seq::<String>::empty()) =~= Seq::<Seq<char>>::empty());
    let options = if options_q.len() > 0 {
        options_q
    } else {
        string_array_of(event.get("options"))
    };
    let k_ctx = vec!["context", "header"];
    assert(key_views(k_ctx@) =~= seq!["context"@, "header"@]);
    let context = or_string(from_question_of(q, &k_ctx), first_string_of(event, &k_ctx));
    let k_qid = vec!["id", "request_id", "requestId"];
    assert(key_views(k_qid@) =~= seq!["id"@, "request_id"@, "requestId"@]);
    let k_qid2 = vec!["question_id", "questionId"];
    assert(key_views(k_qid2@) =~= seq!["question_id"@, "questionId"@]);
    let question_id = string_or(
        or_string(from_question_of(q, &k_qid), first_string_of(event, &k_qid2)),
        "answer",
    );
    let human_request = match rpc {
        Some(r) => Some(CodexHumanRequest { request_id: request_id.clone(), rpc_id: r, question_id }),
        None => None,
    };
    CodexTurnOutcome {
        event: Some(ChatEvent::AskingHuman { question, request_id, options, context }),
        completed: false,
        failed: false,
        human_request,
    }
}

/// What an app-server message means for the turn, with `fresh` as the id of
/// a request for user input that carries none of its own.
pub fn map_app_server_message_with(message: &Json, fresh: &str) -> (r: CodexTurnOutcome)
    ensures
        r@ == message_outcome(message@, fresh@),
{
    let event = event_from(message);
    let kind = message_kind_of(message);
    match kind {
        Some(k) => {
            let k = k.as_str();
            let text_keys_v = vec!["delta", "content", "text"];
            assert(key_views(text_keys_v@) =~= text_keys());
            if same_text(k, "item/agentMessage/delta") || same_text(k, "assistant_delta")
                || same_text(k, "response_delta") || same_text(k, "message_delta") {
                event_from_text(first_string_of(event, &text_keys_v), false)
            } else if same_text(k, "item/reasoning/textDelta") || same_text(
                k,
                "item/reasoning/summaryTextDelta",
            ) || same_text(k, "reasoning_delta") || same_text(k, "thinking_delta") {
                event_from_text(first_string_of(event, &text_keys_v), true)
            } else if same_text(k, "item/commandExecution/outputDelta") || same_text(
                k,
                "command_output_delta",
            ) || same_text(k, "tool_output_delta") || same_text(k, "exec_output_delta") {
                let k_call = vec!["call_id", "callId", "itemId", "id"];
                assert(key_views(k_call@) =~= seq!["call_id"@, "callId"@, "itemId"@, "id"@]);
                let k_out = vec!["delta", "content", "output"];
                assert(key_views(k_out@) =~= seq!["delta"@, "content"@, "output"@]);
                let k_stream = vec!["stream"];
                assert(key_views(k_stream@) =~= seq!["stream"@]);
                proof {
                    reveal_strlit("");
                    assert(""@ =~= Seq::<char>::empty());
                }
                let content = string_or(first_string_of(event, &k_out), "");
                CodexTurnOutcome {
                    event: Some(
                        ChatEvent::ToolOutputChunk {
                            call_id: string_or(first_string_of(event, &k_call), "codex-command"),
                            content,
                            stream: string_or(first_string_of(event, &k_stream), "stdout"),
                        },
                    ),
                    completed: false,
                    failed: false,
                    human_request: None,
                }
            } else if same_text(k, "turn/completed") || same_text(k, "codex/event/task_complete")
                || same_text(k, "turn_completed") || same_text(k, "completed") || same_text(
                k,
                "done",
            ) {
                CodexTurnOutcome { event: None, completed: true, failed: false, human_request: None }
            } else if same_text(k, "codex/event/turn_aborted") || same_text(k, "turn_aborted")
                || same_text(k, "aborted") || same_text(k, "interrupted") {
                CodexTurnOutcome {
                    event: Some(ChatEvent::Interrupted),
                    completed: true,
                    failed: true,
                    human_request: None,
                }
            } else if same_text(k, "turn_error") || same_text(k, "error") || same_text(k, "failed") {
                let k_msg = vec!["message", "error", "reason"];
                assert(key_views(k_msg@) =~= seq!["message"@, "error"@, "reason"@]);
                CodexTurnOutcome {
                    event: Some(
                        ChatEvent::Error {
                            message: string_or(
                                first_string_of(event, &k_msg),
                                "Codex agent engine failed",
                            ),
                        },
                    ),
                    completed: true,
                    failed: true,
                    human_request: None,
                }
            } else if same_text(k, "item/tool/requestUserInput") || same_text(
                k,
                "user_input_request",
            ) || same_text(k, "ask_human") || same_text(k, "input_request") {
                input_request(message, event, fresh)
            } else {
                quiet_outcome()
            }
        },
        None => quiet_outcome(),
    }
}


/// An item or turn notification whose `params` carry a non-empty `delta`
/// (and no nested `event`) is a reasoning delta carrying that text when its
/// method is `item/reasoning/textDelta` or `item/reasoning/summaryTextDelta`,
/// and an answer delta when its method is `item/agentMessage/delta`; neither
/// ends the turn.
pub proof fn law_method_delta_kinds(m: JsonV, fresh: Seq<char>, k: Seq<char>, p: JsonV, d: Seq<char>)
    requires
        get(m, "method"@) == Some(JsonV::Str(k)),
        get(m, "params"@) == Some(p),
        get(p, "event"@) is None,
        get(p, "delta"@) == Some(JsonV::Str(d)),
        d.len() > 0,
    ensures
        k == "item/reasoning/textDelta"@ || k == "item/reasoning/summaryTextDelta"@ ==> message_outcome(m, fresh)
            == (OutcomeV {
            event: Some(ChatEventV::ReasoningDelta { content: d }),
            completed: false,
            failed: false,
            human_request: None,
        }),
        k == "item/agentMessage/delta"@ ==> message_outcome(m, fresh) == (OutcomeV {
            event: Some(ChatEventV::ResponseDelta { content: d }),
            completed: false,
            failed: false,
            human_request: None,
        }),
{
    reveal_strlit("item/reasoning/textDelta");
    reveal_strlit("item/reasoning/summaryTextDelta");
    reveal_strlit("item/agentMessage/delta");
    reveal_strlit("assistant_delta");
    reveal_strlit("response_delta");
    reveal_strlit("message_delta");
    reveal_strlit("item/");
    reveal_strlit("delta");
    assert(event_of(m) == p);
    assert(text_keys()[0] == "delta"@);
    assert(first_string(p, text_keys()) == Some(d));
    if k == "item/reasoning/textDelta"@ || k == "item/reasoning/summaryTextDelta"@ || k
        == "item/agentMessage/delta"@ {
        assert(k.subrange(0, 5) =~= "item/"@);
        assert(routed_method(k));
        assert(message_kind(m) == Some(k));
    }
}

/// A message that names its kind by the `type` of its `params` (with no
/// method and no nested `event`) and carries a non-empty `delta` is a
/// reasoning delta carrying that text for `reasoning_delta` and
/// `thinking_delta`, and an answer delta for `assistant_delta`,
/// `response_delta` and `message_delta`.
pub proof fn law_typed_delta_kinds(m: JsonV, fresh: Seq<char>, k: Seq<char>, p: JsonV, d: Seq<char>)
    requires
        get(m, "method"@) is None,
        get(m, "params"@) == Some(p),
        get(p, "event"@) is None,
        get(p, "type"@) == Some(JsonV::Str(k)),
        get(p, "delta"@) == Some(JsonV::Str(d)),
        d.len() > 0,
    ensures
        k == "reasoning_delta"@ || k == "thinking_delta"@ ==> message_outcome(m, fresh) == (OutcomeV {
            event: Some(ChatEventV::ReasoningDelta { content: d }),
            completed: false,
            failed: false,
            human_request: None,
        }),
        k == "assistant_delta"@ || k == "response_delta"@ || k == "message_delta"@ ==> message_outcome(m, fresh)
            == (OutcomeV {
            event: Some(ChatEventV::ResponseDelta { content: d }),
            completed: false,
            failed: false,
            human_request: None,
        }),
{
    reveal_strlit("reasoning_delta");
    reveal_strlit("thinking_delta");
    reveal_strlit("item/agentMessage/delta");
    reveal_strlit("assistant_delta");
    reveal_strlit("response_delta");
    reveal_strlit("message_delta");
    reveal_strlit("delta");
    reveal_strlit("type");
    assert(event_of(m) == p);
    assert(text_keys()[0] == "delta"@);
    assert(first_string(p, text_keys()) == Some(d));
    let tk = seq!["type"@, "event"@, "kind"@];
    assert(tk[0] == "type"@);
    assert(first_string(p, tk) == Some(k));
    assert(event_type(p) == Some(k));
    assert(message_kind(m) == Some(k));
    assert("reasoning_delta"@[0] != "assistant_delta"@[0]);
    assert("thinking_delta"@[0] != "response_delta"@[0]);
    assert("reasoning_delta"@ != "assistant_delta"@);
    assert("reasoning_delta"@.len() == 15 && "response_delta"@.len() == 14);
    assert("reasoning_delta"@ != "response_delta"@);
    assert("reasoning_delta"@ != "message_delta"@);
    assert("thinking_delta"@ != "response_delta"@);
    assert("thinking_delta"@ != "assistant_delta"@);
    assert("thinking_delta"@ != "message_delta"@);
    if k == "reasoning_delta"@ || k == "thinking_delta"@ {
        assert(!is_response_delta(k));
        assert(is_reasoning_delta(k));
        assert(message_outcome(m, fresh) == text_outcome(Some(d), true));
    }
}

/// Only the answer-delta kinds give an answer delta: a message of any other
/// kind never shows its text as the assistant's answer.
pub proof fn law_only_answer_kinds_answer(m: JsonV, fresh: Seq<char>)
    ensures
        message_outcome(m, fresh).event matches Some(ChatEventV::ResponseDelta { .. }) ==> message_kind(m) matches Some(
            k,
        ) && (k == "item/agentMessage/delta"@ || k == "assistant_delta"@ || k == "response_delta"@ || k
            == "message_delta"@),
{
}

/// The shape of a random version-4 UUID in hyphenated lower-case form:
/// 36 characters, hyphens at 8, 13, 18 and 23, the version digit `4` at 14,
/// a variant digit among `8`, `9`, `a`, `b` at 19, lower-case hex digits elsewhere.
pub open spec fn uuid_v4_text(t: Seq<char>) -> bool {
    &&& t.len() == 36
    &&& forall|i: int|
        0 <= i < 36 ==> if i == 8 || i == 13 || i == 18 || i == 23 {
            #[trigger] t[i] == '-'
        } else {
            ('0' <= t[i] <= '9') || ('a' <= t[i] <= 'f')
        }
    &&& t[14] == '4'
    &&& (t[19] == '8' || t[19] == '9' || t[19] == 'a' || t[19] == 'b')
}

/// `uuid::Uuid::new_v4()` turned into text with `to_string()`. The UUID is drawn
/// at random, so only its shape is stated: `new_v4` masks in the version and
/// variant bits, and `Display` writes the hyphenated lower-case form.
#[verifier::external_body]
fn new_uuid() -> (r: String)
    ensures
        uuid_v4_text(r@),
{
    uuid::Uuid::new_v4().to_string()
}

/// What an app-server message means for the turn. A request for user input
/// that carries no id of its own is given a freshly drawn UUID.
pub fn map_app_server_message(message: &Json) -> (r: CodexTurnOutcome)
    ensures
        exists|fresh: Seq<char>| #[trigger] uuid_v4_text(fresh) && r@ == message_outcome(message@, fresh),
{
    let fresh = new_uuid();
    let r = map_app_server_message_with(message, fresh.as_str());
    assert(uuid_v4_text(fresh@) && r@ == message_outcome(message@, fresh@));
    r
}

} // verus!
