//! The engine's JSON entry points.
use vstd::prelude::*;
use crate::config::{configure_reply, configure_request_reply, ConfigureCodexRequest};
use crate::events::{map_app_server_message, message_outcome, uuid_v4_text, ChatEvent, ChatEventV, CodexTurnOutcome, OutcomeV};
use crate::history::{handle_request_json, history_reply, CodexHistoryRequest};
use crate::json::{json_text, obj1, obj2, obj3, obj4, str_views, string_list, views, Json, JsonV};

verus! {

/// A list of texts as JSON strings.
pub open spec fn str_values(xs: Seq<Seq<char>>) -> Seq<JsonV> {
    Seq::new(xs.len(), |i: int| JsonV::Str(xs[i]))
}

pub open spec fn context_value(context: Option<Seq<char>>) -> JsonV {
    match context {
        Some(c) => JsonV::Str(c),
        None => JsonV::Null,
    }
}

pub open spec fn asking_value(
    question: Seq<char>,
    request_id: Seq<char>,
    options: Seq<Seq<char>>,
    context: Option<Seq<char>>,
) -> JsonV {
    JsonV::Obj(
        seq![
            ("context"@, context_value(context)),
            ("options"@, JsonV::Arr(str_values(options))),
            ("question"@, JsonV::Str(question)),
            ("request_id"@, JsonV::Str(request_id)),
            ("type"@, JsonV::Str("asking_human"@)),
        ],
    )
}

/// The JSON form of a chat event: its fields and its kind under `type`.
pub open spec fn event_value(e: ChatEventV) -> JsonV {
    match e {
        ChatEventV::ResponseDelta { content } => JsonV::Obj(
            seq![("content"@, JsonV::Str(content)), ("type"@, JsonV::Str("response_delta"@))],
        ),
        ChatEventV::ReasoningDelta { content } => JsonV::Obj(
            seq![("content"@, JsonV::Str(content)), ("type"@, JsonV::Str("reasoning_delta"@))],
        ),
        ChatEventV::ToolOutputChunk { call_id, content, stream } => JsonV::Obj(
            seq![
                ("call_id"@, JsonV::Str(call_id)),
                ("content"@, JsonV::Str(content)),
                ("stream"@, JsonV::Str(stream)),
                ("type"@, JsonV::Str("tool_output_chunk"@)),
            ],
        ),
        ChatEventV::Interrupted => JsonV::Obj(seq![("type"@, JsonV::Str("interrupted"@))]),
        ChatEventV::Error { message } => JsonV::Obj(
            seq![("message"@, JsonV::Str(message)), ("type"@, JsonV::Str("error"@))],
        ),
        ChatEventV::AskingHuman { question, request_id, options, context } => asking_value(
            question,
            request_id,
            options,
            context,
        ),
        ChatEventV::HumanResponse { request_id, response } => JsonV::Obj(
            seq![
                ("request_id"@, JsonV::Str(request_id)),
                ("response"@, JsonV::Str(response)),
                ("type"@, JsonV::Str("human_response"@)),
            ],
        ),
    }
}

pub open spec fn opt_event_value(e: Option<ChatEventV>) -> JsonV {
    match e {
        Some(e) => event_value(e),
        None => JsonV::Null,
    }
}

pub open spec fn human_value(h: Option<crate::events::HumanRequestV>) -> JsonV {
    match h {
        Some(h) => JsonV::Obj(
            seq![
                ("question_id"@, JsonV::Str(h.question_id)),
                ("request_id"@, JsonV::Str(h.request_id)),
                ("rpc_id"@, JsonV::Str(h.rpc_id)),
            ],
        ),
        None => JsonV::Null,
    }
}

/// The JSON form of what a run event means for the turn.
pub open spec fn outcome_value(o: OutcomeV) -> JsonV {
    JsonV::Obj(
        seq![
            ("completed"@, JsonV::Bool(o.completed)),
            ("event"@, opt_event_value(o.event)),
            ("failed"@, JsonV::Bool(o.failed)),
            ("human_request"@, human_value(o.human_request)),
        ],
    )
}

pub fn event_json(e: &ChatEvent) -> (r: Json)
    ensures
        r@ == event_value(e@),
{
    match e {
        ChatEvent::ResponseDelta { content } => {
            let r = obj2("content", Json::string(content.as_str()), "type", Json::string("response_delta"));
            assert(r@ == event_value(e@));
            r
        },
        ChatEvent::ReasoningDelta { content } => {
            let r = obj2("content", Json::string(content.as_str()), "type", Json::string("reasoning_delta"));
            assert(r@ == event_value(e@));
            r
        },
        ChatEvent::ToolOutputChunk { call_id, content, stream } => {
            let r = obj4(
                "call_id",
                Json::string(call_id.as_str()),
                "content",
                Json::string(content.as_str()),
                "stream",
                Json::string(stream.as_str()),
                "type",
                Json::string("tool_output_chunk"),
            );
            assert(r@ == event_value(e@));
            r
        },
        ChatEvent::Interrupted => {
            let r = obj1("type", Json::string("interrupted"));
            assert(r@ == event_value(e@));
            r
        },
        ChatEvent::Error { message } => {
            let r = obj2("message", Json::string(message.as_str()), "type", Json::string("error"));
            assert(r@ == event_value(e@));
            r
        },
        ChatEvent::AskingHuman { question, request_id, options, context } => {
            let ctx = match context {
                Some(c) => Json::string(c.as_str()),
                None => Json::Null,
            };
            assert(ctx@ == context_value(crate::json::string_opt(*context)));
            let opts = string_list(options);
            let ghost ov = str_views(options@);
            assert(opts@ == JsonV::Arr(str_values(ov))) by {
                assert(Seq::new(options@.len(), |i: int| JsonV::Str(options@[i]@)) =~= str_values(ov));
            }
            let ghost w = (ctx@, opts@);
            let entries = vec![
                crate::protocol::member("context", ctx),
                crate::protocol::member("options", opts),
                crate::protocol::member("question", Json::string(question.as_str())),
                crate::protocol::member("request_id", Json::string(request_id.as_str())),
                crate::protocol::member("type", Json::string("asking_human")),
            ];
            assert(crate::json::member_views(entries@) =~= seq![
                ("context"@, w.0),
                ("options"@, w.1),
                ("question"@, JsonV::Str(question@)),
                ("request_id"@, JsonV::Str(request_id@)),
                ("type"@, JsonV::Str("asking_human"@)),
            ]);
            let r = crate::protocol::obj(entries);
            assert(r@ == asking_value(question@, request_id@, ov, crate::json::string_opt(*context)));
            r
        },
        ChatEvent::HumanResponse { request_id, response } => {
            let r = obj3(
                "request_id",
                Json::string(request_id.as_str()),
                "response",
                Json::string(response.as_str()),
                "type",
                Json::string("human_response"),
            );
            assert(r@ == event_value(e@));
            r
        },
    }
}

pub fn outcome_json(o: &CodexTurnOutcome) -> (r: Json)
    ensures
        r@ == outcome_value(o@),
{
    let event = match &o.event {
        Some(e) => event_json(e),
        None => Json::Null,
    };
    assert(event@ == opt_event_value(o@.event));
    let human = match &o.human_request {
        Some(h) => obj3(
            "question_id",
            Json::string(h.question_id.as_str()),
            "request_id",
            Json::string(h.request_id.as_str()),
            "rpc_id",
            Json::string(h.rpc_id.as_str()),
        ),
        None => Json::Null,
    };
    assert(human@ == human_value(o@.human_request));
    obj4("completed", Json::Bool(o.completed), "event", event, "failed", Json::Bool(o.failed), "human_request", human)
}

/// What a run event (an app-server message, read as JSON, or the reading
/// error's text) means for the turn, as JSON; a request for user input
/// without an id of its own is given a fresh UUID.
pub fn run_event_json(request: Result<Json, String>) -> (r: String)
    ensures
        match request {
            Err(e) => r@ == json_text(JsonV::Obj(seq![("error"@, JsonV::Str("Invalid run event JSON: "@ + e@))])),
            Ok(m) => exists|fresh: Seq<char>| #[trigger] uuid_v4_text(fresh) && r@ == json_text(
                outcome_value(message_outcome(m@, fresh)),
            ),
        },
{
    match request {
        Err(e) => {
            let msg = crate::history::cat("Invalid run event JSON: ", e.as_str());
            obj1("error", Json::string(msg.as_str())).to_text()
        },
        Ok(m) => {
            let o = map_app_server_message(&m);
            let r = outcome_json(&o).to_text();
            let ghost fresh = choose|fresh: Seq<char>| uuid_v4_text(fresh) && o@ == message_outcome(m@, fresh);
            assert(uuid_v4_text(fresh) && r@ == json_text(outcome_value(message_outcome(m@, fresh))));
            r
        },
    }
}

/// Configures the Codex engine where it cannot run: the reply to the
/// request, with the files directory of the engine handle when it has one.
pub fn configure_codex_agent_engine_json(
    handle_files_dir: Option<String>,
    request: Result<ConfigureCodexRequest, String>,
) -> (r: String)
    ensures
        r@ == json_text(configure_reply(request, handle_files_dir)),
{
    configure_request_reply(handle_files_dir, request)
}

/// Answers a query of the Codex native history where the engine cannot run.
pub fn query_codex_agent_engine_history_json(handle: i64, request: Result<CodexHistoryRequest, String>) -> (r: String)
    ensures
        r@ == json_text(history_reply(request)),
{
    handle_request_json(handle, request).to_text()
}

} // verus!
