//! JSON-RPC framing of the Codex app-server protocol.
use vstd::prelude::*;
use crate::json::{
    arr, as_str, as_str_opt, as_u64, get, get_opt, json_text, lemma_object_view, member_views, obj1,
    obj2, obj3, obj4, string_opt, view_opt, Json, JsonNumber, JsonV, NumV,
};
use crate::text::{chars_of, find, find_from, find_in, lemma_find_from_some, is_alpha, occurs_at, seq_starts_with, starts_with, string_of, trim, trim_vec};
use crate::json::str_views;

verus! {

/// A turn request that the host hands to the Codex engine.
pub struct AgentEngineTurnRequest {
    pub message: String,
    pub run_id: String,
    pub account_id: String,
    pub agent_id: String,
    pub session_key_json: String,
    pub files_dir: String,
    pub workspace_files_dir: String,
    pub engine_config: Json,
}

/// What the engine remembers of a conversation between turns.
pub struct CodexSessionState {
    pub native_thread_id: Option<String>,
}

/// Numbers the JSON-RPC requests that it frames.
pub struct JsonRpcClient {
    pub next_id: u64,
}

pub open spec fn s(t: Seq<char>) -> JsonV {
    JsonV::Str(t)
}

pub open spec fn request_value(id: u64, method: Seq<char>, params: JsonV) -> JsonV {
    JsonV::Obj(
        seq![
            ("id"@, JsonV::Num(NumV::PosInt(id))),
            ("jsonrpc"@, s("2.0"@)),
            ("method"@, s(method)),
            ("params"@, params),
        ],
    )
}

pub open spec fn notification_value(method: Seq<char>, params: Option<JsonV>) -> JsonV {
    match params {
        Some(p) => JsonV::Obj(seq![("jsonrpc"@, s("2.0"@)), ("method"@, s(method)), ("params"@, p)]),
        None => JsonV::Obj(seq![("jsonrpc"@, s("2.0"@)), ("method"@, s(method))]),
    }
}

pub open spec fn next_after(id: u64) -> u64 {
    if id == u64::MAX {
        id
    } else {
        (id + 1) as u64
    }
}

pub fn obj(entries: Vec<(String, Json)>) -> (r: Json)
    ensures
        r@ == JsonV::Obj(member_views(entries@)),
{
    proof {
        lemma_object_view(entries);
    }
    Json::Object(entries)
}

pub fn member(k: &str, v: Json) -> (r: (String, Json))
    ensures
        r.0@ == k@,
        r.1@ == v@,
{
    (String::from_str(k), v)
}

impl JsonRpcClient {
    pub fn new() -> (r: JsonRpcClient)
        ensures
            r.next_id == 1,
    {
        JsonRpcClient { next_id: 1 }
    }

    /// Frames a request; returns its id and its text.
    pub fn request(&mut self, method: &str, params: Json) -> (r: (u64, String))
        ensures
            r.0 == old(self).next_id,
            final(self).next_id == next_after(old(self).next_id),
            r.1@ == json_text(request_value(r.0, method@, params@)),
    {
        let id = self.next_id;
        self.next_id = self.next_id.saturating_add(1);
        let ghost pv = params@;
        let entries = vec![
            member("id", Json::Number(JsonNumber::PosInt(id))),
            member("jsonrpc", Json::string("2.0")),
            member("method", Json::string(method)),
            member("params", params),
        ];
        assert(member_views(entries@) =~= seq![
            ("id"@, JsonV::Num(NumV::PosInt(id))),
            ("jsonrpc"@, s("2.0"@)),
            ("method"@, s(method@)),
            ("params"@, pv),
        ]);
        let v = obj(entries);
        (id, v.to_text())
    }

    /// Frames a notification, which carries no id.
    pub fn notification(&self, method: &str, params: Option<Json>) -> (r: String)
        ensures
            r@ == json_text(
                notification_value(
                    method@,
                    match params {
                        Some(p) => Some(p@),
                        None => None,
                    },
                ),
            ),
    {
        match params {
            Some(p) => obj3("jsonrpc", Json::string("2.0"), "method", Json::string(method), "params", p).to_text(),
            None => obj2("jsonrpc", Json::string("2.0"), "method", Json::string(method)).to_text(),
        }
    }
}

pub open spec fn initialize_params() -> JsonV {
    JsonV::Obj(
        seq![
            ("capabilities"@, JsonV::Obj(seq![("experimentalApi"@, JsonV::Bool(true))])),
            (
                "clientInfo"@,
                JsonV::Obj(
                    seq![
                        ("name"@, s("napaxi-core"@)),
                        ("title"@, s("Napaxi"@)),
                        ("version"@, s("1.0.0"@)),
                    ],
                ),
            ),
        ],
    )
}

/// The lines that open a connection: `initialize` with the client's
/// identity, then the `initialized` notification.
pub fn startup_requests(client: &mut JsonRpcClient) -> (r: Vec<String>)
    ensures
        r.len() == 2,
        r@[0]@ == json_text(request_value(old(client).next_id, "initialize"@, initialize_params())),
        r@[1]@ == json_text(notification_value("initialized"@, None)),
        final(client).next_id == next_after(old(client).next_id),
{
    let params = obj2(
        "capabilities",
        obj1("experimentalApi", Json::Bool(true)),
        "clientInfo",
        obj3(
            "name",
            Json::string("napaxi-core"),
            "title",
            Json::string("Napaxi"),
            "version",
            Json::string("1.0.0"),
        ),
    );
    let (_, initialize) = client.request("initialize", params);
    let initialized = client.notification("initialized", None);
    vec![initialize, initialized]
}

pub open spec fn thread_start_params() -> JsonV {
    JsonV::Obj(
        seq![
            ("approvalPolicy"@, s("never"@)),
            ("cwd"@, s("/workspace/codex"@)),
            ("sandbox"@, s("danger-full-access"@)),
        ],
    )
}

pub open spec fn thread_resume_params(thread_id: Seq<char>) -> JsonV {
    JsonV::Obj(
        seq![
            ("approvalPolicy"@, s("never"@)),
            ("sandbox"@, s("danger-full-access"@)),
            ("threadId"@, s(thread_id)),
        ],
    )
}

fn thread_start_value() -> (r: Json)
    ensures
        r@ == thread_start_params(),
{
    obj3(
        "approvalPolicy",
        Json::string("never"),
        "cwd",
        Json::string("/workspace/codex"),
        "sandbox",
        Json::string("danger-full-access"),
    )
}

/// The `initialize` request that opens a connection; returns its id and its text.
pub fn initialize_request(client: &mut JsonRpcClient) -> (r: (u64, String))
    ensures
        r.0 == old(client).next_id,
        final(client).next_id == next_after(old(client).next_id),
        r.1@ == json_text(request_value(r.0, "initialize"@, initialize_params())),
{
    let params = obj2(
        "capabilities",
        obj1("experimentalApi", Json::Bool(true)),
        "clientInfo",
        obj3(
            "name",
            Json::string("napaxi-core"),
            "title",
            Json::string("Napaxi"),
            "version",
            Json::string("1.0.0"),
        ),
    );
    client.request("initialize", params)
}

/// The `initialized` notification that follows the answer to `initialize`.
pub fn initialized_notification(client: &JsonRpcClient) -> (r: String)
    ensures
        r@ == json_text(notification_value("initialized"@, None)),
{
    client.notification("initialized", None)
}

/// What `thread/list` is asked: the threads whose working directory is
/// `cwd`, or all threads.
pub open spec fn thread_list_params(cwd: Option<Seq<char>>) -> JsonV {
    match cwd {
        Some(d) => JsonV::Obj(seq![("cwd"@, s(d))]),
        None => JsonV::Obj(Seq::empty()),
    }
}

/// The request that lists native threads, of working directory `cwd` when
/// one is given.
pub fn thread_list_request(client: &mut JsonRpcClient, cwd: Option<&str>) -> (r: (u64, String))
    ensures
        r.0 == old(client).next_id,
        final(client).next_id == next_after(old(client).next_id),
        r.1@ == json_text(
            request_value(
                r.0,
                "thread/list"@,
                thread_list_params(
                    match cwd {
                        Some(d) => Some(d@),
                        None => None,
                    },
                ),
            ),
        ),
{
    let params = match cwd {
        Some(d) => obj1("cwd", Json::string(d)),
        None => {
            let entries: Vec<(String, Json)> = Vec::new();
            let r = obj(entries);
            assert(member_views(entries@) =~= Seq::<(Seq<char>, JsonV)>::empty());
            r
        },
    };
    assert(params@ == thread_list_params(
        match cwd {
            Some(d) => Some(d@),
            None => None,
        },
    ));
    client.request("thread/list", params)
}

/// The request that resumes thread `thread_id` to read its history.
pub fn thread_history_resume_request(client: &mut JsonRpcClient, thread_id: &str) -> (r: (u64, String))
    ensures
        r.0 == old(client).next_id,
        final(client).next_id == next_after(old(client).next_id),
        r.1@ == json_text(request_value(r.0, "thread/resume"@, JsonV::Obj(seq![("threadId"@, s(thread_id@))]))),
{
    client.request("thread/resume", obj1("threadId", Json::string(thread_id)))
}

/// The request that reads thread `thread_id` with its turns.
pub fn thread_read_request(client: &mut JsonRpcClient, thread_id: &str) -> (r: (u64, String))
    ensures
        r.0 == old(client).next_id,
        final(client).next_id == next_after(old(client).next_id),
        r.1@ == json_text(
            request_value(
                r.0,
                "thread/read"@,
                JsonV::Obj(seq![("includeTurns"@, JsonV::Bool(true)), ("threadId"@, s(thread_id@))]),
            ),
        ),
{
    client.request("thread/read", obj2("includeTurns", Json::Bool(true), "threadId", Json::string(thread_id)))
}

/// The request that opens the conversation's thread: `thread/resume` of the
/// remembered thread, else `thread/start`. Returns the request's id, its
/// text, and whether it resumes.
pub fn thread_open_request(client: &mut JsonRpcClient, state: &CodexSessionState) -> (r: (
    u64,
    String,
    bool,
))
    ensures
        r.0 == old(client).next_id,
        final(client).next_id == next_after(old(client).next_id),
        r.2 == (state.native_thread_id is Some),
        match state.native_thread_id {
            Some(t) => r.1@ == json_text(
                request_value(r.0, "thread/resume"@, thread_resume_params(t@)),
            ),
            None => r.1@ == json_text(request_value(r.0, "thread/start"@, thread_start_params())),
        },
{
    match &state.native_thread_id {
        Some(thread_id) => {
            let params = obj3(
                "approvalPolicy",
                Json::string("never"),
                "sandbox",
                Json::string("danger-full-access"),
                "threadId",
                Json::string(thread_id.as_str()),
            );
            let (id, line) = client.request("thread/resume", params);
            (id, line, true)
        },
        None => {
            let (id, line) = client.request("thread/start", thread_start_value());
            (id, line, false)
        },
    }
}

/// The request that starts a new thread.
pub fn thread_start_request(client: &mut JsonRpcClient) -> (r: (u64, String))
    ensures
        r.0 == old(client).next_id,
        final(client).next_id == next_after(old(client).next_id),
        r.1@ == json_text(request_value(r.0, "thread/start"@, thread_start_params())),
{
    client.request("thread/start", thread_start_value())
}

/// The reasoning effort that the engine configuration asks for.
pub open spec fn effort(config: JsonV) -> Seq<char> {
    let chosen = match get(config, "reasoning_effort"@) {
        Some(e) => Some(e),
        None => get(config, "effort"@),
    };
    match as_str_opt(chosen) {
        Some(e) => e,
        None => "medium"@,
    }
}

pub open spec fn turn_start_params(
    thread_id: Seq<char>,
    message: Seq<char>,
    effort: Seq<char>,
    run_id: Seq<char>,
    account_id: Seq<char>,
    agent_id: Seq<char>,
    session_key_json: Seq<char>,
) -> JsonV {
    JsonV::Obj(
        seq![
            ("approvalPolicy"@, s("never"@)),
            ("effort"@, s(effort)),
            ("input"@, JsonV::Arr(seq![JsonV::Obj(seq![("text"@, s(message)), ("type"@, s("text"@))])])),
            (
                "metadata"@,
                JsonV::Obj(
                    seq![
                        ("account_id"@, s(account_id)),
                        ("agent_id"@, s(agent_id)),
                        ("napaxi_run_id"@, s(run_id)),
                        ("session_key_json"@, s(session_key_json)),
                    ],
                ),
            ),
            ("sandboxPolicy"@, JsonV::Obj(seq![("type"@, s("dangerFullAccess"@))])),
            ("threadId"@, s(thread_id)),
        ],
    )
}

pub open spec fn thread_id_or_empty(state: CodexSessionState) -> Seq<char> {
    match state.native_thread_id {
        Some(t) => t@,
        None => Seq::empty(),
    }
}

/// The effort a turn asks for is the engine config's `reasoning_effort`
/// when it is a string; when there is no `reasoning_effort`, its `effort`
/// when that is a string; else `medium`.
pub proof fn law_turn_effort_follows_config(
    thread_id: Seq<char>,
    message: Seq<char>,
    config: JsonV,
    run_id: Seq<char>,
    account_id: Seq<char>,
    agent_id: Seq<char>,
    session_key_json: Seq<char>,
)
    ensures
        ({
            let p = turn_start_params(
                thread_id,
                message,
                effort(config),
                run_id,
                account_id,
                agent_id,
                session_key_json,
            );
            &&& forall|e: Seq<char>| get(config, "reasoning_effort"@) == Some(JsonV::Str(e)) ==> get(p, "effort"@)
                == Some(JsonV::Str(e))
            &&& forall|e: Seq<char>| get(config, "reasoning_effort"@) is None && get(config, "effort"@) == Some(
                JsonV::Str(e),
            ) ==> get(p, "effort"@) == Some(JsonV::Str(e))
            &&& get(config, "reasoning_effort"@) is None && get(config, "effort"@) is None ==> get(p, "effort"@)
                == Some(JsonV::Str("medium"@))
        }),
{
    reveal_strlit("approvalPolicy");
    reveal_strlit("effort");
    let p = turn_start_params(thread_id, message, effort(config), run_id, account_id, agent_id, session_key_json);
    let es = match p {
        JsonV::Obj(es) => es,
        _ => Seq::empty(),
    };
    assert("approvalPolicy"@.len() != "effort"@.len());
    crate::json::lemma_lookup_at(es, "effort"@, 1);
}

fn effort_of(config: &Json) -> (r: String)
    ensures
        r@ == effort(config@),
{
    let chosen = match config.get("reasoning_effort") {
        Some(e) => Some(e),
        None => config.get("effort"),
    };
    match chosen {
        Some(e) => match e.as_str() {
            Some(t) => t.clone(),
            None => String::from_str("medium"),
        },
        None => String::from_str("medium"),
    }
}

/// The `turn/start` request that sends the user's message into the thread.
pub fn turn_start_request(
    client: &mut JsonRpcClient,
    request: &AgentEngineTurnRequest,
    state: &CodexSessionState,
) -> (r: String)
    ensures
        final(client).next_id == next_after(old(client).next_id),
        r@ == json_text(
            request_value(
                old(client).next_id,
                "turn/start"@,
                turn_start_params(
                    thread_id_or_empty(*state),
                    request.message@,
                    effort(request.engine_config@),
                    request.run_id@,
                    request.account_id@,
                    request.agent_id@,
                    request.session_key_json@,
                ),
            ),
        ),
{
    let thread_id = match &state.native_thread_id {
        Some(t) => t.clone(),
        None => String::new(),
    };
    assert(thread_id@ == thread_id_or_empty(*state));
    let item = obj2("text", Json::string(request.message.as_str()), "type", Json::string("text"));
    let ghost item_v = item@;
    let items = vec![item];
    assert(crate::json::views(items@) =~= seq![item_v]);
    let input = arr(items);
    let metadata = obj4(
        "account_id",
        Json::string(request.account_id.as_str()),
        "agent_id",
        Json::string(request.agent_id.as_str()),
        "napaxi_run_id",
        Json::string(request.run_id.as_str()),
        "session_key_json",
        Json::string(request.session_key_json.as_str()),
    );
    let sandbox = obj1("type", Json::string("dangerFullAccess"));
    let e = effort_of(&request.engine_config);
    let ghost w = (input@, metadata@, sandbox@);
    let entries = vec![
        member("approvalPolicy", Json::string("never")),
        member("effort", Json::string(e.as_str())),
        member("input", input),
        member("metadata", metadata),
        member("sandboxPolicy", sandbox),
        member("threadId", Json::string(thread_id.as_str())),
    ];
    assert(member_views(entries@) =~= seq![
        ("approvalPolicy"@, s("never"@)),
        ("effort"@, s(e@)),
        ("input"@, w.0),
        ("metadata"@, w.1),
        ("sandboxPolicy"@, w.2),
        ("threadId"@, s(thread_id@)),
    ]);
    let params = obj(entries);
    let (_, line) = client.request("turn/start", params);
    line
}

/// The id of a response: present for messages without a method.
pub open spec fn response_id(m: JsonV) -> Option<u64> {
    if get(m, "method"@) is Some {
        None
    } else {
        match get(m, "id"@) {
            Some(id) => as_u64(id),
            None => None,
        }
    }
}

pub fn response_id_of(message: &Json) -> (r: Option<u64>)
    ensures
        r == response_id(message@),
{
    if message.get("method").is_some() {
        return None;
    }
    match message.get("id") {
        Some(id) => id.as_u64(),
        None => None,
    }
}

/// The error of a response: its `message` when that is a string, else the
/// error's JSON text.
pub open spec fn response_error(m: JsonV) -> Option<Seq<char>> {
    match get(m, "error"@) {
        Some(e) => match as_str_opt(get(e, "message"@)) {
            Some(t) => Some(t),
            None => Some(json_text(e)),
        },
        None => None,
    }
}

pub fn response_error_of(message: &Json) -> (r: Option<String>)
    ensures
        string_opt(r) == response_error(message@),
{
    match message.get("error") {
        Some(e) => match e.get("message") {
            Some(m) => match m.as_str() {
                Some(t) => Some(t.clone()),
                None => Some(e.to_text()),
            },
            None => Some(e.to_text()),
        },
        None => None,
    }
}

pub open spec fn at_path2(m: JsonV, a: Seq<char>, b: Seq<char>) -> Option<JsonV> {
    get_opt(get(m, a), b)
}

pub open spec fn at_path3(m: JsonV, a: Seq<char>, b: Seq<char>, c: Seq<char>) -> Option<JsonV> {
    get_opt(get_opt(get(m, a), b), c)
}

/// The thread id that a response or notification carries, looked for at
/// `/result/thread/id`, `/result/thread_id`, `/result/threadId`, then the
/// same places under `/params`.
pub open spec fn thread_id_in(m: JsonV) -> Option<Seq<char>> {
    let found = if at_path3(m, "result"@, "thread"@, "id"@) is Some {
        at_path3(m, "result"@, "thread"@, "id"@)
    } else if at_path2(m, "result"@, "thread_id"@) is Some {
        at_path2(m, "result"@, "thread_id"@)
    } else if at_path2(m, "result"@, "threadId"@) is Some {
        at_path2(m, "result"@, "threadId"@)
    } else if at_path3(m, "params"@, "thread"@, "id"@) is Some {
        at_path3(m, "params"@, "thread"@, "id"@)
    } else if at_path2(m, "params"@, "thread_id"@) is Some {
        at_path2(m, "params"@, "thread_id"@)
    } else {
        at_path2(m, "params"@, "threadId"@)
    };
    as_str_opt(found)
}

fn path2<'a>(m: &'a Json, a: &str, b: &str) -> (r: Option<&'a Json>)
    ensures
        view_opt(r) == at_path2(m@, a@, b@),
{
    match m.get(a) {
        Some(x) => x.get(b),
        None => None,
    }
}

fn path3<'a>(m: &'a Json, a: &str, b: &str, c: &str) -> (r: Option<&'a Json>)
    ensures
        view_opt(r) == at_path3(m@, a@, b@, c@),
{
    match path2(m, a, b) {
        Some(x) => x.get(c),
        None => None,
    }
}

pub fn extract_thread_id(message: &Json) -> (r: Option<String>)
    ensures
        string_opt(r) == thread_id_in(message@),
{
    let found = match path3(message, "result", "thread", "id") {
        Some(x) => Some(x),
        None => match path2(message, "result", "thread_id") {
            Some(x) => Some(x),
            None => match path2(message, "result", "threadId") {
                Some(x) => Some(x),
                None => match path3(message, "params", "thread", "id") {
                    Some(x) => Some(x),
                    None => match path2(message, "params", "thread_id") {
                        Some(x) => Some(x),
                        None => path2(message, "params", "threadId"),
                    },
                },
            },
        },
    };
    match found {
        Some(x) => match x.as_str() {
            Some(t) => Some(t.clone()),
            None => None,
        },
        None => None,
    }
}

// ---------------------------------------------------------------------
// Output framing
// ---------------------------------------------------------------------

/// The rest of a control sequence after `ESC [`: everything up to and
/// including its first ASCII letter.
pub open spec fn skip_csi(t: Seq<char>) -> Seq<char>
    decreases t.len(),
{
    if t.len() == 0 {
        t
    } else if is_alpha(t[0]) {
        t.subrange(1, t.len() as int)
    } else {
        skip_csi(t.subrange(1, t.len() as int))
    }
}

/// `s` without its ANSI control sequences (`ESC [` ... letter).
pub open spec fn strip_ansi(s: Seq<char>) -> Seq<char>
    decreases s.len(),
{
    if s.len() == 0 {
        s
    } else if s[0] == '\u{1b}' && s.len() > 1 && s[1] == '[' {
        let rest = skip_csi(s.subrange(2, s.len() as int));
        if rest.len() < s.len() {
            strip_ansi(rest)
        } else {
            s
        }
    } else {
        seq![s[0]] + strip_ansi(s.subrange(1, s.len() as int))
    }
}

proof fn lemma_skip_csi_len(t: Seq<char>)
    ensures
        skip_csi(t).len() <= t.len(),
    decreases t.len(),
{
    if t.len() > 0 && !is_alpha(t[0]) {
        lemma_skip_csi_len(t.subrange(1, t.len() as int));
    }
}

proof fn lemma_skip_csi_suffix(t: Seq<char>)
    ensures
        skip_csi(t) == t.subrange(t.len() - skip_csi(t).len(), t.len() as int),
    decreases t.len(),
{
    lemma_skip_csi_len(t);
    if t.len() == 0 {
        assert(t.subrange(0, 0) =~= t);
    } else if is_alpha(t[0]) {
    } else {
        let u = t.subrange(1, t.len() as int);
        lemma_skip_csi_suffix(u);
        lemma_skip_csi_len(u);
        assert(u.subrange(u.len() - skip_csi(u).len(), u.len() as int) =~= t.subrange(
            t.len() - skip_csi(u).len(),
            t.len() as int,
        ));
    }
}

proof fn lemma_strip_suffix(s: Seq<char>, i: int)
    requires
        0 <= i < s.len(),
        !(s[i] == '\u{1b}' && i + 1 < s.len() && s[i + 1] == '['),
    ensures
        strip_ansi(s.subrange(i, s.len() as int)) == seq![s[i]] + strip_ansi(
            s.subrange(i + 1, s.len() as int),
        ),
{
    let t = s.subrange(i, s.len() as int);
    assert(t.subrange(1, t.len() as int) =~= s.subrange(i + 1, s.len() as int));
}

/// `strip_ansi` on characters.
pub fn strip_ansi_vec(s: &Vec<char>) -> (r: Vec<char>)
    ensures
        r@ == strip_ansi(s@),
{
    let mut out: Vec<char> = Vec::new();
    let mut i: usize = 0;
    assert(s@.subrange(0, s.len() as int) =~= s@);
    while i < s.len()
        invariant
            i <= s.len(),
            out@ + strip_ansi(s@.subrange(i as int, s.len() as int)) == strip_ansi(s@),
        decreases s.len() - i,
    {
        let ghost t = s@.subrange(i as int, s.len() as int);
        if s[i] == '\u{1b}' && i + 1 < s.len() && s[i + 1] == '[' {
            let mut j: usize = i + 2;
            proof {
                assert(t.subrange(2, t.len() as int) =~= s@.subrange(i + 2, s.len() as int));
            }
            while j < s.len() && !(('a' <= s[j] && s[j] <= 'z') || ('A' <= s[j] && s[j] <= 'Z'))
                invariant
                    i + 2 <= j <= s.len(),
                    skip_csi(s@.subrange(i + 2, s.len() as int)) == skip_csi(
                        s@.subrange(j as int, s.len() as int),
                    ),
                decreases s.len() - j,
            {
                proof {
                    let u = s@.subrange(j as int, s.len() as int);
                    assert(u.subrange(1, u.len() as int) =~= s@.subrange(j + 1, s.len() as int));
                }
                j += 1;
            }
            if j < s.len() {
                proof {
                    let u = s@.subrange(j as int, s.len() as int);
                    assert(u.subrange(1, u.len() as int) =~= s@.subrange(j + 1, s.len() as int));
                }
                j += 1;
            } else {
                assert(s@.subrange(j as int, s.len() as int) =~= Seq::<char>::empty());
            }
            proof {
                assert(skip_csi(t.subrange(2, t.len() as int)) =~= s@.subrange(
                    j as int,
                    s.len() as int,
                ));
            }
            i = j;
        } else {
            proof {
                lemma_strip_suffix(s@, i as int);
            }
            out.push(s[i]);
            i += 1;
            assert(out@ + strip_ansi(s@.subrange(i as int, s.len() as int)) =~= strip_ansi(s@));
        }
    }
    assert(s@.subrange(i as int, s.len() as int) =~= Seq::<char>::empty());
    assert(out@ + Seq::<char>::empty() =~= out@);
    out
}

/// What one complete output line contributes: its text, trimmed and
/// stripped of control sequences, when that looks like a JSON object.
pub open spec fn line_candidate(line: Seq<char>) -> Seq<Seq<char>> {
    let t = strip_ansi(trim(line));
    if starts_with(t, seq!['{']) {
        seq![t]
    } else {
        Seq::empty()
    }
}

/// The JSON candidates among the complete lines of `s`.
pub open spec fn json_candidates(s: Seq<char>) -> Seq<Seq<char>>
    decreases s.len(),
{
    match find(s, seq!['\n']) {
        Some(p) => if 0 <= p < s.len() {
            line_candidate(s.subrange(0, p + 1)) + json_candidates(s.subrange(p + 1, s.len() as int))
        } else {
            Seq::empty()
        },
        None => Seq::empty(),
    }
}

/// What is left of `s` after its complete lines.
pub open spec fn pending_text(s: Seq<char>) -> Seq<char>
    decreases s.len(),
{
    match find(s, seq!['\n']) {
        Some(p) => if 0 <= p < s.len() {
            pending_text(s.subrange(p + 1, s.len() as int))
        } else {
            s
        },
        None => s,
    }
}

proof fn lemma_find_shift(s: Seq<char>, p: Seq<char>, base: int, i: int)
    requires
        0 <= base <= i <= s.len(),
    ensures
        find_from(s.subrange(base, s.len() as int), p, i - base) == match find_from(s, p, i) {
            Some(k) => Some(k - base),
            None => None,
        },
    decreases s.len() - i,
{
    let t = s.subrange(base, s.len() as int);
    if i + p.len() > s.len() {
    } else {
        assert(t.subrange(i - base, i - base + p.len()) =~= s.subrange(i, i + p.len()));
        if i < s.len() {
            lemma_find_shift(s, p, base, i + 1);
        }
    }
}

/// Adds `chunk` to the output buffered so far and takes out the complete
/// lines; returns those that may hold a JSON message (trimmed, without
/// control sequences, starting with `{`), in order. The last, incomplete
/// line stays in the buffer.
pub fn frame_json_lines(buffer: &mut String, chunk: &str) -> (r: Vec<String>)
    ensures
        final(buffer)@ == pending_text(old(buffer)@ + chunk@),
        str_views(r@) == json_candidates(old(buffer)@ + chunk@),
{
    let mut all = chars_of(buffer.as_str());
    let more = chars_of(chunk);
    let mut k: usize = 0;
    let ghost start = all@;
    while k < more.len()
        invariant
            k <= more.len(),
            all@ == start + more@.take(k as int),
        decreases more.len() - k,
    {
        all.push(more[k]);
        k += 1;
        assert(all@ =~= start + more@.take(k as int));
    }
    assert(more@.take(more.len() as int) =~= more@);
    let ghost whole = all@;
    assert(whole == old(buffer)@ + chunk@);
    let newline = vec!['\n'];
    let mut out: Vec<String> = Vec::new();
    let mut pos: usize = 0;
    assert(whole.subrange(0, whole.len() as int) =~= whole);
    assert(str_views(out@) =~= Seq::<Seq<char>>::empty());
    loop
        invariant
            pos <= all.len(),
            all@ == whole,
            whole == old(buffer)@ + chunk@,
            newline@ == seq!['\n'],
            str_views(out@) + json_candidates(whole.subrange(pos as int, whole.len() as int))
                == json_candidates(whole),
            pending_text(whole.subrange(pos as int, whole.len() as int)) == pending_text(whole),
        decreases all.len() - pos,
    {
        let ghost rest = whole.subrange(pos as int, whole.len() as int);
        match find_in(&all, &newline, pos) {
            Some(p) => {
                proof {
                    lemma_find_from_some(whole, seq!['\n'], pos as int);
                    lemma_find_shift(whole, seq!['\n'], pos as int, pos as int);
                    assert(find(rest, seq!['\n']) == Some(p - pos));
                    assert(rest.subrange(0, p - pos + 1) =~= whole.subrange(pos as int, p + 1));
                    assert(rest.subrange(p - pos + 1, rest.len() as int) =~= whole.subrange(
                        p + 1,
                        whole.len() as int,
                    ));
                }
                let mut line: Vec<char> = Vec::new();
                let mut q: usize = pos;
                while q <= p
                    invariant
                        pos <= q <= p + 1,
                        p < all.len(),
                        all@ == whole,
                        line@ == whole.subrange(pos as int, q as int),
                    decreases p + 1 - q,
                {
                    line.push(all[q]);
                    q += 1;
                    assert(line@ =~= whole.subrange(pos as int, q as int));
                }
                let t = strip_ansi_vec(&trim_vec(&line));
                let brace = vec!['{'];
                assert(brace@ =~= seq!['{']);
                let ghost before = out@;
                if seq_starts_with(&t, &brace) {
                    out.push(string_of(t.as_slice()));
                    assert(str_views(out@) =~= str_views(before) + line_candidate(line@));
                } else {
                    assert(str_views(out@) =~= str_views(before) + line_candidate(line@));
                }
                pos = p + 1;
            },
            None => {
                proof {
                    lemma_find_shift(whole, seq!['\n'], pos as int, pos as int);
                    assert(find(rest, seq!['\n']) is None);
                }
                let mut tail: Vec<char> = Vec::new();
                let mut q: usize = pos;
                while q < all.len()
                    invariant
                        pos <= q <= all.len(),
                        all@ == whole,
                        tail@ == whole.subrange(pos as int, q as int),
                    decreases all.len() - q,
                {
                    tail.push(all[q]);
                    q += 1;
                    assert(tail@ =~= whole.subrange(pos as int, q as int));
                }
                *buffer = string_of(tail.as_slice());
                assert(str_views(out@) + Seq::<Seq<char>>::empty() =~= str_views(out@));
                return out;
            },
        }
    }
}


proof fn lemma_find_in_prefix(a: Seq<char>, b: Seq<char>, p: Seq<char>, i: int)
    requires
        p.len() > 0,
        0 <= i,
        find_from(a, p, i) is Some,
    ensures
        find_from(a + b, p, i) == find_from(a, p, i),
    decreases a.len() - i,
{
    let ab = a + b;
    if i + p.len() <= a.len() {
        assert(ab.subrange(i, i + p.len()) =~= a.subrange(i, i + p.len()));
        if !occurs_at(a, p, i) && i < a.len() {
            lemma_find_in_prefix(a, b, p, i + 1);
        }
    }
}

/// Terminal output may arrive cut anywhere: framing one piece, then the
/// next added to what the first left pending, finds the same lines in the
/// same order, and leaves the same text pending, as framing both at once.
pub proof fn law_framing_ignores_chunking(a: Seq<char>, b: Seq<char>)
    ensures
        json_candidates(a + b) == json_candidates(a) + json_candidates(pending_text(a) + b),
        pending_text(a + b) == pending_text(pending_text(a) + b),
    decreases a.len(),
{
    let nl = seq!['\n'];
    match find(a, nl) {
        Some(p) => {
            lemma_find_from_some(a, nl, 0);
            lemma_find_in_prefix(a, b, nl, 0);
            let rest = a.subrange(p + 1, a.len() as int);
            let ab = a + b;
            assert(ab.subrange(p + 1, ab.len() as int) =~= rest + b);
            assert(ab.subrange(0, p + 1) =~= a.subrange(0, p + 1));
            law_framing_ignores_chunking(rest, b);
            let head = line_candidate(a.subrange(0, p + 1));
            assert(json_candidates(a) == head + json_candidates(rest));
            assert(json_candidates(ab) == head + json_candidates(rest + b));
            assert(head + (json_candidates(rest) + json_candidates(pending_text(rest) + b)) =~= (head
                + json_candidates(rest)) + json_candidates(pending_text(rest) + b));
        },
        None => {
            assert(json_candidates(a) =~= Seq::<Seq<char>>::empty());
            assert(pending_text(a) == a);
            assert(Seq::<Seq<char>>::empty() + json_candidates(a + b) =~= json_candidates(a + b));
        },
    }
}

} // verus!
