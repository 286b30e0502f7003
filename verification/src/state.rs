//! What a Codex conversation keeps between turns, and where it keeps it.
use vstd::prelude::*;
use crate::history::cat;
use crate::json::{json_pretty_text, nesting, obj1, Json, JsonV};
use crate::protocol::{AgentEngineTurnRequest, CodexSessionState};
use crate::registry::CodexRegistry;
use crate::text::{chars_of, is_alnum, string_of};

verus! {

/// The key of a conversation: account, agent and session key, joined by `::`.
pub open spec fn session_key_text(account_id: Seq<char>, agent_id: Seq<char>, session_key_json: Seq<char>) -> Seq<
    char,
> {
    account_id + "::"@ + agent_id + "::"@ + session_key_json
}

pub fn session_key(request: &AgentEngineTurnRequest) -> (r: String)
    ensures
        r@ == session_key_text(request.account_id@, request.agent_id@, request.session_key_json@),
{
    session_key_of(request.account_id.as_str(), request.agent_id.as_str(), request.session_key_json.as_str())
}

/// The key of the conversation of an account, an agent and a session.
pub fn session_key_of(account_id: &str, agent_id: &str, session_key_json: &str) -> (r: String)
    ensures
        r@ == session_key_text(account_id@, agent_id@, session_key_json@),
{
    let a = cat(account_id, "::");
    let b = cat(a.as_str(), agent_id);
    let c = cat(b.as_str(), "::");
    cat(c.as_str(), session_key_json)
}

/// A path with one more relative component, as `Path::join` forms it: a
/// separator goes between unless the path is empty or already ends in one.
pub open spec fn join_path(base: Seq<char>, component: Seq<char>) -> Seq<char> {
    if base.len() == 0 {
        component
    } else if base.last() == '/' {
        base + component
    } else {
        base + "/"@ + component
    }
}

pub fn join(base: &str, component: &str) -> (r: String)
    ensures
        r@ == join_path(base@, component@),
{
    let b = chars_of(base);
    if b.len() == 0 {
        String::from_str(component)
    } else if b[b.len() - 1] == '/' {
        cat(base, component)
    } else {
        let with_sep = cat(base, "/");
        cat(with_sep.as_str(), component)
    }
}

/// `c` with every character that is not an ASCII letter or digit made `_`.
pub open spec fn safe_name(k: Seq<char>) -> Seq<char> {
    Seq::new(k.len(), |i: int| if is_alnum(k[i]) { k[i] } else { '_' })
}

/// Where the state of conversation `key` is kept under `files_dir`.
pub open spec fn state_path_text(files_dir: Seq<char>, key: Seq<char>) -> Seq<char> {
    join_path(
        join_path(join_path(files_dir, "agent_engine"@), "codex"@),
        safe_name(key) + ".json"@,
    )
}

pub fn state_path(files_dir: &str, key: &str) -> (r: String)
    ensures
        r@ == state_path_text(files_dir@, key@),
{
    let k = chars_of(key);
    let mut safe: Vec<char> = Vec::new();
    let mut i: usize = 0;
    while i < k.len()
        invariant
            i <= k.len(),
            k@ == key@,
            safe@ == safe_name(k@).take(i as int),
        decreases k.len() - i,
    {
        let c = k[i];
        let is_alnum_c = ('a' <= c && c <= 'z') || ('A' <= c && c <= 'Z') || ('0' <= c && c <= '9');
        safe.push(if is_alnum_c { c } else { '_' });
        i += 1;
        assert(safe@ =~= safe_name(k@).take(i as int));
    }
    assert(safe_name(k@).take(k.len() as int) =~= safe_name(k@));
    let name = string_of(safe.as_slice());
    let file = cat(name.as_str(), ".json");
    let a = join(files_dir, "agent_engine");
    let b = join(a.as_str(), "codex");
    join(b.as_str(), file.as_str())
}

/// The JSON form of the kept state.
pub open spec fn state_value(thread: Option<Seq<char>>) -> JsonV {
    JsonV::Obj(
        seq![
            (
                "native_thread_id"@,
                match thread {
                    Some(t) => JsonV::Str(t),
                    None => JsonV::Null,
                },
            ),
        ],
    )
}

/// The text written to the state file: the state pretty-printed.
pub fn state_json_text(state: &CodexSessionState) -> (r: String)
    ensures
        r@ == json_pretty_text(
            state_value(
                match state.native_thread_id {
                    Some(t) => Some(t@),
                    None => None,
                },
            ),
        ),
{
    let v = match &state.native_thread_id {
        Some(t) => Json::string(t.as_str()),
        None => Json::Null,
    };
    let doc = obj1("native_thread_id", v);
    assert(nesting(doc@) < 10) by {
        reveal_with_fuel(nesting, 3);
        reveal_with_fuel(crate::json::members_nesting, 3);
        reveal_with_fuel(crate::json::member_nesting, 2);
    }
    doc.to_pretty_text()
}

/// The native library directory for a turn: the engine configuration's
/// `native_library_dir` when it is a string, else the one remembered for
/// the turn's files directory.
pub fn resolve_native_library_dir(request: &AgentEngineTurnRequest, registry: &CodexRegistry) -> (r: Option<String>)
    requires
        registry.wf(),
    ensures
        match crate::json::as_str_opt(crate::json::get(request.engine_config@, "native_library_dir"@)) {
            Some(d) => r matches Some(x) && x@ == d,
            None => match r {
                Some(x) => registry@.native_dirs.contains_key(request.files_dir@)
                    && registry@.native_dirs[request.files_dir@] == x@,
                None => !registry@.native_dirs.contains_key(request.files_dir@),
            },
        },
{
    match request.engine_config.get("native_library_dir") {
        Some(v) => match v.as_str() {
            Some(d) => {
                return Some(d.clone());
            },
            None => {},
        },
        None => {},
    }
    registry.native_library_dir_for(request.files_dir.as_str())
}

} // verus!
