//! The live Codex sessions and the questions they wait on, kept between turns.
use vstd::prelude::*;
use crate::keyed::{
    find_key, lemma_to_map_dom, lemma_to_map_push, lemma_to_map_remove, lemma_to_map_update,
    lemma_to_map_value, to_map, unique_keys,
};
use crate::protocol::{
    frame_json_lines, json_candidates, next_after, pending_text, request_value, startup_requests,
    thread_open_request, thread_resume_params, thread_start_params, thread_start_request,
    turn_start_request, turn_start_params, thread_id_or_empty, effort, notification_value,
    initialize_params, AgentEngineTurnRequest, CodexSessionState, JsonRpcClient,
};
use crate::json::{arr, json_text, num_u64, obj1, obj3, str_views, Json, JsonV};
use crate::text::chars_of;
use crate::text::same_text;

verus! {

/// A Codex app-server process serving one conversation.
pub struct ActiveSession {
    pub pty: u64,
    pub rpc: JsonRpcClient,
    pub buffer: String,
    pub running: bool,
    pub last_used: u64,
    pub human_responses: Vec<(String, String)>,
}

pub struct SessionV {
    pub pty: u64,
    pub next_id: u64,
    pub buffer: Seq<char>,
    pub running: bool,
    pub last_used: u64,
    pub responses: Seq<(Seq<char>, Seq<char>)>,
}

pub open spec fn pair_views(v: Seq<(String, String)>) -> Seq<(Seq<char>, Seq<char>)> {
    Seq::new(v.len(), |i: int| (v[i].0@, v[i].1@))
}

impl View for ActiveSession {
    type V = SessionV;

    open spec fn view(&self) -> SessionV {
        SessionV {
            pty: self.pty,
            next_id: self.rpc.next_id,
            buffer: self.buffer@,
            running: self.running,
            last_used: self.last_used,
            responses: pair_views(self.human_responses@),
        }
    }
}

/// A question of Codex that waits for the user's answer.
pub struct PendingHumanRequest {
    pub session_key: String,
    pub rpc_id: String,
    pub question_id: String,
}

pub struct PendingV {
    pub session_key: Seq<char>,
    pub rpc_id: Seq<char>,
    pub question_id: Seq<char>,
}

impl View for PendingHumanRequest {
    type V = PendingV;

    open spec fn view(&self) -> PendingV {
        PendingV {
            session_key: self.session_key@,
            rpc_id: self.rpc_id@,
            question_id: self.question_id@,
        }
    }
}

/// The sessions by key, the pending questions by request id, and the native
/// library directory of each files directory.
pub struct CodexRegistry {
    sessions: Vec<(String, ActiveSession)>,
    pending: Vec<(String, PendingHumanRequest)>,
    native_dirs: Vec<(String, String)>,
}

pub struct RegistryV {
    pub sessions: Map<Seq<char>, SessionV>,
    pub pending: Map<Seq<char>, PendingV>,
    pub native_dirs: Map<Seq<char>, Seq<char>>,
}

pub open spec fn session_entries(v: Seq<(String, ActiveSession)>) -> Seq<(Seq<char>, SessionV)> {
    Seq::new(v.len(), |i: int| (v[i].0@, v[i].1@))
}

pub open spec fn pending_entries(v: Seq<(String, PendingHumanRequest)>) -> Seq<(Seq<char>, PendingV)> {
    Seq::new(v.len(), |i: int| (v[i].0@, v[i].1@))
}

pub open spec fn dir_entries(v: Seq<(String, String)>) -> Seq<(Seq<char>, Seq<char>)> {
    Seq::new(v.len(), |i: int| (v[i].0@, v[i].1@))
}

impl View for CodexRegistry {
    type V = RegistryV;

    closed spec fn view(&self) -> RegistryV {
        RegistryV {
            sessions: to_map(session_entries(self.sessions@)),
            pending: to_map(pending_entries(self.pending@)),
            native_dirs: to_map(dir_entries(self.native_dirs@)),
        }
    }
}

impl CodexRegistry {
    /// Each key occurs once.
    pub closed spec fn wf(&self) -> bool {
        &&& unique_keys(session_entries(self.sessions@))
        &&& unique_keys(pending_entries(self.pending@))
        &&& unique_keys(dir_entries(self.native_dirs@))
    }

    pub fn new() -> (r: CodexRegistry)
        ensures
            r.wf(),
            r@.sessions == Map::<Seq<char>, SessionV>::empty(),
            r@.pending == Map::<Seq<char>, PendingV>::empty(),
            r@.native_dirs == Map::<Seq<char>, Seq<char>>::empty(),
    {
        let r = CodexRegistry { sessions: Vec::new(), pending: Vec::new(), native_dirs: Vec::new() };
        assert(session_entries(r.sessions@) =~= Seq::empty());
        assert(pending_entries(r.pending@) =~= Seq::empty());
        assert(dir_entries(r.native_dirs@) =~= Seq::empty());
        r
    }

    /// Remembers the native library directory of a files directory, when one is given.
    pub fn register_native_library_dir(&mut self, files_dir: &str, native_library_dir: Option<&str>)
        requires
            old(self).wf(),
        ensures
            final(self).wf(),
            final(self)@.sessions == old(self)@.sessions,
            final(self)@.pending == old(self)@.pending,
            final(self)@.native_dirs == match native_library_dir {
                Some(d) => old(self)@.native_dirs.insert(files_dir@, d@),
                None => old(self)@.native_dirs,
            },
    {
        let d = match native_library_dir {
            Some(d) => d,
            None => {
                return;
            },
        };
        let ghost es = dir_entries(self.native_dirs@);
        match find_key(&self.native_dirs, files_dir) {
            Some(i) => {
                self.native_dirs.set(i, (String::from_str(files_dir), String::from_str(d)));
                proof {
                    lemma_to_map_update(es, i as int, d@);
                    assert(dir_entries(self.native_dirs@) =~= es.update(i as int, (es[i as int].0, d@)));
                }
            },
            None => {
                proof {
                    lemma_to_map_dom(es, files_dir@);
                    lemma_to_map_push(es, files_dir@, d@);
                }
                self.native_dirs.push((String::from_str(files_dir), String::from_str(d)));
                assert(dir_entries(self.native_dirs@) =~= es.push((files_dir@, d@)));
            },
        }
    }

    /// The native library directory remembered for a files directory.
    pub fn native_library_dir_for(&self, files_dir: &str) -> (r: Option<String>)
        requires
            self.wf(),
        ensures
            match r {
                Some(d) => self@.native_dirs.contains_key(files_dir@) && self@.native_dirs[files_dir@]
                    == d@,
                None => !self@.native_dirs.contains_key(files_dir@),
            },
    {
        let ghost es = dir_entries(self.native_dirs@);
        match find_key(&self.native_dirs, files_dir) {
            Some(i) => {
                proof {
                    lemma_to_map_value(es, i as int);
                }
                Some(self.native_dirs[i].1.clone())
            },
            None => {
                proof {
                    lemma_to_map_dom(es, files_dir@);
                }
                None
            },
        }
    }
}

proof fn lemma_submap_at<K, V>(a: Map<K, V>, b: Map<K, V>, k: K)
    requires
        a.submap_of(b),
        a.contains_key(k),
    ensures
        b.contains_key(k),
        a[k] == b[k],
{
    assert(a.dom().contains(k) && b.dom().contains(k));
}

/// A session that has stood idle, not running, for longer than `idle` milliseconds.
pub open spec fn expired(s: SessionV, now: u64, idle: u64) -> bool {
    !s.running && now > s.last_used && now - s.last_used > idle
}

/// `p` is the terminal of a session that `m` holds and that has expired.
pub open spec fn expired_pty(m: Map<Seq<char>, SessionV>, now: u64, idle: u64, p: u64) -> bool {
    exists|k: Seq<char>| m.contains_key(k) && expired(m[k], now, idle) && #[trigger] m[k].pty == p
}

/// The sessions that survive a clean-up.
pub open spec fn kept_sessions(m: Map<Seq<char>, SessionV>, now: u64, idle: u64) -> Map<
    Seq<char>,
    SessionV,
> {
    Map::new(|k: Seq<char>| m.contains_key(k) && !expired(m[k], now, idle), |k: Seq<char>| m[k])
}

impl CodexRegistry {
    fn take_session(&mut self, key: &str) -> (r: Option<(String, ActiveSession)>)
        requires
            old(self).wf(),
        ensures
            final(self).wf(),
            final(self)@.pending == old(self)@.pending,
            final(self)@.native_dirs == old(self)@.native_dirs,
            match r {
                Some(e) => {
                    &&& old(self)@.sessions.contains_key(key@)
                    &&& e.0@ == key@
                    &&& e.1@ == old(self)@.sessions[key@]
                    &&& final(self)@.sessions == old(self)@.sessions.remove(key@)
                },
                None => {
                    &&& !old(self)@.sessions.contains_key(key@)
                    &&& final(self)@.sessions == old(self)@.sessions
                },
            },
    {
        let ghost es = session_entries(self.sessions@);
        match find_key(&self.sessions, key) {
            Some(i) => {
                proof {
                    lemma_to_map_value(es, i as int);
                    lemma_to_map_remove(es, i as int);
                }
                let e = self.sessions.remove(i);
                assert(session_entries(self.sessions@) =~= es.remove(i as int));
                Some(e)
            },
            None => {
                proof {
                    lemma_to_map_dom(es, key@);
                }
                None
            },
        }
    }

    fn put_session(&mut self, key: String, s: ActiveSession)
        requires
            old(self).wf(),
            !old(self)@.sessions.contains_key(key@),
        ensures
            final(self).wf(),
            final(self)@.pending == old(self)@.pending,
            final(self)@.native_dirs == old(self)@.native_dirs,
            final(self)@.sessions == old(self)@.sessions.insert(key@, s@),
    {
        let ghost es = session_entries(self.sessions@);
        let ghost kv = (key@, s@);
        proof {
            lemma_to_map_push(es, key@, s@);
        }
        self.sessions.push((key, s));
        assert(session_entries(self.sessions@) =~= es.push(kv));
    }

    /// Ends the sessions that stood idle for longer than `idle` milliseconds
    /// and are not running a turn; returns their terminals, to be closed.
    pub fn cleanup_idle_sessions(&mut self, now: u64, idle: u64) -> (r: Vec<u64>)
        requires
            old(self).wf(),
        ensures
            final(self).wf(),
            final(self)@.pending == old(self)@.pending,
            final(self)@.native_dirs == old(self)@.native_dirs,
            final(self)@.sessions == kept_sessions(old(self)@.sessions, now, idle),
            forall|k: Seq<char>|
                old(self)@.sessions.contains_key(k) && expired(old(self)@.sessions[k], now, idle)
                    ==> r@.contains(#[trigger] old(self)@.sessions[k].pty),
            forall|i: int| 0 <= i < r@.len() ==> expired_pty(old(self)@.sessions, now, idle, #[trigger] r@[i]),
    {
        let ghost old_map = self@.sessions;
        let mut ptys: Vec<u64> = Vec::new();
        let mut i: usize = 0;
        while i < self.sessions.len()
            invariant
                self.wf(),
                self@.pending == old(self)@.pending,
                self@.native_dirs == old(self)@.native_dirs,
                old_map == old(self)@.sessions,
                i <= self.sessions.len(),
                self@.sessions.submap_of(old_map),
                forall|k: Seq<char>|
                    old_map.contains_key(k) && !expired(#[trigger] old_map[k], now, idle)
                        ==> self@.sessions.contains_key(k),
                forall|j: int|
                    0 <= j < i ==> !expired(#[trigger] session_entries(self.sessions@)[j].1, now, idle),
                forall|k: Seq<char>|
                    old_map.contains_key(k) && expired(old_map[k], now, idle)
                        && !self@.sessions.contains_key(k) ==> ptys@.contains(
                        #[trigger] old_map[k].pty,
                    ),
                forall|j: int| 0 <= j < ptys@.len() ==> expired_pty(old_map, now, idle, #[trigger] ptys@[j]),
            decreases self.sessions.len() - i,
        {
            let ghost es = session_entries(self.sessions@);
            let s = &self.sessions[i].1;
            let is_expired = !s.running && now > s.last_used && now - s.last_used > idle;
            if is_expired {
                proof {
                    lemma_to_map_value(es, i as int);
                    lemma_to_map_remove(es, i as int);
                }
                let ghost k = es[i as int].0;
                let ghost before_map = self@.sessions;
                assert(before_map.contains_key(k));
                proof {
                    lemma_submap_at(before_map, old_map, k);
                }
                let e = self.sessions.remove(i);
                assert(session_entries(self.sessions@) =~= es.remove(i as int));
                let ghost before = ptys@;
                ptys.push(e.1.pty);
                proof {
                    assert(old_map[k] == es[i as int].1);
                    assert forall|k2: Seq<char>|
                        old_map.contains_key(k2) && expired(old_map[k2], now, idle)
                            && !self@.sessions.contains_key(k2) implies ptys@.contains(
                        #[trigger] old_map[k2].pty,
                    ) by {
                        if k2 == k {
                            assert(ptys@[ptys@.len() - 1] == old_map[k].pty);
                        } else {
                            assert(before.contains(old_map[k2].pty));
                            let t = choose|t: int| 0 <= t < before.len() && before[t] == old_map[k2].pty;
                            assert(ptys@[t] == before[t]);
                        }
                    }
                    assert(self@.sessions == before_map.remove(k));
                    assert(self@.sessions.submap_of(old_map)) by {
                        assert forall|k2: Seq<char>| #[trigger] self@.sessions.dom().contains(k2) implies old_map.dom().contains(k2)
                            && self@.sessions[k2] == old_map[k2] by {
                            assert(before_map.dom().contains(k2));
                            assert(self@.sessions[k2] == before_map[k2]);
                        }
                    }
                    assert(old_map.contains_key(k) && expired(old_map[k], now, idle) && old_map[k].pty == e.1.pty);
                    assert(expired_pty(old_map, now, idle, e.1.pty));
                    assert forall|j: int| 0 <= j < ptys@.len() implies expired_pty(old_map, now, idle, #[trigger] ptys@[j]) by {
                        if j < before.len() {
                            assert(ptys@[j] == before[j]);
                        }
                    }
                    assert forall|j: int| 0 <= j < i implies !expired(
                        #[trigger] session_entries(self.sessions@)[j].1,
                        now,
                        idle,
                    ) by {
                        assert(session_entries(self.sessions@)[j] == es[j]);
                    }
                }
            } else {
                i += 1;
            }
        }
        proof {
            let cur = session_entries(self.sessions@);
            assert forall|k: Seq<char>| #[trigger] self@.sessions.contains_key(k) implies !expired(
                old_map[k],
                now,
                idle,
            ) by {
                lemma_submap_at(self@.sessions, old_map, k);
                lemma_to_map_dom(cur, k);
                let j = choose|j: int| 0 <= j < cur.len() && cur[j].0 == k;
                lemma_to_map_value(cur, j);
            }
            assert forall|k: Seq<char>| #[trigger] kept_sessions(old_map, now, idle).contains_key(k)
                implies self@.sessions.contains_key(k) && self@.sessions[k] == old_map[k] by {
                assert(old_map.contains_key(k) && !expired(old_map[k], now, idle));
            }
            assert forall|k: Seq<char>| #[trigger] self@.sessions.contains_key(k)
                implies kept_sessions(old_map, now, idle).contains_key(k) by {
                assert(old_map.dom().contains(k) && self@.sessions[k] == old_map[k]);
            }
            assert(self@.sessions =~= kept_sessions(old_map, now, idle));
        }
        ptys
    }
}


/// How long an idle session is kept, in milliseconds.
pub const CODEX_IDLE_TIMEOUT_MS: u64 = 600_000;

/// The first request that a turn writes to its app-server.
pub enum StartAction {
    /// Open the conversation's thread with request `request_id`.
    OpenThread { request_id: u64, line: String, is_resume: bool },
    /// The thread is open: start the turn.
    StartTurn { line: String },
}

pub enum StartActionV {
    OpenThread { request_id: u64, line: Seq<char>, is_resume: bool },
    StartTurn { line: Seq<char> },
}

impl View for StartAction {
    type V = StartActionV;

    open spec fn view(&self) -> StartActionV {
        match self {
            StartAction::OpenThread { request_id, line, is_resume } => StartActionV::OpenThread {
                request_id: *request_id,
                line: line@,
                is_resume: *is_resume,
            },
            StartAction::StartTurn { line } => StartActionV::StartTurn { line: line@ },
        }
    }
}

/// What a turn finds when it asks for its session.
pub enum Acquire {
    /// The session already runs a turn.
    Busy,
    /// The idle session on terminal `pty` now runs this turn.
    Reuse { pty: u64, action: StartAction },
    /// There is no session: an app-server must be started.
    Spawn,
}

pub enum AcquireV {
    Busy,
    Reuse { pty: u64, action: StartActionV },
    Spawn,
}

impl View for Acquire {
    type V = AcquireV;

    open spec fn view(&self) -> AcquireV {
        match self {
            Acquire::Busy => AcquireV::Busy,
            Acquire::Reuse { pty, action } => AcquireV::Reuse { pty: *pty, action: action@ },
            Acquire::Spawn => AcquireV::Spawn,
        }
    }
}

/// The error a turn reports when its session is busy.
pub open spec fn busy_message() -> Seq<char> {
    "Codex agent engine session already has an active turn"@
}

/// The text of the request that starts a turn, numbered `id`.
pub open spec fn turn_line(id: u64, request: AgentEngineTurnRequest, state: CodexSessionState) -> Seq<char> {
    json_text(
        request_value(
            id,
            "turn/start"@,
            turn_start_params(
                thread_id_or_empty(state),
                request.message@,
                effort(request.engine_config@),
                request.run_id@,
                request.account_id@,
                request.agent_id@,
                request.session_key_json@,
            ),
        ),
    )
}

/// The text of the request that opens the thread, numbered `id`: a resume of
/// the remembered thread, else a new one.
pub open spec fn open_line(id: u64, state: CodexSessionState) -> Seq<char> {
    match state.native_thread_id {
        Some(t) => json_text(request_value(id, "thread/resume"@, thread_resume_params(t@))),
        None => json_text(request_value(id, "thread/start"@, thread_start_params())),
    }
}

/// The text of the request that starts a new thread, numbered `id`.
pub open spec fn start_line(id: u64) -> Seq<char> {
    json_text(request_value(id, "thread/start"@, thread_start_params()))
}

/// A session after it took a request id and was used at `now`.
pub open spec fn touched(s: SessionV, running: bool, now: u64, next_id: u64) -> SessionV {
    SessionV {
        pty: s.pty,
        next_id,
        buffer: s.buffer,
        running,
        last_used: now,
        responses: s.responses,
    }
}

/// What a turn finds in the sessions `m` (already cleaned up), and the sessions after.
pub open spec fn acquire(
    m: Map<Seq<char>, SessionV>,
    key: Seq<char>,
    request: AgentEngineTurnRequest,
    state: CodexSessionState,
    now: u64,
) -> (AcquireV, Map<Seq<char>, SessionV>) {
    if !m.contains_key(key) {
        (AcquireV::Spawn, m)
    } else if m[key].running {
        (AcquireV::Busy, m)
    } else {
        let s = m[key];
        let action = if state.native_thread_id is Some {
            StartActionV::StartTurn { line: turn_line(s.next_id, request, state) }
        } else {
            StartActionV::OpenThread { request_id: s.next_id, line: start_line(s.next_id), is_resume: false }
        };
        (AcquireV::Reuse { pty: s.pty, action }, m.insert(key, touched(s, true, now, next_after(s.next_id))))
    }
}

/// A new session on terminal `pty`: it has used the ids 1 and 2 and runs a turn.
pub open spec fn fresh_session(pty: u64, now: u64) -> SessionV {
    SessionV { pty, next_id: 3, buffer: Seq::empty(), running: true, last_used: now, responses: Seq::empty() }
}

/// The pending questions that do not belong to session `key`.
pub open spec fn pending_without(m: Map<Seq<char>, PendingV>, key: Seq<char>) -> Map<Seq<char>, PendingV> {
    Map::new(|r: Seq<char>| m.contains_key(r) && m[r].session_key != key, |r: Seq<char>| m[r])
}

/// The registry after a turn ends; `close` ends its app-server too.
pub open spec fn released(g: RegistryV, key: Seq<char>, close: bool, now: u64) -> RegistryV {
    if close {
        RegistryV {
            sessions: g.sessions.remove(key),
            pending: pending_without(g.pending, key),
            native_dirs: g.native_dirs,
        }
    } else if g.sessions.contains_key(key) {
        let s = g.sessions[key];
        RegistryV {
            sessions: g.sessions.insert(key, touched(s, false, now, s.next_id)),
            pending: g.pending,
            native_dirs: g.native_dirs,
        }
    } else {
        g
    }
}

/// The JSON id of a request id kept as text: a number where the text is one.
pub open spec fn rpc_id_value(raw: Seq<char>) -> JsonV {
    match u64_value(raw) {
        Some(n) => JsonV::Num(crate::json::NumV::PosInt(n)),
        None => JsonV::Str(raw),
    }
}

/// The value of a run of decimal digits.
pub open spec fn digits_value(d: Seq<char>) -> int
    decreases d.len(),
{
    if d.len() == 0 {
        0
    } else {
        digits_value(d.drop_last()) * 10 + (d.last() as int - '0' as int)
    }
}

pub open spec fn all_digits(d: Seq<char>) -> bool {
    forall|i: int| 0 <= i < d.len() ==> '0' <= #[trigger] d[i] <= '9'
}

/// The `u64` that a text reads as: an optional `+`, then one or more decimal
/// digits whose value fits.
pub open spec fn u64_value(t: Seq<char>) -> Option<u64> {
    let d = if t.len() > 0 && t[0] == '+' { t.drop_first() } else { t };
    if d.len() > 0 && all_digits(d) && digits_value(d) <= u64::MAX {
        Some(digits_value(d) as u64)
    } else {
        None
    }
}

/// The JSON-RPC answer to question `question_id` of request `rpc_id`.
pub open spec fn answer_payload(rpc_id: Seq<char>, question_id: Seq<char>, response: Seq<char>) -> JsonV {
    JsonV::Obj(
        seq![
            ("id"@, rpc_id_value(rpc_id)),
            ("jsonrpc"@, JsonV::Str("2.0"@)),
            (
                "result"@,
                JsonV::Obj(
                    seq![
                        (
                            "answers"@,
                            JsonV::Obj(
                                seq![(question_id, JsonV::Obj(seq![("answers"@, JsonV::Arr(seq![JsonV::Str(response)]))]))],
                            ),
                        ),
                    ],
                ),
            ),
        ],
    )
}


impl CodexRegistry {
    /// Cleans up idle sessions, then finds the session `key` for a new turn:
    /// marks an idle one running and frames its first request. Returns the
    /// terminals of the cleaned-up sessions, to be closed, and what was found.
    pub fn begin_turn(
        &mut self,
        key: &str,
        request: &AgentEngineTurnRequest,
        state: &CodexSessionState,
        now: u64,
    ) -> (r: (Vec<u64>, Acquire))
        requires
            old(self).wf(),
        ensures
            final(self).wf(),
            final(self)@.pending == old(self)@.pending,
            final(self)@.native_dirs == old(self)@.native_dirs,
            ({
                let m = kept_sessions(old(self)@.sessions, now, CODEX_IDLE_TIMEOUT_MS);
                let (a, m2) = acquire(m, key@, *request, *state, now);
                r.1@ == a && final(self)@.sessions == m2
            }),
            forall|k: Seq<char>|
                old(self)@.sessions.contains_key(k) && expired(old(self)@.sessions[k], now, CODEX_IDLE_TIMEOUT_MS)
                    ==> r.0@.contains(#[trigger] old(self)@.sessions[k].pty),
            forall|i: int|
                0 <= i < r.0@.len() ==> expired_pty(old(self)@.sessions, now, CODEX_IDLE_TIMEOUT_MS, #[trigger] r.0@[i]),
    {
        let closed = self.cleanup_idle_sessions(now, CODEX_IDLE_TIMEOUT_MS);
        let ghost m = self@.sessions;
        match self.take_session(key) {
            None => (closed, Acquire::Spawn),
            Some(entry) => {
                let (k, mut session) = entry;
                if session.running {
                    self.put_session(k, session);
                    assert(self@.sessions =~= m);
                    (closed, Acquire::Busy)
                } else {
                    session.running = true;
                    session.last_used = now;
                    let action = if state.native_thread_id.is_some() {
                        StartAction::StartTurn { line: turn_start_request(&mut session.rpc, request, state) }
                    } else {
                        let (request_id, line, is_resume) = thread_open_request(&mut session.rpc, state);
                        StartAction::OpenThread { request_id, line, is_resume }
                    };
                    let pty = session.pty;
                    assert(session@.responses == m[key@].responses);
                    self.put_session(k, session);
                    assert(self@.sessions =~= m.insert(key@, touched(m[key@], true, now, next_after(m[key@].next_id))));
                    (closed, Acquire::Reuse { pty, action })
                }
            },
        }
    }

    /// Records the app-server just started on terminal `pty` for session
    /// `key`, running a turn; returns the lines that open the connection and
    /// the request that opens the thread.
    pub fn add_session(&mut self, key: &str, pty: u64, state: &CodexSessionState, now: u64) -> (r: (
        Vec<String>,
        StartAction,
    ))
        requires
            old(self).wf(),
        ensures
            final(self).wf(),
            final(self)@.pending == old(self)@.pending,
            final(self)@.native_dirs == old(self)@.native_dirs,
            final(self)@.sessions == old(self)@.sessions.insert(key@, fresh_session(pty, now)),
            r.0.len() == 2,
            r.0@[0]@ == json_text(request_value(1, "initialize"@, initialize_params())),
            r.0@[1]@ == json_text(notification_value("initialized"@, None)),
            r.1@ == (StartActionV::OpenThread {
                request_id: 2,
                line: open_line(2, *state),
                is_resume: state.native_thread_id is Some,
            }),
    {
        let mut rpc = JsonRpcClient::new();
        let lines = startup_requests(&mut rpc);
        let (request_id, line, is_resume) = thread_open_request(&mut rpc, state);
        let session = ActiveSession {
            pty,
            rpc,
            buffer: String::new(),
            running: true,
            last_used: now,
            human_responses: Vec::new(),
        };
        assert(session@.responses =~= Seq::<(Seq<char>, Seq<char>)>::empty());
        let _ = self.take_session(key);
        self.put_session(String::from_str(key), session);
        assert(self@.sessions =~= old(self)@.sessions.insert(key@, fresh_session(pty, now)));
        (lines, StartAction::OpenThread { request_id, line, is_resume })
    }

    /// Adds terminal output of session `key` to its buffer and returns the
    /// complete lines that may hold JSON messages; nothing if the session is gone.
    pub fn frame_output(&mut self, key: &str, chunk: &str, now: u64) -> (r: Vec<String>)
        requires
            old(self).wf(),
        ensures
            final(self).wf(),
            final(self)@.pending == old(self)@.pending,
            final(self)@.native_dirs == old(self)@.native_dirs,
            old(self)@.sessions.contains_key(key@) ==> {
                let s = old(self)@.sessions[key@];
                &&& str_views(r@) == json_candidates(s.buffer + chunk@)
                &&& final(self)@.sessions == old(self)@.sessions.insert(
                    key@,
                    SessionV {
                        buffer: pending_text(s.buffer + chunk@),
                        last_used: now,
                        ..s
                    },
                )
            },
            !old(self)@.sessions.contains_key(key@) ==> r@.len() == 0 && final(self)@.sessions
                == old(self)@.sessions,
    {
        match self.take_session(key) {
            None => Vec::new(),
            Some(entry) => {
                let (k, mut session) = entry;
                session.last_used = now;
                let lines = frame_json_lines(&mut session.buffer, chunk);
                self.put_session(k, session);
                assert(self@.sessions =~= old(self)@.sessions.insert(
                    key@,
                    SessionV {
                        buffer: pending_text(old(self)@.sessions[key@].buffer + chunk@),
                        last_used: now,
                        ..old(self)@.sessions[key@]
                    },
                ));
                lines
            },
        }
    }

    /// Frames a `thread/start` request with the rpc numbering of session
    /// `key`; nothing if the session is gone.
    pub fn thread_start_for(&mut self, key: &str, now: u64) -> (r: Option<(u64, String)>)
        requires
            old(self).wf(),
        ensures
            final(self).wf(),
            final(self)@.pending == old(self)@.pending,
            final(self)@.native_dirs == old(self)@.native_dirs,
            old(self)@.sessions.contains_key(key@) ==> {
                let s = old(self)@.sessions[key@];
                &&& r matches Some((id, line)) && id == s.next_id && line@ == start_line(s.next_id)
                &&& final(self)@.sessions == old(self)@.sessions.insert(
                    key@,
                    touched(s, s.running, now, next_after(s.next_id)),
                )
            },
            !old(self)@.sessions.contains_key(key@) ==> r is None && final(self)@.sessions
                == old(self)@.sessions,
    {
        match self.take_session(key) {
            None => None,
            Some(entry) => {
                let (k, mut session) = entry;
                session.last_used = now;
                let framed = thread_start_request(&mut session.rpc);
                self.put_session(k, session);
                let ghost s = old(self)@.sessions[key@];
                assert(self@.sessions =~= old(self)@.sessions.insert(
                    key@,
                    touched(s, s.running, now, next_after(s.next_id)),
                ));
                Some(framed)
            },
        }
    }

    /// Frames the `turn/start` request of a turn with the rpc numbering of
    /// session `key`; nothing if the session is gone.
    pub fn turn_start_for(
        &mut self,
        key: &str,
        request: &AgentEngineTurnRequest,
        state: &CodexSessionState,
        now: u64,
    ) -> (r: Option<String>)
        requires
            old(self).wf(),
        ensures
            final(self).wf(),
            final(self)@.pending == old(self)@.pending,
            final(self)@.native_dirs == old(self)@.native_dirs,
            old(self)@.sessions.contains_key(key@) ==> {
                let s = old(self)@.sessions[key@];
                &&& r is Some
                &&& r->0@ == turn_line(s.next_id, *request, *state)
                &&& final(self)@.sessions == old(self)@.sessions.insert(
                    key@,
                    touched(s, s.running, now, next_after(s.next_id)),
                )
            },
            !old(self)@.sessions.contains_key(key@) ==> r is None && final(self)@.sessions
                == old(self)@.sessions,
    {
        match self.take_session(key) {
            None => None,
            Some(entry) => {
                let (k, mut session) = entry;
                session.last_used = now;
                let line = turn_start_request(&mut session.rpc, request, state);
                self.put_session(k, session);
                let ghost s = old(self)@.sessions[key@];
                assert(self@.sessions =~= old(self)@.sessions.insert(
                    key@,
                    touched(s, s.running, now, next_after(s.next_id)),
                ));
                Some(line)
            },
        }
    }
}


impl CodexRegistry {
    fn take_pending(&mut self, request_id: &str) -> (r: Option<(String, PendingHumanRequest)>)
        requires
            old(self).wf(),
        ensures
            final(self).wf(),
            final(self)@.sessions == old(self)@.sessions,
            final(self)@.native_dirs == old(self)@.native_dirs,
            match r {
                Some(e) => {
                    &&& old(self)@.pending.contains_key(request_id@)
                    &&& e.0@ == request_id@
                    &&& e.1@ == old(self)@.pending[request_id@]
                    &&& final(self)@.pending == old(self)@.pending.remove(request_id@)
                },
                None => {
                    &&& !old(self)@.pending.contains_key(request_id@)
                    &&& final(self)@.pending == old(self)@.pending
                },
            },
    {
        let ghost es = pending_entries(self.pending@);
        match find_key(&self.pending, request_id) {
            Some(i) => {
                proof {
                    lemma_to_map_value(es, i as int);
                    lemma_to_map_remove(es, i as int);
                }
                let e = self.pending.remove(i);
                assert(pending_entries(self.pending@) =~= es.remove(i as int));
                Some(e)
            },
            None => {
                proof {
                    lemma_to_map_dom(es, request_id@);
                }
                None
            },
        }
    }

    fn put_pending(&mut self, request_id: String, p: PendingHumanRequest)
        requires
            old(self).wf(),
            !old(self)@.pending.contains_key(request_id@),
        ensures
            final(self).wf(),
            final(self)@.sessions == old(self)@.sessions,
            final(self)@.native_dirs == old(self)@.native_dirs,
            final(self)@.pending == old(self)@.pending.insert(request_id@, p@),
    {
        let ghost es = pending_entries(self.pending@);
        let ghost kv = (request_id@, p@);
        proof {
            lemma_to_map_push(es, request_id@, p@);
        }
        self.pending.push((request_id, p));
        assert(pending_entries(self.pending@) =~= es.push(kv));
    }

    /// Records that question `request_id`, asked by session `key` through
    /// JSON-RPC request `rpc_id`, waits for an answer.
    pub fn register_human_request(&mut self, key: &str, request_id: &str, rpc_id: &str, question_id: &str)
        requires
            old(self).wf(),
        ensures
            final(self).wf(),
            final(self)@.sessions == old(self)@.sessions,
            final(self)@.native_dirs == old(self)@.native_dirs,
            final(self)@ == registered(old(self)@, key@, request_id@, rpc_id@, question_id@),
    {
        let _ = self.take_pending(request_id);
        let p = PendingHumanRequest {
            session_key: String::from_str(key),
            rpc_id: String::from_str(rpc_id),
            question_id: String::from_str(question_id),
        };
        self.put_pending(String::from_str(request_id), p);
        assert(self@.pending =~= old(self)@.pending.insert(
            request_id@,
            PendingV { session_key: key@, rpc_id: rpc_id@, question_id: question_id@ },
        ));
        assert(self@ == registered(old(self)@, key@, request_id@, rpc_id@, question_id@));
    }

    /// Forgets the questions that session `key` asked.
    pub fn remove_pending_for_session(&mut self, key: &str)
        requires
            old(self).wf(),
        ensures
            final(self).wf(),
            final(self)@.sessions == old(self)@.sessions,
            final(self)@.native_dirs == old(self)@.native_dirs,
            final(self)@.pending == pending_without(old(self)@.pending, key@),
    {
        let ghost old_map = self@.pending;
        let mut i: usize = 0;
        while i < self.pending.len()
            invariant
                self.wf(),
                self@.sessions == old(self)@.sessions,
                self@.native_dirs == old(self)@.native_dirs,
                old_map == old(self)@.pending,
                i <= self.pending.len(),
                self@.pending.submap_of(old_map),
                forall|r: Seq<char>|
                    old_map.contains_key(r) && (#[trigger] old_map[r]).session_key != key@
                        ==> self@.pending.contains_key(r),
                forall|j: int|
                    0 <= j < i ==> (#[trigger] pending_entries(self.pending@)[j]).1.session_key != key@,
            decreases self.pending.len() - i,
        {
            let ghost es = pending_entries(self.pending@);
            if same_text(self.pending[i].1.session_key.as_str(), key) {
                proof {
                    lemma_to_map_value(es, i as int);
                    lemma_to_map_remove(es, i as int);
                }
                let ghost r = es[i as int].0;
                let ghost before_map = self@.pending;
                proof {
                    lemma_submap_at(before_map, old_map, r);
                }
                let _ = self.pending.remove(i);
                assert(pending_entries(self.pending@) =~= es.remove(i as int));
                proof {
                    assert(self@.pending == before_map.remove(r));
                    assert(self@.pending.submap_of(old_map)) by {
                        assert forall|r2: Seq<char>| #[trigger] self@.pending.dom().contains(r2) implies old_map.dom().contains(r2)
                            && self@.pending[r2] == old_map[r2] by {
                            lemma_submap_at(before_map, old_map, r2);
                        }
                    }
                    assert forall|j: int| 0 <= j < i implies (#[trigger] pending_entries(self.pending@)[j]).1.session_key != key@ by {
                        assert(pending_entries(self.pending@)[j] == es[j]);
                    }
                }
            } else {
                i += 1;
            }
        }
        proof {
            let cur = pending_entries(self.pending@);
            assert forall|r: Seq<char>| #[trigger] self@.pending.contains_key(r) implies old_map[r].session_key != key@ by {
                lemma_submap_at(self@.pending, old_map, r);
                lemma_to_map_dom(cur, r);
                let j = choose|j: int| 0 <= j < cur.len() && cur[j].0 == r;
                lemma_to_map_value(cur, j);
            }
            assert forall|r: Seq<char>| #[trigger] self@.pending.contains_key(r) implies pending_without(old_map, key@).contains_key(r)
                && self@.pending[r] == pending_without(old_map, key@)[r] by {
                lemma_submap_at(self@.pending, old_map, r);
            }
            assert(self@.pending =~= pending_without(old_map, key@));
        }
    }

    /// Ends the turn of session `key`. With `close` the session and its
    /// questions are dropped and its terminal is returned, to be closed;
    /// otherwise the session is kept, idle from `now`.
    pub fn release(&mut self, key: &str, close: bool, now: u64) -> (r: Option<u64>)
        requires
            old(self).wf(),
        ensures
            final(self).wf(),
            final(self)@ == released(old(self)@, key@, close, now),
            r == (if close && old(self)@.sessions.contains_key(key@) {
                Some(old(self)@.sessions[key@].pty)
            } else {
                None
            }),
    {
        let taken = self.take_session(key);
        if close {
            self.remove_pending_for_session(key);
            proof {
                assert(self@.sessions =~= old(self)@.sessions.remove(key@));
                assert(self@.pending =~= pending_without(old(self)@.pending, key@));
                assert(self@ == released(old(self)@, key@, close, now));
            }
            match taken {
                Some(entry) => Some(entry.1.pty),
                None => None,
            }
        } else {
            match taken {
                Some(entry) => {
                    let (k, mut session) = entry;
                    session.running = false;
                    session.last_used = now;
                    self.put_session(k, session);
                    let ghost s = old(self)@.sessions[key@];
                    assert(self@.sessions =~= old(self)@.sessions.insert(key@, touched(s, false, now, s.next_id)));
                },
                None => {},
            }
            None
        }
    }

    /// Takes the answers recorded for session `key` since it last looked.
    pub fn drain_human_responses(&mut self, key: &str, now: u64) -> (r: Vec<(String, String)>)
        requires
            old(self).wf(),
        ensures
            final(self).wf(),
            final(self)@.pending == old(self)@.pending,
            final(self)@.native_dirs == old(self)@.native_dirs,
            old(self)@.sessions.contains_key(key@) ==> {
                let s = old(self)@.sessions[key@];
                &&& pair_views(r@) == s.responses
                &&& final(self)@.sessions == old(self)@.sessions.insert(
                    key@,
                    SessionV { last_used: now, responses: Seq::empty(), ..s },
                )
            },
            !old(self)@.sessions.contains_key(key@) ==> r@.len() == 0 && final(self)@.sessions
                == old(self)@.sessions,
            (pair_views(r@), final(self)@) == drained(old(self)@, key@, now),
    {
        match self.take_session(key) {
            None => {
                let r: Vec<(String, String)> = Vec::new();
                assert(pair_views(r@) =~= Seq::<(Seq<char>, Seq<char>)>::empty());
                r
            },
            Some(entry) => {
                let (k, mut session) = entry;
                session.last_used = now;
                let mut taken: Vec<(String, String)> = Vec::new();
                std::mem::swap(&mut taken, &mut session.human_responses);
                assert(pair_views(session.human_responses@) =~= Seq::<(Seq<char>, Seq<char>)>::empty());
                self.put_session(k, session);
                let ghost s = old(self)@.sessions[key@];
                assert(self@.sessions =~= old(self)@.sessions.insert(
                    key@,
                    SessionV { last_used: now, responses: Seq::empty(), ..s },
                ));
                taken
            },
        }
    }
}



/// The registry after question `rid` of session `key` was recorded.
pub open spec fn registered(
    g: RegistryV,
    key: Seq<char>,
    rid: Seq<char>,
    rpc_id: Seq<char>,
    question_id: Seq<char>,
) -> RegistryV {
    RegistryV {
        pending: g.pending.insert(rid, PendingV { session_key: key, rpc_id, question_id }),
        ..g
    }
}

pub enum AnswerStepV {
    NotPending,
    NoSession,
    Write { pty: u64, line: Seq<char>, pending: PendingV },
}

/// What answering question `rid` with `response` takes, and the registry after.
pub open spec fn answer_step(g: RegistryV, rid: Seq<char>, response: Seq<char>) -> (AnswerStepV, RegistryV) {
    if !g.pending.contains_key(rid) {
        (AnswerStepV::NotPending, g)
    } else {
        let p = g.pending[rid];
        if g.sessions.contains_key(p.session_key) {
            (
                AnswerStepV::Write {
                    pty: g.sessions[p.session_key].pty,
                    line: json_text(answer_payload(p.rpc_id, p.question_id, response)),
                    pending: p,
                },
                RegistryV { pending: g.pending.remove(rid), ..g },
            )
        } else {
            (AnswerStepV::NoSession, g)
        }
    }
}

/// The registry after the answer to `rid` was written (`wrote`) or failed to be.
pub open spec fn answered(g: RegistryV, rid: Seq<char>, response: Seq<char>, p: PendingV, wrote: bool) -> RegistryV {
    if wrote {
        if g.sessions.contains_key(p.session_key) {
            let s = g.sessions[p.session_key];
            RegistryV {
                sessions: g.sessions.insert(
                    p.session_key,
                    SessionV { responses: s.responses.push((rid, response)), ..s },
                ),
                ..g
            }
        } else {
            g
        }
    } else {
        RegistryV { pending: g.pending.insert(rid, p), ..g }
    }
}

/// The answers that session `key` has to report, and the registry after it took them.
pub open spec fn drained(g: RegistryV, key: Seq<char>, now: u64) -> (Seq<(Seq<char>, Seq<char>)>, RegistryV) {
    if g.sessions.contains_key(key) {
        let s = g.sessions[key];
        (
            s.responses,
            RegistryV {
                sessions: g.sessions.insert(key, SessionV { last_used: now, responses: Seq::empty(), ..s }),
                ..g
            },
        )
    } else {
        (Seq::empty(), g)
    }
}

impl View for AnswerStep {
    type V = AnswerStepV;

    open spec fn view(&self) -> AnswerStepV {
        match self {
            AnswerStep::NotPending => AnswerStepV::NotPending,
            AnswerStep::NoSession => AnswerStepV::NoSession,
            AnswerStep::Write { pty, line, pending } => AnswerStepV::Write {
                pty: *pty,
                line: line@,
                pending: pending@,
            },
        }
    }
}

proof fn lemma_digits_grow(d: Seq<char>, i: int)
    requires
        all_digits(d),
        0 <= i <= d.len(),
    ensures
        0 <= digits_value(d.take(i)) <= digits_value(d),
    decreases d.len(),
{
    if i < d.len() {
        let init = d.drop_last();
        assert(all_digits(init)) by {
            assert forall|j: int| 0 <= j < init.len() implies '0' <= #[trigger] init[j] <= '9' by {
                assert(init[j] == d[j]);
            }
        }
        lemma_digits_grow(init, i);
        assert(init.take(i) =~= d.take(i));
        lemma_digits_grow(init, init.len() as int);
        assert(init.take(init.len() as int) =~= init);
        assert('0' <= d[d.len() - 1] <= '9');
    } else {
        assert(d.take(i) =~= d);
        if d.len() > 0 {
            let init = d.drop_last();
            assert(all_digits(init)) by {
                assert forall|j: int| 0 <= j < init.len() implies '0' <= #[trigger] init[j] <= '9' by {
                    assert(init[j] == d[j]);
                }
            }
            lemma_digits_grow(init, init.len() as int);
            assert(init.take(init.len() as int) =~= init);
            assert('0' <= d[d.len() - 1] <= '9');
        }
    }
}

/// Reads `raw` as a `u64` the way `str::parse::<u64>` does: an optional
/// `+`, then decimal digits whose value fits.
pub fn parse_u64(raw: &str) -> (r: Option<u64>)
    ensures
        r == u64_value(raw@),
{
    let t = chars_of(raw);
    let start: usize = if t.len() > 0 && t[0] == '+' { 1 } else { 0 };
    let ghost d = if t@.len() > 0 && t@[0] == '+' { t@.drop_first() } else { t@ };
    assert(d =~= t@.skip(start as int));
    if start >= t.len() {
        return None;
    }
    let mut v: u64 = 0;
    let mut i: usize = start;
    while i < t.len()
        invariant
            start <= i <= t.len(),
            start < t.len(),
            t@ == raw@,
            d == (if t@.len() > 0 && t@[0] == '+' { t@.drop_first() } else { t@ }),
            d == t@.skip(start as int),
            all_digits(d.take(i - start)),
            v == digits_value(d.take(i - start)),
        decreases t.len() - i,
    {
        let c = t[i];
        let ghost n = (i - start) as int;
        assert(d[n] == c);
        if !('0' <= c && c <= '9') {
            assert(!all_digits(d));
            return None;
        }
        let dig: u64 = (c as u32 - '0' as u32) as u64;
        let ghost next = d.take(n + 1);
        assert(next.drop_last() =~= d.take(n));
        assert(all_digits(next)) by {
            assert forall|j: int| 0 <= j < next.len() implies '0' <= #[trigger] next[j] <= '9' by {
                if j < n {
                    assert(next[j] == d.take(n)[j]);
                }
            }
        }
        assert(digits_value(next) == v * 10 + dig);
        if v > (u64::MAX - dig) / 10 {
            assert(v * 10 + dig > u64::MAX) by (nonlinear_arith)
                requires
                    v > (u64::MAX - dig) / 10,
                    dig <= 9,
            ;
            proof {
                if all_digits(d) {
                    lemma_digits_grow(d, n + 1);
                }
            }
            return None;
        }
        assert(v * 10 + dig <= u64::MAX) by (nonlinear_arith)
            requires
                v <= (u64::MAX - dig) / 10,
                dig <= 9,
        ;
        v = v * 10 + dig;
        i += 1;
    }
    assert(d.take(d.len() as int) =~= d);
    Some(v)
}

/// The JSON id of a request id kept as text: a number where the text reads as one.
pub fn rpc_id_json_value(raw: &str) -> (r: Json)
    ensures
        r@ == rpc_id_value(raw@),
{
    match parse_u64(raw) {
        Some(n) => num_u64(n),
        None => Json::string(raw),
    }
}

/// What answering a question takes.
pub enum AnswerStep {
    /// No question waits under this id.
    NotPending,
    /// The session that asked is gone; the question stays pending.
    NoSession,
    /// Write `line` to terminal `pty`, then report with `complete_answer`.
    Write { pty: u64, line: String, pending: PendingHumanRequest },
}

impl CodexRegistry {
    fn session_pty(&self, key: &str) -> (r: Option<u64>)
        requires
            self.wf(),
        ensures
            r == (if self@.sessions.contains_key(key@) {
                Some(self@.sessions[key@].pty)
            } else {
                None
            }),
    {
        let ghost es = session_entries(self.sessions@);
        match find_key(&self.sessions, key) {
            Some(i) => {
                proof {
                    lemma_to_map_value(es, i as int);
                }
                Some(self.sessions[i].1.pty)
            },
            None => {
                proof {
                    lemma_to_map_dom(es, key@);
                }
                None
            },
        }
    }

    /// Takes question `request_id` out of the pending ones and frames the
    /// JSON-RPC answer `response` for the session that asked it. A question
    /// whose session is gone stays pending.
    pub fn prepare_answer(&mut self, request_id: &str, response: &str) -> (r: AnswerStep)
        requires
            old(self).wf(),
        ensures
            final(self).wf(),
            !old(self)@.pending.contains_key(request_id@) ==> r is NotPending && final(self)@ == old(self)@,
            old(self)@.pending.contains_key(request_id@) ==> {
                let p = old(self)@.pending[request_id@];
                if old(self)@.sessions.contains_key(p.session_key) {
                    &&& r matches AnswerStep::Write { pty, line, pending } && pty
                        == old(self)@.sessions[p.session_key].pty && line@ == json_text(
                        answer_payload(p.rpc_id, p.question_id, response@),
                    ) && pending@ == p
                    &&& final(self)@ == RegistryV {
                        pending: old(self)@.pending.remove(request_id@),
                        ..old(self)@
                    }
                } else {
                    r is NoSession && final(self)@ == old(self)@
                }
            },
            (r@, final(self)@) == answer_step(old(self)@, request_id@, response@),
    {
        match self.take_pending(request_id) {
            None => AnswerStep::NotPending,
            Some(entry) => {
                let (k, p) = entry;
                match self.session_pty(p.session_key.as_str()) {
                    None => {
                        self.put_pending(k, p);
                        assert(self@.pending =~= old(self)@.pending);
                        AnswerStep::NoSession
                    },
                    Some(pty) => {
                        let answers = vec![Json::string(response)];
                        assert(crate::json::views(answers@) =~= seq![JsonV::Str(response@)]);
                        let payload = obj3(
                            "id",
                            rpc_id_json_value(p.rpc_id.as_str()),
                            "jsonrpc",
                            Json::string("2.0"),
                            "result",
                            obj1(
                                "answers",
                                obj1(p.question_id.as_str(), obj1("answers", arr(answers))),
                            ),
                        );
                        let line = payload.to_text();
                        AnswerStep::Write { pty, line, pending: p }
                    },
                }
            },
        }
    }

    /// Finishes an answer framed by `prepare_answer`. When the line was
    /// written the answer is recorded for the session to report; otherwise
    /// the question is pending again. Returns whether it was written.
    pub fn complete_answer(
        &mut self,
        request_id: &str,
        response: &str,
        pending: PendingHumanRequest,
        wrote: bool,
    ) -> (r: bool)
        requires
            old(self).wf(),
        ensures
            final(self).wf(),
            r == wrote,
            final(self)@.native_dirs == old(self)@.native_dirs,
            wrote ==> final(self)@.pending == old(self)@.pending,
            wrote ==> final(self)@.sessions == (if old(self)@.sessions.contains_key(pending@.session_key) {
                let s = old(self)@.sessions[pending@.session_key];
                old(self)@.sessions.insert(
                    pending@.session_key,
                    SessionV { responses: s.responses.push((request_id@, response@)), ..s },
                )
            } else {
                old(self)@.sessions
            }),
            !wrote ==> final(self)@.sessions == old(self)@.sessions,
            !wrote ==> final(self)@.pending == old(self)@.pending.insert(request_id@, pending@),
            final(self)@ == answered(old(self)@, request_id@, response@, pending@, wrote),
    {
        if wrote {
            match self.take_session(pending.session_key.as_str()) {
                Some(entry) => {
                    let (k, mut session) = entry;
                    let ghost before = session.human_responses@;
                    session.human_responses.push((String::from_str(request_id), String::from_str(response)));
                    assert(pair_views(session.human_responses@) =~= pair_views(before).push((request_id@, response@)));
                    self.put_session(k, session);
                    let ghost s = old(self)@.sessions[pending@.session_key];
                    assert(self@.sessions =~= old(self)@.sessions.insert(
                        pending@.session_key,
                        SessionV { responses: s.responses.push((request_id@, response@)), ..s },
                    ));
                },
                None => {},
            }
            true
        } else {
            let _ = self.take_pending(request_id);
            self.put_pending(String::from_str(request_id), pending);
            assert(self@.pending =~= old(self)@.pending.insert(request_id@, pending@));
            false
        }
    }
}


/// An answer reaches the session that asked: once a live session's question
/// is recorded, answering it writes the answer to that session's terminal,
/// under the JSON-RPC id and question id it was asked with, and the question
/// is no longer pending. Once written, the session's next drain reports the
/// answer after those it had, and the drain after that reports nothing.
pub proof fn law_answer_reaches_asker(
    g: RegistryV,
    key: Seq<char>,
    rid: Seq<char>,
    rpc_id: Seq<char>,
    question_id: Seq<char>,
    response: Seq<char>,
    now1: u64,
    now2: u64,
)
    requires
        g.sessions.contains_key(key),
    ensures
        ({
            let p = PendingV { session_key: key, rpc_id, question_id };
            let (step, g2) = answer_step(registered(g, key, rid, rpc_id, question_id), rid, response);
            let (first, g4) = drained(answered(g2, rid, response, p, true), key, now1);
            &&& step == (AnswerStepV::Write {
                pty: g.sessions[key].pty,
                line: json_text(answer_payload(rpc_id, question_id, response)),
                pending: p,
            })
            &&& !g2.pending.contains_key(rid)
            &&& first == g.sessions[key].responses.push((rid, response))
            &&& drained(g4, key, now2).0 == Seq::<(Seq<char>, Seq<char>)>::empty()
        }),
{
}

/// An answer that could not be written leaves the registry as it was before
/// the answer was tried: the question is pending again.
pub proof fn law_unwritten_answer_stays_pending(g: RegistryV, rid: Seq<char>, response: Seq<char>)
    requires
        answer_step(g, rid, response).0 is Write,
    ensures
        answered(answer_step(g, rid, response).1, rid, response, g.pending[rid], false) == g,
{
    let g2 = answer_step(g, rid, response).1;
    assert(g2.pending.insert(rid, g.pending[rid]) =~= g.pending);
}

/// Ending a turn with `close` forgets its session and every question that
/// session asked, and leaves the other sessions and questions as they were.
pub proof fn law_close_forgets_session(g: RegistryV, key: Seq<char>, now: u64)
    ensures
        ({
            let g2 = released(g, key, true, now);
            &&& !g2.sessions.contains_key(key)
            &&& forall|r: Seq<char>| #[trigger] g2.pending.contains_key(r) ==> g2.pending[r].session_key != key
            &&& forall|k: Seq<char>| k != key && g.sessions.contains_key(k) ==> #[trigger] g2.sessions.contains_key(k)
                && g2.sessions[k] == g.sessions[k]
            &&& forall|r: Seq<char>| g.pending.contains_key(r) && g.pending[r].session_key != key
                ==> #[trigger] g2.pending.contains_key(r) && g2.pending[r] == g.pending[r]
        }),
{
}

/// Ending a turn without `close` keeps the session, idle: the same terminal
/// and rpc numbering, ready for the next turn.
pub proof fn law_release_keeps_idle_session(g: RegistryV, key: Seq<char>, now: u64)
    requires
        g.sessions.contains_key(key),
    ensures
        ({
            let s2 = released(g, key, false, now).sessions[key];
            &&& released(g, key, false, now).sessions.contains_key(key)
            &&& !s2.running
            &&& s2.pty == g.sessions[key].pty
            &&& s2.next_id == g.sessions[key].next_id
            &&& released(g, key, false, now).pending == g.pending
        }),
{
}

/// A session that runs a turn refuses a second one and stays as it was; an
/// idle one takes the turn, runs it, and numbers its first request with an id
/// it never hands out again.
pub proof fn law_acquire_one_turn_at_a_time(
    m: Map<Seq<char>, SessionV>,
    key: Seq<char>,
    request: AgentEngineTurnRequest,
    state: CodexSessionState,
    now: u64,
)
    requires
        m.contains_key(key),
    ensures
        m[key].running ==> acquire(m, key, request, state, now) == (AcquireV::Busy, m),
        !m[key].running ==> {
            let (a, m2) = acquire(m, key, request, state, now);
            &&& a matches AcquireV::Reuse { pty, .. } && pty == m[key].pty
            &&& m2[key].running
            &&& (m[key].next_id < u64::MAX ==> m2[key].next_id > m[key].next_id)
        },
{
}

/// Cleaning up never ends a session that runs a turn.
pub proof fn law_cleanup_keeps_running(m: Map<Seq<char>, SessionV>, now: u64, idle: u64, k: Seq<char>)
    requires
        m.contains_key(k),
        m[k].running,
    ensures
        kept_sessions(m, now, idle).contains_key(k),
        kept_sessions(m, now, idle)[k] == m[k],
{
}

} // verus!
