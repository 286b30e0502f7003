//! One Codex turn, as a machine that the host drives: it hands each
//! observation in (cancellation, elapsed time, terminal output, exits,
//! results of writes) and carries out the steps that come back.
use vstd::prelude::*;
use crate::events::{
    map_app_server_message, message_outcome, quiet, uuid_v4_text, ChatEvent, ChatEventV, OutcomeV,
};
use crate::history::cat;
use crate::json::{string_opt, Json, JsonV};
use crate::protocol::{
    extract_thread_id, request_value, response_error, response_error_of, response_id,
    response_id_of, thread_id_in, turn_start_params, effort, AgentEngineTurnRequest,
    CodexSessionState,
};
use crate::registry::{
    drained, pair_views, registered, released, start_line, touched, CodexRegistry, RegistryV,
    StartAction, StartActionV,
};
use crate::protocol::next_after;

use crate::history::unsupported_message;

verus! {

/// How long a turn may wait for its thread to open, in milliseconds.
pub const CODEX_STARTUP_TIMEOUT_MS: u64 = 5_000;

/// How long a turn may run, in milliseconds.
pub const CODEX_TURN_TIMEOUT_MS: u64 = 3_600_000;

/// Which write the turn waits to hear about.
#[derive(PartialEq, Eq, Structural, Clone, Copy)]
pub enum Awaiting {
    /// The retry of a failed thread resume as a new thread.
    Retry,
    /// The request that starts the turn.
    Turn,
}

/// A running turn.
pub struct CodexTurn {
    pub key: String,
    pub request: AgentEngineTurnRequest,
    pub state: CodexSessionState,
    pub pending_thread_open: Option<(u64, bool)>,
    pub sent_turn: bool,
    pub saw_completion: bool,
    pub should_close: bool,
    pub awaiting: Option<Awaiting>,
    pub events: Vec<ChatEvent>,
}

pub struct TurnV {
    pub key: Seq<char>,
    pub thread: Option<Seq<char>>,
    pub pending: Option<(u64, bool)>,
    pub sent_turn: bool,
    pub saw_completion: bool,
    pub should_close: bool,
    pub awaiting: Option<Awaiting>,
    pub events: Seq<ChatEventV>,
}

pub open spec fn event_views(v: Seq<ChatEvent>) -> Seq<ChatEventV> {
    Seq::new(v.len(), |i: int| v[i]@)
}

impl View for CodexTurn {
    type V = TurnV;

    open spec fn view(&self) -> TurnV {
        TurnV {
            key: self.key@,
            thread: string_opt(self.state.native_thread_id),
            pending: self.pending_thread_open,
            sent_turn: self.sent_turn,
            saw_completion: self.saw_completion,
            should_close: self.should_close,
            awaiting: self.awaiting,
            events: event_views(self.events@),
        }
    }
}

/// What the host does next with the messages of the current batch.
pub enum MessageStep {
    /// Go on with the next message.
    Next,
    /// Leave the rest of this batch.
    StopBatch,
    /// Write `line` to the terminal, then report with `after_write`.
    Write { line: String },
}

pub enum MessageStepV {
    Next,
    StopBatch,
    Write { line: Seq<char> },
}

impl View for MessageStep {
    type V = MessageStepV;

    open spec fn view(&self) -> MessageStepV {
        match self {
            MessageStep::Next => MessageStepV::Next,
            MessageStep::StopBatch => MessageStepV::StopBatch,
            MessageStep::Write { line } => MessageStepV::Write { line: line@ },
        }
    }
}

/// How an app-server message bears on opening the thread.
pub enum PlanV {
    /// The resume failed: open a new thread instead.
    Retry,
    /// Opening the thread failed with `error`.
    OpenFailed { error: Seq<char> },
    /// The thread is open: send the turn.
    SendTurn,
    /// The thread answered without its id: wait for it.
    Wait,
    /// An ordinary message of the turn.
    Ordinary,
}

pub open spec fn answers_open(pending: Option<(u64, bool)>, m: JsonV) -> bool {
    pending matches Some((open_id, _)) && response_id(m) == Some(open_id)
}

pub open spec fn message_plan(pending: Option<(u64, bool)>, thread: Option<Seq<char>>, m: JsonV) -> PlanV {
    if answers_open(pending, m) {
        match response_error(m) {
            Some(e) => if pending matches Some((_, true)) {
                PlanV::Retry
            } else {
                PlanV::OpenFailed { error: e }
            },
            None => if thread_id_in(m) is Some || thread is Some {
                PlanV::SendTurn
            } else {
                PlanV::Wait
            },
        }
    } else if thread_id_in(m) is Some && pending is Some {
        PlanV::SendTurn
    } else {
        PlanV::Ordinary
    }
}

/// Whether the message tells the conversation's thread id, which is then kept.
pub open spec fn learns_thread(pending: Option<(u64, bool)>, m: JsonV) -> bool {
    thread_id_in(m) is Some && !(answers_open(pending, m) && response_error(m) is Some)
}

pub open spec fn learnt_thread(pending: Option<(u64, bool)>, thread: Option<Seq<char>>, m: JsonV) -> Option<
    Seq<char>,
> {
    if learns_thread(pending, m) {
        thread_id_in(m)
    } else {
        thread
    }
}

pub open spec fn registry_gone() -> Seq<char> {
    "Codex session registry entry disappeared"@
}

/// The turn after it failed with `message`: reported, over, to be closed.
pub open spec fn failed_with(t: TurnV, message: Seq<char>) -> TurnV {
    TurnV {
        events: t.events.push(ChatEventV::Error { message }),
        saw_completion: true,
        should_close: true,
        ..t
    }
}

/// The registry after session `key` framed one more request at `now`.
pub open spec fn framed(g: RegistryV, key: Seq<char>, now: u64) -> RegistryV {
    let s = g.sessions[key];
    RegistryV { sessions: g.sessions.insert(key, touched(s, s.running, now, next_after(s.next_id))), ..g }
}

pub open spec fn thread_text(thread: Option<Seq<char>>) -> Seq<char> {
    match thread {
        Some(t) => t,
        None => Seq::empty(),
    }
}

/// The text of the request that starts the turn in thread `thread`.
pub open spec fn turn_request_text(id: u64, request: AgentEngineTurnRequest, thread: Seq<char>) -> Seq<char> {
    crate::json::json_text(
        request_value(
            id,
            "turn/start"@,
            turn_start_params(
                thread,
                request.message@,
                effort(request.engine_config@),
                request.run_id@,
                request.account_id@,
                request.agent_id@,
                request.session_key_json@,
            ),
        ),
    )
}

/// Sending the turn from turn `t`: its request, framed by the session, or a
/// failure when the session is gone.
pub open spec fn send_turn(t: TurnV, g: RegistryV, now: u64, request: AgentEngineTurnRequest) -> (
    TurnV,
    RegistryV,
    MessageStepV,
) {
    let t2 = TurnV { pending: None, ..t };
    if g.sessions.contains_key(t.key) {
        let id = g.sessions[t.key].next_id;
        (
            TurnV { awaiting: Some(Awaiting::Turn), ..t2 },
            framed(g, t.key, now),
            MessageStepV::Write { line: turn_request_text(id, request, thread_text(t.thread)) },
        )
    } else {
        (failed_with(t2, registry_gone()), g, MessageStepV::StopBatch)
    }
}

/// What message `m` does to turn `t` and registry `g`, where `o` is what the
/// message means as an ordinary message of the turn.
pub open spec fn message_effect(
    t: TurnV,
    g: RegistryV,
    m: JsonV,
    now: u64,
    request: AgentEngineTurnRequest,
    o: OutcomeV,
) -> (TurnV, RegistryV, MessageStepV) {
    let t1 = TurnV { thread: learnt_thread(t.pending, t.thread, m), ..t };
    match message_plan(t.pending, t.thread, m) {
        PlanV::Retry => if g.sessions.contains_key(t.key) {
            let id = g.sessions[t.key].next_id;
            (
                TurnV { pending: Some((id, false)), awaiting: Some(Awaiting::Retry), ..t1 },
                framed(g, t.key, now),
                MessageStepV::Write { line: start_line(id) },
            )
        } else {
            (failed_with(t1, registry_gone()), g, MessageStepV::StopBatch)
        },
        PlanV::OpenFailed { error } => (
            failed_with(t1, "thread/start failed: "@ + error),
            g,
            MessageStepV::StopBatch,
        ),
        PlanV::Wait => (t1, g, MessageStepV::Next),
        PlanV::SendTurn => send_turn(t1, g, now, request),
        PlanV::Ordinary => {
            let g2 = match o.human_request {
                Some(h) => registered(g, t.key, h.request_id, h.rpc_id, h.question_id),
                None => g,
            };
            let events = match o.event {
                Some(e) => t.events.push(e),
                None => t.events,
            };
            let stop = o.completed && o.failed;
            (
                TurnV {
                    events,
                    saw_completion: t.saw_completion || o.completed,
                    should_close: t.should_close || stop,
                    ..t1
                },
                g2,
                if stop {
                    MessageStepV::StopBatch
                } else {
                    MessageStepV::Next
                },
            )
        },
    }
}

impl CodexTurn {
    /// A turn of conversation `key` whose session gave it `action` as its
    /// first request; returns the turn and the line to write first.
    pub fn start(key: String, request: AgentEngineTurnRequest, state: CodexSessionState, action: StartAction) -> (r: (
        CodexTurn,
        String,
    ))
        ensures
            r.0@.key == key@,
            r.0.request == request,
            r.0@.thread == string_opt(state.native_thread_id),
            r.0@.events.len() == 0,
            !r.0@.saw_completion && !r.0@.should_close && r.0@.awaiting is None,
            match action@ {
                StartActionV::OpenThread { request_id, line, is_resume } => {
                    &&& r.0@.pending == Some((request_id, is_resume))
                    &&& !r.0@.sent_turn
                    &&& r.1@ == line
                },
                StartActionV::StartTurn { line } => {
                    &&& r.0@.pending is None
                    &&& r.0@.sent_turn
                    &&& r.1@ == line
                },
            },
    {
        let (pending, sent, line) = match action {
            StartAction::OpenThread { request_id, line, is_resume } => (Some((request_id, is_resume)), false, line),
            StartAction::StartTurn { line } => (None, true, line),
        };
        let t = CodexTurn {
            key,
            request,
            state,
            pending_thread_open: pending,
            sent_turn: sent,
            saw_completion: false,
            should_close: false,
            awaiting: None,
            events: Vec::new(),
        };
        assert(event_views(t.events@) =~= Seq::<ChatEventV>::empty());
        (t, line)
    }

    fn push_event(&mut self, e: ChatEvent)
        ensures
            final(self)@ == (TurnV { events: old(self)@.events.push(e@), ..old(self)@ }),
            final(self).request == old(self).request,
    {
        let ghost before = self.events@;
        self.events.push(e);
        assert(event_views(self.events@) =~= event_views(before).push(e@));
    }

    fn fail(&mut self, message: String)
        ensures
            final(self)@ == failed_with(old(self)@, message@),
            final(self).request == old(self).request,
    {
        self.push_event(ChatEvent::Error { message });
        self.saw_completion = true;
        self.should_close = true;
    }

    /// The first write failed with `error`: the turn ends with that error.
    pub fn start_write_failed(&mut self, error: String)
        ensures
            final(self)@ == failed_with(old(self)@, error@),
            final(self).request == old(self).request,
    {
        self.fail(error);
    }

    /// The checks at the top of each round: a cancelled turn is interrupted,
    /// one that ran longer than the turn timeout fails. Returns whether the
    /// turn stops here.
    pub fn begin_round(&mut self, cancelled: bool, elapsed_ms: u64) -> (stop: bool)
        ensures
            final(self).request == old(self).request,
            cancelled ==> stop && final(self)@ == (TurnV {
                events: old(self)@.events.push(ChatEventV::Interrupted),
                should_close: true,
                ..old(self)@
            }),
            !cancelled && elapsed_ms > CODEX_TURN_TIMEOUT_MS ==> stop && final(self)@ == (TurnV {
                events: old(self)@.events.push(ChatEventV::Error { message: "Codex agent engine turn timed out"@ }),
                should_close: true,
                ..old(self)@
            }),
            !cancelled && elapsed_ms <= CODEX_TURN_TIMEOUT_MS ==> !stop && final(self)@ == old(self)@,
    {
        if cancelled {
            self.push_event(ChatEvent::Interrupted);
            self.should_close = true;
            return true;
        }
        if elapsed_ms > CODEX_TURN_TIMEOUT_MS {
            self.push_event(ChatEvent::Error { message: String::from_str("Codex agent engine turn timed out") });
            self.should_close = true;
            return true;
        }
        false
    }

    /// Reports the answers that reached the session since it last looked.
    pub fn report_human_responses(&mut self, registry: &mut CodexRegistry, now: u64)
        requires
            old(registry).wf(),
        ensures
            final(registry).wf(),
            final(self).request == old(self).request,
            ({
                let (answers, g2) = drained(old(registry)@, old(self)@.key, now);
                &&& final(registry)@ == g2
                &&& final(self)@ == (TurnV {
                    events: old(self)@.events + Seq::new(
                        answers.len(),
                        |i: int| ChatEventV::HumanResponse { request_id: answers[i].0, response: answers[i].1 },
                    ),
                    ..old(self)@
                })
            }),
    {
        let answers = registry.drain_human_responses(self.key.as_str(), now);
        let ghost pv = pair_views(answers@);
        let ghost start = self@;
        let mut i: usize = 0;
        while i < answers.len()
            invariant
                i <= answers.len(),
                pv == pair_views(answers@),
                self.request == old(self).request,
                self@ == (TurnV {
                    events: start.events + Seq::new(
                        i as nat,
                        |j: int| ChatEventV::HumanResponse { request_id: pv[j].0, response: pv[j].1 },
                    ),
                    ..start
                }),
            decreases answers.len() - i,
        {
            let request_id = answers[i].0.clone();
            let response = answers[i].1.clone();
            assert(request_id@ == pv[i as int].0 && response@ == pv[i as int].1);
            self.push_event(ChatEvent::HumanResponse { request_id, response });
            i += 1;
            assert(self@.events =~= start.events + Seq::new(
                i as nat,
                |j: int| ChatEventV::HumanResponse { request_id: pv[j].0, response: pv[j].1 },
            ));
        }
    }

    /// Reading the terminal failed with `error`: the turn ends with it.
    pub fn output_failed(&mut self, error: String)
        ensures
            final(self).request == old(self).request,
            final(self)@ == (TurnV {
                events: old(self)@.events.push(ChatEventV::Error { message: error@ }),
                should_close: true,
                ..old(self)@
            }),
    {
        self.push_event(ChatEvent::Error { message: error });
        self.should_close = true;
    }

    /// The app-server exited or its terminal closed.
    pub fn app_server_exited(&mut self)
        ensures
            final(self).request == old(self).request,
            final(self)@ == (TurnV {
                events: if old(self)@.saw_completion {
                    old(self)@.events
                } else {
                    old(self)@.events.push(
                        ChatEventV::Error { message: "Codex app-server exited before the turn completed"@ },
                    )
                },
                saw_completion: true,
                should_close: true,
                ..old(self)@
            }),
    {
        if !self.saw_completion {
            self.push_event(
                ChatEvent::Error { message: String::from_str("Codex app-server exited before the turn completed") },
            );
        }
        self.saw_completion = true;
        self.should_close = true;
    }

    /// The checks at the end of each round: a thread that did not open
    /// within the startup timeout fails the turn; a completed turn stops.
    /// Returns whether the turn stops here.
    pub fn end_round(&mut self, elapsed_ms: u64) -> (stop: bool)
        ensures
            final(self).request == old(self).request,
            ({
                let t = old(self)@;
                let timed_out = !t.sent_turn && elapsed_ms > CODEX_STARTUP_TIMEOUT_MS && t.pending is Some;
                &&& timed_out ==> stop && final(self)@ == (TurnV {
                    events: t.events.push(
                        ChatEventV::Error { message: "Codex app-server did not open a thread before startup timeout"@ },
                    ),
                    should_close: true,
                    ..t
                })
                &&& !timed_out ==> final(self)@ == t && stop == t.saw_completion
            }),
    {
        if !self.sent_turn && elapsed_ms > CODEX_STARTUP_TIMEOUT_MS && self.pending_thread_open.is_some() {
            self.push_event(
                ChatEvent::Error {
                    message: String::from_str("Codex app-server did not open a thread before startup timeout"),
                },
            );
            self.should_close = true;
            return true;
        }
        self.saw_completion
    }

    /// A write asked for by `on_message` finished, failing with `error` if
    /// any. A failure ends the turn; a written turn request marks the turn sent.
    pub fn after_write(&mut self, error: Option<String>) -> (r: MessageStep)
        ensures
            final(self).request == old(self).request,
            match error {
                Some(e) => final(self)@ == failed_with(TurnV { awaiting: None, ..old(self)@ }, e@)
                    && r is StopBatch,
                None => r is Next && final(self)@ == (TurnV {
                    awaiting: None,
                    sent_turn: old(self)@.sent_turn || old(self)@.awaiting == Some(Awaiting::Turn),
                    ..old(self)@
                }),
            },
    {
        let awaiting = self.awaiting;
        self.awaiting = None;
        match error {
            Some(e) => {
                self.fail(e);
                MessageStep::StopBatch
            },
            None => {
                if awaiting == Some(Awaiting::Turn) {
                    self.sent_turn = true;
                }
                MessageStep::Next
            },
        }
    }

    fn send_turn_now(&mut self, registry: &mut CodexRegistry, now: u64) -> (r: MessageStep)
        requires
            old(registry).wf(),
        ensures
            final(registry).wf(),
            final(self).request == old(self).request,
            (final(self)@, final(registry)@, r@) == send_turn(old(self)@, old(registry)@, now, old(self).request),
    {
        self.pending_thread_open = None;
        match registry.turn_start_for(self.key.as_str(), &self.request, &self.state, now) {
            Some(line) => {
                self.awaiting = Some(Awaiting::Turn);
                proof {
                    assert(crate::protocol::thread_id_or_empty(self.state) == thread_text(self@.thread));
                }
                let ghost g = old(registry)@;
                assert(registry@ == framed(g, old(self)@.key, now));
                MessageStep::Write { line }
            },
            None => {
                self.fail(String::from_str("Codex session registry entry disappeared"));
                MessageStep::StopBatch
            },
        }
    }

    /// Handles one app-server message of the current batch. Returns what
    /// the host does next, and whether the conversation state changed and
    /// is to be saved.
    pub fn on_message(&mut self, registry: &mut CodexRegistry, message: &Json, now: u64) -> (r: (
        MessageStep,
        bool,
    ))
        requires
            old(registry).wf(),
        ensures
            final(registry).wf(),
            final(self).request == old(self).request,
            r.1 == learns_thread(old(self)@.pending, message@),
            !(message_plan(old(self)@.pending, old(self)@.thread, message@) is Ordinary) ==> (
            final(self)@,
            final(registry)@,
            r.0@,
            ) == message_effect(old(self)@, old(registry)@, message@, now, old(self).request, quiet()),
            message_plan(old(self)@.pending, old(self)@.thread, message@) is Ordinary ==> exists|fresh: Seq<char>|
                #[trigger] uuid_v4_text(fresh) && (final(self)@, final(registry)@, r.0@) == message_effect(
                    old(self)@,
                    old(registry)@,
                    message@,
                    now,
                    old(self).request,
                    message_outcome(message@, fresh),
                ),
    {
        let ghost t = self@;
        let ghost g = registry@;
        let ghost m = message@;
        let open = self.pending_thread_open;
        match open {
            Some(p) => {
                let (open_id, is_resume) = p;
                let answers = match response_id_of(message) {
                    Some(id) => id == open_id,
                    None => false,
                };
                if answers {
                    match response_error_of(message) {
                        Some(error) => {
                            if is_resume {
                                match registry.thread_start_for(self.key.as_str(), now) {
                                    Some(framed_start) => {
                                        let (id, line) = framed_start;
                                        self.pending_thread_open = Some((id, false));
                                        self.awaiting = Some(Awaiting::Retry);
                                        assert(registry@ == framed(g, t.key, now));
                                        return (MessageStep::Write { line }, false);
                                    },
                                    None => {
                                        self.fail(String::from_str("Codex session registry entry disappeared"));
                                        return (MessageStep::StopBatch, false);
                                    },
                                }
                            }
                            let text = cat("thread/start failed: ", error.as_str());
                            self.fail(text);
                            return (MessageStep::StopBatch, false);
                        },
                        None => {
                            let mut save = false;
                            match extract_thread_id(message) {
                                Some(tid) => {
                                    self.state.native_thread_id = Some(tid);
                                    save = true;
                                },
                                None => {},
                            }
                            if self.state.native_thread_id.is_none() {
                                return (MessageStep::Next, save);
                            }
                            let step = self.send_turn_now(registry, now);
                            return (step, save);
                        },
                    }
                }
            },
            None => {},
        }
        let mut save = false;
        match extract_thread_id(message) {
            Some(tid) => {
                self.state.native_thread_id = Some(tid);
                save = true;
                if self.pending_thread_open.is_some() {
                    let step = self.send_turn_now(registry, now);
                    return (step, save);
                }
            },
            None => {},
        }
        let mapped = map_app_server_message(message);
        let ghost fresh = choose|fresh: Seq<char>| uuid_v4_text(fresh) && mapped@ == message_outcome(m, fresh);
        match &mapped.human_request {
            Some(h) => {
                registry.register_human_request(
                    self.key.as_str(),
                    h.request_id.as_str(),
                    h.rpc_id.as_str(),
                    h.question_id.as_str(),
                );
            },
            None => {},
        }
        let stop = mapped.completed && mapped.failed;
        match mapped.event {
            Some(e) => self.push_event(e),
            None => {},
        }
        if mapped.completed {
            self.saw_completion = true;
            if mapped.failed {
                self.should_close = true;
            }
        }
        assert(uuid_v4_text(fresh));
        if stop {
            (MessageStep::StopBatch, save)
        } else {
            (MessageStep::Next, save)
        }
    }

    /// Ends the turn: its session is released (closed when the turn asked
    /// for it). Returns the terminal to close, if any, and the turn's events.
    pub fn finish(self, registry: &mut CodexRegistry, now: u64) -> (r: (Option<u64>, Vec<ChatEvent>))
        requires
            old(registry).wf(),
        ensures
            final(registry).wf(),
            final(registry)@ == released(old(registry)@, self@.key, self@.should_close, now),
            r.0 == (if self@.should_close && old(registry)@.sessions.contains_key(self@.key) {
                Some(old(registry)@.sessions[self@.key].pty)
            } else {
                None
            }),
            event_views(r.1@) == self@.events,
    {
        let pty = registry.release(self.key.as_str(), self.should_close, now);
        (pty, self.events)
    }
}


/// What a turn finds before it asks for its session.
pub enum Preflight {
    /// The turn was cancelled before it began: it ends with `events`,
    /// which are not emitted.
    Cancelled { events: Vec<ChatEvent> },
    /// The turn cannot run; `event` says why.
    Fail { event: ChatEvent },
    /// The turn can run with this native library directory, as conversation `key`.
    Ready { native_library_dir: String, key: String },
}

pub open spec fn missing_native_dir_message() -> Seq<char> {
    "missing native_library_dir for Android Codex agent engine"@
}

/// The checks before a turn starts: cancellation first, then the native
/// library directory (from the engine configuration or the registry).
pub fn preflight(cancelled: bool, request: &AgentEngineTurnRequest, registry: &CodexRegistry) -> (r: Preflight)
    requires
        registry.wf(),
    ensures
        cancelled ==> (r matches Preflight::Cancelled { events } && events@.len() == 1
            && events@[0]@ == ChatEventV::Interrupted),
        !cancelled ==> match r {
            Preflight::Cancelled { .. } => false,
            Preflight::Fail { event } => event@ == ChatEventV::Error { message: missing_native_dir_message() }
                && crate::json::as_str_opt(crate::json::get(request.engine_config@, "native_library_dir"@)) is None
                && !registry@.native_dirs.contains_key(request.files_dir@),
            Preflight::Ready { native_library_dir, key } => {
                &&& key@ == crate::state::session_key_text(
                    request.account_id@,
                    request.agent_id@,
                    request.session_key_json@,
                )
                &&& match crate::json::as_str_opt(crate::json::get(request.engine_config@, "native_library_dir"@)) {
                    Some(d) => native_library_dir@ == d,
                    None => registry@.native_dirs.contains_key(request.files_dir@)
                        && registry@.native_dirs[request.files_dir@] == native_library_dir@,
                }
            },
        },
{
    if cancelled {
        return Preflight::Cancelled { events: vec![ChatEvent::Interrupted] };
    }
    match crate::state::resolve_native_library_dir(request, registry) {
        Some(native_library_dir) => Preflight::Ready {
            native_library_dir,
            key: crate::state::session_key(request),
        },
        None => Preflight::Fail {
            event: ChatEvent::Error {
                message: String::from_str("missing native_library_dir for Android Codex agent engine"),
            },
        },
    }
}

/// The error of a turn whose session already runs one.
pub fn busy_event() -> (r: ChatEvent)
    ensures
        r@ == (ChatEventV::Error { message: crate::registry::busy_message() }),
{
    ChatEvent::Error { message: String::from_str("Codex agent engine session already has an active turn") }
}

/// The events of a turn where the Codex engine cannot run: one error.
pub fn unsupported_turn() -> (r: Vec<ChatEvent>)
    ensures
        event_views(r@) == seq![ChatEventV::Error { message: unsupported_message() }],
{
    let r = vec![ChatEvent::Error { message: String::from_str("napaxi.agent_engine.codex is unsupported on this platform") }];
    assert(event_views(r@) =~= seq![ChatEventV::Error { message: unsupported_message() }]);
    r
}


/// An app-server that acknowledges the thread request without the thread's
/// id, when none is known yet, makes the turn wait: nothing is reported,
/// written or ended until the id comes.
pub proof fn law_waits_for_thread_id(
    t: TurnV,
    g: RegistryV,
    m: JsonV,
    now: u64,
    request: AgentEngineTurnRequest,
    o: OutcomeV,
)
    requires
        answers_open(t.pending, m),
        response_error(m) is None,
        thread_id_in(m) is None,
        t.thread is None,
    ensures
        message_effect(t, g, m, now, request, o) == (t, g, MessageStepV::Next),
{
}

/// A resume of a remembered thread that the app-server refuses falls back
/// to a new thread: a `thread/start` request is framed with the session's
/// next id and awaited, and nothing is reported.
pub proof fn law_refused_resume_starts_new_thread(
    t: TurnV,
    g: RegistryV,
    m: JsonV,
    now: u64,
    request: AgentEngineTurnRequest,
    o: OutcomeV,
    open_id: u64,
)
    requires
        t.pending == Some((open_id, true)),
        response_id(m) == Some(open_id),
        response_error(m) is Some,
        g.sessions.contains_key(t.key),
    ensures
        ({
            let (t2, g2, step) = message_effect(t, g, m, now, request, o);
            let id = g.sessions[t.key].next_id;
            &&& step == (MessageStepV::Write { line: start_line(id) })
            &&& t2.pending == Some((id, false))
            &&& t2.events == t.events
            &&& t2.saw_completion == t.saw_completion
            &&& g2.sessions[t.key].next_id == next_after(id)
        }),
{
}

/// A turn request is only ever framed once the conversation's thread id is known.
pub proof fn law_turn_needs_thread(
    t: TurnV,
    g: RegistryV,
    m: JsonV,
    now: u64,
    request: AgentEngineTurnRequest,
    o: OutcomeV,
)
    ensures
        ({
            let (t2, g2, step) = message_effect(t, g, m, now, request, o);
            step is Write && t2.awaiting == Some(Awaiting::Turn) ==> t2.thread is Some
        }),
{
}


/// A message that stops the batch always ends the turn and closes its
/// app-server: the turn is complete and its session is to be closed.
pub proof fn law_stop_ends_and_closes(
    t: TurnV,
    g: RegistryV,
    m: JsonV,
    now: u64,
    request: AgentEngineTurnRequest,
    o: OutcomeV,
)
    ensures
        ({
            let (t2, g2, step) = message_effect(t, g, m, now, request, o);
            step is StopBatch ==> t2.saw_completion && t2.should_close
        }),
{
}

} // verus!
