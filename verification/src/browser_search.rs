//! A web search run in the host's browser, as a machine that the host
//! drives: it names each browser tool call to make and reads each output.
use vstd::prelude::*;
use crate::json::{num_u64, obj1, obj2, obj3, views, view_opt, Json, JsonV, NumV};
use crate::search_tool::{browser_search_type_attempts, type_attempts};
use crate::search_url::{bing_search_page_url, browser_bing_search_page_url};
use crate::web_search::{
    browser_observation_diagnostics, browser_results, host_tool_error, observation_diagnostics,
    parse_browser_search_results, result_views, tool_error, ResultV, SearchResult,
};

verus! {

/// The browser tools a search uses.
pub enum BrowserTool {
    Open,
    Wait,
    Type,
    Snapshot,
}

/// A browser tool call for the host to make.
pub struct HostCall {
    pub tool: BrowserTool,
    pub params: Json,
}

/// Where a search stands: which output it waits for.
#[derive(PartialEq, Eq, Structural, Clone, Copy)]
pub enum Phase {
    Opening,
    Settling,
    Typing { attempt: usize },
    Polling { attempt: usize, round: usize },
    Snapshotting { attempt: usize },
    Finished,
}

/// A browser search in progress.
pub struct BrowserSearch {
    query: String,
    count: usize,
    attempts: Vec<Json>,
    phase: Phase,
    last_type_error: Option<String>,
}

pub struct SearchV {
    pub query: Seq<char>,
    pub count: nat,
    pub phase: Phase,
    pub last_type_error: Option<Seq<char>>,
}

impl View for BrowserSearch {
    type V = SearchV;

    closed spec fn view(&self) -> SearchV {
        SearchV {
            query: self.query@,
            count: self.count as nat,
            phase: self.phase,
            last_type_error: crate::json::string_opt(self.last_type_error),
        }
    }
}

/// What the host does next.
pub enum SearchStep {
    /// Make this call and hand its output to `on_output`.
    Call(HostCall),
    /// The search is over.
    Done(Result<Vec<SearchResult>, String>),
}

pub enum StepV {
    Call { tool: BrowserTool, params: JsonV },
    Done(Result<Seq<ResultV>, Seq<char>>),
}

impl View for SearchStep {
    type V = StepV;

    open spec fn view(&self) -> StepV {
        match self {
            SearchStep::Call(c) => StepV::Call { tool: c.tool, params: c.params@ },
            SearchStep::Done(Ok(rs)) => StepV::Done(Ok(result_views(rs@))),
            SearchStep::Done(Err(e)) => StepV::Done(Err(e@)),
        }
    }
}

pub open spec fn wait_params(ms: u64) -> JsonV {
    JsonV::Obj(seq![("milliseconds"@, JsonV::Num(NumV::PosInt(ms))), ("screenshot_mode"@, JsonV::Str("never"@))])
}

pub open spec fn open_params(language: Seq<char>, freshness: Seq<char>) -> JsonV {
    JsonV::Obj(
        seq![
            ("force_reload"@, JsonV::Bool(true)),
            ("mode"@, JsonV::Str("mobile"@)),
            ("url"@, JsonV::Str(bing_search_page_url(language, freshness))),
        ],
    )
}

pub open spec fn snapshot_params() -> JsonV {
    JsonV::Obj(seq![("screenshot_mode"@, JsonV::Str("never"@))])
}

/// How long each round of waiting for results lasts, in milliseconds.
pub open spec fn poll_ms(round: int) -> u64 {
    if round == 0 {
        800
    } else if round == 1 {
        1500
    } else if round == 2 {
        2500
    } else {
        3500
    }
}

pub open spec fn field_not_found() -> Seq<char> {
    "browser search field was not found"@
}

/// After typing attempt `a` gave nothing: the next attempt, or the end of
/// the search with the last typing error.
pub open spec fn after_attempt(s: SearchV, a: int, err: Option<Seq<char>>) -> (SearchV, StepV) {
    let s2 = SearchV { last_type_error: err, ..s };
    if a + 1 < type_attempts(s.query).len() {
        (
            SearchV { phase: Phase::Typing { attempt: (a + 1) as usize }, ..s2 },
            StepV::Call { tool: BrowserTool::Type, params: type_attempts(s.query)[a + 1] },
        )
    } else {
        (
            SearchV { phase: Phase::Finished, ..s2 },
            StepV::Done(
                Err(
                    match err {
                        Some(e) => e,
                        None => field_not_found(),
                    },
                ),
            ),
        )
    }
}

/// What the search does with the output of the call it waited for.
pub open spec fn search_step(s: SearchV, parsed: Option<JsonV>) -> (SearchV, StepV) {
    let rs = browser_results(parsed, s.count);
    match s.phase {
        Phase::Opening => (
            SearchV { phase: Phase::Settling, ..s },
            StepV::Call { tool: BrowserTool::Wait, params: wait_params(1500) },
        ),
        Phase::Settling => (
            SearchV { phase: Phase::Typing { attempt: 0 }, ..s },
            StepV::Call { tool: BrowserTool::Type, params: type_attempts(s.query)[0] },
        ),
        Phase::Typing { attempt } => match tool_error(parsed) {
            Some(e) => after_attempt(s, attempt as int, Some(e)),
            None => if rs.len() > 0 {
                (SearchV { phase: Phase::Finished, ..s }, StepV::Done(Ok(rs)))
            } else {
                (
                    SearchV { phase: Phase::Polling { attempt, round: 0 }, ..s },
                    StepV::Call { tool: BrowserTool::Wait, params: wait_params(poll_ms(0)) },
                )
            },
        },
        Phase::Polling { attempt, round } => if rs.len() > 0 {
            (SearchV { phase: Phase::Finished, ..s }, StepV::Done(Ok(rs)))
        } else if round < 3 {
            (
                SearchV { phase: Phase::Polling { attempt, round: (round + 1) as usize }, ..s },
                StepV::Call { tool: BrowserTool::Wait, params: wait_params(poll_ms(round + 1)) },
            )
        } else {
            (
                SearchV { phase: Phase::Snapshotting { attempt }, ..s },
                StepV::Call { tool: BrowserTool::Snapshot, params: snapshot_params() },
            )
        },
        Phase::Snapshotting { attempt } => if rs.len() > 0 {
            (SearchV { phase: Phase::Finished, ..s }, StepV::Done(Ok(rs)))
        } else {
            after_attempt(
                s,
                attempt as int,
                Some(
                    "browser search submitted but no parseable result links were found ("@
                        + observation_diagnostics(parsed) + ")"@,
                ),
            )
        },
        Phase::Finished => (s, StepV::Done(Err("browser search already finished"@))),
    }
}

pub open spec fn phase_ok(p: Phase) -> bool {
    match p {
        Phase::Typing { attempt } => attempt < 6,
        Phase::Polling { attempt, round } => attempt < 6 && round <= 3,
        Phase::Snapshotting { attempt } => attempt < 6,
        _ => true,
    }
}

fn wait_call(ms: u64) -> (r: HostCall)
    ensures
        r.tool is Wait,
        r.params@ == wait_params(ms),
{
    HostCall {
        tool: BrowserTool::Wait,
        params: obj2("milliseconds", num_u64(ms), "screenshot_mode", Json::string("never")),
    }
}

fn poll_wait(round: usize) -> (r: u64)
    ensures
        r == poll_ms(round as int),
{
    if round == 0 {
        800
    } else if round == 1 {
        1500
    } else if round == 2 {
        2500
    } else {
        3500
    }
}

impl BrowserSearch {
    pub closed spec fn wf(&self) -> bool {
        &&& views(self.attempts@) == type_attempts(self.query@)
        &&& phase_ok(self.phase)
    }

    /// Starts a search for `query`, keeping at most `count` results: the
    /// first call opens Bing's home page in the mobile browser, in `language`
    /// and with the time filter of `freshness`.
    pub fn start(query: &str, count: usize, language: &str, freshness: &str) -> (r: (BrowserSearch, HostCall))
        ensures
            r.0.wf(),
            r.0@ == (SearchV { query: query@, count: count as nat, phase: Phase::Opening, last_type_error: None }),
            r.1.tool is Open,
            r.1.params@ == open_params(language@, freshness@),
    {
        let url = browser_bing_search_page_url(language, freshness);
        let params = obj3(
            "force_reload",
            Json::Bool(true),
            "mode",
            Json::string("mobile"),
            "url",
            Json::string(url.as_str()),
        );
        let s = BrowserSearch {
            query: String::from_str(query),
            count,
            attempts: browser_search_type_attempts(query),
            phase: Phase::Opening,
            last_type_error: None,
        };
        (s, HostCall { tool: BrowserTool::Open, params })
    }

    fn next_attempt(&mut self, attempt: usize, err: Option<String>) -> (r: SearchStep)
        requires
            old(self).wf(),
            attempt < 6,
        ensures
            final(self).wf(),
            (final(self)@, r@) == after_attempt(old(self)@, attempt as int, crate::json::string_opt(err)),
    {
        assert(views(self.attempts@).len() == self.attempts@.len());
        assert(self.attempts.len() == 6);
        self.last_type_error = err;
        if attempt + 1 < self.attempts.len() {
            self.phase = Phase::Typing { attempt: attempt + 1 };
            let params = self.attempts[attempt + 1].copy();
            assert(views(self.attempts@)[attempt + 1] == self.attempts@[attempt + 1]@);
            SearchStep::Call(HostCall { tool: BrowserTool::Type, params })
        } else {
            self.phase = Phase::Finished;
            let e = match &self.last_type_error {
                Some(e) => e.clone(),
                None => String::from_str("browser search field was not found"),
            };
            SearchStep::Done(Err(e))
        }
    }

    /// Reads the output of the call the search waited for (`None` when it
    /// was not JSON) and says what comes next.
    pub fn on_output(&mut self, parsed: Option<&Json>) -> (r: SearchStep)
        requires
            old(self).wf(),
        ensures
            final(self).wf(),
            (final(self)@, r@) == search_step(old(self)@, view_opt(parsed)),
    {
        assert(views(self.attempts@).len() == self.attempts@.len());
        assert(self.attempts.len() == 6);
        let phase = self.phase;
        match phase {
            Phase::Opening => {
                self.phase = Phase::Settling;
                SearchStep::Call(wait_call(1500))
            },
            Phase::Settling => {
                self.phase = Phase::Typing { attempt: 0 };
                let params = self.attempts[0].copy();
                assert(views(self.attempts@)[0] == self.attempts@[0]@);
                SearchStep::Call(HostCall { tool: BrowserTool::Type, params })
            },
            Phase::Typing { attempt } => match host_tool_error(parsed) {
                Some(e) => self.next_attempt(attempt, Some(e)),
                None => {
                    let rs = parse_browser_search_results(parsed, self.count);
                    if rs.len() > 0 {
                        self.phase = Phase::Finished;
                        SearchStep::Done(Ok(rs))
                    } else {
                        self.phase = Phase::Polling { attempt, round: 0 };
                        SearchStep::Call(wait_call(800))
                    }
                },
            },
            Phase::Polling { attempt, round } => {
                let rs = parse_browser_search_results(parsed, self.count);
                if rs.len() > 0 {
                    self.phase = Phase::Finished;
                    SearchStep::Done(Ok(rs))
                } else if round < 3 {
                    self.phase = Phase::Polling { attempt, round: round + 1 };
                    SearchStep::Call(wait_call(poll_wait(round + 1)))
                } else {
                    self.phase = Phase::Snapshotting { attempt };
                    SearchStep::Call(
                        HostCall { tool: BrowserTool::Snapshot, params: obj1("screenshot_mode", Json::string("never")) },
                    )
                }
            },
            Phase::Snapshotting { attempt } => {
                let rs = parse_browser_search_results(parsed, self.count);
                if rs.len() > 0 {
                    self.phase = Phase::Finished;
                    SearchStep::Done(Ok(rs))
                } else {
                    let diag = browser_observation_diagnostics(parsed);
                    let a = crate::history::cat(
                        "browser search submitted but no parseable result links were found (",
                        diag.as_str(),
                    );
                    let e = crate::history::cat(a.as_str(), ")");
                    self.next_attempt(attempt, Some(e))
                }
            },
            Phase::Finished => SearchStep::Done(Err(String::from_str("browser search already finished"))),
        }
    }

    /// A browser call failed with `error`: the search ends with it.
    pub fn on_call_failed(&mut self, error: String) -> (r: SearchStep)
        ensures
            final(self)@ == (SearchV { phase: Phase::Finished, ..old(self)@ }),
            r@ == StepV::Done(Err(error@)),
    {
        self.phase = Phase::Finished;
        SearchStep::Done(Err(error))
    }
}

} // verus!
