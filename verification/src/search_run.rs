//! A run of the web search tool: a fresh cached answer when there is one,
//! else a browser search whose answer is then cached.
use vstd::prelude::*;
use crate::browser_search::{open_params, BrowserSearch, BrowserTool, HostCall, Phase, SearchV};
use crate::json::{Json, JsonV};
use crate::search_cache::{
    cache_wf, law_answer_outlives_other_stores, lemma_lookup_wf, lookup, run_ops, stale, store, CacheOp,
    SearchCache, CACHE_MAX_ENTRIES,
};
use crate::search_tool::{
    answer_search, cache_key, cache_key_text, no_bridge_error, no_bridge_message, read_search_request,
    search_answer, search_request,
};
use crate::web_search::{result_views, ResultV, SearchResult};

verus! {

/// How a run of the tool begins.
pub enum RunStart {
    /// The tool answers at once.
    Answered(Result<String, String>),
    /// A browser search is needed: make `call`, drive `search` to its end,
    /// and hand its outcome to `finish_web_search` with `key` and `query`.
    Search { key: String, query: String, search: BrowserSearch, call: HostCall },
}

pub enum RunStartV {
    Answered(Result<Seq<char>, Seq<char>>),
    Search { key: Seq<char>, query: Seq<char>, search: SearchV, tool: BrowserTool, params: JsonV },
}

impl View for RunStart {
    type V = RunStartV;

    open spec fn view(&self) -> RunStartV {
        match self {
            RunStart::Answered(Ok(b)) => RunStartV::Answered(Ok(b@)),
            RunStart::Answered(Err(e)) => RunStartV::Answered(Err(e@)),
            RunStart::Search { key, query, search, call } => RunStartV::Search {
                key: key@,
                query: query@,
                search: search@,
                tool: call.tool,
                params: call.params@,
            },
        }
    }
}

/// The cache key of the search that `params` ask for.
pub open spec fn request_key(params: JsonV) -> Seq<char> {
    match search_request(params) {
        Ok(q) => cache_key_text(q.0, q.1, q.2, q.3, "browser"@),
        Err(_) => Seq::empty(),
    }
}

/// How a run with `params` begins on cache `c` at `now`, and the cache
/// after: a request without a query is refused; a fresh cached answer is
/// given at once; else, with a browser, a search opens Bing in the asked
/// language with the asked time filter, and without one the run fails.
pub open spec fn run_start(c: crate::search_cache::CacheV, params: JsonV, has_browser: bool, now: u64) -> (
    RunStartV,
    crate::search_cache::CacheV,
) {
    match search_request(params) {
        Err(e) => (RunStartV::Answered(Err(e)), c),
        Ok(q) => {
            let key = cache_key_text(q.0, q.1, q.2, q.3, "browser"@);
            let found = lookup(c, key, now);
            match found.0 {
                Some(b) => (RunStartV::Answered(Ok(b)), found.1),
                None => if has_browser {
                    (
                        RunStartV::Search {
                            key,
                            query: q.0,
                            search: SearchV { query: q.0, count: q.1, phase: Phase::Opening, last_type_error: None },
                            tool: BrowserTool::Open,
                            params: open_params(q.2, q.3),
                        },
                        found.1,
                    )
                } else {
                    (RunStartV::Answered(Err(no_bridge_message())), found.1)
                },
            }
        },
    }
}

/// How a run ends once its search is over, and the cache after: a
/// successful answer is stored under the run's key.
pub open spec fn run_finish(
    c: crate::search_cache::CacheV,
    key: Seq<char>,
    query: Seq<char>,
    outcome: Result<Seq<ResultV>, Seq<char>>,
    now: u64,
) -> (Result<Seq<char>, Seq<char>>, crate::search_cache::CacheV) {
    let a = search_answer(query, outcome);
    match a {
        Ok(b) => (a, store(c, key, b, now)),
        Err(_) => (a, c),
    }
}

pub open spec fn outcome_view(outcome: Result<Vec<SearchResult>, String>) -> Result<Seq<ResultV>, Seq<char>> {
    match outcome {
        Ok(rs) => Ok(result_views(rs@)),
        Err(e) => Err(e@),
    }
}

/// Begins a run of the tool with `params` at `now`; `has_browser` says
/// whether the host has a browser bridge.
pub fn start_web_search(cache: &mut SearchCache, params: &Json, has_browser: bool, now: u64) -> (r: RunStart)
    requires
        old(cache).wf(),
    ensures
        final(cache).wf(),
        (r@, final(cache)@) == run_start(old(cache)@, params@, has_browser, now),
        r matches RunStart::Search { search, .. } ==> search.wf(),
{
    let request = match read_search_request(params) {
        Ok(q) => q,
        Err(e) => {
            return RunStart::Answered(Err(e));
        },
    };
    let key = cache_key(
        request.query.as_str(),
        request.count,
        request.language.as_str(),
        request.freshness.as_str(),
        "browser",
    );
    proof {
        reveal_strlit("browser");
    }
    match cache.cache_get(key.as_str(), now) {
        Some(b) => RunStart::Answered(Ok(b)),
        None => {
            if has_browser {
                let (search, call) = BrowserSearch::start(
                    request.query.as_str(),
                    request.count,
                    request.language.as_str(),
                    request.freshness.as_str(),
                );
                RunStart::Search { key, query: request.query, search, call }
            } else {
                RunStart::Answered(Err(no_bridge_error()))
            }
        },
    }
}

/// Ends a run whose browser search gave `outcome`: the tool's answer, which
/// is cached under `key` when it is one.
pub fn finish_web_search(
    cache: &mut SearchCache,
    key: String,
    query: &str,
    outcome: Result<Vec<SearchResult>, String>,
    now: u64,
) -> (r: Result<String, String>)
    requires
        old(cache).wf(),
    ensures
        final(cache).wf(),
        (
            match r {
                Ok(b) => Ok::<Seq<char>, Seq<char>>(b@),
                Err(e) => Err::<Seq<char>, Seq<char>>(e@),
            },
            final(cache)@,
        ) == run_finish(old(cache)@, key@, query@, outcome_view(outcome), now),
{
    let ghost ov = outcome_view(outcome);
    let r = answer_search(query, outcome);
    match r {
        Ok(b) => {
            cache.cache_put(key, b.clone(), now);
            Ok(b)
        },
        Err(e) => Err(e),
    }
}

/// A run that missed the cache and whose search was answered leaves an
/// answer that a later run of the same search (the same trimmed query,
/// count, language and freshness) is given at once, with or without a
/// browser, while it is not stale: whatever other keys were looked up in
/// between, and whatever keys were stored in between, when those are fewer
/// than 64 others.
pub proof fn law_answer_is_reused(
    c: crate::search_cache::CacheV,
    params: JsonV,
    has_browser: bool,
    t0: u64,
    outcome: Result<Seq<ResultV>, Seq<char>>,
    body: Seq<char>,
    t1: u64,
    ops: Seq<CacheOp>,
    others: Set<Seq<char>>,
    params2: JsonV,
    has_browser2: bool,
    later: u64,
)
    requires
        cache_wf(c),
        run_start(c, params, has_browser, t0).0 is Search,
        search_answer(search_request(params)->Ok_0.0, outcome) == Ok::<Seq<char>, Seq<char>>(body),
        others.finite(),
        others.len() < CACHE_MAX_ENTRIES,
        !others.contains(request_key(params)),
        forall|i: int| 0 <= i < ops.len() ==> match #[trigger] ops[i] {
            CacheOp::Put { key: k, .. } => others.contains(k),
            CacheOp::Get { key: k, now } => k == request_key(params) ==> !stale(t1, now),
        },
        search_request(params2) == search_request(params),
        !stale(t1, later),
    ensures
        run_start(
            run_ops(
                run_finish(
                    run_start(c, params, has_browser, t0).1,
                    request_key(params),
                    search_request(params)->Ok_0.0,
                    outcome,
                    t1,
                ).1,
                ops,
            ),
            params2,
            has_browser2,
            later,
        ).0 == RunStartV::Answered(Ok::<Seq<char>, Seq<char>>(body)),
{
    let key = request_key(params);
    let c1 = run_start(c, params, has_browser, t0).1;
    lemma_lookup_wf(c, key, t0);
    assert(c1 == lookup(c, key, t0).1);
    assert(!c1.entries.contains_key(key));
    law_answer_outlives_other_stores(c1, key, body, t1, ops, others, later);
}

} // verus!
