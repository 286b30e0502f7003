//! Decisions of the project API that do not need its storage.
use vstd::prelude::*;
use crate::json::{as_str_opt, get, views, Json, JsonV};

verus! {

/// The files directory of an engine handle, or the error for a handle without one.
pub fn files_dir(found: Option<String>) -> (r: Result<String, String>)
    ensures
        match found {
            Some(d) => r matches Ok(x) && x@ == d@,
            None => r matches Err(e) && e@ == "invalid engine handle"@,
        },
{
    match found {
        Some(d) => Ok(d),
        None => Err(String::from_str("invalid engine handle")),
    }
}

/// Whether an active run belongs to thread `thread_id`.
pub open spec fn run_of_thread(run: JsonV, thread_id: Seq<char>) -> bool {
    as_str_opt(get(run, "threadId"@)) == Some(thread_id)
}

/// Whether one of the runs belongs to thread `thread_id`.
pub open spec fn any_run_of_thread(runs: Seq<JsonV>, thread_id: Seq<char>) -> bool {
    exists|i: int| 0 <= i < runs.len() && run_of_thread(#[trigger] runs[i], thread_id)
}

/// Whether a session has an active run: its thread (when its key could be
/// read) is the `threadId` of one of the active runs (when they could be read).
pub open spec fn session_active(thread_id: Option<Seq<char>>, runs: Option<Seq<JsonV>>) -> bool {
    match thread_id {
        Some(t) => match runs {
            Some(rs) => any_run_of_thread(rs, t),
            None => false,
        },
        None => false,
    }
}

pub fn session_is_active(thread_id: Option<&str>, runs: Option<&Vec<Json>>) -> (r: bool)
    ensures
        r == session_active(
            match thread_id {
                Some(t) => Some(t@),
                None => None,
            },
            match runs {
                Some(rs) => Some(views(rs@)),
                None => None,
            },
        ),
{
    let (t, rs) = match (thread_id, runs) {
        (Some(t), Some(rs)) => (t, rs),
        _ => {
            return false;
        },
    };
    let ghost vs = views(rs@);
    let mut i: usize = 0;
    while i < rs.len()
        invariant
            i <= rs.len(),
            vs == views(rs@),
            thread_id matches Some(x) && x@ == t@,
            runs matches Some(x) && views(x@) == vs,
            forall|j: int| 0 <= j < i ==> !run_of_thread(#[trigger] vs[j], t@),
        decreases rs.len() - i,
    {
        assert(vs[i as int] == rs@[i as int]@);
        let hit = match rs[i].get("threadId") {
            Some(x) => match x.as_str() {
                Some(s) => crate::text::same_text(s.as_str(), t),
                None => false,
            },
            None => false,
        };
        if hit {
            assert(run_of_thread(vs[i as int], t@));
            assert(0 <= (i as int) < vs.len());
            assert(any_run_of_thread(vs, t@));
            return true;
        }
        i += 1;
    }
    false
}

} // verus!
