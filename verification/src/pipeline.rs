//! The run-level decisions: how far back a window reaches, whether the
//! remote API alone can cover it, and the final combination of all sources.

use vstd::prelude::*;
use crate::event::Event;
use crate::merge::{merge_events, spec_merge};

verus! {

/// The remote event API serves at most this many days of history.
pub const API_HORIZON_DAYS: i64 = 90;

/// Seconds in one day.
pub const SECONDS_PER_DAY: i64 = 86400;

/// How a window is covered: by the API alone, or by the API down to its
/// horizon with mined commit history for the full window.
#[derive(Debug, Clone, Copy, PartialEq, Eq, Structural)]
pub enum FetchPlan {
    /// The window fits the API's horizon; one cutoff covers everything.
    ApiOnly { cutoff: i64 },
    /// The window exceeds the horizon. The API is walked down to the
    /// horizon only; local history is mined down to the requested cutoff.
    ApiAndGit { api_cutoff: i64, git_cutoff: i64 },
}

/// Decide how a window of `days` days ending at `now` (seconds since the
/// Unix epoch) is covered.
pub fn plan_fetch(now: i64, days: i64) -> (r: FetchPlan)
    requires
        0 <= days,
        days * SECONDS_PER_DAY <= i64::MAX,
        now - days * SECONDS_PER_DAY >= i64::MIN,
        now - API_HORIZON_DAYS * SECONDS_PER_DAY >= i64::MIN,
    ensures
        r == if days <= API_HORIZON_DAYS {
            FetchPlan::ApiOnly { cutoff: (now - days * SECONDS_PER_DAY) as i64 }
        } else {
            FetchPlan::ApiAndGit {
                api_cutoff: (now - API_HORIZON_DAYS * SECONDS_PER_DAY) as i64,
                git_cutoff: (now - days * SECONDS_PER_DAY) as i64,
            }
        },
{
    if days <= API_HORIZON_DAYS {
        FetchPlan::ApiOnly { cutoff: now - days * SECONDS_PER_DAY }
    } else {
        FetchPlan::ApiAndGit {
            api_cutoff: now - API_HORIZON_DAYS * SECONDS_PER_DAY,
            git_cutoff: now - days * SECONDS_PER_DAY,
        }
    }
}

/// Combine API-derived and mined events into the final sequence: one merge
/// over the concatenation, deduplicated and filtered at the requested
/// cutoff.
pub fn aggregate_events(api_events: Vec<Event>, mined_events: Vec<Event>, cutoff: i64) -> (r:
    Vec<Event>)
    ensures
        r@ == spec_merge(api_events@ + mined_events@, cutoff as int),
{
    let mut all = api_events;
    let mut mined = mined_events;
    all.append(&mut mined);
    merge_events(&all, cutoff)
}

} // verus!
