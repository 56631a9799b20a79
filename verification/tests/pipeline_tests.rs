use wiwo::collector::{append_source, endpoint_url, resolve_username, select_endpoints,
    EndpointKind, UsernameError};
use wiwo::event::{Event, Repository};
use wiwo::pipeline::{aggregate_events, plan_fetch, FetchPlan, API_HORIZON_DAYS,
    SECONDS_PER_DAY};

fn ev(ts: i64, kind: &str, repo_name: &str) -> Event {
    Event {
        event_type: kind.to_string(),
        created_at: ts,
        repo: Repository {
            name: repo_name.to_string(),
            html_url: String::new(),
            private: None,
            clone_url: String::new(),
            fork: false,
        },
    }
}

#[test]
fn endpoints_without_credential() {
    let eps = select_endpoints(false);
    assert_eq!(eps, vec![EndpointKind::PublicEvents]);
}

#[test]
fn endpoints_with_credential() {
    let eps = select_endpoints(true);
    assert_eq!(eps, vec![EndpointKind::PublicEvents, EndpointKind::AllEvents]);
}

#[test]
fn endpoint_addresses() {
    assert_eq!(
        endpoint_url(&EndpointKind::PublicEvents, "alice"),
        "https://api.github.com/users/alice/events/public"
    );
    assert_eq!(
        endpoint_url(&EndpointKind::AllEvents, "alice"),
        "https://api.github.com/users/alice/events"
    );
}

#[test]
fn username_argument_wins() {
    let r = resolve_username(Some("alice".to_string()), Some("bob".to_string()));
    assert_eq!(r, Ok("alice".to_string()));
}

#[test]
fn username_falls_back_to_identity() {
    let r = resolve_username(None, Some("bob".to_string()));
    assert_eq!(r, Ok("bob".to_string()));
}

#[test]
fn no_username_is_fatal() {
    let r = resolve_username(None, None);
    assert_eq!(r, Err(UsernameError::NoUsername));
}

#[test]
fn failed_source_contributes_nothing() {
    let mut all = vec![ev(1, "PushEvent", "a/x")];
    append_source(&mut all, true, vec![ev(2, "PushEvent", "a/y")]);
    assert_eq!(all.len(), 1);
    append_source(&mut all, false, vec![ev(2, "PushEvent", "a/y")]);
    assert_eq!(all.len(), 2);
}

#[test]
fn short_window_uses_api_alone() {
    let now = 1_700_000_000;
    let plan = plan_fetch(now, 30);
    assert_eq!(plan, FetchPlan::ApiOnly { cutoff: now - 30 * SECONDS_PER_DAY });
}

#[test]
fn window_at_horizon_uses_api_alone() {
    let now = 1_700_000_000;
    let plan = plan_fetch(now, API_HORIZON_DAYS);
    assert_eq!(plan, FetchPlan::ApiOnly { cutoff: now - 90 * SECONDS_PER_DAY });
}

#[test]
fn long_window_adds_git_history() {
    // a 120-day window exceeds the 90-day horizon: the API covers the
    // recent part only, mined history reaches the requested cutoff
    let now = 1_700_000_000;
    let plan = plan_fetch(now, 120);
    assert_eq!(
        plan,
        FetchPlan::ApiAndGit {
            api_cutoff: now - 90 * SECONDS_PER_DAY,
            git_cutoff: now - 120 * SECONDS_PER_DAY,
        }
    );
}

#[test]
fn overlapping_endpoints_yield_one_copy() {
    // a 30-day window, two endpoints: one public event appears identically
    // on both streams and must come out exactly once
    let now = 1_700_000_000;
    let plan = plan_fetch(now, 30);
    let cutoff = match plan {
        FetchPlan::ApiOnly { cutoff } => cutoff,
        FetchPlan::ApiAndGit { .. } => panic!("a 30-day window needs no git history"),
    };
    let shared_ts = now - SECONDS_PER_DAY;
    let public_page = vec![ev(shared_ts, "PushEvent", "alice/proj")];
    let combined_page = vec![
        ev(shared_ts, "PushEvent", "alice/proj"),
        ev(now - 2 * SECONDS_PER_DAY, "IssueCommentEvent", "alice/private"),
    ];
    let mut all: Vec<Event> = Vec::new();
    append_source(&mut all, false, public_page);
    append_source(&mut all, false, combined_page);
    let merged = aggregate_events(all, Vec::new(), cutoff);
    assert_eq!(merged.len(), 2);
    assert_eq!(merged[0].created_at, shared_ts);
    assert_eq!(merged[0].event_type, "PushEvent");
    assert_eq!(merged[1].event_type, "IssueCommentEvent");
}

#[test]
fn long_window_merges_api_and_mined_events() {
    // a 120-day window: API events and commit-mined events end up in one
    // deduplicated sequence, filtered at the requested cutoff
    let now = 1_700_000_000;
    let plan = plan_fetch(now, 120);
    let (api_cutoff, git_cutoff) = match plan {
        FetchPlan::ApiAndGit { api_cutoff, git_cutoff } => (api_cutoff, git_cutoff),
        FetchPlan::ApiOnly { .. } => panic!("a 120-day window exceeds the horizon"),
    };
    let api_events = vec![
        ev(api_cutoff + 10, "PushEvent", "alice/proj"),
        ev(now - SECONDS_PER_DAY, "Push", "alice/proj"),
    ];
    let mined_events = vec![
        // the same commit as the API already reported
        ev(now - SECONDS_PER_DAY, "Push", "alice/proj"),
        // an old commit only git history can reach
        ev(git_cutoff + 5, "Push", "alice/proj"),
        // older than the requested window: dropped
        ev(git_cutoff - 5, "Push", "alice/proj"),
    ];
    let merged = aggregate_events(api_events, mined_events, git_cutoff);
    let stamps: Vec<i64> = merged.iter().map(|e| e.created_at).collect();
    assert_eq!(stamps, vec![now - SECONDS_PER_DAY, api_cutoff + 10, git_cutoff + 5]);
    // both origins are present, the shared commit exactly once
    assert_eq!(merged[0].event_type, "Push");
    assert_eq!(merged[1].event_type, "PushEvent");
}
