use wiwo::event::{Event, Repository};
use wiwo::paginator::{PageOutcome, Paginator, PaginatorAction};

fn ev(ts: i64) -> Event {
    Event {
        event_type: "PushEvent".to_string(),
        created_at: ts,
        repo: Repository {
            name: "a/x".to_string(),
            html_url: String::new(),
            private: None,
            clone_url: String::new(),
            fork: false,
        },
    }
}

#[test]
fn rate_limit_waits_out_the_reset() {
    // reset five seconds in the future: the same page is retried only
    // after that wait (plus a second of slack) has elapsed
    let mut p = Paginator::new(0);
    let now = 1_700_000_000;
    let a = p.step(PageOutcome::RateLimited { reset: now + 5, now });
    assert_eq!(a, PaginatorAction::Request { page: 1, delay_ms: 6000 });
    assert!(!p.done);
    assert_eq!(p.next_page, 1);
}

#[test]
fn rate_limit_in_the_past_retries_at_once() {
    let mut p = Paginator::new(0);
    let a = p.step(PageOutcome::RateLimited { reset: 10, now: 50 });
    assert_eq!(a, PaginatorAction::Request { page: 1, delay_ms: 1000 });
}

#[test]
fn rate_limit_too_far_abandons_endpoint() {
    let mut p = Paginator::new(0);
    let now = 1_700_000_000;
    let a = p.step(PageOutcome::RateLimited { reset: now + 3600, now });
    assert_eq!(a, PaginatorAction::Stop);
    assert!(p.done);
    assert!(!p.failed);
}

#[test]
fn page_below_cutoff_stops_without_another_request() {
    // the page's oldest event is strictly before the cutoff: the whole
    // page is appended and no further page is requested
    let mut p = Paginator::new(100);
    let a = p.step(PageOutcome::Page { events: vec![ev(150), ev(120), ev(99)] });
    assert_eq!(a, PaginatorAction::Stop);
    assert!(p.done);
    assert_eq!(p.events.len(), 3);
}

#[test]
fn page_at_cutoff_continues() {
    let mut p = Paginator::new(100);
    let a = p.step(PageOutcome::Page { events: vec![ev(150), ev(100)] });
    assert_eq!(a, PaginatorAction::Request { page: 2, delay_ms: 100 });
    assert!(!p.done);
    assert_eq!(p.events.len(), 2);
}

#[test]
fn not_found_keeps_collected_events() {
    let mut p = Paginator::new(0);
    p.step(PageOutcome::Page { events: vec![ev(5)] });
    let a = p.step(PageOutcome::NotFound);
    assert_eq!(a, PaginatorAction::Stop);
    assert!(p.done);
    assert!(!p.failed);
    assert_eq!(p.into_events().len(), 1);
}

#[test]
fn transport_failure_marks_endpoint_failed() {
    let mut p = Paginator::new(0);
    p.step(PageOutcome::Page { events: vec![ev(5)] });
    let a = p.step(PageOutcome::Transport);
    assert_eq!(a, PaginatorAction::Stop);
    assert!(p.done);
    assert!(p.failed);
}

#[test]
fn parse_failure_stops_with_partial_results() {
    let mut p = Paginator::new(0);
    p.step(PageOutcome::Page { events: vec![ev(5)] });
    let a = p.step(PageOutcome::ParseFailure);
    assert_eq!(a, PaginatorAction::Stop);
    assert!(p.done);
    assert!(!p.failed);
    assert_eq!(p.events.len(), 1);
}

#[test]
fn error_body_reporting_rate_limit_retries_same_page() {
    let mut p = Paginator::new(0);
    p.step(PageOutcome::Page { events: vec![ev(5)] });
    let a = p.step(PageOutcome::BodyRateLimited);
    assert_eq!(a, PaginatorAction::Request { page: 2, delay_ms: 60000 });
    assert!(!p.done);
}

#[test]
fn page_ceiling_stops_pagination() {
    let mut p = Paginator::new(0);
    let mut requests = 0;
    loop {
        let a = p.step(PageOutcome::Page { events: vec![ev(10)] });
        match a {
            PaginatorAction::Request { page, delay_ms: _ } => {
                requests += 1;
                assert_eq!(page as usize, requests + 1);
            }
            PaginatorAction::Stop => break,
        }
    }
    // pages 1 through 10 were digested; no page 11 is requested
    assert_eq!(requests, 9);
    assert!(p.done);
    assert_eq!(p.events.len(), 10);
}

#[test]
fn empty_page_advances_until_ceiling() {
    let mut p = Paginator::new(0);
    let a = p.step(PageOutcome::Page { events: vec![] });
    assert_eq!(a, PaginatorAction::Request { page: 2, delay_ms: 100 });
    assert!(!p.done);
    assert_eq!(p.events.len(), 0);
}
