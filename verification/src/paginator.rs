//! The paginator: decisions for walking one event-stream endpoint page by
//! page. The driver performs a request, hands the outcome to [`Paginator::step`],
//! and carries out the returned action; all I/O stays with the driver.

use vstd::prelude::*;
use crate::event::Event;

verus! {

/// Hard ceiling on the number of pages requested from one endpoint.
pub const MAX_PAGES: u32 = 10;

/// Page number up to which empty pages are tolerated before giving up;
/// sparse streams may have gaps.
pub const EMPTY_PAGE_CEILING: u32 = 30;

/// A rate-limit wait of this many seconds or more abandons the endpoint
/// instead of sleeping.
pub const RATE_WAIT_CEILING_SECS: i64 = 3600;

/// Pause between two ordinary page requests, out of fairness.
pub const INTER_REQUEST_DELAY_MS: u64 = 100;

/// Pause before retrying a page whose error body reported the rate limit.
pub const BODY_RATE_LIMIT_DELAY_MS: u64 = 60000;

/// What one page request came back as.
pub enum PageOutcome {
    /// A transport-level failure (name resolution, connection, timeout):
    /// fatal for this endpoint only.
    Transport,
    /// The rate-limit metadata reported no remaining requests; `reset` and
    /// `now` are seconds since the Unix epoch.
    RateLimited { reset: i64, now: i64 },
    /// The endpoint was not found: a terminal condition, not an error.
    NotFound,
    /// An error body whose message reports the rate limit.
    BodyRateLimited,
    /// An error body with any other message.
    ApiError,
    /// A body that parsed neither as a page of events nor as one event.
    ParseFailure,
    /// A parsed page of events, possibly empty.
    Page { events: Vec<Event> },
}

/// What the driver must do next.
#[derive(Debug, Clone, Copy, PartialEq, Eq, Structural)]
pub enum PaginatorAction {
    /// Request the given page (1-indexed) after pausing for `delay_ms`.
    Request { page: u32, delay_ms: u64 },
    /// Pagination for this endpoint is over.
    Stop,
}

/// Pagination state for one endpoint: the page to request next, the events
/// collected so far, and whether the walk is over.
pub struct Paginator {
    /// Events collected so far, in page order.
    pub events: Vec<Event>,
    /// Instant (seconds since the Unix epoch) before which the stream is no
    /// longer wanted; a page reaching below it is the last.
    pub cutoff: i64,
    /// The page to request next, 1-indexed.
    pub next_page: u32,
    /// No further page is to be requested.
    pub done: bool,
    /// The endpoint failed at transport level; collected events are suspect
    /// and the driver discards them.
    pub failed: bool,
}

/// The wait before a rate-limited page may be retried: the seconds until
/// the reported reset, at least zero.
pub open spec fn rate_limit_wait(reset: int, now: int) -> int {
    if reset > now {
        reset - now
    } else {
        0
    }
}

impl Paginator {
    /// The page counter stays within the hard ceiling while pages are still
    /// to be requested.
    pub open spec fn wf(self) -> bool {
        1 <= self.next_page && (!self.done ==> self.next_page <= MAX_PAGES)
    }

    /// A fresh walk: nothing collected, page 1 up next.
    pub fn new(cutoff: i64) -> (r: Paginator)
        ensures
            r.events@ == Seq::<Event>::empty(),
            r.cutoff == cutoff,
            r.next_page == 1,
            !r.done,
            !r.failed,
            r.wf(),
    {
        Paginator { events: Vec::new(), cutoff, next_page: 1, done: false, failed: false }
    }

    /// Digest the outcome of requesting page `next_page` and decide what to
    /// do next. A rate-limited page is retried after the reported wait (plus
    /// one second) unless the wait is unreasonably long; a not-found
    /// endpoint, an error body, or an unparseable body ends the walk with
    /// the events already collected; a page reaching below the cutoff is
    /// appended whole and ends the walk; otherwise the walk advances to the
    /// next page up to the page ceiling.
    pub fn step(&mut self, outcome: PageOutcome) -> (a: PaginatorAction)
        requires
            !old(self).done,
            old(self).wf(),
        ensures
            final(self).wf(),
            final(self).cutoff == old(self).cutoff,
            match outcome {
                PageOutcome::Transport => {
                    &&& final(self).done
                    &&& final(self).failed
                    &&& final(self).events@ == old(self).events@
                    &&& a == PaginatorAction::Stop
                },
                PageOutcome::RateLimited { reset, now } => {
                    let wait = rate_limit_wait(reset as int, now as int);
                    &&& final(self).events@ == old(self).events@
                    &&& final(self).next_page == old(self).next_page
                    &&& final(self).failed == old(self).failed
                    &&& if wait < RATE_WAIT_CEILING_SECS {
                        &&& !final(self).done
                        &&& a == (PaginatorAction::Request {
                            page: old(self).next_page,
                            delay_ms: ((wait + 1) * 1000) as u64,
                        })
                    } else {
                        &&& final(self).done
                        &&& a == PaginatorAction::Stop
                    }
                },
                PageOutcome::NotFound => {
                    &&& final(self).done
                    &&& final(self).failed == old(self).failed
                    &&& final(self).events@ == old(self).events@
                    &&& a == PaginatorAction::Stop
                },
                PageOutcome::BodyRateLimited => {
                    &&& final(self).done == old(self).done
                    &&& final(self).failed == old(self).failed
                    &&& final(self).next_page == old(self).next_page
                    &&& final(self).events@ == old(self).events@
                    &&& a == (PaginatorAction::Request {
                        page: old(self).next_page,
                        delay_ms: BODY_RATE_LIMIT_DELAY_MS,
                    })
                },
                PageOutcome::ApiError => {
                    &&& final(self).done
                    &&& final(self).failed == old(self).failed
                    &&& final(self).events@ == old(self).events@
                    &&& a == PaginatorAction::Stop
                },
                PageOutcome::ParseFailure => {
                    &&& final(self).done
                    &&& final(self).failed == old(self).failed
                    &&& final(self).events@ == old(self).events@
                    &&& a == PaginatorAction::Stop
                },
                PageOutcome::Page { events: es } => {
                    &&& final(self).failed == old(self).failed
                    &&& if es@.len() == 0 {
                        &&& final(self).events@ == old(self).events@
                        &&& if old(self).next_page >= EMPTY_PAGE_CEILING || old(self).next_page
                            >= MAX_PAGES {
                            &&& final(self).done
                            &&& a == PaginatorAction::Stop
                        } else {
                            &&& !final(self).done
                            &&& final(self).next_page == old(self).next_page + 1
                            &&& a == (PaginatorAction::Request {
                                page: (old(self).next_page + 1) as u32,
                                delay_ms: INTER_REQUEST_DELAY_MS,
                            })
                        }
                    } else {
                        &&& final(self).events@ == old(self).events@ + es@
                        &&& if es@.last().created_at < old(self).cutoff {
                            &&& final(self).done
                            &&& a == PaginatorAction::Stop
                        } else if old(self).next_page >= MAX_PAGES {
                            &&& final(self).done
                            &&& a == PaginatorAction::Stop
                        } else {
                            &&& !final(self).done
                            &&& final(self).next_page == old(self).next_page + 1
                            &&& a == (PaginatorAction::Request {
                                page: (old(self).next_page + 1) as u32,
                                delay_ms: INTER_REQUEST_DELAY_MS,
                            })
                        }
                    }
                },
            },
    {
        match outcome {
            PageOutcome::Transport => {
                self.done = true;
                self.failed = true;
                PaginatorAction::Stop
            },
            PageOutcome::RateLimited { reset, now } => {
                let diff: i128 = reset as i128 - now as i128;
                let wait: i128 = if diff > 0 {
                    diff
                } else {
                    0
                };
                if wait < RATE_WAIT_CEILING_SECS as i128 {
                    PaginatorAction::Request {
                        page: self.next_page,
                        delay_ms: ((wait + 1) * 1000) as u64,
                    }
                } else {
                    self.done = true;
                    PaginatorAction::Stop
                }
            },
            PageOutcome::NotFound => {
                self.done = true;
                PaginatorAction::Stop
            },
            PageOutcome::BodyRateLimited => {
                PaginatorAction::Request {
                    page: self.next_page,
                    delay_ms: BODY_RATE_LIMIT_DELAY_MS,
                }
            },
            PageOutcome::ApiError => {
                self.done = true;
                PaginatorAction::Stop
            },
            PageOutcome::ParseFailure => {
                self.done = true;
                PaginatorAction::Stop
            },
            PageOutcome::Page { events: mut es } => {
                if es.len() == 0 {
                    if self.next_page >= EMPTY_PAGE_CEILING || self.next_page >= MAX_PAGES {
                        self.done = true;
                        PaginatorAction::Stop
                    } else {
                        self.next_page = self.next_page + 1;
                        PaginatorAction::Request {
                            page: self.next_page,
                            delay_ms: INTER_REQUEST_DELAY_MS,
                        }
                    }
                } else {
                    let reached_cutoff = es[es.len() - 1].created_at < self.cutoff;
                    self.events.append(&mut es);
                    if reached_cutoff {
                        self.done = true;
                        PaginatorAction::Stop
                    } else if self.next_page >= MAX_PAGES {
                        self.done = true;
                        PaginatorAction::Stop
                    } else {
                        self.next_page = self.next_page + 1;
                        PaginatorAction::Request {
                            page: self.next_page,
                            delay_ms: INTER_REQUEST_DELAY_MS,
                        }
                    }
                }
            },
        }
    }

    /// Hand the collected events over, ending the borrowable state.
    pub fn into_events(self) -> (r: Vec<Event>)
        ensures
            r@ == self.events@,
    {
        self.events
    }
}

} // verus!
