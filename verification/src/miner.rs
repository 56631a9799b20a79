//! The git-history miner: turn the output of a local version-control log
//! query into synthetic events, and the pagination and filtering decisions
//! around repository enumeration. The log query prints four lines for every
//! commit — hash, RFC 3339 author date, subject, author name — and one line
//! break between entries, so the output's lines, taken in consecutive
//! groups of four, describe one commit each. A group whose date line cannot
//! be read, and a trailing incomplete group, are skipped. Running the
//! subprocess itself stays with the driver.

use vstd::prelude::*;
use crate::event::{Event, Repository};

verus! {

/// The instant an RFC 3339 date-and-time string (as UTF-8 bytes) denotes,
/// in seconds since the Unix epoch; nothing for bytes that are not UTF-8 or
/// not a valid RFC 3339 value.
pub uninterp spec fn rfc3339_epoch(s: Seq<u8>) -> Option<int>;

/// Relies on chrono's `DateTime::parse_from_rfc3339` and `timestamp`: the
/// instant denoted by an RFC 3339 string in seconds since the Unix epoch, a
/// function of the bytes alone.
#[verifier::external_body]
fn parse_rfc3339_epoch(s: &[u8]) -> (r: Option<i64>)
    ensures
        (r is Some) == (rfc3339_epoch(s@) is Some),
        r matches Some(t) ==> rfc3339_epoch(s@) == Some(t as int),
{
    match std::str::from_utf8(s) {
        Ok(text) => match chrono::DateTime::parse_from_rfc3339(text) {
            Ok(instant) => Some(instant.timestamp()),
            Err(_) => None,
        },
        Err(_) => None,
    }
}

/// Does a line break stand at position `i`?
pub open spec fn nl_at(s: Seq<u8>, i: int) -> bool {
    0 <= i < s.len() && s[i] == 10
}

/// Position of the first line break at or after `from`.
pub open spec fn first_nl_from(s: Seq<u8>, from: int) -> Option<int>
    decreases s.len() - from,
{
    if from < 0 {
        None
    } else if from >= s.len() {
        None
    } else if nl_at(s, from) {
        Some(from)
    } else {
        first_nl_from(s, from + 1)
    }
}

proof fn lemma_first_nl_bounds(s: Seq<u8>, from: int)
    ensures
        first_nl_from(s, from) matches Some(i) ==> from <= i && nl_at(s, i),
    decreases s.len() - from,
{
    if 0 <= from && from < s.len() && !nl_at(s, from) {
        lemma_first_nl_bounds(s, from + 1);
    }
}

proof fn lemma_first_nl_scan(s: Seq<u8>, from: int)
    requires
        0 <= from,
        forall|k: int| 0 <= k < from ==> !nl_at(s, k),
    ensures
        first_nl_from(s, 0) == first_nl_from(s, from),
    decreases from,
{
    if from > 0 {
        assert(!nl_at(s, from - 1));
        lemma_first_nl_scan(s, from - 1);
    }
}

/// The log output split into its lines.
pub open spec fn split_lines(s: Seq<u8>) -> Seq<Seq<u8>>
    decreases s.len(),
    via split_lines_decreases
{
    match first_nl_from(s, 0) {
        None => seq![s],
        Some(i) => seq![s.take(i)] + split_lines(s.skip(i + 1)),
    }
}

#[via_fn]
proof fn split_lines_decreases(s: Seq<u8>) {
    lemma_first_nl_bounds(s, 0);
}

/// The commit instants a log output holds, in output order: the lines taken
/// in consecutive groups of four (hash, author date, subject, author name),
/// each complete group contributing the instant its second line denotes. A
/// group whose date line cannot be read, and a trailing incomplete group,
/// contribute nothing.
pub open spec fn mined_timestamps(lines: Seq<Seq<u8>>) -> Seq<int>
    decreases lines.len(),
{
    if lines.len() < 4 {
        Seq::empty()
    } else {
        match rfc3339_epoch(lines[1]) {
            Some(t) => seq![t] + mined_timestamps(lines.skip(4)),
            None => mined_timestamps(lines.skip(4)),
        }
    }
}

/// Split the log output into its lines.
fn split_on_newline(s: &[u8]) -> (r: Vec<Vec<u8>>)
    ensures
        r@.map_values(|v: Vec<u8>| v@) == split_lines(s@),
{
    let n = s.len();
    let mut pieces: Vec<Vec<u8>> = Vec::new();
    let mut start: usize = 0;
    let mut i: usize = 0;
    proof {
        assert(s@.skip(0) =~= s@);
        assert(pieces@.map_values(|v: Vec<u8>| v@) + split_lines(s@) =~~= split_lines(s@));
    }
    loop
        invariant
            0 <= start <= i <= n == s@.len(),
            split_lines(s@) == pieces@.map_values(|v: Vec<u8>| v@) + split_lines(
                s@.skip(start as int),
            ),
            forall|k: int| start <= k < i ==> !nl_at(s@, k),
        decreases n - i,
    {
        let ghost suffix = s@.skip(start as int);
        proof {
            assert forall|k: int| 0 <= k < i - start implies !nl_at(suffix, k) by {
                assert(!nl_at(s@, start + k));
                assert(suffix[k] == s@[start + k]);
            }
        }
        if i >= n {
            proof {
                lemma_first_nl_scan(suffix, suffix.len() as int);
                assert(first_nl_from(suffix, 0) is None);
                assert(split_lines(suffix) == seq![suffix]);
            }
            let piece = vstd::slice::slice_to_vec(vstd::slice::slice_subrange(s, start, n));
            proof {
                assert(piece@ =~= suffix);
            }
            pieces.push(piece);
            proof {
                assert(pieces@.map_values(|v: Vec<u8>| v@) =~~= split_lines(s@));
            }
            return pieces;
        }
        if s[i] == 10 {
            proof {
                assert(nl_at(s@, i as int));
                assert(nl_at(suffix, i - start));
                lemma_first_nl_scan(suffix, i - start);
                assert(first_nl_from(suffix, 0) == Some(i - start));
                assert(split_lines(suffix) == seq![suffix.take(i - start)] + split_lines(
                    suffix.skip(i - start + 1),
                ));
            }
            let piece = vstd::slice::slice_to_vec(vstd::slice::slice_subrange(s, start, i));
            proof {
                assert(piece@ =~= suffix.take(i - start));
                assert(suffix.skip(i - start + 1) =~= s@.skip(i + 1));
            }
            pieces.push(piece);
            proof {
                assert(split_lines(s@) =~~= pieces@.map_values(|v: Vec<u8>| v@) + split_lines(
                    s@.skip(i + 1),
                ));
            }
            start = i + 1;
            i = i + 1;
        } else {
            proof {
                assert(!nl_at(s@, i as int));
            }
            i = i + 1;
        }
    }
}

/// Turn a log query's output into synthetic events: the output's lines,
/// taken in consecutive groups of four (commit hash, author date, subject,
/// author name), describe one commit each. Every complete group whose date
/// line reads as an RFC 3339 instant yields one event with category `Push`,
/// the author date as instant, and the given path as repository identifier.
pub fn parse_git_log(output: &[u8], repo_path: &str) -> (r: Vec<Event>)
    ensures
        r@.len() == mined_timestamps(split_lines(output@)).len(),
        forall|i: int|
            0 <= i < r@.len() ==> {
                &&& (#[trigger] r@[i]).created_at == mined_timestamps(split_lines(output@))[i]
                &&& r@[i].event_type@ == "Push"@
                &&& r@[i].repo.name@ == repo_path@
                &&& r@[i].repo.html_url@ == Seq::<char>::empty()
                &&& r@[i].repo.private is None
                &&& r@[i].repo.clone_url@ == Seq::<char>::empty()
                &&& r@[i].repo.fork == false
            },
{
    let lines = split_on_newline(output);
    let ghost ls = split_lines(output@);
    let n = lines.len();
    let mut events: Vec<Event> = Vec::new();
    let mut g: usize = 0;
    proof {
        assert(ls.skip(0) =~= ls);
        assert(events@.map_values(|e: Event| e.created_at as int) + mined_timestamps(ls)
            =~= mined_timestamps(ls));
    }
    while n - g >= 4
        invariant
            0 <= g <= n == lines@.len(),
            lines@.map_values(|v: Vec<u8>| v@) == ls,
            ls == split_lines(output@),
            mined_timestamps(ls) == events@.map_values(|e: Event| e.created_at as int)
                + mined_timestamps(ls.skip(g as int)),
            forall|i: int|
                0 <= i < events@.len() ==> {
                    &&& (#[trigger] events@[i]).event_type@ == "Push"@
                    &&& events@[i].repo.name@ == repo_path@
                    &&& events@[i].repo.html_url@ == Seq::<char>::empty()
                    &&& events@[i].repo.private is None
                    &&& events@[i].repo.clone_url@ == Seq::<char>::empty()
                    &&& events@[i].repo.fork == false
                },
        decreases n - g,
    {
        let ghost group = ls.skip(g as int);
        proof {
            assert(group.len() >= 4);
            assert(group[1] == ls[g + 1]);
            assert(lines@.map_values(|v: Vec<u8>| v@)[g + 1] == lines@[g + 1]@);
            assert(group.skip(4) =~= ls.skip(g + 4));
        }
        match parse_rfc3339_epoch(lines[g + 1].as_slice()) {
            Some(t) => {
                proof {
                    assert(rfc3339_epoch(group[1]) == Some(t as int));
                    assert(mined_timestamps(group) == seq![t as int] + mined_timestamps(
                        ls.skip(g + 4),
                    ));
                }
                let ghost stamps = events@.map_values(|e: Event| e.created_at as int);
                let e = Event {
                    event_type: "Push".to_owned(),
                    created_at: t,
                    repo: Repository {
                        name: repo_path.to_owned(),
                        html_url: String::new(),
                        private: None,
                        clone_url: String::new(),
                        fork: false,
                    },
                };
                events.push(e);
                proof {
                    assert(events@.map_values(|e2: Event| e2.created_at as int) =~= stamps.push(
                        t as int,
                    ));
                    assert(stamps.push(t as int) + mined_timestamps(ls.skip(g + 4)) =~= stamps
                        + mined_timestamps(group));
                }
            },
            None => {
                proof {
                    assert(rfc3339_epoch(group[1]) is None);
                    assert(mined_timestamps(group) == mined_timestamps(ls.skip(g + 4)));
                }
            },
        }
        g = g + 4;
    }
    proof {
        assert(ls.skip(g as int).len() < 4);
        assert(mined_timestamps(ls) =~= events@.map_values(|e: Event| e.created_at as int));
        assert forall|i: int| 0 <= i < events@.len() implies events@[i].created_at
            == mined_timestamps(split_lines(output@))[i] by {
            assert(events@.map_values(|e: Event| e.created_at as int)[i] == events@[i].created_at
                as int);
        }
    }
    events
}

/// The repositories worth mining: forks are skipped, order is kept.
pub open spec fn non_forks(s: Seq<Repository>) -> Seq<Repository>
    decreases s.len(),
{
    if s.len() == 0 {
        Seq::empty()
    } else {
        let rest = non_forks(s.drop_last());
        if s.last().fork {
            rest
        } else {
            rest.push(s.last())
        }
    }
}

/// Keep the repositories that are not forks, in order.
pub fn filter_non_fork(repos: &Vec<Repository>) -> (r: Vec<Repository>)
    ensures
        r@ == non_forks(repos@),
{
    let mut kept: Vec<Repository> = Vec::new();
    let mut i: usize = 0;
    while i < repos.len()
        invariant
            0 <= i <= repos@.len(),
            kept@ == non_forks(repos@.take(i as int)),
        decreases repos@.len() - i,
    {
        proof {
            assert(repos@.take(i + 1).drop_last() =~= repos@.take(i as int));
            assert(repos@.take(i + 1).last() == repos@[i as int]);
        }
        if !repos[i].fork {
            let r = repos[i].duplicate();
            kept.push(r);
        }
        i += 1;
    }
    proof {
        assert(repos@.take(repos@.len() as int) =~= repos@);
    }
    kept
}

/// Pagination state for the repository-listing endpoint: collects owned,
/// non-fork repositories page by page until an empty page arrives.
pub struct RepoPager {
    /// Non-fork repositories collected so far, in page order.
    pub repos: Vec<Repository>,
    /// The page to request next, 1-indexed.
    pub next_page: u32,
    /// An empty page arrived; enumeration is over.
    pub done: bool,
}

impl RepoPager {
    /// A fresh enumeration: nothing collected, page 1 up next.
    pub fn new() -> (r: RepoPager)
        ensures
            r.repos@ == Seq::<Repository>::empty(),
            r.next_page == 1,
            !r.done,
    {
        RepoPager { repos: Vec::new(), next_page: 1, done: false }
    }

    /// Digest one page of the repository listing: an empty page ends the
    /// enumeration; otherwise the page's non-fork repositories are kept and
    /// the page counter advances.
    pub fn step(&mut self, page_repos: Vec<Repository>)
        requires
            !old(self).done,
            old(self).next_page < u32::MAX,
        ensures
            final(self).done == (page_repos@.len() == 0),
            final(self).repos@ == old(self).repos@ + non_forks(page_repos@),
            final(self).next_page == if page_repos@.len() == 0 {
                old(self).next_page as int
            } else {
                old(self).next_page + 1
            },
    {
        if page_repos.len() == 0 {
            self.done = true;
            proof {
                assert(self.repos@ =~= old(self).repos@ + non_forks(page_repos@));
            }
        } else {
            let mut kept = filter_non_fork(&page_repos);
            self.repos.append(&mut kept);
            self.next_page = self.next_page + 1;
        }
    }
}

/// Stamp each mined event with the repository it was mined from; instants
/// and categories are kept.
pub fn attach_repository(events: &Vec<Event>, repo: &Repository) -> (r: Vec<Event>)
    ensures
        r@.len() == events@.len(),
        forall|i: int|
            0 <= i < events@.len() ==> {
                &&& (#[trigger] r@[i]).repo == *repo
                &&& r@[i].event_type@ == events@[i].event_type@
                &&& r@[i].created_at == events@[i].created_at
            },
{
    let mut out: Vec<Event> = Vec::new();
    let mut i: usize = 0;
    while i < events.len()
        invariant
            0 <= i <= events@.len(),
            out@.len() == i,
            forall|j: int|
                0 <= j < i ==> {
                    &&& (#[trigger] out@[j]).repo == *repo
                    &&& out@[j].event_type@ == events@[j].event_type@
                    &&& out@[j].created_at == events@[j].created_at
                },
        decreases events@.len() - i,
    {
        let e = Event {
            event_type: events[i].event_type.clone(),
            created_at: events[i].created_at,
            repo: repo.duplicate(),
        };
        out.push(e);
        i += 1;
    }
    out
}

} // verus!
