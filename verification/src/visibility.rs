//! The repository-visibility resolver: a run-scoped cache from repository
//! identifier to a resolved private/public flag. The first resolution of an
//! identifier wins and is kept for the rest of the run; an unreachable or
//! unknown repository degrades to public. The remote lookup itself stays
//! with the driver: it is issued only when [`VisibilityCache::get`] misses,
//! and its outcome is handed to [`VisibilityCache::record`].

use vstd::prelude::*;
use crate::strutil::str_eq;

verus! {

/// Outcome of one remote repository-detail lookup.
pub enum LookupOutcome {
    /// The endpoint answered with the repository's visibility.
    Found { private: bool },
    /// The repository was not found.
    NotFound,
    /// A transport-level failure.
    TransportError,
    /// The response body could not be read as repository details.
    ParseFailure,
}

/// The visibility an outcome resolves to: only an answered lookup can mark
/// a repository private; everything else degrades to public.
pub open spec fn spec_resolved(o: LookupOutcome) -> bool {
    match o {
        LookupOutcome::Found { private } => private,
        _ => false,
    }
}

/// The cache after recording an outcome for `name`: the first resolution of
/// an identifier wins, a later one changes nothing.
pub open spec fn spec_record(
    m: Map<Seq<char>, bool>,
    name: Seq<char>,
    o: LookupOutcome,
) -> Map<Seq<char>, bool> {
    if m.contains_key(name) {
        m
    } else {
        m.insert(name, spec_resolved(o))
    }
}

/// The visibility an outcome resolves to.
pub fn resolved_visibility(o: &LookupOutcome) -> (r: bool)
    ensures
        r == spec_resolved(*o),
{
    match o {
        LookupOutcome::Found { private } => *private,
        LookupOutcome::NotFound => false,
        LookupOutcome::TransportError => false,
        LookupOutcome::ParseFailure => false,
    }
}

/// The mapping an entry list stands for; an earlier entry shadows a later
/// one with the same identifier.
pub open spec fn entries_map(s: Seq<(String, bool)>) -> Map<Seq<char>, bool>
    decreases s.len(),
{
    if s.len() == 0 {
        Map::empty()
    } else {
        entries_map(s.drop_first()).insert(s[0].0@, s[0].1)
    }
}

proof fn lemma_entries_map_absent(s: Seq<(String, bool)>, k: Seq<char>)
    requires
        forall|j: int| 0 <= j < s.len() ==> (#[trigger] s[j]).0@ != k,
    ensures
        !entries_map(s).contains_key(k),
    decreases s.len(),
{
    if s.len() > 0 {
        assert forall|j: int| 0 <= j < s.drop_first().len() implies (#[trigger] s.drop_first()[
            j
        ]).0@ != k by {
            assert(s.drop_first()[j] == s[j + 1]);
        }
        lemma_entries_map_absent(s.drop_first(), k);
    }
}

proof fn lemma_entries_map_found(s: Seq<(String, bool)>, k: Seq<char>, i: int)
    requires
        0 <= i < s.len(),
        s[i].0@ == k,
        forall|j: int| 0 <= j < i ==> (#[trigger] s[j]).0@ != k,
    ensures
        entries_map(s).contains_key(k),
        entries_map(s)[k] == s[i].1,
    decreases i,
{
    if i > 0 {
        assert forall|j: int| 0 <= j < i - 1 implies (#[trigger] s.drop_first()[j]).0@ != k by {
            assert(s.drop_first()[j] == s[j + 1]);
        }
        assert(s.drop_first()[i - 1] == s[i]);
        lemma_entries_map_found(s.drop_first(), k, i - 1);
        assert(s[0].0@ != k);
    }
}

/// The run-scoped cache from repository identifier to visibility.
pub struct VisibilityCache {
    entries: Vec<(String, bool)>,
}

impl View for VisibilityCache {
    type V = Map<Seq<char>, bool>;

    closed spec fn view(&self) -> Map<Seq<char>, bool> {
        entries_map(self.entries@)
    }
}

impl VisibilityCache {
    /// An empty cache, made once per run.
    pub fn new() -> (r: VisibilityCache)
        ensures
            r@ == Map::<Seq<char>, bool>::empty(),
    {
        VisibilityCache { entries: Vec::new() }
    }

    /// The cached visibility of `name`, if it has been resolved.
    pub fn get(&self, name: &str) -> (r: Option<bool>)
        ensures
            match r {
                Some(v) => self@.contains_key(name@) && self@[name@] == v,
                None => !self@.contains_key(name@),
            },
    {
        let n = self.entries.len();
        let mut i: usize = 0;
        while i < n
            invariant
                0 <= i <= n == self.entries@.len(),
                forall|j: int| 0 <= j < i ==> (#[trigger] self.entries@[j]).0@ != name@,
            decreases n - i,
        {
            if str_eq(self.entries[i].0.as_str(), name) {
                proof {
                    lemma_entries_map_found(self.entries@, name@, i as int);
                }
                return Some(self.entries[i].1);
            }
            i += 1;
        }
        proof {
            lemma_entries_map_absent(self.entries@, name@);
        }
        None
    }

    /// Record the outcome of a lookup for `name` and return the resolved
    /// visibility. The first resolution wins: on an identifier already
    /// resolved the cache is unchanged and the cached value returned.
    pub fn record(&mut self, name: &str, outcome: &LookupOutcome) -> (r: bool)
        ensures
            final(self)@ == spec_record(old(self)@, name@, *outcome),
            final(self)@.contains_key(name@),
            r == final(self)@[name@],
    {
        match self.get(name) {
            Some(v) => {
                proof {
                    assert(final(self)@ =~= spec_record(old(self)@, name@, *outcome));
                }
                v
            },
            None => {
                let v = resolved_visibility(outcome);
                self.entries.insert(0, (name.to_owned(), v));
                proof {
                    assert(self.entries@.drop_first() =~= old(self).entries@);
                    assert(final(self)@ =~= spec_record(old(self)@, name@, *outcome));
                }
                v
            },
        }
    }
}

/// Law: visibility resolution is write-once and total. Recording any
/// outcome leaves the identifier resolved; the first recorded outcome fixes
/// the value; recording again changes nothing; and an unanswered lookup
/// (not found, transport failure, unreadable body) resolves to public.
pub proof fn lemma_visibility_resolution(
    m: Map<Seq<char>, bool>,
    name: Seq<char>,
    first: LookupOutcome,
    later: LookupOutcome,
)
    ensures
        spec_record(m, name, first).contains_key(name),
        !m.contains_key(name) ==> spec_record(m, name, first)[name] == spec_resolved(first),
        spec_record(spec_record(m, name, first), name, later) == spec_record(m, name, first),
        !(first is Found) ==> spec_resolved(first) == false,
{
}

} // verus!
