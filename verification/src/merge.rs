//! The merge engine: events from all sources are ordered descending by
//! timestamp (ties broken by category, then by repository identifier,
//! ascending), adjacent records with an identical key are deduplicated,
//! and records older than the requested cutoff are dropped.

use vstd::prelude::*;
use crate::event::Event;
use crate::strutil::{lex_le, lemma_lex_le_antisym, lemma_lex_le_refl, lemma_lex_le_total,
    lemma_lex_le_trans, str_eq, str_le};

verus! {

/// Two events count as the same occurrence: equal timestamp, category and
/// repository identifier.
pub open spec fn same_key(a: Event, b: Event) -> bool {
    a.created_at == b.created_at && a.event_type@ == b.event_type@ && a.repo.name@
        == b.repo.name@
}

/// The merge order: newest first; ties broken by category ascending, then
/// by repository identifier ascending, so that records with one key are
/// adjacent after sorting.
pub open spec fn event_le(a: Event, b: Event) -> bool {
    if a.created_at != b.created_at {
        a.created_at > b.created_at
    } else if a.event_type@ != b.event_type@ {
        lex_le(a.event_type@, b.event_type@)
    } else {
        lex_le(a.repo.name@, b.repo.name@)
    }
}

/// Is `s` ordered by the merge order?
pub open spec fn events_sorted(s: Seq<Event>) -> bool {
    forall|i: int, j: int| 0 <= i < j < s.len() ==> event_le(#[trigger] s[i], #[trigger] s[j])
}

/// No two entries of `s` share a key.
pub open spec fn unique_keys(s: Seq<Event>) -> bool {
    forall|i: int, j: int| 0 <= i < j < s.len() ==> !same_key(#[trigger] s[i], #[trigger] s[j])
}

/// Does some entry of `s` have the key of `x`?
pub open spec fn has_key_of(s: Seq<Event>, x: Event) -> bool {
    exists|j: int| 0 <= j < s.len() && same_key(#[trigger] s[j], x)
}

/// Events with one key are mutually ordered.
pub proof fn lemma_same_key_le(a: Event, b: Event)
    requires
        same_key(a, b),
    ensures
        event_le(a, b),
        event_le(b, a),
{
    lemma_lex_le_refl(a.repo.name@);
}

/// Any two events are comparable.
pub proof fn lemma_event_le_total(a: Event, b: Event)
    ensures
        event_le(a, b) || event_le(b, a),
{
    if a.created_at == b.created_at {
        if a.event_type@ != b.event_type@ {
            lemma_lex_le_total(a.event_type@, b.event_type@);
        } else {
            lemma_lex_le_total(a.repo.name@, b.repo.name@);
        }
    }
}

/// Two events each ordered before the other share a key.
pub proof fn lemma_event_le_antisym(a: Event, b: Event)
    requires
        event_le(a, b),
        event_le(b, a),
    ensures
        same_key(a, b),
{
    if a.created_at == b.created_at {
        if a.event_type@ != b.event_type@ {
            lemma_lex_le_antisym(a.event_type@, b.event_type@);
        } else {
            lemma_lex_le_antisym(a.repo.name@, b.repo.name@);
        }
    }
}

/// The merge order is transitive.
pub proof fn lemma_event_le_trans(a: Event, b: Event, c: Event)
    requires
        event_le(a, b),
        event_le(b, c),
    ensures
        event_le(a, c),
{
    if a.created_at == b.created_at && b.created_at == c.created_at {
        let ka = a.event_type@;
        let kb = b.event_type@;
        let kc = c.event_type@;
        if ka == kb && kb == kc {
            lemma_lex_le_trans(a.repo.name@, b.repo.name@, c.repo.name@);
        } else if ka == kb {
            assert(ka != kc);
        } else if kb == kc {
            assert(ka != kc);
        } else {
            lemma_lex_le_trans(ka, kb, kc);
            if ka == kc {
                lemma_lex_le_antisym(kb, kc);
            }
        }
    }
}

/// `e` placed into `s` just after every entry ordered no later than it.
pub open spec fn insert_sorted(e: Event, s: Seq<Event>) -> Seq<Event>
    decreases s.len(),
{
    if s.len() > 0 && event_le(s[0], e) {
        seq![s[0]] + insert_sorted(e, s.drop_first())
    } else {
        seq![e] + s
    }
}

/// `s` rearranged into the merge order by repeated insertion.
pub open spec fn sort_events(s: Seq<Event>) -> Seq<Event>
    decreases s.len(),
{
    if s.len() == 0 {
        Seq::empty()
    } else {
        insert_sorted(s.last(), sort_events(s.drop_last()))
    }
}

/// Insertion adds exactly the inserted entry.
pub proof fn lemma_insert_sorted_contains(e: Event, s: Seq<Event>)
    ensures
        insert_sorted(e, s).len() == s.len() + 1,
        forall|x: Event| #[trigger] insert_sorted(e, s).contains(x) ==> (s.contains(x) || x == e),
        forall|x: Event| #[trigger] s.contains(x) ==> insert_sorted(e, s).contains(x),
        insert_sorted(e, s).contains(e),
    decreases s.len(),
{
    let r = insert_sorted(e, s);
    if s.len() > 0 && event_le(s[0], e) {
        lemma_insert_sorted_contains(e, s.drop_first());
        let rr = insert_sorted(e, s.drop_first());
        assert forall|x: Event| #[trigger] r.contains(x) implies (s.contains(x) || x == e) by {
            let i = choose|i: int| 0 <= i < r.len() && r[i] == x;
            if i == 0 {
                assert(s[0] == x);
            } else {
                assert(rr[i - 1] == x);
                assert(rr.contains(x));
                if s.drop_first().contains(x) {
                    let j = choose|j: int|
                        0 <= j < s.drop_first().len() && s.drop_first()[j] == x;
                    assert(s[j + 1] == x);
                }
            }
        }
        assert forall|x: Event| #[trigger] s.contains(x) implies r.contains(x) by {
            let i = choose|i: int| 0 <= i < s.len() && s[i] == x;
            if i == 0 {
                assert(r[0] == x);
            } else {
                assert(s.drop_first()[i - 1] == x);
                assert(s.drop_first().contains(x));
                assert(rr.contains(x));
                let j = choose|j: int| 0 <= j < rr.len() && rr[j] == x;
                assert(r[j + 1] == x);
            }
        }
        assert(rr.contains(e));
        let j = choose|j: int| 0 <= j < rr.len() && rr[j] == e;
        assert(r[j + 1] == e);
        assert(r.contains(e));
    } else {
        assert forall|x: Event| #[trigger] r.contains(x) implies (s.contains(x) || x == e) by {
            let i = choose|i: int| 0 <= i < r.len() && r[i] == x;
            if i > 0 {
                assert(s[i - 1] == x);
            }
        }
        assert forall|x: Event| #[trigger] s.contains(x) implies r.contains(x) by {
            let i = choose|i: int| 0 <= i < s.len() && s[i] == x;
            assert(r[i + 1] == x);
        }
        assert(r[0] == e);
        assert(r.contains(e));
    }
}

/// Insertion into an ordered sequence keeps it ordered.
pub proof fn lemma_insert_sorted_sorted(e: Event, s: Seq<Event>)
    requires
        events_sorted(s),
    ensures
        events_sorted(insert_sorted(e, s)),
    decreases s.len(),
{
    let r = insert_sorted(e, s);
    if s.len() > 0 && event_le(s[0], e) {
        assert(events_sorted(s.drop_first()));
        lemma_insert_sorted_sorted(e, s.drop_first());
        lemma_insert_sorted_contains(e, s.drop_first());
        let rr = insert_sorted(e, s.drop_first());
        assert forall|i: int, j: int| 0 <= i < j < r.len() implies event_le(r[i], r[j]) by {
            if i == 0 {
                assert(r[j] == rr[j - 1]);
                assert(rr.contains(rr[j - 1]));
                if rr[j - 1] == e {
                    assert(event_le(s[0], e));
                } else {
                    assert(s.drop_first().contains(rr[j - 1]));
                    let k = choose|k: int|
                        0 <= k < s.drop_first().len() && s.drop_first()[k] == rr[j - 1];
                    assert(s[k + 1] == rr[j - 1]);
                    assert(event_le(s[0], s[k + 1]));
                }
            } else {
                assert(r[i] == rr[i - 1]);
                assert(r[j] == rr[j - 1]);
            }
        }
    } else {
        assert forall|i: int, j: int| 0 <= i < j < r.len() implies event_le(r[i], r[j]) by {
            if i == 0 {
                assert(r[j] == s[j - 1]);
                if s.len() > 0 {
                    lemma_event_le_total(e, s[0]);
                    assert(event_le(e, s[0]));
                    if j > 1 {
                        assert(event_le(s[0], s[j - 1]));
                        lemma_event_le_trans(e, s[0], s[j - 1]);
                    }
                }
            } else {
                assert(r[i] == s[i - 1]);
                assert(r[j] == s[j - 1]);
            }
        }
    }
}

/// Inserting an entry ordered no earlier than every entry of `s` appends it.
pub proof fn lemma_insert_sorted_at_end(e: Event, s: Seq<Event>)
    requires
        forall|k: int| 0 <= k < s.len() ==> event_le(#[trigger] s[k], e),
    ensures
        insert_sorted(e, s) == s.push(e),
    decreases s.len(),
{
    if s.len() == 0 {
        assert(insert_sorted(e, s) =~= s.push(e));
    } else {
        assert(event_le(s[0], e));
        assert forall|k: int| 0 <= k < s.drop_first().len() implies event_le(
            #[trigger] s.drop_first()[k],
            e,
        ) by {
            assert(s.drop_first()[k] == s[k + 1]);
        }
        lemma_insert_sorted_at_end(e, s.drop_first());
        assert(insert_sorted(e, s) =~= s.push(e));
    }
}

/// Sorting yields an ordered sequence with the same entries.
pub proof fn lemma_sort_events_properties(s: Seq<Event>)
    ensures
        sort_events(s).len() == s.len(),
        events_sorted(sort_events(s)),
        forall|x: Event| #[trigger] sort_events(s).contains(x) ==> s.contains(x),
        forall|x: Event| #[trigger] s.contains(x) ==> sort_events(s).contains(x),
    decreases s.len(),
{
    if s.len() > 0 {
        lemma_sort_events_properties(s.drop_last());
        lemma_insert_sorted_sorted(s.last(), sort_events(s.drop_last()));
        lemma_insert_sorted_contains(s.last(), sort_events(s.drop_last()));
        assert forall|x: Event| #[trigger] sort_events(s).contains(x) implies s.contains(x) by {
            assert(sort_events(s.drop_last()).contains(x) || x == s.last());
            if sort_events(s.drop_last()).contains(x) {
                assert(s.drop_last().contains(x));
                let i = choose|i: int| 0 <= i < s.drop_last().len() && s.drop_last()[i] == x;
                assert(s[i] == x);
            } else {
                assert(s[s.len() - 1] == x);
            }
        }
        assert forall|x: Event| #[trigger] s.contains(x) implies sort_events(s).contains(x) by {
            let i = choose|i: int| 0 <= i < s.len() && s[i] == x;
            if i < s.len() - 1 {
                assert(s.drop_last()[i] == x);
                assert(s.drop_last().contains(x));
                assert(sort_events(s.drop_last()).contains(x));
            } else {
                assert(x == s.last());
            }
        }
    }
}

/// Sorting an already ordered sequence leaves it unchanged.
pub proof fn lemma_sort_events_identity(s: Seq<Event>)
    requires
        events_sorted(s),
    ensures
        sort_events(s) == s,
    decreases s.len(),
{
    if s.len() > 0 {
        assert(events_sorted(s.drop_last()));
        lemma_sort_events_identity(s.drop_last());
        assert forall|k: int| 0 <= k < s.drop_last().len() implies event_le(
            #[trigger] s.drop_last()[k],
            s.last(),
        ) by {
            assert(s.drop_last()[k] == s[k]);
            assert(event_le(s[k], s[s.len() - 1]));
        }
        lemma_insert_sorted_at_end(s.last(), s.drop_last());
        assert(s.drop_last().push(s.last()) =~= s);
    }
}

/// Adjacent entries sharing a key collapsed to the first of each run.
pub open spec fn dedup_adjacent(s: Seq<Event>) -> Seq<Event>
    decreases s.len(),
{
    if s.len() <= 1 {
        s
    } else {
        let rest = dedup_adjacent(s.drop_last());
        if same_key(s[s.len() - 2], s[s.len() - 1]) {
            rest
        } else {
            rest.push(s.last())
        }
    }
}

/// Entries of `s` older than the cutoff dropped; order otherwise kept.
pub open spec fn filter_cutoff(s: Seq<Event>, cutoff: int) -> Seq<Event>
    decreases s.len(),
{
    if s.len() == 0 {
        Seq::empty()
    } else {
        let rest = filter_cutoff(s.drop_last(), cutoff);
        if s.last().created_at >= cutoff {
            rest.push(s.last())
        } else {
            rest
        }
    }
}

/// What the merge engine produces: the input ordered by the merge order,
/// records with a duplicated key collapsed, records older than the cutoff
/// dropped.
pub open spec fn spec_merge(s: Seq<Event>, cutoff: int) -> Seq<Event> {
    filter_cutoff(dedup_adjacent(sort_events(s)), cutoff)
}

/// Deduplication of an ordered sequence keeps it ordered, leaves no two
/// entries with one key, and keeps a representative of every key.
pub proof fn lemma_dedup_adjacent_properties(s: Seq<Event>)
    requires
        events_sorted(s),
    ensures
        events_sorted(dedup_adjacent(s)),
        unique_keys(dedup_adjacent(s)),
        forall|x: Event| #[trigger] dedup_adjacent(s).contains(x) ==> s.contains(x),
        forall|x: Event| #[trigger] s.contains(x) ==> has_key_of(dedup_adjacent(s), x),
    decreases s.len(),
{
    let d = dedup_adjacent(s);
    if s.len() <= 1 {
        assert forall|x: Event| #[trigger] s.contains(x) implies has_key_of(d, x) by {
            let i = choose|i: int| 0 <= i < s.len() && s[i] == x;
            lemma_same_key_le(d[i], x);
            assert(same_key(d[i], x));
        }
    } else {
        let t = s.drop_last();
        assert(events_sorted(t));
        lemma_dedup_adjacent_properties(t);
        let rest = dedup_adjacent(t);
        assert forall|x: Event| #[trigger] rest.contains(x) implies s.contains(x) by {
            assert(t.contains(x));
            let i = choose|i: int| 0 <= i < t.len() && t[i] == x;
            assert(s[i] == x);
        }
        if same_key(s[s.len() - 2], s[s.len() - 1]) {
            assert(d == rest);
            assert forall|x: Event| #[trigger] s.contains(x) implies has_key_of(d, x) by {
                let i = choose|i: int| 0 <= i < s.len() && s[i] == x;
                if i < s.len() - 1 {
                    assert(t[i] == x);
                    assert(t.contains(x));
                } else {
                    assert(t[s.len() - 2] == s[s.len() - 2]);
                    assert(t.contains(s[s.len() - 2]));
                    assert(has_key_of(rest, s[s.len() - 2]));
                    let j = choose|j: int|
                        0 <= j < rest.len() && same_key(#[trigger] rest[j], s[s.len() - 2]);
                    assert(same_key(rest[j], x));
                }
            }
        } else {
            assert(d == rest.push(s.last()));
            assert forall|x: Event| #[trigger] d.contains(x) implies s.contains(x) by {
                let i = choose|i: int| 0 <= i < d.len() && d[i] == x;
                if i < rest.len() {
                    assert(rest[i] == x);
                    assert(rest.contains(x));
                } else {
                    assert(s[s.len() - 1] == x);
                }
            }
            assert forall|x: Event| #[trigger] s.contains(x) implies has_key_of(d, x) by {
                let i = choose|i: int| 0 <= i < s.len() && s[i] == x;
                if i < s.len() - 1 {
                    assert(t[i] == x);
                    assert(t.contains(x));
                    assert(has_key_of(rest, x));
                    let j = choose|j: int|
                        0 <= j < rest.len() && same_key(#[trigger] rest[j], x);
                    assert(d[j] == rest[j]);
                    assert(same_key(d[j], x));
                } else {
                    assert(d[d.len() - 1] == x);
                    lemma_same_key_le(x, x);
                    assert(same_key(d[d.len() - 1], x));
                }
            }
            // order: every entry of `rest` stems from `t` and so precedes the last
            assert forall|i: int, j: int| 0 <= i < j < d.len() implies event_le(
                #[trigger] d[i],
                #[trigger] d[j],
            ) by {
                if j < rest.len() {
                    assert(event_le(rest[i], rest[j]));
                } else {
                    assert(rest.contains(rest[i]));
                    assert(t.contains(rest[i]));
                    let k = choose|k: int| 0 <= k < t.len() && t[k] == rest[i];
                    assert(s[k] == rest[i]);
                    assert(event_le(s[k], s[s.len() - 1]));
                }
            }
            // uniqueness: a late entry sharing the key of the last would
            // share the key of the dropped neighbour as well
            assert forall|i: int, j: int| 0 <= i < j < d.len() implies !same_key(
                #[trigger] d[i],
                #[trigger] d[j],
            ) by {
                if j < rest.len() {
                    assert(!same_key(rest[i], rest[j]));
                } else {
                    if same_key(d[i], s[s.len() - 1]) {
                        assert(rest.contains(rest[i]));
                        assert(t.contains(rest[i]));
                        let k = choose|k: int| 0 <= k < t.len() && t[k] == rest[i];
                        assert(s[k] == d[i]);
                        if k == s.len() - 2 {
                            assert(same_key(s[s.len() - 2], s[s.len() - 1]));
                        } else {
                            assert(event_le(s[k], s[s.len() - 2]));
                            assert(event_le(s[s.len() - 2], s[s.len() - 1]));
                            lemma_same_key_le(d[i], s[s.len() - 1]);
                            lemma_event_le_trans(s[s.len() - 2], s[s.len() - 1], s[k]);
                            lemma_event_le_antisym(s[k], s[s.len() - 2]);
                            assert(same_key(s[s.len() - 2], s[s.len() - 1]));
                        }
                    }
                }
            }
        }
    }
}

/// Deduplication leaves a sequence without duplicated keys unchanged.
pub proof fn lemma_dedup_adjacent_identity(s: Seq<Event>)
    requires
        unique_keys(s),
    ensures
        dedup_adjacent(s) == s,
    decreases s.len(),
{
    if s.len() > 1 {
        assert(unique_keys(s.drop_last()));
        lemma_dedup_adjacent_identity(s.drop_last());
        assert(!same_key(s[s.len() - 2], s[s.len() - 1]));
        assert(s.drop_last().push(s.last()) =~= s);
    }
}

/// The cutoff filter keeps order and key uniqueness, keeps exactly the
/// entries at or after the cutoff, and drops nothing else.
pub proof fn lemma_filter_cutoff_properties(s: Seq<Event>, cutoff: int)
    ensures
        events_sorted(s) ==> events_sorted(filter_cutoff(s, cutoff)),
        unique_keys(s) ==> unique_keys(filter_cutoff(s, cutoff)),
        forall|x: Event| #[trigger] filter_cutoff(s, cutoff).contains(x) ==> s.contains(x),
        forall|x: Event|
            #[trigger] s.contains(x) && x.created_at >= cutoff ==> filter_cutoff(
                s,
                cutoff,
            ).contains(x),
        forall|i: int|
            0 <= i < filter_cutoff(s, cutoff).len() ==> #[trigger] filter_cutoff(
                s,
                cutoff,
            )[i].created_at >= cutoff,
    decreases s.len(),
{
    let f = filter_cutoff(s, cutoff);
    if s.len() > 0 {
        let t = s.drop_last();
        lemma_filter_cutoff_properties(t, cutoff);
        let rest = filter_cutoff(t, cutoff);
        assert forall|x: Event| #[trigger] rest.contains(x) implies s.contains(x) by {
            assert(t.contains(x));
            let i = choose|i: int| 0 <= i < t.len() && t[i] == x;
            assert(s[i] == x);
        }
        assert forall|x: Event| #[trigger] f.contains(x) implies s.contains(x) by {
            let i = choose|i: int| 0 <= i < f.len() && f[i] == x;
            if i < rest.len() {
                assert(rest[i] == x);
                assert(rest.contains(x));
            } else {
                assert(s[s.len() - 1] == x);
            }
        }
        assert forall|x: Event| #[trigger] s.contains(x) && x.created_at >= cutoff implies
            f.contains(x) by {
            let i = choose|i: int| 0 <= i < s.len() && s[i] == x;
            if i < s.len() - 1 {
                assert(t[i] == x);
                assert(t.contains(x));
                assert(rest.contains(x));
                let j = choose|j: int| 0 <= j < rest.len() && rest[j] == x;
                assert(f[j] == x);
            } else {
                assert(x == s.last());
                assert(f[f.len() - 1] == x);
            }
        }
        if events_sorted(s) {
            assert(events_sorted(t));
            assert forall|i: int, j: int| 0 <= i < j < f.len() implies event_le(
                #[trigger] f[i],
                #[trigger] f[j],
            ) by {
                if j < rest.len() {
                    assert(event_le(rest[i], rest[j]));
                } else {
                    assert(rest.contains(rest[i]));
                    assert(t.contains(rest[i]));
                    let k = choose|k: int| 0 <= k < t.len() && t[k] == rest[i];
                    assert(s[k] == rest[i]);
                    assert(event_le(s[k], s[s.len() - 1]));
                }
            }
        }
        if unique_keys(s) {
            assert(unique_keys(t));
            assert forall|i: int, j: int| 0 <= i < j < f.len() implies !same_key(
                #[trigger] f[i],
                #[trigger] f[j],
            ) by {
                if j < rest.len() {
                    assert(!same_key(rest[i], rest[j]));
                } else {
                    assert(rest.contains(rest[i]));
                    assert(t.contains(rest[i]));
                    let k = choose|k: int| 0 <= k < t.len() && t[k] == rest[i];
                    assert(s[k] == f[i]);
                    assert(!same_key(s[k], s[s.len() - 1]));
                }
            }
        }
    }
}

/// Filtering keeps a sequence already at or after the cutoff unchanged.
pub proof fn lemma_filter_cutoff_identity(s: Seq<Event>, cutoff: int)
    requires
        forall|i: int| 0 <= i < s.len() ==> #[trigger] s[i].created_at >= cutoff,
    ensures
        filter_cutoff(s, cutoff) == s,
    decreases s.len(),
{
    if s.len() > 0 {
        lemma_filter_cutoff_identity(s.drop_last(), cutoff);
        assert(s[s.len() - 1].created_at >= cutoff);
        assert(s.drop_last().push(s.last()) =~= s);
    }
}

/// The merged sequence is ordered newest-first with ties broken by category
/// then repository; no two of its entries share a key; each of its entries
/// stems from the input and lies at or after the cutoff; and every input
/// entry at or after the cutoff is represented by an entry with its key.
pub proof fn lemma_merge_properties(s: Seq<Event>, cutoff: int)
    ensures
        events_sorted(spec_merge(s, cutoff)),
        unique_keys(spec_merge(s, cutoff)),
        forall|x: Event| #[trigger] spec_merge(s, cutoff).contains(x) ==> s.contains(x),
        forall|i: int|
            0 <= i < spec_merge(s, cutoff).len() ==> #[trigger] spec_merge(
                s,
                cutoff,
            )[i].created_at >= cutoff,
        forall|x: Event|
            #[trigger] s.contains(x) && x.created_at >= cutoff ==> has_key_of(
                spec_merge(s, cutoff),
                x,
            ),
{
    let sorted = sort_events(s);
    let deduped = dedup_adjacent(sorted);
    let merged = spec_merge(s, cutoff);
    lemma_sort_events_properties(s);
    lemma_dedup_adjacent_properties(sorted);
    lemma_filter_cutoff_properties(deduped, cutoff);
    assert forall|x: Event| #[trigger] merged.contains(x) implies s.contains(x) by {
        assert(deduped.contains(x));
        assert(sorted.contains(x));
    }
    assert forall|x: Event| #[trigger] s.contains(x) && x.created_at >= cutoff implies
        has_key_of(merged, x) by {
        assert(sorted.contains(x));
        assert(has_key_of(deduped, x));
        let j = choose|j: int| 0 <= j < deduped.len() && same_key(#[trigger] deduped[j], x);
        assert(deduped[j].created_at == x.created_at);
        assert(deduped.contains(deduped[j]));
        assert(merged.contains(deduped[j]));
        let k = choose|k: int| 0 <= k < merged.len() && merged[k] == deduped[j];
        assert(same_key(merged[k], x));
    }
}

/// Do `a` and `b` share timestamp, category and repository identifier?
pub fn same_key_exec(a: &Event, b: &Event) -> (r: bool)
    ensures
        r == same_key(*a, *b),
{
    a.created_at == b.created_at && str_eq(a.event_type.as_str(), b.event_type.as_str())
        && str_eq(a.repo.name.as_str(), b.repo.name.as_str())
}

/// Is `a` ordered no later than `b` in the merge order?
pub fn event_le_exec(a: &Event, b: &Event) -> (r: bool)
    ensures
        r == event_le(*a, *b),
{
    if a.created_at != b.created_at {
        a.created_at > b.created_at
    } else if !str_eq(a.event_type.as_str(), b.event_type.as_str()) {
        str_le(a.event_type.as_str(), b.event_type.as_str())
    } else {
        str_le(a.repo.name.as_str(), b.repo.name.as_str())
    }
}

/// Inserting just before the first entry ordered after `e` realises
/// `insert_sorted`.
proof fn lemma_insert_sorted_split(e: Event, s: Seq<Event>, i: int)
    requires
        0 <= i <= s.len(),
        forall|k: int| 0 <= k < i ==> event_le(#[trigger] s[k], e),
        i < s.len() ==> !event_le(s[i], e),
    ensures
        insert_sorted(e, s) == s.take(i) + seq![e] + s.skip(i),
    decreases i,
{
    if i == 0 {
        assert(insert_sorted(e, s) =~= s.take(0) + seq![e] + s.skip(0));
    } else {
        assert(event_le(s[0], e));
        let t = s.drop_first();
        assert forall|k: int| 0 <= k < i - 1 implies event_le(#[trigger] t[k], e) by {
            assert(t[k] == s[k + 1]);
        }
        assert(i - 1 < t.len() ==> !event_le(t[i - 1], e));
        lemma_insert_sorted_split(e, t, i - 1);
        assert(seq![s[0]] + (t.take(i - 1) + seq![e] + t.skip(i - 1)) =~= s.take(i) + seq![e]
            + s.skip(i));
    }
}

/// Place `e` into the ordered vector `out`, just after every entry ordered
/// no later than it.
fn insert_event(out: &mut Vec<Event>, e: Event)
    ensures
        final(out)@ == insert_sorted(e, old(out)@),
{
    let mut i: usize = 0;
    while i < out.len() && event_le_exec(&out[i], &e)
        invariant
            0 <= i <= out@.len(),
            out@ == old(out)@,
            forall|k: int| 0 <= k < i ==> event_le(#[trigger] out@[k], e),
        decreases out@.len() - i,
    {
        i += 1;
    }
    proof {
        lemma_insert_sorted_split(e, out@, i as int);
    }
    out.insert(i, e);
    proof {
        assert(out@ =~= old(out)@.take(i as int) + seq![e] + old(out)@.skip(i as int));
    }
}

/// Order the input newest-first (ties broken by category then repository
/// identifier), drop all but the first of each run of entries with one key,
/// and drop entries older than the cutoff.
pub fn merge_events(events: &Vec<Event>, cutoff: i64) -> (r: Vec<Event>)
    ensures
        r@ == spec_merge(events@, cutoff as int),
{
    // sort by repeated insertion
    let mut sorted: Vec<Event> = Vec::new();
    let mut i: usize = 0;
    while i < events.len()
        invariant
            0 <= i <= events@.len(),
            sorted@ == sort_events(events@.take(i as int)),
        decreases events@.len() - i,
    {
        let e = events[i].duplicate();
        insert_event(&mut sorted, e);
        proof {
            assert(events@.take(i + 1).drop_last() =~= events@.take(i as int));
            assert(events@.take(i + 1).last() == events@[i as int]);
        }
        i += 1;
    }
    proof {
        assert(events@.take(events@.len() as int) =~= events@);
    }
    // drop all but the first of each run of one key
    let mut deduped: Vec<Event> = Vec::new();
    let mut j: usize = 0;
    while j < sorted.len()
        invariant
            0 <= j <= sorted@.len(),
            deduped@ == dedup_adjacent(sorted@.take(j as int)),
            j > 0 ==> deduped@.len() > 0 && same_key(deduped@.last(), sorted@[j - 1]),
        decreases sorted@.len() - j,
    {
        let keep: bool = if deduped.len() == 0 {
            true
        } else {
            !same_key_exec(&deduped[deduped.len() - 1], &sorted[j])
        };
        proof {
            let t = sorted@.take(j + 1);
            assert(t.drop_last() =~= sorted@.take(j as int));
            assert(t.last() == sorted@[j as int]);
            if j > 0 {
                assert(t[j - 1] == sorted@[j - 1]);
                // the last kept entry carries the key of the previous entry
                if same_key(deduped@.last(), sorted@[j as int]) {
                    assert(same_key(t[j - 1], t[j as int])) by {
                        lemma_same_key_le(deduped@.last(), sorted@[j - 1]);
                    }
                } else {
                    assert(!same_key(t[j - 1], t[j as int])) by {
                        if same_key(t[j - 1], t[j as int]) {
                            assert(same_key(deduped@.last(), sorted@[j as int]));
                        }
                    }
                }
            }
        }
        if keep {
            let e = sorted[j].duplicate();
            deduped.push(e);
        }
        j += 1;
    }
    proof {
        assert(sorted@.take(sorted@.len() as int) =~= sorted@);
    }
    // drop entries older than the cutoff
    let mut merged: Vec<Event> = Vec::new();
    let mut k: usize = 0;
    while k < deduped.len()
        invariant
            0 <= k <= deduped@.len(),
            merged@ == filter_cutoff(deduped@.take(k as int), cutoff as int),
        decreases deduped@.len() - k,
    {
        proof {
            let t = deduped@.take(k + 1);
            assert(t.drop_last() =~= deduped@.take(k as int));
            assert(t.last() == deduped@[k as int]);
        }
        if deduped[k].created_at >= cutoff {
            let e = deduped[k].duplicate();
            merged.push(e);
        }
        k += 1;
    }
    proof {
        assert(deduped@.take(deduped@.len() as int) =~= deduped@);
    }
    merged
}

/// Merging is idempotent: merging the merge engine's own output changes
/// nothing.
pub proof fn lemma_merge_idempotent(s: Seq<Event>, cutoff: int)
    ensures
        spec_merge(spec_merge(s, cutoff), cutoff) == spec_merge(s, cutoff),
{
    let m = spec_merge(s, cutoff);
    lemma_merge_properties(s, cutoff);
    lemma_sort_events_identity(m);
    lemma_dedup_adjacent_identity(m);
    lemma_filter_cutoff_identity(m, cutoff);
}

} // verus!
