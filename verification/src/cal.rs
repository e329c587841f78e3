//! The event calendar: a chronologically ordered, identifier-keyed store.
//!
//! The calendar keeps its events strictly sorted by the event total order
//! with identifiers unique. Insertion replaces any stored event bearing the
//! same identifier; lookups and removals go by identifier; range queries
//! select events with an endpoint inside the queried interval, in
//! chronological order.
use crate::event::{
    event_lt, lemma_view_lt_transitive, lemma_view_lt_trichotomy, view_lt, Event, EventView,
};
use crate::time::{dt_le, DateTime};
use crate::IntoUuid;
use vstd::prelude::*;

verus! {

/// A calendar of events.
pub struct EventCalendar {
    evts: Vec<Event>,
}

impl View for EventCalendar {
    type V = Seq<Event>;

    closed spec fn view(&self) -> Seq<Event> {
        self.evts@
    }
}

/// The calendar invariant: events are strictly ordered by the event total
/// order, and no two stored events share an identifier.
pub open spec fn calendar_wf(s: Seq<Event>) -> bool {
    forall|i: int, j: int|
        0 <= i < j < s.len() ==> view_lt(#[trigger] s[i]@, #[trigger] s[j]@) && s[i]@.id
            != s[j]@.id
}

/// The first stored event bearing the given identifier, if any.
pub open spec fn spec_get(s: Seq<Event>, id: u128) -> Option<Event>
    decreases s.len(),
{
    if s.len() == 0 {
        None
    } else if s[0]@.id == id {
        Some(s[0])
    } else {
        spec_get(s.drop_first(), id)
    }
}

/// The stored sequence with every event bearing the given identifier
/// removed, order preserved.
pub open spec fn remove_id(s: Seq<Event>, id: u128) -> Seq<Event>
    decreases s.len(),
{
    if s.len() == 0 {
        s
    } else if s[0]@.id == id {
        remove_id(s.drop_first(), id)
    } else {
        seq![s[0]] + remove_id(s.drop_first(), id)
    }
}

/// The stored sequence with the given event placed at its position in the
/// event total order.
pub open spec fn insert_sorted(s: Seq<Event>, e: Event) -> Seq<Event>
    decreases s.len(),
{
    if s.len() == 0 {
        seq![e]
    } else if view_lt(e@, s[0]@) {
        seq![e] + s
    } else {
        seq![s[0]] + insert_sorted(s.drop_first(), e)
    }
}

/// The effect of inserting an event: any stored event with the same
/// identifier is dropped, then the new event takes its ordered position.
pub open spec fn spec_add(s: Seq<Event>, e: Event) -> Seq<Event> {
    insert_sorted(remove_id(s, e@.id), e)
}

/// Whether an event's start or end timestamp falls within `[lo, hi]`,
/// both boundaries included. An event overlapping the range with neither
/// endpoint inside it does not match.
pub open spec fn in_range(v: EventView, lo: DateTime, hi: DateTime) -> bool {
    (dt_le(lo, v.start) && dt_le(v.start, hi)) || (dt_le(lo, v.end) && dt_le(v.end, hi))
}

/// The subsequence of events with an endpoint inside `[lo, hi]`, in stored
/// order.
pub open spec fn range_filter(s: Seq<Event>, lo: DateTime, hi: DateTime) -> Seq<Event>
    decreases s.len(),
{
    if s.len() == 0 {
        s
    } else if in_range(s[0]@, lo, hi) {
        seq![s[0]] + range_filter(s.drop_first(), lo, hi)
    } else {
        range_filter(s.drop_first(), lo, hi)
    }
}

/// `spec_get` finds an event exactly when one with that identifier is
/// stored, and what it finds bears that identifier.
pub proof fn lemma_spec_get_membership(s: Seq<Event>, id: u128)
    ensures
        (match spec_get(s, id) {
            Some(e) => s.contains(e) && e@.id == id,
            None => forall|i: int| 0 <= i < s.len() ==> s[i]@.id != id,
        }),
    decreases s.len(),
{
    if s.len() > 0 && s[0]@.id != id {
        lemma_spec_get_membership(s.drop_first(), id);
        match spec_get(s.drop_first(), id) {
            Some(e) => {
                let k = choose|k: int|
                    0 <= k < s.drop_first().len() && s.drop_first()[k] == e;
                assert(s[k + 1] == e);
            },
            None => {
                assert forall|i: int| 0 <= i < s.len() implies s[i]@.id != id by {
                    if i > 0 {
                        assert(s.drop_first()[i - 1] == s[i]);
                    }
                }
            },
        }
    }
}

/// When the first stored event bearing the identifier stands at index `k`,
/// `spec_get` returns exactly that event.
pub proof fn lemma_spec_get_at(s: Seq<Event>, id: u128, k: int)
    requires
        0 <= k < s.len(),
        s[k]@.id == id,
        forall|j: int| 0 <= j < k ==> s[j]@.id != id,
    ensures
        spec_get(s, id) == Some(s[k]),
    decreases k,
{
    if k > 0 {
        assert forall|j: int| 0 <= j < k - 1 implies s.drop_first()[j]@.id != id by {
            assert(s.drop_first()[j] == s[j + 1]);
        }
        lemma_spec_get_at(s.drop_first(), id, k - 1);
    }
}

/// Removing an identifier keeps exactly the stored events that bear a
/// different identifier.
pub proof fn lemma_remove_id_contains(s: Seq<Event>, id: u128)
    ensures
        forall|e: Event|
            #[trigger] remove_id(s, id).contains(e) <==> (s.contains(e) && e@.id != id),
    decreases s.len(),
{
    if s.len() > 0 {
        lemma_remove_id_contains(s.drop_first(), id);
        let rest = remove_id(s.drop_first(), id);
        assert forall|e: Event| #[trigger] remove_id(s, id).contains(e) implies (s.contains(e)
            && e@.id != id) by {
            let r = remove_id(s, id);
            let k = choose|k: int| 0 <= k < r.len() && r[k] == e;
            if s[0]@.id == id {
                assert(rest.contains(e));
                let m = choose|m: int| 0 <= m < s.drop_first().len() && s.drop_first()[m] == e;
                assert(s[m + 1] == e);
            } else {
                if k == 0 {
                    assert(s[0] == e);
                } else {
                    assert(rest[k - 1] == e);
                    assert(rest.contains(e));
                    let m = choose|m: int|
                        0 <= m < s.drop_first().len() && s.drop_first()[m] == e;
                    assert(s[m + 1] == e);
                }
            }
        }
        assert forall|e: Event| s.contains(e) && e@.id != id implies #[trigger] remove_id(
            s,
            id,
        ).contains(e) by {
            let k = choose|k: int| 0 <= k < s.len() && s[k] == e;
            let r = remove_id(s, id);
            if k == 0 {
                assert(r[0] == e);
            } else {
                assert(s.drop_first()[k - 1] == e);
                assert(s.drop_first().contains(e));
                assert(rest.contains(e));
                let m = choose|m: int| 0 <= m < rest.len() && rest[m] == e;
                if s[0]@.id == id {
                    assert(r[m] == e);
                } else {
                    assert(r[m + 1] == e);
                }
            }
        }
    }
}

/// No event in `remove_id(s, id)` bears the removed identifier.
pub proof fn lemma_remove_id_clears(s: Seq<Event>, id: u128)
    ensures
        forall|i: int| 0 <= i < remove_id(s, id).len() ==> remove_id(s, id)[i]@.id != id,
{
    lemma_remove_id_contains(s, id);
    assert forall|i: int| 0 <= i < remove_id(s, id).len() implies remove_id(s, id)[i]@.id
        != id by {
        assert(remove_id(s, id).contains(remove_id(s, id)[i]));
    }
}

/// When no stored event bears the identifier, removing it changes nothing.
pub proof fn lemma_remove_id_absent(s: Seq<Event>, id: u128)
    requires
        forall|i: int| 0 <= i < s.len() ==> s[i]@.id != id,
    ensures
        remove_id(s, id) == s,
    decreases s.len(),
{
    if s.len() > 0 {
        assert forall|i: int| 0 <= i < s.drop_first().len() implies s.drop_first()[i]@.id
            != id by {
            assert(s.drop_first()[i] == s[i + 1]);
        }
        lemma_remove_id_absent(s.drop_first(), id);
        assert(seq![s[0]] + s.drop_first() =~= s);
    }
}

/// When the identifier occurs exactly at index `k`, removing it removes the
/// event at `k` and nothing else.
pub proof fn lemma_remove_id_at(s: Seq<Event>, id: u128, k: int)
    requires
        0 <= k < s.len(),
        s[k]@.id == id,
        forall|j: int| 0 <= j < s.len() && j != k ==> s[j]@.id != id,
    ensures
        remove_id(s, id) == s.remove(k),
    decreases k,
{
    if k == 0 {
        assert forall|i: int| 0 <= i < s.drop_first().len() implies s.drop_first()[i]@.id
            != id by {
            assert(s.drop_first()[i] == s[i + 1]);
        }
        lemma_remove_id_absent(s.drop_first(), id);
        assert(s.drop_first() =~= s.remove(0));
    } else {
        assert forall|j: int|
            0 <= j < s.drop_first().len() && j != k - 1 implies s.drop_first()[j]@.id != id by {
            assert(s.drop_first()[j] == s[j + 1]);
        }
        assert(s.drop_first()[k - 1] == s[k]);
        lemma_remove_id_at(s.drop_first(), id, k - 1);
        assert(seq![s[0]] + s.drop_first().remove(k - 1) =~= s.remove(k));
    }
}

/// Removing an identifier preserves the calendar invariant.
pub proof fn lemma_remove_id_wf(s: Seq<Event>, id: u128)
    requires
        calendar_wf(s),
    ensures
        calendar_wf(remove_id(s, id)),
    decreases s.len(),
{
    if s.len() > 0 {
        assert(calendar_wf(s.drop_first())) by {
            assert forall|i: int, j: int|
                0 <= i < j < s.drop_first().len() implies view_lt(
                #[trigger] s.drop_first()[i]@,
                #[trigger] s.drop_first()[j]@,
            ) && s.drop_first()[i]@.id != s.drop_first()[j]@.id by {
                assert(s.drop_first()[i] == s[i + 1]);
                assert(s.drop_first()[j] == s[j + 1]);
            }
        }
        lemma_remove_id_wf(s.drop_first(), id);
        if s[0]@.id != id {
            let rest = remove_id(s.drop_first(), id);
            lemma_remove_id_contains(s.drop_first(), id);
            let r = seq![s[0]] + rest;
            assert forall|i: int, j: int| 0 <= i < j < r.len() implies view_lt(
                #[trigger] r[i]@,
                #[trigger] r[j]@,
            ) && r[i]@.id != r[j]@.id by {
                if i == 0 {
                    assert(rest.contains(rest[j - 1]));
                    let m = choose|m: int|
                        0 <= m < s.drop_first().len() && s.drop_first()[m] == rest[j - 1];
                    assert(s.drop_first()[m] == s[m + 1]);
                    assert(view_lt(s[0]@, s[m + 1]@) && s[0]@.id != s[m + 1]@.id);
                } else {
                    assert(rest[i - 1] == r[i] && rest[j - 1] == r[j]);
                }
            }
        }
    }
}

/// Inserting an event whose identifier is absent preserves the calendar
/// invariant, and the result holds exactly the prior events and the new one.
pub proof fn lemma_insert_sorted_props(s: Seq<Event>, e: Event)
    requires
        calendar_wf(s),
        forall|i: int| 0 <= i < s.len() ==> s[i]@.id != e@.id,
    ensures
        calendar_wf(insert_sorted(s, e)),
        forall|x: Event| #[trigger] insert_sorted(s, e).contains(x) <==> (x == e || s.contains(x)),
    decreases s.len(),
{
    let r = insert_sorted(s, e);
    if s.len() == 0 {
        assert forall|x: Event| #[trigger] r.contains(x) implies (x == e || s.contains(x)) by {
            let k = choose|k: int| 0 <= k < r.len() && r[k] == x;
        }
        assert(r[0] == e);
    } else if view_lt(e@, s[0]@) {
        assert forall|i: int, j: int| 0 <= i < j < r.len() implies view_lt(
            #[trigger] r[i]@,
            #[trigger] r[j]@,
        ) && r[i]@.id != r[j]@.id by {
            if i == 0 {
                assert(r[j] == s[j - 1]);
                if j > 1 {
                    assert(view_lt(s[0]@, s[j - 1]@));
                    lemma_view_lt_transitive(e@, s[0]@, s[j - 1]@);
                } else {
                    assert(r[j] == s[0]);
                }
            } else {
                assert(r[i] == s[i - 1] && r[j] == s[j - 1]);
            }
        }
        assert forall|x: Event| #[trigger] r.contains(x) implies (x == e || s.contains(x)) by {
            let k = choose|k: int| 0 <= k < r.len() && r[k] == x;
            if k > 0 {
                assert(s[k - 1] == x);
            }
        }
        assert forall|x: Event| x == e || s.contains(x) implies #[trigger] r.contains(x) by {
            if x == e {
                assert(r[0] == x);
            } else {
                let k = choose|k: int| 0 <= k < s.len() && s[k] == x;
                assert(r[k + 1] == x);
            }
        }
    } else {
        assert(calendar_wf(s.drop_first())) by {
            assert forall|i: int, j: int|
                0 <= i < j < s.drop_first().len() implies view_lt(
                #[trigger] s.drop_first()[i]@,
                #[trigger] s.drop_first()[j]@,
            ) && s.drop_first()[i]@.id != s.drop_first()[j]@.id by {
                assert(s.drop_first()[i] == s[i + 1]);
                assert(s.drop_first()[j] == s[j + 1]);
            }
        }
        assert forall|i: int| 0 <= i < s.drop_first().len() implies s.drop_first()[i]@.id
            != e@.id by {
            assert(s.drop_first()[i] == s[i + 1]);
        }
        lemma_insert_sorted_props(s.drop_first(), e);
        let rest = insert_sorted(s.drop_first(), e);
        // the head is below the new event and below everything in the tail
        lemma_view_lt_trichotomy(e@, s[0]@);
        assert(view_lt(s[0]@, e@));
        assert forall|i: int, j: int| 0 <= i < j < r.len() implies view_lt(
            #[trigger] r[i]@,
            #[trigger] r[j]@,
        ) && r[i]@.id != r[j]@.id by {
            if i == 0 {
                assert(r[j] == rest[j - 1]);
                assert(rest.contains(rest[j - 1]));
                if rest[j - 1] == e {
                    assert(view_lt(s[0]@, e@));
                } else {
                    assert(s.drop_first().contains(rest[j - 1]));
                    let m = choose|m: int|
                        0 <= m < s.drop_first().len() && s.drop_first()[m] == rest[j - 1];
                    assert(s.drop_first()[m] == s[m + 1]);
                    assert(view_lt(s[0]@, s[m + 1]@) && s[0]@.id != s[m + 1]@.id);
                }
            } else {
                assert(r[i] == rest[i - 1] && r[j] == rest[j - 1]);
            }
        }
        assert forall|x: Event| #[trigger] r.contains(x) implies (x == e || s.contains(x)) by {
            let k = choose|k: int| 0 <= k < r.len() && r[k] == x;
            if k == 0 {
                assert(s[0] == x);
            } else {
                assert(rest[k - 1] == x);
                assert(rest.contains(x));
                if x != e {
                    let m = choose|m: int|
                        0 <= m < s.drop_first().len() && s.drop_first()[m] == x;
                    assert(s[m + 1] == x);
                }
            }
        }
        assert forall|x: Event| x == e || s.contains(x) implies #[trigger] r.contains(x) by {
            if x == e {
                assert(rest.contains(x));
                let m = choose|m: int| 0 <= m < rest.len() && rest[m] == x;
                assert(r[m + 1] == x);
            } else {
                let k = choose|k: int| 0 <= k < s.len() && s[k] == x;
                if k == 0 {
                    assert(r[0] == x);
                } else {
                    assert(s.drop_first()[k - 1] == x);
                    assert(s.drop_first().contains(x));
                    assert(rest.contains(x));
                    let m = choose|m: int| 0 <= m < rest.len() && rest[m] == x;
                    assert(r[m + 1] == x);
                }
            }
        }
    }
}

/// When the first position where the new event sorts below a stored one is
/// `k`, insertion places it exactly there.
pub proof fn lemma_insert_sorted_at(s: Seq<Event>, e: Event, k: int)
    requires
        0 <= k <= s.len(),
        forall|i: int| 0 <= i < k ==> !view_lt(e@, s[i]@),
        k < s.len() ==> view_lt(e@, s[k]@),
    ensures
        insert_sorted(s, e) == s.take(k) + seq![e] + s.skip(k),
    decreases k,
{
    if k == 0 {
        if s.len() == 0 {
            assert(seq![e] =~= s.take(0) + seq![e] + s.skip(0));
        } else {
            assert(seq![e] + s =~= s.take(0) + seq![e] + s.skip(0));
        }
    } else {
        assert forall|i: int| 0 <= i < k - 1 implies !view_lt(e@, s.drop_first()[i]@) by {
            assert(s.drop_first()[i] == s[i + 1]);
        }
        assert(k - 1 < s.drop_first().len() ==> view_lt(e@, s.drop_first()[k - 1]@));
        lemma_insert_sorted_at(s.drop_first(), e, k - 1);
        assert(seq![s[0]] + (s.drop_first().take(k - 1) + seq![e] + s.drop_first().skip(k - 1))
            =~= s.take(k) + seq![e] + s.skip(k));
    }
}

/// After inserting an event whose identifier was absent, looking that
/// identifier up finds exactly the inserted event.
pub proof fn lemma_get_after_insert(s: Seq<Event>, e: Event)
    requires
        forall|i: int| 0 <= i < s.len() ==> s[i]@.id != e@.id,
    ensures
        spec_get(insert_sorted(s, e), e@.id) == Some(e),
    decreases s.len(),
{
    let r = insert_sorted(s, e);
    if s.len() == 0 {
    } else if view_lt(e@, s[0]@) {
        assert(r[0] == e);
    } else {
        assert forall|i: int| 0 <= i < s.drop_first().len() implies s.drop_first()[i]@.id
            != e@.id by {
            assert(s.drop_first()[i] == s[i + 1]);
        }
        lemma_get_after_insert(s.drop_first(), e);
        assert(r[0] == s[0]);
        assert(r.drop_first() =~= insert_sorted(s.drop_first(), e));
    }
}

/// The round-trip law: after inserting an event, removing its identifier
/// returns that very event, and a second removal with the same identifier
/// returns nothing.
pub proof fn lemma_add_remove_round_trip(s: Seq<Event>, e: Event)
    ensures
        spec_get(spec_add(s, e), e@.id) == Some(e),
        spec_get(remove_id(spec_add(s, e), e@.id), e@.id) is None,
{
    lemma_remove_id_clears(s, e@.id);
    lemma_get_after_insert(remove_id(s, e@.id), e);
    lemma_remove_id_clears(spec_add(s, e), e@.id);
    lemma_spec_get_membership(remove_id(spec_add(s, e), e@.id), e@.id);
    if spec_get(remove_id(spec_add(s, e), e@.id), e@.id) is Some {
        let found = spec_get(remove_id(spec_add(s, e), e@.id), e@.id)->Some_0;
        let r = remove_id(spec_add(s, e), e@.id);
        let m = choose|m: int| 0 <= m < r.len() && r[m] == found;
        assert(r[m]@.id != e@.id);
    }
}

/// Once an event is inserted its identifier is present, so a further
/// insertion bearing that identifier reports a replacement, never a fresh
/// insertion: `add_event` returns `true` at most once per identifier
/// between removals.
pub proof fn lemma_add_id_present(s: Seq<Event>, e: Event)
    ensures
        spec_get(spec_add(s, e), e@.id) is Some,
{
    lemma_add_remove_round_trip(s, e);
}

/// Every event the range query keeps has an endpoint in the range, every
/// stored event with an endpoint in the range is kept, and nothing else
/// appears.
pub proof fn lemma_range_filter_contains(s: Seq<Event>, lo: DateTime, hi: DateTime)
    ensures
        forall|e: Event|
            #[trigger] range_filter(s, lo, hi).contains(e) <==> (s.contains(e) && in_range(
                e@,
                lo,
                hi,
            )),
    decreases s.len(),
{
    if s.len() > 0 {
        lemma_range_filter_contains(s.drop_first(), lo, hi);
        let rest = range_filter(s.drop_first(), lo, hi);
        let r = range_filter(s, lo, hi);
        assert forall|e: Event| #[trigger] r.contains(e) implies (s.contains(e) && in_range(
            e@,
            lo,
            hi,
        )) by {
            let k = choose|k: int| 0 <= k < r.len() && r[k] == e;
            if in_range(s[0]@, lo, hi) && k == 0 {
                assert(s[0] == e);
            } else {
                let kk: int = if in_range(s[0]@, lo, hi) {
                    k - 1
                } else {
                    k
                };
                assert(rest[kk] == e);
                assert(rest.contains(e));
                let m = choose|m: int| 0 <= m < s.drop_first().len() && s.drop_first()[m] == e;
                assert(s[m + 1] == e);
            }
        }
        assert forall|e: Event| s.contains(e) && in_range(e@, lo, hi) implies #[trigger] r.contains(
            e,
        ) by {
            let k = choose|k: int| 0 <= k < s.len() && s[k] == e;
            if k == 0 {
                assert(r[0] == e);
            } else {
                assert(s.drop_first()[k - 1] == e);
                assert(s.drop_first().contains(e));
                assert(rest.contains(e));
                let m = choose|m: int| 0 <= m < rest.len() && rest[m] == e;
                if in_range(s[0]@, lo, hi) {
                    assert(r[m + 1] == e);
                } else {
                    assert(r[m] == e);
                }
            }
        }
    }
}

/// The range query preserves the calendar invariant, so its result stands
/// in chronological order.
pub proof fn lemma_range_filter_wf(s: Seq<Event>, lo: DateTime, hi: DateTime)
    requires
        calendar_wf(s),
    ensures
        calendar_wf(range_filter(s, lo, hi)),
    decreases s.len(),
{
    if s.len() > 0 {
        assert(calendar_wf(s.drop_first())) by {
            assert forall|i: int, j: int|
                0 <= i < j < s.drop_first().len() implies view_lt(
                #[trigger] s.drop_first()[i]@,
                #[trigger] s.drop_first()[j]@,
            ) && s.drop_first()[i]@.id != s.drop_first()[j]@.id by {
                assert(s.drop_first()[i] == s[i + 1]);
                assert(s.drop_first()[j] == s[j + 1]);
            }
        }
        lemma_range_filter_wf(s.drop_first(), lo, hi);
        if in_range(s[0]@, lo, hi) {
            let rest = range_filter(s.drop_first(), lo, hi);
            lemma_range_filter_contains(s.drop_first(), lo, hi);
            let r = seq![s[0]] + rest;
            assert forall|i: int, j: int| 0 <= i < j < r.len() implies view_lt(
                #[trigger] r[i]@,
                #[trigger] r[j]@,
            ) && r[i]@.id != r[j]@.id by {
                if i == 0 {
                    assert(rest.contains(rest[j - 1]));
                    let m = choose|m: int|
                        0 <= m < s.drop_first().len() && s.drop_first()[m] == rest[j - 1];
                    assert(s.drop_first()[m] == s[m + 1]);
                    assert(view_lt(s[0]@, s[m + 1]@) && s[0]@.id != s[m + 1]@.id);
                } else {
                    assert(rest[i - 1] == r[i] && rest[j - 1] == r[j]);
                }
            }
        }
    }
}

impl Default for EventCalendar {
    /// An empty calendar.
    fn default() -> (r: EventCalendar)
        ensures
            r@ == Seq::<Event>::empty(),
            r.wf(),
    {
        EventCalendar { evts: Vec::new() }
    }
}

impl EventCalendar {
    /// The calendar invariant over the stored events.
    pub open spec fn wf(self) -> bool {
        calendar_wf(self@)
    }

    /// The index of the first stored event bearing the identifier, if any.
    fn find_index(&self, id: u128) -> (r: Option<usize>)
        ensures
            (match r {
                Some(k) => {
                    &&& k < self@.len()
                    &&& self@[k as int]@.id == id
                    &&& forall|j: int| 0 <= j < k ==> self@[j]@.id != id
                },
                None => forall|j: int| 0 <= j < self@.len() ==> self@[j]@.id != id,
            }),
    {
        let n = self.evts.len();
        let mut i: usize = 0;
        while i < n
            invariant
                i <= n,
                n == self@.len(),
                forall|j: int| 0 <= j < i ==> self@[j]@.id != id,
            decreases n - i,
        {
            if self.evts[i].id() == id {
                return Some(i);
            }
            i += 1;
        }
        None
    }

    /// The position where the given event belongs in the stored order: the
    /// first index whose event sorts above it.
    fn find_insert_pos(&self, event: &Event) -> (pos: usize)
        ensures
            pos <= self@.len(),
            forall|j: int| 0 <= j < pos ==> !view_lt(event@, self@[j]@),
            pos < self@.len() ==> view_lt(event@, self@[pos as int]@),
    {
        let n = self.evts.len();
        let mut i: usize = 0;
        while i < n
            invariant
                i <= n,
                n == self@.len(),
                forall|j: int| 0 <= j < i ==> !view_lt(event@, self@[j]@),
            decreases n - i,
        {
            if event_lt(event, &self.evts[i]) {
                return i;
            }
            i += 1;
        }
        n
    }

    /// Inserts the event, replacing any stored event with the same
    /// identifier in both the ordered and the keyed view. Returns whether
    /// the identifier was previously absent: `true` on a fresh insertion,
    /// `false` on a replacement.
    pub fn add_event(&mut self, event: Event) -> (r: bool)
        requires
            old(self).wf(),
        ensures
            final(self).wf(),
            final(self)@ == spec_add(old(self)@, event),
            r == (spec_get(old(self)@, event@.id) is None),
    {
        let ghost s0 = self@;
        let id = event.id();
        let existed: bool;
        match self.find_index(id) {
            Some(k) => {
                proof {
                    lemma_spec_get_at(s0, id, k as int);
                    assert forall|j: int| 0 <= j < s0.len() && j != k implies s0[j]@.id
                        != id by {
                        if j < k {
                        } else {
                            assert(view_lt(s0[k as int]@, s0[j]@) && s0[k as int]@.id != s0[j]@.id);
                        }
                    }
                    lemma_remove_id_at(s0, id, k as int);
                }
                self.evts.remove(k);
                existed = true;
            },
            None => {
                proof {
                    lemma_remove_id_absent(s0, id);
                    lemma_spec_get_membership(s0, id);
                    if spec_get(s0, id) is Some {
                        let found = spec_get(s0, id)->Some_0;
                        let m = choose|m: int| 0 <= m < s0.len() && s0[m] == found;
                        assert(s0[m]@.id != id);
                    }
                }
                existed = false;
            },
        }
        let ghost s1 = self@;
        proof {
            assert(s1 == remove_id(s0, id));
            lemma_remove_id_wf(s0, id);
            lemma_remove_id_clears(s0, id);
        }
        let pos = self.find_insert_pos(&event);
        proof {
            lemma_insert_sorted_at(s1, event, pos as int);
            lemma_insert_sorted_props(s1, event);
        }
        self.evts.insert(pos, event);
        proof {
            assert(self@ =~= s1.take(pos as int) + seq![event] + s1.skip(pos as int));
        }
        !existed
    }

    /// The stored event bearing the identifier, or nothing when the
    /// identifier is absent.
    pub fn get<T: IntoUuid>(&self, id: T) -> (r: Option<&Event>)
        ensures
            (match r {
                Some(e) => spec_get(self@, id.uuid_spec()) == Some(*e),
                None => spec_get(self@, id.uuid_spec()) is None,
            }),
    {
        let key = id.into_uuid();
        match self.find_index(key) {
            Some(k) => {
                proof {
                    lemma_spec_get_at(self@, key, k as int);
                }
                Some(&self.evts[k])
            },
            None => {
                proof {
                    lemma_spec_get_membership(self@, key);
                    if spec_get(self@, key) is Some {
                        let found = spec_get(self@, key)->Some_0;
                        let m = choose|m: int| 0 <= m < self@.len() && self@[m] == found;
                        assert(self@[m]@.id != key);
                    }
                }
                None
            },
        }
    }

    /// Removes the event bearing the identifier from both views and returns
    /// it, or returns nothing and leaves the calendar unchanged when the
    /// identifier is absent.
    pub fn remove<T: IntoUuid>(&mut self, id: T) -> (r: Option<Event>)
        requires
            old(self).wf(),
        ensures
            final(self).wf(),
            final(self)@ == remove_id(old(self)@, id.uuid_spec()),
            r == spec_get(old(self)@, id.uuid_spec()),
    {
        let ghost s0 = self@;
        let key = id.into_uuid();
        match self.find_index(key) {
            Some(k) => {
                proof {
                    lemma_spec_get_at(s0, key, k as int);
                    assert forall|j: int| 0 <= j < s0.len() && j != k implies s0[j]@.id
                        != key by {
                        if j > k {
                            assert(view_lt(s0[k as int]@, s0[j]@) && s0[k as int]@.id
                                != s0[j]@.id);
                        }
                    }
                    lemma_remove_id_at(s0, key, k as int);
                    lemma_remove_id_wf(s0, key);
                }
                let e = self.evts.remove(k);
                Some(e)
            },
            None => {
                proof {
                    lemma_remove_id_absent(s0, key);
                    lemma_spec_get_membership(s0, key);
                    if spec_get(s0, key) is Some {
                        let found = spec_get(s0, key)->Some_0;
                        let m = choose|m: int| 0 <= m < s0.len() && s0[m] == found;
                        assert(s0[m]@.id != key);
                    }
                }
                None
            },
        }
    }

    /// The chronologically earliest stored event, or nothing on an empty
    /// calendar.
    pub fn first_event(&self) -> (r: Option<&Event>)
        requires
            self.wf(),
        ensures
            (match r {
                None => self@.len() == 0,
                Some(e) => {
                    &&& self@.len() > 0
                    &&& *e == self@[0]
                    &&& forall|j: int| 1 <= j < self@.len() ==> view_lt(e@, self@[j]@)
                },
            }),
    {
        if self.evts.len() == 0 {
            None
        } else {
            Some(&self.evts[0])
        }
    }

    /// The stored events whose start or end timestamp falls within
    /// `[start, end]`, both boundaries included, in chronological order.
    pub fn events_in_range(&self, start: DateTime, end: DateTime) -> (r: Vec<Event>)
        ensures
            r@ == range_filter(self@, start, end),
            self.wf() ==> calendar_wf(r@),
    {
        proof {
            if self.wf() {
                lemma_range_filter_wf(self@, start, end);
            }
        }
        let n = self.evts.len();
        let mut out: Vec<Event> = Vec::new();
        let mut i: usize = 0;
        proof {
            assert(self@.skip(0) =~= self@);
        }
        while i < n
            invariant
                i <= n,
                n == self@.len(),
                range_filter(self@, start, end) == out@ + range_filter(
                    self@.skip(i as int),
                    start,
                    end,
                ),
            decreases n - i,
        {
            let e = &self.evts[i];
            let s = e.start();
            let t = e.end();
            let keep = (crate::time::dt_le_exec(&start, &s) && crate::time::dt_le_exec(&s, &end))
                || (crate::time::dt_le_exec(&start, &t) && crate::time::dt_le_exec(&t, &end));
            proof {
                assert(self@.skip(i as int)[0] == self@[i as int]);
                assert(self@.skip(i as int).drop_first() =~= self@.skip(i + 1));
            }
            if keep {
                let ghost prev = out@;
                out.push(e.clone());
                proof {
                    assert(prev + (seq![self@[i as int]] + range_filter(
                        self@.skip(i + 1),
                        start,
                        end,
                    )) =~= out@ + range_filter(self@.skip(i + 1), start, end));
                }
            }
            i += 1;
        }
        proof {
            assert(self@.skip(n as int).len() == 0);
            assert(out@ + range_filter(self@.skip(n as int), start, end) =~= out@);
        }
        out
    }
}

} // verus!
