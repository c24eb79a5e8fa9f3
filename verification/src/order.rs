//! The order of the events in a track: by tick, and among the events of one
//! tick the order in which they were given.
use vstd::prelude::*;
use crate::events::NoteEvent;

verus! {

/// Whether no event comes before an earlier one.
pub open spec fn sorted_by_ticks(events: Seq<NoteEvent>) -> bool {
    forall|i: int, j: int| 0 <= i <= j < events.len() ==> events[i].ticks <= events[j].ticks
}

/// The events that fall on `ticks`, in the order in which `events` has them.
pub open spec fn at_tick(events: Seq<NoteEvent>, ticks: u64) -> Seq<NoteEvent> {
    events.filter(|e: NoteEvent| e.ticks == ticks)
}

/// Whether `sorted` is `events` put in order of tick without reordering the
/// events of any one tick.
pub open spec fn is_stable_sort_of(sorted: Seq<NoteEvent>, events: Seq<NoteEvent>) -> bool {
    &&& sorted_by_ticks(sorted)
    &&& forall|ticks: u64| #[trigger] at_tick(sorted, ticks) == at_tick(events, ticks)
}

/// An event on `ticks` is among the events that fall on `ticks`, so they are
/// not none; and the last event of a sequence is the last of those on its tick.
proof fn lemma_at_tick_last(events: Seq<NoteEvent>, ticks: u64)
    requires
        events.len() > 0,
    ensures
        events.last().ticks == ticks ==> at_tick(events, ticks) == at_tick(
            events.drop_last(),
            ticks,
        ).push(events.last()),
        events.last().ticks != ticks ==> at_tick(events, ticks) == at_tick(
            events.drop_last(),
            ticks,
        ),
{
    assert(events.drop_last().push(events.last()) =~= events);
    events.drop_last().lemma_filter_push(events.last(), |e: NoteEvent| e.ticks == ticks);
}

/// Where some event falls on `ticks`, the sequence holds one that does.
proof fn lemma_at_tick_witness(events: Seq<NoteEvent>, ticks: u64) -> (i: int)
    requires
        at_tick(events, ticks).len() > 0,
    ensures
        0 <= i < events.len(),
        events[i].ticks == ticks,
    decreases events.len(),
{
    if events.len() == 0 {
        events.lemma_filter_len(|e: NoteEvent| e.ticks == ticks);
        0
    } else {
        lemma_at_tick_last(events, ticks);
        if events.last().ticks == ticks {
            events.len() - 1
        } else {
            lemma_at_tick_witness(events.drop_last(), ticks)
        }
    }
}

/// A sequence is fixed by its order and by the events of each tick: two
/// sequences in order of tick that agree on every tick are the same.
pub proof fn lemma_order_fixes_sequence(a: Seq<NoteEvent>, b: Seq<NoteEvent>)
    requires
        sorted_by_ticks(a),
        sorted_by_ticks(b),
        forall|ticks: u64| #[trigger] at_tick(a, ticks) == at_tick(b, ticks),
    ensures
        a == b,
    decreases a.len() + b.len(),
{
    if a.len() == 0 && b.len() == 0 {
        assert(a =~= b);
    } else if a.len() == 0 || b.len() == 0 {
        let full = if a.len() == 0 {
            b
        } else {
            a
        };
        let none = if a.len() == 0 {
            a
        } else {
            b
        };
        let ticks = full.last().ticks;
        lemma_at_tick_last(full, ticks);
        none.lemma_filter_len(|e: NoteEvent| e.ticks == ticks);
        assert(at_tick(a, ticks) == at_tick(b, ticks));
        assert(false);
    } else {
        let ta = a.last().ticks;
        let tb = b.last().ticks;
        lemma_at_tick_last(a, ta);
        lemma_at_tick_last(b, tb);
        assert(at_tick(a, ta) == at_tick(b, ta));
        assert(at_tick(a, tb) == at_tick(b, tb));
        let ia = lemma_at_tick_witness(a, tb);
        let ib = lemma_at_tick_witness(b, ta);
        assert(ta == tb);
        assert(at_tick(a, ta).last() == a.last());
        assert(at_tick(b, ta).last() == b.last());
        assert(at_tick(a.drop_last(), ta) == at_tick(a, ta).drop_last());
        assert(at_tick(b.drop_last(), ta) == at_tick(b, ta).drop_last());
        assert forall|ticks: u64| #[trigger]
            at_tick(a.drop_last(), ticks) == at_tick(b.drop_last(), ticks) by {
            lemma_at_tick_last(a, ticks);
            lemma_at_tick_last(b, ticks);
            assert(at_tick(a, ticks) == at_tick(b, ticks));
        }
        lemma_order_fixes_sequence(a.drop_last(), b.drop_last());
        assert(a =~= a.drop_last().push(a.last()));
        assert(b =~= b.drop_last().push(b.last()));
    }
}

/// There is one stable sort of a sequence and no other.
pub proof fn lemma_stable_sort_unique(
    first: Seq<NoteEvent>,
    second: Seq<NoteEvent>,
    events: Seq<NoteEvent>,
)
    requires
        is_stable_sort_of(first, events),
        is_stable_sort_of(second, events),
    ensures
        first == second,
{
    assert forall|ticks: u64| #[trigger] at_tick(first, ticks) == at_tick(second, ticks) by {
        assert(at_tick(first, ticks) == at_tick(events, ticks));
        assert(at_tick(second, ticks) == at_tick(events, ticks));
    }
    lemma_order_fixes_sequence(first, second);
}

/// Sorting no events gives no events.
pub proof fn lemma_sort_of_nothing(sorted: Seq<NoteEvent>)
    requires
        is_stable_sort_of(sorted, Seq::empty()),
    ensures
        sorted == Seq::<NoteEvent>::empty(),
{
    lemma_stable_sort_unique(sorted, Seq::empty(), Seq::empty());
}

/// Putting an event before the events that are strictly later than it, and
/// putting it at the end, leave the same events on every tick.
proof fn lemma_insert_before_later(sorted: Seq<NoteEvent>, at: int, event: NoteEvent, ticks: u64)
    requires
        0 <= at <= sorted.len(),
        forall|k: int| at <= k < sorted.len() ==> sorted[k].ticks > event.ticks,
    ensures
        at_tick(sorted.insert(at, event), ticks) == at_tick(sorted.push(event), ticks),
{
    let on_tick = |e: NoteEvent| e.ticks == ticks;
    let before = sorted.subrange(0, at);
    let after = sorted.subrange(at, sorted.len() as int);
    assert(sorted =~= before + after);
    assert(sorted.insert(at, event) =~= before.push(event) + after);
    Seq::filter_distributes_over_add(before.push(event), after, on_tick);
    Seq::filter_distributes_over_add(before, after, on_tick);
    before.lemma_filter_push(event, on_tick);
    sorted.lemma_filter_push(event, on_tick);
    if event.ticks == ticks {
        assert(after.all(|e: NoteEvent| !on_tick(e)));
        after.lemma_all_neg_filter_empty(on_tick);
        assert(after.filter(on_tick) =~= Seq::<NoteEvent>::empty());
        assert(before.filter(on_tick).push(event) + after.filter(on_tick) =~= (before.filter(
            on_tick,
        ) + after.filter(on_tick)).push(event));
    }
}

/// Sorts `events` by tick. Events of one tick keep the order in which they
/// stood, so the stop of one note and a start that follows it on the same
/// tick stay in that order.
pub fn sort_events(events: &mut Vec<NoteEvent>)
    ensures
        is_stable_sort_of(final(events)@, old(events)@),
{
    let mut sorted: Vec<NoteEvent> = Vec::new();
    let mut i: usize = 0;
    assert(events@.subrange(0, 0) =~= sorted@);
    while i < events.len()
        invariant
            i <= events@.len(),
            events@ == old(events)@,
            is_stable_sort_of(sorted@, events@.subrange(0, i as int)),
        decreases events@.len() - i,
    {
        let event = events[i];
        let mut at: usize = sorted.len();
        while at > 0 && sorted[at - 1].ticks > event.ticks
            invariant
                at <= sorted@.len(),
                forall|k: int| at <= k < sorted@.len() ==> sorted@[k].ticks > event.ticks,
            decreases at,
        {
            at = at - 1;
        }
        let ghost before = sorted@;
        let ghost seen = events@.subrange(0, i as int);
        sorted.insert(at, event);
        proof {
            assert(events@.subrange(0, i + 1) =~= seen.push(event));
            assert forall|ticks: u64| #[trigger]
                at_tick(sorted@, ticks) == at_tick(seen.push(event), ticks) by {
                lemma_insert_before_later(before, at as int, event, ticks);
                before.lemma_filter_push(event, |e: NoteEvent| e.ticks == ticks);
                seen.lemma_filter_push(event, |e: NoteEvent| e.ticks == ticks);
                assert(at_tick(before, ticks) == at_tick(seen, ticks));
            }
            assert(sorted_by_ticks(sorted@)) by {
                assert forall|p: int, q: int| 0 <= p <= q < sorted@.len() implies sorted@[p].ticks
                    <= sorted@[q].ticks by {
                    let bp = if p < at {
                        p
                    } else {
                        p - 1
                    };
                    let bq = if q < at {
                        q
                    } else {
                        q - 1
                    };
                    if p != at && q != at {
                        assert(sorted@[p] == before[bp] && sorted@[q] == before[bq]);
                    } else if p == at && q != at {
                        assert(sorted@[q] == before[bq]);
                    } else if q == at && p != at {
                        assert(sorted@[p] == before[bp]);
                        if at > 0 {
                            assert(before[bp].ticks <= before[at - 1].ticks);
                        }
                    }
                }
            }
        }
        i = i + 1;
    }
    assert(events@.subrange(0, i as int) == events@);
    *events = sorted;
}

} // verus!
