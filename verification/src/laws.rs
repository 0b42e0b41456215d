//! Properties of a scheduler tick (`process`, which `compute_due_breaks`
//! computes), proved for every list of breaks and every state.
use crate::calendar::{dt_le, dt_lt, DateTime};
use crate::models::Break;
use crate::state::StateView;
use crate::trigger::{active_on, process, scheduled_at, step, within_tolerance};
use vstd::prelude::*;

verus! {

/// Break `id` was handled on `now`'s date and is not waiting on a postpone.
pub open spec fn handled_today(st: StateView, now: DateTime, id: u128) -> bool {
    &&& st.0.contains_key(id)
    &&& st.0[id] == now.date
    &&& !st.1.contains_key(id)
}

/// Break `b` is due at `now` given the postponements `postponed` that were
/// pending when the tick began: it is enabled and scheduled on today's
/// weekday, and either its postponed time has come, or its scheduled time
/// today has come and is at most the tolerance ago.
pub open spec fn due_now(now: DateTime, b: Break, postponed: Map<u128, DateTime>) -> bool {
    &&& active_on(b, now.date)
    &&& if postponed.contains_key(b.id) {
        dt_le(postponed[b.id], now)
    } else {
        dt_le(scheduled_at(now.date, b), now) && within_tolerance(now, scheduled_at(now.date, b))
    }
}

/// Some break in `breaks` with id `id` is due at `now`.
pub open spec fn some_break_due(
    now: DateTime,
    breaks: Seq<Break>,
    postponed: Map<u128, DateTime>,
    id: u128,
) -> bool {
    exists|i: int| 0 <= i < breaks.len() && breaks[i].id == id && due_now(now, breaks[i], postponed)
}

/// What a tick does to the state, and what every id it returns satisfies.
pub open spec fn tick_facts(now: DateTime, breaks: Seq<Break>, st: StateView) -> bool {
    let (st2, due) = process(now, breaks, st);
    &&& forall|id: u128| #[trigger]
        st2.1.contains_key(id) ==> st.1.contains_key(id) && st2.1[id] == st.1[id]
    &&& forall|id: u128| #[trigger]
        st2.0.contains_key(id) ==> st2.0[id] == now.date || (st.0.contains_key(id) && st2.0[id]
            == st.0[id])
    &&& forall|id: u128| st.0.contains_key(id) ==> #[trigger] st2.0.contains_key(id)
    &&& forall|id: u128| #[trigger]
        st.1.contains_key(id) && !st2.1.contains_key(id) ==> handled_today(st2, now, id)
    &&& st2.2 == st.2
    &&& forall|k: int| 0 <= k < due.len() ==> handled_today(st2, now, #[trigger] due[k])
    &&& forall|k: int| 0 <= k < due.len() ==> some_break_due(now, breaks, st.1, #[trigger] due[k])
    &&& due.no_duplicates()
}

proof fn lemma_tick_facts(now: DateTime, breaks: Seq<Break>, st: StateView)
    ensures
        tick_facts(now, breaks, st),
    decreases breaks.len(),
{
    if breaks.len() > 0 {
        let prefix = breaks.drop_last();
        lemma_tick_facts(now, prefix, st);
        let (st1, due1) = process(now, prefix, st);
        let b = breaks.last();
        let (st2, due) = process(now, breaks, st);
        assert((st2, due) == step(now, b, st1, due1));
        assert forall|k: int| 0 <= k < due1.len() implies some_break_due(
            now,
            breaks,
            st.1,
            #[trigger] due1[k],
        ) by {
            assert(some_break_due(now, prefix, st.1, due1[k]));
            let i = choose|i: int|
                0 <= i < prefix.len() && prefix[i].id == due1[k] && due_now(now, prefix[i], st.1);
            assert(breaks[i] == prefix[i]);
        }
        if due.len() > due1.len() {
            assert(due == due1.push(b.id));
            assert(!due1.contains(b.id)) by {
                if due1.contains(b.id) {
                    let k = choose|k: int| 0 <= k < due1.len() && due1[k] == b.id;
                    assert(handled_today(st1, now, due1[k]));
                }
            }
            assert(some_break_due(now, breaks, st.1, b.id)) by {
                assert(breaks[breaks.len() - 1] == b);
                if st1.1.contains_key(b.id) {
                    assert(st.1.contains_key(b.id));
                } else {
                    assert(!st.1.contains_key(b.id)) by {
                        if st.1.contains_key(b.id) {
                            assert(handled_today(st1, now, b.id));
                        }
                    }
                }
            }
            assert forall|k: int| 0 <= k < due.len() implies some_break_due(
                now,
                breaks,
                st.1,
                #[trigger] due[k],
            ) by {
                if k < due1.len() {
                    assert(due[k] == due1[k]);
                }
            }
        } else {
            assert(due == due1);
        }
    }
}

/// A tick only ever returns breaks that are due: enabled, scheduled on
/// today's weekday, and either postponed to a time that has come, or at
/// their scheduled time today and no more than the tolerance late (a break
/// missed by more than that is skipped, never fired late). No break is
/// returned twice.
pub proof fn lemma_fired_breaks_are_due(now: DateTime, breaks: Seq<Break>, st: StateView)
    ensures
        ({
            let (st2, due) = process(now, breaks, st);
            &&& forall|k: int|
                0 <= k < due.len() ==> some_break_due(now, breaks, st.1, #[trigger] due[k])
            &&& due.no_duplicates()
        }),
{
    lemma_tick_facts(now, breaks, st);
}

/// A break handled today (fired or missed) and not postponed since does not
/// fire again on the same day, and stays handled.
pub proof fn lemma_handled_stays_quiet(
    now: DateTime,
    breaks: Seq<Break>,
    st: StateView,
    id: u128,
)
    requires
        handled_today(st, now, id),
    ensures
        ({
            let (st2, due) = process(now, breaks, st);
            &&& !due.contains(id)
            &&& handled_today(st2, now, id)
        }),
    decreases breaks.len(),
{
    if breaks.len() > 0 {
        let prefix = breaks.drop_last();
        lemma_handled_stays_quiet(now, prefix, st, id);
        let (st1, due1) = process(now, prefix, st);
        assert(process(now, breaks, st) == step(now, breaks.last(), st1, due1));
    }
}

/// Firing is idempotent within a day: a second tick on the same date, run on
/// the state the first left behind, fires none of the breaks the first one
/// fired.
pub proof fn lemma_same_day_idempotent(
    now1: DateTime,
    now2: DateTime,
    breaks1: Seq<Break>,
    breaks2: Seq<Break>,
    st: StateView,
)
    requires
        now1.date == now2.date,
    ensures
        ({
            let (st1, due1) = process(now1, breaks1, st);
            let (st2, due2) = process(now2, breaks2, st1);
            forall|k: int| 0 <= k < due1.len() ==> !due2.contains(#[trigger] due1[k])
        }),
{
    lemma_tick_facts(now1, breaks1, st);
    let (st1, due1) = process(now1, breaks1, st);
    assert forall|k: int| 0 <= k < due1.len() implies !process(now2, breaks2, st1).1.contains(
        #[trigger] due1[k],
    ) by {
        assert(handled_today(st1, now1, due1[k]));
        assert(handled_today(st1, now2, due1[k]));
        lemma_handled_stays_quiet(now2, breaks2, st1, due1[k]);
    }
}

/// The ids of the list are pairwise distinct.
pub open spec fn unique_ids(breaks: Seq<Break>) -> bool {
    forall|i: int, j: int|
        0 <= i < breaks.len() && 0 <= j < breaks.len() && #[trigger] breaks[i].id
            == #[trigger] breaks[j].id ==> i == j
}

/// A break missed by more than the tolerance (the app was asleep or closed
/// through its scheduled time) is not fired late.
pub proof fn lemma_missed_break_not_fired(
    now: DateTime,
    breaks: Seq<Break>,
    st: StateView,
    i: int,
)
    requires
        unique_ids(breaks),
        0 <= i < breaks.len(),
        !st.1.contains_key(breaks[i].id),
        dt_le(scheduled_at(now.date, breaks[i]), now),
        !within_tolerance(now, scheduled_at(now.date, breaks[i])),
    ensures
        !process(now, breaks, st).1.contains(breaks[i].id),
{
    lemma_tick_facts(now, breaks, st);
    let due = process(now, breaks, st).1;
    if due.contains(breaks[i].id) {
        let k = choose|k: int| 0 <= k < due.len() && due[k] == breaks[i].id;
        assert(some_break_due(now, breaks, st.1, due[k]));
    }
}

/// A postponed break fires once its postponed time has come, even when it
/// already fired earlier the same day, and its postponement is used up.
pub proof fn lemma_postponed_break_fires(
    now: DateTime,
    breaks: Seq<Break>,
    st: StateView,
    i: int,
)
    requires
        unique_ids(breaks),
        0 <= i < breaks.len(),
        active_on(breaks[i], now.date),
        st.1.contains_key(breaks[i].id),
        dt_le(st.1[breaks[i].id], now),
    ensures
        process(now, breaks, st).1.contains(breaks[i].id),
        !process(now, breaks, st).0.1.contains_key(breaks[i].id),
    decreases breaks.len(),
{
    lemma_tick_facts(now, breaks, st);
    let prefix = breaks.drop_last();
    let (st1, due1) = process(now, prefix, st);
    assert(process(now, breaks, st) == step(now, breaks.last(), st1, due1));
    if i == breaks.len() - 1 {
        assert forall|j: int| 0 <= j < prefix.len() implies (#[trigger] prefix[j]).id
            != breaks[i].id by {
            assert(prefix[j] == breaks[j]);
        }
        lemma_pending_untouched(now, prefix, st, breaks[i].id);
        assert(breaks.last() == breaks[i]);
        let due = process(now, breaks, st).1;
        assert(due == due1.push(breaks[i].id));
        assert(due[due1.len() as int] == breaks[i].id);
    } else {
        assert(unique_ids(prefix)) by {
            assert forall|a: int, c: int|
                0 <= a < prefix.len() && 0 <= c < prefix.len() && #[trigger] prefix[a].id
                    == #[trigger] prefix[c].id implies a == c by {
                assert(breaks[a] == prefix[a] && breaks[c] == prefix[c]);
            }
        }
        assert(prefix[i] == breaks[i]);
        lemma_postponed_break_fires(now, prefix, st, i);
        assert(breaks.last().id != breaks[i].id);
        assert(due1.contains(breaks[i].id));
        let k = choose|k: int| 0 <= k < due1.len() && due1[k] == breaks[i].id;
        let due = process(now, breaks, st).1;
        assert(due[k] == breaks[i].id);
        assert(!st1.1.contains_key(breaks[i].id));
    }
}

/// Breaks with other ids leave the postponement of `id` alone.
proof fn lemma_pending_untouched(now: DateTime, breaks: Seq<Break>, st: StateView, id: u128)
    requires
        forall|j: int| 0 <= j < breaks.len() ==> (#[trigger] breaks[j]).id != id,
    ensures
        process(now, breaks, st).0.1.contains_key(id) == st.1.contains_key(id),
        process(now, breaks, st).0.1[id] == st.1[id],
        process(now, breaks, st).0.0.contains_key(id) == st.0.contains_key(id),
        process(now, breaks, st).0.0[id] == st.0[id],
    decreases breaks.len(),
{
    if breaks.len() > 0 {
        let prefix = breaks.drop_last();
        assert forall|j: int| 0 <= j < prefix.len() implies (#[trigger] prefix[j]).id != id by {
            assert(prefix[j] == breaks[j]);
        }
        lemma_pending_untouched(now, prefix, st, id);
        let (st1, due1) = process(now, prefix, st);
        assert(breaks.last() == breaks[breaks.len() - 1]);
        assert(process(now, breaks, st) == step(now, breaks.last(), st1, due1));
    }
}

/// A break cancelled for today does not fire today unless it is postponed.
pub proof fn lemma_skipped_today_blocks(now: DateTime, breaks: Seq<Break>, st: StateView, id: u128)
    requires
        st.2.contains_key(id),
        st.2[id] == now.date,
        !st.1.contains_key(id),
    ensures
        !process(now, breaks, st).1.contains(id),
    decreases breaks.len(),
{
    if breaks.len() > 0 {
        let prefix = breaks.drop_last();
        lemma_skipped_today_blocks(now, prefix, st, id);
        lemma_tick_facts(now, prefix, st);
        let (st1, due1) = process(now, prefix, st);
        assert(process(now, breaks, st) == step(now, breaks.last(), st1, due1));
    }
}

/// A cancellation only covers the day it was made for: a cancel entry for
/// any other date changes nothing about a tick.
pub proof fn lemma_skip_of_other_day_ignored(
    now: DateTime,
    breaks: Seq<Break>,
    st: StateView,
    id: u128,
)
    requires
        st.2.contains_key(id),
        st.2[id] != now.date,
    ensures
        process(now, breaks, st).1 == process(now, breaks, (st.0, st.1, st.2.remove(id))).1,
        process(now, breaks, st).0.0 == process(now, breaks, (st.0, st.1, st.2.remove(id))).0.0,
        process(now, breaks, st).0.1 == process(now, breaks, (st.0, st.1, st.2.remove(id))).0.1,
    decreases breaks.len(),
{
    let st_b = (st.0, st.1, st.2.remove(id));
    if breaks.len() > 0 {
        let prefix = breaks.drop_last();
        lemma_skip_of_other_day_ignored(now, prefix, st, id);
        lemma_tick_facts(now, prefix, st);
        lemma_tick_facts(now, prefix, st_b);
        let (st1, due1) = process(now, prefix, st);
        let (st1b, due1b) = process(now, prefix, st_b);
        assert(process(now, breaks, st) == step(now, breaks.last(), st1, due1));
        assert(process(now, breaks, st_b) == step(now, breaks.last(), st1b, due1b));
        assert(st1.2 == st.2);
        assert(st1b.2 == st.2.remove(id));
    }
}

/// A break that has not fired and was not cancelled today, and is not
/// postponed, fires at its scheduled time on any day it is scheduled, within
/// the tolerance: firing on an earlier day (or a cancel for another day), or
/// nothing remembered at all (as after it was created, edited or had its
/// state cleared), does not hold it back. It is then recorded as fired today.
pub proof fn lemma_fresh_break_fires_on_schedule(
    now: DateTime,
    breaks: Seq<Break>,
    st: StateView,
    i: int,
)
    requires
        unique_ids(breaks),
        0 <= i < breaks.len(),
        active_on(breaks[i], now.date),
        !(st.0.contains_key(breaks[i].id) && st.0[breaks[i].id] == now.date),
        !st.1.contains_key(breaks[i].id),
        !(st.2.contains_key(breaks[i].id) && st.2[breaks[i].id] == now.date),
        dt_le(scheduled_at(now.date, breaks[i]), now),
        within_tolerance(now, scheduled_at(now.date, breaks[i])),
    ensures
        process(now, breaks, st).1.contains(breaks[i].id),
        process(now, breaks, st).0.0.contains_key(breaks[i].id),
        process(now, breaks, st).0.0[breaks[i].id] == now.date,
    decreases breaks.len(),
{
    lemma_tick_facts(now, breaks, st);
    let prefix = breaks.drop_last();
    lemma_tick_facts(now, prefix, st);
    let (st1, due1) = process(now, prefix, st);
    assert(process(now, breaks, st) == step(now, breaks.last(), st1, due1));
    if i == breaks.len() - 1 {
        assert forall|j: int| 0 <= j < prefix.len() implies (#[trigger] prefix[j]).id
            != breaks[i].id by {
            assert(prefix[j] == breaks[j]);
        }
        lemma_pending_untouched(now, prefix, st, breaks[i].id);
        assert(breaks.last() == breaks[i]);
        assert(!dt_lt(now, scheduled_at(now.date, breaks[i])));
        let due = process(now, breaks, st).1;
        assert(due == due1.push(breaks[i].id));
        assert(due[due1.len() as int] == breaks[i].id);
    } else {
        assert(unique_ids(prefix)) by {
            assert forall|a: int, c: int|
                0 <= a < prefix.len() && 0 <= c < prefix.len() && #[trigger] prefix[a].id
                    == #[trigger] prefix[c].id implies a == c by {
                assert(breaks[a] == prefix[a] && breaks[c] == prefix[c]);
            }
        }
        assert(prefix[i] == breaks[i]);
        lemma_fresh_break_fires_on_schedule(now, prefix, st, i);
        let k = choose|k: int| 0 <= k < due1.len() && due1[k] == breaks[i].id;
        let due = process(now, breaks, st).1;
        assert(due[k] == breaks[i].id);
    }
}

/// A break that is no longer in the list (deleted) never fires, whatever the
/// scheduler still remembers about it.
pub proof fn lemma_deleted_break_never_fires(
    now: DateTime,
    breaks: Seq<Break>,
    st: StateView,
    id: u128,
)
    requires
        forall|j: int| 0 <= j < breaks.len() ==> (#[trigger] breaks[j]).id != id,
    ensures
        !process(now, breaks, st).1.contains(id),
{
    lemma_tick_facts(now, breaks, st);
    let due = process(now, breaks, st).1;
    if due.contains(id) {
        let k = choose|k: int| 0 <= k < due.len() && due[k] == id;
        assert(some_break_due(now, breaks, st.1, due[k]));
    }
}

/// At `now`, a tick leaves break `b` alone: it is not active today, or its
/// postponement has not come yet, or (not postponed) it is already handled
/// or cancelled today, or its time today has not come yet.
pub open spec fn quiet(st: StateView, now: DateTime, b: Break) -> bool {
    ||| !active_on(b, now.date)
    ||| (st.1.contains_key(b.id) && !dt_le(st.1[b.id], now))
    ||| (!st.1.contains_key(b.id) && ((st.0.contains_key(b.id) && st.0[b.id] == now.date) || (
    st.2.contains_key(b.id) && st.2[b.id] == now.date) || dt_lt(now, scheduled_at(now.date, b))))
}

/// A step leaves every quiet break quiet and makes its own break quiet.
proof fn lemma_step_quiets(now: DateTime, b: Break, st: StateView, due: Seq<u128>)
    ensures
        quiet(step(now, b, st, due).0, now, b),
        forall|e: Break| quiet(st, now, e) ==> #[trigger] quiet(step(now, b, st, due).0, now, e),
{
}

/// Every break of the list is quiet after a tick over the list.
proof fn lemma_tick_quiets(now: DateTime, breaks: Seq<Break>, st: StateView)
    ensures
        forall|i: int| 0 <= i < breaks.len() ==> quiet(process(now, breaks, st).0, now, #[trigger] breaks[i]),
    decreases breaks.len(),
{
    if breaks.len() > 0 {
        let prefix = breaks.drop_last();
        lemma_tick_quiets(now, prefix, st);
        let (st1, due1) = process(now, prefix, st);
        lemma_step_quiets(now, breaks.last(), st1, due1);
        assert forall|i: int| 0 <= i < breaks.len() implies quiet(
            process(now, breaks, st).0,
            now,
            #[trigger] breaks[i],
        ) by {
            if i < prefix.len() {
                assert(breaks[i] == prefix[i]);
            }
        }
    }
}

/// A tick over quiet breaks fires nothing and changes nothing.
proof fn lemma_quiet_tick(now: DateTime, breaks: Seq<Break>, st: StateView)
    requires
        forall|i: int| 0 <= i < breaks.len() ==> quiet(st, now, #[trigger] breaks[i]),
    ensures
        process(now, breaks, st) == (st, Seq::<u128>::empty()),
    decreases breaks.len(),
{
    if breaks.len() > 0 {
        let prefix = breaks.drop_last();
        assert forall|i: int| 0 <= i < prefix.len() implies quiet(st, now, #[trigger] prefix[i]) by {
            assert(prefix[i] == breaks[i]);
        }
        lemma_quiet_tick(now, prefix, st);
        assert(breaks.last() == breaks[breaks.len() - 1]);
    }
}

/// Repeating a tick at the same moment over the same breaks fires nothing
/// and changes nothing.
pub proof fn lemma_repeated_tick_is_quiet(now: DateTime, breaks: Seq<Break>, st: StateView)
    ensures
        process(now, breaks, process(now, breaks, st).0) == (
            process(now, breaks, st).0,
            Seq::<u128>::empty(),
        ),
{
    lemma_tick_quiets(now, breaks, st);
    lemma_quiet_tick(now, breaks, process(now, breaks, st).0);
}

} // verus!
