//! When the next break will actually fire, given what the scheduler
//! remembers: a postponed break counts at its postponed time, and today's
//! occurrence of a break that already fired or was cancelled today drops
//! out. Drives the tray's countdown.
use crate::calendar::{add_days, dt_le, dt_lt, is_before, spec_add_days, Date, DateTime, Time};
use crate::models::Break;
use crate::state::{SchedulerState, StateView};
use crate::trigger::{active_on, counts, day_after, scheduled_at, start_times_wf};
use vstd::prelude::*;

verus! {

broadcast use vstd::std_specs::hash::group_hash_axioms;

/// Every postponed time the state holds is a valid moment.
pub open spec fn postponed_wf(st: StateView) -> bool {
    forall|id: u128| #[trigger] st.1.contains_key(id) ==> st.1[id].wf()
}

/// The first of the dates `d + k`, ..., `d + 7` on which `b` is active, as
/// far as the dates can be represented.
pub open spec fn first_active_day(b: Break, d: Date, k: int) -> Option<Date>
    decreases 8 - k,
{
    if k >= 8 {
        None
    } else {
        match spec_add_days(d, k) {
            None => None,
            Some(day) => if active_on(b, day) {
                Some(day)
            } else {
                first_active_day(b, d, k + 1)
            },
        }
    }
}

/// When a break postponed to `p` fires: at `p`, or right away if `p` has
/// passed, provided the break is active that day; else at the start of the
/// next day (within a week) on which it is active.
pub open spec fn postponed_firing(now: DateTime, b: Break, p: DateTime) -> Option<DateTime> {
    let m = if dt_le(now, p) {
        p
    } else {
        now
    };
    match first_active_day(b, m.date, 0) {
        None => None,
        Some(day) => if day == m.date {
            Some(m)
        } else {
            Some(DateTime { date: day, time: Time { secs: 0, frac: 0 } })
        },
    }
}

/// Break `id` already fired, or was cancelled, on `now`'s date.
pub open spec fn done_today(st: StateView, now: DateTime, id: u128) -> bool {
    ||| (st.0.contains_key(id) && st.0[id] == now.date)
    ||| (st.2.contains_key(id) && st.2[id] == now.date)
}

/// The first occurrence of `b` on the dates `now + k`, ..., `now + 7` that is
/// not in the past, leaving out today's when it is already done.
pub open spec fn first_regular(now: DateTime, b: Break, st: StateView, k: int) -> Option<DateTime>
    decreases 8 - k,
{
    if k >= 8 {
        None
    } else {
        match spec_add_days(now.date, k) {
            None => None,
            Some(day) => if active_on(b, day) && dt_le(now, scheduled_at(day, b)) && !(k == 0
                && done_today(st, now, b.id)) {
                Some(scheduled_at(day, b))
            } else {
                first_regular(now, b, st, k + 1)
            },
        }
    }
}

/// When break `b` fires next, if within the coming week.
pub open spec fn next_firing_of(now: DateTime, b: Break, st: StateView) -> Option<DateTime> {
    if !b.enabled {
        None
    } else if st.1.contains_key(b.id) {
        postponed_firing(now, b, st.1[b.id])
    } else {
        first_regular(now, b, st, 0)
    }
}

/// The earlier of two optional moments.
pub open spec fn earlier(a: Option<DateTime>, b: Option<DateTime>) -> Option<DateTime> {
    match (a, b) {
        (None, y) => y,
        (x, None) => x,
        (Some(x), Some(y)) => if dt_lt(y, x) {
            Some(y)
        } else {
            Some(x)
        },
    }
}

/// When the first of `breaks` fires next.
pub open spec fn next_firing(now: DateTime, breaks: Seq<Break>, st: StateView) -> Option<DateTime>
    decreases breaks.len(),
{
    if breaks.len() == 0 {
        None
    } else {
        earlier(next_firing(now, breaks.drop_last(), st), next_firing_of(now, breaks.last(), st))
    }
}

fn first_active_day_from(b: &Break, d: Date) -> (r: Option<Date>)
    requires
        d.wf(),
    ensures
        r == first_active_day(*b, d, 0),
        r matches Some(day) ==> day.wf(),
{
    let mut k: i64 = 0;
    while k < 8
        invariant
            d.wf(),
            0 <= k <= 8,
            first_active_day(*b, d, 0) == first_active_day(*b, d, k as int),
        decreases 8 - k,
    {
        match add_days(d, k) {
            None => {
                return None;
            },
            Some(day) => {
                if b.enabled && b.scheduled_on(crate::calendar::weekday_of(day)) {
                    return Some(day);
                }
            },
        }
        k = k + 1;
    }
    None
}

fn postponed_firing_of(now: DateTime, b: &Break, p: DateTime) -> (r: Option<DateTime>)
    requires
        now.wf(),
        p.wf(),
    ensures
        r == postponed_firing(now, *b, p),
        r matches Some(m) ==> m.wf(),
{
    let m = if is_before(&p, &now) {
        now
    } else {
        p
    };
    match first_active_day_from(b, m.date) {
        None => None,
        Some(day) => {
            if day == m.date {
                Some(m)
            } else {
                Some(DateTime { date: day, time: Time { secs: 0, frac: 0 } })
            }
        },
    }
}

fn first_regular_occurrence(now: DateTime, b: &Break, state: &SchedulerState) -> (r: Option<
    DateTime,
>)
    requires
        now.wf(),
        b.start_time.wf(),
    ensures
        r == first_regular(now, *b, state@, 0),
        r matches Some(m) ==> m.wf(),
{
    let mut k: i64 = 0;
    while k < 8
        invariant
            now.wf(),
            b.start_time.wf(),
            0 <= k <= 8,
            first_regular(now, *b, state@, 0) == first_regular(now, *b, state@, k as int),
        decreases 8 - k,
    {
        match add_days(now.date, k) {
            None => {
                return None;
            },
            Some(day) => {
                let c = DateTime::at(day, b.start_time);
                if b.enabled && b.scheduled_on(crate::calendar::weekday_of(day)) && !is_before(
                    &c,
                    &now,
                ) {
                    let done = k == 0 && (match state.last_fired.get(&b.id) {
                        Some(d) => *d == now.date,
                        None => false,
                    } || match state.skipped_today.get(&b.id) {
                        Some(d) => *d == now.date,
                        None => false,
                    });
                    if !done {
                        return Some(c);
                    }
                }
            },
        }
        k = k + 1;
    }
    None
}

/// When break `b` fires next, if within the coming week.
pub fn next_firing_of_break(now: DateTime, b: &Break, state: &SchedulerState) -> (r: Option<
    DateTime,
>)
    requires
        now.wf(),
        b.start_time.wf(),
        postponed_wf(state@),
    ensures
        r == next_firing_of(now, *b, state@),
        r matches Some(m) ==> m.wf(),
{
    if !b.enabled {
        return None;
    }
    match state.postponed.get(&b.id) {
        Some(p) => postponed_firing_of(now, b, *p),
        None => first_regular_occurrence(now, b, state),
    }
}

/// When the first of `breaks` fires next, if within the coming week.
pub fn next_firing_time(now: DateTime, breaks: &[Break], state: &SchedulerState) -> (r: Option<
    DateTime,
>)
    requires
        now.wf(),
        start_times_wf(breaks@),
        postponed_wf(state@),
    ensures
        r == next_firing(now, breaks@, state@),
        r matches Some(m) ==> m.wf(),
{
    let mut soonest: Option<DateTime> = None;
    let mut i: usize = 0;
    while i < breaks.len()
        invariant
            now.wf(),
            start_times_wf(breaks@),
            postponed_wf(state@),
            i <= breaks.len(),
            soonest == next_firing(now, breaks@.subrange(0, i as int), state@),
            soonest matches Some(m) ==> m.wf(),
        decreases breaks.len() - i,
    {
        proof {
            assert(breaks@.subrange(0, i + 1).drop_last() == breaks@.subrange(0, i as int));
            assert(breaks@.subrange(0, i + 1).last() == breaks@[i as int]);
            assert(breaks@[i as int].start_time.wf());
        }
        let f = next_firing_of_break(now, &breaks[i], state);
        soonest = match (soonest, f) {
            (None, y) => y,
            (x, None) => x,
            (Some(x), Some(y)) => if is_before(&y, &x) {
                Some(y)
            } else {
                Some(x)
            },
        };
        i = i + 1;
    }
    proof {
        assert(breaks@.subrange(0, breaks@.len() as int) == breaks@);
    }
    soonest
}

/// The next firing is the earliest of the breaks' own next firings, and it
/// is one of them.
pub proof fn lemma_next_firing_is_earliest(now: DateTime, breaks: Seq<Break>, st: StateView)
    ensures
        forall|i: int|
            0 <= i < breaks.len() && #[trigger] next_firing_of(now, breaks[i], st) is Some ==> (
            next_firing(now, breaks, st) matches Some(m) && dt_le(
                m,
                next_firing_of(now, breaks[i], st)->0,
            )),
        next_firing(now, breaks, st) matches Some(m) ==> exists|i: int|
            0 <= i < breaks.len() && #[trigger] next_firing_of(now, breaks[i], st) == Some(m),
    decreases breaks.len(),
{
    if breaks.len() > 0 {
        let prefix = breaks.drop_last();
        lemma_next_firing_is_earliest(now, prefix, st);
        assert forall|i: int|
            0 <= i < breaks.len() && #[trigger] next_firing_of(now, breaks[i], st) is Some implies (
            next_firing(now, breaks, st) matches Some(m) && dt_le(
                m,
                next_firing_of(now, breaks[i], st)->0,
            )) by {
            if i < prefix.len() {
                assert(breaks[i] == prefix[i]);
            }
        }
        if next_firing(now, breaks, st) is Some {
            let m = next_firing(now, breaks, st)->0;
            if next_firing_of(now, breaks.last(), st) == Some(m) {
                assert(breaks[breaks.len() - 1] == breaks.last());
            } else {
                let i = choose|i: int|
                    0 <= i < prefix.len() && #[trigger] next_firing_of(now, prefix[i], st)
                        == Some(m);
                assert(breaks[i] == prefix[i]);
            }
        }
    }
}

/// A disabled break never fires, so it never sets the countdown: its next
/// firing is `None`, whatever the state says about it.
pub proof fn lemma_disabled_break_never_next(now: DateTime, b: Break, st: StateView)
    requires
        !b.enabled,
    ensures
        next_firing_of(now, b, st) is None,
{
}

/// The countdown always counts to a firing of an enabled break of the list.
pub proof fn lemma_next_firing_is_enabled(now: DateTime, breaks: Seq<Break>, st: StateView)
    ensures
        next_firing(now, breaks, st) matches Some(m) ==> exists|i: int|
            0 <= i < breaks.len() && breaks[i].enabled && #[trigger] next_firing_of(
                now,
                breaks[i],
                st,
            ) == Some(m),
{
    lemma_next_firing_is_earliest(now, breaks, st);
    if next_firing(now, breaks, st) is Some {
        let m = next_firing(now, breaks, st)->0;
        let i = choose|i: int|
            0 <= i < breaks.len() && #[trigger] next_firing_of(now, breaks[i], st) == Some(m);
        if !breaks[i].enabled {
            lemma_disabled_break_never_next(now, breaks[i], st);
        }
    }
}

/// Scanning from offset `k`: what `first_regular` finds is the earliest
/// occurrence that counts for `next_occurrence` at an offset from `k` on,
/// for a break neither fired nor cancelled today.
proof fn lemma_first_regular_from(now: DateTime, b: Break, st: StateView, k: int)
    requires
        now.wf(),
        0 <= k <= 8,
        !(st.0.contains_key(b.id) && st.0[b.id] == now.date),
        !(st.2.contains_key(b.id) && st.2[b.id] == now.date),
    ensures
        first_regular(now, b, st, k) matches Some(m) ==> exists|o: int|
            k <= o < 8 && #[trigger] counts(now, b, o) && m == scheduled_at(day_after(now, o), b),
        forall|o: int|
            k <= o < 8 && #[trigger] counts(now, b, o) ==> (first_regular(now, b, st, k) matches Some(
                m,
            ) && dt_le(m, scheduled_at(day_after(now, o), b))),
    decreases 8 - k,
{
    if k < 8 {
        lemma_first_regular_from(now, b, st, k + 1);
        match spec_add_days(now.date, k) {
            None => {
                assert forall|o: int| k <= o < 8 implies !#[trigger] counts(now, b, o) by {}
            },
            Some(day) => {
                assert(day == day_after(now, k));
                if counts(now, b, k) {
                    assert(first_regular(now, b, st, k) == Some(scheduled_at(day, b)));
                    assert forall|o: int|
                        k <= o < 8 && #[trigger] counts(now, b, o) implies dt_le(
                        scheduled_at(day, b),
                        scheduled_at(day_after(now, o), b),
                    ) by {
                        if o > k {
                            assert(dt_lt(scheduled_at(day, b), scheduled_at(day_after(now, o), b)));
                        }
                    }
                } else {
                    assert(first_regular(now, b, st, k) == first_regular(now, b, st, k + 1));
                }
            },
        }
    }
}

/// For a break that is not postponed and has neither fired nor been
/// cancelled today, the next firing is exactly its next occurrence in the
/// sense of `next_occurrence`: the first scheduled moment not before `now`
/// on an active day within the week, today's included. When it fired on an
/// earlier day makes no difference.
pub proof fn lemma_regular_next_firing(now: DateTime, b: Break, st: StateView)
    requires
        now.wf(),
        !st.1.contains_key(b.id),
        !(st.0.contains_key(b.id) && st.0[b.id] == now.date),
        !(st.2.contains_key(b.id) && st.2[b.id] == now.date),
    ensures
        next_firing_of(now, b, st) is None <==> !exists|o: int| 0 <= o < 8 && #[trigger] counts(now, b, o),
        next_firing_of(now, b, st) matches Some(m) ==> exists|o: int|
            0 <= o < 8 && #[trigger] counts(now, b, o) && m == scheduled_at(day_after(now, o), b),
        forall|o: int|
            0 <= o < 8 && #[trigger] counts(now, b, o) ==> (next_firing_of(now, b, st) matches Some(m)
                && dt_le(m, scheduled_at(day_after(now, o), b))),
{
    lemma_first_regular_from(now, b, st, 0);
    if !b.enabled {
        assert forall|o: int| 0 <= o < 8 implies !#[trigger] counts(now, b, o) by {}
    }
}

} // verus!
