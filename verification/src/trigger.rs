//! The pure decision of which breaks fire on a tick, and the search for the
//! next upcoming break.
use crate::calendar::{
    add_days, add_minutes, dt_le, dt_lt, is_before, spec_add_minutes, spec_weekday, weekday_of,
    Date, DateTime, Weekday, MAX_DAYS_FROM_CE,
};
use crate::models::Break;
use crate::state::{SchedulerState, StateView};
use vstd::prelude::*;

verus! {

broadcast use vstd::std_specs::hash::group_hash_axioms;

/// Ticks land every 15-20 s, so a break "on time" might first be observed a
/// little after its scheduled minute. Anything within this window still
/// counts as firing on schedule; anything beyond it means the app was asleep
/// or closed through the scheduled time, which is skipped rather than fired
/// late.
pub const FIRE_TOLERANCE_MINUTES: i64 = 5i64;

/// The moment break `b` is scheduled for on `day`.
pub open spec fn scheduled_at(day: Date, b: Break) -> DateTime {
    DateTime { date: day, time: b.start_time }
}

/// A break scheduled for `scheduled` that is first seen at `now` still fires
/// on schedule. On the last date `chrono` represents, a window that would
/// end past it counts as closed.
pub open spec fn within_tolerance(now: DateTime, scheduled: DateTime) -> bool {
    match spec_add_minutes(scheduled, FIRE_TOLERANCE_MINUTES as int) {
        Some(deadline) => dt_le(now, deadline),
        None => false,
    }
}

/// The break is enabled and scheduled on the weekday of `day`.
pub open spec fn active_on(b: Break, day: Date) -> bool {
    b.enabled && b.on_day(spec_weekday(day.days_from_ce as int))
}

/// What a tick at `now` does with one break: the new state and the ids due
/// so far.
pub open spec fn step(now: DateTime, b: Break, st: StateView, due: Seq<u128>) -> (
    StateView,
    Seq<u128>,
) {
    let (last_fired, postponed, skipped) = st;
    let today = now.date;
    if !active_on(b, today) {
        (st, due)
    } else if postponed.contains_key(b.id) {
        // A postponed break fires once its postponed time has come, even if
        // it already fired today.
        if dt_le(postponed[b.id], now) {
            ((last_fired.insert(b.id, today), postponed.remove(b.id), skipped), due.push(b.id))
        } else {
            (st, due)
        }
    } else if last_fired.contains_key(b.id) && last_fired[b.id] == today {
        (st, due)
    } else if skipped.contains_key(b.id) && skipped[b.id] == today {
        (st, due)
    } else if dt_lt(now, scheduled_at(today, b)) {
        (st, due)
    } else {
        // Marked handled either way, so a missed break is never fired late.
        let st2 = (last_fired.insert(b.id, today), postponed, skipped);
        if within_tolerance(now, scheduled_at(today, b)) {
            (st2, due.push(b.id))
        } else {
            (st2, due)
        }
    }
}

/// A tick at `now` over `breaks`, one break after the other in list order.
pub open spec fn process(now: DateTime, breaks: Seq<Break>, st: StateView) -> (
    StateView,
    Seq<u128>,
)
    decreases breaks.len(),
{
    if breaks.len() == 0 {
        (st, Seq::empty())
    } else {
        let (st1, due1) = process(now, breaks.drop_last(), st);
        step(now, breaks.last(), st1, due1)
    }
}

/// Every break in the list has a valid start time.
pub open spec fn start_times_wf(breaks: Seq<Break>) -> bool {
    forall|i: int| 0 <= i < breaks.len() ==> (#[trigger] breaks[i]).start_time.wf()
}

/// Given the current wall-clock time, the configured breaks and the
/// scheduler state, returns the ids of the breaks due to fire right now,
/// and updates `state` (idempotency bookkeeping) so that one call per tick
/// is all that is needed. While a call is active nothing fires and nothing
/// changes.
pub fn compute_due_breaks(
    now: DateTime,
    breaks: &[Break],
    state: &mut SchedulerState,
    call_active: bool,
) -> (due: Vec<u128>)
    requires
        now.wf(),
        start_times_wf(breaks@),
    ensures
        call_active ==> due@ == Seq::<u128>::empty() && final(state)@ == old(state)@,
        !call_active ==> (final(state)@, due@) == process(now, breaks@, old(state)@),
{
    let mut due: Vec<u128> = Vec::new();
    if call_active {
        return due;
    }
    let today = now.date;
    let weekday = weekday_of(today);
    let ghost st0 = state@;
    let mut i: usize = 0;
    while i < breaks.len()
        invariant
            now.wf(),
            start_times_wf(breaks@),
            today == now.date,
            weekday == spec_weekday(today.days_from_ce as int),
            i <= breaks.len(),
            (state@, due@) == process(now, breaks@.subrange(0, i as int), st0),
        decreases breaks.len() - i,
    {
        let b = &breaks[i];
        let ghost pre = (state@, due@);
        proof {
            assert(breaks@.subrange(0, i + 1).drop_last() == breaks@.subrange(0, i as int));
            assert(breaks@.subrange(0, i + 1).last() == breaks@[i as int]);
        }
        i = i + 1;
        if !b.enabled || !b.scheduled_on(weekday) {
            continue;
        }
        match state.postponed.get(&b.id) {
            Some(postponed_at) => {
                let postponed_at = *postponed_at;
                if !is_before(&now, &postponed_at) {
                    state.postponed.remove(&b.id);
                    state.last_fired.insert(b.id, today);
                    due.push(b.id);
                }
                continue;
            },
            None => {},
        }
        match state.last_fired.get(&b.id) {
            Some(d) => {
                if *d == today {
                    continue;
                }
            },
            None => {},
        }
        match state.skipped_today.get(&b.id) {
            Some(d) => {
                if *d == today {
                    continue;
                }
            },
            None => {},
        }
        let scheduled = DateTime::at(today, b.start_time);
        if is_before(&now, &scheduled) {
            continue;
        }
        state.last_fired.insert(b.id, today);
        proof {
            assert(b.start_time.wf());
        }
        match add_minutes(scheduled, FIRE_TOLERANCE_MINUTES) {
            Some(deadline) => {
                if !is_before(&deadline, &now) {
                    due.push(b.id);
                }
            },
            None => {},
        }
    }
    proof {
        assert(breaks@.subrange(0, breaks@.len() as int) == breaks@);
    }
    due
}

/// The day `offset` days after `now`'s date.
pub open spec fn day_after(now: DateTime, offset: int) -> Date {
    Date { days_from_ce: (now.date.days_from_ce + offset) as i32 }
}

/// Break `b` on the day `offset` days after `now`'s date is a candidate:
/// the date can be represented, the break is active that day and the moment
/// is not in the past.
pub open spec fn counts(now: DateTime, b: Break, offset: int) -> bool {
    &&& now.date.days_from_ce + offset <= MAX_DAYS_FROM_CE
    &&& active_on(b, day_after(now, offset))
    &&& dt_le(now, scheduled_at(day_after(now, offset), b))
}

/// Break `i` on day offset `o` is among those looked at first: every break
/// on the days before offset `k`, and the breaks before `j` on day `k`.
pub open spec fn in_scope(breaks: Seq<Break>, k: int, j: int, o: int, i: int) -> bool {
    (0 <= o < k && 0 <= i < breaks.len()) || (o == k && 0 <= i < j)
}

/// `c` is the moment of some candidate on `now`'s date or one of the seven
/// dates after it, which covers every moment up to a week after `now`.
pub open spec fn is_candidate(now: DateTime, breaks: Seq<Break>, c: DateTime) -> bool {
    exists|o: int, i: int|
        0 <= o < 8 && 0 <= i < breaks.len() && #[trigger] counts(now, breaks[i], o) && c
            == scheduled_at(day_after(now, o), breaks[i])
}

/// `m` is the soonest candidate within the week starting at `now`.
pub open spec fn is_soonest(now: DateTime, breaks: Seq<Break>, m: DateTime) -> bool {
    &&& is_candidate(now, breaks, m)
    &&& forall|c: DateTime| #[trigger] is_candidate(now, breaks, c) ==> dt_le(m, c)
}

/// A candidate no later than every candidate counted by offset and break is
/// the soonest, and the only one.
pub proof fn lemma_min_is_soonest(now: DateTime, breaks: Seq<Break>, m: DateTime)
    requires
        is_candidate(now, breaks, m),
        forall|o: int, i: int|
            0 <= o < 8 && 0 <= i < breaks.len() && #[trigger] counts(now, breaks[i], o) ==> dt_le(
                m,
                scheduled_at(day_after(now, o), breaks[i]),
            ),
    ensures
        is_soonest(now, breaks, m),
        forall|c: DateTime| is_soonest(now, breaks, c) ==> c == m,
{
    assert forall|c: DateTime| #[trigger] is_candidate(now, breaks, c) implies dt_le(m, c) by {
        let (o, i) = choose|o: int, i: int|
            0 <= o < 8 && 0 <= i < breaks.len() && #[trigger] counts(now, breaks[i], o) && c
                == scheduled_at(day_after(now, o), breaks[i]);
    }
}

/// Some break is enabled and scheduled on at least one weekday.
pub open spec fn any_scheduled(breaks: Seq<Break>) -> bool {
    exists|i: int, w: Weekday| 0 <= i < breaks.len() && breaks[i].enabled && #[trigger] breaks[i].on_day(w)
}

/// The number of weekday `w` in the cycle of `spec_weekday`.
pub open spec fn weekday_index(w: Weekday) -> int {
    match w {
        Weekday::Mon => 0,
        Weekday::Tue => 1,
        Weekday::Wed => 2,
        Weekday::Thu => 3,
        Weekday::Fri => 4,
        Weekday::Sat => 5,
        Weekday::Sun => 6,
    }
}

/// Every weekday comes round within the seven days after any day.
pub proof fn lemma_weekday_within_week(d: int, w: Weekday)
    ensures
        exists|o: int| 1 <= o <= 7 && #[trigger] spec_weekday(d + o) == w,
{
    let t = weekday_index(w);
    let o = if (t - d + 1) % 7 == 0 {
        7
    } else {
        (t - d + 1) % 7
    };
    assert((d + o - 1) % 7 == t);
    assert(spec_weekday(d + o) == w);
}

/// One scheduler tick: while breaks are paused nothing is evaluated, saved
/// or fired; otherwise it is `compute_due_breaks`.
pub fn tick_due(
    paused: bool,
    now: DateTime,
    breaks: &[Break],
    state: &mut SchedulerState,
    call_active: bool,
) -> (due: Vec<u128>)
    requires
        !paused ==> now.wf() && start_times_wf(breaks@),
    ensures
        paused ==> due@.len() == 0 && final(state)@ == old(state)@,
        !paused && call_active ==> due@ == Seq::<u128>::empty() && final(state)@ == old(state)@,
        !paused && !call_active ==> (final(state)@, due@) == process(now, breaks@, old(state)@),
{
    if paused {
        return Vec::new();
    }
    compute_due_breaks(now, breaks, state, call_active)
}

/// Having looked at the offsets before `k`, where every later offset is past
/// the last representable date (or `k` is 8), the soonest candidate found so
/// far is the answer `next_occurrence` promises.
proof fn lemma_scan_complete(now: DateTime, breaks: Seq<Break>, soonest: Option<DateTime>, k: int)
    requires
        0 <= k <= 8,
        k == 8 || now.date.days_from_ce + k > MAX_DAYS_FROM_CE,
        soonest is None <==> !exists|o: int, i: int|
            in_scope(breaks, k, 0, o, i) && #[trigger] counts(now, breaks[i], o),
        soonest matches Some(m) ==> (exists|o: int, i: int|
            in_scope(breaks, k, 0, o, i) && #[trigger] counts(now, breaks[i], o) && m
                == scheduled_at(day_after(now, o), breaks[i])) && forall|o: int, i: int|
            in_scope(breaks, k, 0, o, i) && #[trigger] counts(now, breaks[i], o) ==> dt_le(
                m,
                scheduled_at(day_after(now, o), breaks[i]),
            ),
    ensures
        soonest is None <==> !exists|o: int, i: int|
            0 <= o < 8 && 0 <= i < breaks.len() && #[trigger] counts(now, breaks[i], o),
        soonest matches Some(m) ==> is_candidate(now, breaks, m) && forall|o: int, i: int|
            0 <= o < 8 && 0 <= i < breaks.len() && #[trigger] counts(now, breaks[i], o) ==> dt_le(
                m,
                scheduled_at(day_after(now, o), breaks[i]),
            ),
        soonest matches Some(m) ==> is_soonest(now, breaks, m),
        now.date.days_from_ce + 7 <= MAX_DAYS_FROM_CE ==> (soonest is None <==> !any_scheduled(
            breaks,
        )),
{
    assert forall|o: int, i: int|
        0 <= o < 8 && 0 <= i < breaks.len() && #[trigger] counts(now, breaks[i], o) implies in_scope(
        breaks,
        k,
        0,
        o,
        i,
    ) by {}
    if let Some(m) = soonest {
        lemma_min_is_soonest(now, breaks, m);
    }
    if now.date.days_from_ce + 7 <= MAX_DAYS_FROM_CE && any_scheduled(breaks) {
        let (i, w) = choose|i: int, w: Weekday|
            0 <= i < breaks.len() && breaks[i].enabled && #[trigger] breaks[i].on_day(w);
        lemma_weekday_within_week(now.date.days_from_ce as int, w);
        let o = choose|o: int| 1 <= o <= 7 && #[trigger] spec_weekday(now.date.days_from_ce + o) == w;
        assert(day_after(now, o).days_from_ce == now.date.days_from_ce + o);
        assert(counts(now, breaks[i], o));
    }
    if soonest is Some {
        let m = soonest->0;
        let (o, i) = choose|o: int, i: int|
            in_scope(breaks, k, 0, o, i) && #[trigger] counts(now, breaks[i], o) && m
                == scheduled_at(day_after(now, o), breaks[i]);
        assert(breaks[i].on_day(spec_weekday(day_after(now, o).days_from_ce as int)));
    }
}

/// Finds the soonest upcoming occurrence of any enabled break, looking up to
/// a week ahead: at today and the seven dates after it, as far as they can be
/// represented.
pub fn next_occurrence(now: DateTime, breaks: &[Break]) -> (r: Option<DateTime>)
    requires
        now.wf(),
    ensures
        r is None <==> !exists|o: int, i: int|
            0 <= o < 8 && 0 <= i < breaks@.len() && #[trigger] counts(now, breaks@[i], o),
        r matches Some(m) ==> is_candidate(now, breaks@, m) && forall|o: int, i: int|
            0 <= o < 8 && 0 <= i < breaks@.len() && #[trigger] counts(now, breaks@[i], o)
                ==> dt_le(m, scheduled_at(day_after(now, o), breaks@[i])),
        r matches Some(m) ==> is_soonest(now, breaks@, m),
        now.date.days_from_ce + 7 <= MAX_DAYS_FROM_CE ==> (r is None <==> !any_scheduled(breaks@)),
{
    let mut soonest: Option<DateTime> = None;
    let mut offset: i64 = 0;
    while offset < 8
        invariant
            now.wf(),
            0 <= offset <= 8,
            soonest is None <==> !exists|o: int, i: int|
                in_scope(breaks@, offset as int, 0, o, i) && #[trigger] counts(now, breaks@[i], o),
            soonest matches Some(m) ==> (exists|o: int, i: int|
                in_scope(breaks@, offset as int, 0, o, i) && #[trigger] counts(now, breaks@[i], o)
                    && m == scheduled_at(day_after(now, o), breaks@[i])) && forall|o: int, i: int|
                in_scope(breaks@, offset as int, 0, o, i) && #[trigger] counts(now, breaks@[i], o)
                    ==> dt_le(m, scheduled_at(day_after(now, o), breaks@[i])),
        decreases 8 - offset,
    {
        let day_opt = add_days(now.date, offset);
        let day = match day_opt {
            Some(d) => d,
            None => {
                proof {
                    lemma_scan_complete(now, breaks@, soonest, offset as int);
                }
                return soonest;
            },
        };
        let weekday = weekday_of(day);
        let mut j: usize = 0;
        while j < breaks.len()
            invariant
                now.wf(),
                now.date.days_from_ce + offset <= MAX_DAYS_FROM_CE,
                0 <= offset < 8,
                day == day_after(now, offset as int),
                weekday == spec_weekday(day.days_from_ce as int),
                j <= breaks.len(),
                soonest is None <==> !exists|o: int, i: int|
                    in_scope(breaks@, offset as int, j as int, o, i) && #[trigger] counts(
                        now,
                        breaks@[i],
                        o,
                    ),
                soonest matches Some(m) ==> (exists|o: int, i: int|
                    in_scope(breaks@, offset as int, j as int, o, i) && #[trigger] counts(
                        now,
                        breaks@[i],
                        o,
                    ) && m == scheduled_at(day_after(now, o), breaks@[i])) && forall|o: int, i: int|
                    in_scope(breaks@, offset as int, j as int, o, i) && #[trigger] counts(
                        now,
                        breaks@[i],
                        o,
                    ) ==> dt_le(m, scheduled_at(day_after(now, o), breaks@[i])),
            decreases breaks.len() - j,
        {
            let b = &breaks[j];
            let ghost jj = j as int;
            j = j + 1;
            if !b.enabled || !b.scheduled_on(weekday) {
                assert(!counts(now, breaks@[jj], offset as int));
                continue;
            }
            let candidate = DateTime::at(day, b.start_time);
            if is_before(&candidate, &now) {
                assert(!counts(now, breaks@[jj], offset as int));
                continue;
            }
            assert(counts(now, breaks@[jj], offset as int));
            let better = match soonest {
                None => true,
                Some(s) => is_before(&candidate, &s),
            };
            if better {
                soonest = Some(candidate);
            }
        }
        offset = offset + 1;
    }
    proof {
        lemma_scan_complete(now, breaks@, soonest, 8);
    }
    soonest
}

} // verus!
