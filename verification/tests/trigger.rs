use chrono::{Datelike, NaiveDate, NaiveTime, Timelike};
use take_a_break::calendar::{Date, DateTime, Time, Weekday};
use take_a_break::models::{Break, BreakType, WeekdaySet};
use take_a_break::state::SchedulerState;
use take_a_break::trigger::{compute_due_breaks, next_occurrence, tick_due};
use uuid::Uuid;

fn dt(y: i32, m: u32, d: u32, h: u32, min: u32) -> DateTime {
    let date = NaiveDate::from_ymd_opt(y, m, d).unwrap();
    let time = NaiveTime::from_hms_opt(h, min, 0).unwrap();
    DateTime { date: date_of(date), time: time_of(time) }
}

fn date_of(d: NaiveDate) -> Date {
    Date { days_from_ce: d.num_days_from_ce() }
}

fn time_of(t: NaiveTime) -> Time {
    Time { secs: t.num_seconds_from_midnight(), frac: t.nanosecond() }
}

fn new_id() -> u128 {
    Uuid::new_v4().as_u128()
}

fn daily_break(id: u128, start: NaiveTime) -> Break {
    Break {
        id,
        break_type: BreakType::Hydration,
        start_time: time_of(start),
        duration_minutes: 5,
        days: WeekdaySet::from_days(&[
            Weekday::Mon,
            Weekday::Tue,
            Weekday::Wed,
            Weekday::Thu,
            Weekday::Fri,
            Weekday::Sat,
            Weekday::Sun,
        ]),
        display_mode: None,
        image_filename: None,
        message: "Take a break now".into(),
        enabled: true,
    }
}

// 2026-08-17 is a Monday.
fn monday_9am() -> DateTime {
    dt(2026, 8, 17, 9, 0)
}

#[test]
fn fires_when_due() {
    let id = new_id();
    let breaks = vec![daily_break(id, NaiveTime::from_hms_opt(9, 0, 0).unwrap())];
    let mut state = SchedulerState::default();

    let due = compute_due_breaks(monday_9am(), &breaks, &mut state, false);
    assert_eq!(due, vec![id]);
}

#[test]
fn does_not_fire_before_scheduled_time() {
    let id = new_id();
    let breaks = vec![daily_break(id, NaiveTime::from_hms_opt(9, 0, 0).unwrap())];
    let mut state = SchedulerState::default();

    let now = dt(2026, 8, 17, 8, 59);
    let due = compute_due_breaks(now, &breaks, &mut state, false);
    assert!(due.is_empty());
}

#[test]
fn is_idempotent_within_the_same_day() {
    let id = new_id();
    let breaks = vec![daily_break(id, NaiveTime::from_hms_opt(9, 0, 0).unwrap())];
    let mut state = SchedulerState::default();

    let first = compute_due_breaks(monday_9am(), &breaks, &mut state, false);
    assert_eq!(first, vec![id]);

    // A later tick the same day must not refire it.
    let later = compute_due_breaks(dt(2026, 8, 17, 9, 3), &breaks, &mut state, false);
    assert!(later.is_empty());
}

#[test]
fn missed_break_is_always_skipped_not_fired_late() {
    let id = new_id();
    let breaks = vec![daily_break(id, NaiveTime::from_hms_opt(9, 0, 0).unwrap())];
    let mut state = SchedulerState::default();

    // App wakes up an hour after the scheduled time (e.g. was asleep).
    let now = dt(2026, 8, 17, 10, 0);
    let due = compute_due_breaks(now, &breaks, &mut state, false);
    assert!(due.is_empty());

    // And it should not fire again later that same day either.
    let later = compute_due_breaks(dt(2026, 8, 17, 12, 0), &breaks, &mut state, false);
    assert!(later.is_empty());
}

#[test]
fn postpone_bypasses_same_day_dedup() {
    let id = new_id();
    let breaks = vec![daily_break(id, NaiveTime::from_hms_opt(9, 0, 0).unwrap())];
    let mut state = SchedulerState::default();

    let first = compute_due_breaks(monday_9am(), &breaks, &mut state, false);
    assert_eq!(first, vec![id]);

    // User postpones 10 minutes.
    state.postponed.insert(id, dt(2026, 8, 17, 9, 10));

    // Not due yet at 9:05.
    let too_early = compute_due_breaks(dt(2026, 8, 17, 9, 5), &breaks, &mut state, false);
    assert!(too_early.is_empty());

    // Fires again at the postponed time, despite last_fired already
    // being set for today.
    let postponed_fire = compute_due_breaks(dt(2026, 8, 17, 9, 10), &breaks, &mut state, false);
    assert_eq!(postponed_fire, vec![id]);
    assert!(!state.postponed.contains_key(&id));
}

#[test]
fn skipped_today_blocks_firing_but_not_persisted_across_days() {
    let id = new_id();
    let breaks = vec![daily_break(id, NaiveTime::from_hms_opt(9, 0, 0).unwrap())];
    let mut state = SchedulerState::default();
    state
        .skipped_today
        .insert(id, date_of(NaiveDate::from_ymd_opt(2026, 8, 17).unwrap()));

    let due = compute_due_breaks(monday_9am(), &breaks, &mut state, false);
    assert!(due.is_empty());

    // Next day it's unaffected.
    let next_day = compute_due_breaks(dt(2026, 8, 18, 9, 0), &breaks, &mut state, false);
    assert_eq!(next_day, vec![id]);
}

#[test]
fn call_active_blocks_all_firing() {
    let id = new_id();
    let breaks = vec![daily_break(id, NaiveTime::from_hms_opt(9, 0, 0).unwrap())];
    let mut state = SchedulerState::default();

    let due = compute_due_breaks(monday_9am(), &breaks, &mut state, true);
    assert!(due.is_empty());
}

#[test]
fn disabled_break_never_fires() {
    let id = new_id();
    let mut b = daily_break(id, NaiveTime::from_hms_opt(9, 0, 0).unwrap());
    b.enabled = false;
    let mut state = SchedulerState::default();

    let due = compute_due_breaks(monday_9am(), &[b], &mut state, false);
    assert!(due.is_empty());
}

#[test]
fn wrong_day_never_fires() {
    let id = new_id();
    let mut b = daily_break(id, NaiveTime::from_hms_opt(9, 0, 0).unwrap());
    b.days = WeekdaySet::from_days(&[Weekday::Fri]); // Monday isn't Friday.
    let mut state = SchedulerState::default();

    let due = compute_due_breaks(monday_9am(), &[b], &mut state, false);
    assert!(due.is_empty());
}

#[test]
fn next_occurrence_same_day() {
    let id = new_id();
    let breaks = vec![daily_break(id, NaiveTime::from_hms_opt(14, 0, 0).unwrap())];
    let next = next_occurrence(monday_9am(), &breaks).unwrap();
    assert_eq!(next, dt(2026, 8, 17, 14, 0));
}

#[test]
fn next_occurrence_rolls_to_next_day_once_todays_time_has_passed() {
    let id = new_id();
    let breaks = vec![daily_break(id, NaiveTime::from_hms_opt(8, 0, 0).unwrap())];
    let next = next_occurrence(monday_9am(), &breaks).unwrap();
    assert_eq!(next, dt(2026, 8, 18, 8, 0));
}

#[test]
fn next_occurrence_handles_multi_day_gap() {
    let id = new_id();
    let mut b = daily_break(id, NaiveTime::from_hms_opt(9, 0, 0).unwrap());
    b.days = WeekdaySet::from_days(&[Weekday::Fri]); // Checked from a Monday.
    let next = next_occurrence(monday_9am(), &[b]).unwrap();
    assert_eq!(next, dt(2026, 8, 21, 9, 0)); // Friday of the same week.
}

#[test]
fn next_occurrence_none_when_no_enabled_breaks() {
    assert_eq!(next_occurrence(monday_9am(), &[]), None);
}

#[test]
fn fires_within_tolerance_but_not_after() {
    let id = new_id();
    let breaks = vec![daily_break(id, NaiveTime::from_hms_opt(9, 0, 0).unwrap())];
    let mut state = SchedulerState::default();
    let due = compute_due_breaks(dt(2026, 8, 17, 9, 5), &breaks, &mut state, false);
    assert_eq!(due, vec![id]);

    let mut state = SchedulerState::default();
    let mut late = dt(2026, 8, 17, 9, 5);
    late.time.secs += 1;
    let due = compute_due_breaks(late, &breaks, &mut state, false);
    assert!(due.is_empty());
    assert_eq!(state.last_fired.get(&id), Some(&late.date));
}

#[test]
fn breaks_fire_in_list_order_and_state_records_them() {
    let a = new_id();
    let b = new_id();
    let breaks = vec![
        daily_break(a, NaiveTime::from_hms_opt(8, 58, 0).unwrap()),
        daily_break(b, NaiveTime::from_hms_opt(9, 0, 0).unwrap()),
    ];
    let mut state = SchedulerState::default();
    let due = compute_due_breaks(monday_9am(), &breaks, &mut state, false);
    assert_eq!(due, vec![a, b]);
    assert_eq!(state.last_fired.len(), 2);
}

#[test]
fn call_active_leaves_postponed_break_pending() {
    let id = new_id();
    let breaks = vec![daily_break(id, NaiveTime::from_hms_opt(9, 0, 0).unwrap())];
    let mut state = SchedulerState::default();
    state.postponed.insert(id, dt(2026, 8, 17, 8, 0));
    let due = compute_due_breaks(monday_9am(), &breaks, &mut state, true);
    assert!(due.is_empty());
    assert!(state.postponed.contains_key(&id));
    assert!(state.last_fired.is_empty());
}

#[test]
fn next_occurrence_picks_the_soonest_of_several() {
    let mut fri = daily_break(1, NaiveTime::from_hms_opt(7, 0, 0).unwrap());
    fri.days = WeekdaySet::from_days(&[Weekday::Fri]);
    let mut tue = daily_break(2, NaiveTime::from_hms_opt(18, 0, 0).unwrap());
    tue.days = WeekdaySet::from_days(&[Weekday::Tue]);
    let mut off = daily_break(3, NaiveTime::from_hms_opt(10, 0, 0).unwrap());
    off.enabled = false;
    let next = next_occurrence(monday_9am(), &vec![fri, tue, off]).unwrap();
    assert_eq!(next, dt(2026, 8, 18, 18, 0));
    // A break only on Mondays at 8:00 seen Monday 9:00 comes round next
    // Monday, just under a week ahead.
    let mut mon = daily_break(4, NaiveTime::from_hms_opt(8, 0, 0).unwrap());
    mon.days = WeekdaySet::from_days(&[Weekday::Mon]);
    assert_eq!(next_occurrence(monday_9am(), &[mon]), Some(dt(2026, 8, 24, 8, 0)));
    // A break with no weekdays never occurs.
    let mut never = daily_break(5, NaiveTime::from_hms_opt(8, 0, 0).unwrap());
    never.days = WeekdaySet::new();
    assert_eq!(next_occurrence(monday_9am(), &[never]), None);
}

#[test]
fn edited_break_fires_again_the_same_day() {
    let id = new_id();
    let breaks = vec![daily_break(id, NaiveTime::from_hms_opt(9, 0, 0).unwrap())];
    let mut state = SchedulerState::default();
    assert_eq!(compute_due_breaks(monday_9am(), &breaks, &mut state, false), vec![id]);

    // The user moves the break to 11:00; its old bookkeeping is cleared.
    let moved = vec![daily_break(id, NaiveTime::from_hms_opt(11, 0, 0).unwrap())];
    state.clear_break(id);
    let due = compute_due_breaks(dt(2026, 8, 17, 11, 2), &moved, &mut state, false);
    assert_eq!(due, vec![id]);
}

#[test]
fn deleted_break_never_fires() {
    let gone = new_id();
    let kept = new_id();
    let breaks = vec![daily_break(kept, NaiveTime::from_hms_opt(12, 0, 0).unwrap())];
    let mut state = SchedulerState::default();
    state.postponed.insert(gone, dt(2026, 8, 17, 8, 0));
    let due = compute_due_breaks(monday_9am(), &breaks, &mut state, false);
    assert!(due.is_empty());
    assert!(state.postponed.contains_key(&gone));
}

#[test]
fn paused_tick_evaluates_nothing() {
    let id = new_id();
    let breaks = vec![daily_break(id, NaiveTime::from_hms_opt(9, 0, 0).unwrap())];
    let mut state = SchedulerState::default();
    state.postponed.insert(id, dt(2026, 8, 17, 8, 0));
    assert!(tick_due(true, monday_9am(), &breaks, &mut state, false).is_empty());
    assert!(state.postponed.contains_key(&id));
    assert!(state.last_fired.is_empty());
    assert_eq!(tick_due(false, monday_9am(), &breaks, &mut state, false), vec![id]);
    assert!(tick_due(false, monday_9am(), &breaks, &mut state, true).is_empty());
}

#[test]
fn repeated_tick_fires_nothing_more() {
    let a = new_id();
    let b = new_id();
    let breaks = vec![
        daily_break(a, NaiveTime::from_hms_opt(9, 0, 0).unwrap()),
        daily_break(b, NaiveTime::from_hms_opt(12, 0, 0).unwrap()),
    ];
    let mut state = SchedulerState::default();
    state.postponed.insert(b, dt(2026, 8, 17, 8, 30));
    assert_eq!(compute_due_breaks(monday_9am(), &breaks, &mut state, false), vec![a, b]);
    let fired = state.last_fired.clone();
    assert!(compute_due_breaks(monday_9am(), &breaks, &mut state, false).is_empty());
    assert_eq!(state.last_fired, fired);
    assert!(state.postponed.is_empty());
}

#[test]
fn tolerance_window_past_the_last_date_counts_as_closed() {
    let id = new_id();
    let breaks = vec![daily_break(id, NaiveTime::from_hms_opt(23, 58, 0).unwrap())];
    let mut state = SchedulerState::default();
    let last = DateTime {
        date: date_of(NaiveDate::MAX),
        time: time_of(NaiveTime::from_hms_opt(23, 59, 0).unwrap()),
    };
    assert!(compute_due_breaks(last, &breaks, &mut state, false).is_empty());
    assert_eq!(state.last_fired.get(&id), Some(&last.date));
    let mut state = SchedulerState::default();
    assert!(compute_due_breaks(last, &breaks, &mut state, true).is_empty());
}

#[test]
fn next_occurrence_near_the_last_date_stays_in_range() {
    let last = date_of(NaiveDate::MAX);
    let now = DateTime {
        date: Date { days_from_ce: last.days_from_ce - 2 },
        time: time_of(NaiveTime::from_hms_opt(12, 0, 0).unwrap()),
    };
    let breaks = vec![daily_break(1, NaiveTime::from_hms_opt(9, 0, 0).unwrap())];
    let next = next_occurrence(now, &breaks).unwrap();
    assert_eq!(next.date.days_from_ce, last.days_from_ce - 1);
    let mut late = now;
    late.date = last;
    assert_eq!(next_occurrence(late, &breaks), None);
}
