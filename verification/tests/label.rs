use chrono::{Datelike, NaiveDate, NaiveTime, Timelike, Weekday as ChronoWeekday};
use take_a_break::calendar::{Date, DateTime, Time, Weekday};
use take_a_break::models::{Break, BreakType, WeekdaySet};
use take_a_break::state::SchedulerState;
use take_a_break::tray::{format_remaining, menu_action, toggle_label, tray_label, MenuAction};

fn dt(y: i32, m: u32, d: u32, h: u32, min: u32) -> DateTime {
    let date = NaiveDate::from_ymd_opt(y, m, d).unwrap();
    let time = NaiveTime::from_hms_opt(h, min, 0).unwrap();
    DateTime {
        date: Date { days_from_ce: date.num_days_from_ce() },
        time: Time { secs: time.num_seconds_from_midnight(), frac: time.nanosecond() },
    }
}

fn break_at(id: u128, h: u32, min: u32, days: &[Weekday]) -> Break {
    Break {
        id,
        break_type: BreakType::Stretch,
        start_time: Time::from_hms(h, min, 0),
        duration_minutes: 5,
        days: WeekdaySet::from_days(days),
        display_mode: None,
        image_filename: None,
        message: "Stretch".to_string(),
        enabled: true,
    }
}

#[test]
fn under_an_hour_shows_minutes() {
    assert_eq!(format_remaining(45), "45m");
    assert_eq!(format_remaining(1), "1m");
}

#[test]
fn under_a_minute_shows_placeholder_instead_of_zero() {
    assert_eq!(format_remaining(0), "<1m");
    assert_eq!(format_remaining(-5), "<1m");
}

#[test]
fn rounds_to_nearest_hour() {
    assert_eq!(format_remaining(225), "4h"); // 3h45m -> 4h
    assert_eq!(format_remaining(190), "3h"); // 3h10m -> 3h
    assert_eq!(format_remaining(60), "1h");
    assert_eq!(format_remaining(90), "2h"); // exactly half rounds up
}

#[test]
fn rounds_to_nearest_day_for_multi_day_gaps() {
    assert_eq!(format_remaining(1440), "1d");
    assert_eq!(format_remaining(1440 * 3 + 720), "4d"); // 3.5 days rounds up
    assert_eq!(format_remaining(1440 * 3 + 100), "3d");
}

#[test]
fn tier_boundaries() {
    assert_eq!(format_remaining(59), "59m");
    assert_eq!(format_remaining(89), "1h");
    assert_eq!(format_remaining(1439), "24h");
    assert_eq!(format_remaining(2159), "1d");
    assert_eq!(format_remaining(2160), "2d");
    assert_eq!(format_remaining(i64::MIN), "<1m");
    assert_eq!(format_remaining(1_000_000), "694d");
    // The largest inputs still round half up to a day count.
    assert_eq!(format_remaining(i64::MAX), "6405119470038039d");
    assert_eq!(format_remaining(i64::MAX - 719), "6405119470038038d");
}

#[test]
fn tray_label_paused_and_empty() {
    let now = dt(2026, 8, 17, 9, 0);
    let breaks = vec![break_at(1, 14, 0, &[Weekday::Mon])];
    assert_eq!(tray_label(true, &breaks, &SchedulerState::default(), now), "Paused");
    assert_eq!(tray_label(false, &[], &SchedulerState::default(), now), "--");
}

#[test]
fn tray_label_counts_to_soonest_break() {
    // 2026-08-17 is a Monday.
    let now = dt(2026, 8, 17, 9, 0);
    let breaks = vec![
        break_at(1, 14, 0, &[Weekday::Mon]),
        break_at(2, 9, 45, &[Weekday::Mon]),
    ];
    assert_eq!(tray_label(false, &breaks, &SchedulerState::default(), now), "45m");
    let later = vec![break_at(3, 9, 0, &[Weekday::Wed])];
    assert_eq!(tray_label(false, &later, &SchedulerState::default(), now), "2d");
    let mut seconds_in = now;
    seconds_in.time.secs += 30;
    let soon = vec![break_at(4, 9, 1, &[Weekday::Mon])];
    assert_eq!(tray_label(false, &soon, &SchedulerState::default(), seconds_in), "<1m");
}

#[test]
fn toggle_label_follows_pause_state() {
    assert_eq!(toggle_label(true), "Resume Breaks");
    assert_eq!(toggle_label(false), "Pause Breaks");
}

#[test]
fn weekday_numbering_matches_chrono() {
    for (y, m, d) in [(2026, 8, 17), (1, 1, 1), (2000, 2, 29), (-500, 3, 1), (1970, 1, 1)] {
        let nd = NaiveDate::from_ymd_opt(y, m, d).unwrap();
        let w = take_a_break::calendar::weekday_of(Date { days_from_ce: nd.num_days_from_ce() });
        let expected = match nd.weekday() {
            ChronoWeekday::Mon => Weekday::Mon,
            ChronoWeekday::Tue => Weekday::Tue,
            ChronoWeekday::Wed => Weekday::Wed,
            ChronoWeekday::Thu => Weekday::Thu,
            ChronoWeekday::Fri => Weekday::Fri,
            ChronoWeekday::Sat => Weekday::Sat,
            ChronoWeekday::Sun => Weekday::Sun,
        };
        assert_eq!(w, expected);
        let r = (nd.num_days_from_ce() - 1).rem_euclid(7);
        let by_formula = [
            Weekday::Mon,
            Weekday::Tue,
            Weekday::Wed,
            Weekday::Thu,
            Weekday::Fri,
            Weekday::Sat,
            Weekday::Sun,
        ][r as usize];
        assert_eq!(w, by_formula);
    }
}

#[test]
fn tray_label_follows_postpones_and_cancels() {
    let every_day = [
        Weekday::Mon,
        Weekday::Tue,
        Weekday::Wed,
        Weekday::Thu,
        Weekday::Fri,
        Weekday::Sat,
        Weekday::Sun,
    ];
    let breaks = vec![break_at(7, 9, 0, &every_day)];
    let mut state = SchedulerState::default();
    // The 09:00 break fired today.
    let nine_oh_one = dt(2026, 8, 17, 9, 1);
    state.last_fired.insert(7, nine_oh_one.date);
    assert_eq!(tray_label(false, &breaks, &state, nine_oh_one), "24h");
    // Postponed by 10 minutes: the label counts down to 09:11.
    state.postpone(7, nine_oh_one, 10);
    assert_eq!(tray_label(false, &breaks, &state, nine_oh_one), "10m");
    // Cancelled for today before it fired: the next one is tomorrow.
    let mut fresh = SchedulerState::default();
    let eight = dt(2026, 8, 17, 8, 0);
    assert_eq!(tray_label(false, &breaks, &fresh, eight), "1h");
    fresh.skip_today(7, eight.date);
    assert_eq!(tray_label(false, &breaks, &fresh, eight), "1d");
    // A postponement to a day the break is off fires at the start of its
    // next day on (Monday-only break postponed to Tuesday 10:00).
    let mut monday_only = SchedulerState::default();
    let mon = vec![break_at(8, 9, 0, &[Weekday::Mon])];
    monday_only.postponed.insert(8, dt(2026, 8, 18, 10, 0));
    assert_eq!(tray_label(false, &mon, &monday_only, eight), "7d");
    // Paused at the very end of the calendar needs no date arithmetic.
    let mut end = dt(2026, 8, 17, 8, 0);
    end.date = take_a_break::calendar::Date { days_from_ce: take_a_break::calendar::MAX_DAYS_FROM_CE };
    assert_eq!(tray_label(true, &breaks, &state, end), "Paused");
}

#[test]
fn menu_ids_map_to_actions() {
    assert_eq!(menu_action("toggle_pause"), MenuAction::TogglePause);
    assert_eq!(menu_action("open_settings"), MenuAction::OpenSettings);
    assert_eq!(menu_action("quit"), MenuAction::Quit);
    assert_eq!(menu_action("quit "), MenuAction::Ignore);
    assert_eq!(menu_action(""), MenuAction::Ignore);
}
