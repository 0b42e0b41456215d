//! The tray's text: the "Xm / Xh / Xd" label for the time remaining until
//! the next break, and the menu's pause toggle.
use crate::calendar::{minutes_between, spec_minutes_between, DateTime};
use crate::models::Break;
use crate::state::{SchedulerState, StateView};
use crate::trigger::start_times_wf;
use crate::upcoming::{next_firing, next_firing_time, postponed_wf};
use vstd::prelude::*;

verus! {

broadcast use vstd::string::group_string_axioms;

/// The character of decimal digit `d`.
pub open spec fn digit_char(d: int) -> char {
    (48 + d) as char
}

/// The decimal representation of `n`, without sign or leading zeros.
pub open spec fn spec_decimal(n: nat) -> Seq<char>
    decreases n,
{
    if n < 10 {
        seq![digit_char(n as int)]
    } else {
        spec_decimal(n / 10).push(digit_char((n % 10) as int))
    }
}

/// `ToString::to_string` on a non-negative `i64`, which formats it through
/// `Display` in decimal. Claims that the result is the decimal digits of `n`.
#[verifier::external_body]
pub(crate) fn decimal_string(n: i64) -> (s: String)
    requires
        n >= 0,
    ensures
        s@ == spec_decimal(n as nat),
{
    n.to_string()
}

/// `value / divisor` rounded half up, for non-negative values.
pub open spec fn spec_round_div(value: int, divisor: int) -> int {
    (value + divisor / 2) / divisor
}

/// Rounds `value / divisor` half up without forming `value + divisor / 2`,
/// so no value overflows.
fn round_div(value: i64, divisor: i64) -> (r: i64)
    requires
        value >= 0,
        divisor > 0,
    ensures
        r == spec_round_div(value as int, divisor as int),
{
    let q = value / divisor;
    let rem = value % divisor;
    proof {
        let h = divisor / 2;
        assert(value == q * divisor + rem && 0 <= rem < divisor) by (nonlinear_arith)
            requires
                value >= 0,
                divisor > 0,
                q == value / divisor,
                rem == value % divisor,
        ;
        assert(spec_round_div(value as int, divisor as int) == if rem >= divisor - h {
            q + 1
        } else {
            q as int
        }) by (nonlinear_arith)
            requires
                value == q * divisor + rem,
                0 <= rem < divisor,
                h == divisor / 2,
                0 <= h <= divisor - h,
                divisor > 0,
        {
            if rem >= divisor - h {
                assert(value + h == (q + 1) * divisor + (rem + h - divisor));
                vstd::arithmetic::div_mod::lemma_fundamental_div_mod_converse(
                    value + h,
                    divisor as int,
                    q + 1,
                    rem + h - divisor,
                );
            } else {
                assert(value + h == q * divisor + (rem + h));
                vstd::arithmetic::div_mod::lemma_fundamental_div_mod_converse(
                    value + h,
                    divisor as int,
                    q as int,
                    rem + h,
                );
            }
        }
    }
    if rem >= divisor - divisor / 2 {
        assert(q < i64::MAX) by (nonlinear_arith)
            requires
                value == q * divisor + rem,
                0 <= rem < divisor,
                rem >= divisor - divisor / 2,
                value <= i64::MAX,
                q >= 0,
        ;
        q + 1
    } else {
        q
    }
}

/// The label for `total_minutes` remaining: under a minute (or negative)
/// "<1m", under an hour whole minutes, under a day hours rounded to the
/// nearest whole hour, otherwise days rounded to the nearest whole day, each
/// rounding half up and with no combined form.
pub open spec fn spec_format_remaining(total_minutes: int) -> Seq<char> {
    let t = if total_minutes < 0 {
        0
    } else {
        total_minutes
    };
    if t < 1 {
        "<1m"@
    } else if t < 60 {
        spec_decimal(t as nat) + "m"@
    } else if t < 1440 {
        spec_decimal(spec_round_div(t, 60) as nat) + "h"@
    } else {
        spec_decimal(spec_round_div(t, 1440) as nat) + "d"@
    }
}

/// Formats the time remaining until the next break for the tray label.
pub fn format_remaining(total_minutes: i64) -> (s: String)
    ensures
        s@ == spec_format_remaining(total_minutes as int),
{
    let total_minutes = if total_minutes < 0 {
        0
    } else {
        total_minutes
    };
    if total_minutes < 1 {
        "<1m".to_string()
    } else if total_minutes < 60 {
        let mut s = decimal_string(total_minutes);
        s.append("m");
        s
    } else if total_minutes < 1440 {
        let h = round_div(total_minutes, 60);
        let mut s = decimal_string(h);
        s.append("h");
        s
    } else {
        let d = round_div(total_minutes, 1440);
        let mut s = decimal_string(d);
        s.append("d");
        s
    }
}

/// The tray title: "Paused" while paused, else the time remaining until the
/// next break fires (postponed and cancelled breaks taken into account), or
/// "--" when none fires within the coming week.
pub open spec fn spec_tray_label(
    paused: bool,
    now: DateTime,
    breaks: Seq<Break>,
    st: StateView,
) -> Seq<char> {
    if paused {
        "Paused"@
    } else {
        match next_firing(now, breaks, st) {
            Some(m) => spec_format_remaining(
                if spec_minutes_between(m, now) < 0 {
                    0
                } else {
                    spec_minutes_between(m, now)
                },
            ),
            None => "--"@,
        }
    }
}

/// Computes the tray title shown at `now`. A postpone or cancel shows at
/// once, since it is read from the scheduler state.
pub fn tray_label(paused: bool, breaks: &[Break], state: &SchedulerState, now: DateTime) -> (s:
    String)
    requires
        !paused ==> now.wf() && start_times_wf(breaks@) && postponed_wf(state@),
    ensures
        s@ == spec_tray_label(paused, now, breaks@, state@),
{
    if paused {
        return "Paused".to_string();
    }
    match next_firing_time(now, breaks, state) {
        Some(next) => {
            let minutes = minutes_between(next, now);
            let minutes = if minutes < 0 {
                0
            } else {
                minutes
            };
            format_remaining(minutes)
        },
        None => "--".to_string(),
    }
}

/// What a tray menu item does.
#[derive(Debug, Clone, Copy, PartialEq, Eq, Structural)]
pub enum MenuAction {
    TogglePause,
    OpenSettings,
    Quit,
    /// An id the menu does not know: nothing happens.
    Ignore,
}

/// The action of the menu item with id `id`.
pub open spec fn spec_menu_action(id: Seq<char>) -> MenuAction {
    if id == "toggle_pause"@ {
        MenuAction::TogglePause
    } else if id == "open_settings"@ {
        MenuAction::OpenSettings
    } else if id == "quit"@ {
        MenuAction::Quit
    } else {
        MenuAction::Ignore
    }
}

/// Whether two strings hold the same characters.
fn same_text(a: &str, b: &str) -> (r: bool)
    ensures
        r == (a@ == b@),
{
    let n = a.unicode_len();
    if n != b.unicode_len() {
        return false;
    }
    let mut i: usize = 0;
    while i < n
        invariant
            n == a@.len(),
            n == b@.len(),
            i <= n,
            forall|j: int| 0 <= j < i ==> a@[j] == b@[j],
        decreases n - i,
    {
        if a.get_char(i) != b.get_char(i) {
            return false;
        }
        i = i + 1;
    }
    assert(a@ =~= b@);
    true
}

/// Maps a tray menu item's id to what it does.
pub fn menu_action(id: &str) -> (a: MenuAction)
    ensures
        a == spec_menu_action(id@),
{
    if same_text(id, "toggle_pause") {
        MenuAction::TogglePause
    } else if same_text(id, "open_settings") {
        MenuAction::OpenSettings
    } else if same_text(id, "quit") {
        MenuAction::Quit
    } else {
        MenuAction::Ignore
    }
}

/// The label of the menu item that pauses or resumes breaks.
pub fn toggle_label(paused: bool) -> (s: &'static str)
    ensures
        s@ == (if paused {
            "Resume Breaks"@
        } else {
            "Pause Breaks"@
        }),
{
    if paused {
        "Resume Breaks"
    } else {
        "Pause Breaks"
    }
}

/// The decimal form of a positive number does not start with a zero digit.
proof fn lemma_decimal_leading_digit(n: nat)
    requires
        n >= 1,
    ensures
        spec_decimal(n).len() >= 1,
        spec_decimal(n)[0] != '0',
    decreases n,
{
    if n < 10 {
        assert(digit_char(n as int) as u32 == 48 + n);
    } else {
        lemma_decimal_leading_digit(n / 10);
    }
}

/// The tray never shows a zero count ("0m", "0h" or "0d"): under a minute
/// it shows "<1m", and each rounded tier starts at one.
pub proof fn lemma_label_never_zero(total_minutes: int)
    ensures
        spec_format_remaining(total_minutes) != "0m"@,
        spec_format_remaining(total_minutes) != "0h"@,
        spec_format_remaining(total_minutes) != "0d"@,
{
    reveal_strlit("0m");
    reveal_strlit("0h");
    reveal_strlit("0d");
    reveal_strlit("<1m");
    reveal_strlit("m");
    reveal_strlit("h");
    reveal_strlit("d");
    let t = if total_minutes < 0 {
        0
    } else {
        total_minutes
    };
    if t >= 1 {
        let n: nat = if t < 60 {
            t as nat
        } else if t < 1440 {
            spec_round_div(t, 60) as nat
        } else {
            spec_round_div(t, 1440) as nat
        };
        assert(n >= 1);
        lemma_decimal_leading_digit(n);
        let suffix = if t < 60 {
            "m"@
        } else if t < 1440 {
            "h"@
        } else {
            "d"@
        };
        assert(spec_format_remaining(total_minutes) == spec_decimal(n) + suffix);
        assert((spec_decimal(n) + suffix)[0] == spec_decimal(n)[0]);
    } else {
        assert(spec_format_remaining(total_minutes)[0] == '<');
    }
}

} // verus!
