//! What a tick does with the breaks that came due: how each is shown and the
//! payload announced for it.
use crate::commands::{find_break, first_index};
use crate::models::{spec_label, AppData, Break, DisplayMode, Settings};
use vstd::prelude::*;

verus! {

/// Seconds between two scheduler ticks.
pub const TICK_INTERVAL_SECS: u64 = 15u64;

/// The event announced to the frontend when a break fires.
#[derive(Debug)]
pub struct BreakTriggeredPayload {
    pub break_id: u128,
    pub type_label: String,
    pub message: String,
    pub image_filename: Option<String>,
    pub fullscreen: bool,
    pub duration_minutes: u32,
}

/// A break shows as a fullscreen window when its own display mode, or the
/// default one if it has none, is `Fullscreen`.
pub open spec fn spec_fullscreen(b: Break, settings: Settings) -> bool {
    match b.display_mode {
        Some(m) => m == DisplayMode::Fullscreen,
        None => settings.default_display_mode == DisplayMode::Fullscreen,
    }
}

/// A break's own display mode decides how it is shown, whatever the default
/// is; only a break without one follows the default.
pub proof fn lemma_own_display_mode_wins(b: Break, s1: Settings, s2: Settings)
    ensures
        b.display_mode is Some ==> spec_fullscreen(b, s1) == spec_fullscreen(b, s2),
        b.display_mode == Some(DisplayMode::Fullscreen) ==> spec_fullscreen(b, s1),
        b.display_mode == Some(DisplayMode::Notification) ==> !spec_fullscreen(b, s1),
        b.display_mode is None ==> (spec_fullscreen(b, s1) <==> s1.default_display_mode
            == DisplayMode::Fullscreen),
{
}

/// Whether break `b` is shown fullscreen rather than as a notification.
pub fn shows_fullscreen(b: &Break, settings: &Settings) -> (r: bool)
    ensures
        r == spec_fullscreen(*b, *settings),
{
    let mode = match b.display_mode {
        Some(m) => m,
        None => settings.default_display_mode,
    };
    match mode {
        DisplayMode::Fullscreen => true,
        DisplayMode::Notification => false,
    }
}

/// The event payload for firing break `b`.
pub fn payload_for(b: &Break, fullscreen: bool) -> (p: BreakTriggeredPayload)
    ensures
        p.break_id == b.id,
        p.type_label@ == spec_label(b.break_type),
        p.message == b.message,
        p.image_filename == b.image_filename,
        p.fullscreen == fullscreen,
        p.duration_minutes == b.duration_minutes,
{
    let image_filename = match &b.image_filename {
        Some(f) => Some(f.clone()),
        None => None,
    };
    BreakTriggeredPayload {
        break_id: b.id,
        type_label: b.break_type.label(),
        message: b.message.clone(),
        image_filename,
        fullscreen,
        duration_minutes: b.duration_minutes,
    }
}

/// For each due id in order that names a configured break: the position of
/// the first break with that id, and whether it shows fullscreen. Ids that
/// no longer name a break are passed over.
pub open spec fn spec_fire_plan(breaks: Seq<Break>, settings: Settings, due: Seq<u128>) -> Seq<
    (usize, bool),
>
    decreases due.len(),
{
    if due.len() == 0 {
        Seq::empty()
    } else {
        let rest = spec_fire_plan(breaks, settings, due.drop_last());
        match first_index(breaks, due.last()) {
            Some(i) => rest.push((i as usize, spec_fullscreen(breaks[i], settings))),
            None => rest,
        }
    }
}

/// The breaks a tick fires, in the order the ids came due.
pub fn plan_fires(data: &AppData, due: &Vec<u128>) -> (plan: Vec<(usize, bool)>)
    ensures
        plan@ == spec_fire_plan(data.breaks@, data.settings, due@),
        forall|k: int| 0 <= k < plan@.len() ==> (#[trigger] plan@[k]).0 < data.breaks@.len(),
{
    let mut plan: Vec<(usize, bool)> = Vec::new();
    let mut k: usize = 0;
    while k < due.len()
        invariant
            k <= due.len(),
            plan@ == spec_fire_plan(data.breaks@, data.settings, due@.subrange(0, k as int)),
            forall|j: int| 0 <= j < plan@.len() ==> (#[trigger] plan@[j]).0 < data.breaks@.len(),
        decreases due.len() - k,
    {
        proof {
            assert(due@.subrange(0, k + 1).drop_last() == due@.subrange(0, k as int));
            assert(due@.subrange(0, k + 1).last() == due@[k as int]);
        }
        match find_break(&data.breaks, due[k]) {
            Some(i) => {
                let fullscreen = shows_fullscreen(&data.breaks[i], &data.settings);
                plan.push((i, fullscreen));
            },
            None => {},
        }
        k = k + 1;
    }
    proof {
        assert(due@.subrange(0, due@.len() as int) == due@);
    }
    plan
}

} // verus!
