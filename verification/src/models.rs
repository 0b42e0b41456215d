//! The persisted data shapes: a scheduled break, the user settings, and the
//! document that holds both.
use crate::calendar::{Time, Weekday};
use vstd::prelude::*;

verus! {

broadcast use vstd::string::group_string_axioms;

/// Version of the persisted `AppData` layout written by this library.
pub const CURRENT_SCHEMA_VERSION: u32 = 1u32;

/// What kind of break this is.
#[derive(Debug, Clone, PartialEq, Eq)]
pub enum BreakType {
    Hydration,
    Stretch,
    Eat,
    Custom(String),
}

/// The display name of a break type.
pub open spec fn spec_label(t: BreakType) -> Seq<char> {
    match t {
        BreakType::Hydration => "Hydration"@,
        BreakType::Stretch => "Stretch"@,
        BreakType::Eat => "Eat"@,
        BreakType::Custom(label) => label@,
    }
}

impl BreakType {
    /// A short label used wherever the break needs a display name; a break's
    /// type already says what it is, so there is no separate name field.
    pub fn label(&self) -> (r: String)
        ensures
            r@ == spec_label(*self),
    {
        match self {
            BreakType::Hydration => "Hydration".to_string(),
            BreakType::Stretch => "Stretch".to_string(),
            BreakType::Eat => "Eat".to_string(),
            BreakType::Custom(label) => label.clone(),
        }
    }

    /// A copy equal to `self`.
    pub fn duplicate(&self) -> (r: BreakType)
        ensures
            r == *self,
    {
        match self {
            BreakType::Hydration => BreakType::Hydration,
            BreakType::Stretch => BreakType::Stretch,
            BreakType::Eat => BreakType::Eat,
            BreakType::Custom(label) => BreakType::Custom(label.clone()),
        }
    }
}

/// How a due break is shown.
#[derive(Debug, Clone, Copy, PartialEq, Eq, Structural)]
pub enum DisplayMode {
    Notification,
    Fullscreen,
}

/// A set of weekdays, kept as a list in which no day occurs twice.
#[derive(Debug)]
pub struct WeekdaySet {
    days: Vec<Weekday>,
}

impl View for WeekdaySet {
    type V = Set<Weekday>;

    closed spec fn view(&self) -> Set<Weekday> {
        Set::new(|w: Weekday| self.days@.contains(w))
    }
}

impl WeekdaySet {
    /// No weekday occurs twice.
    #[verifier::type_invariant]
    spec fn no_repeats(self) -> bool {
        self.days@.no_duplicates()
    }

    /// The empty set.
    pub fn new() -> (s: WeekdaySet)
        ensures
            s@ == Set::<Weekday>::empty(),
    {
        let s = WeekdaySet { days: Vec::new() };
        assert(s@ =~= Set::<Weekday>::empty());
        s
    }

    /// Whether `w` is in the set.
    pub fn contains(&self, w: Weekday) -> (r: bool)
        ensures
            r == self@.contains(w),
    {
        let mut i: usize = 0;
        while i < self.days.len()
            invariant
                i <= self.days.len(),
                forall|j: int| 0 <= j < i ==> self.days@[j] != w,
            decreases self.days.len() - i,
        {
            if self.days[i] == w {
                return true;
            }
            i = i + 1;
        }
        false
    }

    /// Adds `w`; nothing changes when it is already there.
    pub fn insert(&mut self, w: Weekday)
        ensures
            final(self)@ == old(self)@.insert(w),
    {
        proof {
            use_type_invariant(&*self);
        }
        if !self.contains(w) {
            let mut days = Vec::new();
            std::mem::swap(&mut days, &mut self.days);
            let ghost before = days@;
            days.push(w);
            proof {
                assert forall|a: int, b: int|
                    0 <= a < days@.len() && 0 <= b < days@.len() && a != b implies days@[a]
                    != days@[b] by {
                    if a < before.len() && b < before.len() {
                        assert(days@[a] == before[a] && days@[b] == before[b]);
                    } else if a < before.len() {
                        assert(before.contains(days@[a]));
                    } else {
                        assert(before.contains(days@[b]));
                    }
                }
            }
            self.days = days;
            assert forall|x: Weekday| #[trigger] self.days@.contains(x) <==> (before.contains(x)
                || x == w) by {
                if self.days@.contains(x) {
                    let k = choose|k: int| 0 <= k < self.days@.len() && #[trigger] self.days@[k] == x;
                    if k < before.len() {
                        assert(before[k] == x);
                    }
                }
                if before.contains(x) {
                    let k = choose|k: int| 0 <= k < before.len() && #[trigger] before[k] == x;
                    assert(self.days@[k] == x);
                }
                if x == w {
                    assert(self.days@[before.len() as int] == x);
                }
            }
        }
        assert(self@ =~= old(self)@.insert(w));
    }

    /// The set of the weekdays listed in `days`.
    pub fn from_days(days: &[Weekday]) -> (s: WeekdaySet)
        ensures
            s@ == Set::new(|w: Weekday| days@.contains(w)),
    {
        let mut s = WeekdaySet::new();
        let mut i: usize = 0;
        while i < days.len()
            invariant
                i <= days.len(),
                s@ == Set::new(|w: Weekday| days@.subrange(0, i as int).contains(w)),
            decreases days.len() - i,
        {
            s.insert(days[i]);
            proof {
                assert forall|w: Weekday| #[trigger] days@.subrange(0, i + 1).contains(w) <==> (
                days@.subrange(0, i as int).contains(w) || w == days@[i as int]) by {
                    if days@.subrange(0, i + 1).contains(w) {
                        let k = choose|k: int| 0 <= k < i + 1 && #[trigger] days@.subrange(0, i + 1)[k] == w;
                        if k < i {
                            assert(days@.subrange(0, i as int)[k] == w);
                        }
                    }
                    if days@.subrange(0, i as int).contains(w) {
                        let k = choose|k: int| 0 <= k < i && #[trigger] days@.subrange(0, i as int)[k] == w;
                        assert(days@.subrange(0, i + 1)[k] == w);
                    }
                    if w == days@[i as int] {
                        assert(days@.subrange(0, i + 1)[i as int] == w);
                    }
                }
            }
            i = i + 1;
            assert(s@ =~= Set::new(|w: Weekday| days@.subrange(0, i as int).contains(w)));
        }
        assert(days@.subrange(0, days.len() as int) == days@);
        assert(s@ =~= Set::new(|w: Weekday| days@.contains(w)));
        s
    }

    /// The weekdays of the set, each once.
    pub fn to_vec(&self) -> (v: Vec<Weekday>)
        ensures
            v@.no_duplicates(),
            forall|w: Weekday| v@.contains(w) <==> self@.contains(w),
    {
        proof {
            use_type_invariant(self);
        }
        let mut v: Vec<Weekday> = Vec::new();
        let mut i: usize = 0;
        while i < self.days.len()
            invariant
                i <= self.days.len(),
                self.days@.no_duplicates(),
                v@ == self.days@.subrange(0, i as int),
            decreases self.days.len() - i,
        {
            v.push(self.days[i]);
            i = i + 1;
        }
        assert(self.days@.subrange(0, self.days.len() as int) == self.days@);
        v
    }

    /// A copy with the same weekdays.
    pub fn duplicate(&self) -> (r: WeekdaySet)
        ensures
            r@ == self@,
    {
        proof {
            use_type_invariant(self);
        }
        let v = self.to_vec();
        let r = WeekdaySet { days: v };
        assert(r@ =~= self@);
        r
    }
}

/// One scheduled break.
#[derive(Debug)]
pub struct Break {
    /// The break's id: the 128 bits of its UUID.
    pub id: u128,
    pub break_type: BreakType,
    /// Time of day at which the break is due.
    pub start_time: Time,
    pub duration_minutes: u32,
    /// The weekdays on which the break is scheduled.
    pub days: WeekdaySet,
    /// `None` means inherit `Settings::default_display_mode`.
    pub display_mode: Option<DisplayMode>,
    /// Filename only, resolved against the app's image directory.
    pub image_filename: Option<String>,
    pub message: String,
    pub enabled: bool,
}

/// A copy of an optional string.
fn copy_opt_string(s: &Option<String>) -> (r: Option<String>)
    ensures
        r == *s,
{
    match s {
        Some(v) => Some(v.clone()),
        None => None,
    }
}

impl Break {
    /// The break is scheduled on weekday `w`.
    pub open spec fn on_day(self, w: Weekday) -> bool {
        self.days@.contains(w)
    }

    /// Whether the break is scheduled on weekday `w`.
    pub fn scheduled_on(&self, w: Weekday) -> (r: bool)
        ensures
            r == self.on_day(w),
    {
        self.days.contains(w)
    }

    /// A copy of the break: every field equal, the set of days by its view.
    pub fn duplicate(&self) -> (r: Break)
        ensures
            r.same_as(*self),
    {
        Break {
            id: self.id,
            break_type: self.break_type.duplicate(),
            start_time: self.start_time,
            duration_minutes: self.duration_minutes,
            days: self.days.duplicate(),
            display_mode: self.display_mode,
            image_filename: copy_opt_string(&self.image_filename),
            message: self.message.clone(),
            enabled: self.enabled,
        }
    }

    /// Field-by-field equality, the set of days compared by its view.
    pub open spec fn same_as(self, other: Break) -> bool {
        &&& self.id == other.id
        &&& self.break_type == other.break_type
        &&& self.start_time == other.start_time
        &&& self.duration_minutes == other.duration_minutes
        &&& self.days@ == other.days@
        &&& self.display_mode == other.display_mode
        &&& self.image_filename == other.image_filename
        &&& self.message == other.message
        &&& self.enabled == other.enabled
    }
}

/// User settings.
#[derive(Debug, Clone, Copy)]
pub struct Settings {
    pub paused: bool,
    pub default_display_mode: DisplayMode,
    pub cancel_on_call: bool,
    pub autostart: bool,
    /// If set, a fullscreen break shows on every connected monitor instead
    /// of just the primary one.
    pub show_on_all_screens: bool,
}

impl Settings {
    /// Flips between paused and active, leaving every other setting alone.
    pub fn toggle_paused(&mut self)
        ensures
            final(self).paused == !old(self).paused,
            final(self).default_display_mode == old(self).default_display_mode,
            final(self).cancel_on_call == old(self).cancel_on_call,
            final(self).autostart == old(self).autostart,
            final(self).show_on_all_screens == old(self).show_on_all_screens,
    {
        self.paused = !self.paused;
    }
}

impl Default for Settings {
    fn default() -> (s: Settings)
        ensures
            !s.paused,
            s.default_display_mode == DisplayMode::Fullscreen,
            !s.cancel_on_call,
            !s.autostart,
            !s.show_on_all_screens,
    {
        Settings {
            paused: false,
            default_display_mode: DisplayMode::Fullscreen,
            cancel_on_call: false,
            autostart: false,
            show_on_all_screens: false,
        }
    }
}

/// Everything the user edits: settings and the list of breaks.
#[derive(Debug)]
pub struct AppData {
    pub schema_version: u32,
    pub settings: Settings,
    pub breaks: Vec<Break>,
}

impl Default for AppData {
    fn default() -> (d: AppData)
        ensures
            d.schema_version == CURRENT_SCHEMA_VERSION,
            !d.settings.paused,
            d.settings.default_display_mode == DisplayMode::Fullscreen,
            !d.settings.cancel_on_call,
            !d.settings.autostart,
            !d.settings.show_on_all_screens,
            d.breaks@.len() == 0,
    {
        AppData {
            schema_version: CURRENT_SCHEMA_VERSION,
            settings: Settings::default(),
            breaks: Vec::new(),
        }
    }
}

} // verus!
