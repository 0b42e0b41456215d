//! Runtime scheduling state, kept apart from the user-editable `AppData` so a
//! postpone or a skip survives a restart.
//!
//! Times are naive wall-clock values, as the OS reports local time; nothing
//! here needs a UTC offset.
use crate::calendar::{spec_add_minutes, Date, DateTime};
use std::collections::HashMap;
use vstd::prelude::*;

verus! {

broadcast use vstd::std_specs::hash::group_hash_axioms;

/// The abstract scheduler state: the date each break last fired on, the
/// time a postponed break is due at, and the date on which a break was
/// cancelled, each keyed by break id.
pub type StateView = (Map<u128, Date>, Map<u128, DateTime>, Map<u128, Date>);

/// Bookkeeping that makes firing idempotent and carries user postpones and
/// cancels.
#[derive(Debug)]
pub struct SchedulerState {
    /// The date a break last fired on, keyed by break id. Makes firing
    /// idempotent within a day regardless of tick timing.
    pub last_fired: HashMap<u128, Date>,
    /// A break the user postponed, and the wall-clock time it should fire at.
    pub postponed: HashMap<u128, DateTime>,
    /// A break the user cancelled for a specific day; only that day's
    /// occurrence is skipped.
    pub skipped_today: HashMap<u128, Date>,
}

impl View for SchedulerState {
    type V = StateView;

    open spec fn view(&self) -> StateView {
        (self.last_fired@, self.postponed@, self.skipped_today@)
    }
}

impl Default for SchedulerState {
    fn default() -> (s: SchedulerState)
        ensures
            s@ == (Map::<u128, Date>::empty(), Map::<u128, DateTime>::empty(), Map::<
                u128,
                Date,
            >::empty()),
    {
        SchedulerState {
            last_fired: HashMap::new(),
            postponed: HashMap::new(),
            skipped_today: HashMap::new(),
        }
    }
}

impl SchedulerState {
    /// Postpones break `id` to `minutes` after `now` (the state part of the
    /// "postpone" command). A later postpone of the same break replaces it.
    pub fn postpone(&mut self, id: u128, now: DateTime, minutes: i64)
        requires
            now.wf(),
            spec_add_minutes(now, minutes as int) is Some,
        ensures
            final(self)@ == (
                old(self)@.0,
                old(self)@.1.insert(id, spec_add_minutes(now, minutes as int)->0),
                old(self)@.2,
            ),
    {
        let fire_at = crate::calendar::add_minutes(now, minutes);
        match fire_at {
            Some(t) => {
                self.postponed.insert(id, t);
            },
            None => {},
        }
    }

    /// Cancels today's occurrence of break `id` (the state part of the
    /// "cancel" command); other days are unaffected.
    pub fn skip_today(&mut self, id: u128, today: Date)
        ensures
            final(self)@ == (old(self)@.0, old(self)@.1, old(self)@.2.insert(id, today)),
    {
        self.skipped_today.insert(id, today);
    }

    /// Forgets everything remembered about break `id`: after a break is
    /// edited or deleted its old schedule must not hold it back.
    pub fn clear_break(&mut self, id: u128)
        ensures
            final(self)@ == (old(self)@.0.remove(id), old(self)@.1.remove(id), old(self)@.2.remove(
                id,
            )),
    {
        self.last_fired.remove(&id);
        self.postponed.remove(&id);
        self.skipped_today.remove(&id);
    }
}

} // verus!
