//! Scheduling core of a break reminder: the break and settings model, the
//! per-tick decision of which breaks fire, the search for the next upcoming
//! break, and the tray's "time remaining" label.
pub mod calendar;
pub mod ids;
pub mod models;
pub mod state;
pub mod trigger;
pub mod laws;
pub mod upcoming;
pub mod tray;
pub mod commands;
pub mod dispatch;
pub mod call_detection;
pub mod files;
