# take_a_break

The scheduling core of a menu-bar break reminder, verified with Verus.

- `src/` is the library. Dates and times are plain integers (`calendar`),
  breaks and settings are plain data (`models`), and the scheduler's
  decisions are verified functions: which breaks fire on a tick
  (`trigger::compute_due_breaks`), when the next break comes
  (`trigger::next_occurrence`), when the next break actually fires given
  postpones and cancels (`upcoming`), the tray text and menu (`tray`), the edits to the list
  of breaks (`commands`), postpone/cancel bookkeeping (`state`), how a fired
  break is shown (`dispatch`), file and window names (`files`) and the
  microphone poll cache (`call_detection`). `laws` proves properties of a
  tick that hold for every list of breaks and every state. Calendar
  arithmetic is done by `chrono` and ids by `uuid`, behind small wrappers
  whose contracts state what those crates compute.
- `app/` is the Tauri application around it: windows, tray, notifications,
  JSON persistence (serde copies of the data types, converted to and from
  the library's types) and the timer loop.
- `tests/` runs the library on concrete values.
