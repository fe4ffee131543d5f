# TaskTimer

TaskTimer tracks coursework and the time spent on it: a Today view grouped
by class, a week planner, a timer derived from stored timestamps, analytics,
exports, and an optional read-only Todoist sync.

## Layout

- `src/` — the library, verified with Verus. Every decision the app makes
  lives here with a contract: the timer's clock arithmetic, the Today and
  Week layouts, the study planner, recurring tasks, the calendar, analytics
  figures, exports (CSV cells, the iCalendar feed), the Todoist response
  checks, sync plan and import plan, settings checks and the background
  reminders' next step. Laws that tie operations together are public proof
  functions beside the code they speak of.
- `app/` — ordinary Rust around the library: the SQLite store and its
  queries, the Todoist HTTP client and the keychain, file exports, process
  state and background workers. It hands the library plain values and
  writes back what the library decides.
- `tests/` — scenario tests that run the library on concrete values.

Dates are handled through chrono, whose parsing and printing the library
names rather than restates. Todoist commands are written by serde_json,
whose compact output the library states exactly; backup files are read
with serde_json too, and the library names what it reads of their format
version. Where a library function requires its figures to stay within machine
integers (sums within an `i64`, timestamps within SQLite's dates, a due
value cut on a character boundary), the app first calls the library's
check of exactly that condition (`today_fits`, `week_fits_check`,
`plan_fits`, `overrun_fits`, `calendar_fits_check`, `clock_fits`,
`remaining_fits`, `projects_fit` and the analytics checks) and refuses the
request when it fails.
