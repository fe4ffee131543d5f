//! The timer: sessions whose durations are always derived from stored
//! timestamps (start, accumulated pause, current pause start, end), never
//! from a running counter.
//!
//! Times are Unix seconds. SQLite's date functions, which produce them, only
//! represent years 0000 to 9999, so every timestamp lies in `epoch_range`.
use vstd::prelude::*;
use crate::text::message;

verus! {

/// A stored time session, as it is shown to the user.
pub struct Session {
    pub id: i64,
    pub task_id: i64,
    pub start_ts: String,
    pub end_ts: Option<String>,
    pub accumulated_pause_seconds: i64,
    pub pause_started_ts: Option<String>,
    pub final_duration_seconds: Option<i64>,
    pub edited: bool,
}

/// The active session with the labels and elapsed time the UI shows.
pub struct ActiveSessionInfo {
    pub session: Session,
    pub task_title: String,
    pub class_course_code: String,
    pub is_paused: bool,
    pub elapsed_seconds: i64,
}

/// Why a timer operation was refused.
pub enum TimerError {
    /// Another task is already being tracked.
    ActiveSessionConflict { task_id: i64, task_title: String, class_course_code: String },
    NotFound,
    Other { message: String },
}

/// The timestamps of a session, in Unix seconds.
#[derive(Clone, Copy)]
pub struct SessionClock {
    pub start: i64,
    pub accumulated_pause_seconds: i64,
    pub pause_started: Option<i64>,
    pub end: Option<i64>,
    pub final_duration_seconds: Option<i64>,
}

/// The Unix seconds that SQLite's date functions can produce
/// (0000-01-01 to 9999-12-31).
pub open spec fn epoch_range(t: int) -> bool {
    -62167219200 <= t <= 253402300799
}

/// The bound on accumulated pause that keeps every sum within an `i64` column.
pub open spec fn pause_range(p: int) -> bool {
    -0x1000_0000_0000_0000 <= p <= 0x1000_0000_0000_0000
}

/// A clock whose timestamps the database can hold.
pub open spec fn clock_ok(c: SessionClock) -> bool {
    &&& epoch_range(c.start as int)
    &&& pause_range(c.accumulated_pause_seconds as int)
    &&& (c.pause_started matches Some(p) ==> epoch_range(p as int))
}

/// Whether a clock and the current time are ones the timer functions take:
/// `clock_ok(c)` and `now` within `epoch_range`.
pub fn clock_fits(c: &SessionClock, now: i64) -> (r: bool)
    ensures
        r == (clock_ok(*c) && epoch_range(now as int)),
{
    let in_epoch = |t: i64| -> (b: bool)
        ensures
            b == epoch_range(t as int),
        { -62167219200 <= t && t <= 253402300799 };
    in_epoch(c.start) && in_epoch(now)
        && -0x1000_0000_0000_0000 <= c.accumulated_pause_seconds && c.accumulated_pause_seconds <= 0x1000_0000_0000_0000
        && match c.pause_started {
            Some(p) => in_epoch(p),
            None => true,
        }
}

/// `MAX(0, to - from)`.
pub open spec fn span(from: int, to: int) -> int {
    if to - from > 0 { to - from } else { 0 }
}

/// Seconds of the pause in progress at `now` (zero when not paused).
pub open spec fn ongoing_pause(c: SessionClock, now: int) -> int {
    match c.pause_started {
        Some(p) => span(p as int, now),
        None => 0,
    }
}

/// Elapsed tracked time at `now`: time since start, minus accumulated pauses,
/// minus the pause in progress, never below zero.
pub open spec fn elapsed_at(c: SessionClock, now: int) -> int {
    let e = span(c.start as int, now) - c.accumulated_pause_seconds - ongoing_pause(c, now);
    if e > 0 { e } else { 0 }
}

/// The duration a finish at `now` records: `MAX(0, now - start - accumulated)`,
/// after the pause in progress has been folded into the accumulated pause.
pub open spec fn finished_duration(c: SessionClock, now: int) -> int {
    let d = now - c.start - (c.accumulated_pause_seconds + ongoing_pause(c, now));
    if d > 0 { d } else { 0 }
}

fn span_exec(from: i64, to: i64) -> (r: i64)
    requires
        epoch_range(from as int),
        epoch_range(to as int),
    ensures
        r as int == span(from as int, to as int),
{
    if to - from > 0 { to - from } else { 0 }
}

/// Elapsed seconds of a session at `now`, recomputed from its timestamps.
pub fn compute_elapsed_seconds(c: &SessionClock, now: i64) -> (r: i64)
    requires
        clock_ok(*c),
        epoch_range(now as int),
    ensures
        r as int == elapsed_at(*c, now as int),
        r >= 0,
{
    let mut elapsed: i64 = span_exec(c.start, now) - c.accumulated_pause_seconds;
    if let Some(p) = c.pause_started {
        elapsed = elapsed - span_exec(p, now);
    }
    if elapsed > 0 { elapsed } else { 0 }
}

/// Pausing: records the pause start unless a pause is already in progress.
pub fn pause_clock(c: SessionClock, now: i64) -> (r: SessionClock)
    ensures
        c.pause_started is None ==> r == (SessionClock { pause_started: Some(now), ..c }),
        c.pause_started is Some ==> r == c,
{
    if c.pause_started.is_none() {
        SessionClock { pause_started: Some(now), ..c }
    } else {
        c
    }
}

/// Resuming: folds the pause in progress into the accumulated pause.
pub fn resume_clock(c: SessionClock, now: i64) -> (r: SessionClock)
    requires
        clock_ok(c),
        epoch_range(now as int),
    ensures
        r.accumulated_pause_seconds == c.accumulated_pause_seconds + ongoing_pause(c, now as int),
        (r.pause_started is None),
        c.pause_started is None ==> r == c,
        r.start == c.start,
        r.end == c.end,
        r.final_duration_seconds == c.final_duration_seconds,
{
    match c.pause_started {
        Some(p) => SessionClock {
            accumulated_pause_seconds: c.accumulated_pause_seconds + span_exec(p, now),
            pause_started: None,
            ..c
        },
        None => c,
    }
}

/// Finishing: folds the pause in progress, then records the end and the
/// final duration `MAX(0, now - start - accumulated)`.
pub fn finish_clock(c: SessionClock, now: i64) -> (r: SessionClock)
    requires
        clock_ok(c),
        epoch_range(now as int),
    ensures
        r.start == c.start,
        r.accumulated_pause_seconds == c.accumulated_pause_seconds + ongoing_pause(c, now as int),
        (r.pause_started is None),
        r.end == Some(now),
        r.final_duration_seconds == Some(finished_duration(c, now as int) as i64),
        r.final_duration_seconds matches Some(d) && d as int == finished_duration(c, now as int),
{
    let folded = resume_clock(c, now);
    let d: i64 = now - folded.start - folded.accumulated_pause_seconds;
    SessionClock { end: Some(now), final_duration_seconds: Some(if d > 0 { d } else { 0 }), ..folded }
}


/// Law: finishing records exactly the elapsed time the timer shows at that
/// moment. (It can differ only for a start in the future together with a
/// negative accumulated pause, which the timer never writes.)
pub proof fn finish_records_elapsed(c: SessionClock, now: i64)
    requires
        clock_ok(c),
        epoch_range(now as int),
        c.accumulated_pause_seconds >= 0 || now >= c.start,
    ensures
        finished_duration(c, now as int) == elapsed_at(c, now as int),
{
}

/// Law: a pause from `t1` to `t2` is excluded from the duration: the time
/// tracked by a finish at `t3` is the wall time since start, less the earlier
/// pauses and less `t2 - t1`.
pub proof fn pause_then_resume_excludes_paused_time(c: SessionClock, t1: i64, t2: i64, t3: i64)
    requires
        clock_ok(c),
        (c.pause_started is None),
        epoch_range(t1 as int),
        epoch_range(t2 as int),
        epoch_range(t3 as int),
        t1 <= t2,
    ensures
        ({
            let resumed = resume_clock_spec(pause_clock_spec(c, t1), t2);
            &&& resumed.accumulated_pause_seconds == c.accumulated_pause_seconds + (t2 - t1)
            &&& finished_duration(resumed, t3 as int) == span(0, t3 - c.start - c.accumulated_pause_seconds - (t2 - t1))
        }),
{
}

/// Law: while a session is paused its elapsed time stands still.
pub proof fn paused_elapsed_is_frozen(c: SessionClock, now1: i64, now2: i64)
    requires
        clock_ok(c),
        c.pause_started matches Some(p) && c.start <= p && p <= now1 && p <= now2,
    ensures
        elapsed_at(c, now1 as int) == elapsed_at(c, now2 as int),
{
}

/// Law: while a session runs, its elapsed time never goes back, and once
/// it is under way it advances exactly with the clock: no counter can drift
/// from the stored timestamps.
pub proof fn running_elapsed_follows_the_clock(c: SessionClock, now1: i64, now2: i64)
    requires
        (c.pause_started is None),
        c.accumulated_pause_seconds >= 0,
        now1 <= now2,
    ensures
        elapsed_at(c, now1 as int) <= elapsed_at(c, now2 as int),
        elapsed_at(c, now1 as int) > 0 ==> elapsed_at(c, now2 as int) == elapsed_at(c, now1 as int) + (now2 - now1),
{
}

/// Law: pausing an already paused session changes nothing.
pub proof fn pause_is_idempotent(c: SessionClock, t1: i64, t2: i64)
    ensures
        pause_clock_spec(pause_clock_spec(c, t1), t2) == pause_clock_spec(c, t1),
{
}

/// What `pause_clock` returns.
pub open spec fn pause_clock_spec(c: SessionClock, now: i64) -> SessionClock {
    if c.pause_started is None {
        SessionClock { pause_started: Some(now), ..c }
    } else {
        c
    }
}

/// What `resume_clock` returns.
pub open spec fn resume_clock_spec(c: SessionClock, now: i64) -> SessionClock {
    match c.pause_started {
        Some(p) => SessionClock {
            accumulated_pause_seconds: (c.accumulated_pause_seconds + span(p as int, now as int)) as i64,
            pause_started: None,
            ..c
        },
        None => c,
    }
}

/// A start is refused while another session is active, naming that session's
/// task and class.
pub fn check_start(active_task: Option<(i64, String, String)>) -> (r: Result<(), TimerError>)
    ensures
        active_task is None <==> r is Ok,
        active_task matches Some(a) ==> r == Err::<(), TimerError>(
            TimerError::ActiveSessionConflict { task_id: a.0, task_title: a.1, class_course_code: a.2 }),
{
    match active_task {
        Some((task_id, task_title, class_course_code)) => Err(
            TimerError::ActiveSessionConflict { task_id, task_title, class_course_code },
        ),
        None => Ok(()),
    }
}

/// Pause, resume, finish and cancel need an active session.
pub fn require_active(active_session_id: Option<i64>) -> (r: Result<i64, TimerError>)
    ensures
        active_session_id matches Some(id) ==> r == Ok::<i64, TimerError>(id),
        active_session_id is None ==> r == Err::<i64, TimerError>(TimerError::NotFound),
{
    match active_session_id {
        Some(id) => Ok(id),
        None => Err(TimerError::NotFound),
    }
}

/// A switch applies only to the session the caller saw as active.
pub fn check_switch(active_session_id: Option<i64>, session_id: i64) -> (r: Result<(), TimerError>)
    ensures
        r is Ok <==> active_session_id == Some(session_id),
        r is Err ==> r == Err::<(), TimerError>(TimerError::NotFound),
{
    if active_session_id == Some(session_id) {
        Ok(())
    } else {
        Err(TimerError::NotFound)
    }
}

/// Recovery of an unfinished session applies only to the session still active.
pub fn check_recover(active_session_id: Option<i64>, session_id: i64) -> (r: Result<(), String>)
    ensures
        r is Ok <==> active_session_id == Some(session_id),
        r matches Err(m) ==> m@ == "The active session has changed. Refresh and try again."@,
{
    if active_session_id == Some(session_id) {
        Ok(())
    } else {
        Err(message("The active session has changed. Refresh and try again."))
    }
}

/// A manual duration must be non-negative and the session must exist and be
/// finished. `ended` is `None` when there is no such session.
pub fn check_edit_duration(final_duration_seconds: i64, ended: Option<bool>) -> (r: Result<(), String>)
    ensures
        r is Ok <==> final_duration_seconds >= 0 && ended == Some(true),
        final_duration_seconds < 0 ==> (r matches Err(m) && m@ == "duration cannot be negative"@),
        final_duration_seconds >= 0 && ended is None ==> (r matches Err(m) && m@ == "Session not found"@),
        final_duration_seconds >= 0 && ended == Some(false) ==> (r matches Err(m)
            && m@ == "Finish the session before editing its duration"@),
{
    if final_duration_seconds < 0 {
        return Err(message("duration cannot be negative"));
    }
    match ended {
        None => Err(message("Session not found")),
        Some(false) => Err(message("Finish the session before editing its duration")),
        Some(true) => Ok(()),
    }
}

/// The active-session view: the session, its labels, whether it is paused,
/// and its elapsed time at `now`.
pub fn build_active_info(
    session: Session,
    clock: &SessionClock,
    task_title: String,
    class_course_code: String,
    now: i64,
) -> (r: ActiveSessionInfo)
    requires
        clock_ok(*clock),
        epoch_range(now as int),
    ensures
        r.session == session,
        r.task_title == task_title,
        r.class_course_code == class_course_code,
        r.is_paused == session.pause_started_ts is Some,
        r.elapsed_seconds as int == elapsed_at(*clock, now as int),
{
    let elapsed_seconds = compute_elapsed_seconds(clock, now);
    let is_paused = session.pause_started_ts.is_some();
    ActiveSessionInfo { session, task_title, class_course_code, is_paused, elapsed_seconds }
}

/// The error for a failed lock or database call, carrying its message.
pub fn lock_err(message: String) -> (r: TimerError)
    ensures
        r == (TimerError::Other { message }),
{
    TimerError::Other { message }
}

} // verus!
