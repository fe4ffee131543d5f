//! Verified core of TaskTimer: the timer, planning, analytics and sync rules
//! of a local-first coursework tracker, stated over plain values.
pub mod dates;
pub mod text;
pub mod num;
pub mod stats;
pub mod timer;
pub mod graph;
pub mod dependencies;
pub mod tasks;
pub mod analytics;
pub mod today;
pub mod week;
pub mod planner;
pub mod recurrence;
pub mod planning;
pub mod exams;
pub mod classes;
pub mod pomodoro;
pub mod weekly_review;
pub mod cloud_backup;
pub mod idle;
pub mod reminders;
pub mod desktop;
pub mod tray;
pub mod export;
pub mod todoist;
