//! Task tracking with a Pomodoro timer: tasks with a forward-only
//! lifecycle and subtask links, their document encoding, a registry that
//! keeps links sound, and the timer's phases.
pub mod codec;
pub mod manager;
pub mod pomodoro;
pub mod task;
pub mod time;

pub use codec::{decode_all, decode_all_at, decode_task, decode_task_at, encode_all, encode_task};
pub use codec::{DecodeError, Doc, Field};
pub use manager::{MergePolicy, TaskManager};
pub use pomodoro::{notify_step, Notice, NotifyStatus, Pomodoro, PomodoroStatus};
pub use task::{Subtask, Task, TaskStatus};
pub use time::{Duration, Timestamp};
