//! A small cron-style scheduler for second / minute / hour schedules.
//!
//! The schedule rules are plain data and pure steps, each with a contract:
//! parsing an expression into field sets, moving a cursor from one matching
//! instant to the next with calendar rollover, and the decisions of the
//! dispatch protocol. Threads, sleeping and the callback live with the caller.

pub mod calendar;
mod clock;
pub mod field;
pub mod job;
pub mod tracker;

pub use crate::calendar::Timestamp;
pub use crate::field::CronError;
pub use crate::field::Schedule;
pub use crate::field::Unit;
pub use crate::job::CronJob;
pub use crate::job::JobStatus;
pub use crate::tracker::DispatchStep;
pub use crate::tracker::FireEvent;
pub use crate::tracker::JobTracker;
pub use crate::tracker::WorkerStep;
