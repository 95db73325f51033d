//! Compile scheduling: a merge queue (at most one waiting request, always the
//! latest), the failure decision table, and the scheduler's state machine.

pub mod actor;
pub mod policy;
pub mod queue;

pub use actor::{Effect, RunningJob, SchedulerCommand, SchedulerState};
pub use policy::{decide, Decide};
pub use queue::Queue;
