//! A priority-based real-time task scheduler core: priority-ordered lists,
//! task control blocks, global scheduler state, the kernel control loop,
//! overflow-safe timeouts, blocking queues and the semaphore/mutex layer
//! built on them.
//!
//! The whole kernel state lives in one explicit [`task_global::Kernel`]
//! object; every operation states its effect on that state and is verified
//! against it.

pub mod config;
pub mod projdefs;
pub mod port;
pub mod list;
pub mod task_control;
pub mod task_global;
pub mod kernel;
pub mod task_queue;
pub mod queue;
pub mod semaphore;
pub mod task_timemanager;
