//! Shared error definitions.

use vstd::prelude::*;

verus! {

/// Recoverable errors that kernel operations can return to their callers.
#[derive(Copy, Clone, Debug, PartialEq, Eq, Structural)]
pub enum FreeRtosError {
    OutOfMemory,
    Timeout,
    TaskNotFound,
    ProcessorHasShutDown,
    DeadLocked,
    PortError,
}

} // verus!
