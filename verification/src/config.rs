//! Compile-time configuration values of the kernel.

use vstd::prelude::*;

verus! {

/// Number of distinct task priorities; valid priorities are
/// `0 ..= MAX_PRIORITIES - 1`, where a larger number means a more urgent task.
pub const MAX_PRIORITIES: u64 = 10;

/// Default stack depth, in words, given to a task whose builder does not
/// choose one.
pub const MINIMAL_STACK_SIZE: u64 = 64;

} // verus!
