//! The few machine-level type aliases and constants that the portable layer
//! fixes for the kernel.

use vstd::prelude::*;

verus! {

/// Width of one stack word; stack positions are stored as plain numbers.
pub type StackType = u64;

/// Signed machine word.
pub type BaseType = i64;

/// Unsigned machine word, used for counters and priorities.
pub type UBaseType = u64;

/// The tick counter's type; wake times and wait budgets share it.
pub type TickType = u32;

/// The largest representable tick value.  As a wait budget it means
/// "block indefinitely".
pub const portMAX_DELAY: TickType = 0xffff_ffff;

} // verus!
