//! Dimensions of the concatenation window.
use vstd::prelude::*;

verus! {

/// Index of the window's last entry.
pub const WINDOW_LAST: u32 = 627;

/// Entries in the window.
pub const WINDOW_LEN: usize = 628;

} // verus!
