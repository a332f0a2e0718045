//! Field offsets of the bit cursor in the module's memory layout.
use vstd::prelude::*;

verus! {

/// Pointer to the buffer.
pub const CHARS: u32 = 0x00;
/// Bits available.
pub const NB_BITS: u32 = 0x04;
/// Current byte.
pub const CHAR_PTR: u32 = 0x08;
/// Current bit within the byte.
pub const BIT_PTR: u32 = 0x0c;
/// Whether the record owns its buffer.
pub const OWNER: u32 = 0x10;
/// The sticky overflow flag.
pub const OVERFLOW: u32 = 0x14;

} // verus!
