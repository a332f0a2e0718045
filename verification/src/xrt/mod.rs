//! What compiled routines run on: registers and flags, a shifter, memory in
//! regions, and the string routines that need nothing else.
pub mod cover;
pub mod cpu;
pub mod flags;
pub mod mem;
pub mod text;
