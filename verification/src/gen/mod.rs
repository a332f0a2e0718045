//! From broad phones to narrow ones: the rules that choose how a phone is said
//! from what stands around it.
pub mod blocks;
pub mod exact;
pub mod laws;
pub mod narrow;
pub mod rules;
