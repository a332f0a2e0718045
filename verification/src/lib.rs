//! Speech from a bank of coded units.
//!
//! A voice is a bank of recorded speech, coded frame by frame, and files that
//! say what is in it. `data` reads those files, `codec` turns coded frames back
//! into samples, and `gen` chooses how each phone is said. The routines that
//! decide what to say are compiled code: `xrt` is the machine they run on and
//! `engine` the runtime that they call. `speak` drives them from the command
//! line, and `oracle` records what they say of themselves on the way.
//!
//! Nothing here reads a clock, a file or a socket. What a step needs from
//! outside is handed to it, and what it wants done comes back as a value.
pub mod codec;
pub mod data;
pub mod engine;
pub mod gen;
pub mod oracle;
pub mod speak;
pub mod stream;
pub mod wav;
pub mod xrt;
