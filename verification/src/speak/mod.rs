//! Speaking from the command line: options, requests, and the session with the
//! engine.
pub mod args;
pub mod laws;
pub mod program;
pub mod session;
pub mod text;
