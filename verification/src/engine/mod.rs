//! The runtime under the engine: a heap, files, a loader, formatted text and
//! cooperative threads.
//!
//! Everything here is a step from state to state. What a step needs from
//! outside is asked for first and handed in as plain values; what it wants done
//! outside comes back as an action.
pub mod calls;
pub mod cfmt;
pub mod files;
pub mod format_laws;
pub mod heap;
pub mod path_laws;
pub mod paths;
pub mod scan;
pub mod runtime;
pub mod runtime_laws;
pub mod sched;
pub mod words;
pub mod world;
