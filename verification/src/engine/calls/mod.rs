//! The calls that the engine makes into the runtime.
pub mod file_laws;
pub mod files;
pub mod import;
pub mod laws;
pub mod memory;
pub mod name_laws;
pub mod other_laws;
pub mod others;
pub mod report;
pub mod strings;
pub mod text_laws;
