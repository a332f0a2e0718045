//! The speech-database codec.
pub mod band_laws;
pub mod bits;
pub mod decoder;
pub mod driver;
pub mod field;
pub mod filter_laws;
pub mod filters;
pub mod fixed;
pub mod frame_laws;
pub mod innov;
pub mod laws;
pub mod level_laws;
pub mod lpc;
pub mod lsp;
pub mod ltp;
pub mod math;
pub mod nb;
pub mod reader;
pub mod reader_laws;
pub mod sb;
pub mod tables;
pub mod tap_laws;
pub mod window;
