//! Readers for the data files of a voice.
pub mod atm;
pub mod atm_laws;
pub mod bank;
pub mod bank_laws;
pub mod char_laws;
pub mod chars;
pub mod descriptor;
pub mod entry_laws;
pub mod error;
pub mod lexicon;
pub mod phd;
pub mod sde;
pub mod sde_laws;
pub mod text;
