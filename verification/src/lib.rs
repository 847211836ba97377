//! Rambling randomly about stuff: random word pairs built from word lists and templates.

pub mod chance;
pub mod classic;
pub mod cli;
pub mod cmds;
pub mod dict;
pub mod engine;
pub mod error;
pub mod json;
pub mod random_ramble;
pub mod refactor;
pub mod text;

pub use crate::error::RambleError;
pub use crate::random_ramble::RandomRamble;
