//! Manifest-driven version tracking, update decisions and argument
//! composition for launching the TLA+ tools.

pub mod config;
pub mod error;
pub mod invoke;
pub mod manifest;
pub mod text;
pub mod update;
pub mod version;
