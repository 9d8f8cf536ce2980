//! The logic of the command-line front end: configuration, subset files,
//! reporting and exit codes, and cancellation.

pub mod cancel;
pub mod config;
pub mod config_text;
pub mod markers;
pub mod numbers;
pub mod report;
pub mod subset;
