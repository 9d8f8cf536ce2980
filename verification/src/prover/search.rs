//! Backward proof search: branch bookkeeping, rule scheduling and the search
//! engines.

pub mod branch_state;
pub mod scheduler;
pub mod engine;
