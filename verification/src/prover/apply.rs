//! Public rule-application entry points used by proof search.

pub use crate::prover::rules::apply::{apply_rule, RuleApplication};
