//! Fallback runtime defaults for proof search.
//!
//! These values are used by `ProofOptions::default` when no caller supplies
//! explicit bounds. CLI runs may override them through `config.toml` and
//! command-line flags.

use std::time::Duration;

use vstd::prelude::*;

verus! {

/// Default wall-clock timeout for one proof attempt, in seconds.
pub const DEFAULT_PROVE_TIMEOUT_SECS: u64 = 50;

/// Default maximum recursive proof-search depth.
pub const DEFAULT_MAX_DEPTH: usize = 128;

/// Default maximum number of proof-search steps.
pub const DEFAULT_MAX_STEPS: usize = 50000;

/// Default maximum number of fresh fallback terms per quantified occurrence.
pub const DEFAULT_MAX_FRESH_TERMS_PER_QUANTIFIER: usize = 1;

/// The duration of `secs` whole seconds.
pub uninterp spec fn duration_from_secs(secs: u64) -> Duration;

/// The duration of `millis` milliseconds.
pub uninterp spec fn duration_from_millis(millis: u64) -> Duration;

/// Calls `Duration::from_secs`, whose result depends on `secs` alone.
#[verifier::external_body]
pub(crate) fn secs_duration(secs: u64) -> (r: Duration)
    ensures
        r == duration_from_secs(secs),
{
    Duration::from_secs(secs)
}

/// Calls `Duration::from_millis`, whose result depends on `millis` alone.
#[verifier::external_body]
pub(crate) fn millis_duration(millis: u64) -> (r: Duration)
    ensures
        r == duration_from_millis(millis),
{
    Duration::from_millis(millis)
}

/// Default wall-clock timeout for one proof attempt.
pub fn default_prove_timeout() -> (r: Duration)
    ensures
        r == duration_from_secs(DEFAULT_PROVE_TIMEOUT_SECS),
{
    secs_duration(DEFAULT_PROVE_TIMEOUT_SECS)
}

} // verus!
