//! The records of proof runs and per-problem results that the CLI stores.

use vstd::prelude::*;

use crate::prover::search::engine::SearchEngine;
use crate::text::push_str;

verus! {

/// Metadata about a proof run stored before the batch starts.
#[derive(Debug, Clone, PartialEq, Eq)]
pub struct RunRecord {
    /// Human-readable label for the run.
    pub label: String,
    /// ISO 8601 timestamp when the run was initiated.
    pub timestamp: String,
    /// Name of the search engine used (e.g. "naive", "iterative_deepening").
    pub engine: String,
    /// Per-problem timeout in milliseconds.
    pub timeout_ms: u64,
    /// Maximum proof search depth.
    pub max_depth: u32,
    /// Maximum number of proof steps.
    pub max_steps: u64,
    /// Maximum number of fresh terms introduced per quantifier.
    pub max_fresh_terms_per_quantifier: u32,
    /// Expected difficulty class of the problem set (e.g. "provable", "mixed").
    pub problem_class: String,
}

/// Result for a single problem in a batch.
#[derive(Debug, Clone, PartialEq, Eq)]
pub struct ResultRecord {
    /// Unique identifier for the problem (e.g. its TPTP name).
    pub problem_id: String,
    /// Filesystem path to the problem file.
    pub path: String,
    /// Outcome of the proof attempt, as its stable label.
    pub status: String,
    /// Wall-clock time taken for this problem in milliseconds.
    pub elapsed_ms: u128,
    /// Number of formulae in the problem, if known.
    pub formulae: Option<i64>,
    /// Number of atoms in the problem, if known.
    pub atoms: Option<i64>,
    /// Reason the result is unknown; none unless the status is unknown.
    pub unknown_reason: Option<String>,
}

/// The name a run record stores for an engine.
pub open spec fn engine_name(engine: SearchEngine) -> Seq<char> {
    match engine {
        SearchEngine::Naive => "naive"@,
        SearchEngine::IterativeDeepening => "iterative_deepening"@,
        SearchEngine::Priority => "priority"@,
        SearchEngine::PriorityId => "priority_iterative_deepening"@,
    }
}

/// The name a run record stores for an engine.
pub fn engine_record_name(engine: SearchEngine) -> (r: &'static str)
    ensures
        r@ == engine_name(engine),
{
    match engine {
        SearchEngine::Naive => "naive",
        SearchEngine::IterativeDeepening => "iterative_deepening",
        SearchEngine::Priority => "priority",
        SearchEngine::PriorityId => "priority_iterative_deepening",
    }
}

/// The label of a run that was given none: the engine's name, `-`, and the
/// run's timestamp.
pub fn default_run_label(engine: SearchEngine, timestamp: &str) -> (r: String)
    ensures
        r@ == engine_name(engine) + "-"@ + timestamp@,
{
    let mut label = String::new();
    push_str(&mut label, engine_record_name(engine));
    push_str(&mut label, "-");
    push_str(&mut label, timestamp);
    label
}

/// A count as stored in a 32-bit column: saturated at `u32::MAX`.
pub open spec fn saturated_u32(n: usize) -> u32 {
    if n > u32::MAX { u32::MAX } else { n as u32 }
}

/// The record of a run with the given label, timestamp, problem class and
/// effective proof settings; counts too large for their column are stored
/// as the column's maximum.
pub fn run_record(
    label: String,
    timestamp: String,
    engine: SearchEngine,
    timeout_ms: u64,
    max_depth: usize,
    max_steps: usize,
    max_fresh_terms_per_quantifier: usize,
    problem_class: String,
) -> (r: RunRecord)
    ensures
        r.label@ == label@,
        r.timestamp@ == timestamp@,
        r.engine@ == engine_name(engine),
        r.timeout_ms == timeout_ms,
        r.max_depth == saturated_u32(max_depth),
        r.max_steps == max_steps as u64,
        r.max_fresh_terms_per_quantifier == saturated_u32(max_fresh_terms_per_quantifier),
        r.problem_class@ == problem_class@,
{
    let depth: u32 = if max_depth > 4294967295usize { 4294967295u32 } else { max_depth as u32 };
    let fresh: u32 = if max_fresh_terms_per_quantifier > 4294967295usize {
        4294967295u32
    } else {
        max_fresh_terms_per_quantifier as u32
    };
    RunRecord {
        label,
        timestamp,
        engine: engine_record_name(engine).to_owned(),
        timeout_ms,
        max_depth: depth,
        max_steps: max_steps as u64,
        max_fresh_terms_per_quantifier: fresh,
        problem_class,
    }
}

} // verus!
