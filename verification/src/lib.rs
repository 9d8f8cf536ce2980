//! First-order theorem proving for TPTP FOF problems with Hou's LK′ backward
//! sequent search.
//!
//! The crate parses TPTP FOF problems, builds the initial sequent
//! `premises ⊢ conjecture`, and searches for an LK′ derivation with one of
//! four engines that share one proof kernel: a naive depth-first search,
//! iterative deepening, and both of these with the six-class LK′ priority
//! schedule.

pub mod ast;
pub mod cli;
pub mod parser;
pub mod persistence;
pub mod pipeline;
pub mod prover;
pub mod text;

pub use ast::{Atom, Formula, NumberLit, Symbol, Term, Var};
pub use parser::{parse_problem, parse_tptp, FormulaRecord, IncludeDirective, ParsedProblem, ParseError, TptpInput};
pub use pipeline::{
    build_problem_sequent, run_problem, run_problem_with_options, BiconditionalPolicy, ProblemPipelineError,
    RunProblemOptions,
};
pub use pipeline::includes::{
    build_problem_sequent_from_path, run_problem_from_path, run_problem_from_path_with_options, ProblemFiles,
};
pub use prover::rules::{Rule, RuleMatch, Side};
pub use prover::search::branch_state::{record_quantifier_term, BranchState};
pub use prover::search::engine::{
    prove, prove_with_cancel, prove_with_interrupt, ProofOptions, ProofResult, ProofStatus, SearchEngine,
    UnknownReason,
};
pub use prover::search::scheduler::{
    quantified_occurrence_key, schedule_next_rules_lk_priority, ScheduleResult, ScheduledRule,
};
pub use prover::sequent::{Sequent, SequentBuildError};
