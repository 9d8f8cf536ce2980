//! What the CLI reports about each problem and each batch: stable labels,
//! tab-separated rows, running counts, stored result records and exit codes.

use vstd::prelude::*;

use crate::cli::subset::{file_stem, ProblemRun, SubsetStats};
use crate::persistence::ResultRecord;
use crate::pipeline::ProblemPipelineError;
use crate::prover::rules::kinds::{Rule, RuleMatch, Side};
use crate::prover::search::engine::{ProofResult, ProofStatus, UnknownReason};
use crate::text::{dec, push_str, u128_to_decimal, usize_to_decimal};

verus! {

/// The exit code of a run that failed.
pub const EXIT_FAILURE: i32 = 1;

/// The exit code of a run that was cancelled.
pub const EXIT_CANCELLED: i32 = 130;

/// The stable label of a proof status.
pub open spec fn status_label(status: ProofStatus) -> Seq<char> {
    match status {
        ProofStatus::NotImplemented => "not_implemented"@,
        ProofStatus::Provable => "provable"@,
        ProofStatus::NotProvable => "not_provable"@,
        ProofStatus::Timeout => "timeout"@,
        ProofStatus::Unknown => "unknown"@,
        ProofStatus::Cancelled => "cancelled"@,
        ProofStatus::Error => "error"@,
    }
}

/// Maps proof statuses to stable human-readable labels.
pub fn human_proof_status(status: &ProofStatus) -> (r: &'static str)
    ensures
        r@ == status_label(*status),
{
    match status {
        ProofStatus::NotImplemented => "not_implemented",
        ProofStatus::Provable => "provable",
        ProofStatus::NotProvable => "not_provable",
        ProofStatus::Timeout => "timeout",
        ProofStatus::Unknown => "unknown",
        ProofStatus::Cancelled => "cancelled",
        ProofStatus::Error => "error",
    }
}

/// The stable label of an unknown-result reason.
pub open spec fn reason_label(reason: UnknownReason) -> Seq<char> {
    match reason {
        UnknownReason::BiconditionalCapExceeded => "biconditional_cap"@,
        UnknownReason::UnsupportedInclude => "unsupported_include"@,
        UnknownReason::MaxDepthExceeded => "max_depth"@,
        UnknownReason::MaxStepsExceeded => "max_steps"@,
        UnknownReason::QuantifierBudgetExceeded => "quantifier_budget"@,
    }
}

/// Returns the stable printable detail label for an unknown proof reason.
pub fn human_unknown_reason(reason: UnknownReason) -> (r: &'static str)
    ensures
        r@ == reason_label(reason),
{
    match reason {
        UnknownReason::BiconditionalCapExceeded => "biconditional_cap",
        UnknownReason::UnsupportedInclude => "unsupported_include",
        UnknownReason::MaxDepthExceeded => "max_depth",
        UnknownReason::MaxStepsExceeded => "max_steps",
        UnknownReason::QuantifierBudgetExceeded => "quantifier_budget",
    }
}

/// The status label, followed by the reason in parentheses when there is one.
pub open spec fn result_label(result: ProofResult) -> Seq<char> {
    match result.unknown_reason {
        Some(reason) => status_label(result.status) + " ("@ + reason_label(reason) + ")"@,
        None => status_label(result.status),
    }
}

/// Formats the proof status with any available detail for human-readable output.
pub fn human_proof_result(result: &ProofResult) -> (r: String)
    ensures
        r@ == result_label(*result),
{
    let mut s = String::new();
    push_str(&mut s, human_proof_status(&result.status));
    if let Some(reason) = result.unknown_reason {
        push_str(&mut s, " (");
        push_str(&mut s, human_unknown_reason(reason));
        push_str(&mut s, ")");
        proof {
            reveal_strlit(" (");
            reveal_strlit(")");
        }
    }
    s
}

/// `yes` or `no`.
pub fn yes_no(value: bool) -> (r: &'static str)
    ensures
        r@ == if value { "yes"@ } else { "no"@ },
{
    if value {
        "yes"
    } else {
        "no"
    }
}

/// `true` or `false`.
pub open spec fn bool_text(value: bool) -> Seq<char> {
    if value {
        "true"@
    } else {
        "false"@
    }
}

fn bool_word(value: bool) -> (r: &'static str)
    ensures
        r@ == bool_text(value),
{
    if value {
        "true"
    } else {
        "false"
    }
}

/// Returns the TSV header row for `prove` output.
pub fn prove_tsv_header() -> (r: &'static str)
    ensures
        r@ == "kind\tindex\ttotal\tproblem_id\tpath\tformulae\tatoms\tstatus\telapsed_ms\tdetail"@,
{
    "kind\tindex\ttotal\tproblem_id\tpath\tformulae\tatoms\tstatus\telapsed_ms\tdetail"
}

/// Returns the TSV header row for `rules` output.
pub fn rules_tsv_header() -> (r: &'static str)
    ensures
        r@ == "kind\tindex\ttotal\tproblem_id\tpath\tformulae\tatoms\tsuccess\thad_rule_match\tdetail"@,
{
    "kind\tindex\ttotal\tproblem_id\tpath\tformulae\tatoms\tsuccess\thad_rule_match\tdetail"
}

/// The name of a proof status as `Debug` prints it.
pub open spec fn status_name(status: ProofStatus) -> Seq<char> {
    match status {
        ProofStatus::NotImplemented => "NotImplemented"@,
        ProofStatus::Provable => "Provable"@,
        ProofStatus::NotProvable => "NotProvable"@,
        ProofStatus::Timeout => "Timeout"@,
        ProofStatus::Unknown => "Unknown"@,
        ProofStatus::Cancelled => "Cancelled"@,
        ProofStatus::Error => "Error"@,
    }
}

fn status_debug_name(status: ProofStatus) -> (r: &'static str)
    ensures
        r@ == status_name(status),
{
    match status {
        ProofStatus::NotImplemented => "NotImplemented",
        ProofStatus::Provable => "Provable",
        ProofStatus::NotProvable => "NotProvable",
        ProofStatus::Timeout => "Timeout",
        ProofStatus::Unknown => "Unknown",
        ProofStatus::Cancelled => "Cancelled",
        ProofStatus::Error => "Error",
    }
}

/// The tab-separated fields common to every problem row: `problem`, the
/// position, the total, the problem id, the path, and the formula and atom
/// counts (zero when unknown).
pub open spec fn row_prefix(current: usize, total: usize, run: ProblemRun) -> Seq<char> {
    let (formulae, atoms) = match run.subset_stats {
        Some(s) => (s.formulae, s.atoms),
        None => (0usize, 0usize),
    };
    "problem\t"@ + dec(current as nat) + "\t"@ + dec(total as nat) + "\t"@ + file_stem(run.path@) + "\t"@ + run.path@
        + "\t"@ + dec(formulae as nat) + "\t"@ + dec(atoms as nat)
}

fn write_row_prefix(out: &mut String, current: usize, total: usize, run: &ProblemRun)
    ensures
        final(out)@ == old(out)@ + row_prefix(current, total, *run),
{
    let ghost start = out@;
    proof {
        reveal_strlit("problem\t");
        reveal_strlit("\t");
    }
    push_str(out, "problem\t");
    push_str(out, usize_to_decimal(current).as_str());
    push_str(out, "\t");
    push_str(out, usize_to_decimal(total).as_str());
    push_str(out, "\t");
    push_str(out, run.problem_id().as_str());
    push_str(out, "\t");
    push_str(out, run.path.as_str());
    let (formulae, atoms) = match run.subset_stats {
        Some(s) => (s.formulae, s.atoms),
        None => (0usize, 0usize),
    };
    push_str(out, "\t");
    push_str(out, usize_to_decimal(formulae).as_str());
    push_str(out, "\t");
    push_str(out, usize_to_decimal(atoms).as_str());
    proof {
        assert(out@ =~= start + row_prefix(current, total, *run));
    }
}

/// How processing one problem failed before a proof result.
#[derive(Debug, Clone, Copy, PartialEq, Eq, Structural)]
pub enum ProcessingFailure {
    ParseFailed,
    IncludeFailed,
    SequentBuildFailed,
}

/// The label of a processing failure.
pub open spec fn failure_label(f: ProcessingFailure) -> Seq<char> {
    match f {
        ProcessingFailure::ParseFailed => "parse_failed"@,
        ProcessingFailure::IncludeFailed => "include_failed"@,
        ProcessingFailure::SequentBuildFailed => "sequent_build_failed"@,
    }
}

/// The label of a processing failure.
pub fn failure_name(f: ProcessingFailure) -> (r: &'static str)
    ensures
        r@ == failure_label(f),
{
    match f {
        ProcessingFailure::ParseFailed => "parse_failed",
        ProcessingFailure::IncludeFailed => "include_failed",
        ProcessingFailure::SequentBuildFailed => "sequent_build_failed",
    }
}

/// What becomes of a problem's parse-failure marker.
#[derive(Debug, Clone, PartialEq, Eq)]
pub enum MarkerAction {
    /// Write a marker with this parser message.
    Write(String),
    /// Remove the marker, if there is one.
    Clear,
    /// Leave the marker as it is.
    Keep,
}

/// How a problem that gave no proof result is reported: the failure, what
/// becomes of its marker, and the message printed for it. A parse failure
/// writes a marker; an include failure clears it, since the problem itself
/// parsed; a missing conjecture leaves it.
pub fn pipeline_failure(err: &ProblemPipelineError) -> (r: (ProcessingFailure, MarkerAction, String))
    ensures
        match *err {
            ProblemPipelineError::Parse(m) => r.0 == ProcessingFailure::ParseFailed && (r.1 matches MarkerAction::Write(w)
                && w@ == m@) && r.2@ == m@,
            ProblemPipelineError::Include(m) => r.0 == ProcessingFailure::IncludeFailed && r.1 == MarkerAction::Clear
                && r.2@ == m@,
            ProblemPipelineError::SequentBuild(_) => r.0 == ProcessingFailure::SequentBuildFailed && r.1
                == MarkerAction::Keep && r.2@ == "sequent construction failed: MissingConjecture"@,
        },
{
    match err {
        ProblemPipelineError::Parse(m) => (ProcessingFailure::ParseFailed, MarkerAction::Write(m.clone()), m.clone()),
        ProblemPipelineError::Include(m) => (ProcessingFailure::IncludeFailed, MarkerAction::Clear, m.clone()),
        ProblemPipelineError::SequentBuild(_) => (
            ProcessingFailure::SequentBuildFailed,
            MarkerAction::Keep,
            "sequent construction failed: MissingConjecture".to_owned(),
        ),
    }
}

/// The `prove` row of a problem with a proof result: the status as `Debug`
/// prints it, the elapsed milliseconds, and the unknown-result reason.
pub open spec fn prove_result_row(current: usize, total: usize, run: ProblemRun, result: ProofResult, elapsed_ms: u128) -> Seq<
    char,
> {
    row_prefix(current, total, run) + "\t"@ + status_name(result.status) + "\t"@ + dec(elapsed_ms as nat) + "\t"@
        + match result.unknown_reason {
        Some(r) => reason_label(r),
        None => Seq::empty(),
    }
}

/// The `prove` row of a problem with a proof result.
pub fn prove_tsv_row(current: usize, total: usize, run: &ProblemRun, result: &ProofResult, elapsed_ms: u128) -> (r:
    String)
    ensures
        r@ == prove_result_row(current, total, *run, *result, elapsed_ms),
{
    let mut out = String::new();
    write_row_prefix(&mut out, current, total, run);
    let ghost start = out@;
    proof {
        reveal_strlit("\t");
    }
    push_str(&mut out, "\t");
    push_str(&mut out, status_debug_name(result.status));
    push_str(&mut out, "\t");
    push_str(&mut out, u128_to_decimal(elapsed_ms).as_str());
    push_str(&mut out, "\t");
    if let Some(reason) = result.unknown_reason {
        push_str(&mut out, human_unknown_reason(reason));
    }
    proof {
        assert(out@ =~= prove_result_row(current, total, *run, *result, elapsed_ms));
    }
    out
}

/// The `prove` row of a problem that could not be processed.
pub open spec fn prove_failure_row(current: usize, total: usize, run: ProblemRun, f: ProcessingFailure) -> Seq<char> {
    row_prefix(current, total, run) + "\t"@ + failure_label(f) + "\t0"@
}

/// The `prove` row of a problem that could not be processed.
pub fn prove_failure_tsv_row(current: usize, total: usize, run: &ProblemRun, f: ProcessingFailure) -> (r: String)
    ensures
        r@ == prove_failure_row(current, total, *run, f),
{
    let mut out = String::new();
    write_row_prefix(&mut out, current, total, run);
    proof {
        reveal_strlit("\t");
        reveal_strlit("\t0");
    }
    push_str(&mut out, "\t");
    push_str(&mut out, failure_name(f));
    push_str(&mut out, "\t0");
    out
}

/// The `rules` row of a problem: whether it was processed, whether a rule
/// applies, and, for a skipped or failed problem, why.
pub open spec fn rules_row(
    current: usize,
    total: usize,
    run: ProblemRun,
    success: bool,
    had_rule_match: bool,
    detail: Option<Seq<char>>,
) -> Seq<char> {
    row_prefix(current, total, run) + "\t"@ + bool_text(success) + "\t"@ + bool_text(had_rule_match) + match detail {
        Some(d) => "\t"@ + d,
        None => Seq::empty(),
    }
}

/// The `rules` row of a problem.
pub fn rules_tsv_row(
    current: usize,
    total: usize,
    run: &ProblemRun,
    success: bool,
    had_rule_match: bool,
    detail: Option<&str>,
) -> (r: String)
    ensures
        r@ == rules_row(
            current,
            total,
            *run,
            success,
            had_rule_match,
            match detail {
                Some(d) => Some(d@),
                None => None,
            },
        ),
{
    let mut out = String::new();
    write_row_prefix(&mut out, current, total, run);
    let ghost start = out@;
    proof {
        reveal_strlit("\t");
    }
    push_str(&mut out, "\t");
    push_str(&mut out, bool_word(success));
    push_str(&mut out, "\t");
    push_str(&mut out, bool_word(had_rule_match));
    if let Some(d) = detail {
        push_str(&mut out, "\t");
        push_str(&mut out, d);
    }
    proof {
        assert(out@ =~= rules_row(
            current,
            total,
            *run,
            success,
            had_rule_match,
            match detail {
                Some(d) => Some(d@),
                None => None,
            },
        ));
    }
    out
}

/// The name of a rule as `Debug` prints it.
pub open spec fn rule_name(rule: Rule) -> Seq<char> {
    match rule {
        Rule::Id => "Id"@,
        Rule::TopR => "TopR"@,
        Rule::BottomL => "BottomL"@,
        Rule::AndL => "AndL"@,
        Rule::AndR => "AndR"@,
        Rule::OrL => "OrL"@,
        Rule::OrR => "OrR"@,
        Rule::ImpliesL => "ImpliesL"@,
        Rule::ImpliesR => "ImpliesR"@,
        Rule::NotL => "NotL"@,
        Rule::NotR => "NotR"@,
        Rule::ForAllL => "ForAllL"@,
        Rule::ForAllR => "ForAllR"@,
        Rule::ExistsL => "ExistsL"@,
        Rule::ExistsR => "ExistsR"@,
    }
}

fn rule_debug_name(rule: Rule) -> (r: &'static str)
    ensures
        r@ == rule_name(rule),
{
    match rule {
        Rule::Id => "Id",
        Rule::TopR => "TopR",
        Rule::BottomL => "BottomL",
        Rule::AndL => "AndL",
        Rule::AndR => "AndR",
        Rule::OrL => "OrL",
        Rule::OrR => "OrR",
        Rule::ImpliesL => "ImpliesL",
        Rule::ImpliesR => "ImpliesR",
        Rule::NotL => "NotL",
        Rule::NotR => "NotR",
        Rule::ForAllL => "ForAllL",
        Rule::ForAllR => "ForAllR",
        Rule::ExistsL => "ExistsL",
        Rule::ExistsR => "ExistsR",
    }
}

/// A matched rule occurrence as the CLI prints it: `Rule on Side[index]`.
pub open spec fn rule_match_text(m: RuleMatch) -> Seq<char> {
    rule_name(m.rule) + " on "@ + match m.side {
        Side::Left => "Left"@,
        Side::Right => "Right"@,
    } + "["@ + dec(m.index as nat) + "]"@
}

/// Formats a matched rule occurrence for CLI output.
pub fn format_rule_match(rule_match: RuleMatch) -> (r: String)
    ensures
        r@ == rule_match_text(rule_match),
{
    let mut out = String::new();
    push_str(&mut out, rule_debug_name(rule_match.rule));
    push_str(&mut out, " on ");
    match rule_match.side {
        Side::Left => push_str(&mut out, "Left"),
        Side::Right => push_str(&mut out, "Right"),
    }
    push_str(&mut out, "[");
    push_str(&mut out, usize_to_decimal(rule_match.index).as_str());
    push_str(&mut out, "]");
    proof {
        reveal_strlit(" on ");
        reveal_strlit("Left");
        reveal_strlit("Right");
        reveal_strlit("[");
        reveal_strlit("]");
        assert(out@ =~= rule_match_text(rule_match));
    }
    out
}

/// Result of running the prover on one file.
#[derive(Debug, Clone, Copy, PartialEq, Eq, Structural)]
pub enum ProveFileResult {
    /// The file was processed and produced a proof status, with the reason of
    /// an unknown result.
    Status(ProofStatus, Option<UnknownReason>),
    /// Parsing or sequent building failed.
    ProcessingFailure,
}

/// The record stored for a problem with a proof result; none for a problem
/// that could not be processed.
pub fn result_record_for_problem(problem_run: &ProblemRun, result: &ProveFileResult, elapsed_ms: u128) -> (r: Option<
    ResultRecord,
>)
    ensures
        match *result {
            ProveFileResult::ProcessingFailure => r is None,
            ProveFileResult::Status(status, reason) => r matches Some(rec) && rec.problem_id@ == file_stem(
                problem_run.path@,
            ) && rec.path@ == problem_run.path@ && rec.status@ == status_label(status) && rec.elapsed_ms
                == elapsed_ms && rec.formulae == match problem_run.subset_stats {
                Some(s) => Some(s.formulae as i64),
                None => None,
            } && rec.atoms == match problem_run.subset_stats {
                Some(s) => Some(s.atoms as i64),
                None => None,
            } && match reason {
                Some(why) => rec.unknown_reason matches Some(t) && t@ == reason_label(why),
                None => rec.unknown_reason is None,
            },
        },
{
    match result {
        ProveFileResult::ProcessingFailure => None,
        ProveFileResult::Status(status, reason) => {
            let (formulae, atoms) = match problem_run.subset_stats {
                Some(s) => (Some(s.formulae as i64), Some(s.atoms as i64)),
                None => (None, None),
            };
            let unknown_reason = match reason {
                Some(why) => Some(human_unknown_reason(*why).to_owned()),
                None => None,
            };
            Some(
                ResultRecord {
                    problem_id: problem_run.problem_id(),
                    path: problem_run.path.clone(),
                    status: human_proof_status(status).to_owned(),
                    elapsed_ms,
                    formulae,
                    atoms,
                    unknown_reason,
                },
            )
        },
    }
}

/// Running counts and metadata for `prove` batch execution.
#[derive(Debug, Clone, Default, PartialEq, Eq)]
pub struct ProveBatchSummary {
    pub processed: usize,
    pub skipped: usize,
    pub provable: usize,
    pub not_provable: usize,
    pub timeout: usize,
    pub unknown: usize,
    pub cancelled: usize,
    pub not_implemented: usize,
    pub error: usize,
    pub failed_to_process: usize,
    pub interrupted_problem: Option<String>,
    pub failed_files: Vec<String>,
}

impl ProveBatchSummary {
    /// Every processed problem is counted under exactly one outcome, and
    /// each failed file is listed.
    pub open spec fn is_balanced(&self) -> bool {
        &&& self.processed == self.provable + self.not_provable + self.timeout + self.unknown + self.cancelled
            + self.not_implemented + self.error + self.failed_to_process
        &&& self.failed_files@.len() == self.failed_to_process
    }

    /// A summary with nothing counted yet.
    pub fn new() -> (r: Self)
        ensures
            r.is_balanced(),
            r.processed == 0 && r.skipped == 0 && r.provable == 0 && r.not_provable == 0 && r.timeout == 0 && r.unknown
                == 0 && r.cancelled == 0 && r.not_implemented == 0 && r.error == 0 && r.failed_to_process == 0,
            r.interrupted_problem is None,
            r.failed_files@.len() == 0,
    {
        ProveBatchSummary {
            processed: 0,
            skipped: 0,
            provable: 0,
            not_provable: 0,
            timeout: 0,
            unknown: 0,
            cancelled: 0,
            not_implemented: 0,
            error: 0,
            failed_to_process: 0,
            interrupted_problem: None,
            failed_files: Vec::new(),
        }
    }

    /// Records the outcome of one processed problem: it counts as processed
    /// and under its status, a cancelled problem is remembered as the one
    /// interrupted, and a failed file is listed.
    pub fn record_result(&mut self, problem_run: &ProblemRun, result: &ProveFileResult)
        requires
            old(self).processed < usize::MAX,
            old(self).provable < usize::MAX,
            old(self).not_provable < usize::MAX,
            old(self).timeout < usize::MAX,
            old(self).unknown < usize::MAX,
            old(self).cancelled < usize::MAX,
            old(self).not_implemented < usize::MAX,
            old(self).error < usize::MAX,
            old(self).failed_to_process < usize::MAX,
        ensures
            old(self).is_balanced() ==> final(self).is_balanced(),
            final(self).processed == old(self).processed + 1,
            final(self).skipped == old(self).skipped,
            final(self).provable == old(self).provable + if status_of(*result) == Some(ProofStatus::Provable) { 1int } else { 0 },
            final(self).not_provable == old(self).not_provable + if status_of(*result) == Some(ProofStatus::NotProvable) { 1int } else { 0 },
            final(self).timeout == old(self).timeout + if status_of(*result) == Some(ProofStatus::Timeout) { 1int } else { 0 },
            final(self).unknown == old(self).unknown + if status_of(*result) == Some(ProofStatus::Unknown) { 1int } else { 0 },
            final(self).cancelled == old(self).cancelled + if status_of(*result) == Some(ProofStatus::Cancelled) { 1int } else { 0 },
            final(self).not_implemented == old(self).not_implemented + if status_of(*result) == Some(ProofStatus::NotImplemented) { 1int } else { 0 },
            final(self).error == old(self).error + if status_of(*result) == Some(ProofStatus::Error) { 1int } else { 0 },
            final(self).failed_to_process == old(self).failed_to_process + if *result == ProveFileResult::ProcessingFailure { 1int } else { 0 },
            status_of(*result) == Some(ProofStatus::Cancelled) ==> (final(self).interrupted_problem matches Some(id) && id@ == file_stem(problem_run.path@)),
            status_of(*result) != Some(ProofStatus::Cancelled) ==> final(self).interrupted_problem == old(self).interrupted_problem,
            *result == ProveFileResult::ProcessingFailure ==> final(self).failed_files@.len() == old(self).failed_files@.len() + 1
                && final(self).failed_files@.last()@ == problem_run.path@
                && final(self).failed_files@.drop_last() == old(self).failed_files@,
            *result != ProveFileResult::ProcessingFailure ==> final(self).failed_files@ == old(self).failed_files@,
    {
        self.processed = self.processed + 1;
        match result {
            ProveFileResult::Status(ProofStatus::Provable, _) => self.provable = self.provable + 1,
            ProveFileResult::Status(ProofStatus::NotProvable, _) => self.not_provable = self.not_provable + 1,
            ProveFileResult::Status(ProofStatus::Timeout, _) => self.timeout = self.timeout + 1,
            ProveFileResult::Status(ProofStatus::Unknown, _) => self.unknown = self.unknown + 1,
            ProveFileResult::Status(ProofStatus::Cancelled, _) => {
                self.cancelled = self.cancelled + 1;
                self.interrupted_problem = Some(problem_run.problem_id());
            },
            ProveFileResult::Status(ProofStatus::NotImplemented, _) => self.not_implemented = self.not_implemented + 1,
            ProveFileResult::Status(ProofStatus::Error, _) => self.error = self.error + 1,
            ProveFileResult::ProcessingFailure => {
                self.failed_to_process = self.failed_to_process + 1;
                self.failed_files.push(problem_run.path.clone());
            },
        }
    }

    /// The TSV summary line of a `prove` batch.
    pub fn tsv_line(&self) -> (r: String)
        ensures
            r@ == "summary\t"@ + dec(self.processed as nat) + "\t"@ + dec(self.skipped as nat) + "\t"@ + dec(
                self.provable as nat,
            ) + "\t"@ + dec(self.not_provable as nat) + "\t"@ + dec(self.timeout as nat) + "\t"@ + dec(
                self.unknown as nat,
            ) + "\t"@ + dec(self.cancelled as nat) + "\t"@ + dec(self.not_implemented as nat) + "\t"@ + dec(
                self.error as nat,
            ) + "\t"@ + dec(self.failed_to_process as nat) + "\t"@ + match &self.interrupted_problem {
                Some(id) => id@,
                None => Seq::empty(),
            },
    {
        let mut out = String::new();
        proof {
            reveal_strlit("summary\t");
            reveal_strlit("\t");
        }
        push_str(&mut out, "summary\t");
        push_str(&mut out, usize_to_decimal(self.processed).as_str());
        push_str(&mut out, "\t");
        push_str(&mut out, usize_to_decimal(self.skipped).as_str());
        push_str(&mut out, "\t");
        push_str(&mut out, usize_to_decimal(self.provable).as_str());
        push_str(&mut out, "\t");
        push_str(&mut out, usize_to_decimal(self.not_provable).as_str());
        push_str(&mut out, "\t");
        push_str(&mut out, usize_to_decimal(self.timeout).as_str());
        push_str(&mut out, "\t");
        push_str(&mut out, usize_to_decimal(self.unknown).as_str());
        push_str(&mut out, "\t");
        push_str(&mut out, usize_to_decimal(self.cancelled).as_str());
        push_str(&mut out, "\t");
        push_str(&mut out, usize_to_decimal(self.not_implemented).as_str());
        push_str(&mut out, "\t");
        push_str(&mut out, usize_to_decimal(self.error).as_str());
        push_str(&mut out, "\t");
        push_str(&mut out, usize_to_decimal(self.failed_to_process).as_str());
        push_str(&mut out, "\t");
        if let Some(id) = &self.interrupted_problem {
            push_str(&mut out, id.as_str());
        }
        out
    }
}

/// The status of a file result, if it has one.
pub open spec fn status_of(result: ProveFileResult) -> Option<ProofStatus> {
    match result {
        ProveFileResult::Status(s, _) => Some(s),
        ProveFileResult::ProcessingFailure => None,
    }
}

/// Outcome of running rule inspection on one file.
#[derive(Debug, Clone, Copy, PartialEq, Eq, Structural)]
pub struct RulesInspectionResult {
    pub success: bool,
    pub had_rule_match: bool,
    pub skipped_by_policy: bool,
}

impl RulesInspectionResult {
    /// The result for a file that the biconditional cap turned away: a
    /// success, skipped by the policy, with no rule match.
    pub fn skipped_by_cap() -> (r: Self)
        ensures
            r.success && !r.had_rule_match && r.skipped_by_policy,
    {
        RulesInspectionResult { success: true, had_rule_match: false, skipped_by_policy: true }
    }

    /// The result for a file whose sequent was built and `match_count`
    /// rule matches found: a success, with a rule match when there is one.
    pub fn inspected(match_count: usize) -> (r: Self)
        ensures
            r.success && r.had_rule_match == (match_count > 0) && !r.skipped_by_policy,
    {
        RulesInspectionResult { success: true, had_rule_match: match_count > 0, skipped_by_policy: false }
    }

    /// The result for a file that could not be processed.
    pub fn failed() -> (r: Self)
        ensures
            !r.success && !r.had_rule_match && !r.skipped_by_policy,
    {
        RulesInspectionResult { success: false, had_rule_match: false, skipped_by_policy: false }
    }
}

/// Running counts and metadata for `rules` batch execution.
#[derive(Debug, Clone, Default, PartialEq, Eq)]
pub struct RulesBatchSummary {
    pub processed: usize,
    pub skipped: usize,
    pub skipped_by_policy: usize,
    pub succeeded: usize,
    pub failed: usize,
    pub rule_matches: usize,
    pub cancelled: bool,
    pub failed_files: Vec<String>,
}

impl RulesBatchSummary {
    /// Every processed file either succeeded or failed, and each failed
    /// file is listed.
    pub open spec fn is_balanced(&self) -> bool {
        &&& self.processed == self.succeeded + self.failed
        &&& self.failed_files@.len() == self.failed
    }

    /// A summary with nothing counted yet.
    pub fn new() -> (r: Self)
        ensures
            r.is_balanced(),
            r.processed == 0 && r.skipped == 0 && r.skipped_by_policy == 0 && r.succeeded == 0 && r.failed == 0
                && r.rule_matches == 0 && !r.cancelled && r.failed_files@.len() == 0,
    {
        RulesBatchSummary {
            processed: 0,
            skipped: 0,
            skipped_by_policy: 0,
            succeeded: 0,
            failed: 0,
            rule_matches: 0,
            cancelled: false,
            failed_files: Vec::new(),
        }
    }

    /// Records the inspection of one processed file.
    pub fn record(&mut self, problem_run: &ProblemRun, inspection: RulesInspectionResult)
        requires
            old(self).processed < usize::MAX,
            old(self).skipped_by_policy < usize::MAX,
            old(self).rule_matches < usize::MAX,
            old(self).succeeded < usize::MAX,
            old(self).failed < usize::MAX,
        ensures
            old(self).is_balanced() ==> final(self).is_balanced(),
            final(self).processed == old(self).processed + 1,
            final(self).skipped == old(self).skipped,
            final(self).cancelled == old(self).cancelled,
            final(self).skipped_by_policy == old(self).skipped_by_policy + if inspection.skipped_by_policy { 1int } else { 0 },
            final(self).rule_matches == old(self).rule_matches + if inspection.had_rule_match { 1int } else { 0 },
            final(self).succeeded == old(self).succeeded + if inspection.success { 1int } else { 0 },
            final(self).failed == old(self).failed + if inspection.success { 0int } else { 1 },
            inspection.success ==> final(self).failed_files@ == old(self).failed_files@,
            !inspection.success ==> final(self).failed_files@.drop_last() == old(self).failed_files@
                && final(self).failed_files@.len() == old(self).failed_files@.len() + 1
                && final(self).failed_files@.last()@ == problem_run.path@,
    {
        self.processed = self.processed + 1;
        if inspection.skipped_by_policy {
            self.skipped_by_policy = self.skipped_by_policy + 1;
        }
        if inspection.had_rule_match {
            self.rule_matches = self.rule_matches + 1;
        }
        if inspection.success {
            self.succeeded = self.succeeded + 1;
        } else {
            self.failed = self.failed + 1;
            self.failed_files.push(problem_run.path.clone());
        }
    }

    /// The TSV summary line of a `rules` batch.
    pub fn tsv_line(&self) -> (r: String)
        ensures
            r@ == "summary\t"@ + dec(self.processed as nat) + "\t"@ + dec(self.skipped as nat) + "\t"@ + dec(
                self.skipped_by_policy as nat,
            ) + "\t"@ + dec(self.succeeded as nat) + "\t"@ + dec(self.failed as nat) + "\t"@ + dec(
                self.rule_matches as nat,
            ) + "\t"@ + bool_text(self.cancelled),
    {
        let mut out = String::new();
        proof {
            reveal_strlit("summary\t");
            reveal_strlit("\t");
        }
        push_str(&mut out, "summary\t");
        push_str(&mut out, usize_to_decimal(self.processed).as_str());
        push_str(&mut out, "\t");
        push_str(&mut out, usize_to_decimal(self.skipped).as_str());
        push_str(&mut out, "\t");
        push_str(&mut out, usize_to_decimal(self.skipped_by_policy).as_str());
        push_str(&mut out, "\t");
        push_str(&mut out, usize_to_decimal(self.succeeded).as_str());
        push_str(&mut out, "\t");
        push_str(&mut out, usize_to_decimal(self.failed).as_str());
        push_str(&mut out, "\t");
        push_str(&mut out, usize_to_decimal(self.rule_matches).as_str());
        push_str(&mut out, "\t");
        push_str(&mut out, bool_word(self.cancelled));
        out
    }
}

/// Returns the exit code for a `prove` batch after it finishes reporting:
/// cancellation wins over failures, and a clean run has none.
pub fn prove_batch_exit_code(cancelled_count: usize, failed_to_process_count: usize, cancel_requested: bool) -> (r:
    Option<i32>)
    ensures
        r == if cancelled_count > 0 || cancel_requested {
            Some(EXIT_CANCELLED)
        } else if failed_to_process_count > 0 {
            Some(EXIT_FAILURE)
        } else {
            None
        },
{
    if cancelled_count > 0 || cancel_requested {
        Some(EXIT_CANCELLED)
    } else if failed_to_process_count > 0 {
        Some(EXIT_FAILURE)
    } else {
        None
    }
}

/// Returns the exit code for a `rules` batch after it finishes reporting.
pub fn rules_batch_exit_code(cancelled: bool, failed_count: usize) -> (r: Option<i32>)
    ensures
        r == if cancelled {
            Some(EXIT_CANCELLED)
        } else if failed_count > 0 {
            Some(EXIT_FAILURE)
        } else {
            None
        },
{
    if cancelled {
        Some(EXIT_CANCELLED)
    } else if failed_count > 0 {
        Some(EXIT_FAILURE)
    } else {
        None
    }
}

/// `name=value` for the `% settings` comment line.
pub open spec fn setting_text(name: Seq<char>, value: Seq<char>) -> Seq<char> {
    name + "="@ + value
}

/// The effective `prove` settings as one space-separated line.
pub open spec fn prove_settings_text(
    tsv: bool,
    retry_parse_failed: bool,
    show_sequent: bool,
    timeout_ms: u128,
    max_depth: usize,
    max_steps: usize,
    max_fresh_terms_per_quantifier: usize,
    max_biconditionals: Option<usize>,
) -> Seq<char> {
    setting_text("format"@, if tsv { "tsv"@ } else { "human"@ }) + " "@ + setting_text(
        "retry_parse_failed"@,
        bool_text(retry_parse_failed),
    ) + " "@ + setting_text("show_sequent"@, bool_text(show_sequent)) + " "@ + setting_text(
        "timeout_ms"@,
        dec(timeout_ms as nat),
    ) + " "@ + setting_text("max_depth"@, dec(max_depth as nat)) + " "@ + setting_text(
        "max_steps"@,
        dec(max_steps as nat),
    ) + " "@ + setting_text("max_fresh_terms_per_quantifier"@, dec(max_fresh_terms_per_quantifier as nat)) + " "@
        + setting_text(
        "max_biconditionals"@,
        match max_biconditionals {
            Some(n) => dec(n as nat),
            None => "none"@,
        },
    )
}

fn push_setting(out: &mut String, name: &str, value: &str)
    ensures
        final(out)@ == old(out)@ + setting_text(name@, value@),
{
    push_str(out, name);
    push_str(out, "=");
    push_str(out, value);
    proof {
        reveal_strlit("=");
        assert(final(out)@ =~= old(out)@ + setting_text(name@, value@));
    }
}

/// Formats the effective `prove` settings after config and CLI overrides.
pub fn prove_settings_comment(
    tsv: bool,
    retry_parse_failed: bool,
    show_sequent: bool,
    timeout_ms: u128,
    max_depth: usize,
    max_steps: usize,
    max_fresh_terms_per_quantifier: usize,
    max_biconditionals: Option<usize>,
) -> (r: String)
    ensures
        r@ == prove_settings_text(
            tsv,
            retry_parse_failed,
            show_sequent,
            timeout_ms,
            max_depth,
            max_steps,
            max_fresh_terms_per_quantifier,
            max_biconditionals,
        ),
{
    proof {
        reveal_strlit(" ");
        reveal_strlit("none");
        reveal_strlit("tsv");
        reveal_strlit("human");
    }
    let mut out = String::new();
    push_setting(&mut out, "format", if tsv { "tsv" } else { "human" });
    push_str(&mut out, " ");
    push_setting(&mut out, "retry_parse_failed", bool_word(retry_parse_failed));
    push_str(&mut out, " ");
    push_setting(&mut out, "show_sequent", bool_word(show_sequent));
    push_str(&mut out, " ");
    push_setting(&mut out, "timeout_ms", u128_to_decimal(timeout_ms).as_str());
    push_str(&mut out, " ");
    push_setting(&mut out, "max_depth", usize_to_decimal(max_depth).as_str());
    push_str(&mut out, " ");
    push_setting(&mut out, "max_steps", usize_to_decimal(max_steps).as_str());
    push_str(&mut out, " ");
    push_setting(
        &mut out,
        "max_fresh_terms_per_quantifier",
        usize_to_decimal(max_fresh_terms_per_quantifier).as_str(),
    );
    push_str(&mut out, " ");
    match max_biconditionals {
        Some(n) => push_setting(&mut out, "max_biconditionals", usize_to_decimal(n).as_str()),
        None => push_setting(&mut out, "max_biconditionals", "none"),
    }
    out
}

/// The effective `rules` settings as one space-separated line.
pub open spec fn rules_settings_text(
    tsv: bool,
    retry_parse_failed: bool,
    show_sequent: bool,
    max_biconditionals: Option<usize>,
) -> Seq<char> {
    setting_text("format"@, if tsv { "tsv"@ } else { "human"@ }) + " "@ + setting_text(
        "retry_parse_failed"@,
        bool_text(retry_parse_failed),
    ) + " "@ + setting_text("show_sequent"@, bool_text(show_sequent)) + " "@ + setting_text(
        "max_biconditionals"@,
        match max_biconditionals {
            Some(n) => dec(n as nat),
            None => "none"@,
        },
    )
}

/// Formats the effective `rules` settings after config and CLI overrides.
pub fn rules_settings_comment(
    tsv: bool,
    retry_parse_failed: bool,
    show_sequent: bool,
    max_biconditionals: Option<usize>,
) -> (r: String)
    ensures
        r@ == rules_settings_text(tsv, retry_parse_failed, show_sequent, max_biconditionals),
{
    proof {
        reveal_strlit(" ");
        reveal_strlit("none");
        reveal_strlit("tsv");
        reveal_strlit("human");
    }
    let mut out = String::new();
    push_setting(&mut out, "format", if tsv { "tsv" } else { "human" });
    push_str(&mut out, " ");
    push_setting(&mut out, "retry_parse_failed", bool_word(retry_parse_failed));
    push_str(&mut out, " ");
    push_setting(&mut out, "show_sequent", bool_word(show_sequent));
    push_str(&mut out, " ");
    match max_biconditionals {
        Some(n) => push_setting(&mut out, "max_biconditionals", usize_to_decimal(n).as_str()),
        None => push_setting(&mut out, "max_biconditionals", "none"),
    }
    out
}

/// What a batch run does with its next problem.
#[derive(Debug, Clone, Copy, PartialEq, Eq, Structural)]
pub enum BatchStep {
    /// Cancellation was requested: no further problem is started.
    Stop,
    /// The file is marked as failing to parse and is not retried.
    Skip,
    /// The problem is run.
    Run,
}

/// The decision before the next problem of a batch: stop once cancellation
/// was requested, skip a file marked as failing to parse, else run it.
pub fn next_batch_step(cancel_requested: bool, skip_marked: bool) -> (r: BatchStep)
    ensures
        r == (if cancel_requested {
            BatchStep::Stop
        } else if skip_marked {
            BatchStep::Skip
        } else {
            BatchStep::Run
        }),
{
    if cancel_requested {
        BatchStep::Stop
    } else if skip_marked {
        BatchStep::Skip
    } else {
        BatchStep::Run
    }
}

/// Whether a `prove` batch stops after a file's result: it does once a
/// proof was cancelled.
pub fn stops_prove_batch(result: &ProveFileResult) -> (r: bool)
    ensures
        r == (*result matches ProveFileResult::Status(ProofStatus::Cancelled, _)),
{
    match result {
        ProveFileResult::Status(ProofStatus::Cancelled, _) => true,
        _ => false,
    }
}

} // verus!
