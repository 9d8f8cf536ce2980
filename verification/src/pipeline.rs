//! Parse → prove for one problem text, including the biconditional gate and
//! structured error reporting.

use std::sync::atomic::AtomicBool;

use vstd::prelude::*;

pub mod includes;

use crate::parser::{error_message, parse_problem, problem_of, ParsedProblem, SProblem};
use crate::prover::calculus::provable;
use crate::prover::search::engine::{
    default_options, engine_outcome, result_of, prove_with_cancel, Deadline, ProofOptions, ProofResult, ProofStatus, UnknownReason, prove_with_interrupt,
};
use crate::prover::sequent::{Sequent, SequentBuildError};
use crate::text::{chars_of, is_white_space, white_space};

verus! {

/// Where a line scan stands: in the line's leading white space, in a line
/// whose first other character is `%`, or past that.
#[derive(Debug, Clone, Copy, PartialEq, Eq, Structural)]
pub enum LineState {
    Leading,
    Comment,
    Body,
}

/// Whether `<=>` starts at `i`.
pub open spec fn biconditional_at(s: Seq<char>, i: nat) -> bool {
    i + 2 < s.len() && s[i as int] == '<' && s[(i + 1) as int] == '=' && s[(i + 2) as int] == '>'
}

/// The number of `<=>` from position `i` on that lie in lines which do not
/// start with `%` once their leading white space is dropped.
pub open spec fn biconditionals_from(s: Seq<char>, i: nat, st: LineState) -> nat
    decreases s.len() - i,
{
    if i >= s.len() {
        0
    } else if s[i as int] == '\n' {
        biconditionals_from(s, i + 1, LineState::Leading)
    } else if st == LineState::Comment {
        biconditionals_from(s, i + 1, LineState::Comment)
    } else if st == LineState::Leading && is_white_space(s[i as int]) {
        biconditionals_from(s, i + 1, LineState::Leading)
    } else if st == LineState::Leading && s[i as int] == '%' {
        biconditionals_from(s, i + 1, LineState::Comment)
    } else if biconditional_at(s, i) {
        1 + biconditionals_from(s, i + 3, LineState::Body)
    } else {
        biconditionals_from(s, i + 1, LineState::Body)
    }
}

/// The number of non-comment `<=>` tokens of an input.
pub open spec fn biconditional_count(s: Seq<char>) -> nat {
    biconditionals_from(s, 0, LineState::Leading)
}

proof fn lemma_biconditionals_bound(s: Seq<char>, i: nat, st: LineState)
    ensures
        i <= s.len() ==> biconditionals_from(s, i, st) + i <= s.len(),
    decreases s.len() - i,
{
    if i < s.len() {
        if s[i as int] == '\n' {
            lemma_biconditionals_bound(s, i + 1, LineState::Leading);
        } else if st == LineState::Comment {
            lemma_biconditionals_bound(s, i + 1, LineState::Comment);
        } else if st == LineState::Leading && is_white_space(s[i as int]) {
            lemma_biconditionals_bound(s, i + 1, LineState::Leading);
        } else if st == LineState::Leading && s[i as int] == '%' {
            lemma_biconditionals_bound(s, i + 1, LineState::Comment);
        } else if biconditional_at(s, i) {
            lemma_biconditionals_bound(s, i + 3, LineState::Body);
        } else {
            lemma_biconditionals_bound(s, i + 1, LineState::Body);
        }
    }
}

/// Counts the `<=>` tokens outside `%` comment lines.
pub fn count_non_comment_biconditionals(input: &str) -> (r: usize)
    ensures
        r == biconditional_count(input@),
{
    let s = chars_of(input);
    let mut count: usize = 0;
    let mut st = LineState::Leading;
    let mut i: usize = 0;
    proof {
        lemma_biconditionals_bound(s@, 0, LineState::Leading);
    }
    while i < s.len()
        invariant
            i <= s.len(),
            s@ == input@,
            count + biconditionals_from(s@, i as nat, st) == biconditional_count(s@),
            biconditional_count(s@) <= s.len(),
        decreases s.len() - i,
    {
        let c = s[i];
        if c == '\n' {
            st = LineState::Leading;
            i += 1;
        } else if st == LineState::Comment {
            i += 1;
        } else if st == LineState::Leading && white_space(c) {
            i += 1;
        } else if st == LineState::Leading && c == '%' {
            st = LineState::Comment;
            i += 1;
        } else if s.len() - i > 2 && c == '<' && s[i + 1] == '=' && s[i + 2] == '>' {
            proof {
                lemma_biconditionals_bound(s@, (i + 3) as nat, LineState::Body);
            }
            count += 1;
            st = LineState::Body;
            i += 3;
        } else {
            st = LineState::Body;
            i += 1;
        }
    }
    count
}

/// Pre-search input policy shared by the CLI and pipeline helpers.
#[derive(Debug, Clone, Copy, PartialEq, Eq, Structural)]
pub struct BiconditionalPolicy {
    /// Maximum number of non-comment `"<=>"` tokens allowed in one input before
    /// the pipeline returns an inconclusive result without parsing or search;
    /// with `None` no input is turned away.
    pub max_biconditionals: Option<usize>,
}

impl Default for BiconditionalPolicy {
    fn default() -> (r: Self)
        ensures
            r.max_biconditionals is None,
    {
        BiconditionalPolicy { max_biconditionals: None }
    }
}

/// Whether the policy turns away an input.
pub open spec fn exceeds(policy: BiconditionalPolicy, s: Seq<char>) -> bool {
    match policy.max_biconditionals {
        Some(limit) => biconditional_count(s) > limit,
        None => false,
    }
}

impl BiconditionalPolicy {
    /// Returns whether the raw input exceeds the configured biconditional cap.
    pub fn is_exceeded_by(&self, input: &str) -> (r: bool)
        ensures
            r == exceeds(*self, input@),
    {
        match self.max_biconditionals {
            Some(limit) => count_non_comment_biconditionals(input) > limit,
            None => false,
        }
    }
}

/// Options for one end-to-end problem run through the parsing and proving
/// pipeline.
#[derive(Debug, Clone, Copy)]
pub struct RunProblemOptions<'a> {
    /// Whether the caller shows the constructed sequent before proof search.
    pub show_sequent: bool,
    /// Proof-search bounds and timeout settings.
    pub proof: ProofOptions,
    /// Pre-search input policy for large biconditional chains.
    pub biconditional_policy: BiconditionalPolicy,
    /// Optional external cancellation flag observed during proof search.
    pub cancel_requested: Option<&'a AtomicBool>,
}

impl Default for RunProblemOptions<'static> {
    fn default() -> (r: Self)
        ensures
            !r.show_sequent,
            r.proof == default_options(),
            r.biconditional_policy.max_biconditionals is None,
            r.cancel_requested is None,
    {
        RunProblemOptions {
            show_sequent: false,
            proof: ProofOptions::default(),
            biconditional_policy: BiconditionalPolicy::default(),
            cancel_requested: None,
        }
    }
}

/// Why a problem could not be turned into a sequent.
#[derive(Debug, Clone, PartialEq, Eq)]
pub enum ProblemPipelineError {
    Parse(String),
    Include(String),
    SequentBuild(SequentBuildError),
}

/// The message for a problem text with include directives.
pub open spec fn include_unsupported_message() -> Seq<char> {
    "include directives require path-aware loading"@
}

/// What building the sequent of a problem text gives: the parse failure's
/// message, an include error when the text includes other files, a missing
/// conjecture, or the sequent of the premises and the conjecture.
pub open spec fn sequent_of_problem(s: Seq<char>, r: Result<Sequent, ProblemPipelineError>) -> bool {
    match problem_of(s) {
        Err((offset, kind)) => r matches Err(ProblemPipelineError::Parse(m)) && m@ == error_message(
            crate::parser::ParseError { offset: offset as usize, kind },
        ),
        Ok(p) => if p.includes.len() > 0 {
            r matches Err(ProblemPipelineError::Include(m)) && m@ == include_unsupported_message()
        } else {
            match p.conjecture {
                None => r == Err::<Sequent, ProblemPipelineError>(
                    ProblemPipelineError::SequentBuild(SequentBuildError::MissingConjecture),
                ),
                Some(c) => r matches Ok(seq) && seq@.left == Seq::new(
                    p.premises.len(),
                    |i: int| p.premises[i].formula,
                ) && seq@.right == seq![c.formula],
            }
        },
    }
}

/// Builds the initial sequent for one parsed problem input.
pub fn build_problem_sequent(input: &str) -> (r: Result<Sequent, ProblemPipelineError>)
    ensures
        sequent_of_problem(input@, r),
{
    let parsed: ParsedProblem = match parse_problem(input) {
        Ok(p) => p,
        Err(err) => {
            return Err(ProblemPipelineError::Parse(err.to_string()));
        },
    };
    if parsed.includes.len() > 0 {
        let m = "include directives require path-aware loading".to_owned();
        proof {
            reveal_strlit("include directives require path-aware loading");
        }
        return Err(ProblemPipelineError::Include(m));
    }
    let ghost pm = parsed@;
    match Sequent::from_parsed_problem(parsed) {
        Ok(s) => {
            proof {
                assert(s@.left =~= Seq::new(pm.premises.len(), |i: int| pm.premises[i].formula));
            }
            Ok(s)
        },
        Err(e) => Err(ProblemPipelineError::SequentBuild(e)),
    }
}

/// The result of a problem turned away by the biconditional gate.
pub open spec fn gated_result() -> ProofResult {
    ProofResult { status: ProofStatus::Unknown, unknown_reason: Some(UnknownReason::BiconditionalCapExceeded) }
}

/// Proves a built sequent with the pipeline's proof options, observing the
/// cancellation flag when there is one.
pub fn run_sequent(sequent: &Sequent, options: RunProblemOptions<'_>) -> (r: ProofResult)
    ensures
        r.status == ProofStatus::Provable ==> provable(sequent@),
        (r.status == ProofStatus::Unknown) == (r.unknown_reason is Some),
        r.status != ProofStatus::Timeout && r.status != ProofStatus::Cancelled ==> r == result_of(
            engine_outcome(sequent@, options.proof),
        ),
        options.cancel_requested is None ==> r.status != ProofStatus::Cancelled,
{
    match options.cancel_requested {
        Some(flag) => prove_with_cancel(sequent, options.proof, flag),
        None => {
            let (r, _) = prove_with_interrupt(sequent, options.proof, &Deadline::start(options.proof.timeout));
            r
        },
    }
}

/// Runs a problem with explicit pipeline options: an input over the
/// biconditional cap is answered `Unknown` without parsing or search; an
/// input that does not give a sequent is an error; otherwise the sequent is
/// proved, and a `Provable` answer means it has an LK′ derivation.
pub fn run_problem_with_options(input: &str, options: RunProblemOptions<'_>) -> (r: Result<
    ProofResult,
    ProblemPipelineError,
>)
    ensures
        exceeds(options.biconditional_policy, input@) ==> r == Ok::<ProofResult, ProblemPipelineError>(gated_result()),
        !exceeds(options.biconditional_policy, input@) ==> match r {
            Err(e) => sequent_of_problem(input@, Err(e)),
            Ok(res) => exists|seq: Sequent|
                sequent_of_problem(input@, Ok(seq)) && (res.status == ProofStatus::Provable ==> provable(seq@))
                    && ((res.status == ProofStatus::Unknown) == (res.unknown_reason is Some)) && (res.status
                    != ProofStatus::Timeout && res.status != ProofStatus::Cancelled ==> res == result_of(
                    engine_outcome(seq@, options.proof),
                )) && (options.cancel_requested is None ==> res.status != ProofStatus::Cancelled),
        },
{
    if options.biconditional_policy.is_exceeded_by(input) {
        return Ok(
            ProofResult { status: ProofStatus::Unknown, unknown_reason: Some(UnknownReason::BiconditionalCapExceeded) },
        );
    }
    match build_problem_sequent(input) {
        Ok(sequent) => {
            let res = run_sequent(&sequent, options);
            proof {
                assert(sequent_of_problem(input@, Ok(sequent)));
            }
            Ok(res)
        },
        Err(e) => Err(e),
    }
}

/// Runs a problem with default pipeline and proof-search options.
pub fn run_problem(input: &str) -> (r: Result<ProofResult, ProblemPipelineError>)
    ensures
        match r {
            Err(e) => sequent_of_problem(input@, Err(e)),
            Ok(res) => exists|seq: Sequent|
                sequent_of_problem(input@, Ok(seq)) && (res.status == ProofStatus::Provable ==> provable(seq@))
                    && ((res.status == ProofStatus::Unknown) == (res.unknown_reason is Some)) && (res.status
                    != ProofStatus::Timeout ==> res == result_of(engine_outcome(seq@, default_options()))),
        },
{
    let options = RunProblemOptions::default();
    let r = run_problem_with_options(input, options);
    proof {
        assert(!exceeds(options.biconditional_policy, input@));
        if let Ok(res) = r {
            let seq = choose|seq: Sequent|
                sequent_of_problem(input@, Ok(seq)) && (res.status == ProofStatus::Provable ==> provable(seq@))
                    && ((res.status == ProofStatus::Unknown) == (res.unknown_reason is Some)) && (res.status
                    != ProofStatus::Timeout && res.status != ProofStatus::Cancelled ==> res == result_of(
                    engine_outcome(seq@, options.proof),
                )) && (options.cancel_requested is None ==> res.status != ProofStatus::Cancelled);
            assert(sequent_of_problem(input@, Ok(seq)));
        }
    }
    r
}

} // verus!
