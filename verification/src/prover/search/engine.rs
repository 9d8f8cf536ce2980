//! Depth-first backward proof search with timeout, cancellation and bounded
//! search handling, shared by all engines.
//!
//! The search itself is deterministic; only the two interruption checks (a
//! cancellation request and a passed deadline) depend on the outside world.
//! They are asked through [`SearchInterrupt`], so that the outcome of a search
//! that is never interrupted is stated exactly by [`node_outcome`] and
//! [`engine_outcome`], and any `Provable` outcome is an LK′ derivation.

pub mod iterative_deepening;
pub mod naive;

use std::sync::atomic::AtomicBool;
use std::time::{Duration, Instant};

use vstd::prelude::*;

use crate::ast::model::SSequent;
use crate::prover::calculus::{derivable, lemma_apply_rule_sound, lemma_closing_derivable, lemma_step_derivable, provable, step_premises};
use crate::prover::defaults::{
    default_prove_timeout, duration_from_secs, DEFAULT_MAX_DEPTH, DEFAULT_MAX_FRESH_TERMS_PER_QUANTIFIER,
    DEFAULT_MAX_STEPS, DEFAULT_PROVE_TIMEOUT_SECS,
};
use crate::prover::rules::apply::{
    apply_exists_r_with_term, apply_forall_l_with_term, apply_rule, exists_r_premises, forall_l_premises,
    premises_or_error, sequents_model, spec_apply_rule, RuleApplication, SApplication,
};
use crate::prover::rules::kinds::Rule;
use crate::prover::search::branch_state::{record_quantifier_term, recorded, usage_of, BranchState, SUsage};
use crate::prover::search::scheduler::{
    fits, lemma_schedule_fits, schedule, schedule_next_rules, schedule_next_rules_lk_priority, scheduled_model,
    SSchedule, SScheduled, ScheduleResult, ScheduledRule,
};
use crate::prover::sequent::Sequent;

verus! {

/// Explains why a proof attempt ended with [`ProofStatus::Unknown`].
#[derive(Debug, Clone, Copy, PartialEq, Eq, Structural)]
pub enum UnknownReason {
    /// Input processing was skipped because the configured biconditional cap was exceeded.
    BiconditionalCapExceeded,
    /// Input contains a TPTP include directive, which is not loaded yet.
    UnsupportedInclude,
    /// Search reached the configured recursive branch depth limit.
    MaxDepthExceeded,
    /// Search reached the configured proof-step limit.
    MaxStepsExceeded,
    /// Search exhausted the fresh fallback terms available for one quantified occurrence.
    QuantifierBudgetExceeded,
}

/// The proof-search strategy.
#[derive(Debug, Clone, Copy, PartialEq, Eq, Structural)]
pub enum SearchEngine {
    /// One depth-first search with the baseline schedule.
    Naive,
    /// Depth-first searches with depth limits 1, 2, … up to the maximum depth.
    IterativeDeepening,
    /// One depth-first search with the six-class LK′ priority schedule.
    Priority,
    /// Iterative deepening with the six-class LK′ priority schedule.
    PriorityId,
}

impl Default for SearchEngine {
    fn default() -> (r: Self)
        ensures
            r == SearchEngine::Naive,
    {
        SearchEngine::Naive
    }
}

/// Runtime options controlling proof search.
#[derive(Debug, Clone, Copy, PartialEq, Eq)]
pub struct ProofOptions {
    /// Maximum wall-clock time allowed for a single proof attempt.
    pub timeout: Duration,
    /// Maximum recursive branch depth before search returns `Unknown`.
    pub max_depth: usize,
    /// Maximum search steps before search returns `Unknown`.
    pub max_steps: usize,
    /// Maximum fresh fallback terms for one reusable quantified occurrence.
    pub max_fresh_terms_per_quantifier: usize,
    /// The search strategy.
    pub engine: SearchEngine,
}

/// The options used when a caller gives none: the default bounds and the
/// naive engine.
pub open spec fn default_options() -> ProofOptions {
    ProofOptions {
        timeout: duration_from_secs(DEFAULT_PROVE_TIMEOUT_SECS),
        max_depth: DEFAULT_MAX_DEPTH,
        max_steps: DEFAULT_MAX_STEPS,
        max_fresh_terms_per_quantifier: DEFAULT_MAX_FRESH_TERMS_PER_QUANTIFIER,
        engine: SearchEngine::Naive,
    }
}

impl Default for ProofOptions {
    fn default() -> (r: Self)
        ensures
            r == default_options(),
    {
        ProofOptions {
            timeout: default_prove_timeout(),
            max_depth: DEFAULT_MAX_DEPTH,
            max_steps: DEFAULT_MAX_STEPS,
            max_fresh_terms_per_quantifier: DEFAULT_MAX_FRESH_TERMS_PER_QUANTIFIER,
            engine: SearchEngine::Naive,
        }
    }
}

/// Final status of a proof attempt.
#[derive(Debug, Clone, Copy, PartialEq, Eq, Structural)]
pub enum ProofStatus {
    /// Search reached a recognised but unimplemented rule.
    NotImplemented,
    /// The sequent was proved.
    Provable,
    /// Search exhausted all scheduled choices without proving the sequent.
    NotProvable,
    /// Search exceeded the configured timeout.
    Timeout,
    /// Search hit a configured depth or step bound before reaching a proof result.
    Unknown,
    /// Search was interrupted by a cancellation request.
    Cancelled,
    /// Search encountered an unexpected rule-application failure.
    Error,
}

/// Result returned by the public prover API.
#[derive(Debug, Clone, Copy, PartialEq, Eq, Structural)]
pub struct ProofResult {
    pub status: ProofStatus,
    /// More specific detail for [`ProofStatus::Unknown`].
    pub unknown_reason: Option<UnknownReason>,
}

/// Search outcome used while combining branch results.
#[derive(Debug, Clone, Copy, PartialEq, Eq, Structural)]
pub enum SearchOutcome {
    Provable,
    NotProvable,
    Timeout,
    Unknown(UnknownReason),
    Cancelled,
    NotImplemented,
    Error,
}

/// The precedence used when combining competing outcomes.
pub open spec fn priority(o: SearchOutcome) -> u8 {
    match o {
        SearchOutcome::Provable => 5,
        SearchOutcome::Timeout => 4,
        SearchOutcome::Cancelled => 3,
        SearchOutcome::Unknown(_) => 2,
        SearchOutcome::NotImplemented => 1,
        SearchOutcome::Error => 1,
        SearchOutcome::NotProvable => 0,
    }
}

/// The more informative of two outcomes; the first wins a tie.
pub open spec fn merged(a: SearchOutcome, b: SearchOutcome) -> SearchOutcome {
    if priority(a) >= priority(b) {
        a
    } else {
        b
    }
}

/// The public result of an outcome.
pub open spec fn result_of(o: SearchOutcome) -> ProofResult {
    match o {
        SearchOutcome::Provable => ProofResult { status: ProofStatus::Provable, unknown_reason: None },
        SearchOutcome::NotProvable => ProofResult { status: ProofStatus::NotProvable, unknown_reason: None },
        SearchOutcome::Timeout => ProofResult { status: ProofStatus::Timeout, unknown_reason: None },
        SearchOutcome::Unknown(reason) => ProofResult { status: ProofStatus::Unknown, unknown_reason: Some(reason) },
        SearchOutcome::Cancelled => ProofResult { status: ProofStatus::Cancelled, unknown_reason: None },
        SearchOutcome::NotImplemented => ProofResult { status: ProofStatus::NotImplemented, unknown_reason: None },
        SearchOutcome::Error => ProofResult { status: ProofStatus::Error, unknown_reason: None },
    }
}

impl SearchOutcome {
    /// The precedence used when combining competing outcomes.
    pub fn priority(self) -> (r: u8)
        ensures
            r == priority(self),
    {
        match self {
            SearchOutcome::Provable => 5,
            SearchOutcome::Timeout => 4,
            SearchOutcome::Cancelled => 3,
            SearchOutcome::Unknown(_) => 2,
            SearchOutcome::NotImplemented => 1,
            SearchOutcome::Error => 1,
            SearchOutcome::NotProvable => 0,
        }
    }

    /// Keeps the more informative of two non-successful search outcomes.
    pub fn merge(self, other: Self) -> (r: Self)
        ensures
            r == merged(self, other),
    {
        if self.priority() >= other.priority() {
            self
        } else {
            other
        }
    }

    /// Converts a search outcome into the public proof result.
    pub fn into_result(self) -> (r: ProofResult)
        ensures
            r == result_of(self),
    {
        match self {
            SearchOutcome::Provable => ProofResult { status: ProofStatus::Provable, unknown_reason: None },
            SearchOutcome::Timeout => ProofResult { status: ProofStatus::Timeout, unknown_reason: None },
            SearchOutcome::Unknown(reason) => ProofResult { status: ProofStatus::Unknown, unknown_reason: Some(reason) },
            SearchOutcome::Cancelled => ProofResult { status: ProofStatus::Cancelled, unknown_reason: None },
            SearchOutcome::NotImplemented => ProofResult { status: ProofStatus::NotImplemented, unknown_reason: None },
            SearchOutcome::Error => ProofResult { status: ProofStatus::Error, unknown_reason: None },
            SearchOutcome::NotProvable => ProofResult { status: ProofStatus::NotProvable, unknown_reason: None },
        }
    }
}

/// The two checks through which the outside world can stop a search.
pub trait SearchInterrupt {
    /// Whether this source may report a cancellation request.
    spec fn may_cancel(&self) -> bool;

    /// Whether this source may report a passed deadline.
    spec fn may_time_out(&self) -> bool;

    /// Whether cancellation has been requested.
    fn cancel_requested(&self) -> (r: bool)
        ensures
            !self.may_cancel() ==> !r,
    ;

    /// Whether the deadline has passed.
    fn deadline_passed(&self) -> (r: bool)
        ensures
            !self.may_time_out() ==> !r,
    ;
}

/// A source that never stops a search.
pub open spec fn never_interrupts<I: SearchInterrupt>(interrupt: &I) -> bool {
    !interrupt.may_cancel() && !interrupt.may_time_out()
}

/// A search that is never interrupted: no deadline, no cancellation.
pub struct Uninterrupted;

impl SearchInterrupt for Uninterrupted {
    open spec fn may_cancel(&self) -> bool {
        false
    }

    open spec fn may_time_out(&self) -> bool {
        false
    }

    fn cancel_requested(&self) -> (r: bool) {
        false
    }

    fn deadline_passed(&self) -> (r: bool) {
        false
    }
}

/// `std::time::Instant`, a point in monotonic time.
#[verifier::external_type_specification]
#[verifier::external_body]
pub struct ExInstant(Instant);

/// Calls `Instant::now`; nothing is stated of the time it reads.
#[verifier::external_body]
fn instant_now() -> Instant {
    Instant::now()
}

/// Calls `Instant::checked_add`, which gives `None` when the sum cannot be
/// represented; nothing is stated of the sum.
#[verifier::external_body]
fn instant_checked_add(start: Instant, timeout: Duration) -> Option<Instant> {
    start.checked_add(timeout)
}

/// Compares two instants with `>=`; nothing is stated of the answer.
#[verifier::external_body]
fn instant_at_or_after(a: &Instant, b: &Instant) -> bool {
    *a >= *b
}

/// Reads the cancellation flag.
fn flag_set(flag: &AtomicBool) -> bool {
    flag.load(std::sync::atomic::Ordering::Relaxed)
}

/// The interruptions of a search by a wall-clock deadline.
pub struct Deadline {
    /// The deadline; `None` when it lies beyond what `Instant` can represent.
    pub at: Option<Instant>,
}

impl Deadline {
    /// Starts the clock for a search that may run for `timeout`.
    pub fn start(timeout: Duration) -> (r: Self) {
        Deadline { at: instant_checked_add(instant_now(), timeout) }
    }

    /// Whether the deadline has passed; a deadline beyond what `Instant`
    /// can represent never passes.
    pub fn passed(&self) -> (r: bool)
        ensures
            self.at is None ==> !r,
    {
        match &self.at {
            Some(deadline) => instant_at_or_after(&instant_now(), deadline),
            None => false,
        }
    }
}

impl SearchInterrupt for Deadline {
    open spec fn may_cancel(&self) -> bool {
        false
    }

    open spec fn may_time_out(&self) -> bool {
        true
    }

    fn cancel_requested(&self) -> (r: bool) {
        false
    }

    fn deadline_passed(&self) -> (r: bool)
        ensures
            self.at is None ==> !r,
    {
        self.passed()
    }
}

/// The interruptions of a search by a wall-clock deadline and an external
/// cancellation flag.
pub struct Watch<'a> {
    pub deadline: Deadline,
    pub cancel: &'a AtomicBool,
}

impl<'a> SearchInterrupt for Watch<'a> {
    open spec fn may_cancel(&self) -> bool {
        true
    }

    open spec fn may_time_out(&self) -> bool {
        true
    }

    fn cancel_requested(&self) -> (r: bool) {
        flag_set(self.cancel)
    }

    fn deadline_passed(&self) -> (r: bool)
        ensures
            self.deadline.at is None ==> !r,
    {
        self.deadline.passed()
    }
}

/// Whether an engine uses the six-class LK′ priority schedule.
pub open spec fn uses_lk_priority(engine: SearchEngine) -> bool {
    engine == SearchEngine::Priority || engine == SearchEngine::PriorityId
}

/// What applying a scheduled rule gives, and the branch state that its
/// premises are searched with.
pub open spec fn applied(s: SSequent, st: Map<Seq<char>, SUsage>, r: SScheduled) -> (SApplication, Map<Seq<char>, SUsage>) {
    match r {
        SScheduled::Standard(m) => (spec_apply_rule(s, m), st),
        SScheduled::ForAllL(m, t, key, fresh) => (
            premises_or_error(forall_l_premises(s, m.index as int, t)),
            st.insert(key, recorded(usage_of(st, key), t, fresh)),
        ),
        SScheduled::ExistsR(m, t, key, fresh) => (
            premises_or_error(exists_r_premises(s, m.index as int, t)),
            st.insert(key, recorded(usage_of(st, key), t, fresh)),
        ),
    }
}

/// Whether an `Unknown` outcome names a limit of the search itself: the
/// depth, the step budget or the fresh-term budget.
pub open spec fn search_reason(o: SearchOutcome) -> bool {
    o matches SearchOutcome::Unknown(r) ==> r == UnknownReason::MaxDepthExceeded || r == UnknownReason::MaxStepsExceeded
        || r == UnknownReason::QuantifierBudgetExceeded
}

/// The step counter only grows, and never past the budget unless it was
/// past it already.
pub open spec fn steps_bounded(old_steps: usize, new_steps: usize, max_steps: usize) -> bool {
    old_steps <= new_steps && (new_steps <= max_steps || new_steps == old_steps)
}

/// Whether an outcome comes from an interruption check.
pub open spec fn interrupted(o: SearchOutcome) -> bool {
    o == SearchOutcome::Timeout || o == SearchOutcome::Cancelled
}

/// One answer of an interruption check.
#[derive(Debug, Clone, Copy, PartialEq, Eq, Structural)]
pub enum Check {
    /// What `cancel_requested` answered.
    Cancel(bool),
    /// What `deadline_passed` answered.
    Deadline(bool),
}

/// Whether an answer asks the search to stop.
pub open spec fn stops(c: Check) -> bool {
    c == Check::Cancel(true) || c == Check::Deadline(true)
}

/// Whether none of the answers asks the search to stop.
pub open spec fn calm(log: Seq<Check>) -> bool {
    forall|i: int| 0 <= i < log.len() ==> !stops(#[trigger] log[i])
}

/// The answers of the interruption checks that a search asked, in order,
/// and its outcome agree: `Cancelled` comes from a last answer of
/// `cancel_requested` that was true, `Timeout` from a last answer of
/// `deadline_passed` that was true, and no answer before asked to stop; any
/// other outcome comes from a search in which no answer asked to stop.
pub open spec fn answered(log: Seq<Check>, r: SearchOutcome) -> bool {
    if r == SearchOutcome::Cancelled {
        log.len() > 0 && log.last() == Check::Cancel(true) && calm(log.drop_last())
    } else if r == SearchOutcome::Timeout {
        log.len() > 0 && log.last() == Check::Deadline(true) && calm(log.drop_last())
    } else {
        calm(log)
    }
}

/// Answers that did not stop the search followed by the answers of what came
/// after agree with the outcome of what came after.
pub proof fn lemma_answered_after(first: Seq<Check>, log: Seq<Check>, r: SearchOutcome)
    requires
        calm(first),
        answered(log, r),
    ensures
        answered(first + log, r),
{
    let all = first + log;
    if interrupted(r) {
        assert(all.last() == log.last());
        assert(all.drop_last() =~= first + log.drop_last());
        assert forall|i: int| 0 <= i < all.drop_last().len() implies !stops(#[trigger] all.drop_last()[i]) by {
            if i < first.len() {
                assert(all.drop_last()[i] == first[i]);
            } else {
                assert(all.drop_last()[i] == log.drop_last()[i - first.len()]);
            }
        }
    } else {
        assert forall|i: int| 0 <= i < all.len() implies !stops(#[trigger] all[i]) by {
            if i < first.len() {
                assert(all[i] == first[i]);
            } else {
                assert(all[i] == log[i - first.len()]);
            }
        }
    }
}

/// A calm log stays calm after a calm continuation.
pub proof fn lemma_calm_concat(a: Seq<Check>, b: Seq<Check>)
    requires
        calm(a),
        calm(b),
    ensures
        calm(a + b),
{
    assert forall|i: int| 0 <= i < (a + b).len() implies !stops(#[trigger] (a + b)[i]) by {
        if i < a.len() {
            assert((a + b)[i] == a[i]);
        } else {
            assert((a + b)[i] == b[i - a.len()]);
        }
    }
}

/// Whether an outcome ends the search of the current sequent at once.
pub open spec fn decisive(o: SearchOutcome) -> bool {
    o == SearchOutcome::Provable || o == SearchOutcome::Timeout || o == SearchOutcome::Cancelled
}

/// The outcome of an uninterrupted search of `s` at `depth` with `steps`
/// steps already taken, and the steps taken after it: each node costs a step
/// while the step budget lasts; the schedule's rules are tried in order.
pub open spec fn node_outcome(
    s: SSequent,
    st: Map<Seq<char>, SUsage>,
    opts: ProofOptions,
    depth: nat,
    steps: nat,
) -> (SearchOutcome, nat)
    decreases opts.max_depth - depth, 4int, 0int,
{
    if depth > opts.max_depth {
        (SearchOutcome::Unknown(UnknownReason::MaxDepthExceeded), steps)
    } else if steps >= opts.max_steps {
        (SearchOutcome::Unknown(UnknownReason::MaxStepsExceeded), steps)
    } else {
        match schedule(s, st, opts.max_fresh_terms_per_quantifier as nat, uses_lk_priority(opts.engine)) {
            SSchedule::Rules(rs) => rules_outcome(s, st, opts, depth, steps + 1, rs, 0, SearchOutcome::NotProvable),
            SSchedule::QuantifierExhausted => (SearchOutcome::Unknown(UnknownReason::QuantifierBudgetExceeded), steps + 1),
            SSchedule::NoRules => (SearchOutcome::NotProvable, steps + 1),
        }
    }
}

/// The outcome of trying one scheduled rule, and the steps taken after it:
/// a closed branch is proved, and premises are searched one level down with
/// the branch state that records the rule's instantiation.
pub open spec fn rule_outcome(
    s: SSequent,
    st: Map<Seq<char>, SUsage>,
    opts: ProofOptions,
    depth: nat,
    steps: nat,
    r: SScheduled,
) -> (SearchOutcome, nat)
    decreases opts.max_depth - depth, 2int, 0int,
{
    let (app, st2) = applied(s, st, r);
    match app {
        SApplication::Closed => (SearchOutcome::Provable, steps),
        SApplication::NotImplemented => (SearchOutcome::NotImplemented, steps),
        SApplication::Error => (SearchOutcome::Error, steps),
        SApplication::Premises(ps) => premises_outcome(ps, st2, opts, depth, steps, 0),
    }
}

/// The outcome of trying the scheduled rules from the `i`-th on, with `best`
/// the merged outcome of the rules tried so far: a decisive outcome is
/// returned at once, any other is merged.
pub open spec fn rules_outcome(
    s: SSequent,
    st: Map<Seq<char>, SUsage>,
    opts: ProofOptions,
    depth: nat,
    steps: nat,
    rs: Seq<SScheduled>,
    i: nat,
    best: SearchOutcome,
) -> (SearchOutcome, nat)
    decreases opts.max_depth - depth, 3int, rs.len() - i,
{
    if i >= rs.len() {
        (best, steps)
    } else {
        let (o, steps2) = rule_outcome(s, st, opts, depth, steps, rs[i as int]);
        if decisive(o) {
            (o, steps2)
        } else {
            rules_outcome(s, st, opts, depth, steps2, rs, i + 1, merged(best, o))
        }
    }
}

/// The outcome of searching the premises from the `k`-th on, one level below
/// `depth`: the first outcome that is not `Provable` is returned; below the
/// depth limit every premise gives `MaxDepthExceeded`.
pub open spec fn premises_outcome(
    ps: Seq<SSequent>,
    st: Map<Seq<char>, SUsage>,
    opts: ProofOptions,
    depth: nat,
    steps: nat,
    k: nat,
) -> (SearchOutcome, nat)
    decreases opts.max_depth - depth, 1int, ps.len() - k,
{
    if k >= ps.len() {
        (SearchOutcome::Provable, steps)
    } else {
        let (o, steps2) = if depth < opts.max_depth {
            node_outcome(ps[k as int], st, opts, depth + 1, steps)
        } else {
            (SearchOutcome::Unknown(UnknownReason::MaxDepthExceeded), steps)
        };
        if o != SearchOutcome::Provable {
            (o, steps2)
        } else {
            premises_outcome(ps, st, opts, depth, steps2, k + 1)
        }
    }
}

/// The outcome of an uninterrupted iterative-deepening search from depth
/// limit `limit` on: a search that hits the depth limit is repeated with the
/// next limit and a fresh branch state; the step count carries over.
pub open spec fn deepening_outcome(s: SSequent, opts: ProofOptions, limit: nat, steps: nat) -> SearchOutcome
    decreases opts.max_depth + 1 - limit,
{
    if limit == 0 || limit > opts.max_depth {
        SearchOutcome::Unknown(UnknownReason::MaxDepthExceeded)
    } else {
        let (o, steps2) = node_outcome(s, Map::empty(), ProofOptions { max_depth: limit as usize, ..opts }, 0, steps);
        if o == SearchOutcome::Unknown(UnknownReason::MaxDepthExceeded) {
            deepening_outcome(s, opts, limit + 1, steps2)
        } else {
            o
        }
    }
}

/// The outcome of an uninterrupted search with the engine of `opts`.
pub open spec fn engine_outcome(s: SSequent, opts: ProofOptions) -> SearchOutcome {
    match opts.engine {
        SearchEngine::Naive | SearchEngine::Priority => node_outcome(s, Map::empty(), opts, 0, 0).0,
        SearchEngine::IterativeDeepening | SearchEngine::PriorityId => deepening_outcome(s, opts, 1, 0),
    }
}

/// Applies a scheduled rule, recording a quantifier instantiation in the
/// branch state that the premises are searched with.
fn apply_scheduled(sequent: &Sequent, state: &BranchState, scheduled: &ScheduledRule, budget: usize) -> (r: (
    RuleApplication,
    BranchState,
))
    requires
        state.wf(),
        fits(sequent@, state@, budget as nat, scheduled@),
    ensures
        r.1.wf(),
        (r.0@, r.1@) == applied(sequent@, state@, scheduled@),
{
    let mut next_state = state.duplicate();
    match scheduled {
        ScheduledRule::Standard(rule_match) => (apply_rule(sequent, rule_match), next_state),
        ScheduledRule::ForAllL { rule_match, term, key, fresh_fallback } => {
            record_quantifier_term(&mut next_state, key.as_str(), term, *fresh_fallback);
            (apply_forall_l_with_term(sequent, rule_match.index, term), next_state)
        },
        ScheduledRule::ExistsR { rule_match, term, key, fresh_fallback } => {
            record_quantifier_term(&mut next_state, key.as_str(), term, *fresh_fallback);
            (apply_exists_r_with_term(sequent, rule_match.index, term), next_state)
        },
    }
}

/// A fitting scheduled rule is an LK′ inference, or closes the branch by an
/// axiom.
proof fn lemma_applied_sound(s: SSequent, st: Map<Seq<char>, SUsage>, budget: nat, r: SScheduled)
    requires
        fits(s, st, budget, r),
    ensures
        applied(s, st, r).0 is Closed ==> derivable(s, 1) && forall|h: nat| h > 0 ==> #[trigger] derivable(s, h),
        applied(s, st, r).0 is Premises ==> exists|m| #[trigger] step_premises(s, m, applied(s, st, r).0->Premises_0)
            && crate::prover::rules::matcher::match_holds(s, m),
{
    match r {
        SScheduled::Standard(m) => {
            lemma_apply_rule_sound(s, m);
            if applied(s, st, r).0 is Closed {
                assert forall|h: nat| h > 0 implies #[trigger] derivable(s, h) by {
                    lemma_closing_derivable(s, m, h);
                }
                lemma_closing_derivable(s, m, 1);
            }
            if applied(s, st, r).0 is Premises {
                assert(step_premises(s, m, applied(s, st, r).0->Premises_0));
            }
        },
        SScheduled::ForAllL(m, t, key, fresh) => {
            if let SApplication::Premises(ps) = applied(s, st, r).0 {
                assert(forall_l_premises(s, m.index as int, t) == Some(ps));
                assert(step_premises(s, m, ps));
            }
        },
        SScheduled::ExistsR(m, t, key, fresh) => {
            if let SApplication::Premises(ps) = applied(s, st, r).0 {
                assert(exists_r_premises(s, m.index as int, t) == Some(ps));
                assert(step_premises(s, m, ps));
            }
        },
    }
}

/// The outcome of a premise one level below the depth limit: the
/// interruption checks, then `MaxDepthExceeded`.
fn depth_limit_outcome<I: SearchInterrupt>(interrupt: &I) -> (r: (SearchOutcome, Ghost<Seq<Check>>))
    ensures
        r.0 != SearchOutcome::Provable,
        search_reason(r.0),
        !interrupt.may_cancel() ==> r.0 != SearchOutcome::Cancelled,
        !interrupt.may_time_out() ==> r.0 != SearchOutcome::Timeout,
        interrupted(r.0) || r.0 == SearchOutcome::Unknown(UnknownReason::MaxDepthExceeded),
        answered(r.1@, r.0),
{
    if interrupt.cancel_requested() {
        let ghost log = seq![Check::Cancel(true)];
        proof {
            assert(log.drop_last() =~= Seq::<Check>::empty());
        }
        return (SearchOutcome::Cancelled, Ghost(log));
    }
    if interrupt.deadline_passed() {
        let ghost log = seq![Check::Cancel(false), Check::Deadline(true)];
        proof {
            assert(log.drop_last() =~= seq![Check::Cancel(false)]);
        }
        return (SearchOutcome::Timeout, Ghost(log));
    }
    let ghost log = seq![Check::Cancel(false), Check::Deadline(false)];
    (SearchOutcome::Unknown(UnknownReason::MaxDepthExceeded), Ghost(log))
}

/// Applies one scheduled rule and searches its premises one level down.
fn try_scheduled<I: SearchInterrupt>(
    sequent: &Sequent,
    state: &BranchState,
    scheduled: &ScheduledRule,
    options: &ProofOptions,
    interrupt: &I,
    depth: usize,
    steps_taken: &mut usize,
) -> (r: (SearchOutcome, Ghost<Seq<Check>>))
    requires
        state.wf(),
        depth <= options.max_depth,
        fits(sequent@, state@, options.max_fresh_terms_per_quantifier as nat, scheduled@),
    ensures
        steps_bounded(*old(steps_taken), *final(steps_taken), options.max_steps),
        search_reason(r.0),
        r.0 == SearchOutcome::Provable ==> derivable(sequent@, (options.max_depth - depth + 1) as nat),
        !interrupt.may_cancel() ==> r.0 != SearchOutcome::Cancelled,
        !interrupt.may_time_out() ==> r.0 != SearchOutcome::Timeout,
        interrupted(r.0) || (r.0, *final(steps_taken) as nat) == rule_outcome(
            sequent@,
            state@,
            *options,
            depth as nat,
            *old(steps_taken) as nat,
            scheduled@,
        ),
        answered(r.1@, r.0),
    decreases options.max_depth - depth, 3int,
{
    let ghost s = sequent@;
    let ghost h = (options.max_depth - depth + 1) as nat;
    let ghost none = Seq::<Check>::empty();
    let (application, next_state) = apply_scheduled(
        sequent,
        state,
        scheduled,
        options.max_fresh_terms_per_quantifier,
    );
    proof {
        lemma_applied_sound(s, state@, options.max_fresh_terms_per_quantifier as nat, scheduled@);
    }
    match application {
        RuleApplication::Closed => (SearchOutcome::Provable, Ghost(none)),
        RuleApplication::NotImplemented => (SearchOutcome::NotImplemented, Ghost(none)),
        RuleApplication::Premises(premises) => {
            let (o, log) = prove_premises(&premises, &next_state, options, interrupt, depth, steps_taken);
            proof {
                if o == SearchOutcome::Provable {
                    let ps = sequents_model(premises@);
                    let m = choose|m| #[trigger] step_premises(s, m, ps) && crate::prover::rules::matcher::match_holds(s, m);
                    assert forall|k: int| 0 <= k < ps.len() implies derivable(#[trigger] ps[k], (h - 1) as nat) by {
                        assert(ps[k] == premises@[k]@);
                    }
                    lemma_step_derivable(s, m, ps, (h - 1) as nat);
                }
            }
            (o, log)
        },
        RuleApplication::Error => (SearchOutcome::Error, Ghost(none)),
    }
}

/// Performs backward search from a single sequent until it closes or fails.
/// The ghost result is the answers of the interruption checks it asked, in
/// order: first whether cancellation was requested and, when it was not,
/// whether the deadline has passed.
pub fn backwards_search<I: SearchInterrupt>(
    sequent: &Sequent,
    state: &BranchState,
    options: &ProofOptions,
    interrupt: &I,
    depth: usize,
    steps_taken: &mut usize,
) -> (r: (SearchOutcome, Ghost<Seq<Check>>))
    requires
        state.wf(),
    ensures
        steps_bounded(*old(steps_taken), *final(steps_taken), options.max_steps),
        search_reason(r.0),
        r.0 == SearchOutcome::Provable ==> derivable(sequent@, (options.max_depth - depth + 1) as nat),
        !interrupt.may_cancel() ==> r.0 != SearchOutcome::Cancelled,
        !interrupt.may_time_out() ==> r.0 != SearchOutcome::Timeout,
        interrupted(r.0) || (r.0, *final(steps_taken) as nat) == node_outcome(
            sequent@,
            state@,
            *options,
            depth as nat,
            *old(steps_taken) as nat,
        ),
        answered(r.1@, r.0),
        r.1@.len() >= 1 && (r.1@[0] == Check::Cancel(true) || r.1@[0] == Check::Cancel(false)),
        r.1@[0] == Check::Cancel(false) ==> r.1@.len() >= 2 && (r.1@[1] == Check::Deadline(true) || r.1@[1]
            == Check::Deadline(false)),
        r.1@[0] == Check::Cancel(true) || (r.1@.len() >= 2 && r.1@[1] == Check::Deadline(true)) ==> *final(steps_taken)
            == *old(steps_taken),
        !interrupted(r.0) && depth <= options.max_depth && *old(steps_taken) < options.max_steps ==> *final(steps_taken)
            > *old(steps_taken),
    decreases options.max_depth - depth, 4int,
{
    if interrupt.cancel_requested() {
        let ghost log = seq![Check::Cancel(true)];
        proof {
            assert(log.drop_last() =~= Seq::<Check>::empty());
        }
        return (SearchOutcome::Cancelled, Ghost(log));
    }
    if interrupt.deadline_passed() {
        let ghost log = seq![Check::Cancel(false), Check::Deadline(true)];
        proof {
            assert(log.drop_last() =~= seq![Check::Cancel(false)]);
        }
        return (SearchOutcome::Timeout, Ghost(log));
    }
    let ghost start = seq![Check::Cancel(false), Check::Deadline(false)];
    if depth > options.max_depth {
        return (SearchOutcome::Unknown(UnknownReason::MaxDepthExceeded), Ghost(start));
    }
    if *steps_taken >= options.max_steps {
        return (SearchOutcome::Unknown(UnknownReason::MaxStepsExceeded), Ghost(start));
    }
    *steps_taken = *steps_taken + 1;
    let ghost s = sequent@;
    let ghost st = state@;
    let ghost h = (options.max_depth - depth + 1) as nat;
    let budget = options.max_fresh_terms_per_quantifier;
    let lk = options.engine == SearchEngine::Priority || options.engine == SearchEngine::PriorityId;
    let scheduled = if lk {
        schedule_next_rules_lk_priority(sequent, state, budget)
    } else {
        schedule_next_rules(sequent, state, budget)
    };
    proof {
        assert(s.left.len() == sequent.left.len() && s.right.len() == sequent.right.len());
        lemma_schedule_fits(s, st, budget as nat, lk);
    }
    let rules = match scheduled {
        ScheduleResult::Rules(rules) => rules,
        ScheduleResult::QuantifierExhausted => {
            return (SearchOutcome::Unknown(UnknownReason::QuantifierBudgetExceeded), Ghost(start));
        },
        ScheduleResult::NoRules => {
            return (SearchOutcome::NotProvable, Ghost(start));
        },
    };
    let ghost rs = scheduled_model(rules@);
    proof {
        assert(rs == schedule(s, st, budget as nat, lk)->Rules_0);
        assert forall|k: int| 0 <= k < rs.len() implies fits(s, st, budget as nat, #[trigger] rs[k]) by {
            assert(rs[k] == schedule(s, st, budget as nat, lk)->Rules_0[k]);
        }
    }
    let ghost mut log = start;
    let ghost entry_steps = *old(steps_taken);
    let mut best = SearchOutcome::NotProvable;
    let mut i: usize = 0;
    while i < rules.len()
        invariant
            i <= rules.len(),
            rs == scheduled_model(rules@),
            s == sequent@,
            st == state@,
            state.wf(),
            depth <= options.max_depth,
            h == options.max_depth - depth + 1,
            budget == options.max_fresh_terms_per_quantifier,
            lk == uses_lk_priority(options.engine),
            forall|k: int| 0 <= k < rs.len() ==> fits(s, st, budget as nat, #[trigger] rs[k]),
            best != SearchOutcome::Provable,
            !interrupted(best),
            search_reason(best),
            steps_bounded(*old(steps_taken), *steps_taken, options.max_steps),
            entry_steps == *old(steps_taken),
            *steps_taken > entry_steps,
            !interrupt.may_cancel() ==> best != SearchOutcome::Cancelled,
            !interrupt.may_time_out() ==> best != SearchOutcome::Timeout,
            node_outcome(s, st, *options, depth as nat, *old(steps_taken) as nat)
                == rules_outcome(s, st, *options, depth as nat, *steps_taken as nat, rs, i as nat, best),
            calm(log),
            log.len() >= 2,
            log[0] == Check::Cancel(false),
            log[1] == Check::Deadline(false),
        decreases rules.len() - i,
    {
        if interrupt.cancel_requested() {
            let ghost out = log.push(Check::Cancel(true));
            proof {
                assert(out.drop_last() =~= log);
            }
            return (SearchOutcome::Cancelled, Ghost(out));
        }
        proof {
            lemma_calm_concat(log, seq![Check::Cancel(false)]);
            log = log + seq![Check::Cancel(false)];
        }
        let ghost steps_before = *steps_taken as nat;
        assert(rs[i as int] == rules@[i as int]@);
        assert(fits(s, st, budget as nat, rs[i as int]));
        let (outcome, Ghost(sub)) = try_scheduled(sequent, state, &rules[i], options, interrupt, depth, steps_taken);
        proof {
            if !interrupted(outcome) {
                assert(rule_outcome(s, st, *options, depth as nat, steps_before, rs[i as int]) == (
                    outcome,
                    *steps_taken as nat,
                ));
                assert(rules_outcome(s, st, *options, depth as nat, steps_before, rs, i as nat, best) == if decisive(
                    outcome,
                ) {
                    (outcome, *steps_taken as nat)
                } else {
                    rules_outcome(s, st, *options, depth as nat, *steps_taken as nat, rs, (i + 1) as nat, merged(best, outcome))
                });
            }
            lemma_answered_after(log, sub, outcome);
            assert((log + sub)[0] == log[0] && (log + sub)[1] == log[1]);
        }
        if outcome == SearchOutcome::Provable || outcome == SearchOutcome::Timeout || outcome == SearchOutcome::Cancelled {
            return (outcome, Ghost(log + sub));
        }
        proof {
            log = log + sub;
        }
        best = best.merge(outcome);
        i += 1;
    }
    proof {
        {
            assert(rules_outcome(s, st, *options, depth as nat, *steps_taken as nat, rs, i as nat, best) == (
                best,
                *steps_taken as nat,
            ));
        }
    }
    (best, Ghost(log))
}

/// Proves all premises generated by a rule application on the current
/// branch, one level below `depth`.
fn prove_premises<I: SearchInterrupt>(
    premises: &Vec<Sequent>,
    state: &BranchState,
    options: &ProofOptions,
    interrupt: &I,
    depth: usize,
    steps_taken: &mut usize,
) -> (r: (SearchOutcome, Ghost<Seq<Check>>))
    requires
        state.wf(),
        depth <= options.max_depth,
    ensures
        steps_bounded(*old(steps_taken), *final(steps_taken), options.max_steps),
        search_reason(r.0),
        r.0 == SearchOutcome::Provable ==> forall|k: int|
            0 <= k < premises.len() ==> derivable(#[trigger] premises@[k]@, (options.max_depth - depth) as nat),
        !interrupt.may_cancel() ==> r.0 != SearchOutcome::Cancelled,
        !interrupt.may_time_out() ==> r.0 != SearchOutcome::Timeout,
        interrupted(r.0) || (r.0, *final(steps_taken) as nat) == premises_outcome(
            sequents_model(premises@),
            state@,
            *options,
            depth as nat,
            *old(steps_taken) as nat,
            0,
        ),
        answered(r.1@, r.0),
    decreases options.max_depth - depth, 2int,
{
    let ghost ps = sequents_model(premises@);
    let ghost start_steps = *steps_taken as nat;
    let ghost mut log = Seq::<Check>::empty();
    let mut k: usize = 0;
    while k < premises.len()
        invariant
            k <= premises.len(),
            ps == sequents_model(premises@),
            state.wf(),
            depth <= options.max_depth,
            forall|j: int| 0 <= j < k ==> derivable(#[trigger] premises@[j]@, (options.max_depth - depth) as nat),
            steps_bounded(*old(steps_taken), *steps_taken, options.max_steps),
            premises_outcome(ps, state@, *options, depth as nat, *old(steps_taken) as nat, 0)
                == premises_outcome(ps, state@, *options, depth as nat, *steps_taken as nat, k as nat),
            calm(log),
        decreases premises.len() - k,
    {
        if interrupt.cancel_requested() {
            let ghost out = log.push(Check::Cancel(true));
            proof {
                assert(out.drop_last() =~= log);
            }
            return (SearchOutcome::Cancelled, Ghost(out));
        }
        proof {
            lemma_calm_concat(log, seq![Check::Cancel(false)]);
            log = log + seq![Check::Cancel(false)];
        }
        assert(ps[k as int] == premises@[k as int]@);
        let ghost steps_k = *steps_taken as nat;
        let (outcome, Ghost(sub)) = if depth < options.max_depth {
            backwards_search(&premises[k], state, options, interrupt, depth + 1, steps_taken)
        } else {
            depth_limit_outcome(interrupt)
        };
        proof {
            if !interrupted(outcome) {
                let (o, steps2) = if depth < options.max_depth {
                    node_outcome(ps[k as int], state@, *options, (depth + 1) as nat, steps_k)
                } else {
                    (SearchOutcome::Unknown(UnknownReason::MaxDepthExceeded), steps_k)
                };
                assert(o == outcome && steps2 == *steps_taken as nat);
                assert(premises_outcome(ps, state@, *options, depth as nat, steps_k, k as nat) == if o
                    != SearchOutcome::Provable {
                    (o, steps2)
                } else {
                    premises_outcome(ps, state@, *options, depth as nat, steps2, (k + 1) as nat)
                });
            }
            lemma_answered_after(log, sub, outcome);
        }
        if outcome != SearchOutcome::Provable {
            return (outcome, Ghost(log + sub));
        }
        proof {
            log = log + sub;
        }
        k += 1;
    }
    (SearchOutcome::Provable, Ghost(log))
}

/// The answers of the interruption checks and a proof result agree: a
/// cancelled result comes from a last `cancel_requested` answer that was
/// true, a timed-out one from a last `deadline_passed` answer that was true,
/// with no answer before asking to stop; no answer asked to stop for any
/// other result.
pub open spec fn answered_result(log: Seq<Check>, res: ProofResult) -> bool {
    if res.status == ProofStatus::Cancelled {
        log.len() > 0 && log.last() == Check::Cancel(true) && calm(log.drop_last())
    } else if res.status == ProofStatus::Timeout {
        log.len() > 0 && log.last() == Check::Deadline(true) && calm(log.drop_last())
    } else {
        calm(log)
    }
}

/// Attempts to prove a sequent, asking `interrupt` whether to stop.
///
/// A `Provable` result means that the sequent has an LK′ derivation.
/// `Cancelled` and `Timeout` come only from the interruption checks, and a
/// search that is never interrupted ends with the result of
/// [`engine_outcome`]. The ghost result is the answers of the interruption
/// checks, in the order they were asked.
pub fn prove_with_interrupt<I: SearchInterrupt>(sequent: &Sequent, options: ProofOptions, interrupt: &I) -> (r: (
    ProofResult,
    Ghost<Seq<Check>>,
))
    ensures
        r.0.status == ProofStatus::Provable ==> provable(sequent@),
        (r.0.status == ProofStatus::Unknown) == (r.0.unknown_reason is Some),
        !interrupt.may_cancel() ==> r.0.status != ProofStatus::Cancelled,
        !interrupt.may_time_out() ==> r.0.status != ProofStatus::Timeout,
        never_interrupts(interrupt) ==> r.0 == result_of(engine_outcome(sequent@, options)),
        r.0.unknown_reason matches Some(reason) ==> reason == UnknownReason::MaxDepthExceeded || reason
            == UnknownReason::MaxStepsExceeded || reason == UnknownReason::QuantifierBudgetExceeded,
        r.0.status != ProofStatus::Timeout && r.0.status != ProofStatus::Cancelled ==> r.0 == result_of(
            engine_outcome(sequent@, options),
        ),
        answered_result(r.1@, r.0),
        calm(r.1@) ==> r.0 == result_of(engine_outcome(sequent@, options)),
{
    let (outcome, log) = match options.engine {
        SearchEngine::Naive | SearchEngine::Priority => naive::run(sequent, &options, interrupt),
        SearchEngine::IterativeDeepening | SearchEngine::PriorityId => iterative_deepening::run(
            sequent,
            &options,
            interrupt,
        ),
    };
    let r = outcome.into_result();
    proof {
        if calm(log@) && interrupted(outcome) {
            assert(log@.drop_last().len() < log@.len());
            assert(stops(log@[log@.len() - 1]));
        }
    }
    (r, log)
}

/// Attempts to prove a sequent while observing an external cancellation flag.
///
/// A `Provable` result means that the sequent has an LK′ derivation.
pub fn prove_with_cancel(sequent: &Sequent, options: ProofOptions, cancel_requested: &AtomicBool) -> (r:
    ProofResult)
    ensures
        r.status == ProofStatus::Provable ==> provable(sequent@),
        (r.status == ProofStatus::Unknown) == (r.unknown_reason is Some),
        r.unknown_reason matches Some(reason) ==> reason == UnknownReason::MaxDepthExceeded || reason
            == UnknownReason::MaxStepsExceeded || reason == UnknownReason::QuantifierBudgetExceeded,
        r.status != ProofStatus::Timeout && r.status != ProofStatus::Cancelled ==> r == result_of(
            engine_outcome(sequent@, options),
        ),
{
    let watch = Watch { deadline: Deadline::start(options.timeout), cancel: cancel_requested };
    let (r, _) = prove_with_interrupt(sequent, options, &watch);
    r
}

/// Attempts to prove a sequent within the configured timeout and search bounds.
///
/// A `Provable` result means that the sequent has an LK′ derivation; the
/// search is never cancelled, and unless it times out its result is the one
/// [`engine_outcome`] specifies.
pub fn prove(sequent: &Sequent, options: ProofOptions) -> (r: ProofResult)
    ensures
        r.status == ProofStatus::Provable ==> provable(sequent@),
        (r.status == ProofStatus::Unknown) == (r.unknown_reason is Some),
        r.status != ProofStatus::Cancelled,
        r.status != ProofStatus::Timeout ==> r == result_of(engine_outcome(sequent@, options)),
        r.unknown_reason matches Some(reason) ==> reason == UnknownReason::MaxDepthExceeded || reason
            == UnknownReason::MaxStepsExceeded || reason == UnknownReason::QuantifierBudgetExceeded,
{
    let (r, _) = prove_with_interrupt(sequent, options, &Deadline::start(options.timeout));
    r
}

} // verus!
