//! Iterative-deepening backward search strategy.
//!
//! Runs repeated depth-first searches with depth limits 1, 2, 3, … up to the
//! maximum depth. Each iteration that exhausts the current depth limit
//! increases the limit by one and restarts from the root with a fresh branch
//! state. All other outcomes end the loop at once. The step budget is a
//! total-work budget across all iterations.

use vstd::prelude::*;

use crate::prover::calculus::{derivable, provable};
use crate::prover::search::branch_state::BranchState;
use crate::prover::search::engine::{
    answered, backwards_search, calm, search_reason, deepening_outcome, interrupted, lemma_answered_after,
    lemma_calm_concat, Check, ProofOptions, SearchInterrupt, SearchOutcome, UnknownReason,
};
use crate::prover::sequent::Sequent;

verus! {

/// Runs iterative-deepening backward search from `sequent`. The ghost
/// result is the answers of the interruption checks, in order.
pub fn run<I: SearchInterrupt>(sequent: &Sequent, options: &ProofOptions, interrupt: &I) -> (r: (
    SearchOutcome,
    Ghost<Seq<Check>>,
))
    ensures
        r.0 == SearchOutcome::Provable ==> provable(sequent@),
        search_reason(r.0),
        !interrupt.may_cancel() ==> r.0 != SearchOutcome::Cancelled,
        !interrupt.may_time_out() ==> r.0 != SearchOutcome::Timeout,
        interrupted(r.0) || r.0 == deepening_outcome(sequent@, *options, 1, 0),
        answered(r.1@, r.0),
{
    let mut steps_taken: usize = 0;
    let ghost mut log = Seq::<Check>::empty();
    if options.max_depth == 0 {
        return (SearchOutcome::Unknown(UnknownReason::MaxDepthExceeded), Ghost(log));
    }
    let mut depth_limit: usize = 1;
    loop
        invariant
            1 <= depth_limit <= options.max_depth,
            deepening_outcome(sequent@, *options, 1, 0) == deepening_outcome(
                sequent@,
                *options,
                depth_limit as nat,
                steps_taken as nat,
            ),
            calm(log),
        decreases options.max_depth - depth_limit,
    {
        if interrupt.cancel_requested() {
            let ghost out = log.push(Check::Cancel(true));
            proof {
                assert(out.drop_last() =~= log);
            }
            return (SearchOutcome::Cancelled, Ghost(out));
        }
        proof {
            lemma_calm_concat(log, seq![Check::Cancel(false)]);
            log = log + seq![Check::Cancel(false)];
        }
        if interrupt.deadline_passed() {
            let ghost out = log.push(Check::Deadline(true));
            proof {
                assert(out.drop_last() =~= log);
            }
            return (SearchOutcome::Timeout, Ghost(out));
        }
        proof {
            lemma_calm_concat(log, seq![Check::Deadline(false)]);
            log = log + seq![Check::Deadline(false)];
        }
        let mut opts = *options;
        opts.max_depth = depth_limit;
        let state = BranchState::new();
        let ghost steps_before = steps_taken as nat;
        let (outcome, Ghost(sub)) = backwards_search(sequent, &state, &opts, interrupt, 0, &mut steps_taken);
        proof {
            if outcome == SearchOutcome::Provable {
                assert(derivable(sequent@, (depth_limit + 1) as nat));
            }
            assert(opts == ProofOptions { max_depth: depth_limit, ..*options });
            lemma_answered_after(log, sub, outcome);
        }
        proof {
            if !interrupted(outcome) {
                assert(deepening_outcome(sequent@, *options, depth_limit as nat, steps_before) == if outcome
                    == SearchOutcome::Unknown(UnknownReason::MaxDepthExceeded) {
                    deepening_outcome(sequent@, *options, (depth_limit + 1) as nat, steps_taken as nat)
                } else {
                    outcome
                });
                assert(deepening_outcome(sequent@, *options, (options.max_depth + 1) as nat, steps_taken as nat)
                    == SearchOutcome::Unknown(UnknownReason::MaxDepthExceeded));
            }
        }
        if outcome != SearchOutcome::Unknown(UnknownReason::MaxDepthExceeded) {
            return (outcome, Ghost(log + sub));
        }
        proof {
            log = log + sub;
        }
        if depth_limit == options.max_depth {
            return (SearchOutcome::Unknown(UnknownReason::MaxDepthExceeded), Ghost(log));
        }
        depth_limit = depth_limit + 1;
    }
}

} // verus!
