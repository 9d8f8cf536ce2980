//! Naive (single-pass depth-first) backward search strategy.
//!
//! Performs one depth-limited depth-first search from the root sequent.
//! Search stops when the first proof is found, the sequent is shown
//! unprovable within the implemented fragment, or a configured resource
//! limit is reached.

use vstd::prelude::*;

use crate::prover::calculus::{derivable, provable};
use crate::prover::search::branch_state::BranchState;
use crate::prover::search::engine::{
    answered, backwards_search, search_reason, interrupted, node_outcome, Check, ProofOptions, SearchInterrupt, SearchOutcome,
};
use crate::prover::sequent::Sequent;

verus! {

/// Runs a single depth-first backward search from `sequent` with a fresh
/// branch state and a zero step counter.
/// The ghost result is the answers of the interruption checks, in order.
pub fn run<I: SearchInterrupt>(sequent: &Sequent, options: &ProofOptions, interrupt: &I) -> (r: (
    SearchOutcome,
    Ghost<Seq<Check>>,
))
    ensures
        r.0 == SearchOutcome::Provable ==> provable(sequent@),
        search_reason(r.0),
        !interrupt.may_cancel() ==> r.0 != SearchOutcome::Cancelled,
        !interrupt.may_time_out() ==> r.0 != SearchOutcome::Timeout,
        interrupted(r.0) || r.0 == node_outcome(sequent@, Map::empty(), *options, 0, 0).0,
        answered(r.1@, r.0),
{
    let state = BranchState::new();
    let mut steps_taken: usize = 0;
    let r = backwards_search(sequent, &state, options, interrupt, 0, &mut steps_taken);
    proof {
        if r.0 == SearchOutcome::Provable {
            let h = (options.max_depth + 1) as nat;
            assert(derivable(sequent@, h));
        }
    }
    r
}

} // verus!
