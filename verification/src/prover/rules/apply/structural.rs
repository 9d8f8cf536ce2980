//! The closing rules.

use vstd::prelude::*;

use crate::prover::rules::apply::{RuleApplication, SApplication};
use crate::prover::rules::kinds::Rule;

verus! {

/// `Id`, `⊤R` and `⊥L` close the branch; any other rule is not handled here.
pub fn apply_structural(rule: Rule) -> (r: RuleApplication)
    ensures
        r@ == if rule == Rule::Id || rule == Rule::TopR || rule == Rule::BottomL {
            SApplication::Closed
        } else {
            SApplication::NotImplemented
        },
{
    match rule {
        Rule::Id | Rule::TopR | Rule::BottomL => RuleApplication::Closed,
        _ => RuleApplication::NotImplemented,
    }
}

} // verus!
