//! Rule names, sides, and matched rule occurrences.

use vstd::prelude::*;

verus! {

/// The rules of LK′.
#[derive(Debug, Clone, Copy, PartialEq, Eq, Structural)]
pub enum Rule {
    Id,
    TopR,
    BottomL,
    AndL,
    AndR,
    OrL,
    OrR,
    ImpliesL,
    ImpliesR,
    NotL,
    NotR,
    ForAllL,
    ForAllR,
    ExistsL,
    ExistsR,
}

/// A side of a sequent.
#[derive(Debug, Clone, Copy, PartialEq, Eq, Structural)]
pub enum Side {
    Left,
    Right,
}

/// A rule together with the position of the formula it applies to.
#[derive(Debug, Clone, Copy, PartialEq, Eq, Structural)]
pub struct RuleMatch {
    pub rule: Rule,
    pub side: Side,
    pub index: usize,
}

} // verus!
