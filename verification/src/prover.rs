//! Sequents, the LK′ rules, their derivations, and backward proof search.

pub mod apply;
pub mod calculus;
pub mod defaults;
pub mod quantifier;
pub mod rules;
pub mod search;
pub mod sequent;
