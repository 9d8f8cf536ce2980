//! Quantifier support: symbol collection, visible terms, fresh names and
//! instantiation.

pub mod fresh;
pub mod instantiate;
pub mod terms;

