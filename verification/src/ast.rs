//! Abstract syntax of first-order formulas and terms, with their
//! mathematical models.

pub mod formula;
pub mod model;
pub mod render;
pub mod subst;
pub mod term;

pub use formula::{Atom, Formula};
pub use model::{SFormula, SNumber, SSequent, SSymbol, STerm};
pub use term::{NumberLit, Symbol, Term, Var};
