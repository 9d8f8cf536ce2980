//! Instantiation of the outermost bound variable of a quantified formula.

use vstd::prelude::*;

use crate::ast::formula::Formula;
use crate::ast::model::{subst_formula, vars_model, SFormula, SSymbol, STerm};
use crate::ast::term::{Symbol, Term, Var};

verus! {

/// Which quantifier re-wraps the remaining bound variables.
#[derive(Debug, Clone, Copy, PartialEq, Eq, Structural)]
pub enum QuantifierKind {
    ForAll,
    Exists,
}

/// Instantiates the first bound variable of `vars` with `t` in `body`; the
/// remaining variables stay bound by the same quantifier. `None` when no
/// variable is bound.
pub open spec fn instantiate(vars: Seq<Seq<char>>, body: SFormula, t: STerm, kind: QuantifierKind) -> Option<SFormula> {
    if vars.len() == 0 {
        None
    } else {
        let b = subst_formula(body, vars[0], t);
        Some(
            if vars.len() == 1 {
                b
            } else {
                match kind {
                    QuantifierKind::ForAll => SFormula::ForAll(vars.drop_first(), Box::new(b)),
                    QuantifierKind::Exists => SFormula::Exists(vars.drop_first(), Box::new(b)),
                }
            },
        )
    }
}

/// The quantifier at the top of a formula, if it is quantified.
pub open spec fn quantifier_of(f: SFormula) -> Option<QuantifierKind> {
    match f {
        SFormula::ForAll(..) => Some(QuantifierKind::ForAll),
        SFormula::Exists(..) => Some(QuantifierKind::Exists),
        _ => None,
    }
}

/// Instantiating the first bound variable of a quantifier keeps the
/// quantifier over the others: `∃x1..xn.A` gives `∃x2..xn.A[t/x1]` and
/// `∀x1..xn.A` gives `∀x2..xn.A[t/x1]`; over one variable it gives
/// `A[t/x1]`; over none, nothing.
pub proof fn lemma_instantiate_keeps_quantifier(vars: Seq<Seq<char>>, body: SFormula, t: STerm, kind: QuantifierKind)
    ensures
        vars.len() == 0 <==> instantiate(vars, body, t, kind) is None,
        vars.len() == 1 ==> instantiate(vars, body, t, kind) == Some(subst_formula(body, vars[0], t)),
        vars.len() >= 2 ==> (instantiate(vars, body, t, kind) matches Some(f) && quantifier_of(f) == Some(kind)
            && match f {
            SFormula::ForAll(vs, b) => vs == vars.drop_first() && *b == subst_formula(body, vars[0], t),
            SFormula::Exists(vs, b) => vs == vars.drop_first() && *b == subst_formula(body, vars[0], t),
            _ => false,
        }),
{
}

/// The constant term named `name`.
pub open spec fn constant_term(name: Seq<char>) -> STerm {
    STerm::Const(SSymbol::User(name))
}

/// Instantiates the outermost variable of a quantified formula with a term.
pub fn instantiate_quantified_formula_with_term(
    vars: &Vec<Var>,
    body: &Formula,
    replacement: &Term,
    wrap_remaining: QuantifierKind,
) -> (r: Option<Formula>)
    ensures
        match r {
            Some(f) => instantiate(vars_model(vars@), body@, replacement@, wrap_remaining) == Some(f@),
            None => instantiate(vars_model(vars@), body@, replacement@, wrap_remaining) is None,
        },
{
    if vars.len() == 0 {
        return None;
    }
    let instantiated_body = body.substitute_var(vars[0].name.as_str(), replacement);
    if vars.len() == 1 {
        Some(instantiated_body)
    } else {
        let mut remaining: Vec<Var> = Vec::new();
        let mut i: usize = 1;
        while i < vars.len()
            invariant
                1 <= i <= vars.len(),
                remaining.len() == i - 1,
                forall|j: int| 0 <= j < i - 1 ==> (#[trigger] remaining@[j]).name@ == vars@[j + 1].name@,
            decreases vars.len() - i,
        {
            remaining.push(Var { name: vars[i].name.clone() });
            i += 1;
        }
        assert(vars_model(remaining@) =~= vars_model(vars@).drop_first());
        Some(
            match wrap_remaining {
                QuantifierKind::ForAll => Formula::ForAll(remaining, Box::new(instantiated_body)),
                QuantifierKind::Exists => Formula::Exists(remaining, Box::new(instantiated_body)),
            },
        )
    }
}

/// Instantiates the outermost variable of a quantified formula with the
/// constant `replacement_name`.
pub fn instantiate_quantified_formula(
    vars: &Vec<Var>,
    body: &Formula,
    replacement_name: String,
    wrap_remaining: QuantifierKind,
) -> (r: Option<Formula>)
    ensures
        match r {
            Some(f) => instantiate(vars_model(vars@), body@, constant_term(replacement_name@), wrap_remaining) == Some(f@),
            None => instantiate(vars_model(vars@), body@, constant_term(replacement_name@), wrap_remaining) is None,
        },
{
    let replacement = Term::Const(Symbol::User(replacement_name));
    instantiate_quantified_formula_with_term(vars, body, &replacement, wrap_remaining)
}

} // verus!
