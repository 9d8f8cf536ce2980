//! Application of quantifier rules.

use vstd::prelude::*;

use crate::ast::formula::{formulas_clone, Formula};
use crate::ast::model::{formula_model, formulas_model, group_model, SSequent, STerm};
use crate::ast::term::{Symbol, Term};
use crate::prover::quantifier::fresh::{fresh_branch_term_name, fresh_eigen_name, fresh_eigenconstant_name};
use crate::prover::quantifier::instantiate::{
    constant_term, instantiate, instantiate_quantified_formula, instantiate_quantified_formula_with_term,
    QuantifierKind,
};
use crate::prover::quantifier::terms::visible_terms_in_sequent;
use crate::prover::rules::apply::{
    default_instance, insert_after, insert_after_copy, premises_or_error, replace_at, sequents_model, splice,
    RuleApplication,
};
use crate::prover::sequent::Sequent;

verus! {

broadcast use group_model;

/// `∀L` with witness `t`: `Γ, ∀x̄.A, Γ' ⊢ Δ` reduces to `Γ, ∀x̄.A, A[t/x1], Γ' ⊢ Δ`;
/// the quantified formula stays so that it can be used again.
pub open spec fn forall_l_premises(s: SSequent, i: int, t: STerm) -> Option<Seq<SSequent>> {
    if 0 <= i < s.left.len() && s.left[i] is ForAll {
        match instantiate(s.left[i]->ForAll_0, *s.left[i]->ForAll_1, t, QuantifierKind::ForAll) {
            Some(inst) => Some(seq![SSequent { left: insert_after(s.left, i, inst), right: s.right }]),
            None => None,
        }
    } else {
        None
    }
}

/// `∃R` with witness `t`: `Γ ⊢ Δ, ∃x̄.A, Δ'` reduces to `Γ ⊢ Δ, ∃x̄.A, A[t/x1], Δ'`.
pub open spec fn exists_r_premises(s: SSequent, i: int, t: STerm) -> Option<Seq<SSequent>> {
    if 0 <= i < s.right.len() && s.right[i] is Exists {
        match instantiate(s.right[i]->Exists_0, *s.right[i]->Exists_1, t, QuantifierKind::Exists) {
            Some(inst) => Some(seq![SSequent { left: s.left, right: insert_after(s.right, i, inst) }]),
            None => None,
        }
    } else {
        None
    }
}

/// `∀R` with eigenconstant `c`: `Γ ⊢ Δ, ∀x̄.A, Δ'` reduces to `Γ ⊢ Δ, A[c/x1], Δ'`.
pub open spec fn forall_r_premises(s: SSequent, i: int, c: Seq<char>) -> Option<Seq<SSequent>> {
    if 0 <= i < s.right.len() && s.right[i] is ForAll {
        match instantiate(s.right[i]->ForAll_0, *s.right[i]->ForAll_1, constant_term(c), QuantifierKind::ForAll) {
            Some(inst) => Some(seq![SSequent { left: s.left, right: replace_at(s.right, i, seq![inst]) }]),
            None => None,
        }
    } else {
        None
    }
}

/// `∃L` with eigenconstant `c`: `Γ, ∃x̄.A, Γ' ⊢ Δ` reduces to `Γ, A[c/x1], Γ' ⊢ Δ`.
pub open spec fn exists_l_premises(s: SSequent, i: int, c: Seq<char>) -> Option<Seq<SSequent>> {
    if 0 <= i < s.left.len() && s.left[i] is Exists {
        match instantiate(s.left[i]->Exists_0, *s.left[i]->Exists_1, constant_term(c), QuantifierKind::Exists) {
            Some(inst) => Some(seq![SSequent { left: replace_at(s.left, i, seq![inst]), right: s.right }]),
            None => None,
        }
    } else {
        None
    }
}

/// The term that `∀L` and `∃R` instantiate with when no term is given: the
/// first visible term, else a fresh constant.
fn default_witness(sequent: &Sequent) -> (r: Term)
    ensures
        r@ == default_instance(sequent@),
{
    let mut visible = visible_terms_in_sequent(sequent);
    if visible.len() > 0 {
        visible.swap_remove(0)
    } else {
        Term::Const(Symbol::User(fresh_branch_term_name(sequent)))
    }
}

/// Applies `∀L` with the default witness.
pub fn apply_forall_l(sequent: &Sequent, index: usize) -> (r: RuleApplication)
    ensures
        r@ == premises_or_error(forall_l_premises(sequent@, index as int, default_instance(sequent@))),
{
    let term = default_witness(sequent);
    apply_forall_l_with_term(sequent, index, &term)
}

/// Applies `∃R` with the default witness.
pub fn apply_exists_r(sequent: &Sequent, index: usize) -> (r: RuleApplication)
    ensures
        r@ == premises_or_error(exists_r_premises(sequent@, index as int, default_instance(sequent@))),
{
    let term = default_witness(sequent);
    apply_exists_r_with_term(sequent, index, &term)
}

/// Applies `∀L` at `index` with the witness `term`.
pub fn apply_forall_l_with_term(sequent: &Sequent, index: usize, term: &Term) -> (r: RuleApplication)
    ensures
        r@ == premises_or_error(forall_l_premises(sequent@, index as int, term@)),
{
    if index >= sequent.left.len() {
        return RuleApplication::Error;
    }
    proof {
        assert(sequent@.left[index as int] == formula_model(sequent.left@[index as int]));
    }
    let Formula::ForAll(vars, body) = &sequent.left[index] else {
        return RuleApplication::Error;
    };
    let Some(instantiated) = instantiate_quantified_formula_with_term(vars, body, term, QuantifierKind::ForAll) else {
        return RuleApplication::Error;
    };
    let left = insert_after_copy(&sequent.left, index, instantiated);
    let ps = vec![Sequent { left, right: formulas_clone(&sequent.right) }];
    proof {
        assert(sequents_model(ps@) =~= forall_l_premises(sequent@, index as int, term@)->0);
    }
    RuleApplication::Premises(ps)
}

/// Applies `∃R` at `index` with the witness `term`.
pub fn apply_exists_r_with_term(sequent: &Sequent, index: usize, term: &Term) -> (r: RuleApplication)
    ensures
        r@ == premises_or_error(exists_r_premises(sequent@, index as int, term@)),
{
    if index >= sequent.right.len() {
        return RuleApplication::Error;
    }
    proof {
        assert(sequent@.right[index as int] == formula_model(sequent.right@[index as int]));
    }
    let Formula::Exists(vars, body) = &sequent.right[index] else {
        return RuleApplication::Error;
    };
    let Some(instantiated) = instantiate_quantified_formula_with_term(vars, body, term, QuantifierKind::Exists) else {
        return RuleApplication::Error;
    };
    let right = insert_after_copy(&sequent.right, index, instantiated);
    let ps = vec![Sequent { left: formulas_clone(&sequent.left), right }];
    proof {
        assert(sequents_model(ps@) =~= exists_r_premises(sequent@, index as int, term@)->0);
    }
    RuleApplication::Premises(ps)
}

/// Applies `∀R` at `index` with a fresh eigenconstant.
pub fn apply_forall_r(sequent: &Sequent, index: usize) -> (r: RuleApplication)
    ensures
        r@ == premises_or_error(forall_r_premises(sequent@, index as int, fresh_eigen_name(sequent@))),
{
    if index >= sequent.right.len() {
        return RuleApplication::Error;
    }
    proof {
        assert(sequent@.right[index as int] == formula_model(sequent.right@[index as int]));
    }
    let Formula::ForAll(vars, body) = &sequent.right[index] else {
        return RuleApplication::Error;
    };
    let name = fresh_eigenconstant_name(sequent);
    let ghost c = name@;
    let Some(replacement) = instantiate_quantified_formula(vars, body, name, QuantifierKind::ForAll) else {
        return RuleApplication::Error;
    };
    let ghost rm = replacement@;
    let right = splice(&sequent.right, index, vec![replacement]);
    let p0 = Sequent { left: formulas_clone(&sequent.left), right };
    let ghost m0 = p0@;
    let ps = vec![p0];
    proof {
        let s = sequent@;
        assert(formulas_model(seq![replacement]) =~= seq![rm]);
        assert(m0.left == s.left);
        assert(m0.right == replace_at(s.right, index as int, formulas_model(seq![replacement])));
        assert(sequents_model(ps@) =~= forall_r_premises(s, index as int, c)->0);
    }
    RuleApplication::Premises(ps)
}

/// Applies `∃L` at `index` with a fresh eigenconstant.
pub fn apply_exists_l(sequent: &Sequent, index: usize) -> (r: RuleApplication)
    ensures
        r@ == premises_or_error(exists_l_premises(sequent@, index as int, fresh_eigen_name(sequent@))),
{
    if index >= sequent.left.len() {
        return RuleApplication::Error;
    }
    proof {
        assert(sequent@.left[index as int] == formula_model(sequent.left@[index as int]));
    }
    let Formula::Exists(vars, body) = &sequent.left[index] else {
        return RuleApplication::Error;
    };
    let name = fresh_eigenconstant_name(sequent);
    let ghost c = name@;
    let Some(replacement) = instantiate_quantified_formula(vars, body, name, QuantifierKind::Exists) else {
        return RuleApplication::Error;
    };
    let ghost rm = replacement@;
    let left = splice(&sequent.left, index, vec![replacement]);
    let p0 = Sequent { left, right: formulas_clone(&sequent.right) };
    let ghost m0 = p0@;
    let ps = vec![p0];
    proof {
        let s = sequent@;
        assert(formulas_model(seq![replacement]) =~= seq![rm]);
        assert(m0.right == s.right);
        assert(m0.left == replace_at(s.left, index as int, formulas_model(seq![replacement])));
        assert(sequents_model(ps@) =~= exists_l_premises(s, index as int, c)->0);
    }
    RuleApplication::Premises(ps)
}

} // verus!
