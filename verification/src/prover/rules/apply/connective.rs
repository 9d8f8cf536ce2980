//! Application of propositional connective rules.

use vstd::prelude::*;

use crate::ast::formula::{formulas_clone, formulas_slice, Formula};
use crate::ast::model::{formula_model, formulas_model, group_model, SFormula, SSequent};
use crate::prover::rules::apply::{
    junction_rest, premises_or_error, replace_at, sequents_model, splice, with_pushed, RuleApplication,
};
use crate::prover::sequent::Sequent;

verus! {

broadcast use group_model;

/// `∧L`: `Γ, A1 ∧ … ∧ An, Γ' ⊢ Δ` reduces to `Γ, A1, A2 ∧ … ∧ An, Γ' ⊢ Δ`.
pub open spec fn and_l_premises(s: SSequent, i: int) -> Option<Seq<SSequent>> {
    if 0 <= i < s.left.len() && s.left[i] is And && s.left[i]->And_0.len() >= 2 {
        let items = s.left[i]->And_0;
        Some(seq![SSequent { left: replace_at(s.left, i, seq![items[0], junction_rest(items, true)]), right: s.right }])
    } else {
        None
    }
}

/// `∧R`: `Γ ⊢ Δ, A1 ∧ … ∧ An, Δ'` branches into `A1` and the rest.
pub open spec fn and_r_premises(s: SSequent, i: int) -> Option<Seq<SSequent>> {
    if 0 <= i < s.right.len() && s.right[i] is And && s.right[i]->And_0.len() >= 2 {
        let items = s.right[i]->And_0;
        Some(
            seq![
                SSequent { left: s.left, right: replace_at(s.right, i, seq![items[0]]) },
                SSequent { left: s.left, right: replace_at(s.right, i, seq![junction_rest(items, true)]) },
            ],
        )
    } else {
        None
    }
}

/// `∨L`: `Γ, A1 ∨ … ∨ An, Γ' ⊢ Δ` branches into `A1` and the rest.
pub open spec fn or_l_premises(s: SSequent, i: int) -> Option<Seq<SSequent>> {
    if 0 <= i < s.left.len() && s.left[i] is Or && s.left[i]->Or_0.len() >= 2 {
        let items = s.left[i]->Or_0;
        Some(
            seq![
                SSequent { left: replace_at(s.left, i, seq![items[0]]), right: s.right },
                SSequent { left: replace_at(s.left, i, seq![junction_rest(items, false)]), right: s.right },
            ],
        )
    } else {
        None
    }
}

/// `∨R`: `Γ ⊢ Δ, A1 ∨ … ∨ An, Δ'` reduces to `Γ ⊢ Δ, A1, A2 ∨ … ∨ An, Δ'`.
pub open spec fn or_r_premises(s: SSequent, i: int) -> Option<Seq<SSequent>> {
    if 0 <= i < s.right.len() && s.right[i] is Or && s.right[i]->Or_0.len() >= 2 {
        let items = s.right[i]->Or_0;
        Some(seq![SSequent { left: s.left, right: replace_at(s.right, i, seq![items[0], junction_rest(items, false)]) }])
    } else {
        None
    }
}

/// `→R`: `Γ ⊢ Δ, A ⇒ B, Δ'` reduces to `Γ, A ⊢ Δ, B, Δ'`.
pub open spec fn implies_r_premises(s: SSequent, i: int) -> Option<Seq<SSequent>> {
    if 0 <= i < s.right.len() && s.right[i] is Implies {
        let a = *s.right[i]->Implies_0;
        let b = *s.right[i]->Implies_1;
        Some(seq![SSequent { left: s.left.push(a), right: replace_at(s.right, i, seq![b]) }])
    } else {
        None
    }
}

/// `→L`: `Γ, A ⇒ B, Γ' ⊢ Δ` branches into `Γ, Γ' ⊢ Δ, A` and `Γ, Γ', B ⊢ Δ`.
pub open spec fn implies_l_premises(s: SSequent, i: int) -> Option<Seq<SSequent>> {
    if 0 <= i < s.left.len() && s.left[i] is Implies {
        let a = *s.left[i]->Implies_0;
        let b = *s.left[i]->Implies_1;
        let rest = replace_at(s.left, i, Seq::empty());
        Some(seq![SSequent { left: rest, right: s.right.push(a) }, SSequent { left: rest.push(b), right: s.right }])
    } else {
        None
    }
}

/// `¬L`: `Γ, ¬A, Γ' ⊢ Δ` reduces to `Γ, Γ' ⊢ Δ, A`.
pub open spec fn not_l_premises(s: SSequent, i: int) -> Option<Seq<SSequent>> {
    if 0 <= i < s.left.len() && s.left[i] is Not {
        let a = *s.left[i]->Not_0;
        Some(seq![SSequent { left: replace_at(s.left, i, Seq::empty()), right: s.right.push(a) }])
    } else {
        None
    }
}

/// `¬R`: `Γ ⊢ Δ, ¬A, Δ'` reduces to `Γ, A ⊢ Δ, Δ'`.
pub open spec fn not_r_premises(s: SSequent, i: int) -> Option<Seq<SSequent>> {
    if 0 <= i < s.right.len() && s.right[i] is Not {
        let a = *s.right[i]->Not_0;
        Some(seq![SSequent { left: s.left.push(a), right: replace_at(s.right, i, Seq::empty()) }])
    } else {
        None
    }
}

/// The first operand of a junction and the junction of the rest, as formulas.
fn split_junction(items: &Vec<Formula>, conj: bool) -> (r: (Formula, Formula))
    requires
        items.len() >= 2,
    ensures
        r.0@ == formulas_model(items@)[0],
        r.1@ == junction_rest(formulas_model(items@), conj),
{
    let first = items[0].duplicate();
    if items.len() == 2 {
        (first, items[1].duplicate())
    } else {
        let rest = formulas_slice(items, 1, items.len());
        proof {
            assert(formulas_model(items@).subrange(1, items.len() as int) =~= formulas_model(items@).drop_first());
        }
        if conj {
            (first, Formula::And(rest))
        } else {
            (first, Formula::Or(rest))
        }
    }
}

/// Applies `∧L` by expanding the selected conjunction on the left.
pub fn apply_and_l(sequent: &Sequent, index: usize) -> (r: RuleApplication)
    ensures
        r@ == premises_or_error(and_l_premises(sequent@, index as int)),
{
    if index >= sequent.left.len() {
        return RuleApplication::Error;
    }
    proof {
        assert(sequent@.left[index as int] == formula_model(sequent.left@[index as int]));
    }
    let Formula::And(items) = &sequent.left[index] else {
        return RuleApplication::Error;
    };
    proof {
        assert(sequent@.left[index as int]->And_0 == formulas_model(items@));
    }
    if items.len() < 2 {
        return RuleApplication::Error;
    }
    let (first, rest) = split_junction(items, true);
    let left = splice(&sequent.left, index, vec![first, rest]);
    let p = Sequent { left, right: formulas_clone(&sequent.right) };
    let ps = vec![p];
    proof {
        assert(formulas_model(seq![first, rest]) =~= seq![first@, rest@]);
        assert(sequents_model(ps@) =~= and_l_premises(sequent@, index as int)->0);
    }
    RuleApplication::Premises(ps)
}

/// Applies `∧R` by splitting the selected conjunction on the right into two branches.
pub fn apply_and_r(sequent: &Sequent, index: usize) -> (r: RuleApplication)
    ensures
        r@ == premises_or_error(and_r_premises(sequent@, index as int)),
{
    if index >= sequent.right.len() {
        return RuleApplication::Error;
    }
    proof {
        assert(sequent@.right[index as int] == formula_model(sequent.right@[index as int]));
    }
    let Formula::And(items) = &sequent.right[index] else {
        return RuleApplication::Error;
    };
    proof {
        assert(sequent@.right[index as int]->And_0 == formulas_model(items@));
    }
    if items.len() < 2 {
        return RuleApplication::Error;
    }
    let (first, rest) = split_junction(items, true);
    let ghost fm = first@;
    let ghost rm = rest@;
    let first_right = splice(&sequent.right, index, vec![first]);
    let second_right = splice(&sequent.right, index, vec![rest]);
    let p0 = Sequent { left: formulas_clone(&sequent.left), right: first_right };
    let p1 = Sequent { left: formulas_clone(&sequent.left), right: second_right };
    let ghost (m0, m1) = (p0@, p1@);
    let ps = vec![p0, p1];
    proof {
        let s = sequent@;
        let items_m = s.right[index as int]->And_0;
        assert(formulas_model(seq![first]) =~= seq![fm]);
        assert(formulas_model(seq![rest]) =~= seq![rm]);
        assert(m0.left == s.left);
        assert(fm == items_m[0]);
        assert(m0.right == replace_at(s.right, index as int, formulas_model(seq![first])));
        assert(m0.right == replace_at(s.right, index as int, seq![items_m[0]]));
        assert(m0 == SSequent { left: s.left, right: replace_at(s.right, index as int, seq![items_m[0]]) });
        assert(m1.left == s.left);
        assert(m1.right == replace_at(s.right, index as int, formulas_model(seq![rest])));
        assert(m1 == SSequent {
            left: s.left,
            right: replace_at(s.right, index as int, seq![junction_rest(items_m, true)]),
        });
        assert(sequents_model(ps@) =~= and_r_premises(s, index as int)->0);
    }
    RuleApplication::Premises(ps)
}

/// Applies `∨L` by branching on the selected disjunction on the left.
pub fn apply_or_l(sequent: &Sequent, index: usize) -> (r: RuleApplication)
    ensures
        r@ == premises_or_error(or_l_premises(sequent@, index as int)),
{
    if index >= sequent.left.len() {
        return RuleApplication::Error;
    }
    proof {
        assert(sequent@.left[index as int] == formula_model(sequent.left@[index as int]));
    }
    let Formula::Or(items) = &sequent.left[index] else {
        return RuleApplication::Error;
    };
    proof {
        assert(sequent@.left[index as int]->Or_0 == formulas_model(items@));
    }
    if items.len() < 2 {
        return RuleApplication::Error;
    }
    let (first, rest) = split_junction(items, false);
    let ghost fm = first@;
    let ghost rm = rest@;
    let first_left = splice(&sequent.left, index, vec![first]);
    let second_left = splice(&sequent.left, index, vec![rest]);
    let p0 = Sequent { left: first_left, right: formulas_clone(&sequent.right) };
    let p1 = Sequent { left: second_left, right: formulas_clone(&sequent.right) };
    let ghost (m0, m1) = (p0@, p1@);
    let ps = vec![p0, p1];
    proof {
        let s = sequent@;
        let items_m = s.left[index as int]->Or_0;
        assert(formulas_model(seq![first]) =~= seq![fm]);
        assert(formulas_model(seq![rest]) =~= seq![rm]);
        assert(m0.right == s.right);
        assert(m0.left == replace_at(s.left, index as int, formulas_model(seq![first])));
        assert(m0 == SSequent { left: replace_at(s.left, index as int, seq![items_m[0]]), right: s.right });
        assert(m1.right == s.right);
        assert(m1.left == replace_at(s.left, index as int, formulas_model(seq![rest])));
        assert(m1 == SSequent {
            left: replace_at(s.left, index as int, seq![junction_rest(items_m, false)]),
            right: s.right,
        });
        assert(sequents_model(ps@) =~= or_l_premises(s, index as int)->0);
    }
    RuleApplication::Premises(ps)
}

/// Applies `∨R` by expanding the selected disjunction on the right in place.
pub fn apply_or_r(sequent: &Sequent, index: usize) -> (r: RuleApplication)
    ensures
        r@ == premises_or_error(or_r_premises(sequent@, index as int)),
{
    if index >= sequent.right.len() {
        return RuleApplication::Error;
    }
    proof {
        assert(sequent@.right[index as int] == formula_model(sequent.right@[index as int]));
    }
    let Formula::Or(items) = &sequent.right[index] else {
        return RuleApplication::Error;
    };
    proof {
        assert(sequent@.right[index as int]->Or_0 == formulas_model(items@));
    }
    if items.len() < 2 {
        return RuleApplication::Error;
    }
    let (first, rest) = split_junction(items, false);
    let right = splice(&sequent.right, index, vec![first, rest]);
    let ps = vec![Sequent { left: formulas_clone(&sequent.left), right }];
    proof {
        assert(formulas_model(seq![first, rest]) =~= seq![first@, rest@]);
        assert(sequents_model(ps@) =~= or_r_premises(sequent@, index as int)->0);
    }
    RuleApplication::Premises(ps)
}

/// Applies `→R` by moving the antecedent to the left and keeping the consequent on the right.
pub fn apply_implies_r(sequent: &Sequent, index: usize) -> (r: RuleApplication)
    ensures
        r@ == premises_or_error(implies_r_premises(sequent@, index as int)),
{
    if index >= sequent.right.len() {
        return RuleApplication::Error;
    }
    proof {
        assert(sequent@.right[index as int] == formula_model(sequent.right@[index as int]));
    }
    let Formula::Implies(left_formula, right_formula) = &sequent.right[index] else {
        return RuleApplication::Error;
    };
    let left = with_pushed(&sequent.left, left_formula.duplicate());
    let b = right_formula.duplicate();
    let ghost bm = b@;
    let right = splice(&sequent.right, index, vec![b]);
    let p0 = Sequent { left, right };
    let ghost m0 = p0@;
    let ps = vec![p0];
    proof {
        let s = sequent@;
        assert(formulas_model(seq![b]) =~= seq![bm]);
        assert(bm == *s.right[index as int]->Implies_1);
        assert(m0.left == s.left.push(*s.right[index as int]->Implies_0));
        assert(m0.right == replace_at(s.right, index as int, formulas_model(seq![b])));
        assert(m0 == SSequent {
            left: s.left.push(*s.right[index as int]->Implies_0),
            right: replace_at(s.right, index as int, seq![bm]),
        });
        assert(sequents_model(ps@) =~= implies_r_premises(s, index as int)->0);
    }
    RuleApplication::Premises(ps)
}

/// Applies `→L` by branching over the implication's antecedent and consequent.
pub fn apply_implies_l(sequent: &Sequent, index: usize) -> (r: RuleApplication)
    ensures
        r@ == premises_or_error(implies_l_premises(sequent@, index as int)),
{
    if index >= sequent.left.len() {
        return RuleApplication::Error;
    }
    proof {
        assert(sequent@.left[index as int] == formula_model(sequent.left@[index as int]));
    }
    let Formula::Implies(left_formula, right_formula) = &sequent.left[index] else {
        return RuleApplication::Error;
    };
    let left_without_implication = splice(&sequent.left, index, Vec::new());
    let first_right = with_pushed(&sequent.right, left_formula.duplicate());
    let second_left = with_pushed(&left_without_implication, right_formula.duplicate());
    let ps = vec![
        Sequent { left: left_without_implication, right: first_right },
        Sequent { left: second_left, right: formulas_clone(&sequent.right) },
    ];
    proof {
        assert(formulas_model(Seq::<Formula>::empty()) =~= Seq::<SFormula>::empty());
        assert(sequents_model(ps@) =~= implies_l_premises(sequent@, index as int)->0);
    }
    RuleApplication::Premises(ps)
}

/// Applies `¬L` by moving the negated formula to the right.
pub fn apply_not_l(sequent: &Sequent, index: usize) -> (r: RuleApplication)
    ensures
        r@ == premises_or_error(not_l_premises(sequent@, index as int)),
{
    if index >= sequent.left.len() {
        return RuleApplication::Error;
    }
    proof {
        assert(sequent@.left[index as int] == formula_model(sequent.left@[index as int]));
    }
    let Formula::Not(inner) = &sequent.left[index] else {
        return RuleApplication::Error;
    };
    let left = splice(&sequent.left, index, Vec::new());
    let right = with_pushed(&sequent.right, inner.duplicate());
    let ps = vec![Sequent { left, right }];
    proof {
        assert(formulas_model(Seq::<Formula>::empty()) =~= Seq::<SFormula>::empty());
        assert(sequents_model(ps@) =~= not_l_premises(sequent@, index as int)->0);
    }
    RuleApplication::Premises(ps)
}

/// Applies `¬R` by moving the negated formula to the left.
pub fn apply_not_r(sequent: &Sequent, index: usize) -> (r: RuleApplication)
    ensures
        r@ == premises_or_error(not_r_premises(sequent@, index as int)),
{
    if index >= sequent.right.len() {
        return RuleApplication::Error;
    }
    proof {
        assert(sequent@.right[index as int] == formula_model(sequent.right@[index as int]));
    }
    let Formula::Not(inner) = &sequent.right[index] else {
        return RuleApplication::Error;
    };
    let left = with_pushed(&sequent.left, inner.duplicate());
    let right = splice(&sequent.right, index, Vec::new());
    let ps = vec![Sequent { left, right }];
    proof {
        assert(formulas_model(Seq::<Formula>::empty()) =~= Seq::<SFormula>::empty());
        assert(sequents_model(ps@) =~= not_r_premises(sequent@, index as int)->0);
    }
    RuleApplication::Premises(ps)
}

} // verus!
