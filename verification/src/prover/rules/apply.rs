//! Application of matched rules to sequents.

pub mod connective;
pub mod quantifier;
pub mod structural;

use vstd::prelude::*;

use crate::ast::formula::{formulas_slice, Formula};
use crate::ast::model::{formula_model, formulas_model, group_model, SFormula, SSequent};
use crate::prover::quantifier::fresh::{fresh_branch_name, fresh_eigen_name};
use crate::prover::quantifier::instantiate::constant_term;
use crate::prover::quantifier::terms::visible_terms;
use crate::prover::rules::kinds::{Rule, RuleMatch};
use crate::prover::sequent::Sequent;
use crate::ast::model::STerm;

pub use connective::{
    and_l_premises, and_r_premises, implies_l_premises, implies_r_premises, not_l_premises, not_r_premises,
    or_l_premises, or_r_premises,
};
pub use quantifier::{
    apply_exists_r_with_term, apply_forall_l_with_term, exists_l_premises, exists_r_premises, forall_l_premises,
    forall_r_premises,
};

verus! {

broadcast use group_model;

/// The result of applying a rule to a sequent.
#[derive(Debug, PartialEq, Eq)]
pub enum RuleApplication {
    /// The rule closes the branch.
    Closed,
    /// The rule reduces the sequent to these premises, all of which must be proved.
    Premises(Vec<Sequent>),
    /// The rule is recognised but not implemented.
    NotImplemented,
    /// The rule does not fit the formula at the given position.
    Error,
}

/// The model of a rule application.
pub enum SApplication {
    Closed,
    Premises(Seq<SSequent>),
    NotImplemented,
    Error,
}

/// The models of a sequence of sequents.
pub open spec fn sequents_model(ss: Seq<Sequent>) -> Seq<SSequent> {
    Seq::new(ss.len(), |i: int| ss[i]@)
}

impl View for RuleApplication {
    type V = SApplication;

    open spec fn view(&self) -> SApplication {
        match self {
            RuleApplication::Closed => SApplication::Closed,
            RuleApplication::Premises(ps) => SApplication::Premises(sequents_model(ps@)),
            RuleApplication::NotImplemented => SApplication::NotImplemented,
            RuleApplication::Error => SApplication::Error,
        }
    }
}

/// `fs` with the formula at `i` replaced by the formulas `new`.
pub open spec fn replace_at(fs: Seq<SFormula>, i: int, new: Seq<SFormula>) -> Seq<SFormula> {
    fs.take(i) + new + fs.skip(i + 1)
}

/// `fs` with `new` inserted right after position `i`.
pub open spec fn insert_after(fs: Seq<SFormula>, i: int, new: SFormula) -> Seq<SFormula> {
    fs.take(i + 1) + seq![new] + fs.skip(i + 1)
}

/// What is left of an n-ary junction once its first operand is taken: the
/// second operand itself when there were two, else the junction of the rest.
pub open spec fn junction_rest(items: Seq<SFormula>, conj: bool) -> SFormula {
    if items.len() == 2 {
        items[1]
    } else if conj {
        SFormula::And(items.drop_first())
    } else {
        SFormula::Or(items.drop_first())
    }
}

/// A rule's premises as an application: `Error` when the rule does not fit.
pub open spec fn premises_or_error(p: Option<Seq<SSequent>>) -> SApplication {
    match p {
        Some(ps) => SApplication::Premises(ps),
        None => SApplication::Error,
    }
}

/// The term that `∀L` and `∃R` use when applied outside the scheduler: the
/// first visible term, else a fresh constant.
pub open spec fn default_instance(s: SSequent) -> STerm {
    if visible_terms(s).len() > 0 {
        visible_terms(s)[0]
    } else {
        constant_term(fresh_branch_name(s))
    }
}

/// The effect of applying a matched rule. Closing rules close the branch as
/// matched; every other rule acts on the formula at the match's index on its
/// own side.
pub open spec fn spec_apply_rule(s: SSequent, m: RuleMatch) -> SApplication {
    let i = m.index as int;
    match m.rule {
        Rule::Id | Rule::TopR | Rule::BottomL => SApplication::Closed,
        Rule::AndL => premises_or_error(and_l_premises(s, i)),
        Rule::AndR => premises_or_error(and_r_premises(s, i)),
        Rule::OrL => premises_or_error(or_l_premises(s, i)),
        Rule::OrR => premises_or_error(or_r_premises(s, i)),
        Rule::ImpliesL => premises_or_error(implies_l_premises(s, i)),
        Rule::ImpliesR => premises_or_error(implies_r_premises(s, i)),
        Rule::NotL => premises_or_error(not_l_premises(s, i)),
        Rule::NotR => premises_or_error(not_r_premises(s, i)),
        Rule::ForAllL => premises_or_error(forall_l_premises(s, i, default_instance(s))),
        Rule::ForAllR => premises_or_error(forall_r_premises(s, i, fresh_eigen_name(s))),
        Rule::ExistsL => premises_or_error(exists_l_premises(s, i, fresh_eigen_name(s))),
        Rule::ExistsR => premises_or_error(exists_r_premises(s, i, default_instance(s))),
    }
}

/// Copies `fs` with the formula at `i` replaced by `new`.
pub fn splice(fs: &Vec<Formula>, i: usize, new: Vec<Formula>) -> (r: Vec<Formula>)
    requires
        i < fs.len(),
    ensures
        formulas_model(r@) == replace_at(formulas_model(fs@), i as int, formulas_model(new@)),
{
    let mut out = formulas_slice(fs, 0, i);
    let ghost first = formulas_model(out@);
    let mut new = new;
    let ghost added = formulas_model(new@);
    let mut k: usize = 0;
    let n = new.len();
    while k < n
        invariant
            k <= n,
            n == new.len(),
            formulas_model(new@) == added,
            formulas_model(out@) == first + added.take(k as int),
        decreases n - k,
    {
        out.push(new[k].duplicate());
        proof {
            assert(added[k as int] == formula_model(new@[k as int]));
            assert(formulas_model(out@) =~= first + added.take(k as int + 1));
        }
        k += 1;
    }
    let ghost mid = formulas_model(out@);
    let mut j: usize = i + 1;
    while j < fs.len()
        invariant
            i + 1 <= j <= fs.len(),
            formulas_model(out@) == mid + formulas_model(fs@).subrange(i + 1, j as int),
        decreases fs.len() - j,
    {
        out.push(fs[j].duplicate());
        proof {
            assert(formulas_model(out@) =~= mid + formulas_model(fs@).subrange(i + 1, j + 1));
        }
        j += 1;
    }
    proof {
        assert(added.take(n as int) =~= added);
        assert(formulas_model(fs@).subrange(i + 1, fs.len() as int) =~= formulas_model(fs@).skip(i + 1));
        assert(formulas_model(out@) =~= replace_at(formulas_model(fs@), i as int, added));
    }
    out
}

/// Copies `fs` with `new` inserted right after position `i`.
pub fn insert_after_copy(fs: &Vec<Formula>, i: usize, new: Formula) -> (r: Vec<Formula>)
    requires
        i < fs.len(),
    ensures
        formulas_model(r@) == insert_after(formulas_model(fs@), i as int, new@),
{
    let mut out = formulas_slice(fs, 0, i + 1);
    let ghost nm = new@;
    out.push(new);
    let ghost mid = formulas_model(out@);
    proof {
        assert(mid =~= formulas_model(fs@).take(i as int + 1) + seq![nm]);
    }
    let mut j: usize = i + 1;
    while j < fs.len()
        invariant
            i + 1 <= j <= fs.len(),
            formulas_model(out@) == mid + formulas_model(fs@).subrange(i + 1, j as int),
        decreases fs.len() - j,
    {
        out.push(fs[j].duplicate());
        proof {
            assert(formulas_model(out@) =~= mid + formulas_model(fs@).subrange(i + 1, j + 1));
        }
        j += 1;
    }
    proof {
        assert(formulas_model(fs@).subrange(i + 1, fs.len() as int) =~= formulas_model(fs@).skip(i + 1));
        assert(formulas_model(out@) =~= insert_after(formulas_model(fs@), i as int, nm));
    }
    out
}

/// Copies `fs` and appends `new`.
pub fn with_pushed(fs: &Vec<Formula>, new: Formula) -> (r: Vec<Formula>)
    ensures
        formulas_model(r@) == formulas_model(fs@).push(new@),
{
    let mut out = formulas_slice(fs, 0, fs.len());
    let ghost nm = new@;
    out.push(new);
    proof {
        assert(formulas_model(fs@).subrange(0, fs.len() as int) =~= formulas_model(fs@));
        assert(formulas_model(out@) =~= formulas_model(fs@).push(nm));
    }
    out
}

/// Applies a matched rule to a sequent and returns the resulting proof step.
pub fn apply_rule(sequent: &Sequent, rule_match: &RuleMatch) -> (r: RuleApplication)
    ensures
        r@ == spec_apply_rule(sequent@, *rule_match),
{
    match rule_match.rule {
        Rule::Id | Rule::TopR | Rule::BottomL => structural::apply_structural(rule_match.rule),
        Rule::AndL => connective::apply_and_l(sequent, rule_match.index),
        Rule::OrR => connective::apply_or_r(sequent, rule_match.index),
        Rule::ImpliesR => connective::apply_implies_r(sequent, rule_match.index),
        Rule::NotL => connective::apply_not_l(sequent, rule_match.index),
        Rule::NotR => connective::apply_not_r(sequent, rule_match.index),
        Rule::ForAllL => quantifier::apply_forall_l(sequent, rule_match.index),
        Rule::ForAllR => quantifier::apply_forall_r(sequent, rule_match.index),
        Rule::ExistsL => quantifier::apply_exists_l(sequent, rule_match.index),
        Rule::ExistsR => quantifier::apply_exists_r(sequent, rule_match.index),
        Rule::AndR => connective::apply_and_r(sequent, rule_match.index),
        Rule::OrL => connective::apply_or_l(sequent, rule_match.index),
        Rule::ImpliesL => connective::apply_implies_l(sequent, rule_match.index),
    }
}

} // verus!
