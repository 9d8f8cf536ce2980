//! LK′ derivations: which sequents the calculus proves, and the fact that
//! every rule application the library performs is an inference of it.

use vstd::prelude::*;

use crate::ast::model::{SSequent, STerm};
use crate::prover::quantifier::fresh::{fresh_eigen_name, lemma_fresh_eigen_name};
use crate::prover::quantifier::terms::sequent_symbols;
use crate::prover::rules::apply::{
    and_l_premises, and_r_premises, default_instance, exists_l_premises, exists_r_premises, forall_l_premises,
    forall_r_premises, implies_l_premises, implies_r_premises, not_l_premises, not_r_premises, or_l_premises,
    or_r_premises, spec_apply_rule, SApplication,
};
use crate::prover::rules::kinds::{Rule, RuleMatch};
use crate::prover::rules::matcher::match_holds;

verus! {

/// Whether a rule closes a branch on its own.
pub open spec fn is_closing(rule: Rule) -> bool {
    rule == Rule::Id || rule == Rule::TopR || rule == Rule::BottomL
}

/// `ps` are the premises of an inference by the rule of `m` on the formula
/// it names. `∀L` and `∃R` may instantiate with any term; `∀R` and `∃L`
/// must instantiate with a constant that occurs nowhere in the conclusion.
pub open spec fn step_premises(s: SSequent, m: RuleMatch, ps: Seq<SSequent>) -> bool {
    let i = m.index as int;
    match m.rule {
        Rule::Id | Rule::TopR | Rule::BottomL => false,
        Rule::AndL => and_l_premises(s, i) == Some(ps),
        Rule::AndR => and_r_premises(s, i) == Some(ps),
        Rule::OrL => or_l_premises(s, i) == Some(ps),
        Rule::OrR => or_r_premises(s, i) == Some(ps),
        Rule::ImpliesL => implies_l_premises(s, i) == Some(ps),
        Rule::ImpliesR => implies_r_premises(s, i) == Some(ps),
        Rule::NotL => not_l_premises(s, i) == Some(ps),
        Rule::NotR => not_r_premises(s, i) == Some(ps),
        Rule::ForAllL => exists|t: STerm| forall_l_premises(s, i, t) == Some(ps),
        Rule::ExistsR => exists|t: STerm| exists_r_premises(s, i, t) == Some(ps),
        Rule::ForAllR => exists|c: Seq<char>|
            !sequent_symbols(s).contains(c) && forall_r_premises(s, i, c) == Some(ps),
        Rule::ExistsL => exists|c: Seq<char>|
            !sequent_symbols(s).contains(c) && exists_l_premises(s, i, c) == Some(ps),
    }
}

/// `s` has an LK′ derivation of at most `height` levels: it is closed by an
/// axiom (`Id`, `⊤R`, `⊥L`), or some inference reduces it to premises that
/// all have derivations one level lower.
pub open spec fn derivable(s: SSequent, height: nat) -> bool
    decreases height,
{
    height > 0 && ((exists|m: RuleMatch| match_holds(s, m) && is_closing(m.rule)) || (exists|
        m: RuleMatch,
        ps: Seq<SSequent>,
    |
        match_holds(s, m) && step_premises(s, m, ps) && forall|k: int|
            0 <= k < ps.len() ==> derivable(#[trigger] ps[k], (height - 1) as nat)))
}

/// `s` has an LK′ derivation.
pub open spec fn provable(s: SSequent) -> bool {
    exists|height: nat| derivable(s, height)
}

/// A closing match closes the sequent at any positive height.
pub proof fn lemma_closing_derivable(s: SSequent, m: RuleMatch, height: nat)
    requires
        match_holds(s, m),
        is_closing(m.rule),
        height > 0,
    ensures
        derivable(s, height),
{
}

/// An inference whose premises all have derivations of `height` levels gives
/// a derivation of `height + 1` levels.
pub proof fn lemma_step_derivable(s: SSequent, m: RuleMatch, ps: Seq<SSequent>, height: nat)
    requires
        match_holds(s, m),
        step_premises(s, m, ps),
        forall|k: int| 0 <= k < ps.len() ==> derivable(#[trigger] ps[k], height),
    ensures
        derivable(s, height + 1),
{
    assert(((height + 1) - 1) as nat == height);
}

/// Applying a matched rule is an LK′ inference: it closes the branch exactly
/// for the axioms, and otherwise its premises are those of an inference by
/// that rule, with a fresh eigenconstant for `∀R` and `∃L`.
pub proof fn lemma_apply_rule_sound(s: SSequent, m: RuleMatch)
    requires
        match_holds(s, m),
    ensures
        spec_apply_rule(s, m) is Closed <==> is_closing(m.rule),
        spec_apply_rule(s, m) is Premises ==> step_premises(s, m, spec_apply_rule(s, m)->Premises_0),
{
    let i = m.index as int;
    match m.rule {
        Rule::ForAllL => {
            if let SApplication::Premises(ps) = spec_apply_rule(s, m) {
                assert(forall_l_premises(s, i, default_instance(s)) == Some(ps));
            }
        },
        Rule::ExistsR => {
            if let SApplication::Premises(ps) = spec_apply_rule(s, m) {
                assert(exists_r_premises(s, i, default_instance(s)) == Some(ps));
            }
        },
        Rule::ForAllR => {
            lemma_fresh_eigen_name(s);
            if let SApplication::Premises(ps) = spec_apply_rule(s, m) {
                assert(forall_r_premises(s, i, fresh_eigen_name(s)) == Some(ps));
            }
        },
        Rule::ExistsL => {
            lemma_fresh_eigen_name(s);
            if let SApplication::Premises(ps) = spec_apply_rule(s, m) {
                assert(exists_l_premises(s, i, fresh_eigen_name(s)) == Some(ps));
            }
        },
        _ => {},
    }
}

} // verus!
