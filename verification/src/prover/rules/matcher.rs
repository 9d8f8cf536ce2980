//! Rule matching over the formulas currently visible in a sequent.

use vstd::prelude::*;

use crate::ast::formula::Formula;
use crate::ast::model::{formula_model, formulas_model, group_model, SFormula, SSequent};
use crate::prover::rules::kinds::{Rule, RuleMatch, Side};
use crate::prover::sequent::Sequent;

verus! {

broadcast use group_model;

/// The left introduction rule for a formula's main connective, if any.
pub open spec fn left_rule_of(f: SFormula) -> Option<Rule> {
    match f {
        SFormula::False => Some(Rule::BottomL),
        SFormula::And(_) => Some(Rule::AndL),
        SFormula::Or(_) => Some(Rule::OrL),
        SFormula::Implies(_, _) => Some(Rule::ImpliesL),
        SFormula::Not(_) => Some(Rule::NotL),
        SFormula::ForAll(_, _) => Some(Rule::ForAllL),
        SFormula::Exists(_, _) => Some(Rule::ExistsL),
        _ => None,
    }
}

/// The right introduction rule for a formula's main connective, if any.
pub open spec fn right_rule_of(f: SFormula) -> Option<Rule> {
    match f {
        SFormula::True => Some(Rule::TopR),
        SFormula::And(_) => Some(Rule::AndR),
        SFormula::Or(_) => Some(Rule::OrR),
        SFormula::Implies(_, _) => Some(Rule::ImpliesR),
        SFormula::Not(_) => Some(Rule::NotR),
        SFormula::ForAll(_, _) => Some(Rule::ForAllR),
        SFormula::Exists(_, _) => Some(Rule::ExistsR),
        _ => None,
    }
}

/// The introduction rule for a formula on the given side.
pub open spec fn rule_of(side: Side, f: SFormula) -> Option<Rule> {
    match side {
        Side::Left => left_rule_of(f),
        Side::Right => right_rule_of(f),
    }
}

/// `Id` at every one of the first `n` left positions whose formula also
/// occurs on the right, in order.
pub open spec fn id_matches(s: SSequent, n: nat) -> Seq<RuleMatch>
    decreases n,
{
    if n == 0 || n > s.left.len() {
        Seq::empty()
    } else {
        id_matches(s, (n - 1) as nat) + if s.right.contains(s.left[n - 1]) {
            seq![RuleMatch { rule: Rule::Id, side: Side::Left, index: (n - 1) as usize }]
        } else {
            Seq::empty()
        }
    }
}

/// The introduction rules of the first `n` formulas of one side, in order.
pub open spec fn side_matches(fs: Seq<SFormula>, n: nat, side: Side) -> Seq<RuleMatch>
    decreases n,
{
    if n == 0 || n > fs.len() {
        Seq::empty()
    } else {
        side_matches(fs, (n - 1) as nat, side) + match rule_of(side, fs[n - 1]) {
            Some(rule) => seq![RuleMatch { rule, side, index: (n - 1) as usize }],
            None => Seq::empty(),
        }
    }
}

/// Every rule that applies to the sequent: identities first, then the left
/// rules, then the right rules, each in position order.
pub open spec fn applicable_rules(s: SSequent) -> Seq<RuleMatch> {
    id_matches(s, s.left.len()) + side_matches(s.left, s.left.len(), Side::Left) + side_matches(
        s.right,
        s.right.len(),
        Side::Right,
    )
}

/// What a matched rule says about the sequent it was found in.
pub open spec fn match_holds(s: SSequent, m: RuleMatch) -> bool {
    if m.rule == Rule::Id {
        &&& m.side == Side::Left
        &&& m.index < s.left.len()
        &&& s.right.contains(s.left[m.index as int])
    } else {
        match m.side {
            Side::Left => m.index < s.left.len() && left_rule_of(s.left[m.index as int]) == Some(m.rule),
            Side::Right => m.index < s.right.len() && right_rule_of(s.right[m.index as int]) == Some(m.rule),
        }
    }
}

proof fn lemma_id_matches_hold(s: SSequent, n: nat)
    requires
        s.left.len() <= usize::MAX,
    ensures
        forall|k: int| 0 <= k < id_matches(s, n).len() ==> match_holds(s, #[trigger] id_matches(s, n)[k]),
    decreases n,
{
    if n > 0 && n <= s.left.len() {
        lemma_id_matches_hold(s, (n - 1) as nat);
        let prev = id_matches(s, (n - 1) as nat);
        assert forall|k: int| 0 <= k < id_matches(s, n).len() implies match_holds(s, #[trigger] id_matches(s, n)[k]) by {
            if k < prev.len() {
                assert(id_matches(s, n)[k] == prev[k]);
            }
        }
    }
}

proof fn lemma_side_matches_hold(s: SSequent, fs: Seq<SFormula>, n: nat, side: Side)
    requires
        fs.len() <= usize::MAX,
        fs == match side {
            Side::Left => s.left,
            Side::Right => s.right,
        },
    ensures
        forall|k: int|
            0 <= k < side_matches(fs, n, side).len() ==> match_holds(s, #[trigger] side_matches(fs, n, side)[k]),
    decreases n,
{
    if n > 0 && n <= fs.len() {
        lemma_side_matches_hold(s, fs, (n - 1) as nat, side);
        let prev = side_matches(fs, (n - 1) as nat, side);
        assert forall|k: int|
            0 <= k < side_matches(fs, n, side).len() implies match_holds(s, #[trigger] side_matches(fs, n, side)[k]) by {
            if k < prev.len() {
                assert(side_matches(fs, n, side)[k] == prev[k]);
            }
        }
    }
}

/// Every rule occurrence that the matcher reports fits the sequent: an `Id`
/// names a left formula that also occurs on the right, and any other rule
/// names a formula whose main connective it introduces on that side.
pub proof fn lemma_applicable_rules_hold(s: SSequent)
    requires
        s.left.len() <= usize::MAX,
        s.right.len() <= usize::MAX,
    ensures
        forall|k: int| 0 <= k < applicable_rules(s).len() ==> match_holds(s, #[trigger] applicable_rules(s)[k]),
{
    lemma_id_matches_hold(s, s.left.len());
    lemma_side_matches_hold(s, s.left, s.left.len(), Side::Left);
    lemma_side_matches_hold(s, s.right, s.right.len(), Side::Right);
    let a = id_matches(s, s.left.len());
    let b = side_matches(s.left, s.left.len(), Side::Left);
    let c = side_matches(s.right, s.right.len(), Side::Right);
    assert forall|k: int| 0 <= k < applicable_rules(s).len() implies match_holds(s, #[trigger] applicable_rules(s)[k]) by {
        if k < a.len() {
            assert(applicable_rules(s)[k] == a[k]);
        } else if k < a.len() + b.len() {
            assert(applicable_rules(s)[k] == b[k - a.len()]);
        } else {
            assert(applicable_rules(s)[k] == c[k - a.len() - b.len()]);
        }
    }
}

/// Whether some formula of `fs` equals `f`.
fn contains_formula(fs: &Vec<Formula>, f: &Formula) -> (r: bool)
    ensures
        r == formulas_model(fs@).contains(f@),
{
    let mut i: usize = 0;
    while i < fs.len()
        invariant
            i <= fs.len(),
            forall|j: int| 0 <= j < i ==> formula_model(#[trigger] fs@[j]) != f@,
        decreases fs.len() - i,
    {
        if fs[i].same(f) {
            assert(formulas_model(fs@)[i as int] == f@);
            return true;
        }
        i += 1;
    }
    assert forall|j: int| 0 <= j < formulas_model(fs@).len() implies formulas_model(fs@)[j] != f@ by {
        assert(formulas_model(fs@)[j] == formula_model(fs@[j]));
    }
    false
}

/// Finds every rule that can be applied immediately to the given sequent.
pub fn find_applicable_rules(sequent: &Sequent) -> (r: Vec<RuleMatch>)
    ensures
        r@ == applicable_rules(sequent@),
{
    let ghost s = sequent@;
    let mut matches: Vec<RuleMatch> = Vec::new();
    let mut i: usize = 0;
    while i < sequent.left.len()
        invariant
            i <= sequent.left.len(),
            s == sequent@,
            matches@ == id_matches(s, i as nat),
        decreases sequent.left.len() - i,
    {
        if contains_formula(&sequent.right, &sequent.left[i]) {
            matches.push(RuleMatch { rule: Rule::Id, side: Side::Left, index: i });
        }
        proof {
            assert(s.left[i as int] == formula_model(sequent.left@[i as int]));
            assert(matches@ =~= id_matches(s, (i + 1) as nat));
        }
        i += 1;
    }
    let ghost ids = matches@;
    let mut i: usize = 0;
    while i < sequent.left.len()
        invariant
            i <= sequent.left.len(),
            s == sequent@,
            matches@ == ids + side_matches(s.left, i as nat, Side::Left),
        decreases sequent.left.len() - i,
    {
        if let Some(rule) = left_rule(&sequent.left[i]) {
            matches.push(RuleMatch { rule, side: Side::Left, index: i });
        }
        proof {
            assert(s.left[i as int] == formula_model(sequent.left@[i as int]));
            assert(matches@ =~= ids + side_matches(s.left, (i + 1) as nat, Side::Left));
        }
        i += 1;
    }
    let ghost lefts = matches@;
    let mut i: usize = 0;
    while i < sequent.right.len()
        invariant
            i <= sequent.right.len(),
            s == sequent@,
            matches@ == lefts + side_matches(s.right, i as nat, Side::Right),
        decreases sequent.right.len() - i,
    {
        if let Some(rule) = right_rule(&sequent.right[i]) {
            matches.push(RuleMatch { rule, side: Side::Right, index: i });
        }
        proof {
            assert(s.right[i as int] == formula_model(sequent.right@[i as int]));
            assert(matches@ =~= lefts + side_matches(s.right, (i + 1) as nat, Side::Right));
        }
        i += 1;
    }
    matches
}

/// Maps a left-side formula to its corresponding left introduction rule, if any.
fn left_rule(formula: &Formula) -> (r: Option<Rule>)
    ensures
        r == left_rule_of(formula@),
{
    match formula {
        Formula::False => Some(Rule::BottomL),
        Formula::And(_) => Some(Rule::AndL),
        Formula::Or(_) => Some(Rule::OrL),
        Formula::Implies(_, _) => Some(Rule::ImpliesL),
        Formula::Not(_) => Some(Rule::NotL),
        Formula::ForAll(_, _) => Some(Rule::ForAllL),
        Formula::Exists(_, _) => Some(Rule::ExistsL),
        _ => None,
    }
}

/// Maps a right-side formula to its corresponding right introduction rule, if any.
fn right_rule(formula: &Formula) -> (r: Option<Rule>)
    ensures
        r == right_rule_of(formula@),
{
    match formula {
        Formula::True => Some(Rule::TopR),
        Formula::And(_) => Some(Rule::AndR),
        Formula::Or(_) => Some(Rule::OrR),
        Formula::Implies(_, _) => Some(Rule::ImpliesR),
        Formula::Not(_) => Some(Rule::NotR),
        Formula::ForAll(_, _) => Some(Rule::ForAllR),
        Formula::Exists(_, _) => Some(Rule::ExistsR),
        _ => None,
    }
}

} // verus!
