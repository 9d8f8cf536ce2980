//! Scheduling policy for choosing which matched rules to try next.
//!
//! Reusable quantifiers prefer currently visible branch terms, then a bounded
//! fresh fallback. Exhausting that bounded exploration leaves the branch open
//! rather than refuted.

use vstd::prelude::*;

use crate::ast::formula::Formula;
use crate::ast::model::{formula_model, formulas_model, group_model, terms_model, SFormula, SSequent, STerm};
use crate::ast::render::show_formula;
use crate::ast::term::{Symbol, Term};
use crate::prover::quantifier::fresh::{fresh_branch_name, fresh_branch_term_name};
use crate::prover::quantifier::instantiate::constant_term;
use crate::prover::quantifier::terms::{visible_terms, visible_terms_in_sequent};
use crate::prover::rules::kinds::{Rule, RuleMatch, Side};
use crate::prover::rules::matcher::{applicable_rules, find_applicable_rules, lemma_applicable_rules_hold, match_holds};
use crate::prover::search::branch_state::{recorded, usage_of, BranchState, QuantifierUsage, SUsage};
use crate::prover::sequent::Sequent;
use crate::text::{dec, push_str, usize_to_decimal};

verus! {

broadcast use group_model;

/// A scheduled proof rule ready for application during backward search.
///
/// `Standard` rules apply directly to the sequent. `ForAllL` and `ExistsR`
/// carry the term chosen to instantiate the quantified variable, the key of
/// the quantified occurrence, and whether the term is a fresh fallback rather
/// than a term already visible on the branch.
#[derive(Debug)]
pub enum ScheduledRule {
    Standard(RuleMatch),
    ForAllL { rule_match: RuleMatch, term: Term, key: String, fresh_fallback: bool },
    ExistsR { rule_match: RuleMatch, term: Term, key: String, fresh_fallback: bool },
}

/// Outcome of trying to schedule the next proof-search step.
#[derive(Debug)]
pub enum ScheduleResult {
    Rules(Vec<ScheduledRule>),
    QuantifierExhausted,
    NoRules,
}

/// The model of a scheduled rule.
pub enum SScheduled {
    Standard(RuleMatch),
    ForAllL(RuleMatch, STerm, Seq<char>, bool),
    ExistsR(RuleMatch, STerm, Seq<char>, bool),
}

/// The model of a scheduling outcome.
pub enum SSchedule {
    Rules(Seq<SScheduled>),
    QuantifierExhausted,
    NoRules,
}

impl View for ScheduledRule {
    type V = SScheduled;

    open spec fn view(&self) -> SScheduled {
        match self {
            ScheduledRule::Standard(m) => SScheduled::Standard(*m),
            ScheduledRule::ForAllL { rule_match, term, key, fresh_fallback } => SScheduled::ForAllL(
                *rule_match,
                term@,
                key@,
                *fresh_fallback,
            ),
            ScheduledRule::ExistsR { rule_match, term, key, fresh_fallback } => SScheduled::ExistsR(
                *rule_match,
                term@,
                key@,
                *fresh_fallback,
            ),
        }
    }
}

/// The models of a sequence of scheduled rules.
pub open spec fn scheduled_model(rs: Seq<ScheduledRule>) -> Seq<SScheduled> {
    Seq::new(rs.len(), |i: int| rs[i]@)
}

impl View for ScheduleResult {
    type V = SSchedule;

    open spec fn view(&self) -> SSchedule {
        match self {
            ScheduleResult::Rules(rs) => SSchedule::Rules(scheduled_model(rs@)),
            ScheduleResult::QuantifierExhausted => SSchedule::QuantifierExhausted,
            ScheduleResult::NoRules => SSchedule::NoRules,
        }
    }
}

/// How a rule is treated by the schedulers.
#[derive(Debug, Clone, Copy, PartialEq, Eq, Structural)]
pub enum RuleClass {
    /// `Id`, `⊤R`, `⊥L`: close the branch.
    Closing,
    /// `∧L`, `∨R`, `→R`, `¬L`, `¬R`: one premise, no choice.
    SinglePremise,
    /// `∧R`, `∨L`, `→L`: two premises.
    Branching,
    /// `∀R`, `∃L`: one premise with a fresh eigenconstant.
    Eigenvariable,
    /// `∀L`, `∃R`: the quantified formula stays and needs a chosen term.
    Reusable,
}

/// The class of a rule.
pub open spec fn class_of(rule: Rule) -> RuleClass {
    match rule {
        Rule::Id | Rule::TopR | Rule::BottomL => RuleClass::Closing,
        Rule::AndL | Rule::OrR | Rule::ImpliesR | Rule::NotL | Rule::NotR => RuleClass::SinglePremise,
        Rule::AndR | Rule::OrL | Rule::ImpliesL => RuleClass::Branching,
        Rule::ForAllR | Rule::ExistsL => RuleClass::Eigenvariable,
        Rule::ForAllL | Rule::ExistsR => RuleClass::Reusable,
    }
}

/// The class of a rule.
pub fn rule_class(rule: Rule) -> (r: RuleClass)
    ensures
        r == class_of(rule),
{
    match rule {
        Rule::Id | Rule::TopR | Rule::BottomL => RuleClass::Closing,
        Rule::AndL | Rule::OrR | Rule::ImpliesR | Rule::NotL | Rule::NotR => RuleClass::SinglePremise,
        Rule::AndR | Rule::OrL | Rule::ImpliesL => RuleClass::Branching,
        Rule::ForAllR | Rule::ExistsL => RuleClass::Eigenvariable,
        Rule::ForAllL | Rule::ExistsR => RuleClass::Reusable,
    }
}

/// The first `n` matches whose rule is of class `a` or `b`, as standard
/// applications, in order.
pub open spec fn standard_of(ms: Seq<RuleMatch>, a: RuleClass, b: RuleClass, n: nat) -> Seq<SScheduled>
    decreases n,
{
    if n == 0 || n > ms.len() {
        Seq::empty()
    } else {
        standard_of(ms, a, b, (n - 1) as nat) + if class_of(ms[n - 1].rule) == a || class_of(ms[n - 1].rule) == b {
            seq![SScheduled::Standard(ms[n - 1])]
        } else {
            Seq::empty()
        }
    }
}

/// The formulas of one side of a sequent.
pub open spec fn side_of(s: SSequent, side: Side) -> Seq<SFormula> {
    match side {
        Side::Left => s.left,
        Side::Right => s.right,
    }
}

/// The name of a side as it appears in occurrence keys.
pub open spec fn side_name(side: Side) -> Seq<char> {
    match side {
        Side::Left => seq!['L', 'e', 'f', 't'],
        Side::Right => seq!['R', 'i', 'g', 'h', 't'],
    }
}

/// How many of the first `n` formulas render as `text`.
pub open spec fn rendered_count(fs: Seq<SFormula>, text: Seq<char>, n: nat) -> nat
    decreases n,
{
    if n == 0 || n > fs.len() {
        0
    } else {
        rendered_count(fs, text, (n - 1) as nat) + if show_formula(fs[n - 1]) == text {
            1nat
        } else {
            0nat
        }
    }
}

/// The key of the quantified formula at `index` on `side`:
/// `Side:ordinal:formula`, where the ordinal counts the formulas up to and
/// including `index` that render the same. `None` when there is no
/// quantified formula there.
pub open spec fn occurrence_key(s: SSequent, side: Side, index: int) -> Option<Seq<char>> {
    let fs = side_of(s, side);
    if 0 <= index < fs.len() && (fs[index] is ForAll || fs[index] is Exists) {
        let text = show_formula(fs[index]);
        Some(side_name(side) + seq![':'] + dec(rendered_count(fs, text, (index + 1) as nat)) + seq![':'] + text)
    } else {
        None
    }
}

/// A quantifier instantiation of match `m` with term `t`.
pub open spec fn instance(m: RuleMatch, t: STerm, key: Seq<char>, fresh: bool) -> SScheduled {
    if m.rule == Rule::ForAllL {
        SScheduled::ForAllL(m, t, key, fresh)
    } else {
        SScheduled::ExistsR(m, t, key, fresh)
    }
}

/// The instantiations of `m` with those of the first `n` terms that are not
/// in `used`.
pub open spec fn unused_instances(
    m: RuleMatch,
    key: Seq<char>,
    terms: Seq<STerm>,
    used: Set<STerm>,
    n: nat,
) -> Seq<SScheduled>
    decreases n,
{
    if n == 0 || n > terms.len() {
        Seq::empty()
    } else {
        unused_instances(m, key, terms, used, (n - 1) as nat) + if used.contains(terms[n - 1]) {
            Seq::empty()
        } else {
            seq![instance(m, terms[n - 1], key, false)]
        }
    }
}

/// The instantiations of a reusable match with the visible terms not yet used
/// for its occurrence on this branch.
pub open spec fn visible_instances(s: SSequent, st: Map<Seq<char>, SUsage>, m: RuleMatch) -> Seq<SScheduled> {
    if class_of(m.rule) != RuleClass::Reusable {
        Seq::empty()
    } else {
        match occurrence_key(s, m.side, m.index as int) {
            Some(key) => unused_instances(
                m,
                key,
                visible_terms(s),
                usage_of(st, key).used,
                visible_terms(s).len(),
            ),
            None => Seq::empty(),
        }
    }
}

/// The fresh fallback instantiation of a reusable match, while its
/// occurrence has fresh-term budget left.
pub open spec fn fresh_instance(s: SSequent, st: Map<Seq<char>, SUsage>, m: RuleMatch, budget: nat) -> Seq<SScheduled> {
    if class_of(m.rule) != RuleClass::Reusable {
        Seq::empty()
    } else {
        match occurrence_key(s, m.side, m.index as int) {
            Some(key) => if usage_of(st, key).fresh < budget {
                seq![instance(m, constant_term(fresh_branch_name(s)), key, true)]
            } else {
                Seq::empty()
            },
            None => Seq::empty(),
        }
    }
}

/// The instantiations of a reusable match: the unused visible terms, else one
/// fresh fallback term within budget.
pub open spec fn quantifier_instances(
    s: SSequent,
    st: Map<Seq<char>, SUsage>,
    m: RuleMatch,
    budget: nat,
) -> Seq<SScheduled> {
    if visible_instances(s, st, m).len() > 0 {
        visible_instances(s, st, m)
    } else {
        fresh_instance(s, st, m, budget)
    }
}

/// The predicate of a term not in `used`.
pub open spec fn unused_by(used: Set<STerm>) -> spec_fn(STerm) -> bool {
    |t: STerm| !used.contains(t)
}

/// The instantiations of `m` with each of the terms `ts`, in order, none of
/// them fresh.
pub open spec fn term_instances(m: RuleMatch, key: Seq<char>, ts: Seq<STerm>) -> Seq<SScheduled> {
    ts.map_values(|t: STerm| instance(m, t, key, false))
}

proof fn lemma_unused_instances(m: RuleMatch, key: Seq<char>, terms: Seq<STerm>, used: Set<STerm>, n: nat)
    requires
        n <= terms.len(),
    ensures
        unused_instances(m, key, terms, used, n) == term_instances(m, key, terms.take(n as int).filter(unused_by(used))),
    decreases n,
{
    reveal(Seq::filter);
    if n == 0 {
        assert(terms.take(0) =~= Seq::<STerm>::empty());
        assert(term_instances(m, key, terms.take(0).filter(unused_by(used))) =~= Seq::<SScheduled>::empty());
    } else {
        let k = (n - 1) as nat;
        lemma_unused_instances(m, key, terms, used, k);
        let t = terms.take(n as int);
        assert(t.drop_last() =~= terms.take(k as int));
        assert(t.last() == terms[k as int]);
        let before = terms.take(k as int).filter(unused_by(used));
        if used.contains(terms[k as int]) {
            assert(t.filter(unused_by(used)) == before);
            assert(unused_instances(m, key, terms, used, n) =~= unused_instances(m, key, terms, used, k));
        } else {
            assert(t.filter(unused_by(used)) == before.push(terms[k as int]));
            assert(term_instances(m, key, before.push(terms[k as int])) =~= term_instances(m, key, before).push(
                instance(m, terms[k as int], key, false),
            ));
        }
    }
}

/// The instantiation policy for a reusable quantifier: a match that is not
/// `∀L` or `∃R`, or has no quantified formula at its place, gets none; else
/// each visible term not yet used for its occurrence on the branch gives one,
/// in the order the terms are visible and none of them fresh; when there is
/// no such term, one fresh constant is scheduled while the occurrence has
/// fresh-term budget left, and nothing after that.
pub proof fn lemma_quantifier_instantiation_policy(
    s: SSequent,
    st: Map<Seq<char>, SUsage>,
    m: RuleMatch,
    budget: nat,
)
    ensures
        class_of(m.rule) != RuleClass::Reusable || occurrence_key(s, m.side, m.index as int) is None
            ==> quantifier_instances(s, st, m, budget) == Seq::<SScheduled>::empty(),
        class_of(m.rule) == RuleClass::Reusable ==> (occurrence_key(s, m.side, m.index as int) matches Some(key) ==> ({
            let unused = visible_terms(s).filter(unused_by(usage_of(st, key).used));
            quantifier_instances(s, st, m, budget) == if unused.len() > 0 {
                term_instances(m, key, unused)
            } else if usage_of(st, key).fresh < budget {
                seq![instance(m, constant_term(fresh_branch_name(s)), key, true)]
            } else {
                Seq::<SScheduled>::empty()
            }
        })),
{
    if class_of(m.rule) == RuleClass::Reusable {
        if let Some(key) = occurrence_key(s, m.side, m.index as int) {
            let vs = visible_terms(s);
            lemma_unused_instances(m, key, vs, usage_of(st, key).used, vs.len());
            assert(vs.take(vs.len() as int) =~= vs);
        }
    }
}

/// Which instantiations to collect for each match.
#[derive(Debug, Clone, Copy, PartialEq, Eq, Structural)]
pub enum InstancePolicy {
    /// Unused visible terms, else a fresh fallback.
    VisibleThenFresh,
    /// Unused visible terms only.
    VisibleOnly,
    /// A fresh fallback only.
    FreshOnly,
}

/// The instantiations that `policy` yields for one match.
pub open spec fn policy_instances(
    s: SSequent,
    st: Map<Seq<char>, SUsage>,
    m: RuleMatch,
    budget: nat,
    policy: InstancePolicy,
) -> Seq<SScheduled> {
    match policy {
        InstancePolicy::VisibleThenFresh => quantifier_instances(s, st, m, budget),
        InstancePolicy::VisibleOnly => visible_instances(s, st, m),
        InstancePolicy::FreshOnly => fresh_instance(s, st, m, budget),
    }
}

/// The instantiations of the first `n` matches, in match order.
pub open spec fn instances_of(
    s: SSequent,
    st: Map<Seq<char>, SUsage>,
    ms: Seq<RuleMatch>,
    budget: nat,
    policy: InstancePolicy,
    n: nat,
) -> Seq<SScheduled>
    decreases n,
{
    if n == 0 || n > ms.len() {
        Seq::empty()
    } else {
        instances_of(s, st, ms, budget, policy, (n - 1) as nat) + policy_instances(s, st, ms[n - 1], budget, policy)
    }
}

/// Whether some match is of a reusable quantifier rule.
pub open spec fn has_reusable(ms: Seq<RuleMatch>) -> bool {
    exists|i: int| 0 <= i < ms.len() && class_of(#[trigger] ms[i].rule) == RuleClass::Reusable
}

/// The outcome once every earlier group came out empty: `QuantifierExhausted`
/// when a reusable quantifier is present, else `NoRules`.
pub open spec fn exhausted(ms: Seq<RuleMatch>) -> SSchedule {
    if has_reusable(ms) {
        SSchedule::QuantifierExhausted
    } else {
        SSchedule::NoRules
    }
}

/// The first non-empty group of rules, else `rest`.
pub open spec fn first_group(group: Seq<SScheduled>, rest: SSchedule) -> SSchedule {
    if group.len() > 0 {
        SSchedule::Rules(group)
    } else {
        rest
    }
}

/// The baseline schedule: closing rules; then single-premise and
/// eigenvariable rules; then branching rules; then, per reusable match,
/// unused visible terms or one fresh fallback. Only the first non-empty
/// group is returned.
pub open spec fn naive_schedule(s: SSequent, st: Map<Seq<char>, SUsage>, budget: nat) -> SSchedule {
    let ms = applicable_rules(s);
    let n = ms.len();
    first_group(
        standard_of(ms, RuleClass::Closing, RuleClass::Closing, n),
        first_group(
            standard_of(ms, RuleClass::SinglePremise, RuleClass::Eigenvariable, n),
            first_group(
                standard_of(ms, RuleClass::Branching, RuleClass::Branching, n),
                first_group(instances_of(s, st, ms, budget, InstancePolicy::VisibleThenFresh, n), exhausted(ms)),
            ),
        ),
    )
}

/// The predicate of a match whose rule is of class `a` or `b`.
pub open spec fn in_classes(a: RuleClass, b: RuleClass) -> spec_fn(RuleMatch) -> bool {
    |m: RuleMatch| class_of(m.rule) == a || class_of(m.rule) == b
}

/// Standard applications of the matches, in order.
pub open spec fn as_standard(ms: Seq<RuleMatch>) -> Seq<SScheduled> {
    ms.map_values(|m: RuleMatch| SScheduled::Standard(m))
}

proof fn lemma_standard_of_filter(ms: Seq<RuleMatch>, a: RuleClass, b: RuleClass, n: nat)
    requires
        n <= ms.len(),
    ensures
        standard_of(ms, a, b, n) == as_standard(ms.take(n as int).filter(in_classes(a, b))),
    decreases n,
{
    reveal(Seq::filter);
    if n == 0 {
        assert(ms.take(0) =~= Seq::<RuleMatch>::empty());
        assert(as_standard(ms.take(0).filter(in_classes(a, b))) =~= Seq::<SScheduled>::empty());
    } else {
        let k = (n - 1) as nat;
        lemma_standard_of_filter(ms, a, b, k);
        let t = ms.take(n as int);
        assert(t.drop_last() =~= ms.take(k as int));
        assert(t.last() == ms[k as int]);
        let before = ms.take(k as int).filter(in_classes(a, b));
        if in_classes(a, b)(ms[k as int]) {
            assert(t.filter(in_classes(a, b)) == before.push(ms[k as int]));
            assert(as_standard(before.push(ms[k as int])) =~= as_standard(before).push(SScheduled::Standard(ms[k as int])));
        } else {
            assert(t.filter(in_classes(a, b)) == before);
        }
    }
}

/// The baseline scheduling law: of the applicable matches, in match order,
/// the first non-empty group is scheduled as standard applications: the
/// closing rules; else the single-premise and eigenvariable rules; else the
/// branching rules; else the quantifier instantiations of all matches, when
/// there are any; else `QuantifierExhausted` when some match is a reusable
/// quantifier, else `NoRules`. When the first three groups are empty, every
/// match is a reusable quantifier.
pub proof fn lemma_naive_schedule_law(s: SSequent, st: Map<Seq<char>, SUsage>, budget: nat)
    ensures
        ({
            let ms = applicable_rules(s);
            naive_schedule(s, st, budget) == first_group(
                as_standard(ms.filter(in_classes(RuleClass::Closing, RuleClass::Closing))),
                first_group(
                    as_standard(ms.filter(in_classes(RuleClass::SinglePremise, RuleClass::Eigenvariable))),
                    first_group(
                        as_standard(ms.filter(in_classes(RuleClass::Branching, RuleClass::Branching))),
                        first_group(
                            instances_of(s, st, ms, budget, InstancePolicy::VisibleThenFresh, ms.len()),
                            exhausted(ms),
                        ),
                    ),
                ),
            )
        }),
        ({
            let ms = applicable_rules(s);
            ms.filter(in_classes(RuleClass::Closing, RuleClass::Closing)).len() == 0 && ms.filter(
                in_classes(RuleClass::SinglePremise, RuleClass::Eigenvariable),
            ).len() == 0 && ms.filter(in_classes(RuleClass::Branching, RuleClass::Branching)).len() == 0
                ==> forall|i: int| 0 <= i < ms.len() ==> class_of(#[trigger] ms[i].rule) == RuleClass::Reusable
        }),
{
    broadcast use vstd::seq_lib::group_filter_ensures;

    let ms = applicable_rules(s);
    assert(ms.take(ms.len() as int) =~= ms);
    lemma_standard_of_filter(ms, RuleClass::Closing, RuleClass::Closing, ms.len());
    lemma_standard_of_filter(ms, RuleClass::SinglePremise, RuleClass::Eigenvariable, ms.len());
    lemma_standard_of_filter(ms, RuleClass::Branching, RuleClass::Branching, ms.len());
    assert forall|i: int| 0 <= i < ms.len() && ms.filter(in_classes(RuleClass::Closing, RuleClass::Closing)).len() == 0
        && ms.filter(in_classes(RuleClass::SinglePremise, RuleClass::Eigenvariable)).len() == 0 && ms.filter(
        in_classes(RuleClass::Branching, RuleClass::Branching),
    ).len() == 0 implies class_of(#[trigger] ms[i].rule) == RuleClass::Reusable by {
        if in_classes(RuleClass::Closing, RuleClass::Closing)(ms[i]) {
            assert(ms.filter(in_classes(RuleClass::Closing, RuleClass::Closing)).contains(ms[i]));
        }
        if in_classes(RuleClass::SinglePremise, RuleClass::Eigenvariable)(ms[i]) {
            assert(ms.filter(in_classes(RuleClass::SinglePremise, RuleClass::Eigenvariable)).contains(ms[i]));
        }
        if in_classes(RuleClass::Branching, RuleClass::Branching)(ms[i]) {
            assert(ms.filter(in_classes(RuleClass::Branching, RuleClass::Branching)).contains(ms[i]));
        }
    }
}

/// The six-class LK′ priority schedule: closing rules; single-premise
/// propositional rules; branching rules; eigenvariable rules; reusable
/// quantifiers with unused visible terms; reusable quantifiers with a fresh
/// fallback. Only the first non-empty class is returned.
pub open spec fn lk_schedule(s: SSequent, st: Map<Seq<char>, SUsage>, budget: nat) -> SSchedule {
    let ms = applicable_rules(s);
    let n = ms.len();
    first_group(
        standard_of(ms, RuleClass::Closing, RuleClass::Closing, n),
        first_group(
            standard_of(ms, RuleClass::SinglePremise, RuleClass::SinglePremise, n),
            first_group(
                standard_of(ms, RuleClass::Branching, RuleClass::Branching, n),
                first_group(
                    standard_of(ms, RuleClass::Eigenvariable, RuleClass::Eigenvariable, n),
                    first_group(
                        instances_of(s, st, ms, budget, InstancePolicy::VisibleOnly, n),
                        first_group(instances_of(s, st, ms, budget, InstancePolicy::FreshOnly, n), exhausted(ms)),
                    ),
                ),
            ),
        ),
    )
}

/// A quantifier instantiation fits: it is of the reusable rule it names, for
/// the occurrence of the matched formula; a visible term is one of the
/// sequent's terms not yet used for that occurrence on this branch; a fresh
/// fallback is the branch's fresh constant, scheduled only while the
/// occurrence has fresh-term budget left.
pub open spec fn instance_fits(
    s: SSequent,
    st: Map<Seq<char>, SUsage>,
    budget: nat,
    m: RuleMatch,
    t: STerm,
    key: Seq<char>,
    fresh: bool,
) -> bool {
    &&& match_holds(s, m)
    &&& occurrence_key(s, m.side, m.index as int) == Some(key)
    &&& fresh ==> usage_of(st, key).fresh < budget && t == constant_term(fresh_branch_name(s))
    &&& !fresh ==> visible_terms(s).contains(t) && !usage_of(st, key).used.contains(t)
}

/// A scheduled rule fits the sequent and branch state it was scheduled for:
/// its match holds, and a quantifier instantiation fits its occurrence.
pub open spec fn fits(s: SSequent, st: Map<Seq<char>, SUsage>, budget: nat, r: SScheduled) -> bool {
    match r {
        SScheduled::Standard(m) => match_holds(s, m),
        SScheduled::ForAllL(m, t, key, fresh) => m.rule == Rule::ForAllL && instance_fits(s, st, budget, m, t, key, fresh),
        SScheduled::ExistsR(m, t, key, fresh) => m.rule == Rule::ExistsR && instance_fits(s, st, budget, m, t, key, fresh),
    }
}

/// The schedule of a sequent, by either policy.
pub open spec fn schedule(s: SSequent, st: Map<Seq<char>, SUsage>, budget: nat, lk_priority: bool) -> SSchedule {
    if lk_priority {
        lk_schedule(s, st, budget)
    } else {
        naive_schedule(s, st, budget)
    }
}

proof fn lemma_standard_fits(
    s: SSequent,
    st: Map<Seq<char>, SUsage>,
    budget: nat,
    ms: Seq<RuleMatch>,
    a: RuleClass,
    b: RuleClass,
    n: nat,
)
    requires
        forall|j: int| 0 <= j < ms.len() ==> match_holds(s, #[trigger] ms[j]),
    ensures
        forall|k: int| 0 <= k < standard_of(ms, a, b, n).len() ==> fits(s, st, budget, #[trigger] standard_of(ms, a, b, n)[k]),
    decreases n,
{
    if n > 0 && n <= ms.len() {
        lemma_standard_fits(s, st, budget, ms, a, b, (n - 1) as nat);
        let prev = standard_of(ms, a, b, (n - 1) as nat);
        assert forall|k: int| 0 <= k < standard_of(ms, a, b, n).len() implies fits(s, st, budget, #[trigger] standard_of(ms, a, b, n)[k]) by {
            if k < prev.len() {
                assert(standard_of(ms, a, b, n)[k] == prev[k]);
            } else {
                assert(match_holds(s, ms[n - 1]));
            }
        }
    }
}

proof fn lemma_unused_fits(
    s: SSequent,
    st: Map<Seq<char>, SUsage>,
    budget: nat,
    m: RuleMatch,
    key: Seq<char>,
    terms: Seq<STerm>,
    used: Set<STerm>,
    n: nat,
)
    requires
        match_holds(s, m),
        class_of(m.rule) == RuleClass::Reusable,
        occurrence_key(s, m.side, m.index as int) == Some(key),
        terms == visible_terms(s),
        used == usage_of(st, key).used,
    ensures
        forall|k: int| 0 <= k < unused_instances(m, key, terms, used, n).len() ==> fits(s, st, budget, #[trigger] unused_instances(m, key, terms, used, n)[k]),
    decreases n,
{
    if n > 0 && n <= terms.len() {
        lemma_unused_fits(s, st, budget, m, key, terms, used, (n - 1) as nat);
        let prev = unused_instances(m, key, terms, used, (n - 1) as nat);
        assert forall|k: int| 0 <= k < unused_instances(m, key, terms, used, n).len() implies fits(s, st, budget, #[trigger] unused_instances(m, key, terms, used, n)[k]) by {
            if k < prev.len() {
                assert(unused_instances(m, key, terms, used, n)[k] == prev[k]);
            } else {
                assert(terms.contains(terms[n - 1]));
            }
        }
    }
}

proof fn lemma_instances_fits(
    s: SSequent,
    st: Map<Seq<char>, SUsage>,
    ms: Seq<RuleMatch>,
    budget: nat,
    policy: InstancePolicy,
    n: nat,
)
    requires
        forall|j: int| 0 <= j < ms.len() ==> match_holds(s, #[trigger] ms[j]),
    ensures
        forall|k: int| 0 <= k < instances_of(s, st, ms, budget, policy, n).len() ==> fits(s, st, budget, #[trigger] instances_of(s, st, ms, budget, policy, n)[k]),
    decreases n,
{
    if n > 0 && n <= ms.len() {
        lemma_instances_fits(s, st, ms, budget, policy, (n - 1) as nat);
        let prev = instances_of(s, st, ms, budget, policy, (n - 1) as nat);
        let m = ms[n - 1];
        let last = policy_instances(s, st, m, budget, policy);
        assert(match_holds(s, m));
        if class_of(m.rule) == RuleClass::Reusable {
            if let Some(key) = occurrence_key(s, m.side, m.index as int) {
                lemma_unused_fits(s, st, budget, m, key, visible_terms(s), usage_of(st, key).used, visible_terms(s).len());
            }
        }
        assert forall|k: int| 0 <= k < instances_of(s, st, ms, budget, policy, n).len() implies fits(s, st, budget, #[trigger] instances_of(s, st, ms, budget, policy, n)[k]) by {
            if k < prev.len() {
                assert(instances_of(s, st, ms, budget, policy, n)[k] == prev[k]);
            } else {
                assert(instances_of(s, st, ms, budget, policy, n)[k] == last[k - prev.len()]);
            }
        }
    }
}

/// Every rule either schedule proposes fits the sequent and branch state.
pub proof fn lemma_schedule_fits(s: SSequent, st: Map<Seq<char>, SUsage>, budget: nat, lk_priority: bool)
    requires
        s.left.len() <= usize::MAX,
        s.right.len() <= usize::MAX,
    ensures
        schedule(s, st, budget, lk_priority) is Rules ==> forall|k: int|
            0 <= k < schedule(s, st, budget, lk_priority)->Rules_0.len() ==> fits(
                s,
                st,
                budget,
                #[trigger] schedule(s, st, budget, lk_priority)->Rules_0[k],
            ),
{
    let ms = applicable_rules(s);
    let n = ms.len();
    lemma_applicable_rules_hold(s);
    assert forall|j: int| 0 <= j < ms.len() implies match_holds(s, #[trigger] ms[j]) by {}
    lemma_standard_fits(s, st, budget, ms, RuleClass::Closing, RuleClass::Closing, n);
    lemma_standard_fits(s, st, budget, ms, RuleClass::SinglePremise, RuleClass::Eigenvariable, n);
    lemma_standard_fits(s, st, budget, ms, RuleClass::SinglePremise, RuleClass::SinglePremise, n);
    lemma_standard_fits(s, st, budget, ms, RuleClass::Branching, RuleClass::Branching, n);
    lemma_standard_fits(s, st, budget, ms, RuleClass::Eigenvariable, RuleClass::Eigenvariable, n);
    lemma_instances_fits(s, st, ms, budget, InstancePolicy::VisibleThenFresh, n);
    lemma_instances_fits(s, st, ms, budget, InstancePolicy::VisibleOnly, n);
    lemma_instances_fits(s, st, ms, budget, InstancePolicy::FreshOnly, n);
}

/// Once a term has been tried for a quantified occurrence on a branch, the
/// scheduler does not propose that term for the occurrence again on the
/// branch; and once an occurrence has used its fresh-term budget, no fresh
/// fallback is proposed for it. Here `st` is the branch state before the
/// term `t` was recorded for `key`, and `s` any sequent searched after it.
pub proof fn lemma_no_repeated_instances(
    s: SSequent,
    st: Map<Seq<char>, SUsage>,
    key: Seq<char>,
    t: STerm,
    fresh: bool,
    budget: nat,
    lk_priority: bool,
)
    requires
        s.left.len() <= usize::MAX,
        s.right.len() <= usize::MAX,
    ensures
        ({
            let st2 = st.insert(key, recorded(usage_of(st, key), t, fresh));
            schedule(s, st2, budget, lk_priority) matches SSchedule::Rules(rs) ==> forall|k: int|
                0 <= k < rs.len() ==> match #[trigger] rs[k] {
                    SScheduled::Standard(_) => true,
                    SScheduled::ForAllL(_, t2, key2, fresh2) => key2 == key ==> (!fresh2 ==> t2 != t) && (fresh2
                        ==> usage_of(st2, key).fresh < budget),
                    SScheduled::ExistsR(_, t2, key2, fresh2) => key2 == key ==> (!fresh2 ==> t2 != t) && (fresh2
                        ==> usage_of(st2, key).fresh < budget),
                }
        }),
{
    let st2 = st.insert(key, recorded(usage_of(st, key), t, fresh));
    lemma_schedule_fits(s, st2, budget, lk_priority);
    assert(usage_of(st2, key).used.contains(t));
}

/// The rank of a rule class in the LK′ priority order, from 1 (closing) to
/// 4 (eigenvariable); reusable quantifiers rank 5 or 6 by their term.
pub open spec fn class_rank(c: RuleClass) -> nat {
    match c {
        RuleClass::Closing => 1,
        RuleClass::SinglePremise => 2,
        RuleClass::Branching => 3,
        RuleClass::Eigenvariable => 4,
        RuleClass::Reusable => 5,
    }
}

/// The LK′ priority class of a scheduled rule: the rank of its rule's class,
/// 5 for an instantiation with a visible term, 6 for a fresh fallback.
pub open spec fn priority_class(r: SScheduled) -> nat {
    match r {
        SScheduled::Standard(m) => class_rank(class_of(m.rule)),
        SScheduled::ForAllL(_, _, _, fresh) => if fresh { 6 } else { 5 },
        SScheduled::ExistsR(_, _, _, fresh) => if fresh { 6 } else { 5 },
    }
}

proof fn lemma_standard_class(ms: Seq<RuleMatch>, c: RuleClass, n: nat)
    requires
        n <= ms.len(),
    ensures
        forall|k: int| 0 <= k < standard_of(ms, c, c, n).len() ==> (#[trigger] standard_of(ms, c, c, n)[k] matches SScheduled::Standard(m)
            && class_of(m.rule) == c),
        standard_of(ms, c, c, n).len() == 0 ==> forall|j: int| 0 <= j < n && j < ms.len() ==> class_of(#[trigger] ms[j].rule) != c,
    decreases n,
{
    if n > 0 && n <= ms.len() {
        lemma_standard_class(ms, c, (n - 1) as nat);
        let prev = standard_of(ms, c, c, (n - 1) as nat);
        assert forall|k: int| 0 <= k < standard_of(ms, c, c, n).len() implies (#[trigger] standard_of(ms, c, c, n)[k] matches SScheduled::Standard(m)
            && class_of(m.rule) == c) by {
            if k < prev.len() {
                assert(standard_of(ms, c, c, n)[k] == prev[k]);
            }
        }
    }
}

proof fn lemma_unused_visible(m: RuleMatch, key: Seq<char>, terms: Seq<STerm>, used: Set<STerm>, n: nat)
    ensures
        forall|k: int| 0 <= k < unused_instances(m, key, terms, used, n).len() ==> priority_class(
            #[trigger] unused_instances(m, key, terms, used, n)[k],
        ) == 5,
    decreases n,
{
    if n > 0 && n <= terms.len() {
        lemma_unused_visible(m, key, terms, used, (n - 1) as nat);
        let prev = unused_instances(m, key, terms, used, (n - 1) as nat);
        assert forall|k: int| 0 <= k < unused_instances(m, key, terms, used, n).len() implies priority_class(
            #[trigger] unused_instances(m, key, terms, used, n)[k],
        ) == 5 by {
            if k < prev.len() {
                assert(unused_instances(m, key, terms, used, n)[k] == prev[k]);
            }
        }
    }
}

proof fn lemma_instances_class(
    s: SSequent,
    st: Map<Seq<char>, SUsage>,
    ms: Seq<RuleMatch>,
    budget: nat,
    policy: InstancePolicy,
    n: nat,
)
    requires
        policy != InstancePolicy::VisibleThenFresh,
    ensures
        forall|k: int| 0 <= k < instances_of(s, st, ms, budget, policy, n).len() ==> priority_class(
            #[trigger] instances_of(s, st, ms, budget, policy, n)[k],
        ) == if policy == InstancePolicy::VisibleOnly { 5nat } else { 6nat },
    decreases n,
{
    if n > 0 && n <= ms.len() {
        lemma_instances_class(s, st, ms, budget, policy, (n - 1) as nat);
        let prev = instances_of(s, st, ms, budget, policy, (n - 1) as nat);
        let m = ms[n - 1];
        let last = policy_instances(s, st, m, budget, policy);
        if class_of(m.rule) == RuleClass::Reusable {
            if let Some(key) = occurrence_key(s, m.side, m.index as int) {
                lemma_unused_visible(m, key, visible_terms(s), usage_of(st, key).used, visible_terms(s).len());
            }
        }
        assert forall|k: int| 0 <= k < instances_of(s, st, ms, budget, policy, n).len() implies priority_class(
            #[trigger] instances_of(s, st, ms, budget, policy, n)[k],
        ) == if policy == InstancePolicy::VisibleOnly { 5nat } else { 6nat } by {
            if k < prev.len() {
                assert(instances_of(s, st, ms, budget, policy, n)[k] == prev[k]);
            } else {
                assert(instances_of(s, st, ms, budget, policy, n)[k] == last[k - prev.len()]);
            }
        }
    }
}

/// The LK′ priority schedule proposes the rules of one class only: the
/// first of the six classes that has any. Every applicable rule that is not
/// a reusable quantifier ranks at or after that class; a fresh fallback is
/// proposed only when no reusable quantifier has an unused visible term; and
/// when nothing is proposed, no rule of the first four classes applies.
pub proof fn lemma_lk_priority_order(s: SSequent, st: Map<Seq<char>, SUsage>, budget: nat)
    ensures
        lk_schedule(s, st, budget) matches SSchedule::Rules(rs) ==> rs.len() > 0 && (forall|k: int|
            0 <= k < rs.len() ==> priority_class(#[trigger] rs[k]) == priority_class(rs[0])),
        lk_schedule(s, st, budget) matches SSchedule::Rules(rs) ==> (forall|j: int|
            0 <= j < applicable_rules(s).len() && class_of(#[trigger] applicable_rules(s)[j].rule) != RuleClass::Reusable
                ==> class_rank(class_of(applicable_rules(s)[j].rule)) >= priority_class(rs[0])),
        lk_schedule(s, st, budget) matches SSchedule::Rules(rs) && priority_class(rs[0]) == 6 ==> instances_of(
            s,
            st,
            applicable_rules(s),
            budget,
            InstancePolicy::VisibleOnly,
            applicable_rules(s).len(),
        ).len() == 0,
        !(lk_schedule(s, st, budget) is Rules) ==> (forall|j: int|
            0 <= j < applicable_rules(s).len() ==> class_of(#[trigger] applicable_rules(s)[j].rule) == RuleClass::Reusable),
{
    let ms = applicable_rules(s);
    let n = ms.len();
    lemma_standard_class(ms, RuleClass::Closing, n);
    lemma_standard_class(ms, RuleClass::SinglePremise, n);
    lemma_standard_class(ms, RuleClass::Branching, n);
    lemma_standard_class(ms, RuleClass::Eigenvariable, n);
    lemma_instances_class(s, st, ms, budget, InstancePolicy::VisibleOnly, n);
    lemma_instances_class(s, st, ms, budget, InstancePolicy::FreshOnly, n);
}

/// The matches of the given classes, as standard applications.
fn standard_rules(matches: &Vec<RuleMatch>, a: RuleClass, b: RuleClass) -> (r: Vec<ScheduledRule>)
    ensures
        scheduled_model(r@) == standard_of(matches@, a, b, matches.len() as nat),
{
    let mut out: Vec<ScheduledRule> = Vec::new();
    let mut i: usize = 0;
    while i < matches.len()
        invariant
            i <= matches.len(),
            scheduled_model(out@) == standard_of(matches@, a, b, i as nat),
        decreases matches.len() - i,
    {
        let m = matches[i];
        let c = rule_class(m.rule);
        if c == a || c == b {
            let ghost before = out@;
            out.push(ScheduledRule::Standard(m));
            assert(scheduled_model(out@) =~= scheduled_model(before) + seq![SScheduled::Standard(m)]);
        } else {
            assert(standard_of(matches@, a, b, (i + 1) as nat) =~= standard_of(matches@, a, b, i as nat));
        }
        i += 1;
    }
    out
}

/// Whether some match is of a reusable quantifier rule.
fn any_reusable(matches: &Vec<RuleMatch>) -> (r: bool)
    ensures
        r == has_reusable(matches@),
{
    let mut i: usize = 0;
    while i < matches.len()
        invariant
            i <= matches.len(),
            forall|j: int| 0 <= j < i ==> class_of(#[trigger] matches@[j].rule) != RuleClass::Reusable,
        decreases matches.len() - i,
    {
        if rule_class(matches[i].rule) == RuleClass::Reusable {
            return true;
        }
        i += 1;
    }
    false
}

/// The name of a side as it appears in occurrence keys.
fn side_label(side: Side) -> (r: &'static str)
    ensures
        r@ == side_name(side),
{
    match side {
        Side::Left => {
            proof {
                reveal_strlit("Left");
            }
            "Left"
        },
        Side::Right => {
            proof {
                reveal_strlit("Right");
            }
            "Right"
        },
    }
}

/// Constructs a stable identifier for a quantified formula occurrence in a
/// sequent: the side, the ordinal of the formula among the formulas of that
/// side up to and including `index` that render the same, and the formula's
/// rendering, joined by `:`. `None` when the index is out of bounds or the
/// formula there is not quantified.
pub fn quantified_occurrence_key(sequent: &Sequent, side: Side, index: usize) -> (r: Option<String>)
    ensures
        match r {
            Some(k) => occurrence_key(sequent@, side, index as int) == Some(k@),
            None => occurrence_key(sequent@, side, index as int) is None,
        },
{
    let formulas = match side {
        Side::Left => &sequent.left,
        Side::Right => &sequent.right,
    };
    let ghost fs = side_of(sequent@, side);
    assert(formulas_model(formulas@) == fs);
    if index >= formulas.len() {
        return None;
    }
    proof {
        assert(fs[index as int] == formula_model(formulas@[index as int]));
    }
    match &formulas[index] {
        Formula::ForAll(_, _) | Formula::Exists(_, _) => {},
        _ => {
            return None;
        },
    }
    let formula_text = formulas[index].to_string();
    let ghost text = formula_text@;
    let mut ordinal: usize = 0;
    let mut j: usize = 0;
    while j <= index
        invariant
            j <= index + 1,
            index < formulas.len(),
            fs == formulas_model(formulas@),
            text == formula_text@,
            ordinal == rendered_count(fs, text, j as nat),
            ordinal <= j,
        decreases index + 1 - j,
    {
        let candidate = formulas[j].to_string();
        proof {
            assert(fs[j as int] == formula_model(formulas@[j as int]));
        }
        if candidate == formula_text {
            ordinal = ordinal + 1;
        }
        j += 1;
    }
    let mut key = String::new();
    push_str(&mut key, side_label(side));
    key.push(':');
    let digits = usize_to_decimal(ordinal);
    push_str(&mut key, digits.as_str());
    key.push(':');
    push_str(&mut key, formula_text.as_str());
    proof {
        assert(key@ =~= side_name(side) + seq![':'] + dec(ordinal as nat) + seq![':'] + text);
    }
    Some(key)
}

/// The quantifier instantiation of `rule_match` with `term`.
fn make_instance(rule_match: RuleMatch, term: Term, key: String, fresh_fallback: bool) -> (r: ScheduledRule)
    ensures
        r@ == instance(rule_match, term@, key@, fresh_fallback),
{
    if rule_match.rule == Rule::ForAllL {
        ScheduledRule::ForAllL { rule_match, term, key, fresh_fallback }
    } else {
        ScheduledRule::ExistsR { rule_match, term, key, fresh_fallback }
    }
}

/// Appends the instantiations of a reusable match that `policy` yields.
fn push_instances(
    sequent: &Sequent,
    state: &BranchState,
    rule_match: RuleMatch,
    max_fresh_terms_per_quantifier: usize,
    policy: InstancePolicy,
    out: &mut Vec<ScheduledRule>,
)
    requires
        state.wf(),
    ensures
        scheduled_model(final(out)@) == scheduled_model(old(out)@) + policy_instances(
            sequent@,
            state@,
            rule_match,
            max_fresh_terms_per_quantifier as nat,
            policy,
        ),
{
    let ghost s = sequent@;
    let ghost st = state@;
    let ghost start = scheduled_model(out@);
    if rule_class(rule_match.rule) != RuleClass::Reusable {
        assert(scheduled_model(out@) =~= start + Seq::<SScheduled>::empty());
        return;
    }
    let Some(key) = quantified_occurrence_key(sequent, rule_match.side, rule_match.index) else {
        assert(scheduled_model(out@) =~= start + Seq::<SScheduled>::empty());
        return;
    };
    let usage: QuantifierUsage = state.usage(&key);
    let mut added_visible = false;
    if policy != InstancePolicy::FreshOnly {
        let terms = visible_terms_in_sequent(sequent);
        let ghost tm = visible_terms(s);
        let mut i: usize = 0;
        while i < terms.len()
            invariant
                i <= terms.len(),
                terms_model(terms@) == tm,
                usage@ == usage_of(st, key@),
                scheduled_model(out@) == start + unused_instances(rule_match, key@, tm, usage@.used, i as nat),
                added_visible == (unused_instances(rule_match, key@, tm, usage@.used, i as nat).len() > 0),
            decreases terms.len() - i,
        {
            let ghost before = scheduled_model(out@);
            if !usage.contains(&terms[i]) {
                let item = make_instance(rule_match, terms[i].clone(), key.clone(), false);
                out.push(item);
                added_visible = true;
                assert(scheduled_model(out@) =~= before + seq![instance(rule_match, tm[i as int], key@, false)]);
            } else {
                assert(unused_instances(rule_match, key@, tm, usage@.used, (i + 1) as nat) =~= unused_instances(
                    rule_match,
                    key@,
                    tm,
                    usage@.used,
                    i as nat,
                ));
            }
            i += 1;
        }
        assert(visible_instances(s, st, rule_match) == unused_instances(
            rule_match,
            key@,
            tm,
            usage@.used,
            terms.len() as nat,
        ));
    }
    if policy == InstancePolicy::VisibleOnly || (policy == InstancePolicy::VisibleThenFresh && added_visible) {
        return;
    }
    if usage.fresh_terms_used >= max_fresh_terms_per_quantifier {
        assert(scheduled_model(out@) =~= start + Seq::<SScheduled>::empty());
        return;
    }
    let term = Term::Const(Symbol::User(fresh_branch_term_name(sequent)));
    let ghost before = scheduled_model(out@);
    out.push(make_instance(rule_match, term, key, true));
    proof {
        assert(scheduled_model(out@) =~= before + seq![instance(rule_match, constant_term(fresh_branch_name(s)), key@, true)]);
    }
}

/// The instantiations that `policy` yields for every match, in match order.
fn quantifier_rules(
    sequent: &Sequent,
    state: &BranchState,
    matches: &Vec<RuleMatch>,
    max_fresh_terms_per_quantifier: usize,
    policy: InstancePolicy,
) -> (r: Vec<ScheduledRule>)
    requires
        state.wf(),
    ensures
        scheduled_model(r@) == instances_of(
            sequent@,
            state@,
            matches@,
            max_fresh_terms_per_quantifier as nat,
            policy,
            matches.len() as nat,
        ),
{
    let mut out: Vec<ScheduledRule> = Vec::new();
    let mut i: usize = 0;
    while i < matches.len()
        invariant
            i <= matches.len(),
            state.wf(),
            scheduled_model(out@) == instances_of(
                sequent@,
                state@,
                matches@,
                max_fresh_terms_per_quantifier as nat,
                policy,
                i as nat,
            ),
        decreases matches.len() - i,
    {
        push_instances(sequent, state, matches[i], max_fresh_terms_per_quantifier, policy, &mut out);
        i += 1;
    }
    out
}

/// Selects the next batch of proof rules to try for a sequent with the
/// baseline schedule (see [`naive_schedule`]).
///
/// If a reusable quantifier rule is applicable but no further instantiations
/// are allowed by the branch state or fresh-term budget, the result is
/// `QuantifierExhausted` instead of `NoRules`.
pub fn schedule_next_rules(sequent: &Sequent, state: &BranchState, max_fresh_terms_per_quantifier: usize) -> (r:
    ScheduleResult)
    requires
        state.wf(),
    ensures
        r@ == naive_schedule(sequent@, state@, max_fresh_terms_per_quantifier as nat),
{
    let rule_matches = find_applicable_rules(sequent);
    let closing = standard_rules(&rule_matches, RuleClass::Closing, RuleClass::Closing);
    if closing.len() > 0 {
        return ScheduleResult::Rules(closing);
    }
    let simple = standard_rules(&rule_matches, RuleClass::SinglePremise, RuleClass::Eigenvariable);
    if simple.len() > 0 {
        return ScheduleResult::Rules(simple);
    }
    let branching = standard_rules(&rule_matches, RuleClass::Branching, RuleClass::Branching);
    if branching.len() > 0 {
        return ScheduleResult::Rules(branching);
    }
    let quantified = quantifier_rules(
        sequent,
        state,
        &rule_matches,
        max_fresh_terms_per_quantifier,
        InstancePolicy::VisibleThenFresh,
    );
    if quantified.len() > 0 {
        return ScheduleResult::Rules(quantified);
    }
    if any_reusable(&rule_matches) {
        ScheduleResult::QuantifierExhausted
    } else {
        ScheduleResult::NoRules
    }
}

/// Selects the next batch of proof rules to try for a sequent with the
/// six-class LK′ priority schedule (see [`lk_schedule`]).
pub fn schedule_next_rules_lk_priority(
    sequent: &Sequent,
    state: &BranchState,
    max_fresh_terms_per_quantifier: usize,
) -> (r: ScheduleResult)
    requires
        state.wf(),
    ensures
        r@ == lk_schedule(sequent@, state@, max_fresh_terms_per_quantifier as nat),
{
    let rule_matches = find_applicable_rules(sequent);
    let closing = standard_rules(&rule_matches, RuleClass::Closing, RuleClass::Closing);
    if closing.len() > 0 {
        return ScheduleResult::Rules(closing);
    }
    let simple = standard_rules(&rule_matches, RuleClass::SinglePremise, RuleClass::SinglePremise);
    if simple.len() > 0 {
        return ScheduleResult::Rules(simple);
    }
    let branching = standard_rules(&rule_matches, RuleClass::Branching, RuleClass::Branching);
    if branching.len() > 0 {
        return ScheduleResult::Rules(branching);
    }
    let eigen = standard_rules(&rule_matches, RuleClass::Eigenvariable, RuleClass::Eigenvariable);
    if eigen.len() > 0 {
        return ScheduleResult::Rules(eigen);
    }
    let visible = quantifier_rules(
        sequent,
        state,
        &rule_matches,
        max_fresh_terms_per_quantifier,
        InstancePolicy::VisibleOnly,
    );
    if visible.len() > 0 {
        return ScheduleResult::Rules(visible);
    }
    let fresh = quantifier_rules(sequent, state, &rule_matches, max_fresh_terms_per_quantifier, InstancePolicy::FreshOnly);
    if fresh.len() > 0 {
        return ScheduleResult::Rules(fresh);
    }
    if any_reusable(&rule_matches) {
        ScheduleResult::QuantifierExhausted
    } else {
        ScheduleResult::NoRules
    }
}

} // verus!
