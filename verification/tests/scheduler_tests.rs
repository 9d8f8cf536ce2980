use theorem_prover::ast::{Formula, Symbol, Term, Var};
use theorem_prover::prover::search::scheduler::schedule_next_rules;
use theorem_prover::{
    quantified_occurrence_key, record_quantifier_term, BranchState, ScheduleResult, ScheduledRule, Sequent, Side,
};

fn var(name: &str) -> Var {
    Var {
        name: name.to_owned(),
    }
}

fn variable(name: &str) -> Term {
    Term::Var(var(name))
}

fn constant(name: &str) -> Term {
    Term::Const(Symbol::User(name.to_owned()))
}

fn function(name: &str, args: Vec<Term>) -> Term {
    Term::Fun {
        name: Symbol::User(name.to_owned()),
        args,
    }
}

fn predicate(name: &str, args: Vec<Term>) -> Formula {
    Formula::predicate(name, args)
}

#[test]
fn schedules_newly_visible_branch_terms_for_reusable_quantifiers() {
    let quantified = Formula::ForAll(
        vec![var("X")],
        Box::new(predicate("p", vec![variable("X")])),
    );
    let term_a = constant("a");
    let term_f_a = function("f", vec![term_a.clone()]);
    let sequent = Sequent {
        left: vec![
            quantified,
            predicate("p", vec![term_a.clone()]),
            predicate("p", vec![term_f_a.clone()]),
        ],
        right: vec![Formula::atom("goal")],
    };
    let mut state = BranchState::new();
    let key = quantified_occurrence_key(&sequent, Side::Left, 0)
        .expect("quantified formula should have a key");
    record_quantifier_term(&mut state, &key, &term_a, false);

    let result = schedule_next_rules(&sequent, &state, 1);

    let ScheduleResult::Rules(rules) = result else {
        panic!("expected a scheduled branch-term instantiation");
    };
    assert!(rules.iter().any(|rule| matches!(
        rule,
        ScheduledRule::ForAllL { term, .. } if term == &term_f_a
    )));
}

#[test]
fn reports_quantifier_exhausted_when_terms_and_fresh_budget_are_spent() {
    let quantified = Formula::Exists(
        vec![var("X")],
        Box::new(predicate("p", vec![variable("X")])),
    );
    let term_w = constant("w");
    let sequent = Sequent {
        left: Vec::new(),
        right: vec![quantified, predicate("p", vec![term_w.clone()])],
    };
    let mut state = BranchState::new();
    let key = quantified_occurrence_key(&sequent, Side::Right, 0)
        .expect("quantified formula should have a key");
    record_quantifier_term(&mut state, &key, &term_w, true);

    let result = schedule_next_rules(&sequent, &state, 1);

    assert!(matches!(result, ScheduleResult::QuantifierExhausted));
}
