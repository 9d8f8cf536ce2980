//! Formulas of first-order logic.

use vstd::prelude::*;

use crate::ast::model::{formula_model, formulas_model, group_model, term_model, subst_formula, terms_model, vars_model, SFormula, SSymbol, STerm};
use crate::ast::subst::env_model;
use crate::ast::term::{symbol_clone, symbol_eq, vars_clone, vars_contain, Symbol, Term, Var};

verus! {

broadcast use vstd::seq::axiom_seq_index_decreases, vstd::std_specs::vec::axiom_vec_index_decreases,
    group_model;

/// A first-order formula; conjunctions and disjunctions are n-ary.
#[derive(Debug, PartialEq, Eq)]
pub enum Formula {
    True,
    False,
    Atom(Atom),
    Not(Box<Formula>),
    And(Vec<Formula>),
    Or(Vec<Formula>),
    Implies(Box<Formula>, Box<Formula>),
    ForAll(Vec<Var>, Box<Formula>),
    Exists(Vec<Var>, Box<Formula>),
}

/// An atomic formula.
#[derive(Debug, Clone, PartialEq, Eq)]
pub enum Atom {
    Predicate { name: Symbol, args: Vec<Term> },
}

/// Copies a list of formulas.
pub fn formulas_clone(fs: &Vec<Formula>) -> (r: Vec<Formula>)
    ensures
        formulas_model(r@) == formulas_model(fs@),
{
    let mut out: Vec<Formula> = Vec::new();
    let mut i: usize = 0;
    while i < fs.len()
        invariant
            i <= fs.len(),
            out.len() == i,
            forall|j: int| 0 <= j < i ==> #[trigger] formula_model(out@[j]) == formula_model(fs@[j]),
        decreases fs.len() - i,
    {
        out.push(fs[i].duplicate());
        i += 1;
    }
    assert(formulas_model(out@) =~= formulas_model(fs@));
    out
}

/// Copies the elements `from..to` of a list of formulas.
pub fn formulas_slice(fs: &Vec<Formula>, from: usize, to: usize) -> (r: Vec<Formula>)
    requires
        from <= to <= fs.len(),
    ensures
        formulas_model(r@) == formulas_model(fs@).subrange(from as int, to as int),
{
    let mut out: Vec<Formula> = Vec::new();
    let mut i: usize = from;
    while i < to
        invariant
            from <= i <= to,
            to <= fs.len(),
            out.len() == i - from,
            forall|j: int| 0 <= j < i - from ==> #[trigger] formula_model(out@[j]) == formula_model(fs@[from + j]),
        decreases to - i,
    {
        out.push(fs[i].duplicate());
        i += 1;
    }
    assert(formulas_model(out@) =~= formulas_model(fs@).subrange(from as int, to as int));
    out
}

/// Copies a list of terms.
pub fn terms_clone(ts: &Vec<Term>) -> (r: Vec<Term>)
    ensures
        terms_model(r@) == terms_model(ts@),
{
    let mut out: Vec<Term> = Vec::new();
    let mut i: usize = 0;
    while i < ts.len()
        invariant
            i <= ts.len(),
            out.len() == i,
            forall|j: int| 0 <= j < i ==> term_model(#[trigger] out@[j]) == term_model(ts@[j]),
        decreases ts.len() - i,
    {
        out.push(ts[i].duplicate());
        i += 1;
    }
    assert(terms_model(out@) =~= terms_model(ts@));
    out
}

impl Clone for Formula {
    fn clone(&self) -> (r: Self)
        ensures
            r@ == self@,
    {
        self.duplicate()
    }
}

impl Formula {
    /// The atom `name` without arguments.
    pub fn atom(name: &str) -> (r: Self)
        ensures
            r@ == SFormula::Atom(SSymbol::User(name@), Seq::<STerm>::empty()),
    {
        let r = Self::predicate(name, Vec::new());
        assert(r@->Atom_1 =~= Seq::<STerm>::empty());
        r
    }

    /// The atom `name(args)`.
    pub fn predicate(name: &str, args: Vec<Term>) -> (r: Self)
        ensures
            r@ == SFormula::Atom(SSymbol::User(name@), terms_model(args@)),
    {
        Formula::Atom(Atom::Predicate { name: Symbol::User(name.to_owned()), args })
    }

    /// The negation of `inner`.
    pub fn not(inner: Formula) -> (r: Self)
        ensures
            r@ == SFormula::Not(Box::new(inner@)),
    {
        Formula::Not(Box::new(inner))
    }

    /// The conjunction of `items`.
    pub fn and(items: Vec<Formula>) -> (r: Self)
        ensures
            r@ == SFormula::And(formulas_model(items@)),
    {
        Formula::And(items)
    }

    /// The disjunction of `items`.
    pub fn or(items: Vec<Formula>) -> (r: Self)
        ensures
            r@ == SFormula::Or(formulas_model(items@)),
    {
        Formula::Or(items)
    }

    /// The implication `left ⇒ right`.
    pub fn implies(left: Formula, right: Formula) -> (r: Self)
        ensures
            r@ == SFormula::Implies(Box::new(left@), Box::new(right@)),
    {
        Formula::Implies(Box::new(left), Box::new(right))
    }

    /// Structural equality of formulas.
    #[verifier::loop_isolation(false)]
    pub fn same(&self, other: &Formula) -> (r: bool)
        ensures
            r == (self@ == other@),
        decreases self,
    {
        match (self, other) {
            (Formula::True, Formula::True) => true,
            (Formula::False, Formula::False) => true,
            (Formula::Atom(Atom::Predicate { name: n1, args: a1 }), Formula::Atom(Atom::Predicate { name: n2, args: a2 })) => {
                if !symbol_eq(n1, n2) {
                    return false;
                }
                if a1.len() != a2.len() {
                    assert(terms_model(a1@).len() != terms_model(a2@).len());
                    return false;
                }
                let mut i: usize = 0;
                while i < a1.len()
                    invariant
                        i <= a1.len(),
                        a1.len() == a2.len(),
                        forall|j: int| 0 <= j < i ==> term_model(#[trigger] a1@[j]) == term_model(a2@[j]),
                    decreases a1.len() - i,
                {
                    if !a1[i].same(&a2[i]) {
                        assert(terms_model(a1@)[i as int] != terms_model(a2@)[i as int]);
                        return false;
                    }
                    i += 1;
                }
                assert(terms_model(a1@) =~= terms_model(a2@));
                true
            },
            (Formula::Not(x), Formula::Not(y)) => x.same(y),
            (Formula::And(xs), Formula::And(ys)) => Self::list_same(xs, ys),
            (Formula::Or(xs), Formula::Or(ys)) => Self::list_same(xs, ys),
            (Formula::Implies(a1, b1), Formula::Implies(a2, b2)) => a1.same(a2) && b1.same(b2),
            (Formula::ForAll(v1, b1), Formula::ForAll(v2, b2)) => Self::vars_same(v1, v2) && b1.same(b2),
            (Formula::Exists(v1, b1), Formula::Exists(v2, b2)) => Self::vars_same(v1, v2) && b1.same(b2),
            _ => false,
        }
    }

    fn vars_same(v1: &Vec<Var>, v2: &Vec<Var>) -> (r: bool)
        ensures
            r == (vars_model(v1@) == vars_model(v2@)),
    {
        if v1.len() != v2.len() {
            assert(vars_model(v1@).len() != vars_model(v2@).len());
            return false;
        }
        let mut i: usize = 0;
        while i < v1.len()
            invariant
                i <= v1.len(),
                v1.len() == v2.len(),
                forall|j: int| 0 <= j < i ==> (#[trigger] v1@[j]).name@ == v2@[j].name@,
            decreases v1.len() - i,
        {
            if v1[i].name != v2[i].name {
                assert(vars_model(v1@)[i as int] != vars_model(v2@)[i as int]);
                return false;
            }
            i += 1;
        }
        assert(vars_model(v1@) =~= vars_model(v2@));
        true
    }

    #[verifier::loop_isolation(false)]
    fn list_same(xs: &Vec<Formula>, ys: &Vec<Formula>) -> (r: bool)
        ensures
            r == (formulas_model(xs@) == formulas_model(ys@)),
        decreases xs,
    {
        if xs.len() != ys.len() {
            assert(formulas_model(xs@).len() != formulas_model(ys@).len());
            return false;
        }
        let mut i: usize = 0;
        while i < xs.len()
            invariant
                i <= xs.len(),
                xs.len() == ys.len(),
                forall|j: int| 0 <= j < i ==> formula_model(#[trigger] xs@[j]) == formula_model(ys@[j]),
            decreases xs.len() - i,
        {
            if !xs[i].same(&ys[i]) {
                assert(formulas_model(xs@)[i as int] != formulas_model(ys@)[i as int]);
                return false;
            }
            i += 1;
        }
        assert(formulas_model(xs@) =~= formulas_model(ys@));
        true
    }

    /// A copy of the formula with the same model.
    #[verifier::loop_isolation(false)]
    pub fn duplicate(&self) -> (r: Formula)
        ensures
            r@ == self@,
        decreases self,
    {
        match self {
            Formula::True => Formula::True,
            Formula::False => Formula::False,
            Formula::Atom(Atom::Predicate { name, args }) => Formula::Atom(
                Atom::Predicate { name: symbol_clone(name), args: terms_clone(args) },
            ),
            Formula::Not(inner) => Formula::Not(Box::new(inner.duplicate())),
            Formula::And(items) => Formula::And(Self::list_duplicate(items)),
            Formula::Or(items) => Formula::Or(Self::list_duplicate(items)),
            Formula::Implies(a, b) => Formula::Implies(Box::new(a.duplicate()), Box::new(b.duplicate())),
            Formula::ForAll(vars, body) => Formula::ForAll(vars_clone(vars), Box::new(body.duplicate())),
            Formula::Exists(vars, body) => Formula::Exists(vars_clone(vars), Box::new(body.duplicate())),
        }
    }

    #[verifier::loop_isolation(false)]
    fn list_duplicate(items: &Vec<Formula>) -> (r: Vec<Formula>)
        ensures
            formulas_model(r@) == formulas_model(items@),
        decreases items,
    {
        let mut out: Vec<Formula> = Vec::new();
        let mut i: usize = 0;
        while i < items.len()
            invariant
                i <= items.len(),
                out.len() == i,
                forall|j: int| 0 <= j < i ==> formula_model(#[trigger] out@[j]) == formula_model(items@[j]),
            decreases items.len() - i,
        {
            out.push(items[i].duplicate());
            i += 1;
        }
        assert(formulas_model(out@) =~= formulas_model(items@));
        out
    }

    /// Replaces the free occurrences of the variable `variable_name` by
    /// `replacement`; a quantifier that binds the same name is left as it
    /// is, and a bound variable that would capture a variable of
    /// `replacement` is renamed.
    pub fn substitute_var(&self, variable_name: &str, replacement: &Term) -> (r: Self)
        ensures
            r@ == subst_formula(self@, variable_name@, replacement@),
    {
        let s = vec![(variable_name.to_owned(), replacement.duplicate())];
        assert(env_model(s@) =~= seq![(variable_name@, replacement@)]);
        self.substitute_all(&s)
    }

    /// Binding strength used when printing: atoms bind tightest, binary
    /// connectives loosest.
    pub fn precedence(&self) -> (r: u8)
        ensures
            r == spec_precedence(self@),
    {
        match self {
            Formula::True | Formula::False | Formula::Atom(_) => 3,
            Formula::ForAll(_, _) | Formula::Exists(_, _) | Formula::Not(_) => 2,
            Formula::And(_) | Formula::Or(_) | Formula::Implies(_, _) => 1,
        }
    }

    /// Whether the formula is a conjunction, disjunction or implication.
    pub fn is_binary(&self) -> (r: bool)
        ensures
            r == spec_is_binary(self@),
    {
        match self {
            Formula::And(_) | Formula::Or(_) | Formula::Implies(_, _) => true,
            _ => false,
        }
    }
}

/// Binding strength of a formula's outermost construct.
pub open spec fn spec_precedence(f: SFormula) -> u8 {
    match f {
        SFormula::True | SFormula::False | SFormula::Atom(..) => 3,
        SFormula::ForAll(..) | SFormula::Exists(..) | SFormula::Not(..) => 2,
        SFormula::And(..) | SFormula::Or(..) | SFormula::Implies(..) => 1,
    }
}

/// Whether a formula's outermost construct is a binary connective.
pub open spec fn spec_is_binary(f: SFormula) -> bool {
    f is And || f is Or || f is Implies
}

} // verus!
