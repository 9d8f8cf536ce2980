//! Terms of first-order logic.

use vstd::prelude::*;

use crate::ast::model::{group_model, subst_term, term_model, terms_model, vars_model, SNumber, SSymbol, STerm};

verus! {

broadcast use vstd::seq::axiom_seq_index_decreases, vstd::std_specs::vec::axiom_vec_index_decreases, group_model;

/// A first-order term.
#[derive(Debug, PartialEq, Eq)]
pub enum Term {
    Var(Var),
    Const(Symbol),
    Fun { name: Symbol, args: Vec<Term> },
    Number(NumberLit),
    DistinctObject(String),
}

/// A numeric literal, kept as written in the input.
#[derive(Debug, Clone, PartialEq, Eq, PartialOrd, Ord)]
pub enum NumberLit {
    Integer(String),
    Rational(String),
    Real(String),
}

/// A symbol together with its TPTP class.
#[derive(Debug, Clone, PartialEq, Eq, PartialOrd, Ord)]
pub enum Symbol {
    User(String),
    Defined(String),
    System(String),
}

/// A variable.
#[derive(Debug, Clone, PartialEq, Eq, PartialOrd, Ord)]
pub struct Var {
    pub name: String,
}

/// Compares two symbols by class and name.
pub fn symbol_eq(a: &Symbol, b: &Symbol) -> (r: bool)
    ensures
        r == (a@ == b@),
{
    match (a, b) {
        (Symbol::User(x), Symbol::User(y)) => *x == *y,
        (Symbol::Defined(x), Symbol::Defined(y)) => *x == *y,
        (Symbol::System(x), Symbol::System(y)) => *x == *y,
        _ => false,
    }
}

/// Copies a symbol.
pub fn symbol_clone(s: &Symbol) -> (r: Symbol)
    ensures
        r@ == s@,
{
    match s {
        Symbol::User(x) => Symbol::User(x.clone()),
        Symbol::Defined(x) => Symbol::Defined(x.clone()),
        Symbol::System(x) => Symbol::System(x.clone()),
    }
}

/// Compares two numeric literals by kind and text.
pub fn number_eq(a: &NumberLit, b: &NumberLit) -> (r: bool)
    ensures
        r == (a@ == b@),
{
    match (a, b) {
        (NumberLit::Integer(x), NumberLit::Integer(y)) => *x == *y,
        (NumberLit::Rational(x), NumberLit::Rational(y)) => *x == *y,
        (NumberLit::Real(x), NumberLit::Real(y)) => *x == *y,
        _ => false,
    }
}

/// Copies a numeric literal.
pub fn number_clone(n: &NumberLit) -> (r: NumberLit)
    ensures
        r@ == n@,
{
    match n {
        NumberLit::Integer(x) => NumberLit::Integer(x.clone()),
        NumberLit::Rational(x) => NumberLit::Rational(x.clone()),
        NumberLit::Real(x) => NumberLit::Real(x.clone()),
    }
}

/// Copies a list of variables.
pub fn vars_clone(vs: &Vec<Var>) -> (r: Vec<Var>)
    ensures
        vars_model(r@) == vars_model(vs@),
{
    let mut out: Vec<Var> = Vec::new();
    let mut i: usize = 0;
    while i < vs.len()
        invariant
            i <= vs.len(),
            out.len() == i,
            forall|j: int| 0 <= j < i ==> #[trigger] out@[j].name@ == vs@[j].name@,
        decreases vs.len() - i,
    {
        out.push(Var { name: vs[i].name.clone() });
        i += 1;
    }
    assert(vars_model(out@) =~= vars_model(vs@));
    out
}

/// Whether one of the variables is named `name`.
pub fn vars_contain(vs: &Vec<Var>, name: &String) -> (r: bool)
    ensures
        r == vars_model(vs@).contains(name@),
{
    let mut i: usize = 0;
    while i < vs.len()
        invariant
            i <= vs.len(),
            forall|j: int| 0 <= j < i ==> vs@[j].name@ != name@,
        decreases vs.len() - i,
    {
        if vs[i].name == *name {
            assert(vars_model(vs@)[i as int] == name@);
            return true;
        }
        i += 1;
    }
    assert forall|j: int| 0 <= j < vars_model(vs@).len() implies vars_model(vs@)[j] != name@ by {}
    false
}

impl Clone for Term {
    fn clone(&self) -> (r: Self)
        ensures
            r@ == self@,
    {
        self.duplicate()
    }
}

impl Term {
    /// Structural equality of terms.
    #[verifier::loop_isolation(false)]
    pub fn same(&self, other: &Term) -> (r: bool)
        ensures
            r == (self@ == other@),
        decreases self,
    {
        match (self, other) {
            (Term::Var(x), Term::Var(y)) => x.name == y.name,
            (Term::Const(x), Term::Const(y)) => symbol_eq(x, y),
            (Term::Number(x), Term::Number(y)) => number_eq(x, y),
            (Term::DistinctObject(x), Term::DistinctObject(y)) => *x == *y,
            (Term::Fun { name: n1, args: a1 }, Term::Fun { name: n2, args: a2 }) => {
                if !symbol_eq(n1, n2) {
                    return false;
                }
                if a1.len() != a2.len() {
                    assert(terms_model(a1@).len() != terms_model(a2@).len());
                    return false;
                }
                let mut i: usize = 0;
                while i < a1.len()
                    invariant
                        i <= a1.len(),
                        a1.len() == a2.len(),
                        forall|j: int| 0 <= j < i ==> term_model(#[trigger] a1@[j]) == term_model(a2@[j]),
                    decreases a1.len() - i,
                {
                    if !a1[i].same(&a2[i]) {
                        assert(terms_model(a1@)[i as int] != terms_model(a2@)[i as int]);
                        return false;
                    }
                    i += 1;
                }
                assert(terms_model(a1@) =~= terms_model(a2@));
                true
            },
            _ => false,
        }
    }

    /// A copy of the term with the same model.
    #[verifier::loop_isolation(false)]
    pub fn duplicate(&self) -> (r: Term)
        ensures
            r@ == self@,
        decreases self,
    {
        match self {
            Term::Var(v) => Term::Var(Var { name: v.name.clone() }),
            Term::Const(s) => Term::Const(symbol_clone(s)),
            Term::Number(n) => Term::Number(number_clone(n)),
            Term::DistinctObject(s) => Term::DistinctObject(s.clone()),
            Term::Fun { name, args } => {
                let mut out: Vec<Term> = Vec::new();
                let mut i: usize = 0;
                while i < args.len()
                    invariant
                        i <= args.len(),
                        out.len() == i,
                        forall|j: int| 0 <= j < i ==> term_model(#[trigger] out@[j]) == term_model(args@[j]),
                    decreases args.len() - i,
                {
                    out.push(args[i].duplicate());
                    i += 1;
                }
                assert(terms_model(out@) =~= terms_model(args@));
                Term::Fun { name: symbol_clone(name), args: out }
            },
        }
    }

    /// Replaces every occurrence of the variable named `variable_name` by
    /// `replacement`.
    pub fn substitute_var(&self, variable_name: &str, replacement: &Term) -> (r: Term)
        ensures
            r@ == subst_term(self@, variable_name@, replacement@),
    {
        let name = variable_name.to_owned();
        self.substitute_named(&name, replacement)
    }

    #[verifier::loop_isolation(false)]
    fn substitute_named(&self, name: &String, replacement: &Term) -> (r: Term)
        ensures
            r@ == subst_term(self@, name@, replacement@),
        decreases self,
    {
        match self {
            Term::Var(v) => {
                if v.name == *name {
                    replacement.duplicate()
                } else {
                    self.duplicate()
                }
            },
            Term::Fun { name: f, args } => {
                let mut out: Vec<Term> = Vec::new();
                let mut i: usize = 0;
                while i < args.len()
                    invariant
                        i <= args.len(),
                        out.len() == i,
                        forall|j: int|
                            0 <= j < i ==> term_model(#[trigger] out@[j]) == subst_term(
                                term_model(args@[j]),
                                name@,
                                replacement@,
                            ),
                    decreases args.len() - i,
                {
                    out.push(args[i].substitute_named(name, replacement));
                    i += 1;
                }
                let r = Term::Fun { name: symbol_clone(f), args: out };
                assert(r@->Fun_1 =~= subst_term(self@, name@, replacement@)->Fun_1);
                r
            },
            _ => self.duplicate(),
        }
    }
}

} // verus!
