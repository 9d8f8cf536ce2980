//! Capture-avoiding substitution on executable syntax. A substitution is held
//! as a list of variable names with the terms that replace them; the first
//! entry for a name counts.

use vstd::prelude::*;
use vstd::string::StrSliceExecFns;

use crate::ast::formula::{Atom, Formula};
use crate::ast::model::{
    csubst, csubst_all, cross_binder, formula_model, formula_name_len, formulas_model, formulas_name_lens, free_in,
    free_occurrences, group_model, lookup_var, max_nat, max_of, name_lens, occurrences_in_terms, occurs_in_term,
    primed, renamed_vars, renaming_entries, subst_name_lens, term_model, term_name_len, terms_model,
    terms_name_lens, tsubst, tsubst_all, unshadowed, vars_model, Subst, STerm,
};
use crate::ast::term::{symbol_clone, vars_clone, vars_contain, Term, Var};

verus! {

broadcast use vstd::seq::axiom_seq_index_decreases, vstd::std_specs::vec::axiom_vec_index_decreases,
    group_model;

/// The model of a substitution held as names with terms.
pub open spec fn env_model(s: Seq<(String, Term)>) -> Subst {
    Seq::new(s.len(), |i: int| (s[i].0@, s[i].1@))
}

/// Pushing an entry pushes its model.
pub broadcast proof fn lemma_env_model_push(s: Seq<(String, Term)>, e: (String, Term))
    ensures
        #[trigger] env_model(s.push(e)) == env_model(s).push((e.0@, e.1@)),
{
    assert(env_model(s.push(e)) =~= env_model(s).push((e.0@, e.1@)));
}

/// The largest of the first `i + 1` numbers is the larger of the largest of
/// the first `i` and the number at `i`.
proof fn lemma_max_of_take(ns: Seq<nat>, i: int)
    requires
        0 <= i < ns.len(),
    ensures
        max_of(ns.take(i + 1)) == max_nat(max_of(ns.take(i)), ns[i]),
{
    assert(ns.take(i + 1).drop_last() =~= ns.take(i));
}

/// The term the substitution gives the variable `v`.
fn lookup(s: &Vec<(String, Term)>, v: &String) -> (r: Term)
    ensures
        r@ == lookup_var(env_model(s@), v@),
{
    let ghost full = env_model(s@);
    let mut i: usize = 0;
    assert(full.subrange(0, full.len() as int) =~= full);
    while i < s.len()
        invariant
            i <= s.len(),
            full == env_model(s@),
            lookup_var(full.subrange(i as int, full.len() as int), v@) == lookup_var(full, v@),
        decreases s.len() - i,
    {
        let ghost rest = full.subrange(i as int, full.len() as int);
        assert(rest[0] == full[i as int]);
        if s[i].0 == *v {
            return s[i].1.duplicate();
        }
        assert(rest.drop_first() =~= full.subrange(i + 1, full.len() as int));
        i += 1;
    }
    assert(full.subrange(i as int, full.len() as int) =~= Seq::<(Seq<char>, STerm)>::empty());
    Term::Var(Var { name: v.clone() })
}

/// A substitution applied to a term.
pub fn term_subst(t: &Term, s: &Vec<(String, Term)>) -> (r: Term)
    ensures
        r@ == tsubst(t@, env_model(s@)),
    decreases t,
{
    match t {
        Term::Var(v) => lookup(s, &v.name),
        Term::Fun { name, args } => {
            let out = terms_subst(args, s);
            Term::Fun { name: symbol_clone(name), args: out }
        },
        _ => t.duplicate(),
    }
}

/// A substitution applied to each term.
pub fn terms_subst(ts: &Vec<Term>, s: &Vec<(String, Term)>) -> (r: Vec<Term>)
    ensures
        terms_model(r@) == tsubst_all(terms_model(ts@), env_model(s@)),
    decreases ts,
{
    let mut out: Vec<Term> = Vec::new();
    let mut i: usize = 0;
    while i < ts.len()
        invariant
            i <= ts.len(),
            out.len() == i,
            forall|j: int| 0 <= j < i ==> term_model(#[trigger] out@[j]) == tsubst(term_model(ts@[j]), env_model(s@)),
        decreases ts.len() - i,
    {
        out.push(term_subst(&ts[i], s));
        i += 1;
    }
    assert(terms_model(out@) =~= tsubst_all(terms_model(ts@), env_model(s@)));
    out
}

/// The entries of `s` whose variable `vars` does not bind.
fn drop_shadowed(s: &Vec<(String, Term)>, vars: &Vec<Var>) -> (r: Vec<(String, Term)>)
    ensures
        env_model(r@) == unshadowed(env_model(s@), vars_model(vars@)),
{
    broadcast use lemma_env_model_push;

    let ghost full = env_model(s@);
    let ghost vm = vars_model(vars@);
    let mut out: Vec<(String, Term)> = Vec::new();
    let mut i: usize = 0;
    assert(full.take(0) =~= Seq::<(Seq<char>, STerm)>::empty());
    assert(env_model(out@) =~= Seq::<(Seq<char>, STerm)>::empty());
    while i < s.len()
        invariant
            i <= s.len(),
            full == env_model(s@),
            vm == vars_model(vars@),
            env_model(out@) == unshadowed(full.take(i as int), vm),
        decreases s.len() - i,
    {
        assert(full.take(i + 1).drop_last() =~= full.take(i as int));
        assert(full.take(i + 1).last() == full[i as int]);
        if !vars_contain(vars, &s[i].0) {
            out.push((s[i].0.clone(), s[i].1.duplicate()));
        }
        i += 1;
    }
    assert(full.take(i as int) =~= full);
    out
}

/// Whether the variable `x` occurs in a term.
fn occurs(t: &Term, x: &String) -> (b: bool)
    ensures
        b == occurs_in_term(t@, x@),
    decreases t,
{
    match t {
        Term::Var(v) => v.name == *x,
        Term::Fun { name: _, args } => terms_mention(args, x),
        _ => false,
    }
}

/// Whether the variable `x` occurs in one of the terms.
fn terms_mention(ts: &Vec<Term>, x: &String) -> (b: bool)
    ensures
        b == occurrences_in_terms(terms_model(ts@), x@).contains(true),
    decreases ts,
{
    let ghost flags = occurrences_in_terms(terms_model(ts@), x@);
    let mut i: usize = 0;
    while i < ts.len()
        invariant
            i <= ts.len(),
            flags == occurrences_in_terms(terms_model(ts@), x@),
            forall|j: int| 0 <= j < i ==> !flags[j],
        decreases ts.len() - i,
    {
        if occurs(&ts[i], x) {
            assert(flags[i as int]);
            return true;
        }
        i += 1;
    }
    assert(!flags.contains(true));
    false
}

/// Whether the variable `x` occurs free in a formula.
fn occurs_free(f: &Formula, x: &String) -> (b: bool)
    ensures
        b == free_in(f@, x@),
    decreases f,
{
    match f {
        Formula::True => false,
        Formula::False => false,
        Formula::Atom(Atom::Predicate { name: _, args }) => terms_mention(args, x),
        Formula::Not(inner) => occurs_free(inner, x),
        Formula::And(items) => formulas_mention_free(items, x),
        Formula::Or(items) => formulas_mention_free(items, x),
        Formula::Implies(a, b) => occurs_free(a, x) || occurs_free(b, x),
        Formula::ForAll(vars, body) => !vars_contain(vars, x) && occurs_free(body, x),
        Formula::Exists(vars, body) => !vars_contain(vars, x) && occurs_free(body, x),
    }
}

/// Whether the variable `x` occurs free in one of the formulas.
fn formulas_mention_free(fs: &Vec<Formula>, x: &String) -> (b: bool)
    ensures
        b == free_occurrences(formulas_model(fs@), x@).contains(true),
    decreases fs,
{
    let ghost flags = free_occurrences(formulas_model(fs@), x@);
    let mut i: usize = 0;
    while i < fs.len()
        invariant
            i <= fs.len(),
            flags == free_occurrences(formulas_model(fs@), x@),
            forall|j: int| 0 <= j < i ==> !flags[j],
        decreases fs.len() - i,
    {
        if occurs_free(&fs[i], x) {
            assert(flags[i as int]);
            return true;
        }
        i += 1;
    }
    assert(!flags.contains(true));
    false
}

/// Whether one of the variables of `s` occurs free in `f`.
fn acts(s: &Vec<(String, Term)>, f: &Formula) -> (b: bool)
    ensures
        b == crate::ast::model::acts_on(env_model(s@), f@),
{
    let mut i: usize = 0;
    while i < s.len()
        invariant
            i <= s.len(),
            forall|j: int| 0 <= j < i ==> !free_in(f@, #[trigger] env_model(s@)[j].0),
        decreases s.len() - i,
    {
        if occurs_free(f, &s[i].0) {
            assert(free_in(f@, env_model(s@)[i as int].0));
            return true;
        }
        i += 1;
    }
    false
}

/// Whether a bound variable `v` would capture a variable of a term of `s`.
fn clash(v: &String, s: &Vec<(String, Term)>) -> (b: bool)
    ensures
        b == crate::ast::model::clashes(v@, env_model(s@)),
{
    let mut i: usize = 0;
    while i < s.len()
        invariant
            i <= s.len(),
            forall|j: int| 0 <= j < i ==> !occurs_in_term(#[trigger] env_model(s@)[j].1, v@),
        decreases s.len() - i,
    {
        if occurs(&s[i].1, v) {
            assert(occurs_in_term(env_model(s@)[i as int].1, v@));
            return true;
        }
        i += 1;
    }
    false
}

/// The length of the longest variable name in a term.
fn term_width(t: &Term) -> (n: usize)
    ensures
        n == term_name_len(t@),
    decreases t,
{
    match t {
        Term::Var(v) => v.name.as_str().unicode_len(),
        Term::Fun { name: _, args } => terms_width(args),
        _ => 0,
    }
}

/// The length of the longest variable name in some terms.
fn terms_width(ts: &Vec<Term>) -> (n: usize)
    ensures
        n == max_of(terms_name_lens(terms_model(ts@))),
    decreases ts,
{
    let ghost ns = terms_name_lens(terms_model(ts@));
    let mut m: usize = 0;
    let mut i: usize = 0;
    assert(ns.take(0) =~= Seq::<nat>::empty());
    while i < ts.len()
        invariant
            i <= ts.len(),
            ns == terms_name_lens(terms_model(ts@)),
            m == max_of(ns.take(i as int)),
        decreases ts.len() - i,
    {
        let w = term_width(&ts[i]);
        proof {
            lemma_max_of_take(ns, i as int);
        }
        if m < w {
            m = w;
        }
        i += 1;
    }
    assert(ns.take(i as int) =~= ns);
    m
}

/// The length of the longest variable name in a formula.
fn formula_width(f: &Formula) -> (n: usize)
    ensures
        n == formula_name_len(f@),
    decreases f,
{
    match f {
        Formula::True => 0,
        Formula::False => 0,
        Formula::Atom(Atom::Predicate { name: _, args }) => terms_width(args),
        Formula::Not(inner) => formula_width(inner),
        Formula::And(items) => formulas_width(items),
        Formula::Or(items) => formulas_width(items),
        Formula::Implies(a, b) => {
            let x = formula_width(a);
            let y = formula_width(b);
            if x >= y {
                x
            } else {
                y
            }
        },
        Formula::ForAll(vars, body) => {
            let x = vars_width(vars);
            let y = formula_width(body);
            if x >= y {
                x
            } else {
                y
            }
        },
        Formula::Exists(vars, body) => {
            let x = vars_width(vars);
            let y = formula_width(body);
            if x >= y {
                x
            } else {
                y
            }
        },
    }
}

/// The length of the longest variable name in some formulas.
fn formulas_width(fs: &Vec<Formula>) -> (n: usize)
    ensures
        n == max_of(formulas_name_lens(formulas_model(fs@))),
    decreases fs,
{
    let ghost ns = formulas_name_lens(formulas_model(fs@));
    let mut m: usize = 0;
    let mut i: usize = 0;
    assert(ns.take(0) =~= Seq::<nat>::empty());
    while i < fs.len()
        invariant
            i <= fs.len(),
            ns == formulas_name_lens(formulas_model(fs@)),
            m == max_of(ns.take(i as int)),
        decreases fs.len() - i,
    {
        let w = formula_width(&fs[i]);
        proof {
            lemma_max_of_take(ns, i as int);
        }
        if m < w {
            m = w;
        }
        i += 1;
    }
    assert(ns.take(i as int) =~= ns);
    m
}

/// The length of the longest of some variable names.
fn vars_width(vars: &Vec<Var>) -> (n: usize)
    ensures
        n == max_of(name_lens(vars_model(vars@))),
{
    let ghost ns = name_lens(vars_model(vars@));
    let mut m: usize = 0;
    let mut i: usize = 0;
    assert(ns.take(0) =~= Seq::<nat>::empty());
    while i < vars.len()
        invariant
            i <= vars.len(),
            ns == name_lens(vars_model(vars@)),
            m == max_of(ns.take(i as int)),
        decreases vars.len() - i,
    {
        let w = vars[i].name.as_str().unicode_len();
        proof {
            lemma_max_of_take(ns, i as int);
        }
        if m < w {
            m = w;
        }
        i += 1;
    }
    assert(ns.take(i as int) =~= ns);
    m
}

/// The length of the longest variable name in the terms of a substitution.
fn subst_width(s: &Vec<(String, Term)>) -> (n: usize)
    ensures
        n == max_of(subst_name_lens(env_model(s@))),
{
    let ghost ns = subst_name_lens(env_model(s@));
    let mut m: usize = 0;
    let mut i: usize = 0;
    assert(ns.take(0) =~= Seq::<nat>::empty());
    while i < s.len()
        invariant
            i <= s.len(),
            ns == subst_name_lens(env_model(s@)),
            m == max_of(ns.take(i as int)),
        decreases s.len() - i,
    {
        let w = term_width(&s[i].1);
        proof {
            lemma_max_of_take(ns, i as int);
        }
        if m < w {
            m = w;
        }
        i += 1;
    }
    assert(ns.take(i as int) =~= ns);
    m
}

/// `v` followed by `n` primes.
fn primed_name(v: &String, n: u128) -> (r: String)
    ensures
        r@ == primed(v@, n as nat),
{
    let mut out = v.clone();
    let mut k: u128 = 0;
    assert(primed(v@, 0) =~= v@);
    while k < n
        invariant
            k <= n,
            out@ == primed(v@, k as nat),
        decreases n - k,
    {
        out.push('\'');
        assert(primed(v@, (k + 1) as nat) =~= primed(v@, k as nat).push('\''));
        k += 1;
    }
    out
}

/// How the quantifier `vars` over `body` is crossed by `s`: the bound
/// variables after renaming, and the substitution for the body.
fn cross(vars: &Vec<Var>, body: &Formula, s: &Vec<(String, Term)>) -> (r: (Vec<Var>, Vec<(String, Term)>))
    ensures
        (vars_model(r.0@), env_model(r.1@)) == cross_binder(vars_model(vars@), body@, env_model(s@)),
{
    broadcast use lemma_env_model_push;

    let s0 = drop_shadowed(s, vars);
    if !acts(&s0, body) {
        return (vars_clone(vars), s0);
    }
    let b1 = formula_width(body);
    let b2 = subst_width(&s0);
    let b3 = vars_width(vars);
    let m1 = if b1 >= b2 {
        b1
    } else {
        b2
    };
    let bound = if m1 >= b3 {
        m1
    } else {
        b3
    };
    let ghost vm = vars_model(vars@);
    let ghost sm = env_model(s0@);
    let ghost bnd = bound as nat;
    let mut new_vars: Vec<Var> = Vec::new();
    let mut extra: Vec<(String, Term)> = Vec::new();
    let mut i: usize = 0;
    assert(renamed_vars(vm, sm, bnd).take(0) =~= vars_model(new_vars@));
    assert(env_model(extra@) =~= renaming_entries(vm, sm, bnd, 0));
    while i < vars.len()
        invariant
            i <= vars.len(),
            vm == vars_model(vars@),
            sm == env_model(s0@),
            bnd == bound as nat,
            new_vars@.len() == i,
            vars_model(new_vars@) == renamed_vars(vm, sm, bnd).take(i as int),
            env_model(extra@) == renaming_entries(vm, sm, bnd, i as nat),
        decreases vars.len() - i,
    {
        let ghost old_vars = new_vars@;
        if clash(&vars[i].name, &s0) {
            let w: u128 = bound as u128 + 1 + i as u128;
            let nv = primed_name(&vars[i].name, w);
            new_vars.push(Var { name: nv.clone() });
            extra.push((vars[i].name.clone(), Term::Var(Var { name: nv })));
        } else {
            new_vars.push(Var { name: vars[i].name.clone() });
        }
        assert(vars_model(new_vars@) =~= renamed_vars(vm, sm, bnd).take(i + 1)) by {
            assert forall|k: int| 0 <= k < i implies vars_model(new_vars@)[k] == vars_model(old_vars)[k] by {
                assert(new_vars@[k] == old_vars[k]);
            }
        }
        i += 1;
    }
    assert(renamed_vars(vm, sm, bnd).take(i as int) =~= renamed_vars(vm, sm, bnd));
    let mut all = s0;
    all.append(&mut extra);
    assert(env_model(all@) =~= sm + renaming_entries(vm, sm, bnd, vm.len()));
    (new_vars, all)
}

impl Formula {
    /// Applies a simultaneous substitution to the free variables of the
    /// formula, renaming each bound variable that would capture a variable
    /// of a term put in.
    pub fn substitute_all(&self, s: &Vec<(String, Term)>) -> (r: Formula)
        ensures
            r@ == csubst(self@, env_model(s@)),
        decreases self,
    {
        match self {
            Formula::True => Formula::True,
            Formula::False => Formula::False,
            Formula::Atom(Atom::Predicate { name, args }) => {
                let out = terms_subst(args, s);
                Formula::Atom(Atom::Predicate { name: symbol_clone(name), args: out })
            },
            Formula::Not(inner) => Formula::Not(Box::new(inner.substitute_all(s))),
            Formula::And(items) => Formula::And(Self::list_substitute_all(items, s)),
            Formula::Or(items) => Formula::Or(Self::list_substitute_all(items, s)),
            Formula::Implies(a, b) => Formula::Implies(Box::new(a.substitute_all(s)), Box::new(b.substitute_all(s))),
            Formula::ForAll(vars, body) => {
                let (nv, s2) = cross(vars, body, s);
                Formula::ForAll(nv, Box::new(body.substitute_all(&s2)))
            },
            Formula::Exists(vars, body) => {
                let (nv, s2) = cross(vars, body, s);
                Formula::Exists(nv, Box::new(body.substitute_all(&s2)))
            },
        }
    }

    fn list_substitute_all(items: &Vec<Formula>, s: &Vec<(String, Term)>) -> (r: Vec<Formula>)
        ensures
            formulas_model(r@) == csubst_all(formulas_model(items@), env_model(s@)),
        decreases items,
    {
        let mut out: Vec<Formula> = Vec::new();
        let mut i: usize = 0;
        while i < items.len()
            invariant
                i <= items.len(),
                out.len() == i,
                forall|j: int|
                    0 <= j < i ==> formula_model(#[trigger] out@[j]) == csubst(formula_model(items@[j]), env_model(s@)),
            decreases items.len() - i,
        {
            out.push(items[i].substitute_all(s));
            i += 1;
        }
        assert(formulas_model(out@) =~= csubst_all(formulas_model(items@), env_model(s@)));
        out
    }
}

} // verus!
