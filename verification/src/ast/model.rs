//! Mathematical models of the syntax: every executable syntax value is viewed
//! as one of these spec values, with names as `Seq<char>`.

use vstd::prelude::*;

use crate::ast::formula::{Atom, Formula};
use crate::ast::term::{NumberLit, Symbol, Term, Var};

verus! {

broadcast use vstd::seq::axiom_seq_index_decreases, vstd::std_specs::vec::axiom_vec_index_decreases;

/// A symbol name together with its TPTP class.
pub enum SSymbol {
    User(Seq<char>),
    Defined(Seq<char>),
    System(Seq<char>),
}

impl SSymbol {
    /// The printed name of the symbol, whatever its class.
    pub open spec fn name(self) -> Seq<char> {
        match self {
            SSymbol::User(n) => n,
            SSymbol::Defined(n) => n,
            SSymbol::System(n) => n,
        }
    }
}

/// A numeric literal, kept as written.
pub enum SNumber {
    Integer(Seq<char>),
    Rational(Seq<char>),
    Real(Seq<char>),
}

impl SNumber {
    pub open spec fn text(self) -> Seq<char> {
        match self {
            SNumber::Integer(n) => n,
            SNumber::Rational(n) => n,
            SNumber::Real(n) => n,
        }
    }
}

/// First-order terms.
pub enum STerm {
    Var(Seq<char>),
    Const(SSymbol),
    Fun(SSymbol, Seq<STerm>),
    Number(SNumber),
    Distinct(Seq<char>),
}

/// First-order formulas; `And` and `Or` are n-ary.
pub enum SFormula {
    True,
    False,
    Atom(SSymbol, Seq<STerm>),
    Not(Box<SFormula>),
    And(Seq<SFormula>),
    Or(Seq<SFormula>),
    Implies(Box<SFormula>, Box<SFormula>),
    ForAll(Seq<Seq<char>>, Box<SFormula>),
    Exists(Seq<Seq<char>>, Box<SFormula>),
}

/// A sequent `left ⊢ right`.
pub struct SSequent {
    pub left: Seq<SFormula>,
    pub right: Seq<SFormula>,
}

/// Whether the variable `x` occurs in a term.
pub open spec fn occurs_in_term(t: STerm, x: Seq<char>) -> bool
    decreases t,
{
    match t {
        STerm::Var(v) => v == x,
        STerm::Fun(_, args) => occurrences_in_terms(args, x).contains(true),
        _ => false,
    }
}

/// For each term, whether `x` occurs in it.
pub open spec fn occurrences_in_terms(ts: Seq<STerm>, x: Seq<char>) -> Seq<bool>
    decreases ts,
{
    Seq::new(ts.len(), |i: int| if 0 <= i < ts.len() { occurs_in_term(ts[i], x) } else { false })
}

/// Whether the variable `x` occurs free in a formula: outside every
/// quantifier that binds it.
pub open spec fn free_in(f: SFormula, x: Seq<char>) -> bool
    decreases f,
{
    match f {
        SFormula::True | SFormula::False => false,
        SFormula::Atom(_, args) => occurrences_in_terms(args, x).contains(true),
        SFormula::Not(inner) => free_in(*inner, x),
        SFormula::And(items) => free_occurrences(items, x).contains(true),
        SFormula::Or(items) => free_occurrences(items, x).contains(true),
        SFormula::Implies(a, b) => free_in(*a, x) || free_in(*b, x),
        SFormula::ForAll(vars, body) => !vars.contains(x) && free_in(*body, x),
        SFormula::Exists(vars, body) => !vars.contains(x) && free_in(*body, x),
    }
}

/// For each formula, whether `x` occurs free in it.
pub open spec fn free_occurrences(fs: Seq<SFormula>, x: Seq<char>) -> Seq<bool>
    decreases fs,
{
    Seq::new(fs.len(), |i: int| if 0 <= i < fs.len() { free_in(fs[i], x) } else { false })
}

/// Substituting for a variable that does not occur in a term leaves it
/// unchanged.
pub proof fn lemma_subst_term_absent(t: STerm, x: Seq<char>, r: STerm)
    requires
        !occurs_in_term(t, x),
    ensures
        subst_term(t, x, r) == t,
    decreases t,
{
    if let STerm::Fun(n, args) = t {
        let flags = occurrences_in_terms(args, x);
        assert forall|i: int| 0 <= i < args.len() implies subst_term(args[i], x, r) == args[i] by {
            assert(flags[i] == occurs_in_term(args[i], x));
            if flags[i] {
                assert(flags.contains(true));
            }
            lemma_subst_term_absent(args[i], x, r);
        }
        if let STerm::Fun(n2, s2) = subst_term(t, x, r) {
            assert(s2 =~= args);
        }
    }
}

/// Replaces every occurrence of the variable `x` in a term by `r`.
pub open spec fn subst_term(t: STerm, x: Seq<char>, r: STerm) -> STerm
    decreases t,
{
    match t {
        STerm::Var(v) => if v == x { r } else { t },
        STerm::Fun(n, args) => STerm::Fun(
            n,
            Seq::new(args.len(), |i: int| if 0 <= i < args.len() { subst_term(args[i], x, r) } else { r }),
        ),
        _ => t,
    }
}

/// A simultaneous substitution: variables with the terms that replace them;
/// the first entry for a variable counts.
pub type Subst = Seq<(Seq<char>, STerm)>;

/// The term a substitution gives a variable: the term of its first entry,
/// else the variable itself.
pub open spec fn lookup_var(s: Subst, v: Seq<char>) -> STerm
    decreases s.len(),
{
    if s.len() == 0 {
        STerm::Var(v)
    } else if s[0].0 == v {
        s[0].1
    } else {
        lookup_var(s.drop_first(), v)
    }
}

/// A substitution applied to a term.
pub open spec fn tsubst(t: STerm, s: Subst) -> STerm
    decreases t,
{
    match t {
        STerm::Var(v) => lookup_var(s, v),
        STerm::Fun(n, args) => STerm::Fun(n, tsubst_all(args, s)),
        _ => t,
    }
}

/// A substitution applied to each term.
pub open spec fn tsubst_all(ts: Seq<STerm>, s: Subst) -> Seq<STerm>
    decreases ts,
{
    Seq::new(ts.len(), |i: int| if 0 <= i < ts.len() { tsubst(ts[i], s) } else { STerm::Var(Seq::empty()) })
}

/// The entries of a substitution whose variable `vars` does not bind.
pub open spec fn unshadowed(s: Subst, vars: Seq<Seq<char>>) -> Subst
    decreases s.len(),
{
    if s.len() == 0 {
        s
    } else if vars.contains(s.last().0) {
        unshadowed(s.drop_last(), vars)
    } else {
        unshadowed(s.drop_last(), vars).push(s.last())
    }
}

/// Whether a substitution has something to replace in `f`: one of its
/// variables is free there.
pub open spec fn acts_on(s: Subst, f: SFormula) -> bool {
    exists|i: int| 0 <= i < s.len() && #[trigger] free_in(f, s[i].0)
}

/// Whether a bound variable would capture a variable of a term that the
/// substitution puts in.
pub open spec fn clashes(v: Seq<char>, s: Subst) -> bool {
    exists|i: int| 0 <= i < s.len() && #[trigger] occurs_in_term(s[i].1, v)
}

/// The larger of two numbers.
pub open spec fn max_nat(a: nat, b: nat) -> nat {
    if a >= b {
        a
    } else {
        b
    }
}

/// The largest of some numbers, 0 for none.
pub open spec fn max_of(ns: Seq<nat>) -> nat
    decreases ns.len(),
{
    if ns.len() == 0 {
        0
    } else {
        max_nat(max_of(ns.drop_last()), ns.last())
    }
}

/// The length of the longest variable name in a term.
pub open spec fn term_name_len(t: STerm) -> nat
    decreases t,
{
    match t {
        STerm::Var(v) => v.len(),
        STerm::Fun(_, args) => max_of(terms_name_lens(args)),
        _ => 0,
    }
}

/// The lengths of the longest variable names of some terms.
pub open spec fn terms_name_lens(ts: Seq<STerm>) -> Seq<nat>
    decreases ts,
{
    Seq::new(ts.len(), |i: int| if 0 <= i < ts.len() { term_name_len(ts[i]) } else { 0 })
}

/// The lengths of some names.
pub open spec fn name_lens(vs: Seq<Seq<char>>) -> Seq<nat> {
    Seq::new(vs.len(), |i: int| vs[i].len())
}

/// The length of the longest variable name in a formula, bound or free.
pub open spec fn formula_name_len(f: SFormula) -> nat
    decreases f,
{
    match f {
        SFormula::True | SFormula::False => 0,
        SFormula::Atom(_, args) => max_of(terms_name_lens(args)),
        SFormula::Not(inner) => formula_name_len(*inner),
        SFormula::And(items) => max_of(formulas_name_lens(items)),
        SFormula::Or(items) => max_of(formulas_name_lens(items)),
        SFormula::Implies(a, b) => max_nat(formula_name_len(*a), formula_name_len(*b)),
        SFormula::ForAll(vars, body) => max_nat(max_of(name_lens(vars)), formula_name_len(*body)),
        SFormula::Exists(vars, body) => max_nat(max_of(name_lens(vars)), formula_name_len(*body)),
    }
}

/// The lengths of the longest variable names of some formulas.
pub open spec fn formulas_name_lens(fs: Seq<SFormula>) -> Seq<nat>
    decreases fs,
{
    Seq::new(fs.len(), |i: int| if 0 <= i < fs.len() { formula_name_len(fs[i]) } else { 0 })
}

/// For each entry of a substitution, the length of the longest variable
/// name in its term.
pub open spec fn subst_name_lens(s: Subst) -> Seq<nat> {
    Seq::new(s.len(), |i: int| term_name_len(s[i].1))
}

/// The length of the longest variable name in the terms of a substitution.
pub open spec fn subst_name_len(s: Subst) -> nat {
    max_of(subst_name_lens(s))
}

/// `v` followed by `n` primes.
pub open spec fn primed(v: Seq<char>, n: nat) -> Seq<char> {
    v + Seq::new(n, |k: int| '\'')
}

/// The name a bound variable gets: `v` itself, unless a term put in would
/// be captured by it; then `v` with more primes than any name in sight has
/// characters, a different number for each position `i`.
pub open spec fn renamed_var(v: Seq<char>, s: Subst, bound: nat, i: int) -> Seq<char> {
    if clashes(v, s) {
        primed(v, (bound + 1 + i) as nat)
    } else {
        v
    }
}

/// The bound variables after renaming.
pub open spec fn renamed_vars(vars: Seq<Seq<char>>, s: Subst, bound: nat) -> Seq<Seq<char>> {
    Seq::new(vars.len(), |i: int| renamed_var(vars[i], s, bound, i))
}

/// The entries that carry the renamings of the first `n` bound variables
/// into the body.
pub open spec fn renaming_entries(vars: Seq<Seq<char>>, s: Subst, bound: nat, n: nat) -> Subst
    decreases n,
{
    if n == 0 || n > vars.len() {
        Seq::empty()
    } else {
        renaming_entries(vars, s, bound, (n - 1) as nat) + if clashes(vars[n - 1], s) {
            seq![(vars[n - 1], STerm::Var(renamed_var(vars[n - 1], s, bound, n - 1)))]
        } else {
            Seq::empty()
        }
    }
}

/// How a quantifier `vars` over `body` is crossed: the entries it shadows
/// are dropped; when something is left to replace in the body, each bound
/// variable that would capture a variable put in is renamed to a name
/// longer than every name in the body, in the bound list and in the terms
/// put in, and the body gets the renaming too.
pub open spec fn cross_binder(vars: Seq<Seq<char>>, body: SFormula, s: Subst) -> (Seq<Seq<char>>, Subst) {
    let s0 = unshadowed(s, vars);
    if !acts_on(s0, body) {
        (vars, s0)
    } else {
        let bound = max_nat(max_nat(formula_name_len(body), subst_name_len(s0)), max_of(name_lens(vars)));
        (renamed_vars(vars, s0, bound), s0 + renaming_entries(vars, s0, bound, vars.len()))
    }
}

/// Capture-avoiding simultaneous substitution: free occurrences of the
/// variables of `s` are replaced, and bound variables are renamed where a
/// variable of a term put in would otherwise be captured.
pub open spec fn csubst(f: SFormula, s: Subst) -> SFormula
    decreases f,
{
    match f {
        SFormula::True => f,
        SFormula::False => f,
        SFormula::Atom(p, args) => SFormula::Atom(p, tsubst_all(args, s)),
        SFormula::Not(inner) => SFormula::Not(Box::new(csubst(*inner, s))),
        SFormula::And(items) => SFormula::And(csubst_all(items, s)),
        SFormula::Or(items) => SFormula::Or(csubst_all(items, s)),
        SFormula::Implies(a, b) => SFormula::Implies(Box::new(csubst(*a, s)), Box::new(csubst(*b, s))),
        SFormula::ForAll(vars, body) => {
            let (vars2, s2) = cross_binder(vars, *body, s);
            SFormula::ForAll(vars2, Box::new(csubst(*body, s2)))
        },
        SFormula::Exists(vars, body) => {
            let (vars2, s2) = cross_binder(vars, *body, s);
            SFormula::Exists(vars2, Box::new(csubst(*body, s2)))
        },
    }
}

/// A substitution applied to each formula.
pub open spec fn csubst_all(fs: Seq<SFormula>, s: Subst) -> Seq<SFormula>
    decreases fs,
{
    Seq::new(fs.len(), |i: int| if 0 <= i < fs.len() { csubst(fs[i], s) } else { SFormula::True })
}

/// Replaces the free occurrences of `x` in a formula by `r`, renaming bound
/// variables that would capture a variable of `r`.
pub open spec fn subst_formula(f: SFormula, x: Seq<char>, r: STerm) -> SFormula {
    csubst(f, seq![(x, r)])
}

/// A substitution gives a variable none of its entries names back unchanged.
proof fn lemma_lookup_absent(s: Subst, v: Seq<char>)
    requires
        forall|i: int| 0 <= i < s.len() ==> #[trigger] s[i].0 != v,
    ensures
        lookup_var(s, v) == STerm::Var(v),
    decreases s.len(),
{
    if s.len() > 0 {
        assert(s[0].0 != v);
        assert forall|i: int| 0 <= i < s.drop_first().len() implies #[trigger] s.drop_first()[i].0 != v by {
            assert(s.drop_first()[i] == s[i + 1]);
        }
        lemma_lookup_absent(s.drop_first(), v);
    }
}

/// A substitution leaves a term unchanged when none of its variables occurs
/// in the term.
proof fn lemma_tsubst_absent(t: STerm, s: Subst)
    requires
        forall|i: int| 0 <= i < s.len() ==> !occurs_in_term(t, #[trigger] s[i].0),
    ensures
        tsubst(t, s) == t,
    decreases t,
{
    match t {
        STerm::Var(v) => {
            assert forall|i: int| 0 <= i < s.len() implies #[trigger] s[i].0 != v by {
                assert(!occurs_in_term(t, s[i].0));
            }
            lemma_lookup_absent(s, v);
        },
        STerm::Fun(n, args) => {
            assert forall|j: int| 0 <= j < args.len() implies tsubst(args[j], s) == args[j] by {
                assert forall|i: int| 0 <= i < s.len() implies !occurs_in_term(args[j], #[trigger] s[i].0) by {
                    let flags = occurrences_in_terms(args, s[i].0);
                    if occurs_in_term(args[j], s[i].0) {
                        assert(flags[j]);
                        assert(flags.contains(true));
                        assert(occurs_in_term(t, s[i].0));
                    }
                }
                lemma_tsubst_absent(args[j], s);
            }
            assert(tsubst_all(args, s) =~= args);
        },
        _ => {},
    }
}

/// Every entry that survives a quantifier is an entry of the substitution
/// whose variable the quantifier does not bind.
proof fn lemma_unshadowed_entries(s: Subst, vars: Seq<Seq<char>>)
    ensures
        forall|k: int|
            0 <= k < unshadowed(s, vars).len() ==> exists|i: int|
                0 <= i < s.len() && #[trigger] unshadowed(s, vars)[k] == s[i] && !vars.contains(s[i].0),
    decreases s.len(),
{
    if s.len() > 0 {
        let rest = s.drop_last();
        lemma_unshadowed_entries(rest, vars);
        assert forall|k: int| 0 <= k < unshadowed(s, vars).len() implies exists|i: int|
            0 <= i < s.len() && #[trigger] unshadowed(s, vars)[k] == s[i] && !vars.contains(s[i].0) by {
            if k < unshadowed(rest, vars).len() {
                let i = choose|i: int|
                    0 <= i < rest.len() && #[trigger] unshadowed(rest, vars)[k] == rest[i] && !vars.contains(rest[i].0);
                assert(rest[i] == s[i]);
            } else {
                assert(unshadowed(s, vars)[k] == s[s.len() - 1]);
            }
        }
    }
}

/// A substitution leaves a formula unchanged when none of its variables
/// occurs free in it.
proof fn lemma_csubst_inactive(f: SFormula, s: Subst)
    requires
        !acts_on(s, f),
    ensures
        csubst(f, s) == f,
    decreases f,
{
    match f {
        SFormula::Atom(p, args) => {
            assert forall|j: int| 0 <= j < args.len() implies tsubst(args[j], s) == args[j] by {
                assert forall|i: int| 0 <= i < s.len() implies !occurs_in_term(args[j], #[trigger] s[i].0) by {
                    let flags = occurrences_in_terms(args, s[i].0);
                    if occurs_in_term(args[j], s[i].0) {
                        assert(flags[j]);
                        assert(flags.contains(true));
                        assert(free_in(f, s[i].0));
                    }
                }
                lemma_tsubst_absent(args[j], s);
            }
            assert(tsubst_all(args, s) =~= args);
        },
        SFormula::Not(inner) => {
            assert forall|i: int| 0 <= i < s.len() implies !free_in(*inner, #[trigger] s[i].0) by {
                assert(!free_in(f, s[i].0));
            }
            lemma_csubst_inactive(*inner, s);
        },
        SFormula::And(items) => {
            lemma_items_inactive(f, items, s);
            lemma_csubst_all_inactive(items, s);
        },
        SFormula::Or(items) => {
            lemma_items_inactive(f, items, s);
            lemma_csubst_all_inactive(items, s);
        },
        SFormula::Implies(a, b) => {
            assert forall|i: int| 0 <= i < s.len() implies !free_in(*a, #[trigger] s[i].0) by {
                assert(!free_in(f, s[i].0));
            }
            assert forall|i: int| 0 <= i < s.len() implies !free_in(*b, #[trigger] s[i].0) by {
                assert(!free_in(f, s[i].0));
            }
            lemma_csubst_inactive(*a, s);
            lemma_csubst_inactive(*b, s);
        },
        SFormula::ForAll(vars, body) => {
            lemma_binder_inactive(f, vars, *body, s);
            lemma_csubst_inactive(*body, unshadowed(s, vars));
        },
        SFormula::Exists(vars, body) => {
            lemma_binder_inactive(f, vars, *body, s);
            lemma_csubst_inactive(*body, unshadowed(s, vars));
        },
        _ => {},
    }
}

/// Under a quantifier that no variable of `s` is free in, nothing is left
/// to replace in the body.
proof fn lemma_binder_inactive(f: SFormula, vars: Seq<Seq<char>>, body: SFormula, s: Subst)
    requires
        !acts_on(s, f),
        f == SFormula::ForAll(vars, Box::new(body)) || f == SFormula::Exists(vars, Box::new(body)),
    ensures
        !acts_on(unshadowed(s, vars), body),
{
    let s0 = unshadowed(s, vars);
    lemma_unshadowed_entries(s, vars);
    assert forall|k: int| 0 <= k < s0.len() implies !free_in(body, #[trigger] s0[k].0) by {
        let i = choose|i: int| 0 <= i < s.len() && #[trigger] s0[k] == s[i] && !vars.contains(s[i].0);
        assert(!free_in(f, s[i].0));
    }
}

/// Formulas that no variable of `s` is free in are each left unchanged.
proof fn lemma_csubst_all_inactive(items: Seq<SFormula>, s: Subst)
    requires
        forall|j: int| 0 <= j < items.len() ==> !acts_on(s, #[trigger] items[j]),
    ensures
        csubst_all(items, s) == items,
    decreases items,
{
    assert forall|j: int| 0 <= j < items.len() implies csubst(items[j], s) == items[j] by {
        lemma_csubst_inactive(items[j], s);
    }
    assert(csubst_all(items, s) =~= items);
}

/// The items of a conjunction or disjunction `f` that no variable of `s` is
/// free in have no variable of `s` free in them either.
proof fn lemma_items_inactive(f: SFormula, items: Seq<SFormula>, s: Subst)
    requires
        !acts_on(s, f),
        f == SFormula::And(items) || f == SFormula::Or(items),
    ensures
        forall|j: int| 0 <= j < items.len() ==> !acts_on(s, #[trigger] items[j]),
{
    assert forall|j: int| 0 <= j < items.len() implies !acts_on(s, #[trigger] items[j]) by {
        assert forall|i: int| 0 <= i < s.len() implies !free_in(items[j], #[trigger] s[i].0) by {
            let flags = free_occurrences(items, s[i].0);
            if free_in(items[j], s[i].0) {
                assert(flags[j]);
                assert(flags.contains(true));
                assert(free_in(f, s[i].0));
            }
        }
    }
}

/// Substituting for a variable that does not occur free leaves a formula
/// unchanged.
pub proof fn lemma_subst_not_free(f: SFormula, x: Seq<char>, r: STerm)
    requires
        !free_in(f, x),
    ensures
        subst_formula(f, x, r) == f,
{
    let s = seq![(x, r)];
    assert forall|i: int| 0 <= i < s.len() implies !free_in(f, #[trigger] s[i].0) by {
        assert(s[i].0 == x);
    }
    lemma_csubst_inactive(f, s);
}

/// Whether each entry of a substitution gives its variable back unchanged.
pub open spec fn identity_subst(s: Subst) -> bool {
    forall|i: int| 0 <= i < s.len() ==> (#[trigger] s[i]).1 == STerm::Var(s[i].0)
}

/// A substitution whose entries give their variables back gives every
/// variable back.
proof fn lemma_lookup_identity(s: Subst, v: Seq<char>)
    requires
        identity_subst(s),
    ensures
        lookup_var(s, v) == STerm::Var(v),
    decreases s.len(),
{
    if s.len() > 0 {
        assert(s[0].1 == STerm::Var(s[0].0));
        assert forall|i: int| 0 <= i < s.drop_first().len() implies (#[trigger] s.drop_first()[i]).1 == STerm::Var(
            s.drop_first()[i].0,
        ) by {
            assert(s.drop_first()[i] == s[i + 1]);
        }
        lemma_lookup_identity(s.drop_first(), v);
    }
}

/// A substitution whose entries give their variables back leaves a term
/// unchanged.
proof fn lemma_tsubst_identity(t: STerm, s: Subst)
    requires
        identity_subst(s),
    ensures
        tsubst(t, s) == t,
    decreases t,
{
    match t {
        STerm::Var(v) => lemma_lookup_identity(s, v),
        STerm::Fun(n, args) => {
            assert forall|j: int| 0 <= j < args.len() implies tsubst(args[j], s) == args[j] by {
                lemma_tsubst_identity(args[j], s);
            }
            assert(tsubst_all(args, s) =~= args);
        },
        _ => {},
    }
}

/// No bound variable is renamed when none clashes.
proof fn lemma_no_clash_no_renaming(vars: Seq<Seq<char>>, s: Subst, bound: nat, n: nat)
    requires
        forall|i: int| 0 <= i < vars.len() ==> !clashes(#[trigger] vars[i], s),
    ensures
        renaming_entries(vars, s, bound, n) == Seq::<(Seq<char>, STerm)>::empty(),
        renamed_vars(vars, s, bound) == vars,
    decreases n,
{
    if n > 0 && n <= vars.len() {
        lemma_no_clash_no_renaming(vars, s, bound, (n - 1) as nat);
        assert(!clashes(vars[n - 1], s));
        assert(renaming_entries(vars, s, bound, n) =~= Seq::<(Seq<char>, STerm)>::empty());
    }
    assert(renamed_vars(vars, s, bound) =~= vars);
}

/// Crossing a quantifier with a substitution whose entries give their
/// variables back renames nothing and leaves such a substitution.
proof fn lemma_cross_identity(vars: Seq<Seq<char>>, body: SFormula, s: Subst)
    requires
        identity_subst(s),
    ensures
        cross_binder(vars, body, s).0 == vars,
        cross_binder(vars, body, s).1 == unshadowed(s, vars),
        identity_subst(unshadowed(s, vars)),
{
    let s0 = unshadowed(s, vars);
    lemma_unshadowed_entries(s, vars);
    assert forall|k: int| 0 <= k < s0.len() implies (#[trigger] s0[k]).1 == STerm::Var(s0[k].0) by {
        let i = choose|i: int| 0 <= i < s.len() && #[trigger] s0[k] == s[i] && !vars.contains(s[i].0);
        assert(s[i].1 == STerm::Var(s[i].0));
    }
    assert forall|i: int| 0 <= i < vars.len() implies !clashes(#[trigger] vars[i], s0) by {
        if clashes(vars[i], s0) {
            let k = choose|k: int| 0 <= k < s0.len() && #[trigger] occurs_in_term(s0[k].1, vars[i]);
            let j = choose|j: int| 0 <= j < s.len() && #[trigger] s0[k] == s[j] && !vars.contains(s[j].0);
            assert(s0[k].1 == STerm::Var(s0[k].0));
            assert(vars.contains(vars[i]));
        }
    }
    let bound = max_nat(max_nat(formula_name_len(body), subst_name_len(s0)), max_of(name_lens(vars)));
    lemma_no_clash_no_renaming(vars, s0, bound, vars.len());
    assert(s0 + Seq::<(Seq<char>, STerm)>::empty() =~= s0);
}

/// A substitution whose entries give their variables back leaves a formula
/// unchanged.
proof fn lemma_csubst_identity(f: SFormula, s: Subst)
    requires
        identity_subst(s),
    ensures
        csubst(f, s) == f,
    decreases f,
{
    match f {
        SFormula::Atom(p, args) => {
            assert forall|j: int| 0 <= j < args.len() implies tsubst(args[j], s) == args[j] by {
                lemma_tsubst_identity(args[j], s);
            }
            assert(tsubst_all(args, s) =~= args);
        },
        SFormula::Not(inner) => lemma_csubst_identity(*inner, s),
        SFormula::And(items) => lemma_csubst_all_identity(items, s),
        SFormula::Or(items) => lemma_csubst_all_identity(items, s),
        SFormula::Implies(a, b) => {
            lemma_csubst_identity(*a, s);
            lemma_csubst_identity(*b, s);
        },
        SFormula::ForAll(vars, body) => {
            lemma_cross_identity(vars, *body, s);
            lemma_csubst_identity(*body, unshadowed(s, vars));
        },
        SFormula::Exists(vars, body) => {
            lemma_cross_identity(vars, *body, s);
            lemma_csubst_identity(*body, unshadowed(s, vars));
        },
        _ => {},
    }
}

proof fn lemma_csubst_all_identity(items: Seq<SFormula>, s: Subst)
    requires
        identity_subst(s),
    ensures
        csubst_all(items, s) == items,
    decreases items,
{
    assert forall|j: int| 0 <= j < items.len() implies csubst(items[j], s) == items[j] by {
        lemma_csubst_identity(items[j], s);
    }
    assert(csubst_all(items, s) =~= items);
}

/// Substituting a variable by itself leaves a formula unchanged.
pub proof fn lemma_subst_self(f: SFormula, x: Seq<char>)
    ensures
        subst_formula(f, x, STerm::Var(x)) == f,
{
    let s = seq![(x, STerm::Var(x))];
    assert(identity_subst(s)) by {
        assert forall|i: int| 0 <= i < s.len() implies (#[trigger] s[i]).1 == STerm::Var(s[i].0) by {}
    }
    lemma_csubst_identity(f, s);
}

/// Whether a substitution has an entry for `x`.
pub open spec fn covers(s: Subst, x: Seq<char>) -> bool {
    exists|i: int| 0 <= i < s.len() && #[trigger] s[i].0 == x
}

/// Whether no term of a substitution mentions `x`.
pub open spec fn keeps_out(s: Subst, x: Seq<char>) -> bool {
    forall|i: int| 0 <= i < s.len() ==> !occurs_in_term(#[trigger] s[i].1, x)
}

/// The term a substitution gives a variable: the term of one of its
/// entries for it, or, when it has none, the variable itself.
proof fn lemma_lookup_cases(s: Subst, v: Seq<char>)
    ensures
        (lookup_var(s, v) == STerm::Var(v) && !covers(s, v)) || exists|i: int|
            0 <= i < s.len() && #[trigger] s[i].0 == v && lookup_var(s, v) == s[i].1,
    decreases s.len(),
{
    if s.len() > 0 {
        let rest = s.drop_first();
        lemma_lookup_cases(rest, v);
        if s[0].0 == v {
            assert(s[0].0 == v && lookup_var(s, v) == s[0].1);
        } else if exists|i: int| 0 <= i < rest.len() && #[trigger] rest[i].0 == v && lookup_var(rest, v) == rest[i].1 {
            let i = choose|i: int| 0 <= i < rest.len() && #[trigger] rest[i].0 == v && lookup_var(rest, v) == rest[i].1;
            assert(s[i + 1] == rest[i]);
            assert(s[i + 1].0 == v && lookup_var(s, v) == s[i + 1].1);
        } else {
            assert forall|i: int| 0 <= i < s.len() implies #[trigger] s[i].0 != v by {
                if i > 0 {
                    assert(s[i] == rest[i - 1]);
                    if s[i].0 == v {
                        assert(covers(rest, v));
                    }
                }
            }
        }
    } else {
        assert(!covers(s, v));
    }
}

/// A substitution with an entry for `x` whose terms do not mention `x`
/// leaves `x` in no term.
proof fn lemma_tsubst_eliminates(t: STerm, s: Subst, x: Seq<char>)
    requires
        covers(s, x),
        keeps_out(s, x),
    ensures
        !occurs_in_term(tsubst(t, s), x),
    decreases t,
{
    match t {
        STerm::Var(v) => {
            lemma_lookup_cases(s, v);
            if exists|i: int| 0 <= i < s.len() && #[trigger] s[i].0 == v && lookup_var(s, v) == s[i].1 {
                let i = choose|i: int| 0 <= i < s.len() && #[trigger] s[i].0 == v && lookup_var(s, v) == s[i].1;
                assert(!occurs_in_term(s[i].1, x));
            }
        },
        STerm::Fun(n, args) => {
            let out = tsubst_all(args, s);
            let flags = occurrences_in_terms(out, x);
            assert forall|j: int| 0 <= j < flags.len() implies !flags[j] by {
                lemma_tsubst_eliminates(args[j], s, x);
            }
            assert(!flags.contains(true));
        },
        _ => {},
    }
}

/// Every entry of `s` whose variable a quantifier does not bind survives it.
proof fn lemma_unshadowed_keeps(s: Subst, vars: Seq<Seq<char>>, i: int)
    requires
        0 <= i < s.len(),
        !vars.contains(s[i].0),
    ensures
        exists|j: int| 0 <= j < unshadowed(s, vars).len() && #[trigger] unshadowed(s, vars)[j] == s[i],
    decreases s.len(),
{
    let rest = s.drop_last();
    if i == s.len() - 1 {
        let u = unshadowed(s, vars);
        assert(u == unshadowed(rest, vars).push(s.last()));
        assert(u[u.len() - 1] == s[i]);
    } else {
        assert(rest[i] == s[i]);
        lemma_unshadowed_keeps(rest, vars, i);
        let j = choose|j: int| 0 <= j < unshadowed(rest, vars).len() && #[trigger] unshadowed(rest, vars)[j] == rest[i];
        if vars.contains(s.last().0) {
            assert(unshadowed(s, vars) == unshadowed(rest, vars));
            assert(unshadowed(s, vars)[j] == s[i]);
        } else {
            assert(unshadowed(s, vars) == unshadowed(rest, vars).push(s.last()));
            assert(unshadowed(s, vars)[j] == s[i]);
        }
    }
}

/// The renaming entries map bound variables to the new names they get.
proof fn lemma_renaming_entries_shape(vars: Seq<Seq<char>>, s: Subst, bound: nat, n: nat)
    ensures
        forall|j: int|
            0 <= j < renaming_entries(vars, s, bound, n).len() ==> exists|k: int|
                0 <= k < vars.len() && (#[trigger] renaming_entries(vars, s, bound, n)[j]).1 == STerm::Var(
                    renamed_var(vars[k], s, bound, k),
                ),
    decreases n,
{
    if n > 0 && n <= vars.len() {
        let prev = renaming_entries(vars, s, bound, (n - 1) as nat);
        lemma_renaming_entries_shape(vars, s, bound, (n - 1) as nat);
        let cur = renaming_entries(vars, s, bound, n);
        assert forall|j: int| 0 <= j < cur.len() implies exists|k: int|
            0 <= k < vars.len() && (#[trigger] cur[j]).1 == STerm::Var(renamed_var(vars[k], s, bound, k)) by {
            if j < prev.len() {
                assert(cur[j] == prev[j]);
                let k = choose|k: int|
                    0 <= k < vars.len() && (#[trigger] prev[j]).1 == STerm::Var(renamed_var(vars[k], s, bound, k));
            } else {
                assert(cur[j].1 == STerm::Var(renamed_var(vars[n - 1], s, bound, n - 1)));
            }
        }
    }
}

/// A substitution with an entry for `x` whose terms do not mention `x`
/// leaves `x` free nowhere.
proof fn lemma_csubst_eliminates(f: SFormula, s: Subst, x: Seq<char>)
    requires
        covers(s, x),
        keeps_out(s, x),
    ensures
        !free_in(csubst(f, s), x),
    decreases f, 0nat,
{
    match f {
        SFormula::Atom(p, args) => {
            let out = tsubst_all(args, s);
            let flags = occurrences_in_terms(out, x);
            assert forall|j: int| 0 <= j < flags.len() implies !flags[j] by {
                lemma_tsubst_eliminates(args[j], s, x);
            }
            assert(!flags.contains(true));
        },
        SFormula::Not(inner) => lemma_csubst_eliminates(*inner, s, x),
        SFormula::And(items) => lemma_csubst_all_eliminates(items, s, x),
        SFormula::Or(items) => lemma_csubst_all_eliminates(items, s, x),
        SFormula::Implies(a, b) => {
            lemma_csubst_eliminates(*a, s, x);
            lemma_csubst_eliminates(*b, s, x);
        },
        SFormula::ForAll(vars, body) => lemma_binder_eliminates(vars, *body, s, x),
        SFormula::Exists(vars, body) => lemma_binder_eliminates(vars, *body, s, x),
        _ => {},
    }
}

/// Under a quantifier, `x` is bound by the new quantifier or replaced in
/// the body.
proof fn lemma_binder_eliminates(vars: Seq<Seq<char>>, body: SFormula, s: Subst, x: Seq<char>)
    requires
        covers(s, x),
        keeps_out(s, x),
    ensures
        ({
            let (vars2, s2) = cross_binder(vars, body, s);
            vars2.contains(x) || !free_in(csubst(body, s2), x)
        }),
    decreases body, 1nat,
{
    let s0 = unshadowed(s, vars);
    let (vars2, s2) = cross_binder(vars, body, s);
    lemma_unshadowed_entries(s, vars);
    if !vars2.contains(x) {
        let bound = max_nat(max_nat(formula_name_len(body), subst_name_len(s0)), max_of(name_lens(vars)));
        // x is not bound by the quantifier
        if vars.contains(x) {
            let k = choose|k: int| 0 <= k < vars.len() && vars[k] == x;
            if acts_on(s0, body) {
                assert(!clashes(x, s0)) by {
                    if clashes(x, s0) {
                        let i = choose|i: int| 0 <= i < s0.len() && #[trigger] occurs_in_term(s0[i].1, x);
                        let j = choose|j: int| 0 <= j < s.len() && #[trigger] s0[i] == s[j] && !vars.contains(s[j].0);
                        assert(!occurs_in_term(s[j].1, x));
                    }
                }
                assert(vars2[k] == x);
            }
            assert(vars2.contains(x));
        }
        // the entry for x survives
        let i = choose|i: int| 0 <= i < s.len() && #[trigger] s[i].0 == x;
        lemma_unshadowed_keeps(s, vars, i);
        let j = choose|j: int| 0 <= j < s0.len() && #[trigger] s0[j] == s[i];
        assert(s2[j] == s0[j]);
        assert(covers(s2, x));
        // no term of s2 mentions x
        lemma_renaming_entries_shape(vars, s0, bound, vars.len());
        assert forall|m: int| 0 <= m < s2.len() implies !occurs_in_term(#[trigger] s2[m].1, x) by {
            if m < s0.len() {
                assert(s2[m] == s0[m]);
                let j2 = choose|j2: int| 0 <= j2 < s.len() && #[trigger] s0[m] == s[j2] && !vars.contains(s[j2].0);
                assert(!occurs_in_term(s[j2].1, x));
            } else {
                let e = renaming_entries(vars, s0, bound, vars.len());
                assert(s2[m] == e[m - s0.len()]);
                let k = choose|k: int|
                    0 <= k < vars.len() && (#[trigger] e[m - s0.len()]).1 == STerm::Var(renamed_var(vars[k], s0, bound, k));
                assert(vars2[k] == renamed_var(vars[k], s0, bound, k));
            }
        }
        lemma_csubst_eliminates(body, s2, x);
    }
}

proof fn lemma_csubst_all_eliminates(items: Seq<SFormula>, s: Subst, x: Seq<char>)
    requires
        covers(s, x),
        keeps_out(s, x),
    ensures
        !free_occurrences(csubst_all(items, s), x).contains(true),
    decreases items, 0nat,
{
    let flags = free_occurrences(csubst_all(items, s), x);
    assert forall|j: int| 0 <= j < flags.len() implies !flags[j] by {
        lemma_csubst_eliminates(items[j], s, x);
    }
}

/// Substituting for a variable a term that does not mention it leaves the
/// variable free nowhere: `x` is not free in `f[t/x]`, whatever `f` is.
pub proof fn lemma_subst_eliminates(f: SFormula, x: Seq<char>, t: STerm)
    requires
        !occurs_in_term(t, x),
    ensures
        !free_in(subst_formula(f, x, t), x),
{
    let s = seq![(x, t)];
    assert(s[0].0 == x);
    assert(covers(s, x));
    assert(keeps_out(s, x));
    lemma_csubst_eliminates(f, s, x);
}

/// The largest of some numbers is at least each of them.
proof fn lemma_max_of_ge(ns: Seq<nat>, i: int)
    requires
        0 <= i < ns.len(),
    ensures
        ns[i] <= max_of(ns),
    decreases ns.len(),
{
    if i < ns.len() - 1 {
        assert(ns.drop_last()[i] == ns[i]);
        lemma_max_of_ge(ns.drop_last(), i);
    }
}

/// A variable occurring in a term is no longer than the term's longest
/// variable name.
proof fn lemma_occurs_len(t: STerm, y: Seq<char>)
    requires
        occurs_in_term(t, y),
    ensures
        y.len() <= term_name_len(t),
    decreases t,
{
    if let STerm::Fun(n, args) = t {
        let flags = occurrences_in_terms(args, y);
        let i = choose|i: int| 0 <= i < flags.len() && flags[i] == true;
        lemma_occurs_len(args[i], y);
        lemma_max_of_ge(terms_name_lens(args), i);
    }
}

/// The first entry of a substitution survives a quantifier that does not
/// bind its variable, as the first entry.
proof fn lemma_unshadowed_first(s: Subst, vars: Seq<Seq<char>>)
    requires
        s.len() > 0,
        !vars.contains(s[0].0),
    ensures
        unshadowed(s, vars).len() > 0,
        unshadowed(s, vars)[0] == s[0],
    decreases s.len(),
{
    let rest = s.drop_last();
    if s.len() == 1 {
        assert(rest.len() == 0);
        assert(unshadowed(rest, vars) =~= Seq::<(Seq<char>, STerm)>::empty());
        assert(s.last() == s[0]);
    } else {
        assert(rest[0] == s[0]);
        lemma_unshadowed_first(rest, vars);
        if !vars.contains(s.last().0) {
            assert(unshadowed(s, vars) == unshadowed(rest, vars).push(s.last()));
        }
    }
}

/// Where the first entry's variable occurs in a term, the variables of its
/// replacement occur in the result.
proof fn lemma_tsubst_keeps(t: STerm, s: Subst, y: Seq<char>)
    requires
        s.len() > 0,
        occurs_in_term(t, s[0].0),
        occurs_in_term(s[0].1, y),
    ensures
        occurs_in_term(tsubst(t, s), y),
    decreases t,
{
    match t {
        STerm::Var(v) => {},
        STerm::Fun(n, args) => {
            let flags = occurrences_in_terms(args, s[0].0);
            let i = choose|i: int| 0 <= i < flags.len() && flags[i] == true;
            lemma_tsubst_keeps(args[i], s, y);
            let out = occurrences_in_terms(tsubst_all(args, s), y);
            assert(out[i]);
        },
        _ => {},
    }
}

/// Where the first entry's variable is free, the variables of its
/// replacement are free in the result: nothing put in is captured.
proof fn lemma_csubst_keeps(f: SFormula, s: Subst, y: Seq<char>)
    requires
        s.len() > 0,
        free_in(f, s[0].0),
        occurs_in_term(s[0].1, y),
    ensures
        free_in(csubst(f, s), y),
    decreases f, 0nat,
{
    let x = s[0].0;
    match f {
        SFormula::Atom(p, args) => {
            let flags = occurrences_in_terms(args, x);
            let i = choose|i: int| 0 <= i < flags.len() && flags[i] == true;
            lemma_tsubst_keeps(args[i], s, y);
            let out = occurrences_in_terms(tsubst_all(args, s), y);
            assert(out[i]);
        },
        SFormula::Not(inner) => lemma_csubst_keeps(*inner, s, y),
        SFormula::And(items) => lemma_csubst_all_keeps(items, s, y),
        SFormula::Or(items) => lemma_csubst_all_keeps(items, s, y),
        SFormula::Implies(a, b) => {
            if free_in(*a, x) {
                lemma_csubst_keeps(*a, s, y);
            } else {
                lemma_csubst_keeps(*b, s, y);
            }
        },
        SFormula::ForAll(vars, body) => lemma_binder_keeps(vars, *body, s, y),
        SFormula::Exists(vars, body) => lemma_binder_keeps(vars, *body, s, y),
        _ => {},
    }
}

/// Under a quantifier over which the first entry's variable is free, the
/// quantifier binds no variable of its replacement after renaming, and the
/// body keeps them free.
proof fn lemma_binder_keeps(vars: Seq<Seq<char>>, body: SFormula, s: Subst, y: Seq<char>)
    requires
        s.len() > 0,
        !vars.contains(s[0].0),
        free_in(body, s[0].0),
        occurs_in_term(s[0].1, y),
    ensures
        ({
            let (vars2, s2) = cross_binder(vars, body, s);
            !vars2.contains(y) && free_in(csubst(body, s2), y)
        }),
    decreases body, 1nat,
{
    let s0 = unshadowed(s, vars);
    lemma_unshadowed_first(s, vars);
    assert(free_in(body, s0[0].0));
    assert(acts_on(s0, body));
    let bound = max_nat(max_nat(formula_name_len(body), subst_name_len(s0)), max_of(name_lens(vars)));
    let (vars2, s2) = cross_binder(vars, body, s);
    assert(vars2 == renamed_vars(vars, s0, bound));
    lemma_occurs_len(s0[0].1, y);
    lemma_max_of_ge(subst_name_lens(s0), 0);
    assert forall|k: int| 0 <= k < vars2.len() implies vars2[k] != y by {
        if clashes(vars[k], s0) {
            assert(vars2[k] == primed(vars[k], (bound + 1 + k) as nat));
            assert(vars2[k].len() > bound);
        } else {
            assert(vars2[k] == vars[k]);
            assert(!occurs_in_term(s0[0].1, vars[k]));
        }
    }
    assert(s2[0] == s0[0]);
    lemma_csubst_keeps(body, s2, y);
}

proof fn lemma_csubst_all_keeps(items: Seq<SFormula>, s: Subst, y: Seq<char>)
    requires
        s.len() > 0,
        free_occurrences(items, s[0].0).contains(true),
        occurs_in_term(s[0].1, y),
    ensures
        free_occurrences(csubst_all(items, s), y).contains(true),
    decreases items, 0nat,
{
    let flags = free_occurrences(items, s[0].0);
    let i = choose|i: int| 0 <= i < flags.len() && flags[i] == true;
    lemma_csubst_keeps(items[i], s, y);
    let out = free_occurrences(csubst_all(items, s), y);
    assert(out[i]);
}

/// Substitution captures nothing: where `x` is free in `f`, every variable
/// of `t` is free in `f[t/x]`; a bound variable that would capture one is
/// renamed.
pub proof fn lemma_subst_no_capture(f: SFormula, x: Seq<char>, t: STerm, y: Seq<char>)
    requires
        free_in(f, x),
        occurs_in_term(t, y),
    ensures
        free_in(subst_formula(f, x, t), y),
{
    let s = seq![(x, t)];
    lemma_csubst_keeps(f, s, y);
}

impl View for Symbol {
    type V = SSymbol;

    open spec fn view(&self) -> SSymbol {
        match self {
            Symbol::User(s) => SSymbol::User(s@),
            Symbol::Defined(s) => SSymbol::Defined(s@),
            Symbol::System(s) => SSymbol::System(s@),
        }
    }
}

impl View for NumberLit {
    type V = SNumber;

    open spec fn view(&self) -> SNumber {
        match self {
            NumberLit::Integer(s) => SNumber::Integer(s@),
            NumberLit::Rational(s) => SNumber::Rational(s@),
            NumberLit::Real(s) => SNumber::Real(s@),
        }
    }
}

impl View for Var {
    type V = Seq<char>;

    open spec fn view(&self) -> Seq<char> {
        self.name@
    }
}

/// The model of a term.
pub open spec fn term_model(t: Term) -> STerm
    decreases t,
{
    match t {
        Term::Var(v) => STerm::Var(v.name@),
        Term::Const(s) => STerm::Const(s@),
        Term::Fun { name, args } => STerm::Fun(name@, terms_model(args@)),
        Term::Number(n) => STerm::Number(n@),
        Term::DistinctObject(s) => STerm::Distinct(s@),
    }
}

/// The models of a sequence of terms.
pub open spec fn terms_model(ts: Seq<Term>) -> Seq<STerm>
    decreases ts,
{
    Seq::new(ts.len(), |i: int| if 0 <= i < ts.len() { term_model(ts[i]) } else { STerm::Var(Seq::empty()) })
}

/// The variable names of a sequence of variables.
pub open spec fn vars_model(vs: Seq<Var>) -> Seq<Seq<char>> {
    Seq::new(vs.len(), |i: int| vs[i].name@)
}

/// The models of a sequence of terms have its length.
pub broadcast proof fn lemma_terms_model_len(ts: Seq<Term>)
    ensures
        #[trigger] terms_model(ts).len() == ts.len(),
{
}

/// The models of a sequence of terms are the models of its elements.
pub broadcast proof fn lemma_terms_model_index(ts: Seq<Term>, i: int)
    requires
        0 <= i < ts.len(),
    ensures
        #[trigger] terms_model(ts)[i] == term_model(ts[i]),
{
}

/// Pushing a term pushes its model.
pub broadcast proof fn lemma_terms_model_push(ts: Seq<Term>, t: Term)
    ensures
        #[trigger] terms_model(ts.push(t)) == terms_model(ts).push(term_model(t)),
{
    assert(terms_model(ts.push(t)) =~= terms_model(ts).push(term_model(t)));
}

/// The model of a term built from its parts.
pub broadcast proof fn lemma_term_model_fun(name: Symbol, args: Vec<Term>)
    ensures
        #[trigger] term_model(Term::Fun { name, args }) == STerm::Fun(name@, terms_model(args@)),
{
}

pub broadcast group group_model {
    lemma_terms_model_len,
    lemma_terms_model_index,
    lemma_terms_model_push,
    lemma_term_model_fun,
    lemma_formulas_model_len,
    lemma_formulas_model_index,
    lemma_formulas_model_push,
}

impl View for Term {
    type V = STerm;

    open spec fn view(&self) -> STerm {
        term_model(*self)
    }
}

/// The model of a formula.
pub open spec fn formula_model(f: Formula) -> SFormula
    decreases f,
{
    match f {
        Formula::True => SFormula::True,
        Formula::False => SFormula::False,
        Formula::Atom(Atom::Predicate { name, args }) => SFormula::Atom(name@, terms_model(args@)),
        Formula::Not(inner) => SFormula::Not(Box::new(formula_model(*inner))),
        Formula::And(items) => SFormula::And(formulas_model(items@)),
        Formula::Or(items) => SFormula::Or(formulas_model(items@)),
        Formula::Implies(a, b) => SFormula::Implies(Box::new(formula_model(*a)), Box::new(formula_model(*b))),
        Formula::ForAll(vars, body) => SFormula::ForAll(vars_model(vars@), Box::new(formula_model(*body))),
        Formula::Exists(vars, body) => SFormula::Exists(vars_model(vars@), Box::new(formula_model(*body))),
    }
}

/// The models of a sequence of formulas.
pub open spec fn formulas_model(fs: Seq<Formula>) -> Seq<SFormula>
    decreases fs,
{
    Seq::new(fs.len(), |i: int| if 0 <= i < fs.len() { formula_model(fs[i]) } else { SFormula::True })
}

/// The models of a sequence of formulas have its length.
pub broadcast proof fn lemma_formulas_model_len(fs: Seq<Formula>)
    ensures
        #[trigger] formulas_model(fs).len() == fs.len(),
{
}

/// Pushing a formula pushes its model.
pub broadcast proof fn lemma_formulas_model_push(fs: Seq<Formula>, f: Formula)
    ensures
        #[trigger] formulas_model(fs.push(f)) == formulas_model(fs).push(formula_model(f)),
{
    assert(formulas_model(fs.push(f)) =~= formulas_model(fs).push(formula_model(f)));
}

/// The models of a sequence of formulas are the models of its elements.
pub broadcast proof fn lemma_formulas_model_index(fs: Seq<Formula>, i: int)
    requires
        0 <= i < fs.len(),
    ensures
        #[trigger] formulas_model(fs)[i] == formula_model(fs[i]),
{
}


impl View for Formula {
    type V = SFormula;

    open spec fn view(&self) -> SFormula {
        formula_model(*self)
    }
}

impl View for Atom {
    type V = SFormula;

    open spec fn view(&self) -> SFormula {
        formula_model(Formula::Atom(*self))
    }
}

} // verus!
