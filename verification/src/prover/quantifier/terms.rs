//! Term and symbol collection helpers used by quantifier scheduling.

use vstd::prelude::*;

use crate::ast::formula::{Atom, Formula};
use crate::ast::model::{formula_model, formulas_model, group_model, term_model, terms_model, vars_model, SFormula, SSequent, STerm};
use crate::ast::render::render_term;
use crate::ast::term::{Symbol, Term};
use crate::prover::sequent::Sequent;
use crate::text::strings_contain;

verus! {

broadcast use vstd::seq::axiom_seq_index_decreases, vstd::std_specs::vec::axiom_vec_index_decreases, group_model;

/// The set of character sequences held by a list of strings.
pub open spec fn name_set(v: Seq<String>) -> Set<Seq<char>> {
    v.map_values(|s: String| s@).to_set()
}

/// Every name occurring in a term: variables, constants and function symbols.
pub open spec fn term_symbols(t: STerm) -> Set<Seq<char>>
    decreases t, 0nat,
{
    match t {
        STerm::Var(n) => set![n],
        STerm::Const(s) => set![s.name()],
        STerm::Fun(s, args) => set![s.name()].union(terms_symbols(args, args.len())),
        STerm::Number(_) => Set::empty(),
        STerm::Distinct(_) => Set::empty(),
    }
}

/// The names occurring in the first `n` terms.
pub open spec fn terms_symbols(args: Seq<STerm>, n: nat) -> Set<Seq<char>>
    decreases args, n,
{
    if n == 0 || n > args.len() {
        Set::empty()
    } else {
        terms_symbols(args, (n - 1) as nat).union(term_symbols(args[n - 1]))
    }
}

/// Every name occurring in a formula: predicate, function and constant
/// symbols and all variable names, bound or free.
pub open spec fn formula_symbols(f: SFormula) -> Set<Seq<char>>
    decreases f, 0nat,
{
    match f {
        SFormula::True => Set::empty(),
        SFormula::False => Set::empty(),
        SFormula::Atom(p, args) => set![p.name()].union(terms_symbols(args, args.len())),
        SFormula::Not(inner) => formula_symbols(*inner),
        SFormula::And(items) => formulas_symbols(items, items.len()),
        SFormula::Or(items) => formulas_symbols(items, items.len()),
        SFormula::Implies(a, b) => formula_symbols(*a).union(formula_symbols(*b)),
        SFormula::ForAll(vars, body) => vars.to_set().union(formula_symbols(*body)),
        SFormula::Exists(vars, body) => vars.to_set().union(formula_symbols(*body)),
    }
}

/// The names occurring in the first `n` formulas.
pub open spec fn formulas_symbols(fs: Seq<SFormula>, n: nat) -> Set<Seq<char>>
    decreases fs, n,
{
    if n == 0 || n > fs.len() {
        Set::empty()
    } else {
        formulas_symbols(fs, (n - 1) as nat).union(formula_symbols(fs[n - 1]))
    }
}

/// Every name occurring anywhere in a sequent.
pub open spec fn sequent_symbols(s: SSequent) -> Set<Seq<char>> {
    formulas_symbols(s.left, s.left.len()).union(formulas_symbols(s.right, s.right.len()))
}

/// An immediate part of a formula: the operand of a negation, an item of a
/// conjunction or disjunction, a side of an implication, the body of a
/// quantifier.
pub open spec fn is_part(g: SFormula, f: SFormula) -> bool {
    match f {
        SFormula::Not(inner) => g == *inner,
        SFormula::And(items) => items.contains(g),
        SFormula::Or(items) => items.contains(g),
        SFormula::Implies(a, b) => g == *a || g == *b,
        SFormula::ForAll(_, body) => g == *body,
        SFormula::Exists(_, body) => g == *body,
        _ => false,
    }
}

/// The names of the first `n` items include those of each of them.
proof fn lemma_formulas_symbols_item(fs: Seq<SFormula>, n: nat, i: int)
    requires
        0 <= i < n <= fs.len(),
    ensures
        formula_symbols(fs[i]).subset_of(formulas_symbols(fs, n)),
    decreases n,
{
    if i < n - 1 {
        lemma_formulas_symbols_item(fs, (n - 1) as nat, i);
    }
}

/// The names of the first `n` terms include those of each of them.
proof fn lemma_terms_symbols_item(ts: Seq<STerm>, n: nat, i: int)
    requires
        0 <= i < n <= ts.len(),
    ensures
        term_symbols(ts[i]).subset_of(terms_symbols(ts, n)),
    decreases n,
{
    if i < n - 1 {
        lemma_terms_symbols_item(ts, (n - 1) as nat, i);
    }
}

/// Every name of an immediate part of a formula is a name of the formula:
/// the names of a formula include those of every formula inside it, under
/// any connective or quantifier.
pub proof fn lemma_part_symbols(g: SFormula, f: SFormula)
    requires
        is_part(g, f),
    ensures
        formula_symbols(g).subset_of(formula_symbols(f)),
{
    match f {
        SFormula::And(items) => {
            let i = choose|i: int| 0 <= i < items.len() && items[i] == g;
            lemma_formulas_symbols_item(items, items.len(), i);
        },
        SFormula::Or(items) => {
            let i = choose|i: int| 0 <= i < items.len() && items[i] == g;
            lemma_formulas_symbols_item(items, items.len(), i);
        },
        _ => {},
    }
}

/// The names of an atom include its predicate's name and every name of
/// each of its arguments.
pub proof fn lemma_atom_symbols(f: SFormula, i: int)
    requires
        f is Atom,
        0 <= i < f->Atom_1.len(),
    ensures
        formula_symbols(f).contains(f->Atom_0.name()),
        term_symbols(f->Atom_1[i]).subset_of(formula_symbols(f)),
{
    lemma_terms_symbols_item(f->Atom_1, f->Atom_1.len(), i);
}

/// The names of a term include those of its arguments, and every variable
/// and constant it is.
pub proof fn lemma_term_part_symbols(t: STerm, i: int)
    requires
        t is Fun,
        0 <= i < t->Fun_1.len(),
    ensures
        term_symbols(t).contains(t->Fun_0.name()),
        term_symbols(t->Fun_1[i]).subset_of(term_symbols(t)),
{
    lemma_terms_symbols_item(t->Fun_1, t->Fun_1.len(), i);
}

/// A variable's and a constant's name are names of the term, and the bound
/// variables of a quantifier are names of the formula.
pub proof fn lemma_leaf_symbols(t: STerm, f: SFormula)
    ensures
        t matches STerm::Var(n) ==> term_symbols(t).contains(n),
        t matches STerm::Const(c) ==> term_symbols(t).contains(c.name()),
        f matches SFormula::ForAll(vars, body) ==> vars.to_set().subset_of(formula_symbols(f)),
        f matches SFormula::Exists(vars, body) ==> vars.to_set().subset_of(formula_symbols(f)),
{
}

/// The names of a sequent include those of each of its formulas.
pub proof fn lemma_sequent_formula_symbols(s: SSequent, i: int, left: bool)
    requires
        0 <= i < (if left {
            s.left.len()
        } else {
            s.right.len()
        }),
    ensures
        formula_symbols(if left {
            s.left[i]
        } else {
            s.right[i]
        }).subset_of(sequent_symbols(s)),
{
    if left {
        lemma_formulas_symbols_item(s.left, s.left.len(), i);
    } else {
        lemma_formulas_symbols_item(s.right, s.right.len(), i);
    }
}

proof fn lemma_term_symbols_finite(t: STerm)
    ensures
        term_symbols(t).finite(),
    decreases t, 0nat,
{
    if let STerm::Fun(s, args) = t {
        lemma_terms_symbols_finite(args, args.len());
    }
}

proof fn lemma_terms_symbols_finite(args: Seq<STerm>, n: nat)
    ensures
        terms_symbols(args, n).finite(),
    decreases args, n,
{
    if n > 0 && n <= args.len() {
        lemma_terms_symbols_finite(args, (n - 1) as nat);
        lemma_term_symbols_finite(args[n - 1]);
    }
}

proof fn lemma_formula_symbols_finite(f: SFormula)
    ensures
        formula_symbols(f).finite(),
    decreases f, 0nat,
{
    match f {
        SFormula::Atom(p, args) => lemma_terms_symbols_finite(args, args.len()),
        SFormula::Not(inner) => lemma_formula_symbols_finite(*inner),
        SFormula::And(items) => lemma_formulas_symbols_finite(items, items.len()),
        SFormula::Or(items) => lemma_formulas_symbols_finite(items, items.len()),
        SFormula::Implies(a, b) => {
            lemma_formula_symbols_finite(*a);
            lemma_formula_symbols_finite(*b);
        },
        SFormula::ForAll(vars, body) => {
            vstd::seq_lib::seq_to_set_is_finite(vars);
            lemma_formula_symbols_finite(*body);
        },
        SFormula::Exists(vars, body) => {
            vstd::seq_lib::seq_to_set_is_finite(vars);
            lemma_formula_symbols_finite(*body);
        },
        _ => {},
    }
}

proof fn lemma_formulas_symbols_finite(fs: Seq<SFormula>, n: nat)
    ensures
        formulas_symbols(fs, n).finite(),
    decreases fs, n,
{
    if n > 0 && n <= fs.len() {
        lemma_formulas_symbols_finite(fs, (n - 1) as nat);
        lemma_formula_symbols_finite(fs[n - 1]);
    }
}

/// The names of a sequent form a finite set.
pub proof fn lemma_sequent_symbols_finite(s: SSequent)
    ensures
        sequent_symbols(s).finite(),
{
    lemma_formulas_symbols_finite(s.left, s.left.len());
    lemma_formulas_symbols_finite(s.right, s.right.len());
}

proof fn lemma_name_set_push(v: Seq<String>, s: String)
    ensures
        name_set(v.push(s)) == name_set(v).insert(s@),
{
    assert(v.push(s).map_values(|x: String| x@) =~= v.map_values(|x: String| x@).push(s@));
    assert(name_set(v.push(s)) =~= name_set(v).insert(s@)) by {
        let a = v.map_values(|x: String| x@);
        assert forall|x: Seq<char>| name_set(v.push(s)).contains(x) <==> name_set(v).insert(s@).contains(x) by {
            if name_set(v.push(s)).contains(x) {
                let k = choose|k: int| 0 <= k < a.push(s@).len() && a.push(s@)[k] == x;
                if k < a.len() {
                    assert(a[k] == x);
                }
            }
            if name_set(v).contains(x) {
                let k = choose|k: int| 0 <= k < a.len() && a[k] == x;
                assert(a.push(s@)[k] == x);
            }
            if x == s@ {
                assert(a.push(s@)[a.len() as int] == x);
            }
        }
    }
}

/// Whether the list holds a string with the given characters.
pub proof fn lemma_name_set_contains(v: Seq<String>, x: Seq<char>)
    ensures
        name_set(v).contains(x) <==> exists|i: int| 0 <= i < v.len() && (#[trigger] v[i])@ == x,
{
    let a = v.map_values(|s: String| s@);
    if name_set(v).contains(x) {
        let k = choose|k: int| 0 <= k < a.len() && a[k] == x;
        assert(v[k]@ == x);
    }
    if exists|i: int| 0 <= i < v.len() && (#[trigger] v[i])@ == x {
        let k = choose|i: int| 0 <= i < v.len() && (#[trigger] v[i])@ == x;
        assert(a[k] == x);
    }
}

/// Inserts the name of a symbol.
fn collect_symbol(symbol: &Symbol, used: &mut Vec<String>)
    ensures
        name_set(final(used)@) == name_set(old(used)@).insert(symbol@.name()),
{
    let v = match symbol {
        Symbol::User(value) | Symbol::Defined(value) | Symbol::System(value) => value.clone(),
    };
    proof { lemma_name_set_push(used@, v); }
    used.push(v);
}

/// Records every symbol reachable from a term.
#[verifier::loop_isolation(false)]
fn collect_term_symbols(term: &Term, used: &mut Vec<String>)
    ensures
        name_set(final(used)@) == name_set(old(used)@).union(term_symbols(term@)),
    decreases term,
{
    match term {
        Term::Var(var) => {
            proof { lemma_name_set_push(used@, var.name); }
            used.push(var.name.clone());
            assert(name_set(used@) =~= name_set(old(used)@).union(term_symbols(term@)));
        },
        Term::Const(symbol) => {
            collect_symbol(symbol, used);
            assert(name_set(used@) =~= name_set(old(used)@).union(term_symbols(term@)));
        },
        Term::Fun { name, args } => {
            collect_symbol(name, used);
            let ghost m = terms_model(args@);
            let ghost after_name = name_set(used@);
            let mut i: usize = 0;
            while i < args.len()
                invariant
                    i <= args.len(),
                    name_set(used@) == after_name.union(terms_symbols(m, i as nat)),
                decreases args.len() - i,
            {
                collect_term_symbols(&args[i], used);
                proof {
                    assert(m[i as int] == term_model(args@[i as int]));
                    assert(name_set(used@) =~= after_name.union(terms_symbols(m, (i + 1) as nat)));
                }
                i += 1;
            }
            assert(name_set(used@) =~= name_set(old(used)@).union(term_symbols(term@)));
        },
        Term::Number(_) | Term::DistinctObject(_) => {
            assert(name_set(used@) =~= name_set(old(used)@).union(term_symbols(term@)));
        },
    }
}

/// Records the symbols mentioned by an atomic formula.
fn collect_atom_symbols(atom: &Atom, used: &mut Vec<String>)
    ensures
        name_set(final(used)@) == name_set(old(used)@).union(formula_symbols(atom@)),
{
    match atom {
        Atom::Predicate { name, args } => {
            collect_symbol(name, used);
            let ghost m = terms_model(args@);
            let ghost after_name = name_set(used@);
            let mut i: usize = 0;
            while i < args.len()
                invariant
                    i <= args.len(),
                    m == terms_model(args@),
                    name_set(used@) == after_name.union(terms_symbols(m, i as nat)),
                decreases args.len() - i,
            {
                collect_term_symbols(&args[i], used);
                proof {
                    assert(m[i as int] == term_model(args@[i as int]));
                    assert(name_set(used@) =~= after_name.union(terms_symbols(m, (i + 1) as nat)));
                }
                i += 1;
            }
            assert(name_set(used@) =~= name_set(old(used)@).union(formula_symbols(atom@)));
        },
    }
}

/// Walks a formula and records all symbol names that it contains.
#[verifier::loop_isolation(false)]
fn collect_formula_symbols(formula: &Formula, used: &mut Vec<String>)
    ensures
        name_set(final(used)@) == name_set(old(used)@).union(formula_symbols(formula@)),
    decreases formula,
{
    match formula {
        Formula::True | Formula::False => {
            assert(name_set(used@) =~= name_set(old(used)@).union(formula_symbols(formula@)));
        },
        Formula::Atom(atom) => collect_atom_symbols(atom, used),
        Formula::Not(inner) => collect_formula_symbols(inner, used),
        Formula::And(items) | Formula::Or(items) => {
            let ghost m = formulas_model(items@);
            let ghost start = name_set(used@);
            let mut i: usize = 0;
            while i < items.len()
                invariant
                    i <= items.len(),
                    name_set(used@) == start.union(formulas_symbols(m, i as nat)),
                decreases items.len() - i,
            {
                collect_formula_symbols(&items[i], used);
                proof {
                    assert(m[i as int] == formula_model(items@[i as int]));
                    assert(name_set(used@) =~= start.union(formulas_symbols(m, (i + 1) as nat)));
                }
                i += 1;
            }
        },
        Formula::Implies(left, right) => {
            collect_formula_symbols(left, used);
            collect_formula_symbols(right, used);
            assert(name_set(used@) =~= name_set(old(used)@).union(formula_symbols(formula@)));
        },
        Formula::ForAll(vars, body) | Formula::Exists(vars, body) => {
            let ghost start = name_set(used@);
            let ghost vm = vars_model(vars@);
            let mut i: usize = 0;
            while i < vars.len()
                invariant
                    i <= vars.len(),
                    vm == vars_model(vars@),
                    name_set(used@) == start.union(vm.take(i as int).to_set()),
                decreases vars.len() - i,
            {
                proof { lemma_name_set_push(used@, vars@[i as int].name); }
                used.push(vars[i].name.clone());
                proof {
                    assert(vm.take((i + 1) as int).to_set() =~= vm.take(i as int).to_set().insert(vm[i as int])) by {
                        assert(vm.take((i + 1) as int) =~= vm.take(i as int).push(vm[i as int]));
                        vm.take(i as int).lemma_push_to_set_commute(vm[i as int]);
                    }
                    assert(name_set(used@) =~= start.union(vm.take((i + 1) as int).to_set()));
                }
                i += 1;
            }
            assert(vm.take(vars.len() as int) =~= vm);
            collect_formula_symbols(body, used);
            assert(name_set(used@) =~= name_set(old(used)@).union(formula_symbols(formula@)));
        },
    }
}

/// Collects every symbol name that appears anywhere in the sequent.
pub fn collect_sequent_symbols(sequent: &Sequent, used: &mut Vec<String>)
    ensures
        name_set(final(used)@) == name_set(old(used)@).union(sequent_symbols(sequent@)),
{
    let ghost s = sequent@;
    let ghost start = name_set(used@);
    let mut i: usize = 0;
    while i < sequent.left.len()
        invariant
            i <= sequent.left.len(),
            s == sequent@,
            name_set(used@) == start.union(formulas_symbols(s.left, i as nat)),
        decreases sequent.left.len() - i,
    {
        collect_formula_symbols(&sequent.left[i], used);
        proof {
            assert(s.left[i as int] == formula_model(sequent.left@[i as int]));
            assert(name_set(used@) =~= start.union(formulas_symbols(s.left, (i + 1) as nat)));
        }
        i += 1;
    }
    let ghost mid = name_set(used@);
    let mut i: usize = 0;
    while i < sequent.right.len()
        invariant
            i <= sequent.right.len(),
            s == sequent@,
            name_set(used@) == mid.union(formulas_symbols(s.right, i as nat)),
        decreases sequent.right.len() - i,
    {
        collect_formula_symbols(&sequent.right[i], used);
        proof {
            assert(s.right[i as int] == formula_model(sequent.right@[i as int]));
            assert(name_set(used@) =~= mid.union(formulas_symbols(s.right, (i + 1) as nat)));
        }
        i += 1;
    }
    assert(name_set(used@) =~= start.union(sequent_symbols(s)));
}

/// Whether a term with the same rendering was already collected.
pub open spec fn key_seen(acc: Seq<STerm>, t: STerm) -> bool {
    exists|k: int| 0 <= k < acc.len() && render_term(#[trigger] acc[k]) == render_term(t)
}

/// Appends a term unless one with the same rendering is already there.
pub open spec fn add_visible(acc: Seq<STerm>, t: STerm) -> Seq<STerm> {
    if key_seen(acc, t) {
        acc
    } else {
        acc.push(t)
    }
}

/// Collects the non-variable terms of `t`: arguments of an application come
/// before the application itself; variables are skipped.
pub open spec fn visit_term(acc: Seq<STerm>, t: STerm) -> Seq<STerm>
    decreases t, 0nat,
{
    match t {
        STerm::Var(_) => acc,
        STerm::Fun(_, args) => add_visible(visit_terms(acc, args, args.len()), t),
        _ => add_visible(acc, t),
    }
}

/// Collects the non-variable terms of the first `n` terms, in order.
pub open spec fn visit_terms(acc: Seq<STerm>, args: Seq<STerm>, n: nat) -> Seq<STerm>
    decreases args, n,
{
    if n == 0 || n > args.len() {
        acc
    } else {
        visit_term(visit_terms(acc, args, (n - 1) as nat), args[n - 1])
    }
}

/// Collects the non-variable terms occurring in the atoms of a formula, in
/// reading order.
pub open spec fn visit_formula(acc: Seq<STerm>, f: SFormula) -> Seq<STerm>
    decreases f, 0nat,
{
    match f {
        SFormula::True => acc,
        SFormula::False => acc,
        SFormula::Atom(_, args) => visit_terms(acc, args, args.len()),
        SFormula::Not(inner) => visit_formula(acc, *inner),
        SFormula::And(items) => visit_formulas(acc, items, items.len()),
        SFormula::Or(items) => visit_formulas(acc, items, items.len()),
        SFormula::Implies(a, b) => visit_formula(visit_formula(acc, *a), *b),
        SFormula::ForAll(_, body) => visit_formula(acc, *body),
        SFormula::Exists(_, body) => visit_formula(acc, *body),
    }
}

/// Collects the terms of the first `n` formulas, in order.
pub open spec fn visit_formulas(acc: Seq<STerm>, fs: Seq<SFormula>, n: nat) -> Seq<STerm>
    decreases fs, n,
{
    if n == 0 || n > fs.len() {
        acc
    } else {
        visit_formula(visit_formulas(acc, fs, (n - 1) as nat), fs[n - 1])
    }
}

/// The distinct (by rendering) non-variable terms visible in a sequent, left
/// side before right side, in reading order.
pub open spec fn visible_terms(s: SSequent) -> Seq<STerm> {
    visit_formulas(visit_formulas(Seq::empty(), s.left, s.left.len()), s.right, s.right.len())
}

/// The state of a term collection: terms with their rendering keys.
pub open spec fn collection_ok(seen: Seq<String>, terms: Seq<Term>) -> bool {
    &&& seen.len() == terms.len()
    &&& forall|k: int| 0 <= k < seen.len() ==> (#[trigger] seen[k])@ == render_term(term_model(terms[k]))
}

/// Adds a term once, keyed by its rendering.
fn add_term(term: &Term, seen: &mut Vec<String>, terms: &mut Vec<Term>)
    requires
        collection_ok(old(seen)@, old(terms)@),
    ensures
        collection_ok(final(seen)@, final(terms)@),
        terms_model(final(terms)@) == add_visible(terms_model(old(terms)@), term@),
{
    let key = term.to_string();
    let ghost acc = terms_model(terms@);
    if strings_contain(seen, &key) {
        proof {
            let k = choose|k: int| 0 <= k < seen@.len() && (#[trigger] seen@[k])@ == key@;
            assert(render_term(acc[k]) == render_term(term@));
        }
    } else {
        proof {
            assert forall|k: int| 0 <= k < acc.len() implies render_term(#[trigger] acc[k]) != render_term(term@) by {
                assert(seen@[k]@ == render_term(acc[k]));
            }
        }
        seen.push(key);
        terms.push(term.duplicate());
        proof {
            assert(terms_model(terms@) =~= acc.push(term@));
        }
    }
}

/// Adds a term once, recursing into function arguments before recording the
/// term itself.
#[verifier::loop_isolation(false)]
fn collect_visible_term(term: &Term, seen: &mut Vec<String>, terms: &mut Vec<Term>)
    requires
        collection_ok(old(seen)@, old(terms)@),
    ensures
        collection_ok(final(seen)@, final(terms)@),
        terms_model(final(terms)@) == visit_term(terms_model(old(terms)@), term@),
    decreases term,
{
    match term {
        Term::Var(_) => {},
        Term::Fun { name: _, args } => {
            let ghost m = terms_model(args@);
            let ghost start = terms_model(terms@);
            let mut i: usize = 0;
            while i < args.len()
                invariant
                    i <= args.len(),
                    collection_ok(seen@, terms@),
                    terms_model(terms@) == visit_terms(start, m, i as nat),
                decreases args.len() - i,
            {
                collect_visible_term(&args[i], seen, terms);
                proof {
                    assert(m[i as int] == term_model(args@[i as int]));
                }
                i += 1;
            }
            add_term(term, seen, terms);
        },
        _ => add_term(term, seen, terms),
    }
}

/// Appends visible terms from an atomic predicate's arguments.
fn collect_visible_atom_terms(atom: &Atom, seen: &mut Vec<String>, terms: &mut Vec<Term>)
    requires
        collection_ok(old(seen)@, old(terms)@),
    ensures
        collection_ok(final(seen)@, final(terms)@),
        terms_model(final(terms)@) == visit_formula(terms_model(old(terms)@), atom@),
{
    match atom {
        Atom::Predicate { args, .. } => {
            let ghost m = terms_model(args@);
            let ghost start = terms_model(terms@);
            let mut i: usize = 0;
            while i < args.len()
                invariant
                    i <= args.len(),
                    m == terms_model(args@),
                    collection_ok(seen@, terms@),
                    terms_model(terms@) == visit_terms(start, m, i as nat),
                decreases args.len() - i,
            {
                collect_visible_term(&args[i], seen, terms);
                proof {
                    assert(m[i as int] == term_model(args@[i as int]));
                }
                i += 1;
            }
        },
    }
}

/// Walks a formula and appends visible non-variable terms in encounter order.
#[verifier::loop_isolation(false)]
fn collect_visible_formula_terms(formula: &Formula, seen: &mut Vec<String>, terms: &mut Vec<Term>)
    requires
        collection_ok(old(seen)@, old(terms)@),
    ensures
        collection_ok(final(seen)@, final(terms)@),
        terms_model(final(terms)@) == visit_formula(terms_model(old(terms)@), formula@),
    decreases formula,
{
    match formula {
        Formula::True | Formula::False => {},
        Formula::Atom(atom) => collect_visible_atom_terms(atom, seen, terms),
        Formula::Not(inner) => collect_visible_formula_terms(inner, seen, terms),
        Formula::And(items) | Formula::Or(items) => {
            let ghost m = formulas_model(items@);
            let ghost start = terms_model(terms@);
            let mut i: usize = 0;
            while i < items.len()
                invariant
                    i <= items.len(),
                    collection_ok(seen@, terms@),
                    terms_model(terms@) == visit_formulas(start, m, i as nat),
                decreases items.len() - i,
            {
                collect_visible_formula_terms(&items[i], seen, terms);
                proof {
                    assert(m[i as int] == formula_model(items@[i as int]));
                }
                i += 1;
            }
        },
        Formula::Implies(left, right) => {
            collect_visible_formula_terms(left, seen, terms);
            collect_visible_formula_terms(right, seen, terms);
        },
        Formula::ForAll(_, body) | Formula::Exists(_, body) => {
            collect_visible_formula_terms(body, seen, terms);
        },
    }
}

/// Collects distinct non-variable terms that are visible in the sequent.
pub fn visible_terms_in_sequent(sequent: &Sequent) -> (r: Vec<Term>)
    ensures
        terms_model(r@) == visible_terms(sequent@),
{
    let ghost s = sequent@;
    let mut seen: Vec<String> = Vec::new();
    let mut terms: Vec<Term> = Vec::new();
    assert(terms_model(terms@) =~= Seq::<STerm>::empty());
    let mut i: usize = 0;
    while i < sequent.left.len()
        invariant
            i <= sequent.left.len(),
            s == sequent@,
            collection_ok(seen@, terms@),
            terms_model(terms@) == visit_formulas(Seq::empty(), s.left, i as nat),
        decreases sequent.left.len() - i,
    {
        collect_visible_formula_terms(&sequent.left[i], &mut seen, &mut terms);
        proof {
            assert(s.left[i as int] == formula_model(sequent.left@[i as int]));
        }
        i += 1;
    }
    let ghost mid = terms_model(terms@);
    let mut i: usize = 0;
    while i < sequent.right.len()
        invariant
            i <= sequent.right.len(),
            s == sequent@,
            collection_ok(seen@, terms@),
            terms_model(terms@) == visit_formulas(mid, s.right, i as nat),
        decreases sequent.right.len() - i,
    {
        collect_visible_formula_terms(&sequent.right[i], &mut seen, &mut terms);
        proof {
            assert(s.right[i as int] == formula_model(sequent.right@[i as int]));
        }
        i += 1;
    }
    terms
}

} // verus!
