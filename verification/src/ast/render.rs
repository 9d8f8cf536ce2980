//! Human-readable rendering of terms and formulas, with the fewest
//! parentheses that keep the structure unambiguous.

use vstd::prelude::*;

use crate::ast::formula::{spec_is_binary, spec_precedence, Atom, Formula};
use crate::ast::model::{formula_model, formulas_model, group_model, term_model, terms_model, vars_model, SFormula, STerm};
use crate::ast::term::{NumberLit, Symbol, Term, Var};
use crate::text::push_str;

verus! {

broadcast use vstd::seq::axiom_seq_index_decreases, vstd::std_specs::vec::axiom_vec_index_decreases, group_model;

/// `", "` between list elements.
pub open spec fn comma_sep() -> Seq<char> {
    seq![',', ' ']
}

/// The rendering of a term: variables, constants and literals as written,
/// applications as `f(t1, t2)`.
pub open spec fn render_term(t: STerm) -> Seq<char>
    decreases t, 0nat,
{
    match t {
        STerm::Var(n) => n,
        STerm::Const(s) => s.name(),
        STerm::Number(n) => n.text(),
        STerm::Distinct(s) => s,
        STerm::Fun(s, args) => s.name() + seq!['('] + render_term_list(args, args.len()) + seq![')'],
    }
}

/// The first `n` terms of `args`, rendered and separated by `", "`.
pub open spec fn render_term_list(args: Seq<STerm>, n: nat) -> Seq<char>
    decreases args, n,
{
    if n == 0 || n > args.len() {
        Seq::empty()
    } else if n == 1 {
        render_term(args[0])
    } else {
        render_term_list(args, (n - 1) as nat) + comma_sep() + render_term(args[n - 1])
    }
}

/// The first `n` variable names, separated by `", "`.
pub open spec fn render_var_list(vars: Seq<Seq<char>>, n: nat) -> Seq<char>
    decreases n,
{
    if n == 0 || n > vars.len() {
        Seq::empty()
    } else if n == 1 {
        vars[0]
    } else {
        render_var_list(vars, (n - 1) as nat) + comma_sep() + vars[n - 1]
    }
}

/// The rendering of an atom `p` or `p(t1, ..., tn)`.
pub open spec fn render_atom(name: Seq<char>, args: Seq<STerm>) -> Seq<char> {
    if args.len() == 0 {
        name
    } else {
        name + seq!['('] + render_term_list(args, args.len()) + seq![')']
    }
}

/// Whether a formula printed below a construct of precedence `parent`
/// needs parentheses.
pub open spec fn needs_parens(mine: u8, parent: Option<u8>, wrap_on_equal: bool) -> bool {
    match parent {
        Some(p) => mine < p || (wrap_on_equal && mine == p),
        None => false,
    }
}

/// The separator between the operands of an n-ary conjunction or disjunction.
pub open spec fn junction_sep(conj: bool) -> Seq<char> {
    if conj {
        seq![' ', '\u{2227}', ' ']
    } else {
        seq![' ', '\u{2228}', ' ']
    }
}

/// Whether an operand of an n-ary junction is parenthesized at equal
/// precedence: binary operands other than a junction of the same kind.
pub open spec fn junction_wrap(item: SFormula, conj: bool) -> bool {
    spec_is_binary(item) && !(if conj { item is And } else { item is Or })
}

/// The rendering of a formula below a parent of the given precedence.
pub open spec fn render_formula(f: SFormula, parent: Option<u8>, wrap_on_equal: bool) -> Seq<char>
    decreases f, 2nat,
{
    if needs_parens(spec_precedence(f), parent, wrap_on_equal) {
        seq!['('] + render_body(f) + seq![')']
    } else {
        render_body(f)
    }
}

/// The rendering of a formula without enclosing parentheses.
pub open spec fn render_body(f: SFormula) -> Seq<char>
    decreases f, 1nat,
{
    let mine = spec_precedence(f);
    match f {
        SFormula::True => seq!['\u{22a4}'],
        SFormula::False => seq!['\u{22a5}'],
        SFormula::Atom(p, args) => render_atom(p.name(), args),
        SFormula::Not(inner) => seq!['\u{ac}'] + render_formula(*inner, Some(mine), false),
        SFormula::And(items) => render_junction(items, items.len(), true),
        SFormula::Or(items) => render_junction(items, items.len(), false),
        SFormula::Implies(a, b) => render_formula(*a, Some(mine), false) + seq![' ', '\u{21d2}', ' ']
            + render_formula(*b, Some(mine), spec_is_binary(*b)),
        SFormula::ForAll(vars, body) => seq!['\u{2200}'] + render_var_list(vars, vars.len()) + seq!['.', ' ']
            + render_formula(*body, Some(mine), false),
        SFormula::Exists(vars, body) => seq!['\u{2203}'] + render_var_list(vars, vars.len()) + seq!['.', ' ']
            + render_formula(*body, Some(mine), false),
    }
}

/// The first `n` operands of a junction, rendered below precedence 1 and
/// separated by the connective.
pub open spec fn render_junction(items: Seq<SFormula>, n: nat, conj: bool) -> Seq<char>
    decreases items, n,
{
    if n == 0 || n > items.len() {
        Seq::empty()
    } else if n == 1 {
        render_formula(items[0], Some(1u8), junction_wrap(items[0], conj))
    } else {
        render_junction(items, (n - 1) as nat, conj) + junction_sep(conj) + render_formula(
            items[n - 1],
            Some(1u8),
            junction_wrap(items[n - 1], conj),
        )
    }
}

/// The rendering of a formula at top level.
pub open spec fn show_formula(f: SFormula) -> Seq<char> {
    render_formula(f, None, false)
}

/// Whether `piece` occurs in `text` as a contiguous part.
pub open spec fn occurs_within(piece: Seq<char>, text: Seq<char>) -> bool {
    exists|p: int| 0 <= p && p + piece.len() <= text.len() && #[trigger] text.subrange(p, p + piece.len()) == piece
}

/// Each of the first `n` operands of a junction occurs in its rendering as
/// rendered below it.
proof fn lemma_junction_contains(items: Seq<SFormula>, n: nat, conj: bool, i: int)
    requires
        0 <= i < n <= items.len(),
    ensures
        occurs_within(render_formula(items[i], Some(1u8), junction_wrap(items[i], conj)), render_junction(items, n, conj)),
    decreases n,
{
    let piece = render_formula(items[i], Some(1u8), junction_wrap(items[i], conj));
    let whole = render_junction(items, n, conj);
    if n == 1 {
        assert(whole == piece);
        let p: int = 0;
        assert(whole.subrange(p, p + piece.len()) =~= piece);
        assert(occurs_within(piece, whole));
    } else {
        let prefix = render_junction(items, (n - 1) as nat, conj);
        let last = render_formula(items[n - 1], Some(1u8), junction_wrap(items[n - 1], conj));
        assert(whole == prefix + junction_sep(conj) + last);
        if i == n - 1 {
            let p = whole.len() - piece.len();
            assert(whole.subrange(p, p + piece.len()) =~= piece);
            assert(occurs_within(piece, whole));
        } else {
            lemma_junction_contains(items, (n - 1) as nat, conj, i);
            let p = choose|p: int|
                0 <= p && p + piece.len() <= prefix.len() && #[trigger] prefix.subrange(p, p + piece.len()) == piece;
            assert(whole.subrange(p, p + piece.len()) =~= prefix.subrange(p, p + piece.len()));
            assert(occurs_within(piece, whole));
        }
    }
}

/// In a conjunction or disjunction, an operand that is a binary formula of
/// another connective is shown in parentheses, so that the junction's
/// connective never merges with the operand's: `p ∧ (q ∨ r)`, never
/// `p ∧ q ∨ r`.
pub proof fn lemma_junction_operand_parenthesized(items: Seq<SFormula>, conj: bool, i: int)
    requires
        0 <= i < items.len(),
        spec_is_binary(items[i]),
        conj ==> !(items[i] is And),
        !conj ==> !(items[i] is Or),
    ensures
        occurs_within(
            seq!['('] + show_formula(items[i]) + seq![')'],
            show_formula(if conj {
                SFormula::And(items)
            } else {
                SFormula::Or(items)
            }),
        ),
{
    lemma_junction_contains(items, items.len(), conj, i);
    assert(spec_precedence(items[i]) == 1u8);
    assert(render_formula(items[i], Some(1u8), junction_wrap(items[i], conj)) == seq!['('] + show_formula(items[i])
        + seq![')']);
}

/// A conjunction of two or more operands is shown with `∧` between them, a
/// disjunction with `∨`.
pub proof fn lemma_junction_shows_connective(items: Seq<SFormula>, conj: bool)
    requires
        items.len() >= 2,
    ensures
        occurs_within(
            if conj {
                seq![' ', '\u{2227}', ' ']
            } else {
                seq![' ', '\u{2228}', ' ']
            },
            show_formula(if conj {
                SFormula::And(items)
            } else {
                SFormula::Or(items)
            }),
        ),
{
    let f = if conj {
        SFormula::And(items)
    } else {
        SFormula::Or(items)
    };
    let n = items.len();
    let prefix = render_junction(items, (n - 1) as nat, conj);
    let last = render_formula(items[n - 1], Some(1u8), junction_wrap(items[n - 1], conj));
    let whole = render_junction(items, n, conj);
    assert(whole == prefix + junction_sep(conj) + last);
    assert(spec_precedence(f) == 1u8);
    assert(show_formula(f) == render_body(f));
    assert(render_body(f) == whole);
    let p = prefix.len() as int;
    let sep = junction_sep(conj);
    assert(whole.subrange(p, p + sep.len()) =~= sep);
}

/// A negated binary formula is shown in parentheses after the negation
/// sign, so the negation covers the whole operand: `¬(p ∧ q)`, never
/// `¬p ∧ q`.
pub proof fn lemma_negated_binary_parenthesized(inner: SFormula)
    requires
        spec_is_binary(inner),
    ensures
        show_formula(SFormula::Not(Box::new(inner))) == seq!['\u{ac}', '('] + show_formula(inner) + seq![')'],
{
    let f = SFormula::Not(Box::new(inner));
    assert(spec_precedence(inner) == 1u8);
    assert(spec_precedence(f) == 2u8);
    assert(show_formula(inner) == render_body(inner));
    assert(render_formula(inner, Some(2u8), false) == seq!['('] + render_body(inner) + seq![')']);
    assert(render_body(f) == seq!['\u{ac}'] + render_formula(inner, Some(2u8), false));
    assert(show_formula(f) == render_body(f));
    assert(show_formula(SFormula::Not(Box::new(inner))) =~= seq!['\u{ac}', '('] + show_formula(inner) + seq![')']);
}

/// Appends the rendering of a symbol.
pub fn write_symbol(s: &Symbol, out: &mut String)
    ensures
        final(out)@ == old(out)@ + s@.name(),
{
    match s {
        Symbol::User(v) | Symbol::Defined(v) | Symbol::System(v) => push_str(out, v.as_str()),
    }
}

/// Appends the rendering of a term.
#[verifier::loop_isolation(false)]
pub fn write_term(t: &Term, out: &mut String)
    ensures
        final(out)@ == old(out)@ + render_term(t@),
    decreases t,
{
    match t {
        Term::Var(v) => push_str(out, v.name.as_str()),
        Term::Const(s) => write_symbol(s, out),
        Term::Number(n) => match n {
            NumberLit::Integer(v) | NumberLit::Rational(v) | NumberLit::Real(v) => push_str(out, v.as_str()),
        },
        Term::DistinctObject(v) => push_str(out, v.as_str()),
        Term::Fun { name, args } => {
            write_symbol(name, out);
            out.push('(');
            write_term_list(args, out);
            out.push(')');
            proof {
                let o = old(out)@;
                assert(final(out)@ =~= o + name@.name() + seq!['('] + render_term_list(terms_model(args@), args.len() as nat) + seq![')']);
            }
        },
    }
}

/// Appends the terms of `args` separated by `", "`.
#[verifier::loop_isolation(false)]
pub fn write_term_list(args: &Vec<Term>, out: &mut String)
    ensures
        final(out)@ == old(out)@ + render_term_list(terms_model(args@), args.len() as nat),
    decreases args,
{
    let ghost start = out@;
    let ghost m = terms_model(args@);
    let mut i: usize = 0;
    while i < args.len()
        invariant
            i <= args.len(),
            out@ == start + render_term_list(m, i as nat),
        decreases args.len() - i,
    {
        if i > 0 {
            push_str(out, ", ");
            proof { reveal_strlit(", "); }
        }
        write_term(&args[i], out);
        proof {
            assert(m[i as int] == term_model(args@[i as int]));
            if i == 0 {
                assert(out@ =~= start + render_term_list(m, 1));
            } else {
                assert(out@ =~= start + render_term_list(m, (i + 1) as nat));
            }
        }
        i += 1;
    }
}

/// Appends variable names separated by `", "`.
pub fn write_var_list(vars: &Vec<Var>, out: &mut String)
    ensures
        final(out)@ == old(out)@ + render_var_list(vars_model(vars@), vars.len() as nat),
{
    let ghost start = out@;
    let ghost m = vars_model(vars@);
    let mut i: usize = 0;
    while i < vars.len()
        invariant
            i <= vars.len(),
            m == vars_model(vars@),
            out@ == start + render_var_list(m, i as nat),
        decreases vars.len() - i,
    {
        if i > 0 {
            push_str(out, ", ");
            proof { reveal_strlit(", "); }
        }
        push_str(out, vars[i].name.as_str());
        proof {
            if i == 0 {
                assert(out@ =~= start + render_var_list(m, 1));
            } else {
                assert(out@ =~= start + render_var_list(m, (i + 1) as nat));
            }
        }
        i += 1;
    }
}

/// Appends the rendering of a formula printed below a parent of the given
/// precedence.
pub fn write_formula(f: &Formula, parent: Option<u8>, wrap_on_equal: bool, out: &mut String)
    ensures
        final(out)@ == old(out)@ + render_formula(f@, parent, wrap_on_equal),
    decreases f, 2nat,
{
    let mine = f.precedence();
    let needs = match parent {
        Some(p) => mine < p || (wrap_on_equal && mine == p),
        None => false,
    };
    let mut body = String::new();
    write_body(f, &mut body);
    if needs {
        out.push('(');
        push_str(out, body.as_str());
        out.push(')');
    } else {
        push_str(out, body.as_str());
    }
    proof {
        assert(body@ =~= render_body(f@));
    }
}

/// Appends the rendering of a formula without enclosing parentheses.
pub fn write_body(f: &Formula, out: &mut String)
    ensures
        final(out)@ == old(out)@ + render_body(f@),
    decreases f, 1nat,
{
    let ghost start = out@;
    let mine = f.precedence();
    match f {
        Formula::True => out.push('\u{22a4}'),
        Formula::False => out.push('\u{22a5}'),
        Formula::Atom(Atom::Predicate { name, args }) => {
            write_symbol(name, out);
            if args.len() > 0 {
                out.push('(');
                write_term_list(args, out);
                out.push(')');
            }
            proof {
                assert(out@ =~= start + render_atom(name@.name(), terms_model(args@)));
            }
        },
        Formula::Not(inner) => {
            out.push('\u{ac}');
            write_formula(inner, Some(mine), false, out);
            proof {
                assert(out@ =~= start + (seq!['\u{ac}'] + render_formula(inner@, Some(mine), false)));
            }
        },
        Formula::And(items) => {
            write_junction(items, true, out);
        },
        Formula::Or(items) => {
            write_junction(items, false, out);
        },
        Formula::Implies(a, b) => {
            write_formula(a, Some(mine), false, out);
            push_str(out, " \u{21d2} ");
            proof { reveal_strlit(" \u{21d2} "); }
            let wrap = b.is_binary();
            write_formula(b, Some(mine), wrap, out);
            proof {
                assert(out@ =~= start + (render_formula(a@, Some(mine), false) + seq![' ', '\u{21d2}', ' ']
                    + render_formula(b@, Some(mine), spec_is_binary(b@))));
            }
        },
        Formula::ForAll(vars, body) => {
            out.push('\u{2200}');
            write_var_list(vars, out);
            push_str(out, ". ");
            proof { reveal_strlit(". "); }
            write_formula(body, Some(mine), false, out);
            proof {
                assert(out@ =~= start + (seq!['\u{2200}'] + render_var_list(vars_model(vars@), vars.len() as nat)
                    + seq!['.', ' '] + render_formula(body@, Some(mine), false)));
            }
        },
        Formula::Exists(vars, body) => {
            out.push('\u{2203}');
            write_var_list(vars, out);
            push_str(out, ". ");
            proof { reveal_strlit(". "); }
            write_formula(body, Some(mine), false, out);
            proof {
                assert(out@ =~= start + (seq!['\u{2203}'] + render_var_list(vars_model(vars@), vars.len() as nat)
                    + seq!['.', ' '] + render_formula(body@, Some(mine), false)));
            }
        },
    }
}

/// Appends the operands of a junction separated by its connective.
#[verifier::loop_isolation(false)]
pub fn write_junction(items: &Vec<Formula>, conj: bool, out: &mut String)
    ensures
        final(out)@ == old(out)@ + render_junction(formulas_model(items@), items.len() as nat, conj),
    decreases items,
{
    let ghost start = out@;
    let ghost m = formulas_model(items@);
    let mut i: usize = 0;
    while i < items.len()
        invariant
            i <= items.len(),
            out@ == start + render_junction(m, i as nat, conj),
        decreases items.len() - i,
    {
        if i > 0 {
            if conj {
                push_str(out, " \u{2227} ");
                proof { reveal_strlit(" \u{2227} "); }
            } else {
                push_str(out, " \u{2228} ");
                proof { reveal_strlit(" \u{2228} "); }
            }
        }
        let item = &items[i];
        let wrap = item.is_binary() && !(if conj {
            match item { Formula::And(_) => true, _ => false }
        } else {
            match item { Formula::Or(_) => true, _ => false }
        });
        write_formula(item, Some(1u8), wrap, out);
        proof {
            assert(m[i as int] == formula_model(items@[i as int]));
            assert(wrap == junction_wrap(m[i as int], conj));
            if i == 0 {
                assert(out@ =~= start + render_junction(m, 1, conj));
            } else {
                assert(out@ =~= start + render_junction(m, (i + 1) as nat, conj));
            }
        }
        i += 1;
    }
}

impl Term {
    /// The rendering of the term.
    pub fn to_string(&self) -> (r: String)
        ensures
            r@ == render_term(self@),
    {
        let mut s = String::new();
        write_term(self, &mut s);
        proof { assert(s@ =~= render_term(self@)); }
        s
    }
}

impl Formula {
    /// The rendering of the formula.
    pub fn to_string(&self) -> (r: String)
        ensures
            r@ == show_formula(self@),
    {
        let mut s = String::new();
        write_formula(self, None, false, &mut s);
        proof { assert(s@ =~= show_formula(self@)); }
        s
    }
}

impl Atom {
    /// The rendering of the atom.
    pub fn to_string(&self) -> (r: String)
        ensures
            r@ == show_formula(self@),
    {
        let mut s = String::new();
        match self {
            Atom::Predicate { name, args } => {
                write_symbol(name, &mut s);
                if args.len() > 0 {
                    s.push('(');
                    write_term_list(args, &mut s);
                    s.push(')');
                }
                proof {
                    assert(s@ =~= render_atom(name@.name(), terms_model(args@)));
                }
            },
        }
        s
    }
}

impl Symbol {
    /// The name of the symbol.
    pub fn to_string(&self) -> (r: String)
        ensures
            r@ == self@.name(),
    {
        let mut s = String::new();
        write_symbol(self, &mut s);
        proof { assert(s@ =~= self@.name()); }
        s
    }
}

impl NumberLit {
    /// The literal as written.
    pub fn to_string(&self) -> (r: String)
        ensures
            r@ == self@.text(),
    {
        match self {
            NumberLit::Integer(v) | NumberLit::Rational(v) | NumberLit::Real(v) => v.clone(),
        }
    }
}

impl Var {
    /// The variable's name.
    pub fn to_string(&self) -> (r: String)
        ensures
            r@ == self.name@,
    {
        self.name.clone()
    }
}

} // verus!
