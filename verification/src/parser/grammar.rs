//! The TPTP FOF grammar over tokens, as recursive descent.
//!
//! ```text
//! file        ::= statement*
//! statement   ::= "fof" "(" name "," word "," formula ")" "."
//!               | "include" "(" quoted ")" "."
//! formula     ::= unit (binop unit)*          binop: & | => <=>, left to right
//! unit        ::= "~" unit | unitary
//! unitary     ::= ("!" | "?") "[" var ("," var)* "]" ":" unit
//!               | "(" formula ")" | atomic
//! atomic      ::= (word | quoted | $word | $$word) ("(" term ("," term)* ")")?
//! term        ::= var | (word | quoted | $word | $$word) ("(" term ("," term)* ")")?
//!               | number | distinct
//! ```
//!
//! `&` and `|` chains are flattened into one n-ary junction; `a <=> b`
//! stands for `(a => b) & (b => a)`; `$true` and `$false` without
//! arguments are the truth constants.
//!
//! Of the other TPTP connectives only `<=>` is accepted: problems of the
//! TPTP library state equivalences with it, and it is read as the two
//! implications. `<~>`, `<=`, `=` and `!=` are syntax errors.

use vstd::prelude::*;

use crate::ast::formula::{Atom, Formula};
use crate::ast::model::{formula_model, formulas_model, group_model, terms_model, SFormula, SNumber, SSymbol, STerm};
use crate::ast::term::{NumberLit, Symbol, Term, Var};
use crate::parser::lexer::{tokens_model, SKind, SToken, Token, TokenKind};

verus! {

broadcast use group_model;

/// Punctuation and connective tokens.
#[derive(Debug, Clone, Copy, PartialEq, Eq, Structural)]
pub enum Punct {
    LParen,
    RParen,
    LBracket,
    RBracket,
    Comma,
    Colon,
    Dot,
    And,
    Or,
    Implies,
    Iff,
    Not,
    ForAll,
    Exists,
}

/// The punctuation of a token kind, if it is one.
pub open spec fn punct_of(k: SKind) -> Option<Punct> {
    match k {
        SKind::LParen => Some(Punct::LParen),
        SKind::RParen => Some(Punct::RParen),
        SKind::LBracket => Some(Punct::LBracket),
        SKind::RBracket => Some(Punct::RBracket),
        SKind::Comma => Some(Punct::Comma),
        SKind::Colon => Some(Punct::Colon),
        SKind::Dot => Some(Punct::Dot),
        SKind::And => Some(Punct::And),
        SKind::Or => Some(Punct::Or),
        SKind::Implies => Some(Punct::Implies),
        SKind::Iff => Some(Punct::Iff),
        SKind::Not => Some(Punct::Not),
        SKind::ForAll => Some(Punct::ForAll),
        SKind::Exists => Some(Punct::Exists),
        _ => None,
    }
}

/// Whether the token at `i` exists and is the punctuation `p`.
pub open spec fn is_punct(ts: Seq<SToken>, i: nat, p: Punct) -> bool {
    i < ts.len() && punct_of(ts[i as int].kind) == Some(p)
}

/// Whether `p` is a binary connective.
pub open spec fn is_binop(p: Punct) -> bool {
    p == Punct::And || p == Punct::Or || p == Punct::Implies || p == Punct::Iff
}

/// The symbol that a word token names, if it names one.
pub open spec fn symbol_of(k: SKind) -> Option<SSymbol> {
    match k {
        SKind::LowerWord(w) => Some(SSymbol::User(w)),
        SKind::Quoted(w) => Some(SSymbol::User(w)),
        SKind::DefinedWord(w) => Some(SSymbol::Defined(w)),
        SKind::SystemWord(w) => Some(SSymbol::System(w)),
        _ => None,
    }
}

/// The operands of a formula in a junction: a junction of the same kind
/// contributes its operands, anything else itself.
pub open spec fn junction_items(f: SFormula, conj: bool) -> Seq<SFormula> {
    if conj && f is And {
        f->And_0
    } else if !conj && f is Or {
        f->Or_0
    } else {
        seq![f]
    }
}

/// `left op right`.
pub open spec fn combine(left: SFormula, op: Punct, right: SFormula) -> SFormula {
    if op == Punct::And {
        SFormula::And(junction_items(left, true) + junction_items(right, true))
    } else if op == Punct::Or {
        SFormula::Or(junction_items(left, false) + junction_items(right, false))
    } else if op == Punct::Implies {
        SFormula::Implies(Box::new(left), Box::new(right))
    } else {
        SFormula::And(
            seq![SFormula::Implies(Box::new(left), Box::new(right)), SFormula::Implies(Box::new(right), Box::new(left))],
        )
    }
}

/// `$true` and `$false` without arguments are the truth constants; any other
/// symbol with its arguments is an atom.
pub open spec fn atom_formula(name: SSymbol, args: Seq<STerm>) -> SFormula {
    if args.len() == 0 && name == SSymbol::Defined(seq!['$', 't', 'r', 'u', 'e']) {
        SFormula::True
    } else if args.len() == 0 && name == SSymbol::Defined(seq!['$', 'f', 'a', 'l', 's', 'e']) {
        SFormula::False
    } else {
        SFormula::Atom(name, args)
    }
}

/// A symbol applied to arguments as a term: a constant when there are none.
pub open spec fn applied_term(name: SSymbol, args: Seq<STerm>) -> STerm {
    if args.len() == 0 {
        STerm::Const(name)
    } else {
        STerm::Fun(name, args)
    }
}

/// A parse of something from token `i`: the value and the position after
/// it, or the position of the offending token.
pub type Parsed<T> = Result<(T, nat), nat>;

/// The term at `i`.
pub open spec fn parse_term(ts: Seq<SToken>, i: nat) -> Parsed<STerm>
    decreases ts.len() - i, 1int,
{
    if i >= ts.len() {
        Err(i)
    } else {
        match ts[i as int].kind {
            SKind::UpperWord(v) => Ok((STerm::Var(v), i + 1)),
            SKind::Integer(t) => Ok((STerm::Number(SNumber::Integer(t)), i + 1)),
            SKind::Rational(t) => Ok((STerm::Number(SNumber::Rational(t)), i + 1)),
            SKind::Real(t) => Ok((STerm::Number(SNumber::Real(t)), i + 1)),
            SKind::Distinct(t) => Ok((STerm::Distinct(t), i + 1)),
            k => match symbol_of(k) {
                Some(name) => if is_punct(ts, i + 1, Punct::LParen) {
                    match parse_args(ts, i + 2, Seq::empty()) {
                        Ok((args, j)) => Ok((applied_term(name, args), j)),
                        Err(e) => Err(e),
                    }
                } else {
                    Ok((STerm::Const(name), i + 1))
                },
                None => Err(i),
            },
        }
    }
}

/// The arguments from `i` on, after the arguments `acc`, up to and including
/// the closing parenthesis.
pub open spec fn parse_args(ts: Seq<SToken>, i: nat, acc: Seq<STerm>) -> Parsed<Seq<STerm>>
    decreases ts.len() - i, 2int,
{
    if i > ts.len() {
        Err(i)
    } else {
        match parse_term(ts, i) {
            Ok((t, j)) => if !(i < j <= ts.len()) {
                Err(i)
            } else if is_punct(ts, j, Punct::Comma) {
                parse_args(ts, j + 1, acc.push(t))
            } else if is_punct(ts, j, Punct::RParen) {
                Ok((acc.push(t), j + 1))
            } else {
                Err(j)
            },
            Err(e) => Err(e),
        }
    }
}

/// The atomic formula at `i`.
pub open spec fn parse_atomic(ts: Seq<SToken>, i: nat) -> Parsed<SFormula>
    decreases ts.len() - i, 0int,
{
    if i >= ts.len() {
        Err(i)
    } else {
        match symbol_of(ts[i as int].kind) {
            Some(name) => if is_punct(ts, i + 1, Punct::LParen) {
                match parse_args(ts, i + 2, Seq::empty()) {
                    Ok((args, j)) => Ok((atom_formula(name, args), j)),
                    Err(e) => Err(e),
                }
            } else {
                Ok((atom_formula(name, Seq::empty()), i + 1))
            },
            None => Err(i),
        }
    }
}

/// The bound variables from `i` on, after the variables `acc`, up to and
/// including the closing bracket.
pub open spec fn parse_vars(ts: Seq<SToken>, i: nat, acc: Seq<Seq<char>>) -> Parsed<Seq<Seq<char>>>
    decreases ts.len() - i,
{
    if i >= ts.len() {
        Err(i)
    } else {
        match ts[i as int].kind {
            SKind::UpperWord(v) => if is_punct(ts, i + 1, Punct::Comma) {
                parse_vars(ts, i + 2, acc.push(v))
            } else if is_punct(ts, i + 1, Punct::RBracket) {
                Ok((acc.push(v), i + 2))
            } else {
                Err(i + 1)
            },
            _ => Err(i),
        }
    }
}

/// The unitary formula at `i`: a quantified formula, a parenthesised
/// formula, or an atomic formula.
pub open spec fn parse_unitary(ts: Seq<SToken>, i: nat) -> Parsed<SFormula>
    decreases ts.len() - i, 1int,
{
    if i >= ts.len() {
        Err(i)
    } else if is_punct(ts, i, Punct::ForAll) || is_punct(ts, i, Punct::Exists) {
        if !is_punct(ts, i + 1, Punct::LBracket) {
            Err(i + 1)
        } else {
            match parse_vars(ts, i + 2, Seq::empty()) {
                Ok((vars, j)) => if !is_punct(ts, j, Punct::Colon) {
                    Err(j)
                } else if !(i < j + 1 <= ts.len()) {
                    Err(j)
                } else {
                    match parse_unit(ts, j + 1) {
                        Ok((body, k)) => if is_punct(ts, i, Punct::ForAll) {
                            Ok((SFormula::ForAll(vars, Box::new(body)), k))
                        } else {
                            Ok((SFormula::Exists(vars, Box::new(body)), k))
                        },
                        Err(e) => Err(e),
                    }
                },
                Err(e) => Err(e),
            }
        }
    } else if is_punct(ts, i, Punct::LParen) {
        match parse_formula(ts, i + 1) {
            Ok((f, j)) => if is_punct(ts, j, Punct::RParen) {
                Ok((f, j + 1))
            } else {
                Err(j)
            },
            Err(e) => Err(e),
        }
    } else {
        parse_atomic(ts, i)
    }
}

/// The unit formula at `i`: negations of a unitary formula.
pub open spec fn parse_unit(ts: Seq<SToken>, i: nat) -> Parsed<SFormula>
    decreases ts.len() - i, 2int,
{
    if i >= ts.len() {
        Err(i)
    } else if is_punct(ts, i, Punct::Not) {
        match parse_unit(ts, i + 1) {
            Ok((f, j)) => Ok((SFormula::Not(Box::new(f)), j)),
            Err(e) => Err(e),
        }
    } else {
        parse_unitary(ts, i)
    }
}

/// The rest of a binary chain from `j` on, whose operands so far combine to
/// `left`.
pub open spec fn parse_chain(ts: Seq<SToken>, j: nat, left: SFormula) -> Parsed<SFormula>
    decreases ts.len() - j, 3int,
{
    if j >= ts.len() {
        Ok((left, j))
    } else {
        match punct_of(ts[j as int].kind) {
            Some(op) => if is_binop(op) {
                match parse_unit(ts, j + 1) {
                    Ok((right, k)) => if !(j < k <= ts.len()) {
                        Err(j)
                    } else {
                        parse_chain(ts, k, combine(left, op, right))
                    },
                    Err(e) => Err(e),
                }
            } else {
                Ok((left, j))
            },
            None => Ok((left, j)),
        }
    }
}

/// The formula at `i`: unit formulas joined by binary connectives, grouped
/// from the left.
pub open spec fn parse_formula(ts: Seq<SToken>, i: nat) -> Parsed<SFormula>
    decreases ts.len() - i, 4int,
{
    if i > ts.len() {
        Err(i)
    } else {
        match parse_unit(ts, i) {
            Ok((f, j)) => if !(i < j <= ts.len()) {
                Err(i)
            } else {
                parse_chain(ts, j, f)
            },
            Err(e) => Err(e),
        }
    }
}

/// The punctuation at `i`, if the token there is punctuation.
pub fn punct_at(ts: &Vec<Token>, i: usize) -> (r: Option<Punct>)
    ensures
        r == (if i < ts.len() { punct_of(tokens_model(ts@)[i as int].kind) } else { None }),
{
    if i >= ts.len() {
        return None;
    }
    match &ts[i].kind {
        TokenKind::LParen => Some(Punct::LParen),
        TokenKind::RParen => Some(Punct::RParen),
        TokenKind::LBracket => Some(Punct::LBracket),
        TokenKind::RBracket => Some(Punct::RBracket),
        TokenKind::Comma => Some(Punct::Comma),
        TokenKind::Colon => Some(Punct::Colon),
        TokenKind::Dot => Some(Punct::Dot),
        TokenKind::And => Some(Punct::And),
        TokenKind::Or => Some(Punct::Or),
        TokenKind::Implies => Some(Punct::Implies),
        TokenKind::Iff => Some(Punct::Iff),
        TokenKind::Not => Some(Punct::Not),
        TokenKind::ForAll => Some(Punct::ForAll),
        TokenKind::Exists => Some(Punct::Exists),
        _ => None,
    }
}

/// Whether the token at `i` is the punctuation `p`.
pub fn punct_is(ts: &Vec<Token>, i: usize, p: Punct) -> (r: bool)
    ensures
        r == is_punct(tokens_model(ts@), i as nat, p),
{
    match punct_at(ts, i) {
        Some(q) => q == p,
        None => false,
    }
}

/// The symbol that the token at `i` names, if it names one.
fn symbol_at(ts: &Vec<Token>, i: usize) -> (r: Option<Symbol>)
    requires
        i < ts.len(),
    ensures
        match r {
            Some(s) => symbol_of(tokens_model(ts@)[i as int].kind) == Some(s@),
            None => symbol_of(tokens_model(ts@)[i as int].kind) is None,
        },
{
    match &ts[i].kind {
        TokenKind::LowerWord(w) => Some(Symbol::User(w.clone())),
        TokenKind::Quoted(w) => Some(Symbol::User(w.clone())),
        TokenKind::DefinedWord(w) => Some(Symbol::Defined(w.clone())),
        TokenKind::SystemWord(w) => Some(Symbol::System(w.clone())),
        _ => None,
    }
}

/// Whether an exec parse result is the spec parse result.
pub open spec fn same_term(r: Result<(Term, usize), usize>, p: Parsed<STerm>) -> bool {
    match r {
        Ok((t, j)) => p == Ok::<(STerm, nat), nat>((t@, j as nat)),
        Err(e) => p == Err::<(STerm, nat), nat>(e as nat),
    }
}

pub open spec fn same_terms(r: Result<(Vec<Term>, usize), usize>, p: Parsed<Seq<STerm>>) -> bool {
    match r {
        Ok((ts, j)) => p == Ok::<(Seq<STerm>, nat), nat>((terms_model(ts@), j as nat)),
        Err(e) => p == Err::<(Seq<STerm>, nat), nat>(e as nat),
    }
}

pub open spec fn same_formula(r: Result<(Formula, usize), usize>, p: Parsed<SFormula>) -> bool {
    match r {
        Ok((f, j)) => p == Ok::<(SFormula, nat), nat>((f@, j as nat)),
        Err(e) => p == Err::<(SFormula, nat), nat>(e as nat),
    }
}

/// The symbol applied to arguments as a term.
fn make_applied_term(name: Symbol, args: Vec<Term>) -> (r: Term)
    ensures
        r@ == applied_term(name@, terms_model(args@)),
{
    if args.len() == 0 {
        Term::Const(name)
    } else {
        Term::Fun { name, args }
    }
}

/// The symbol applied to arguments as an atomic formula.
fn make_atom(name: Symbol, args: Vec<Term>) -> (r: Formula)
    ensures
        r@ == atom_formula(name@, terms_model(args@)),
{
    if args.len() == 0 {
        if let Symbol::Defined(value) = &name {
            let truth = "$true".to_owned();
            let falsity = "$false".to_owned();
            proof {
                reveal_strlit("$true");
                reveal_strlit("$false");
                assert(truth@ =~= seq!['$', 't', 'r', 'u', 'e']);
                assert(falsity@ =~= seq!['$', 'f', 'a', 'l', 's', 'e']);
            }
            if *value == truth {
                return Formula::True;
            }
            if *value == falsity {
                return Formula::False;
            }
        }
    }
    let r = Formula::Atom(Atom::Predicate { name, args });
    r
}

/// Parses the term at `i`.
pub fn term_at(ts: &Vec<Token>, i: usize) -> (r: Result<(Term, usize), usize>)
    ensures
        same_term(r, parse_term(tokens_model(ts@), i as nat)),
        r matches Ok((_, j)) ==> j <= ts.len(),
    decreases ts.len() - i, 1int,
{
    let ghost m = tokens_model(ts@);
    if i >= ts.len() {
        return Err(i);
    }
    assert(m[i as int] == ts@[i as int]@);
    match &ts[i].kind {
        TokenKind::UpperWord(v) => {
            return Ok((Term::Var(Var { name: v.clone() }), i + 1));
        },
        TokenKind::Integer(t) => {
            return Ok((Term::Number(NumberLit::Integer(t.clone())), i + 1));
        },
        TokenKind::Rational(t) => {
            return Ok((Term::Number(NumberLit::Rational(t.clone())), i + 1));
        },
        TokenKind::Real(t) => {
            return Ok((Term::Number(NumberLit::Real(t.clone())), i + 1));
        },
        TokenKind::Distinct(t) => {
            return Ok((Term::DistinctObject(t.clone()), i + 1));
        },
        _ => {},
    }
    assert(terms_model(Seq::<Term>::empty()) =~= Seq::<STerm>::empty());
    match symbol_at(ts, i) {
        Some(name) => {
            if punct_is(ts, i + 1, Punct::LParen) {
                match args_at(ts, i + 2, Vec::new()) {
                    Ok((args, j)) => Ok((make_applied_term(name, args), j)),
                    Err(e) => Err(e),
                }
            } else {
                Ok((Term::Const(name), i + 1))
            }
        },
        None => Err(i),
    }
}

/// Parses arguments from `i` on after the arguments `acc`, through the
/// closing parenthesis.
pub fn args_at(ts: &Vec<Token>, i: usize, acc: Vec<Term>) -> (r: Result<(Vec<Term>, usize), usize>)
    ensures
        same_terms(r, parse_args(tokens_model(ts@), i as nat, terms_model(acc@))),
        r matches Ok((_, j)) ==> j <= ts.len(),
    decreases ts.len() - i, 2int,
{
    if i > ts.len() {
        return Err(i);
    }
    match term_at(ts, i) {
        Ok((t, j)) => {
            if !(i < j && j <= ts.len()) {
                return Err(i);
            }
            let mut acc = acc;
            let ghost before = acc@;
            let ghost tm = t@;
            acc.push(t);
            proof {
                assert(terms_model(acc@) == terms_model(before).push(tm));
            }
            if punct_is(ts, j, Punct::Comma) {
                args_at(ts, j + 1, acc)
            } else if punct_is(ts, j, Punct::RParen) {
                Ok((acc, j + 1))
            } else {
                Err(j)
            }
        },
        Err(e) => Err(e),
    }
}

/// Parses the atomic formula at `i`.
pub fn atomic_at(ts: &Vec<Token>, i: usize) -> (r: Result<(Formula, usize), usize>)
    ensures
        same_formula(r, parse_atomic(tokens_model(ts@), i as nat)),
        r matches Ok((_, j)) ==> j <= ts.len(),
    decreases ts.len() - i, 0int,
{
    if i >= ts.len() {
        return Err(i);
    }
    assert(terms_model(Seq::<Term>::empty()) =~= Seq::<STerm>::empty());
    match symbol_at(ts, i) {
        Some(name) => {
            if punct_is(ts, i + 1, Punct::LParen) {
                match args_at(ts, i + 2, Vec::new()) {
                    Ok((args, j)) => Ok((make_atom(name, args), j)),
                    Err(e) => Err(e),
                }
            } else {
                let r = make_atom(name, Vec::new());
                assert(terms_model(Seq::<Term>::empty()) =~= Seq::<STerm>::empty());
                Ok((r, i + 1))
            }
        },
        None => Err(i),
    }
}

/// Parses bound variables from `i` on after the variables `acc`, through the
/// closing bracket.
pub fn vars_at(ts: &Vec<Token>, i: usize, acc: Vec<Var>) -> (r: Result<(Vec<Var>, usize), usize>)
    ensures
        match r {
            Ok((vs, j)) => parse_vars(tokens_model(ts@), i as nat, crate::ast::model::vars_model(acc@)) == Ok::<
                (Seq<Seq<char>>, nat),
                nat,
            >((crate::ast::model::vars_model(vs@), j as nat)),
            Err(e) => parse_vars(tokens_model(ts@), i as nat, crate::ast::model::vars_model(acc@)) == Err::<
                (Seq<Seq<char>>, nat),
                nat,
            >(e as nat),
        },
        r matches Ok((_, j)) ==> j <= ts.len(),
    decreases ts.len() - i,
{
    let ghost m = tokens_model(ts@);
    if i >= ts.len() {
        return Err(i);
    }
    assert(m[i as int] == ts@[i as int]@);
    match &ts[i].kind {
        TokenKind::UpperWord(v) => {
            let mut acc = acc;
            let ghost before = acc@;
            acc.push(Var { name: v.clone() });
            proof {
                assert(crate::ast::model::vars_model(acc@) =~= crate::ast::model::vars_model(before).push(v@));
            }
            if punct_is(ts, i + 1, Punct::Comma) {
                vars_at(ts, i + 2, acc)
            } else if punct_is(ts, i + 1, Punct::RBracket) {
                Ok((acc, i + 2))
            } else {
                Err(i + 1)
            }
        },
        _ => Err(i),
    }
}

/// Parses the unitary formula at `i`.
pub fn unitary_at(ts: &Vec<Token>, i: usize) -> (r: Result<(Formula, usize), usize>)
    ensures
        same_formula(r, parse_unitary(tokens_model(ts@), i as nat)),
        r matches Ok((_, j)) ==> j <= ts.len(),
    decreases ts.len() - i, 1int,
{
    if i >= ts.len() {
        return Err(i);
    }
    let universal = punct_is(ts, i, Punct::ForAll);
    if universal || punct_is(ts, i, Punct::Exists) {
        if !punct_is(ts, i + 1, Punct::LBracket) {
            return Err(i + 1);
        }
        proof {
            assert(crate::ast::model::vars_model(Seq::<Var>::empty()) =~= Seq::<Seq<char>>::empty());
        }
        match vars_at(ts, i + 2, Vec::new()) {
            Ok((vars, j)) => {
                if !punct_is(ts, j, Punct::Colon) {
                    return Err(j);
                }
                if !(i < j + 1 && j + 1 <= ts.len()) {
                    return Err(j);
                }
                match unit_at(ts, j + 1) {
                    Ok((body, k)) => {
                        if universal {
                            Ok((Formula::ForAll(vars, Box::new(body)), k))
                        } else {
                            Ok((Formula::Exists(vars, Box::new(body)), k))
                        }
                    },
                    Err(e) => Err(e),
                }
            },
            Err(e) => Err(e),
        }
    } else if punct_is(ts, i, Punct::LParen) {
        match formula_at(ts, i + 1) {
            Ok((f, j)) => {
                if punct_is(ts, j, Punct::RParen) {
                    Ok((f, j + 1))
                } else {
                    Err(j)
                }
            },
            Err(e) => Err(e),
        }
    } else {
        atomic_at(ts, i)
    }
}

/// Parses the unit formula at `i`.
pub fn unit_at(ts: &Vec<Token>, i: usize) -> (r: Result<(Formula, usize), usize>)
    ensures
        same_formula(r, parse_unit(tokens_model(ts@), i as nat)),
        r matches Ok((_, j)) ==> j <= ts.len(),
    decreases ts.len() - i, 2int,
{
    if i >= ts.len() {
        return Err(i);
    }
    if punct_is(ts, i, Punct::Not) {
        match unit_at(ts, i + 1) {
            Ok((f, j)) => Ok((Formula::Not(Box::new(f)), j)),
            Err(e) => Err(e),
        }
    } else {
        unitary_at(ts, i)
    }
}

/// The operands that `f` contributes to a junction.
fn junction_operands(f: Formula, conj: bool) -> (r: Vec<Formula>)
    ensures
        formulas_model(r@) == junction_items(f@, conj),
{
    match f {
        Formula::And(items) if conj => items,
        Formula::Or(items) if !conj => items,
        other => {
            let ghost om = other@;
            let v = vec![other];
            assert(formulas_model(v@) =~= seq![om]);
            v
        },
    }
}

/// `left op right`.
fn combine_binary(left: Formula, op: Punct, right: Formula) -> (r: Formula)
    requires
        is_binop(op),
    ensures
        r@ == combine(left@, op, right@),
{
    match op {
        Punct::And | Punct::Or => {
            let conj = op == Punct::And;
            let mut items = junction_operands(left, conj);
            let ghost a = formulas_model(items@);
            let mut more = junction_operands(right, conj);
            let ghost b = formulas_model(more@);
            let ghost v1 = items@;
            let ghost v2 = more@;
            items.append(&mut more);
            proof {
                assert(items@ == v1 + v2);
                assert(formulas_model(items@) =~= a + b);
            }
            if conj {
                Formula::And(items)
            } else {
                Formula::Or(items)
            }
        },
        Punct::Implies => Formula::Implies(Box::new(left), Box::new(right)),
        _ => {
            let forward = Formula::Implies(Box::new(left.duplicate()), Box::new(right.duplicate()));
            let backward = Formula::Implies(Box::new(right), Box::new(left));
            let ghost (fm, bm) = (forward@, backward@);
            let v = vec![forward, backward];
            assert(formulas_model(v@) =~= seq![fm, bm]);
            Formula::And(v)
        },
    }
}

/// Parses the rest of a binary chain from `j` on, with `left` the operands so
/// far.
pub fn chain_at(ts: &Vec<Token>, j: usize, left: Formula) -> (r: Result<(Formula, usize), usize>)
    requires
        j <= ts.len(),
    ensures
        same_formula(r, parse_chain(tokens_model(ts@), j as nat, left@)),
        r matches Ok((_, k)) ==> k <= ts.len(),
    decreases ts.len() - j, 3int,
{
    if j >= ts.len() {
        return Ok((left, j));
    }
    match punct_at(ts, j) {
        Some(op) => {
            if is_binop_punct(op) {
                match unit_at(ts, j + 1) {
                    Ok((right, k)) => {
                        if !(j < k && k <= ts.len()) {
                            return Err(j);
                        }
                        let combined = combine_binary(left, op, right);
                        chain_at(ts, k, combined)
                    },
                    Err(e) => Err(e),
                }
            } else {
                Ok((left, j))
            }
        },
        None => Ok((left, j)),
    }
}

fn is_binop_punct(p: Punct) -> (r: bool)
    ensures
        r == is_binop(p),
{
    p == Punct::And || p == Punct::Or || p == Punct::Implies || p == Punct::Iff
}

/// Parses the formula at `i`.
pub fn formula_at(ts: &Vec<Token>, i: usize) -> (r: Result<(Formula, usize), usize>)
    ensures
        same_formula(r, parse_formula(tokens_model(ts@), i as nat)),
        r matches Ok((_, j)) ==> j <= ts.len(),
    decreases ts.len() - i, 4int,
{
    if i > ts.len() {
        return Err(i);
    }
    match unit_at(ts, i) {
        Ok((f, j)) => {
            if !(i < j && j <= ts.len()) {
                return Err(i);
            }
            chain_at(ts, j, f)
        },
        Err(e) => Err(e),
    }
}

} // verus!
