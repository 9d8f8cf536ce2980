//! The scope of quantifiers and negations: a unit formula holds no binary
//! connective outside parentheses, so a binary connective after a quantified
//! or negated unit joins that whole unit, never a part of it.

use vstd::prelude::*;

use crate::parser::grammar::{
    is_binop, is_punct, parse_args, parse_atomic, parse_chain, parse_formula, parse_term, parse_unit, parse_unitary,
    parse_vars, punct_of, Punct,
};
use crate::parser::lexer::{SKind, SToken};

verus! {

/// What the token at `p` adds to the parenthesis depth.
pub open spec fn paren_step(ts: Seq<SToken>, p: nat) -> int {
    if is_punct(ts, p, Punct::LParen) {
        1
    } else if is_punct(ts, p, Punct::RParen) {
        -1
    } else {
        0
    }
}

/// The parenthesis depth after the tokens `i..m`, relative to `i`.
pub open spec fn paren_depth(ts: Seq<SToken>, i: nat, m: nat) -> int
    decreases m - i,
{
    if m <= i {
        0
    } else {
        paren_depth(ts, i, (m - 1) as nat) + paren_step(ts, (m - 1) as nat)
    }
}

/// Whether the token at `m` is a binary connective.
pub open spec fn binop_token(ts: Seq<SToken>, m: nat) -> bool {
    m < ts.len() && match punct_of(ts[m as int].kind) {
        Some(op) => is_binop(op),
        None => false,
    }
}

/// The tokens `i..k` are balanced and hold no binary connective.
pub open spec fn flat(ts: Seq<SToken>, i: nat, k: nat, depth: int) -> bool {
    &&& paren_depth(ts, i, k) == depth
    &&& forall|m: nat| i <= m < k ==> !#[trigger] binop_token(ts, m)
}

/// The tokens `i..k` are balanced and every binary connective among them
/// lies inside parentheses opened among them.
pub open spec fn unit_shaped(ts: Seq<SToken>, i: nat, k: nat) -> bool {
    &&& paren_depth(ts, i, k) == 0
    &&& forall|m: nat| i <= m < k && #[trigger] binop_token(ts, m) ==> paren_depth(ts, i, m) >= 1
}

/// The tokens `i..k` are balanced and no binary connective among them lies
/// after a parenthesis closed that was not opened among them.
pub open spec fn formula_shaped(ts: Seq<SToken>, i: nat, k: nat) -> bool {
    &&& paren_depth(ts, i, k) == 0
    &&& forall|m: nat| i <= m < k && #[trigger] binop_token(ts, m) ==> paren_depth(ts, i, m) >= 0
}

/// Depths add up along the tokens.
proof fn lemma_depth_split(ts: Seq<SToken>, i: nat, j: nat, m: nat)
    requires
        i <= j <= m,
    ensures
        paren_depth(ts, i, m) == paren_depth(ts, i, j) + paren_depth(ts, j, m),
    decreases m - j,
{
    if m > j {
        lemma_depth_split(ts, i, j, (m - 1) as nat);
    }
}

/// A token that is neither parenthesis leaves the depth as it is.
proof fn lemma_depth_plain(ts: Seq<SToken>, i: nat)
    requires
        !is_punct(ts, i, Punct::LParen),
        !is_punct(ts, i, Punct::RParen),
    ensures
        paren_depth(ts, i, i + 1) == 0,
{
    assert(paren_depth(ts, i, i) == 0);
}

/// A term holds no binary connective, and its parentheses balance.
proof fn lemma_term_flat(ts: Seq<SToken>, i: nat)
    ensures
        parse_term(ts, i) matches Ok((t, k)) ==> i < k && flat(ts, i, k, 0),
    decreases ts.len() - i, 1int,
{
    if i < ts.len() {
        if let Ok((t, k)) = parse_term(ts, i) {
            lemma_depth_plain(ts, i);
            if k == i + 1 {
                assert forall|m: nat| i <= m < k implies !#[trigger] binop_token(ts, m) by {
                    assert(m == i);
                }
            } else {
                assert(is_punct(ts, i + 1, Punct::LParen));
                lemma_args_flat(ts, i + 2, Seq::empty());
                assert(paren_depth(ts, i + 1, i + 2) == paren_depth(ts, i + 1, i + 1) + 1);
                lemma_depth_split(ts, i, i + 1, i + 2);
                lemma_depth_split(ts, i, i + 2, k);
                assert forall|m: nat| i <= m < k implies !#[trigger] binop_token(ts, m) by {
                    if m >= i + 2 {
                    }
                }
            }
        }
    }
}

/// The arguments of an application, with their closing parenthesis, hold no
/// binary connective and close one parenthesis more than they open.
proof fn lemma_args_flat(ts: Seq<SToken>, i: nat, acc: Seq<crate::ast::model::STerm>)
    ensures
        parse_args(ts, i, acc) matches Ok((args, k)) ==> i < k && flat(ts, i, k, -1),
    decreases ts.len() - i, 2int,
{
    if i <= ts.len() {
        lemma_term_flat(ts, i);
        if let Ok((t, j)) = parse_term(ts, i) {
            if i < j <= ts.len() {
                if is_punct(ts, j, Punct::Comma) {
                    lemma_args_flat(ts, j + 1, acc.push(t));
                    if let Ok((args, k)) = parse_args(ts, j + 1, acc.push(t)) {
                        lemma_depth_plain(ts, j);
                        lemma_depth_split(ts, i, j, j + 1);
                        lemma_depth_split(ts, i, j + 1, k);
                        assert forall|m: nat| i <= m < k implies !#[trigger] binop_token(ts, m) by {
                            if m < j {
                            } else if m == j {
                            } else {
                            }
                        }
                    }
                } else if is_punct(ts, j, Punct::RParen) {
                    assert(paren_depth(ts, j, j + 1) == paren_depth(ts, j, j) - 1);
                    lemma_depth_split(ts, i, j, j + 1);
                    assert forall|m: nat| i <= m < j + 1 implies !#[trigger] binop_token(ts, m) by {
                        if m < j {
                        } else {
                        }
                    }
                }
            }
        }
    }
}

/// Bound variables hold no binary connective and no parenthesis.
proof fn lemma_vars_flat(ts: Seq<SToken>, i: nat, acc: Seq<Seq<char>>)
    ensures
        parse_vars(ts, i, acc) matches Ok((vars, k)) ==> i < k && flat(ts, i, k, 0),
    decreases ts.len() - i,
{
    if i < ts.len() {
        if let SKind::UpperWord(v) = ts[i as int].kind {
            lemma_depth_plain(ts, i);
            if is_punct(ts, i + 1, Punct::Comma) || is_punct(ts, i + 1, Punct::RBracket) {
                lemma_depth_plain(ts, i + 1);
                lemma_depth_split(ts, i, i + 1, i + 2);
            }
            if is_punct(ts, i + 1, Punct::Comma) {
                lemma_vars_flat(ts, i + 2, acc.push(v));
                if let Ok((vars, k)) = parse_vars(ts, i + 2, acc.push(v)) {
                    lemma_depth_split(ts, i, i + 2, k);
                    assert forall|m: nat| i <= m < k implies !#[trigger] binop_token(ts, m) by {
                        if m < i + 2 {
                        }
                    }
                }
            } else if is_punct(ts, i + 1, Punct::RBracket) {
                assert forall|m: nat| i <= m < i + 2 implies !#[trigger] binop_token(ts, m) by {}
            }
        }
    }
}

/// An atomic formula holds no binary connective, and its parentheses
/// balance.
proof fn lemma_atomic_flat(ts: Seq<SToken>, i: nat)
    ensures
        parse_atomic(ts, i) matches Ok((f, k)) ==> i < k && flat(ts, i, k, 0),
{
    if i < ts.len() {
        if let Ok((f, k)) = parse_atomic(ts, i) {
            lemma_depth_plain(ts, i);
            if is_punct(ts, i + 1, Punct::LParen) {
                lemma_args_flat(ts, i + 2, Seq::empty());
                assert(paren_depth(ts, i + 1, i + 2) == paren_depth(ts, i + 1, i + 1) + 1);
                lemma_depth_split(ts, i, i + 1, i + 2);
                lemma_depth_split(ts, i, i + 2, k);
                assert forall|m: nat| i <= m < k implies !#[trigger] binop_token(ts, m) by {
                    if m >= i + 2 {
                    }
                }
            } else {
                assert forall|m: nat| i <= m < k implies !#[trigger] binop_token(ts, m) by {
                    assert(m == i);
                }
            }
        }
    }
}

/// A unitary formula holds no binary connective outside parentheses.
proof fn lemma_unitary_scope(ts: Seq<SToken>, i: nat)
    ensures
        parse_unitary(ts, i) matches Ok((f, k)) ==> i < k && unit_shaped(ts, i, k),
    decreases ts.len() - i, 1int,
{
    if i < ts.len() {
        if is_punct(ts, i, Punct::ForAll) || is_punct(ts, i, Punct::Exists) {
            if is_punct(ts, i + 1, Punct::LBracket) {
                lemma_vars_flat(ts, i + 2, Seq::empty());
                if let Ok((vars, j)) = parse_vars(ts, i + 2, Seq::empty()) {
                    if is_punct(ts, j, Punct::Colon) && i < j + 1 <= ts.len() {
                        lemma_unit_scope(ts, j + 1);
                        if let Ok((body, k)) = parse_unit(ts, j + 1) {
                            lemma_depth_plain(ts, i);
                            lemma_depth_plain(ts, i + 1);
                            lemma_depth_plain(ts, j);
                            lemma_depth_split(ts, i, i + 1, i + 2);
                            lemma_depth_split(ts, i, i + 2, j);
                            lemma_depth_split(ts, i, j, j + 1);
                            lemma_depth_split(ts, i, j + 1, k);
                            assert forall|m: nat| i <= m < k && #[trigger] binop_token(ts, m) implies paren_depth(
                                ts,
                                i,
                                m,
                            ) >= 1 by {
                                if m <= j {
                                    assert(m != i && m != i + 1 && m != j);
                                } else {
                                    lemma_depth_split(ts, i, j + 1, m);
                                }
                            }
                        }
                    }
                }
            }
        } else if is_punct(ts, i, Punct::LParen) {
            lemma_formula_scope(ts, i + 1);
            if let Ok((f, j)) = parse_formula(ts, i + 1) {
                if is_punct(ts, j, Punct::RParen) {
                    assert(paren_depth(ts, i, i + 1) == paren_depth(ts, i, i) + 1);
                    assert(paren_depth(ts, j, j + 1) == paren_depth(ts, j, j) - 1);
                    lemma_depth_split(ts, i, i + 1, j);
                    lemma_depth_split(ts, i, j, j + 1);
                    assert forall|m: nat| i <= m < j + 1 && #[trigger] binop_token(ts, m) implies paren_depth(ts, i, m)
                        >= 1 by {
                        if i < m < j {
                            lemma_depth_split(ts, i, i + 1, m);
                        }
                    }
                }
            }
        } else {
            lemma_atomic_flat(ts, i);
        }
    }
}

/// A unit formula holds no binary connective outside parentheses: the scope
/// of a quantifier or a negation ends before the first binary connective at
/// its own level, so `! [X] : p(X) => q` reads as `(! [X] : p(X)) => q`.
pub proof fn lemma_unit_scope(ts: Seq<SToken>, i: nat)
    ensures
        parse_unit(ts, i) matches Ok((f, k)) ==> i < k && unit_shaped(ts, i, k),
    decreases ts.len() - i, 2int,
{
    if i < ts.len() {
        if is_punct(ts, i, Punct::Not) {
            lemma_unit_scope(ts, i + 1);
            if let Ok((f, k)) = parse_unit(ts, i + 1) {
                lemma_depth_plain(ts, i);
                lemma_depth_split(ts, i, i + 1, k);
                assert forall|m: nat| i <= m < k && #[trigger] binop_token(ts, m) implies paren_depth(ts, i, m) >= 1 by {
                    if m > i {
                        lemma_depth_split(ts, i, i + 1, m);
                    }
                }
            }
        } else {
            lemma_unitary_scope(ts, i);
        }
    }
}

/// The rest of a binary chain is balanced and has its binary connectives
/// at its own level or deeper.
proof fn lemma_chain_scope(ts: Seq<SToken>, j: nat, left: crate::ast::model::SFormula)
    ensures
        parse_chain(ts, j, left) matches Ok((f, k)) ==> j <= k && formula_shaped(ts, j, k),
    decreases ts.len() - j, 3int,
{
    if j < ts.len() {
        if let Some(op) = punct_of(ts[j as int].kind) {
            if is_binop(op) {
                lemma_unit_scope(ts, j + 1);
                if let Ok((right, k)) = parse_unit(ts, j + 1) {
                    if j < k <= ts.len() {
                        let next = crate::parser::grammar::combine(left, op, right);
                        lemma_chain_scope(ts, k, next);
                        if let Ok((f, k2)) = parse_chain(ts, k, next) {
                            lemma_depth_plain(ts, j);
                            lemma_depth_split(ts, j, j + 1, k);
                            lemma_depth_split(ts, j, k, k2);
                            assert forall|m: nat| j <= m < k2 && #[trigger] binop_token(ts, m) implies paren_depth(
                                ts,
                                j,
                                m,
                            ) >= 0 by {
                                if j < m < k {
                                    lemma_depth_split(ts, j, j + 1, m);
                                } else if m >= k {
                                    lemma_depth_split(ts, j, k, m);
                                }
                            }
                        }
                    }
                }
            }
        }
    }
}

/// A formula is balanced and has its binary connectives at its own level or
/// deeper.
pub proof fn lemma_formula_scope(ts: Seq<SToken>, i: nat)
    ensures
        parse_formula(ts, i) matches Ok((f, k)) ==> i < k && formula_shaped(ts, i, k),
    decreases ts.len() - i, 4int,
{
    if i <= ts.len() {
        lemma_unit_scope(ts, i);
        if let Ok((f, j)) = parse_unit(ts, i) {
            if i < j <= ts.len() {
                lemma_chain_scope(ts, j, f);
                if let Ok((g, k)) = parse_chain(ts, j, f) {
                    lemma_depth_split(ts, i, j, k);
                    assert forall|m: nat| i <= m < k && #[trigger] binop_token(ts, m) implies paren_depth(ts, i, m) >= 0 by {
                        if m >= j {
                            lemma_depth_split(ts, i, j, m);
                        }
                    }
                }
            }
        }
    }
}

} // verus!
