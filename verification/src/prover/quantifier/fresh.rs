//! Fresh names for eigenconstants and fallback witness terms.

use vstd::prelude::*;
use vstd::relations::injective_on;
use vstd::set_lib::{lemma_int_range, lemma_len_subset, lemma_map_size, set_int_range};

use crate::ast::model::SSequent;
use crate::prover::quantifier::terms::{
    collect_sequent_symbols, formula_symbols, is_part, lemma_name_set_contains, lemma_part_symbols,
    lemma_sequent_formula_symbols, lemma_sequent_symbols_finite, name_set, sequent_symbols,
};
use crate::ast::model::SFormula;
use crate::prover::sequent::Sequent;
use crate::text::{dec, lemma_dec_injective, lemma_dec_shape, push_str, strings_contain, usize_to_decimal};

verus! {

/// The `k mod 26`-th lower-case letter.
pub open spec fn letter(k: nat) -> char {
    (((k % 26) + 97) as u8) as char
}

/// The `k`-th candidate name after `prefix`: a letter, then the round number
/// when it is not zero (`a`, …, `z`, `a1`, …, `z1`, `a2`, …).
pub open spec fn candidate(prefix: Seq<char>, k: nat) -> Seq<char> {
    prefix.push(letter(k)) + if k / 26 > 0 {
        dec(k / 26)
    } else {
        Seq::empty()
    }
}

/// `k` is the first candidate that `used` does not contain.
pub open spec fn is_first_free(used: Set<Seq<char>>, prefix: Seq<char>, k: nat) -> bool {
    &&& !used.contains(candidate(prefix, k))
    &&& forall|j: nat| j < k ==> used.contains(#[trigger] candidate(prefix, j))
}

/// The index of the first candidate not in `used`.
pub open spec fn first_free(used: Set<Seq<char>>, prefix: Seq<char>) -> nat {
    choose|k: nat| is_first_free(used, prefix, k)
}

/// The eigenconstant that `∀R` and `∃L` introduce: the first of `a`, …, `z`,
/// `a1`, … that occurs nowhere in the sequent.
pub open spec fn fresh_eigen_name(s: SSequent) -> Seq<char> {
    candidate(Seq::empty(), first_free(sequent_symbols(s), Seq::empty()))
}

/// The fallback witness name: `w` when it is unused, else the first of
/// `wa`, …, `wz`, `wa1`, … that occurs nowhere in the sequent.
pub open spec fn fresh_branch_name(s: SSequent) -> Seq<char> {
    if !sequent_symbols(s).contains(seq!['w']) {
        seq!['w']
    } else {
        candidate(seq!['w'], first_free(sequent_symbols(s), seq!['w']))
    }
}

proof fn lemma_letter_injective(a: nat, b: nat)
    requires
        letter(a) == letter(b),
    ensures
        a % 26 == b % 26,
{
    assert((((a % 26) + 97) as u8) == (((b % 26) + 97) as u8));
}

/// Different indices give different candidates.
pub proof fn lemma_candidate_injective(prefix: Seq<char>, a: nat, b: nat)
    requires
        candidate(prefix, a) == candidate(prefix, b),
    ensures
        a == b,
{
    let ca = candidate(prefix, a);
    let cb = candidate(prefix, b);
    assert(ca[prefix.len() as int] == letter(a));
    assert(cb[prefix.len() as int] == letter(b));
    lemma_letter_injective(a, b);
    let sa = ca.subrange(prefix.len() as int + 1, ca.len() as int);
    let sb = cb.subrange(prefix.len() as int + 1, cb.len() as int);
    let da = if a / 26 > 0 { dec(a / 26) } else { Seq::empty() };
    let db = if b / 26 > 0 { dec(b / 26) } else { Seq::empty() };
    assert(sa =~= da);
    assert(sb =~= db);
    if a / 26 > 0 {
        lemma_dec_shape(a / 26);
    }
    if b / 26 > 0 {
        lemma_dec_shape(b / 26);
    }
    if a / 26 > 0 && b / 26 > 0 {
        lemma_dec_injective(a / 26, b / 26);
    }
    assert(a / 26 == b / 26);
    vstd::arithmetic::div_mod::lemma_fundamental_div_mod(a as int, 26);
    vstd::arithmetic::div_mod::lemma_fundamental_div_mod(b as int, 26);
}

/// At most `used.len()` candidates in a row can be taken.
pub proof fn lemma_candidates_bound(used: Set<Seq<char>>, prefix: Seq<char>, k: nat)
    requires
        used.finite(),
        forall|j: nat| j < k ==> used.contains(#[trigger] candidate(prefix, j)),
    ensures
        k <= used.len(),
{
    let f = |j: int| candidate(prefix, j as nat);
    let dom = set_int_range(0, k as int);
    lemma_int_range(0, k as int);
    assert(injective_on(f, dom)) by {
        assert forall|x: int, y: int| dom.contains(x) && dom.contains(y) && #[trigger] f(x) == #[trigger] f(y) implies x == y by {
            lemma_candidate_injective(prefix, x as nat, y as nat);
        }
    }
    let img = dom.map(f);
    lemma_map_size(dom, img, f);
    assert(img.subset_of(used)) by {
        assert forall|c: Seq<char>| img.contains(c) implies used.contains(c) by {
            let x = choose|x: int| dom.contains(x) && f(x) == c;
            assert(used.contains(candidate(prefix, x as nat)));
        }
    }
    lemma_len_subset(img, used);
}

/// Some candidate is free, and the first free one is unique.
pub proof fn lemma_first_free(used: Set<Seq<char>>, prefix: Seq<char>, k: nat)
    requires
        is_first_free(used, prefix, k),
    ensures
        first_free(used, prefix) == k,
{
    let c = first_free(used, prefix);
    assert(is_first_free(used, prefix, c));
    if c < k {
        assert(used.contains(candidate(prefix, c)));
    } else if k < c {
        assert(used.contains(candidate(prefix, k)));
    }
}

/// A finite set leaves some candidate free.
pub proof fn lemma_first_free_exists(used: Set<Seq<char>>, prefix: Seq<char>)
    requires
        used.finite(),
    ensures
        is_first_free(used, prefix, first_free(used, prefix)),
        !used.contains(candidate(prefix, first_free(used, prefix))),
{
    let n = used.len();
    if forall|j: nat| j <= n ==> used.contains(#[trigger] candidate(prefix, j)) {
        lemma_candidates_bound(used, prefix, n + 1);
    } else {
        let w = choose|j: nat| j <= n && !used.contains(#[trigger] candidate(prefix, j));
        lemma_least_free(used, prefix, w);
    }
}

proof fn lemma_least_free(used: Set<Seq<char>>, prefix: Seq<char>, w: nat)
    requires
        !used.contains(candidate(prefix, w)),
    ensures
        is_first_free(used, prefix, first_free(used, prefix)),
    decreases w,
{
    if forall|j: nat| j < w ==> used.contains(#[trigger] candidate(prefix, j)) {
        lemma_first_free(used, prefix, w);
    } else {
        let v = choose|j: nat| j < w && !used.contains(#[trigger] candidate(prefix, j));
        lemma_least_free(used, prefix, v);
    }
}

/// The candidate name `prefix` + letter + round number.
fn make_candidate(prefix: &str, k: usize) -> (r: String)
    ensures
        r@ == candidate(prefix@, k as nat),
{
    let mut s = prefix.to_owned();
    s.push(((k % 26) as u8 + 97u8) as char);
    if k / 26 > 0 {
        let d = usize_to_decimal(k / 26);
        push_str(&mut s, d.as_str());
    }
    assert(s@ =~= candidate(prefix@, k as nat));
    s
}

/// The first candidate after `prefix` that `used` does not hold.
fn first_free_candidate(used: &Vec<String>, prefix: &str) -> (r: String)
    ensures
        r@ == candidate(prefix@, first_free(name_set(used@), prefix@)),
        !name_set(used@).contains(r@),
{
    let ghost set = name_set(used@);
    proof {
        vstd::seq_lib::seq_to_set_is_finite(used@.map_values(|s: String| s@));
        used@.map_values(|s: String| s@).lemma_cardinality_of_set();
    }
    let mut k: usize = 0;
    loop
        invariant
            set == name_set(used@),
            set.finite(),
            set.len() <= used.len(),
            forall|j: nat| j < k ==> set.contains(#[trigger] candidate(prefix@, j)),
        decreases used.len() - k,
    {
        proof {
            lemma_candidates_bound(set, prefix@, k as nat);
        }
        let c = make_candidate(prefix, k);
        if !strings_contain(used, &c) {
            proof {
                lemma_name_set_contains(used@, c@);
                lemma_first_free(set, prefix@, k as nat);
            }
            return c;
        }
        proof {
            lemma_name_set_contains(used@, c@);
            lemma_candidates_bound(set, prefix@, (k + 1) as nat);
        }
        k = k + 1;
    }
}

/// The eigenconstant that `∀R` and `∃L` introduce occurs nowhere in the
/// sequent.
pub proof fn lemma_fresh_eigen_name(s: SSequent)
    ensures
        !sequent_symbols(s).contains(fresh_eigen_name(s)),
{
    lemma_sequent_symbols_finite(s);
    lemma_first_free_exists(sequent_symbols(s), Seq::empty());
}

/// A constant name that occurs nowhere in the sequent, as required by the
/// eigenvariable conditions of `∀R` and `∃L`.
pub fn fresh_eigenconstant_name(sequent: &Sequent) -> (r: String)
    ensures
        r@ == fresh_eigen_name(sequent@),
        !sequent_symbols(sequent@).contains(r@),
{
    let mut used: Vec<String> = Vec::new();
    collect_sequent_symbols(sequent, &mut used);
    proof {
        assert(name_set(Seq::<String>::empty()) =~= Set::<Seq<char>>::empty());
        assert(name_set(used@) =~= sequent_symbols(sequent@));
        reveal_strlit("");
        assert(""@ =~= Seq::<char>::empty());
    }
    let r = first_free_candidate(&used, "");
    r
}

/// A fresh constant name for a fallback quantifier witness.
pub fn fresh_branch_term_name(sequent: &Sequent) -> (r: String)
    ensures
        r@ == fresh_branch_name(sequent@),
        !sequent_symbols(sequent@).contains(r@),
{
    proof {
        reveal_strlit("w");
        assert("w"@ =~= seq!['w']);
    }
    fresh_name_avoiding_sequent(sequent, "w")
}

/// `prefix` itself when the sequent does not use it, else the first free
/// candidate after `prefix`.
fn fresh_name_avoiding_sequent(sequent: &Sequent, prefix: &str) -> (r: String)
    requires
        prefix@ == seq!['w'],
    ensures
        r@ == fresh_branch_name(sequent@),
        !sequent_symbols(sequent@).contains(r@),
{
    let mut used: Vec<String> = Vec::new();
    collect_sequent_symbols(sequent, &mut used);
    proof {
        assert(name_set(Seq::<String>::empty()) =~= Set::<Seq<char>>::empty());
        assert(name_set(used@) =~= sequent_symbols(sequent@));
    }
    let p = prefix.to_owned();
    if !strings_contain(&used, &p) {
        proof {
            lemma_name_set_contains(used@, p@);
        }
        return p;
    }
    proof {
        lemma_name_set_contains(used@, p@);
    }
    first_free_candidate(&used, prefix)
}

/// The eigenconstant name occurs in no formula of the sequent, nor in any
/// part of one: if it occurs in `g` and `g` is a part of `f`, it occurs in
/// `f`, and `f` is not one of the sequent's formulas.
pub proof fn lemma_fresh_eigen_name_avoids(s: SSequent, f: SFormula, g: SFormula)
    requires
        s.left.contains(f) || s.right.contains(f),
        g == f || is_part(g, f),
    ensures
        !formula_symbols(g).contains(fresh_eigen_name(s)),
{
    lemma_fresh_eigen_name(s);
    if s.left.contains(f) {
        let i = choose|i: int| 0 <= i < s.left.len() && s.left[i] == f;
        lemma_sequent_formula_symbols(s, i, true);
    } else {
        let i = choose|i: int| 0 <= i < s.right.len() && s.right[i] == f;
        lemma_sequent_formula_symbols(s, i, false);
    }
    if is_part(g, f) {
        lemma_part_symbols(g, f);
    }
}

} // verus!
