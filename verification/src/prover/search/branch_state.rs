//! Per-branch bookkeeping used to avoid repeating quantifier instantiations.

use vstd::prelude::*;

use crate::ast::model::{group_model, terms_model, STerm};
use crate::ast::term::Term;

verus! {

broadcast use group_model;

/// What has been tried for one quantified occurrence: the set of terms used
/// and the number of fresh fallback terms introduced.
pub struct SUsage {
    pub used: Set<STerm>,
    pub fresh: nat,
}

/// The usage of an occurrence that has not been instantiated yet.
pub open spec fn no_usage() -> SUsage {
    SUsage { used: Set::empty(), fresh: 0 }
}

/// Tracks which terms have been tried for one quantified occurrence.
#[derive(Debug, PartialEq, Eq)]
pub struct QuantifierUsage {
    pub used_terms: Vec<Term>,
    pub fresh_terms_used: usize,
}

impl View for QuantifierUsage {
    type V = SUsage;

    open spec fn view(&self) -> SUsage {
        SUsage { used: terms_model(self.used_terms@).to_set(), fresh: self.fresh_terms_used as nat }
    }
}

impl QuantifierUsage {
    /// Whether `term` has been used for this occurrence.
    pub fn contains(&self, term: &Term) -> (r: bool)
        ensures
            r == self@.used.contains(term@),
    {
        let mut i: usize = 0;
        while i < self.used_terms.len()
            invariant
                i <= self.used_terms.len(),
                forall|j: int| 0 <= j < i ==> terms_model(self.used_terms@)[j] != term@,
            decreases self.used_terms.len() - i,
        {
            if self.used_terms[i].same(term) {
                assert(terms_model(self.used_terms@)[i as int] == term@);
                return true;
            }
            i += 1;
        }
        false
    }

    fn copy(&self) -> (r: QuantifierUsage)
        ensures
            r@ == self@,
    {
        let mut used_terms: Vec<Term> = Vec::new();
        let mut i: usize = 0;
        while i < self.used_terms.len()
            invariant
                i <= self.used_terms.len(),
                terms_model(used_terms@) == terms_model(self.used_terms@).take(i as int),
            decreases self.used_terms.len() - i,
        {
            let t = self.used_terms[i].clone();
            proof {
                assert(terms_model(self.used_terms@).take(i + 1) =~= terms_model(self.used_terms@).take(i as int).push(
                    terms_model(self.used_terms@)[i as int],
                ));
            }
            used_terms.push(t);
            i += 1;
        }
        assert(terms_model(self.used_terms@).take(self.used_terms.len() as int) =~= terms_model(self.used_terms@));
        QuantifierUsage { used_terms, fresh_terms_used: self.fresh_terms_used }
    }
}

/// Search state that is threaded through a single proof branch: the usage of
/// every quantified occurrence instantiated on the branch, by occurrence key.
#[derive(Debug, PartialEq, Eq)]
pub struct BranchState {
    pub quantifier_usage: Vec<(String, QuantifierUsage)>,
}

/// Whether an entry of the table has the given key.
pub open spec fn has_key(es: Seq<(String, QuantifierUsage)>, i: int, key: Seq<char>) -> bool {
    0 <= i < es.len() && es[i].0@ == key
}

impl View for BranchState {
    type V = Map<Seq<char>, SUsage>;

    /// The usage recorded for each key.
    open spec fn view(&self) -> Map<Seq<char>, SUsage> {
        let es = self.quantifier_usage@;
        Map::new(
            |k: Seq<char>| exists|i: int| has_key(es, i, k),
            |k: Seq<char>| es[choose|i: int| has_key(es, i, k)].1@,
        )
    }
}

/// The usage recorded for `key`, or no usage at all.
pub open spec fn usage_of(state: Map<Seq<char>, SUsage>, key: Seq<char>) -> SUsage {
    if state.contains_key(key) {
        state[key]
    } else {
        no_usage()
    }
}

/// The usage of `key` after recording one more term.
pub open spec fn recorded(u: SUsage, t: STerm, fresh_fallback: bool) -> SUsage {
    SUsage { used: u.used.insert(t), fresh: if fresh_fallback { u.fresh + 1 } else { u.fresh } }
}

impl BranchState {
    /// Every key occurs in at most one entry.
    pub open spec fn wf(&self) -> bool {
        forall|i: int, j: int|
            has_key(self.quantifier_usage@, i, self.quantifier_usage@[j].0@) && 0 <= j < self.quantifier_usage@.len()
                ==> i == j
    }

    /// Creates empty branch state. Candidate terms are read from the current sequent.
    pub fn new() -> (r: Self)
        ensures
            r.wf(),
            r@ == Map::<Seq<char>, SUsage>::empty(),
    {
        let r = BranchState { quantifier_usage: Vec::new() };
        assert(r@ =~= Map::<Seq<char>, SUsage>::empty());
        r
    }

    /// The position of the entry for `key`, if any.
    fn find(&self, key: &String) -> (r: Option<usize>)
        ensures
            match r {
                Some(i) => has_key(self.quantifier_usage@, i as int, key@),
                None => forall|i: int| !has_key(self.quantifier_usage@, i, key@),
            },
    {
        let mut i: usize = 0;
        while i < self.quantifier_usage.len()
            invariant
                i <= self.quantifier_usage.len(),
                forall|j: int| 0 <= j < i ==> !has_key(self.quantifier_usage@, j, key@),
            decreases self.quantifier_usage.len() - i,
        {
            if self.quantifier_usage[i].0 == *key {
                return Some(i);
            }
            i += 1;
        }
        None
    }

    /// The usage recorded for `key`, or no usage when none was recorded.
    pub fn usage(&self, key: &String) -> (r: QuantifierUsage)
        requires
            self.wf(),
        ensures
            r@ == usage_of(self@, key@),
    {
        match self.find(key) {
            Some(i) => {
                proof {
                    let es = self.quantifier_usage@;
                    assert(self@.contains_key(key@));
                    let c = choose|j: int| has_key(es, j, key@);
                    assert(c == i);
                }
                self.quantifier_usage[i].1.copy()
            },
            None => {
                let r = QuantifierUsage { used_terms: Vec::new(), fresh_terms_used: 0 };
                assert(terms_model(r.used_terms@).to_set() =~= Set::<STerm>::empty());
                r
            },
        }
    }

    /// A copy of the state with the same usage table.
    pub fn duplicate(&self) -> (r: Self)
        requires
            self.wf(),
        ensures
            r.wf(),
            r@ == self@,
    {
        let mut es: Vec<(String, QuantifierUsage)> = Vec::new();
        let mut i: usize = 0;
        while i < self.quantifier_usage.len()
            invariant
                i <= self.quantifier_usage.len(),
                es.len() == i,
                forall|j: int|
                    0 <= j < i ==> (#[trigger] es@[j]).0@ == self.quantifier_usage@[j].0@ && es@[j].1@
                        == self.quantifier_usage@[j].1@,
            decreases self.quantifier_usage.len() - i,
        {
            let key = self.quantifier_usage[i].0.clone();
            let usage = self.quantifier_usage[i].1.copy();
            es.push((key, usage));
            i += 1;
        }
        let r = BranchState { quantifier_usage: es };
        proof {
            let a = self.quantifier_usage@;
            let b = r.quantifier_usage@;
            assert forall|i: int, j: int| has_key(b, i, b[j].0@) && 0 <= j < b.len() implies i == j by {
                assert(has_key(a, i, a[j].0@));
            }
            assert forall|k: Seq<char>| #[trigger] r@.contains_key(k) == self@.contains_key(k) by {
                if r@.contains_key(k) {
                    let i = choose|i: int| has_key(b, i, k);
                    assert(has_key(a, i, k));
                }
                if self@.contains_key(k) {
                    let i = choose|i: int| has_key(a, i, k);
                    assert(has_key(b, i, k));
                }
            }
            assert forall|k: Seq<char>| r@.contains_key(k) implies r@[k] == self@[k] by {
                let i = choose|i: int| has_key(b, i, k);
                let j = choose|j: int| has_key(a, j, k);
                assert(has_key(a, i, k));
            }
            assert(r@ =~= self@);
        }
        r
    }
}

impl Clone for BranchState {
    fn clone(&self) -> (r: Self) {
        let mut es: Vec<(String, QuantifierUsage)> = Vec::new();
        let mut i: usize = 0;
        while i < self.quantifier_usage.len()
            decreases self.quantifier_usage.len() - i,
        {
            es.push((self.quantifier_usage[i].0.clone(), self.quantifier_usage[i].1.copy()));
            i += 1;
        }
        BranchState { quantifier_usage: es }
    }
}

/// Records the use of a term for a specific quantified formula occurrence on
/// this branch: the term joins the used terms of the occurrence, and a fresh
/// fallback term counts toward the occurrence's fresh-term budget.
pub fn record_quantifier_term(state: &mut BranchState, key: &str, term: &Term, fresh_fallback: bool)
    requires
        old(state).wf(),
        fresh_fallback ==> usage_of(old(state)@, key@).fresh < usize::MAX,
    ensures
        final(state).wf(),
        final(state)@ == old(state)@.insert(key@, recorded(usage_of(old(state)@, key@), term@, fresh_fallback)),
{
    let key_owned = key.to_owned();
    let ghost before = state@;
    let ghost es0 = state.quantifier_usage@;
    let ghost new_usage = recorded(usage_of(before, key@), term@, fresh_fallback);
    match state.find(&key_owned) {
        Some(i) => {
            proof {
                let c = choose|j: int| has_key(es0, j, key@);
                assert(c == i);
            }
            let (k, mut usage) = state.quantifier_usage.remove(i);
            if fresh_fallback {
                usage.fresh_terms_used = usage.fresh_terms_used + 1;
            }
            if !usage.contains(term) {
                let ghost old_used = usage.used_terms@;
                usage.used_terms.push(term.clone());
                proof {
                    assert(terms_model(usage.used_terms@) == terms_model(old_used).push(term@)) by {
                        assert(terms_model(usage.used_terms@) =~= terms_model(old_used).push(term@));
                    }
                    Seq::<STerm>::lemma_to_set_insert_commutes(terms_model(old_used), term@);
                    assert(terms_model(old_used).push(term@) =~= terms_model(old_used) + seq![term@]);
                }
            } else {
                assert(usage@.used.insert(term@) =~= usage@.used);
            }
            assert(usage@ == new_usage);
            state.quantifier_usage.insert(i, (k, usage));
            proof {
                let es1 = state.quantifier_usage@;
                assert(es1 =~= es0.update(i as int, es1[i as int]));
                lemma_update_entry(es0, i as int, es1, key@);
                let after = state@;
                assert forall|k: Seq<char>| #[trigger] after.contains_key(k) == before.insert(key@, new_usage).contains_key(k) by {
                    if k != key@ && after.contains_key(k) {
                        let a = choose|a: int| has_key(es1, a, k);
                        assert(has_key(es0, a, k));
                    }
                    if k != key@ && before.contains_key(k) {
                        let a = choose|a: int| has_key(es0, a, k);
                        assert(has_key(es1, a, k));
                    }
                    if k == key@ {
                        assert(has_key(es1, i as int, k));
                    }
                }
                assert forall|k: Seq<char>| after.contains_key(k) implies after[k] == before.insert(key@, new_usage)[k] by {
                    let a = choose|a: int| has_key(es1, a, k);
                    if k != key@ {
                        assert(has_key(es0, a, k));
                        let b = choose|b: int| has_key(es0, b, k);
                        assert(es1[a] == es0[a]);
                    }
                }
                assert(after =~= before.insert(key@, new_usage));
            }
        },
        None => {
            let mut usage = QuantifierUsage { used_terms: Vec::new(), fresh_terms_used: 0 };
            if fresh_fallback {
                usage.fresh_terms_used = 1;
            }
            usage.used_terms.push(term.clone());
            proof {
                assert(terms_model(usage.used_terms@) =~= seq![term@]);
                assert(seq![term@].to_set() =~= Set::<STerm>::empty().insert(term@)) by {
                    assert(seq![term@][0] == term@);
                }
                assert(!before.contains_key(key@));
                assert(usage@ == new_usage);
            }
            state.quantifier_usage.push((key_owned, usage));
            proof {
                let es1 = state.quantifier_usage@;
                lemma_push_entry(es0, es1, key@);
                let after = state@;
                assert forall|k: Seq<char>| #[trigger] after.contains_key(k) == before.insert(key@, new_usage).contains_key(k) by {
                    if k != key@ && after.contains_key(k) {
                        let a = choose|a: int| has_key(es1, a, k);
                        assert(has_key(es0, a, k));
                    }
                    if k != key@ && before.contains_key(k) {
                        let a = choose|a: int| has_key(es0, a, k);
                        assert(has_key(es1, a, k));
                    }
                    if k == key@ {
                        assert(has_key(es1, es0.len() as int, k));
                    }
                }
                assert forall|k: Seq<char>| after.contains_key(k) implies after[k] == before.insert(key@, new_usage)[k] by {
                    let a = choose|a: int| has_key(es1, a, k);
                    if k != key@ {
                        assert(has_key(es0, a, k));
                        let b = choose|b: int| has_key(es0, b, k);
                        assert(es1[a] == es0[a]);
                    }
                }
                assert(after =~= before.insert(key@, new_usage));
            }
        },
    }
}

proof fn lemma_update_entry(es0: Seq<(String, QuantifierUsage)>, i: int, es1: Seq<(String, QuantifierUsage)>, key: Seq<char>)
    requires
        0 <= i < es0.len(),
        es1 == es0.update(i, es1[i]),
        es0[i].0@ == key,
        es1[i].0@ == key,
        forall|a: int, b: int| has_key(es0, a, es0[b].0@) && 0 <= b < es0.len() ==> a == b,
    ensures
        forall|a: int, b: int| has_key(es1, a, es1[b].0@) && 0 <= b < es1.len() ==> a == b,
        forall|a: int| #[trigger] has_key(es1, a, key) <==> a == i,
        forall|k: Seq<char>, a: int| k != key ==> (#[trigger] has_key(es1, a, k) <==> has_key(es0, a, k)),
        forall|a: int| 0 <= a < es1.len() && a != i ==> #[trigger] es1[a] == es0[a],
{
    assert forall|a: int, b: int| has_key(es1, a, es1[b].0@) && 0 <= b < es1.len() implies a == b by {
        if a != i && b != i {
            assert(has_key(es0, a, es0[b].0@));
        } else if a == i {
            assert(has_key(es0, b, es0[a].0@));
        } else {
            assert(has_key(es0, a, es0[b].0@));
        }
    }
}

proof fn lemma_push_entry(es0: Seq<(String, QuantifierUsage)>, es1: Seq<(String, QuantifierUsage)>, key: Seq<char>)
    requires
        es1 == es0.push(es1.last()),
        es1.len() > 0,
        es1.last().0@ == key,
        forall|a: int| !has_key(es0, a, key),
        forall|a: int, b: int| has_key(es0, a, es0[b].0@) && 0 <= b < es0.len() ==> a == b,
    ensures
        forall|a: int, b: int| has_key(es1, a, es1[b].0@) && 0 <= b < es1.len() ==> a == b,
        forall|a: int| #[trigger] has_key(es1, a, key) <==> a == es0.len(),
        forall|k: Seq<char>, a: int| k != key ==> (#[trigger] has_key(es1, a, k) <==> has_key(es0, a, k)),
        forall|a: int| 0 <= a < es0.len() ==> #[trigger] es1[a] == es0[a],
{
    let n = es0.len() as int;
    assert forall|a: int, b: int| has_key(es1, a, es1[b].0@) && 0 <= b < es1.len() implies a == b by {
        if a < n && b < n {
            assert(has_key(es0, a, es0[b].0@));
        } else if a < n {
            assert(has_key(es0, a, key));
        } else if b < n {
            assert(has_key(es0, b, key));
        }
    }
    assert forall|a: int| #[trigger] has_key(es1, a, key) <==> a == n by {
        if has_key(es1, a, key) && a < n {
            assert(has_key(es0, a, key));
        }
    }
}

} // verus!
