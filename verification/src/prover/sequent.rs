//! Sequents and their construction from parsed problems.

use vstd::prelude::*;

use crate::ast::formula::{formulas_clone, Formula};
use crate::ast::model::{formula_model, formulas_model, group_model, SFormula, SSequent};
use crate::ast::render::{show_formula, write_formula};
use crate::parser::{record_formulas, FormulaRecord, ParsedProblem};
use crate::text::push_str;

verus! {

broadcast use group_model;

/// A sequent `Gamma ⊢ Delta` with antecedents on the left and succedents on
/// the right.
#[derive(Debug, PartialEq, Eq)]
pub struct Sequent {
    pub left: Vec<Formula>,
    pub right: Vec<Formula>,
}

impl View for Sequent {
    type V = SSequent;

    open spec fn view(&self) -> SSequent {
        SSequent { left: formulas_model(self.left@), right: formulas_model(self.right@) }
    }
}

impl Clone for Sequent {
    fn clone(&self) -> (r: Self)
        ensures
            r@ == self@,
    {
        Sequent { left: formulas_clone(&self.left), right: formulas_clone(&self.right) }
    }
}

/// Errors that can occur while building an initial sequent from parsed input.
#[derive(Debug, Clone, Copy, PartialEq, Eq)]
pub enum SequentBuildError {
    /// The parsed problem did not contain a conjecture to place on the right.
    MissingConjecture,
}

/// `", "` joined renderings of the first `n` formulas.
pub open spec fn render_formula_list(fs: Seq<SFormula>, n: nat) -> Seq<char>
    decreases n,
{
    if n == 0 || n > fs.len() {
        Seq::empty()
    } else if n == 1 {
        show_formula(fs[0])
    } else {
        render_formula_list(fs, (n - 1) as nat) + seq![',', ' '] + show_formula(fs[n - 1])
    }
}

/// The rendering `Gamma ⊢ Delta` of a sequent; an empty side leaves no
/// space next to the turnstile.
pub open spec fn show_sequent(s: SSequent) -> Seq<char> {
    render_formula_list(s.left, s.left.len()) + (if s.left.len() > 0 { seq![' '] } else { Seq::empty() })
        + seq!['\u{22a2}'] + (if s.right.len() > 0 {
        seq![' '] + render_formula_list(s.right, s.right.len())
    } else {
        Seq::empty()
    })
}

fn write_formula_list(fs: &Vec<Formula>, out: &mut String)
    ensures
        final(out)@ == old(out)@ + render_formula_list(formulas_model(fs@), fs.len() as nat),
{
    let ghost start = out@;
    let ghost m = formulas_model(fs@);
    let mut i: usize = 0;
    while i < fs.len()
        invariant
            i <= fs.len(),
            m == formulas_model(fs@),
            out@ == start + render_formula_list(m, i as nat),
        decreases fs.len() - i,
    {
        if i > 0 {
            push_str(out, ", ");
            proof { reveal_strlit(", "); }
        }
        write_formula(&fs[i], None, false, out);
        proof {
            if i == 0 {
                assert(out@ =~= start + render_formula_list(m, 1));
            } else {
                assert(out@ =~= start + render_formula_list(m, (i + 1) as nat));
            }
        }
        i += 1;
    }
}

impl Sequent {
    /// Builds the initial proof sequent from parsed premises and conjecture.
    pub fn from_parsed_problem(parsed: ParsedProblem) -> (r: Result<Self, SequentBuildError>)
        ensures
            match r {
                Ok(s) => parsed.conjecture is Some
                    && s@.left == record_formulas(parsed.premises@)
                    && s@.right == seq![formula_model(parsed.conjecture->0.formula)],
                Err(e) => parsed.conjecture is None && e == SequentBuildError::MissingConjecture,
            },
    {
        let ParsedProblem { premises, conjecture, includes: _ } = parsed;
        let mut left: Vec<Formula> = Vec::new();
        let mut i: usize = 0;
        while i < premises.len()
            invariant
                i <= premises.len(),
                left.len() == i,
                forall|j: int| 0 <= j < i ==> formula_model(#[trigger] left@[j]) == formula_model(premises@[j].formula),
            decreases premises.len() - i,
        {
            left.push(premises[i].formula.duplicate());
            i += 1;
        }
        match conjecture {
            None => Err(SequentBuildError::MissingConjecture),
            Some(record) => {
                let right = vec![record.formula];
                let s = Sequent { left, right };
                assert(s@.left =~= record_formulas(premises@));
                assert(s@.right =~= seq![formula_model(record.formula)]);
                Ok(s)
            },
        }
    }

    /// The rendering `Gamma ⊢ Delta` of the sequent.
    pub fn to_string(&self) -> (r: String)
        ensures
            r@ == show_sequent(self@),
    {
        let mut s = String::new();
        write_formula_list(&self.left, &mut s);
        if self.left.len() > 0 {
            s.push(' ');
        }
        s.push('\u{22a2}');
        if self.right.len() > 0 {
            s.push(' ');
            write_formula_list(&self.right, &mut s);
        }
        proof {
            assert(s@ =~= show_sequent(self@));
        }
        s
    }
}

} // verus!
