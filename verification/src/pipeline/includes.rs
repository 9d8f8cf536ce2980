//! Problems on disk: loading a problem file together with the files it
//! includes, recursively.
//!
//! Includes are resolved against the include root: the parent of the nearest
//! enclosing `Problems` or `Axioms` directory, else the problem's own
//! directory. Each file is loaded once; an include cycle is an error, and so
//! is a conjecture in an included file. Premises come in file order, each
//! file's own premises before those of the files it includes.

use vstd::prelude::*;

use crate::cli::subset::{join, join_path, name_start};
use crate::parser::{
    error_message, includes_model, parse_problem, problem_of, records_model, IncludeDirective, ParseError,
    ParseErrorKind, ParsedProblem, SProblem, SRecord,
};
use crate::pipeline::{gated_result, run_sequent, BiconditionalPolicy, ProblemPipelineError, RunProblemOptions};
use crate::prover::search::engine::{engine_outcome, result_of};
use crate::prover::search::engine::default_options;
use crate::prover::calculus::provable;
use crate::prover::search::engine::{ProofResult, ProofStatus, UnknownReason};
use crate::ast::model::SSequent;
use crate::pipeline::exceeds;
use crate::prover::sequent::{Sequent, SequentBuildError};
use crate::text::{chars_of, push_str, strings_contain, text_of};

verus! {

/// Access to problem files.
pub trait ProblemFiles {
    /// The canonical form of `path`, or why it could not be resolved.
    fn canonicalize(&self, path: &str) -> Result<String, String>;

    /// The text of the file at `path`, or why it could not be read.
    fn read_text(&self, path: &str) -> Result<String, String>;
}

/// The parent of the path `p[..e]`: `None` for the empty path and for `/`.
pub open spec fn parent_of(p: Seq<char>, e: nat) -> Option<Seq<char>> {
    let s = name_start(p, e);
    if e == 0 || e > p.len() || (s == 1 && e == 1) {
        None
    } else if s == 0 {
        Some(Seq::empty())
    } else if s == 1 {
        Some(seq!['/'])
    } else {
        Some(p.take(s - 1))
    }
}

/// Whether a directory name marks the TPTP tree.
pub open spec fn is_tptp_dir(name: Seq<char>) -> bool {
    name == "Problems"@ || name == "Axioms"@
}

/// Looking for the nearest enclosing `Problems` or `Axioms` directory of
/// `p[..e]` and its ancestors: `Some(parent)` of the first one found
/// (`Some(None)` when it has no parent), `None` when there is none.
pub open spec fn marked_root(p: Seq<char>, e: nat) -> Option<Option<Seq<char>>>
    decreases e,
{
    if e == 0 || e > p.len() {
        None
    } else {
        let s = name_start(p, e);
        if is_tptp_dir(p.subrange(s as int, e as int)) {
            Some(parent_of(p, e))
        } else if s == 0 {
            None
        } else {
            proof {
                lemma_name_start_le(p, e);
            }
            marked_root(p, (s - 1) as nat)
        }
    }
}

/// The include root of a problem path, or `None` when it has none.
pub open spec fn include_root(p: Seq<char>) -> Option<Seq<char>> {
    match marked_root(p, p.len()) {
        Some(found) => found,
        None => parent_of(p, p.len()),
    }
}

/// A name starts at or before its end, just after a `/` unless at 0.
pub proof fn lemma_name_start_le(p: Seq<char>, n: nat)
    ensures
        name_start(p, n) <= n,
        n > 0 && n <= p.len() ==> name_start(p, n) == 0 || p[name_start(p, n) - 1] == '/',
    decreases n,
{
    if n > 0 && n <= p.len() && p[n - 1] != '/' {
        lemma_name_start_le(p, (n - 1) as nat);
    }
}

/// The position after the last `/` before `n`, or 0.
fn component_start(cs: &Vec<char>, n: usize) -> (r: usize)
    requires
        n <= cs.len(),
    ensures
        r == name_start(cs@, n as nat),
        r <= n,
{
    let mut k = n;
    while k > 0 && cs[k - 1] != '/'
        invariant
            k <= n <= cs.len(),
            name_start(cs@, n as nat) == name_start(cs@, k as nat),
        decreases k,
    {
        k -= 1;
    }
    k
}

/// The parent of `cs[..e]`.
fn parent_text(cs: &Vec<char>, e: usize) -> (r: Option<String>)
    requires
        e <= cs.len(),
    ensures
        match r {
            Some(t) => parent_of(cs@, e as nat) == Some(t@),
            None => parent_of(cs@, e as nat) is None,
        },
{
    let s = component_start(cs, e);
    if e == 0 || (s == 1 && e == 1) {
        None
    } else if s == 0 {
        Some(String::new())
    } else if s == 1 {
        let mut t = String::new();
        t.push('/');
        Some(t)
    } else {
        assert(cs@.take(s - 1) =~= cs@.subrange(0, s - 1));
        Some(text_of(cs, 0, s - 1))
    }
}

fn is_tptp_dir_name(cs: &Vec<char>, s: usize, e: usize) -> (r: bool)
    requires
        s <= e <= cs.len(),
    ensures
        r == is_tptp_dir(cs@.subrange(s as int, e as int)),
{
    proof {
        reveal_strlit("Problems");
        reveal_strlit("Axioms");
    }
    let name = text_of(cs, s, e);
    name == "Problems".to_owned() || name == "Axioms".to_owned()
}

/// The message for a path without an include root.
pub open spec fn no_root_message(path: Seq<char>) -> Seq<char> {
    "failed to determine include root for "@ + path
}

fn include_error_at(head: &str, path: &str) -> (r: ProblemPipelineError)
    ensures
        r matches ProblemPipelineError::Include(m) && m@ == head@ + path@,
{
    let mut m = String::new();
    push_str(&mut m, head);
    push_str(&mut m, path);
    ProblemPipelineError::Include(m)
}

fn include_error(head: &str, path: &str, tail: &str) -> (r: ProblemPipelineError)
    ensures
        r matches ProblemPipelineError::Include(m) && m@ == head@ + path@ + tail@,
{
    let mut m = String::new();
    push_str(&mut m, head);
    push_str(&mut m, path);
    push_str(&mut m, tail);
    ProblemPipelineError::Include(m)
}

/// The include root of a problem path: the parent of the nearest enclosing
/// `Problems` or `Axioms` directory, else the problem's directory.
pub fn infer_include_root(problem_path: &str) -> (r: Result<String, ProblemPipelineError>)
    ensures
        match include_root(problem_path@) {
            Some(root) => r matches Ok(t) && t@ == root,
            None => r matches Err(ProblemPipelineError::Include(m)) && m@ == no_root_message(problem_path@),
        },
{
    let cs = chars_of(problem_path);
    proof {
        reveal_strlit("failed to determine include root for ");
    }
    let mut e = cs.len();
    loop
        invariant
            e <= cs.len(),
            cs@ == problem_path@,
            marked_root(cs@, cs.len() as nat) == marked_root(cs@, e as nat),
        ensures
            marked_root(cs@, cs.len() as nat) is None,
        decreases e,
    {
        if e == 0 {
            break;
        }
        let s = component_start(&cs, e);
        if is_tptp_dir_name(&cs, s, e) {
            return match parent_text(&cs, e) {
                Some(root) => Ok(root),
                None => Err(include_error_at("failed to determine include root for ", problem_path)),
            };
        }
        if s == 0 {
            break;
        }
        e = s - 1;
    }
    match parent_text(&cs, cs.len()) {
        Some(root) => Ok(root),
        None => Err(include_error_at("failed to determine include root for ", problem_path)),
    }
}

/// One visit of loading: the path asked for, the canonical path the file
/// system gave for it, and, when the file was read, its text and the
/// problem that text holds. A file that was loaded already is not read
/// again; its visit adds the empty problem.
pub struct Visit {
    /// The problem's own path, or the include root joined with an include
    /// directive's path.
    pub requested: Seq<char>,
    /// The canonical path the file system gave for `requested`.
    pub path: Seq<char>,
    /// Whether the file was read on this visit.
    pub read: bool,
    /// The text read.
    pub text: Seq<char>,
    /// The problem in the text read; the empty problem when nothing was read.
    pub own: SProblem,
}

/// The paths of the files read, in the order they were read.
pub open spec fn read_paths(vs: Seq<Visit>) -> Seq<Seq<char>>
    decreases vs.len(),
{
    if vs.len() == 0 {
        Seq::empty()
    } else {
        read_paths(vs.drop_last()) + if vs.last().read {
            seq![vs.last().path]
        } else {
            Seq::empty()
        }
    }
}

/// The own premises of the files visited, visit after visit.
pub open spec fn read_premises(vs: Seq<Visit>) -> Seq<SRecord>
    decreases vs.len(),
{
    if vs.len() == 0 {
        Seq::empty()
    } else {
        read_premises(vs.drop_last()) + vs.last().own.premises
    }
}

/// Each file read holds the problem recorded for it; a file not read had
/// been loaded already (it is `known`, or was read on an earlier visit) and
/// adds the empty problem; no visit but the first has a conjecture.
pub open spec fn visits_sound(vs: Seq<Visit>, known: Seq<Seq<char>>) -> bool {
    &&& forall|i: int|
        0 <= i < vs.len() && (#[trigger] vs[i]).read ==> problem_of(vs[i].text) == Ok::<
            SProblem,
            (nat, ParseErrorKind),
        >(vs[i].own)
    &&& forall|i: int|
        0 <= i < vs.len() && !(#[trigger] vs[i]).read ==> vs[i].own == empty_problem() && (known.contains(vs[i].path)
            || read_paths(vs.take(i)).contains(vs[i].path))
    &&& forall|i: int| 1 <= i < vs.len() ==> (#[trigger] vs[i]).own.conjecture is None
}

/// The `k`-th include directive of the file read on visit `i`.
pub open spec fn directive(vs: Seq<Visit>, i: int, k: int) -> Seq<char> {
    vs[i].own.includes[k]
}

/// Visit `j` asks for the `k`-th include of the file read on visit `i`.
pub open spec fn asks_for(vs: Seq<Visit>, root: Seq<char>, i: int, k: int, j: int) -> bool {
    &&& 0 <= i < vs.len()
    &&& vs[i].read
    &&& 0 <= k < vs[i].own.includes.len()
    &&& 0 <= j < vs.len()
    &&& vs[j].requested == join(root, directive(vs, i, k))
}

/// Visit `j` asks for an include of a file read on an earlier visit.
pub open spec fn asked_before(vs: Seq<Visit>, root: Seq<char>, j: int) -> bool {
    exists|i: int, k: int| i < j && #[trigger] asks_for(vs, root, i, k, j)
}

/// Each visit after the first asks for an include of a file read on an
/// earlier visit.
pub open spec fn driven(vs: Seq<Visit>, root: Seq<char>) -> bool {
    forall|j: int| 1 <= j < vs.len() ==> #[trigger] asked_before(vs, root, j)
}

/// The `k`-th include of the file read on visit `i` is asked for on a later
/// visit.
pub open spec fn include_visited(vs: Seq<Visit>, root: Seq<char>, i: int, k: int) -> bool {
    exists|j: int| #![trigger vs[j]] i < j < vs.len() && vs[j].requested == join(root, directive(vs, i, k))
}

/// The include directives drive the visits: each visit after the first asks
/// for an include of a file read on an earlier visit, and each include of
/// each file read is asked for on a later visit.
pub open spec fn includes_followed(vs: Seq<Visit>, root: Seq<char>) -> bool {
    &&& driven(vs, root)
    &&& forall|i: int, k: int|
        0 <= i < vs.len() && vs[i].read && 0 <= k < vs[i].own.includes.len() ==> #[trigger] include_visited(
            vs,
            root,
            i,
            k,
        )
}

/// The visits of a successful load of the problem at `path`: the first asks
/// for `path` and reads it; the include directives of the files read drive
/// the other visits, resolved against the include root of the first file's
/// canonical path; each file is read once and holds the problem recorded
/// for it; no file but the first has a conjecture.
pub open spec fn loaded_by(vs: Seq<Visit>, path: Seq<char>) -> bool {
    &&& vs.len() > 0
    &&& vs[0].requested == path
    &&& vs[0].read
    &&& visits_sound(vs, Seq::empty())
    &&& read_paths(vs).no_duplicates()
    &&& include_root(vs[0].path) matches Some(root) && includes_followed(vs, root)
}

/// The problem loading gives from its visits: the conjecture of the first
/// file, the own premises of all files read in the order read, and no
/// include left.
pub open spec fn merged_from(vs: Seq<Visit>) -> SProblem {
    SProblem {
        premises: read_premises(vs),
        conjecture: if vs.len() > 0 {
            vs[0].own.conjecture
        } else {
            None
        },
        includes: Seq::empty(),
    }
}

/// The sequent of a merged problem: its premises on the left and its
/// conjecture on the right.
pub open spec fn merged_sequent(merged: SProblem, s: SSequent) -> bool {
    &&& merged.conjecture matches Some(c) && s.right == seq![c.formula]
    &&& s.left == Seq::new(merged.premises.len(), |i: int| merged.premises[i].formula)
}

/// The sequent of a merged problem that has a conjecture.
pub open spec fn sequent_of(merged: SProblem) -> SSequent {
    SSequent {
        left: Seq::new(merged.premises.len(), |i: int| merged.premises[i].formula),
        right: match merged.conjecture {
            Some(c) => seq![c.formula],
            None => Seq::empty(),
        },
    }
}

/// The answer of a run over the visits `rs` of a load, for a top-level text
/// under the cap: an answer about the sequent of the merged problem, which
/// has a conjecture: `Provable` only when that sequent is derivable, and the
/// search's own answer unless it timed out or was cancelled.
pub open spec fn run_answer(rs: Seq<Visit>, options: RunProblemOptions, res: ProofResult) -> bool {
    let s = sequent_of(merged_from(rs));
    &&& merged_from(rs).conjecture is Some
    &&& res.status == ProofStatus::Provable ==> provable(s)
    &&& res.status != ProofStatus::Timeout && res.status != ProofStatus::Cancelled ==> res == result_of(
        engine_outcome(s, options.proof),
    )
}

/// `m` says that asking about `p` failed with the file system's message
/// `x`, or (with `x` empty) that `p` has no include root, nests too deeply,
/// or is an included file with a conjecture.
pub open spec fn failure_message(m: Seq<char>, p: Seq<char>, x: Seq<char>) -> bool {
    ||| m == "failed to resolve "@ + p + ": "@ + x
    ||| m == "failed to read "@ + p + ": "@ + x
    ||| x.len() == 0 && m == no_root_message(p)
    ||| x.len() == 0 && m == "includes nest too deeply at "@ + p
    ||| x.len() == 0 && m == included_conjecture_message(p)
}

/// The message for an include directive `d` that the file system could not
/// resolve, with its message `x`.
pub open spec fn resolve_include_message(d: Seq<char>, x: Seq<char>) -> Seq<char> {
    "failed to resolve include "@ + d + ": "@ + x
}

/// The message for an include cycle closed at `p`.
pub open spec fn cycle_message(p: Seq<char>) -> Seq<char> {
    "include cycle detected at "@ + p
}

/// `m` is the parser's message for a text that does not parse.
pub open spec fn parse_failure(m: Seq<char>, t: Seq<char>) -> bool {
    problem_of(t) matches Err((offset, kind)) && m == error_message(ParseError { offset: offset as usize, kind })
}

/// The errors loading can end with, after the visits `vs`: a file system
/// failure or one of the include errors; an include directive of a file read
/// that could not be resolved, named by the directive's path; a cycle closed
/// at a file loaded before (`known`) or read on one of the visits; or the
/// parse error of a text.
pub open spec fn load_error(vs: Seq<Visit>, known: Seq<Seq<char>>, e: ProblemPipelineError) -> bool {
    match e {
        ProblemPipelineError::Include(m) => {
            ||| exists|p: Seq<char>, x: Seq<char>| #[trigger] failure_message(m@, p, x)
            ||| exists|i: int, k: int, x: Seq<char>|
                0 <= i < vs.len() && vs[i].read && 0 <= k < vs[i].own.includes.len() && m@
                    == #[trigger] resolve_include_message(directive(vs, i, k), x)
            ||| exists|p: Seq<char>|
                (known.contains(p) || read_paths(vs).contains(p)) && m@ == #[trigger] cycle_message(p)
        },
        ProblemPipelineError::Parse(m) => exists|t: Seq<char>| #[trigger] parse_failure(m@, t),
        ProblemPipelineError::SequentBuild(_) => false,
    }
}

/// The error for a loaded top-level problem without a conjecture.
pub open spec fn missing_conjecture(e: ProblemPipelineError) -> bool {
    e == ProblemPipelineError::SequentBuild(SequentBuildError::MissingConjecture)
}

/// The view of some strings.
pub open spec fn strings_view(v: Seq<String>) -> Seq<Seq<char>> {
    Seq::new(v.len(), |i: int| v[i]@)
}

/// `x` is in a concatenation exactly when it is in one of its parts.
proof fn lemma_contains_concat<A>(a: Seq<A>, b: Seq<A>, x: A)
    ensures
        (a + b).contains(x) <==> (a.contains(x) || b.contains(x)),
{
    if (a + b).contains(x) {
        let i = choose|i: int| 0 <= i < (a + b).len() && (a + b)[i] == x;
        if i >= a.len() {
            assert(b[i - a.len()] == x);
        }
    }
    if a.contains(x) {
        let i = choose|i: int| 0 <= i < a.len() && a[i] == x;
        assert((a + b)[i] == x);
    }
    if b.contains(x) {
        let i = choose|i: int| 0 <= i < b.len() && b[i] == x;
        assert((a + b)[a.len() + i] == x);
    }
}

/// The paths read on visits one after another are those of the first
/// visits followed by those of the others.
proof fn lemma_read_paths_concat(a: Seq<Visit>, b: Seq<Visit>)
    ensures
        read_paths(a + b) == read_paths(a) + read_paths(b),
    decreases b.len(),
{
    if b.len() == 0 {
        assert(a + b =~= a);
        assert(read_paths(a) + read_paths(b) =~= read_paths(a));
    } else {
        assert((a + b).drop_last() =~= a + b.drop_last());
        assert((a + b).last() == b.last());
        lemma_read_paths_concat(a, b.drop_last());
        assert(read_paths(a + b) =~= read_paths(a) + read_paths(b));
    }
}

/// Appending the visits of an include of the first file keeps every visit
/// driven by the include directives.
proof fn lemma_driven_extend(acc: Seq<Visit>, child: Seq<Visit>, root: Seq<char>, k: int)
    requires
        acc.len() > 0,
        acc[0].read,
        0 <= k < acc[0].own.includes.len(),
        driven(acc, root),
        driven(child, root),
        child.len() > 0,
        child[0].requested == join(root, directive(acc, 0, k)),
    ensures
        driven(acc + child, root),
{
    let v = acc + child;
    let n = acc.len() as int;
    assert forall|j: int| 1 <= j < v.len() implies #[trigger] asked_before(v, root, j) by {
        if j < n {
            assert(acc[j] == v[j]);
            assert(asked_before(acc, root, j));
            let (i, k2) = choose|i: int, k2: int| i < j && #[trigger] asks_for(acc, root, i, k2, j);
            assert(v[i] == acc[i]);
            assert(asks_for(v, root, i, k2, j));
        } else if j == n {
            assert(v[0] == acc[0]);
            assert(v[n] == child[0]);
            assert(asks_for(v, root, 0, k, j));
        } else {
            assert(child[j - n] == v[j]);
            assert(asked_before(child, root, j - n));
            let (i, k2) = choose|i: int, k2: int| i < j - n && #[trigger] asks_for(child, root, i, k2, j - n);
            assert(v[n + i] == child[i]);
            assert(asks_for(v, root, n + i, k2, j));
        }
    }
}

/// Every include of the files read, but those of the first file from the
/// `done`-th on, is asked for on a later visit.
pub open spec fn followed_so_far(vs: Seq<Visit>, root: Seq<char>, done: int) -> bool {
    &&& driven(vs, root)
    &&& forall|i: int, k: int|
        1 <= i < vs.len() && vs[i].read && 0 <= k < vs[i].own.includes.len() ==> #[trigger] include_visited(
            vs,
            root,
            i,
            k,
        )
    &&& forall|k: int| 0 <= k < done ==> #[trigger] include_visited(vs, root, 0, k)
}

/// Appending the visits of the `k`-th include of the first file extends
/// what is followed by that include.
#[verifier::rlimit(40)]
proof fn lemma_followed_extend(acc: Seq<Visit>, child: Seq<Visit>, root: Seq<char>, k: int)
    requires
        acc.len() > 0,
        acc[0].read,
        0 <= k < acc[0].own.includes.len(),
        followed_so_far(acc, root, k),
        includes_followed(child, root),
        child.len() > 0,
        child[0].requested == join(root, directive(acc, 0, k)),
    ensures
        followed_so_far(acc + child, root, k + 1),
{
    let v = acc + child;
    let n = acc.len() as int;
    lemma_driven_extend(acc, child, root, k);
    assert forall|i: int, k2: int|
        1 <= i < v.len() && v[i].read && 0 <= k2 < v[i].own.includes.len() implies #[trigger] include_visited(
        v,
        root,
        i,
        k2,
    ) by {
        if i < n {
            assert(v[i] == acc[i]);
            assert(include_visited(acc, root, i, k2));
            let j = choose|j: int| #![trigger acc[j]] i < j < acc.len() && acc[j].requested == join(root, directive(acc, i, k2));
            assert(v[j] == acc[j]);
        } else {
            let i2 = i - n;
            assert(v[i] == child[i2]);
            assert(include_visited(child, root, i2, k2));
            let j = choose|j: int| #![trigger child[j]] i2 < j < child.len() && child[j].requested == join(root, directive(child, i2, k2));
            assert(v[n + j] == child[j]);
        }
    }
    assert forall|k2: int| 0 <= k2 < k + 1 implies #[trigger] include_visited(v, root, 0, k2) by {
        assert(v[0] == acc[0]);
        if k2 < k {
            assert(include_visited(acc, root, 0, k2));
            let j = choose|j: int| #![trigger acc[j]] 0 < j < acc.len() && acc[j].requested == join(root, directive(acc, 0, k2));
            assert(v[j] == acc[j]);
        } else {
            assert(v[n] == child[0]);
        }
    }
}

/// Appending the visits of an include keeps the visits sound.
proof fn lemma_sound_extend(acc: Seq<Visit>, child: Seq<Visit>, known: Seq<Seq<char>>)
    requires
        visits_sound(acc, known),
        visits_sound(child, known + read_paths(acc)),
        forall|i: int| 0 <= i < child.len() ==> (#[trigger] child[i]).own.conjecture is None,
    ensures
        visits_sound(acc + child, known),
{
    let v = acc + child;
    let n = acc.len() as int;
    assert forall|i: int| 0 <= i < v.len() && (#[trigger] v[i]).read implies problem_of(v[i].text) == Ok::<
        SProblem,
        (nat, ParseErrorKind),
    >(v[i].own) by {
        if i >= n {
            assert(v[i] == child[i - n]);
        } else {
            assert(v[i] == acc[i]);
        }
    }
    assert forall|i: int| 0 <= i < v.len() && !(#[trigger] v[i]).read implies v[i].own == empty_problem() && (
    known.contains(v[i].path) || read_paths(v.take(i)).contains(v[i].path)) by {
        if i >= n {
            let i2 = i - n;
            assert(v[i] == child[i2]);
            let p = child[i2].path;
            assert(v.take(i) =~= acc + child.take(i2));
            lemma_read_paths_concat(acc, child.take(i2));
            lemma_contains_concat(known, read_paths(acc), p);
            lemma_contains_concat(read_paths(acc), read_paths(child.take(i2)), p);
        } else {
            assert(v[i] == acc[i]);
            assert(v.take(i) =~= acc.take(i));
        }
    }
    assert forall|i: int| 1 <= i < v.len() implies (#[trigger] v[i]).own.conjecture is None by {
        if i >= n {
            assert(v[i] == child[i - n]);
        } else {
            assert(v[i] == acc[i]);
        }
    }
}

/// An error after the visits of an include is an error after all visits.
proof fn lemma_error_extend(acc: Seq<Visit>, child: Seq<Visit>, known: Seq<Seq<char>>, e: ProblemPipelineError)
    requires
        load_error(child, known + read_paths(acc), e),
    ensures
        load_error(acc + child, known, e),
{
    let v = acc + child;
    let n = acc.len() as int;
    if let ProblemPipelineError::Include(m) = e {
        if exists|i: int, k: int, x: Seq<char>|
            0 <= i < child.len() && child[i].read && 0 <= k < child[i].own.includes.len() && m@
                == #[trigger] resolve_include_message(directive(child, i, k), x) {
            let (i, k, x) = choose|i: int, k: int, x: Seq<char>|
                0 <= i < child.len() && child[i].read && 0 <= k < child[i].own.includes.len() && m@
                    == #[trigger] resolve_include_message(directive(child, i, k), x);
            assert(v[n + i] == child[i]);
            assert(directive(v, n + i, k) == directive(child, i, k));
            assert(m@ == resolve_include_message(directive(v, n + i, k), x));
        }
        if exists|p: Seq<char>|
            ((known + read_paths(acc)).contains(p) || read_paths(child).contains(p)) && m@ == #[trigger] cycle_message(p) {
            let p = choose|p: Seq<char>|
                ((known + read_paths(acc)).contains(p) || read_paths(child).contains(p)) && m@ == #[trigger] cycle_message(p);
            lemma_read_paths_concat(acc, child);
            lemma_contains_concat(known, read_paths(acc), p);
            lemma_contains_concat(read_paths(acc), read_paths(child), p);
            assert(m@ == cycle_message(p));
        }
    }
}

/// The premises of files read one after another are those of the first
/// files followed by those of the others.
proof fn lemma_read_premises_concat(a: Seq<Visit>, b: Seq<Visit>)
    ensures
        read_premises(a + b) == read_premises(a) + read_premises(b),
    decreases b.len(),
{
    if b.len() == 0 {
        assert(a + b =~= a);
        assert(read_premises(a) + read_premises(b) =~= read_premises(a));
    } else {
        assert((a + b).drop_last() =~= a + b.drop_last());
        assert((a + b).last() == b.last());
        lemma_read_premises_concat(a, b.drop_last());
        assert(read_premises(a + b) =~= read_premises(a) + read_premises(b));
    }
}

/// The outcome of asking the file system about `path`: the answer, or the
/// include error `head`, `path`, `: ` and the file system's message.
pub fn checked_file_result(head: &str, path: &str, result: Result<String, String>) -> (r: Result<
    String,
    ProblemPipelineError,
>)
    ensures
        match result {
            Ok(c) => r matches Ok(c2) && c2@ == c@,
            Err(e) => r matches Err(ProblemPipelineError::Include(m)) && m@ == head@ + path@ + ": "@ + e@,
        },
{
    match result {
        Ok(c) => Ok(c),
        Err(err) => Err(include_error(head, path, &colon_then(&err))),
    }
}

/// The message for an included file that has a conjecture.
pub open spec fn included_conjecture_message(path: Seq<char>) -> Seq<char> {
    "included file "@ + path + " contains a conjecture"@
}

/// The problem in the text of one file: a parse error as the parser reports
/// it, and, for an included file, an include error when it has a
/// conjecture.
pub fn parse_file(path: &str, text: &str, included: bool) -> (r: Result<ParsedProblem, ProblemPipelineError>)
    ensures
        match problem_of(text@) {
            Err((offset, kind)) => r matches Err(ProblemPipelineError::Parse(m)) && m@ == error_message(
                ParseError { offset: offset as usize, kind },
            ),
            Ok(p) => if included && p.conjecture is Some {
                r matches Err(ProblemPipelineError::Include(m)) && m@ == included_conjecture_message(path@)
            } else {
                r matches Ok(q) && q@ == p
            },
        },
{
    match parse_problem(text) {
        Ok(p) => {
            if included && p.conjecture.is_some() {
                proof {
                    reveal_strlit("included file ");
                    reveal_strlit(" contains a conjecture");
                }
                Err(include_error("included file ", path, " contains a conjecture"))
            } else {
                Ok(p)
            }
        },
        Err(err) => Err(ProblemPipelineError::Parse(err.to_string())),
    }
}

/// The problem with nothing in it: what a file that was loaded already
/// adds.
pub open spec fn empty_problem() -> SProblem {
    SProblem { premises: Seq::empty(), conjecture: None, includes: Seq::empty() }
}

/// Whether one of the strings has the characters `t`.
pub open spec fn holds_text(v: Seq<String>, t: Seq<char>) -> bool {
    exists|i: int| 0 <= i < v.len() && (#[trigger] v[i])@ == t
}

/// A problem file's text and its problem with all includes merged in.
pub struct LoadedProblem {
    pub input: String,
    pub parsed: ParsedProblem,
}

/// How deep includes may nest before loading gives up: as deep as a `usize`
/// counts, so in practice without limit.
pub const MAX_INCLUDE_NESTING: usize = usize::MAX;

/// The visits of the `k`-th include of the first file, appended after a
/// successful load of it.
proof fn lemma_include_step(
    acc: Seq<Visit>,
    child: Seq<Visit>,
    known: Seq<Seq<char>>,
    root: Seq<char>,
    k: int,
    all_open: bool,
)
    requires
        acc.len() > 0,
        acc[0].read,
        0 <= k < acc[0].own.includes.len(),
        visits_sound(acc, known),
        followed_so_far(acc, root, k),
        child.len() > 0,
        child[0].requested == join(root, directive(acc, 0, k)),
        visits_sound(child, known + read_paths(acc)),
        includes_followed(child, root),
        forall|i: int| 0 <= i < child.len() ==> (#[trigger] child[i]).own.conjecture is None,
        all_open ==> forall|i: int| 0 <= i < acc.len() ==> (#[trigger] acc[i]).own.conjecture is None,
    ensures
        visits_sound(acc + child, known),
        followed_so_far(acc + child, root, k + 1),
        (acc + child)[0] == acc[0],
        read_paths(acc + child) == read_paths(acc) + read_paths(child),
        read_premises(acc + child) == read_premises(acc) + read_premises(child),
        all_open ==> forall|i: int| 0 <= i < (acc + child).len() ==> (#[trigger] (acc + child)[i]).own.conjecture is None,
{
    lemma_read_premises_concat(acc, child);
    lemma_read_paths_concat(acc, child);
    lemma_sound_extend(acc, child, known);
    lemma_followed_extend(acc, child, root, k);
    if all_open {
        assert forall|i: int| 0 <= i < (acc + child).len() implies (#[trigger] (acc + child)[i]).own.conjecture is None by {
            if i >= acc.len() {
                assert((acc + child)[i] == child[i - acc.len()]);
            } else {
                assert((acc + child)[i] == acc[i]);
            }
        }
    }
}

/// The visits of the `k`-th include of the first file, appended after a
/// failed load of it.
proof fn lemma_failed_step(
    acc: Seq<Visit>,
    child: Seq<Visit>,
    known: Seq<Seq<char>>,
    root: Seq<char>,
    k: int,
    all_open: bool,
    e: ProblemPipelineError,
)
    requires
        acc.len() > 0,
        acc[0].read,
        0 <= k < acc[0].own.includes.len(),
        visits_sound(acc, known),
        driven(acc, root),
        child.len() > 0 ==> child[0].requested == join(root, directive(acc, 0, k)),
        visits_sound(child, known + read_paths(acc)),
        driven(child, root),
        forall|i: int| 0 <= i < child.len() ==> (#[trigger] child[i]).own.conjecture is None,
        all_open ==> forall|i: int| 0 <= i < acc.len() ==> (#[trigger] acc[i]).own.conjecture is None,
        load_error(child, known + read_paths(acc), e),
    ensures
        visits_sound(acc + child, known),
        driven(acc + child, root),
        (acc + child).len() > 0,
        (acc + child)[0] == acc[0],
        load_error(acc + child, known, e),
        all_open ==> forall|i: int| 0 <= i < (acc + child).len() ==> (#[trigger] (acc + child)[i]).own.conjecture is None,
{
    lemma_error_extend(acc, child, known, e);
    lemma_sound_extend(acc, child, known);
    if child.len() > 0 {
        lemma_driven_extend(acc, child, root, k);
    } else {
        assert(acc + child =~= acc);
    }
    if all_open {
        assert forall|i: int| 0 <= i < (acc + child).len() implies (#[trigger] (acc + child)[i]).own.conjecture is None by {
            if i >= acc.len() {
                assert((acc + child)[i] == child[i - acc.len()]);
            } else {
                assert((acc + child)[i] == acc[i]);
            }
        }
    }
}

/// Whether the visits of a failed load of the problem at `path` are those
/// made before it failed: the first asks for `path`, the include directives
/// of the files read drive the others, and each file read holds the problem
/// recorded for it.
pub open spec fn visited_before_failure(vs: Seq<Visit>, path: Seq<char>) -> bool {
    &&& vs.len() > 0 ==> vs[0].requested == path && vs[0].read && (include_root(vs[0].path) matches Some(root)
        && driven(vs, root))
    &&& visits_sound(vs, Seq::empty())
}

/// The top-level file of a problem, read but not parsed: its canonical
/// path, its include root and its text.
pub struct OpenedProblem {
    pub canonical: String,
    pub root: String,
    pub input: String,
}

/// A first visit of loading `path` that read the top-level file, before
/// anything was parsed: it asks for `path`, and the canonical path it read
/// has an include root.
pub open spec fn opened_visit(v: Visit, path: Seq<char>) -> bool {
    v.requested == path && v.read && include_root(v.path) is Some
}

/// Resolves a problem's path, finds its include root and reads its text.
pub fn open_problem<F: ProblemFiles>(files: &F, path: &str) -> (r: Result<OpenedProblem, ProblemPipelineError>)
    ensures
        r matches Ok(o) ==> include_root(o.canonical@) == Some(o.root@),
        r matches Err(e) ==> load_error(Seq::empty(), Seq::empty(), e),
{
    proof {
        reveal_strlit("failed to resolve ");
        reveal_strlit("failed to read ");
        reveal_strlit(": ");
    }
    let canonical = match checked_file_result("failed to resolve ", path, files.canonicalize(path)) {
        Ok(c) => c,
        Err(e) => {
            proof {
                let m = e->Include_0@;
                let x = choose|x: Seq<char>| m == "failed to resolve "@ + path@ + ": "@ + x;
                assert(failure_message(m, path@, x));
            }
            return Err(e);
        },
    };
    let root = match infer_include_root(canonical.as_str()) {
        Ok(root) => root,
        Err(e) => {
            proof {
                assert(failure_message(e->Include_0@, canonical@, Seq::empty()));
            }
            return Err(e);
        },
    };
    let input = match checked_file_result(
        "failed to read ",
        canonical.as_str(),
        files.read_text(canonical.as_str()),
    ) {
        Ok(t) => t,
        Err(e) => {
            proof {
                let m = e->Include_0@;
                let x = choose|x: Seq<char>| m == "failed to read "@ + canonical@ + ": "@ + x;
                assert(failure_message(m, canonical@, x));
            }
            return Err(e);
        },
    };
    Ok(OpenedProblem { canonical, root, input })
}

/// Loads an opened problem with its includes; `path` is the path it was
/// opened from. The ghost result is the visits made, in order.
fn load_opened_problem<F: ProblemFiles>(files: &F, path: Ghost<Seq<char>>, opened: OpenedProblem) -> (r: (
    Result<LoadedProblem, ProblemPipelineError>,
    Ghost<Seq<Visit>>,
))
    requires
        include_root(opened.canonical@) == Some(opened.root@),
    ensures
        r.0 matches Ok(loaded) ==> loaded_by(r.1@, path@) && loaded.input@ == r.1@[0].text && r.1@[0].text
            == opened.input@ && loaded.parsed@ == merged_from(r.1@),
        r.0 matches Err(e) ==> visited_before_failure(r.1@, path@) && load_error(r.1@, Seq::empty(), e),
{
    let OpenedProblem { canonical, root, input } = opened;
    let mut loaded: Vec<String> = Vec::new();
    let mut stack: Vec<String> = Vec::new();
    proof {
        assert(strings_view(loaded@) =~= Seq::<Seq<char>>::empty());
        assert(strings_view(stack@) =~= Seq::<Seq<char>>::empty());
    }
    let (res, Ghost(visits)) = load_problem_recursive(
        files,
        path,
        &canonical,
        &root,
        Some(&input),
        &mut loaded,
        &mut stack,
        MAX_INCLUDE_NESTING,
    );
    proof {
        assert(strings_view(Seq::<String>::empty()) =~= Seq::<Seq<char>>::empty());
        assert(Seq::<Seq<char>>::empty() + read_paths(visits) =~= read_paths(visits));
    }
    match res {
        Ok(parsed) => (Ok(LoadedProblem { input, parsed }), Ghost(visits)),
        Err(e) => (Err(e), Ghost(visits)),
    }
}

/// Loads a problem file with its includes; the ghost result is the visits
/// made, in order.
pub fn load_problem_from_path<F: ProblemFiles>(files: &F, path: &str) -> (r: (
    Result<LoadedProblem, ProblemPipelineError>,
    Ghost<Seq<Visit>>,
))
    ensures
        r.0 matches Ok(loaded) ==> loaded_by(r.1@, path@) && loaded.input@ == r.1@[0].text && loaded.parsed@
            == merged_from(r.1@),
        r.0 matches Err(e) ==> visited_before_failure(r.1@, path@) && load_error(r.1@, Seq::empty(), e),
{
    let opened = match open_problem(files, path) {
        Ok(o) => o,
        Err(e) => {
            proof {
                assert(visited_before_failure(Seq::empty(), path@));
            }
            return (Err(e), Ghost(Seq::empty()));
        },
    };
    load_opened_problem(files, Ghost(path@), opened)
}

/// `": "` followed by `err`.
fn colon_then(err: &String) -> (r: String)
    ensures
        r@ == ": "@ + err@,
{
    let mut t = String::new();
    push_str(&mut t, ": ");
    push_str(&mut t, err.as_str());
    t
}

/// Loads one file of a problem and, recursively, the files it includes.
/// `top_input` is the text of the top-level file, which was read already;
/// `requested` is the path that `canonical_path` was resolved from. The
/// ghost result is the visits made, in order.
#[verifier::rlimit(80)]
#[verifier::spinoff_prover]
fn load_problem_recursive<F: ProblemFiles>(
    files: &F,
    requested: Ghost<Seq<char>>,
    canonical_path: &String,
    include_root: &String,
    top_input: Option<&String>,
    loaded: &mut Vec<String>,
    stack: &mut Vec<String>,
    nesting_left: usize,
) -> (r: (Result<ParsedProblem, ProblemPipelineError>, Ghost<Seq<Visit>>))
    requires
        top_input is Some ==> old(loaded)@.len() == 0 && old(stack)@.len() == 0,
        strings_view(old(loaded)@).no_duplicates(),
        forall|p: Seq<char>| strings_view(old(stack)@).contains(p) ==> strings_view(old(loaded)@).contains(p),
    ensures
        holds_text(old(stack)@, canonical_path@) ==> (r.0 matches Err(ProblemPipelineError::Include(m)) && m@
            == cycle_message(canonical_path@)),
        !holds_text(old(stack)@, canonical_path@) && holds_text(old(loaded)@, canonical_path@) ==> (r.0 matches Ok(p)
            && p@ == empty_problem() && r.1@.len() == 1 && !r.1@[0].read),
        !holds_text(old(stack)@, canonical_path@) && !holds_text(old(loaded)@, canonical_path@) && nesting_left == 0
            ==> (r.0 matches Err(ProblemPipelineError::Include(m)) && m@ == "includes nest too deeply at "@
            + canonical_path@),
        nesting_left > 0 ==> (top_input matches Some(t) ==> (problem_of(t@) matches Err((offset, kind)) ==> (r.0 matches Err(
            ProblemPipelineError::Parse(m),
        ) && m@ == error_message(ParseError { offset: offset as usize, kind })))),
        strings_view(final(loaded)@).no_duplicates(),
        visits_sound(r.1@, strings_view(old(loaded)@)),
        driven(r.1@, include_root@),
        r.1@.len() > 0 ==> r.1@[0].requested == requested@ && r.1@[0].path == canonical_path@,
        top_input matches Some(t) ==> (r.1@.len() > 0 ==> r.1@[0].read && r.1@[0].text == t@),
        r.0 is Ok ==> r.1@.len() > 0 && includes_followed(r.1@, include_root@),
        r.0 is Ok ==> strings_view(final(loaded)@) == strings_view(old(loaded)@) + read_paths(r.1@),
        r.0 is Ok ==> strings_view(final(stack)@) == strings_view(old(stack)@),
        r.0 matches Ok(p) ==> p@ == merged_from(r.1@),
        r.0 is Ok && top_input is Some ==> r.1@[0].read,
        top_input is None ==> forall|i: int| 0 <= i < r.1@.len() ==> (#[trigger] r.1@[i]).own.conjecture is None,
        r.0 matches Err(e) ==> load_error(r.1@, strings_view(old(loaded)@), e),
    decreases nesting_left,
{
    proof {
        reveal_strlit("include cycle detected at ");
        reveal_strlit("includes nest too deeply at ");
        reveal_strlit("failed to resolve include ");
        reveal_strlit("failed to read ");
        reveal_strlit(": ");
    }
    let ghost known = strings_view(old(loaded)@);
    if strings_contain(stack, canonical_path) {
        let e = include_error_at("include cycle detected at ", canonical_path.as_str());
        proof {
            let i = choose|i: int| 0 <= i < old(stack)@.len() && (#[trigger] old(stack)@[i])@ == canonical_path@;
            assert(strings_view(old(stack)@)[i] == canonical_path@);
            assert(known.contains(canonical_path@));
            assert(read_paths(Seq::<Visit>::empty()) =~= Seq::<Seq<char>>::empty());
            assert(e->Include_0@ == cycle_message(canonical_path@));
        }
        return (Err(e), Ghost(Seq::empty()));
    }
    if strings_contain(loaded, canonical_path) {
        let empty = ParsedProblem { premises: Vec::new(), conjecture: None, includes: Vec::new() };
        let ghost visit = Visit {
            requested: requested@,
            path: canonical_path@,
            read: false,
            text: Seq::empty(),
            own: empty_problem(),
        };
        let ghost vs = seq![visit];
        proof {
            assert(records_model(empty.premises@) =~= Seq::<SRecord>::empty());
            assert(includes_model(empty.includes@) =~= Seq::<Seq<char>>::empty());
            assert(empty@ == empty_problem());
            assert(vs.drop_last() =~= Seq::<Visit>::empty());
            assert(vs.last() == visit);
            assert(read_premises(Seq::<Visit>::empty()) =~= Seq::<SRecord>::empty());
            assert(read_paths(Seq::<Visit>::empty()) =~= Seq::<Seq<char>>::empty());
            assert(read_premises(vs) =~= Seq::<SRecord>::empty());
            assert(empty@ == merged_from(vs));
            assert(read_paths(vs) =~= Seq::<Seq<char>>::empty());
            assert(strings_view(loaded@) + read_paths(vs) =~= strings_view(loaded@));
            let i = choose|i: int| 0 <= i < loaded@.len() && (#[trigger] loaded@[i])@ == canonical_path@;
            assert(known[i] == canonical_path@);
            assert(vs[0] == visit);
        }
        return (Ok(empty), Ghost(vs));
    }
    let ghost loaded0 = strings_view(loaded@);
    loaded.push(canonical_path.clone());
    proof {
        assert(strings_view(loaded@) =~= loaded0.push(canonical_path@));
        assert(!loaded0.contains(canonical_path@)) by {
            if loaded0.contains(canonical_path@) {
                let i = choose|i: int| 0 <= i < loaded0.len() && loaded0[i] == canonical_path@;
                assert(old(loaded)@[i]@ == canonical_path@);
            }
        }
        assert(strings_view(loaded@).no_duplicates());
    }
    if nesting_left == 0 {
        let e = include_error_at("includes nest too deeply at ", canonical_path.as_str());
        proof {
            assert(failure_message(e->Include_0@, canonical_path@, Seq::empty()));
        }
        return (Err(e), Ghost(Seq::empty()));
    }
    stack.push(canonical_path.clone());
    let is_top_level = top_input.is_some();
    let input = match top_input {
        Some(text) => text.clone(),
        None => match checked_file_result(
            "failed to read ",
            canonical_path.as_str(),
            files.read_text(canonical_path.as_str()),
        ) {
            Ok(t) => t,
            Err(e) => {
                proof {
                    let m = e->Include_0@;
                    let x = choose|x: Seq<char>| m == "failed to read "@ + canonical_path@ + ": "@ + x;
                    assert(failure_message(m, canonical_path@, x));
                }
                return (Err(e), Ghost(Seq::empty()));
            },
        },
    };
    let parsed = match parse_file(canonical_path.as_str(), input.as_str(), !is_top_level) {
        Ok(p) => p,
        Err(e) => {
            proof {
                match problem_of(input@) {
                    Err(_) => {
                        assert(parse_failure(e->Parse_0@, input@));
                    },
                    Ok(_) => {
                        assert(failure_message(e->Include_0@, canonical_path@, Seq::empty()));
                    },
                }
            }
            return (Err(e), Ghost(Seq::empty()));
        },
    };
    let ghost own = parsed@;
    let ghost first = Visit { requested: requested@, path: canonical_path@, read: true, text: input@, own };
    let ghost mut acc: Seq<Visit> = seq![first];
    proof {
        assert(acc.drop_last() =~= Seq::<Visit>::empty());
        assert(acc.last() == first);
        assert(read_premises(Seq::<Visit>::empty()) =~= Seq::<SRecord>::empty());
        assert(read_paths(Seq::<Visit>::empty()) =~= Seq::<Seq<char>>::empty());
        assert(read_premises(acc) =~= own.premises);
        assert(read_paths(acc) =~= seq![canonical_path@]);
        assert(strings_view(loaded@) == known + read_paths(acc));
        assert(acc.take(0) =~= Seq::<Visit>::empty());
        assert(visits_sound(acc, known));
        assert(driven(acc, include_root@));
        assert(followed_so_far(acc, include_root@, 0));
        assert(strings_view(stack@) =~= strings_view(old(stack)@).push(canonical_path@));
    }
    let ParsedProblem { premises, conjecture, includes } = parsed;
    let mut merged_premises = premises;
    let mut k: usize = 0;
    while k < includes.len()
        invariant
            nesting_left > 0,
            !holds_text(old(stack)@, canonical_path@),
            !holds_text(old(loaded)@, canonical_path@),
            top_input matches Some(t) ==> problem_of(t@) is Ok,
            k <= includes@.len(),
            own.includes == includes_model(includes@),
            known == strings_view(old(loaded)@),
            forall|p: Seq<char>| strings_view(old(stack)@).contains(p) ==> known.contains(p),
            acc.len() >= 1,
            acc[0] == first,
            first.read,
            first.requested == requested@,
            first.path == canonical_path@,
            first.text == input@,
            top_input matches Some(t) ==> input@ == t@,
            first.own == own,
            visits_sound(acc, known),
            followed_so_far(acc, include_root@, k as int),
            top_input is None ==> forall|i: int| 0 <= i < acc.len() ==> (#[trigger] acc[i]).own.conjecture is None,
            records_model(merged_premises@) == read_premises(acc),
            strings_view(loaded@).no_duplicates(),
            strings_view(loaded@) == known + read_paths(acc),
            read_paths(acc).len() > 0 && read_paths(acc)[0] == canonical_path@,
            strings_view(stack@) == strings_view(old(stack)@).push(canonical_path@),
        decreases includes.len() - k,
    {
        let directive_ref: &IncludeDirective = &includes[k];
        let joined = join_path(include_root, &directive_ref.path);
        proof {
            assert(directive(acc, 0, k as int) == directive_ref.path@);
        }
        let include_path = match checked_file_result(
            "failed to resolve include ",
            directive_ref.path.as_str(),
            files.canonicalize(joined.as_str()),
        ) {
            Ok(c) => c,
            Err(e) => {
                proof {
                    let m = e->Include_0@;
                    let x = choose|x: Seq<char>| m == "failed to resolve include "@ + directive_ref.path@ + ": "@ + x;
                    assert(m == resolve_include_message(directive(acc, 0, k as int), x));
                }
                return (Err(e), Ghost(acc));
            },
        };
        let ghost loaded_before = strings_view(loaded@);
        proof {
            assert forall|p: Seq<char>| strings_view(stack@).contains(p) implies loaded_before.contains(p) by {
                lemma_contains_concat(strings_view(old(stack)@), seq![canonical_path@], p);
                lemma_contains_concat(known, read_paths(acc), p);
                if p == canonical_path@ {
                    assert(read_paths(acc).contains(p));
                }
            }
        }
        let (res, Ghost(child)) = load_problem_recursive(
            files,
            Ghost(joined@),
            &include_path,
            include_root,
            None,
            loaded,
            stack,
            nesting_left - 1,
        );
        proof {
            assert(child.len() > 0 ==> child[0].requested == join(include_root@, directive(acc, 0, k as int)));
        }
        let included = match res {
            Ok(p) => p,
            Err(e) => {
                proof {
                    lemma_failed_step(acc, child, known, include_root@, k as int, top_input is None, e);
                }
                return (Err(e), Ghost(acc + child));
            },
        };
        let mut more = included.premises;
        let ghost before = merged_premises@;
        let ghost more0 = more@;
        merged_premises.append(&mut more);
        proof {
            assert(records_model(merged_premises@) =~= records_model(before) + records_model(more0));
            lemma_include_step(acc, child, known, include_root@, k as int, top_input is None);
            assert(strings_view(loaded@) =~= known + read_paths(acc + child));
            assert(read_paths(acc + child)[0] == canonical_path@);
            acc = acc + child;
        }
        k += 1;
    }
    let ghost pre = stack@;
    proof {
        assert(strings_view(pre).len() == pre.len());
        assert(pre.len() == old(stack)@.len() + 1);
    }
    stack.pop();
    let r = ParsedProblem { premises: merged_premises, conjecture, includes: Vec::new() };
    proof {
        assert(stack@ == pre.subrange(0, pre.len() - 1));
        assert forall|i: int| 0 <= i < stack@.len() implies stack@[i]@ == strings_view(old(stack)@)[i] by {
            assert(stack@[i] == pre[i]);
            assert(strings_view(pre)[i] == pre[i]@);
        }
        assert(strings_view(stack@) =~= strings_view(old(stack)@));
        assert(includes_model(r.includes@) =~= Seq::<Seq<char>>::empty());
        assert(r@ == merged_from(acc));
        assert forall|i: int, k2: int|
            0 <= i < acc.len() && acc[i].read && 0 <= k2 < acc[i].own.includes.len() implies #[trigger] include_visited(
            acc,
            include_root@,
            i,
            k2,
        ) by {
            if i == 0 {
                assert(include_visited(acc, include_root@, 0, k2));
            }
        }
    }
    (Ok(r), Ghost(acc))
}

/// Builds the initial sequent for one problem file after recursively loading
/// its includes: on success the sequent of the problem merged from the files
/// read; on failure a loading error, or the error for a top-level file
/// without a conjecture.
pub fn build_problem_sequent_from_path<F: ProblemFiles>(files: &F, path: &str) -> (r: Result<
    Sequent,
    ProblemPipelineError,
>)
    ensures
        r matches Ok(s) ==> exists|rs: Seq<Visit>|
            #[trigger] loaded_by(rs, path@) && merged_sequent(merged_from(rs), s@),
        r matches Err(e) ==> (exists|vs: Seq<Visit>| #[trigger] visited_before_failure(vs, path@) && load_error(vs, Seq::empty(), e)) || (missing_conjecture(e) && exists|rs: Seq<Visit>|
            #[trigger] loaded_by(rs, path@) && rs[0].own.conjecture is None),
{
    let (res, Ghost(reads)) = load_problem_from_path(files, path);
    let loaded = match res {
        Ok(l) => l,
        Err(e) => {
            proof {
                assert(visited_before_failure(reads, path@));
            }
            return Err(e);
        },
    };
    let ghost merged = loaded.parsed@;
    match Sequent::from_parsed_problem(loaded.parsed) {
        Ok(s) => {
            proof {
                assert(s@.left =~= Seq::new(merged.premises.len(), |i: int| merged.premises[i].formula));
                assert(loaded_by(reads, path@) && merged_sequent(merged_from(reads), s@));
            }
            Ok(s)
        },
        Err(e) => {
            proof {
                assert(loaded_by(reads, path@) && reads[0].own.conjecture is None);
            }
            Err(ProblemPipelineError::SequentBuild(e))
        },
    }
}

/// What proof search starts from for a loaded problem: `None` when the
/// top-level file's text exceeds the biconditional cap, else the sequent of
/// the merged premises and the conjecture, or the error for a problem
/// without a conjecture.
pub fn prepare_loaded_problem(loaded: LoadedProblem, policy: BiconditionalPolicy) -> (r: Result<
    Option<Sequent>,
    ProblemPipelineError,
>)
    ensures
        exceeds(policy, loaded.input@) ==> r matches Ok(None),
        !exceeds(policy, loaded.input@) && loaded.parsed.conjecture is None ==> r == Err::<
            Option<Sequent>,
            ProblemPipelineError,
        >(ProblemPipelineError::SequentBuild(SequentBuildError::MissingConjecture)),
        !exceeds(policy, loaded.input@) && loaded.parsed.conjecture is Some ==> (r matches Ok(Some(s))
            && merged_sequent(loaded.parsed@, s@)),
{
    if policy.is_exceeded_by(loaded.input.as_str()) {
        return Ok(None);
    }
    let ghost merged = loaded.parsed@;
    match Sequent::from_parsed_problem(loaded.parsed) {
        Ok(s) => {
            proof {
                assert(s@.left =~= Seq::new(merged.premises.len(), |i: int| merged.premises[i].formula));
                assert(merged_sequent(merged, s@));
            }
            let r: Result<Option<Sequent>, ProblemPipelineError> = Ok(Some(s));
            assert(r matches Ok(Some(s2)) && s2@ == s@);
            r
        },
        Err(e) => Err(ProblemPipelineError::SequentBuild(e)),
    }
}

/// Loads one on-disk problem up to the point where proof search would
/// start: `None` when the top-level file's text exceeds the biconditional
/// cap, decided from that text before anything is parsed or included; else
/// the initial sequent. A caller may show the sequent before proving it with
/// [`run_sequent`].
pub fn prepare_problem_from_path<F: ProblemFiles>(
    files: &F,
    path: &str,
    policy: BiconditionalPolicy,
) -> (r: Result<Option<Sequent>, ProblemPipelineError>)
    ensures
        r matches Ok(None) ==> exists|v: Visit| #[trigger] opened_visit(v, path@) && exceeds(policy, v.text),
        r matches Ok(Some(s)) ==> exists|rs: Seq<Visit>|
            #[trigger] loaded_by(rs, path@) && !exceeds(policy, rs[0].text) && merged_sequent(merged_from(rs), s@),
        r matches Err(e) ==> (exists|vs: Seq<Visit>|
            #[trigger] visited_before_failure(vs, path@) && load_error(vs, Seq::empty(), e)) || (missing_conjecture(e)
            && exists|rs: Seq<Visit>|
            #[trigger] loaded_by(rs, path@) && !exceeds(policy, rs[0].text) && rs[0].own.conjecture is None),
{
    let opened = match open_problem(files, path) {
        Ok(o) => o,
        Err(e) => {
            proof {
                assert(visited_before_failure(Seq::empty(), path@));
            }
            return Err(e);
        },
    };
    if policy.is_exceeded_by(opened.input.as_str()) {
        proof {
            let v = Visit {
                requested: path@,
                path: opened.canonical@,
                read: true,
                text: opened.input@,
                own: empty_problem(),
            };
            assert(opened_visit(v, path@) && exceeds(policy, v.text));
        }
        return Ok(None);
    }
    let (res, Ghost(reads)) = load_opened_problem(files, Ghost(path@), opened);
    let loaded = match res {
        Ok(l) => l,
        Err(e) => {
            proof {
                assert(visited_before_failure(reads, path@));
            }
            return Err(e);
        },
    };
    let r = prepare_loaded_problem(loaded, policy);
    proof {
        assert(loaded_by(reads, path@));
    }
    r
}

/// Runs one on-disk problem with explicit pipeline options after recursively
/// loading includes. The biconditional gate reads the top-level file's text
/// before anything is parsed: over the cap the answer is `Unknown` without
/// search; otherwise the sequent of the problem merged from the files read
/// is proved.
pub fn run_problem_from_path_with_options<F: ProblemFiles>(
    files: &F,
    path: &str,
    options: RunProblemOptions<'_>,
) -> (r: Result<ProofResult, ProblemPipelineError>)
    ensures
        r matches Ok(res) ==> (res.status == ProofStatus::Unknown) == (res.unknown_reason is Some),
        options.cancel_requested is None ==> (r matches Ok(res) ==> res.status != ProofStatus::Cancelled),
        r matches Ok(res) ==> (res == gated_result() && exists|v: Visit|
            #[trigger] opened_visit(v, path@) && exceeds(options.biconditional_policy, v.text)) || exists|rs: Seq<Visit>|
            #[trigger] loaded_by(rs, path@) && !exceeds(options.biconditional_policy, rs[0].text) && run_answer(
                rs,
                options,
                res,
            ),
        r matches Err(e) ==> (exists|vs: Seq<Visit>|
            #[trigger] visited_before_failure(vs, path@) && load_error(vs, Seq::empty(), e)) || (missing_conjecture(e)
            && exists|rs: Seq<Visit>|
            #[trigger] loaded_by(rs, path@) && !exceeds(options.biconditional_policy, rs[0].text)
                && rs[0].own.conjecture is None),
{
    let prepared = prepare_problem_from_path(files, path, options.biconditional_policy);
    match prepared {
        Err(e) => Err(e),
        Ok(None) => {
            let r = ProofResult { status: ProofStatus::Unknown, unknown_reason: Some(UnknownReason::BiconditionalCapExceeded) };
            Ok(r)
        },
        Ok(Some(sequent)) => {
            let res = run_sequent(&sequent, options);
            proof {
                let rs = choose|rs: Seq<Visit>|
                    #[trigger] loaded_by(rs, path@) && !exceeds(options.biconditional_policy, rs[0].text)
                        && merged_sequent(merged_from(rs), sequent@);
                assert(sequent@.left =~= sequent_of(merged_from(rs)).left);
                assert(sequent@ == sequent_of(merged_from(rs)));
                assert(loaded_by(rs, path@) && run_answer(rs, options, res));
            }
            Ok(res)
        },
    }
}

/// Runs one on-disk problem with default options after recursively loading
/// includes.
pub fn run_problem_from_path<F: ProblemFiles>(files: &F, path: &str) -> (r: Result<ProofResult, ProblemPipelineError>)
    ensures
        r matches Ok(res) ==> (res.status == ProofStatus::Unknown) == (res.unknown_reason is Some),
        r matches Ok(res) ==> res.status != ProofStatus::Cancelled,
        r matches Ok(res) ==> exists|rs: Seq<Visit>|
            #[trigger] loaded_by(rs, path@) && run_answer(
                rs,
                (RunProblemOptions {
                    show_sequent: false,
                    proof: default_options(),
                    biconditional_policy: BiconditionalPolicy { max_biconditionals: None },
                    cancel_requested: None,
                }),
                res,
            ),
        r matches Err(e) ==> (exists|vs: Seq<Visit>|
            #[trigger] visited_before_failure(vs, path@) && load_error(vs, Seq::empty(), e)) || (missing_conjecture(e)
            && exists|rs: Seq<Visit>| #[trigger] loaded_by(rs, path@) && rs[0].own.conjecture is None),
{
    run_problem_from_path_with_options(files, path, RunProblemOptions::default())
}

} // verus!
