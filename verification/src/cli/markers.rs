//! Parse-failure markers: a `.p` problem that failed to parse gets a
//! `<path>.parse_failed` file beside it, so that later batches skip it.

use vstd::prelude::*;

use crate::cli::subset::{last_dot, name_start, without_trailing_slashes};
use crate::text::{chars_of, push_str};

verus! {

/// The extension of the file a path names: what follows the last `.` of its
/// last component, where a leading `.` starts no extension.
pub open spec fn file_extension(path: Seq<char>) -> Option<Seq<char>> {
    let p = without_trailing_slashes(path);
    let name = p.skip(name_start(p, p.len()) as int);
    if name == seq!['.', '.'] {
        None
    } else {
        match last_dot(name, name.len()) {
            Some(d) => Some(name.skip(d + 1int)),
            None => None,
        }
    }
}

/// Whether a path names a TPTP problem file, one with the extension `p`.
pub open spec fn is_problem_path(path: Seq<char>) -> bool {
    file_extension(path) == Some(seq!['p'])
}

/// Whether `path` names a `.p` problem file.
pub fn is_problem_file(path: &str) -> (r: bool)
    ensures
        r == is_problem_path(path@),
{
    let cs = chars_of(path);
    let mut end = cs.len();
    assert(cs@.take(cs.len() as int) =~= cs@);
    while end > 0 && cs[end - 1] == '/'
        invariant
            end <= cs.len(),
            cs@ == path@,
            without_trailing_slashes(cs@) == without_trailing_slashes(cs@.take(end as int)),
        decreases end,
    {
        assert(cs@.take(end as int).drop_last() =~= cs@.take(end - 1));
        end -= 1;
    }
    let ghost p = cs@.take(end as int);
    assert(without_trailing_slashes(p) == p);
    let mut start = end;
    while start > 0 && cs[start - 1] != '/'
        invariant
            start <= end <= cs.len(),
            p == cs@.take(end as int),
            name_start(p, p.len()) == name_start(p, start as nat),
        decreases start,
    {
        start -= 1;
    }
    let ghost name = cs@.subrange(start as int, end as int);
    assert(name =~= p.skip(start as int));
    if end - start < 3 || cs[end - 1] != 'p' || cs[end - 2] != '.' {
        proof {
            if name.len() >= 2 && name[name.len() - 1] == 'p' && name[name.len() - 2] == '.' {
                assert(name.len() == 2);
                assert(last_dot(name, 1) is None);
            }
            if file_extension(path@) == Some(seq!['p']) {
                assert(name != seq!['.', '.']);
                let d = last_dot(name, name.len())->Some_0;
                lemma_last_dot_bounds(name, name.len());
                assert(name.skip(d + 1int) == seq!['p']);
                assert(name.skip(d + 1int).len() == 1);
                assert(name[d as int] == '.');
                assert(name.len() == d + 2);
                assert(name[name.len() - 1] == name.skip(d + 1int)[0]);
            }
        }
        return false;
    }
    proof {
        assert(name[name.len() - 1] == 'p' && name[name.len() - 2] == '.');
        assert(name != seq!['.', '.']);
        assert(last_dot(name, (name.len() - 1) as nat) == Some((name.len() - 2) as nat));
        assert(last_dot(name, name.len()) == Some((name.len() - 2) as nat));
        assert(name.skip(name.len() - 1) =~= seq!['p']);
    }
    true
}

/// The bounds of the dot that `last_dot` finds.
pub proof fn lemma_last_dot_bounds(name: Seq<char>, n: nat)
    ensures
        last_dot(name, n) matches Some(d) ==> 1 <= d < n <= name.len() && name[d as int] == '.' && forall|
            j: int,
        | d < j < n ==> name[j] != '.',
    decreases n,
{
    if n > 1 && n <= name.len() && name[n - 1] != '.' {
        lemma_last_dot_bounds(name, (n - 1) as nat);
    }
}

/// The marker path of a problem file: the path with `.parse_failed`
/// appended, for `.p` files only.
pub fn parse_failure_marker_path(path: &str) -> (r: Option<String>)
    ensures
        is_problem_path(path@) ==> (r matches Some(m) && m@ == path@ + ".parse_failed"@),
        !is_problem_path(path@) ==> r is None,
{
    if is_problem_file(path) {
        let mut m = String::new();
        push_str(&mut m, path);
        push_str(&mut m, ".parse_failed");
        Some(m)
    } else {
        None
    }
}

/// The text of a parse-failure marker: the problem path, `parse failed`,
/// and the parser's message, one per line.
pub fn parse_failure_marker_contents(path: &str, err: &str) -> (r: String)
    ensures
        r@ == path@ + "\nparse failed\n"@ + err@ + "\n"@,
{
    let mut m = String::new();
    push_str(&mut m, path);
    push_str(&mut m, "\nparse failed\n");
    push_str(&mut m, err);
    push_str(&mut m, "\n");
    m
}

} // verus!
