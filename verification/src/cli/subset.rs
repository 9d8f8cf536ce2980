//! TPTP subset descriptions and the problems selected for a run.
//!
//! A subset file holds one problem per line: lines starting with `%` and
//! blank lines are skipped, problem ids must contain `+` (such as
//! `SYN001+1`), and the sixth and ninth columns, when both are numbers, give
//! the formula and atom counts.

use vstd::prelude::*;

use crate::cli::config::index_from;
use crate::cli::numbers::{parse_usize, unsigned_value};
use crate::text::{chars_of, dec, is_white_space, push_str, text_of, trim, trim_bounds, usize_to_decimal, white_space};

verus! {

/// Optional metadata parsed from subset description rows.
#[derive(Debug, Clone, Copy, PartialEq, Eq, Structural)]
pub struct SubsetStats {
    pub formulae: usize,
    pub atoms: usize,
}

/// A single problem selected for CLI processing.
#[derive(Debug, Clone, PartialEq, Eq)]
pub struct ProblemRun {
    pub path: String,
    pub subset_stats: Option<SubsetStats>,
}

/// The position after the last `/` in `p` before `n`, or 0.
pub open spec fn name_start(p: Seq<char>, n: nat) -> nat
    decreases n,
{
    if n == 0 || n > p.len() {
        0
    } else if p[n - 1] == '/' {
        n
    } else {
        name_start(p, (n - 1) as nat)
    }
}

/// The position of the last `.` in `name` before `n` that is not its first
/// character, or `None`.
pub open spec fn last_dot(name: Seq<char>, n: nat) -> Option<nat>
    decreases n,
{
    if n <= 1 || n > name.len() {
        None
    } else if name[n - 1] == '.' {
        Some((n - 1) as nat)
    } else {
        last_dot(name, (n - 1) as nat)
    }
}

/// `p` without trailing `/`.
pub open spec fn without_trailing_slashes(p: Seq<char>) -> Seq<char>
    decreases p.len(),
{
    if p.len() > 0 && p.last() == '/' {
        without_trailing_slashes(p.drop_last())
    } else {
        p
    }
}

/// The stem of the file a path names: its last component without the
/// extension after the last `.` (a leading `.` starts no extension); empty
/// for `..`.
pub open spec fn file_stem(path: Seq<char>) -> Seq<char> {
    let p = without_trailing_slashes(path);
    let name = p.skip(name_start(p, p.len()) as int);
    if name == seq!['.', '.'] {
        Seq::empty()
    } else {
        match last_dot(name, name.len()) {
            Some(d) => name.take(d as int),
            None => name,
        }
    }
}

impl ProblemRun {
    /// The logical TPTP problem id: the stem of the target file's name.
    pub fn problem_id(&self) -> (r: String)
        ensures
            r@ == file_stem(self.path@),
    {
        let cs = chars_of(self.path.as_str());
        let mut end = cs.len();
        assert(cs@.take(cs.len() as int) =~= cs@);
        while end > 0 && cs[end - 1] == '/'
            invariant
                end <= cs.len(),
                without_trailing_slashes(cs@) == without_trailing_slashes(cs@.take(end as int)),
            decreases end,
        {
            assert(cs@.take(end as int).drop_last() =~= cs@.take(end - 1));
            end -= 1;
        }
        assert(cs@.take(cs.len() as int) =~= cs@);
        let ghost p = cs@.take(end as int);
        assert(without_trailing_slashes(p) == p);
        let mut start = end;
        while start > 0 && cs[start - 1] != '/'
            invariant
                start <= end <= cs.len(),
                p == cs@.take(end as int),
                name_start(p, p.len()) == name_start(p, start as nat),
            decreases start,
        {
            start -= 1;
        }
        let ghost name = cs@.subrange(start as int, end as int);
        assert(name =~= p.skip(start as int));
        if end - start == 2 && cs[start] == '.' && cs[start + 1] == '.' {
            assert(name =~= seq!['.', '.']);
            return String::new();
        }
        let mut dot = end;
        while dot - start > 1 && cs[dot - 1] != '.'
            invariant
                start <= dot <= end,
                end <= cs.len(),
                name == cs@.subrange(start as int, end as int),
                last_dot(name, name.len()) == last_dot(name, (dot - start) as nat),
            decreases dot,
        {
            dot -= 1;
        }
        if dot - start > 1 {
            assert(name.take((dot - 1 - start) as int) =~= cs@.subrange(start as int, dot - 1));
            text_of(&cs, start, dot - 1)
        } else {
            text_of(&cs, start, end)
        }
    }

    /// The formula count for human display, or `-`.
    pub fn human_formulae(&self) -> (r: String)
        ensures
            r@ == match self.subset_stats {
                Some(stats) => dec(stats.formulae as nat),
                None => seq!['-'],
            },
    {
        match self.subset_stats {
            Some(stats) => usize_to_decimal(stats.formulae),
            None => {
                let mut s = String::new();
                s.push('-');
                s
            },
        }
    }

    /// The atom count for human display, or `-`.
    pub fn human_atoms(&self) -> (r: String)
        ensures
            r@ == match self.subset_stats {
                Some(stats) => dec(stats.atoms as nat),
                None => seq!['-'],
            },
    {
        match self.subset_stats {
            Some(stats) => usize_to_decimal(stats.atoms),
            None => {
                let mut s = String::new();
                s.push('-');
                s
            },
        }
    }
}

/// The numeric subset stats for machine-readable output, zero when absent.
pub fn subset_stats_fields(stats: Option<SubsetStats>) -> (r: (usize, usize))
    ensures
        r == match stats {
            Some(s) => (s.formulae, s.atoms),
            None => (0usize, 0usize),
        },
{
    match stats {
        Some(s) => (s.formulae, s.atoms),
        None => (0, 0),
    }
}

/// The white-space separated words of `s` from position `i` on, after the
/// words `acc`.
pub open spec fn words_from(s: Seq<char>, i: nat, acc: Seq<Seq<char>>) -> Seq<Seq<char>>
    decreases s.len() - i,
{
    if i >= s.len() {
        acc
    } else if is_white_space(s[i as int]) {
        words_from(s, i + 1, acc)
    } else {
        let e = word_end(s, i);
        if i < e <= s.len() {
            words_from(s, e, acc.push(s.subrange(i as int, e as int)))
        } else {
            acc
        }
    }
}

/// The end of the word that starts at `i`.
pub open spec fn word_end(s: Seq<char>, i: nat) -> nat
    decreases s.len() - i,
{
    if i < s.len() && !is_white_space(s[i as int]) {
        word_end(s, i + 1)
    } else {
        i
    }
}

proof fn lemma_word_end(s: Seq<char>, i: nat)
    ensures
        i <= word_end(s, i),
        i <= s.len() ==> word_end(s, i) <= s.len(),
        i < s.len() && !is_white_space(s[i as int]) ==> word_end(s, i) > i,
    decreases s.len() - i,
{
    if i < s.len() && !is_white_space(s[i as int]) {
        lemma_word_end(s, i + 1);
    }
}

/// The problem id and optional stats of a subset-description line.
pub open spec fn subset_line(line: Seq<char>) -> Option<(Seq<char>, Option<SubsetStats>)> {
    let t = trim(line);
    let words = words_from(t, 0, Seq::empty());
    if t.len() == 0 || t[0] == '%' || words.len() == 0 || !words[0].contains('+') {
        None
    } else {
        Some(
            (
                words[0],
                if words.len() > 8 {
                    match (unsigned_value(words[5], usize::MAX as nat), unsigned_value(words[8], usize::MAX as nat)) {
                        (Some(f), Some(a)) => Some(SubsetStats { formulae: f as usize, atoms: a as usize }),
                        _ => None,
                    }
                } else {
                    None
                },
            ),
        )
    }
}

/// The white-space separated words of `cs[from..to]`.
fn split_words(cs: &Vec<char>, from: usize, to: usize) -> (r: Vec<String>)
    requires
        from <= to <= cs.len(),
    ensures
        r@.len() == words_from(cs@.subrange(from as int, to as int), 0, Seq::empty()).len(),
        forall|k: int|
            0 <= k < r@.len() ==> (#[trigger] r@[k])@ == words_from(
                cs@.subrange(from as int, to as int),
                0,
                Seq::empty(),
            )[k],
{
    let ghost t = cs@.subrange(from as int, to as int);
    let mut words: Vec<String> = Vec::new();
    let ghost mut acc: Seq<Seq<char>> = Seq::empty();
    let mut i = from;
    while i < to
        invariant
            from <= i <= to,
            to <= cs.len(),
            t == cs@.subrange(from as int, to as int),
            words@.len() == acc.len(),
            forall|k: int| 0 <= k < acc.len() ==> (#[trigger] words@[k])@ == acc[k],
            words_from(t, 0, Seq::empty()) == words_from(t, (i - from) as nat, acc),
        decreases to - i,
    {
        if white_space(cs[i]) {
            i += 1;
        } else {
            let mut e = i;
            while e < to && !white_space(cs[e])
                invariant
                    from <= i <= e <= to,
                    to <= cs.len(),
                    t == cs@.subrange(from as int, to as int),
                    word_end(t, (i - from) as nat) == word_end(t, (e - from) as nat),
                decreases to - e,
            {
                assert(t[(e - from) as int] == cs@[e as int]);
                e += 1;
            }
            proof {
                lemma_word_end(t, (i - from) as nat);
                assert(t.subrange((i - from) as int, (e - from) as int) =~= cs@.subrange(i as int, e as int));
            }
            let w = text_of(cs, i, e);
            proof {
                acc = acc.push(w@);
            }
            words.push(w);
            i = e;
        }
    }
    words
}

/// Extracts a problem id and optional stats from a subset-description line.
pub fn parse_subset_problem_line(line: &str) -> (r: Option<(String, Option<SubsetStats>)>)
    ensures
        match r {
            Some((id, stats)) => subset_line(line@) == Some((id@, stats)),
            None => subset_line(line@) is None,
        },
{
    let cs = chars_of(line);
    let (a, b) = trim_bounds(&cs, 0, cs.len());
    assert(cs@.subrange(0, cs.len() as int) =~= cs@);
    if a == b || cs[a] == '%' {
        return None;
    }
    let words = split_words(&cs, a, b);
    if words.len() == 0 {
        return None;
    }
    let first = chars_of(words[0].as_str());
    let mut k: usize = 0;
    let mut has_plus = false;
    while k < first.len()
        invariant
            k <= first.len(),
            has_plus == exists|j: int| 0 <= j < k && first@[j] == '+',
        decreases first.len() - k,
    {
        if first[k] == '+' {
            has_plus = true;
        }
        k += 1;
    }
    if !has_plus {
        return None;
    }
    let stats = if words.len() > 8 {
        match (parse_usize(words[5].as_str()), parse_usize(words[8].as_str())) {
            (Ok(formulae), Ok(atoms)) => Some(SubsetStats { formulae, atoms }),
            _ => None,
        }
    } else {
        None
    };
    Some((words[0].clone(), stats))
}

/// Joins a path and a relative component with `/`.
pub open spec fn join(base: Seq<char>, part: Seq<char>) -> Seq<char> {
    if part.len() > 0 && part[0] == '/' {
        part
    } else if base.len() == 0 {
        part
    } else if base.last() == '/' {
        base + part
    } else {
        base + seq!['/'] + part
    }
}

/// Joins a path and a relative component with `/`.
pub fn join_path(base: &String, part: &String) -> (r: String)
    ensures
        r@ == join(base@, part@),
{
    let b = chars_of(base.as_str());
    let p = chars_of(part.as_str());
    if p.len() > 0 && p[0] == '/' {
        return part.clone();
    }
    if b.len() == 0 {
        return part.clone();
    }
    let mut out = base.clone();
    if b[b.len() - 1] != '/' {
        out.push('/');
    }
    push_str(&mut out, part.as_str());
    out
}

/// The domain directory of a TPTP problem: `Problems/` and the first three
/// characters of its id, under the TPTP root.
pub open spec fn problems_dir(root: Seq<char>, id: Seq<char>) -> Seq<char> {
    join(join(root, "Problems"@), id.take(3))
}

/// A problem id up to its first `.`: the id without a version suffix.
pub open spec fn base_id(id: Seq<char>) -> Seq<char> {
    match index_from(id, '.', 0) {
        Some(e) => id.take(e as int),
        None => id,
    }
}

/// The two places a subset's problem id may name: the file of the id
/// itself, and the file of its base id; the first is used when it exists.
/// `None` for an id shorter than three characters, which names no domain.
pub fn tptp_problem_paths(tptp_root: &String, problem_id: &String) -> (r: Option<(String, String)>)
    ensures
        problem_id@.len() < 3 ==> r is None,
        problem_id@.len() >= 3 ==> (r matches Some((exact, base)) && exact@ == join(
            problems_dir(tptp_root@, problem_id@),
            problem_id@ + ".p"@,
        ) && base@ == join(problems_dir(tptp_root@, problem_id@), base_id(problem_id@) + ".p"@)),
{
    let cs = chars_of(problem_id.as_str());
    if cs.len() < 3 {
        return None;
    }
    proof {
        reveal_strlit("Problems");
        reveal_strlit(".p");
    }
    let problems = join_path(tptp_root, &"Problems".to_owned());
    let domain = text_of(&cs, 0, 3);
    assert(domain@ =~= problem_id@.take(3));
    let dir = join_path(&problems, &domain);
    let mut exact_name = problem_id.clone();
    push_str(&mut exact_name, ".p");
    let exact = join_path(&dir, &exact_name);
    let mut e: usize = 0;
    while e < cs.len() && cs[e] != '.'
        invariant
            e <= cs.len(),
            cs@ == problem_id@,
            index_from(cs@, '.', 0) == index_from(cs@, '.', e as nat),
        decreases cs.len() - e,
    {
        e += 1;
    }
    let mut base_name = text_of(&cs, 0, e);
    proof {
        if e < cs.len() {
            assert(index_from(cs@, '.', e as nat) == Some(e as nat));
        } else {
            assert(index_from(cs@, '.', e as nat) is None);
            assert(cs@.subrange(0, e as int) =~= cs@);
        }
        assert(cs@.subrange(0, e as int) =~= cs@.take(e as int));
    }
    push_str(&mut base_name, ".p");
    let base = join_path(&dir, &base_name);
    Some((exact, base))
}

} // verus!
