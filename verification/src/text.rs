//! Character-level helpers for building strings, and the decimal rendering of
//! natural numbers.

use vstd::prelude::*;

verus! {

/// `String::push` appends one character.
pub assume_specification[ String::push ](s: &mut String, ch: char)
    ensures
        final(s)@ == old(s)@.push(ch),
;

/// The decimal digit for `d < 10`.
pub open spec fn digit_char(d: nat) -> char {
    ((d + 48) as u8) as char
}

/// The decimal rendering of a natural number, without leading zeros.
pub open spec fn dec(n: nat) -> Seq<char>
    decreases n,
{
    if n < 10 {
        seq![digit_char(n)]
    } else {
        dec(n / 10).push(digit_char(n % 10))
    }
}

/// Basic facts about decimal renderings.
pub proof fn lemma_dec_shape(n: nat)
    ensures
        dec(n).len() >= 1,
        dec(n).last() == digit_char(n % 10),
        (dec(n).len() == 1) <==> (n < 10),
        n >= 10 ==> dec(n).drop_last() == dec(n / 10),
    decreases n,
{
    if n >= 10 {
        lemma_dec_shape(n / 10);
    }
}

/// Different numbers have different decimal renderings.
pub proof fn lemma_dec_injective(a: nat, b: nat)
    requires
        dec(a) == dec(b),
    ensures
        a == b,
    decreases a,
{
    lemma_dec_shape(a);
    lemma_dec_shape(b);
    assert(digit_char(a % 10) == digit_char(b % 10));
    assert(a % 10 == b % 10) by {
        assert(((a % 10 + 48) as u8) as char == ((b % 10 + 48) as u8) as char);
        assert((a % 10 + 48) as u8 == (b % 10 + 48) as u8);
    }
    if a >= 10 {
        assert(b >= 10);
        lemma_dec_injective(a / 10, b / 10);
    }
}

/// The decimal rendering of `n`.
pub fn usize_to_decimal(n: usize) -> (r: String)
    ensures
        r@ == dec(n as nat),
    decreases n,
{
    let d = ((n % 10) as u8 + 48u8) as char;
    if n < 10 {
        let mut s = String::new();
        s.push(d);
        s
    } else {
        let mut s = usize_to_decimal(n / 10);
        s.push(d);
        s
    }
}

/// The decimal rendering of `n`.
pub fn u128_to_decimal(n: u128) -> (r: String)
    ensures
        r@ == dec(n as nat),
    decreases n,
{
    let d = ((n % 10) as u8 + 48u8) as char;
    if n < 10 {
        let mut s = String::new();
        s.push(d);
        s
    } else {
        let mut s = u128_to_decimal(n / 10);
        s.push(d);
        s
    }
}

/// Appends a string slice.
pub fn push_str(s: &mut String, t: &str)
    ensures
        final(s)@ == old(s)@ + t@,
{
    s.append(t);
}

/// Whether a sequence of strings contains one with the given characters.
pub fn strings_contain(v: &Vec<String>, s: &String) -> (r: bool)
    ensures
        r == exists|i: int| 0 <= i < v@.len() && (#[trigger] v@[i])@ == s@,
{
    let mut i: usize = 0;
    while i < v.len()
        invariant
            i <= v.len(),
            forall|j: int| 0 <= j < i ==> (#[trigger] v@[j])@ != s@,
        decreases v.len() - i,
    {
        if v[i] == *s {
            return true;
        }
        i += 1;
    }
    false
}

/// The characters of a string slice.
pub fn chars_of(s: &str) -> (r: Vec<char>)
    ensures
        r@ == s@,
{
    broadcast use vstd::string::axiom_spec_iter;

    let mut out: Vec<char> = Vec::new();
    for c in it: s.chars()
        invariant
            out@ == it.seq().take(it.index() as int),
    {
        out.push(c);
    }
    out
}

/// Whether a character is white space (`char::is_whitespace`).
pub open spec fn is_white_space(c: char) -> bool {
    c == ' ' || ('\t' <= c && c <= '\r') || c == '\u{85}' || c == '\u{a0}' || c == '\u{1680}' || ('\u{2000}' <= c
        && c <= '\u{200a}') || c == '\u{2028}' || c == '\u{2029}' || c == '\u{202f}' || c == '\u{205f}' || c
        == '\u{3000}'
}

/// Whether a character is white space (`char::is_whitespace`).
pub fn white_space(c: char) -> (r: bool)
    ensures
        r == is_white_space(c),
{
    c == ' ' || ('\t' <= c && c <= '\r') || c == '\u{85}' || c == '\u{a0}' || c == '\u{1680}' || ('\u{2000}' <= c
        && c <= '\u{200a}') || c == '\u{2028}' || c == '\u{2029}' || c == '\u{202f}' || c == '\u{205f}' || c
        == '\u{3000}'
}

/// `s` without leading white space.
pub open spec fn trim_start(s: Seq<char>) -> Seq<char>
    decreases s.len(),
{
    if s.len() > 0 && is_white_space(s[0]) {
        trim_start(s.drop_first())
    } else {
        s
    }
}

/// `s` without trailing white space.
pub open spec fn trim_end(s: Seq<char>) -> Seq<char>
    decreases s.len(),
{
    if s.len() > 0 && is_white_space(s.last()) {
        trim_end(s.drop_last())
    } else {
        s
    }
}

/// `s` without leading and trailing white space.
pub open spec fn trim(s: Seq<char>) -> Seq<char> {
    trim_end(trim_start(s))
}

/// `s` without leading and trailing occurrences of `c`.
pub open spec fn strip_both(s: Seq<char>, c: char) -> Seq<char>
    decreases s.len(),
{
    if s.len() > 0 && s[0] == c {
        strip_both(s.drop_first(), c)
    } else if s.len() > 0 && s.last() == c {
        strip_both(s.drop_last(), c)
    } else {
        s
    }
}

/// The characters `from..to` as a string.
pub fn text_of(s: &Vec<char>, from: usize, to: usize) -> (r: String)
    requires
        from <= to <= s.len(),
    ensures
        r@ == s@.subrange(from as int, to as int),
{
    let mut out = String::new();
    let mut j = from;
    while j < to
        invariant
            from <= j <= to,
            to <= s.len(),
            out@ == s@.subrange(from as int, j as int),
        decreases to - j,
    {
        out.push(s[j]);
        assert(out@ =~= s@.subrange(from as int, j + 1));
        j += 1;
    }
    out
}

/// The bounds of `s[from..to]` without leading and trailing white space.
pub fn trim_bounds(s: &Vec<char>, from: usize, to: usize) -> (r: (usize, usize))
    requires
        from <= to <= s.len(),
    ensures
        from <= r.0 <= r.1 <= to,
        s@.subrange(r.0 as int, r.1 as int) == trim(s@.subrange(from as int, to as int)),
{
    let mut a = from;
    while a < to && white_space(s[a])
        invariant
            from <= a <= to,
            to <= s.len(),
            trim_start(s@.subrange(from as int, to as int)) == trim_start(s@.subrange(a as int, to as int)),
        decreases to - a,
    {
        assert(s@.subrange(a as int, to as int).drop_first() =~= s@.subrange(a + 1, to as int));
        a += 1;
    }
    let mut b = to;
    while b > a && white_space(s[b - 1])
        invariant
            from <= a <= b <= to,
            to <= s.len(),
            trim_end(s@.subrange(a as int, to as int)) == trim_end(s@.subrange(a as int, b as int)),
        decreases b,
    {
        assert(s@.subrange(a as int, b as int).drop_last() =~= s@.subrange(a as int, b - 1));
        b -= 1;
    }
    (a, b)
}

/// The bounds of `s[from..to]` without leading and trailing occurrences of `c`.
pub fn strip_bounds(s: &Vec<char>, from: usize, to: usize, c: char) -> (r: (usize, usize))
    requires
        from <= to <= s.len(),
    ensures
        from <= r.0 <= r.1 <= to,
        s@.subrange(r.0 as int, r.1 as int) == strip_both(s@.subrange(from as int, to as int), c),
{
    let mut a = from;
    let mut b = to;
    while a < b && (s[a] == c || s[b - 1] == c)
        invariant
            from <= a <= b <= to,
            to <= s.len(),
            strip_both(s@.subrange(from as int, to as int), c) == strip_both(s@.subrange(a as int, b as int), c),
        decreases b - a,
    {
        if s[a] == c {
            assert(s@.subrange(a as int, b as int).drop_first() =~= s@.subrange(a + 1, b as int));
            a += 1;
        } else {
            assert(s@.subrange(a as int, b as int).drop_last() =~= s@.subrange(a as int, b - 1));
            b -= 1;
        }
    }
    (a, b)
}

} // verus!
