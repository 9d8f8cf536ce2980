//! The tokens of TPTP FOF input and how the input text splits into them.
//!
//! Layout (whitespace, `%` line comments and `/* … */` block comments)
//! separates tokens and is otherwise dropped.

use vstd::prelude::*;

verus! {

/// The kinds of TPTP tokens, with the text of the tokens that carry one.
#[derive(Debug, PartialEq, Eq)]
pub enum TokenKind {
    LParen,
    RParen,
    LBracket,
    RBracket,
    Comma,
    Colon,
    Dot,
    /// `&`
    And,
    /// `|`
    Or,
    /// `=>`
    Implies,
    /// `<=>`
    Iff,
    /// `~`
    Not,
    /// `!`
    ForAll,
    /// `?`
    Exists,
    /// A word starting with a lower-case letter or a backquote.
    LowerWord(String),
    /// A word starting with an upper-case letter: a variable.
    UpperWord(String),
    /// A single-quoted atom, quotes included.
    Quoted(String),
    /// A `$`-prefixed defined word.
    DefinedWord(String),
    /// A `$$`-prefixed system word.
    SystemWord(String),
    Integer(String),
    Rational(String),
    Real(String),
    /// A double-quoted distinct object, quotes included.
    Distinct(String),
}

/// A token and the character offset where it starts.
#[derive(Debug, PartialEq, Eq)]
pub struct Token {
    pub kind: TokenKind,
    pub start: usize,
}

/// The model of a token kind.
pub enum SKind {
    LParen,
    RParen,
    LBracket,
    RBracket,
    Comma,
    Colon,
    Dot,
    And,
    Or,
    Implies,
    Iff,
    Not,
    ForAll,
    Exists,
    LowerWord(Seq<char>),
    UpperWord(Seq<char>),
    Quoted(Seq<char>),
    DefinedWord(Seq<char>),
    SystemWord(Seq<char>),
    Integer(Seq<char>),
    Rational(Seq<char>),
    Real(Seq<char>),
    Distinct(Seq<char>),
}

/// The model of a token.
pub struct SToken {
    pub kind: SKind,
    pub start: nat,
}

impl View for TokenKind {
    type V = SKind;

    open spec fn view(&self) -> SKind {
        match self {
            TokenKind::LParen => SKind::LParen,
            TokenKind::RParen => SKind::RParen,
            TokenKind::LBracket => SKind::LBracket,
            TokenKind::RBracket => SKind::RBracket,
            TokenKind::Comma => SKind::Comma,
            TokenKind::Colon => SKind::Colon,
            TokenKind::Dot => SKind::Dot,
            TokenKind::And => SKind::And,
            TokenKind::Or => SKind::Or,
            TokenKind::Implies => SKind::Implies,
            TokenKind::Iff => SKind::Iff,
            TokenKind::Not => SKind::Not,
            TokenKind::ForAll => SKind::ForAll,
            TokenKind::Exists => SKind::Exists,
            TokenKind::LowerWord(s) => SKind::LowerWord(s@),
            TokenKind::UpperWord(s) => SKind::UpperWord(s@),
            TokenKind::Quoted(s) => SKind::Quoted(s@),
            TokenKind::DefinedWord(s) => SKind::DefinedWord(s@),
            TokenKind::SystemWord(s) => SKind::SystemWord(s@),
            TokenKind::Integer(s) => SKind::Integer(s@),
            TokenKind::Rational(s) => SKind::Rational(s@),
            TokenKind::Real(s) => SKind::Real(s@),
            TokenKind::Distinct(s) => SKind::Distinct(s@),
        }
    }
}

impl View for Token {
    type V = SToken;

    open spec fn view(&self) -> SToken {
        SToken { kind: self.kind@, start: self.start as nat }
    }
}

/// The models of a sequence of tokens.
pub open spec fn tokens_model(ts: Seq<Token>) -> Seq<SToken> {
    Seq::new(ts.len(), |i: int| ts[i]@)
}

/// Why the input could not be split into tokens.
#[derive(Debug, Clone, Copy, PartialEq, Eq, Structural)]
pub enum LexErrorKind {
    /// A character that starts no token, or an unsupported operator.
    UnexpectedCharacter,
    /// A quoted atom or distinct object without its closing quote.
    UnterminatedQuote,
    /// A block comment without its closing `*/`.
    UnterminatedComment,
    /// A number without digits where the format needs them.
    MalformedNumber,
}

pub open spec fn is_lower(c: char) -> bool {
    'a' <= c <= 'z'
}

pub open spec fn is_upper(c: char) -> bool {
    'A' <= c <= 'Z'
}

pub open spec fn is_digit(c: char) -> bool {
    '0' <= c <= '9'
}

/// Letters, digits and `_`: the characters that continue a word.
pub open spec fn is_word_char(c: char) -> bool {
    is_lower(c) || is_upper(c) || is_digit(c) || c == '_'
}

pub open spec fn is_space(c: char) -> bool {
    c == ' ' || c == '\t' || c == '\n' || c == '\r' || c == '\x0C'
}

/// Whether the character at `i` exists and is `c`.
pub open spec fn char_at(s: Seq<char>, i: nat, c: char) -> bool {
    i < s.len() && s[i as int] == c
}

/// Whether the character at `i` exists and is a digit.
pub open spec fn digit_at(s: Seq<char>, i: nat) -> bool {
    i < s.len() && is_digit(s[i as int])
}

/// The end of the run of word characters starting at `i`.
pub open spec fn word_end(s: Seq<char>, i: nat) -> nat
    decreases s.len() - i,
{
    if i < s.len() && is_word_char(s[i as int]) {
        word_end(s, i + 1)
    } else {
        i
    }
}

/// The end of the run of digits starting at `i`.
pub open spec fn digits_end(s: Seq<char>, i: nat) -> nat
    decreases s.len() - i,
{
    if i < s.len() && is_digit(s[i as int]) {
        digits_end(s, i + 1)
    } else {
        i
    }
}

/// The end of a quoted text whose opening quote `q` ends before `i`: the
/// position after the closing quote, with `\` escaping the next character.
pub open spec fn quoted_end(s: Seq<char>, i: nat, q: char) -> Option<nat>
    decreases s.len() - i,
{
    if i >= s.len() {
        None
    } else if s[i as int] == '\\' {
        if i + 1 < s.len() {
            quoted_end(s, i + 2, q)
        } else {
            None
        }
    } else if s[i as int] == q {
        Some(i + 1)
    } else {
        quoted_end(s, i + 1, q)
    }
}

/// The end of a line comment: after its newline, or the end of the input.
pub open spec fn line_end(s: Seq<char>, i: nat) -> nat
    decreases s.len() - i,
{
    if i >= s.len() {
        i
    } else if s[i as int] == '\n' {
        i + 1
    } else {
        line_end(s, i + 1)
    }
}

/// The end of a block comment whose `/*` ends before `i`: after its `*/`.
pub open spec fn block_end(s: Seq<char>, i: nat) -> Option<nat>
    decreases s.len() - i,
{
    if i + 1 >= s.len() {
        None
    } else if s[i as int] == '*' && s[(i + 1) as int] == '/' {
        Some(i + 2)
    } else {
        block_end(s, i + 1)
    }
}

/// The result of scanning at one position.
pub enum Scan {
    /// The input is exhausted.
    End,
    /// Layout ends at the given position.
    Layout(nat),
    /// A token of the given kind ends at the given position.
    Token(SKind, nat),
    /// No token can start here.
    Fail(LexErrorKind),
}

/// The number starting at `i` (an optional sign, then digits, then an
/// optional `/digits` or `.digits` and, for reals, an optional exponent).
pub open spec fn scan_number(s: Seq<char>, i: nat) -> Scan {
    let d = if char_at(s, i, '+') || char_at(s, i, '-') { i + 1 } else { i };
    let e = digits_end(s, d);
    let text = |end: nat| s.subrange(i as int, end as int);
    if char_at(s, e, '/') && digit_at(s, e + 1) {
        let f = digits_end(s, e + 1);
        Scan::Token(SKind::Rational(text(f)), f)
    } else if char_at(s, e, '.') && digit_at(s, e + 1) {
        let f = digits_end(s, e + 1);
        if char_at(s, f, 'e') || char_at(s, f, 'E') {
            scan_exponent(s, i, f)
        } else {
            Scan::Token(SKind::Real(text(f)), f)
        }
    } else if char_at(s, e, 'e') || char_at(s, e, 'E') {
        scan_exponent(s, i, e)
    } else {
        Scan::Token(SKind::Integer(text(e)), e)
    }
}

/// The exponent of a real number whose `e` or `E` is at `f`.
pub open spec fn scan_exponent(s: Seq<char>, i: nat, f: nat) -> Scan {
    let g = if char_at(s, f + 1, '+') || char_at(s, f + 1, '-') { f + 2 } else { f + 1 };
    if digit_at(s, g) {
        let h = digits_end(s, g);
        Scan::Token(SKind::Real(s.subrange(i as int, h as int)), h)
    } else {
        Scan::Fail(LexErrorKind::MalformedNumber)
    }
}

/// What starts at position `i`.
pub open spec fn scan(s: Seq<char>, i: nat) -> Scan {
    if i >= s.len() {
        Scan::End
    } else {
        let c = s[i as int];
        if is_space(c) {
            Scan::Layout(i + 1)
        } else if c == '%' {
            Scan::Layout(line_end(s, i + 1))
        } else if c == '/' && char_at(s, i + 1, '*') {
            match block_end(s, i + 2) {
                Some(e) => Scan::Layout(e),
                None => Scan::Fail(LexErrorKind::UnterminatedComment),
            }
        } else if c == '(' {
            Scan::Token(SKind::LParen, i + 1)
        } else if c == ')' {
            Scan::Token(SKind::RParen, i + 1)
        } else if c == '[' {
            Scan::Token(SKind::LBracket, i + 1)
        } else if c == ']' {
            Scan::Token(SKind::RBracket, i + 1)
        } else if c == ',' {
            Scan::Token(SKind::Comma, i + 1)
        } else if c == ':' {
            Scan::Token(SKind::Colon, i + 1)
        } else if c == '.' {
            Scan::Token(SKind::Dot, i + 1)
        } else if c == '&' {
            Scan::Token(SKind::And, i + 1)
        } else if c == '|' {
            Scan::Token(SKind::Or, i + 1)
        } else if c == '~' {
            Scan::Token(SKind::Not, i + 1)
        } else if c == '!' {
            Scan::Token(SKind::ForAll, i + 1)
        } else if c == '?' {
            Scan::Token(SKind::Exists, i + 1)
        } else if c == '=' && char_at(s, i + 1, '>') {
            Scan::Token(SKind::Implies, i + 2)
        } else if c == '<' && char_at(s, i + 1, '=') && char_at(s, i + 2, '>') {
            Scan::Token(SKind::Iff, i + 3)
        } else if is_lower(c) || c == '`' {
            let e = word_end(s, i + 1);
            Scan::Token(SKind::LowerWord(s.subrange(i as int, e as int)), e)
        } else if is_upper(c) {
            let e = word_end(s, i + 1);
            Scan::Token(SKind::UpperWord(s.subrange(i as int, e as int)), e)
        } else if c == '$' && char_at(s, i + 1, '$') {
            let e = word_end(s, i + 2);
            if e > i + 2 {
                Scan::Token(SKind::SystemWord(s.subrange(i as int, e as int)), e)
            } else {
                Scan::Fail(LexErrorKind::UnexpectedCharacter)
            }
        } else if c == '$' {
            let e = word_end(s, i + 1);
            if e > i + 1 {
                Scan::Token(SKind::DefinedWord(s.subrange(i as int, e as int)), e)
            } else {
                Scan::Fail(LexErrorKind::UnexpectedCharacter)
            }
        } else if c == '\'' || c == '"' {
            match quoted_end(s, i + 1, c) {
                Some(e) => if c == '\'' {
                    Scan::Token(SKind::Quoted(s.subrange(i as int, e as int)), e)
                } else {
                    Scan::Token(SKind::Distinct(s.subrange(i as int, e as int)), e)
                },
                None => Scan::Fail(LexErrorKind::UnterminatedQuote),
            }
        } else if is_digit(c) || ((c == '+' || c == '-') && digit_at(s, i + 1)) {
            scan_number(s, i)
        } else {
            Scan::Fail(LexErrorKind::UnexpectedCharacter)
        }
    }
}

/// Whether a scan moves past `i` and stays within the input.
pub open spec fn advances(r: Scan, i: nat, n: nat) -> bool {
    match r {
        Scan::Layout(e) => i < e <= n,
        Scan::Token(_, e) => i < e <= n,
        _ => true,
    }
}

/// The tokens of the input from position `i` on, after the tokens `acc`;
/// on failure, the position where no token could start and why.
pub open spec fn lex_from(s: Seq<char>, i: nat, acc: Seq<SToken>) -> Result<Seq<SToken>, (nat, LexErrorKind)>
    decreases s.len() - i,
{
    if i > s.len() {
        Ok(acc)
    } else {
        match scan(s, i) {
            Scan::End => Ok(acc),
            Scan::Layout(e) => if i < e <= s.len() {
                lex_from(s, e, acc)
            } else {
                Ok(acc)
            },
            Scan::Token(k, e) => if i < e <= s.len() {
                lex_from(s, e, acc.push(SToken { kind: k, start: i }))
            } else {
                Ok(acc)
            },
            Scan::Fail(why) => Err((i, why)),
        }
    }
}

/// The tokens of a whole input.
pub open spec fn lex(s: Seq<char>) -> Result<Seq<SToken>, (nat, LexErrorKind)> {
    lex_from(s, 0, Seq::empty())
}

/// Every scan at a position inside the input moves past it.
pub proof fn lemma_scan_advances(s: Seq<char>, i: nat)
    ensures
        advances(scan(s, i), i, s.len()),
{
    lemma_word_end_ge(s, i + 1);
    lemma_word_end_ge(s, i + 2);
    lemma_line_end_ge(s, i + 1);
    lemma_block_end_ge(s, i + 2);
    lemma_quoted_end_ge(s, i + 1, '\'');
    lemma_quoted_end_ge(s, i + 1, '"');
    let d = if char_at(s, i, '+') || char_at(s, i, '-') { i + 1 } else { i };
    lemma_digits_end_ge(s, d);
    let e = digits_end(s, d);
    lemma_digits_end_ge(s, e + 1);
    let f = digits_end(s, e + 1);
    let g1 = if char_at(s, e + 1, '+') || char_at(s, e + 1, '-') { e + 2 } else { e + 1 };
    let g2 = if char_at(s, f + 1, '+') || char_at(s, f + 1, '-') { f + 2 } else { f + 1 };
    lemma_digits_end_ge(s, g1);
    lemma_digits_end_ge(s, g2);
    if i < s.len() && (is_digit(s[i as int]) || ((s[i as int] == '+' || s[i as int] == '-') && digit_at(s, i + 1))) {
        lemma_digits_end_ge(s, i + 1);
        lemma_digits_end_ge(s, i + 2);
        if is_digit(s[i as int]) {
            assert(d == i);
            assert(digits_end(s, i) == digits_end(s, i + 1));
        } else {
            assert(d == i + 1);
            assert(digits_end(s, i + 1) == digits_end(s, i + 2));
        }
    }
}

pub proof fn lemma_word_end_ge(s: Seq<char>, i: nat)
    ensures
        word_end(s, i) >= i,
        word_end(s, i) <= s.len() || word_end(s, i) == i,
    decreases s.len() - i,
{
    if i < s.len() && is_word_char(s[i as int]) {
        lemma_word_end_ge(s, i + 1);
    }
}

pub proof fn lemma_digits_end_ge(s: Seq<char>, i: nat)
    ensures
        digits_end(s, i) >= i,
        digits_end(s, i) <= s.len() || digits_end(s, i) == i,
    decreases s.len() - i,
{
    if i < s.len() && is_digit(s[i as int]) {
        lemma_digits_end_ge(s, i + 1);
    }
}

pub proof fn lemma_line_end_ge(s: Seq<char>, i: nat)
    ensures
        line_end(s, i) >= i,
        line_end(s, i) <= s.len() || line_end(s, i) == i,
    decreases s.len() - i,
{
    if i < s.len() && s[i as int] != '\n' {
        lemma_line_end_ge(s, i + 1);
    }
}

pub proof fn lemma_block_end_ge(s: Seq<char>, i: nat)
    ensures
        block_end(s, i) matches Some(e) ==> e > i && e <= s.len(),
    decreases s.len() - i,
{
    if i + 1 < s.len() && !(s[i as int] == '*' && s[(i + 1) as int] == '/') {
        lemma_block_end_ge(s, i + 1);
    }
}

pub proof fn lemma_quoted_end_ge(s: Seq<char>, i: nat, q: char)
    ensures
        quoted_end(s, i, q) matches Some(e) ==> e > i && e <= s.len(),
    decreases s.len() - i,
{
    if i < s.len() {
        if s[i as int] == '\\' {
            if i + 1 < s.len() {
                lemma_quoted_end_ge(s, i + 2, q);
            }
        } else if s[i as int] != q {
            lemma_quoted_end_ge(s, i + 1, q);
        }
    }
}

/// Why tokenizing failed, and where.
#[derive(Debug, Clone, Copy, PartialEq, Eq, Structural)]
pub struct LexError {
    pub offset: usize,
    pub kind: LexErrorKind,
}

fn is_lower_char(c: char) -> (r: bool)
    ensures
        r == is_lower(c),
{
    'a' <= c && c <= 'z'
}

fn is_upper_char(c: char) -> (r: bool)
    ensures
        r == is_upper(c),
{
    'A' <= c && c <= 'Z'
}

fn is_digit_char(c: char) -> (r: bool)
    ensures
        r == is_digit(c),
{
    '0' <= c && c <= '9'
}

fn is_word_character(c: char) -> (r: bool)
    ensures
        r == is_word_char(c),
{
    is_lower_char(c) || is_upper_char(c) || is_digit_char(c) || c == '_'
}

fn is_space_char(c: char) -> (r: bool)
    ensures
        r == is_space(c),
{
    c == ' ' || c == '\t' || c == '\n' || c == '\r' || c == '\x0C'
}

fn has_char(s: &Vec<char>, i: usize, c: char) -> (r: bool)
    ensures
        r == char_at(s@, i as nat, c),
{
    i < s.len() && s[i] == c
}

fn has_digit(s: &Vec<char>, i: usize) -> (r: bool)
    ensures
        r == digit_at(s@, i as nat),
{
    i < s.len() && is_digit_char(s[i])
}

fn end_of_word(s: &Vec<char>, i: usize) -> (r: usize)
    requires
        i <= s.len(),
    ensures
        r == word_end(s@, i as nat),
        i <= r <= s.len(),
{
    let mut j = i;
    while j < s.len() && is_word_character(s[j])
        invariant
            i <= j <= s.len(),
            word_end(s@, i as nat) == word_end(s@, j as nat),
        decreases s.len() - j,
    {
        j += 1;
    }
    j
}

fn end_of_digits(s: &Vec<char>, i: usize) -> (r: usize)
    requires
        i <= s.len(),
    ensures
        r == digits_end(s@, i as nat),
        i <= r <= s.len(),
{
    let mut j = i;
    while j < s.len() && is_digit_char(s[j])
        invariant
            i <= j <= s.len(),
            digits_end(s@, i as nat) == digits_end(s@, j as nat),
        decreases s.len() - j,
    {
        j += 1;
    }
    j
}

fn end_of_quoted(s: &Vec<char>, i: usize, q: char) -> (r: Option<usize>)
    requires
        i <= s.len(),
    ensures
        r == match quoted_end(s@, i as nat, q) {
            Some(e) => Some(e as usize),
            None => None::<usize>,
        },
        r matches Some(e) ==> e <= s.len(),
{
    proof {
        lemma_quoted_end_ge(s@, i as nat, q);
    }
    let mut j = i;
    while j < s.len()
        invariant
            i <= j <= s.len() + 1,
            quoted_end(s@, i as nat, q) == quoted_end(s@, j as nat, q),
        decreases s.len() + 1 - j,
    {
        if s[j] == '\\' {
            if j + 1 < s.len() {
                j += 2;
            } else {
                return None;
            }
        } else if s[j] == q {
            return Some(j + 1);
        } else {
            j += 1;
        }
    }
    None
}

fn end_of_line(s: &Vec<char>, i: usize) -> (r: usize)
    requires
        i <= s.len(),
    ensures
        r == line_end(s@, i as nat),
        r <= s.len(),
{
    let mut j = i;
    while j < s.len()
        invariant
            i <= j <= s.len(),
            line_end(s@, i as nat) == line_end(s@, j as nat),
        decreases s.len() - j,
    {
        if s[j] == '\n' {
            return j + 1;
        }
        j += 1;
    }
    j
}

fn end_of_block(s: &Vec<char>, i: usize) -> (r: Option<usize>)
    requires
        i <= s.len(),
    ensures
        r == match block_end(s@, i as nat) {
            Some(e) => Some(e as usize),
            None => None::<usize>,
        },
{
    proof {
        lemma_block_end_ge(s@, i as nat);
    }
    let mut j = i;
    while s.len() > 0 && j < s.len() - 1
        invariant
            i <= j <= s.len(),
            block_end(s@, i as nat) == block_end(s@, j as nat),
        decreases s.len() - j,
    {
        if s[j] == '*' && s[j + 1] == '/' {
            return Some(j + 2);
        }
        j += 1;
    }
    None
}

/// The characters `from..to` as a string.
fn text_of(s: &Vec<char>, from: usize, to: usize) -> (r: String)
    requires
        from <= to <= s.len(),
    ensures
        r@ == s@.subrange(from as int, to as int),
{
    let mut out = String::new();
    let mut j = from;
    while j < to
        invariant
            from <= j <= to,
            to <= s.len(),
            out@ == s@.subrange(from as int, j as int),
        decreases to - j,
    {
        out.push(s[j]);
        assert(out@ =~= s@.subrange(from as int, j + 1));
        j += 1;
    }
    out
}

/// The exec form of a scan at one position.
enum Step {
    End,
    Layout(usize),
    Token(TokenKind, usize),
    Fail(LexErrorKind),
}

/// The model of a scan step.
spec fn step_model(r: Step) -> Scan {
    match r {
        Step::End => Scan::End,
        Step::Layout(e) => Scan::Layout(e as nat),
        Step::Token(k, e) => Scan::Token(k@, e as nat),
        Step::Fail(why) => Scan::Fail(why),
    }
}

/// The positions of a step lie within the input.
spec fn step_bounded(r: Step, n: nat) -> bool {
    match r {
        Step::Layout(e) => e <= n,
        Step::Token(_, e) => e <= n,
        _ => true,
    }
}

fn number_exponent(s: &Vec<char>, i: usize, f: usize) -> (r: Step)
    requires
        i <= f < s.len(),
    ensures
        step_model(r) == scan_exponent(s@, i as nat, f as nat),
        step_bounded(r, s.len() as nat),
{
    let g = if has_char(s, f + 1, '+') || has_char(s, f + 1, '-') {
        f + 2
    } else {
        f + 1
    };
    if has_digit(s, g) {
        let h = end_of_digits(s, g);
        Step::Token(TokenKind::Real(text_of(s, i, h)), h)
    } else {
        Step::Fail(LexErrorKind::MalformedNumber)
    }
}

fn number_at(s: &Vec<char>, i: usize) -> (r: Step)
    requires
        i < s.len(),
    ensures
        step_model(r) == scan_number(s@, i as nat),
        step_bounded(r, s.len() as nat),
{
    let d = if has_char(s, i, '+') || has_char(s, i, '-') {
        i + 1
    } else {
        i
    };
    let e = end_of_digits(s, d);
    if has_char(s, e, '/') && has_digit(s, e + 1) {
        let f = end_of_digits(s, e + 1);
        Step::Token(TokenKind::Rational(text_of(s, i, f)), f)
    } else if has_char(s, e, '.') && has_digit(s, e + 1) {
        let f = end_of_digits(s, e + 1);
        if has_char(s, f, 'e') || has_char(s, f, 'E') {
            number_exponent(s, i, f)
        } else {
            Step::Token(TokenKind::Real(text_of(s, i, f)), f)
        }
    } else if has_char(s, e, 'e') || has_char(s, e, 'E') {
        number_exponent(s, i, e)
    } else {
        Step::Token(TokenKind::Integer(text_of(s, i, e)), e)
    }
}

fn scan_at(s: &Vec<char>, i: usize) -> (r: Step)
    requires
        i <= s.len(),
    ensures
        step_model(r) == scan(s@, i as nat),
        step_bounded(r, s.len() as nat),
{
    if i >= s.len() {
        return Step::End;
    }
    let c = s[i];
    if is_space_char(c) {
        Step::Layout(i + 1)
    } else if c == '%' {
        Step::Layout(end_of_line(s, i + 1))
    } else if c == '/' && has_char(s, i + 1, '*') {
        match end_of_block(s, i + 2) {
            Some(e) => {
                proof {
                    lemma_block_end_ge(s@, (i + 2) as nat);
                }
                Step::Layout(e)
            },
            None => Step::Fail(LexErrorKind::UnterminatedComment),
        }
    } else if c == '(' {
        Step::Token(TokenKind::LParen, i + 1)
    } else if c == ')' {
        Step::Token(TokenKind::RParen, i + 1)
    } else if c == '[' {
        Step::Token(TokenKind::LBracket, i + 1)
    } else if c == ']' {
        Step::Token(TokenKind::RBracket, i + 1)
    } else if c == ',' {
        Step::Token(TokenKind::Comma, i + 1)
    } else if c == ':' {
        Step::Token(TokenKind::Colon, i + 1)
    } else if c == '.' {
        Step::Token(TokenKind::Dot, i + 1)
    } else if c == '&' {
        Step::Token(TokenKind::And, i + 1)
    } else if c == '|' {
        Step::Token(TokenKind::Or, i + 1)
    } else if c == '~' {
        Step::Token(TokenKind::Not, i + 1)
    } else if c == '!' {
        Step::Token(TokenKind::ForAll, i + 1)
    } else if c == '?' {
        Step::Token(TokenKind::Exists, i + 1)
    } else if c == '=' && has_char(s, i + 1, '>') {
        Step::Token(TokenKind::Implies, i + 2)
    } else if c == '<' && has_char(s, i + 1, '=') && has_char(s, i + 2, '>') {
        Step::Token(TokenKind::Iff, i + 3)
    } else if is_lower_char(c) || c == '`' {
        let e = end_of_word(s, i + 1);
        Step::Token(TokenKind::LowerWord(text_of(s, i, e)), e)
    } else if is_upper_char(c) {
        let e = end_of_word(s, i + 1);
        Step::Token(TokenKind::UpperWord(text_of(s, i, e)), e)
    } else if c == '$' && has_char(s, i + 1, '$') {
        let e = end_of_word(s, i + 2);
        if e > i + 2 {
            Step::Token(TokenKind::SystemWord(text_of(s, i, e)), e)
        } else {
            Step::Fail(LexErrorKind::UnexpectedCharacter)
        }
    } else if c == '$' {
        let e = end_of_word(s, i + 1);
        if e > i + 1 {
            Step::Token(TokenKind::DefinedWord(text_of(s, i, e)), e)
        } else {
            Step::Fail(LexErrorKind::UnexpectedCharacter)
        }
    } else if c == '\'' || c == '"' {
        match end_of_quoted(s, i + 1, c) {
            Some(e) => {
                proof {
                    lemma_quoted_end_ge(s@, (i + 1) as nat, c);
                }
                if c == '\'' {
                    Step::Token(TokenKind::Quoted(text_of(s, i, e)), e)
                } else {
                    Step::Token(TokenKind::Distinct(text_of(s, i, e)), e)
                }
            },
            None => Step::Fail(LexErrorKind::UnterminatedQuote),
        }
    } else if is_digit_char(c) || ((c == '+' || c == '-') && has_digit(s, i + 1)) {
        number_at(s, i)
    } else {
        Step::Fail(LexErrorKind::UnexpectedCharacter)
    }
}

/// Splits input characters into tokens, dropping layout.
pub fn tokenize(s: &Vec<char>) -> (r: Result<Vec<Token>, LexError>)
    ensures
        match r {
            Ok(ts) => lex(s@) == Ok::<Seq<SToken>, (nat, LexErrorKind)>(tokens_model(ts@)),
            Err(e) => lex(s@) == Err::<Seq<SToken>, (nat, LexErrorKind)>((e.offset as nat, e.kind)),
        },
{
    let mut tokens: Vec<Token> = Vec::new();
    let mut i: usize = 0;
    assert(tokens_model(tokens@) =~= Seq::<SToken>::empty());
    while i < s.len()
        invariant
            i <= s.len(),
            lex(s@) == lex_from(s@, i as nat, tokens_model(tokens@)),
        decreases s.len() - i,
    {
        proof {
            lemma_scan_advances(s@, i as nat);
        }
        let ghost acc = tokens_model(tokens@);
        match scan_at(s, i) {
            Step::End => {
                return Ok(tokens);
            },
            Step::Layout(e) => {
                i = e;
            },
            Step::Token(kind, e) => {
                tokens.push(Token { kind, start: i });
                proof {
                    assert(tokens_model(tokens@) =~= acc.push(tokens@.last()@));
                }
                i = e;
            },
            Step::Fail(why) => {
                return Err(LexError { offset: i, kind: why });
            },
        }
    }
    proof {
        assert(lex_from(s@, i as nat, tokens_model(tokens@)) == Ok::<Seq<SToken>, (nat, LexErrorKind)>(tokens_model(tokens@)));
    }
    Ok(tokens)
}

} // verus!
