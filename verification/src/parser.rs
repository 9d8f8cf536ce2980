//! Parsing of TPTP first-order (FOF) problems.

pub mod grammar;
pub mod lexer;
pub mod scope;

use vstd::prelude::*;

use crate::ast::formula::Formula;
use crate::ast::model::{formula_model, SFormula};
use crate::parser::grammar::{formula_at, is_punct, parse_formula, punct_is, Parsed, Punct};
use crate::parser::lexer::{lex, tokenize, tokens_model, LexErrorKind, SKind, SToken, Token, TokenKind};
use crate::text::{chars_of, dec, push_str, usize_to_decimal};

verus! {

/// One annotated formula `fof(name, role, formula).`.
#[derive(Debug, Clone, PartialEq, Eq)]
pub struct FormulaRecord {
    pub name: String,
    pub role: String,
    pub formula: Formula,
}

/// An `include('path').` directive.
#[derive(Debug, Clone, PartialEq, Eq)]
pub struct IncludeDirective {
    pub path: String,
}

/// The statements of a problem sorted by use: axioms and hypotheses are
/// premises, the (last) conjecture is the goal.
#[derive(Debug, Default, PartialEq, Eq)]
pub struct ParsedProblem {
    pub premises: Vec<FormulaRecord>,
    pub conjecture: Option<FormulaRecord>,
    pub includes: Vec<IncludeDirective>,
}

/// One statement of a TPTP input.
#[derive(Debug, Clone, PartialEq, Eq)]
pub enum TptpInput {
    Formula(FormulaRecord),
    Include(IncludeDirective),
}

/// The model of an annotated formula.
pub struct SRecord {
    pub name: Seq<char>,
    pub role: Seq<char>,
    pub formula: SFormula,
}

/// The model of a statement.
pub enum SStatement {
    Formula(SRecord),
    Include(Seq<char>),
}

/// The model of a sorted problem.
pub struct SProblem {
    pub premises: Seq<SRecord>,
    pub conjecture: Option<SRecord>,
    pub includes: Seq<Seq<char>>,
}

impl View for FormulaRecord {
    type V = SRecord;

    open spec fn view(&self) -> SRecord {
        SRecord { name: self.name@, role: self.role@, formula: self.formula@ }
    }
}

impl View for TptpInput {
    type V = SStatement;

    open spec fn view(&self) -> SStatement {
        match self {
            TptpInput::Formula(r) => SStatement::Formula(r@),
            TptpInput::Include(d) => SStatement::Include(d.path@),
        }
    }
}

/// The models of a sequence of records.
pub open spec fn records_model(rs: Seq<FormulaRecord>) -> Seq<SRecord> {
    Seq::new(rs.len(), |i: int| rs[i]@)
}

/// The paths of a sequence of include directives.
pub open spec fn includes_model(ds: Seq<IncludeDirective>) -> Seq<Seq<char>> {
    Seq::new(ds.len(), |i: int| ds[i].path@)
}

impl View for ParsedProblem {
    type V = SProblem;

    open spec fn view(&self) -> SProblem {
        SProblem {
            premises: records_model(self.premises@),
            conjecture: match &self.conjecture {
                Some(r) => Some(r@),
                None => None,
            },
            includes: includes_model(self.includes@),
        }
    }
}

/// The models of a sequence of statements.
pub open spec fn statements_model(ss: Seq<TptpInput>) -> Seq<SStatement> {
    Seq::new(ss.len(), |i: int| ss[i]@)
}

/// The formulas of a sequence of records.
pub open spec fn record_formulas(rs: Seq<FormulaRecord>) -> Seq<SFormula> {
    Seq::new(rs.len(), |i: int| formula_model(rs[i].formula))
}

/// Why parsing failed.
#[derive(Debug, Clone, Copy, PartialEq, Eq, Structural)]
pub enum ParseErrorKind {
    /// The text does not split into tokens.
    Lex(LexErrorKind),
    /// A token that the grammar does not allow where it stands.
    UnexpectedToken,
    /// The input ends inside a statement.
    UnexpectedEnd,
}

/// A parse failure and the character offset where it was found.
#[derive(Debug, Clone, Copy, PartialEq, Eq, Structural)]
pub struct ParseError {
    pub offset: usize,
    pub kind: ParseErrorKind,
}

/// The name of an annotated formula: a word, a quoted atom or an integer.
pub open spec fn name_of(k: SKind) -> Option<Seq<char>> {
    match k {
        SKind::LowerWord(w) => Some(w),
        SKind::Quoted(w) => Some(w),
        SKind::Integer(w) => Some(w),
        _ => None,
    }
}

/// Whether the token at `i` is the word `w`.
pub open spec fn is_word(ts: Seq<SToken>, i: nat, w: Seq<char>) -> bool {
    i < ts.len() && ts[i as int].kind == SKind::LowerWord(w)
}

/// `p` without its leading single quotes.
pub open spec fn strip_leading_quotes(p: Seq<char>) -> Seq<char>
    decreases p.len(),
{
    if p.len() > 0 && p[0] == '\'' {
        strip_leading_quotes(p.drop_first())
    } else {
        p
    }
}

/// `p` without its trailing single quotes.
pub open spec fn strip_trailing_quotes(p: Seq<char>) -> Seq<char>
    decreases p.len(),
{
    if p.len() > 0 && p.last() == '\'' {
        strip_trailing_quotes(p.drop_last())
    } else {
        p
    }
}

/// The path of a quoted include: the atom without the quotes around it.
pub open spec fn include_path(p: Seq<char>) -> Seq<char> {
    strip_trailing_quotes(strip_leading_quotes(p))
}

pub open spec fn fof_word() -> Seq<char> {
    seq!['f', 'o', 'f']
}

pub open spec fn include_word() -> Seq<char> {
    seq!['i', 'n', 'c', 'l', 'u', 'd', 'e']
}

/// The statement at token `i`.
pub open spec fn parse_statement(ts: Seq<SToken>, i: nat) -> Parsed<SStatement> {
    if is_word(ts, i, fof_word()) {
        if !is_punct(ts, i + 1, Punct::LParen) {
            Err(i + 1)
        } else if !(i + 2 < ts.len() && name_of(ts[(i + 2) as int].kind) is Some) {
            Err(i + 2)
        } else if !is_punct(ts, i + 3, Punct::Comma) {
            Err(i + 3)
        } else if !(i + 4 < ts.len() && ts[(i + 4) as int].kind is LowerWord) {
            Err(i + 4)
        } else if !is_punct(ts, i + 5, Punct::Comma) {
            Err(i + 5)
        } else {
            match parse_formula(ts, i + 6) {
                Ok((f, j)) => if !is_punct(ts, j, Punct::RParen) {
                    Err(j)
                } else if !is_punct(ts, j + 1, Punct::Dot) {
                    Err(j + 1)
                } else {
                    Ok(
                        (
                            SStatement::Formula(
                                SRecord { name: name_of(ts[(i + 2) as int].kind)->0, role: ts[(i + 4) as int].kind->LowerWord_0, formula: f },
                            ),
                            j + 2,
                        ),
                    )
                },
                Err(e) => Err(e),
            }
        }
    } else if is_word(ts, i, include_word()) {
        if !is_punct(ts, i + 1, Punct::LParen) {
            Err(i + 1)
        } else if !(i + 2 < ts.len() && ts[(i + 2) as int].kind is Quoted) {
            Err(i + 2)
        } else if !is_punct(ts, i + 3, Punct::RParen) {
            Err(i + 3)
        } else if !is_punct(ts, i + 4, Punct::Dot) {
            Err(i + 4)
        } else {
            Ok((SStatement::Include(include_path(ts[(i + 2) as int].kind->Quoted_0)), i + 5))
        }
    } else {
        Err(i)
    }
}

/// The statements from token `i` on, after the statements `acc`; on failure,
/// the position of the offending token.
pub open spec fn parse_statements(ts: Seq<SToken>, i: nat, acc: Seq<SStatement>) -> Result<Seq<SStatement>, nat>
    decreases ts.len() - i,
{
    if i >= ts.len() {
        Ok(acc)
    } else {
        match parse_statement(ts, i) {
            Ok((st, j)) => if i < j <= ts.len() {
                parse_statements(ts, j, acc.push(st))
            } else {
                Err(i)
            },
            Err(e) => Err(e),
        }
    }
}

/// The statements of a TPTP input, or where and why parsing fails: a token
/// error at the token's first character, an early end at the end of the
/// input.
pub open spec fn tptp_statements(s: Seq<char>) -> Result<Seq<SStatement>, (nat, ParseErrorKind)> {
    match lex(s) {
        Err((offset, why)) => Err((offset, ParseErrorKind::Lex(why))),
        Ok(ts) => match parse_statements(ts, 0, Seq::empty()) {
            Ok(stmts) => Ok(stmts),
            Err(k) => if k < ts.len() {
                Err((ts[k as int].start, ParseErrorKind::UnexpectedToken))
            } else {
                Err((s.len(), ParseErrorKind::UnexpectedEnd))
            },
        },
    }
}

pub open spec fn conjecture_role() -> Seq<char> {
    seq!['c', 'o', 'n', 'j', 'e', 'c', 't', 'u', 'r', 'e']
}

pub open spec fn axiom_role() -> Seq<char> {
    seq!['a', 'x', 'i', 'o', 'm']
}

pub open spec fn hypothesis_role() -> Seq<char> {
    seq!['h', 'y', 'p', 'o', 't', 'h', 'e', 's', 'i', 's']
}

/// The first `n` statements sorted by use: a conjecture replaces any earlier
/// one, axioms and hypotheses are premises in order, formulas of other roles
/// are dropped, and includes are kept in order.
pub open spec fn sorted_problem(stmts: Seq<SStatement>, n: nat) -> SProblem
    decreases n,
{
    if n == 0 || n > stmts.len() {
        SProblem { premises: Seq::empty(), conjecture: None, includes: Seq::empty() }
    } else {
        let p = sorted_problem(stmts, (n - 1) as nat);
        match stmts[n - 1] {
            SStatement::Formula(r) => if r.role == conjecture_role() {
                SProblem { conjecture: Some(r), ..p }
            } else if r.role == axiom_role() || r.role == hypothesis_role() {
                SProblem { premises: p.premises.push(r), ..p }
            } else {
                p
            },
            SStatement::Include(path) => SProblem { includes: p.includes.push(path), ..p },
        }
    }
}

/// The problem of a TPTP input, or where and why parsing fails.
pub open spec fn problem_of(s: Seq<char>) -> Result<SProblem, (nat, ParseErrorKind)> {
    match tptp_statements(s) {
        Ok(stmts) => Ok(sorted_problem(stmts, stmts.len())),
        Err(e) => Err(e),
    }
}

/// The description of a kind of parse failure.
pub open spec fn kind_text(k: ParseErrorKind) -> Seq<char> {
    match k {
        ParseErrorKind::Lex(LexErrorKind::UnexpectedCharacter) => "unexpected character"@,
        ParseErrorKind::Lex(LexErrorKind::UnterminatedQuote) => "unterminated quoted text"@,
        ParseErrorKind::Lex(LexErrorKind::UnterminatedComment) => "unterminated comment"@,
        ParseErrorKind::Lex(LexErrorKind::MalformedNumber) => "malformed number"@,
        ParseErrorKind::UnexpectedToken => "unexpected token"@,
        ParseErrorKind::UnexpectedEnd => "unexpected end of input"@,
    }
}

/// The message of a parse failure: `parse error at character N: what`.
pub open spec fn error_message(e: ParseError) -> Seq<char> {
    "parse error at character "@ + dec(e.offset as nat) + ": "@ + kind_text(e.kind)
}

impl ParseError {
    fn kind_description(kind: ParseErrorKind) -> (r: &'static str)
        ensures
            r@ == kind_text(kind),
    {
        match kind {
            ParseErrorKind::Lex(LexErrorKind::UnexpectedCharacter) => "unexpected character",
            ParseErrorKind::Lex(LexErrorKind::UnterminatedQuote) => "unterminated quoted text",
            ParseErrorKind::Lex(LexErrorKind::UnterminatedComment) => "unterminated comment",
            ParseErrorKind::Lex(LexErrorKind::MalformedNumber) => "malformed number",
            ParseErrorKind::UnexpectedToken => "unexpected token",
            ParseErrorKind::UnexpectedEnd => "unexpected end of input",
        }
    }

    /// The message of the failure: `parse error at character N: what`.
    pub fn to_string(&self) -> (r: String)
        ensures
            r@ == error_message(*self),
    {
        let mut s = String::new();
        push_str(&mut s, "parse error at character ");
        let digits = usize_to_decimal(self.offset);
        push_str(&mut s, digits.as_str());
        push_str(&mut s, ": ");
        push_str(&mut s, Self::kind_description(self.kind));
        s
    }
}

fn name_at(ts: &Vec<Token>, i: usize) -> (r: Option<String>)
    requires
        i < ts.len(),
    ensures
        match r {
            Some(n) => name_of(tokens_model(ts@)[i as int].kind) == Some(n@),
            None => name_of(tokens_model(ts@)[i as int].kind) is None,
        },
{
    match &ts[i].kind {
        TokenKind::LowerWord(w) => Some(w.clone()),
        TokenKind::Quoted(w) => Some(w.clone()),
        TokenKind::Integer(w) => Some(w.clone()),
        _ => None,
    }
}

fn word_at(ts: &Vec<Token>, i: usize) -> (r: Option<String>)
    requires
        i < ts.len(),
    ensures
        match r {
            Some(w) => tokens_model(ts@)[i as int].kind == SKind::LowerWord(w@),
            None => !(tokens_model(ts@)[i as int].kind is LowerWord),
        },
{
    match &ts[i].kind {
        TokenKind::LowerWord(w) => Some(w.clone()),
        _ => None,
    }
}

/// The path of a quoted include: the atom without the quotes around it.
fn trim_quotes(p: &String) -> (r: String)
    ensures
        r@ == include_path(p@),
{
    let cs = chars_of(p.as_str());
    let mut from: usize = 0;
    assert(cs@.skip(0) =~= cs@);
    while from < cs.len() && cs[from] == '\''
        invariant
            from <= cs.len(),
            strip_leading_quotes(cs@) == strip_leading_quotes(cs@.skip(from as int)),
        decreases cs.len() - from,
    {
        assert(cs@.skip(from as int).drop_first() =~= cs@.skip(from + 1));
        from += 1;
    }
    let ghost lead = cs@.skip(from as int);
    assert(strip_leading_quotes(lead) == lead);
    let mut to: usize = cs.len();
    while to > from && cs[to - 1] == '\''
        invariant
            from <= to <= cs.len(),
            lead == cs@.skip(from as int),
            strip_trailing_quotes(lead) == strip_trailing_quotes(cs@.subrange(from as int, to as int)),
        decreases to,
    {
        assert(cs@.subrange(from as int, to as int).drop_last() =~= cs@.subrange(from as int, to - 1));
        to -= 1;
    }
    assert(lead =~= cs@.subrange(from as int, cs.len() as int));
    let mut out = String::new();
    let mut k = from;
    while k < to
        invariant
            from <= k <= to,
            to <= cs.len(),
            out@ == cs@.subrange(from as int, k as int),
        decreases to - k,
    {
        out.push(cs[k]);
        assert(out@ =~= cs@.subrange(from as int, k + 1));
        k += 1;
    }
    out
}

fn is_word_token(ts: &Vec<Token>, i: usize, w: &str) -> (r: bool)
    ensures
        r == is_word(tokens_model(ts@), i as nat, w@),
{
    if i >= ts.len() {
        return false;
    }
    match &ts[i].kind {
        TokenKind::LowerWord(v) => {
            let expected = w.to_owned();
            *v == expected
        },
        _ => false,
    }
}

/// Parses the statement at token `i`.
fn statement_at(ts: &Vec<Token>, i: usize) -> (r: Result<(TptpInput, usize), usize>)
    ensures
        match r {
            Ok((st, j)) => parse_statement(tokens_model(ts@), i as nat) == Ok::<(SStatement, nat), nat>((st@, j as nat)),
            Err(e) => parse_statement(tokens_model(ts@), i as nat) == Err::<(SStatement, nat), nat>(e as nat),
        },
{
    let ghost m = tokens_model(ts@);
    assert(m.len() == ts.len());
    proof {
        reveal_strlit("fof");
        reveal_strlit("include");
        assert("fof"@ =~= fof_word());
        assert("include"@ =~= include_word());
    }
    if is_word_token(ts, i, "fof") {
        if !punct_is(ts, i + 1, Punct::LParen) {
            return Err(i + 1);
        }
        if i + 2 >= ts.len() {
            return Err(i + 2);
        }
        let name = match name_at(ts, i + 2) {
            Some(n) => n,
            None => {
                return Err(i + 2);
            },
        };
        if !punct_is(ts, i + 3, Punct::Comma) {
            return Err(i + 3);
        }
        if i + 4 >= ts.len() {
            return Err(i + 4);
        }
        let role = match word_at(ts, i + 4) {
            Some(w) => w,
            None => {
                return Err(i + 4);
            },
        };
        if !punct_is(ts, i + 5, Punct::Comma) {
            return Err(i + 5);
        }
        match formula_at(ts, i + 6) {
            Ok((formula, j)) => {
                if !punct_is(ts, j, Punct::RParen) {
                    return Err(j);
                }
                if !punct_is(ts, j + 1, Punct::Dot) {
                    return Err(j + 1);
                }
                Ok((TptpInput::Formula(FormulaRecord { name, role, formula }), j + 2))
            },
            Err(e) => Err(e),
        }
    } else if is_word_token(ts, i, "include") {
        if !punct_is(ts, i + 1, Punct::LParen) {
            return Err(i + 1);
        }
        if i + 2 >= ts.len() {
            return Err(i + 2);
        }
        let quoted = match &ts[i + 2].kind {
            TokenKind::Quoted(p) => p,
            _ => {
                return Err(i + 2);
            },
        };
        if !punct_is(ts, i + 3, Punct::RParen) {
            return Err(i + 3);
        }
        if !punct_is(ts, i + 4, Punct::Dot) {
            return Err(i + 4);
        }
        Ok((TptpInput::Include(IncludeDirective { path: trim_quotes(quoted) }), i + 5))
    } else {
        Err(i)
    }
}

/// Whether a role names an axiom.
fn is_axiom_role(role: &String) -> (r: bool)
    ensures
        r == (role@ == axiom_role()),
{
    let cs = chars_of(role.as_str());
    let r = cs.len() == 5 && cs[0] == 'a' && cs[1] == 'x' && cs[2] == 'i' && cs[3] == 'o' && cs[4] == 'm';
    proof {
        if r {
            assert(cs@ =~= axiom_role());
        }
    }
    r
}

/// Parses TPTP input into its statements.
pub fn parse_tptp(input: &str) -> (r: Result<Vec<TptpInput>, ParseError>)
    ensures
        match r {
            Ok(stmts) => tptp_statements(input@) == Ok::<Seq<SStatement>, (nat, ParseErrorKind)>(statements_model(stmts@)),
            Err(e) => tptp_statements(input@) == Err::<Seq<SStatement>, (nat, ParseErrorKind)>((e.offset as nat, e.kind)),
        },
{
    let chars = chars_of(input);
    let tokens = match tokenize(&chars) {
        Ok(ts) => ts,
        Err(e) => {
            return Err(ParseError { offset: e.offset, kind: ParseErrorKind::Lex(e.kind) });
        },
    };
    let ghost m = tokens_model(tokens@);
    let mut stmts: Vec<TptpInput> = Vec::new();
    let mut i: usize = 0;
    assert(statements_model(stmts@) =~= Seq::<SStatement>::empty());
    while i < tokens.len()
        invariant
            i <= tokens.len(),
            m == tokens_model(tokens@),
            chars@ == input@,
            lex(input@) == Ok::<Seq<SToken>, (nat, LexErrorKind)>(m),
            parse_statements(m, 0, Seq::empty()) == parse_statements(m, i as nat, statements_model(stmts@)),
        decreases tokens.len() - i,
    {
        match statement_at(&tokens, i) {
            Ok((st, j)) => {
                if !(i < j && j <= tokens.len()) {
                    return Err(ParseError { offset: tokens[i].start, kind: ParseErrorKind::UnexpectedToken });
                }
                let ghost before = statements_model(stmts@);
                let ghost sm = st@;
                stmts.push(st);
                assert(statements_model(stmts@) =~= before.push(sm));
                i = j;
            },
            Err(k) => {
                if k < tokens.len() {
                    assert(m[k as int] == tokens@[k as int]@);
                    return Err(ParseError { offset: tokens[k].start, kind: ParseErrorKind::UnexpectedToken });
                } else {
                    return Err(ParseError { offset: chars.len(), kind: ParseErrorKind::UnexpectedEnd });
                }
            },
        }
    }
    Ok(stmts)
}

/// Parses TPTP input and sorts its statements into premises, conjecture and
/// includes.
pub fn parse_problem(input: &str) -> (r: Result<ParsedProblem, ParseError>)
    ensures
        match r {
            Ok(p) => problem_of(input@) == Ok::<SProblem, (nat, ParseErrorKind)>(p@),
            Err(e) => problem_of(input@) == Err::<SProblem, (nat, ParseErrorKind)>((e.offset as nat, e.kind)),
        },
{
    let stmts = match parse_tptp(input) {
        Ok(s) => s,
        Err(e) => {
            return Err(e);
        },
    };
    let ghost sm = statements_model(stmts@);
    let mut parsed = ParsedProblem { premises: Vec::new(), conjecture: None, includes: Vec::new() };
    let conjecture = "conjecture".to_owned();
    let hypothesis = "hypothesis".to_owned();
    proof {
        reveal_strlit("conjecture");
        reveal_strlit("hypothesis");
        assert(conjecture@ =~= conjecture_role());
        assert(hypothesis@ =~= hypothesis_role());
        assert(records_model(parsed.premises@) =~= Seq::<SRecord>::empty());
        assert(includes_model(parsed.includes@) =~= Seq::<Seq<char>>::empty());
        assert(parsed@ =~= sorted_problem(sm, 0));
    }
    let mut k: usize = 0;
    let n = stmts.len();
    let mut rest = stmts;
    while rest.len() > 0
        invariant
            k + rest.len() == n,
            sm.len() == n,
            forall|j: int| 0 <= j < rest.len() ==> (#[trigger] rest@[j])@ == sm[k + j],
            parsed@ == sorted_problem(sm, k as nat),
            conjecture@ == conjecture_role(),
            hypothesis@ == hypothesis_role(),
        decreases rest.len(),
    {
        assert(rest@[0]@ == sm[k as int]);
        let st = rest.remove(0);
        let ghost before = parsed@;
        match st {
            TptpInput::Formula(record) => {
                if record.role == conjecture {
                    parsed.conjecture = Some(record);
                } else if is_axiom_role(&record.role) || record.role == hypothesis {
                    let ghost rm = record@;
                    parsed.premises.push(record);
                    assert(records_model(parsed.premises@) =~= before.premises.push(rm));
                }
            },
            TptpInput::Include(directive) => {
                let ghost dm = directive.path@;
                parsed.includes.push(directive);
                assert(includes_model(parsed.includes@) =~= before.includes.push(dm));
            },
        }
        k += 1;
    }
    Ok(parsed)
}

} // verus!
