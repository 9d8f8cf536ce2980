//! Writing `config.toml`: the text a configuration is saved as, and reading
//! that text back.
//!
//! A saved configuration always names every limit and the results database,
//! falling back to the library defaults for those it does not set; the
//! biconditional cap and the engine are written only when set.

use vstd::prelude::*;

use crate::cli::config::{
    apply_entry, apply_line, config_of, config_scan, default_results_db, default_results_db_path, empty_draft,
    engine_named, index_from, line_entry, or_default, AppConfig, CliSearchEngine, SConfig, SDraft,
};
use crate::cli::numbers::{all_digits, digits_value, unsigned_digits, unsigned_value};
use crate::prover::defaults::{
    DEFAULT_MAX_DEPTH, DEFAULT_MAX_FRESH_TERMS_PER_QUANTIFIER, DEFAULT_MAX_STEPS, DEFAULT_PROVE_TIMEOUT_SECS,
};
use crate::text::{
    dec, digit_char, is_white_space, lemma_dec_shape, push_str, strip_both, trim, trim_end, trim_start,
    u128_to_decimal,
};

verus! {

/// The name `config.toml` uses for an engine.
pub open spec fn engine_word(e: CliSearchEngine) -> Seq<char> {
    match e {
        CliSearchEngine::Naive => "naive"@,
        CliSearchEngine::Id => "id"@,
        CliSearchEngine::Priority => "priority"@,
        CliSearchEngine::PriorityId => "priority-id"@,
    }
}

/// A `key = "value"` line.
pub open spec fn quoted_line(key: Seq<char>, value: Seq<char>) -> Seq<char> {
    key + " = \""@ + value + "\""@
}

/// A `key = n` line.
pub open spec fn number_line(key: Seq<char>, n: nat) -> Seq<char> {
    key + " = "@ + dec(n)
}

/// The timeout written for a configuration without one: the library's
/// default proof timeout, in milliseconds.
pub open spec fn default_timeout_ms() -> u64 {
    (DEFAULT_PROVE_TIMEOUT_SECS * 1000) as u64
}

/// The lines a configuration is written as, in order.
pub open spec fn config_lines(c: SConfig) -> Seq<Seq<char>> {
    seq![
        quoted_line("tptp_root"@, c.tptp_root),
        quoted_line("default_subset_file"@, c.default_subset_file),
        number_line("timeout_ms"@, or_default(c.timeout_ms, default_timeout_ms()) as nat),
        number_line("max_depth"@, or_default(c.max_depth, DEFAULT_MAX_DEPTH) as nat),
        number_line("max_steps"@, or_default(c.max_steps, DEFAULT_MAX_STEPS) as nat),
        number_line(
            "max_fresh_terms_per_quantifier"@,
            or_default(c.max_fresh_terms_per_quantifier, DEFAULT_MAX_FRESH_TERMS_PER_QUANTIFIER) as nat,
        ),
        quoted_line("results_db"@, or_default(c.results_db, default_results_db())),
    ] + match c.max_biconditionals {
        Some(n) => seq![number_line("max_biconditionals"@, n as nat)],
        None => Seq::empty(),
    } + match c.engine {
        Some(e) => seq![quoted_line("engine"@, engine_word(e))],
        None => Seq::empty(),
    }
}

/// Lines joined into a text, each ended by a newline.
pub open spec fn joined(lines: Seq<Seq<char>>) -> Seq<char>
    decreases lines.len(),
{
    if lines.len() == 0 {
        Seq::empty()
    } else {
        lines[0] + "\n"@ + joined(lines.drop_first())
    }
}

/// The `config.toml` text of a configuration.
pub open spec fn config_text_of(c: SConfig) -> Seq<char> {
    joined(config_lines(c))
}

/// Joining one more line appends it and its newline.
pub proof fn lemma_joined_push(lines: Seq<Seq<char>>, l: Seq<char>)
    ensures
        joined(lines.push(l)) == joined(lines) + l + "\n"@,
    decreases lines.len(),
{
    if lines.len() == 0 {
        assert(lines.push(l).drop_first() =~= Seq::<Seq<char>>::empty());
        assert(joined(lines.push(l).drop_first()) == Seq::<char>::empty());
        assert(joined(lines) == Seq::<char>::empty());
        assert(joined(lines.push(l)) =~= joined(lines) + l + "\n"@);
    } else {
        assert(lines.push(l).drop_first() =~= lines.drop_first().push(l));
        lemma_joined_push(lines.drop_first(), l);
        assert(joined(lines.push(l)) =~= joined(lines) + l + "\n"@);
    }
}

/// Appends `line` and a newline to `out`, extending the joined lines.
fn push_line(out: &mut String, line: &String, Ghost(lines): Ghost<Seq<Seq<char>>>)
    requires
        old(out)@ == joined(lines),
    ensures
        final(out)@ == joined(lines.push(line@)),
{
    proof {
        lemma_joined_push(lines, line@);
        reveal_strlit("\n");
    }
    push_str(out, line.as_str());
    push_str(out, "\n");
}

/// The line `key = "value"`.
fn quoted_text(key: &str, value: &str) -> (r: String)
    ensures
        r@ == quoted_line(key@, value@),
{
    let mut t = String::new();
    push_str(&mut t, key);
    push_str(&mut t, " = \"");
    push_str(&mut t, value);
    push_str(&mut t, "\"");
    t
}

/// The line `key = n`.
fn number_text(key: &str, n: u128) -> (r: String)
    ensures
        r@ == number_line(key@, n as nat),
{
    let mut t = String::new();
    push_str(&mut t, key);
    push_str(&mut t, " = ");
    let digits = u128_to_decimal(n);
    push_str(&mut t, digits.as_str());
    t
}

/// The name `config.toml` uses for an engine.
fn engine_text(e: CliSearchEngine) -> (r: &'static str)
    ensures
        r@ == engine_word(e),
{
    match e {
        CliSearchEngine::Naive => "naive",
        CliSearchEngine::Id => "id",
        CliSearchEngine::Priority => "priority",
        CliSearchEngine::PriorityId => "priority-id",
    }
}

/// The `config.toml` text a configuration is saved as.
pub fn config_text(config: &AppConfig) -> (r: String)
    ensures
        r@ == config_text_of(config@),
{
    let ghost c = config@;
    let mut out = String::new();
    let ghost mut lines: Seq<Seq<char>> = Seq::empty();
    proof {
        assert(out@ =~= joined(lines));
    }
    let l = quoted_text("tptp_root", config.tptp_root.as_str());
    push_line(&mut out, &l, Ghost(lines));
    proof {
        lines = lines.push(l@);
    }
    let l = quoted_text("default_subset_file", config.default_subset_file.as_str());
    push_line(&mut out, &l, Ghost(lines));
    proof {
        lines = lines.push(l@);
    }
    let timeout: u64 = match config.timeout_ms {
        Some(t) => t,
        None => DEFAULT_PROVE_TIMEOUT_SECS * 1000,
    };
    let l = number_text("timeout_ms", timeout as u128);
    push_line(&mut out, &l, Ghost(lines));
    proof {
        lines = lines.push(l@);
    }
    let depth: usize = match config.max_depth {
        Some(n) => n,
        None => DEFAULT_MAX_DEPTH,
    };
    let l = number_text("max_depth", depth as u128);
    push_line(&mut out, &l, Ghost(lines));
    proof {
        lines = lines.push(l@);
    }
    let steps: usize = match config.max_steps {
        Some(n) => n,
        None => DEFAULT_MAX_STEPS,
    };
    let l = number_text("max_steps", steps as u128);
    push_line(&mut out, &l, Ghost(lines));
    proof {
        lines = lines.push(l@);
    }
    let fresh: usize = match config.max_fresh_terms_per_quantifier {
        Some(n) => n,
        None => DEFAULT_MAX_FRESH_TERMS_PER_QUANTIFIER,
    };
    let l = number_text("max_fresh_terms_per_quantifier", fresh as u128);
    push_line(&mut out, &l, Ghost(lines));
    proof {
        lines = lines.push(l@);
    }
    let db = match &config.results_db {
        Some(p) => p.clone(),
        None => default_results_db_path(),
    };
    let l = quoted_text("results_db", db.as_str());
    push_line(&mut out, &l, Ghost(lines));
    proof {
        lines = lines.push(l@);
    }
    if let Some(n) = config.max_biconditionals {
        let l = number_text("max_biconditionals", n as u128);
        push_line(&mut out, &l, Ghost(lines));
        proof {
            lines = lines.push(l@);
        }
    }
    if let Some(e) = config.engine {
        let l = quoted_text("engine", engine_text(e));
        push_line(&mut out, &l, Ghost(lines));
        proof {
            lines = lines.push(l@);
        }
    }
    proof {
        assert(lines =~= config_lines(c));
    }
    out
}

/// The settings that reading the given lines in order gives; the first
/// error ends the reading.
pub open spec fn apply_lines(d: SDraft, lines: Seq<Seq<char>>) -> Result<SDraft, Seq<char>>
    decreases lines.len(),
{
    if lines.len() == 0 {
        Ok(d)
    } else {
        match apply_line(d, lines[0]) {
            Ok(d2) => apply_lines(d2, lines.drop_first()),
            Err(e) => Err(e),
        }
    }
}

/// Whether no line holds a newline.
pub open spec fn single_lines(lines: Seq<Seq<char>>) -> bool {
    forall|i: int, j: int| 0 <= i < lines.len() && 0 <= j < lines[i].len() ==> #[trigger] lines[i][j] != '\n'
}

/// Scanning within a line moves nothing but the position.
proof fn lemma_scan_to(s: Seq<char>, start: nat, i: nat, j: nat, d: SDraft)
    requires
        start <= i <= j < s.len(),
        forall|k: int| i <= k < j ==> s[k] != '\n',
    ensures
        config_scan(s, start, i, d) == config_scan(s, start, j, d),
    decreases j - i,
{
    if i < j {
        lemma_scan_to(s, start, i + 1, j, d);
    }
}

/// Scanning the joined lines from their start reads them in order.
pub proof fn lemma_scan_lines(s: Seq<char>, start: nat, d: SDraft, lines: Seq<Seq<char>>)
    requires
        start <= s.len(),
        s.skip(start as int) == joined(lines),
        single_lines(lines),
    ensures
        config_scan(s, start, start, d) == apply_lines(d, lines),
    decreases lines.len(),
{
    reveal_strlit("\n");
    if lines.len() == 0 {
        assert(s.skip(start as int).len() == 0);
    } else {
        let l = lines[0];
        let rest = lines.drop_first();
        let j = start + l.len();
        let tail = s.skip(start as int);
        assert(tail == l + "\n"@ + joined(rest));
        assert forall|k: int| start <= k < j implies s[k] != '\n' by {
            assert(s[k] == tail[k - start]);
            assert(tail[k - start] == l[k - start]);
            assert(lines[0][k - start] != '\n');
        }
        assert(s[j as int] == tail[l.len() as int]);
        lemma_scan_to(s, start, start, j, d);
        assert(s.subrange(start as int, j as int) =~= l);
        assert(s.skip(j + 1int) =~= tail.skip(l.len() + 1int));
        assert(tail.skip(l.len() + 1int) =~= joined(rest));
        assert forall|i: int, k: int| 0 <= i < rest.len() && 0 <= k < rest[i].len() implies #[trigger] rest[i][k]
            != '\n' by {
            assert(rest[i] == lines[i + 1]);
            assert(lines[i + 1][k] != '\n');
        }
        match apply_line(d, l) {
            Ok(d2) => {
                lemma_scan_lines(s, j + 1, d2, rest);
            },
            Err(_) => {},
        }
    }
}

/// A key as `config.toml` writes it: not empty, not a comment, and without
/// white space or `=`.
pub open spec fn plain_key(key: Seq<char>) -> bool {
    &&& key.len() > 0
    &&& key[0] != '#'
    &&& forall|k: int| 0 <= k < key.len() ==> !is_white_space(#[trigger] key[k]) && key[k] != '='
}

/// A value that reads back as written between double quotes: it holds no
/// newline and neither starts nor ends with `"`.
pub open spec fn quotable(v: Seq<char>) -> bool {
    &&& forall|k: int| 0 <= k < v.len() ==> #[trigger] v[k] != '\n'
    &&& v.len() > 0 ==> v[0] != '"' && v.last() != '"'
}

proof fn lemma_index_from(t: Seq<char>, c: char, i: nat, e: nat)
    requires
        i <= e < t.len(),
        t[e as int] == c,
        forall|k: int| i <= k < e ==> t[k] != c,
    ensures
        index_from(t, c, i) == Some(e),
    decreases e - i,
{
    if i < e {
        lemma_index_from(t, c, i + 1, e);
    }
}

/// A line `key = w` reads as the key and `w` without its quotes.
proof fn lemma_entry_line(key: Seq<char>, w: Seq<char>)
    requires
        plain_key(key),
        w.len() > 0,
        !is_white_space(w[0]),
        !is_white_space(w.last()),
    ensures
        line_entry(key + " = "@ + w) == Some((key, strip_both(w, '"'))),
{
    reveal_strlit(" = ");
    let line = key + " = "@ + w;
    assert(!is_white_space(line[0]));
    assert(line.last() == w.last());
    assert(trim_start(line) == line);
    assert(trim_end(line) == line);
    assert(trim(line) == line);
    let e = key.len() + 1;
    assert forall|k: int| 0 <= k < e implies line[k] != '=' by {
        if k < key.len() {
            assert(line[k] == key[k]);
        }
    }
    lemma_index_from(line, '=', 0, e);
    let before = line.take(e as int);
    assert(before =~= key.push(' '));
    assert(trim_start(before) == before);
    assert(before.drop_last() =~= key);
    assert(trim_end(key) == key);
    assert(trim_end(before) == key);
    let after = line.skip(e + 1int);
    assert(after =~= seq![' '] + w);
    assert(after.drop_first() =~= w);
    assert(trim_start(w) == w);
    assert(trim_start(after) == w);
    assert(trim_end(w) == w);
}

/// A value between double quotes comes out without them.
proof fn lemma_strip_quotes(v: Seq<char>)
    requires
        quotable(v),
    ensures
        strip_both(seq!['"'] + v + seq!['"'], '"') == v,
{
    let s = seq!['"'] + v + seq!['"'];
    assert(s.drop_first() =~= v.push('"'));
    assert(s[0] == '"');
    assert(strip_both(s, '"') == strip_both(s.drop_first(), '"'));
    if v.len() == 0 {
        assert(v.push('"').drop_first() =~= v);
        assert(v.push('"')[0] == '"');
        assert(strip_both(v.push('"'), '"') == strip_both(v.push('"').drop_first(), '"'));
        assert(strip_both(v, '"') == v);
    } else {
        assert(v.push('"')[0] == v[0]);
        assert(v.push('"').last() == '"');
        assert(v.push('"').drop_last() =~= v);
        assert(strip_both(v, '"') == v);
        assert(strip_both(v.push('"'), '"') == v);
    }
}

/// The digit characters are `0` to `9`, in order.
proof fn lemma_digit_char(d: nat)
    requires
        d < 10,
    ensures
        digit_char(d) as nat == d + 48,
        '0' <= digit_char(d) <= '9',
{
    assert(((d + 48) as u8) as nat == d + 48);
}

/// A decimal rendering is digits that read back as the number.
pub proof fn lemma_dec_digits(n: nat)
    ensures
        dec(n).len() > 0,
        all_digits(dec(n)),
        digits_value(dec(n)) == n,
    decreases n,
{
    lemma_dec_shape(n);
    lemma_digit_char(n % 10);
    assert('0' as nat == 48);
    let last = digit_char(n % 10);
    assert((last as nat - '0' as nat) as nat == n % 10);
    if n < 10 {
        assert(dec(n).drop_last() =~= Seq::<char>::empty());
        assert(digits_value(dec(n).drop_last()) == 0);
        assert(dec(n).last() == last);
    } else {
        lemma_dec_digits(n / 10);
        assert(dec(n) == dec(n / 10).push(last));
        assert(dec(n).drop_last() =~= dec(n / 10));
        assert(dec(n).last() == last);
        assert(digits_value(dec(n)) == digits_value(dec(n / 10)) * 10 + n % 10);
        assert(n / 10 * 10 + n % 10 == n);
        assert forall|k: int| 0 <= k < dec(n).len() implies '0' <= #[trigger] dec(n)[k] <= '9' by {
            if k < dec(n).len() - 1 {
                assert(dec(n)[k] == dec(n / 10)[k]);
            }
        }
    }
}

/// A rendered number reads back as itself, up to any bound it is within.
pub proof fn lemma_dec_reads_back(n: nat, max: nat)
    requires
        n <= max,
    ensures
        unsigned_value(dec(n), max) == Some(n),
        !is_white_space(dec(n)[0]),
        !is_white_space(dec(n).last()),
        strip_both(dec(n), '"') == dec(n),
        forall|k: int| 0 <= k < dec(n).len() ==> #[trigger] dec(n)[k] != '\n',
{
    lemma_dec_digits(n);
    let d = dec(n);
    assert('0' <= d[0] <= '9');
    assert('0' <= d[d.len() - 1] <= '9');
    assert(unsigned_digits(d) == d);
}

/// Reading a `key = "value"` line sets the key to the value.
proof fn lemma_apply_quoted(d: SDraft, key: Seq<char>, v: Seq<char>)
    requires
        plain_key(key),
        quotable(v),
    ensures
        apply_line(d, quoted_line(key, v)) == apply_entry(d, key, v),
{
    reveal_strlit(" = \"");
    reveal_strlit(" = ");
    reveal_strlit("\"");
    let w = seq!['"'] + v + seq!['"'];
    assert(quoted_line(key, v) =~= key + " = "@ + w);
    lemma_entry_line(key, w);
    lemma_strip_quotes(v);
}

/// Reading a `key = n` line sets the key to the rendered number.
proof fn lemma_apply_number(d: SDraft, key: Seq<char>, n: nat)
    requires
        plain_key(key),
    ensures
        apply_line(d, number_line(key, n)) == apply_entry(d, key, dec(n)),
{
    lemma_dec_reads_back(n, n);
    lemma_entry_line(key, dec(n));
}

/// The configuration that reading a saved configuration gives: the limits
/// and the database path it did not set hold the defaults that were written.
pub open spec fn with_written_defaults(c: SConfig) -> SConfig {
    SConfig {
        timeout_ms: Some(or_default(c.timeout_ms, default_timeout_ms())),
        max_depth: Some(or_default(c.max_depth, DEFAULT_MAX_DEPTH)),
        max_steps: Some(or_default(c.max_steps, DEFAULT_MAX_STEPS)),
        max_fresh_terms_per_quantifier: Some(
            or_default(c.max_fresh_terms_per_quantifier, DEFAULT_MAX_FRESH_TERMS_PER_QUANTIFIER),
        ),
        results_db: Some(or_default(c.results_db, default_results_db())),
        ..c
    }
}

/// The keys `config.toml` is written with are plain.
proof fn lemma_keys_plain()
    ensures
        plain_key("tptp_root"@),
        plain_key("default_subset_file"@),
        plain_key("timeout_ms"@),
        plain_key("max_depth"@),
        plain_key("max_steps"@),
        plain_key("max_fresh_terms_per_quantifier"@),
        plain_key("results_db"@),
        plain_key("max_biconditionals"@),
        plain_key("engine"@),
{
    reveal_strlit("tptp_root");
    reveal_strlit("default_subset_file");
    reveal_strlit("timeout_ms");
    reveal_strlit("max_depth");
    reveal_strlit("max_steps");
    reveal_strlit("max_fresh_terms_per_quantifier");
    reveal_strlit("results_db");
    reveal_strlit("max_biconditionals");
    reveal_strlit("engine");
}

/// A written line holds no newline.
proof fn lemma_written_lines_single(key: Seq<char>, v: Seq<char>, n: nat)
    requires
        plain_key(key),
        quotable(v),
    ensures
        forall|k: int| 0 <= k < quoted_line(key, v).len() ==> #[trigger] quoted_line(key, v)[k] != '\n',
        forall|k: int| 0 <= k < number_line(key, n).len() ==> #[trigger] number_line(key, n)[k] != '\n',
{
    reveal_strlit(" = \"");
    reveal_strlit(" = ");
    reveal_strlit("\"");
    lemma_dec_reads_back(n, n);
    assert forall|k: int| 0 <= k < quoted_line(key, v).len() implies #[trigger] quoted_line(key, v)[k] != '\n' by {
        if k < key.len() {
            assert(quoted_line(key, v)[k] == key[k]);
            assert(!is_white_space(key[k]));
        } else if k >= key.len() + 4 && k < key.len() + 4 + v.len() {
            assert(quoted_line(key, v)[k] == v[k - key.len() - 4]);
        }
    }
    assert forall|k: int| 0 <= k < number_line(key, n).len() implies #[trigger] number_line(key, n)[k] != '\n' by {
        if k < key.len() {
            assert(number_line(key, n)[k] == key[k]);
            assert(!is_white_space(key[k]));
        } else if k >= key.len() + 3 {
            assert(number_line(key, n)[k] == dec(n)[k - key.len() - 3]);
        }
    }
}

/// The names of the engines read back as written.
proof fn lemma_engine_words(e: CliSearchEngine)
    ensures
        engine_named(engine_word(e)) == Some(e),
        quotable(engine_word(e)),
{
    reveal_strlit("naive");
    reveal_strlit("id");
    reveal_strlit("priority");
    reveal_strlit("priority-id");
}

/// The lines of a saved configuration hold no newline.
proof fn lemma_config_lines_single(c: SConfig)
    requires
        quotable(c.tptp_root),
        quotable(c.default_subset_file),
        c.results_db matches Some(db) ==> quotable(db),
    ensures
        single_lines(config_lines(c)),
{
    let lines = config_lines(c);
    lemma_keys_plain();
    reveal_strlit("..\\results.db");
    let db = or_default(c.results_db, default_results_db());
    assert(quotable(db));
    lemma_written_lines_single("tptp_root"@, c.tptp_root, 0);
    lemma_written_lines_single("default_subset_file"@, c.default_subset_file, 0);
    lemma_written_lines_single("timeout_ms"@, c.tptp_root, or_default(c.timeout_ms, default_timeout_ms()) as nat);
    lemma_written_lines_single("max_depth"@, c.tptp_root, or_default(c.max_depth, DEFAULT_MAX_DEPTH) as nat);
    lemma_written_lines_single("max_steps"@, c.tptp_root, or_default(c.max_steps, DEFAULT_MAX_STEPS) as nat);
    lemma_written_lines_single(
        "max_fresh_terms_per_quantifier"@,
        c.tptp_root,
        or_default(c.max_fresh_terms_per_quantifier, DEFAULT_MAX_FRESH_TERMS_PER_QUANTIFIER) as nat,
    );
    lemma_written_lines_single("results_db"@, db, 0);
    if let Some(n) = c.max_biconditionals {
        lemma_written_lines_single("max_biconditionals"@, c.tptp_root, n as nat);
    }
    if let Some(e) = c.engine {
        lemma_engine_words(e);
        lemma_written_lines_single("engine"@, engine_word(e), 0);
    }
    assert forall|i: int, j: int| 0 <= i < lines.len() && 0 <= j < lines[i].len() implies #[trigger] lines[i][j]
        != '\n' by {
        if i == 7 {
            if c.max_biconditionals is None {
                assert(lines[i] == quoted_line("engine"@, engine_word(c.engine->Some_0)));
            }
        }
    }
}

/// Reading one more line of a sequence, when it succeeds, moves on to the
/// rest.
proof fn lemma_apply_step(d: SDraft, lines: Seq<Seq<char>>, k: int, d2: SDraft)
    requires
        0 <= k < lines.len(),
        apply_line(d, lines[k]) == Ok::<SDraft, Seq<char>>(d2),
    ensures
        apply_lines(d, lines.skip(k)) == apply_lines(d2, lines.skip(k + 1)),
{
    assert(lines.skip(k)[0] == lines[k]);
    assert(lines.skip(k).drop_first() =~= lines.skip(k + 1));
}

/// Saving a configuration and reading the text back gives the
/// configuration again, with the limits and the database path it left unset
/// holding the defaults that were written. The paths must read back as
/// written between double quotes.
pub proof fn lemma_config_text_round_trip(c: SConfig)
    requires
        quotable(c.tptp_root),
        quotable(c.default_subset_file),
        c.results_db matches Some(db) ==> quotable(db),
    ensures
        config_of(config_text_of(c)) == Ok::<SConfig, Seq<char>>(with_written_defaults(c)),
{
    let lines = config_lines(c);
    let text = joined(lines);
    lemma_config_lines_single(c);
    assert(text.skip(0) =~= text);
    lemma_scan_lines(text, 0, empty_draft(), lines);
    assert(lines.skip(0) =~= lines);
    lemma_keys_plain();
    reveal_strlit("tptp_root");
    reveal_strlit("default_subset_file");
    reveal_strlit("timeout_ms");
    reveal_strlit("max_depth");
    reveal_strlit("max_steps");
    reveal_strlit("max_fresh_terms_per_quantifier");
    reveal_strlit("results_db");
    reveal_strlit("max_biconditionals");
    reveal_strlit("engine");
    reveal_strlit("..\\results.db");
    let w = with_written_defaults(c);
    let timeout = or_default(c.timeout_ms, default_timeout_ms());
    let depth = or_default(c.max_depth, DEFAULT_MAX_DEPTH);
    let steps = or_default(c.max_steps, DEFAULT_MAX_STEPS);
    let fresh = or_default(c.max_fresh_terms_per_quantifier, DEFAULT_MAX_FRESH_TERMS_PER_QUANTIFIER);
    let db = or_default(c.results_db, default_results_db());
    assert(quotable(db));

    let d0 = empty_draft();
    lemma_apply_quoted(d0, "tptp_root"@, c.tptp_root);
    let d1 = SDraft { tptp_root: Some(c.tptp_root), ..d0 };
    lemma_apply_step(d0, lines, 0, d1);

    lemma_apply_quoted(d1, "default_subset_file"@, c.default_subset_file);
    let d2 = SDraft { default_subset_file: Some(c.default_subset_file), ..d1 };
    lemma_apply_step(d1, lines, 1, d2);

    lemma_apply_number(d2, "timeout_ms"@, timeout as nat);
    lemma_dec_reads_back(timeout as nat, u64::MAX as nat);
    let d3 = SDraft { timeout_ms: Some(timeout), ..d2 };
    lemma_apply_step(d2, lines, 2, d3);

    lemma_apply_number(d3, "max_depth"@, depth as nat);
    lemma_dec_reads_back(depth as nat, usize::MAX as nat);
    let d4 = SDraft { max_depth: Some(depth), ..d3 };
    lemma_apply_step(d3, lines, 3, d4);

    assert("max_steps"@ != "max_depth"@) by {
        assert("max_steps"@[4] != "max_depth"@[4]);
    }
    lemma_apply_number(d4, "max_steps"@, steps as nat);
    lemma_dec_reads_back(steps as nat, usize::MAX as nat);
    let d5 = SDraft { max_steps: Some(steps), ..d4 };
    lemma_apply_step(d4, lines, 4, d5);

    lemma_apply_number(d5, "max_fresh_terms_per_quantifier"@, fresh as nat);
    lemma_dec_reads_back(fresh as nat, usize::MAX as nat);
    let d6 = SDraft { max_fresh_terms_per_quantifier: Some(fresh), ..d5 };
    lemma_apply_step(d5, lines, 5, d6);

    lemma_apply_quoted(d6, "results_db"@, db);
    let d7 = SDraft { results_db: Some(db), ..d6 };
    lemma_apply_step(d6, lines, 6, d7);

    let mut k: int = 7;
    let mut d = d7;
    if let Some(n) = c.max_biconditionals {
        lemma_apply_number(d, "max_biconditionals"@, n as nat);
        lemma_dec_reads_back(n as nat, usize::MAX as nat);
        let d8 = SDraft { max_biconditionals: Some(n), ..d };
        lemma_apply_step(d, lines, k, d8);
        d = d8;
        k = k + 1;
    }
    if let Some(e) = c.engine {
        lemma_engine_words(e);
        lemma_apply_quoted(d, "engine"@, engine_word(e));
        let d9 = SDraft { engine: Some(e), ..d };
        lemma_apply_step(d, lines, k, d9);
        d = d9;
        k = k + 1;
    }
    assert(k == lines.len());
    assert(lines.skip(k) =~= Seq::<Seq<char>>::empty());
    assert(d.max_biconditionals == c.max_biconditionals);
    assert(d.engine == c.engine);
}

} // verus!
