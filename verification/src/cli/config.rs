//! Configuration for CLI runs: the text of `config.toml`, and how its values,
//! command-line flags and library defaults combine.
//!
//! Precedence, highest first: command-line flags, `config.toml`, library
//! defaults. `tptp_root` and `default_subset_file` must come from the flags
//! or the file.
//!
//! `config.toml` holds one `key = value` per line; blank lines, lines
//! starting with `#`, and lines without `=` are ignored, as are unknown
//! keys. Values may be wrapped in double quotes.

use vstd::prelude::*;

use crate::cli::numbers::{parse_u64, parse_usize, u64_error_text, unsigned_value, usize_error_text};
use crate::pipeline::BiconditionalPolicy;
use crate::prover::defaults::{duration_from_millis, millis_duration};
use crate::prover::search::engine::{default_options, ProofOptions, SearchEngine};
use crate::text::{chars_of, push_str, strip_both, strip_bounds, text_of, trim, trim_bounds};

verus! {

/// The proof-search strategy as named in `config.toml` and on the command
/// line: `naive`, `id`, `priority`, `priority-id`.
#[derive(Debug, Clone, Copy, PartialEq, Eq, Structural)]
pub enum CliSearchEngine {
    Naive,
    Id,
    Priority,
    PriorityId,
}

/// The engine a CLI name selects.
pub open spec fn engine_for(engine: CliSearchEngine) -> SearchEngine {
    match engine {
        CliSearchEngine::Naive => SearchEngine::Naive,
        CliSearchEngine::Id => SearchEngine::IterativeDeepening,
        CliSearchEngine::Priority => SearchEngine::Priority,
        CliSearchEngine::PriorityId => SearchEngine::PriorityId,
    }
}

/// The engine a CLI name selects.
pub fn cli_engine_to_search_engine(engine: CliSearchEngine) -> (r: SearchEngine)
    ensures
        r == engine_for(engine),
{
    match engine {
        CliSearchEngine::Naive => SearchEngine::Naive,
        CliSearchEngine::Id => SearchEngine::IterativeDeepening,
        CliSearchEngine::Priority => SearchEngine::Priority,
        CliSearchEngine::PriorityId => SearchEngine::PriorityId,
    }
}

/// Persistent defaults used by config-backed CLI runs.
#[derive(Debug, Clone, PartialEq, Eq)]
pub struct AppConfig {
    pub tptp_root: String,
    pub default_subset_file: String,
    pub timeout_ms: Option<u64>,
    pub max_depth: Option<usize>,
    pub max_steps: Option<usize>,
    pub max_fresh_terms_per_quantifier: Option<usize>,
    pub max_biconditionals: Option<usize>,
    /// Proof-search engine; `None` means the library default (`naive`).
    pub engine: Option<CliSearchEngine>,
    /// Path of the SQLite database for proof results; `None` means
    /// [`default_results_db_path`].
    pub results_db: Option<String>,
}

/// The settings read so far from a configuration text.
pub struct SDraft {
    pub tptp_root: Option<Seq<char>>,
    pub default_subset_file: Option<Seq<char>>,
    pub timeout_ms: Option<u64>,
    pub max_depth: Option<usize>,
    pub max_steps: Option<usize>,
    pub max_fresh_terms_per_quantifier: Option<usize>,
    pub max_biconditionals: Option<usize>,
    pub engine: Option<CliSearchEngine>,
    pub results_db: Option<Seq<char>>,
}

pub open spec fn empty_draft() -> SDraft {
    SDraft {
        tptp_root: None,
        default_subset_file: None,
        timeout_ms: None,
        max_depth: None,
        max_steps: None,
        max_fresh_terms_per_quantifier: None,
        max_biconditionals: None,
        engine: None,
        results_db: None,
    }
}

/// The position of the first `c` in `t` from `i` on.
pub open spec fn index_from(t: Seq<char>, c: char, i: nat) -> Option<nat>
    decreases t.len() - i,
{
    if i >= t.len() {
        None
    } else if t[i as int] == c {
        Some(i)
    } else {
        index_from(t, c, i + 1)
    }
}

/// The key and value of a configuration line, if it has them: the trimmed
/// text before the first `=`, and the trimmed text after it without
/// surrounding double quotes.
pub open spec fn line_entry(line: Seq<char>) -> Option<(Seq<char>, Seq<char>)> {
    let t = trim(line);
    if t.len() == 0 || t[0] == '#' {
        None
    } else {
        match index_from(t, '=', 0) {
            None => None,
            Some(e) => Some((trim(t.take(e as int)), strip_both(trim(t.skip((e + 1) as int)), '"'))),
        }
    }
}

/// The message for an invalid numeric setting.
pub open spec fn invalid_number(key: Seq<char>, err: Seq<char>) -> Seq<char> {
    "invalid "@ + key + " in config.toml: "@ + err
}

/// The message for an unknown engine name.
pub open spec fn invalid_engine(value: Seq<char>) -> Seq<char> {
    "invalid engine in config.toml: '"@ + value + "', expected 'naive', 'id', 'priority', or 'priority-id'"@
}

/// The engine a name in `config.toml` selects.
pub open spec fn engine_named(value: Seq<char>) -> Option<CliSearchEngine> {
    if value == "naive"@ {
        Some(CliSearchEngine::Naive)
    } else if value == "id"@ {
        Some(CliSearchEngine::Id)
    } else if value == "priority"@ {
        Some(CliSearchEngine::Priority)
    } else if value == "priority-id"@ {
        Some(CliSearchEngine::PriorityId)
    } else {
        None
    }
}

/// A `usize` setting, or the error for its value.
pub open spec fn usize_setting(key: Seq<char>, value: Seq<char>) -> Result<usize, Seq<char>> {
    match unsigned_value(value, usize::MAX as nat) {
        Some(n) => Ok(n as usize),
        None => Err(invalid_number(key, usize_error_text(value))),
    }
}

/// The settings after one `key = value` entry.
pub open spec fn apply_entry(d: SDraft, key: Seq<char>, value: Seq<char>) -> Result<SDraft, Seq<char>> {
    if key == "tptp_root"@ {
        Ok(SDraft { tptp_root: Some(value), ..d })
    } else if key == "default_subset_file"@ {
        Ok(SDraft { default_subset_file: Some(value), ..d })
    } else if key == "timeout_ms"@ {
        match unsigned_value(value, u64::MAX as nat) {
            Some(n) => Ok(SDraft { timeout_ms: Some(n as u64), ..d }),
            None => Err(invalid_number(key, u64_error_text(value))),
        }
    } else if key == "max_depth"@ {
        match usize_setting(key, value) {
            Ok(n) => Ok(SDraft { max_depth: Some(n), ..d }),
            Err(e) => Err(e),
        }
    } else if key == "max_steps"@ {
        match usize_setting(key, value) {
            Ok(n) => Ok(SDraft { max_steps: Some(n), ..d }),
            Err(e) => Err(e),
        }
    } else if key == "max_fresh_terms_per_quantifier"@ {
        match usize_setting(key, value) {
            Ok(n) => Ok(SDraft { max_fresh_terms_per_quantifier: Some(n), ..d }),
            Err(e) => Err(e),
        }
    } else if key == "max_biconditionals"@ {
        match usize_setting(key, value) {
            Ok(n) => Ok(SDraft { max_biconditionals: Some(n), ..d }),
            Err(e) => Err(e),
        }
    } else if key == "engine"@ {
        match engine_named(value) {
            Some(e) => Ok(SDraft { engine: Some(e), ..d }),
            None => Err(invalid_engine(value)),
        }
    } else if key == "results_db"@ {
        Ok(SDraft { results_db: Some(value), ..d })
    } else {
        Ok(d)
    }
}

/// The settings after one line.
pub open spec fn apply_line(d: SDraft, line: Seq<char>) -> Result<SDraft, Seq<char>> {
    match line_entry(line) {
        None => Ok(d),
        Some((key, value)) => apply_entry(d, key, value),
    }
}

/// The settings of the lines of `s` from the line that starts at `start`,
/// scanning from `i`; the first error ends the scan.
pub open spec fn config_scan(s: Seq<char>, start: nat, i: nat, d: SDraft) -> Result<SDraft, Seq<char>>
    decreases s.len() - i,
{
    if i >= s.len() {
        if start < s.len() {
            apply_line(d, s.subrange(start as int, s.len() as int))
        } else {
            Ok(d)
        }
    } else if s[i as int] == '\n' {
        match apply_line(d, s.subrange(start as int, i as int)) {
            Ok(d2) => config_scan(s, i + 1, i + 1, d2),
            Err(e) => Err(e),
        }
    } else {
        config_scan(s, start, i + 1, d)
    }
}

/// The model of a configuration.
pub struct SConfig {
    pub tptp_root: Seq<char>,
    pub default_subset_file: Seq<char>,
    pub timeout_ms: Option<u64>,
    pub max_depth: Option<usize>,
    pub max_steps: Option<usize>,
    pub max_fresh_terms_per_quantifier: Option<usize>,
    pub max_biconditionals: Option<usize>,
    pub engine: Option<CliSearchEngine>,
    pub results_db: Option<Seq<char>>,
}

impl View for AppConfig {
    type V = SConfig;

    open spec fn view(&self) -> SConfig {
        SConfig {
            tptp_root: self.tptp_root@,
            default_subset_file: self.default_subset_file@,
            timeout_ms: self.timeout_ms,
            max_depth: self.max_depth,
            max_steps: self.max_steps,
            max_fresh_terms_per_quantifier: self.max_fresh_terms_per_quantifier,
            max_biconditionals: self.max_biconditionals,
            engine: self.engine,
            results_db: match &self.results_db {
                Some(p) => Some(p@),
                None => None,
            },
        }
    }
}

/// The configuration a `config.toml` text gives, or why it is unusable.
pub open spec fn config_of(s: Seq<char>) -> Result<SConfig, Seq<char>> {
    match config_scan(s, 0, 0, empty_draft()) {
        Err(e) => Err(e),
        Ok(d) => match (d.tptp_root, d.default_subset_file) {
            (None, _) => Err("config.toml is missing tptp_root"@),
            (Some(_), None) => Err("config.toml is missing default_subset_file"@),
            (Some(root), Some(subset)) => Ok(
                SConfig {
                    tptp_root: root,
                    default_subset_file: subset,
                    timeout_ms: d.timeout_ms,
                    max_depth: d.max_depth,
                    max_steps: d.max_steps,
                    max_fresh_terms_per_quantifier: d.max_fresh_terms_per_quantifier,
                    max_biconditionals: d.max_biconditionals,
                    engine: d.engine,
                    results_db: d.results_db,
                },
            ),
        },
    }
}

/// The settings read so far, as executable values.
struct Draft {
    tptp_root: Option<String>,
    default_subset_file: Option<String>,
    timeout_ms: Option<u64>,
    max_depth: Option<usize>,
    max_steps: Option<usize>,
    max_fresh_terms_per_quantifier: Option<usize>,
    max_biconditionals: Option<usize>,
    engine: Option<CliSearchEngine>,
    results_db: Option<String>,
}

spec fn opt_text(o: Option<String>) -> Option<Seq<char>> {
    match o {
        Some(s) => Some(s@),
        None => None,
    }
}

spec fn draft_model(d: Draft) -> SDraft {
    SDraft {
        tptp_root: opt_text(d.tptp_root),
        default_subset_file: opt_text(d.default_subset_file),
        timeout_ms: d.timeout_ms,
        max_depth: d.max_depth,
        max_steps: d.max_steps,
        max_fresh_terms_per_quantifier: d.max_fresh_terms_per_quantifier,
        max_biconditionals: d.max_biconditionals,
        engine: d.engine,
        results_db: opt_text(d.results_db),
    }
}

/// `text` appended to the message `head`.
fn message(head: &str, text: &str, tail: &str) -> (r: String)
    ensures
        r@ == head@ + text@ + tail@,
{
    let mut m = String::new();
    push_str(&mut m, head);
    push_str(&mut m, text);
    push_str(&mut m, tail);
    m
}

fn is_key(key: &String, name: &str) -> (r: bool)
    ensures
        r == (key@ == name@),
{
    *key == name.to_owned()
}

/// A `usize` setting, or the error for its value.
fn usize_value(key: &String, value: &String) -> (r: Result<usize, String>)
    ensures
        match r {
            Ok(n) => usize_setting(key@, value@) == Ok::<usize, Seq<char>>(n),
            Err(e) => usize_setting(key@, value@) == Err::<usize, Seq<char>>(e@),
        },
{
    match parse_usize(value.as_str()) {
        Ok(n) => Ok(n),
        Err(err) => {
            let r = message("invalid ", key.as_str(), " in config.toml: ");
            let mut r = r;
            push_str(&mut r, err.as_str());
            proof {
                reveal_strlit("invalid ");
                reveal_strlit(" in config.toml: ");
            }
            Err(r)
        },
    }
}

/// Applies one `key = value` entry.
fn apply_setting(d: &mut Draft, key: &String, value: String) -> (r: Result<(), String>)
    ensures
        match r {
            Ok(()) => apply_entry(draft_model(*old(d)), key@, value@) == Ok::<SDraft, Seq<char>>(draft_model(*final(d))),
            Err(e) => apply_entry(draft_model(*old(d)), key@, value@) == Err::<SDraft, Seq<char>>(e@),
        },
{
    proof {
        reveal_strlit("tptp_root");
        reveal_strlit("default_subset_file");
        reveal_strlit("timeout_ms");
        reveal_strlit("max_depth");
        reveal_strlit("max_steps");
        reveal_strlit("max_fresh_terms_per_quantifier");
        reveal_strlit("max_biconditionals");
        reveal_strlit("engine");
        reveal_strlit("results_db");
        reveal_strlit("naive");
        reveal_strlit("id");
        reveal_strlit("priority");
        reveal_strlit("priority-id");
        reveal_strlit("invalid ");
        reveal_strlit(" in config.toml: ");
        reveal_strlit("invalid engine in config.toml: '");
        reveal_strlit("', expected 'naive', 'id', 'priority', or 'priority-id'");
    }
    if is_key(key, "tptp_root") {
        d.tptp_root = Some(value);
    } else if is_key(key, "default_subset_file") {
        d.default_subset_file = Some(value);
    } else if is_key(key, "timeout_ms") {
        match parse_u64(value.as_str()) {
            Ok(n) => {
                d.timeout_ms = Some(n);
            },
            Err(err) => {
                let mut r = message("invalid ", key.as_str(), " in config.toml: ");
                push_str(&mut r, err.as_str());
                return Err(r);
            },
        }
    } else if is_key(key, "max_depth") {
        let n = usize_value(key, &value)?;
        d.max_depth = Some(n);
    } else if is_key(key, "max_steps") {
        let n = usize_value(key, &value)?;
        d.max_steps = Some(n);
    } else if is_key(key, "max_fresh_terms_per_quantifier") {
        let n = usize_value(key, &value)?;
        d.max_fresh_terms_per_quantifier = Some(n);
    } else if is_key(key, "max_biconditionals") {
        let n = usize_value(key, &value)?;
        d.max_biconditionals = Some(n);
    } else if is_key(key, "engine") {
        if is_key(&value, "naive") {
            d.engine = Some(CliSearchEngine::Naive);
        } else if is_key(&value, "id") {
            d.engine = Some(CliSearchEngine::Id);
        } else if is_key(&value, "priority") {
            d.engine = Some(CliSearchEngine::Priority);
        } else if is_key(&value, "priority-id") {
            d.engine = Some(CliSearchEngine::PriorityId);
        } else {
            return Err(
                message(
                    "invalid engine in config.toml: '",
                    value.as_str(),
                    "', expected 'naive', 'id', 'priority', or 'priority-id'",
                ),
            );
        }
    } else if is_key(key, "results_db") {
        d.results_db = Some(value);
    }
    Ok(())
}

/// Applies one line, `cs[start..end]`.
fn apply_config_line(d: &mut Draft, cs: &Vec<char>, start: usize, end: usize) -> (r: Result<(), String>)
    requires
        start <= end <= cs.len(),
    ensures
        match r {
            Ok(()) => apply_line(draft_model(*old(d)), cs@.subrange(start as int, end as int)) == Ok::<
                SDraft,
                Seq<char>,
            >(draft_model(*final(d))),
            Err(e) => apply_line(draft_model(*old(d)), cs@.subrange(start as int, end as int)) == Err::<
                SDraft,
                Seq<char>,
            >(e@),
        },
{
    let ghost line = cs@.subrange(start as int, end as int);
    let ghost t = trim(line);
    let (a, b) = trim_bounds(cs, start, end);
    if a == b || cs[a] == '#' {
        return Ok(());
    }
    let mut e = a;
    while e < b && cs[e] != '='
        invariant
            a <= e <= b,
            b <= cs.len(),
            t == cs@.subrange(a as int, b as int),
            index_from(t, '=', 0) == index_from(t, '=', (e - a) as nat),
        decreases b - e,
    {
        e += 1;
    }
    if e == b {
        return Ok(());
    }
    proof {
        assert(index_from(t, '=', (e - a) as nat) == Some((e - a) as nat));
        assert(t.take((e - a) as int) =~= cs@.subrange(a as int, e as int));
        assert(t.skip((e - a) + 1) =~= cs@.subrange(e + 1, b as int));
    }
    let (ka, kb) = trim_bounds(cs, a, e);
    let key = text_of(cs, ka, kb);
    let (va, vb) = trim_bounds(cs, e + 1, b);
    let (sa, sb) = strip_bounds(cs, va, vb, '"');
    let value = text_of(cs, sa, sb);
    apply_setting(d, &key, value)
}

/// Parses the text of `config.toml`.
pub fn parse_config(contents: &str) -> (r: Result<AppConfig, String>)
    ensures
        match r {
            Ok(c) => config_of(contents@) == Ok::<SConfig, Seq<char>>(c@),
            Err(e) => config_of(contents@) == Err::<SConfig, Seq<char>>(e@),
        },
{
    let cs = chars_of(contents);
    let mut d = Draft {
        tptp_root: None,
        default_subset_file: None,
        timeout_ms: None,
        max_depth: None,
        max_steps: None,
        max_fresh_terms_per_quantifier: None,
        max_biconditionals: None,
        engine: None,
        results_db: None,
    };
    let mut start: usize = 0;
    let mut i: usize = 0;
    assert(draft_model(d) == empty_draft());
    while i < cs.len()
        invariant
            start <= i <= cs.len(),
            cs@ == contents@,
            config_scan(cs@, 0, 0, empty_draft()) == config_scan(cs@, start as nat, i as nat, draft_model(d)),
        decreases cs.len() - i,
    {
        if cs[i] == '\n' {
            apply_config_line(&mut d, &cs, start, i)?;
            start = i + 1;
        }
        i += 1;
    }
    if start < cs.len() {
        apply_config_line(&mut d, &cs, start, cs.len())?;
    }
    proof {
        reveal_strlit("config.toml is missing tptp_root");
        reveal_strlit("config.toml is missing default_subset_file");
    }
    let tptp_root = match d.tptp_root {
        Some(root) => root,
        None => {
            return Err("config.toml is missing tptp_root".to_owned());
        },
    };
    let default_subset_file = match d.default_subset_file {
        Some(subset) => subset,
        None => {
            return Err("config.toml is missing default_subset_file".to_owned());
        },
    };
    Ok(
        AppConfig {
            tptp_root,
            default_subset_file,
            timeout_ms: d.timeout_ms,
            max_depth: d.max_depth,
            max_steps: d.max_steps,
            max_fresh_terms_per_quantifier: d.max_fresh_terms_per_quantifier,
            max_biconditionals: d.max_biconditionals,
            engine: d.engine,
            results_db: d.results_db,
        },
    )
}

/// Errors that can occur when validating TPTP configuration.
#[derive(Debug, Clone, Copy, PartialEq, Eq, Structural)]
pub enum TptpConfigError {
    /// Missing TPTP root directory from both CLI and config.
    MissingTptpRoot,
    /// Missing subset file from both CLI and config.
    MissingSubsetFile,
}

/// A command-line value, else the configuration's.
pub open spec fn prefer(cli: Option<Seq<char>>, config: Option<Seq<char>>) -> Option<Seq<char>> {
    match cli {
        Some(v) => Some(v),
        None => config,
    }
}

/// Validates and merges TPTP configuration from CLI arguments and
/// `config.toml`: each of the TPTP root and the subset file comes from the
/// flags when given, else from the configuration; the root is checked first.
pub fn validate_and_merge_tptp_config(
    cli_tptp_root: Option<&String>,
    cli_subset_file: Option<&String>,
    config: Option<&AppConfig>,
) -> (r: Result<(String, String), TptpConfigError>)
    ensures
        ({
            let root = prefer(opt_ref_text(cli_tptp_root), config_field(config, true));
            let subset = prefer(opt_ref_text(cli_subset_file), config_field(config, false));
            match r {
                Ok((a, b)) => root == Some(a@) && subset == Some(b@),
                Err(TptpConfigError::MissingTptpRoot) => root is None,
                Err(TptpConfigError::MissingSubsetFile) => root is Some && subset is None,
            }
        }),
{
    let tptp_root = match cli_tptp_root {
        Some(root) => root.clone(),
        None => match config {
            Some(c) => c.tptp_root.clone(),
            None => {
                return Err(TptpConfigError::MissingTptpRoot);
            },
        },
    };
    let subset_file = match cli_subset_file {
        Some(subset) => subset.clone(),
        None => match config {
            Some(c) => c.default_subset_file.clone(),
            None => {
                return Err(TptpConfigError::MissingSubsetFile);
            },
        },
    };
    Ok((tptp_root, subset_file))
}

/// The text of an optional string reference.
pub open spec fn opt_ref_text(o: Option<&String>) -> Option<Seq<char>> {
    match o {
        Some(s) => Some(s@),
        None => None,
    }
}

/// The TPTP root (`root`) or the subset file of an optional configuration.
pub open spec fn config_field(config: Option<&AppConfig>, root: bool) -> Option<Seq<char>> {
    match config {
        Some(c) => Some(if root { c.tptp_root@ } else { c.default_subset_file@ }),
        None => None,
    }
}

/// Where proof results go: nowhere, or a database path.
#[derive(Debug, Clone, PartialEq, Eq)]
pub enum PersistOpt {
    /// Disable persistence for this run.
    Disabled,
    /// Persist to the given file path.
    Path(String),
}

impl PersistOpt {
    /// `false` disables persistence; any other value is a database path.
    pub fn parse(s: &str) -> (r: PersistOpt)
        ensures
            s@ == "false"@ ==> r == PersistOpt::Disabled,
            s@ != "false"@ ==> (r matches PersistOpt::Path(p) && p@ == s@),
    {
        if is_key(&s.to_owned(), "false") {
            PersistOpt::Disabled
        } else {
            PersistOpt::Path(s.to_owned())
        }
    }
}

/// The database used when neither the flags nor `config.toml` name one.
pub open spec fn default_results_db() -> Seq<char> {
    "..\\results.db"@
}

/// Returns the built-in SQLite database path used when no config override is present.
pub fn default_results_db_path() -> (r: String)
    ensures
        r@ == default_results_db(),
{
    "..\\results.db".to_owned()
}

/// Resolves the effective persistence path for a run: `false` disables it,
/// an explicit path wins, and otherwise `config.toml`'s `results_db`, else
/// the built-in path, is used.
pub fn resolve_persist_path(cli_persist: Option<&PersistOpt>, config: Option<&AppConfig>) -> (r: Option<String>)
    ensures
        match cli_persist {
            Some(PersistOpt::Disabled) => r is None,
            Some(PersistOpt::Path(p)) => (r matches Some(q) && q@ == p@),
            None => (r matches Some(q) && q@ == match config {
                Some(c) => match &c.results_db {
                    Some(db) => db@,
                    None => default_results_db(),
                },
                None => default_results_db(),
            }),
        },
{
    match cli_persist {
        Some(PersistOpt::Disabled) => None,
        Some(PersistOpt::Path(p)) => Some(p.clone()),
        None => match config {
            Some(c) => match &c.results_db {
                Some(db) => Some(db.clone()),
                None => Some(default_results_db_path()),
            },
            None => Some(default_results_db_path()),
        },
    }
}

/// Proof-search settings given on the command line.
#[derive(Debug, Clone, Copy, PartialEq, Eq, Structural)]
pub struct ProofFlags {
    pub timeout_ms: Option<u64>,
    pub max_depth: Option<usize>,
    pub max_steps: Option<usize>,
    pub max_fresh_terms_per_quantifier: Option<usize>,
    pub engine: Option<CliSearchEngine>,
}

/// The later of two optional settings.
pub open spec fn later<T>(first: Option<T>, second: Option<T>) -> Option<T> {
    match second {
        Some(v) => Some(v),
        None => first,
    }
}

/// A setting of an optional configuration.
pub open spec fn from_config<T>(config: Option<&AppConfig>, f: spec_fn(AppConfig) -> Option<T>) -> Option<T> {
    match config {
        Some(c) => f(*c),
        None => None,
    }
}

/// A merged setting, else the default.
pub open spec fn or_default<T>(o: Option<T>, d: T) -> T {
    match o {
        Some(v) => v,
        None => d,
    }
}

/// Builds prover options by merging library defaults, `config.toml` settings,
/// and command-line flags in that order; the later source wins.
pub fn prover_options_from_cli(config: Option<&AppConfig>, flags: &ProofFlags) -> (r: ProofOptions)
    ensures
        r.timeout == match later(from_config(config, |c: AppConfig| c.timeout_ms), flags.timeout_ms) {
            Some(ms) => duration_from_millis(ms),
            None => default_options().timeout,
        },
        r.max_depth == or_default(
            later(from_config(config, |c: AppConfig| c.max_depth), flags.max_depth),
            default_options().max_depth,
        ),
        r.max_steps == or_default(
            later(from_config(config, |c: AppConfig| c.max_steps), flags.max_steps),
            default_options().max_steps,
        ),
        r.max_fresh_terms_per_quantifier == or_default(
            later(
                from_config(config, |c: AppConfig| c.max_fresh_terms_per_quantifier),
                flags.max_fresh_terms_per_quantifier,
            ),
            default_options().max_fresh_terms_per_quantifier,
        ),
        r.engine == match later(from_config(config, |c: AppConfig| c.engine), flags.engine) {
            Some(e) => engine_for(e),
            None => default_options().engine,
        },
{
    let mut proof_options = ProofOptions::default();
    if let Some(c) = config {
        if let Some(timeout_ms) = c.timeout_ms {
            proof_options.timeout = millis_duration(timeout_ms);
        }
        if let Some(max_depth) = c.max_depth {
            proof_options.max_depth = max_depth;
        }
        if let Some(max_steps) = c.max_steps {
            proof_options.max_steps = max_steps;
        }
        if let Some(max_fresh_terms_per_quantifier) = c.max_fresh_terms_per_quantifier {
            proof_options.max_fresh_terms_per_quantifier = max_fresh_terms_per_quantifier;
        }
        if let Some(engine) = c.engine {
            proof_options.engine = cli_engine_to_search_engine(engine);
        }
    }
    if let Some(timeout_ms) = flags.timeout_ms {
        proof_options.timeout = millis_duration(timeout_ms);
    }
    if let Some(max_depth) = flags.max_depth {
        proof_options.max_depth = max_depth;
    }
    if let Some(max_steps) = flags.max_steps {
        proof_options.max_steps = max_steps;
    }
    if let Some(max_fresh_terms_per_quantifier) = flags.max_fresh_terms_per_quantifier {
        proof_options.max_fresh_terms_per_quantifier = max_fresh_terms_per_quantifier;
    }
    if let Some(engine) = flags.engine {
        proof_options.engine = cli_engine_to_search_engine(engine);
    }
    proof_options
}

/// Builds the biconditional input policy from the command-line cap, else the
/// configuration's.
pub fn biconditional_policy_from_cli(config: Option<&AppConfig>, max_biconditionals: Option<usize>) -> (r:
    BiconditionalPolicy)
    ensures
        r.max_biconditionals == match max_biconditionals {
            Some(n) => Some(n),
            None => match config {
                Some(c) => c.max_biconditionals,
                None => None,
            },
        },
{
    let mut policy = BiconditionalPolicy::default();
    if let Some(c) = config {
        policy.max_biconditionals = c.max_biconditionals;
    }
    if let Some(n) = max_biconditionals {
        policy.max_biconditionals = Some(n);
    }
    policy
}

} // verus!
