use theorem_prover::cli::report::{pipeline_failure, MarkerAction, ProcessingFailure};
use theorem_prover::SequentBuildError;
use theorem_prover::ast::{Formula, Symbol, Term, Var};
use theorem_prover::cli::subset::tptp_problem_paths;
use theorem_prover::persistence::{default_run_label, run_record};
use theorem_prover::SearchEngine;
use theorem_prover::cli::cancel::CancellationState;
use theorem_prover::cli::config::{parse_config, AppConfig, CliSearchEngine};
use theorem_prover::cli::config_text::config_text;
use theorem_prover::cli::markers::{is_problem_file, parse_failure_marker_contents, parse_failure_marker_path};
use theorem_prover::cli::report::{ProveBatchSummary, ProveFileResult, RulesBatchSummary, RulesInspectionResult};
use theorem_prover::cli::subset::ProblemRun;
use theorem_prover::parser::ParseErrorKind;
use theorem_prover::parser::lexer::LexErrorKind;
use theorem_prover::pipeline::count_non_comment_biconditionals;
use theorem_prover::pipeline::includes::infer_include_root;
use theorem_prover::{parse_problem, ProblemPipelineError, ProofStatus, UnknownReason};

fn sample_config() -> AppConfig {
    AppConfig {
        tptp_root: "../TPTP dir".to_string(),
        default_subset_file: "subset.txt".to_string(),
        timeout_ms: Some(1000),
        max_depth: None,
        max_steps: Some(10000),
        max_fresh_terms_per_quantifier: None,
        max_biconditionals: Some(6),
        engine: Some(CliSearchEngine::PriorityId),
        results_db: None,
    }
}

#[test]
fn config_text_writes_every_setting_with_defaults() {
    let text = config_text(&sample_config());
    assert_eq!(
        text,
        "tptp_root = \"../TPTP dir\"\ndefault_subset_file = \"subset.txt\"\ntimeout_ms = 1000\nmax_depth = 128\nmax_steps = 10000\nmax_fresh_terms_per_quantifier = 1\nresults_db = \"..\\results.db\"\nmax_biconditionals = 6\nengine = \"priority-id\"\n"
    );
}

#[test]
fn config_text_reads_back_with_written_defaults() {
    let config = sample_config();
    let back = parse_config(&config_text(&config)).expect("written config should parse");
    assert_eq!(back.tptp_root, config.tptp_root);
    assert_eq!(back.default_subset_file, config.default_subset_file);
    assert_eq!(back.timeout_ms, Some(1000));
    assert_eq!(back.max_depth, Some(128));
    assert_eq!(back.max_steps, Some(10000));
    assert_eq!(back.max_fresh_terms_per_quantifier, Some(1));
    assert_eq!(back.max_biconditionals, Some(6));
    assert_eq!(back.engine, Some(CliSearchEngine::PriorityId));
    assert_eq!(back.results_db, Some("..\\results.db".to_string()));
}

#[test]
fn config_without_optional_settings_omits_their_lines() {
    let mut config = sample_config();
    config.max_biconditionals = None;
    config.engine = None;
    let text = config_text(&config);
    assert!(!text.contains("max_biconditionals"));
    assert!(!text.contains("engine"));
    let back = parse_config(&text).expect("written config should parse");
    assert_eq!(back.max_biconditionals, None);
    assert_eq!(back.engine, None);
}

#[test]
fn parse_config_reads_quoted_and_numeric_values() {
    let config = parse_config(
        "# comment\ntptp_root = \"..\\\\TPTP\"\n\ndefault_subset_file = subset.txt\ntimeout_ms = 10\nmax_depth = 20\nmax_steps = 30\nmax_fresh_terms_per_quantifier = 2\nmax_biconditionals = 12\nengine = \"id\"\nunknown = 5\nno equals sign\n",
    )
    .expect("config should parse");
    assert_eq!(config.tptp_root, "..\\\\TPTP");
    assert_eq!(config.default_subset_file, "subset.txt");
    assert_eq!(config.timeout_ms, Some(10));
    assert_eq!(config.max_depth, Some(20));
    assert_eq!(config.max_steps, Some(30));
    assert_eq!(config.max_fresh_terms_per_quantifier, Some(2));
    assert_eq!(config.max_biconditionals, Some(12));
    assert_eq!(config.engine, Some(CliSearchEngine::Id));
    assert_eq!(config.results_db, None);
}

#[test]
fn parse_config_reports_each_error() {
    assert_eq!(
        parse_config("default_subset_file = \"s\"\n").unwrap_err(),
        "config.toml is missing tptp_root"
    );
    assert_eq!(parse_config("tptp_root = \"r\"\n").unwrap_err(), "config.toml is missing default_subset_file");
    assert_eq!(
        parse_config("tptp_root = r\ndefault_subset_file = s\ntimeout_ms = soon\n").unwrap_err(),
        "invalid timeout_ms in config.toml: invalid digit found in string"
    );
    assert_eq!(
        parse_config("tptp_root = r\ndefault_subset_file = s\nmax_depth = -1\n").unwrap_err(),
        "invalid max_depth in config.toml: invalid digit found in string"
    );
    assert_eq!(
        parse_config("tptp_root = r\ndefault_subset_file = s\nmax_steps =\n").unwrap_err(),
        "invalid max_steps in config.toml: cannot parse integer from empty string"
    );
    assert_eq!(
        parse_config("tptp_root = r\ndefault_subset_file = s\nengine = \"fast\"\n").unwrap_err(),
        "invalid engine in config.toml: 'fast', expected 'naive', 'id', 'priority', or 'priority-id'"
    );
}

#[test]
fn config_numbers_accept_plus_and_reject_overflow() {
    let config = parse_config("tptp_root = r\ndefault_subset_file = s\ntimeout_ms = +42\nmax_depth = 007\n")
        .expect("config should parse");
    assert_eq!(config.timeout_ms, Some(42));
    assert_eq!(config.max_depth, Some(7));
    assert_eq!(
        parse_config("tptp_root = r\ndefault_subset_file = s\ntimeout_ms = 18446744073709551616\n").unwrap_err(),
        "invalid timeout_ms in config.toml: number too large to fit in target type"
    );
}

#[test]
fn subset_line_stats_need_numbers() {
    let (id, stats) = theorem_prover::cli::subset::parse_subset_problem_line("ABC001+1 FOF THM 0.00 X many 1 0 2")
        .expect("line should parse");
    assert_eq!(id, "ABC001+1");
    assert!(stats.is_none());
    assert!(theorem_prover::cli::subset::parse_subset_problem_line("% comment").is_none());
    assert!(theorem_prover::cli::subset::parse_subset_problem_line("NOPLUS 1 2 3").is_none());
}

#[test]
fn marker_paths_only_for_problem_files() {
    assert_eq!(parse_failure_marker_path("dir/GEO001+1.p"), Some("dir/GEO001+1.p.parse_failed".to_string()));
    assert_eq!(parse_failure_marker_path("dir/GEO001+0.ax"), None);
    assert_eq!(parse_failure_marker_path("dir/.p"), None);
    assert_eq!(parse_failure_marker_path("dir/p"), None);
    assert!(is_problem_file("a.b.p"));
    assert!(!is_problem_file("a.p.bak"));
    assert!(!is_problem_file(".."));
    assert_eq!(
        parse_failure_marker_contents("x.p", "parse error at character 3: unexpected token"),
        "x.p\nparse failed\nparse error at character 3: unexpected token\n"
    );
}

#[test]
fn second_interrupt_before_deferral_still_exits() {
    let mut state = CancellationState::new_uninstalled();
    assert!(!state.is_requested());
    state.record_interrupt();
    state.defer_exit_until_summary();
    assert!(state.is_requested());
    assert_eq!(state.record_interrupt(), theorem_prover::cli::cancel::InterruptEvent::ExitNow(130));
}

#[test]
fn prove_batch_summary_counts_each_outcome_once() {
    let mut summary = ProveBatchSummary::new();
    let run = ProblemRun { path: "dir/A.p".to_string(), subset_stats: None };
    summary.record_result(&run, &ProveFileResult::Status(ProofStatus::Provable, None));
    summary.record_result(&run, &ProveFileResult::Status(ProofStatus::Unknown, Some(UnknownReason::MaxStepsExceeded)));
    summary.record_result(&run, &ProveFileResult::ProcessingFailure);
    summary.record_result(&run, &ProveFileResult::Status(ProofStatus::Cancelled, None));
    assert_eq!(summary.processed, 4);
    assert_eq!(summary.provable + summary.unknown + summary.failed_to_process + summary.cancelled, 4);
    assert_eq!(summary.failed_files, vec!["dir/A.p".to_string()]);
    assert_eq!(summary.interrupted_problem, Some("A".to_string()));
    assert_eq!(summary.tsv_line(), "summary\t4\t0\t1\t0\t0\t1\t1\t0\t0\t1\tA");
}

#[test]
fn rules_batch_summary_counts_failures() {
    let mut summary = RulesBatchSummary::new();
    let run = ProblemRun { path: "B.p".to_string(), subset_stats: None };
    summary.record(&run, RulesInspectionResult { success: true, had_rule_match: true, skipped_by_policy: false });
    summary.record(&run, RulesInspectionResult { success: false, had_rule_match: false, skipped_by_policy: false });
    assert_eq!(summary.processed, 2);
    assert_eq!(summary.succeeded, 1);
    assert_eq!(summary.failed, 1);
    assert_eq!(summary.rule_matches, 1);
    assert_eq!(summary.failed_files, vec!["B.p".to_string()]);
}

#[test]
fn include_root_is_parent_of_tptp_directories() {
    assert_eq!(infer_include_root("/data/TPTP/Problems/GEO/GEO1.p"), Ok("/data/TPTP".to_string()));
    assert_eq!(infer_include_root("/data/TPTP/Axioms/GEO0.ax"), Ok("/data/TPTP".to_string()));
    assert_eq!(infer_include_root("/work/p.p"), Ok("/work".to_string()));
    assert_eq!(infer_include_root("p.p"), Ok("".to_string()));
    assert_eq!(infer_include_root("/Problems/x.p"), Ok("/".to_string()));
    assert_eq!(
        infer_include_root("/"),
        Err(ProblemPipelineError::Include("failed to determine include root for /".to_string()))
    );
}

#[test]
fn biconditional_count_skips_comment_lines() {
    assert_eq!(count_non_comment_biconditionals("fof(a,axiom,p <=> q).\n  % p <=> q\nfof(b,axiom,(p<=>q)<=>r).\n"), 3);
    assert_eq!(count_non_comment_biconditionals(""), 0);
}

#[test]
fn each_lexer_error_is_reported() {
    let kind = |input: &str| parse_problem(input).unwrap_err().kind;
    assert_eq!(kind("fof(a,axiom,p # q)."), ParseErrorKind::Lex(LexErrorKind::UnexpectedCharacter));
    assert_eq!(kind("fof('a,axiom,p)."), ParseErrorKind::Lex(LexErrorKind::UnterminatedQuote));
    assert_eq!(kind("/* open"), ParseErrorKind::Lex(LexErrorKind::UnterminatedComment));
    assert_eq!(kind("fof(a,axiom,p(1e))."), ParseErrorKind::Lex(LexErrorKind::MalformedNumber));
    assert_eq!(kind("fof(a,axiom,p"), ParseErrorKind::UnexpectedEnd);
    assert_eq!(kind("fof(a,axiom,p))."), ParseErrorKind::UnexpectedToken);
}

#[test]
fn parse_error_message_names_offset_and_cause() {
    let err = parse_problem("fof(a,axiom,p))).").unwrap_err();
    assert_eq!(err.to_string(), format!("parse error at character {}: unexpected token", err.offset));
}

#[test]
fn problem_paths_name_the_domain_directory() {
    let (exact, base) =
        tptp_problem_paths(&"/tptp".to_string(), &"LCL662+1.001".to_string()).expect("id names a domain");
    assert_eq!(exact, "/tptp/Problems/LCL/LCL662+1.001.p");
    assert_eq!(base, "/tptp/Problems/LCL/LCL662+1.p");
    assert_eq!(tptp_problem_paths(&"/tptp".to_string(), &"A+".to_string()), None);
}

#[test]
fn run_records_name_engine_and_saturate_counts() {
    assert_eq!(default_run_label(SearchEngine::PriorityId, "1700000000"), "priority_iterative_deepening-1700000000");
    let record = run_record(
        "label".to_string(),
        "1700000000".to_string(),
        SearchEngine::IterativeDeepening,
        1000,
        usize::MAX,
        10,
        1,
        "mixed".to_string(),
    );
    assert_eq!(record.engine, "iterative_deepening");
    assert_eq!(record.max_depth, u32::MAX);
    assert_eq!(record.max_steps, 10);
    assert_eq!(record.max_fresh_terms_per_quantifier, 1);
}

#[test]
fn substitution_leaves_formulas_without_free_occurrences_alone() {
    let x = Var { name: "X".to_string() };
    let body = Formula::predicate("p", vec![Term::Var(x.clone())]);
    let closed = Formula::ForAll(vec![x], Box::new(body));
    let replacement = Term::Const(Symbol::User("a".to_string()));
    assert_eq!(closed.substitute_var("X", &replacement), closed);
    let open = Formula::predicate("q", vec![Term::Var(Var { name: "Y".to_string() })]);
    assert_eq!(open.substitute_var("X", &replacement), open);
}

#[test]
fn pipeline_failures_decide_the_marker() {
    let (f, m, msg) = pipeline_failure(&ProblemPipelineError::Parse("bad".to_string()));
    assert_eq!(f, ProcessingFailure::ParseFailed);
    assert_eq!(m, MarkerAction::Write("bad".to_string()));
    assert_eq!(msg, "bad");
    let (f, m, _) = pipeline_failure(&ProblemPipelineError::Include("missing".to_string()));
    assert_eq!(f, ProcessingFailure::IncludeFailed);
    assert_eq!(m, MarkerAction::Clear);
    let (f, m, msg) = pipeline_failure(&ProblemPipelineError::SequentBuild(SequentBuildError::MissingConjecture));
    assert_eq!(f, ProcessingFailure::SequentBuildFailed);
    assert_eq!(m, MarkerAction::Keep);
    assert_eq!(msg, "sequent construction failed: MissingConjecture");
}
