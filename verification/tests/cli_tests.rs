use theorem_prover::cli::cancel::{CancellationState, InterruptEvent};
use theorem_prover::cli::config::{
    default_results_db_path, resolve_persist_path, validate_and_merge_tptp_config, AppConfig, PersistOpt,
    TptpConfigError,
};
use theorem_prover::cli::report::{
    human_proof_status, next_batch_step, prove_batch_exit_code, result_record_for_problem, rules_batch_exit_code,
    stops_prove_batch, BatchStep, ProveFileResult, RulesInspectionResult, EXIT_CANCELLED, EXIT_FAILURE,
};
use theorem_prover::cli::subset::{parse_subset_problem_line, ProblemRun};
use theorem_prover::{ProofStatus, UnknownReason};

fn config_with(tptp_root: &str, subset: &str, results_db: Option<&str>) -> AppConfig {
    AppConfig {
        tptp_root: tptp_root.to_string(),
        default_subset_file: subset.to_string(),
        timeout_ms: None,
        max_depth: None,
        max_steps: None,
        max_fresh_terms_per_quantifier: None,
        max_biconditionals: None,
        engine: None,
        results_db: results_db.map(|s| s.to_string()),
    }
}

fn problem_run(path: &str) -> ProblemRun {
    ProblemRun { path: path.to_string(), subset_stats: None }
}

#[test]
fn first_interrupt_exits_immediately_before_summary_phase() {
    let mut cancellation = CancellationState::uninstalled_for_test();

    assert_eq!(cancellation.record_interrupt(), InterruptEvent::ExitNow(EXIT_CANCELLED));
    assert!(cancellation.is_requested());
}

#[test]
fn second_interrupt_exits_immediately_during_summary_phase() {
    let mut cancellation = CancellationState::uninstalled_for_test();
    cancellation.defer_exit_until_summary();

    assert_eq!(cancellation.record_interrupt(), InterruptEvent::FirstCancellation);
    assert!(cancellation.is_requested());

    assert_eq!(cancellation.record_interrupt(), InterruptEvent::ExitNow(EXIT_CANCELLED));
    assert!(cancellation.is_requested());
}

#[test]
fn prove_batch_exit_code_prefers_ctrl_c_exit_code_after_summary() {
    let mut cancellation = CancellationState::uninstalled_for_test();
    cancellation.defer_exit_until_summary();
    cancellation.record_interrupt();

    assert_eq!(prove_batch_exit_code(0, 0, cancellation.is_requested()), Some(EXIT_CANCELLED));
}

#[test]
fn rules_batch_exit_code_uses_failure_exit_code_for_failed_runs() {
    assert_eq!(rules_batch_exit_code(false, 1), Some(EXIT_FAILURE));
}

#[test]
fn rules_batch_exit_code_uses_ctrl_c_exit_code_for_cancelled_runs() {
    assert_eq!(rules_batch_exit_code(true, 0), Some(EXIT_CANCELLED));
}

#[test]
fn validate_and_merge_tptp_config_prefers_cli_overrides() {
    let tptp_root = "/cli/tptp".to_string();
    let subset_file = "/cli/subset.txt".to_string();
    let config = config_with("/config/tptp", "/config/subset.txt", None);

    let result = validate_and_merge_tptp_config(Some(&tptp_root), Some(&subset_file), Some(&config));

    assert!(result.is_ok());
    let (resolved_root, resolved_file) = result.unwrap();
    assert_eq!(resolved_root, tptp_root);
    assert_eq!(resolved_file, subset_file);
}

#[test]
fn validate_and_merge_tptp_config_falls_back_to_config() {
    let config = config_with("/config/tptp", "/config/subset.txt", None);

    let result = validate_and_merge_tptp_config(None, None, Some(&config));

    assert!(result.is_ok());
    let (resolved_root, resolved_file) = result.unwrap();
    assert_eq!(resolved_root, config.tptp_root);
    assert_eq!(resolved_file, config.default_subset_file);
}

#[test]
fn validate_and_merge_tptp_config_fails_when_missing_tptp_root() {
    let result = validate_and_merge_tptp_config(None, None, None);
    assert!(matches!(result, Err(TptpConfigError::MissingTptpRoot)));
}

#[test]
fn validate_and_merge_tptp_config_fails_when_missing_subset_file() {
    let tptp_root = "/cli/tptp".to_string();
    let result = validate_and_merge_tptp_config(Some(&tptp_root), None, None);
    assert!(matches!(result, Err(TptpConfigError::MissingSubsetFile)));
}

#[test]
fn validate_and_merge_tptp_config_cli_partial_falls_back_to_config() {
    let cli_tptp_root = "/cli/tptp".to_string();
    let config = config_with("/config/tptp", "/config/subset.txt", None);

    let result = validate_and_merge_tptp_config(Some(&cli_tptp_root), None, Some(&config));

    assert!(result.is_ok());
    let (resolved_root, resolved_file) = result.unwrap();
    assert_eq!(resolved_root, cli_tptp_root);
    assert_eq!(resolved_file, config.default_subset_file);
}

#[test]
fn resolve_persist_path_disabled_returns_none() {
    let config = config_with(".", "subset.txt", Some("./results.db"));
    let result = resolve_persist_path(Some(&PersistOpt::Disabled), Some(&config));
    assert_eq!(result, None);
}

#[test]
fn resolve_persist_path_with_path_returns_path() {
    let config = config_with(".", "subset.txt", None);
    let result = resolve_persist_path(Some(&PersistOpt::Path("./custom.db".to_string())), Some(&config));
    assert_eq!(result, Some("./custom.db".to_string()));
}

#[test]
fn resolve_persist_path_none_uses_config() {
    let config = config_with(".", "subset.txt", Some("./results.db"));
    let result = resolve_persist_path(None, Some(&config));
    assert_eq!(result, Some("./results.db".to_string()));
}

#[test]
fn resolve_persist_path_none_without_config_uses_default() {
    let result = resolve_persist_path(None, None);
    assert_eq!(result, Some(default_results_db_path()));
}

#[test]
fn human_proof_status_uses_stable_labels() {
    assert_eq!(human_proof_status(&ProofStatus::Provable), "provable");
    assert_eq!(human_proof_status(&ProofStatus::NotProvable), "not_provable");
    assert_eq!(human_proof_status(&ProofStatus::Unknown), "unknown");
    assert_eq!(human_proof_status(&ProofStatus::Cancelled), "cancelled");
}

#[test]
fn result_record_for_problem_maps_all_unknown_reasons() {
    let cases = [
        (UnknownReason::BiconditionalCapExceeded, "biconditional_cap"),
        (UnknownReason::MaxDepthExceeded, "max_depth"),
        (UnknownReason::MaxStepsExceeded, "max_steps"),
        (UnknownReason::QuantifierBudgetExceeded, "quantifier_budget"),
    ];

    for (reason, expected_label) in cases {
        let result = ProveFileResult::Status(ProofStatus::Unknown, Some(reason));
        let record = result_record_for_problem(&problem_run("sample.p"), &result, 123)
            .expect("status results should be persisted");

        assert_eq!(record.problem_id, "sample");
        assert_eq!(record.path, "sample.p");
        assert_eq!(record.status, "unknown");
        assert_eq!(record.elapsed_ms, 123);
        assert_eq!(record.unknown_reason.as_deref(), Some(expected_label));
    }
}

#[test]
fn result_record_for_problem_skips_processing_failures() {
    let result = ProveFileResult::ProcessingFailure;
    assert!(result_record_for_problem(&problem_run("sample.p"), &result, 0).is_none());
}

#[test]
fn parse_subset_problem_line_extracts_stats() {
    let line = "SYN001+1            FOF THM   0.00 FOF_THM_PRP                  1      1      0      1";
    let (problem_id, stats) = parse_subset_problem_line(line).expect("line should parse");
    let stats = stats.expect("stats should be present");

    assert_eq!(problem_id, "SYN001+1");
    assert_eq!(stats.formulae, 1);
    assert_eq!(stats.atoms, 1);
}

#[test]
fn batch_steps_stop_on_cancellation_and_skip_marked_files() {
    assert_eq!(next_batch_step(true, true), BatchStep::Stop);
    assert_eq!(next_batch_step(true, false), BatchStep::Stop);
    assert_eq!(next_batch_step(false, true), BatchStep::Skip);
    assert_eq!(next_batch_step(false, false), BatchStep::Run);

    assert!(stops_prove_batch(&ProveFileResult::Status(ProofStatus::Cancelled, None)));
    assert!(!stops_prove_batch(&ProveFileResult::Status(ProofStatus::Provable, None)));
    assert!(!stops_prove_batch(&ProveFileResult::ProcessingFailure));
}

#[test]
fn rules_inspection_results_per_case() {
    let capped = RulesInspectionResult::skipped_by_cap();
    assert!(capped.success && !capped.had_rule_match && capped.skipped_by_policy);
    let with_matches = RulesInspectionResult::inspected(3);
    assert!(with_matches.success && with_matches.had_rule_match && !with_matches.skipped_by_policy);
    let without = RulesInspectionResult::inspected(0);
    assert!(without.success && !without.had_rule_match);
    let failed = RulesInspectionResult::failed();
    assert!(!failed.success && !failed.had_rule_match && !failed.skipped_by_policy);
}
