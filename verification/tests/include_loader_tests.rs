use theorem_prover::pipeline::includes::{checked_file_result, parse_file, prepare_loaded_problem, LoadedProblem};
use theorem_prover::{
    build_problem_sequent_from_path, run_problem_from_path, run_problem_from_path_with_options, BiconditionalPolicy,
    ProblemFiles, ProblemPipelineError, ProofStatus, RunProblemOptions, UnknownReason,
};

/// Problem files held in memory, keyed by absolute path.
struct MemFiles {
    files: Vec<(String, String)>,
}

impl MemFiles {
    fn new() -> Self {
        MemFiles { files: Vec::new() }
    }

    fn write_file(&mut self, path: &str, contents: &str) {
        self.files.push((path.to_string(), contents.to_string()));
    }

    fn find(&self, path: &str) -> Option<&String> {
        self.files.iter().find(|(p, _)| p == path).map(|(_, c)| c)
    }
}

impl ProblemFiles for MemFiles {
    fn canonicalize(&self, path: &str) -> Result<String, String> {
        match self.find(path) {
            Some(_) => Ok(path.to_string()),
            None => Err("No such file or directory (os error 2)".to_string()),
        }
    }

    fn read_text(&self, path: &str) -> Result<String, String> {
        match self.find(path) {
            Some(c) => Ok(c.clone()),
            None => Err("No such file or directory (os error 2)".to_string()),
        }
    }
}

const PROBLEM: &str = "/data/tptp/Problems/GEO/GEO171+2.p";

#[test]
fn build_problem_sequent_from_path_loads_plain_includes_into_premises() {
    let mut files = MemFiles::new();
    files.write_file(PROBLEM, "\ninclude('Axioms/GEO008+0.ax').\nfof(con,conjecture,p).\n");
    files.write_file("/data/tptp/Axioms/GEO008+0.ax", "\nfof(ax_1,axiom,p).\n");

    let sequent = build_problem_sequent_from_path(&files, PROBLEM)
        .expect("loader should merge included axioms into the initial sequent");

    assert_eq!(sequent.left.len(), 1);
    assert_eq!(sequent.right.len(), 1);
}

#[test]
fn run_problem_from_path_proves_problem_using_included_axioms() {
    let mut files = MemFiles::new();
    files.write_file(PROBLEM, "\ninclude('Axioms/GEO008+0.ax').\nfof(con,conjecture,p).\n");
    files.write_file("/data/tptp/Axioms/GEO008+0.ax", "\nfof(ax_1,axiom,p).\n");

    let result = run_problem_from_path(&files, PROBLEM).expect("loader-backed pipeline should succeed");

    assert_eq!(result.status, ProofStatus::Provable);
}

#[test]
fn build_problem_sequent_from_path_deduplicates_repeated_includes() {
    let mut files = MemFiles::new();
    files.write_file(
        PROBLEM,
        "\ninclude('Axioms/GEO008+0.ax').\ninclude('Axioms/GEO008+0.ax').\nfof(con,conjecture,p).\n",
    );
    files.write_file("/data/tptp/Axioms/GEO008+0.ax", "\nfof(ax_1,axiom,p).\n");

    let sequent = build_problem_sequent_from_path(&files, PROBLEM).expect("repeated includes should be loaded once");

    assert_eq!(sequent.left.len(), 1);
}

#[test]
fn build_problem_sequent_from_path_reports_missing_include_file() {
    let mut files = MemFiles::new();
    files.write_file(PROBLEM, "\ninclude('Axioms/MISSING.ax').\nfof(con,conjecture,p).\n");

    let err = build_problem_sequent_from_path(&files, PROBLEM).expect_err("missing includes should fail explicitly");

    match err {
        ProblemPipelineError::Include(message) => {
            assert!(message.contains("Axioms/MISSING.ax"), "got: {message}");
        }
        other => panic!("expected include load failure, got {other:?}"),
    }
}

#[test]
fn build_problem_sequent_from_path_reports_include_cycles() {
    let mut files = MemFiles::new();
    files.write_file(PROBLEM, "\ninclude('Axioms/A.ax').\nfof(con,conjecture,p).\n");
    files.write_file("/data/tptp/Axioms/A.ax", "\ninclude('Axioms/B.ax').\nfof(ax_a,axiom,p).\n");
    files.write_file("/data/tptp/Axioms/B.ax", "\ninclude('Axioms/A.ax').\nfof(ax_b,axiom,p).\n");

    let err = build_problem_sequent_from_path(&files, PROBLEM).expect_err("include cycles should fail explicitly");

    match err {
        ProblemPipelineError::Include(message) => {
            assert!(message.contains("cycle"), "got: {message}");
        }
        other => panic!("expected include cycle failure, got {other:?}"),
    }
}

#[test]
fn build_problem_sequent_from_path_rejects_conjectures_inside_included_files() {
    let mut files = MemFiles::new();
    files.write_file(PROBLEM, "\ninclude('Axioms/GEO008+0.ax').\nfof(con,conjecture,p).\n");
    files.write_file("/data/tptp/Axioms/GEO008+0.ax", "\nfof(bad,conjecture,p).\n");

    let err = build_problem_sequent_from_path(&files, PROBLEM)
        .expect_err("included conjectures should fail explicitly");

    match err {
        ProblemPipelineError::Include(message) => {
            assert!(message.contains("conjecture"), "got: {message}");
        }
        other => panic!("expected included conjecture failure, got {other:?}"),
    }
}

#[test]
fn included_premises_follow_the_problem_own_premises() {
    let mut files = MemFiles::new();
    files.write_file(PROBLEM, "include('Axioms/A.ax').\nfof(own,axiom,q).\nfof(con,conjecture,p).\n");
    files.write_file("/data/tptp/Axioms/A.ax", "fof(ax_a,axiom,p).\nfof(ax_b,axiom,r).\n");

    let sequent = build_problem_sequent_from_path(&files, PROBLEM).expect("problem should load");

    assert_eq!(sequent.left.len(), 3);
    assert_eq!(sequent.left[0].to_string(), "q");
    assert_eq!(sequent.left[1].to_string(), "p");
    assert_eq!(sequent.left[2].to_string(), "r");
}

#[test]
fn missing_problem_file_is_reported_with_its_path() {
    let files = MemFiles::new();
    let err = build_problem_sequent_from_path(&files, "/nowhere/x.p").expect_err("missing file should fail");
    match err {
        ProblemPipelineError::Include(message) => {
            assert_eq!(message, "failed to resolve /nowhere/x.p: No such file or directory (os error 2)");
        }
        other => panic!("expected include failure, got {other:?}"),
    }
}

#[test]
fn include_root_falls_back_to_the_problem_directory() {
    let mut files = MemFiles::new();
    files.write_file("/work/p.p", "include('ax.ax').\nfof(con,conjecture,p).\n");
    files.write_file("/work/ax.ax", "fof(a,axiom,p).\n");

    let result = run_problem_from_path(&files, "/work/p.p").expect("problem should load");
    assert_eq!(result.status, ProofStatus::Provable);
}

#[test]
fn file_results_and_parsing_steps_report_exact_errors() {
    assert_eq!(checked_file_result("failed to read ", "/a.p", Ok("text".to_string())), Ok("text".to_string()));
    assert_eq!(
        checked_file_result("failed to read ", "/a.p", Err("denied".to_string())),
        Err(ProblemPipelineError::Include("failed to read /a.p: denied".to_string()))
    );
    assert_eq!(
        parse_file("/ax.ax", "fof(c,conjecture,p).", true),
        Err(ProblemPipelineError::Include("included file /ax.ax contains a conjecture".to_string()))
    );
    assert!(parse_file("/p.p", "fof(c,conjecture,p).", false).is_ok());
    assert!(matches!(parse_file("/p.p", "fof(c,", false), Err(ProblemPipelineError::Parse(_))));
    let parsed = parse_file("/p.p", "fof(a,axiom,p).", false).unwrap();
    let loaded = LoadedProblem { input: "fof(a,axiom,p).".to_string(), parsed };
    assert_eq!(
        prepare_loaded_problem(loaded, theorem_prover::BiconditionalPolicy::default()).err(),
        Some(ProblemPipelineError::SequentBuild(theorem_prover::SequentBuildError::MissingConjecture))
    );
}

#[test]
fn biconditional_cap_is_decided_from_the_top_level_text_before_parsing() {
    let mut files = MemFiles::new();
    files.write_file(PROBLEM, "p <=> q <=> r <=> s, not even TPTP (((\ninclude('Axioms/MISSING.ax').\n");

    let options = RunProblemOptions {
        biconditional_policy: BiconditionalPolicy { max_biconditionals: Some(2) },
        ..RunProblemOptions::default()
    };
    let result = run_problem_from_path_with_options(&files, PROBLEM, options).expect("cap answer expected");
    assert_eq!(result.status, ProofStatus::Unknown);
    assert_eq!(result.unknown_reason, Some(UnknownReason::BiconditionalCapExceeded));
}
