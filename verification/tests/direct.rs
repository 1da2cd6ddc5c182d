use code_memory::direct::{
    ensure_closed_status, execution_error_message, reconcile_execution, tally_executions, ExecutionAssessment,
    ExecutionContextError, ExecutionRecord, ProviderExecutionMode,
};
use code_memory::model::ProgrammingLanguage;
use code_memory::model::RepositoryPath;
use code_memory::schedule::{is_vue, root_scope, sanitize_scope, OmissionReason};

fn strings(items: &[&str]) -> Vec<String> {
    items.iter().map(|s| s.to_string()).collect()
}

#[test]
fn execution_statuses_form_a_closed_vocabulary() {
    assert!(ensure_closed_status("indexed").is_ok());
    assert!(ensure_closed_status("excluded-by-project-config").is_ok());
    assert_eq!(
        ensure_closed_status("done").unwrap_err(),
        "provider emitted an unknown execution status: done"
    );
}

#[test]
fn an_exact_project_execution_runs_every_planned_input() {
    let root = RepositoryPath::parse("svc").unwrap();
    let r = reconcile_execution(
        ProviderExecutionMode::Project,
        "indexed",
        Some(&root),
        &root,
        &strings(&["svc/tsconfig.json"]),
        &strings(&["svc/tsconfig.json"]),
        &strings(&["node"]),
        &strings(&["node"]),
        0,
    )
    .unwrap();
    assert_eq!(r.assessment, ExecutionAssessment::Exact);
    assert!(r.planned_only_config_files.is_empty());
    assert!(!r.generated_or_fallback);
}

#[test]
fn missing_inputs_make_an_execution_partial() {
    let root = RepositoryPath::parse("svc").unwrap();
    let r = reconcile_execution(
        ProviderExecutionMode::SourceOnlyFallback,
        "indexed-partial",
        Some(&root),
        &root,
        &strings(&["svc/a.json", "svc/b.json"]),
        &strings(&["svc/a.json"]),
        &strings(&["x", "y"]),
        &strings(&["x", "z"]),
        0,
    )
    .unwrap();
    assert_eq!(r.assessment, ExecutionAssessment::Partial);
    assert_eq!(r.planned_only_config_files, strings(&["svc/b.json"]));
    assert_eq!(r.actual_only_dimensions, strings(&["z"]));
    assert_eq!(r.planned_only_dimensions, strings(&["y"]));
    assert!(r.generated_or_fallback);
    let project = reconcile_execution(
        ProviderExecutionMode::Project,
        "indexed",
        Some(&root),
        &root,
        &[],
        &[],
        &[],
        &[],
        2,
    )
    .unwrap();
    assert_eq!(project.assessment, ExecutionAssessment::Partial);
}

#[test]
fn executions_that_contradict_their_plan_unit_are_refused() {
    let root = RepositoryPath::parse("svc").unwrap();
    let other = RepositoryPath::parse("web").unwrap();
    assert_eq!(
        reconcile_execution(ProviderExecutionMode::NotExecuted, "indexed", None, &root, &[], &[], &[], &[], 0)
            .unwrap_err(),
        ExecutionContextError::IndexedWithoutExecution
    );
    let skipped = reconcile_execution(
        ProviderExecutionMode::NotExecuted,
        "missing-tool",
        None,
        &root,
        &strings(&["svc/a.json"]),
        &[],
        &[],
        &[],
        0,
    )
    .unwrap();
    assert_eq!(skipped.assessment, ExecutionAssessment::NotExecuted);
    assert_eq!(skipped.planned_only_config_files, strings(&["svc/a.json"]));
    assert_eq!(
        reconcile_execution(ProviderExecutionMode::Project, "indexed", None, &root, &[], &[], &[], &[], 0)
            .unwrap_err(),
        ExecutionContextError::MissingAnalysisRoot
    );
    assert_eq!(
        reconcile_execution(ProviderExecutionMode::Project, "indexed", Some(&other), &root, &[], &[], &[], &[], 0)
            .unwrap_err(),
        ExecutionContextError::RootMismatch { actual: "web".to_string() }
    );
    assert_eq!(
        reconcile_execution(
            ProviderExecutionMode::Composite,
            "indexed",
            Some(&root),
            &root,
            &[],
            &strings(&["other/tsconfig.json"]),
            &[],
            &[],
            0
        )
        .unwrap_err(),
        ExecutionContextError::UnplannedConfiguration { files: strings(&["other/tsconfig.json"]) }
    );
    assert_eq!(
        reconcile_execution(
            ProviderExecutionMode::Project,
            "indexed",
            Some(&root),
            &root,
            &[],
            &[],
            &[],
            &strings(&["gpu"]),
            0
        )
        .unwrap_err(),
        ExecutionContextError::UnplannedDimensions { dimensions: strings(&["gpu"]) }
    );
}

#[test]
fn execution_errors_name_what_contradicts_the_plan() {
    let go = ProgrammingLanguage::Go;
    assert_eq!(
        execution_error_message(&ExecutionContextError::IndexedWithoutExecution, go, "indexed", "u1", "svc"),
        "go batch claims indexed without an executed provider context"
    );
    assert_eq!(
        execution_error_message(&ExecutionContextError::MissingAnalysisRoot, go, "indexed", "u1", "svc"),
        "go executed provider context omitted its analysis root"
    );
    assert_eq!(
        execution_error_message(
            &ExecutionContextError::RootMismatch { actual: "web".to_string() },
            go,
            "indexed",
            "u1",
            "svc"
        ),
        "go provider executed root web but AnalysisPlan unit u1 requires svc"
    );
    assert_eq!(
        execution_error_message(
            &ExecutionContextError::UnplannedConfiguration { files: strings(&["a.json", "b.json"]) },
            go,
            "indexed",
            "u1",
            "svc"
        ),
        "go provider executed with configuration outside AnalysisPlan unit u1: a.json, b.json"
    );
    assert_eq!(
        execution_error_message(
            &ExecutionContextError::UnplannedDimensions { dimensions: strings(&["cfg=gpu"]) },
            go,
            "indexed",
            "u1",
            "svc"
        ),
        "go provider executed dimensions outside AnalysisPlan unit u1: cfg=gpu"
    );
}

#[test]
fn unplanned_configuration_is_reported_sorted_and_once() {
    let root = RepositoryPath::parse("svc").unwrap();
    assert_eq!(
        reconcile_execution(
            ProviderExecutionMode::Composite,
            "indexed",
            Some(&root),
            &root,
            &strings(&["svc/a.json"]),
            &strings(&["z.json", "svc/a.json", "b.json", "z.json"]),
            &[],
            &[],
            0
        )
        .unwrap_err(),
        ExecutionContextError::UnplannedConfiguration { files: strings(&["b.json", "z.json"]) }
    );
}

#[test]
fn scope_identities_are_sanitized_paths() {
    assert_eq!(sanitize_scope("packages/a-b_c.json"), "packages_a-b_c_json");
    assert_eq!(sanitize_scope("é"), "_");
    assert_eq!(root_scope(&RepositoryPath::root()), "root");
    assert_eq!(root_scope(&RepositoryPath::parse("apps/web").unwrap()), "apps_web");
    assert!(is_vue(&RepositoryPath::parse("src/App.Vue").unwrap()));
    assert!(!is_vue(&RepositoryPath::parse("src/vue.ts").unwrap()));
    assert_eq!(OmissionReason::ProjectModelOnly.as_str(), "project-model-only");
    assert_eq!(OmissionReason::ProjectConfigExcluded.as_str(), "project-config-excluded");
}

fn record(mode: ProviderExecutionMode, assessment: ExecutionAssessment, files: u64, missing: &[&str]) -> ExecutionRecord {
    ExecutionRecord { mode, assessment, source_file_count: files, missing_dimensions: strings(missing) }
}

#[test]
fn a_run_tallies_each_execution_once() {
    let records = vec![
        record(ProviderExecutionMode::NotExecuted, ExecutionAssessment::NotExecuted, 5, &["toolchain", "sdk"]),
        record(ProviderExecutionMode::Project, ExecutionAssessment::Exact, 10, &[]),
        record(ProviderExecutionMode::Composite, ExecutionAssessment::Partial, 3, &["sdk"]),
        record(ProviderExecutionMode::GeneratedProject, ExecutionAssessment::Partial, 2, &["sdk"]),
    ];
    let tally = tally_executions(&records);
    assert_eq!(tally.execution_count, 4);
    assert_eq!(tally.exact_execution_count, 1);
    assert_eq!(tally.partial_execution_count, 2);
    assert_eq!(tally.not_executed_count, 1);
    assert_eq!(tally.generated_or_fallback_count, 2);
    assert_eq!(tally.source_file_count, 15);
    assert_eq!(
        tally.missing_dimension_counts,
        vec![("sdk".to_string(), 3), ("toolchain".to_string(), 1)]
    );
    let empty = tally_executions(&[]);
    assert_eq!(empty.execution_count, 0);
    assert!(empty.missing_dimension_counts.is_empty());
}
