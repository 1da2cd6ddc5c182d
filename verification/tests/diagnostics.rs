use code_memory::capabilities::{capability_policies, AdapterMeasurement, DeclaredSupport};
use code_memory::diagnostics::{
    coverage_gap, diagnostic_gap, diagnostic_issue, file_coverage_state, provider_resource_gap,
    AnalysisErrorCode, AnalysisScope, AnalysisStage, Diagnostic, DiagnosticCode,
    FileCoverageOutput, FileCoverageState,
};
use code_memory::inventory::ProviderProtocol;
use code_memory::model::{AnalysisCapability, AnalysisUnitId, ProgrammingLanguage};
use code_memory::resolver::GapCode;

fn diagnostic(code: DiagnosticCode, message: &str, path: Option<&str>) -> Diagnostic {
    Diagnostic { code, message: message.to_string(), path: path.map(|p| p.to_string()) }
}

fn all_languages() -> Vec<ProgrammingLanguage> {
    vec![
        ProgrammingLanguage::TypeScript,
        ProgrammingLanguage::JavaScript,
        ProgrammingLanguage::Python,
        ProgrammingLanguage::Java,
        ProgrammingLanguage::CSharp,
        ProgrammingLanguage::C,
        ProgrammingLanguage::Cpp,
        ProgrammingLanguage::Go,
        ProgrammingLanguage::Rust,
        ProgrammingLanguage::Dart,
    ]
}

#[test]
fn provider_timeout_is_a_partial_resource_gap_not_a_source_exclusion() {
    let diagnostics =
        vec![diagnostic(DiagnosticCode::ProviderTimeout, "provider time budget exhausted", None)];
    let resource_gap = provider_resource_gap(&diagnostics);
    let coverage = FileCoverageOutput {
        status: "excluded".to_string(),
        reason: Some("provider-excluded".to_string()),
    };
    assert_eq!(resource_gap, Some(GapCode::QueryBudgetExceeded));
    assert_eq!(
        file_coverage_state(Some(&coverage), "excluded", resource_gap),
        (FileCoverageState::Partial, vec![GapCode::QueryBudgetExceeded])
    );
}

#[test]
fn a_large_workspace_budget_has_a_distinct_stable_gap() {
    let diagnostics =
        vec![diagnostic(DiagnosticCode::LargeWorkspacePartial, "workspace budget exhausted", None)];
    assert_eq!(provider_resource_gap(&diagnostics), Some(GapCode::WorkspaceBudgetExceeded));
}

#[test]
fn capability_registry_is_closed_and_unique_for_every_language() {
    for language in all_languages() {
        for protocol in [
            ProviderProtocol::Scip,
            ProviderProtocol::LanguageServerProtocol,
            ProviderProtocol::CompilerApi,
        ] {
            let policies = capability_policies(language, protocol);
            assert_eq!(policies.len(), 9);
            let mut capabilities = policies.iter().map(|policy| policy.capability).collect::<Vec<_>>();
            capabilities.sort();
            capabilities.dedup();
            assert_eq!(
                capabilities,
                vec![
                    AnalysisCapability::ProjectStructure,
                    AnalysisCapability::Definitions,
                    AnalysisCapability::Imports,
                    AnalysisCapability::Exports,
                    AnalysisCapability::DirectCalls,
                    AnalysisCapability::TypeRelations,
                    AnalysisCapability::Overrides,
                    AnalysisCapability::OrmQuery,
                    AnalysisCapability::EventExternal,
                ]
            );
        }
    }
}

#[test]
fn imports_use_full_policy_only_because_the_independent_site_audit_can_downgrade_it() {
    for language in all_languages() {
        for protocol in [
            ProviderProtocol::Scip,
            ProviderProtocol::LanguageServerProtocol,
            ProviderProtocol::CompilerApi,
        ] {
            let policy = capability_policies(language, protocol)
                .into_iter()
                .find(|policy| policy.capability == AnalysisCapability::Imports)
                .expect("closed imports capability");
            assert_eq!(policy.declared_support, DeclaredSupport::Required);
            assert_eq!(policy.measurement, AdapterMeasurement::Full);
        }
    }
}

#[test]
fn file_coverage_follows_the_provider_report() {
    let indexed = FileCoverageOutput { status: "indexed".to_string(), reason: None };
    assert_eq!(file_coverage_state(Some(&indexed), "indexed", None), (FileCoverageState::Indexed, vec![]));
    let config = FileCoverageOutput {
        status: "excluded".to_string(),
        reason: Some("project-config".to_string()),
    };
    assert_eq!(
        file_coverage_state(Some(&config), "indexed", None),
        (FileCoverageState::Excluded, vec![GapCode::MissingProjectMetadata])
    );
    let missing = FileCoverageOutput {
        status: "not-returned".to_string(),
        reason: Some("provider-missing".to_string()),
    };
    assert_eq!(
        file_coverage_state(Some(&missing), "missing-tool", None),
        (FileCoverageState::Failed, vec![GapCode::ProviderUnavailable])
    );
    assert_eq!(
        file_coverage_state(None, "indexed", None),
        (FileCoverageState::Partial, vec![GapCode::ProviderExecutionIncomplete])
    );
    assert_eq!(coverage_gap(Some("header-not-reachable")), GapCode::MissingCompileContext);
    assert_eq!(coverage_gap(Some("generated")), GapCode::GeneratedSourceMappingUnavailable);
    assert_eq!(coverage_gap(Some("something-else")), GapCode::ProviderExecutionIncomplete);
}

#[test]
fn diagnostics_become_gaps_and_issues() {
    let unit = AnalysisUnitId { value: "u".to_string() };
    let gap = diagnostic_gap(&unit, &diagnostic(DiagnosticCode::GeneratedCode, "generated", None)).unwrap();
    assert_eq!(gap.code, GapCode::GeneratedSourceMappingUnavailable);
    assert_eq!(gap.capability, Some(AnalysisCapability::Definitions));
    assert_eq!(gap.message, "generated");
    assert!(diagnostic_gap(&unit, &diagnostic(DiagnosticCode::InvalidOutput, "bad", None)).is_none());
    let issue = diagnostic_issue(&unit, &diagnostic(DiagnosticCode::InvalidOutput, "bad", Some("src/a.ts"))).unwrap();
    assert_eq!(issue.code, AnalysisErrorCode::ProviderMalformedOutput);
    assert_eq!(issue.stage, AnalysisStage::ProviderDecoding);
    assert!(!issue.retryable);
    assert!(matches!(issue.scope, AnalysisScope::File { ref path, .. } if path.value == "src/a.ts"));
    let unit_scoped = diagnostic_issue(&unit, &diagnostic(DiagnosticCode::ProviderStopped, "stop", Some("../x"))).unwrap();
    assert!(matches!(unit_scoped.scope, AnalysisScope::AnalysisUnit { .. }));
    assert!(diagnostic_issue(&unit, &diagnostic(DiagnosticCode::GeneratedCode, "g", None)).is_none());
}
