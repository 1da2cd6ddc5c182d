use code_memory::capabilities::{AnalysisUnitState, CapabilityAuditEntry, ImportAudit, ImportCapabilityAudit};
use code_memory::diagnostics::{AnalysisErrorCode, AnalysisScope, Diagnostic, DiagnosticCode, UnitGap};
use code_memory::model::{AnalysisCapability, AnalysisUnitId, ProgrammingLanguage};
use code_memory::resolver::GapCode;
use code_memory::unit_records::{unit_records, unit_state, LanguageDiagnostic, UnitFactCounts};

fn unit() -> AnalysisUnitId {
    AnalysisUnitId { value: "u1".to_string() }
}

fn counts() -> UnitFactCounts {
    UnitFactCounts {
        omitted_definition_count: 0,
        omitted_relation_count: 0,
        missing_syntax_definition_count: 0,
        extra_provider_definition_count: 0,
        unresolved_owner_count: 0,
        definition_inventory_failed_file_count: 0,
        type_relation_failed_file_count: 0,
    }
}

fn empty_audit() -> ImportAudit {
    ImportAudit { capabilities: Vec::new() }
}

fn diagnostic(language: &str, code: DiagnosticCode, path: Option<&str>, message: &str) -> LanguageDiagnostic {
    LanguageDiagnostic {
        language: language.to_string(),
        diagnostic: Diagnostic { code, message: message.to_string(), path: path.map(|p| p.to_string()) },
    }
}

#[test]
fn provider_statuses_map_to_unit_states() {
    assert_eq!(unit_state("indexed"), AnalysisUnitState::Complete);
    assert_eq!(unit_state("indexed-partial"), AnalysisUnitState::Partial);
    assert_eq!(unit_state("excluded-by-project-config"), AnalysisUnitState::Partial);
    assert_eq!(unit_state("crashed"), AnalysisUnitState::Failed);
}

#[test]
fn a_clean_indexed_unit_is_complete_without_gaps() {
    let r = unit_records(&unit(), ProgrammingLanguage::Go, "indexed", &[], &[], &[], &empty_audit(), counts());
    assert_eq!(r.state, AnalysisUnitState::Complete);
    assert!(r.gaps.is_empty());
    assert!(r.issues.is_empty());
}

#[test]
fn an_incomplete_unit_says_zero_facts_are_not_absence() {
    let r = unit_records(&unit(), ProgrammingLanguage::Go, "failed", &[], &[], &[], &empty_audit(), counts());
    assert_eq!(r.state, AnalysisUnitState::Failed);
    assert_eq!(r.gaps.len(), 1);
    assert_eq!(r.gaps[0].code, GapCode::ProviderExecutionIncomplete);
    assert_eq!(
        r.gaps[0].message,
        "The provider-to-Language-IR unit is incomplete; zero facts must not be interpreted as absence"
    );
}

#[test]
fn anything_left_out_makes_a_complete_unit_partial() {
    let mut c = counts();
    c.omitted_relation_count = 2;
    c.unresolved_owner_count = 1;
    c.type_relation_failed_file_count = 1;
    let r = unit_records(&unit(), ProgrammingLanguage::Go, "indexed", &[], &[], &[], &empty_audit(), c);
    assert_eq!(r.state, AnalysisUnitState::Partial);
    let kinds: Vec<(GapCode, Option<AnalysisCapability>)> = r.gaps.iter().map(|g| (g.code, g.capability)).collect();
    assert_eq!(
        kinds,
        vec![
            (GapCode::UnresolvedTarget, None),
            (GapCode::UnresolvedTarget, Some(AnalysisCapability::Definitions)),
            (GapCode::ProviderExecutionIncomplete, Some(AnalysisCapability::TypeRelations)),
        ]
    );
    let plan_gap = UnitGap {
        code: GapCode::MissingProjectMetadata,
        unit_id: unit(),
        capability: None,
        message: "plan".to_string(),
    };
    let r = unit_records(&unit(), ProgrammingLanguage::Go, "indexed", &[], &[plan_gap], &[], &empty_audit(), counts());
    assert_eq!(r.state, AnalysisUnitState::Partial);
    assert_eq!(r.gaps.len(), 1);
}

#[test]
fn only_the_units_own_diagnostics_become_gaps_and_issues() {
    let assigned = vec!["src/a.go".to_string()];
    let diagnostics = vec![
        diagnostic("go", DiagnosticCode::ProviderTimeout, None, "slow"),
        diagnostic("go", DiagnosticCode::ProviderFailed, Some("src/other.go"), "elsewhere"),
        diagnostic("rust", DiagnosticCode::ProviderMissing, None, "other language"),
        diagnostic("go", DiagnosticCode::InvalidOutput, Some("src/a.go"), "bad"),
        diagnostic("go", DiagnosticCode::ProviderTimeout, None, "slow again"),
    ];
    let r = unit_records(&unit(), ProgrammingLanguage::Go, "indexed", &assigned, &[], &diagnostics, &empty_audit(), counts());
    assert_eq!(r.gaps.len(), 1);
    assert_eq!(r.gaps[0].code, GapCode::QueryBudgetExceeded);
    assert_eq!(r.gaps[0].message, "slow");
    let issues: Vec<AnalysisErrorCode> = r.issues.iter().map(|i| i.code).collect();
    assert_eq!(
        issues,
        vec![AnalysisErrorCode::ProviderMalformedOutput, AnalysisErrorCode::ProviderTimeout, AnalysisErrorCode::ProviderTimeout]
    );
    assert!(matches!(&r.issues[0].scope, AnalysisScope::File { path, .. } if path.value == "src/a.go"));
}

#[test]
fn import_audit_gaps_name_their_capability() {
    let audit = ImportAudit {
        capabilities: vec![CapabilityAuditEntry {
            capability: AnalysisCapability::Imports,
            audit: ImportCapabilityAudit {
                eligible_count: 2,
                covered_count: 1,
                internal_relation_count: 1,
                known_external_count: 0,
                unresolved_count: 1,
                ambiguous_count: 0,
                invalid_evidence_count: 0,
                inventory_failed_files: Vec::new(),
                metadata_unavailable_files: Vec::new(),
                gap_codes: vec![GapCode::UnresolvedTarget],
            },
        }],
    };
    let r = unit_records(&unit(), ProgrammingLanguage::Go, "indexed", &[], &[], &[], &audit, counts());
    assert_eq!(r.state, AnalysisUnitState::Partial);
    assert_eq!(r.gaps.len(), 1);
    assert_eq!(
        r.gaps[0].message,
        "Independent imports site resolution was incomplete; no guessed internal relation was emitted"
    );
}
