use code_memory::capabilities::{
    build_capability_receipts, canonical_gaps, capability_policies, AdapterMeasurement,
    AnalysisGap, AnalysisUnitState, CapabilityAuditEntry, CapabilityCount,
    CapabilityExecutionState, CapabilityReceipt, CoverageDenominator, DeclaredSupport,
    EvidencePrecision, ImportAudit, ImportCapabilityAudit,
};
use code_memory::inventory::ProviderProtocol;
use code_memory::model::{AnalysisCapability, AnalysisUnitId, ProgrammingLanguage, RepositoryPath};
use code_memory::resolver::GapCode;

fn audit(eligible: u64, internal: u64, unresolved: u64) -> ImportCapabilityAudit {
    ImportCapabilityAudit {
        eligible_count: eligible,
        covered_count: eligible - unresolved,
        internal_relation_count: internal,
        known_external_count: 0,
        unresolved_count: unresolved,
        ambiguous_count: 0,
        invalid_evidence_count: 0,
        inventory_failed_files: Vec::new(),
        metadata_unavailable_files: Vec::new(),
        gap_codes: Vec::new(),
    }
}

fn count(capability: AnalysisCapability, count: u64) -> CapabilityCount {
    CapabilityCount { capability, count }
}

fn typescript_audit() -> ImportAudit {
    ImportAudit {
        capabilities: vec![
            CapabilityAuditEntry { capability: AnalysisCapability::Imports, audit: audit(3, 2, 0) },
            CapabilityAuditEntry { capability: AnalysisCapability::Exports, audit: audit(1, 0, 0) },
        ],
    }
}

fn receipts(
    language: ProgrammingLanguage,
    state: AnalysisUnitState,
    definition_count: u64,
    emitted: &[CapabilityCount],
    import_audit: &ImportAudit,
    gaps: &[AnalysisGap],
) -> Result<Vec<CapabilityReceipt>, String> {
    build_capability_receipts(
        &AnalysisUnitId { value: "web".to_string() },
        language,
        ProviderProtocol::Scip,
        state,
        3,
        definition_count,
        6,
        definition_count,
        1,
        emitted,
        &[count(AnalysisCapability::DirectCalls, 1)],
        import_audit,
        gaps,
    )
}

fn receipt(all: &[CapabilityReceipt], capability: AnalysisCapability) -> &CapabilityReceipt {
    all.iter().find(|r| r.capability == capability).unwrap()
}

#[test]
fn profiles_depend_on_the_language_only() {
    let ts = capability_policies(ProgrammingLanguage::TypeScript, ProviderProtocol::Scip);
    let c = capability_policies(ProgrammingLanguage::C, ProviderProtocol::LanguageServerProtocol);
    assert_eq!(ts.len(), 9);
    assert_eq!(ts[3].capability, AnalysisCapability::Exports);
    assert_eq!(ts[3].declared_support, DeclaredSupport::Conditional);
    assert_eq!(c[3].declared_support, DeclaredSupport::Unsupported);
    assert_eq!(c[6].capability, AnalysisCapability::Overrides);
    assert_eq!(c[6].measurement, AdapterMeasurement::NotApplicable);
    assert_eq!(ts[6].measurement, AdapterMeasurement::Partial(GapCode::MissingTypeMetadata));
    assert_eq!(ts[4].measurement, AdapterMeasurement::Partial(GapCode::DynamicDispatch));
}

#[test]
fn receipts_of_a_complete_unit() {
    let general = AnalysisGap { capability: None, code: GapCode::WorkspaceBudgetExceeded };
    let all = receipts(
        ProgrammingLanguage::TypeScript,
        AnalysisUnitState::Complete,
        5,
        &[count(AnalysisCapability::DirectCalls, 4), count(AnalysisCapability::Imports, 2)],
        &typescript_audit(),
        &[general],
    )
    .unwrap();
    assert_eq!(all.len(), 9);
    assert_eq!(all[0].capability, AnalysisCapability::ProjectStructure);
    assert_eq!(all[0].unit_id.value, "web");

    let structure = receipt(&all, AnalysisCapability::ProjectStructure);
    assert_eq!(structure.execution_state, CapabilityExecutionState::Complete);
    assert_eq!(structure.precision, EvidencePrecision::Manifest);
    assert_eq!(structure.denominator, CoverageDenominator::Known { eligible_count: 3 });
    assert_eq!(structure.covered_count, 3);
    assert!(structure.gap_codes.is_empty());

    let definitions = receipt(&all, AnalysisCapability::Definitions);
    assert_eq!(definitions.execution_state, CapabilityExecutionState::Partial);
    assert_eq!(definitions.denominator, CoverageDenominator::Known { eligible_count: 6 });
    assert_eq!(
        (definitions.covered_count, definitions.emitted_fact_count, definitions.truncated_count),
        (5, 5, 1)
    );
    assert_eq!(
        definitions.gap_codes,
        vec![GapCode::UnresolvedTarget, GapCode::WorkspaceBudgetExceeded]
    );

    let imports = receipt(&all, AnalysisCapability::Imports);
    assert_eq!(imports.execution_state, CapabilityExecutionState::Complete);
    assert_eq!(imports.denominator, CoverageDenominator::Known { eligible_count: 3 });
    assert_eq!((imports.covered_count, imports.emitted_relation_count), (3, 2));
    assert!(imports.gap_codes.is_empty());

    let calls = receipt(&all, AnalysisCapability::DirectCalls);
    assert_eq!(calls.execution_state, CapabilityExecutionState::Partial);
    assert_eq!(calls.denominator, CoverageDenominator::Unknown);
    assert_eq!((calls.covered_count, calls.emitted_relation_count, calls.truncated_count), (4, 4, 1));
    assert_eq!(calls.gap_codes, vec![GapCode::DynamicDispatch, GapCode::WorkspaceBudgetExceeded]);

    let events = receipt(&all, AnalysisCapability::EventExternal);
    assert_eq!(events.execution_state, CapabilityExecutionState::NotApplicable);
    assert_eq!(events.precision, EvidencePrecision::Absent);
    assert_eq!((events.covered_count, events.truncated_count), (0, 0));
    assert!(events.gap_codes.is_empty());
}

#[test]
fn a_failed_unit_fails_what_it_did_not_emit() {
    let all = receipts(
        ProgrammingLanguage::TypeScript,
        AnalysisUnitState::Failed,
        0,
        &[count(AnalysisCapability::DirectCalls, 4), count(AnalysisCapability::Imports, 2)],
        &typescript_audit(),
        &[],
    )
    .unwrap();
    let definitions = receipt(&all, AnalysisCapability::Definitions);
    assert_eq!(definitions.execution_state, CapabilityExecutionState::Failed);
    assert_eq!(definitions.precision, EvidencePrecision::Absent);
    assert_eq!((definitions.covered_count, definitions.truncated_count), (0, 0));
    assert_eq!(definitions.gap_codes, vec![GapCode::ProviderExecutionIncomplete]);
    let calls = receipt(&all, AnalysisCapability::DirectCalls);
    assert_eq!(calls.execution_state, CapabilityExecutionState::Partial);
    assert_eq!(
        calls.gap_codes,
        vec![GapCode::DynamicDispatch, GapCode::ProviderExecutionIncomplete]
    );
}

#[test]
fn an_incomplete_import_audit_makes_a_partial_receipt() {
    let mut audits = typescript_audit();
    audits.capabilities[0].audit = audit(3, 2, 1);
    let all = receipts(
        ProgrammingLanguage::TypeScript,
        AnalysisUnitState::Complete,
        5,
        &[count(AnalysisCapability::Imports, 2)],
        &audits,
        &[],
    )
    .unwrap();
    let imports = receipt(&all, AnalysisCapability::Imports);
    assert_eq!(imports.execution_state, CapabilityExecutionState::Partial);
    assert_eq!(imports.truncated_count, 1);
    assert_eq!(imports.gap_codes, vec![GapCode::ProviderExecutionIncomplete]);

    audits.capabilities[0].audit = audit(3, 2, 0);
    audits.capabilities[0].audit.inventory_failed_files.push(RepositoryPath { value: "a.ts".to_string() });
    audits.capabilities[0].audit.gap_codes.push(GapCode::MissingProjectMetadata);
    let all = receipts(
        ProgrammingLanguage::TypeScript,
        AnalysisUnitState::Complete,
        5,
        &[count(AnalysisCapability::Imports, 2)],
        &audits,
        &[],
    )
    .unwrap();
    let imports = receipt(&all, AnalysisCapability::Imports);
    assert_eq!(imports.execution_state, CapabilityExecutionState::Partial);
    assert_eq!(imports.denominator, CoverageDenominator::Unknown);
    assert_eq!(imports.gap_codes, vec![GapCode::MissingProjectMetadata]);
}

#[test]
fn import_receipts_must_agree_with_their_audit() {
    let mismatch = receipts(
        ProgrammingLanguage::TypeScript,
        AnalysisUnitState::Complete,
        5,
        &[count(AnalysisCapability::Imports, 3)],
        &typescript_audit(),
        &[],
    );
    assert!(mismatch.unwrap_err().contains("does not match its import-site audit"));
    let only_imports = ImportAudit {
        capabilities: vec![CapabilityAuditEntry {
            capability: AnalysisCapability::Imports,
            audit: audit(3, 2, 0),
        }],
    };
    let missing = receipts(
        ProgrammingLanguage::TypeScript,
        AnalysisUnitState::Complete,
        5,
        &[count(AnalysisCapability::Imports, 2)],
        &only_imports,
        &[],
    );
    assert!(missing.unwrap_err().starts_with("missing independent exports audit"));
    let python = receipts(
        ProgrammingLanguage::Python,
        AnalysisUnitState::Complete,
        5,
        &[count(AnalysisCapability::Imports, 2)],
        &only_imports,
        &[],
    )
    .unwrap();
    let exports = receipt(&python, AnalysisCapability::Exports);
    assert_eq!(exports.execution_state, CapabilityExecutionState::NotApplicable);
}

#[test]
fn gap_codes_are_listed_once_in_receipt_order() {
    assert_eq!(
        canonical_gaps(&[
            GapCode::WorkspaceBudgetExceeded,
            GapCode::UnresolvedTarget,
            GapCode::UnresolvedTarget,
        ]),
        vec![GapCode::UnresolvedTarget, GapCode::WorkspaceBudgetExceeded]
    );
    assert!(canonical_gaps(&[]).is_empty());
}
