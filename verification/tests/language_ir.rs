use code_memory::capabilities::AnalysisUnitState;
use code_memory::definition_audit::{
    definition_audits_by_language, merge_definition_audits, DefinitionAuditCounts,
};
use code_memory::language_ir::{
    check_artifact_count, definition_receipts, language_ir_receipts, AuditListLengths, UnavailableUnitReceipt,
    UnitCompletion, UnitEmissionSummary,
};
use code_memory::model::ProgrammingLanguage;
use code_memory::resolver::GapCode;

fn summary(unit: &str, records: u64, files: u64, gaps: u64) -> UnitEmissionSummary {
    UnitEmissionSummary {
        unit_id: unit.to_string(),
        language: ProgrammingLanguage::Go,
        record_count: records,
        completion: UnitCompletion {
            state: AnalysisUnitState::Complete,
            file_record_count: files,
            definition_count: 2,
            relation_count: 3,
            evidence_count: 4,
            capability_receipt_count: 5,
            gap_count: gaps,
            issue_count: 0,
        },
        omitted_definition_count: 1,
        omitted_relation_count: 0,
        definition_audit: DefinitionAuditCounts::empty(),
    }
}

fn audit(syntax: u64, matched: u64, missing: u64, extra: u64, unresolved: u64, failed: u64) -> DefinitionAuditCounts {
    let mut a = DefinitionAuditCounts::empty();
    a.syntax_definition_count = syntax;
    a.matched_definition_count = matched;
    a.missing_syntax_definition_count = missing;
    a.extra_provider_definition_count = extra;
    a.unresolved_owner_count = unresolved;
    a.inventory_failed_file_count = failed;
    a
}

fn unavailable(unit: &str, gap: GapCode) -> UnavailableUnitReceipt {
    UnavailableUnitReceipt {
        unit_id: unit.to_string(),
        language: ProgrammingLanguage::Dart,
        root: ".".to_string(),
        gap_code: gap,
    }
}

fn lengths(failures: usize) -> AuditListLengths {
    AuditListLengths {
        definition_failures: failures,
        definition_metadata_entries: 0,
        import_entries: 0,
        type_relation_entries: 0,
    }
}

#[test]
fn receipt_counts_are_sums_over_the_emitted_units() {
    let summaries = vec![summary("a", 10, 2, 1), summary("b", 7, 3, 0)];
    let missing = vec![
        unavailable("z", GapCode::ProviderUnavailable),
        unavailable("m", GapCode::ProviderExecutionIncomplete),
    ];
    let (receipt, diagnostics) = language_ir_receipts(&summaries, missing, lengths(0));
    assert_eq!(receipt.emitted_unit_count, 2);
    assert_eq!(receipt.unavailable_unit_count, 2);
    assert_eq!(receipt.record_count, 17);
    assert_eq!(receipt.file_record_count, 5);
    assert_eq!(receipt.definition_count, 4);
    assert_eq!(receipt.relation_count, 6);
    assert_eq!(receipt.evidence_count, 8);
    assert_eq!(receipt.capability_receipt_count, 10);
    assert_eq!(receipt.gap_count, 1);
    assert_eq!(receipt.omitted_definition_count, 2);
    assert_eq!(receipt.omitted_relation_count, 0);
    let order: Vec<&str> = diagnostics.unavailable_unit_sample.iter().map(|u| u.unit_id.as_str()).collect();
    assert_eq!(order, vec!["m", "z"]);
    assert!(!diagnostics.details_truncated);
}

#[test]
fn samples_are_bounded_and_truncation_is_reported() {
    let many: Vec<UnavailableUnitReceipt> =
        (0..105).rev().map(|i| unavailable(&format!("u{i:03}"), GapCode::ProviderUnavailable)).collect();
    let (receipt, diagnostics) = language_ir_receipts(&[], many, lengths(0));
    assert_eq!(receipt.unavailable_unit_count, 105);
    assert_eq!(diagnostics.unavailable_unit_sample.len(), 100);
    assert_eq!(diagnostics.unavailable_unit_sample[0].unit_id, "u000");
    assert_eq!(diagnostics.unavailable_unit_sample[99].unit_id, "u099");
    assert!(diagnostics.details_truncated);
    let (_, few) = language_ir_receipts(&[], vec![], lengths(101));
    assert!(few.details_truncated);
    let (_, exact) = language_ir_receipts(&[], vec![], lengths(100));
    assert!(!exact.details_truncated);
}

#[test]
fn the_artifact_must_hold_the_receipt_record_count() {
    assert_eq!(check_artifact_count(17, 17), Ok(()));
    assert_eq!(
        check_artifact_count(16, 17).unwrap_err(),
        "Language IR artifact record count does not match receipt: artifact=16 receipt=17"
    );
}

#[test]
fn blocking_definition_findings_are_missing_extra_unresolved_and_failed() {
    let a = audit(10, 7, 1, 2, 3, 4);
    assert_eq!(a.blocking_count(), 10);
    assert_eq!(DefinitionAuditCounts::empty().blocking_count(), 0);
}

#[test]
fn definition_audits_merge_by_summing_every_counter() {
    let mut a = audit(10, 7, 1, 0, 0, 0);
    a.callable_signature_count = 5;
    let b = audit(3, 3, 0, 2, 1, 1);
    let merged = merge_definition_audits(&[a, b]);
    assert_eq!(merged.syntax_definition_count, 13);
    assert_eq!(merged.matched_definition_count, 10);
    assert_eq!(merged.blocking_count(), 5);
    assert_eq!(merged.callable_signature_count, 5);
    assert_eq!(merge_definition_audits(&[]), DefinitionAuditCounts::empty());
}

#[test]
fn definition_audits_group_by_language_in_language_order() {
    let audits = vec![
        (ProgrammingLanguage::Go, audit(1, 1, 0, 0, 0, 0)),
        (ProgrammingLanguage::TypeScript, audit(2, 2, 0, 0, 0, 0)),
        (ProgrammingLanguage::Go, audit(4, 3, 1, 0, 0, 0)),
        (ProgrammingLanguage::Dart, DefinitionAuditCounts::empty()),
    ];
    let grouped = definition_audits_by_language(&audits);
    let languages: Vec<ProgrammingLanguage> = grouped.iter().map(|(l, _)| *l).collect();
    assert_eq!(languages, vec![ProgrammingLanguage::TypeScript, ProgrammingLanguage::Go, ProgrammingLanguage::Dart]);
    assert_eq!(grouped[1].1.syntax_definition_count, 5);
    assert_eq!(grouped[1].1.missing_syntax_definition_count, 1);
    assert_eq!(grouped[2].1, DefinitionAuditCounts::empty());
}

#[test]
fn run_definition_receipts_sum_over_units_and_languages() {
    let mut a = summary("u1", 1, 1, 0);
    a.definition_audit = audit(5, 4, 1, 0, 0, 0);
    let mut b = summary("u2", 1, 1, 0);
    b.language = ProgrammingLanguage::Python;
    b.definition_audit = audit(2, 2, 0, 0, 0, 1);
    let (run, languages) = definition_receipts(&[a, b]);
    assert_eq!(run.syntax_definition_count, 7);
    assert_eq!(run.inventory_failed_file_count, 1);
    assert_eq!(languages.len(), 2);
    assert_eq!(languages[0].0, ProgrammingLanguage::Python);
    assert_eq!(languages[0].1.inventory_failed_file_count, 1);
    assert_eq!(languages[1].0, ProgrammingLanguage::Go);
    assert_eq!(languages[1].1.syntax_definition_count, 5);
    let per_language: u64 = languages.iter().map(|(_, a)| a.syntax_definition_count).sum();
    assert_eq!(per_language, run.syntax_definition_count);
}
