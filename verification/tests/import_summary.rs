use code_memory::capabilities::{CapabilityAuditEntry, ImportAudit, ImportCapabilityAudit};
use code_memory::import_summary::import_language_summary;
use code_memory::model::{AnalysisCapability, ProgrammingLanguage, RepositoryPath};

fn path(value: &str) -> RepositoryPath {
    RepositoryPath::parse(value).unwrap()
}

fn capability(eligible: u64, internal: u64, unresolved: u64, failed: &[&str], missing: &[&str]) -> ImportCapabilityAudit {
    ImportCapabilityAudit {
        eligible_count: eligible,
        covered_count: 0,
        internal_relation_count: internal,
        known_external_count: 0,
        unresolved_count: unresolved,
        ambiguous_count: 0,
        invalid_evidence_count: 0,
        inventory_failed_files: failed.iter().map(|p| path(p)).collect(),
        metadata_unavailable_files: missing.iter().map(|p| path(p)).collect(),
        gap_codes: Vec::new(),
    }
}

fn audit(imports: Option<ImportCapabilityAudit>, exports: Option<ImportCapabilityAudit>) -> ImportAudit {
    let mut capabilities = Vec::new();
    if let Some(a) = imports {
        capabilities.push(CapabilityAuditEntry { capability: AnalysisCapability::Imports, audit: a });
    }
    if let Some(a) = exports {
        capabilities.push(CapabilityAuditEntry { capability: AnalysisCapability::Exports, audit: a });
    }
    ImportAudit { capabilities }
}

#[test]
fn language_import_summaries_sum_units_and_count_each_failed_file_once() {
    let audits = vec![
        audit(Some(capability(4, 3, 1, &["web/a.ts"], &[])), Some(capability(2, 2, 0, &["web/a.ts"], &[]))),
        audit(Some(capability(5, 4, 1, &["web/b.ts", "web/a.ts"], &["web/c.ts"])), None),
    ];
    let s = import_language_summary(ProgrammingLanguage::TypeScript, &audits);
    assert_eq!(s.language, ProgrammingLanguage::TypeScript);
    assert_eq!(s.eligible_site_count, 11);
    assert_eq!(s.import_site_count, 9);
    assert_eq!(s.export_site_count, 2);
    assert_eq!(s.internal_relation_count, 9);
    assert_eq!(s.unresolved_count, 2);
    assert_eq!(s.inventory_failed_file_count, 2);
    assert_eq!(s.metadata_unavailable_file_count, 1);
}

#[test]
fn a_language_without_audits_has_an_empty_summary() {
    let s = import_language_summary(ProgrammingLanguage::Go, &[]);
    assert_eq!(s.eligible_site_count, 0);
    assert_eq!(s.inventory_failed_file_count, 0);
    assert_eq!(s.metadata_unavailable_file_count, 0);
}
