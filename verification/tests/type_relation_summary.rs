use code_memory::model::{LanguageRelationKind, ProgrammingLanguage};
use code_memory::type_relation_summary::{type_relation_language_summary, TypeRelationAudit};
use code_memory::unit_relations::TypeRelationAuditEntry;

fn entry(unit: &str, kind: LanguageRelationKind, source: &str, target: &str, line: u32) -> TypeRelationAuditEntry {
    TypeRelationAuditEntry {
        unit_id: unit.to_string(),
        language: ProgrammingLanguage::Java,
        path: "src/A.java".to_string(),
        native_relation: "native".to_string(),
        kind,
        source_symbol: source.to_string(),
        source_name: source.to_string(),
        target_symbol: target.to_string(),
        target_name: target.to_string(),
        start_line: line,
        start_utf8_column: 0,
        end_line: line,
        end_utf8_column: 10,
    }
}

fn strings(v: &[&str]) -> Vec<String> {
    v.iter().map(|s| s.to_string()).collect()
}

#[test]
fn type_relation_summaries_merge_units_and_count_distinct_entries() {
    let first = TypeRelationAudit {
        explicit_site_keys: strings(&["s1", "s2", "s3"]),
        matched_explicit_site_keys: strings(&["s1"]),
        inventory_failed_files: strings(&["src/B.java"]),
        entries: vec![
            entry("java:a", LanguageRelationKind::Extends, "A", "B", 1),
            entry("java:a", LanguageRelationKind::Implements, "A", "I", 2),
            entry("java:a", LanguageRelationKind::Extends, "A", "B", 1),
        ],
    };
    let second = TypeRelationAudit {
        explicit_site_keys: strings(&["s3", "s4"]),
        matched_explicit_site_keys: strings(&["s3"]),
        inventory_failed_files: strings(&["src/B.java", "src/C.java"]),
        entries: vec![entry("java:b", LanguageRelationKind::UsesType, "C", "A", 5)],
    };
    let s = type_relation_language_summary(ProgrammingLanguage::Java, &[first, second]);
    assert_eq!(s.language, ProgrammingLanguage::Java);
    assert_eq!(s.relation_count, 3);
    assert_eq!(s.extends_count, 1);
    assert_eq!(s.implements_count, 1);
    assert_eq!(s.uses_type_count, 1);
    assert_eq!(s.overrides_count, 0);
    assert_eq!(s.explicit_hierarchy_site_count, 4);
    assert_eq!(s.matched_explicit_hierarchy_site_count, 2);
    assert_eq!(s.unmatched_explicit_hierarchy_site_count, 2);
    assert_eq!(s.inventory_failed_file_count, 2);
}

#[test]
fn a_language_without_type_relation_audits_counts_nothing() {
    let s = type_relation_language_summary(ProgrammingLanguage::Rust, &[]);
    assert_eq!(s.relation_count, 0);
    assert_eq!(s.unmatched_explicit_hierarchy_site_count, 0);
}
