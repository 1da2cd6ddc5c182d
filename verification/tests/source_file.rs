use code_memory::model::{AnalysisCapability, ImportAuditOutcome, ProgrammingLanguage, RepositoryPath};
use code_memory::resolver::GapCode;
use code_memory::source_file::{inventory_source_file, ImportFileFailure, SourceFileInventory};

fn path(value: &str) -> RepositoryPath {
    RepositoryPath::parse(value).unwrap()
}

fn failure(capability: AnalysisCapability, outcome: ImportAuditOutcome, gap_code: GapCode) -> ImportFileFailure {
    ImportFileFailure { capability, outcome, gap_code }
}

#[test]
fn unreadable_files_are_recorded_for_every_import_capability() {
    let r = inventory_source_file("typescript:web", ProgrammingLanguage::TypeScript, &path("web/a.ts"), None, false)
        .unwrap();
    match r {
        SourceFileInventory::Failed { definition_failure, import_failures } => {
            assert_eq!(definition_failure.unit_id, "typescript:web");
            assert_eq!(definition_failure.path.as_str(), "web/a.ts");
            assert_eq!(definition_failure.name, "<file>");
            assert_eq!(definition_failure.reason, "syntax-inventory-failed");
            assert_eq!(
                import_failures,
                vec![
                    failure(AnalysisCapability::Imports, ImportAuditOutcome::InventoryFailed, GapCode::ProviderExecutionIncomplete),
                    failure(AnalysisCapability::Exports, ImportAuditOutcome::InventoryFailed, GapCode::ProviderExecutionIncomplete),
                ]
            );
        }
        SourceFileInventory::Parsed { .. } => panic!("an unreadable file cannot parse"),
    }
}

#[test]
fn unparsable_files_also_record_missing_metadata() {
    let r = inventory_source_file("python:app", ProgrammingLanguage::Python, &path("app/x.py"), Some("def broken(:\n"), true)
        .unwrap();
    match r {
        SourceFileInventory::Failed { import_failures, .. } => assert_eq!(
            import_failures,
            vec![
                failure(AnalysisCapability::Imports, ImportAuditOutcome::InventoryFailed, GapCode::ProviderExecutionIncomplete),
                failure(AnalysisCapability::Imports, ImportAuditOutcome::MetadataUnavailable, GapCode::MissingProjectMetadata),
            ]
        ),
        SourceFileInventory::Parsed { .. } => panic!("a broken file cannot parse"),
    }
}

#[test]
fn parsed_files_yield_their_query_sites() {
    let source = r#"def save(connection):
    connection.execute('''
        INSERT INTO public.sessions (id)
        SELECT id FROM staged_sessions
    ''')
"#;
    let r = inventory_source_file("python:app", ProgrammingLanguage::Python, &path("app/repository.py"), Some(source), false)
        .unwrap();
    match r {
        SourceFileInventory::Parsed { sql_queries, import_failures, .. } => {
            assert_eq!(sql_queries.len(), 1);
            assert_eq!(sql_queries[0].operation, "INSERT");
            assert!(import_failures.is_empty());
        }
        SourceFileInventory::Failed { .. } => panic!("the file parses"),
    }
}

#[test]
fn parsed_files_record_missing_metadata_for_exports_too() {
    let r = inventory_source_file("dart:app", ProgrammingLanguage::Dart, &path("lib/a.dart"), Some("void main() {}\n"), true)
        .unwrap();
    match r {
        SourceFileInventory::Parsed { sql_queries, import_failures, .. } => {
            assert!(sql_queries.is_empty());
            assert_eq!(import_failures.len(), 2);
            assert_eq!(import_failures[1].capability, AnalysisCapability::Exports);
            assert_eq!(import_failures[1].outcome, ImportAuditOutcome::MetadataUnavailable);
        }
        SourceFileInventory::Failed { .. } => panic!("the file parses"),
    }
}

#[test]
fn parsed_files_carry_their_hierarchy_and_import_sites() {
    let source = "import { Base } from './base';\nexport class Service extends Base {}\n";
    let r = inventory_source_file("typescript:web", ProgrammingLanguage::TypeScript, &path("web/service.ts"), Some(source), false)
        .unwrap();
    match r {
        SourceFileInventory::Parsed { definitions, type_relation_sites, import_sites, import_failures, .. } => {
            assert_eq!(definitions.len(), 1);
            assert_eq!(definitions[0].name, "Service");
            assert_eq!(type_relation_sites.len(), 1);
            assert_eq!(type_relation_sites[0].source_name, "Service");
            assert_eq!(type_relation_sites[0].target_name, "Base");
            assert_eq!(type_relation_sites[0].target_utf8_range, vec![1, 29, 1, 33]);
            assert_eq!(import_sites.len(), 1);
            assert_eq!(import_sites[0].specifier, "./base");
            assert_eq!(import_sites[0].utf8_range[0], 0);
            assert!(import_failures.is_empty());
        }
        SourceFileInventory::Failed { .. } => panic!("the file parses"),
    }
}
