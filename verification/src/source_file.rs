//! The shared inventory of one source file of a unit: the file is parsed
//! once; a file that cannot be read or parsed is recorded as an inventory
//! failure for the definition audit, for every import capability of the
//! language and for the type-relation audit; a parsed file yields its SQL
//! query sites. Missing project metadata is recorded for the import audit
//! either way.
use vstd::prelude::*;

use crate::model::{spec_language_name, AnalysisCapability, ImportAuditOutcome, ProgrammingLanguage, RepositoryPath};
use crate::resolver::GapCode;
use crate::sql_inventory::{inventory_sql_query_literals, site_views, spec_sql_inventory, tables_sorted, SqlInventoryError};
use crate::sql_queries::SqlQuerySite;
use crate::syntax_tree::{parse_source, spec_parse_source};

verus! {

/// A definition-audit record of a file whose syntax inventory failed.
#[derive(Clone, Debug, PartialEq, Eq)]
pub struct DefinitionAuditFailure {
    pub unit_id: String,
    pub language: ProgrammingLanguage,
    pub path: RepositoryPath,
    pub name: String,
    pub reason: String,
}

/// An import-audit record of a whole file for one capability.
#[derive(Clone, Copy, Debug, PartialEq, Eq, Structural)]
pub struct ImportFileFailure {
    pub capability: AnalysisCapability,
    pub outcome: ImportAuditOutcome,
    pub gap_code: GapCode,
}

/// What the shared inventory makes of one source file.
#[derive(Debug)]
pub enum SourceFileInventory {
    /// The file could not be read or parsed.
    Failed { definition_failure: DefinitionAuditFailure, import_failures: Vec<ImportFileFailure> },
    /// The file parsed: its declarations, its SQL query sites, its explicit
    /// type hierarchy sites and its import sites.
    Parsed {
        definitions: Vec<crate::inventory::SyntaxDefinition>,
        sql_queries: Vec<SqlQuerySite>,
        type_relation_sites: Vec<crate::type_classification::SyntaxTypeRelationSite>,
        import_sites: Vec<crate::imports::ImportSite>,
        import_failures: Vec<ImportFileFailure>,
    },
}

/// Languages whose import audit also measures exports.
pub open spec fn supports_exports(language: ProgrammingLanguage) -> bool {
    language == ProgrammingLanguage::TypeScript || language == ProgrammingLanguage::JavaScript || language
        == ProgrammingLanguage::Dart
}

/// The capabilities a language's import audit measures, in order.
pub open spec fn import_capabilities(language: ProgrammingLanguage) -> Seq<AnalysisCapability> {
    if supports_exports(language) {
        seq![AnalysisCapability::Imports, AnalysisCapability::Exports]
    } else {
        seq![AnalysisCapability::Imports]
    }
}

/// One file-level record per import capability of the language.
pub open spec fn file_failures(language: ProgrammingLanguage, outcome: ImportAuditOutcome, gap: GapCode) -> Seq<
    ImportFileFailure,
> {
    import_capabilities(language).map_values(
        |c: AnalysisCapability| ImportFileFailure { capability: c, outcome, gap_code: gap },
    )
}

/// What a read or parse failure records for the import audit: an inventory
/// failure of the file, then, when the project's metadata failed, its
/// absence.
pub open spec fn failure_records(language: ProgrammingLanguage, metadata_failed: bool) -> Seq<ImportFileFailure> {
    file_failures(language, ImportAuditOutcome::InventoryFailed, GapCode::ProviderExecutionIncomplete) + if metadata_failed {
        file_failures(language, ImportAuditOutcome::MetadataUnavailable, GapCode::MissingProjectMetadata)
    } else {
        Seq::empty()
    }
}

/// What a parsed file records for the import audit.
pub open spec fn metadata_records(language: ProgrammingLanguage, metadata_failed: bool) -> Seq<ImportFileFailure> {
    if metadata_failed {
        file_failures(language, ImportAuditOutcome::MetadataUnavailable, GapCode::MissingProjectMetadata)
    } else {
        Seq::empty()
    }
}

/// The definition-audit record of a file whose inventory failed.
pub open spec fn is_file_failure(
    f: DefinitionAuditFailure,
    unit_id: Seq<char>,
    language: ProgrammingLanguage,
    path: Seq<char>,
) -> bool {
    &&& f.unit_id@ == unit_id
    &&& f.language == language
    &&& f.path.value@ == path
    &&& f.name@ == "<file>"@
    &&& f.reason@ == "syntax-inventory-failed"@
}

fn push_file_failures(
    out: &mut Vec<ImportFileFailure>,
    language: ProgrammingLanguage,
    outcome: ImportAuditOutcome,
    gap: GapCode,
)
    ensures
        final(out)@ == old(out)@ + file_failures(language, outcome, gap),
{
    let ghost start = out@;
    out.push(ImportFileFailure { capability: AnalysisCapability::Imports, outcome, gap_code: gap });
    if language == ProgrammingLanguage::TypeScript || language == ProgrammingLanguage::JavaScript || language
        == ProgrammingLanguage::Dart {
        out.push(ImportFileFailure { capability: AnalysisCapability::Exports, outcome, gap_code: gap });
    }
    assert(out@ =~= start + file_failures(language, outcome, gap));
}

fn failed_file(unit_id: &str, language: ProgrammingLanguage, path: &RepositoryPath, metadata_failed: bool) -> (r:
    SourceFileInventory)
    ensures
        match r {
            SourceFileInventory::Failed { definition_failure, import_failures } => {
                &&& is_file_failure(definition_failure, unit_id@, language, path.value@)
                &&& import_failures@ == failure_records(language, metadata_failed)
            },
            _ => false,
        },
{
    let name = "<file>";
    let reason = "syntax-inventory-failed";
    proof {
        reveal_strlit("<file>");
        reveal_strlit("syntax-inventory-failed");
    }
    let mut imports: Vec<ImportFileFailure> = Vec::new();
    push_file_failures(&mut imports, language, ImportAuditOutcome::InventoryFailed, GapCode::ProviderExecutionIncomplete);
    if metadata_failed {
        push_file_failures(&mut imports, language, ImportAuditOutcome::MetadataUnavailable, GapCode::MissingProjectMetadata);
    }
    assert(imports@ =~= failure_records(language, metadata_failed));
    SourceFileInventory::Failed {
        definition_failure: DefinitionAuditFailure {
            unit_id: crate::text::owned(unit_id),
            language,
            path: RepositoryPath { value: crate::text::owned(path.as_str()) },
            name: crate::text::owned(name),
            reason: crate::text::owned(reason),
        },
        import_failures: imports,
    }
}

/// Inventories one source file of a unit. `source` is the file's text, none
/// when it could not be read; `metadata_failed` tells whether the project
/// metadata of the file's language failed. A file that cannot be read or
/// parsed is recorded as failed; a parsed file yields its declarations, its
/// SQL query sites, its type hierarchy sites and its import sites, all from
/// the one parse.
/// The inventory refuses a parse whose nodes do not form a tree or hold a
/// lone literal opener in a query context.
pub fn inventory_source_file(
    unit_id: &str,
    language: ProgrammingLanguage,
    path: &RepositoryPath,
    source: Option<&str>,
    metadata_failed: bool,
) -> (r: Result<SourceFileInventory, SqlInventoryError>)
    ensures
        match source {
            None => r matches Ok(SourceFileInventory::Failed { definition_failure, import_failures }) && is_file_failure(
                definition_failure,
                unit_id@,
                language,
                path.value@,
            ) && import_failures@ == failure_records(language, metadata_failed),
            Some(text) => match spec_parse_source(spec_language_name(language), path.value@, text@) {
                Err(_) => r matches Ok(SourceFileInventory::Failed { definition_failure, import_failures })
                    && is_file_failure(definition_failure, unit_id@, language, path.value@) && import_failures@
                    == failure_records(language, metadata_failed),
                Ok(t) => match spec_sql_inventory(spec_language_name(language), text@, t) {
                    Ok(v) => r matches Ok(
                        SourceFileInventory::Parsed {
                            definitions,
                            sql_queries,
                            type_relation_sites,
                            import_sites,
                            import_failures,
                        },
                    ) && crate::definition_inventory::definition_views(definitions@)
                        == crate::definition_inventory::spec_definitions(spec_language_name(language), text@, t)
                        && site_views(sql_queries@) == v && tables_sorted(sql_queries@)
                        && crate::type_relation_inventory::relation_site_views(type_relation_sites@)
                        == crate::type_relation_inventory::spec_type_relation_sites(language, text@, t)
                        && crate::import_inventory::import_site_views(import_sites@)
                        == crate::import_inventory::spec_import_sites(language, text@, t) && import_failures@
                        == metadata_records(language, metadata_failed),
                    Err(e) => r == Err::<SourceFileInventory, SqlInventoryError>(e),
                },
            },
        },
{
    let text = match source {
        Some(t) => t,
        None => {
            return Ok(failed_file(unit_id, language, path, metadata_failed));
        },
    };
    let name = language.as_str();
    let nodes = match parse_source(name, path.as_str(), text) {
        Ok(v) => v,
        Err(_) => {
            return Ok(failed_file(unit_id, language, path, metadata_failed));
        },
    };
    let sql = match inventory_sql_query_literals(name, text, nodes.as_slice()) {
        Ok(v) => v,
        Err(e) => {
            return Err(e);
        },
    };
    let mut imports: Vec<ImportFileFailure> = Vec::new();
    if metadata_failed {
        push_file_failures(&mut imports, language, ImportAuditOutcome::MetadataUnavailable, GapCode::MissingProjectMetadata);
    }
    assert(imports@ =~= metadata_records(language, metadata_failed));
    let type_relation_sites = crate::type_relation_inventory::type_relation_sites_of_nodes(language, text, nodes.as_slice());
    let import_sites = crate::import_inventory::import_sites_of_nodes(language, text, nodes.as_slice());
    let definitions = crate::definition_inventory::definitions_of_nodes(name, text, nodes.as_slice());
    Ok(
        SourceFileInventory::Parsed {
            definitions,
            sql_queries: sql,
            type_relation_sites,
            import_sites,
            import_failures: imports,
        },
    )
}

} // verus!
