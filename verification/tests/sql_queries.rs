use code_memory::definitions::{DefinitionDraft, DefinitionTable};
use code_memory::digest::sql_query_digest;
use code_memory::inventory::SyntaxDefinition;
use code_memory::model::{EvidenceId, FactNodeKind, ProviderSymbolId, RepositoryPath, SourceFlags, Visibility};
use code_memory::sql_literals::{has_sql_context, SqlTableAccess, SqlTableAccessKind};
use code_memory::sql_queries::{display_name, exact_enclosing_definition, sql_query_site, SqlQuerySite};

fn declaration(range: Vec<i32>) -> SyntaxDefinition {
    SyntaxDefinition {
        kind: FactNodeKind::Function,
        name: "f".to_string(),
        name_utf8_range: vec![range[0], range[1], range[1] + 1],
        name_utf16_range: vec![range[0], range[1], range[1] + 1],
        declaration_utf8_range: range.clone(),
        declaration_utf16_range: range,
        parent_name_utf8_range: None,
        parent_name_utf16_range: None,
        signature: None,
        visibility: Visibility::Public,
    }
}

fn definition(id: &str, path: &str, syntax_match: Option<usize>) -> DefinitionDraft {
    DefinitionDraft {
        symbol_id: ProviderSymbolId::parse(id).unwrap(),
        native_kind: "fixture".to_string(),
        canonical_kind_hint: FactNodeKind::Function,
        qualified_name: id.to_string(),
        display_name: id.to_string(),
        signature: None,
        visibility: Visibility::Unknown,
        parent_symbol_id: None,
        definition_evidence_id: EvidenceId { value: format!("evidence:{id}") },
        flags: SourceFlags::default(),
        field_candidate: false,
        path: RepositoryPath::parse(path).unwrap(),
        provider_range: vec![0, 0, 1],
        syntax_match,
    }
}

#[test]
fn query_contexts_are_calls_or_query_named_variables() {
    assert!(has_sql_context(&["cursor.execute("]));
    assert!(has_sql_context(&["db.Query("]));
    assert!(has_sql_context(&["const sql = "]));
    assert!(has_sql_context(&["SQL = "]));
    assert!(has_sql_context(&["", "let stmt: &str = "]));
    assert!(!has_sql_context(&["const prose = "]));
    assert!(!has_sql_context(&["my_sql = "]));
    assert!(!has_sql_context(&["", "", "", "", "", "", ".execute("]));
    assert!(!has_sql_context(&[]));
}

#[test]
fn a_python_multiline_literal_site_reports_its_tables_range_and_digest() {
    let raw = "'''\n        INSERT INTO public.sessions (id)\n        SELECT id FROM staged_sessions\n    '''";
    let site = sql_query_site("python", raw, vec![1, 23, 4, 7], &["connection.execute("]).unwrap();
    assert_eq!(site.operation, "INSERT");
    assert_eq!(
        site.tables,
        vec![
            SqlTableAccess { table: "public.sessions".to_string(), kind: SqlTableAccessKind::Write },
            SqlTableAccess { table: "staged_sessions".to_string(), kind: SqlTableAccessKind::Read },
        ]
    );
    assert_eq!(site.utf8_range, vec![1, 23, 4, 7]);
    assert_eq!(
        site.digest,
        sql_query_digest("\n        INSERT INTO public.sessions (id)\n        SELECT id FROM staged_sessions\n    ")
    );
    assert_eq!(display_name(&site), "INSERT public.sessions");
}

#[test]
fn interpolated_or_non_sql_literal_sites_are_not_promoted() {
    assert!(sql_query_site("javascript", "`SELECT * FROM ${table}`", vec![0, 16, 41], &["const sql = "]).is_none());
    assert!(sql_query_site("javascript", "'SELECT a choice FROM menu'", vec![1, 14, 41], &["const prose = "]).is_none());
    assert!(sql_query_site("typescript", "\"SELECT 1\"", vec![0, 12, 22], &["const sql = "]).is_none());
    let site = sql_query_site("go", "`UPDATE accounts SET active = 1`", vec![1, 10, 42], &["var sql = "]).unwrap();
    assert_eq!(site.tables[0].table, "accounts");
    assert_eq!(site.tables[0].kind, SqlTableAccessKind::Write);
    let bare = SqlQuerySite { utf8_range: vec![], operation: "SELECT".to_string(), digest: vec![], tables: vec![] };
    assert_eq!(display_name(&bare), "SELECT query");
}

#[test]
fn the_smallest_enclosing_declaration_owns_a_query() {
    let syntax = vec![declaration(vec![0, 0, 10, 0]), declaration(vec![2, 0, 4, 0])];
    let mut table = DefinitionTable::new();
    table.insert(definition("outer", "a.py", Some(0)));
    table.insert(definition("inner", "a.py", Some(1)));
    table.insert(definition("other", "b.py", Some(1)));
    table.insert(definition("unmatched", "a.py", None));
    let path = RepositoryPath::parse("a.py").unwrap();
    assert_eq!(
        exact_enclosing_definition(&path, &[3, 4, 20], Some(syntax.as_slice()), &table).map(|id| id.value),
        Some("inner".to_string())
    );
    assert_eq!(
        exact_enclosing_definition(&path, &[6, 0, 3], Some(syntax.as_slice()), &table).map(|id| id.value),
        Some("outer".to_string())
    );
    assert_eq!(exact_enclosing_definition(&path, &[20, 0, 5], Some(syntax.as_slice()), &table), None);
    assert_eq!(exact_enclosing_definition(&path, &[3, 4, 20], None, &table), None);
}
