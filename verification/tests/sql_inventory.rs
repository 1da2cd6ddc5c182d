use code_memory::digest::sql_query_digest;
use code_memory::sql_inventory::{
    inventory_source_sql, inventory_sql_query_literals, tree_parents, SourceSqlError, SqlInventoryError,
};
use code_memory::sql_literals::{SqlTableAccess, SqlTableAccessKind};
use code_memory::sql_queries::SqlQuerySite;
use code_memory::syntax_tree::{
    byte_slice_chars, grammar_for, parse_error_message, parse_source, parse_syntax, utf8_length, Grammar,
    ParseError, SyntaxNode,
};

fn inventory(language: &str, path: &str, source: &str) -> Vec<SqlQuerySite> {
    inventory_source_sql(language, path, source).unwrap()
}

fn node(kind: &str, named: bool, start: usize, end: usize, depth: usize) -> SyntaxNode {
    SyntaxNode {
        kind: kind.to_string(),
        named,
        start_byte: start,
        end_byte: end,
        start_row: 0,
        start_column: start,
        end_row: 0,
        end_column: end,
        depth,
        has_error: false,
        field: None,
    }
}

#[test]
fn python_multiline_query_reports_exact_read_and_write_tables() {
    let source = r#"def save(connection):
    connection.execute('''
        INSERT INTO public.sessions (id)
        SELECT id FROM staged_sessions
    ''')
"#;
    let sites = inventory("python", "repository.py", source);
    assert_eq!(sites.len(), 1);
    assert_eq!(sites[0].operation, "INSERT");
    assert_eq!(
        sites[0].tables,
        vec![
            SqlTableAccess { table: "public.sessions".to_string(), kind: SqlTableAccessKind::Write },
            SqlTableAccess { table: "staged_sessions".to_string(), kind: SqlTableAccessKind::Read },
        ]
    );
    assert_eq!(sites[0].utf8_range, vec![1, 23, 4, 7]);
    assert_eq!(
        sites[0].digest,
        sql_query_digest("\n        INSERT INTO public.sessions (id)\n        SELECT id FROM staged_sessions\n    ")
    );
}

#[test]
fn interpolated_or_non_sql_strings_are_not_promoted() {
    let source = "const dynamic = `SELECT * FROM ${table}`;\nconst prose = 'SELECT a choice FROM menu';\n";
    assert!(inventory("javascript", "fixture.js", source).is_empty());
}

#[test]
fn common_supported_language_literals_share_the_same_table_contract() {
    let fixtures = [
        ("typescript", "fixture.ts", "const sql = \"UPDATE accounts SET active = 1\";"),
        ("java", "Fixture.java", "class Fixture { String sql = \"UPDATE accounts SET active = 1\"; }"),
        ("csharp", "Fixture.cs", "class Fixture { string sql = \"UPDATE accounts SET active = 1\"; }"),
        ("go", "fixture.go", "package fixture\nvar sql = `UPDATE accounts SET active = 1`"),
        ("rust", "fixture.rs", "const SQL: &str = r#\"UPDATE accounts SET active = 1\"#;"),
        ("dart", "fixture.dart", "const sql = 'UPDATE accounts SET active = 1';"),
    ];
    for (language, path, source) in fixtures {
        let sites = inventory(language, path, source);
        assert_eq!(sites.len(), 1, "{language}");
        assert_eq!(sites[0].tables[0].table, "accounts", "{language}");
        assert_eq!(sites[0].tables[0].kind, SqlTableAccessKind::Write, "{language}");
    }
}

#[test]
fn sites_are_sorted_by_range_and_each_literal_counts_once() {
    let source = "const b = db.query('SELECT id FROM beta');\nconst a = db.query('DELETE FROM alpha');\n";
    let sites = inventory("javascript", "two.js", source);
    assert_eq!(sites.len(), 2);
    assert_eq!(sites[0].operation, "SELECT");
    assert_eq!(sites[0].tables[0].table, "beta");
    assert_eq!(sites[0].utf8_range, vec![0, 19, 0, 40]);
    assert_eq!(sites[1].operation, "DELETE");
    assert_eq!(sites[1].tables[0].table, "alpha");
    assert_eq!(sites[1].utf8_range, vec![1, 19, 1, 38]);
}

#[test]
fn tsx_files_parse_with_the_tsx_grammar() {
    assert_eq!(grammar_for("typescript", "view.tsx"), Some(Grammar::Tsx));
    assert_eq!(grammar_for("typescript", "view.ts"), Some(Grammar::TypeScript));
    assert_eq!(grammar_for("cobol", "main.cob"), None);
    let source = "const v = <div>{db.query('SELECT id FROM rows')}</div>;\n";
    let sites = inventory("typescript", "view.tsx", source);
    assert_eq!(sites.len(), 1);
    assert_eq!(sites[0].tables[0].table, "rows");
}

#[test]
fn parse_failures_are_refused_by_kind() {
    assert_eq!(parse_source("cobol", "main.cob", "x").unwrap_err(), ParseError::NoGrammar);
    assert_eq!(parse_source("python", "main.py", "def broken(:\n").unwrap_err(), ParseError::IncompleteTree);
    assert_eq!(
        inventory_source_sql("python", "main.py", "def broken(:\n").unwrap_err(),
        SourceSqlError::Parse(ParseError::IncompleteTree)
    );
    assert_eq!(inventory_source_sql("cobol", "main.cob", "x").unwrap_err(), SourceSqlError::Parse(ParseError::NoGrammar));
}

#[test]
fn parsed_nodes_are_a_pre_order_listing_from_the_root() {
    let nodes = parse_syntax(Grammar::Python, "x = 1\n").unwrap();
    assert_eq!(nodes[0].kind, "module");
    assert_eq!(nodes[0].depth, 0);
    assert_eq!(nodes[0].start_byte, 0);
    assert!(nodes.iter().skip(1).all(|n| n.depth >= 1));
    let parents = tree_parents(&nodes).unwrap();
    assert_eq!(parents.len(), nodes.len());
    assert_eq!(parents[1], 0);
}

#[test]
fn malformed_node_lists_are_refused() {
    assert_eq!(inventory_sql_query_literals("python", "", &[]).unwrap_err(), SqlInventoryError::MalformedTree);
    let skipped_level = vec![node("module", true, 0, 3, 0), node("string", true, 0, 3, 2)];
    assert_eq!(
        inventory_sql_query_literals("python", "'a'", &skipped_level).unwrap_err(),
        SqlInventoryError::MalformedTree
    );
    let rooted_twice = vec![node("module", true, 0, 3, 0), node("module", true, 0, 3, 0)];
    assert!(tree_parents(&rooted_twice).is_none());
}

#[test]
fn an_unterminated_template_in_a_query_context_is_refused() {
    let source = "db.query(`";
    let nodes = vec![
        node("program", true, 0, 10, 0),
        node("call_expression", true, 0, 10, 1),
        node("arguments", true, 8, 10, 2),
        node("template_string", true, 9, 10, 3),
    ];
    assert_eq!(
        inventory_sql_query_literals("javascript", source, &nodes).unwrap_err(),
        SqlInventoryError::UnterminatedLiteral
    );
    let prose = "prose(`";
    let nodes = vec![
        node("program", true, 0, 7, 0),
        node("call_expression", true, 0, 7, 1),
        node("arguments", true, 5, 7, 2),
        node("template_string", true, 6, 7, 3),
    ];
    assert!(inventory_sql_query_literals("javascript", prose, &nodes).unwrap().is_empty());
}

#[test]
fn literals_under_string_nodes_or_anonymous_nodes_are_not_walked() {
    let source = "db.query('SELECT id FROM t')";
    let nested = vec![
        node("program", true, 0, 28, 0),
        node("call_expression", true, 0, 28, 1),
        node("string", true, 9, 27, 2),
        node("string", true, 9, 27, 3),
    ];
    let sites = inventory_sql_query_literals("javascript", source, &nested).unwrap();
    assert_eq!(sites.len(), 1);
    let anonymous = vec![
        node("program", true, 0, 28, 0),
        node("(", false, 0, 28, 1),
        node("string", true, 9, 27, 2),
    ];
    assert!(inventory_sql_query_literals("javascript", source, &anonymous).unwrap().is_empty());
}

#[test]
fn byte_offsets_slice_at_character_boundaries_only() {
    let text: Vec<char> = "a한b".chars().collect();
    assert_eq!(utf8_length(&text), 5);
    assert_eq!(byte_slice_chars(&text, 1, 4), Some(vec!['한']));
    assert_eq!(byte_slice_chars(&text, 2, 4), None);
    assert_eq!(byte_slice_chars(&text, 4, 1), None);
    assert_eq!(byte_slice_chars(&text, 0, 6), None);
}

#[test]
fn parse_refusals_read_as_the_inventory_reports_them() {
    assert_eq!(
        parse_error_message(ParseError::NoGrammar, "cobol", "shared-static-inventory", "main.cob"),
        "no syntax grammar is registered for cobol"
    );
    assert_eq!(
        parse_error_message(ParseError::NoTree, "python", "shared-static-inventory", "main.py"),
        "python shared-static-inventory parser returned no tree"
    );
    assert_eq!(
        parse_error_message(ParseError::IncompleteTree, "python", "shared-static-inventory", "main.py"),
        "python shared-static-inventory parser produced an incomplete syntax tree for main.py"
    );
}
