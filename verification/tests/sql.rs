use code_memory::sql_literals::{
    classify_sql, cte_names, exact_literal_value, is_identifier, is_string_node,
    normalize_identifier, normalize_sql, reserved_table_token, sql_tokens, strip_quoted,
    table_after, SqlTableAccess, SqlTableAccessKind,
};

fn access(table: &str, kind: SqlTableAccessKind) -> SqlTableAccess {
    SqlTableAccess { table: table.to_string(), kind }
}

fn tokens(items: &[&str]) -> Vec<String> {
    items.iter().map(|s| s.to_string()).collect()
}

#[test]
fn insert_select_reports_exact_read_and_write_tables() {
    let (operation, tables) = classify_sql(
        "\n        INSERT INTO public.sessions (id)\n        SELECT id FROM staged_sessions\n    ",
    )
    .unwrap();
    assert_eq!(operation, "INSERT");
    assert_eq!(
        tables,
        vec![
            access("public.sessions", SqlTableAccessKind::Write),
            access("staged_sessions", SqlTableAccessKind::Read),
        ]
    );
}

#[test]
fn statement_kinds_name_their_written_tables() {
    assert_eq!(
        classify_sql("UPDATE accounts SET active = 1"),
        Some(("UPDATE".to_string(), vec![access("accounts", SqlTableAccessKind::Write)]))
    );
    assert_eq!(
        classify_sql("DELETE FROM [dbo].[Users] WHERE id = ?"),
        Some((
            "DELETE".to_string(),
            vec![
                access("dbo.users", SqlTableAccessKind::Read),
                access("dbo.users", SqlTableAccessKind::Write),
            ]
        ))
    );
    assert_eq!(
        classify_sql("-- fetch\nselect * from t join u on t.id = u.id"),
        Some((
            "SELECT".to_string(),
            vec![access("t", SqlTableAccessKind::Read), access("u", SqlTableAccessKind::Read)]
        ))
    );
    assert_eq!(classify_sql("SELECT 1"), None);
    assert_eq!(classify_sql("EXPLAIN SELECT * FROM t"), None);
    assert_eq!(classify_sql(""), None);
}

#[test]
fn common_table_expressions_are_not_tables() {
    let sql = "WITH RECURSIVE a(x) AS (SELECT 1 FROM seed), b AS (SELECT 2) SELECT * FROM a JOIN users ON 1 = 1";
    assert_eq!(cte_names(&sql_tokens(sql)), vec!["a", "b"]);
    assert_eq!(
        classify_sql(sql),
        Some((
            "SELECT".to_string(),
            vec![access("seed", SqlTableAccessKind::Read), access("users", SqlTableAccessKind::Read)]
        ))
    );
    assert!(cte_names(&sql_tokens("SELECT * FROM a")).is_empty());
}

#[test]
fn tokens_hide_literals_and_comments() {
    assert_eq!(
        sql_tokens("SELECT 'it''s', \"A b\" FROM t; /* note */"),
        tokens(&["SELECT", "?", ",", "\"A b\"", "FROM", "t", ";"])
    );
    assert_eq!(sql_tokens("a.b(c)"), tokens(&["a", ".", "b", "(", "c", ")"]));
    assert_eq!(sql_tokens("x /* open"), tokens(&["x"]));
}

#[test]
fn table_names_follow_qualified_identifiers() {
    assert_eq!(table_after(&tokens(&["FROM", "ONLY", "s", ".", "t"]), 1).as_deref(), Some("s.t"));
    assert_eq!(table_after(&tokens(&["FROM", "(", "SELECT"]), 1), None);
    assert_eq!(table_after(&tokens(&["FROM", "VALUES"]), 1), None);
    assert_eq!(table_after(&tokens(&["FROM"]), 1), None);
    assert!(is_identifier("a_1"));
    assert!(!is_identifier("$1"));
    assert!(!is_identifier("?"));
    assert!(!is_identifier("="));
    assert!(reserved_table_token("values"));
    assert!(!reserved_table_token("users"));
    assert_eq!(normalize_identifier("\"Users\""), "users");
    assert_eq!(normalize_identifier("`a`"), "a");
    assert_eq!(normalize_sql(" a \n b "), "a b");
}

#[test]
fn literal_values_are_read_exactly_per_language() {
    assert_eq!(exact_literal_value("javascript", "`SELECT 1`").as_deref(), Some("SELECT 1"));
    assert_eq!(exact_literal_value("javascript", "`SELECT * FROM ${table}`"), None);
    assert_eq!(exact_literal_value("python", "f'SELECT {x}'"), None);
    assert_eq!(exact_literal_value("python", "'''SELECT 1'''").as_deref(), Some("SELECT 1"));
    assert_eq!(exact_literal_value("python", "r'x'").as_deref(), Some("x"));
    assert_eq!(
        exact_literal_value("rust", "r#\"UPDATE accounts SET active = 1\"#").as_deref(),
        Some("UPDATE accounts SET active = 1")
    );
    assert_eq!(exact_literal_value("rust", "r\"x\"").as_deref(), Some("x"));
    assert_eq!(exact_literal_value("cpp", "R\"sql(SELECT 1)sql\"").as_deref(), Some("SELECT 1"));
    assert_eq!(
        exact_literal_value("csharp", "@\"say \"\"hi\"\"\"").as_deref(),
        Some("say \"hi\"")
    );
    assert_eq!(exact_literal_value("dart", "r'SELECT 1'").as_deref(), Some("SELECT 1"));
    assert_eq!(exact_literal_value("go", "`x`").as_deref(), Some("x"));
    assert_eq!(exact_literal_value("java", "\"\"").as_deref(), Some(""));
    assert_eq!(exact_literal_value("java", "  "), None);
    assert_eq!(strip_quoted("'a'").as_deref(), Some("a"));
    assert_eq!(strip_quoted("a"), None);
}

#[test]
fn string_node_kinds_depend_on_the_language() {
    assert!(is_string_node("go", "raw_string_literal"));
    assert!(is_string_node("python", "concatenated_string"));
    assert!(is_string_node("typescript", "template_string"));
    assert!(!is_string_node("java", "string"));
    assert!(!is_string_node("kotlin", "string"));
}
