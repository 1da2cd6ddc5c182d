use code_memory::model::LanguageRelationKind;
use code_memory::sql_facts::{sql_query_facts, SqlDefinitionKind, SqlEndpoint, SqlSiteInput};
use code_memory::sql_literals::{SqlTableAccess, SqlTableAccessKind};
use code_memory::sql_queries::SqlQuerySite;

fn site(range: Vec<i32>, op: &str, tables: &[(&str, SqlTableAccessKind)]) -> SqlQuerySite {
    SqlQuerySite {
        utf8_range: range,
        operation: op.to_string(),
        digest: vec![0xab, 0x01],
        tables: tables.iter().map(|(t, k)| SqlTableAccess { table: t.to_string(), kind: *k }).collect(),
    }
}

fn endpoint(e: &SqlEndpoint) -> String {
    match e {
        SqlEndpoint::Symbol(id) => format!("symbol:{id}"),
        SqlEndpoint::File(path) => format!("file:{path}"),
    }
}

#[test]
fn query_sites_become_query_table_and_relation_facts() {
    let inputs = vec![
        SqlSiteInput {
            path: "app.py".to_string(),
            site: site(vec![3, 4, 3, 40], "INSERT", &[("sessions", SqlTableAccessKind::Write), ("staged", SqlTableAccessKind::Read)]),
            evidence_id: Some("e1".to_string()),
            owner: Some("py:save".to_string()),
        },
        SqlSiteInput {
            path: "app.py".to_string(),
            site: site(vec![9, 0, 9, 20], "SELECT", &[("sessions", SqlTableAccessKind::Read)]),
            evidence_id: Some("e2".to_string()),
            owner: None,
        },
        SqlSiteInput {
            path: "app.py".to_string(),
            site: site(vec![12, 0, 12, 9], "SELECT", &[("lost", SqlTableAccessKind::Read)]),
            evidence_id: None,
            owner: None,
        },
    ];
    let facts = sql_query_facts("u1", &inputs);
    assert_eq!(facts.audit.eligible_query_count, 3);
    assert_eq!(facts.audit.accepted_query_count, 2);
    assert_eq!(facts.audit.query_definition_count, 2);
    assert_eq!(facts.audit.table_definition_count, 2);
    assert_eq!(facts.audit.callable_owner_count, 1);
    let symbols: Vec<&str> = facts.definitions.iter().map(|d| d.symbol_id.as_str()).collect();
    assert_eq!(
        symbols,
        vec![
            "static-sql-query:u1:app.py:3:4:ab01",
            "static-sql-query:u1:app.py:9:0:ab01",
            "static-sql-table:u1:sessions",
            "static-sql-table:u1:staged",
        ]
    );
    assert_eq!(facts.definitions[0].kind, SqlDefinitionKind::Query);
    assert_eq!(facts.definitions[0].qualified_name, "sql.query:app.py:3:4:ab01");
    assert_eq!(facts.definitions[0].display_name, "INSERT sessions");
    assert_eq!(facts.definitions[2].qualified_name, "sql.table:sessions");
    assert_eq!(facts.definitions[2].evidence_id, "e1");
    let relations: Vec<(String, String, LanguageRelationKind)> =
        facts.relations.iter().map(|r| (endpoint(&r.source), endpoint(&r.target), r.kind)).collect();
    assert_eq!(
        relations,
        vec![
            ("file:app.py".to_string(), "symbol:static-sql-query:u1:app.py:9:0:ab01".to_string(), LanguageRelationKind::ExecutesQuery),
            ("symbol:py:save".to_string(), "symbol:static-sql-query:u1:app.py:3:4:ab01".to_string(), LanguageRelationKind::ExecutesQuery),
            ("symbol:static-sql-query:u1:app.py:3:4:ab01".to_string(), "symbol:static-sql-table:u1:sessions".to_string(), LanguageRelationKind::Writes),
            ("symbol:static-sql-query:u1:app.py:3:4:ab01".to_string(), "symbol:static-sql-table:u1:staged".to_string(), LanguageRelationKind::Reads),
            ("symbol:static-sql-query:u1:app.py:9:0:ab01".to_string(), "symbol:static-sql-table:u1:sessions".to_string(), LanguageRelationKind::Reads),
        ]
    );
    assert_eq!(facts.audit.emitted_relation_count, 5);
}

#[test]
fn a_repeated_site_emits_its_relations_once_and_negative_points_keep_their_sign() {
    let one = || SqlSiteInput {
        path: "a.go".to_string(),
        site: site(vec![-1], "DELETE", &[("t", SqlTableAccessKind::Write)]),
        evidence_id: Some("e".to_string()),
        owner: None,
    };
    let facts = sql_query_facts("u", &[one(), one()]);
    assert_eq!(facts.relations.len(), 2);
    assert_eq!(facts.definitions[0].symbol_id, "static-sql-query:u:a.go:-1:0:ab01");
    assert_eq!(facts.definitions.len(), 3);
    assert_eq!(facts.audit.table_definition_count, 1);
}
