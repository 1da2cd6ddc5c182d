use code_memory::definitions::{DefinitionDraft, DefinitionTable};
use code_memory::inventory::{ProviderProtocol, SyntaxDefinition};
use code_memory::model::{
    EvidenceId, FactNodeKind, ProviderSymbolId, RepositoryPath, SourceFlags, Visibility,
};
use code_memory::reconcile::{
    match_path_definitions, reconcile_definition_inventory, select_provider_definition_alias,
    select_syntax_definition, sort_ids, MatchOutcome, OwnerResolution,
};

fn symbol(value: &str) -> ProviderSymbolId {
    ProviderSymbolId::parse(value).unwrap()
}

fn provider(id: &str, kind: FactNodeKind, name: &str, path: &str, range: Vec<i32>) -> DefinitionDraft {
    DefinitionDraft {
        symbol_id: symbol(id),
        native_kind: "fixture".to_string(),
        canonical_kind_hint: kind,
        qualified_name: id.to_string(),
        display_name: name.to_string(),
        signature: None,
        visibility: Visibility::Unknown,
        parent_symbol_id: None,
        definition_evidence_id: EvidenceId { value: format!("evidence:{id}") },
        flags: SourceFlags::default(),
        field_candidate: false,
        path: RepositoryPath::parse(path).unwrap(),
        provider_range: range,
        syntax_match: None,
    }
}

fn declaration(
    kind: FactNodeKind,
    name: &str,
    name_range: Vec<i32>,
    declaration_range: Vec<i32>,
    parent: Option<Vec<i32>>,
) -> SyntaxDefinition {
    SyntaxDefinition {
        kind,
        name: name.to_string(),
        name_utf8_range: name_range.clone(),
        name_utf16_range: name_range,
        declaration_utf8_range: declaration_range.clone(),
        declaration_utf16_range: declaration_range,
        parent_name_utf8_range: parent.clone(),
        parent_name_utf16_range: parent,
        signature: Some(format!("sig {name}")),
        visibility: Visibility::Public,
    }
}

fn box_file() -> Vec<SyntaxDefinition> {
    vec![
        declaration(FactNodeKind::Class, "Box", vec![0, 6, 9], vec![0, 0, 3, 1], None),
        declaration(FactNodeKind::Method, "value", vec![1, 4, 9], vec![1, 0, 1, 30], Some(vec![0, 6, 9])),
    ]
}

fn table(drafts: Vec<DefinitionDraft>) -> DefinitionTable {
    let mut table = DefinitionTable::new();
    for draft in drafts {
        table.insert(draft);
    }
    table
}

#[test]
fn an_exact_name_range_selects_the_declaration() {
    let syntax = box_file();
    let draft = provider("value", FactNodeKind::Method, "value", "src/box.rs", vec![1, 4, 9]);
    assert_eq!(select_syntax_definition(&draft, &syntax, &[false, false], ProviderProtocol::Scip), Some(1));
    assert_eq!(select_syntax_definition(&draft, &syntax, &[false, true], ProviderProtocol::Scip), None);
    // A range inside the class body but off every name falls back to the name.
    let by_name = provider("Box", FactNodeKind::Class, "Box", "src/box.rs", vec![0, 0, 3, 1]);
    assert_eq!(select_syntax_definition(&by_name, &syntax, &[false, false], ProviderProtocol::Scip), Some(0));
    let nowhere = provider("ghost", FactNodeKind::Function, "ghost", "src/box.rs", vec![9, 0, 5]);
    assert_eq!(select_syntax_definition(&nowhere, &syntax, &[false, false], ProviderProtocol::Scip), None);
}

#[test]
fn reconciliation_order_puts_shorter_identities_first() {
    let ids = vec![symbol("value2"), symbol("Box"), symbol("value"), symbol("Box")];
    let sorted: Vec<String> = sort_ids(ids).into_iter().map(|id| id.value).collect();
    assert_eq!(sorted, vec!["Box", "value", "value2"]);
}

#[test]
fn a_second_provider_symbol_on_a_matched_name_is_an_alias() {
    let syntax = box_file();
    let mut definitions = table(vec![
        provider("value", FactNodeKind::Method, "value", "src/box.rs", vec![1, 4, 9]),
        provider("value2", FactNodeKind::Method, "value", "src/box.rs", vec![1, 4, 9]),
    ]);
    let order = vec![symbol("value"), symbol("value2")];
    let (outcomes, used, matched) =
        match_path_definitions(&order, &syntax, &mut definitions, ProviderProtocol::Scip);
    assert!(matches!(outcomes[0], MatchOutcome::Matched { index: 1, refined: false }));
    match &outcomes[1] {
        MatchOutcome::Alias { primary } => assert_eq!(primary.as_str(), "value"),
        other => panic!("unexpected outcome {other:?}"),
    }
    assert_eq!(used, vec![false, true]);
    assert_eq!(matched[1].as_ref().map(|id| id.as_str()), Some("value"));
    let matched_draft = definitions.get(&symbol("value")).unwrap();
    assert_eq!(matched_draft.syntax_match, Some(1));
    assert_eq!(matched_draft.signature.as_deref(), Some("sig value"));
    assert_eq!(matched_draft.visibility, Visibility::Public);
    let again = definitions.get(&symbol("value2")).unwrap();
    assert_eq!(
        select_provider_definition_alias(again, &syntax, &used, &matched, &definitions, ProviderProtocol::Scip)
            .map(|id| id.value),
        Some("value".to_string())
    );
}

#[test]
fn inventory_reconciliation_matches_repairs_owners_and_drops_unmatched_definitions() {
    let files = vec![(RepositoryPath::parse("src/box.rs").unwrap(), box_file())];
    let mut definitions = table(vec![
        provider("Box", FactNodeKind::Class, "Box", "src/box.rs", vec![0, 6, 9]),
        provider("value", FactNodeKind::Function, "value", "src/box.rs", vec![1, 4, 9]),
        provider("value2", FactNodeKind::Method, "value", "src/box.rs", vec![1, 4, 9]),
        provider("ghost", FactNodeKind::Function, "ghost", "src/box.rs", vec![9, 0, 5]),
        provider("ext", FactNodeKind::Function, "ext", "lib/ext.rs", vec![0, 0, 3]),
    ]);
    let result = reconcile_definition_inventory(&files, &mut definitions, ProviderProtocol::Scip);

    let kept: Vec<&str> = definitions.entries.iter().map(|d| d.symbol_id.as_str()).collect();
    assert_eq!(kept, vec!["Box", "value", "ext"]);
    let value = definitions.get(&symbol("value")).unwrap();
    assert_eq!(value.canonical_kind_hint, FactNodeKind::Method);
    assert_eq!(value.parent_symbol_id.as_ref().map(|id| id.as_str()), Some("Box"));

    assert_eq!(result.owners.len(), 5);
    assert!(matches!(
        result.owners[1],
        OwnerResolution::Resolved { declared: true, repaired: true, .. }
    ));
    assert!(matches!(
        result.owners[0],
        OwnerResolution::Resolved { parent: None, declared: false, repaired: false }
    ));
    assert!(matches!(result.owners[3], OwnerResolution::NotApplicable));
    assert!(matches!(result.owners[4], OwnerResolution::NotApplicable));
    let aliases: Vec<(&str, &str)> =
        result.aliases.iter().map(|(a, p)| (a.as_str(), p.as_str())).collect();
    assert_eq!(aliases, vec![("value2", "value")]);
    assert_eq!(result.files.len(), 1);
    assert_eq!(result.files[0].0, vec![true, true]);
}

#[test]
fn a_declared_owner_that_no_provider_definition_matched_drops_the_member() {
    let files = vec![(RepositoryPath::parse("src/box.rs").unwrap(), box_file())];
    let mut definitions = table(vec![provider(
        "value",
        FactNodeKind::Method,
        "value",
        "src/box.rs",
        vec![1, 4, 9],
    )]);
    let result = reconcile_definition_inventory(&files, &mut definitions, ProviderProtocol::Scip);
    assert!(matches!(result.owners[0], OwnerResolution::Unresolved));
    assert!(definitions.entries.is_empty());
    assert!(result.aliases.is_empty());
}
