use code_memory::definitions::{DefinitionTable, SymbolOutput};
use code_memory::model::{EvidenceId, FactNodeKind, ProviderSymbolId, RepositoryPath, SourceFlags, Visibility};
use code_memory::provider_definitions::{
    add_first_draft, definition_candidate, definition_draft, definition_range,
    discarded_definition_ids, record_parent, DefinitionCandidate, DefinitionOutcome,
    OccurrenceOutput, OccurrenceSpan,
};

fn symbol(symbol: &str, kind: &str, enclosing: Option<&str>) -> SymbolOutput {
    SymbolOutput {
        symbol: symbol.to_string(),
        kind: kind.to_string(),
        display_name: None,
        signature: Some("  fn run()  ".to_string()),
        enclosing_symbol: enclosing.map(str::to_string),
    }
}

fn occurrence(symbol: &str, range: Vec<i32>, definition: bool) -> OccurrenceOutput {
    OccurrenceOutput { symbol: symbol.to_string(), range, definition }
}

fn id(value: &str) -> ProviderSymbolId {
    ProviderSymbolId::parse(value).unwrap()
}

#[test]
fn the_least_definition_occurrence_proves_a_symbol() {
    let occurrences = vec![
        occurrence("a#run", vec![4, 2, 5], true),
        occurrence("a#run", vec![1, 0, 3], false),
        occurrence("a#run", vec![3, 9, 12], true),
        occurrence("b#other", vec![0, 0, 1], true),
    ];
    assert_eq!(definition_range(&occurrences, "a#run"), Some(vec![3, 9, 12]));
    assert_eq!(definition_range(&occurrences, "c#none"), None);
}

#[test]
fn only_definition_kinds_with_evidence_become_candidates() {
    let occurrences = vec![occurrence("a#run", vec![3, 9, 12], true), occurrence("a#x", vec![5, 1, 2], true)];
    match definition_candidate(&symbol("a#run", "Method", None), &occurrences) {
        DefinitionCandidate::Located { kind, field_candidate, symbol_id, range } => {
            assert_eq!(kind, FactNodeKind::Method);
            assert!(!field_candidate);
            assert_eq!(symbol_id.as_str(), "a#run");
            assert_eq!(range, vec![3, 9, 12]);
        }
        other => panic!("unexpected {other:?}"),
    }
    match definition_candidate(&symbol("a#x", "Variable", None), &occurrences) {
        DefinitionCandidate::Located { kind, field_candidate, .. } => {
            assert_eq!(kind, FactNodeKind::Field);
            assert!(field_candidate);
        }
        other => panic!("unexpected {other:?}"),
    }
    assert!(matches!(
        definition_candidate(&symbol("a#p", "Parameter", None), &occurrences),
        DefinitionCandidate::NotADefinition
    ));
    assert!(matches!(
        definition_candidate(&symbol("a#gone", "Function", None), &occurrences),
        DefinitionCandidate::Omitted
    ));
}

#[test]
fn located_definitions_become_drafts_unless_their_range_is_empty() {
    let occurrences = vec![occurrence("a#run", vec![3, 9, 12], true)];
    let path = RepositoryPath::parse("src/a.rs").unwrap();
    let s = symbol("a#run", "Method", Some("a#"));
    let located = definition_candidate(&s, &occurrences);
    match definition_draft(&s, located, OccurrenceSpan::Text, &path, EvidenceId { value: "ev".to_string() }, SourceFlags::default()) {
        DefinitionOutcome::Drafted(d) => {
            assert_eq!(d.display_name, "run");
            assert_eq!(d.signature.as_deref(), Some("fn run()"));
            assert_eq!(d.parent_symbol_id.map(|p| p.value), Some("a#".to_string()));
            assert_eq!(d.visibility, Visibility::Unknown);
            assert_eq!(d.provider_range, vec![3, 9, 12]);
            assert_eq!(d.qualified_name, "a#run");
        }
        other => panic!("unexpected {other:?}"),
    }
    let located = definition_candidate(&s, &occurrences);
    match definition_draft(&s, located, OccurrenceSpan::Empty, &path, EvidenceId { value: "ev".to_string() }, SourceFlags::default()) {
        DefinitionOutcome::Sentinel(id) => assert_eq!(id.as_str(), "a#run"),
        other => panic!("unexpected {other:?}"),
    }
    let located = definition_candidate(&s, &occurrences);
    assert!(matches!(
        definition_draft(&s, located, OccurrenceSpan::Invalid, &path, EvidenceId { value: "ev".to_string() }, SourceFlags::default()),
        DefinitionOutcome::Omitted
    ));
}

#[test]
fn the_first_draft_of_an_identity_wins_and_discards_are_tracked() {
    let occurrences = vec![occurrence("a#run", vec![3, 9, 12], true)];
    let path = RepositoryPath::parse("src/a.rs").unwrap();
    let mut table = DefinitionTable::new();
    for kind in ["Method", "Function"] {
        let s = symbol("a#run", kind, None);
        let located = definition_candidate(&s, &occurrences);
        if let DefinitionOutcome::Drafted(d) =
            definition_draft(&s, located, OccurrenceSpan::Text, &path, EvidenceId { value: kind.to_string() }, SourceFlags::default())
        {
            add_first_draft(&mut table, d);
        }
    }
    assert_eq!(table.entries.len(), 1);
    assert_eq!(table.entries[0].native_kind, "Method");
    let discarded = discarded_definition_ids(&[id("a#run"), id("a#gone")], &table, &[id("a#sentinel")]);
    let mut names: Vec<String> = discarded.into_iter().map(|d| d.value).collect();
    names.sort();
    assert_eq!(names, vec!["a#gone", "a#sentinel"]);
    assert_eq!(record_parent(&Some(id("a#run")), &table).map(|p| p.value), Some("a#run".to_string()));
    assert_eq!(record_parent(&Some(id("a#gone")), &table), None);
}
