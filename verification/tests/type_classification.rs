use code_memory::definitions::{DefinitionDraft, DefinitionTable};
use code_memory::inventory::{ProviderProtocol, SyntaxDefinition};
use code_memory::model::{
    EvidenceId, FactNodeKind, IrEndpoint, LanguageRelationKind, ProgrammingLanguage,
    ProviderSymbolId, RepositoryPath, SourceFlags, Visibility,
};
use code_memory::relations::{endpoint_key, RelationOutput, TypeRelationIntent};
use code_memory::type_classification::{
    classify_type_relation, debug_i32s, triage_type_relation, FileSyntaxDefinitions,
    FileTypeRelationSites, FileTypeUseSites, ProviderRelationClassificationContext,
    RelationTriage, SymbolOccurrenceRanges, SyntaxTypeRelationSite, SyntaxTypeUseSite,
    TypeRelationMapping,
};

fn symbol(value: &str) -> ProviderSymbolId {
    ProviderSymbolId { value: value.to_string() }
}

fn native(value: &str) -> IrEndpoint {
    IrEndpoint::NativeSymbol { symbol_id: symbol(value) }
}

fn path(value: &str) -> RepositoryPath {
    RepositoryPath { value: value.to_string() }
}

fn draft(id: &str, kind: FactNodeKind, name: &str, parent: Option<&str>, syntax: Option<usize>) -> DefinitionDraft {
    DefinitionDraft {
        symbol_id: symbol(id),
        native_kind: "fixture".to_string(),
        canonical_kind_hint: kind,
        qualified_name: name.to_string(),
        display_name: name.to_string(),
        signature: None,
        visibility: Visibility::Public,
        parent_symbol_id: parent.map(symbol),
        definition_evidence_id: EvidenceId { value: format!("e-{id}") },
        flags: SourceFlags::default(),
        field_candidate: false,
        path: path("src/A.java"),
        provider_range: vec![0, 0, 1],
        syntax_match: syntax,
    }
}

fn declaration(kind: FactNodeKind, name: &str, range: Vec<i32>) -> SyntaxDefinition {
    SyntaxDefinition {
        kind,
        name: name.to_string(),
        name_utf8_range: range.clone(),
        name_utf16_range: range.clone(),
        declaration_utf8_range: vec![range[0], 0, range[0] + 3, 1],
        declaration_utf16_range: vec![range[0], 0, range[0] + 3, 1],
        parent_name_utf8_range: None,
        parent_name_utf16_range: None,
        signature: None,
        visibility: Visibility::Public,
    }
}

struct Fixture {
    definitions: DefinitionTable,
    syntax_definitions: Vec<FileSyntaxDefinitions>,
    relations: Vec<FileTypeRelationSites>,
    uses: Vec<FileTypeUseSites>,
    occurrences: Vec<SymbolOccurrenceRanges>,
}

fn fixture() -> Fixture {
    Fixture {
        definitions: DefinitionTable {
            entries: vec![
                draft("a", FactNodeKind::Class, "A", None, Some(0)),
                draft("b", FactNodeKind::Interface, "B", None, None),
                draft("am", FactNodeKind::Method, "m", Some("a"), None),
                draft("bm", FactNodeKind::Method, "m", Some("b"), None),
                draft("t", FactNodeKind::TypeAlias, "T", None, None),
                draft("f", FactNodeKind::Function, "f", None, Some(1)),
            ],
        },
        syntax_definitions: vec![FileSyntaxDefinitions {
            path: path("src/A.java"),
            definitions: vec![
                declaration(FactNodeKind::Class, "A", vec![1, 13, 14]),
                declaration(FactNodeKind::Function, "f", vec![5, 4, 5]),
            ],
        }],
        relations: vec![FileTypeRelationSites {
            path: path("src/A.java"),
            sites: vec![SyntaxTypeRelationSite {
                intent: TypeRelationIntent::Exact(LanguageRelationKind::Implements),
                source_name: "A".to_string(),
                source_utf8_range: vec![1, 13, 14],
                source_utf16_range: vec![1, 13, 14],
                target_name: "B".to_string(),
                target_utf8_range: vec![1, 26, 27],
                target_utf16_range: vec![1, 26, 27],
            }],
        }],
        uses: vec![FileTypeUseSites {
            path: path("src/A.java"),
            sites: vec![SyntaxTypeUseSite {
                source_name: "f".to_string(),
                source_name_utf8_range: vec![5, 4, 5],
                source_name_utf16_range: vec![5, 4, 5],
                source_declaration_utf8_range: vec![5, 0, 8, 1],
                source_declaration_utf16_range: vec![5, 0, 8, 1],
                target_name: "T".to_string(),
                target_utf8_range: vec![5, 10, 11],
                target_utf16_range: vec![5, 10, 11],
            }],
        }],
        occurrences: Vec::new(),
    }
}

fn context<'a>(f: &'a Fixture, language: ProgrammingLanguage) -> ProviderRelationClassificationContext<'a> {
    ProviderRelationClassificationContext {
        language,
        protocol: ProviderProtocol::Scip,
        definitions: &f.definitions,
        syntax_definitions: &f.syntax_definitions,
        syntax_type_relations: &f.relations,
        syntax_type_uses: &f.uses,
        hierarchy_occurrence_ranges: &f.occurrences,
    }
}

fn relation(kind: &str, from: &str, to: &str, range: Vec<i32>) -> RelationOutput {
    RelationOutput {
        from: from.to_string(),
        to: to.to_string(),
        kind: kind.to_string(),
        path: "src/A.java".to_string(),
        range,
    }
}

fn classify(f: &Fixture, language: ProgrammingLanguage, kind: &str, from: &str, to: &str, range: Vec<i32>) -> Option<TypeRelationMapping> {
    classify_type_relation(&relation(kind, from, to, range), &native(from), &native(to), &context(f, language))
}

#[test]
fn type_uses_need_an_explicit_declaration_bound_site() {
    let f = fixture();
    let java = ProgrammingLanguage::Java;
    let mapping = classify(&f, java, "USES_TYPE", "f", "t", vec![5, 10, 11]).unwrap();
    assert_eq!(mapping.kind, LanguageRelationKind::UsesType);
    assert!(!mapping.reverse_endpoints);
    assert_eq!(mapping.evidence_range, Some(vec![5, 10, 11]));
    assert_eq!(mapping.matched_explicit_site_key, None);
    assert!(classify(&f, java, "TYPE_DEFINITION", "f", "t", vec![5, 9, 12]).is_some());
    assert!(classify(&f, java, "USES_TYPE", "f", "t", vec![9, 0, 1]).is_none());
    assert!(classify(&f, java, "USES_TYPE", "t", "f", vec![5, 10, 11]).is_none());
    assert!(classify(&f, java, "USES_TYPE", "f", "missing", vec![5, 10, 11]).is_none());
}

#[test]
fn hierarchy_relations_need_an_explicit_clause_except_in_go() {
    let f = fixture();
    let mapping = classify(&f, ProgrammingLanguage::Java, "IMPLEMENTATION", "a", "b", vec![1, 26, 27]).unwrap();
    assert_eq!(mapping.kind, LanguageRelationKind::Implements);
    assert_eq!(mapping.evidence_range, Some(vec![1, 26, 27]));
    assert_eq!(
        mapping.matched_explicit_site_key.as_deref(),
        Some("src/A.java\tA\t[1, 13, 14]\tB\t[1, 26, 27]\t9")
    );
    let go = classify(&f, ProgrammingLanguage::Go, "IMPLEMENTATION", "b", "a", vec![0, 0, 1]).unwrap();
    assert_eq!(go.kind, LanguageRelationKind::Implements);
    assert_eq!(go.evidence_range, None);
    assert!(classify(&f, ProgrammingLanguage::Java, "DEFINITION_OVERRIDE", "a", "b", vec![1, 26, 27]).is_none());
    assert!(classify(&f, ProgrammingLanguage::Java, "IMPLEMENTATION", "b", "a", vec![1, 26, 27]).is_none());
}

#[test]
fn hierarchy_sites_match_provider_occurrences() {
    let mut f = fixture();
    f.relations[0].sites[0].target_name = "Other".to_string();
    assert!(classify(&f, ProgrammingLanguage::Java, "IMPLEMENTATION", "a", "b", vec![1, 26, 27]).is_none());
    f.occurrences.push(SymbolOccurrenceRanges {
        path: "src/A.java".to_string(),
        symbol_id: symbol("b"),
        ranges: vec![vec![1, 26, 1, 27]],
    });
    assert!(classify(&f, ProgrammingLanguage::Java, "IMPLEMENTATION", "a", "b", vec![1, 26, 27]).is_some());
}

#[test]
fn methods_of_distinct_type_owners_override() {
    let f = fixture();
    let java = classify(&f, ProgrammingLanguage::Java, "IMPLEMENTATION", "am", "bm", vec![0, 0, 1]).unwrap();
    assert_eq!(java.kind, LanguageRelationKind::Overrides);
    assert!(!java.reverse_endpoints);
    let cpp = classify(&f, ProgrammingLanguage::Cpp, "DEFINITION", "am", "bm", vec![0, 0, 1]).unwrap();
    assert_eq!(cpp.kind, LanguageRelationKind::Overrides);
    assert!(cpp.reverse_endpoints);
    assert!(classify(&f, ProgrammingLanguage::Java, "DEFINITION", "am", "bm", vec![0, 0, 1]).is_none());
    assert!(classify(&f, ProgrammingLanguage::Java, "IMPLEMENTATION", "am", "f", vec![0, 0, 1]).is_none());
}

fn triage(f: &Fixture, language: ProgrammingLanguage, r: RelationOutput, aliases: &[(ProviderSymbolId, ProviderSymbolId)], discarded: &[ProviderSymbolId]) -> RelationTriage {
    triage_type_relation(&r, aliases, discarded, &context(f, language))
}

#[test]
fn the_type_relation_stage_remaps_drops_orients_and_skips() {
    let f = fixture();
    let java = ProgrammingLanguage::Java;
    assert!(matches!(
        triage(&f, java, relation("REFERENCES", "f", "t", vec![5, 10, 11]), &[], &[]),
        RelationTriage::NotProviderRelation
    ));
    assert!(matches!(
        triage(&f, java, relation("CALLS", "f", "t", vec![5, 10, 11]), &[], &[]),
        RelationTriage::CallRelation
    ));
    assert!(matches!(
        triage(&f, java, relation("USES_TYPE", "  ", "t", vec![5, 10, 11]), &[], &[]),
        RelationTriage::Omitted
    ));
    assert!(matches!(
        triage(&f, java, relation("USES_TYPE", "f", "t", vec![5, 10, 11]), &[], &[symbol("t")]),
        RelationTriage::Omitted
    ));
    match triage(&f, java, relation("USES_TYPE", "f-alias", "t", vec![5, 10, 11]), &[(symbol("f-alias"), symbol("f"))], &[]) {
        RelationTriage::Classified { source, target, mapping } => {
            assert_eq!(endpoint_key(&source), "symbol:f");
            assert_eq!(endpoint_key(&target), "symbol:t");
            assert_eq!(mapping.kind, LanguageRelationKind::UsesType);
        }
        other => panic!("expected a classified relation, got {:?}", other),
    }
    match triage(&f, ProgrammingLanguage::Cpp, relation("DEFINITION", "am", "bm", vec![0, 0, 1]), &[], &[]) {
        RelationTriage::Classified { source, target, .. } => {
            assert_eq!(endpoint_key(&source), "symbol:bm");
            assert_eq!(endpoint_key(&target), "symbol:am");
        }
        other => panic!("expected a classified relation, got {:?}", other),
    }
    assert!(matches!(
        triage(&f, ProgrammingLanguage::Go, relation("IMPLEMENTATION", "a", "a-alias", vec![0, 0, 1]), &[(symbol("a-alias"), symbol("a"))], &[]),
        RelationTriage::SelfRelation
    ));
}

#[test]
fn integer_lists_print_like_debug() {
    assert_eq!(debug_i32s(&[]), "[]");
    assert_eq!(debug_i32s(&[1, 13, 14]), "[1, 13, 14]");
    assert_eq!(debug_i32s(&[-3, 0, i32::MIN]), format!("{:?}", vec![-3, 0, i32::MIN]));
}
