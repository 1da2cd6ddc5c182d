use code_memory::definitions::DefinitionDraft;
use code_memory::dispatch::SyntaxCallSite;
use code_memory::model::{
    AnalysisCapability, CallSiteForm, EvidenceId, FactNodeKind, IrEndpoint, LanguageRelationKind,
    ProgrammingLanguage, ProviderSymbolId, RepositoryPath, SourceFlags, Visibility,
};
use code_memory::relations::{
    call_site_matches_relation, endpoint, endpoint_key, hierarchy_kind, provider_relation_capability,
    relation_kind_rank, relation_sort_key, remap_provider_alias, retain_relation_endpoints,
    IrRelation, RelationOutput, TypeRelationIntent,
};

fn symbol(value: &str) -> ProviderSymbolId {
    ProviderSymbolId::parse(value).unwrap()
}

fn native(value: &str) -> IrEndpoint {
    IrEndpoint::NativeSymbol { symbol_id: symbol(value) }
}

fn name_of(endpoint: &IrEndpoint) -> String {
    endpoint_key(endpoint)
}

fn typed(kind: FactNodeKind) -> DefinitionDraft {
    DefinitionDraft {
        symbol_id: symbol("t"),
        native_kind: "fixture".to_string(),
        canonical_kind_hint: kind,
        qualified_name: "t".to_string(),
        display_name: "t".to_string(),
        signature: None,
        visibility: Visibility::Unknown,
        parent_symbol_id: None,
        definition_evidence_id: EvidenceId { value: "e".to_string() },
        flags: SourceFlags::default(),
        field_candidate: false,
        path: RepositoryPath::parse("a.cs").unwrap(),
        provider_range: vec![0, 0, 1],
        syntax_match: None,
    }
}

#[test]
fn provider_relations_are_accounted_under_their_capability() {
    assert_eq!(provider_relation_capability("CALLS"), Some(AnalysisCapability::DirectCalls));
    assert_eq!(provider_relation_capability("CONSTRUCTS"), Some(AnalysisCapability::DirectCalls));
    assert_eq!(provider_relation_capability("USES_TYPE"), Some(AnalysisCapability::TypeRelations));
    assert_eq!(provider_relation_capability("REFERENCE"), None);
    assert_eq!(provider_relation_capability("calls"), None);
}

#[test]
fn endpoints_are_files_or_provider_symbols() {
    assert_eq!(name_of(&endpoint("file:src/a.rs").unwrap()), "file:src/a.rs");
    assert!(endpoint("file:../a.rs").is_err());
    assert_eq!(name_of(&endpoint("scip rust a/b#c").unwrap()), "symbol:scip rust a/b#c");
    assert!(endpoint("   ").is_err());
}

#[test]
fn aliases_are_remapped_to_their_primary_definition() {
    let aliases = vec![(symbol("dup"), symbol("primary"))];
    assert_eq!(name_of(&remap_provider_alias(native("dup"), &aliases)), "symbol:primary");
    assert_eq!(name_of(&remap_provider_alias(native("other"), &aliases)), "symbol:other");
    let file = IrEndpoint::File { path: RepositoryPath::parse("a.rs").unwrap() };
    assert_eq!(name_of(&remap_provider_alias(file, &aliases)), "file:a.rs");
}

#[test]
fn discarded_endpoints_drop_or_reanchor_a_relation() {
    let relation = RelationOutput {
        from: "a".to_string(),
        to: "b".to_string(),
        kind: "CALLS".to_string(),
        path: "src/a.rs".to_string(),
        range: vec![1, 2, 3],
    };
    let discarded = vec![symbol("gone")];
    let kept = retain_relation_endpoints(&relation, AnalysisCapability::DirectCalls, native("a"), native("b"), &discarded)
        .unwrap();
    assert_eq!((name_of(&kept.0), name_of(&kept.1)), ("symbol:a".to_string(), "symbol:b".to_string()));
    assert!(retain_relation_endpoints(&relation, AnalysisCapability::DirectCalls, native("a"), native("gone"), &discarded)
        .is_none());
    let anchored = retain_relation_endpoints(&relation, AnalysisCapability::DirectCalls, native("gone"), native("b"), &discarded)
        .unwrap();
    assert_eq!(name_of(&anchored.0), "file:src/a.rs");
    assert!(retain_relation_endpoints(&relation, AnalysisCapability::TypeRelations, native("gone"), native("b"), &discarded)
        .is_none());
}

#[test]
fn call_sites_carry_calls_or_constructions() {
    let call = SyntaxCallSite { form: CallSiteForm::Call, callee_text: "Box".to_string(), lexical_ordinal: 0 };
    let construct = SyntaxCallSite { form: CallSiteForm::Construct, callee_text: "Box".to_string(), lexical_ordinal: 1 };
    assert!(call_site_matches_relation(&call, LanguageRelationKind::Calls, ProgrammingLanguage::Java, FactNodeKind::Method));
    assert!(!call_site_matches_relation(&construct, LanguageRelationKind::Calls, ProgrammingLanguage::Java, FactNodeKind::Method));
    assert!(call_site_matches_relation(&construct, LanguageRelationKind::Constructs, ProgrammingLanguage::Java, FactNodeKind::Constructor));
    assert!(call_site_matches_relation(&call, LanguageRelationKind::Constructs, ProgrammingLanguage::Python, FactNodeKind::Class));
    assert!(!call_site_matches_relation(&call, LanguageRelationKind::Constructs, ProgrammingLanguage::Java, FactNodeKind::Class));
    assert!(!call_site_matches_relation(&call, LanguageRelationKind::UsesType, ProgrammingLanguage::Java, FactNodeKind::Class));
}

#[test]
fn csharp_base_lists_become_extends_or_implements() {
    let class = typed(FactNodeKind::Class);
    let interface = typed(FactNodeKind::Interface);
    let alias = typed(FactNodeKind::TypeAlias);
    assert_eq!(hierarchy_kind(TypeRelationIntent::CSharpBase, &class, &interface), Some(LanguageRelationKind::Implements));
    assert_eq!(hierarchy_kind(TypeRelationIntent::CSharpBase, &class, &class), Some(LanguageRelationKind::Extends));
    assert_eq!(hierarchy_kind(TypeRelationIntent::CSharpBase, &interface, &interface), Some(LanguageRelationKind::Extends));
    assert_eq!(hierarchy_kind(TypeRelationIntent::CSharpBase, &interface, &class), None);
    assert_eq!(hierarchy_kind(TypeRelationIntent::CSharpBase, &class, &alias), None);
    assert_eq!(
        hierarchy_kind(TypeRelationIntent::Exact(LanguageRelationKind::MixesIn), &class, &alias),
        Some(LanguageRelationKind::MixesIn)
    );
}

#[test]
fn relations_sort_by_endpoints_kind_and_evidence() {
    assert_eq!(relation_kind_rank(LanguageRelationKind::Calls), 6);
    assert_eq!(relation_kind_rank(LanguageRelationKind::Writes), 16);
    let relation = IrRelation {
        source: IrEndpoint::File { path: RepositoryPath::parse("a.rs").unwrap() },
        target: native("b"),
        kind: LanguageRelationKind::Imports,
        evidence_ids: vec![EvidenceId { value: "ev1".to_string() }],
    };
    assert_eq!(
        relation_sort_key(&relation),
        ("file:a.rs".to_string(), "symbol:b".to_string(), 3, "ev1".to_string())
    );
}
