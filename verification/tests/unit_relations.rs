use code_memory::capabilities::CapabilityCount;
use code_memory::definitions::{DefinitionDraft, DefinitionTable};
use code_memory::model::{
    AnalysisCapability, DispatchKind, EvidenceId, FactNodeKind, IrEndpoint, LanguageRelationKind, ProgrammingLanguage,
    ProviderSymbolId, RepositoryPath, SourceFlags, Visibility,
};
use code_memory::unit_relations::{
    finish_unit_relations, type_relation_audit_entries, type_relation_audit_key, type_relation_endpoint, EvidenceSpan,
    PendingRelation,
};

fn symbol(value: &str) -> IrEndpoint {
    IrEndpoint::NativeSymbol { symbol_id: ProviderSymbolId { value: value.to_string() } }
}

fn file(value: &str) -> IrEndpoint {
    IrEndpoint::File { path: RepositoryPath { value: value.to_string() } }
}

fn evidence(value: &str) -> Option<EvidenceId> {
    Some(EvidenceId { value: value.to_string() })
}

fn candidate(
    capability: AnalysisCapability,
    source: IrEndpoint,
    target: IrEndpoint,
    kind: LanguageRelationKind,
    site_key: Option<&str>,
) -> PendingRelation {
    PendingRelation::Candidate {
        capability,
        source,
        target,
        kind,
        evidence_range: vec![1, 0, 1, 5],
        site_key: site_key.map(|k| k.to_string()),
    }
}

fn endpoint_text(e: &IrEndpoint) -> String {
    match e {
        IrEndpoint::NativeSymbol { symbol_id } => format!("symbol:{}", symbol_id.value),
        IrEndpoint::File { path } => format!("file:{}", path.value),
        IrEndpoint::Structure { qualified_name, .. } => format!("structure:{}", qualified_name),
    }
}

#[test]
fn calls_are_dispatched_unknown_and_constructions_directly() {
    let pending = vec![
        candidate(AnalysisCapability::DirectCalls, symbol("a"), symbol("b"), LanguageRelationKind::Calls, None),
        candidate(AnalysisCapability::DirectCalls, symbol("a"), symbol("c"), LanguageRelationKind::Constructs, None),
        candidate(AnalysisCapability::TypeRelations, symbol("a"), symbol("d"), LanguageRelationKind::UsesType, None),
    ];
    let ev = vec![evidence("e1"), evidence("e2"), evidence("e3")];
    let r = finish_unit_relations(&pending, &ev);
    assert_eq!(r.relations.len(), 3);
    assert_eq!(r.relations[0].dispatch, DispatchKind::Unknown);
    assert_eq!(r.relations[1].dispatch, DispatchKind::Direct);
    assert_eq!(r.relations[2].dispatch, DispatchKind::NotApplicable);
    assert_eq!(r.relations[0].evidence_id.value, "e1");
    assert_eq!(r.relations[2].evidence_id.value, "e3");
}

#[test]
fn relations_come_out_ordered_by_source_then_target() {
    let pending = vec![
        candidate(AnalysisCapability::DirectCalls, symbol("b"), symbol("a"), LanguageRelationKind::Calls, None),
        candidate(AnalysisCapability::DirectCalls, symbol("a"), symbol("z"), LanguageRelationKind::Calls, None),
        candidate(AnalysisCapability::DirectCalls, file("src/x.rs"), symbol("a"), LanguageRelationKind::Calls, None),
        candidate(AnalysisCapability::DirectCalls, symbol("a"), symbol("m"), LanguageRelationKind::Calls, None),
    ];
    let ev = vec![evidence("e1"), evidence("e2"), evidence("e3"), evidence("e4")];
    let r = finish_unit_relations(&pending, &ev);
    let order: Vec<(String, String)> =
        r.relations.iter().map(|x| (endpoint_text(&x.source), endpoint_text(&x.target))).collect();
    assert_eq!(
        order,
        vec![
            ("file:src/x.rs".to_string(), "symbol:a".to_string()),
            ("symbol:a".to_string(), "symbol:m".to_string()),
            ("symbol:a".to_string(), "symbol:z".to_string()),
            ("symbol:b".to_string(), "symbol:a".to_string()),
        ]
    );
}

#[test]
fn emitted_and_omitted_are_counted_per_capability() {
    let pending = vec![
        PendingRelation::Skipped,
        PendingRelation::Omitted { capability: AnalysisCapability::DirectCalls },
        candidate(AnalysisCapability::DirectCalls, symbol("a"), symbol("b"), LanguageRelationKind::Calls, None),
        candidate(AnalysisCapability::TypeRelations, symbol("a"), symbol("t"), LanguageRelationKind::Extends, None),
        candidate(AnalysisCapability::TypeRelations, symbol("a"), symbol("u"), LanguageRelationKind::Implements, None),
        PendingRelation::Omitted { capability: AnalysisCapability::TypeRelations },
    ];
    let ev = vec![None, None, evidence("e1"), None, evidence("e2"), evidence("unused")];
    let r = finish_unit_relations(&pending, &ev);
    assert_eq!(r.relations.len(), 2);
    assert_eq!(
        r.emitted,
        vec![
            CapabilityCount { capability: AnalysisCapability::DirectCalls, count: 1 },
            CapabilityCount { capability: AnalysisCapability::TypeRelations, count: 1 },
        ]
    );
    assert_eq!(
        r.omitted,
        vec![
            CapabilityCount { capability: AnalysisCapability::DirectCalls, count: 1 },
            CapabilityCount { capability: AnalysisCapability::TypeRelations, count: 2 },
        ]
    );
}

#[test]
fn skipped_relations_leave_no_trace() {
    let pending = vec![PendingRelation::Skipped, PendingRelation::Skipped];
    let ev = vec![evidence("e1"), evidence("e2")];
    let r = finish_unit_relations(&pending, &ev);
    assert!(r.relations.is_empty());
    assert!(r.emitted.is_empty());
    assert!(r.omitted.is_empty());
    assert!(r.matched_site_keys.is_empty());
}

#[test]
fn emitted_type_relations_report_their_sites() {
    let pending = vec![
        candidate(AnalysisCapability::TypeRelations, symbol("a"), symbol("t"), LanguageRelationKind::Extends, Some("k1")),
        candidate(AnalysisCapability::TypeRelations, symbol("a"), symbol("u"), LanguageRelationKind::Extends, Some("k2")),
        candidate(AnalysisCapability::DirectCalls, symbol("a"), symbol("v"), LanguageRelationKind::Calls, Some("k3")),
    ];
    let ev = vec![evidence("e1"), None, evidence("e3")];
    let r = finish_unit_relations(&pending, &ev);
    assert_eq!(r.matched_site_keys, vec!["k1".to_string()]);
}

const CATS: &str = "scip-typescript npm @scope/pkg 1.0.0 src/service.ts/ScopedService#";

fn definitions() -> DefinitionTable {
    let mut table = DefinitionTable::new();
    table.insert(DefinitionDraft {
        symbol_id: ProviderSymbolId { value: "pkg/Base#".to_string() },
        native_kind: "class".to_string(),
        canonical_kind_hint: FactNodeKind::Class,
        qualified_name: "pkg.Base".to_string(),
        display_name: "BaseService".to_string(),
        signature: None,
        visibility: Visibility::Unknown,
        parent_symbol_id: None,
        definition_evidence_id: EvidenceId { value: "evidence:base".to_string() },
        flags: SourceFlags::default(),
        field_candidate: false,
        path: RepositoryPath::parse("src/base.ts").unwrap(),
        provider_range: vec![0, 0, 1],
        syntax_match: None,
    });
    table
}

fn span(line: u32) -> Option<EvidenceSpan> {
    Some(EvidenceSpan {
        path: "src/service.ts".to_string(),
        start_line: line,
        start_utf8_column: 4,
        end_line: line,
        end_utf8_column: 20,
    })
}

#[test]
fn type_relation_endpoints_carry_definition_names() {
    let table = definitions();
    assert_eq!(type_relation_endpoint(&symbol("pkg/Base#"), &table), ("pkg/Base#".to_string(), "BaseService".to_string()));
    assert_eq!(type_relation_endpoint(&symbol(CATS), &table), (CATS.to_string(), "ScopedService".to_string()));
    assert_eq!(
        type_relation_endpoint(&file("src/a.ts"), &table),
        ("file:src/a.ts".to_string(), "src/a.ts".to_string())
    );
}

#[test]
fn emitted_type_relations_are_audited_with_their_spans() {
    let pending = vec![
        candidate(AnalysisCapability::TypeRelations, symbol(CATS), symbol("pkg/Base#"), LanguageRelationKind::Extends, None),
        candidate(AnalysisCapability::DirectCalls, symbol(CATS), symbol("pkg/Base#"), LanguageRelationKind::Calls, None),
        candidate(AnalysisCapability::TypeRelations, symbol(CATS), symbol("pkg/Other#"), LanguageRelationKind::Implements, None),
        PendingRelation::Skipped,
    ];
    let native = vec!["extends".to_string(), "calls".to_string(), "implements".to_string(), "x".to_string()];
    let spans = vec![span(3), span(4), None, span(6)];
    let entries = type_relation_audit_entries("typescript:root", ProgrammingLanguage::TypeScript, &pending, &native, &spans, &definitions());
    assert_eq!(entries.len(), 1);
    let e = &entries[0];
    assert_eq!(e.source_name, "ScopedService");
    assert_eq!(e.target_name, "BaseService");
    assert_eq!(e.native_relation, "extends");
    assert_eq!(e.start_line, 3);
    assert_eq!(
        type_relation_audit_key(e),
        format!("typescript:root\ttypescript\tsrc/service.ts\t8\t{}\tpkg/Base#\textends\t3:4-3:20", CATS)
    );
}
