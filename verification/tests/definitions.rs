use code_memory::definitions::{
    reconcile_definition_drafts, short_symbol_name, DefinitionDraft, DefinitionTable,
};
use code_memory::model::{
    EvidenceId, FactNodeKind, ProgrammingLanguage, ProviderSymbolId, RepositoryPath, SourceFlags,
    Visibility,
};

fn symbol(value: &str) -> ProviderSymbolId {
    ProviderSymbolId::parse(value).unwrap()
}

fn draft(
    id: &str,
    kind: FactNodeKind,
    display_name: &str,
    parent: Option<&str>,
    signature: Option<&str>,
    field_candidate: bool,
) -> DefinitionDraft {
    DefinitionDraft {
        symbol_id: symbol(id),
        native_kind: if field_candidate { "Variable" } else { "fixture" }.to_string(),
        canonical_kind_hint: kind,
        qualified_name: id.to_string(),
        display_name: display_name.to_string(),
        signature: signature.map(str::to_string),
        visibility: Visibility::Unknown,
        parent_symbol_id: parent.map(symbol),
        definition_evidence_id: EvidenceId { value: format!("evidence:{id}") },
        flags: SourceFlags::default(),
        field_candidate,
        path: RepositoryPath::parse("fixture.rs").unwrap(),
        provider_range: vec![0, 0, 1],
        syntax_match: None,
    }
}

fn table(drafts: Vec<DefinitionDraft>) -> DefinitionTable {
    let mut table = DefinitionTable::new();
    for draft in drafts {
        table.insert(draft);
    }
    table
}

fn kind_of(table: &DefinitionTable, id: &str) -> FactNodeKind {
    table.get(&symbol(id)).unwrap().canonical_kind_hint
}

#[test]
fn variables_are_fields_only_when_a_type_directly_owns_them() {
    let mut definitions = table(vec![
        draft("Box", FactNodeKind::Class, "Box", None, None, false),
        draft("Box.value", FactNodeKind::Field, "value", Some("Box"), None, true),
        draft("local", FactNodeKind::Field, "local", None, None, true),
    ]);

    reconcile_definition_drafts(ProgrammingLanguage::Go, &mut definitions);

    assert_eq!(kind_of(&definitions, "Box.value"), FactNodeKind::Field);
    assert!(!definitions.contains_key(&symbol("local")));
}

#[test]
fn constructor_and_file_function_kinds_use_structural_context() {
    let mut dart = table(vec![
        draft("file", FactNodeKind::Namespace, "types.dart", None, None, false),
        draft("file.run", FactNodeKind::Method, "run", Some("file"), Some("()"), false),
        draft("Box", FactNodeKind::Class, "Box", None, None, false),
        draft("Box.ctor", FactNodeKind::Method, "Box", Some("Box"), Some("(this.value)"), false),
    ]);

    reconcile_definition_drafts(ProgrammingLanguage::Dart, &mut dart);

    assert_eq!(kind_of(&dart, "file.run"), FactNodeKind::Function);
    assert_eq!(kind_of(&dart, "Box.ctor"), FactNodeKind::Constructor);
}

#[test]
fn java_same_named_void_method_is_not_a_constructor() {
    let mut java = table(vec![
        draft("Box", FactNodeKind::Class, "Box", None, None, false),
        draft("Box.constructor", FactNodeKind::Method, "Box(T)", Some("Box"), None, false),
        draft("Box.void_method", FactNodeKind::Method, "Box()", Some("Box"), Some(": void"), false),
    ]);

    reconcile_definition_drafts(ProgrammingLanguage::Java, &mut java);

    assert_eq!(kind_of(&java, "Box.constructor"), FactNodeKind::Constructor);
    assert_eq!(kind_of(&java, "Box.void_method"), FactNodeKind::Method);
}

#[test]
fn clangd_anonymous_declarations_keep_a_non_empty_display_name() {
    assert_eq!(
        short_symbol_name("lsp . . . include.fmt.base.h#(anonymous enum)@447:0"),
        "(anonymous enum)"
    );
    assert_eq!(
        short_symbol_name("lsp . . . src.os.cc#(anonymous namespace)@62:10"),
        "(anonymous namespace)"
    );
}

#[test]
fn scoped_npm_symbols_keep_their_real_definition_name() {
    assert_eq!(
        short_symbol_name(
            "scip-typescript npm @nestjs/core 11.1.26 src/cats/`cats.controller.ts`/CatsController#create()."
        ),
        "create"
    );
    assert_eq!(
        short_symbol_name("scip-typescript npm @scope/pkg 1.0.0 src/service.ts/ScopedService#"),
        "ScopedService"
    );
    assert_eq!(
        short_symbol_name("lsp . . . src/service.ts#ScopedService@17:4"),
        "ScopedService"
    );
}

#[test]
fn impossible_self_parent_is_removed_without_dropping_the_definition() {
    let mut definitions = table(vec![draft(
        "uv_loop_init",
        FactNodeKind::Function,
        "uv_loop_init",
        Some("uv_loop_init"),
        Some("(uv_loop_t*)"),
        false,
    )]);

    reconcile_definition_drafts(ProgrammingLanguage::C, &mut definitions);

    let definition = definitions.get(&symbol("uv_loop_init")).unwrap();
    assert!(definition.parent_symbol_id.is_none());
    assert_eq!(definition.display_name, "uv_loop_init");
}
