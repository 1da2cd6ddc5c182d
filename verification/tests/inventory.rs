use code_memory::inventory::{
    definition_audit_keys, is_constructor_name, is_definition_name, owned_definition_count, owner_for_name,
    ProviderProtocol, SyntaxDefinition,
};
use code_memory::model::{FactNodeKind, Visibility};
use code_memory::schedule::sanitize_scope;
use code_memory::syntax::ranges_equal;
use code_memory::text::{collapse_whitespace_str, trim_str};

fn declaration(kind: FactNodeKind, name: &str, utf8: Vec<i32>, utf16: Vec<i32>, visibility: Visibility) -> SyntaxDefinition {
    SyntaxDefinition {
        kind,
        name: name.to_string(),
        name_utf8_range: utf8.clone(),
        name_utf16_range: utf16.clone(),
        declaration_utf8_range: vec![utf8[0], 0, utf8[0] + 5, 0],
        declaration_utf16_range: vec![utf16[0], 0, utf16[0] + 5, 0],
        parent_name_utf8_range: None,
        parent_name_utf16_range: None,
        signature: None,
        visibility,
    }
}

#[test]
fn definition_names_are_identifiers() {
    assert!(is_definition_name("_a1"));
    assert!(is_definition_name("Été"));
    assert!(!is_definition_name("1a"));
    assert!(!is_definition_name("a-b"));
    assert!(!is_definition_name(""));
    assert!(is_constructor_name("python", "__init__"));
    assert!(is_constructor_name("typescript", "constructor"));
    assert!(!is_constructor_name("java", "constructor"));
}

#[test]
fn an_owner_is_the_single_type_of_that_name() {
    let one = vec![
        declaration(FactNodeKind::Trait, "Api", vec![0, 10, 13], vec![0, 10, 13], Visibility::Public),
        declaration(FactNodeKind::Function, "Box", vec![9, 3, 6], vec![9, 3, 6], Visibility::Public),
    ];
    let owner = owner_for_name(&one, "Api").unwrap();
    assert_eq!(owner.kind, FactNodeKind::Trait);
    assert_eq!(owner.member_visibility, Some(Visibility::Public));
    assert!(owner_for_name(&one, "Box").is_none());
    let two = vec![
        declaration(FactNodeKind::Class, "Box", vec![0, 6, 9], vec![0, 6, 9], Visibility::Internal),
        declaration(FactNodeKind::Struct, "Box", vec![9, 6, 9], vec![9, 6, 9], Visibility::Public),
    ];
    assert!(owner_for_name(&two, "Box").is_none());
    let class = owner_for_name(&two[..1], "Box").unwrap();
    assert_eq!(class.member_visibility, None);
}

#[test]
fn provider_ranges_match_by_name_or_enclosure_in_their_encoding() {
    let d = declaration(FactNodeKind::Method, "café", vec![1, 4, 9], vec![1, 4, 8], Visibility::Public);
    assert_eq!(d.name_range(ProviderProtocol::Scip), &[1, 4, 9]);
    assert_eq!(d.name_range(ProviderProtocol::LanguageServerProtocol), &[1, 4, 8]);
    assert!(d.matches_provider_range(&[1, 4, 1, 9], ProviderProtocol::Scip));
    assert!(d.matches_provider_range(&[1, 0, 20], ProviderProtocol::Scip));
    assert!(d.matches_provider_range(&[2, 0, 3], ProviderProtocol::Scip));
    assert!(!d.matches_provider_range(&[9, 0, 3], ProviderProtocol::Scip));
    assert!(d.parent_name_range(ProviderProtocol::Scip).is_none());
}

#[test]
fn laws_hold_on_concrete_values() {
    // Sanitizing a scope twice changes nothing more.
    let once = sanitize_scope("apps/web ui.json");
    assert_eq!(sanitize_scope(&once), once);
    // A compact single-line range equals its expanded form.
    assert!(ranges_equal(&[3, 1, 7], &[3, 1, 3, 7]));
    assert!(!ranges_equal(&[3, 1, 7], &[3, 1, 4, 7]));
    assert_eq!(collapse_whitespace_str(" a\u{2003}b \n"), "a b");
    assert_eq!(trim_str("\u{00a0} x \t"), "x");
}

#[test]
fn definition_audit_keys_name_the_first_definition_at_the_parent_range() {
    let class = declaration(FactNodeKind::Class, "Box", vec![0, 6, 9], vec![0, 6, 9], Visibility::Public);
    let twin = declaration(FactNodeKind::Struct, "Shadow", vec![0, 6, 9], vec![0, 6, 9], Visibility::Public);
    let mut method = declaration(FactNodeKind::Method, "get", vec![1, 2, 5], vec![1, 2, 5], Visibility::Public);
    method.parent_name_utf8_range = Some(vec![0, 6, 9]);
    let mut orphan = declaration(FactNodeKind::Field, "value", vec![2, 2, 7], vec![2, 2, 7], Visibility::Private);
    orphan.parent_name_utf8_range = Some(vec![9, 9, 9]);
    let defs = vec![class, twin, method, orphan];
    assert_eq!(
        definition_audit_keys("src/box.ts", &defs),
        vec![
            "src/box.ts\tclass\tBox\t-".to_string(),
            "src/box.ts\tstruct\tShadow\t-".to_string(),
            "src/box.ts\tmethod\tget\tBox".to_string(),
            "src/box.ts\tfield\tvalue\t-".to_string(),
        ]
    );
    assert_eq!(owned_definition_count(&defs), 2);
    assert!(definition_audit_keys("a.py", &[]).is_empty());
}
