use code_memory::dispatch::{
    classify_target, constructor_dispatch, cpp_dispatch, csharp_dispatch, java_dispatch,
    DispatchTarget,
};
use code_memory::model::{
    CallSiteForm, DispatchKind, FactNodeKind, LanguageRelationKind, ProgrammingLanguage,
    Visibility,
};

fn target(
    kind: FactNodeKind,
    signature: Option<&str>,
    visibility: Visibility,
    owner_kind: Option<FactNodeKind>,
) -> DispatchTarget<'_> {
    DispatchTarget { kind, signature, visibility, owner_kind }
}

#[test]
fn only_language_proven_direct_calls_receive_direct_dispatch() {
    let free = target(FactNodeKind::Function, Some("void Target()"), Visibility::Public, None);
    for language in [
        ProgrammingLanguage::C,
        ProgrammingLanguage::Cpp,
        ProgrammingLanguage::Go,
        ProgrammingLanguage::Rust,
        ProgrammingLanguage::Dart,
    ] {
        assert_eq!(
            classify_target(language, LanguageRelationKind::Calls, CallSiteForm::Call, free),
            DispatchKind::Direct,
            "{:?}",
            language
        );
    }
    for language in [
        ProgrammingLanguage::TypeScript,
        ProgrammingLanguage::JavaScript,
        ProgrammingLanguage::Python,
    ] {
        assert_eq!(
            classify_target(language, LanguageRelationKind::Calls, CallSiteForm::Call, free),
            DispatchKind::Dynamic,
            "{:?}",
            language
        );
    }
}

#[test]
fn java_and_csharp_follow_their_different_default_method_dispatch_rules() {
    let ordinary_method = target(
        FactNodeKind::Method,
        Some("public void Target()"),
        Visibility::Public,
        Some(FactNodeKind::Class),
    );
    assert_eq!(java_dispatch(ordinary_method), DispatchKind::Virtual);
    assert_eq!(csharp_dispatch(ordinary_method), DispatchKind::Direct);

    let interface_method = target(
        FactNodeKind::Method,
        Some("void Target()"),
        Visibility::Public,
        Some(FactNodeKind::Interface),
    );
    assert_eq!(java_dispatch(interface_method), DispatchKind::Interface);
    assert_eq!(csharp_dispatch(interface_method), DispatchKind::Interface);
}

#[test]
fn static_private_and_non_virtual_compiled_calls_are_direct() {
    let static_method = target(
        FactNodeKind::Method,
        Some("public static void Target()"),
        Visibility::Public,
        Some(FactNodeKind::Class),
    );
    assert_eq!(java_dispatch(static_method), DispatchKind::Direct);
    assert_eq!(csharp_dispatch(static_method), DispatchKind::Direct);

    let cpp_virtual = target(
        FactNodeKind::Method,
        Some("virtual void Target() = 0"),
        Visibility::Public,
        Some(FactNodeKind::Class),
    );
    assert_eq!(cpp_dispatch(cpp_virtual), DispatchKind::Virtual);
}

#[test]
fn constructors_stay_dynamic_where_runtime_rebinding_is_legal() {
    let constructor = target(
        FactNodeKind::Constructor,
        Some("Target()"),
        Visibility::Public,
        Some(FactNodeKind::Class),
    );
    assert_eq!(constructor_dispatch(ProgrammingLanguage::Java, constructor), DispatchKind::Direct);
    assert_eq!(
        constructor_dispatch(ProgrammingLanguage::JavaScript, constructor),
        DispatchKind::Dynamic
    );
    let factory = target(
        FactNodeKind::Constructor,
        Some("factory Target()"),
        Visibility::Public,
        Some(FactNodeKind::Class),
    );
    assert_eq!(constructor_dispatch(ProgrammingLanguage::Dart, factory), DispatchKind::Dynamic);

    let class_only = target(FactNodeKind::Class, Some("class Target"), Visibility::Public, None);
    assert_eq!(constructor_dispatch(ProgrammingLanguage::Java, class_only), DispatchKind::Unknown);
    assert_eq!(constructor_dispatch(ProgrammingLanguage::Dart, class_only), DispatchKind::Dynamic);
}
