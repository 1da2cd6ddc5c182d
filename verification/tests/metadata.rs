use code_memory::metadata::{
    access_specifier_visibility, c_visibility, callable_signature, cpp_member_visibility,
    cpp_visibility, csharp_visibility, dart_visibility, definition_visibility, go_visibility,
    has_word, is_python_dunder, java_visibility, javascript_visibility, normalize_whitespace,
    python_visibility, rust_visibility, strip_balanced_prefix, strip_constructor_initializer,
    strip_leading_attributes, typescript_visibility, DeclarationContext, MAX_SIGNATURE_BYTES,
};
use code_memory::model::{FactNodeKind, Visibility};

#[test]
fn callable_signatures_are_headers_without_attributes_or_bodies() {
    assert_eq!(
        callable_signature(FactNodeKind::Function, "  #[inline]\n pub fn run(value: i32) -> i32 {").as_deref(),
        Some("pub fn run(value: i32) -> i32")
    );
    assert_eq!(
        callable_signature(FactNodeKind::Method, "@Override\n  public void run() {").as_deref(),
        Some("public void run()")
    );
    assert_eq!(
        callable_signature(FactNodeKind::Method, "@Get('/x') handle(): void {").as_deref(),
        Some("handle(): void")
    );
    assert_eq!(
        callable_signature(FactNodeKind::Function, "add = (a, b) =>").as_deref(),
        Some("add = (a, b)")
    );
    assert_eq!(
        callable_signature(FactNodeKind::Constructor, "Foo(int a) : base(a), b(2) {").as_deref(),
        Some("Foo(int a)")
    );
    assert_eq!(
        callable_signature(FactNodeKind::Constructor, "Foo::Foo()\n  : x(1)").as_deref(),
        Some("Foo::Foo()")
    );
    assert_eq!(callable_signature(FactNodeKind::Field, "int x;"), None);
    assert_eq!(callable_signature(FactNodeKind::Method, " ;; "), None);
    let long = format!("fn f({})", "a".repeat(MAX_SIGNATURE_BYTES));
    assert_eq!(callable_signature(FactNodeKind::Function, &long), None);
}

#[test]
fn header_helpers_follow_their_token_rules() {
    assert!(has_word("export default", "export"));
    assert!(has_word("pub(crate) ", "pub"));
    assert!(!has_word("exported", "export"));
    assert!(!has_word("", "pub"));
    assert!(is_python_dunder("__init__"));
    assert!(!is_python_dunder("____"));
    assert!(!is_python_dunder("__secret"));
    assert_eq!(normalize_whitespace(" a \n\t b  "), "a b");
    assert_eq!(strip_constructor_initializer("A(b) : c(d)"), "A(b)");
    assert_eq!(strip_constructor_initializer("A(b) :: c"), "A(b) :: c");
    assert_eq!(strip_constructor_initializer("A(b"), "A(b");
    assert_eq!(strip_constructor_initializer("no parens : x"), "no parens : x");
    assert_eq!(strip_balanced_prefix("[a[b]]rest", "[", '[', ']').as_deref(), Some("rest"));
    assert_eq!(strip_balanced_prefix("x[a]", "[", '[', ']'), None);
    assert_eq!(strip_balanced_prefix("[[a]", "[", '[', ']'), None);
    assert_eq!(
        strip_leading_attributes("[Serializable] [Obsolete(\"x\")] class A"),
        "class A"
    );
    assert_eq!(strip_leading_attributes("@ x"), "@ x");
    assert_eq!(strip_leading_attributes("@Deco(unclosed class A"), "@Deco(unclosed class A");
}

#[test]
fn ecmascript_visibility_uses_modifiers_owners_and_exports() {
    assert_eq!(typescript_visibility("private ", "x", None, false), Visibility::Private);
    assert_eq!(typescript_visibility("", "#x", Some(FactNodeKind::Class), false), Visibility::Private);
    assert_eq!(typescript_visibility("protected ", "x", Some(FactNodeKind::Class), false), Visibility::Protected);
    assert_eq!(typescript_visibility("", "x", Some(FactNodeKind::Class), false), Visibility::Public);
    assert_eq!(typescript_visibility("export ", "x", None, false), Visibility::Public);
    assert_eq!(typescript_visibility("", "x", None, true), Visibility::Public);
    assert_eq!(typescript_visibility("", "x", None, false), Visibility::Internal);
    assert_eq!(javascript_visibility("", "#p", Some(FactNodeKind::Class), false), Visibility::Private);
    assert_eq!(javascript_visibility("private ", "f", None, false), Visibility::Internal);
    assert_eq!(javascript_visibility("", "f", Some(FactNodeKind::Class), false), Visibility::Public);
}

#[test]
fn python_java_and_csharp_visibility_follow_language_defaults() {
    assert_eq!(python_visibility("__secret", Some(FactNodeKind::Class)), Visibility::Private);
    assert_eq!(python_visibility("__secret", None), Visibility::Internal);
    assert_eq!(python_visibility("_helper", None), Visibility::Internal);
    assert_eq!(python_visibility("__init__", Some(FactNodeKind::Class)), Visibility::Public);
    assert_eq!(python_visibility("run", None), Visibility::Public);
    assert_eq!(java_visibility("protected ", None), Visibility::Protected);
    assert_eq!(java_visibility("", Some(FactNodeKind::Interface)), Visibility::Public);
    assert_eq!(java_visibility("", Some(FactNodeKind::Class)), Visibility::Package);
    assert_eq!(csharp_visibility("protected internal ", None), Visibility::Protected);
    assert_eq!(csharp_visibility("internal ", None), Visibility::Internal);
    assert_eq!(csharp_visibility("", Some(FactNodeKind::Interface)), Visibility::Public);
    assert_eq!(csharp_visibility("", Some(FactNodeKind::Class)), Visibility::Private);
    assert_eq!(csharp_visibility("", None), Visibility::Internal);
}

#[test]
fn c_family_visibility_uses_linkage_and_access_labels() {
    assert_eq!(c_visibility("static "), Visibility::Internal);
    assert_eq!(c_visibility("extern "), Visibility::Public);
    assert_eq!(access_specifier_visibility("protected:"), Visibility::Protected);
    assert_eq!(access_specifier_visibility(""), Visibility::Unknown);
    assert_eq!(cpp_member_visibility(Some(FactNodeKind::Class), Some(&[][..])), Visibility::Private);
    assert_eq!(cpp_member_visibility(Some(FactNodeKind::Struct), Some(&[][..])), Visibility::Public);
    assert_eq!(
        cpp_member_visibility(Some(FactNodeKind::Class), Some(&["public:", "protected:"][..])),
        Visibility::Protected
    );
    assert_eq!(cpp_member_visibility(Some(FactNodeKind::Class), None), Visibility::Unknown);
    assert_eq!(cpp_visibility("static ", None, None, false), Visibility::Internal);
    assert_eq!(cpp_visibility("", None, None, true), Visibility::Internal);
    assert_eq!(cpp_visibility("", None, None, false), Visibility::Public);
    assert_eq!(cpp_visibility("", Some(FactNodeKind::Class), Some(&["public:"][..]), false), Visibility::Public);
}

#[test]
fn go_rust_and_dart_visibility_follow_names_and_modifiers() {
    assert_eq!(go_visibility("Add"), Visibility::Public);
    assert_eq!(go_visibility("Ärger"), Visibility::Public);
    assert_eq!(go_visibility("add"), Visibility::Internal);
    assert_eq!(go_visibility(""), Visibility::Internal);
    assert_eq!(rust_visibility("pub ", None, None, None), Visibility::Public);
    assert_eq!(rust_visibility("pub (crate) ", None, None, None), Visibility::Internal);
    assert_eq!(
        rust_visibility("", Some(FactNodeKind::Trait), Some(Visibility::Public), None),
        Visibility::Public
    );
    assert_eq!(
        rust_visibility("", Some(FactNodeKind::Struct), Some(Visibility::Public), Some(Visibility::Internal)),
        Visibility::Internal
    );
    assert_eq!(rust_visibility("", Some(FactNodeKind::Trait), None, None), Visibility::Unknown);
    assert_eq!(rust_visibility("", Some(FactNodeKind::Struct), Some(Visibility::Public), None), Visibility::Private);
    assert_eq!(dart_visibility("_value"), Visibility::Private);
    assert_eq!(dart_visibility("value"), Visibility::Public);
}

#[test]
fn definition_visibility_dispatches_by_language() {
    let plain = DeclarationContext {
        explicitly_exported: false,
        cpp_member_labels: None,
        inside_anonymous_namespace: false,
    };
    assert_eq!(
        definition_visibility("go", "", "Add", None, None, None, &plain),
        Visibility::Public
    );
    assert_eq!(
        definition_visibility("dart", "", "_v", None, None, None, &plain),
        Visibility::Private
    );
    let exported = DeclarationContext {
        explicitly_exported: true,
        cpp_member_labels: None,
        inside_anonymous_namespace: false,
    };
    assert_eq!(
        definition_visibility("typescript", "", "f", None, None, None, &exported),
        Visibility::Public
    );
    let labels: [&str; 1] = ["protected:"];
    let member = DeclarationContext {
        explicitly_exported: false,
        cpp_member_labels: Some(&labels[..]),
        inside_anonymous_namespace: false,
    };
    assert_eq!(
        definition_visibility("cpp", "", "inherited", Some(FactNodeKind::Class), None, None, &member),
        Visibility::Protected
    );
    assert_eq!(
        definition_visibility("kotlin", "public ", "f", None, None, None, &plain),
        Visibility::Unknown
    );
}
