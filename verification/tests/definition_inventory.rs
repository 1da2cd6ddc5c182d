use code_memory::definition_inventory::inventory_definitions;
use code_memory::inventory::SyntaxDefinition;
use code_memory::model::{FactNodeKind, Visibility};

fn kind_name(kind: FactNodeKind) -> &'static str {
    match kind {
        FactNodeKind::Namespace => "namespace",
        FactNodeKind::Package => "package",
        FactNodeKind::Type => "type",
        FactNodeKind::Class => "class",
        FactNodeKind::Interface => "interface",
        FactNodeKind::Trait => "trait",
        FactNodeKind::Struct => "struct",
        FactNodeKind::Enum => "enum",
        FactNodeKind::TypeAlias => "type_alias",
        FactNodeKind::Function => "function",
        FactNodeKind::Method => "method",
        FactNodeKind::Constructor => "constructor",
        FactNodeKind::Constant => "constant",
        FactNodeKind::Field => "field",
    }
}

fn owner_name<'a>(definitions: &'a [SyntaxDefinition], definition: &SyntaxDefinition) -> Option<&'a str> {
    definition
        .parent_name_utf8_range
        .as_ref()
        .and_then(|range| definitions.iter().find(|candidate| &candidate.name_utf8_range == range))
        .map(|candidate| candidate.name.as_str())
}

fn metadata(language: &str, path: &str, source: &str, kind: FactNodeKind, name: &str) -> (Visibility, Option<String>) {
    let matches = inventory_definitions(language, path, source)
        .unwrap()
        .into_iter()
        .filter(|definition| definition.kind == kind && definition.name == name)
        .collect::<Vec<_>>();
    assert_eq!(matches.len(), 1, "{language}:{kind:?}:{name}");
    (matches[0].visibility, matches[0].signature.clone())
}

fn owned_metadata(
    language: &str,
    path: &str,
    source: &str,
    kind: FactNodeKind,
    name: &str,
    owner: &str,
) -> (Visibility, Option<String>) {
    let definitions = inventory_definitions(language, path, source).unwrap();
    let matches = definitions
        .iter()
        .filter(|definition| definition.kind == kind && definition.name == name)
        .filter(|definition| owner_name(&definitions, definition) == Some(owner))
        .collect::<Vec<_>>();
    assert_eq!(matches.len(), 1, "{language}:{kind:?}:{owner}.{name}");
    (matches[0].visibility, matches[0].signature.clone())
}

fn triples(language: &str, path: &str, source: &str) -> Vec<String> {
    let definitions = inventory_definitions(language, path, source).unwrap();
    definitions
        .iter()
        .map(|definition| {
            let parent = owner_name(&definitions, definition).unwrap_or("-");
            format!("{}:{}:{parent}", kind_name(definition.kind), definition.name)
        })
        .collect()
}

#[test]
fn typescript_parameter_properties_are_explicit_fields() {
    let source = "export class Box<T> { constructor(private readonly value: T) {} get(): T { return this.value; } }";
    assert_eq!(
        triples("typescript", "box.ts", source),
        vec!["class:Box:-", "constructor:constructor:Box", "field:value:Box", "method:get:Box"]
    );
}

#[test]
fn source_metadata_is_language_defined_and_body_free() {
    let cases = [
        (
            "typescript",
            "main.ts",
            "export function add(a: number, b: number): number { return a + b; }",
            FactNodeKind::Function,
            "add",
            Visibility::Public,
            Some("function add(a: number, b: number): number"),
        ),
        (
            "javascript",
            "main.js",
            "function hidden(value) { return value; }",
            FactNodeKind::Function,
            "hidden",
            Visibility::Internal,
            Some("function hidden(value)"),
        ),
        (
            "python",
            "main.py",
            "def _helper(value: int) -> int:\n    return value\n",
            FactNodeKind::Function,
            "_helper",
            Visibility::Internal,
            Some("def _helper(value: int) -> int"),
        ),
        (
            "java",
            "Service.java",
            "class Service { @Deprecated protected int run(int value) { return value; } }",
            FactNodeKind::Method,
            "run",
            Visibility::Protected,
            Some("protected int run(int value)"),
        ),
        (
            "csharp",
            "Service.cs",
            "internal class Service { protected internal int Run(int value) => value; }",
            FactNodeKind::Method,
            "Run",
            Visibility::Protected,
            Some("protected internal int Run(int value)"),
        ),
        (
            "c",
            "main.c",
            "static int helper(void) { return 1; }",
            FactNodeKind::Function,
            "helper",
            Visibility::Internal,
            Some("static int helper(void)"),
        ),
        (
            "cpp",
            "service.cpp",
            "class Service { public: int run(int value) { return value; } };",
            FactNodeKind::Method,
            "run",
            Visibility::Public,
            Some("int run(int value)"),
        ),
        (
            "go",
            "main.go",
            "package main\nfunc Add(left, right int) int { return left + right }\n",
            FactNodeKind::Function,
            "Add",
            Visibility::Public,
            Some("func Add(left, right int) int"),
        ),
        (
            "rust",
            "lib.rs",
            "pub fn run(value: i32) -> i32 { value }",
            FactNodeKind::Function,
            "run",
            Visibility::Public,
            Some("pub fn run(value: i32) -> i32"),
        ),
        (
            "dart",
            "main.dart",
            "int _hidden(int value) => value;",
            FactNodeKind::Function,
            "_hidden",
            Visibility::Private,
            Some("int _hidden(int value)"),
        ),
    ];
    for (language, path, source, kind, name, visibility, signature) in cases {
        assert_eq!(
            metadata(language, path, source, kind, name),
            (visibility, signature.map(str::to_string)),
            "{language}:{name}"
        );
    }
    assert_eq!(
        owned_metadata(
            "cpp",
            "box.cpp",
            "class Box { public: explicit Box(int value) : value_(value) {} private: int value_; };",
            FactNodeKind::Constructor,
            "Box",
            "Box",
        ),
        (Visibility::Public, Some("explicit Box(int value)".to_string()))
    );
}

#[test]
fn implicit_member_visibility_follows_language_rules() {
    let cases = [
        (
            "typescript",
            "box.ts",
            "class Box { constructor(private value: number) {} get(): number { return this.value; } }",
            FactNodeKind::Field,
            "value",
            Visibility::Private,
        ),
        (
            "python",
            "box.py",
            "class Box:\n    def __secret(self):\n        return 1\n",
            FactNodeKind::Method,
            "__secret",
            Visibility::Private,
        ),
        ("java", "Api.java", "interface Api { int read(); }", FactNodeKind::Method, "read", Visibility::Public),
        ("csharp", "Api.cs", "interface Api { int Read(); }", FactNodeKind::Method, "Read", Visibility::Public),
        (
            "cpp",
            "box.cpp",
            "class Box { int hidden(); protected: int inherited(); };",
            FactNodeKind::Method,
            "hidden",
            Visibility::Private,
        ),
        (
            "go",
            "main.go",
            "package main\ntype Box struct { hidden int }\n",
            FactNodeKind::Field,
            "hidden",
            Visibility::Internal,
        ),
        (
            "rust",
            "lib.rs",
            "pub trait Api { fn read(&self) -> i32; }",
            FactNodeKind::Method,
            "read",
            Visibility::Public,
        ),
        ("dart", "box.dart", "class Box { int _value = 1; }", FactNodeKind::Field, "_value", Visibility::Private),
    ];
    for (language, path, source, kind, name, expected) in cases {
        assert_eq!(metadata(language, path, source, kind, name).0, expected, "{language}:{name}");
    }

    let rust_trait_impl =
        "pub trait Api { fn read(&self) -> i32; } pub struct Service; impl Api for Service { fn read(&self) -> i32 { 1 } }";
    assert_eq!(
        owned_metadata("rust", "lib.rs", rust_trait_impl, FactNodeKind::Method, "read", "Service").0,
        Visibility::Public,
        "a Rust trait implementation inherits the local trait surface"
    );
}

#[test]
fn locals_and_parameters_are_not_definitions() {
    let source = "class Box { private int value; int Get(int input) { int local = input; return value; } }";
    let definitions = triples("csharp", "Box.cs", source);
    assert!(definitions.contains(&"class:Box:-".to_string()));
    assert!(definitions.contains(&"field:value:Box".to_string()));
    assert!(definitions.contains(&"method:Get:Box".to_string()));
    assert!(!definitions.iter().any(|value| value.contains("input")));
    assert!(!definitions.iter().any(|value| value.contains("local")));
}

#[test]
fn typescript_callable_bindings_are_functions_or_methods_not_fields() {
    let source = r#"
export const normalize = (value: number): number => value;
export class Handler {
  execute = (value: number): number => value;
  run(): number {
    const local = (): number => 1;
    function nested(): number { return local(); }
    return this.execute(1) + nested();
  }
}
"#;
    assert_eq!(
        triples("typescript", "handlers.ts", source),
        vec!["function:normalize:-", "class:Handler:-", "method:execute:Handler", "method:run:Handler"]
    );
}

#[test]
fn definitions_inside_executable_bodies_are_not_product_definitions() {
    let cases = [
        (
            "javascript",
            "scope.js",
            "function outer() { function hidden() {} class Local {} } class Global {}",
            vec!["function:outer:-", "class:Global:-"],
        ),
        (
            "python",
            "scope.py",
            "def outer():\n    def hidden():\n        pass\n    class Local:\n        pass\n\nclass Global:\n    def run(self):\n        return 1\n",
            vec!["function:outer:-", "class:Global:-", "method:run:Global"],
        ),
        (
            "java",
            "Scope.java",
            "class Global { void run() { class Local { void hidden() {} } } }",
            vec!["class:Global:-", "method:run:Global"],
        ),
        (
            "csharp",
            "Scope.cs",
            "class Global { void Run() { int Local(int value) => value; } }",
            vec!["class:Global:-", "method:Run:Global"],
        ),
        (
            "rust",
            "scope.rs",
            "fn outer() { fn hidden() {} struct Local; } struct Global;",
            vec!["function:outer:-", "struct:Global:-"],
        ),
        (
            "dart",
            "scope.dart",
            "int outer() { int hidden() => 1; return hidden(); } class Global { int run() => 1; }",
            vec!["function:outer:-", "class:Global:-", "method:run:Global"],
        ),
    ];
    for (language, path, source, expected) in cases {
        assert_eq!(triples(language, path, source), expected, "{language}");
    }
}

#[test]
fn dart_abstract_method_signature_is_a_method_definition() {
    let source = "class Payload {} class ResultValue {} abstract class Contract { ResultValue execute(Payload input); }";
    assert_eq!(
        triples("dart", "contract.dart", source),
        vec!["class:Payload:-", "class:ResultValue:-", "class:Contract:-", "method:execute:Contract"]
    );
}

#[test]
fn an_unknown_language_has_no_grammar() {
    assert!(inventory_definitions("cobol", "main.cob", "IDENTIFICATION DIVISION.").is_err());
}

#[test]
fn definitions_carry_their_ranges_and_owner() {
    let definitions = inventory_definitions("rust", "lib.rs", "struct Point { x: i32 }").unwrap();
    assert_eq!(definitions.len(), 2);
    assert_eq!(definitions[0].name, "Point");
    assert_eq!(definitions[0].name_utf8_range, vec![0, 7, 0, 12]);
    assert_eq!(definitions[0].declaration_utf8_range, vec![0, 0, 0, 23]);
    assert_eq!(definitions[1].kind, FactNodeKind::Field);
    assert_eq!(definitions[1].name, "x");
    assert_eq!(definitions[1].parent_name_utf8_range, Some(vec![0, 7, 0, 12]));
    assert_eq!(definitions[1].signature, None);
}
