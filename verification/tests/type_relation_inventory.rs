use code_memory::model::ProgrammingLanguage;
use code_memory::relations::TypeRelationIntent;
use code_memory::type_relation_inventory::inventory_type_relation_sites;

fn relations(language: ProgrammingLanguage, path: &str, source: &str) -> Vec<String> {
    inventory_type_relation_sites(language, path, source)
        .unwrap()
        .into_iter()
        .map(|site| {
            let kind = match site.intent {
                TypeRelationIntent::Exact(kind) => format!("{kind:?}"),
                TypeRelationIntent::CSharpBase => "CSharpBase".to_string(),
            };
            format!("{kind}:{}->{}", site.source_name, site.target_name)
        })
        .collect()
}

#[test]
fn explicit_hierarchy_sites_keep_each_language_keyword_meaning() {
    assert_eq!(
        relations(
            ProgrammingLanguage::TypeScript,
            "types.ts",
            "class Child extends Base implements Contract {}\ninterface More extends Contract {}",
        ),
        ["Extends:Child->Base", "Implements:Child->Contract", "Extends:More->Contract"]
    );
    assert_eq!(
        relations(ProgrammingLanguage::JavaScript, "types.js", "class Child extends Base {}"),
        ["Extends:Child->Base"]
    );
    assert_eq!(
        relations(ProgrammingLanguage::Python, "types.py", "class Child(pkg.Base):\n    pass\n"),
        ["Extends:Child->Base"]
    );
    assert_eq!(
        relations(
            ProgrammingLanguage::Java,
            "Child.java",
            "class Child extends Base implements Contract {} interface More extends Contract {}",
        ),
        ["Extends:Child->Base", "Implements:Child->Contract", "Extends:More->Contract"]
    );
    assert_eq!(
        relations(
            ProgrammingLanguage::CSharp,
            "Child.cs",
            "class Child : Base, IContract {} interface IMore : IContract {}",
        ),
        ["CSharpBase:Child->Base", "CSharpBase:Child->IContract", "CSharpBase:IMore->IContract"]
    );
    assert!(relations(ProgrammingLanguage::C, "types.c", "struct Child { int value; };").is_empty());
    assert_eq!(
        relations(ProgrammingLanguage::Cpp, "types.cpp", "class Child : public Base, private Contract {};"),
        ["Extends:Child->Base", "Extends:Child->Contract"]
    );
    assert!(relations(ProgrammingLanguage::Go, "types.go", "package fixture\n\ntype Child struct{}\n").is_empty());
    assert_eq!(
        relations(ProgrammingLanguage::Rust, "types.rs", "impl Contract for Child {}"),
        ["Implements:Child->Contract"]
    );
    assert_eq!(
        relations(
            ProgrammingLanguage::Dart,
            "types.dart",
            "class Child extends Base with Audit, Trace implements Contract {}",
        ),
        ["Extends:Child->Base", "Implements:Child->Contract", "MixesIn:Child->Audit", "MixesIn:Child->Trace"]
    );
}

#[test]
fn csharp_generic_base_keeps_the_outer_interface_identity() {
    assert_eq!(
        relations(
            ProgrammingLanguage::CSharp,
            "DbContext.cs",
            "class DbContext : IInfrastructure<IServiceProvider>, IDbContextDependencies {}",
        ),
        ["CSharpBase:DbContext->IInfrastructure", "CSharpBase:DbContext->IDbContextDependencies"]
    );
}
