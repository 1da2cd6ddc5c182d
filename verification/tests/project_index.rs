use code_memory::model::{AnalysisUnitId, FactNodeKind, IrEndpoint, LanguageRelationKind, RepositoryPath};
use code_memory::project_index::{
    canonicalize_values, file_stem, join_repository_path, module_parent_names, parent_path,
    prefer_python_implementation_files, python_module_names, rust_module_name,
    parse_go_module, parse_toml_package_name, parse_yaml_top_level_name, qualify,
    strip_repository_prefix, StructureTarget,
};
use code_memory::relations::TypeRelationIntent;
use code_memory::resolver::KeyedPaths;
use code_memory::type_relations::{
    intent_rank, is_clause_wrapper, is_type_argument_container, is_type_name, is_type_use_name,
    range_distance, range_end, range_size, range_start,
};

fn path(value: &str) -> RepositoryPath {
    RepositoryPath::parse(value).unwrap()
}

#[test]
fn qualified_names_join_non_empty_parts() {
    assert_eq!(qualify("", "b"), "b");
    assert_eq!(qualify("a", ""), "a");
    assert_eq!(qualify("a.b", "c"), "a.b.c");
    assert_eq!(module_parent_names("a.b.c", false), vec!["a", "a.b"]);
    assert_eq!(module_parent_names("a.b.c", true), vec!["a", "a.b", "a.b.c"]);
    assert!(module_parent_names("", false).is_empty());
    assert_eq!(module_parent_names("", true), vec![""]);
}

#[test]
fn repository_paths_split_and_join_within_the_repository() {
    assert_eq!(parent_path(&path("src/a.rs")).as_str(), "src");
    assert!(parent_path(&path("a.rs")).is_root());
    assert_eq!(strip_repository_prefix(&path("src/a.rs"), &path("src")).as_deref(), Some("a.rs"));
    assert_eq!(strip_repository_prefix(&path("src"), &path("src")).as_deref(), Some(""));
    assert_eq!(strip_repository_prefix(&path("srcx/a"), &path("src")), None);
    assert_eq!(
        strip_repository_prefix(&path("srcx/a"), &RepositoryPath::root()).as_deref(),
        Some("srcx/a")
    );
    assert_eq!(join_repository_path(&RepositoryPath::root(), "a/b").unwrap().as_str(), "a/b");
    assert_eq!(join_repository_path(&path("src"), "").unwrap().as_str(), "src");
    assert_eq!(join_repository_path(&path("src"), "x/y").unwrap().as_str(), "src/x/y");
    assert!(join_repository_path(&path("src"), "../x").is_none());
    assert!(join_repository_path(&RepositoryPath::root(), "").is_none());
}

#[test]
fn manifest_names_are_read_from_their_declaring_lines() {
    assert_eq!(
        parse_go_module("// header\ngo 1.21\nmodule  example.com/app // main\n").as_deref(),
        Some("example.com/app")
    );
    assert_eq!(parse_go_module("module\nmodule x\n").as_deref(), Some("x"));
    assert_eq!(parse_go_module("go 1.21\n"), None);
    assert_eq!(
        parse_toml_package_name("[workspace]\nname = \"ws\"\n[package] # main\nversion = \"1\"\nname = 'demo' # c\n").as_deref(),
        Some("demo")
    );
    assert_eq!(parse_toml_package_name("[dependencies]\nname = \"x\"\n"), None);
    assert_eq!(parse_toml_package_name("[package]\nname = \"\"\n"), None);
    assert_eq!(
        parse_yaml_top_level_name("  name: nested\ndescription: x\nname: 'sample' # app\n").as_deref(),
        Some("sample")
    );
    assert_eq!(parse_yaml_top_level_name("name:\nname: second\n").as_deref(), Some("second"));
    assert_eq!(parse_yaml_top_level_name("version: 1\n"), None);
}

#[test]
fn index_values_are_sorted_and_distinct() {
    let mut map = vec![
        ("k".to_string(), vec!["b".to_string(), "a".to_string(), "b".to_string()]),
        ("e".to_string(), vec![]),
    ];
    canonicalize_values(&mut map);
    assert_eq!(map[0].1, vec!["a", "b"]);
    assert!(map[1].1.is_empty());
}

#[test]
fn structure_targets_become_structure_endpoints() {
    let target = StructureTarget {
        unit_id: AnalysisUnitId::parse("go:root").unwrap(),
        kind: FactNodeKind::Package,
        qualified_name: "example.com/app".to_string(),
    };
    match target.endpoint() {
        IrEndpoint::Structure { unit_id, kind, qualified_name } => {
            assert_eq!(unit_id.as_str(), "go:root");
            assert_eq!(kind, FactNodeKind::Package);
            assert_eq!(qualified_name, "example.com/app");
        }
        _ => panic!("expected a structure endpoint"),
    }
}

#[test]
fn type_site_ranges_sort_by_start_end_and_size() {
    assert_eq!(range_start(&[3, 7]), 3_000_007);
    assert_eq!(range_start(&[3]), i64::MAX / 2);
    assert_eq!(range_end(&[3, 7, 9]), 3_000_009);
    assert_eq!(range_end(&[3, 7, 5, 2]), 5_000_002);
    assert_eq!(range_end(&[1, 2]), i64::MIN / 2);
    assert_eq!(range_size(&[3, 7, 9]), 2);
    assert_eq!(range_size(&[3, 7, 5, 2]), 1_999_995);
    assert_eq!(range_size(&[]), i64::MAX);
    assert_eq!(range_distance(&[1, 0], &[2, 5]), 1_000_005);
    assert_eq!(range_distance(&[2, 5], &[1, 0]), 1_000_005);
}

#[test]
fn type_site_node_kinds_are_closed_lists() {
    assert!(is_type_use_name("type_identifier"));
    assert!(!is_type_use_name("field_identifier"));
    assert!(is_type_name("namespace_identifier"));
    assert!(is_type_argument_container("type_arguments"));
    assert!(is_type_argument_container("marker_annotation"));
    assert!(!is_type_argument_container("block"));
    assert!(is_clause_wrapper("superclass"));
    assert!(!is_clause_wrapper("class_body"));
    assert_eq!(intent_rank(TypeRelationIntent::Exact(LanguageRelationKind::Extends)), 0);
    assert_eq!(intent_rank(TypeRelationIntent::Exact(LanguageRelationKind::MixesIn)), 2);
    assert_eq!(intent_rank(TypeRelationIntent::CSharpBase), 3);
    assert_eq!(intent_rank(TypeRelationIntent::Exact(LanguageRelationKind::UsesType)), 4);
}

#[test]
fn python_files_name_their_module_below_the_root_and_below_src() {
    let root = RepositoryPath::root();
    assert_eq!(python_module_names(&root, &path("pkg/helpers.py")), vec!["pkg.helpers"]);
    assert_eq!(python_module_names(&root, &path("pkg/__init__.py")), vec!["pkg"]);
    assert_eq!(
        python_module_names(&root, &path("src/pkg/main.pyi")),
        vec!["pkg.main", "src.pkg.main"]
    );
    assert!(python_module_names(&root, &path("__init__.py")).is_empty());
    assert!(python_module_names(&root, &path("pkg/readme.md")).is_empty());
    assert_eq!(python_module_names(&path("svc"), &path("svc/app/run.py")), vec!["app.run"]);
    assert!(python_module_names(&path("svc"), &path("other/run.py")).is_empty());
}

#[test]
fn rust_files_name_their_module_below_src() {
    let root = path("core");
    assert_eq!(rust_module_name(&root, &path("core/src/lib.rs")).as_deref(), Some("crate"));
    assert_eq!(rust_module_name(&root, &path("core/src/main.rs")).as_deref(), Some("crate"));
    assert_eq!(rust_module_name(&root, &path("core/src/a/b.rs")).as_deref(), Some("crate::a::b"));
    assert_eq!(rust_module_name(&root, &path("core/src/a/mod.rs")).as_deref(), Some("crate::a"));
    assert_eq!(rust_module_name(&root, &path("core/tests/a.rs")), None);
    assert_eq!(rust_module_name(&root, &path("core/src/a.txt")), None);
}

#[test]
fn file_stems_stop_at_the_first_dot() {
    assert_eq!(file_stem(&path("pkg/__init__.py")).as_deref(), Some("__init__"));
    assert_eq!(file_stem(&path("a/b.d.ts")).as_deref(), Some("b"));
    assert_eq!(file_stem(&path("Makefile")).as_deref(), Some("Makefile"));
}

#[test]
fn python_stubs_give_way_to_their_implementation() {
    let mut modules = vec![
        KeyedPaths {
            key: "pkg.a".to_string(),
            paths: vec![path("pkg/a.pyi"), path("pkg/a.py")],
        },
        KeyedPaths {
            key: "pkg.b".to_string(),
            paths: vec![path("pkg/b.pyi")],
        },
    ];
    prefer_python_implementation_files(&mut modules);
    assert_eq!(modules[0].key, "pkg.a");
    assert_eq!(modules[0].paths, vec![path("pkg/a.py")]);
    assert_eq!(modules[1].paths, vec![path("pkg/b.pyi")]);
}
