use code_memory::imports::{ImportForm, ImportRelation, ImportSite};
use code_memory::model::{AnalysisUnitId, FactNodeKind, IrEndpoint, ProgrammingLanguage, RepositoryPath};
use code_memory::project_index::StructureTarget;
use code_memory::resolver::{
    select_files, select_files_without_source, FileOwner, GapCode, ImportResolution, KeyedPaths, KeyedStructures, ProjectImportIndex,
    ProjectModelTargets, ResolutionMethod, RustModulePaths, SourceModules,
};

fn path(value: &str) -> RepositoryPath {
    RepositoryPath { value: value.to_string() }
}

fn unit(value: &str) -> AnalysisUnitId {
    AnalysisUnitId { value: value.to_string() }
}

fn empty_index() -> ProjectImportIndex {
    ProjectImportIndex {
        included_files: Vec::new(),
        owners: Vec::new(),
        project_model_files: Vec::new(),
        project_model_targets: Vec::new(),
        python_modules: Vec::new(),
        python_packages: Vec::new(),
        python_source_modules: Vec::new(),
        java_types: Vec::new(),
        java_packages: Vec::new(),
        csharp_types: Vec::new(),
        csharp_namespaces: Vec::new(),
        go_packages: Vec::new(),
        rust_modules: Vec::new(),
        rust_source_modules: Vec::new(),
        rust_crates: Vec::new(),
        dart_package_files: Vec::new(),
        metadata_failed_files: Vec::new(),
    }
}

fn owner(language: ProgrammingLanguage, file: &str, unit_id: &str) -> FileOwner {
    FileOwner { language, path: path(file), unit_id: unit(unit_id) }
}

fn site(language: ProgrammingLanguage, form: ImportForm, specifier: &str) -> ImportSite {
    ImportSite {
        language,
        relation: ImportRelation::Imports,
        form,
        specifier: specifier.to_string(),
        utf8_range: vec![0, 0, 0, 1],
        utf16_range: vec![0, 0, 0, 1],
    }
}

fn expect_file(result: ImportResolution, expected: &str, expected_method: ResolutionMethod) {
    match result {
        ImportResolution::Internal { target: IrEndpoint::File { path }, method } => {
            assert_eq!(path.value, expected);
            assert_eq!(method, expected_method);
        }
        other => panic!("expected a file, got {:?}", other),
    }
}

fn expect_gap(result: ImportResolution, expected: GapCode) {
    match result {
        ImportResolution::Unresolved { gap } => assert_eq!(gap, expected),
        other => panic!("expected a gap, got {:?}", other),
    }
}

fn expect_external(result: ImportResolution) {
    assert!(matches!(result, ImportResolution::KnownExternal), "{:?}", result);
}

fn expect_ambiguous(result: ImportResolution, count: u64) {
    match result {
        ImportResolution::Ambiguous { candidate_count } => assert_eq!(candidate_count, count),
        other => panic!("expected an ambiguity, got {:?}", other),
    }
}

fn ecmascript_index() -> ProjectImportIndex {
    let mut index = empty_index();
    for file in ["src/main.ts", "src/util.ts", "src/lib/index.ts", "src/both.ts", "src/both.js"] {
        let language = if file.ends_with(".js") {
            ProgrammingLanguage::JavaScript
        } else {
            ProgrammingLanguage::TypeScript
        };
        index.owners.push(owner(language, file, "web"));
        index.included_files.push(path(file));
    }
    index
}

#[test]
fn ecmascript_relative_specifiers_resolve_through_extensions_and_index_files() {
    let index = ecmascript_index();
    let source = path("src/main.ts");
    let ts = ProgrammingLanguage::TypeScript;
    expect_file(
        index.resolve(&source, &site(ts, ImportForm::EcmaScriptModule, "./util")),
        "src/util.ts",
        ResolutionMethod::SyntaxExact,
    );
    expect_file(
        index.resolve(&source, &site(ts, ImportForm::EcmaScriptModule, "./lib")),
        "src/lib/index.ts",
        ResolutionMethod::SyntaxExact,
    );
    expect_ambiguous(index.resolve(&source, &site(ts, ImportForm::EcmaScriptModule, "./both")), 2);
    expect_gap(
        index.resolve(&source, &site(ts, ImportForm::EcmaScriptModule, "./missing")),
        GapCode::UnresolvedTarget,
    );
    expect_gap(
        index.resolve(&source, &site(ts, ImportForm::EcmaScriptModule, "./main")),
        GapCode::UnresolvedTarget,
    );
    expect_external(index.resolve(&source, &site(ts, ImportForm::EcmaScriptRequire, "node:fs")));
    expect_gap(
        index.resolve(&source, &site(ts, ImportForm::EcmaScriptModule, "lodash")),
        GapCode::MissingDependencyMetadata,
    );
}

#[test]
fn ecmascript_project_model_decides_for_sources_it_visited() {
    let mut index = ecmascript_index();
    let source = path("src/main.ts");
    let ts = ProgrammingLanguage::TypeScript;
    index.project_model_files.push(path("src/main.ts"));
    index.project_model_targets.push(ProjectModelTargets {
        language: ts,
        source: path("src/main.ts"),
        specifier: "@app/util".to_string(),
        targets: vec![path("src/util.ts"), path("src/util.ts")],
    });
    expect_file(
        index.resolve(&source, &site(ts, ImportForm::EcmaScriptModule, "@app/util")),
        "src/util.ts",
        ResolutionMethod::ProjectModel,
    );
    expect_external(index.resolve(&source, &site(ts, ImportForm::EcmaScriptModule, "react")));
    expect_gap(
        index.resolve(&source, &site(ts, ImportForm::EcmaScriptModule, "./util")),
        GapCode::UnresolvedTarget,
    );
    expect_gap(
        index.resolve(&source, &site(ts, ImportForm::EcmaScriptModule, "#internal")),
        GapCode::UnresolvedTarget,
    );
}

#[test]
fn python_relative_imports_resolve_modules_then_packages() {
    let mut index = empty_index();
    let py = ProgrammingLanguage::Python;
    let source = path("pkg/main.py");
    index.python_source_modules.push(SourceModules {
        path: source.clone(),
        modules: vec!["pkg.main".to_string()],
    });
    index.python_modules.push(KeyedPaths {
        key: "pkg.helpers".to_string(),
        paths: vec![path("pkg/helpers.py")],
    });
    index.python_packages.push(KeyedStructures {
        key: "pkg.sub".to_string(),
        targets: vec![StructureTarget {
            unit_id: unit("py"),
            kind: FactNodeKind::Package,
            qualified_name: "pkg.sub".to_string(),
        }],
    });
    expect_file(
        index.resolve(&source, &site(py, ImportForm::PythonModule, ".helpers")),
        "pkg/helpers.py",
        ResolutionMethod::SyntaxExact,
    );
    match index.resolve(&source, &site(py, ImportForm::PythonModule, ".sub")) {
        ImportResolution::Internal {
            target: IrEndpoint::Structure { unit_id, kind, qualified_name },
            method,
        } => {
            assert_eq!(unit_id.value, "py");
            assert_eq!(kind, FactNodeKind::Package);
            assert_eq!(qualified_name, "pkg.sub");
            assert_eq!(method, ResolutionMethod::SyntaxExact);
        }
        other => panic!("expected a package, got {:?}", other),
    }
    expect_gap(
        index.resolve(&source, &site(py, ImportForm::PythonModule, ".absent")),
        GapCode::UnresolvedTarget,
    );
    expect_gap(
        index.resolve(&source, &site(py, ImportForm::PythonModule, "requests")),
        GapCode::MissingDependencyMetadata,
    );
    expect_gap(
        index.resolve(&path("other/main.py"), &site(py, ImportForm::PythonModule, ".helpers")),
        GapCode::UnresolvedTarget,
    );
}

#[test]
fn java_and_csharp_use_longest_type_prefix_and_packages() {
    let mut index = empty_index();
    let source = path("src/App.java");
    index.java_types.push(KeyedPaths {
        key: "app.orders.Order".to_string(),
        paths: vec![path("src/app/orders/Order.java")],
    });
    index.java_packages.push(KeyedStructures {
        key: "app.shared".to_string(),
        targets: vec![
            StructureTarget {
                unit_id: unit("a"),
                kind: FactNodeKind::Package,
                qualified_name: "app.shared".to_string(),
            },
            StructureTarget {
                unit_id: unit("b"),
                kind: FactNodeKind::Package,
                qualified_name: "app.shared".to_string(),
            },
        ],
    });
    let java = ProgrammingLanguage::Java;
    let plain = ImportForm::Java { static_import: false, wildcard: false };
    let wildcard = ImportForm::Java { static_import: false, wildcard: true };
    let static_member = ImportForm::Java { static_import: true, wildcard: false };
    expect_file(
        index.resolve(&source, &site(java, plain, "app.orders.Order")),
        "src/app/orders/Order.java",
        ResolutionMethod::SyntaxExact,
    );
    expect_file(
        index.resolve(&source, &site(java, static_member, "app.orders.Order.NAME")),
        "src/app/orders/Order.java",
        ResolutionMethod::SyntaxExact,
    );
    expect_ambiguous(index.resolve(&source, &site(java, wildcard, "app.shared")), 2);
    expect_external(index.resolve(&source, &site(java, plain, "java.util.List")));
    expect_gap(
        index.resolve(&source, &site(java, plain, "org.other.Thing")),
        GapCode::MissingDependencyMetadata,
    );
    expect_gap(
        index.resolve(&source, &site(java, ImportForm::PythonModule, "app.orders.Order")),
        GapCode::UnresolvedTarget,
    );

    let cs = ProgrammingLanguage::CSharp;
    index.csharp_types.push(KeyedPaths {
        key: "Shop.Orders.Order".to_string(),
        paths: vec![path("Orders/Order.cs")],
    });
    let alias = ImportForm::CSharp { static_import: false, alias: true };
    let using = ImportForm::CSharp { static_import: false, alias: false };
    expect_file(
        index.resolve(&source, &site(cs, alias, "Shop.Orders.Order")),
        "Orders/Order.cs",
        ResolutionMethod::SyntaxExact,
    );
    expect_external(index.resolve(&source, &site(cs, using, "System.IO")));
    expect_gap(
        index.resolve(&source, &site(cs, using, "Shop.Orders.Order")),
        GapCode::MissingDependencyMetadata,
    );
}

#[test]
fn c_family_includes_resolve_only_as_quoted_literals() {
    let mut index = empty_index();
    index.owners.push(owner(ProgrammingLanguage::C, "src/main.c", "c"));
    index.owners.push(owner(ProgrammingLanguage::Cpp, "src/util.h", "c"));
    let source = path("src/main.c");
    let c = ProgrammingLanguage::C;
    expect_file(
        index.resolve(
            &source,
            &site(c, ImportForm::CInclude { system: false, literal: true }, "util.h"),
        ),
        "src/util.h",
        ResolutionMethod::SyntaxExact,
    );
    expect_gap(
        index.resolve(
            &source,
            &site(c, ImportForm::CInclude { system: true, literal: true }, "util.h"),
        ),
        GapCode::MissingCompileContext,
    );
    expect_gap(
        index.resolve(
            &source,
            &site(c, ImportForm::CInclude { system: false, literal: false }, "util.h"),
        ),
        GapCode::MissingCompileContext,
    );
    expect_gap(
        index.resolve(
            &source,
            &site(c, ImportForm::CInclude { system: false, literal: true }, "util"),
        ),
        GapCode::MissingCompileContext,
    );
}

#[test]
fn go_packages_and_standard_library_paths() {
    let mut index = empty_index();
    index.go_packages.push(KeyedStructures {
        key: "example.com/app/store".to_string(),
        targets: vec![StructureTarget {
            unit_id: unit("go"),
            kind: FactNodeKind::Package,
            qualified_name: "example.com/app/store".to_string(),
        }],
    });
    let source = path("main.go");
    let go = ProgrammingLanguage::Go;
    match index.resolve(&source, &site(go, ImportForm::GoPackage, "example.com/app/store")) {
        ImportResolution::Internal { target: IrEndpoint::Structure { qualified_name, .. }, method } => {
            assert_eq!(qualified_name, "example.com/app/store");
            assert_eq!(method, ResolutionMethod::ProjectModel);
        }
        other => panic!("expected a package, got {:?}", other),
    }
    expect_external(index.resolve(&source, &site(go, ImportForm::GoPackage, "net/http")));
    expect_gap(
        index.resolve(&source, &site(go, ImportForm::GoPackage, "github.com/x/y")),
        GapCode::MissingDependencyMetadata,
    );
}

#[test]
fn rust_use_paths_resolve_through_unit_modules_then_crates() {
    let mut index = empty_index();
    let rust = ProgrammingLanguage::Rust;
    let source = path("src/lib.rs");
    index.owners.push(owner(rust, "src/lib.rs", "core-unit"));
    index.rust_source_modules.push(SourceModules {
        path: source.clone(),
        modules: vec!["crate".to_string()],
    });
    index.rust_modules.push(RustModulePaths {
        unit_id: unit("core-unit"),
        module: "crate::orders".to_string(),
        paths: vec![path("src/orders.rs")],
    });
    index.rust_crates.push(KeyedPaths {
        key: "shared_types".to_string(),
        paths: vec![path("shared/src/lib.rs")],
    });
    expect_file(
        index.resolve(&source, &site(rust, ImportForm::RustUse, "crate::orders::Order")),
        "src/orders.rs",
        ResolutionMethod::SyntaxExact,
    );
    expect_file(
        index.resolve(&source, &site(rust, ImportForm::RustUse, "shared_types::Id")),
        "shared/src/lib.rs",
        ResolutionMethod::ProjectModel,
    );
    expect_file(
        index.resolve(&source, &site(rust, ImportForm::RustExternCrate, "shared-types")),
        "shared/src/lib.rs",
        ResolutionMethod::ProjectModel,
    );
    expect_external(index.resolve(&source, &site(rust, ImportForm::RustUse, "std::fmt")));
    expect_external(index.resolve(&source, &site(rust, ImportForm::RustExternCrate, "alloc")));
    expect_gap(
        index.resolve(&source, &site(rust, ImportForm::RustUse, "crate::{a::A, b::B}")),
        GapCode::UnresolvedTarget,
    );
    expect_gap(
        index.resolve(&path("other/lib.rs"), &site(rust, ImportForm::RustUse, "crate::orders")),
        GapCode::UnresolvedTarget,
    );
    expect_gap(
        index.resolve(&source, &site(rust, ImportForm::RustExternCrate, "serde")),
        GapCode::MissingDependencyMetadata,
    );
}

#[test]
fn dart_uris_by_scheme() {
    let mut index = empty_index();
    let dart = ProgrammingLanguage::Dart;
    index.owners.push(owner(dart, "lib/main.dart", "app"));
    index.owners.push(owner(dart, "lib/src/model.dart", "app"));
    index.dart_package_files.push(KeyedPaths {
        key: "package:app/src/model.dart".to_string(),
        paths: vec![path("lib/src/model.dart")],
    });
    let source = path("lib/main.dart");
    let plain = ImportForm::DartUri { conditional: false };
    expect_external(index.resolve(&source, &site(dart, plain, "dart:async")));
    expect_gap(
        index.resolve(&source, &site(dart, ImportForm::DartUri { conditional: true }, "a.dart")),
        GapCode::MissingProjectMetadata,
    );
    expect_file(
        index.resolve(&source, &site(dart, plain, "package:app/src/model.dart")),
        "lib/src/model.dart",
        ResolutionMethod::ProjectModel,
    );
    expect_gap(
        index.resolve(&source, &site(dart, plain, "package:other/x.dart")),
        GapCode::MissingDependencyMetadata,
    );
    expect_file(
        index.resolve(&source, &site(dart, plain, "src/model.dart")),
        "lib/src/model.dart",
        ResolutionMethod::SyntaxExact,
    );
}

#[test]
fn index_owner_and_metadata_lookups() {
    let mut index = ecmascript_index();
    let ts = ProgrammingLanguage::TypeScript;
    assert_eq!(index.owner(ts, &path("src/util.ts")).map(|u| u.value.clone()), Some("web".to_string()));
    assert!(index.owner(ProgrammingLanguage::Go, &path("src/util.ts")).is_none());
    let files = index.resolution_files(ProgrammingLanguage::JavaScript);
    assert_eq!(files.len(), 5);
    let python_files = index.resolution_files(ProgrammingLanguage::Python);
    assert_eq!(python_files.len(), 5);
    index.metadata_failed_files.push(code_memory::resolver::FileOwnerKey {
        language: ts,
        path: path("src/util.ts"),
    });
    assert!(index.metadata_failed(ts, &path("src/util.ts")));
    assert!(!index.metadata_failed(ProgrammingLanguage::JavaScript, &path("src/util.ts")));
}

#[test]
fn selection_reads_candidates_as_a_set() {
    let a = path("src/a.ts");
    let b = path("src/b.ts");
    expect_ambiguous(
        select_files_without_source(&[b.clone(), a.clone(), b.clone()], ResolutionMethod::SyntaxExact),
        2,
    );
    expect_ambiguous(
        select_files_without_source(&[a.clone(), b.clone()], ResolutionMethod::SyntaxExact),
        2,
    );
    expect_file(
        select_files_without_source(&[a.clone(), a.clone()], ResolutionMethod::ProjectModel),
        "src/a.ts",
        ResolutionMethod::ProjectModel,
    );
    expect_file(
        select_files(&b, &[b.clone(), a.clone(), b.clone()], ResolutionMethod::SyntaxExact),
        "src/a.ts",
        ResolutionMethod::SyntaxExact,
    );
    expect_gap(
        select_files(&a, &[a.clone()], ResolutionMethod::SyntaxExact),
        GapCode::UnresolvedTarget,
    );
}
