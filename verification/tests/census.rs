use code_memory::census::{
    canonical_languages, classify, file_extension_of, is_build_file, is_deployment_file, is_documentation,
    is_generated_name, is_semantic_config_file, is_sensitive_path, is_test_name, last_segment,
    product_ignored_directory, split_chars, FilePolicy,
};
use code_memory::model::{ProgrammingLanguage, RepositoryPath, SourceFileKind};

fn classified(path: &str, languages: &[ProgrammingLanguage]) -> (Vec<ProgrammingLanguage>, SourceFileKind, FilePolicy) {
    let r = classify(&RepositoryPath::parse(path).unwrap(), languages);
    (r.languages, r.kind, r.policy)
}

#[test]
fn language_files_are_source_test_generated_or_migration() {
    assert_eq!(
        classified("src/app.ts", &[ProgrammingLanguage::TypeScript]),
        (vec![ProgrammingLanguage::TypeScript], SourceFileKind::Source, FilePolicy::Measure)
    );
    assert_eq!(
        classified("pkg/tests/helper.py", &[ProgrammingLanguage::Python]).1,
        SourceFileKind::Test
    );
    assert_eq!(classified("src/app.spec.ts", &[ProgrammingLanguage::TypeScript]).1, SourceFileKind::Test);
    assert_eq!(classified("lib/model.g.dart", &[ProgrammingLanguage::Dart]).1, SourceFileKind::Generated);
    // Generated wins over a test scope.
    assert_eq!(
        classified("test/model.freezed.dart", &[ProgrammingLanguage::Dart]).1,
        SourceFileKind::Generated
    );
    assert_eq!(
        classified("db/Migrations/Init.cs", &[ProgrammingLanguage::CSharp]).1,
        SourceFileKind::Migration
    );
}

#[test]
fn vue_files_are_measured_as_typescript_and_languages_are_canonical() {
    assert_eq!(
        classified("src/View.VUE", &[]),
        (vec![ProgrammingLanguage::TypeScript], SourceFileKind::Source, FilePolicy::Measure)
    );
    assert_eq!(
        classified("include/a.h", &[ProgrammingLanguage::Cpp, ProgrammingLanguage::C, ProgrammingLanguage::Cpp]).0,
        vec![ProgrammingLanguage::C, ProgrammingLanguage::Cpp]
    );
    assert_eq!(
        canonical_languages(&[ProgrammingLanguage::Dart, ProgrammingLanguage::JavaScript], true),
        vec![ProgrammingLanguage::TypeScript, ProgrammingLanguage::JavaScript, ProgrammingLanguage::Dart]
    );
}

#[test]
fn files_without_a_language_fall_into_their_support_kinds() {
    assert_eq!(classified("db/schema.sql", &[]), (vec![], SourceFileKind::Sql, FilePolicy::Measure));
    assert_eq!(classified("db/migrate/001.sql", &[]).1, SourceFileKind::Migration);
    assert_eq!(classified("Dockerfile", &[]).1, SourceFileKind::Deployment);
    assert_eq!(classified(".github/workflows/ci.yml", &[]).1, SourceFileKind::Deployment);
    assert_eq!(classified("config/app.yml", &[]).1, SourceFileKind::Other);
    assert_eq!(classified("Makefile", &[]).1, SourceFileKind::Build);
    assert_eq!(classified("app/App.csproj", &[]).1, SourceFileKind::Build);
    assert_eq!(classified("package.json", &[]).1, SourceFileKind::Config);
    assert_eq!(classified("tsconfig.base.json", &[]).1, SourceFileKind::Config);
    assert_eq!(
        classified("README.md", &[]),
        (vec![], SourceFileKind::Documentation, FilePolicy::Exclude)
    );
    assert_eq!(
        classified("assets/logo.png", &[]),
        (vec![], SourceFileKind::Other, FilePolicy::Unsupported)
    );
}

#[test]
fn name_predicates_follow_their_lists() {
    assert!(is_generated_name("api.generated.ts"));
    assert!(is_generated_name("form.designer.cs"));
    assert!(!is_generated_name("generator.ts"));
    assert!(is_test_name("test_models.py"));
    assert!(is_test_name("server_test.go"));
    assert!(!is_test_name("contest.py"));
    assert!(is_documentation("notes.rst", Some("rst")));
    assert!(is_documentation("license", None));
    assert!(!is_documentation("main.rs", Some("rs")));
    assert!(is_deployment_file(&["k8s", "app.yaml"], "app.yaml", Some("yaml")));
    assert!(!is_deployment_file(&["src", "app.yaml"], "app.yaml", Some("yaml")));
    assert!(is_deployment_file(&["infra", "main.tf"], "main.tf", Some("tf")));
    assert!(is_build_file("cmakelists.txt"));
    assert!(!is_build_file("notes.txt"));
    assert!(is_semantic_config_file("requirements-dev.txt"));
    assert!(is_semantic_config_file("schema.prisma"));
    assert!(!is_semantic_config_file("settings.json"));
}

#[test]
fn ignored_directories_separate_dependencies_from_tooling() {
    assert_eq!(product_ignored_directory("node_modules"), Some(true));
    assert_eq!(product_ignored_directory("Vendor"), Some(true));
    assert_eq!(product_ignored_directory(".git"), Some(false));
    assert_eq!(product_ignored_directory("target"), Some(false));
    assert_eq!(product_ignored_directory("src"), None);
}

#[test]
fn secrets_are_recognised_by_their_file_name() {
    assert!(is_sensitive_path(&RepositoryPath::parse("deploy/.env.production").unwrap()));
    assert!(is_sensitive_path(&RepositoryPath::parse(".NPMRC").unwrap()));
    assert!(!is_sensitive_path(&RepositoryPath::parse("src/env.ts").unwrap()));
}

#[test]
fn path_splitting_keeps_empty_segments() {
    let chars: Vec<char> = "a//b/".chars().collect();
    assert_eq!(split_chars(&chars, '/'), vec!["a", "", "b", ""]);
    assert_eq!(last_segment(&chars, '/'), Vec::<char>::new());
    let name: Vec<char> = "src/main.rs".chars().collect();
    assert_eq!(last_segment(&name, '/'), "main.rs".chars().collect::<Vec<_>>());
}

#[test]
fn file_extensions_are_lower_cased_and_taken_after_the_last_dot() {
    let ext = |p: &str| file_extension_of(&RepositoryPath::parse(p).unwrap());
    assert_eq!(ext("src/App.Component.VUE"), Some("vue".to_string()));
    assert_eq!(ext("lib/x.tar.gz"), Some("gz".to_string()));
    assert_eq!(ext("a.b/Makefile"), None);
    assert_eq!(ext("dir/.env"), Some("env".to_string()));
}
