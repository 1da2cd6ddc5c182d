use code_memory::imports::{normalize_join, python_relative_module_names, rust_import_candidates};
use code_memory::model::RepositoryPath;

#[test]
fn rust_group_with_multiple_root_modules_stays_unresolved() {
    assert!(rust_import_candidates("crate::{a::A, b::B}", &["crate".to_string()]).is_empty());
    assert_eq!(rust_import_candidates("crate::a::{A, B}", &["crate".to_string()]), vec!["crate::a"]);
}

#[test]
fn relative_path_normalization_never_escapes_repository_root() {
    let base = RepositoryPath::parse("src/features").unwrap();
    assert_eq!(normalize_join(&base, "../shared/types").unwrap().as_str(), "src/shared/types");
    assert!(normalize_join(&RepositoryPath::root(), "../outside").is_none());
}

#[test]
fn python_relative_import_uses_package_not_filename_guessing() {
    let source = RepositoryPath::parse("src/pkg/main.py").unwrap();
    let modules = vec!["pkg.main".to_string(), "src.pkg.main".to_string()];
    assert_eq!(
        python_relative_module_names(&source, Some(&modules), ".helpers"),
        vec!["pkg.helpers", "src.pkg.helpers"]
    );
}
