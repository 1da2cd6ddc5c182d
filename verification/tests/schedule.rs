use code_memory::model::{ProgrammingLanguage, RepositoryPath};
use code_memory::provider_schedule::{schedule_provider_units, PlanAssignment, PlanUnit, UnitActivity};
use code_memory::schedule::{
    chunked_shards, decimal_text, path_before, project_unit_order, sort_paths, typescript_shards,
    OmissionReason, ProjectModelUnit, ProviderConfig,
};

fn path(value: &str) -> RepositoryPath {
    RepositoryPath::parse(value).unwrap()
}

fn unit(id: &str, language: ProgrammingLanguage, root: &str) -> PlanUnit {
    PlanUnit {
        id: id.to_string(),
        language,
        root: if root.is_empty() { RepositoryPath::root() } else { path(root) },
        activity: None,
    }
}

fn assignment(language: ProgrammingLanguage, file: &str, unit: &str) -> PlanAssignment {
    PlanAssignment { language, path: path(file), unit_ids: vec![unit.to_string()] }
}

fn project(id: &str, files: &[&str]) -> ProjectModelUnit {
    ProjectModelUnit {
        id: id.to_string(),
        config: Some(id.to_string()),
        base_config: Some(id.to_string()),
        files: files.iter().map(|f| f.to_string()).collect(),
        allow_js: false,
        synthetic: false,
        generated_config: None,
    }
}

#[test]
fn schedule_is_derived_from_plan_and_accounts_for_vue_without_sending_it() {
    let units = vec![
        unit("typescript:root", ProgrammingLanguage::TypeScript, ""),
        unit("go:go", ProgrammingLanguage::Go, "go"),
    ];
    let assignments = vec![
        assignment(ProgrammingLanguage::TypeScript, "src/app.ts", "typescript:root"),
        assignment(ProgrammingLanguage::TypeScript, "src/view.vue", "typescript:root"),
        assignment(ProgrammingLanguage::Go, "go/main.go", "go:go"),
    ];
    let first = schedule_provider_units(&units, &assignments, &[]).unwrap();
    let repeated = schedule_provider_units(&units, &assignments, &[]).unwrap();
    assert_eq!(format!("{:?}", first.receipt), format!("{:?}", repeated.receipt));
    assert_eq!(first.receipt.project_model_only_count, 1);
    assert_eq!(first.receipt.planned_file_language_count, 3);
    assert_eq!(first.receipt.scheduled_file_language_count, 2);
    assert!(first
        .units
        .iter()
        .flat_map(|unit| &unit.files)
        .all(|path| !path.as_str().ends_with(".vue")));
    assert!(first.units.iter().all(|scheduled| units
        .iter()
        .any(|unit| unit.id == scheduled.analysis_unit_id && unit.root == scheduled.root)));
    assert_eq!(first.receipt.omission_sample, vec!["typescript:src/view.vue:project-model-only"]);
    let scopes: Vec<&str> = first.units.iter().map(|u| u.execution_scope_id.as_str()).collect();
    assert_eq!(scopes, vec!["go:go", "tsjs:root:fallback"]);
}

#[test]
fn dart_reliability_shards_keep_one_analysis_unit_identity() {
    let units = vec![unit("dart:root", ProgrammingLanguage::Dart, "")];
    let assignments: Vec<PlanAssignment> = (0..513)
        .map(|index| assignment(ProgrammingLanguage::Dart, &format!("lib/file_{index}.dart"), "dart:root"))
        .collect();
    let schedule = schedule_provider_units(&units, &assignments, &[]).unwrap();
    let dart = schedule
        .units
        .iter()
        .filter(|unit| unit.language.as_str() == "dart")
        .collect::<Vec<_>>();
    assert_eq!(dart.len(), 2);
    assert_eq!(dart[0].files.len(), 512);
    assert_eq!(dart[1].files.len(), 1);
    assert_eq!(dart[0].analysis_unit_id, dart[1].analysis_unit_id);
    assert_ne!(dart[0].execution_scope_id, dart[1].execution_scope_id);
}

#[test]
fn typescript_project_references_remain_plan_owned_execution_shards() {
    let units = vec![
        unit("typescript:packages/a", ProgrammingLanguage::TypeScript, "packages/a"),
        unit("typescript:packages/b", ProgrammingLanguage::TypeScript, "packages/b"),
    ];
    let assignments = vec![
        assignment(ProgrammingLanguage::TypeScript, "packages/a/src/a.ts", "typescript:packages/a"),
        assignment(ProgrammingLanguage::TypeScript, "packages/b/src/b.ts", "typescript:packages/b"),
    ];
    let project_units = vec![
        project("packages/a/tsconfig.json", &["packages/a/src/a.ts"]),
        project("packages/b/tsconfig.json", &["packages/b/src/b.ts"]),
    ];
    let schedule = schedule_provider_units(&units, &assignments, &project_units).unwrap();
    let roots: Vec<&str> = schedule.units.iter().map(|unit| unit.root.as_str()).collect();
    assert_eq!(roots, vec!["packages/a", "packages/b"]);
    assert_eq!(schedule.receipt.analysis_unit_count, 2);
    assert_eq!(schedule.receipt.execution_shard_count, 2);
    assert_eq!(schedule.receipt.planned_file_language_count, 2);
    assert_eq!(schedule.receipt.scheduled_file_language_count, 2);
    assert!(schedule.units.iter().all(|unit| match &unit.provider_config {
        Some(ProviderConfig::Project(config)) =>
            config.ends_with("tsconfig.json") && config.starts_with(unit.root.as_str()),
        _ => false,
    }));
    assert_eq!(schedule.units[0].execution_scope_id, "tsjs:packages_a:packages_a_tsconfig_json");
}

#[test]
fn inactive_c_family_files_are_omitted_and_counted_once() {
    let mut c = unit("cpp:root", ProgrammingLanguage::Cpp, "");
    c.activity = Some(UnitActivity { active: vec![path("src/a.cpp")], excluded: 4 });
    let assignments = vec![
        assignment(ProgrammingLanguage::Cpp, "src/a.cpp", "cpp:root"),
        assignment(ProgrammingLanguage::Cpp, "src/old.cpp", "cpp:root"),
    ];
    let schedule = schedule_provider_units(&[c], &assignments, &[]).unwrap();
    assert_eq!(schedule.units.len(), 1);
    assert_eq!(schedule.units[0].execution_scope_id, "cpp:root");
    assert_eq!(schedule.units[0].project_excluded_files, 4);
    assert_eq!(schedule.omissions.len(), 1);
    assert_eq!(schedule.omissions[0].reason, OmissionReason::ProjectConfigExcluded);
    assert_eq!(schedule.receipt.project_config_excluded_count, 1);
    assert!(!schedule.receipt.details_truncated);
}

#[test]
fn plans_that_cannot_be_scheduled_exactly_are_refused() {
    let units = vec![unit("go:root", ProgrammingLanguage::Go, "")];
    let shared = PlanAssignment {
        language: ProgrammingLanguage::Go,
        path: path("main.go"),
        unit_ids: vec!["go:root".to_string(), "go:other".to_string()],
    };
    assert_eq!(
        schedule_provider_units(&units, &[shared], &[]).unwrap_err(),
        "provider scheduling requires one owner per file/language: main.go has 2"
    );
    let twice = vec![
        assignment(ProgrammingLanguage::Go, "main.go", "go:root"),
        assignment(ProgrammingLanguage::Go, "main.go", "go:root"),
    ];
    assert_eq!(
        schedule_provider_units(&units, &twice, &[]).unwrap_err(),
        "provider schedule assigned go:main.go more than once"
    );
    let orphan = vec![assignment(ProgrammingLanguage::Go, "main.go", "go:missing")];
    let error = schedule_provider_units(&units, &orphan, &[]).unwrap_err();
    assert_eq!(
        error,
        "provider schedule does not exactly account for AnalysisPlan assignments; missing=[go:main.go] extra=[]"
    );
}

#[test]
fn chunks_hold_at_most_512_files_in_plan_order() {
    let files: Vec<RepositoryPath> = (0..1025).map(|i| path(&format!("f{i}.dart"))).collect();
    let shards = chunked_shards(ProgrammingLanguage::Dart, "dart:root", &RepositoryPath::root(), "dart:root", &files, 3);
    let sizes: Vec<usize> = shards.iter().map(|s| s.files.len()).collect();
    assert_eq!(sizes, vec![512, 512, 1]);
    assert_eq!(shards[2].execution_scope_id, "dart:root:shard-2");
    assert_eq!(shards[2].files[0].as_str(), "f1024.dart");
    let excluded: Vec<usize> = shards.iter().map(|s| s.project_excluded_files).collect();
    assert_eq!(excluded, vec![3, 0, 0]);
    assert!(chunked_shards(ProgrammingLanguage::Dart, "d", &RepositoryPath::root(), "d", &[], 3).is_empty());
}

#[test]
fn projects_claim_files_in_project_order_and_the_rest_falls_back() {
    let files = vec![path("b/x.ts"), path("a/y.ts"), path("c/z.ts"), path("a/a-b.ts"), path("a/a/b.ts")];
    let mut shallow = project("tsconfig.json", &["a/y.ts", "b/x.ts"]);
    shallow.generated_config = Some("/tmp/generated.json".to_string());
    let deep = project("a/tsconfig.json", &["a\\y.ts", "a/a-b.ts", "a/a/b.ts", "missing.ts"]);
    let mut synthetic = project("synthetic", &["c/z.ts"]);
    synthetic.synthetic = true;
    synthetic.config = None;
    synthetic.base_config = None;
    let projects = vec![synthetic, shallow, deep];
    assert_eq!(project_unit_order(&projects), vec![2, 1, 0]);
    let shards = typescript_shards(ProgrammingLanguage::TypeScript, "ts:root", &RepositoryPath::root(), "root", &files, &projects, 7);
    let listed: Vec<(String, Vec<&str>, usize)> = shards
        .iter()
        .map(|s| (s.execution_scope_id.clone(), s.files.iter().map(|f| f.as_str()).collect(), s.project_excluded_files))
        .collect();
    assert_eq!(
        listed,
        vec![
            ("tsjs:root:a_tsconfig_json".to_string(), vec!["a/a/b.ts", "a/a-b.ts", "a/y.ts"], 7),
            ("tsjs:root:tsconfig_json".to_string(), vec!["b/x.ts"], 0),
            ("tsjs:root:synthetic".to_string(), vec!["c/z.ts"], 0),
        ]
    );
    assert_eq!(shards[1].provider_config, Some(ProviderConfig::Generated("/tmp/generated.json".to_string())));
    assert_eq!(shards[2].provider_config, None);
    let rest = typescript_shards(ProgrammingLanguage::JavaScript, "js:root", &RepositoryPath::root(), "root", &files, &[], 2);
    assert_eq!(rest.len(), 1);
    assert_eq!(rest[0].execution_scope_id, "tsjs:root:fallback");
    assert_eq!(rest[0].project_excluded_files, 2);
}

#[test]
fn paths_order_component_by_component() {
    assert!(path_before("a/b", "a-b"));
    assert!(path_before("a", "a/b"));
    assert!(path_before("a/c", "ab"));
    assert!(!path_before("a", "a"));
    let sorted = sort_paths(vec![path("a-b"), path("a/b"), path("a")]);
    let texts: Vec<&str> = sorted.iter().map(|p| p.as_str()).collect();
    assert_eq!(texts, vec!["a", "a/b", "a-b"]);
    assert_eq!(decimal_text(0), "0");
    assert_eq!(decimal_text(4096), "4096");
}

#[test]
fn planned_files_are_the_scheduled_plus_the_omitted() {
    let mut c = unit("c:native", ProgrammingLanguage::C, "native");
    c.activity = Some(UnitActivity { active: vec![path("native/a.c")], excluded: 1 });
    let units = vec![unit("typescript:web", ProgrammingLanguage::TypeScript, "web"), c];
    let assignments = vec![
        assignment(ProgrammingLanguage::TypeScript, "web/a.ts", "typescript:web"),
        assignment(ProgrammingLanguage::TypeScript, "web/B.Vue", "typescript:web"),
        assignment(ProgrammingLanguage::TypeScript, "web/c.vue", "typescript:web"),
        assignment(ProgrammingLanguage::C, "native/a.c", "c:native"),
        assignment(ProgrammingLanguage::C, "native/b.c", "c:native"),
    ];
    let schedule = schedule_provider_units(&units, &assignments, &[]).unwrap();
    let r = &schedule.receipt;
    assert_eq!(r.planned_file_language_count, 5);
    assert_eq!(r.scheduled_file_language_count, 2);
    assert_eq!(r.project_model_only_count, 2);
    assert_eq!(r.project_config_excluded_count, 1);
    assert_eq!(
        r.planned_file_language_count,
        r.scheduled_file_language_count + r.project_model_only_count + r.project_config_excluded_count
    );
    assert!(schedule
        .units
        .iter()
        .flat_map(|unit| &unit.files)
        .all(|p| !p.as_str().to_ascii_lowercase().ends_with(".vue")));
}
