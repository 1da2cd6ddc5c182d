use code_memory::emission::{plan_unit_disposition, unit_files, UnitDisposition};
use code_memory::model::{ProgrammingLanguage, RepositoryPath};
use code_memory::provider_schedule::PlanAssignment;
use code_memory::resolver::GapCode;

fn assignment(file: &str, units: &[&str]) -> PlanAssignment {
    PlanAssignment {
        language: ProgrammingLanguage::TypeScript,
        path: RepositoryPath::parse(file).unwrap(),
        unit_ids: units.iter().map(|u| u.to_string()).collect(),
    }
}

fn plan() -> Vec<PlanAssignment> {
    vec![
        assignment("src/b.ts", &["u1", "u2"]),
        assignment("src/a.ts", &["u1"]),
        assignment("src/a.ts", &["u1"]),
        assignment("src/c.ts", &["u2"]),
    ]
}

#[test]
fn a_unit_is_emitted_over_its_distinct_files_in_path_order() {
    assert_eq!(unit_files(&plan(), "u1"), vec!["src/a.ts".to_string(), "src/b.ts".to_string()]);
    assert_eq!(unit_files(&plan(), "u2"), vec!["src/b.ts".to_string(), "src/c.ts".to_string()]);
    assert!(unit_files(&plan(), "u3").is_empty());
    match plan_unit_disposition(&plan(), "u1", true, true, true).unwrap() {
        UnitDisposition::Emit { files } => assert_eq!(files, vec!["src/a.ts".to_string(), "src/b.ts".to_string()]),
        other => panic!("unexpected {other:?}"),
    }
}

#[test]
fn units_without_output_or_provider_are_unavailable() {
    assert!(matches!(
        plan_unit_disposition(&plan(), "u1", false, true, true).unwrap(),
        UnitDisposition::Unavailable { gap: GapCode::ProviderExecutionIncomplete }
    ));
    assert!(matches!(
        plan_unit_disposition(&plan(), "u1", true, false, true).unwrap(),
        UnitDisposition::Unavailable { gap: GapCode::ProviderUnavailable }
    ));
}

#[test]
fn units_without_files_or_context_are_refused() {
    assert_eq!(
        plan_unit_disposition(&plan(), "u3", true, true, true).unwrap_err(),
        "analysis unit has no assigned files: u3"
    );
    assert_eq!(
        plan_unit_disposition(&plan(), "u2", true, true, false).unwrap_err(),
        "analysis unit has no executed provider context: u2"
    );
}
