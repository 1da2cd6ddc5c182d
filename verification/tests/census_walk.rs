use code_memory::census::FilePolicy;
use code_memory::census_walk::{
    census_options_error, directory_entry, file_entry, ignored_entry, link_entry, reserve_entry,
    unreadable_directory, CensusGap, EntryDecision, EntryState, LinkState, ScopeState,
};
use code_memory::model::{ProgrammingLanguage, RepositoryPath};

fn scope(d: &EntryDecision) -> Option<(ScopeState, Vec<CensusGap>)> {
    match d {
        EntryDecision::Scope { state, gaps } => Some((*state, gaps.clone())),
        _ => None,
    }
}

fn unread(d: &EntryDecision) -> Option<(EntryState, LinkState, Vec<CensusGap>)> {
    match d {
        EntryDecision::Unread { entry, link, gaps } => Some((*entry, *link, gaps.clone())),
        _ => None,
    }
}

#[test]
fn census_options_need_a_buffer_and_positive_limits() {
    assert_eq!(census_options_error(4, 1, 1), None);
    let message = census_options_error(3, 1, 1).unwrap();
    assert_eq!(
        message,
        "source census read buffer must be at least four bytes and entry/worker limits must be positive"
    );
    assert!(census_options_error(64, 0, 1).is_some());
    assert!(census_options_error(64, 1, 0).is_some());
}

#[test]
fn the_entry_budget_refuses_the_entry_past_its_limit() {
    assert_eq!(reserve_entry(0, 2), Ok(1));
    assert_eq!(reserve_entry(1, 2), Ok(2));
    assert_eq!(
        reserve_entry(2, 2),
        Err("source census exceeded its 2-entry safety budget".to_string())
    );
}

#[test]
fn an_unreadable_subdirectory_is_a_failed_scope_and_an_unreadable_root_fails() {
    assert!(unreadable_directory(true).is_none());
    let decision = unreadable_directory(false).unwrap();
    assert_eq!(scope(&decision), Some((ScopeState::Failed, vec![CensusGap::UnreadableFile])));
}

#[test]
fn ignored_entries_are_excluded_by_version_control_rules() {
    let gaps = vec![CensusGap::ExcludedByRule, CensusGap::VcsIgnored];
    assert_eq!(scope(&ignored_entry(true, false)), Some((ScopeState::Excluded, gaps.clone())));
    assert_eq!(
        unread(&ignored_entry(false, true)),
        Some((EntryState::Excluded, LinkState::Regular, gaps))
    );
    assert!(matches!(ignored_entry(false, false), EntryDecision::Skip));
}

#[test]
fn dependency_and_provider_directories_are_not_entered() {
    assert_eq!(
        scope(&directory_entry("node_modules", false)),
        Some((
            ScopeState::Excluded,
            vec![
                CensusGap::ExcludedByRule,
                CensusGap::ProductIgnored,
                CensusGap::DependencyScopeNotEnumerated
            ]
        ))
    );
    assert_eq!(
        scope(&directory_entry("providers", true)),
        Some((
            ScopeState::Excluded,
            vec![
                CensusGap::ExcludedByRule,
                CensusGap::ProductIgnored,
                CensusGap::DependencyScopeNotEnumerated
            ]
        ))
    );
    assert!(matches!(directory_entry("src", false), EntryDecision::Walk));
}

#[test]
fn links_are_recorded_and_never_followed() {
    assert_eq!(
        unread(&link_entry(Some(true), false, true)),
        Some((
            EntryState::Excluded,
            LinkState::SymlinkWithinRoot,
            vec![CensusGap::ExcludedByRule, CensusGap::SymlinkNotFollowed]
        ))
    );
    assert_eq!(
        scope(&link_entry(Some(false), true, false)),
        Some((
            ScopeState::Excluded,
            vec![
                CensusGap::ExcludedByRule,
                CensusGap::SymlinkNotFollowed,
                CensusGap::SymlinkEscapesRoot
            ]
        ))
    );
    assert_eq!(
        scope(&link_entry(None, false, false)),
        Some((
            ScopeState::Excluded,
            vec![CensusGap::ExcludedByRule, CensusGap::SymlinkNotFollowed, CensusGap::UnreadableFile]
        ))
    );
    assert_eq!(
        unread(&link_entry(None, false, true)),
        Some((
            EntryState::Excluded,
            LinkState::BrokenSymlink,
            vec![CensusGap::ExcludedByRule, CensusGap::SymlinkNotFollowed, CensusGap::UnreadableFile]
        ))
    );
}

#[test]
fn files_are_measured_excluded_or_unsupported_by_their_classification() {
    let env = RepositoryPath::parse("app/.env").unwrap();
    let (_, decision) = file_entry(&env, &[]);
    assert_eq!(
        unread(&decision),
        Some((
            EntryState::Excluded,
            LinkState::Regular,
            vec![CensusGap::ExcludedByRule, CensusGap::SensitiveFile]
        ))
    );
    let source = RepositoryPath::parse("src/main.rs").unwrap();
    let (classification, decision) = file_entry(&source, &[ProgrammingLanguage::Rust]);
    assert_eq!(classification.policy, FilePolicy::Measure);
    assert!(matches!(decision, EntryDecision::Measure));
    let image = RepositoryPath::parse("assets/logo.png").unwrap();
    let (classification, decision) = file_entry(&image, &[]);
    assert_eq!(classification.policy, FilePolicy::Unsupported);
    assert_eq!(
        unread(&decision),
        Some((EntryState::Unsupported, LinkState::Regular, vec![CensusGap::UnsupportedFileType]))
    );
    let notes = RepositoryPath::parse("README.md").unwrap();
    let (classification, decision) = file_entry(&notes, &[]);
    assert_eq!(classification.policy, FilePolicy::Exclude);
    assert_eq!(
        unread(&decision),
        Some((
            EntryState::Excluded,
            LinkState::Regular,
            vec![CensusGap::ExcludedByRule, CensusGap::ProductIgnored]
        ))
    );
}
