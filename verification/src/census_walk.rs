//! The decisions of the source census walk: what each directory entry
//! becomes in the source manifest. The walk itself (reading directories,
//! following ignore rules, resolving links, measuring files) is I/O; each
//! step hands its observation here and records what comes back.
use vstd::prelude::*;

use crate::census::{classify, is_sensitive_path, product_ignored_directory, spec_is_sensitive_name, file_name,
    spec_product_ignored_directory, FileClassification, FilePolicy};
use crate::model::{ProgrammingLanguage, RepositoryPath};
use crate::schedule::{decimal_text, spec_decimal};
use crate::text::{ascii_lower, concat, owned};

verus! {

/// Why a source entry or scope was not read or not entered.
#[derive(Clone, Copy, Debug, PartialEq, Eq, Structural)]
pub enum CensusGap {
    ExcludedByRule,
    VcsIgnored,
    ProductIgnored,
    DependencyScopeNotEnumerated,
    SensitiveFile,
    UnsupportedFileType,
    SymlinkNotFollowed,
    SymlinkEscapesRoot,
    UnreadableFile,
}

/// The position of a census gap in the order the manifest lists them.
pub open spec fn census_gap_rank(g: CensusGap) -> nat {
    match g {
        CensusGap::ExcludedByRule => 0,
        CensusGap::VcsIgnored => 1,
        CensusGap::ProductIgnored => 2,
        CensusGap::DependencyScopeNotEnumerated => 3,
        CensusGap::SensitiveFile => 4,
        CensusGap::UnsupportedFileType => 5,
        CensusGap::SymlinkNotFollowed => 6,
        CensusGap::SymlinkEscapesRoot => 7,
        CensusGap::UnreadableFile => 8,
    }
}

/// `v` lists distinct census gaps in increasing order.
pub open spec fn census_gaps_in_order(v: Seq<CensusGap>) -> bool {
    forall|i: int, j: int| 0 <= i < j < v.len() ==> census_gap_rank(#[trigger] v[i]) < census_gap_rank(#[trigger] v[j])
}

/// The state of a directory the walk did not enumerate.
#[derive(Clone, Copy, Debug, PartialEq, Eq, Structural)]
pub enum ScopeState {
    Excluded,
    Failed,
}

/// The state of a file the census did not read.
#[derive(Clone, Copy, Debug, PartialEq, Eq, Structural)]
pub enum EntryState {
    Excluded,
    Unsupported,
}

/// What a directory entry is as a link.
#[derive(Clone, Copy, Debug, PartialEq, Eq, Structural)]
pub enum LinkState {
    Regular,
    SymlinkWithinRoot,
    SymlinkEscapesRoot,
    BrokenSymlink,
}

/// What the walk does with one entry.
#[derive(Debug)]
pub enum EntryDecision {
    /// Record the entry as a scope that was not enumerated.
    Scope { state: ScopeState, gaps: Vec<CensusGap> },
    /// Record the entry as a file that was not read.
    Unread { entry: EntryState, link: LinkState, gaps: Vec<CensusGap> },
    /// Enter the directory.
    Walk,
    /// Read and measure the file.
    Measure,
    /// Nothing to record.
    Skip,
}

/// A decision by its plain values.
pub enum DecisionView {
    Scope(ScopeState, Seq<CensusGap>),
    Unread(EntryState, LinkState, Seq<CensusGap>),
    Walk,
    Measure,
    Skip,
}

pub open spec fn decision_view(d: EntryDecision) -> DecisionView {
    match d {
        EntryDecision::Scope { state, gaps } => DecisionView::Scope(state, gaps@),
        EntryDecision::Unread { entry, link, gaps } => DecisionView::Unread(entry, link, gaps@),
        EntryDecision::Walk => DecisionView::Walk,
        EntryDecision::Measure => DecisionView::Measure,
        EntryDecision::Skip => DecisionView::Skip,
    }
}

/// The census options are usable: a read buffer of at least four bytes and
/// positive entry and worker limits.
pub open spec fn census_options_valid(read_buffer_bytes: int, max_entries: int, workers: int) -> bool {
    read_buffer_bytes >= 4 && max_entries > 0 && workers > 0
}

/// The refusal of unusable census options, or `None` when they are usable.
pub fn census_options_error(read_buffer_bytes: usize, max_entries: usize, workers: usize) -> (r: Option<String>)
    ensures
        r.is_none() <==> census_options_valid(read_buffer_bytes as int, max_entries as int, workers as int),
        r matches Some(m) ==> m@
            == "source census read buffer must be at least four bytes and entry/worker limits must be positive"@,
{
    if read_buffer_bytes < 4 || max_entries == 0 || workers == 0 {
        Some(
            owned(
                "source census read buffer must be at least four bytes and entry/worker limits must be positive",
            ),
        )
    } else {
        None
    }
}

/// Counts one more entry against the limit: the new count, or the refusal
/// once the count would pass `max_entries`.
pub fn reserve_entry(count: usize, max_entries: usize) -> (r: Result<usize, String>)
    ensures
        count < max_entries ==> r == Ok::<usize, String>((count + 1) as usize),
        count >= max_entries ==> (r matches Err(m) && m@ == "source census exceeded its "@ + spec_decimal(
            max_entries as nat,
        ) + "-entry safety budget"@),
{
    if count < max_entries {
        Ok(count + 1)
    } else {
        let head = concat("source census exceeded its ", decimal_text(max_entries).as_str());
        Err(concat(head.as_str(), "-entry safety budget"))
    }
}

/// A directory that could not be enumerated: below the root it is recorded
/// as a failed scope; at the root the walk fails (`None`).
pub fn unreadable_directory(is_root: bool) -> (r: Option<EntryDecision>)
    ensures
        is_root ==> r.is_none(),
        !is_root ==> (r matches Some(d) && decision_view(d) == DecisionView::Scope(
            ScopeState::Failed,
            seq![CensusGap::UnreadableFile],
        )),
{
    if is_root {
        None
    } else {
        let mut gaps: Vec<CensusGap> = Vec::new();
        gaps.push(CensusGap::UnreadableFile);
        Some(EntryDecision::Scope { state: ScopeState::Failed, gaps })
    }
}

/// An entry an ignore rule matches: a directory becomes an excluded scope,
/// a regular file an excluded entry, anything else is skipped.
pub fn ignored_entry(is_directory: bool, is_file: bool) -> (r: EntryDecision)
    ensures
        is_directory ==> decision_view(r) == DecisionView::Scope(
            ScopeState::Excluded,
            seq![CensusGap::ExcludedByRule, CensusGap::VcsIgnored],
        ),
        !is_directory && is_file ==> decision_view(r) == DecisionView::Unread(
            EntryState::Excluded,
            LinkState::Regular,
            seq![CensusGap::ExcludedByRule, CensusGap::VcsIgnored],
        ),
        !is_directory && !is_file ==> decision_view(r) == DecisionView::Skip,
{
    if is_directory || is_file {
        let mut gaps: Vec<CensusGap> = Vec::new();
        gaps.push(CensusGap::ExcludedByRule);
        gaps.push(CensusGap::VcsIgnored);
        assert(gaps@ =~= seq![CensusGap::ExcludedByRule, CensusGap::VcsIgnored]);
        if is_directory {
            EntryDecision::Scope { state: ScopeState::Excluded, gaps }
        } else {
            EntryDecision::Unread { entry: EntryState::Excluded, link: LinkState::Regular, gaps }
        }
    } else {
        EntryDecision::Skip
    }
}

/// The gaps of a directory the product does not enter.
pub open spec fn product_scope_gaps(dependency_scope: bool) -> Seq<CensusGap> {
    if dependency_scope {
        seq![CensusGap::ExcludedByRule, CensusGap::ProductIgnored, CensusGap::DependencyScopeNotEnumerated]
    } else {
        seq![CensusGap::ExcludedByRule, CensusGap::ProductIgnored]
    }
}

/// Whether a directory named `name` is left out, and then whether it holds
/// dependencies: a product-ignored name, or else a managed provider root,
/// which holds dependencies.
pub open spec fn spec_skipped_directory(name: Seq<char>, managed_provider_root: bool) -> Option<bool> {
    match spec_product_ignored_directory(name) {
        Some(d) => Some(d),
        None => if managed_provider_root {
            Some(true)
        } else {
            None
        },
    }
}

/// A directory that no ignore rule matches: entered, or recorded as an
/// excluded scope when the product leaves it out.
pub fn directory_entry(name: &str, managed_provider_root: bool) -> (r: EntryDecision)
    ensures
        decision_view(r) == match spec_skipped_directory(name@, managed_provider_root) {
            Some(d) => DecisionView::Scope(ScopeState::Excluded, product_scope_gaps(d)),
            None => DecisionView::Walk,
        },
{
    let skipped = match product_ignored_directory(name) {
        Some(d) => Some(d),
        None => if managed_provider_root {
            Some(true)
        } else {
            None
        },
    };
    match skipped {
        Some(dependency_scope) => {
            let mut gaps: Vec<CensusGap> = Vec::new();
            gaps.push(CensusGap::ExcludedByRule);
            gaps.push(CensusGap::ProductIgnored);
            if dependency_scope {
                gaps.push(CensusGap::DependencyScopeNotEnumerated);
            }
            assert(gaps@ =~= product_scope_gaps(dependency_scope));
            EntryDecision::Scope { state: ScopeState::Excluded, gaps }
        },
        None => EntryDecision::Walk,
    }
}

/// The link state of a link whose target resolved (`Some(within_root)`) or
/// did not (`None`).
pub open spec fn spec_link_state(target: Option<bool>) -> LinkState {
    match target {
        Some(true) => LinkState::SymlinkWithinRoot,
        Some(false) => LinkState::SymlinkEscapesRoot,
        None => LinkState::BrokenSymlink,
    }
}

/// The gaps of a link that is not followed.
pub open spec fn link_gaps(link: LinkState) -> Seq<CensusGap> {
    match link {
        LinkState::SymlinkEscapesRoot => seq![
            CensusGap::ExcludedByRule,
            CensusGap::SymlinkNotFollowed,
            CensusGap::SymlinkEscapesRoot,
        ],
        LinkState::BrokenSymlink => seq![
            CensusGap::ExcludedByRule,
            CensusGap::SymlinkNotFollowed,
            CensusGap::UnreadableFile,
        ],
        _ => seq![CensusGap::ExcludedByRule, CensusGap::SymlinkNotFollowed],
    }
}

/// What the census does with a link: its link state, and whether it is
/// recorded as an excluded scope or an excluded entry.
pub open spec fn spec_link_decision(target: Option<bool>, target_is_directory: bool, has_extension: bool) -> DecisionView {
    let link = spec_link_state(target);
    if (target.is_some() && target_is_directory) || (target.is_none() && !has_extension) {
        DecisionView::Scope(ScopeState::Excluded, link_gaps(link))
    } else {
        DecisionView::Unread(EntryState::Excluded, link, link_gaps(link))
    }
}

/// A link, which the census never follows. `target` is whether its resolved
/// target lies within the project root (`None` when it does not resolve);
/// a link to a directory, or a broken link without an extension, is
/// recorded as an excluded scope, any other as an excluded entry.
pub fn link_entry(target: Option<bool>, target_is_directory: bool, has_extension: bool) -> (r: EntryDecision)
    ensures
        decision_view(r) == spec_link_decision(target, target_is_directory, has_extension),
{
    let link = match target {
        Some(true) => LinkState::SymlinkWithinRoot,
        Some(false) => LinkState::SymlinkEscapesRoot,
        None => LinkState::BrokenSymlink,
    };
    let mut gaps: Vec<CensusGap> = Vec::new();
    gaps.push(CensusGap::ExcludedByRule);
    gaps.push(CensusGap::SymlinkNotFollowed);
    match link {
        LinkState::SymlinkEscapesRoot => gaps.push(CensusGap::SymlinkEscapesRoot),
        LinkState::BrokenSymlink => gaps.push(CensusGap::UnreadableFile),
        _ => {},
    }
    assert(gaps@ =~= link_gaps(link));
    let as_scope = match target {
        Some(_) => target_is_directory,
        None => !has_extension,
    };
    if as_scope {
        EntryDecision::Scope { state: ScopeState::Excluded, gaps }
    } else {
        EntryDecision::Unread { entry: EntryState::Excluded, link, gaps }
    }
}

/// What the census does with a regular file of the given classification:
/// a sensitive file is excluded unread, a product-excluded one likewise, an
/// unsupported one is recorded as such, and any other is measured.
pub open spec fn spec_file_decision(sensitive: bool, policy: FilePolicy) -> DecisionView {
    if sensitive {
        DecisionView::Unread(
            EntryState::Excluded,
            LinkState::Regular,
            seq![CensusGap::ExcludedByRule, CensusGap::SensitiveFile],
        )
    } else {
        match policy {
            FilePolicy::Exclude => DecisionView::Unread(
                EntryState::Excluded,
                LinkState::Regular,
                seq![CensusGap::ExcludedByRule, CensusGap::ProductIgnored],
            ),
            FilePolicy::Unsupported => DecisionView::Unread(
                EntryState::Unsupported,
                LinkState::Regular,
                seq![CensusGap::UnsupportedFileType],
            ),
            FilePolicy::Measure => DecisionView::Measure,
        }
    }
}

/// A regular file that no ignore rule matches: its classification, and what
/// the census does with it.
pub fn file_entry(path: &RepositoryPath, extension_languages: &[ProgrammingLanguage]) -> (r: (
    FileClassification,
    EntryDecision,
))
    ensures
        decision_view(r.1) == spec_file_decision(spec_is_sensitive_name(ascii_lower(file_name(path.value@))), r.0.policy),
{
    let classification = classify(path, extension_languages);
    let sensitive = is_sensitive_path(path);
    let decision = if sensitive {
        let mut gaps: Vec<CensusGap> = Vec::new();
        gaps.push(CensusGap::ExcludedByRule);
        gaps.push(CensusGap::SensitiveFile);
        assert(gaps@ =~= seq![CensusGap::ExcludedByRule, CensusGap::SensitiveFile]);
        EntryDecision::Unread { entry: EntryState::Excluded, link: LinkState::Regular, gaps }
    } else {
        match classification.policy {
            FilePolicy::Exclude => {
                let mut gaps: Vec<CensusGap> = Vec::new();
                gaps.push(CensusGap::ExcludedByRule);
                gaps.push(CensusGap::ProductIgnored);
                assert(gaps@ =~= seq![CensusGap::ExcludedByRule, CensusGap::ProductIgnored]);
                EntryDecision::Unread { entry: EntryState::Excluded, link: LinkState::Regular, gaps }
            },
            FilePolicy::Unsupported => {
                let mut gaps: Vec<CensusGap> = Vec::new();
                gaps.push(CensusGap::UnsupportedFileType);
                assert(gaps@ =~= seq![CensusGap::UnsupportedFileType]);
                EntryDecision::Unread { entry: EntryState::Unsupported, link: LinkState::Regular, gaps }
            },
            FilePolicy::Measure => EntryDecision::Measure,
        }
    };
    (classification, decision)
}

} // verus!
