//! Provider diagnostics and per-file coverage, classified into gaps, issues
//! and coverage states.
use vstd::prelude::*;

use crate::adapter::{is_longest_fitting_prefix, MAX_MESSAGE_BYTES};
use crate::model::{valid_repository_path, AnalysisCapability, AnalysisUnitId, RepositoryPath};
use crate::resolver::GapCode;

verus! {

/// What a provider reported about a unit.
#[derive(Clone, Copy, Debug, PartialEq, Eq, Structural)]
pub enum DiagnosticCode {
    MissingDependencyMetadata,
    DependencyMetadataGap,
    MissingCompileContext,
    MissingLegacySdk,
    LargeWorkspacePartial,
    GeneratedCode,
    DynamicRegistration,
    ProviderMissing,
    ProviderTimeout,
    ProviderStopped,
    ProviderFailed,
    IndexerFailed,
    InvalidOutput,
    /// Any other diagnostic; it is neither a gap nor an issue.
    Informational,
}

/// One provider diagnostic.
#[derive(Debug)]
pub struct Diagnostic {
    pub code: DiagnosticCode,
    pub message: String,
    pub path: Option<String>,
}

/// How one file was covered by its provider.
#[derive(Clone, Copy, Debug, PartialEq, Eq, Structural)]
pub enum FileCoverageState {
    Indexed,
    Excluded,
    Failed,
    Partial,
}

/// A provider's report on one file.
#[derive(Debug)]
pub struct FileCoverageOutput {
    pub status: String,
    pub reason: Option<String>,
}

pub open spec fn opt_view(s: Option<String>) -> Option<Seq<char>> {
    match s {
        Some(v) => Some(v@),
        None => None,
    }
}

/// The gap a provider's exclusion or omission reason stands for.
pub open spec fn spec_coverage_gap(reason: Option<Seq<char>>) -> GapCode {
    match reason {
        None => GapCode::ProviderExecutionIncomplete,
        Some(r) => if r == "provider-missing"@ {
            GapCode::ProviderUnavailable
        } else if r == "no-compile-context"@ || r == "header-not-reachable"@ || r
            == "not-in-active-build"@ {
            GapCode::MissingCompileContext
        } else if r == "project-config"@ {
            GapCode::MissingProjectMetadata
        } else if r == "generated"@ {
            GapCode::GeneratedSourceMappingUnavailable
        } else {
            GapCode::ProviderExecutionIncomplete
        },
    }
}

pub fn coverage_gap(reason: Option<&str>) -> (r: GapCode)
    ensures
        r == spec_coverage_gap(match reason {
            Some(s) => Some(s@),
            None => None,
        }),
{
    match reason {
        None => GapCode::ProviderExecutionIncomplete,
        Some(r) => {
            if crate::text::str_eq(r, "provider-missing") {
                GapCode::ProviderUnavailable
            } else if crate::text::str_eq(r, "no-compile-context") || crate::text::str_eq(
                r,
                "header-not-reachable",
            ) || crate::text::str_eq(r, "not-in-active-build") {
                GapCode::MissingCompileContext
            } else if crate::text::str_eq(r, "project-config") {
                GapCode::MissingProjectMetadata
            } else if crate::text::str_eq(r, "generated") {
                GapCode::GeneratedSourceMappingUnavailable
            } else {
                GapCode::ProviderExecutionIncomplete
            }
        },
    }
}

pub open spec fn has_code(diagnostics: Seq<Diagnostic>, code: DiagnosticCode) -> bool {
    exists|i: int| 0 <= i < diagnostics.len() && #[trigger] diagnostics[i].code == code
}

/// The resource budget a provider ran out of, if any: the workspace budget
/// wins over the query budget.
pub open spec fn spec_provider_resource_gap(diagnostics: Seq<Diagnostic>) -> Option<GapCode> {
    if has_code(diagnostics, DiagnosticCode::LargeWorkspacePartial) {
        Some(GapCode::WorkspaceBudgetExceeded)
    } else if has_code(diagnostics, DiagnosticCode::ProviderTimeout) {
        Some(GapCode::QueryBudgetExceeded)
    } else {
        None
    }
}

fn any_code(diagnostics: &[Diagnostic], code: DiagnosticCode) -> (r: bool)
    ensures
        r == has_code(diagnostics@, code),
{
    let mut i: usize = 0;
    while i < diagnostics.len()
        invariant
            i <= diagnostics.len(),
            forall|j: int| 0 <= j < i ==> diagnostics@[j].code != code,
        decreases diagnostics.len() - i,
    {
        if diagnostics[i].code == code {
            return true;
        }
        i += 1;
    }
    false
}

pub fn provider_resource_gap(diagnostics: &[Diagnostic]) -> (r: Option<GapCode>)
    ensures
        r == spec_provider_resource_gap(diagnostics@),
{
    if any_code(diagnostics, DiagnosticCode::LargeWorkspacePartial) {
        return Some(GapCode::WorkspaceBudgetExceeded);
    }
    if any_code(diagnostics, DiagnosticCode::ProviderTimeout) {
        Some(GapCode::QueryBudgetExceeded)
    } else {
        None
    }
}

pub open spec fn is_failure_status(status: Seq<char>) -> bool {
    status == "missing-tool"@ || status == "indexer-failed"@ || status == "invalid-output"@
}

/// The coverage of one file: indexed when the provider indexed it;
/// excluded for its reason, unless it was the provider that excluded it
/// while running out of a budget; failed when the language's provider
/// failed; partial otherwise, and when the provider said nothing of it.
pub open spec fn spec_file_coverage_state(
    coverage: Option<FileCoverageOutput>,
    language_status: Seq<char>,
    resource_gap: Option<GapCode>,
) -> (FileCoverageState, Seq<GapCode>) {
    match coverage {
        None => (
            FileCoverageState::Partial,
            seq![
                match resource_gap {
                    Some(g) => g,
                    None => GapCode::ProviderExecutionIncomplete,
                },
            ],
        ),
        Some(c) => {
            let reason = opt_view(c.reason);
            if c.status@ == "indexed"@ {
                (FileCoverageState::Indexed, Seq::empty())
            } else if c.status@ == "excluded"@ && reason == Some("provider-excluded"@)
                && resource_gap is Some {
                (FileCoverageState::Partial, seq![resource_gap->0])
            } else if c.status@ == "excluded"@ {
                (FileCoverageState::Excluded, seq![spec_coverage_gap(reason)])
            } else if is_failure_status(language_status) {
                (FileCoverageState::Failed, seq![spec_coverage_gap(reason)])
            } else {
                (
                    FileCoverageState::Partial,
                    seq![
                        match resource_gap {
                            Some(g) => g,
                            None => spec_coverage_gap(reason),
                        },
                    ],
                )
            }
        },
    }
}

pub fn file_coverage_state(
    coverage: Option<&FileCoverageOutput>,
    language_status: &str,
    resource_gap: Option<GapCode>,
) -> (r: (FileCoverageState, Vec<GapCode>))
    ensures
        ({
            let expected = spec_file_coverage_state(
                match coverage {
                    Some(c) => Some(*c),
                    None => None,
                },
                language_status@,
                resource_gap,
            );
            r.0 == expected.0 && r.1@ == expected.1
        }),
{
    let mut gaps: Vec<GapCode> = Vec::new();
    let c = match coverage {
        None => {
            gaps.push(
                match resource_gap {
                    Some(g) => g,
                    None => GapCode::ProviderExecutionIncomplete,
                },
            );
            return (FileCoverageState::Partial, gaps);
        },
        Some(c) => c,
    };
    let reason: Option<&str> = match &c.reason {
        Some(s) => Some(s.as_str()),
        None => None,
    };
    let status = c.status.as_str();
    if crate::text::str_eq(status, "indexed") {
        return (FileCoverageState::Indexed, gaps);
    }
    let excluded = crate::text::str_eq(status, "excluded");
    let by_provider = match reason {
        Some(s) => crate::text::str_eq(s, "provider-excluded"),
        None => false,
    };
    if excluded && by_provider && resource_gap.is_some() {
        gaps.push(resource_gap.unwrap());
        return (FileCoverageState::Partial, gaps);
    }
    if excluded {
        gaps.push(coverage_gap(reason));
        return (FileCoverageState::Excluded, gaps);
    }
    if crate::text::str_eq(language_status, "missing-tool") || crate::text::str_eq(
        language_status,
        "indexer-failed",
    ) || crate::text::str_eq(language_status, "invalid-output") {
        gaps.push(coverage_gap(reason));
        return (FileCoverageState::Failed, gaps);
    }
    gaps.push(
        match resource_gap {
            Some(g) => g,
            None => coverage_gap(reason),
        },
    );
    (FileCoverageState::Partial, gaps)
}

/// The gap a diagnostic reports, and the capability it concerns (none for
/// gaps of the whole unit).
pub open spec fn spec_diagnostic_gap(code: DiagnosticCode) -> Option<(GapCode, Option<AnalysisCapability>)> {
    match code {
        DiagnosticCode::MissingDependencyMetadata | DiagnosticCode::DependencyMetadataGap => Some(
            (GapCode::MissingDependencyMetadata, None),
        ),
        DiagnosticCode::MissingCompileContext | DiagnosticCode::MissingLegacySdk => Some(
            (GapCode::MissingCompileContext, Some(AnalysisCapability::ProjectStructure)),
        ),
        DiagnosticCode::LargeWorkspacePartial => Some(
            (GapCode::WorkspaceBudgetExceeded, Some(AnalysisCapability::DirectCalls)),
        ),
        DiagnosticCode::GeneratedCode => Some(
            (GapCode::GeneratedSourceMappingUnavailable, Some(AnalysisCapability::Definitions)),
        ),
        DiagnosticCode::DynamicRegistration => Some(
            (GapCode::RuntimeRegistration, Some(AnalysisCapability::FrameworkBindings)),
        ),
        DiagnosticCode::ProviderMissing => Some((GapCode::ProviderUnavailable, None)),
        DiagnosticCode::ProviderTimeout => Some((GapCode::QueryBudgetExceeded, None)),
        DiagnosticCode::ProviderStopped => Some((GapCode::ProviderExecutionIncomplete, None)),
        _ => None,
    }
}

/// A gap of one analysis unit.
#[derive(Debug)]
pub struct UnitGap {
    pub code: GapCode,
    pub unit_id: AnalysisUnitId,
    pub capability: Option<AnalysisCapability>,
    pub message: String,
}

/// The gap a diagnostic of unit `unit_id` reports, with its message bounded.
pub fn diagnostic_gap(unit_id: &AnalysisUnitId, diagnostic: &Diagnostic) -> (r: Option<UnitGap>)
    ensures
        match r {
            Some(g) => spec_diagnostic_gap(diagnostic.code) == Some((g.code, g.capability))
                && g.unit_id.value@ == unit_id.value@ && g.message@ == diagnostic.message@.take(
                g.message@.len() as int,
            ) && is_longest_fitting_prefix(
                diagnostic.message@,
                MAX_MESSAGE_BYTES as nat,
                g.message@.len() as int,
            ),
            None => spec_diagnostic_gap(diagnostic.code) is None,
        },
{
    let (code, capability) = match diagnostic.code {
        DiagnosticCode::MissingDependencyMetadata | DiagnosticCode::DependencyMetadataGap => (
            GapCode::MissingDependencyMetadata,
            None,
        ),
        DiagnosticCode::MissingCompileContext | DiagnosticCode::MissingLegacySdk => (
            GapCode::MissingCompileContext,
            Some(AnalysisCapability::ProjectStructure),
        ),
        DiagnosticCode::LargeWorkspacePartial => (
            GapCode::WorkspaceBudgetExceeded,
            Some(AnalysisCapability::DirectCalls),
        ),
        DiagnosticCode::GeneratedCode => (
            GapCode::GeneratedSourceMappingUnavailable,
            Some(AnalysisCapability::Definitions),
        ),
        DiagnosticCode::DynamicRegistration => (
            GapCode::RuntimeRegistration,
            Some(AnalysisCapability::FrameworkBindings),
        ),
        DiagnosticCode::ProviderMissing => (GapCode::ProviderUnavailable, None),
        DiagnosticCode::ProviderTimeout => (GapCode::QueryBudgetExceeded, None),
        DiagnosticCode::ProviderStopped => (GapCode::ProviderExecutionIncomplete, None),
        _ => {
            return None;
        },
    };
    Some(
        UnitGap {
            code,
            unit_id: unit_id.duplicate(),
            capability,
            message: crate::adapter::bounded_message(diagnostic.message.as_str()),
        },
    )
}

/// Why an analysis step failed.
#[derive(Clone, Copy, Debug, PartialEq, Eq, Structural)]
pub enum AnalysisErrorCode {
    ProviderMissing,
    ProviderStartFailed,
    ProviderMalformedOutput,
    ProviderTimeout,
    ProviderStopped,
}

/// The analysis step an issue arose in.
#[derive(Clone, Copy, Debug, PartialEq, Eq, Structural)]
pub enum AnalysisStage {
    ProviderExecution,
    ProviderDecoding,
}

/// What an issue concerns: one file of a unit, or the unit.
#[derive(Debug)]
pub enum AnalysisScope {
    File { unit_id: AnalysisUnitId, path: RepositoryPath },
    AnalysisUnit { unit_id: AnalysisUnitId },
}

/// An issue of one analysis unit.
#[derive(Debug)]
pub struct AnalysisIssue {
    pub code: AnalysisErrorCode,
    pub stage: AnalysisStage,
    pub scope: AnalysisScope,
    pub retryable: bool,
    pub message: String,
}

/// The error, stage and retryability a diagnostic reports as an issue.
pub open spec fn spec_diagnostic_issue(code: DiagnosticCode) -> Option<(AnalysisErrorCode, AnalysisStage, bool)> {
    match code {
        DiagnosticCode::ProviderMissing => Some(
            (AnalysisErrorCode::ProviderMissing, AnalysisStage::ProviderExecution, true),
        ),
        DiagnosticCode::ProviderFailed | DiagnosticCode::IndexerFailed => Some(
            (AnalysisErrorCode::ProviderStartFailed, AnalysisStage::ProviderExecution, true),
        ),
        DiagnosticCode::InvalidOutput => Some(
            (AnalysisErrorCode::ProviderMalformedOutput, AnalysisStage::ProviderDecoding, false),
        ),
        DiagnosticCode::ProviderTimeout => Some(
            (AnalysisErrorCode::ProviderTimeout, AnalysisStage::ProviderExecution, true),
        ),
        DiagnosticCode::ProviderStopped => Some(
            (AnalysisErrorCode::ProviderStopped, AnalysisStage::ProviderExecution, true),
        ),
        _ => None,
    }
}

/// The issue a diagnostic of unit `unit_id` reports: scoped to its file
/// when it names a valid one, to the unit otherwise.
pub fn diagnostic_issue(unit_id: &AnalysisUnitId, diagnostic: &Diagnostic) -> (r: Option<AnalysisIssue>)
    ensures
        match r {
            Some(issue) => spec_diagnostic_issue(diagnostic.code) == Some(
                (issue.code, issue.stage, issue.retryable),
            ) && match issue.scope {
                AnalysisScope::File { unit_id: u, path } => u.value@ == unit_id.value@
                    && opt_view(diagnostic.path) == Some(path.value@)
                    && valid_repository_path(path.value@),
                AnalysisScope::AnalysisUnit { unit_id: u } => u.value@ == unit_id.value@ && match diagnostic.path {
                    Some(p) => !valid_repository_path(p@),
                    None => true,
                },
            } && issue.message@ == diagnostic.message@.take(issue.message@.len() as int)
                && is_longest_fitting_prefix(
                diagnostic.message@,
                MAX_MESSAGE_BYTES as nat,
                issue.message@.len() as int,
            ),
            None => spec_diagnostic_issue(diagnostic.code) is None,
        },
{
    let (code, stage, retryable) = match diagnostic.code {
        DiagnosticCode::ProviderMissing => (
            AnalysisErrorCode::ProviderMissing,
            AnalysisStage::ProviderExecution,
            true,
        ),
        DiagnosticCode::ProviderFailed | DiagnosticCode::IndexerFailed => (
            AnalysisErrorCode::ProviderStartFailed,
            AnalysisStage::ProviderExecution,
            true,
        ),
        DiagnosticCode::InvalidOutput => (
            AnalysisErrorCode::ProviderMalformedOutput,
            AnalysisStage::ProviderDecoding,
            false,
        ),
        DiagnosticCode::ProviderTimeout => (
            AnalysisErrorCode::ProviderTimeout,
            AnalysisStage::ProviderExecution,
            true,
        ),
        DiagnosticCode::ProviderStopped => (
            AnalysisErrorCode::ProviderStopped,
            AnalysisStage::ProviderExecution,
            true,
        ),
        _ => {
            return None;
        },
    };
    let scope = match &diagnostic.path {
        Some(p) => match RepositoryPath::parse(p.as_str()) {
            Ok(path) => AnalysisScope::File { unit_id: unit_id.duplicate(), path },
            Err(_) => AnalysisScope::AnalysisUnit { unit_id: unit_id.duplicate() },
        },
        None => AnalysisScope::AnalysisUnit { unit_id: unit_id.duplicate() },
    };
    Some(
        AnalysisIssue {
            code,
            stage,
            scope,
            retryable,
            message: crate::adapter::bounded_message(diagnostic.message.as_str()),
        },
    )
}

} // verus!
