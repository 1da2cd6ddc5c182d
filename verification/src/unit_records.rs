//! The closing records of one emitted unit: its state, its gaps and its
//! issues. A unit the provider fully indexed is still partial when anything
//! was left out, and an incomplete unit carries a gap saying that zero facts
//! are not absence.
use vstd::prelude::*;

use crate::adapter::{is_longest_fitting_prefix, MAX_MESSAGE_BYTES};
use crate::capabilities::{gap_rank, spec_capability_name, AnalysisUnitState, CapabilityAuditEntry};
use crate::diagnostics::{
    diagnostic_gap, diagnostic_issue, spec_diagnostic_gap, spec_diagnostic_issue, AnalysisErrorCode, AnalysisIssue,
    AnalysisScope, AnalysisStage, Diagnostic, UnitGap,
};
use crate::model::{spec_language_name, valid_repository_path, AnalysisCapability, AnalysisUnitId, ProgrammingLanguage};
use crate::ordering::{dedup_by, insert_by, lemma_dedup_by_push, lemma_insert_by_at, lemma_sort_by_push, sort_by};
use crate::resolver::GapCode;
use crate::text::{seq_lt, string_views};

verus! {

/// A provider diagnostic with the language it was reported for.
#[derive(Debug)]
pub struct LanguageDiagnostic {
    pub language: String,
    pub diagnostic: Diagnostic,
}

/// What the unit's emission left out or could not reconcile.
#[derive(Clone, Copy, Debug)]
pub struct UnitFactCounts {
    pub omitted_definition_count: u64,
    pub omitted_relation_count: u64,
    pub missing_syntax_definition_count: u64,
    pub extra_provider_definition_count: u64,
    pub unresolved_owner_count: u64,
    pub definition_inventory_failed_file_count: u64,
    pub type_relation_failed_file_count: u64,
}

/// The closing records of a unit.
#[derive(Debug)]
pub struct UnitRecords {
    pub state: AnalysisUnitState,
    pub gaps: Vec<UnitGap>,
    pub issues: Vec<AnalysisIssue>,
}

// ---------------------------------------------------------------------------
// The model
// ---------------------------------------------------------------------------

/// A message cut to the longest prefix that fits the message bound.
pub open spec fn bounded(m: Seq<char>) -> Seq<char> {
    m.take(choose|k: int| is_longest_fitting_prefix(m, MAX_MESSAGE_BYTES as nat, k))
}

proof fn lemma_bounded(m: Seq<char>, r: Seq<char>)
    requires
        r == m.take(r.len() as int),
        is_longest_fitting_prefix(m, MAX_MESSAGE_BYTES as nat, r.len() as int),
    ensures
        r == bounded(m),
{
    let k = choose|k: int| is_longest_fitting_prefix(m, MAX_MESSAGE_BYTES as nat, k);
    crate::adapter::lemma_longest_fitting_prefix_unique(m, MAX_MESSAGE_BYTES as nat, k, r.len() as int);
}

/// The state a provider status stands for.
pub open spec fn spec_unit_state(status: Seq<char>) -> AnalysisUnitState {
    if status == "indexed"@ {
        AnalysisUnitState::Complete
    } else if status == "indexed-partial"@ || status == "excluded"@ || status == "excluded-by-project-config"@
        || status == "empty-semantic"@ {
        AnalysisUnitState::Partial
    } else {
        AnalysisUnitState::Failed
    }
}

/// A gap by its plain values: code, capability, message, unit.
pub type GapView = (GapCode, Option<AnalysisCapability>, Seq<char>, Seq<char>);

pub open spec fn gap_view(g: UnitGap) -> GapView {
    (g.code, g.capability, g.message@, g.unit_id.value@)
}

pub open spec fn gap_views(v: Seq<UnitGap>) -> Seq<GapView> {
    v.map_values(|g: UnitGap| gap_view(g))
}

/// A diagnostic concerns the unit when it is reported for the unit's
/// language and names no file or one of the unit's files.
pub open spec fn concerns(language: ProgrammingLanguage, assigned: Seq<Seq<char>>, d: LanguageDiagnostic) -> bool {
    &&& d.language@ == spec_language_name(language)
    &&& match d.diagnostic.path {
        Some(p) => assigned.contains(p@),
        None => true,
    }
}

/// The gaps the unit's diagnostics report, in order.
pub open spec fn diagnostic_gaps(
    unit: Seq<char>,
    language: ProgrammingLanguage,
    assigned: Seq<Seq<char>>,
    ds: Seq<LanguageDiagnostic>,
) -> Seq<GapView>
    decreases ds.len(),
{
    if ds.len() == 0 {
        Seq::empty()
    } else {
        let r = diagnostic_gaps(unit, language, assigned, ds.drop_last());
        let d = ds.last();
        if concerns(language, assigned, d) && spec_diagnostic_gap(d.diagnostic.code) is Some {
            let (code, capability) = spec_diagnostic_gap(d.diagnostic.code)->0;
            r.push((code, capability, bounded(d.diagnostic.message@), unit))
        } else {
            r
        }
    }
}

/// An issue's scope by its plain values: the unit and the file, if any.
pub type ScopeView = (Seq<char>, Option<Seq<char>>);

/// An issue by its plain values: code, stage, scope, retryable, message.
pub type IssueView = (AnalysisErrorCode, AnalysisStage, ScopeView, bool, Seq<char>);

pub open spec fn scope_view(s: AnalysisScope) -> ScopeView {
    match s {
        AnalysisScope::File { unit_id, path } => (unit_id.value@, Some(path.value@)),
        AnalysisScope::AnalysisUnit { unit_id } => (unit_id.value@, None),
    }
}

pub open spec fn issue_view(i: AnalysisIssue) -> IssueView {
    (i.code, i.stage, scope_view(i.scope), i.retryable, i.message@)
}

pub open spec fn issue_views(v: Seq<AnalysisIssue>) -> Seq<IssueView> {
    v.map_values(|i: AnalysisIssue| issue_view(i))
}

/// The scope of an issue of `unit`: the named file when it is a valid path.
pub open spec fn diagnostic_scope(unit: Seq<char>, path: Option<String>) -> ScopeView {
    match path {
        Some(p) => if valid_repository_path(p@) {
            (unit, Some(p@))
        } else {
            (unit, None)
        },
        None => (unit, None),
    }
}

/// The issues the unit's diagnostics report, in order.
pub open spec fn diagnostic_issues(
    unit: Seq<char>,
    language: ProgrammingLanguage,
    assigned: Seq<Seq<char>>,
    ds: Seq<LanguageDiagnostic>,
) -> Seq<IssueView>
    decreases ds.len(),
{
    if ds.len() == 0 {
        Seq::empty()
    } else {
        let r = diagnostic_issues(unit, language, assigned, ds.drop_last());
        let d = ds.last();
        if concerns(language, assigned, d) && spec_diagnostic_issue(d.diagnostic.code) is Some {
            let (code, stage, retryable) = spec_diagnostic_issue(d.diagnostic.code)->0;
            r.push((code, stage, diagnostic_scope(unit, d.diagnostic.path), retryable, bounded(d.diagnostic.message@)))
        } else {
            r
        }
    }
}

/// The message of an import capability's resolution gap.
pub open spec fn import_gap_message(c: AnalysisCapability) -> Seq<char> {
    "Independent "@ + spec_capability_name(c) + " site resolution was incomplete; no guessed internal relation was emitted"@
}

/// The gaps of the import audit: one per gap code of each capability.
pub open spec fn import_gaps(unit: Seq<char>, entries: Seq<CapabilityAuditEntry>) -> Seq<GapView>
    decreases entries.len(),
{
    if entries.len() == 0 {
        Seq::empty()
    } else {
        let e = entries.last();
        import_gaps(unit, entries.drop_last()) + e.audit.gap_codes@.map_values(
            |code: GapCode| (code, Some(e.capability), import_gap_message(e.capability), unit),
        )
    }
}

/// Some import capability resolved sites inexactly or lost files.
pub open spec fn import_audit_blocks(entries: Seq<CapabilityAuditEntry>) -> bool {
    exists|i: int|
        0 <= i < entries.len() && {
            let a = (#[trigger] entries[i]).audit;
            a.unresolved_count + a.ambiguous_count + a.invalid_evidence_count > 0
                || a.inventory_failed_files@.len() > 0 || a.metadata_unavailable_files@.len() > 0
        }
}

pub open spec fn definition_blocks(c: UnitFactCounts) -> bool {
    c.missing_syntax_definition_count + c.extra_provider_definition_count + c.unresolved_owner_count
        + c.definition_inventory_failed_file_count > 0
}

/// The state of the unit: the provider's, except that a complete unit that
/// left anything out or could not reconcile its audits is partial.
pub open spec fn spec_unit_records_state(status: Seq<char>, plan_gap_count: nat, entries: Seq<CapabilityAuditEntry>, c: UnitFactCounts) -> AnalysisUnitState {
    let base = spec_unit_state(status);
    if base == AnalysisUnitState::Complete && (c.omitted_definition_count > 0 || c.omitted_relation_count > 0
        || plan_gap_count > 0 || definition_blocks(c) || import_audit_blocks(entries)
        || c.type_relation_failed_file_count > 0) {
        AnalysisUnitState::Partial
    } else {
        base
    }
}

pub open spec fn incomplete_message() -> Seq<char> {
    "The provider-to-Language-IR unit is incomplete; zero facts must not be interpreted as absence"@
}

pub open spec fn omitted_message() -> Seq<char> {
    "Provider records without an exact source range or typed endpoint were not promoted into Language IR"@
}

pub open spec fn unreconciled_message() -> Seq<char> {
    "The provider definition set did not exactly reconcile with the independent source-definition inventory"@
}

pub open spec fn type_inventory_message() -> Seq<char> {
    "The explicit type-relation syntax inventory was incomplete; no guessed hierarchy relation was emitted"@
}

/// The gaps the unit's own condition adds.
pub open spec fn condition_gaps(unit: Seq<char>, status: Seq<char>, c: UnitFactCounts) -> Seq<GapView> {
    let a = if spec_unit_state(status) != AnalysisUnitState::Complete {
        seq![(GapCode::ProviderExecutionIncomplete, None::<AnalysisCapability>, incomplete_message(), unit)]
    } else {
        Seq::empty()
    };
    let b = if c.omitted_definition_count > 0 || c.omitted_relation_count > 0 {
        seq![(GapCode::UnresolvedTarget, None::<AnalysisCapability>, omitted_message(), unit)]
    } else {
        Seq::empty()
    };
    let d = if definition_blocks(c) {
        seq![(GapCode::UnresolvedTarget, Some(AnalysisCapability::Definitions), unreconciled_message(), unit)]
    } else {
        Seq::empty()
    };
    let e = if c.type_relation_failed_file_count > 0 {
        seq![(GapCode::ProviderExecutionIncomplete, Some(AnalysisCapability::TypeRelations), type_inventory_message(), unit)]
    } else {
        Seq::empty()
    };
    a + b + d + e
}

pub open spec fn capability_rank(c: AnalysisCapability) -> nat {
    match c {
        AnalysisCapability::ProjectStructure => 0,
        AnalysisCapability::Definitions => 1,
        AnalysisCapability::Imports => 2,
        AnalysisCapability::Exports => 3,
        AnalysisCapability::DirectCalls => 4,
        AnalysisCapability::TypeRelations => 5,
        AnalysisCapability::Overrides => 6,
        AnalysisCapability::OrmQuery => 7,
        AnalysisCapability::EventExternal => 8,
        AnalysisCapability::FrameworkBindings => 9,
    }
}

/// `None` first, then capabilities in order.
pub open spec fn option_rank(c: Option<AnalysisCapability>) -> nat {
    match c {
        None => 0,
        Some(x) => capability_rank(x) + 1,
    }
}

/// Gaps order by code, capability and message.
pub open spec fn gap_lt() -> spec_fn(GapView, GapView) -> bool {
    |a: GapView, b: GapView|
        {
            ||| gap_rank(a.0) < gap_rank(b.0)
            ||| a.0 == b.0 && option_rank(a.1) < option_rank(b.1)
            ||| a.0 == b.0 && a.1 == b.1 && seq_lt(a.2, b.2)
        }
}

/// Two gaps of one code, capability and scope.
pub open spec fn gap_same() -> spec_fn(GapView, GapView) -> bool {
    |a: GapView, b: GapView| a.0 == b.0 && a.1 == b.1 && a.3 == b.3
}

pub open spec fn error_rank(c: AnalysisErrorCode) -> nat {
    match c {
        AnalysisErrorCode::ProviderMissing => 0,
        AnalysisErrorCode::ProviderStartFailed => 1,
        AnalysisErrorCode::ProviderMalformedOutput => 2,
        AnalysisErrorCode::ProviderTimeout => 3,
        AnalysisErrorCode::ProviderStopped => 4,
    }
}

/// Issues order by code, message and retryability.
pub open spec fn issue_lt() -> spec_fn(IssueView, IssueView) -> bool {
    |a: IssueView, b: IssueView|
        {
            ||| error_rank(a.0) < error_rank(b.0)
            ||| a.0 == b.0 && seq_lt(a.4, b.4)
            ||| a.0 == b.0 && a.4 == b.4 && !a.3 && b.3
        }
}

/// Two issues of one code, scope and message.
pub open spec fn issue_same() -> spec_fn(IssueView, IssueView) -> bool {
    |a: IssueView, b: IssueView| a.0 == b.0 && a.2 == b.2 && a.4 == b.4
}

/// All gaps of the unit before ordering: the plan's, the diagnostics', the
/// import audit's, and the unit's own.
pub open spec fn collected_gaps(
    unit: Seq<char>,
    language: ProgrammingLanguage,
    status: Seq<char>,
    assigned: Seq<Seq<char>>,
    plan_gaps: Seq<UnitGap>,
    ds: Seq<LanguageDiagnostic>,
    entries: Seq<CapabilityAuditEntry>,
    c: UnitFactCounts,
) -> Seq<GapView> {
    gap_views(plan_gaps) + diagnostic_gaps(unit, language, assigned, ds) + import_gaps(unit, entries)
        + condition_gaps(unit, status, c)
}

} // verus!

verus! {

// ---------------------------------------------------------------------------
// Building blocks
// ---------------------------------------------------------------------------

/// The state a provider status stands for.
pub fn unit_state(status: &str) -> (r: AnalysisUnitState)
    ensures
        r == spec_unit_state(status@),
{
    if crate::text::str_eq(status, "indexed") {
        AnalysisUnitState::Complete
    } else if crate::text::str_eq(status, "indexed-partial") || crate::text::str_eq(status, "excluded")
        || crate::text::str_eq(status, "excluded-by-project-config") || crate::text::str_eq(status, "empty-semantic") {
        AnalysisUnitState::Partial
    } else {
        AnalysisUnitState::Failed
    }
}

fn copy_gap(g: &UnitGap) -> (r: UnitGap)
    ensures
        gap_view(r) == gap_view(*g),
{
    UnitGap {
        code: g.code,
        unit_id: g.unit_id.duplicate(),
        capability: g.capability,
        message: crate::text::owned(g.message.as_str()),
    }
}

fn make_gap(code: GapCode, capability: Option<AnalysisCapability>, message: &str, unit: &AnalysisUnitId) -> (r: UnitGap)
    ensures
        gap_view(r) == (code, capability, message@, unit.value@),
{
    UnitGap { code, unit_id: unit.duplicate(), capability, message: crate::text::owned(message) }
}

fn copy_issue(i: &AnalysisIssue) -> (r: AnalysisIssue)
    ensures
        issue_view(r) == issue_view(*i),
{
    let scope = match &i.scope {
        AnalysisScope::File { unit_id, path } => AnalysisScope::File { unit_id: unit_id.duplicate(), path: path.duplicate() },
        AnalysisScope::AnalysisUnit { unit_id } => AnalysisScope::AnalysisUnit { unit_id: unit_id.duplicate() },
    };
    AnalysisIssue {
        code: i.code,
        stage: i.stage,
        scope,
        retryable: i.retryable,
        message: crate::text::owned(i.message.as_str()),
    }
}

pub(crate) fn capability_index(c: AnalysisCapability) -> (r: u8)
    ensures
        r == capability_rank(c),
{
    match c {
        AnalysisCapability::ProjectStructure => 0,
        AnalysisCapability::Definitions => 1,
        AnalysisCapability::Imports => 2,
        AnalysisCapability::Exports => 3,
        AnalysisCapability::DirectCalls => 4,
        AnalysisCapability::TypeRelations => 5,
        AnalysisCapability::Overrides => 6,
        AnalysisCapability::OrmQuery => 7,
        AnalysisCapability::EventExternal => 8,
        AnalysisCapability::FrameworkBindings => 9,
    }
}

fn option_index(c: Option<AnalysisCapability>) -> (r: u8)
    ensures
        r == option_rank(c),
{
    match c {
        None => 0,
        Some(x) => capability_index(x) + 1,
    }
}

fn error_index(c: AnalysisErrorCode) -> (r: u8)
    ensures
        r == error_rank(c),
{
    match c {
        AnalysisErrorCode::ProviderMissing => 0,
        AnalysisErrorCode::ProviderStartFailed => 1,
        AnalysisErrorCode::ProviderMalformedOutput => 2,
        AnalysisErrorCode::ProviderTimeout => 3,
        AnalysisErrorCode::ProviderStopped => 4,
    }
}

fn gap_less(a: &UnitGap, b: &UnitGap) -> (r: bool)
    ensures
        r == gap_lt()(gap_view(*a), gap_view(*b)),
{
    let ca = crate::language_ir::gap_index(a.code);
    let cb = crate::language_ir::gap_index(b.code);
    if ca != cb {
        return ca < cb;
    }
    let oa = option_index(a.capability);
    let ob = option_index(b.capability);
    if oa != ob {
        return oa < ob;
    }
    proof {
        assert(a.code == b.code) by {
            assert(gap_rank(a.code) == gap_rank(b.code));
        }
        assert(a.capability == b.capability);
    }
    let ma = crate::text::chars_of(a.message.as_str());
    let mb = crate::text::chars_of(b.message.as_str());
    crate::text::order_chars(ma.as_slice(), mb.as_slice()) == -1
}

fn gap_same_exec(a: &UnitGap, b: &UnitGap) -> (r: bool)
    ensures
        r == gap_same()(gap_view(*a), gap_view(*b)),
{
    a.code == b.code && a.capability == b.capability && crate::text::str_eq(
        a.unit_id.value.as_str(),
        b.unit_id.value.as_str(),
    )
}

fn issue_less(a: &AnalysisIssue, b: &AnalysisIssue) -> (r: bool)
    ensures
        r == issue_lt()(issue_view(*a), issue_view(*b)),
{
    let ca = error_index(a.code);
    let cb = error_index(b.code);
    if ca != cb {
        return ca < cb;
    }
    proof {
        assert(a.code == b.code);
    }
    let ma = crate::text::chars_of(a.message.as_str());
    let mb = crate::text::chars_of(b.message.as_str());
    let o = crate::text::order_chars(ma.as_slice(), mb.as_slice());
    if o != 0 {
        return o == -1;
    }
    !a.retryable && b.retryable
}

fn scope_same(a: &AnalysisScope, b: &AnalysisScope) -> (r: bool)
    ensures
        r == (scope_view(*a) == scope_view(*b)),
{
    match (a, b) {
        (AnalysisScope::File { unit_id: ua, path: pa }, AnalysisScope::File { unit_id: ub, path: pb }) => crate::text::str_eq(
            ua.value.as_str(),
            ub.value.as_str(),
        ) && crate::text::str_eq(pa.value.as_str(), pb.value.as_str()),
        (AnalysisScope::AnalysisUnit { unit_id: ua }, AnalysisScope::AnalysisUnit { unit_id: ub }) => crate::text::str_eq(
            ua.value.as_str(),
            ub.value.as_str(),
        ),
        _ => false,
    }
}

fn issue_same_exec(a: &AnalysisIssue, b: &AnalysisIssue) -> (r: bool)
    ensures
        r == issue_same()(issue_view(*a), issue_view(*b)),
{
    a.code == b.code && scope_same(&a.scope, &b.scope) && crate::text::str_eq(a.message.as_str(), b.message.as_str())
}

// ---------------------------------------------------------------------------
// Ordering gaps and issues
// ---------------------------------------------------------------------------

fn sort_gaps(raw: &[UnitGap]) -> (r: Vec<UnitGap>)
    ensures
        gap_views(r@) == sort_by(gap_views(raw@), gap_lt()),
{
    let ghost all = gap_views(raw@);
    let mut sorted: Vec<UnitGap> = Vec::new();
    let mut i: usize = 0;
    proof {
        assert(all.take(0) =~= Seq::<GapView>::empty());
    }
    while i < raw.len()
        invariant
            i <= raw.len(),
            all == gap_views(raw@),
            gap_views(sorted@) == sort_by(all.take(i as int), gap_lt()),
        decreases raw.len() - i,
    {
        let x = copy_gap(&raw[i]);
        let ghost xv = gap_view(x);
        proof {
            assert(all.take(i + 1) =~= all.take(i as int).push(xv));
            lemma_sort_by_push(all.take(i as int), xv, gap_lt());
        }
        let ghost views = gap_views(sorted@);
        let mut p: usize = sorted.len();
        loop
            invariant
                p <= sorted.len(),
                views == gap_views(sorted@),
                xv == gap_view(x),
                forall|k: int| p <= k < sorted.len() ==> gap_lt()(xv, #[trigger] views[k]),
            ensures
                p <= sorted.len(),
                forall|k: int| p <= k < sorted.len() ==> gap_lt()(xv, #[trigger] views[k]),
                p == 0 || !gap_lt()(xv, views[p - 1]),
            decreases p,
        {
            if p == 0 {
                break;
            }
            if !gap_less(&x, &sorted[p - 1]) {
                break;
            }
            p -= 1;
        }
        proof {
            lemma_insert_by_at(views, xv, gap_lt(), p as int);
        }
        sorted.insert(p, x);
        proof {
            assert(gap_views(sorted@) =~= views.insert(p as int, xv));
        }
        i += 1;
    }
    proof {
        assert(all.take(raw.len() as int) =~= all);
    }
    sorted
}

fn dedup_gaps(sorted: &[UnitGap]) -> (r: Vec<UnitGap>)
    ensures
        gap_views(r@) == dedup_by(gap_views(sorted@), gap_same()),
{
    let ghost all = gap_views(sorted@);
    let mut out: Vec<UnitGap> = Vec::new();
    let mut i: usize = 0;
    proof {
        assert(all.take(0) =~= Seq::<GapView>::empty());
    }
    while i < sorted.len()
        invariant
            i <= sorted.len(),
            all == gap_views(sorted@),
            gap_views(out@) == dedup_by(all.take(i as int), gap_same()),
        decreases sorted.len() - i,
    {
        let x = copy_gap(&sorted[i]);
        proof {
            assert(all.take(i + 1) =~= all.take(i as int).push(gap_view(x)));
            lemma_dedup_by_push(all.take(i as int), gap_view(x), gap_same());
        }
        let keep = out.len() == 0 || !gap_same_exec(&out[out.len() - 1], &x);
        proof {
            if out.len() > 0 {
                assert(gap_views(out@).last() == gap_view(out@[out.len() - 1]));
            }
        }
        if keep {
            let ghost before = gap_views(out@);
            out.push(x);
            assert(gap_views(out@) =~= before.push(gap_view(x)));
        }
        i += 1;
    }
    proof {
        assert(all.take(sorted.len() as int) =~= all);
    }
    out
}

fn sort_issues(raw: &[AnalysisIssue]) -> (r: Vec<AnalysisIssue>)
    ensures
        issue_views(r@) == sort_by(issue_views(raw@), issue_lt()),
{
    let ghost all = issue_views(raw@);
    let mut sorted: Vec<AnalysisIssue> = Vec::new();
    let mut i: usize = 0;
    proof {
        assert(all.take(0) =~= Seq::<IssueView>::empty());
    }
    while i < raw.len()
        invariant
            i <= raw.len(),
            all == issue_views(raw@),
            issue_views(sorted@) == sort_by(all.take(i as int), issue_lt()),
        decreases raw.len() - i,
    {
        let x = copy_issue(&raw[i]);
        let ghost xv = issue_view(x);
        proof {
            assert(all.take(i + 1) =~= all.take(i as int).push(xv));
            lemma_sort_by_push(all.take(i as int), xv, issue_lt());
        }
        let ghost views = issue_views(sorted@);
        let mut p: usize = sorted.len();
        loop
            invariant
                p <= sorted.len(),
                views == issue_views(sorted@),
                xv == issue_view(x),
                forall|k: int| p <= k < sorted.len() ==> issue_lt()(xv, #[trigger] views[k]),
            ensures
                p <= sorted.len(),
                forall|k: int| p <= k < sorted.len() ==> issue_lt()(xv, #[trigger] views[k]),
                p == 0 || !issue_lt()(xv, views[p - 1]),
            decreases p,
        {
            if p == 0 {
                break;
            }
            if !issue_less(&x, &sorted[p - 1]) {
                break;
            }
            p -= 1;
        }
        proof {
            lemma_insert_by_at(views, xv, issue_lt(), p as int);
        }
        sorted.insert(p, x);
        proof {
            assert(issue_views(sorted@) =~= views.insert(p as int, xv));
        }
        i += 1;
    }
    proof {
        assert(all.take(raw.len() as int) =~= all);
    }
    sorted
}

fn dedup_issues(sorted: &[AnalysisIssue]) -> (r: Vec<AnalysisIssue>)
    ensures
        issue_views(r@) == dedup_by(issue_views(sorted@), issue_same()),
{
    let ghost all = issue_views(sorted@);
    let mut out: Vec<AnalysisIssue> = Vec::new();
    let mut i: usize = 0;
    proof {
        assert(all.take(0) =~= Seq::<IssueView>::empty());
    }
    while i < sorted.len()
        invariant
            i <= sorted.len(),
            all == issue_views(sorted@),
            issue_views(out@) == dedup_by(all.take(i as int), issue_same()),
        decreases sorted.len() - i,
    {
        let x = copy_issue(&sorted[i]);
        proof {
            assert(all.take(i + 1) =~= all.take(i as int).push(issue_view(x)));
            lemma_dedup_by_push(all.take(i as int), issue_view(x), issue_same());
        }
        let keep = out.len() == 0 || !issue_same_exec(&out[out.len() - 1], &x);
        proof {
            if out.len() > 0 {
                assert(issue_views(out@).last() == issue_view(out@[out.len() - 1]));
            }
        }
        if keep {
            let ghost before = issue_views(out@);
            out.push(x);
            assert(issue_views(out@) =~= before.push(issue_view(x)));
        }
        i += 1;
    }
    proof {
        assert(all.take(sorted.len() as int) =~= all);
    }
    out
}

} // verus!

verus! {

// ---------------------------------------------------------------------------
// The records of a unit
// ---------------------------------------------------------------------------

fn concerns_exec(language: ProgrammingLanguage, assigned: &[String], d: &LanguageDiagnostic) -> (r: bool)
    ensures
        r == concerns(language, string_views(assigned@), *d),
{
    if !crate::text::str_eq(d.language.as_str(), language.as_str()) {
        return false;
    }
    match &d.diagnostic.path {
        None => true,
        Some(p) => {
            let mut k: usize = 0;
            while k < assigned.len()
                invariant
                    k <= assigned.len(),
                    d.language@ == spec_language_name(language),
                    d.diagnostic.path matches Some(q) && q@ == p@,
                    forall|j: int| 0 <= j < k ==> string_views(assigned@)[j] != p@,
                decreases assigned.len() - k,
            {
                if crate::text::str_eq(assigned[k].as_str(), p.as_str()) {
                    assert(string_views(assigned@)[k as int] == p@);
                    assert(string_views(assigned@).contains(p@));
                    return true;
                }
                k += 1;
            }
            false
        },
    }
}

fn push_import_gaps(unit: &AnalysisUnitId, entries: &[CapabilityAuditEntry], out: &mut Vec<UnitGap>)
    ensures
        gap_views(final(out)@) == gap_views(old(out)@) + import_gaps(unit.value@, entries@),
{
    let ghost start = gap_views(out@);
    let mut i: usize = 0;
    proof {
        assert(entries@.take(0) =~= Seq::<CapabilityAuditEntry>::empty());
        assert(start + import_gaps(unit.value@, entries@.take(0)) =~= start);
    }
    while i < entries.len()
        invariant
            i <= entries.len(),
            gap_views(out@) == start + import_gaps(unit.value@, entries@.take(i as int)),
        decreases entries.len() - i,
    {
        let e = &entries[i];
        let a = crate::text::concat("Independent ", crate::capabilities::capability_name(e.capability));
        let message = crate::text::concat(
            a.as_str(),
            " site resolution was incomplete; no guessed internal relation was emitted",
        );
        let ghost before = gap_views(out@);
        let ghost mapped = e.audit.gap_codes@.map_values(
            |code: GapCode| (code, Some(e.capability), import_gap_message(e.capability), unit.value@),
        );
        let mut j: usize = 0;
        while j < e.audit.gap_codes.len()
            invariant
                j <= e.audit.gap_codes.len(),
                message@ == import_gap_message(e.capability),
                mapped == e.audit.gap_codes@.map_values(
                    |code: GapCode| (code, Some(e.capability), import_gap_message(e.capability), unit.value@),
                ),
                gap_views(out@) == before + mapped.take(j as int),
            decreases e.audit.gap_codes.len() - j,
        {
            let g = make_gap(e.audit.gap_codes[j], Some(e.capability), message.as_str(), unit);
            let ghost prev = gap_views(out@);
            out.push(g);
            proof {
                assert(gap_views(out@) =~= prev.push(gap_view(g)));
                assert(mapped.take(j + 1) =~= mapped.take(j as int).push(mapped[j as int]));
                assert(before + mapped.take(j + 1) =~= (before + mapped.take(j as int)).push(mapped[j as int]));
            }
            j += 1;
        }
        proof {
            assert(mapped.take(e.audit.gap_codes.len() as int) =~= mapped);
            assert(entries@.take(i + 1).drop_last() =~= entries@.take(i as int));
            assert(entries@.take(i + 1).last() == entries@[i as int]);
            assert(start + import_gaps(unit.value@, entries@.take(i as int)) + mapped =~= start + (import_gaps(
                unit.value@,
                entries@.take(i as int),
            ) + mapped));
        }
        i += 1;
    }
    proof {
        assert(entries@.take(entries.len() as int) =~= entries@);
    }
}

fn import_blocks_exec(entries: &[CapabilityAuditEntry]) -> (r: bool)
    ensures
        r == import_audit_blocks(entries@),
{
    let mut i: usize = 0;
    while i < entries.len()
        invariant
            i <= entries.len(),
            forall|k: int|
                0 <= k < i ==> {
                    let a = (#[trigger] entries@[k]).audit;
                    !(a.unresolved_count + a.ambiguous_count + a.invalid_evidence_count > 0
                        || a.inventory_failed_files@.len() > 0 || a.metadata_unavailable_files@.len() > 0)
                },
        decreases entries.len() - i,
    {
        let a = &entries[i].audit;
        if a.unresolved_count > 0 || a.ambiguous_count > 0 || a.invalid_evidence_count > 0
            || a.inventory_failed_files.len() > 0 || a.metadata_unavailable_files.len() > 0 {
            assert(entries@[i as int].audit == *a);
            return true;
        }
        i += 1;
    }
    false
}

/// The state, gaps and issues that close an emitted unit. The gaps are the
/// plan's gaps of the unit, those of its diagnostics, those of its import
/// audit and those its own condition adds, ordered by code, capability and
/// message with one per code, capability and scope; the issues are those of
/// its diagnostics, ordered by code, message and retryability with one per
/// code, scope and message. A diagnostic belongs to the unit when it is
/// reported for the unit's language and names no file or one of its files.
pub fn unit_records(
    unit_id: &AnalysisUnitId,
    language: ProgrammingLanguage,
    status: &str,
    assigned: &[String],
    plan_gaps: &[UnitGap],
    diagnostics: &[LanguageDiagnostic],
    import_audit: &crate::capabilities::ImportAudit,
    counts: UnitFactCounts,
) -> (r: UnitRecords)
    ensures
        r.state == spec_unit_records_state(status@, plan_gaps@.len(), import_audit.capabilities@, counts),
        gap_views(r.gaps@) == dedup_by(
            sort_by(
                collected_gaps(
                    unit_id.value@,
                    language,
                    status@,
                    string_views(assigned@),
                    plan_gaps@,
                    diagnostics@,
                    import_audit.capabilities@,
                    counts,
                ),
                gap_lt(),
            ),
            gap_same(),
        ),
        issue_views(r.issues@) == dedup_by(
            sort_by(
                diagnostic_issues(unit_id.value@, language, string_views(assigned@), diagnostics@),
                issue_lt(),
            ),
            issue_same(),
        ),
{
    let ghost unit = unit_id.value@;
    let ghost av = string_views(assigned@);
    let mut gaps: Vec<UnitGap> = Vec::new();
    let mut i: usize = 0;
    while i < plan_gaps.len()
        invariant
            i <= plan_gaps.len(),
            gap_views(gaps@) == gap_views(plan_gaps@).take(i as int),
        decreases plan_gaps.len() - i,
    {
        let g = copy_gap(&plan_gaps[i]);
        let ghost prev = gap_views(gaps@);
        gaps.push(g);
        proof {
            assert(gap_view(g) == gap_views(plan_gaps@)[i as int]);
            assert(gap_views(plan_gaps@).take(i + 1) =~= gap_views(plan_gaps@).take(i as int).push(gap_view(g)));
            assert(gap_views(gaps@) =~= prev.push(gap_view(g)));
        }
        i += 1;
    }
    let ghost pv = gap_views(plan_gaps@);
    proof {
        assert(pv.take(plan_gaps.len() as int) =~= pv);
    }
    let mut issues: Vec<AnalysisIssue> = Vec::new();
    let mut k: usize = 0;
    proof {
        assert(diagnostics@.take(0) =~= Seq::<LanguageDiagnostic>::empty());
        assert(pv + diagnostic_gaps(unit, language, av, diagnostics@.take(0)) =~= pv);
    }
    while k < diagnostics.len()
        invariant
            k <= diagnostics.len(),
            unit == unit_id.value@,
            av == string_views(assigned@),
            gap_views(gaps@) == pv + diagnostic_gaps(unit, language, av, diagnostics@.take(k as int)),
            issue_views(issues@) == diagnostic_issues(unit, language, av, diagnostics@.take(k as int)),
        decreases diagnostics.len() - k,
    {
        let d = &diagnostics[k];
        proof {
            assert(diagnostics@.take(k + 1).drop_last() =~= diagnostics@.take(k as int));
            assert(diagnostics@.take(k + 1).last() == diagnostics@[k as int]);
        }
        if concerns_exec(language, assigned, d) {
            match diagnostic_gap(unit_id, &d.diagnostic) {
                Some(g) => {
                    proof {
                        lemma_bounded(d.diagnostic.message@, g.message@);
                    }
                    let ghost prev = gap_views(gaps@);
                    gaps.push(g);
                    proof {
                        assert(gap_views(gaps@) =~= prev.push(gap_view(g)));
                        assert(pv + diagnostic_gaps(unit, language, av, diagnostics@.take(k + 1)) =~= (pv
                            + diagnostic_gaps(unit, language, av, diagnostics@.take(k as int))).push(gap_view(g)));
                    }
                },
                None => {},
            }
            match diagnostic_issue(unit_id, &d.diagnostic) {
                Some(issue) => {
                    proof {
                        lemma_bounded(d.diagnostic.message@, issue.message@);
                        assert(scope_view(issue.scope) == diagnostic_scope(unit, d.diagnostic.path));
                    }
                    let ghost prev = issue_views(issues@);
                    issues.push(issue);
                    proof {
                        assert(issue_views(issues@) =~= prev.push(issue_view(issue)));
                    }
                },
                None => {},
            }
        }
        k += 1;
    }
    proof {
        assert(diagnostics@.take(diagnostics.len() as int) =~= diagnostics@);
    }
    push_import_gaps(unit_id, import_audit.capabilities.as_slice(), &mut gaps);
    let base = unit_state(status);
    let ghost before_conditions = gap_views(gaps@);
    if base != AnalysisUnitState::Complete {
        gaps.push(make_gap(
            GapCode::ProviderExecutionIncomplete,
            None,
            "The provider-to-Language-IR unit is incomplete; zero facts must not be interpreted as absence",
            unit_id,
        ));
    }
    let omitted = counts.omitted_definition_count > 0 || counts.omitted_relation_count > 0;
    if omitted {
        gaps.push(make_gap(
            GapCode::UnresolvedTarget,
            None,
            "Provider records without an exact source range or typed endpoint were not promoted into Language IR",
            unit_id,
        ));
    }
    let unreconciled = counts.missing_syntax_definition_count > 0 || counts.extra_provider_definition_count > 0
        || counts.unresolved_owner_count > 0 || counts.definition_inventory_failed_file_count > 0;
    if unreconciled {
        gaps.push(make_gap(
            GapCode::UnresolvedTarget,
            Some(AnalysisCapability::Definitions),
            "The provider definition set did not exactly reconcile with the independent source-definition inventory",
            unit_id,
        ));
    }
    if counts.type_relation_failed_file_count > 0 {
        gaps.push(make_gap(
            GapCode::ProviderExecutionIncomplete,
            Some(AnalysisCapability::TypeRelations),
            "The explicit type-relation syntax inventory was incomplete; no guessed hierarchy relation was emitted",
            unit_id,
        ));
    }
    proof {
        assert(gap_views(gaps@) =~= before_conditions + condition_gaps(unit, status@, counts));
    }
    let blocks = import_blocks_exec(import_audit.capabilities.as_slice());
    let state = if base == AnalysisUnitState::Complete && (omitted || plan_gaps.len() > 0 || unreconciled || blocks
        || counts.type_relation_failed_file_count > 0) {
        AnalysisUnitState::Partial
    } else {
        base
    };
    let sorted_gaps = sort_gaps(gaps.as_slice());
    let final_gaps = dedup_gaps(sorted_gaps.as_slice());
    let sorted_issues = sort_issues(issues.as_slice());
    let final_issues = dedup_issues(sorted_issues.as_slice());
    UnitRecords { state, gaps: final_gaps, issues: final_issues }
}

} // verus!
