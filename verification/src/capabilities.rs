//! Capability policies and the per-unit capability receipts.
//!
//! Each capability of a unit gets one receipt that says how far it was
//! executed, how precise its evidence is, what its coverage denominator is,
//! what it emitted and what it left out, and why it is incomplete.
use vstd::prelude::*;

use crate::inventory::ProviderProtocol;
use crate::model::{AnalysisCapability, AnalysisUnitId, ProgrammingLanguage, RepositoryPath};
use crate::resolver::{first_match, is_first_match, lemma_first_match, lemma_no_match, GapCode};

verus! {

/// What the product promises for a capability.
#[derive(Clone, Copy, Debug, PartialEq, Eq, Structural)]
pub enum DeclaredSupport {
    Required,
    Conditional,
    Unsupported,
}

/// How precise the evidence of a capability is.
#[derive(Clone, Copy, Debug, PartialEq, Eq, Structural)]
pub enum EvidencePrecision {
    ExactRange,
    Symbol,
    Manifest,
    Absent,
}

/// What the current adapter can measure of a capability.
#[derive(Clone, Copy, Debug, PartialEq, Eq, Structural)]
pub enum AdapterMeasurement {
    Full,
    Partial(GapCode),
    NotApplicable,
}

/// The closed profile of one capability.
#[derive(Clone, Copy, Debug, PartialEq, Eq, Structural)]
pub struct CapabilityPolicy {
    pub capability: AnalysisCapability,
    pub declared_support: DeclaredSupport,
    pub measurement: AdapterMeasurement,
    pub precision: EvidencePrecision,
    pub file_denominator: bool,
}

pub open spec fn policy(
    capability: AnalysisCapability,
    declared_support: DeclaredSupport,
    measurement: AdapterMeasurement,
    precision: EvidencePrecision,
    file_denominator: bool,
) -> CapabilityPolicy {
    CapabilityPolicy { capability, declared_support, measurement, precision, file_denominator }
}

pub open spec fn supports_exports(language: ProgrammingLanguage) -> bool {
    language == ProgrammingLanguage::TypeScript || language == ProgrammingLanguage::JavaScript
        || language == ProgrammingLanguage::Dart
}

/// The capability profile of a language, one policy per capability in
/// capability order. Imports and exports are measured by the independent
/// import-site audit; calls and type relations stay partial; overrides are
/// not supported for C; external events are not supported.
pub open spec fn spec_capability_policies(language: ProgrammingLanguage) -> Seq<CapabilityPolicy> {
    let exports = if supports_exports(language) {
        policy(
            AnalysisCapability::Exports,
            DeclaredSupport::Conditional,
            AdapterMeasurement::Full,
            EvidencePrecision::ExactRange,
            true,
        )
    } else {
        policy(
            AnalysisCapability::Exports,
            DeclaredSupport::Unsupported,
            AdapterMeasurement::NotApplicable,
            EvidencePrecision::Absent,
            true,
        )
    };
    let overrides = if language == ProgrammingLanguage::C {
        policy(
            AnalysisCapability::Overrides,
            DeclaredSupport::Unsupported,
            AdapterMeasurement::NotApplicable,
            EvidencePrecision::Absent,
            false,
        )
    } else {
        policy(
            AnalysisCapability::Overrides,
            DeclaredSupport::Conditional,
            AdapterMeasurement::Partial(GapCode::MissingTypeMetadata),
            EvidencePrecision::Symbol,
            false,
        )
    };
    seq![
        policy(
            AnalysisCapability::ProjectStructure,
            DeclaredSupport::Required,
            AdapterMeasurement::Full,
            EvidencePrecision::Manifest,
            true,
        ),
        policy(
            AnalysisCapability::Definitions,
            DeclaredSupport::Required,
            AdapterMeasurement::Full,
            EvidencePrecision::ExactRange,
            true,
        ),
        policy(
            AnalysisCapability::Imports,
            DeclaredSupport::Required,
            AdapterMeasurement::Full,
            EvidencePrecision::ExactRange,
            true,
        ),
        exports,
        policy(
            AnalysisCapability::DirectCalls,
            DeclaredSupport::Conditional,
            AdapterMeasurement::Partial(GapCode::DynamicDispatch),
            EvidencePrecision::ExactRange,
            false,
        ),
        policy(
            AnalysisCapability::TypeRelations,
            DeclaredSupport::Conditional,
            AdapterMeasurement::Partial(GapCode::MissingTypeMetadata),
            EvidencePrecision::Symbol,
            false,
        ),
        overrides,
        policy(
            AnalysisCapability::OrmQuery,
            DeclaredSupport::Conditional,
            AdapterMeasurement::Full,
            EvidencePrecision::ExactRange,
            false,
        ),
        policy(
            AnalysisCapability::EventExternal,
            DeclaredSupport::Unsupported,
            AdapterMeasurement::NotApplicable,
            EvidencePrecision::Absent,
            false,
        ),
    ]
}

/// The capability profile of the provider-to-IR bridge for `language`. It
/// is the same for every provider protocol.
pub fn capability_policies(language: ProgrammingLanguage, _protocol: ProviderProtocol) -> (r: Vec<
    CapabilityPolicy,
>)
    ensures
        r@ == spec_capability_policies(language),
{
    let exports_supported = match language {
        ProgrammingLanguage::TypeScript | ProgrammingLanguage::JavaScript
        | ProgrammingLanguage::Dart => true,
        _ => false,
    };
    let exports = if exports_supported {
        CapabilityPolicy {
            capability: AnalysisCapability::Exports,
            declared_support: DeclaredSupport::Conditional,
            measurement: AdapterMeasurement::Full,
            precision: EvidencePrecision::ExactRange,
            file_denominator: true,
        }
    } else {
        CapabilityPolicy {
            capability: AnalysisCapability::Exports,
            declared_support: DeclaredSupport::Unsupported,
            measurement: AdapterMeasurement::NotApplicable,
            precision: EvidencePrecision::Absent,
            file_denominator: true,
        }
    };
    let overrides = if language == ProgrammingLanguage::C {
        CapabilityPolicy {
            capability: AnalysisCapability::Overrides,
            declared_support: DeclaredSupport::Unsupported,
            measurement: AdapterMeasurement::NotApplicable,
            precision: EvidencePrecision::Absent,
            file_denominator: false,
        }
    } else {
        CapabilityPolicy {
            capability: AnalysisCapability::Overrides,
            declared_support: DeclaredSupport::Conditional,
            measurement: AdapterMeasurement::Partial(GapCode::MissingTypeMetadata),
            precision: EvidencePrecision::Symbol,
            file_denominator: false,
        }
    };
    let mut r: Vec<CapabilityPolicy> = Vec::new();
    r.push(
        CapabilityPolicy {
            capability: AnalysisCapability::ProjectStructure,
            declared_support: DeclaredSupport::Required,
            measurement: AdapterMeasurement::Full,
            precision: EvidencePrecision::Manifest,
            file_denominator: true,
        },
    );
    r.push(
        CapabilityPolicy {
            capability: AnalysisCapability::Definitions,
            declared_support: DeclaredSupport::Required,
            measurement: AdapterMeasurement::Full,
            precision: EvidencePrecision::ExactRange,
            file_denominator: true,
        },
    );
    r.push(
        CapabilityPolicy {
            capability: AnalysisCapability::Imports,
            declared_support: DeclaredSupport::Required,
            measurement: AdapterMeasurement::Full,
            precision: EvidencePrecision::ExactRange,
            file_denominator: true,
        },
    );
    r.push(exports);
    r.push(
        CapabilityPolicy {
            capability: AnalysisCapability::DirectCalls,
            declared_support: DeclaredSupport::Conditional,
            measurement: AdapterMeasurement::Partial(GapCode::DynamicDispatch),
            precision: EvidencePrecision::ExactRange,
            file_denominator: false,
        },
    );
    r.push(
        CapabilityPolicy {
            capability: AnalysisCapability::TypeRelations,
            declared_support: DeclaredSupport::Conditional,
            measurement: AdapterMeasurement::Partial(GapCode::MissingTypeMetadata),
            precision: EvidencePrecision::Symbol,
            file_denominator: false,
        },
    );
    r.push(overrides);
    r.push(
        CapabilityPolicy {
            capability: AnalysisCapability::OrmQuery,
            declared_support: DeclaredSupport::Conditional,
            measurement: AdapterMeasurement::Full,
            precision: EvidencePrecision::ExactRange,
            file_denominator: false,
        },
    );
    r.push(
        CapabilityPolicy {
            capability: AnalysisCapability::EventExternal,
            declared_support: DeclaredSupport::Unsupported,
            measurement: AdapterMeasurement::NotApplicable,
            precision: EvidencePrecision::Absent,
            file_denominator: false,
        },
    );
    assert(r@ =~= spec_capability_policies(language));
    r
}


// ---------------------------------------------------------------------------
// Receipts
// ---------------------------------------------------------------------------

/// How far a capability was executed.
#[derive(Clone, Copy, Debug, PartialEq, Eq, Structural)]
pub enum CapabilityExecutionState {
    Complete,
    Partial,
    Failed,
    NotRun,
    NotApplicable,
}

/// How far a whole analysis unit was executed.
#[derive(Clone, Copy, Debug, PartialEq, Eq, Structural)]
pub enum AnalysisUnitState {
    Complete,
    Partial,
    Failed,
}

/// The number of items a capability's coverage is counted against.
#[derive(Clone, Copy, Debug, PartialEq, Eq, Structural)]
pub enum CoverageDenominator {
    Known { eligible_count: u64 },
    Unknown,
}

/// A gap of a unit, for one capability or (without one) for all.
#[derive(Clone, Copy, Debug, PartialEq, Eq, Structural)]
pub struct AnalysisGap {
    pub capability: Option<AnalysisCapability>,
    pub code: GapCode,
}

/// A count of relations for one capability.
#[derive(Clone, Copy, Debug, PartialEq, Eq, Structural)]
pub struct CapabilityCount {
    pub capability: AnalysisCapability,
    pub count: u64,
}

/// The independent import-site audit of one capability.
#[derive(Debug)]
pub struct ImportCapabilityAudit {
    pub eligible_count: u64,
    pub covered_count: u64,
    pub internal_relation_count: u64,
    pub known_external_count: u64,
    pub unresolved_count: u64,
    pub ambiguous_count: u64,
    pub invalid_evidence_count: u64,
    pub inventory_failed_files: Vec<RepositoryPath>,
    pub metadata_unavailable_files: Vec<RepositoryPath>,
    pub gap_codes: Vec<GapCode>,
}

impl ImportCapabilityAudit {
    pub open spec fn spec_truncated_count(&self) -> int {
        self.unresolved_count + self.ambiguous_count + self.invalid_evidence_count
    }

    pub open spec fn spec_denominator_is_known(&self) -> bool {
        self.inventory_failed_files@.len() == 0 && self.metadata_unavailable_files@.len() == 0
    }

    /// Sites that resolved to no single internal target.
    pub fn truncated_count(&self) -> (r: u64)
        requires
            self.spec_truncated_count() <= u64::MAX,
        ensures
            r == self.spec_truncated_count(),
    {
        self.unresolved_count + self.ambiguous_count + self.invalid_evidence_count
    }

    /// Every file's import sites could be enumerated and its metadata read.
    pub fn denominator_is_known(&self) -> (r: bool)
        ensures
            r == self.spec_denominator_is_known(),
    {
        self.inventory_failed_files.len() == 0 && self.metadata_unavailable_files.len() == 0
    }
}

/// The audit of one capability.
#[derive(Debug)]
pub struct CapabilityAuditEntry {
    pub capability: AnalysisCapability,
    pub audit: ImportCapabilityAudit,
}

/// The import-site audits of a unit, read by their first entry per capability.
#[derive(Debug)]
pub struct ImportAudit {
    pub capabilities: Vec<CapabilityAuditEntry>,
}

/// One capability receipt of a unit.
#[derive(Debug)]
pub struct CapabilityReceipt {
    pub unit_id: AnalysisUnitId,
    pub capability: AnalysisCapability,
    pub declared_support: DeclaredSupport,
    pub execution_state: CapabilityExecutionState,
    pub precision: EvidencePrecision,
    pub denominator: CoverageDenominator,
    pub covered_count: u64,
    pub emitted_fact_count: u64,
    pub emitted_relation_count: u64,
    pub truncated_count: u64,
    pub gap_codes: Vec<GapCode>,
}

/// A receipt by its plain values; its gap codes as a set.
pub struct ReceiptView {
    pub capability: AnalysisCapability,
    pub declared_support: DeclaredSupport,
    pub execution_state: CapabilityExecutionState,
    pub precision: EvidencePrecision,
    pub denominator: CoverageDenominator,
    pub covered_count: int,
    pub emitted_fact_count: int,
    pub emitted_relation_count: int,
    pub truncated_count: int,
    pub gap_codes: Set<GapCode>,
}

/// The position of a gap code in the order receipts list them.
pub open spec fn gap_rank(code: GapCode) -> nat {
    match code {
        GapCode::UnresolvedTarget => 0,
        GapCode::MissingDependencyMetadata => 1,
        GapCode::MissingProjectMetadata => 2,
        GapCode::MissingCompileContext => 3,
        GapCode::MissingTypeMetadata => 4,
        GapCode::DynamicDispatch => 5,
        GapCode::RuntimeRegistration => 6,
        GapCode::ProviderUnavailable => 7,
        GapCode::ProviderExecutionIncomplete => 8,
        GapCode::WorkspaceBudgetExceeded => 9,
        GapCode::QueryBudgetExceeded => 10,
        GapCode::GeneratedSourceMappingUnavailable => 11,
    }
}

/// `v` lists distinct gap codes in increasing order.
pub open spec fn gaps_in_order(v: Seq<GapCode>) -> bool {
    forall|i: int, j: int| 0 <= i < j < v.len() ==> gap_rank(#[trigger] v[i]) < gap_rank(#[trigger] v[j])
}

/// The receipt `r` is the receipt `v` for unit `unit`.
pub open spec fn receipt_is(r: CapabilityReceipt, unit: Seq<char>, v: ReceiptView) -> bool {
    &&& r.unit_id.value@ == unit
    &&& r.capability == v.capability
    &&& r.declared_support == v.declared_support
    &&& r.execution_state == v.execution_state
    &&& r.precision == v.precision
    &&& r.denominator == v.denominator
    &&& r.covered_count == v.covered_count
    &&& r.emitted_fact_count == v.emitted_fact_count
    &&& r.emitted_relation_count == v.emitted_relation_count
    &&& r.truncated_count == v.truncated_count
    &&& gaps_in_order(r.gap_codes@)
    &&& r.gap_codes@.to_set() == v.gap_codes
}

pub open spec fn count_at(c: AnalysisCapability) -> spec_fn(CapabilityCount) -> bool {
    |e: CapabilityCount| e.capability == c
}

pub open spec fn audit_at(c: AnalysisCapability) -> spec_fn(CapabilityAuditEntry) -> bool {
    |e: CapabilityAuditEntry| e.capability == c
}

/// The count listed for `c`, zero when none is.
pub open spec fn count_of(counts: Seq<CapabilityCount>, c: AnalysisCapability) -> int {
    match first_match(counts, count_at(c)) {
        Some(i) => counts[i].count as int,
        None => 0,
    }
}

/// The audit listed for `c`.
pub open spec fn audit_of(audit: ImportAudit, c: AnalysisCapability) -> Option<ImportCapabilityAudit> {
    match first_match(audit.capabilities@, audit_at(c)) {
        Some(i) => Some(audit.capabilities@[i].audit),
        None => None,
    }
}

pub open spec fn is_import_capability(c: AnalysisCapability) -> bool {
    c == AnalysisCapability::Imports || c == AnalysisCapability::Exports
}

/// The inputs a receipt is computed from.
pub struct ReceiptInputs {
    pub unit_state: AnalysisUnitState,
    pub file_count: u64,
    pub definition_count: u64,
    pub definition_eligible_count: u64,
    pub definition_covered_count: u64,
    pub omitted_definition_count: u64,
}

/// An import or export receipt: counted by the import-site audit, partial
/// when a site is unresolved or the denominator unknown.
pub open spec fn import_receipt(p: CapabilityPolicy, measured: ImportCapabilityAudit, emitted: int) -> ReceiptView {
    let incomplete = !measured.spec_denominator_is_known() || measured.spec_truncated_count() > 0;
    let codes = measured.gap_codes@.to_set();
    ReceiptView {
        capability: p.capability,
        declared_support: p.declared_support,
        execution_state: if incomplete {
            CapabilityExecutionState::Partial
        } else {
            CapabilityExecutionState::Complete
        },
        precision: EvidencePrecision::ExactRange,
        denominator: if measured.spec_denominator_is_known() {
            CoverageDenominator::Known { eligible_count: measured.eligible_count }
        } else {
            CoverageDenominator::Unknown
        },
        covered_count: measured.covered_count as int,
        emitted_fact_count: 0,
        emitted_relation_count: emitted,
        truncated_count: measured.spec_truncated_count(),
        gap_codes: if incomplete && codes == Set::<GapCode>::empty() {
            set![GapCode::ProviderExecutionIncomplete]
        } else {
            codes
        },
    }
}

/// The gap codes of `gaps` that concern capability `c`.
pub open spec fn unit_gap_codes(gaps: Seq<AnalysisGap>, c: AnalysisCapability) -> Set<GapCode> {
    Set::new(
        |code: GapCode|
            exists|i: int|
                0 <= i < gaps.len() && #[trigger] gaps[i].code == code && (gaps[i].capability is None
                    || gaps[i].capability == Some(c)),
    )
}

/// The execution state of a capability before the unit's state and the
/// truncated count are taken into account, with the gap it brings.
pub open spec fn measured_state(m: AdapterMeasurement) -> CapabilityExecutionState {
    match m {
        AdapterMeasurement::NotApplicable => CapabilityExecutionState::NotApplicable,
        AdapterMeasurement::Partial(_) => CapabilityExecutionState::Partial,
        AdapterMeasurement::Full => CapabilityExecutionState::Complete,
    }
}

pub open spec fn measured_gaps(m: AdapterMeasurement) -> Set<GapCode> {
    match m {
        AdapterMeasurement::Partial(code) => set![code],
        _ => Set::empty(),
    }
}

/// A receipt of any other capability. A failed unit fails every supported
/// capability that emitted nothing and leaves the others partial; a partial
/// unit makes a complete capability partial; truncation makes a complete
/// capability partial too. Complete and not-applicable receipts carry no
/// gap; failed, not-run and not-applicable receipts count nothing.
pub open spec fn other_receipt(
    p: CapabilityPolicy,
    inputs: ReceiptInputs,
    emitted_relations: Seq<CapabilityCount>,
    omitted_relations: Seq<CapabilityCount>,
    gaps: Seq<AnalysisGap>,
) -> ReceiptView {
    let c = p.capability;
    let is_definitions = c == AnalysisCapability::Definitions;
    let emitted_fact: int = if is_definitions { inputs.definition_count as int } else { 0 };
    let emitted_relation = count_of(emitted_relations, c);
    let truncated: int = if is_definitions {
        inputs.omitted_definition_count as int
    } else {
        count_of(omitted_relations, c)
    };
    let supported = p.declared_support != DeclaredSupport::Unsupported;
    let state0 = measured_state(p.measurement);
    let codes0 = unit_gap_codes(gaps, c).union(measured_gaps(p.measurement));
    let (state1, codes1) = if supported && inputs.unit_state == AnalysisUnitState::Failed {
        (
            if emitted_fact + emitted_relation > 0 {
                CapabilityExecutionState::Partial
            } else {
                CapabilityExecutionState::Failed
            },
            codes0.insert(GapCode::ProviderExecutionIncomplete),
        )
    } else if supported && inputs.unit_state == AnalysisUnitState::Partial && state0
        == CapabilityExecutionState::Complete {
        (CapabilityExecutionState::Partial, codes0.insert(GapCode::ProviderExecutionIncomplete))
    } else {
        (state0, codes0)
    };
    let (state, codes) = if supported && truncated > 0 && state1 == CapabilityExecutionState::Complete {
        (CapabilityExecutionState::Partial, codes1.insert(GapCode::UnresolvedTarget))
    } else {
        (state1, codes1)
    };
    let quiet = state == CapabilityExecutionState::Complete || state
        == CapabilityExecutionState::NotApplicable;
    let counts_nothing = state == CapabilityExecutionState::Failed || state
        == CapabilityExecutionState::NotRun || state == CapabilityExecutionState::NotApplicable;
    let covered: int = if c == AnalysisCapability::ProjectStructure {
        inputs.file_count as int
    } else if is_definitions {
        inputs.definition_covered_count as int
    } else {
        emitted_relation
    };
    ReceiptView {
        capability: c,
        declared_support: p.declared_support,
        execution_state: state,
        precision: if state == CapabilityExecutionState::Complete || state
            == CapabilityExecutionState::Partial {
            p.precision
        } else {
            EvidencePrecision::Absent
        },
        denominator: if is_definitions {
            CoverageDenominator::Known { eligible_count: inputs.definition_eligible_count }
        } else if p.file_denominator {
            CoverageDenominator::Known { eligible_count: inputs.file_count }
        } else {
            CoverageDenominator::Unknown
        },
        covered_count: if counts_nothing { 0 } else { covered },
        emitted_fact_count: if counts_nothing { 0 } else { emitted_fact },
        emitted_relation_count: if counts_nothing { 0 } else { emitted_relation },
        truncated_count: if counts_nothing { 0 } else { truncated },
        gap_codes: if quiet { Set::empty() } else { codes },
    }
}

/// Whether the receipt of policy `p` can be issued: a supported import or
/// export capability needs its audit, and the relations it emitted must be
/// exactly the internal relations the audit counted.
pub open spec fn receipt_is_consistent(
    p: CapabilityPolicy,
    emitted_relations: Seq<CapabilityCount>,
    audit: ImportAudit,
) -> bool {
    is_import_capability(p.capability) && p.declared_support != DeclaredSupport::Unsupported ==> match audit_of(audit, p.capability) {
        Some(measured) => count_of(emitted_relations, p.capability) == measured.internal_relation_count,
        None => false,
    }
}

/// The receipt of policy `p` (when consistent).
pub open spec fn spec_receipt(
    p: CapabilityPolicy,
    inputs: ReceiptInputs,
    emitted_relations: Seq<CapabilityCount>,
    omitted_relations: Seq<CapabilityCount>,
    audit: ImportAudit,
    gaps: Seq<AnalysisGap>,
) -> ReceiptView {
    if is_import_capability(p.capability) && p.declared_support != DeclaredSupport::Unsupported {
        import_receipt(p, audit_of(audit, p.capability)->0, count_of(emitted_relations, p.capability))
    } else {
        other_receipt(p, inputs, emitted_relations, omitted_relations, gaps)
    }
}


fn count_lookup(counts: &[CapabilityCount], c: AnalysisCapability) -> (r: u64)
    ensures
        r == count_of(counts@, c),
{
    let mut i: usize = 0;
    while i < counts.len()
        invariant
            i <= counts.len(),
            forall|j: int| 0 <= j < i ==> !count_at(c)(#[trigger] counts@[j]),
        decreases counts.len() - i,
    {
        if counts[i].capability == c {
            proof {
                lemma_first_match(counts@, count_at(c), i as int);
            }
            return counts[i].count;
        }
        i += 1;
    }
    proof {
        lemma_no_match(counts@, count_at(c));
    }
    0
}

pub(crate) fn find_audit(audit: &ImportAudit, c: AnalysisCapability) -> (r: Option<usize>)
    ensures
        match r {
            Some(i) => i < audit.capabilities@.len() && first_match(audit.capabilities@, audit_at(c)) == Some(i as int),
            None => first_match(audit.capabilities@, audit_at(c)) is None,
        },
{
    let t = &audit.capabilities;
    let mut i: usize = 0;
    while i < t.len()
        invariant
            i <= t.len(),
            t@ == audit.capabilities@,
            forall|j: int| 0 <= j < i ==> !audit_at(c)(#[trigger] t@[j]),
        decreases t.len() - i,
    {
        if t[i].capability == c {
            proof {
                lemma_first_match(t@, audit_at(c), i as int);
            }
            return Some(i);
        }
        i += 1;
    }
    proof {
        lemma_no_match(t@, audit_at(c));
    }
    None
}

fn contains_gap(v: &[GapCode], code: GapCode) -> (r: bool)
    ensures
        r == v@.contains(code),
{
    let mut i: usize = 0;
    while i < v.len()
        invariant
            i <= v.len(),
            forall|j: int| 0 <= j < i ==> v@[j] != code,
        decreases v.len() - i,
    {
        if v[i] == code {
            return true;
        }
        i += 1;
    }
    false
}

/// The distinct gap codes of `v` in receipt order.
pub fn canonical_gaps(v: &[GapCode]) -> (r: Vec<GapCode>)
    ensures
        gaps_in_order(r@),
        r@.to_set() == v@.to_set(),
{
    let order: [GapCode; 12] = [
        GapCode::UnresolvedTarget,
        GapCode::MissingDependencyMetadata,
        GapCode::MissingProjectMetadata,
        GapCode::MissingCompileContext,
        GapCode::MissingTypeMetadata,
        GapCode::DynamicDispatch,
        GapCode::RuntimeRegistration,
        GapCode::ProviderUnavailable,
        GapCode::ProviderExecutionIncomplete,
        GapCode::WorkspaceBudgetExceeded,
        GapCode::QueryBudgetExceeded,
        GapCode::GeneratedSourceMappingUnavailable,
    ];
    assert(forall|k: int| 0 <= k < 12 ==> gap_rank(#[trigger] order@[k]) == k);
    let mut out: Vec<GapCode> = Vec::new();
    let mut k: usize = 0;
    while k < 12
        invariant
            k <= 12,
            forall|m: int| 0 <= m < 12 ==> gap_rank(#[trigger] order@[m]) == m,
            gaps_in_order(out@),
            forall|j: int| 0 <= j < out@.len() ==> gap_rank(#[trigger] out@[j]) < k,
            forall|g: GapCode| out@.to_set().contains(g) <==> (v@.contains(g) && gap_rank(g) < k),
        decreases 12 - k,
    {
        let code = order[k];
        let ghost prev = out@;
        if contains_gap(v, code) {
            out.push(code);
            proof {
                crate::text::lemma_push_to_set(prev, code);
            }
        }
        proof {
            assert forall|g: GapCode| out@.to_set().contains(g) <==> (v@.contains(g) && gap_rank(g) < k + 1) by {
                if gap_rank(g) == k {
                    assert(g == code) by {
                        assert(gap_rank(order@[k as int]) == k);
                    }
                }
            }
        }
        k += 1;
    }
    assert forall|g: GapCode| out@.to_set().contains(g) <==> v@.to_set().contains(g) by {
        assert(gap_rank(g) < 12);
    }
    assert(out@.to_set() =~= v@.to_set());
    out
}


pub(crate) fn decimal_u64(n: u64) -> (r: Vec<char>)
    ensures
        r@ == crate::schedule::spec_decimal(n as nat),
    decreases n,
{
    if n < 10 {
        let mut v: Vec<char> = Vec::new();
        v.push(crate::schedule::digit_char(n as usize));
        assert(v@ =~= seq![crate::schedule::spec_digit_char(n as int)]);
        v
    } else {
        let mut v = decimal_u64(n / 10);
        v.push(crate::schedule::digit_char((n % 10) as usize));
        v
    }
}

/// The wire name of a capability.
pub fn capability_name(c: AnalysisCapability) -> (r: &'static str)
    ensures
        r@ == spec_capability_name(c),
{
    match c {
        AnalysisCapability::ProjectStructure => "project_structure",
        AnalysisCapability::Definitions => "definitions",
        AnalysisCapability::Imports => "imports",
        AnalysisCapability::Exports => "exports",
        AnalysisCapability::DirectCalls => "direct_calls",
        AnalysisCapability::TypeRelations => "type_relations",
        AnalysisCapability::Overrides => "overrides",
        AnalysisCapability::OrmQuery => "orm_query",
        AnalysisCapability::EventExternal => "event_external",
        AnalysisCapability::FrameworkBindings => "framework_bindings",
    }
}

pub open spec fn spec_capability_name(c: AnalysisCapability) -> Seq<char> {
    match c {
        AnalysisCapability::ProjectStructure => "project_structure"@,
        AnalysisCapability::Definitions => "definitions"@,
        AnalysisCapability::Imports => "imports"@,
        AnalysisCapability::Exports => "exports"@,
        AnalysisCapability::DirectCalls => "direct_calls"@,
        AnalysisCapability::TypeRelations => "type_relations"@,
        AnalysisCapability::Overrides => "overrides"@,
        AnalysisCapability::OrmQuery => "orm_query"@,
        AnalysisCapability::EventExternal => "event_external"@,
        AnalysisCapability::FrameworkBindings => "framework_bindings"@,
    }
}

fn mismatch_message(c: AnalysisCapability, emitted: u64, audited: u64) -> (r: String)
    ensures
        r@ == spec_capability_name(c)
            + " emitted relation count does not match its import-site audit: emitted="@
            + crate::schedule::spec_decimal(emitted as nat) + " audited="@
            + crate::schedule::spec_decimal(audited as nat),
{
    let a = crate::text::concat(capability_name(c), " emitted relation count does not match its import-site audit: emitted=");
    let e = decimal_u64(emitted);
    let es = crate::text::string_of(e.as_slice());
    let b = crate::text::concat(a.as_str(), es.as_str());
    let c2 = crate::text::concat(b.as_str(), " audited=");
    let d = decimal_u64(audited);
    let ds = crate::text::string_of(d.as_slice());
    crate::text::concat(c2.as_str(), ds.as_str())
}

fn missing_audit_message(c: AnalysisCapability, unit_id: &AnalysisUnitId) -> (r: String)
    ensures
        r@ == "missing independent "@ + spec_capability_name(c) + " audit for "@ + unit_id.value@,
{
    let a = crate::text::concat("missing independent ", capability_name(c));
    let b = crate::text::concat(a.as_str(), " audit for ");
    crate::text::concat(b.as_str(), unit_id.as_str())
}

proof fn lemma_set_empty_iff_no_items(v: Seq<GapCode>)
    ensures
        (v.to_set() == Set::<GapCode>::empty()) <==> v.len() == 0,
{
    if v.len() > 0 {
        assert(v.to_set().contains(v[0]));
    } else {
        assert(v.to_set() =~= Set::<GapCode>::empty());
    }
}

/// The receipt of one policy, or the reason it cannot be issued.
fn receipt_for(
    p: CapabilityPolicy,
    unit_id: &AnalysisUnitId,
    inputs: &ReceiptInputs,
    emitted_relations: &[CapabilityCount],
    omitted_relations: &[CapabilityCount],
    import_audit: &ImportAudit,
    gaps: &[AnalysisGap],
) -> (r: Result<CapabilityReceipt, String>)
    requires
        forall|i: int|
            0 <= i < import_audit.capabilities@.len() ==> (#[trigger] import_audit.capabilities@[i]).audit.spec_truncated_count() <= u64::MAX,
    ensures
        match r {
            Ok(receipt) => receipt_is_consistent(p, emitted_relations@, *import_audit) && receipt_is(
                receipt,
                unit_id.value@,
                spec_receipt(p, *inputs, emitted_relations@, omitted_relations@, *import_audit, gaps@),
            ),
            Err(_) => !receipt_is_consistent(p, emitted_relations@, *import_audit),
        },
{
    let c = p.capability;
    let import_like = c == AnalysisCapability::Imports || c == AnalysisCapability::Exports;
    if import_like && p.declared_support != DeclaredSupport::Unsupported {
        let i = match find_audit(import_audit, c) {
            None => {
                return Err(missing_audit_message(c, unit_id));
            },
            Some(i) => i,
        };
        let measured = &import_audit.capabilities[i].audit;
        let emitted_relation_count = count_lookup(emitted_relations, c);
        if emitted_relation_count != measured.internal_relation_count {
            return Err(mismatch_message(c, emitted_relation_count, measured.internal_relation_count));
        }
        let known = measured.denominator_is_known();
        let truncated_count = measured.truncated_count();
        let incomplete = !known || truncated_count > 0;
        let mut gap_codes = canonical_gaps(measured.gap_codes.as_slice());
        proof {
            lemma_set_empty_iff_no_items(gap_codes@);
        }
        if incomplete && gap_codes.len() == 0 {
            gap_codes.push(GapCode::ProviderExecutionIncomplete);
            assert(gap_codes@ =~= seq![GapCode::ProviderExecutionIncomplete]);
            assert(gap_codes@.to_set() =~= set![GapCode::ProviderExecutionIncomplete]) by {
                crate::text::lemma_push_to_set(Seq::<GapCode>::empty(), GapCode::ProviderExecutionIncomplete);
                assert(Seq::<GapCode>::empty().to_set() =~= Set::<GapCode>::empty());
                assert(Seq::<GapCode>::empty().push(GapCode::ProviderExecutionIncomplete) =~= gap_codes@);
            }
        }
        return Ok(
            CapabilityReceipt {
                unit_id: unit_id.duplicate(),
                capability: c,
                declared_support: p.declared_support,
                execution_state: if incomplete {
                    CapabilityExecutionState::Partial
                } else {
                    CapabilityExecutionState::Complete
                },
                precision: EvidencePrecision::ExactRange,
                denominator: if known {
                    CoverageDenominator::Known { eligible_count: measured.eligible_count }
                } else {
                    CoverageDenominator::Unknown
                },
                covered_count: measured.covered_count,
                emitted_fact_count: 0,
                emitted_relation_count,
                truncated_count,
                gap_codes,
            },
        );
    }
    let is_definitions = c == AnalysisCapability::Definitions;
    let emitted_fact_count: u64 = if is_definitions {
        inputs.definition_count
    } else {
        0
    };
    let emitted_relation_count = count_lookup(emitted_relations, c);
    let truncated_count: u64 = if is_definitions {
        inputs.omitted_definition_count
    } else {
        count_lookup(omitted_relations, c)
    };
    let supported = p.declared_support != DeclaredSupport::Unsupported;
    let mut codes: Vec<GapCode> = Vec::new();
    let mut k: usize = 0;
    while k < gaps.len()
        invariant
            k <= gaps.len(),
            codes@.to_set() == unit_gap_codes(gaps@.take(k as int), c),
        decreases gaps.len() - k,
    {
        let gap = gaps[k];
        let concerns = match gap.capability {
            None => true,
            Some(x) => x == c,
        };
        let ghost prev = codes@;
        if concerns {
            codes.push(gap.code);
            proof {
                crate::text::lemma_push_to_set(prev, gap.code);
            }
        }
        proof {
            assert forall|code: GapCode| codes@.to_set().contains(code) <==> unit_gap_codes(gaps@.take(k + 1), c).contains(code) by {
                if unit_gap_codes(gaps@.take(k + 1), c).contains(code) {
                    let i = choose|i: int|
                        0 <= i < gaps@.take(k + 1).len() && #[trigger] gaps@.take(k + 1)[i].code == code && (gaps@.take(k + 1)[i].capability is None
                            || gaps@.take(k + 1)[i].capability == Some(c));
                    if i < k {
                        assert(gaps@.take(k as int)[i] == gaps@.take(k + 1)[i]);
                        assert(unit_gap_codes(gaps@.take(k as int), c).contains(code));
                    }
                }
                if prev.to_set().contains(code) {
                    let i = choose|i: int|
                        0 <= i < gaps@.take(k as int).len() && #[trigger] gaps@.take(k as int)[i].code == code && (gaps@.take(k as int)[i].capability is None
                            || gaps@.take(k as int)[i].capability == Some(c));
                    assert(gaps@.take(k + 1)[i] == gaps@.take(k as int)[i]);
                }
                if codes@.to_set().contains(code) && !prev.to_set().contains(code) {
                    assert(gaps@.take(k + 1)[k as int] == gap);
                }
            }
            assert(codes@.to_set() =~= unit_gap_codes(gaps@.take(k + 1), c));
        }
        k += 1;
    }
    assert(gaps@.take(gaps@.len() as int) =~= gaps@);
    let ghost base = codes@.to_set();
    let mut state = match p.measurement {
        AdapterMeasurement::NotApplicable => CapabilityExecutionState::NotApplicable,
        AdapterMeasurement::Partial(code) => {
            let ghost prev = codes@;
            codes.push(code);
            proof {
                crate::text::lemma_push_to_set(prev, code);
            }
            CapabilityExecutionState::Partial
        },
        AdapterMeasurement::Full => CapabilityExecutionState::Complete,
    };
    assert(codes@.to_set() =~= base.union(measured_gaps(p.measurement)));
    if supported {
        if inputs.unit_state == AnalysisUnitState::Failed {
            state = if emitted_fact_count > 0 || emitted_relation_count > 0 {
                CapabilityExecutionState::Partial
            } else {
                CapabilityExecutionState::Failed
            };
            let ghost prev = codes@;
            codes.push(GapCode::ProviderExecutionIncomplete);
            proof {
                crate::text::lemma_push_to_set(prev, GapCode::ProviderExecutionIncomplete);
            }
        } else if inputs.unit_state == AnalysisUnitState::Partial && state
            == CapabilityExecutionState::Complete {
            state = CapabilityExecutionState::Partial;
            let ghost prev = codes@;
            codes.push(GapCode::ProviderExecutionIncomplete);
            proof {
                crate::text::lemma_push_to_set(prev, GapCode::ProviderExecutionIncomplete);
            }
        }
        if truncated_count > 0 && state == CapabilityExecutionState::Complete {
            state = CapabilityExecutionState::Partial;
            let ghost prev = codes@;
            codes.push(GapCode::UnresolvedTarget);
            proof {
                crate::text::lemma_push_to_set(prev, GapCode::UnresolvedTarget);
            }
        }
    }
    let quiet = state == CapabilityExecutionState::Complete || state
        == CapabilityExecutionState::NotApplicable;
    if quiet {
        codes = Vec::new();
        assert(codes@.to_set() =~= Set::<GapCode>::empty());
    }
    let counts_nothing = state == CapabilityExecutionState::Failed || state
        == CapabilityExecutionState::NotRun || state == CapabilityExecutionState::NotApplicable;
    let covered: u64 = if c == AnalysisCapability::ProjectStructure {
        inputs.file_count
    } else if is_definitions {
        inputs.definition_covered_count
    } else {
        emitted_relation_count
    };
    let gap_codes = canonical_gaps(codes.as_slice());
    Ok(
        CapabilityReceipt {
            unit_id: unit_id.duplicate(),
            capability: c,
            declared_support: p.declared_support,
            execution_state: state,
            precision: if state == CapabilityExecutionState::Complete || state
                == CapabilityExecutionState::Partial {
                p.precision
            } else {
                EvidencePrecision::Absent
            },
            denominator: if is_definitions {
                CoverageDenominator::Known { eligible_count: inputs.definition_eligible_count }
            } else if p.file_denominator {
                CoverageDenominator::Known { eligible_count: inputs.file_count }
            } else {
                CoverageDenominator::Unknown
            },
            covered_count: if counts_nothing { 0 } else { covered },
            emitted_fact_count: if counts_nothing { 0 } else { emitted_fact_count },
            emitted_relation_count: if counts_nothing { 0 } else { emitted_relation_count },
            truncated_count: if counts_nothing { 0 } else { truncated_count },
            gap_codes,
        },
    )
}


/// The capability receipts of one unit, one per policy of its language in
/// capability order. Fails when a supported import or export capability has
/// no audit, or emitted a different number of relations than it audited.
pub fn build_capability_receipts(
    unit_id: &AnalysisUnitId,
    language: ProgrammingLanguage,
    protocol: ProviderProtocol,
    unit_state: AnalysisUnitState,
    file_count: u64,
    definition_count: u64,
    definition_eligible_count: u64,
    definition_covered_count: u64,
    omitted_definition_count: u64,
    emitted_relations: &[CapabilityCount],
    omitted_relations: &[CapabilityCount],
    import_audit: &ImportAudit,
    gaps: &[AnalysisGap],
) -> (r: Result<Vec<CapabilityReceipt>, String>)
    requires
        forall|i: int|
            0 <= i < import_audit.capabilities@.len() ==> (#[trigger] import_audit.capabilities@[i]).audit.spec_truncated_count() <= u64::MAX,
    ensures
        (r is Ok) <==> forall|i: int|
            0 <= i < spec_capability_policies(language).len() ==> receipt_is_consistent(
                #[trigger] spec_capability_policies(language)[i],
                emitted_relations@,
                *import_audit,
            ),
        match r {
            Ok(receipts) => receipts@.len() == spec_capability_policies(language).len() && forall|i: int|
                0 <= i < receipts@.len() ==> receipt_is(
                    #[trigger] receipts@[i],
                    unit_id.value@,
                    spec_receipt(
                        spec_capability_policies(language)[i],
                        (ReceiptInputs {
                            unit_state,
                            file_count,
                            definition_count,
                            definition_eligible_count,
                            definition_covered_count,
                            omitted_definition_count,
                        }),
                        emitted_relations@,
                        omitted_relations@,
                        *import_audit,
                        gaps@,
                    ),
                ),
            Err(_) => true,
        },
{
    let inputs = ReceiptInputs {
        unit_state,
        file_count,
        definition_count,
        definition_eligible_count,
        definition_covered_count,
        omitted_definition_count,
    };
    let policies = capability_policies(language, protocol);
    let mut receipts: Vec<CapabilityReceipt> = Vec::new();
    let mut i: usize = 0;
    while i < policies.len()
        invariant
            i <= policies.len(),
            policies@ == spec_capability_policies(language),
            inputs == (ReceiptInputs {
                unit_state,
                file_count,
                definition_count,
                definition_eligible_count,
                definition_covered_count,
                omitted_definition_count,
            }),
            forall|j: int|
                0 <= j < import_audit.capabilities@.len() ==> (#[trigger] import_audit.capabilities@[j]).audit.spec_truncated_count() <= u64::MAX,
            receipts@.len() == i,
            forall|j: int|
                0 <= j < i ==> receipt_is_consistent(
                    #[trigger] policies@[j],
                    emitted_relations@,
                    *import_audit,
                ),
            forall|j: int|
                0 <= j < i ==> receipt_is(
                    #[trigger] receipts@[j],
                    unit_id.value@,
                    spec_receipt(policies@[j], inputs, emitted_relations@, omitted_relations@, *import_audit, gaps@),
                ),
        decreases policies.len() - i,
    {
        match receipt_for(policies[i], unit_id, &inputs, emitted_relations, omitted_relations, import_audit, gaps) {
            Ok(receipt) => {
                receipts.push(receipt);
            },
            Err(message) => {
                return Err(message);
            },
        }
        i += 1;
    }
    Ok(receipts)
}

} // verus!
