//! The run-level receipts of a Language IR emission: the counts summed over
//! the emitted units, the unavailable units in order with a bounded sample,
//! and the check of the written artifact against the receipt.
use vstd::prelude::*;

use crate::capabilities::{gap_rank, AnalysisUnitState};
use crate::census::language_rank;
use crate::definition_audit::{
    audit_field, audit_total, definition_audits_by_language, has_language, language_total, merge_definition_audits,
    DefinitionAuditCounts,
};
use crate::model::ProgrammingLanguage;
use crate::ordering::{first_n, insert_by, lemma_insert_by_at, lemma_sort_by_push, sort_by};
use crate::resolver::GapCode;
use crate::text::seq_lt;

verus! {

/// How many unavailable units a diagnostic receipt lists.
pub const UNAVAILABLE_SAMPLE_LIMIT: usize = 100;
/// How many definition-audit failures a diagnostic receipt lists.
pub const DEFINITION_AUDIT_SAMPLE_LIMIT: usize = 100;
/// How many definition-metadata entries a diagnostic receipt lists.
pub const DEFINITION_METADATA_AUDIT_SAMPLE_LIMIT: usize = 200;
/// How many import-audit entries a diagnostic receipt lists.
pub const IMPORT_AUDIT_SAMPLE_LIMIT: usize = 200;
/// How many type-relation audit entries a diagnostic receipt lists.
pub const TYPE_RELATION_AUDIT_SAMPLE_LIMIT: usize = 200;

/// What one emitted unit's stream holds.
#[derive(Clone, Copy, Debug)]
pub struct UnitCompletion {
    pub state: AnalysisUnitState,
    pub file_record_count: u64,
    pub definition_count: u64,
    pub relation_count: u64,
    pub evidence_count: u64,
    pub capability_receipt_count: u64,
    pub gap_count: u64,
    pub issue_count: u64,
}

/// The summary of one emitted unit.
#[derive(Clone, Debug)]
pub struct UnitEmissionSummary {
    pub unit_id: String,
    pub language: ProgrammingLanguage,
    pub record_count: u64,
    pub completion: UnitCompletion,
    pub omitted_definition_count: u64,
    pub omitted_relation_count: u64,
    pub definition_audit: DefinitionAuditCounts,
}

/// A unit of the plan that was not emitted, and why.
#[derive(Clone, Debug)]
pub struct UnavailableUnitReceipt {
    pub unit_id: String,
    pub language: ProgrammingLanguage,
    pub root: String,
    pub gap_code: GapCode,
}

/// The counts of a run's migration receipt.
#[derive(Clone, Copy, Debug)]
pub struct MigrationReceipt {
    pub emitted_unit_count: u64,
    pub unavailable_unit_count: u64,
    pub record_count: u64,
    pub file_record_count: u64,
    pub definition_count: u64,
    pub relation_count: u64,
    pub evidence_count: u64,
    pub capability_receipt_count: u64,
    pub gap_count: u64,
    pub issue_count: u64,
    pub omitted_definition_count: u64,
    pub omitted_relation_count: u64,
}

/// How long the run's merged audit lists are.
#[derive(Clone, Copy, Debug)]
pub struct AuditListLengths {
    pub definition_failures: usize,
    pub definition_metadata_entries: usize,
    pub import_entries: usize,
    pub type_relation_entries: usize,
}

/// The bounded part of a run's diagnostic receipt.
#[derive(Clone, Debug)]
pub struct DiagnosticReceipt {
    pub unavailable_unit_sample: Vec<UnavailableUnitReceipt>,
    pub details_truncated: bool,
}

/// The sum of `f` over the summaries.
pub open spec fn total(s: Seq<UnitEmissionSummary>, f: spec_fn(UnitEmissionSummary) -> nat) -> nat
    decreases s.len(),
{
    if s.len() == 0 {
        0
    } else {
        total(s.drop_last(), f) + f(s.last())
    }
}

pub proof fn lemma_total_prefix(s: Seq<UnitEmissionSummary>, f: spec_fn(UnitEmissionSummary) -> nat, i: int)
    requires
        0 <= i <= s.len(),
    ensures
        total(s.take(i), f) <= total(s, f),
    decreases s.len() - i,
{
    if i < s.len() {
        lemma_total_prefix(s, f, i + 1);
        assert(s.take(i + 1).drop_last() =~= s.take(i));
    } else {
        assert(s.take(i) =~= s);
    }
}

pub open spec fn records_of() -> spec_fn(UnitEmissionSummary) -> nat {
    |u: UnitEmissionSummary| u.record_count as nat
}

pub open spec fn file_records_of() -> spec_fn(UnitEmissionSummary) -> nat {
    |u: UnitEmissionSummary| u.completion.file_record_count as nat
}

pub open spec fn definitions_of() -> spec_fn(UnitEmissionSummary) -> nat {
    |u: UnitEmissionSummary| u.completion.definition_count as nat
}

pub open spec fn relations_of() -> spec_fn(UnitEmissionSummary) -> nat {
    |u: UnitEmissionSummary| u.completion.relation_count as nat
}

pub open spec fn evidence_of() -> spec_fn(UnitEmissionSummary) -> nat {
    |u: UnitEmissionSummary| u.completion.evidence_count as nat
}

pub open spec fn receipts_of() -> spec_fn(UnitEmissionSummary) -> nat {
    |u: UnitEmissionSummary| u.completion.capability_receipt_count as nat
}

pub open spec fn gaps_of() -> spec_fn(UnitEmissionSummary) -> nat {
    |u: UnitEmissionSummary| u.completion.gap_count as nat
}

pub open spec fn issues_of() -> spec_fn(UnitEmissionSummary) -> nat {
    |u: UnitEmissionSummary| u.completion.issue_count as nat
}

pub open spec fn omitted_definitions_of() -> spec_fn(UnitEmissionSummary) -> nat {
    |u: UnitEmissionSummary| u.omitted_definition_count as nat
}

pub open spec fn omitted_relations_of() -> spec_fn(UnitEmissionSummary) -> nat {
    |u: UnitEmissionSummary| u.omitted_relation_count as nat
}

/// Every sum a migration receipt reports fits its counter.
pub open spec fn totals_fit(s: Seq<UnitEmissionSummary>) -> bool {
    &&& total(s, records_of()) <= u64::MAX
    &&& total(s, file_records_of()) <= u64::MAX
    &&& total(s, definitions_of()) <= u64::MAX
    &&& total(s, relations_of()) <= u64::MAX
    &&& total(s, evidence_of()) <= u64::MAX
    &&& total(s, receipts_of()) <= u64::MAX
    &&& total(s, gaps_of()) <= u64::MAX
    &&& total(s, issues_of()) <= u64::MAX
    &&& total(s, omitted_definitions_of()) <= u64::MAX
    &&& total(s, omitted_relations_of()) <= u64::MAX
}

/// An unavailable unit by its plain values.
pub type UnavailableView = (Seq<char>, ProgrammingLanguage, Seq<char>, GapCode);

pub open spec fn unavailable_view(u: UnavailableUnitReceipt) -> UnavailableView {
    (u.unit_id@, u.language, u.root@, u.gap_code)
}

pub open spec fn unavailable_views(v: Seq<UnavailableUnitReceipt>) -> Seq<UnavailableView> {
    v.map_values(|u: UnavailableUnitReceipt| unavailable_view(u))
}

/// Unavailable units order by unit, language, root and gap.
pub open spec fn unavailable_lt() -> spec_fn(UnavailableView, UnavailableView) -> bool {
    |a: UnavailableView, b: UnavailableView|
        {
            ||| seq_lt(a.0, b.0)
            ||| a.0 == b.0 && language_rank(a.1) < language_rank(b.1)
            ||| a.0 == b.0 && a.1 == b.1 && seq_lt(a.2, b.2)
            ||| a.0 == b.0 && a.1 == b.1 && a.2 == b.2 && gap_rank(a.3) < gap_rank(b.3)
        }
}

pub(crate) fn language_index(l: ProgrammingLanguage) -> (r: u8)
    ensures
        r == language_rank(l),
{
    match l {
        ProgrammingLanguage::TypeScript => 0,
        ProgrammingLanguage::JavaScript => 1,
        ProgrammingLanguage::Python => 2,
        ProgrammingLanguage::Java => 3,
        ProgrammingLanguage::CSharp => 4,
        ProgrammingLanguage::C => 5,
        ProgrammingLanguage::Cpp => 6,
        ProgrammingLanguage::Go => 7,
        ProgrammingLanguage::Rust => 8,
        ProgrammingLanguage::Dart => 9,
    }
}

pub(crate) fn gap_index(code: GapCode) -> (r: u8)
    ensures
        r == gap_rank(code),
{
    match code {
        GapCode::UnresolvedTarget => 0,
        GapCode::MissingDependencyMetadata => 1,
        GapCode::MissingProjectMetadata => 2,
        GapCode::MissingCompileContext => 3,
        GapCode::MissingTypeMetadata => 4,
        GapCode::DynamicDispatch => 5,
        GapCode::RuntimeRegistration => 6,
        GapCode::ProviderUnavailable => 7,
        GapCode::ProviderExecutionIncomplete => 8,
        GapCode::WorkspaceBudgetExceeded => 9,
        GapCode::QueryBudgetExceeded => 10,
        GapCode::GeneratedSourceMappingUnavailable => 11,
    }
}

fn unavailable_less(a: &UnavailableUnitReceipt, b: &UnavailableUnitReceipt) -> (r: bool)
    ensures
        r == unavailable_lt()(unavailable_view(*a), unavailable_view(*b)),
{
    let ua = crate::text::chars_of(a.unit_id.as_str());
    let ub = crate::text::chars_of(b.unit_id.as_str());
    let c = crate::text::order_chars(ua.as_slice(), ub.as_slice());
    if c != 0 {
        return c < 0;
    }
    let la = language_index(a.language);
    let lb = language_index(b.language);
    if la != lb {
        return la < lb;
    }
    let ra = crate::text::chars_of(a.root.as_str());
    let rb = crate::text::chars_of(b.root.as_str());
    let d = crate::text::order_chars(ra.as_slice(), rb.as_slice());
    if d != 0 {
        return d < 0;
    }
    gap_index(a.gap_code) < gap_index(b.gap_code)
}

/// Places `x` after every unavailable unit it does not precede.
fn insert_unavailable(sorted: &mut Vec<UnavailableUnitReceipt>, x: UnavailableUnitReceipt)
    ensures
        unavailable_views(final(sorted)@) == insert_by(
            unavailable_views(old(sorted)@),
            unavailable_view(x),
            unavailable_lt(),
        ),
{
    let ghost views = unavailable_views(sorted@);
    let ghost xv = unavailable_view(x);
    let mut p: usize = sorted.len();
    loop
        invariant
            p <= sorted.len(),
            views == unavailable_views(sorted@),
            xv == unavailable_view(x),
            forall|k: int| p <= k < sorted.len() ==> unavailable_lt()(xv, #[trigger] views[k]),
        ensures
            p <= sorted.len(),
            forall|k: int| p <= k < sorted.len() ==> unavailable_lt()(xv, #[trigger] views[k]),
            p == 0 || !unavailable_lt()(xv, views[p - 1]),
        decreases p,
    {
        if p == 0 {
            break;
        }
        let before = unavailable_less(&x, &sorted[p - 1]);
        if !before {
            break;
        }
        p -= 1;
    }
    proof {
        lemma_insert_by_at(views, xv, unavailable_lt(), p as int);
    }
    sorted.insert(p, x);
    proof {
        assert(unavailable_views(sorted@) =~= views.insert(p as int, xv));
    }
}

/// The counts of a run's migration receipt and the bounded part of its
/// diagnostic receipt. Each count is the sum over the emitted units; the
/// unavailable units are listed in order, the first hundred as the sample;
/// details are truncated when any list is longer than its sample.
pub fn language_ir_receipts(
    summaries: &[UnitEmissionSummary],
    unavailable: Vec<UnavailableUnitReceipt>,
    audit_lengths: AuditListLengths,
) -> (r: (MigrationReceipt, DiagnosticReceipt))
    requires
        summaries.len() <= u64::MAX,
        unavailable.len() <= u64::MAX,
        totals_fit(summaries@),
    ensures
        r.0.emitted_unit_count == summaries.len(),
        r.0.unavailable_unit_count == unavailable.len(),
        r.0.record_count == total(summaries@, records_of()),
        r.0.file_record_count == total(summaries@, file_records_of()),
        r.0.definition_count == total(summaries@, definitions_of()),
        r.0.relation_count == total(summaries@, relations_of()),
        r.0.evidence_count == total(summaries@, evidence_of()),
        r.0.capability_receipt_count == total(summaries@, receipts_of()),
        r.0.gap_count == total(summaries@, gaps_of()),
        r.0.issue_count == total(summaries@, issues_of()),
        r.0.omitted_definition_count == total(summaries@, omitted_definitions_of()),
        r.0.omitted_relation_count == total(summaries@, omitted_relations_of()),
        unavailable_views(r.1.unavailable_unit_sample@) == first_n(
            sort_by(unavailable_views(unavailable@), unavailable_lt()),
            UNAVAILABLE_SAMPLE_LIMIT as nat,
        ),
        r.1.details_truncated == (unavailable.len() > UNAVAILABLE_SAMPLE_LIMIT
            || audit_lengths.definition_failures > DEFINITION_AUDIT_SAMPLE_LIMIT
            || audit_lengths.definition_metadata_entries > DEFINITION_METADATA_AUDIT_SAMPLE_LIMIT
            || audit_lengths.import_entries > IMPORT_AUDIT_SAMPLE_LIMIT
            || audit_lengths.type_relation_entries > TYPE_RELATION_AUDIT_SAMPLE_LIMIT),
{
    let ghost s = summaries@;
    let mut records: u64 = 0;
    let mut files: u64 = 0;
    let mut definitions: u64 = 0;
    let mut relations: u64 = 0;
    let mut evidence: u64 = 0;
    let mut receipts: u64 = 0;
    let mut gaps: u64 = 0;
    let mut issues: u64 = 0;
    let mut omitted_definitions: u64 = 0;
    let mut omitted_relations: u64 = 0;
    let mut i: usize = 0;
    proof {
        assert(s.take(0) =~= Seq::<UnitEmissionSummary>::empty());
    }
    while i < summaries.len()
        invariant
            s == summaries@,
            i <= s.len(),
            totals_fit(s),
            records == total(s.take(i as int), records_of()),
            files == total(s.take(i as int), file_records_of()),
            definitions == total(s.take(i as int), definitions_of()),
            relations == total(s.take(i as int), relations_of()),
            evidence == total(s.take(i as int), evidence_of()),
            receipts == total(s.take(i as int), receipts_of()),
            gaps == total(s.take(i as int), gaps_of()),
            issues == total(s.take(i as int), issues_of()),
            omitted_definitions == total(s.take(i as int), omitted_definitions_of()),
            omitted_relations == total(s.take(i as int), omitted_relations_of()),
        decreases s.len() - i,
    {
        let u = &summaries[i];
        proof {
            assert(s.take(i + 1).drop_last() =~= s.take(i as int));
            assert(s.take(i + 1).last() == s[i as int]);
            lemma_total_prefix(s, records_of(), i + 1);
            lemma_total_prefix(s, file_records_of(), i + 1);
            lemma_total_prefix(s, definitions_of(), i + 1);
            lemma_total_prefix(s, relations_of(), i + 1);
            lemma_total_prefix(s, evidence_of(), i + 1);
            lemma_total_prefix(s, receipts_of(), i + 1);
            lemma_total_prefix(s, gaps_of(), i + 1);
            lemma_total_prefix(s, issues_of(), i + 1);
            lemma_total_prefix(s, omitted_definitions_of(), i + 1);
            lemma_total_prefix(s, omitted_relations_of(), i + 1);
        }
        records = records + u.record_count;
        files = files + u.completion.file_record_count;
        definitions = definitions + u.completion.definition_count;
        relations = relations + u.completion.relation_count;
        evidence = evidence + u.completion.evidence_count;
        receipts = receipts + u.completion.capability_receipt_count;
        gaps = gaps + u.completion.gap_count;
        issues = issues + u.completion.issue_count;
        omitted_definitions = omitted_definitions + u.omitted_definition_count;
        omitted_relations = omitted_relations + u.omitted_relation_count;
        i += 1;
    }
    proof {
        assert(s.take(s.len() as int) =~= s);
    }
    let count = unavailable.len();
    let ghost uv = unavailable_views(unavailable@);
    let mut sorted: Vec<UnavailableUnitReceipt> = Vec::new();
    let mut rest = unavailable;
    let mut reversed: Vec<UnavailableUnitReceipt> = Vec::new();
    let ghost orig = rest@;
    while rest.len() > 0
        invariant
            rest.len() + reversed.len() == orig.len(),
            forall|k: int| 0 <= k < rest.len() ==> #[trigger] rest@[k] == orig[k],
            forall|k: int| 0 <= k < reversed.len() ==> #[trigger] reversed@[k] == orig[orig.len() - 1 - k],
        decreases rest.len(),
    {
        match rest.pop() {
            Some(x) => {
                reversed.push(x);
            },
            None => {},
        }
    }
    proof {
        assert(uv.take(0) =~= Seq::<UnavailableView>::empty());
    }
    while reversed.len() > 0
        invariant
            reversed.len() <= orig.len(),
            uv == unavailable_views(orig),
            forall|k: int| 0 <= k < reversed.len() ==> #[trigger] reversed@[k] == orig[orig.len() - 1 - k],
            unavailable_views(sorted@) == sort_by(uv.take(orig.len() - reversed.len()), unavailable_lt()),
        decreases reversed.len(),
    {
        let ghost m = orig.len() - reversed.len() + 1;
        match reversed.pop() {
            Some(x) => {
                proof {
                    assert(x == orig[m - 1]);
                    assert(uv.take(m) =~= uv.take(m - 1).push(unavailable_view(x)));
                    lemma_sort_by_push(uv.take(m - 1), unavailable_view(x), unavailable_lt());
                }
                insert_unavailable(&mut sorted, x);
            },
            None => {},
        }
    }
    proof {
        assert(uv.take(orig.len() as int) =~= uv);
    }
    let ghost sv = unavailable_views(sorted@);
    let limit = if sorted.len() < UNAVAILABLE_SAMPLE_LIMIT { sorted.len() } else { UNAVAILABLE_SAMPLE_LIMIT };
    let mut rest_sorted = sorted;
    let ghost all = rest_sorted@;
    let mut tail: Vec<UnavailableUnitReceipt> = Vec::new();
    while rest_sorted.len() > limit
        invariant
            limit <= rest_sorted.len() <= all.len(),
            forall|j: int| 0 <= j < rest_sorted.len() ==> #[trigger] rest_sorted@[j] == all[j],
        decreases rest_sorted.len(),
    {
        match rest_sorted.pop() {
            Some(x) => {
                tail.push(x);
            },
            None => {},
        }
    }
    proof {
        assert(unavailable_views(rest_sorted@) =~= first_n(sv, UNAVAILABLE_SAMPLE_LIMIT as nat));
    }
    let details_truncated = count > UNAVAILABLE_SAMPLE_LIMIT
        || audit_lengths.definition_failures > DEFINITION_AUDIT_SAMPLE_LIMIT
        || audit_lengths.definition_metadata_entries > DEFINITION_METADATA_AUDIT_SAMPLE_LIMIT
        || audit_lengths.import_entries > IMPORT_AUDIT_SAMPLE_LIMIT
        || audit_lengths.type_relation_entries > TYPE_RELATION_AUDIT_SAMPLE_LIMIT;
    (
        MigrationReceipt {
            emitted_unit_count: summaries.len() as u64,
            unavailable_unit_count: count as u64,
            record_count: records,
            file_record_count: files,
            definition_count: definitions,
            relation_count: relations,
            evidence_count: evidence,
            capability_receipt_count: receipts,
            gap_count: gaps,
            issue_count: issues,
            omitted_definition_count: omitted_definitions,
            omitted_relation_count: omitted_relations,
        },
        DiagnosticReceipt { unavailable_unit_sample: rest_sorted, details_truncated },
    )
}

/// Refuses an artifact whose record count differs from the receipt's.
pub fn check_artifact_count(artifact: u64, receipt: u64) -> (r: Result<(), String>)
    ensures
        r is Ok <==> artifact == receipt,
        r matches Err(message) ==> message@ == "Language IR artifact record count does not match receipt: artifact="@
            + crate::schedule::spec_decimal(artifact as nat) + " receipt="@ + crate::schedule::spec_decimal(receipt as nat),
{
    if artifact == receipt {
        return Ok(());
    }
    let a = crate::text::string_of(crate::capabilities::decimal_u64(artifact).as_slice());
    let b = crate::text::string_of(crate::capabilities::decimal_u64(receipt).as_slice());
    let m1 = crate::text::concat("Language IR artifact record count does not match receipt: artifact=", a.as_str());
    let m2 = crate::text::concat(m1.as_str(), " receipt=");
    Err(crate::text::concat(m2.as_str(), b.as_str()))
}


/// The definition audits of the summaries, in order.
pub open spec fn summary_audits(s: Seq<UnitEmissionSummary>) -> Seq<DefinitionAuditCounts> {
    s.map_values(|u: UnitEmissionSummary| u.definition_audit)
}

/// The definition audits of the summaries with their languages, in order.
pub open spec fn summary_language_audits(s: Seq<UnitEmissionSummary>) -> Seq<(ProgrammingLanguage, DefinitionAuditCounts)> {
    s.map_values(|u: UnitEmissionSummary| (u.language, u.definition_audit))
}

proof fn lemma_language_total_bounded(s: Seq<UnitEmissionSummary>, l: ProgrammingLanguage, k: int)
    ensures
        language_total(summary_language_audits(s), l, k) <= audit_total(summary_audits(s), k),
    decreases s.len(),
{
    if s.len() > 0 {
        lemma_language_total_bounded(s.drop_last(), l, k);
        assert(summary_language_audits(s).drop_last() =~= summary_language_audits(s.drop_last()));
        assert(summary_audits(s).drop_last() =~= summary_audits(s.drop_last()));
    }
}

/// The definition audit of a run and of each of its languages: every
/// counter summed over all emitted units, and, for each language with an
/// emitted unit, in language order, over that language's units.
pub fn definition_receipts(summaries: &[UnitEmissionSummary]) -> (r: (
    DefinitionAuditCounts,
    Vec<(ProgrammingLanguage, DefinitionAuditCounts)>,
))
    requires
        forall|k: int| 0 <= k < 15 ==> audit_total(summary_audits(summaries@), k) <= u64::MAX,
    ensures
        forall|k: int| 0 <= k < 15 ==> audit_field(r.0, k) == audit_total(summary_audits(summaries@), k),
        forall|i: int, j: int| 0 <= i < j < r.1@.len() ==> language_rank(r.1@[i].0) < language_rank(r.1@[j].0),
        forall|l: ProgrammingLanguage| has_language(r.1@, l) <==> has_language(summary_language_audits(summaries@), l),
        forall|i: int, k: int|
            0 <= i < r.1@.len() && 0 <= k < 15 ==> #[trigger] audit_field(r.1@[i].1, k) == language_total(
                summary_language_audits(summaries@),
                r.1@[i].0,
                k,
            ),
{
    let mut audits: Vec<DefinitionAuditCounts> = Vec::new();
    let mut pairs: Vec<(ProgrammingLanguage, DefinitionAuditCounts)> = Vec::new();
    let mut i: usize = 0;
    while i < summaries.len()
        invariant
            i <= summaries.len(),
            audits@ == summary_audits(summaries@).take(i as int),
            pairs@ == summary_language_audits(summaries@).take(i as int),
        decreases summaries.len() - i,
    {
        audits.push(summaries[i].definition_audit);
        pairs.push((summaries[i].language, summaries[i].definition_audit));
        i += 1;
        assert(audits@ =~= summary_audits(summaries@).take(i as int));
        assert(pairs@ =~= summary_language_audits(summaries@).take(i as int));
    }
    assert(audits@ =~= summary_audits(summaries@));
    assert(pairs@ =~= summary_language_audits(summaries@));
    proof {
        assert forall|l: ProgrammingLanguage, k: int| 0 <= k < 15 implies language_total(pairs@, l, k) <= u64::MAX by {
            lemma_language_total_bounded(summaries@, l, k);
        }
    }
    let merged = merge_definition_audits(audits.as_slice());
    let by_language = definition_audits_by_language(pairs.as_slice());
    (merged, by_language)
}

} // verus!
