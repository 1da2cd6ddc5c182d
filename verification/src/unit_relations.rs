//! The relation stage of a unit: each provider relation is classified
//! (type relations here, calls against call-site evidence), self-relations
//! are dropped, and the classified ones that find a source span become the
//! unit's relations; every capability counts what it emitted and omitted.
//! The span lookup between the two steps reads source files.
use vstd::prelude::*;

use crate::capabilities::CapabilityCount;
use crate::model::{AnalysisCapability, DispatchKind, EvidenceId, IrEndpoint, LanguageRelationKind, ProgrammingLanguage, ProviderSymbolId};
use crate::ordering::{insert_by, lemma_insert_by_at, lemma_sort_by_push, sort_by};
use crate::relations::{spec_endpoint_key, spec_provider_relation_capability, spec_relation_kind_rank, RelationOutput};
use crate::resolver::{target_view, TargetView};
use crate::type_classification::{
    spec_triage, triage_type_relation, triage_view, ProviderRelationClassificationContext, RelationTriage,
    TriageView,
};
use crate::text::seq_lt;
use crate::unit_records::capability_rank;

verus! {

/// What call-site classification made of a call relation.
#[derive(Debug)]
pub enum CallOutcome {
    /// No call site confirms it.
    Omitted,
    /// Confirmed, with its oriented endpoints, its kind and, when it differs
    /// from the relation's, the range of its evidence.
    Mapped { source: IrEndpoint, target: IrEndpoint, kind: LanguageRelationKind, evidence_range: Option<Vec<i32>> },
}

/// A relation after classification, before its span is looked up.
#[derive(Debug)]
pub enum PendingRelation {
    /// Not a provider relation, or a relation of an endpoint to itself.
    Skipped,
    /// Counted as omitted for the capability.
    Omitted { capability: AnalysisCapability },
    /// Classified for the capability; kept when its evidence range has a span.
    Candidate {
        capability: AnalysisCapability,
        source: IrEndpoint,
        target: IrEndpoint,
        kind: LanguageRelationKind,
        evidence_range: Vec<i32>,
        site_key: Option<String>,
    },
}

pub enum PendingView {
    Skipped,
    Omitted(AnalysisCapability),
    Candidate(AnalysisCapability, TargetView, TargetView, LanguageRelationKind, Seq<i32>, Option<Seq<char>>),
}

pub open spec fn pending_view(p: PendingRelation) -> PendingView {
    match p {
        PendingRelation::Skipped => PendingView::Skipped,
        PendingRelation::Omitted { capability } => PendingView::Omitted(capability),
        PendingRelation::Candidate { capability, source, target, kind, evidence_range, site_key } => PendingView::Candidate(
            capability,
            target_view(source),
            target_view(target),
            kind,
            evidence_range@,
            match site_key {
                Some(k) => Some(k@),
                None => None,
            },
        ),
    }
}

pub open spec fn pending_views(v: Seq<PendingRelation>) -> Seq<PendingView> {
    v.map_values(|p: PendingRelation| pending_view(p))
}

pub open spec fn call_view(c: CallOutcome) -> Option<(TargetView, TargetView, LanguageRelationKind, Option<Seq<i32>>)> {
    match c {
        CallOutcome::Omitted => None,
        CallOutcome::Mapped { source, target, kind, evidence_range } => Some(
            (
                target_view(source),
                target_view(target),
                kind,
                match evidence_range {
                    Some(r) => Some(r@),
                    None => None,
                },
            ),
        ),
    }
}

/// What classification makes of one relation.
pub open spec fn spec_pending(
    ctx: ProviderRelationClassificationContext,
    relation: RelationOutput,
    call: CallOutcome,
    aliases: Seq<(ProviderSymbolId, ProviderSymbolId)>,
    discarded: Seq<ProviderSymbolId>,
) -> PendingView {
    match spec_triage(ctx, relation, aliases, discarded) {
        TriageView::NotProviderRelation => PendingView::Skipped,
        TriageView::SelfRelation => PendingView::Skipped,
        TriageView::Omitted => PendingView::Omitted(spec_provider_relation_capability(relation.kind@)->0),
        TriageView::Classified(s, t, m) => PendingView::Candidate(
            AnalysisCapability::TypeRelations,
            s,
            t,
            m.0,
            match m.2 {
                Some(r) => r,
                None => relation.range@,
            },
            m.3,
        ),
        TriageView::CallRelation => match call_view(call) {
            None => PendingView::Omitted(AnalysisCapability::DirectCalls),
            Some((s, t, kind, range)) => if s == t {
                PendingView::Skipped
            } else {
                PendingView::Candidate(
                    AnalysisCapability::DirectCalls,
                    s,
                    t,
                    kind,
                    match range {
                        Some(r) => r,
                        None => relation.range@,
                    },
                    None,
                )
            },
        },
    }
}

fn same_target(a: &IrEndpoint, b: &IrEndpoint) -> (r: bool)
    ensures
        r == (target_view(*a) == target_view(*b)),
{
    match (a, b) {
        (IrEndpoint::NativeSymbol { symbol_id: x }, IrEndpoint::NativeSymbol { symbol_id: y }) => crate::text::str_eq(
            x.value.as_str(),
            y.value.as_str(),
        ),
        (IrEndpoint::File { path: x }, IrEndpoint::File { path: y }) => crate::text::str_eq(
            x.value.as_str(),
            y.value.as_str(),
        ),
        (
            IrEndpoint::Structure { unit_id: u, kind: k, qualified_name: n },
            IrEndpoint::Structure { unit_id: v, kind: l, qualified_name: m },
        ) => crate::text::str_eq(u.value.as_str(), v.value.as_str()) && *k == *l && crate::text::str_eq(
            n.as_str(),
            m.as_str(),
        ),
        _ => false,
    }
}

fn copy_range(r: &Vec<i32>) -> (c: Vec<i32>)
    ensures
        c@ == r@,
{
    let mut c: Vec<i32> = Vec::new();
    let mut i: usize = 0;
    while i < r.len()
        invariant
            i <= r.len(),
            c@ == r@.take(i as int),
        decreases r.len() - i,
    {
        c.push(r[i]);
        i += 1;
        assert(c@ =~= r@.take(i as int));
    }
    assert(r@.take(r.len() as int) =~= r@);
    c
}

/// Classifies each relation of a unit: `calls[i]` is what call-site
/// classification made of relation `i` when it is a call.
pub fn pending_unit_relations(
    relations: &[RelationOutput],
    calls: Vec<CallOutcome>,
    aliases: &[(ProviderSymbolId, ProviderSymbolId)],
    discarded_definition_ids: &[ProviderSymbolId],
    context: &ProviderRelationClassificationContext,
) -> (r: Vec<PendingRelation>)
    requires
        context.definitions.wf(),
        calls.len() == relations.len(),
    ensures
        r.len() == relations.len(),
        forall|i: int|
            0 <= i < relations.len() ==> pending_view(#[trigger] r@[i]) == spec_pending(
                *context,
                relations@[i],
                calls@[i],
                aliases@,
                discarded_definition_ids@,
            ),
{
    let ghost cs = calls@;
    let mut out: Vec<PendingRelation> = Vec::new();
    let mut rest = calls;
    let mut reversed: Vec<CallOutcome> = Vec::new();
    while rest.len() > 0
        invariant
            rest.len() + reversed.len() == cs.len(),
            forall|k: int| 0 <= k < rest.len() ==> #[trigger] rest@[k] == cs[k],
            forall|k: int| 0 <= k < reversed.len() ==> #[trigger] reversed@[k] == cs[cs.len() - 1 - k],
        decreases rest.len(),
    {
        match rest.pop() {
            Some(x) => {
                reversed.push(x);
            },
            None => {},
        }
    }
    let mut i: usize = 0;
    while i < relations.len()
        invariant
            context.definitions.wf(),
            cs.len() == relations.len(),
            i <= relations.len(),
            reversed.len() == cs.len() - i,
            forall|k: int| 0 <= k < reversed.len() ==> #[trigger] reversed@[k] == cs[cs.len() - 1 - k],
            out.len() == i,
            forall|k: int|
                0 <= k < i ==> pending_view(#[trigger] out@[k]) == spec_pending(
                    *context,
                    relations@[k],
                    cs[k],
                    aliases@,
                    discarded_definition_ids@,
                ),
        decreases relations.len() - i,
    {
        let call = match reversed.pop() {
            Some(c) => c,
            None => CallOutcome::Omitted,
        };
        proof {
            assert(call == cs[i as int]);
        }
        let relation = &relations[i];
        let triage = triage_type_relation(relation, aliases, discarded_definition_ids, context);
        let pending = match triage {
            RelationTriage::NotProviderRelation => PendingRelation::Skipped,
            RelationTriage::SelfRelation => PendingRelation::Skipped,
            RelationTriage::Omitted => {
                let capability = match crate::relations::provider_relation_capability(relation.kind.as_str()) {
                    Some(c) => c,
                    None => AnalysisCapability::TypeRelations,
                };
                PendingRelation::Omitted { capability }
            },
            RelationTriage::Classified { source, target, mapping } => {
                let evidence_range = match &mapping.evidence_range {
                    Some(r) => copy_range(r),
                    None => copy_range(&relation.range),
                };
                PendingRelation::Candidate {
                    capability: AnalysisCapability::TypeRelations,
                    source,
                    target,
                    kind: mapping.kind,
                    evidence_range,
                    site_key: mapping.matched_explicit_site_key,
                }
            },
            RelationTriage::CallRelation => match call {
                CallOutcome::Omitted => PendingRelation::Omitted { capability: AnalysisCapability::DirectCalls },
                CallOutcome::Mapped { source, target, kind, evidence_range } => {
                    if same_target(&source, &target) {
                        PendingRelation::Skipped
                    } else {
                        let range = match evidence_range {
                            Some(r) => r,
                            None => copy_range(&relation.range),
                        };
                        PendingRelation::Candidate {
                            capability: AnalysisCapability::DirectCalls,
                            source,
                            target,
                            kind,
                            evidence_range: range,
                            site_key: None,
                        }
                    }
                },
            },
        };
        out.push(pending);
        i += 1;
    }
    out
}

} // verus!

verus! {

/// A relation of the unit, with its dispatch and the evidence of its span.
#[derive(Debug)]
pub struct UnitRelation {
    pub source: IrEndpoint,
    pub target: IrEndpoint,
    pub kind: LanguageRelationKind,
    pub dispatch: DispatchKind,
    pub evidence_id: EvidenceId,
}

/// The unit's relations in order, the counts of what each capability
/// emitted and omitted (capabilities with a count, in order), and the
/// explicit type-relation sites the emitted relations matched.
#[derive(Debug)]
pub struct ClassifiedRelations {
    pub relations: Vec<UnitRelation>,
    pub emitted: Vec<CapabilityCount>,
    pub omitted: Vec<CapabilityCount>,
    pub matched_site_keys: Vec<String>,
}

/// A call is dispatched unknown, a construction directly; other relations
/// have no dispatch.
pub open spec fn dispatch_of(kind: LanguageRelationKind) -> DispatchKind {
    match kind {
        LanguageRelationKind::Calls => DispatchKind::Unknown,
        LanguageRelationKind::Constructs => DispatchKind::Direct,
        _ => DispatchKind::NotApplicable,
    }
}

pub type UnitRelationView = (TargetView, TargetView, LanguageRelationKind, DispatchKind, Seq<char>);

pub open spec fn unit_relation_view(r: UnitRelation) -> UnitRelationView {
    (target_view(r.source), target_view(r.target), r.kind, r.dispatch, r.evidence_id.value@)
}

pub open spec fn unit_relation_views(v: Seq<UnitRelation>) -> Seq<UnitRelationView> {
    v.map_values(|r: UnitRelation| unit_relation_view(r))
}

/// The sort text of an endpoint.
pub open spec fn view_key(v: TargetView) -> Seq<char> {
    match v {
        TargetView::Symbol(s) => "symbol:"@ + s,
        TargetView::File(p) => "file:"@ + p,
        TargetView::Structure(u, k, q) => "structure:"@ + u + ":"@ + crate::model::spec_kind_name(k) + ":"@ + q,
    }
}

/// Relations order by source, target, kind and evidence.
pub open spec fn unit_relation_lt() -> spec_fn(UnitRelationView, UnitRelationView) -> bool {
    |a: UnitRelationView, b: UnitRelationView|
        {
            ||| seq_lt(view_key(a.0), view_key(b.0))
            ||| view_key(a.0) == view_key(b.0) && seq_lt(view_key(a.1), view_key(b.1))
            ||| view_key(a.0) == view_key(b.0) && view_key(a.1) == view_key(b.1) && spec_relation_kind_rank(a.2)
                < spec_relation_kind_rank(b.2)
            ||| view_key(a.0) == view_key(b.0) && view_key(a.1) == view_key(b.1) && spec_relation_kind_rank(a.2)
                == spec_relation_kind_rank(b.2) && seq_lt(a.4, b.4)
        }
}

pub open spec fn evidence_views(v: Seq<Option<EvidenceId>>) -> Seq<Option<Seq<char>>> {
    v.map_values(
        |e: Option<EvidenceId>|
            match e {
                Some(x) => Some(x.value@),
                None => None,
            },
    )
}

/// The relations the first `n` pending relations give, in order.
pub open spec fn emitted_records(p: Seq<PendingView>, ev: Seq<Option<Seq<char>>>, n: int) -> Seq<UnitRelationView>
    decreases n,
{
    if n <= 0 {
        Seq::empty()
    } else {
        let r = emitted_records(p, ev, n - 1);
        match (p[n - 1], ev[n - 1]) {
            (PendingView::Candidate(_, s, t, k, _, _), Some(e)) => r.push((s, t, k, dispatch_of(k), e)),
            _ => r,
        }
    }
}

/// How many of the first `n` pending relations capability `c` emitted.
pub open spec fn emitted_count(p: Seq<PendingView>, ev: Seq<Option<Seq<char>>>, n: int, c: AnalysisCapability) -> nat
    decreases n,
{
    if n <= 0 {
        0
    } else {
        emitted_count(p, ev, n - 1, c) + match (p[n - 1], ev[n - 1]) {
            (PendingView::Candidate(cap, _, _, _, _, _), Some(_)) => if cap == c {
                1nat
            } else {
                0nat
            },
            _ => 0nat,
        }
    }
}

/// How many of the first `n` pending relations capability `c` omitted:
/// those classification omitted and those whose evidence has no span.
pub open spec fn omitted_count(p: Seq<PendingView>, ev: Seq<Option<Seq<char>>>, n: int, c: AnalysisCapability) -> nat
    decreases n,
{
    if n <= 0 {
        0
    } else {
        omitted_count(p, ev, n - 1, c) + match (p[n - 1], ev[n - 1]) {
            (PendingView::Omitted(cap), _) => if cap == c {
                1nat
            } else {
                0nat
            },
            (PendingView::Candidate(cap, _, _, _, _, _), None) => if cap == c {
                1nat
            } else {
                0nat
            },
            _ => 0nat,
        }
    }
}

/// The explicit type-relation sites the emitted relations matched, in order.
pub open spec fn matched_keys(p: Seq<PendingView>, ev: Seq<Option<Seq<char>>>, n: int) -> Seq<Seq<char>>
    decreases n,
{
    if n <= 0 {
        Seq::empty()
    } else {
        let r = matched_keys(p, ev, n - 1);
        match (p[n - 1], ev[n - 1]) {
            (PendingView::Candidate(AnalysisCapability::TypeRelations, _, _, _, _, Some(k)), Some(_)) => r.push(k),
            _ => r,
        }
    }
}

pub open spec fn capability_of_rank(k: int) -> AnalysisCapability {
    if k == 0 {
        AnalysisCapability::ProjectStructure
    } else if k == 1 {
        AnalysisCapability::Definitions
    } else if k == 2 {
        AnalysisCapability::Imports
    } else if k == 3 {
        AnalysisCapability::Exports
    } else if k == 4 {
        AnalysisCapability::DirectCalls
    } else if k == 5 {
        AnalysisCapability::TypeRelations
    } else if k == 6 {
        AnalysisCapability::Overrides
    } else if k == 7 {
        AnalysisCapability::OrmQuery
    } else if k == 8 {
        AnalysisCapability::EventExternal
    } else {
        AnalysisCapability::FrameworkBindings
    }
}

/// The capabilities of rank below `k` with a nonzero count, in order.
pub open spec fn nonzero_counts(f: spec_fn(AnalysisCapability) -> nat, k: int) -> Seq<(AnalysisCapability, nat)>
    decreases k,
{
    if k <= 0 {
        Seq::empty()
    } else {
        let r = nonzero_counts(f, k - 1);
        let c = capability_of_rank(k - 1);
        if f(c) > 0 {
            r.push((c, f(c)))
        } else {
            r
        }
    }
}

pub open spec fn count_views(v: Seq<CapabilityCount>) -> Seq<(AnalysisCapability, nat)> {
    v.map_values(|c: CapabilityCount| (c.capability, c.count as nat))
}

fn capability_at(k: usize) -> (r: AnalysisCapability)
    requires
        k < 10,
    ensures
        r == capability_of_rank(k as int),
        capability_rank(r) == k,
{
    if k == 0 {
        AnalysisCapability::ProjectStructure
    } else if k == 1 {
        AnalysisCapability::Definitions
    } else if k == 2 {
        AnalysisCapability::Imports
    } else if k == 3 {
        AnalysisCapability::Exports
    } else if k == 4 {
        AnalysisCapability::DirectCalls
    } else if k == 5 {
        AnalysisCapability::TypeRelations
    } else if k == 6 {
        AnalysisCapability::Overrides
    } else if k == 7 {
        AnalysisCapability::OrmQuery
    } else if k == 8 {
        AnalysisCapability::EventExternal
    } else {
        AnalysisCapability::FrameworkBindings
    }
}

proof fn lemma_rank_bounded(c: AnalysisCapability)
    ensures
        capability_rank(c) < 10,
        capability_of_rank(capability_rank(c) as int) == c,
{
}

fn copy_ir_endpoint(e: &IrEndpoint) -> (r: IrEndpoint)
    ensures
        target_view(r) == target_view(*e),
{
    match e {
        IrEndpoint::NativeSymbol { symbol_id } => IrEndpoint::NativeSymbol { symbol_id: symbol_id.duplicate() },
        IrEndpoint::File { path } => IrEndpoint::File { path: path.duplicate() },
        IrEndpoint::Structure { unit_id, kind, qualified_name } => IrEndpoint::Structure {
            unit_id: unit_id.duplicate(),
            kind: *kind,
            qualified_name: crate::text::owned(qualified_name.as_str()),
        },
    }
}

fn endpoint_text(e: &IrEndpoint) -> (r: Vec<char>)
    ensures
        r@ == view_key(target_view(*e)),
{
    let key = crate::relations::endpoint_key(e);
    crate::text::chars_of(key.as_str())
}

fn unit_relation_less(a: &UnitRelation, b: &UnitRelation) -> (r: bool)
    ensures
        r == unit_relation_lt()(unit_relation_view(*a), unit_relation_view(*b)),
{
    let sa = endpoint_text(&a.source);
    let sb = endpoint_text(&b.source);
    let o = crate::text::order_chars(sa.as_slice(), sb.as_slice());
    if o != 0 {
        return o == -1;
    }
    let ta = endpoint_text(&a.target);
    let tb = endpoint_text(&b.target);
    let o = crate::text::order_chars(ta.as_slice(), tb.as_slice());
    if o != 0 {
        return o == -1;
    }
    let ka = crate::relations::relation_kind_rank(a.kind);
    let kb = crate::relations::relation_kind_rank(b.kind);
    if ka != kb {
        return ka < kb;
    }
    let ea = crate::text::chars_of(a.evidence_id.value.as_str());
    let eb = crate::text::chars_of(b.evidence_id.value.as_str());
    crate::text::order_chars(ea.as_slice(), eb.as_slice()) == -1
}

fn dispatch_exec(kind: LanguageRelationKind) -> (r: DispatchKind)
    ensures
        r == dispatch_of(kind),
{
    match kind {
        LanguageRelationKind::Calls => DispatchKind::Unknown,
        LanguageRelationKind::Constructs => DispatchKind::Direct,
        _ => DispatchKind::NotApplicable,
    }
}

fn insert_unit_relation(sorted: &mut Vec<UnitRelation>, x: UnitRelation)
    ensures
        unit_relation_views(final(sorted)@) == insert_by(
            unit_relation_views(old(sorted)@),
            unit_relation_view(x),
            unit_relation_lt(),
        ),
{
    let ghost views = unit_relation_views(sorted@);
    let ghost xv = unit_relation_view(x);
    let mut p: usize = sorted.len();
    loop
        invariant
            p <= sorted.len(),
            views == unit_relation_views(sorted@),
            xv == unit_relation_view(x),
            forall|k: int| p <= k < sorted.len() ==> unit_relation_lt()(xv, #[trigger] views[k]),
        ensures
            p <= sorted.len(),
            forall|k: int| p <= k < sorted.len() ==> unit_relation_lt()(xv, #[trigger] views[k]),
            p == 0 || !unit_relation_lt()(xv, views[p - 1]),
        decreases p,
    {
        if p == 0 {
            break;
        }
        if !unit_relation_less(&x, &sorted[p - 1]) {
            break;
        }
        p -= 1;
    }
    proof {
        lemma_insert_by_at(views, xv, unit_relation_lt(), p as int);
    }
    sorted.insert(p, x);
    proof {
        assert(unit_relation_views(sorted@) =~= views.insert(p as int, xv));
    }
}

fn nonzero_list(counts: &Vec<u64>, f: Ghost<spec_fn(AnalysisCapability) -> nat>) -> (r: Vec<CapabilityCount>)
    requires
        counts.len() == 10,
        forall|c: AnalysisCapability| #[trigger] counts@[capability_rank(c) as int] == f@(c),
    ensures
        count_views(r@) == nonzero_counts(f@, 10),
{
    let mut out: Vec<CapabilityCount> = Vec::new();
    let mut k: usize = 0;
    while k < 10
        invariant
            k <= 10,
            counts.len() == 10,
            forall|c: AnalysisCapability| #[trigger] counts@[capability_rank(c) as int] == f@(c),
            count_views(out@) == nonzero_counts(f@, k as int),
        decreases 10 - k,
    {
        let c = capability_at(k);
        assert(counts@[capability_rank(c) as int] == f@(c));
        if counts[k] > 0 {
            let ghost prev = count_views(out@);
            out.push(CapabilityCount { capability: c, count: counts[k] });
            assert(count_views(out@) =~= prev.push((c, f@(c))));
        }
        k += 1;
    }
    out
}

/// Finishes a unit's relations: `evidence[i]` is the evidence recorded for
/// the span of pending relation `i`'s evidence range, none when the range
/// has no span.
pub fn finish_unit_relations(pending: &[PendingRelation], evidence: &[Option<EvidenceId>]) -> (r: ClassifiedRelations)
    requires
        evidence.len() == pending.len(),
        pending.len() <= u64::MAX,
    ensures
        unit_relation_views(r.relations@) == sort_by(
            emitted_records(pending_views(pending@), evidence_views(evidence@), pending.len() as int),
            unit_relation_lt(),
        ),
        count_views(r.emitted@) == nonzero_counts(
            |c: AnalysisCapability| emitted_count(pending_views(pending@), evidence_views(evidence@), pending.len() as int, c),
            10,
        ),
        count_views(r.omitted@) == nonzero_counts(
            |c: AnalysisCapability| omitted_count(pending_views(pending@), evidence_views(evidence@), pending.len() as int, c),
            10,
        ),
        crate::text::string_views(r.matched_site_keys@) == matched_keys(
            pending_views(pending@),
            evidence_views(evidence@),
            pending.len() as int,
        ),
{
    let ghost p = pending_views(pending@);
    let ghost ev = evidence_views(evidence@);
    let mut emitted: Vec<u64> = Vec::new();
    let mut omitted: Vec<u64> = Vec::new();
    let mut z: usize = 0;
    while z < 10
        invariant
            z <= 10,
            emitted.len() == z,
            omitted.len() == z,
            forall|k: int| 0 <= k < z ==> emitted@[k] == 0 && omitted@[k] == 0,
        decreases 10 - z,
    {
        emitted.push(0);
        omitted.push(0);
        z += 1;
    }
    let mut sorted: Vec<UnitRelation> = Vec::new();
    let mut keys: Vec<String> = Vec::new();
    let mut i: usize = 0;
    while i < pending.len()
        invariant
            i <= pending.len(),
            evidence.len() == pending.len(),
            pending.len() <= u64::MAX,
            p == pending_views(pending@),
            ev == evidence_views(evidence@),
            emitted.len() == 10,
            omitted.len() == 10,
            forall|c: AnalysisCapability| #[trigger] emitted@[capability_rank(c) as int] == emitted_count(p, ev, i as int, c),
            forall|c: AnalysisCapability| #[trigger] omitted@[capability_rank(c) as int] == omitted_count(p, ev, i as int, c),
            forall|c: AnalysisCapability| #[trigger] emitted_count(p, ev, i as int, c) <= i,
            forall|c: AnalysisCapability| #[trigger] omitted_count(p, ev, i as int, c) <= i,
            unit_relation_views(sorted@) == sort_by(emitted_records(p, ev, i as int), unit_relation_lt()),
            crate::text::string_views(keys@) == matched_keys(p, ev, i as int),
        decreases pending.len() - i,
    {
        proof {
            assert(p[i as int] == pending_view(pending@[i as int]));
            assert(ev[i as int] == match evidence@[i as int] {
                Some(x) => Some(x.value@),
                None => None,
            });
            assert forall|c: AnalysisCapability| #[trigger] emitted_count(p, ev, i + 1, c) <= i + 1 by {
                assert(emitted_count(p, ev, i as int, c) <= i);
            }
            assert forall|c: AnalysisCapability| #[trigger] omitted_count(p, ev, i + 1, c) <= i + 1 by {
                assert(omitted_count(p, ev, i as int, c) <= i);
            }
        }
        match &pending[i] {
            PendingRelation::Skipped => {},
            PendingRelation::Omitted { capability } => {
                let k = crate::unit_records::capability_index(*capability) as usize;
                proof {
                    lemma_rank_bounded(*capability);
                }
                let v = omitted[k];
                omitted.set(k, v + 1);
                proof {
                    assert forall|c: AnalysisCapability| #[trigger] omitted@[capability_rank(c) as int] == omitted_count(p, ev, i + 1, c) by {
                        lemma_rank_bounded(c);
                        if c != *capability {
                            assert(capability_rank(c) != capability_rank(*capability)) by {
                                lemma_rank_bounded(*capability);
                            }
                        }
                    }
                    assert forall|c: AnalysisCapability| #[trigger] emitted@[capability_rank(c) as int] == emitted_count(p, ev, i + 1, c) by {}
                }
            },
            PendingRelation::Candidate { capability, source, target, kind, evidence_range, site_key } => {
                let k = crate::unit_records::capability_index(*capability) as usize;
                proof {
                    lemma_rank_bounded(*capability);
                }
                match &evidence[i] {
                    None => {
                        let v = omitted[k];
                        omitted.set(k, v + 1);
                        proof {
                            assert forall|c: AnalysisCapability| #[trigger] omitted@[capability_rank(c) as int] == omitted_count(p, ev, i + 1, c) by {
                                lemma_rank_bounded(c);
                                if c != *capability {
                                    assert(capability_rank(c) != capability_rank(*capability)) by {
                                        lemma_rank_bounded(*capability);
                                    }
                                }
                            }
                            assert forall|c: AnalysisCapability| #[trigger] emitted@[capability_rank(c) as int] == emitted_count(p, ev, i + 1, c) by {}
                        }
                    },
                    Some(e) => {
                        let v = emitted[k];
                        emitted.set(k, v + 1);
                        proof {
                            assert forall|c: AnalysisCapability| #[trigger] emitted@[capability_rank(c) as int] == emitted_count(p, ev, i + 1, c) by {
                                lemma_rank_bounded(c);
                                if c != *capability {
                                    assert(capability_rank(c) != capability_rank(*capability)) by {
                                        lemma_rank_bounded(*capability);
                                    }
                                }
                            }
                            assert forall|c: AnalysisCapability| #[trigger] omitted@[capability_rank(c) as int] == omitted_count(p, ev, i + 1, c) by {}
                        }
                        let relation = UnitRelation {
                            source: copy_ir_endpoint(source),
                            target: copy_ir_endpoint(target),
                            kind: *kind,
                            dispatch: dispatch_exec(*kind),
                            evidence_id: EvidenceId { value: crate::text::owned(e.value.as_str()) },
                        };
                        proof {
                            lemma_sort_by_push(emitted_records(p, ev, i as int), unit_relation_view(relation), unit_relation_lt());
                        }
                        insert_unit_relation(&mut sorted, relation);
                        if *capability == AnalysisCapability::TypeRelations {
                            match site_key {
                                Some(key) => {
                                    let ghost prev = crate::text::string_views(keys@);
                                    keys.push(crate::text::owned(key.as_str()));
                                    assert(crate::text::string_views(keys@) =~= prev.push(key@));
                                },
                                None => {},
                            }
                        }
                    },
                }
            },
        }
        i += 1;
    }
    let emitted_list = nonzero_list(
        &emitted,
        Ghost(|c: AnalysisCapability| emitted_count(p, ev, pending.len() as int, c)),
    );
    let omitted_list = nonzero_list(
        &omitted,
        Ghost(|c: AnalysisCapability| omitted_count(p, ev, pending.len() as int, c)),
    );
    ClassifiedRelations { relations: sorted, emitted: emitted_list, omitted: omitted_list, matched_site_keys: keys }
}


/// The symbol and the name a type-relation audit entry records for an
/// endpoint: a provider symbol with the display name of its definition (the
/// short name of the symbol when it has none); a file or a structure by its
/// endpoint key, with its path or qualified name.
pub open spec fn spec_type_relation_endpoint(endpoint: IrEndpoint, definitions: Seq<crate::definitions::DefinitionDraft>) -> (
    Seq<char>,
    Seq<char>,
) {
    match endpoint {
        IrEndpoint::NativeSymbol { symbol_id } => (
            symbol_id.value@,
            match crate::definitions::lookup(definitions, symbol_id.value@) {
                Some(d) => d.display_name@,
                None => crate::definitions::spec_short_symbol_name(symbol_id.value@),
            },
        ),
        IrEndpoint::File { path } => (spec_endpoint_key(endpoint), path.value@),
        IrEndpoint::Structure { qualified_name, .. } => (spec_endpoint_key(endpoint), qualified_name@),
    }
}

/// The symbol and the name a type-relation audit entry records for an endpoint.
pub fn type_relation_endpoint(endpoint: &IrEndpoint, definitions: &crate::definitions::DefinitionTable) -> (r: (
    String,
    String,
))
    requires
        definitions.wf(),
    ensures
        (r.0@, r.1@) == spec_type_relation_endpoint(*endpoint, definitions.entries@),
{
    match endpoint {
        IrEndpoint::NativeSymbol { symbol_id } => {
            let name = match definitions.get(symbol_id) {
                Some(d) => crate::text::owned(d.display_name.as_str()),
                None => crate::text::owned(crate::definitions::short_symbol_name(symbol_id.value.as_str())),
            };
            (crate::text::owned(symbol_id.value.as_str()), name)
        },
        IrEndpoint::File { path } => (crate::relations::endpoint_key(endpoint), crate::text::owned(path.value.as_str())),
        IrEndpoint::Structure { qualified_name, .. } => (
            crate::relations::endpoint_key(endpoint),
            crate::text::owned(qualified_name.as_str()),
        ),
    }
}


/// Where a relation's evidence lies: its file, and its start and end lines
/// and UTF-8 columns.
#[derive(Clone, Debug)]
pub struct EvidenceSpan {
    pub path: String,
    pub start_line: u32,
    pub start_utf8_column: u32,
    pub end_line: u32,
    pub end_utf8_column: u32,
}

/// The audit record of one emitted type relation.
#[derive(Clone, Debug)]
pub struct TypeRelationAuditEntry {
    pub unit_id: String,
    pub language: ProgrammingLanguage,
    pub path: String,
    pub native_relation: String,
    pub kind: LanguageRelationKind,
    pub source_symbol: String,
    pub source_name: String,
    pub target_symbol: String,
    pub target_name: String,
    pub start_line: u32,
    pub start_utf8_column: u32,
    pub end_line: u32,
    pub end_utf8_column: u32,
}

/// An audit entry by its plain values, in field order.
pub type AuditEntryView = (
    Seq<char>,
    ProgrammingLanguage,
    Seq<char>,
    Seq<char>,
    LanguageRelationKind,
    (Seq<char>, Seq<char>),
    (Seq<char>, Seq<char>),
    (u32, u32, u32, u32),
);

pub open spec fn audit_entry_view(e: TypeRelationAuditEntry) -> AuditEntryView {
    (
        e.unit_id@,
        e.language,
        e.path@,
        e.native_relation@,
        e.kind,
        (e.source_symbol@, e.source_name@),
        (e.target_symbol@, e.target_name@),
        (e.start_line, e.start_utf8_column, e.end_line, e.end_utf8_column),
    )
}

pub open spec fn audit_entry_views(v: Seq<TypeRelationAuditEntry>) -> Seq<AuditEntryView> {
    v.map_values(|e: TypeRelationAuditEntry| audit_entry_view(e))
}

/// The audit entries of the first `n` pending relations, in order: one for
/// each type relation whose evidence has a span, with the relation's native
/// kind, its endpoints' symbols and names, and the span.
pub open spec fn audit_entries(
    unit_id: Seq<char>,
    language: ProgrammingLanguage,
    pending: Seq<PendingRelation>,
    native: Seq<Seq<char>>,
    spans: Seq<Option<EvidenceSpan>>,
    definitions: Seq<crate::definitions::DefinitionDraft>,
    n: int,
) -> Seq<AuditEntryView>
    decreases n,
{
    if n <= 0 {
        Seq::empty()
    } else {
        let r = audit_entries(unit_id, language, pending, native, spans, definitions, n - 1);
        match (pending[n - 1], spans[n - 1]) {
            (PendingRelation::Candidate { capability, source, target, kind, .. }, Some(sp)) => if capability
                == AnalysisCapability::TypeRelations {
                r.push(
                    (
                        unit_id,
                        language,
                        sp.path@,
                        native[n - 1],
                        kind,
                        spec_type_relation_endpoint(source, definitions),
                        spec_type_relation_endpoint(target, definitions),
                        (sp.start_line, sp.start_utf8_column, sp.end_line, sp.end_utf8_column),
                    ),
                )
            } else {
                r
            },
            _ => r,
        }
    }
}

/// The audit entries of a unit's emitted type relations. `native[i]` is
/// the provider's own kind of relation `i`, and `spans[i]` the span of its
/// evidence, none when its range has no span.
pub fn type_relation_audit_entries(
    unit_id: &str,
    language: ProgrammingLanguage,
    pending: &[PendingRelation],
    native: &[String],
    spans: &[Option<EvidenceSpan>],
    definitions: &crate::definitions::DefinitionTable,
) -> (r: Vec<TypeRelationAuditEntry>)
    requires
        native.len() == pending.len(),
        spans.len() == pending.len(),
        definitions.wf(),
    ensures
        audit_entry_views(r@) == audit_entries(
            unit_id@,
            language,
            pending@,
            crate::text::string_views(native@),
            spans@,
            definitions.entries@,
            pending.len() as int,
        ),
{
    let ghost nv = crate::text::string_views(native@);
    let mut out: Vec<TypeRelationAuditEntry> = Vec::new();
    let mut i: usize = 0;
    while i < pending.len()
        invariant
            i <= pending.len(),
            native.len() == pending.len(),
            spans.len() == pending.len(),
            definitions.wf(),
            nv == crate::text::string_views(native@),
            audit_entry_views(out@) == audit_entries(
                unit_id@,
                language,
                pending@,
                nv,
                spans@,
                definitions.entries@,
                i as int,
            ),
        decreases pending.len() - i,
    {
        let ghost before = audit_entry_views(out@);
        match (&pending[i], &spans[i]) {
            (PendingRelation::Candidate { capability, source, target, kind, .. }, Some(sp)) => {
                if *capability == AnalysisCapability::TypeRelations {
                    let (source_symbol, source_name) = type_relation_endpoint(source, definitions);
                    let (target_symbol, target_name) = type_relation_endpoint(target, definitions);
                    let entry = TypeRelationAuditEntry {
                        unit_id: crate::text::owned(unit_id),
                        language,
                        path: crate::text::owned(sp.path.as_str()),
                        native_relation: crate::text::owned(native[i].as_str()),
                        kind: *kind,
                        source_symbol,
                        source_name,
                        target_symbol,
                        target_name,
                        start_line: sp.start_line,
                        start_utf8_column: sp.start_utf8_column,
                        end_line: sp.end_line,
                        end_utf8_column: sp.end_utf8_column,
                    };
                    out.push(entry);
                    proof {
                        assert(nv[i as int] == native@[i as int]@);
                        assert(audit_entry_views(out@) =~= before.push(audit_entry_view(entry)));
                    }
                }
            },
            _ => {},
        }
        i += 1;
    }
    out
}


fn decimal_text(n: u64) -> (r: String)
    ensures
        r@ == crate::schedule::spec_decimal(n as nat),
{
    let d = crate::capabilities::decimal_u64(n);
    crate::text::string_of(d.as_slice())
}

/// The identity of an audit entry: unit, language, path, relation rank,
/// source and target symbols and native relation, separated by tabs, then
/// the span as `line:column-line:column`.
pub open spec fn spec_type_relation_audit_key(e: AuditEntryView) -> Seq<char> {
    e.0 + "\t"@ + crate::model::spec_language_name(e.1) + "\t"@ + e.2 + "\t"@ + crate::schedule::spec_decimal(
        spec_relation_kind_rank(e.4) as nat,
    ) + "\t"@ + e.5.0 + "\t"@ + e.6.0 + "\t"@ + e.3 + "\t"@ + crate::schedule::spec_decimal(e.7.0 as nat) + ":"@
        + crate::schedule::spec_decimal(e.7.1 as nat) + "-"@ + crate::schedule::spec_decimal(e.7.2 as nat) + ":"@
        + crate::schedule::spec_decimal(e.7.3 as nat)
}

/// The identity of an audit entry.
pub fn type_relation_audit_key(e: &TypeRelationAuditEntry) -> (r: String)
    ensures
        r@ == spec_type_relation_audit_key(audit_entry_view(*e)),
{
    let tab = "\t";
    let colon = ":";
    let dash = "-";
    proof {
        reveal_strlit("\t");
        reveal_strlit(":");
        reveal_strlit("-");
    }
    let rank = crate::relations::relation_kind_rank(e.kind);
    let mut k = crate::text::concat(e.unit_id.as_str(), tab);
    k = crate::text::concat(k.as_str(), e.language.as_str());
    k = crate::text::concat(k.as_str(), tab);
    k = crate::text::concat(k.as_str(), e.path.as_str());
    k = crate::text::concat(k.as_str(), tab);
    k = crate::text::concat(k.as_str(), decimal_text(rank as u64).as_str());
    k = crate::text::concat(k.as_str(), tab);
    k = crate::text::concat(k.as_str(), e.source_symbol.as_str());
    k = crate::text::concat(k.as_str(), tab);
    k = crate::text::concat(k.as_str(), e.target_symbol.as_str());
    k = crate::text::concat(k.as_str(), tab);
    k = crate::text::concat(k.as_str(), e.native_relation.as_str());
    k = crate::text::concat(k.as_str(), tab);
    k = crate::text::concat(k.as_str(), decimal_text(e.start_line as u64).as_str());
    k = crate::text::concat(k.as_str(), colon);
    k = crate::text::concat(k.as_str(), decimal_text(e.start_utf8_column as u64).as_str());
    k = crate::text::concat(k.as_str(), dash);
    k = crate::text::concat(k.as_str(), decimal_text(e.end_line as u64).as_str());
    k = crate::text::concat(k.as_str(), colon);
    k = crate::text::concat(k.as_str(), decimal_text(e.end_utf8_column as u64).as_str());
    k
}

} // verus!
