//! Properties of the library as a whole, stated over the same models the
//! function contracts use and proved once for all inputs.
use vstd::prelude::*;

use crate::definitions::{
    keeps_draft, lookup, owner_draft, reconciled_drafts, spec_is_type_owner_kind,
};
use crate::dispatch::{facts, is_dynamic_language, spec_classify_target, DispatchTarget};
use crate::inventory::encloses;
use crate::model::{
    CallSiteForm, DispatchKind, FactNodeKind, LanguageRelationKind, ProgrammingLanguage,
};
use crate::schedule::{is_scope_char, spec_sanitize_scope};
use crate::provider_schedule::{
    accounts_for_plan, all_omissions, all_shards, first_owner, has_repeat, is_first_assignment_of, is_vue_path,
    lemma_omission_source, lemma_reason_counts_add_up, lemma_scheduled_key_unit, omission_before,
    omission_reason_of, omissions_sorted, omitted_key, omitted_keys, plan_is_valid, planned_keys,
    provider_files_of, reason_count, shard_keys, OmissionView, PlanAssignment, PlanUnit, ScheduleKey,
};
use crate::schedule::{OmissionReason, ProjectModelUnit};
use crate::syntax::spec_canonical_bounds;
use crate::digest::is_key_set_digest;
use crate::adapter::{be_bytes, is_longest_fitting_prefix, MAX_MESSAGE_BYTES};
use crate::text::{strictly_sorted, utf8_len};
use crate::resolver::{
    files_selection, rust_use_resolution, spec_resolve, structures_selection, ProjectImportIndex,
    ResolutionMethod, ResolutionView, StructureKey,
};
use crate::imports::ImportForm;
use crate::capabilities::{
    is_import_capability, spec_capability_policies, spec_receipt, AnalysisGap, CapabilityCount,
    CapabilityExecutionState, ImportAudit, ReceiptInputs,
};
use crate::resolver::GapCode;
use crate::census::FilePolicy;
use crate::census_walk::{spec_file_decision, spec_link_decision, DecisionView, EntryState, CensusGap};
use crate::model::RepositoryPath;
use crate::sql_literals::{identifier_quotes, spec_normalize_identifier};
use crate::text::{
    ascii_lower, ascii_lower_char, collapse_whitespace, trim_end_by, trim_start_by, unicode_white_space, ws_pred,
};

verus! {

/// A single-line range written compactly, `[line, start, end]`, and the same
/// range written expanded, `[line, start, line, end]`, are equal ranges.
pub proof fn law_compact_and_expanded_ranges_are_equal(line: i32, start: i32, end: i32)
    ensures
        spec_canonical_bounds(seq![line, start, end]) == spec_canonical_bounds(
            seq![line, start, line, end],
        ),
        encloses(seq![line, start, end], seq![line, start, line, end]),
        encloses(seq![line, start, line, end], seq![line, start, end]),
{
}

/// Every range encloses itself, and enclosure is transitive.
pub proof fn law_range_enclosure_is_a_preorder(a: Seq<i32>, b: Seq<i32>, c: Seq<i32>)
    ensures
        spec_canonical_bounds(a) is Some ==> encloses(a, a),
        encloses(a, b) && encloses(b, c) ==> encloses(a, c),
{
}

/// In TypeScript, JavaScript and Python a resolved call or construction is
/// never classified as a direct dispatch: their runtimes may rebind it.
pub proof fn law_dynamic_languages_never_dispatch_directly(
    language: ProgrammingLanguage,
    kind: LanguageRelationKind,
    form: CallSiteForm,
    target: DispatchTarget,
)
    requires
        is_dynamic_language(language),
    ensures
        spec_classify_target(language, kind, form, facts(target)) == DispatchKind::Dynamic,
{
}

/// A call of a free function is direct in every compiled language.
pub proof fn law_free_function_calls_are_direct_in_compiled_languages(
    language: ProgrammingLanguage,
    target: DispatchTarget,
)
    requires
        !is_dynamic_language(language),
        target.kind == FactNodeKind::Function,
    ensures
        spec_classify_target(
            language,
            LanguageRelationKind::Calls,
            CallSiteForm::Call,
            facts(target),
        ) == DispatchKind::Direct,
{
}

/// A strictly sorted sequence is determined by its elements: two canonical
/// string sets with the same members are the same sequence. (This is what
/// makes sorted, de-duplicated key lists, and the digests framed from them,
/// independent of the order and repetition of their input.)
pub proof fn law_sorted_sets_are_determined_by_their_members(a: Seq<Seq<char>>, b: Seq<Seq<char>>)
    requires
        strictly_sorted(a),
        strictly_sorted(b),
        forall|x: Seq<char>| a.contains(x) <==> b.contains(x),
    ensures
        a == b,
{
    crate::text::lemma_strictly_sorted_unique(a, b);
}

/// Scope identities are made only of `A-Z a-z 0-9 - _`, and sanitizing an
/// identity again leaves it unchanged.
pub proof fn law_sanitized_scopes_are_stable(value: Seq<char>)
    ensures
        forall|i: int|
            0 <= i < spec_sanitize_scope(value).len() ==> is_scope_char(
                #[trigger] spec_sanitize_scope(value)[i],
            ),
        spec_sanitize_scope(spec_sanitize_scope(value)) == spec_sanitize_scope(value),
{
    assert(spec_sanitize_scope(spec_sanitize_scope(value)) =~= spec_sanitize_scope(value));
}

/// After reconciliation no definition claims itself as its owner.
pub proof fn law_reconciled_definitions_never_own_themselves(
    language: ProgrammingLanguage,
    e: Seq<crate::definitions::DefinitionDraft>,
    s: Seq<crate::definitions::DefinitionDraft>,
    i: int,
)
    requires
        0 <= i < reconciled_drafts(language, e, s).len(),
    ensures
        reconciled_drafts(language, e, s)[i].parent_symbol_id matches Some(p) ==> p.value@
            != reconciled_drafts(language, e, s)[i].symbol_id.value@,
    decreases s.len(),
{
    let r = reconciled_drafts(language, e, s.drop_last());
    if i < r.len() {
        law_reconciled_definitions_never_own_themselves(language, e, s.drop_last(), i);
    }
}

/// Reconciliation keeps every definition that is not a provider field
/// candidate: only unowned provider variables are dropped.
pub proof fn law_reconciliation_keeps_every_declared_definition(
    language: ProgrammingLanguage,
    e: Seq<crate::definitions::DefinitionDraft>,
    s: Seq<crate::definitions::DefinitionDraft>,
    k: int,
)
    requires
        0 <= k < s.len(),
        !s[k].field_candidate,
    ensures
        exists|i: int|
            0 <= i < reconciled_drafts(language, e, s).len() && (#[trigger] reconciled_drafts(
                language,
                e,
                s,
            )[i]).symbol_id == s[k].symbol_id,
    decreases s.len(),
{
    let r = reconciled_drafts(language, e, s.drop_last());
    if k == s.len() - 1 {
        assert(keeps_draft(e, s.last()));
        let full = reconciled_drafts(language, e, s);
        assert(full[r.len() as int].symbol_id == s[k].symbol_id);
    } else {
        law_reconciliation_keeps_every_declared_definition(language, e, s.drop_last(), k);
        let i = choose|i: int|
            0 <= i < r.len() && (#[trigger] r[i]).symbol_id == s.drop_last()[k].symbol_id;
        let full = reconciled_drafts(language, e, s);
        assert(full[i] == r[i]);
    }
}

/// A provider variable survives reconciliation only as a field of a type
/// that directly owns it.
pub proof fn law_surviving_fields_have_a_type_owner(
    language: ProgrammingLanguage,
    e: Seq<crate::definitions::DefinitionDraft>,
    s: Seq<crate::definitions::DefinitionDraft>,
    i: int,
)
    requires
        0 <= i < reconciled_drafts(language, e, s).len(),
        reconciled_drafts(language, e, s)[i].field_candidate,
    ensures
        reconciled_drafts(language, e, s)[i].canonical_kind_hint == FactNodeKind::Field,
        reconciled_drafts(language, e, s)[i].parent_symbol_id matches Some(p) && lookup(
            e,
            p.value@,
        ) matches Some(o) && spec_is_type_owner_kind(o.canonical_kind_hint),
    decreases s.len(),
{
    let r = reconciled_drafts(language, e, s.drop_last());
    if i < r.len() {
        law_surviving_fields_have_a_type_owner(language, e, s.drop_last(), i);
    } else {
        let d = s.last();
        assert(keeps_draft(e, d));
        assert(owner_draft(e, d) is Some);
    }
}

/// A diagnostic message that fits the byte bound is kept whole; a longer one
/// is cut to a prefix that fits.
pub proof fn law_bounded_messages_keep_what_fits(message: Seq<char>, k: int)
    requires
        is_longest_fitting_prefix(message, MAX_MESSAGE_BYTES as nat, k),
    ensures
        utf8_len(message) <= MAX_MESSAGE_BYTES ==> k == message.len(),
        utf8_len(message.take(k)) <= MAX_MESSAGE_BYTES,
        k < message.len() ==> utf8_len(message) > MAX_MESSAGE_BYTES,
{
    assert(message.take(message.len() as int) == message);
    if k < message.len() {
        crate::text::lemma_utf8_len_prefix_mono(message, k + 1, message.len() as int);
    }
}

proof fn lemma_be_bytes_injective(n: u64, m: u64)
    requires
        be_bytes(n) == be_bytes(m),
    ensures
        n == m,
{
    assert(be_bytes(n)[0] == be_bytes(m)[0]);
    assert(be_bytes(n)[1] == be_bytes(m)[1]);
    assert(be_bytes(n)[2] == be_bytes(m)[2]);
    assert(be_bytes(n)[3] == be_bytes(m)[3]);
    assert(be_bytes(n)[4] == be_bytes(m)[4]);
    assert(be_bytes(n)[5] == be_bytes(m)[5]);
    assert(be_bytes(n)[6] == be_bytes(m)[6]);
    assert(be_bytes(n)[7] == be_bytes(m)[7]);
    assert(n == m) by (bit_vector)
        requires
            (n / 0x100_0000_0000_0000) % 256 == (m / 0x100_0000_0000_0000) % 256,
            (n / 0x1_0000_0000_0000) % 256 == (m / 0x1_0000_0000_0000) % 256,
            (n / 0x100_0000_0000) % 256 == (m / 0x100_0000_0000) % 256,
            (n / 0x1_0000_0000) % 256 == (m / 0x1_0000_0000) % 256,
            (n / 0x100_0000) % 256 == (m / 0x100_0000) % 256,
            (n / 0x1_0000) % 256 == (m / 0x1_0000) % 256,
            (n / 0x100) % 256 == (m / 0x100) % 256,
            n % 256 == m % 256,
    ;
}

/// Length-prefixed digest components are unambiguous: when two inputs that
/// each start with one framed component are equal, the components are equal
/// and so are the rests.
pub proof fn law_digest_framing_is_unambiguous(
    a: Seq<u8>,
    rest_a: Seq<u8>,
    b: Seq<u8>,
    rest_b: Seq<u8>,
)
    requires
        a.len() <= u64::MAX,
        b.len() <= u64::MAX,
        be_bytes(a.len() as u64) + a + rest_a == be_bytes(b.len() as u64) + b + rest_b,
    ensures
        a == b,
        rest_a == rest_b,
{
    let x = be_bytes(a.len() as u64) + a + rest_a;
    let y = be_bytes(b.len() as u64) + b + rest_b;
    assert(x.take(8) =~= be_bytes(a.len() as u64));
    assert(y.take(8) =~= be_bytes(b.len() as u64));
    lemma_be_bytes_injective(a.len() as u64, b.len() as u64);
    assert(a.len() == b.len());
    assert(x.subrange(8, 8 + a.len() as int) =~= a);
    assert(y.subrange(8, 8 + b.len() as int) =~= b);
    assert(x.skip(8 + a.len() as int) =~= rest_a);
    assert(y.skip(8 + b.len() as int) =~= rest_b);
}

/// The framed concatenation of a list of components, in order: what
/// appending each component to a digest input adds.
pub open spec fn framed_components(xs: Seq<Seq<u8>>) -> Seq<u8>
    decreases xs.len(),
{
    if xs.len() == 0 {
        Seq::<u8>::empty()
    } else {
        be_bytes(xs[0].len() as u64) + xs[0] + framed_components(xs.drop_first())
    }
}

/// Length-prefixed framing is unambiguous over whole lists: when the same
/// prefix followed by two framed lists of components gives the same bytes,
/// the lists are equal, component by component.
pub proof fn law_component_lists_are_unambiguous(prefix: Seq<u8>, xs: Seq<Seq<u8>>, ys: Seq<Seq<u8>>)
    requires
        forall|i: int| 0 <= i < xs.len() ==> (#[trigger] xs[i]).len() <= u64::MAX,
        forall|i: int| 0 <= i < ys.len() ==> (#[trigger] ys[i]).len() <= u64::MAX,
        prefix + framed_components(xs) == prefix + framed_components(ys),
    ensures
        xs == ys,
    decreases xs.len(),
{
    let fx = framed_components(xs);
    let fy = framed_components(ys);
    assert((prefix + fx).skip(prefix.len() as int) =~= fx);
    assert((prefix + fy).skip(prefix.len() as int) =~= fy);
    assert(fx == fy);
    if xs.len() == 0 {
        if ys.len() > 0 {
            assert(fy.len() >= 8);
        }
        assert(xs =~= ys);
    } else if ys.len() == 0 {
        assert(fx.len() >= 8);
    } else {
        let tx = xs.drop_first();
        let ty = ys.drop_first();
        law_digest_framing_is_unambiguous(xs[0], framed_components(tx), ys[0], framed_components(ty));
        assert forall|i: int| 0 <= i < tx.len() implies (#[trigger] tx[i]).len() <= u64::MAX by {
            assert(tx[i] == xs[i + 1]);
        }
        assert forall|i: int| 0 <= i < ty.len() implies (#[trigger] ty[i]).len() <= u64::MAX by {
            assert(ty[i] == ys[i + 1]);
        }
        assert(Seq::<u8>::empty() + framed_components(tx) =~= framed_components(tx));
        assert(Seq::<u8>::empty() + framed_components(ty) =~= framed_components(ty));
        law_component_lists_are_unambiguous(Seq::<u8>::empty(), tx, ty);
        assert(xs =~= ys) by {
            assert forall|i: int| 0 <= i < xs.len() implies xs[i] == ys[i] by {
                if i > 0 {
                    assert(xs[i] == tx[i - 1]);
                    assert(ys[i] == ty[i - 1]);
                }
            }
        }
    }
}

/// A key-set digest depends only on the set of keys: lists that hold the
/// same keys, in any order and with any repetition, have the same digest.
pub proof fn law_key_set_digests_ignore_order_and_repetition(
    domain: Seq<u8>,
    keys_a: Seq<Seq<char>>,
    sorted_a: Seq<Seq<char>>,
    digest_a: Seq<u8>,
    keys_b: Seq<Seq<char>>,
    sorted_b: Seq<Seq<char>>,
    digest_b: Seq<u8>,
)
    requires
        is_key_set_digest(domain, keys_a, sorted_a, digest_a),
        is_key_set_digest(domain, keys_b, sorted_b, digest_b),
        forall|x: Seq<char>| keys_a.contains(x) <==> keys_b.contains(x),
    ensures
        digest_a == digest_b,
{
    law_sorted_sets_are_determined_by_their_members(sorted_a, sorted_b);
}

} // verus!


verus! {

/// After inventory reconciliation every remaining definition of an
/// inventoried file stands for one of the file's source declarations: the
/// definitions of such files that match no declaration are dropped.
pub proof fn law_inventoried_definitions_match_a_declaration(
    defs: Seq<crate::definitions::DefinitionDraft>,
    paths: Seq<Seq<char>>,
    syntax: Seq<Seq<crate::inventory::SyntaxDefinition>>,
    files: Seq<crate::reconcile::FileMatch>,
    kinds: Seq<crate::definitions::DefinitionDraft>,
    protocol: crate::inventory::ProviderProtocol,
    i: int,
)
    requires
        0 <= i < crate::reconcile::resolved_entries(defs, paths, syntax, files, kinds, protocol).len(),
        crate::reconcile::file_of(
            paths,
            crate::reconcile::resolved_entries(defs, paths, syntax, files, kinds, protocol)[i].path.value@,
        ) is Some,
    ensures
        crate::reconcile::resolved_entries(defs, paths, syntax, files, kinds, protocol)[i].syntax_match is Some,
    decreases defs.len(),
{
    let r0 = crate::reconcile::resolved_entries(defs.drop_last(), paths, syntax, files, kinds, protocol);
    let r = crate::reconcile::resolved_entries(defs, paths, syntax, files, kinds, protocol);
    if i < r0.len() {
        assert(r[i] == r0[i]);
        law_inventoried_definitions_match_a_declaration(
            defs.drop_last(),
            paths,
            syntax,
            files,
            kinds,
            protocol,
            i,
        );
    }
}

} // verus!

verus! {

/// A schedule that accounts for its plan moves no file to another unit and
/// silently drops none: every scheduled file is planned for the unit it is
/// scheduled in, and every planned file is scheduled or omitted.
pub proof fn law_schedules_keep_every_planned_file_in_its_unit(
    assignments: Seq<crate::provider_schedule::PlanAssignment>,
    scheduled: Seq<crate::provider_schedule::ScheduleKey>,
    omissions: Seq<crate::provider_schedule::OmissionView>,
)
    requires
        crate::provider_schedule::accounts_for_plan(assignments, scheduled, omissions),
    ensures
        forall|j: int|
            0 <= j < scheduled.len() ==> crate::provider_schedule::planned_keys(assignments).contains(
                #[trigger] scheduled[j],
            ),
        forall|k: crate::provider_schedule::ScheduleKey|
            crate::provider_schedule::planned_keys(assignments).contains(k) ==> scheduled.contains(k)
                || crate::provider_schedule::omitted_keys(assignments, omissions).contains(k),
{
    assert forall|j: int| 0 <= j < scheduled.len() implies crate::provider_schedule::planned_keys(
        assignments,
    ).contains(#[trigger] scheduled[j]) by {
        assert(scheduled.contains(scheduled[j]));
        assert(scheduled.to_set().contains(scheduled[j]));
    }
}

/// The shards of a chunked unit each hold between one and 512 files, keep
/// the unit's identity, and together hold the unit's files in order: file `p`
/// is file `p % 512` of shard `p / 512`.
pub proof fn law_chunks_partition_files_in_order(
    language: ProgrammingLanguage,
    unit_id: Seq<char>,
    root: Seq<char>,
    scope: Seq<char>,
    files: Seq<Seq<char>>,
    excluded: usize,
    p: int,
    k: int,
)
    requires
        0 <= p < files.len(),
        0 <= k < crate::schedule::spec_chunked_shards(language, unit_id, root, scope, files, excluded).len(),
    ensures
        ({
            let shards = crate::schedule::spec_chunked_shards(language, unit_id, root, scope, files, excluded);
            &&& shards[k].0 == unit_id
            &&& 0 < shards[k].4.len() <= 512
            &&& p / 512 < shards.len()
            &&& shards[p / 512].4[p % 512] == files[p]
        }),
{
    let n = files.len() as int;
    let shards = crate::schedule::spec_chunked_shards(language, unit_id, root, scope, files, excluded);
    assert(shards.len() == (n + 511) / 512);
    assert(512 * k < n) by (nonlinear_arith)
        requires
            0 <= k < (n + 511) / 512,
            n >= 0,
    ;
    let q = p / 512;
    let r = p % 512;
    assert(p == 512 * q + r && 0 <= r < 512) by (nonlinear_arith)
        requires
            0 <= p,
            q == p / 512,
            r == p % 512,
    ;
    assert(q < (n + 511) / 512) by (nonlinear_arith)
        requires
            p == 512 * q + r,
            0 <= r < 512,
            p < n,
            q >= 0,
    ;
    let end = crate::schedule::chunk_end(n, q);
    assert(512 * q + r < end);
    assert(shards[q].4 == files.subrange(512 * q, end));
}


/// Resolution reads candidate lists as sets: two lists with the same
/// distinct files, in any order and with any repetition, select alike.
pub proof fn law_file_selection_ignores_order_and_repetition(
    a: Seq<RepositoryPath>,
    b: Seq<RepositoryPath>,
    method: ResolutionMethod,
)
    requires
        forall|p: Seq<char>| crate::schedule::path_set(a).contains(p) <==> crate::schedule::path_set(b).contains(p),
    ensures
        files_selection(crate::schedule::path_set(a), method) == files_selection(
            crate::schedule::path_set(b),
            method,
        ),
{
    assert(crate::schedule::path_set(a) =~= crate::schedule::path_set(b));
}

pub open spec fn ambiguity_is_plural(r: ResolutionView) -> bool {
    match r {
        ResolutionView::Ambiguous(n) => n >= 2,
        _ => true,
    }
}

proof fn lemma_selections_are_plural_when_ambiguous(
    files: Set<Seq<char>>,
    structures: Set<StructureKey>,
    method: ResolutionMethod,
)
    ensures
        ambiguity_is_plural(files_selection(files, method)),
        ambiguity_is_plural(structures_selection(structures, method)),
{
}

proof fn lemma_rust_use_resolution_is_plural(
    index: ProjectImportIndex,
    unit: Seq<char>,
    source: Seq<char>,
    cands: Seq<Seq<char>>,
)
    ensures
        ambiguity_is_plural(rust_use_resolution(index, unit, source, cands)),
    decreases cands.len(),
{
    if cands.len() > 0 {
        lemma_rust_use_resolution_is_plural(index, unit, source, cands.drop_first());
        match crate::resolver::longest_rust_module(index.rust_modules@, unit, cands[0]) {
            Some(ps) => lemma_selections_are_plural_when_ambiguous(
                crate::schedule::path_set(ps).remove(source),
                Set::empty(),
                ResolutionMethod::SyntaxExact,
            ),
            None => match crate::resolver::lookup_paths(index.rust_crates@, crate::resolver::crate_head(cands[0])) {
                Some(ps) => lemma_selections_are_plural_when_ambiguous(
                    crate::schedule::path_set(ps).remove(source),
                    Set::empty(),
                    ResolutionMethod::ProjectModel,
                ),
                None => {},
            },
        }
    }
}

/// An import site never counts an ambiguity among fewer than two distinct
/// candidates: one candidate resolves and none is an unresolved target.
pub proof fn law_import_ambiguity_counts_at_least_two_candidates(
    index: ProjectImportIndex,
    source: Seq<char>,
    language: ProgrammingLanguage,
    form: ImportForm,
    specifier: Seq<char>,
)
    ensures
        ambiguity_is_plural(spec_resolve(index, source, language, form, specifier)),
{
    assert forall|files: Set<Seq<char>>, structures: Set<StructureKey>, method: ResolutionMethod|
        ambiguity_is_plural(#[trigger] files_selection(files, method)) && ambiguity_is_plural(
            #[trigger] structures_selection(structures, method),
        ) by {
        lemma_selections_are_plural_when_ambiguous(files, structures, method);
    }
    assert forall|unit: Seq<char>, cands: Seq<Seq<char>>|
        ambiguity_is_plural(#[trigger] rust_use_resolution(index, unit, source, cands)) by {
        lemma_rust_use_resolution_is_plural(index, unit, source, cands);
    }
}


/// Every capability receipt of a unit's profile is coherent: a partial
/// receipt says why, a complete one truncated nothing, a failed or
/// not-applicable one counts nothing, and outside the import audit a
/// complete or not-applicable receipt carries no gap.
pub proof fn law_capability_receipts_are_coherent(
    language: ProgrammingLanguage,
    i: int,
    inputs: ReceiptInputs,
    emitted_relations: Seq<CapabilityCount>,
    omitted_relations: Seq<CapabilityCount>,
    audit: ImportAudit,
    gaps: Seq<AnalysisGap>,
)
    requires
        0 <= i < spec_capability_policies(language).len(),
    ensures
        ({
            let p = spec_capability_policies(language)[i];
            let v = spec_receipt(p, inputs, emitted_relations, omitted_relations, audit, gaps);
            &&& v.execution_state == CapabilityExecutionState::Partial ==> v.gap_codes
                != Set::<GapCode>::empty()
            &&& v.execution_state == CapabilityExecutionState::Complete ==> v.truncated_count == 0
            &&& (v.execution_state == CapabilityExecutionState::Failed || v.execution_state
                == CapabilityExecutionState::NotApplicable) ==> v.covered_count == 0
                && v.emitted_fact_count == 0 && v.emitted_relation_count == 0 && v.truncated_count
                == 0
            &&& !is_import_capability(p.capability) && (v.execution_state
                == CapabilityExecutionState::Complete || v.execution_state
                == CapabilityExecutionState::NotApplicable) ==> v.gap_codes == Set::<GapCode>::empty()
        }),
{
    let p = spec_capability_policies(language)[i];
    let v = spec_receipt(p, inputs, emitted_relations, omitted_relations, audit, gaps);
    if v.execution_state == CapabilityExecutionState::Partial {
        if is_import_capability(p.capability) && p.declared_support
            != crate::capabilities::DeclaredSupport::Unsupported {
            let codes = crate::capabilities::audit_of(audit, p.capability)->0.gap_codes@.to_set();
            if codes == Set::<GapCode>::empty() {
                assert(v.gap_codes.contains(GapCode::ProviderExecutionIncomplete));
            }
        } else {
            let witness = if v.gap_codes.contains(GapCode::ProviderExecutionIncomplete) {
                GapCode::ProviderExecutionIncomplete
            } else if v.gap_codes.contains(GapCode::UnresolvedTarget) {
                GapCode::UnresolvedTarget
            } else {
                p.measurement->0
            };
            assert(v.gap_codes.contains(witness));
        }
    }
}

} // verus!

verus! {

// ---------------------------------------------------------------------------
// Identifier and statement normalisation
// ---------------------------------------------------------------------------

proof fn lemma_trim_start_head(s: Seq<char>, p: spec_fn(char) -> bool)
    ensures
        trim_start_by(s, p).len() > 0 ==> !p(trim_start_by(s, p)[0]),
        trim_start_by(s, p).len() <= s.len(),
    decreases s.len(),
{
    if s.len() > 0 && p(s[0]) {
        lemma_trim_start_head(s.drop_first(), p);
    }
}

proof fn lemma_trim_end_prefix(s: Seq<char>, p: spec_fn(char) -> bool)
    ensures
        trim_end_by(s, p) == s.take(trim_end_by(s, p).len() as int),
        trim_end_by(s, p).len() <= s.len(),
        trim_end_by(s, p).len() > 0 ==> !p(trim_end_by(s, p).last()),
    decreases s.len(),
{
    if s.len() > 0 && p(s.last()) {
        lemma_trim_end_prefix(s.drop_last(), p);
        let r = trim_end_by(s.drop_last(), p);
        assert(s.drop_last().take(r.len() as int) =~= s.take(r.len() as int));
    } else {
        assert(s.take(s.len() as int) =~= s);
    }
}

proof fn lemma_quote_class(c: char)
    ensures
        identifier_quotes()(c) == (c == '"' || c == '`' || c == '[' || c == ']'),
        identifier_quotes()(ascii_lower_char(c)) == identifier_quotes()(c),
        ascii_lower_char(ascii_lower_char(c)) == ascii_lower_char(c),
{
    let q = seq!['"', '`', '[', ']'];
    assert(q[0] == '"' && q[1] == '`' && q[2] == '[' && q[3] == ']');
    if q.contains(c) {
        let i = choose|i: int| 0 <= i < q.len() && q[i] == c;
        assert(i == 0 || i == 1 || i == 2 || i == 3);
    }
    let l = ascii_lower_char(c);
    if q.contains(l) {
        let i = choose|i: int| 0 <= i < q.len() && q[i] == l;
        assert(i == 0 || i == 1 || i == 2 || i == 3);
    }
    if c == '"' { assert(q.contains(q[0])); }
    if c == '`' { assert(q.contains(q[1])); }
    if c == '[' { assert(q.contains(q[2])); }
    if c == ']' { assert(q.contains(q[3])); }
}

/// Normalising an identifier twice gives what normalising it once gives.
pub proof fn law_identifier_normalisation_is_idempotent(token: Seq<char>)
    ensures
        spec_normalize_identifier(spec_normalize_identifier(token)) == spec_normalize_identifier(token),
{
    let q = identifier_quotes();
    let a = trim_start_by(token, q);
    let b = trim_end_by(a, q);
    let r = ascii_lower(b);
    lemma_trim_start_head(token, q);
    lemma_trim_end_prefix(a, q);
    if r.len() > 0 {
        assert(b[0] == a[0]);
        lemma_quote_class(b[0]);
        lemma_quote_class(b.last());
        assert(r[0] == ascii_lower_char(b[0]));
        assert(r.last() == ascii_lower_char(b.last()));
        assert(!q(r[0]));
        assert(!q(r.last()));
    }
    assert(trim_start_by(r, q) == r);
    assert(trim_end_by(r, q) == r);
    assert forall|i: int| 0 <= i < r.len() implies ascii_lower(r)[i] == r[i] by {
        lemma_quote_class(b[i]);
    }
    assert(ascii_lower(r) =~= r);
}

/// The words of a text: its maximal runs of non-whitespace characters, in
/// order (what `str::split_whitespace` yields).
pub open spec fn split_words(s: Seq<char>) -> Seq<Seq<char>>
    decreases s.len(),
{
    if s.len() == 0 {
        Seq::empty()
    } else {
        let w = split_words(s.drop_last());
        let c = s.last();
        if unicode_white_space(c) {
            w
        } else if s.len() >= 2 && !unicode_white_space(s[s.len() - 2]) {
            w.update(w.len() - 1, w.last().push(c))
        } else {
            w.push(seq![c])
        }
    }
}

/// Words joined by single spaces.
pub open spec fn join_words(w: Seq<Seq<char>>) -> Seq<char>
    decreases w.len(),
{
    if w.len() == 0 {
        Seq::empty()
    } else if w.len() == 1 {
        w[0]
    } else {
        join_words(w.drop_last()) + seq![' '] + w.last()
    }
}

proof fn lemma_words_nonempty(s: Seq<char>)
    ensures
        (split_words(s).len() == 0) == (collapse_whitespace(s).len() == 0),
        s.len() > 0 && !unicode_white_space(s.last()) ==> split_words(s).len() > 0,
    decreases s.len(),
{
    if s.len() > 0 {
        lemma_words_nonempty(s.drop_last());
    }
}

proof fn lemma_join_extends_last(w: Seq<Seq<char>>, c: char)
    requires
        w.len() > 0,
    ensures
        join_words(w.update(w.len() - 1, w.last().push(c))) == join_words(w).push(c),
{
    let v = w.update(w.len() - 1, w.last().push(c));
    if w.len() > 1 {
        assert(v.drop_last() =~= w.drop_last());
        assert(join_words(v) == join_words(w.drop_last()) + seq![' '] + w.last().push(c));
        assert(join_words(w.drop_last()) + seq![' '] + w.last().push(c) =~= (join_words(w.drop_last())
            + seq![' '] + w.last()).push(c));
    }
}

/// Collapsing whitespace joins the words of a text with single spaces.
pub proof fn lemma_collapse_joins_words(s: Seq<char>)
    ensures
        collapse_whitespace(s) == join_words(split_words(s)),
    decreases s.len(),
{
    if s.len() > 0 {
        let d = s.drop_last();
        let c = s.last();
        lemma_collapse_joins_words(d);
        lemma_words_nonempty(d);
        let w = split_words(d);
        if !unicode_white_space(c) {
            if s.len() >= 2 && !unicode_white_space(s[s.len() - 2]) {
                assert(d.last() == s[s.len() - 2]);
                lemma_join_extends_last(w, c);
            } else if s.len() >= 2 && collapse_whitespace(d).len() > 0 {
                assert(w.push(seq![c]).drop_last() =~= w);
                assert(join_words(w) + seq![' '] + seq![c] =~= join_words(w) + seq![' ', c]);
            } else {
                assert(w.len() == 0);
                assert(collapse_whitespace(d).len() == 0);
                assert(collapse_whitespace(d).push(c) =~= seq![c]);
            }
        }
    }
}

/// Texts with the same words normalise to the same statement text.
pub proof fn law_statements_with_the_same_words_normalise_alike(a: Seq<char>, b: Seq<char>)
    requires
        split_words(a) == split_words(b),
    ensures
        collapse_whitespace(a) == collapse_whitespace(b),
{
    lemma_collapse_joins_words(a);
    lemma_collapse_joins_words(b);
}

/// A text in collapsed form: no whitespace at either end, and each
/// whitespace character a single space between two other characters.
pub open spec fn single_spaced(r: Seq<char>) -> bool {
    &&& r.len() > 0 ==> !unicode_white_space(r[0]) && !unicode_white_space(r.last())
    &&& forall|i: int|
        0 <= i < r.len() && unicode_white_space(#[trigger] r[i]) ==> r[i] == ' ' && 0 < i < r.len() - 1
            && !unicode_white_space(r[i - 1]) && !unicode_white_space(r[i + 1])
}

/// Collapsing whitespace leaves a single-spaced text.
pub proof fn law_normalised_statements_are_single_spaced(s: Seq<char>)
    ensures
        single_spaced(collapse_whitespace(s)),
    decreases s.len(),
{
    if s.len() > 0 {
        let d = s.drop_last();
        let c = s.last();
        law_normalised_statements_are_single_spaced(d);
        let r = collapse_whitespace(d);
        if !unicode_white_space(c) {
            let x = collapse_whitespace(s);
            if s.len() >= 2 && unicode_white_space(s[s.len() - 2]) && r.len() > 0 {
                assert(x =~= r + seq![' ', c]);
                assert forall|i: int| 0 <= i < x.len() && unicode_white_space(#[trigger] x[i]) implies x[i] == ' '
                    && 0 < i < x.len() - 1 && !unicode_white_space(x[i - 1]) && !unicode_white_space(x[i + 1]) by {
                    if i < r.len() {
                        assert(x[i] == r[i]);
                        if i + 1 < r.len() {
                            assert(x[i + 1] == r[i + 1]);
                        }
                    }
                }
            } else {
                assert(x =~= r.push(c));
                assert forall|i: int| 0 <= i < x.len() && unicode_white_space(#[trigger] x[i]) implies x[i] == ' '
                    && 0 < i < x.len() - 1 && !unicode_white_space(x[i - 1]) && !unicode_white_space(x[i + 1]) by {
                    assert(x[i] == r[i]);
                    if i + 1 < r.len() {
                        assert(x[i + 1] == r[i + 1]);
                    }
                }
            }
        }
    }
}

proof fn lemma_collapse_of_spaced(x: Seq<char>)
    requires
        x.len() > 0 ==> !unicode_white_space(x[0]),
        forall|i: int|
            0 <= i < x.len() && unicode_white_space(#[trigger] x[i]) ==> x[i] == ' ' && 0 < i
                && !unicode_white_space(x[i - 1]),
    ensures
        collapse_whitespace(x) == trim_end_by(x, ws_pred()),
    decreases x.len(),
{
    if x.len() > 0 {
        let y = x.drop_last();
        let c = x.last();
        assert forall|i: int| 0 <= i < y.len() && unicode_white_space(#[trigger] y[i]) implies y[i] == ' ' && 0 < i
            && !unicode_white_space(y[i - 1]) by {
            assert(y[i] == x[i]);
        }
        if y.len() > 0 {
            assert(y[0] == x[0]);
        }
        lemma_collapse_of_spaced(y);
        let p = ws_pred();
        if y.len() > 0 && !unicode_white_space(y.last()) {
            assert(!p(y.last()));
            assert(trim_end_by(y, p) == y);
        }
        if y.len() == 0 {
            assert(trim_end_by(y, p) == y);
        }
        if unicode_white_space(c) {
            assert(p(c));
            assert(x.len() - 1 > 0);
            assert(!unicode_white_space(x[x.len() - 2]));
            assert(y.last() == x[x.len() - 2]);
        } else if x.len() >= 2 && unicode_white_space(x[x.len() - 2]) {
            assert(y.last() == x[x.len() - 2]);
            assert(y.last() == ' ');
            let z = y.drop_last();
            assert(z.len() > 0);
            assert(z.last() == x[x.len() - 3]);
            assert(!p(z.last()));
            assert(trim_end_by(z, p) == z);
            assert(p(y.last()));
            assert(trim_end_by(y, p) == z);
            assert(collapse_whitespace(y).len() > 0);
            assert(z + seq![' ', c] =~= x);
            assert(!p(x.last()));
            assert(trim_end_by(x, p) == x);
        } else {
            assert(!p(x.last()));
            assert(trim_end_by(x, p) == x);
            assert(y.push(c) =~= x);
        }
    }
}

/// Normalising a statement text twice gives what normalising it once gives.
pub proof fn law_statement_normalisation_is_idempotent(s: Seq<char>)
    ensures
        collapse_whitespace(collapse_whitespace(s)) == collapse_whitespace(s),
{
    let r = collapse_whitespace(s);
    law_normalised_statements_are_single_spaced(s);
    lemma_collapse_of_spaced(r);
    let p = ws_pred();
    if r.len() > 0 {
        assert(!p(r.last()));
    }
    assert(trim_end_by(r, p) == r);
}

} // verus!

verus! {

/// The number of plan assignments whose first unit is `u`.
pub open spec fn owned_count(u: crate::provider_schedule::PlanUnit, a: Seq<crate::provider_schedule::PlanAssignment>) -> nat
    decreases a.len(),
{
    if a.len() == 0 {
        0
    } else {
        owned_count(u, a.drop_last()) + if crate::provider_schedule::first_owner(a.last()) == u.id@ {
            1nat
        } else {
            0nat
        }
    }
}

/// Each file a unit owns in the plan goes either to the unit's provider or
/// to its omissions, never to both; the two lists together have one entry per
/// owned assignment; and a TypeScript unit never hands its provider a Vue
/// component.
pub proof fn law_unit_files_are_scheduled_or_omitted(
    u: crate::provider_schedule::PlanUnit,
    a: Seq<crate::provider_schedule::PlanAssignment>,
)
    ensures
        crate::provider_schedule::provider_files_of(u, a).len() + crate::provider_schedule::unit_omissions(u, a).len()
            == owned_count(u, a),
        forall|p: Seq<char>|
            crate::provider_schedule::provider_files_of(u, a).contains(p)
                ==> crate::provider_schedule::omission_reason_of(u, p) is None,
        forall|k: int|
            0 <= k < crate::provider_schedule::unit_omissions(u, a).len() ==> crate::provider_schedule::omission_reason_of(
                u,
                (#[trigger] crate::provider_schedule::unit_omissions(u, a)[k]).1,
            ) is Some,
        forall|p: Seq<char>, k: int|
            #![trigger crate::provider_schedule::provider_files_of(u, a).contains(p), crate::provider_schedule::unit_omissions(u, a)[k]]
            crate::provider_schedule::provider_files_of(u, a).contains(p) && 0 <= k
                < crate::provider_schedule::unit_omissions(u, a).len() ==> crate::provider_schedule::unit_omissions(
                u,
                a,
            )[k].1 != p,
        u.language == crate::model::ProgrammingLanguage::TypeScript ==> forall|p: Seq<char>|
            crate::provider_schedule::provider_files_of(u, a).contains(p)
                ==> !crate::provider_schedule::is_vue_path(p),
    decreases a.len(),
{
    let files = crate::provider_schedule::provider_files_of(u, a);
    let om = crate::provider_schedule::unit_omissions(u, a);
    if a.len() > 0 {
        let d = a.drop_last();
        law_unit_files_are_scheduled_or_omitted(u, d);
        let f0 = crate::provider_schedule::provider_files_of(u, d);
        let o0 = crate::provider_schedule::unit_omissions(u, d);
        assert forall|p: Seq<char>| files.contains(p) implies crate::provider_schedule::omission_reason_of(u, p) is None by {
            if !f0.contains(p) {
                let j = choose|j: int| 0 <= j < files.len() && files[j] == p;
                assert(j == files.len() - 1 || f0[j] == p);
            } else {
            }
        }
        assert forall|k: int| 0 <= k < om.len() implies crate::provider_schedule::omission_reason_of(u, (#[trigger] om[k]).1) is Some by {
            if k < o0.len() {
                assert(om[k] == o0[k]);
            }
        }
    }
    assert forall|p: Seq<char>, k: int|
        #![trigger files.contains(p), om[k]]
        files.contains(p) && 0 <= k < om.len() implies om[k].1 != p by {
        assert(crate::provider_schedule::omission_reason_of(u, om[k].1) is Some);
    }
}

} // verus!

verus! {

/// The SQL-literal inventory of a file lists its sites in order of range,
/// operation and digest, never lists two neighbours with one range and one
/// digest, and holds only the sites of string literals that the walk of the
/// tree reaches.
pub proof fn law_sql_sites_are_ordered_and_distinct(
    language: Seq<char>,
    source: Seq<char>,
    nodes: Seq<crate::syntax_tree::NodeTuple>,
)
    requires
        crate::sql_inventory::spec_sql_inventory(language, source, nodes) is Ok,
    ensures
        ({
            let v = match crate::sql_inventory::spec_sql_inventory(language, source, nodes) {
                Ok(v) => v,
                Err(_) => Seq::empty(),
            };
            &&& crate::sql_inventory::sites_ordered(v)
            &&& forall|i: int|
                0 <= i < v.len() - 1 ==> !crate::sql_inventory::same_site(#[trigger] v[i], v[i + 1])
            &&& forall|i: int|
                0 <= i < v.len() ==> exists|k: int|
                    0 <= k < nodes.len() && crate::sql_inventory::is_literal(language, nodes, k)
                        && crate::sql_inventory::candidate(language, source, nodes, k) == Some(#[trigger] v[i])
        }),
{
    let all = crate::sql_inventory::candidates(language, source, nodes, nodes.len() as int);
    let sorted = crate::sql_inventory::sort_sites(all);
    let v = crate::sql_inventory::dedup_sites(sorted);
    crate::sql_inventory::lemma_candidates_come_from_nodes(language, source, nodes, nodes.len() as int);
    crate::sql_inventory::lemma_sort_sites_ordered(all);
    crate::sql_inventory::lemma_dedup_sites(sorted);
    assert forall|i: int| 0 <= i < v.len() implies exists|k: int|
        0 <= k < nodes.len() && crate::sql_inventory::is_literal(language, nodes, k)
            && crate::sql_inventory::candidate(language, source, nodes, k) == Some(#[trigger] v[i]) by {
        assert(sorted.contains(v[i]));
        let a = choose|a: int| 0 <= a < sorted.len() && sorted[a] == v[i];
        assert(all.contains(sorted[a]));
        let b = choose|b: int| 0 <= b < all.len() && all[b] == v[i];
        let k = choose|k: int| 0 <= k < nodes.len() && crate::sql_inventory::candidate(language, source, nodes, k) == Some(all[b]);
        assert(crate::sql_inventory::candidate(language, source, nodes, k) == Some(v[i]));
    }
}


/// An omission of the plan, owned by unit `m`: the unit runs in the
/// omission's language, gives its reason, and owns the first assignment of
/// its file and language.
spec fn owned_omission(units: Seq<PlanUnit>, a: Seq<PlanAssignment>, o: OmissionView, m: int) -> bool {
    &&& 0 <= m < units.len()
    &&& units[m].language == o.0
    &&& omission_reason_of(units[m], o.1) == Some(o.2)
    &&& omitted_key(a, o) == Some((o.0, o.1, units[m].id@))
}

proof fn lemma_omitted_key_of(units: Seq<PlanUnit>, a: Seq<PlanAssignment>, i: int)
    requires
        plan_is_valid(units, a),
        0 <= i < all_omissions(units, a).len(),
    ensures
        exists|m: int| owned_omission(units, a, all_omissions(units, a)[i], m),
{
    let o = all_omissions(units, a)[i];
    lemma_omission_source(units, a, i);
    let m = choose|m: int|
        0 <= m < units.len() && {
            let o = all_omissions(units, a)[i];
            &&& o.0 == (#[trigger] units[m]).language
            &&& omission_reason_of(units[m], o.1) == Some(o.2)
            &&& exists|t: int|
                0 <= t < a.len() && first_owner(#[trigger] a[t]) == units[m].id@ && a[t].path.value@ == o.1
        };
    let t = choose|t: int| 0 <= t < a.len() && first_owner(#[trigger] a[t]) == units[m].id@ && a[t].path.value@ == o.1;
    assert(units[m].language == a[t].language);
    assert(is_first_assignment_of(a, o, t)) by {
        assert forall|q: int| 0 <= q < t implies !((#[trigger] a[q]).language == o.0 && a[q].path.value@ == o.1) by {
            if a[q].language == o.0 && a[q].path.value@ == o.1 {
                assert(a[q].language == a[t].language);
            }
        }
    }
    let i2 = choose|i2: int| #[trigger] is_first_assignment_of(a, o, i2);
    assert(is_first_assignment_of(a, o, i2));
    assert(a[i2].language == a[t].language && a[i2].path.value@ == a[t].path.value@);
    assert(i2 == t);
    assert(owned_omission(units, a, o, m));
}

/// A schedule built for a valid plan adds up: when it schedules no file
/// twice and accounts for the plan, the planned file/language pairs number
/// exactly the scheduled files plus the project-model-only and the
/// project-config-excluded omissions.
pub proof fn law_schedule_counts_add_up(
    units: Seq<PlanUnit>,
    assignments: Seq<PlanAssignment>,
    project_units: Seq<ProjectModelUnit>,
    listed: Seq<OmissionView>,
)
    requires
        plan_is_valid(units, assignments),
        !has_repeat(shard_keys(all_shards(units, assignments, project_units))),
        accounts_for_plan(
            assignments,
            shard_keys(all_shards(units, assignments, project_units)),
            all_omissions(units, assignments),
        ),
        omissions_sorted(listed),
        listed.to_set() == all_omissions(units, assignments).to_set(),
    ensures
        planned_keys(assignments).len() == shard_keys(all_shards(units, assignments, project_units)).len()
            + reason_count(listed, OmissionReason::ProjectModelOnly) + reason_count(
            listed,
            OmissionReason::ProjectConfigExcluded,
        ),
{
    let keys = shard_keys(all_shards(units, assignments, project_units));
    let omitted = all_omissions(units, assignments);
    let oks = omitted_keys(assignments, omitted);
    lemma_reason_counts_add_up(listed);
    assert(keys.no_duplicates()) by {
        assert forall|i: int, j: int| 0 <= i < keys.len() && 0 <= j < keys.len() && i != j implies keys[i] != keys[j] by {
            if keys[i] == keys[j] {
                let lo = if i < j { i } else { j };
                let hi = if i < j { j } else { i };
                assert(keys.take(hi)[lo] == keys[hi]);
                assert(keys.take(hi).contains(keys[hi]));
            }
        }
    }
    keys.unique_seq_to_set();
    let ks = listed.map_values(|o: OmissionView| omitted_key(assignments, o)->0);
    assert forall|j: int| 0 <= j < listed.len() implies exists|mm: int|
        0 <= mm < omitted.len() && #[trigger] listed[j] == omitted[mm] by {
        assert(listed.contains(listed[j]));
        assert(listed.to_set().contains(listed[j]));
        assert(omitted.to_set().contains(listed[j]));
    }
    assert(oks =~= ks.to_set()) by {
        assert forall|k: ScheduleKey| oks.contains(k) implies ks.contains(k) by {
            let mm = choose|mm: int| 0 <= mm < omitted.len() && omitted_key(assignments, #[trigger] omitted[mm]) == Some(k);
            assert(omitted.contains(omitted[mm]));
            assert(omitted.to_set().contains(omitted[mm]));
            assert(listed.to_set().contains(omitted[mm]));
            let j = choose|j: int| 0 <= j < listed.len() && listed[j] == omitted[mm];
            assert(ks[j] == k);
        }
        assert forall|k: ScheduleKey| ks.contains(k) implies oks.contains(k) by {
            let j = choose|j: int| 0 <= j < ks.len() && ks[j] == k;
            let mm = choose|mm: int| 0 <= mm < omitted.len() && #[trigger] listed[j] == omitted[mm];
            lemma_omitted_key_of(units, assignments, mm);
            let m = choose|m: int| owned_omission(units, assignments, omitted[mm], m);
            assert(omitted_key(assignments, omitted[mm]) == Some(k));
        }
    }
    assert(ks.no_duplicates()) by {
        assert forall|i: int, j: int| 0 <= i < ks.len() && 0 <= j < ks.len() && i != j implies ks[i] != ks[j] by {
            if ks[i] == ks[j] {
                let pi = choose|mm: int| 0 <= mm < omitted.len() && #[trigger] listed[i] == omitted[mm];
                let pj = choose|mm: int| 0 <= mm < omitted.len() && #[trigger] listed[j] == omitted[mm];
                lemma_omitted_key_of(units, assignments, pi);
                lemma_omitted_key_of(units, assignments, pj);
                let mi = choose|m: int| owned_omission(units, assignments, omitted[pi], m);
                let mj = choose|m: int| owned_omission(units, assignments, omitted[pj], m);
                assert(units[mi].id@ == units[mj].id@);
                assert(mi == mj);
                assert(listed[i] == listed[j]);
                let lo = if i < j { i } else { j };
                let hi = if i < j { j } else { i };
                assert(omission_before(listed[lo], listed[hi]));
                crate::text::lemma_seq_lt_irreflexive(listed[i].1);
            }
        }
    }
    ks.unique_seq_to_set();
    vstd::seq_lib::seq_to_set_is_finite(keys);
    vstd::seq_lib::seq_to_set_is_finite(ks);
    assert(keys.to_set().disjoint(oks)) by {
        assert forall|k: ScheduleKey| keys.to_set().contains(k) implies !oks.contains(k) by {
            assert(keys.contains(k));
            law_no_planned_file_is_both_scheduled_and_omitted(units, assignments, project_units, k);
        }
    }
    vstd::set_lib::lemma_set_disjoint_lens(keys.to_set(), oks);
    assert(keys.to_set() + oks == planned_keys(assignments));
}

/// For a valid plan, no planned file is both scheduled and omitted: a key
/// the plan's shards schedule is never the key of one of its omissions.
pub proof fn law_no_planned_file_is_both_scheduled_and_omitted(
    units: Seq<PlanUnit>,
    assignments: Seq<PlanAssignment>,
    project_units: Seq<ProjectModelUnit>,
    k: ScheduleKey,
)
    requires
        plan_is_valid(units, assignments),
    ensures
        !(shard_keys(all_shards(units, assignments, project_units)).contains(k) && omitted_keys(
            assignments,
            all_omissions(units, assignments),
        ).contains(k)),
{
    let keys = shard_keys(all_shards(units, assignments, project_units));
    let omitted = all_omissions(units, assignments);
    let oks = omitted_keys(assignments, omitted);
    if keys.contains(k) && oks.contains(k) {
        let mm = choose|mm: int| 0 <= mm < omitted.len() && omitted_key(assignments, #[trigger] omitted[mm]) == Some(k);
        lemma_omitted_key_of(units, assignments, mm);
        let m2 = choose|m: int| owned_omission(units, assignments, omitted[mm], m);
        let i = choose|i: int| 0 <= i < keys.len() && keys[i] == k;
        lemma_scheduled_key_unit(units, assignments, project_units, i);
        let m1 = choose|m: int|
            0 <= m < units.len() && {
                let key = shard_keys(all_shards(units, assignments, project_units))[i];
                &&& key.0 == (#[trigger] units[m]).language
                &&& key.2 == units[m].id@
                &&& provider_files_of(units[m], assignments).contains(key.1)
            };
        assert(units[m1].id@ == units[m2].id@);
        assert(m1 == m2);
        law_unit_files_are_scheduled_or_omitted(units[m1], assignments);
    }
}

/// A Vue component of a TypeScript unit is measured by the project model:
/// no file the plan's shards schedule for TypeScript is a `.vue` file.
pub proof fn law_no_vue_component_is_scheduled_for_typescript(
    units: Seq<PlanUnit>,
    assignments: Seq<PlanAssignment>,
    project_units: Seq<ProjectModelUnit>,
    i: int,
)
    requires
        0 <= i < shard_keys(all_shards(units, assignments, project_units)).len(),
        shard_keys(all_shards(units, assignments, project_units))[i].0 == ProgrammingLanguage::TypeScript,
    ensures
        !is_vue_path(shard_keys(all_shards(units, assignments, project_units))[i].1),
{
    lemma_scheduled_key_unit(units, assignments, project_units, i);
    let m = choose|m: int|
        0 <= m < units.len() && {
            let key = shard_keys(all_shards(units, assignments, project_units))[i];
            &&& key.0 == (#[trigger] units[m]).language
            &&& key.2 == units[m].id@
            &&& provider_files_of(units[m], assignments).contains(key.1)
        };
    law_unit_files_are_scheduled_or_omitted(units[m], assignments);
}


/// The census never reads a link or a file of secrets: a link, wherever it
/// points, is recorded as an excluded scope or entry and never entered or
/// measured, and a sensitive file is recorded as excluded, unread, for that
/// reason, whatever its classification.
pub proof fn law_links_and_secrets_are_never_read(
    target: Option<bool>,
    target_is_directory: bool,
    has_extension: bool,
    policy: FilePolicy,
)
    ensures
        !(spec_link_decision(target, target_is_directory, has_extension) is Walk),
        !(spec_link_decision(target, target_is_directory, has_extension) is Measure),
        spec_file_decision(true, policy) matches DecisionView::Unread(state, _, gaps) && state
            == EntryState::Excluded && gaps.contains(CensusGap::SensitiveFile),
{
    assert(seq![CensusGap::ExcludedByRule, CensusGap::SensitiveFile][1] == CensusGap::SensitiveFile);
}


/// A MERGE statement writes the table named after its first `INTO`: its
/// operation is MERGE and, whatever it reads, its accesses include that table
/// as written, so the statement is never dropped as naming no table.
pub proof fn law_merge_writes_the_table_after_into(sql: Seq<char>, first: Seq<char>, table: Seq<char>)
    requires
        crate::sql_literals::first_identifier(crate::sql_literals::spec_sql_tokens(sql)) == Some(first),
        crate::text::ascii_upper(first) == "MERGE"@,
        crate::sql_literals::keyword_table(crate::sql_literals::spec_sql_tokens(sql), "INTO"@) == Some(table),
    ensures
        crate::sql_literals::sql_operation(first) == Some("MERGE"@),
        crate::sql_literals::raw_accesses(crate::sql_literals::spec_sql_tokens(sql), "MERGE"@).contains(
            (table, crate::sql_literals::SqlTableAccessKind::Write),
        ),
        crate::sql_literals::raw_accesses(crate::sql_literals::spec_sql_tokens(sql), "MERGE"@).len() > 0,
{
    reveal_strlit("MERGE");
    reveal_strlit("SELECT");
    reveal_strlit("WITH");
    reveal_strlit("INSERT");
    reveal_strlit("UPDATE");
    reveal_strlit("DELETE");
    let t = crate::sql_literals::spec_sql_tokens(sql);
    let raw = crate::sql_literals::raw_accesses(t, "MERGE"@);
    assert(crate::sql_literals::write_accesses(t, "MERGE"@) == seq![
        (table, crate::sql_literals::SqlTableAccessKind::Write),
    ]);
    assert(raw[0] == (table, crate::sql_literals::SqlTableAccessKind::Write));
}

/// A source file that sits in a test directory (a path segment `test`,
/// `tests`, `spec`, `specs`, `e2e` or `__tests__`) is a test, measured,
/// unless its name marks it as generated.
pub proof fn law_files_in_test_directories_are_tests(lower: Seq<char>, i: int)
    requires
        0 <= i < crate::census::split_on(lower, '/').len(),
        ({
            let s = crate::census::split_on(lower, '/')[i];
            s == "test"@ || s == "tests"@ || s == "spec"@ || s == "specs"@ || s == "e2e"@ || s == "__tests__"@
        }),
        !crate::census::spec_is_generated_name(crate::census::file_name(lower)),
    ensures
        crate::census::spec_kind_and_policy(lower, true) == (crate::model::SourceFileKind::Test, FilePolicy::Measure),
{
    let segments = crate::census::split_on(lower, '/');
    assert(crate::census::is_test_segment(segments[i]));
    assert(crate::census::has_test_segment(segments));
}

/// In Java a method whose header carries the word `final`, `static` or
/// `private` cannot be overridden, so a call to it dispatches directly,
/// whatever its owner or declared accessibility.
pub proof fn law_java_final_static_and_private_methods_dispatch_directly(
    kind: FactNodeKind,
    signature: Seq<char>,
    visibility: crate::model::Visibility,
    owner: Option<FactNodeKind>,
    word: Seq<char>,
)
    requires
        word == "final"@ || word == "static"@ || word == "private"@,
        crate::text::has_word_token(signature, word),
    ensures
        crate::dispatch::spec_java_dispatch((kind, Some(signature), visibility, owner))
            == crate::model::DispatchKind::Direct,
{
}

/// A Python relative import from a plain module `p0.p1...pk` names, for `n`
/// leading dots, the module's package with `n - 1` further trailing parts
/// removed, followed by the suffix: one dot is the module's own package,
/// each further dot climbs one package more.
pub proof fn law_each_extra_leading_dot_climbs_one_package(module: Seq<char>, n: nat, suffix: Seq<char>)
    requires
        1 <= n < crate::census::split_on(module, '.').len(),
        crate::census::split_on(module, '.')[0].len() > 0,
        suffix.len() > 0,
    ensures
        crate::imports::python_relative_name(module, false, n, suffix) == Some(
            crate::text::join_with(
                crate::census::split_on(module, '.').take(crate::census::split_on(module, '.').len() - n),
                seq!['.'],
            ) + seq!['.'] + suffix,
        ),
{
    let p = crate::census::split_on(module, '.');
    let k = p.len() as int;
    let kept = p.take(k - n);
    assert(p.drop_last().take((k - 1) - (n - 1)) =~= kept);
    lemma_join_nonempty(kept, seq!['.']);
}

/// A join of parts whose first part is not empty is not empty.
proof fn lemma_join_nonempty(parts: Seq<Seq<char>>, sep: Seq<char>)
    requires
        parts.len() >= 1,
        parts[0].len() > 0,
    ensures
        crate::text::join_with(parts, sep).len() > 0,
    decreases parts.len(),
{
    if parts.len() > 1 {
        lemma_join_nonempty(parts.drop_last(), sep);
    }
}

/// A provider kind spelled `field` or `property`, in any case and with any
/// punctuation, is a field definition.
pub proof fn law_fields_and_properties_are_field_definitions(native: Seq<char>)
    requires
        crate::definitions::compact_kind(native) == "field"@ || crate::definitions::compact_kind(native)
            == "property"@,
    ensures
        crate::definitions::spec_canonical_definition_kind(native) == Some(FactNodeKind::Field),
{
    reveal_strlit("field");
    reveal_strlit("property");
    reveal_strlit("namespace");
    reveal_strlit("package");
    reveal_strlit("module");
    reveal_strlit("type");
    reveal_strlit("class");
    reveal_strlit("interface");
    reveal_strlit("trait");
    reveal_strlit("mixin");
    reveal_strlit("struct");
    reveal_strlit("union");
    reveal_strlit("enum");
    reveal_strlit("typealias");
    reveal_strlit("typedef");
    reveal_strlit("function");
    reveal_strlit("operator");
    reveal_strlit("method");
    reveal_strlit("constructor");
    reveal_strlit("constant");
    let c = crate::definitions::compact_kind(native);
    assert(c.len() == 5 || c.len() == 8);
    assert(c[0] == 'f' || c[0] == 'p');
    assert(c.len() == 5 ==> c[1] == 'i');
    assert(c.len() == 8 ==> c[1] == 'r');
    assert(c != "namespace"@) by {
        if c == "namespace"@ {
            assert(c.len() == 9);
            assert(c[0] == 'n');
            assert(c[1] == 'a');
        }
    }
    assert(c != "package"@) by {
        if c == "package"@ {
            assert(c.len() == 7);
            assert(c[0] == 'p');
            assert(c[1] == 'a');
        }
    }
    assert(c != "module"@) by {
        if c == "module"@ {
            assert(c.len() == 6);
            assert(c[0] == 'm');
            assert(c[1] == 'o');
        }
    }
    assert(c != "type"@) by {
        if c == "type"@ {
            assert(c.len() == 4);
            assert(c[0] == 't');
            assert(c[1] == 'y');
        }
    }
    assert(c != "class"@) by {
        if c == "class"@ {
            assert(c.len() == 5);
            assert(c[0] == 'c');
            assert(c[1] == 'l');
        }
    }
    assert(c != "interface"@) by {
        if c == "interface"@ {
            assert(c.len() == 9);
            assert(c[0] == 'i');
            assert(c[1] == 'n');
        }
    }
    assert(c != "trait"@) by {
        if c == "trait"@ {
            assert(c.len() == 5);
            assert(c[0] == 't');
            assert(c[1] == 'r');
        }
    }
    assert(c != "mixin"@) by {
        if c == "mixin"@ {
            assert(c.len() == 5);
            assert(c[0] == 'm');
            assert(c[1] == 'i');
        }
    }
    assert(c != "struct"@) by {
        if c == "struct"@ {
            assert(c.len() == 6);
            assert(c[0] == 's');
            assert(c[1] == 't');
        }
    }
    assert(c != "union"@) by {
        if c == "union"@ {
            assert(c.len() == 5);
            assert(c[0] == 'u');
            assert(c[1] == 'n');
        }
    }
    assert(c != "enum"@) by {
        if c == "enum"@ {
            assert(c.len() == 4);
            assert(c[0] == 'e');
            assert(c[1] == 'n');
        }
    }
    assert(c != "typealias"@) by {
        if c == "typealias"@ {
            assert(c.len() == 9);
            assert(c[0] == 't');
            assert(c[1] == 'y');
        }
    }
    assert(c != "typedef"@) by {
        if c == "typedef"@ {
            assert(c.len() == 7);
            assert(c[0] == 't');
            assert(c[1] == 'y');
        }
    }
    assert(c != "function"@) by {
        if c == "function"@ {
            assert(c.len() == 8);
            assert(c[0] == 'f');
            assert(c[1] == 'u');
        }
    }
    assert(c != "operator"@) by {
        if c == "operator"@ {
            assert(c.len() == 8);
            assert(c[0] == 'o');
            assert(c[1] == 'p');
        }
    }
    assert(c != "method"@) by {
        if c == "method"@ {
            assert(c.len() == 6);
            assert(c[0] == 'm');
            assert(c[1] == 'e');
        }
    }
    assert(c != "constructor"@) by {
        if c == "constructor"@ {
            assert(c.len() == 11);
            assert(c[0] == 'c');
            assert(c[1] == 'o');
        }
    }
    assert(c != "constant"@) by {
        if c == "constant"@ {
            assert(c.len() == 8);
            assert(c[0] == 'c');
            assert(c[1] == 'o');
        }
    }
}


/// Each native kind spelling a provider may use, compared by its ASCII
/// letters and digits in lower case, names its product kind: namespaces,
/// packages and modules; types; classes; interfaces; traits and mixins;
/// structs and unions; enums; type aliases and typedefs; functions and
/// operators; methods; constructors; constants; fields and properties.
pub proof fn law_native_kind_spellings_name_their_kind(native: Seq<char>)
    ensures
        crate::definitions::compact_kind(native) == "namespace"@ ==> crate::definitions::spec_canonical_definition_kind(native) == Some(FactNodeKind::Namespace),
        crate::definitions::compact_kind(native) == "package"@ ==> crate::definitions::spec_canonical_definition_kind(native) == Some(FactNodeKind::Namespace),
        crate::definitions::compact_kind(native) == "module"@ ==> crate::definitions::spec_canonical_definition_kind(native) == Some(FactNodeKind::Namespace),
        crate::definitions::compact_kind(native) == "type"@ ==> crate::definitions::spec_canonical_definition_kind(native) == Some(FactNodeKind::Type),
        crate::definitions::compact_kind(native) == "class"@ ==> crate::definitions::spec_canonical_definition_kind(native) == Some(FactNodeKind::Class),
        crate::definitions::compact_kind(native) == "interface"@ ==> crate::definitions::spec_canonical_definition_kind(native) == Some(FactNodeKind::Interface),
        crate::definitions::compact_kind(native) == "trait"@ ==> crate::definitions::spec_canonical_definition_kind(native) == Some(FactNodeKind::Trait),
        crate::definitions::compact_kind(native) == "mixin"@ ==> crate::definitions::spec_canonical_definition_kind(native) == Some(FactNodeKind::Trait),
        crate::definitions::compact_kind(native) == "struct"@ ==> crate::definitions::spec_canonical_definition_kind(native) == Some(FactNodeKind::Struct),
        crate::definitions::compact_kind(native) == "union"@ ==> crate::definitions::spec_canonical_definition_kind(native) == Some(FactNodeKind::Struct),
        crate::definitions::compact_kind(native) == "enum"@ ==> crate::definitions::spec_canonical_definition_kind(native) == Some(FactNodeKind::Enum),
        crate::definitions::compact_kind(native) == "typealias"@ ==> crate::definitions::spec_canonical_definition_kind(native) == Some(FactNodeKind::TypeAlias),
        crate::definitions::compact_kind(native) == "typedef"@ ==> crate::definitions::spec_canonical_definition_kind(native) == Some(FactNodeKind::TypeAlias),
        crate::definitions::compact_kind(native) == "function"@ ==> crate::definitions::spec_canonical_definition_kind(native) == Some(FactNodeKind::Function),
        crate::definitions::compact_kind(native) == "operator"@ ==> crate::definitions::spec_canonical_definition_kind(native) == Some(FactNodeKind::Function),
        crate::definitions::compact_kind(native) == "method"@ ==> crate::definitions::spec_canonical_definition_kind(native) == Some(FactNodeKind::Method),
        crate::definitions::compact_kind(native) == "constructor"@ ==> crate::definitions::spec_canonical_definition_kind(native) == Some(FactNodeKind::Constructor),
        crate::definitions::compact_kind(native) == "constant"@ ==> crate::definitions::spec_canonical_definition_kind(native) == Some(FactNodeKind::Constant),
        crate::definitions::compact_kind(native) == "field"@ ==> crate::definitions::spec_canonical_definition_kind(native) == Some(FactNodeKind::Field),
        crate::definitions::compact_kind(native) == "property"@ ==> crate::definitions::spec_canonical_definition_kind(native) == Some(FactNodeKind::Field),
{
    reveal_strlit("namespace");
    reveal_strlit("package");
    reveal_strlit("module");
    reveal_strlit("type");
    reveal_strlit("class");
    reveal_strlit("interface");
    reveal_strlit("trait");
    reveal_strlit("mixin");
    reveal_strlit("struct");
    reveal_strlit("union");
    reveal_strlit("enum");
    reveal_strlit("typealias");
    reveal_strlit("typedef");
    reveal_strlit("function");
    reveal_strlit("operator");
    reveal_strlit("method");
    reveal_strlit("constructor");
    reveal_strlit("constant");
    reveal_strlit("field");
    reveal_strlit("property");
    let c = crate::definitions::compact_kind(native);
    if c == "namespace"@ {
        assert(c.len() == 9 && c[0] == 'n' && c[1] == 'a');
    }
    if c == "package"@ {
        assert(c.len() == 7 && c[0] == 'p' && c[1] == 'a');
    }
    if c == "module"@ {
        assert(c.len() == 6 && c[0] == 'm' && c[1] == 'o');
    }
    if c == "type"@ {
        assert(c.len() == 4 && c[0] == 't' && c[1] == 'y');
    }
    if c == "class"@ {
        assert(c.len() == 5 && c[0] == 'c' && c[1] == 'l');
    }
    if c == "interface"@ {
        assert(c.len() == 9 && c[0] == 'i' && c[1] == 'n');
    }
    if c == "trait"@ {
        assert(c.len() == 5 && c[0] == 't' && c[1] == 'r');
    }
    if c == "mixin"@ {
        assert(c.len() == 5 && c[0] == 'm' && c[1] == 'i');
    }
    if c == "struct"@ {
        assert(c.len() == 6 && c[0] == 's' && c[1] == 't');
    }
    if c == "union"@ {
        assert(c.len() == 5 && c[0] == 'u' && c[1] == 'n');
    }
    if c == "enum"@ {
        assert(c.len() == 4 && c[0] == 'e' && c[1] == 'n');
    }
    if c == "typealias"@ {
        assert(c.len() == 9 && c[0] == 't' && c[1] == 'y');
    }
    if c == "typedef"@ {
        assert(c.len() == 7 && c[0] == 't' && c[1] == 'y');
    }
    if c == "function"@ {
        assert(c.len() == 8 && c[0] == 'f' && c[1] == 'u');
    }
    if c == "operator"@ {
        assert(c.len() == 8 && c[0] == 'o' && c[1] == 'p');
    }
    if c == "method"@ {
        assert(c.len() == 6 && c[0] == 'm' && c[1] == 'e');
    }
    if c == "constructor"@ {
        assert(c.len() == 11 && c[0] == 'c' && c[1] == 'o');
    }
    if c == "constant"@ {
        assert(c.len() == 8 && c[0] == 'c' && c[1] == 'o');
    }
    if c == "field"@ {
        assert(c.len() == 5 && c[0] == 'f' && c[1] == 'i');
    }
    if c == "property"@ {
        assert(c.len() == 8 && c[0] == 'p' && c[1] == 'r');
    }
}

/// Every statement writes its target: INSERT the table after its first
/// `INTO`, UPDATE the table after its first token, DELETE the table after its
/// first `FROM`, MERGE the table after its first `INTO`.
pub proof fn law_statements_write_their_target(sql: Seq<char>, first: Seq<char>, table: Seq<char>)
    requires
        crate::sql_literals::first_identifier(crate::sql_literals::spec_sql_tokens(sql)) == Some(first),
        ({
            let t = crate::sql_literals::spec_sql_tokens(sql);
            let u = crate::text::ascii_upper(first);
            ||| (u == "INSERT"@ || u == "MERGE"@) && crate::sql_literals::keyword_table(t, "INTO"@) == Some(table)
            ||| u == "UPDATE"@ && crate::sql_literals::spec_table_after(t, 1) == Some(table)
            ||| u == "DELETE"@ && crate::sql_literals::keyword_table(t, "FROM"@) == Some(table)
        }),
    ensures
        crate::sql_literals::sql_operation(first) == Some(crate::text::ascii_upper(first)),
        crate::sql_literals::raw_accesses(
            crate::sql_literals::spec_sql_tokens(sql),
            crate::text::ascii_upper(first),
        ).contains((table, crate::sql_literals::SqlTableAccessKind::Write)),
{
    reveal_strlit("MERGE");
    reveal_strlit("SELECT");
    reveal_strlit("WITH");
    reveal_strlit("INSERT");
    reveal_strlit("UPDATE");
    reveal_strlit("DELETE");
    let t = crate::sql_literals::spec_sql_tokens(sql);
    let u = crate::text::ascii_upper(first);
    if u == "INSERT"@ {
        assert(u.len() == 6 && u[0] == 'I');
    }
    if u == "UPDATE"@ {
        assert(u.len() == 6 && u[0] == 'U');
    }
    if u == "DELETE"@ {
        assert(u.len() == 6 && u[0] == 'D');
    }
    if u == "MERGE"@ {
        assert(u.len() == 5 && u[0] == 'M');
    }
    let raw = crate::sql_literals::raw_accesses(t, u);
    assert(crate::sql_literals::write_accesses(t, u) == seq![(table, crate::sql_literals::SqlTableAccessKind::Write)]);
    assert(raw[0] == (table, crate::sql_literals::SqlTableAccessKind::Write));
}

/// Every table named after a `FROM` or `JOIN` token, unless it names a CTE
/// of the statement, is read.
pub proof fn law_tables_after_from_and_join_are_read(sql: Seq<char>, op: Seq<char>, p: int, table: Seq<char>)
    requires
        ({
            let t = crate::sql_literals::spec_sql_tokens(sql);
            &&& crate::sql_literals::token_is(t, p, "FROM"@) || crate::sql_literals::token_is(t, p, "JOIN"@)
            &&& crate::sql_literals::spec_table_after(t, p + 1) == Some(table)
            &&& !crate::sql_literals::is_cte_name(crate::sql_literals::spec_cte_names(t), table)
        }),
    ensures
        crate::sql_literals::raw_accesses(crate::sql_literals::spec_sql_tokens(sql), op).contains(
            (table, crate::sql_literals::SqlTableAccessKind::Read),
        ),
{
    let t = crate::sql_literals::spec_sql_tokens(sql);
    let cte = crate::sql_literals::spec_cte_names(t);
    lemma_read_after(t, cte, p, table, t.len() as int);
    let w = crate::sql_literals::write_accesses(t, op);
    let r = crate::sql_literals::read_accesses(t, cte, t.len() as int);
    let k = choose|k: int| 0 <= k < r.len() && r[k] == (table, crate::sql_literals::SqlTableAccessKind::Read);
    assert((w + r)[w.len() + k] == r[k]);
}

proof fn lemma_read_after(t: Seq<Seq<char>>, cte: Seq<Seq<char>>, p: int, table: Seq<char>, n: int)
    requires
        p < n,
        crate::sql_literals::token_is(t, p, "FROM"@) || crate::sql_literals::token_is(t, p, "JOIN"@),
        crate::sql_literals::spec_table_after(t, p + 1) == Some(table),
        !crate::sql_literals::is_cte_name(cte, table),
    ensures
        crate::sql_literals::read_accesses(t, cte, n).contains((table, crate::sql_literals::SqlTableAccessKind::Read)),
    decreases n,
{
    let r = crate::sql_literals::read_accesses(t, cte, n - 1);
    if p < n - 1 {
        lemma_read_after(t, cte, p, table, n - 1);
        let k = choose|k: int| 0 <= k < r.len() && r[k] == (table, crate::sql_literals::SqlTableAccessKind::Read);
        let full = crate::sql_literals::read_accesses(t, cte, n);
        if full != r {
            assert(full[k] == r[k]);
        }
    } else {
        let full = crate::sql_literals::read_accesses(t, cte, n);
        assert(full[full.len() - 1] == (table, crate::sql_literals::SqlTableAccessKind::Read));
    }
}

/// A source file in a migration directory (a path segment `migration`,
/// `migrations` or `migrate`) that is not generated and not a test is a
/// migration; a file with a generated name is generated.
pub proof fn law_migration_and_generated_files_are_classified(lower: Seq<char>, i: int)
    ensures
        crate::census::spec_is_generated_name(crate::census::file_name(lower)) ==> crate::census::spec_kind_and_policy(
            lower,
            true,
        ) == (crate::model::SourceFileKind::Generated, FilePolicy::Measure),
        ({
            let segs = crate::census::split_on(lower, '/');
            let name = crate::census::file_name(lower);
            0 <= i < segs.len() && (segs[i] == "migration"@ || segs[i] == "migrations"@ || segs[i] == "migrate"@)
                && !crate::census::spec_is_generated_name(name) && !crate::census::spec_is_test_name(name)
                && !crate::census::has_test_segment(segs)
        }) ==> crate::census::spec_kind_and_policy(lower, true) == (
            crate::model::SourceFileKind::Migration,
            FilePolicy::Measure,
        ),
{
    let segs = crate::census::split_on(lower, '/');
    if 0 <= i < segs.len() {
        if segs[i] == "migration"@ || segs[i] == "migrations"@ || segs[i] == "migrate"@ {
            assert(crate::census::is_migration_segment(segs[i]));
        }
    }
}

/// In C# a method whose header carries `sealed`, `static` or `private`
/// dispatches directly; otherwise, outside an interface, one carrying
/// `virtual`, `abstract` or `override` dispatches virtually.
pub proof fn law_csharp_modifiers_decide_dispatch(
    kind: FactNodeKind,
    signature: Seq<char>,
    visibility: crate::model::Visibility,
    owner: Option<FactNodeKind>,
    word: Seq<char>,
)
    ensures
        (word == "sealed"@ || word == "static"@ || word == "private"@) && crate::text::has_word_token(signature, word)
            ==> crate::dispatch::spec_csharp_dispatch((kind, Some(signature), visibility, owner))
            == crate::model::DispatchKind::Direct,
        (word == "virtual"@ || word == "abstract"@ || word == "override"@) && crate::text::has_word_token(signature, word)
            && kind == FactNodeKind::Method && visibility != crate::model::Visibility::Private && owner != Some(
            FactNodeKind::Interface,
        ) && !crate::text::has_word_token(signature, "sealed"@) && !crate::text::has_word_token(signature, "static"@)
            && !crate::text::has_word_token(signature, "private"@) ==> crate::dispatch::spec_csharp_dispatch(
            (kind, Some(signature), visibility, owner),
        ) == crate::model::DispatchKind::Virtual,
{
}

/// A Java method of an interface that nothing makes direct dispatches
/// through the interface; one of a class, virtually.
pub proof fn law_java_instance_methods_dispatch_by_owner(
    signature: Seq<char>,
    visibility: crate::model::Visibility,
    owner: Option<FactNodeKind>,
)
    requires
        visibility != crate::model::Visibility::Private,
        !crate::text::has_word_token(signature, "final"@),
        !crate::text::has_word_token(signature, "static"@),
        !crate::text::has_word_token(signature, "private"@),
    ensures
        crate::dispatch::spec_java_dispatch((FactNodeKind::Method, Some(signature), visibility, owner)) == if owner
            == Some(FactNodeKind::Interface) {
            crate::model::DispatchKind::Interface
        } else {
            crate::model::DispatchKind::Virtual
        },
{
}

/// From a package's `__init__` module `p0...pk`, `n` leading dots name the
/// package with `n - 1` trailing parts removed; and for any module, one more
/// leading dot names the result of one dot fewer with one more part removed.
pub proof fn law_relative_imports_from_packages_and_by_dot_count(module: Seq<char>, n: nat, suffix: Seq<char>)
    requires
        1 <= n <= crate::census::split_on(module, '.').len() - 1,
        crate::census::split_on(module, '.')[0].len() > 0,
        suffix.len() > 0,
    ensures
        crate::imports::python_relative_name(module, true, n, suffix) == Some(
            crate::text::join_with(
                crate::census::split_on(module, '.').take(crate::census::split_on(module, '.').len() - (n - 1)),
                seq!['.'],
            ) + seq!['.'] + suffix,
        ),
        n + 1 < crate::census::split_on(module, '.').len() ==> crate::imports::python_relative_name(
            module,
            false,
            n + 1,
            suffix,
        ) == Some(
            crate::text::join_with(
                crate::census::split_on(module, '.').take(crate::census::split_on(module, '.').len() - n).drop_last(),
                seq!['.'],
            ) + seq!['.'] + suffix,
        ),
{
    let p = crate::census::split_on(module, '.');
    let k = p.len() as int;
    let kept = p.take(k - (n - 1));
    assert(p.take(k - (n - 1)) =~= kept);
    lemma_join_nonempty(kept, seq!['.']);
    if n + 1 < k {
        law_each_extra_leading_dot_climbs_one_package(module, n + 1, suffix);
        assert(p.take(k - n).drop_last() =~= p.take(k - (n + 1)));
    }
}

} // verus!
