//! Provider symbols as definition drafts: which symbols are definitions, the
//! occurrence that proves each, and what reconciliation discards.
use vstd::prelude::*;

use crate::definitions::{
    canonical_definition_kind, compact_kind, definition_display_name, has_id,
    is_variable_definition_kind, normalized_optional_text, spec_canonical_definition_kind,
    DefinitionDraft, DefinitionTable, SymbolOutput,
};
use crate::model::{EvidenceId, FactNodeKind, ProviderSymbolId, RepositoryPath, SourceFlags, Visibility};
use crate::text::trim_ws;

verus! {

/// One occurrence of a symbol in a provider document.
#[derive(Debug)]
pub struct OccurrenceOutput {
    pub symbol: String,
    pub range: Vec<i32>,
    pub definition: bool,
}

/// Lexicographic order of ranges (a proper prefix first).
pub open spec fn range_lt(a: Seq<i32>, b: Seq<i32>) -> bool
    decreases a.len(),
{
    if a.len() == 0 {
        b.len() > 0
    } else if b.len() == 0 {
        false
    } else if a[0] != b[0] {
        a[0] < b[0]
    } else {
        range_lt(a.drop_first(), b.drop_first())
    }
}

proof fn lemma_range_lt_transitive(a: Seq<i32>, b: Seq<i32>, c: Seq<i32>)
    requires
        range_lt(a, b),
        range_lt(b, c),
    ensures
        range_lt(a, c),
    decreases a.len(),
{
    if a.len() > 0 && b.len() > 0 && c.len() > 0 && a[0] == b[0] && b[0] == c[0] {
        lemma_range_lt_transitive(a.drop_first(), b.drop_first(), c.drop_first());
    }
}

proof fn lemma_range_lt_irreflexive(a: Seq<i32>)
    ensures
        !range_lt(a, a),
    decreases a.len(),
{
    if a.len() > 0 {
        lemma_range_lt_irreflexive(a.drop_first());
    }
}

fn range_less(a: &[i32], b: &[i32]) -> (r: bool)
    ensures
        r == range_lt(a@, b@),
{
    let mut i: usize = 0;
    proof {
        assert(a@.skip(0) == a@);
        assert(b@.skip(0) == b@);
    }
    while i < a.len() && i < b.len()
        invariant
            i <= a.len(),
            i <= b.len(),
            range_lt(a@, b@) == range_lt(a@.skip(i as int), b@.skip(i as int)),
        decreases a.len() - i,
    {
        assert(a@.skip(i as int)[0] == a@[i as int]);
        assert(b@.skip(i as int)[0] == b@[i as int]);
        if a[i] != b[i] {
            return a[i] < b[i];
        }
        assert(a@.skip(i as int).drop_first() == a@.skip(i + 1));
        assert(b@.skip(i as int).drop_first() == b@.skip(i + 1));
        i += 1;
    }
    i < b.len()
}

/// `o` is a definition occurrence of `symbol`.
pub open spec fn defines(o: OccurrenceOutput, symbol: Seq<char>) -> bool {
    o.definition && o.symbol@ == symbol
}

/// The range of the first definition occurrence of `symbol` with the least
/// range, if it has one.
pub fn definition_range(occurrences: &[OccurrenceOutput], symbol: &str) -> (r: Option<Vec<i32>>)
    ensures
        match r {
            None => forall|i: int| 0 <= i < occurrences@.len() ==> !defines(#[trigger] occurrences@[i], symbol@),
            Some(range) => {
                &&& exists|i: int|
                    0 <= i < occurrences@.len() && defines(#[trigger] occurrences@[i], symbol@)
                        && occurrences@[i].range@ == range@
                &&& forall|j: int|
                    0 <= j < occurrences@.len() && defines(#[trigger] occurrences@[j], symbol@)
                        ==> !range_lt(occurrences@[j].range@, range@)
            },
        },
{
    let mut best: Option<usize> = None;
    let mut i: usize = 0;
    while i < occurrences.len()
        invariant
            i <= occurrences@.len(),
            match best {
                None => forall|k: int| 0 <= k < i ==> !defines(#[trigger] occurrences@[k], symbol@),
                Some(b) => b < i && defines(occurrences@[b as int], symbol@) && forall|k: int|
                    0 <= k < i && defines(#[trigger] occurrences@[k], symbol@) ==> !range_lt(
                        occurrences@[k].range@,
                        occurrences@[b as int].range@,
                    ),
            },
        decreases occurrences@.len() - i,
    {
        let o = &occurrences[i];
        if o.definition && crate::text::str_eq(o.symbol.as_str(), symbol) {
            let better = match best {
                None => true,
                Some(b) => range_less(o.range.as_slice(), occurrences[b].range.as_slice()),
            };
            if better {
                proof {
                    assert forall|k: int|
                        0 <= k < i + 1 && defines(#[trigger] occurrences@[k], symbol@) implies !range_lt(
                            occurrences@[k].range@,
                            occurrences@[i as int].range@,
                        ) by {
                        if k == i {
                            lemma_range_lt_irreflexive(o.range@);
                        } else if let Some(b) = best {
                            if range_lt(occurrences@[k].range@, o.range@) {
                                lemma_range_lt_transitive(
                                    occurrences@[k].range@,
                                    o.range@,
                                    occurrences@[b as int].range@,
                                );
                            }
                        }
                    }
                }
                best = Some(i);
            }
        }
        i += 1;
    }
    match best {
        Some(b) => Some(occurrences[b].range.clone()),
        None => None,
    }
}

/// What the first look at a provider symbol decides.
#[derive(Debug)]
pub enum DefinitionCandidate {
    /// Its kind is not a definition kind.
    NotADefinition,
    /// A definition without a definition occurrence or with an empty
    /// identity; it is counted as omitted.
    Omitted,
    /// A definition to draft once its occurrence range is located in the
    /// source: its kind, whether it is a provider variable, its identity and
    /// its least definition range.
    Located { kind: FactNodeKind, field_candidate: bool, symbol_id: ProviderSymbolId, range: Vec<i32> },
}

/// Sorts a provider symbol: definition kinds (provider variables as field
/// candidates) with a definition occurrence and a non-empty identity go on
/// to be located in the source.
pub fn definition_candidate(symbol: &SymbolOutput, occurrences: &[OccurrenceOutput]) -> (r: DefinitionCandidate)
    ensures
        ({
            let kind = spec_canonical_definition_kind(symbol.kind@);
            let variable = compact_kind(symbol.kind@) == "variable"@;
            if kind is None && !variable {
                r is NotADefinition
            } else if forall|i: int| 0 <= i < occurrences@.len() ==> !defines(#[trigger] occurrences@[i], symbol.symbol@) {
                r is Omitted
            } else if trim_ws(symbol.symbol@).len() == 0 {
                r is Omitted
            } else {
                r matches DefinitionCandidate::Located { kind: k, field_candidate, symbol_id, range } && {
                    &&& k == (if kind is Some { kind->0 } else { FactNodeKind::Field })
                    &&& field_candidate == (kind is None && variable)
                    &&& symbol_id.value@ == symbol.symbol@
                    &&& exists|i: int|
                        0 <= i < occurrences@.len() && defines(#[trigger] occurrences@[i], symbol.symbol@)
                            && occurrences@[i].range@ == range@
                    &&& forall|j: int|
                        0 <= j < occurrences@.len() && defines(#[trigger] occurrences@[j], symbol.symbol@)
                            ==> !range_lt(occurrences@[j].range@, range@)
                }
            }
        }),
{
    let kind = canonical_definition_kind(symbol.kind.as_str());
    let field_candidate = kind.is_none() && is_variable_definition_kind(symbol.kind.as_str());
    let kind = match kind {
        Some(k) => k,
        None => {
            if !field_candidate {
                return DefinitionCandidate::NotADefinition;
            }
            FactNodeKind::Field
        },
    };
    let range = match definition_range(occurrences, symbol.symbol.as_str()) {
        Some(range) => range,
        None => {
            return DefinitionCandidate::Omitted;
        },
    };
    match ProviderSymbolId::parse(symbol.symbol.as_str()) {
        Ok(symbol_id) => DefinitionCandidate::Located { kind, field_candidate, symbol_id, range },
        Err(_) => DefinitionCandidate::Omitted,
    }
}

/// Where a definition's occurrence range landed in the source.
#[derive(Clone, Copy, Debug, PartialEq, Eq, Structural)]
pub enum OccurrenceSpan {
    /// The range does not fit the file's text.
    Invalid,
    /// The range covers no text: a document sentinel, not a definition.
    Empty,
    /// The range covers source text.
    Text,
}

/// What becomes of a located definition.
#[derive(Debug)]
pub enum DefinitionOutcome {
    /// Its range is unusable; counted as omitted.
    Omitted,
    /// A zero-width sentinel: counted as omitted, and its identity discarded.
    Sentinel(ProviderSymbolId),
    /// The definition's draft.
    Drafted(DefinitionDraft),
}

/// The draft of a located definition of the file `path`, given where its
/// range landed and the identity of its evidence.
pub fn definition_draft(
    symbol: &SymbolOutput,
    candidate: DefinitionCandidate,
    span: OccurrenceSpan,
    path: &RepositoryPath,
    definition_evidence_id: EvidenceId,
    flags: SourceFlags,
) -> (r: DefinitionOutcome)
    ensures
        match candidate {
            DefinitionCandidate::Located { kind, field_candidate, symbol_id, range } => match span {
                OccurrenceSpan::Invalid => r is Omitted,
                OccurrenceSpan::Empty => r == DefinitionOutcome::Sentinel(symbol_id),
                OccurrenceSpan::Text => r matches DefinitionOutcome::Drafted(d) && {
                    &&& d.symbol_id == symbol_id
                    &&& d.native_kind@ == symbol.kind@
                    &&& d.canonical_kind_hint == kind
                    &&& d.qualified_name@ == symbol_id.value@
                    &&& d.display_name@ == crate::definitions::spec_definition_display_name(
                        symbol.symbol@,
                        match symbol.display_name {
                            Some(n) => Some(n@),
                            None => None,
                        },
                    )
                    &&& (match symbol.signature {
                        Some(v) => if trim_ws(v@).len() > 0 {
                            d.signature matches Some(t) && t@ == trim_ws(v@)
                        } else {
                            d.signature is None
                        },
                        None => d.signature is None,
                    })
                    &&& d.visibility == Visibility::Unknown
                    &&& (match symbol.enclosing_symbol {
                        Some(e) => if trim_ws(e@).len() > 0 {
                            d.parent_symbol_id matches Some(p) && p.value@ == e@
                        } else {
                            d.parent_symbol_id is None
                        },
                        None => d.parent_symbol_id is None,
                    })
                    &&& d.definition_evidence_id == definition_evidence_id
                    &&& d.flags == flags
                    &&& d.field_candidate == field_candidate
                    &&& d.path == *path
                    &&& d.provider_range@ == range@
                    &&& d.syntax_match is None
                },
            },
            _ => r is Omitted,
        },
{
    match candidate {
        DefinitionCandidate::Located { kind, field_candidate, symbol_id, range } => match span {
            OccurrenceSpan::Invalid => DefinitionOutcome::Omitted,
            OccurrenceSpan::Empty => DefinitionOutcome::Sentinel(symbol_id),
            OccurrenceSpan::Text => {
                let parent = match &symbol.enclosing_symbol {
                    Some(raw) => match ProviderSymbolId::parse(raw.as_str()) {
                        Ok(p) => Some(p),
                        Err(_) => None,
                    },
                    None => None,
                };
                let signature = match &symbol.signature {
                    Some(s) => normalized_optional_text(Some(s.as_str())),
                    None => None,
                };
                let qualified_name = crate::text::owned(symbol_id.as_str());
                DefinitionOutcome::Drafted(
                    DefinitionDraft {
                        symbol_id,
                        native_kind: symbol.kind.clone(),
                        canonical_kind_hint: kind,
                        qualified_name,
                        display_name: definition_display_name(symbol),
                        signature,
                        visibility: Visibility::Unknown,
                        parent_symbol_id: parent,
                        definition_evidence_id,
                        flags,
                        field_candidate,
                        path: path.duplicate(),
                        provider_range: range,
                        syntax_match: None,
                    },
                )
            },
        },
        _ => DefinitionOutcome::Omitted,
    }
}

/// Adds a draft unless its identity is already drafted (the first draft of
/// an identity wins).
pub fn add_first_draft(definitions: &mut DefinitionTable, draft: DefinitionDraft)
    requires
        old(definitions).wf(),
    ensures
        final(definitions).wf(),
        if has_id(old(definitions).entries@, draft.symbol_id.value@) {
            final(definitions).entries@ == old(definitions).entries@
        } else {
            final(definitions).entries@ == old(definitions).entries@.push(draft)
        },
{
    if !definitions.contains_key(&draft.symbol_id) {
        let ghost before = definitions.entries@;
        definitions.entries.push(draft);
        proof {
            let e = definitions.entries@;
            assert forall|a: int, b: int|
                0 <= a < e.len() && 0 <= b < e.len() && (#[trigger] e[a]).symbol_id.value@
                    == (#[trigger] e[b]).symbol_id.value@ implies a == b by {
                if a < before.len() && b < before.len() {
                    assert(e[a] == before[a] && e[b] == before[b]);
                } else if a < before.len() {
                    assert(e[a] == before[a]);
                    assert(has_id(before, draft.symbol_id.value@));
                } else if b < before.len() {
                    assert(e[b] == before[b]);
                    assert(has_id(before, draft.symbol_id.value@));
                }
            }
        }
    }
}

/// The identities reconciliation discarded: provider definitions no longer
/// in the table, and the sentinels.
pub fn discarded_definition_ids(
    provider_ids: &[ProviderSymbolId],
    kept: &DefinitionTable,
    sentinels: &[ProviderSymbolId],
) -> (r: Vec<ProviderSymbolId>)
    requires
        kept.wf(),
    ensures
        r@.to_set() == provider_ids@.to_set().filter(|x: ProviderSymbolId| !has_id(kept.entries@, x.value@)).union(
            sentinels@.to_set(),
        ),
{
    let ghost keep = |x: ProviderSymbolId| !has_id(kept.entries@, x.value@);
    let mut out: Vec<ProviderSymbolId> = Vec::new();
    let mut i: usize = 0;
    assert(out@.to_set() =~= provider_ids@.take(0).to_set().filter(keep));
    while i < provider_ids.len()
        invariant
            i <= provider_ids@.len(),
            kept.wf(),
            keep == (|x: ProviderSymbolId| !has_id(kept.entries@, x.value@)),
            out@.to_set() == provider_ids@.take(i as int).to_set().filter(keep),
        decreases provider_ids@.len() - i,
    {
        let ghost before = out@;
        let ghost x = provider_ids@[i as int];
        assert(provider_ids@.take(i + 1) == provider_ids@.take(i as int).push(x));
        proof {
            crate::text::lemma_push_to_set(provider_ids@.take(i as int), x);
        }
        if !kept.contains_key(&provider_ids[i]) {
            out.push(provider_ids[i].duplicate());
            proof {
                crate::text::lemma_push_to_set(before, x);
                assert(out@.to_set() =~= provider_ids@.take(i + 1).to_set().filter(keep));
            }
        } else {
            assert(out@.to_set() =~= provider_ids@.take(i + 1).to_set().filter(keep));
        }
        i += 1;
    }
    assert(provider_ids@.take(provider_ids@.len() as int) == provider_ids@);
    let ghost first = out@.to_set();
    let mut j: usize = 0;
    assert(out@.to_set() =~= first.union(sentinels@.take(0).to_set()));
    while j < sentinels.len()
        invariant
            j <= sentinels@.len(),
            out@.to_set() == first.union(sentinels@.take(j as int).to_set()),
        decreases sentinels@.len() - j,
    {
        let ghost before = out@;
        let ghost x = sentinels@[j as int];
        out.push(sentinels[j].duplicate());
        proof {
            assert(sentinels@.take(j + 1) == sentinels@.take(j as int).push(x));
            crate::text::lemma_push_to_set(sentinels@.take(j as int), x);
            crate::text::lemma_push_to_set(before, x);
            assert(out@.to_set() =~= first.union(sentinels@.take(j + 1).to_set()));
        }
        j += 1;
    }
    assert(sentinels@.take(sentinels@.len() as int) == sentinels@);
    out
}

/// The owner a definition record names: its parent, when that is still a
/// definition of the table.
pub fn record_parent(parent: &Option<ProviderSymbolId>, kept: &DefinitionTable) -> (r: Option<ProviderSymbolId>)
    requires
        kept.wf(),
    ensures
        match parent {
            Some(p) => if has_id(kept.entries@, p.value@) {
                r == Some(*p)
            } else {
                r is None
            },
            None => r is None,
        },
{
    match parent {
        Some(p) => if kept.contains_key(p) {
            Some(p.duplicate())
        } else {
            None
        },
        None => None,
    }
}

} // verus!
