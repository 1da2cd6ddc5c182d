//! Reconciling provider definitions with the independent source-declaration
//! inventory: which source declaration a provider definition stands for, and
//! when a second provider definition is only an alias of a matched one.
use vstd::prelude::*;

use crate::definitions::{
    lookup, spec_definition_base_name, spec_kind_matches_source,
    spec_provider_symbol_source_point, DefinitionDraft, DefinitionTable,
};
use crate::inventory::{ProviderProtocol, SyntaxDefinition};
use crate::model::ProviderSymbolId;
use crate::text::chars_of;
use crate::syntax::spec_canonical_bounds;

verus! {

/// The source declaration at `i` is free and its ranges fit the provider range.
pub open spec fn is_positional(
    draft: DefinitionDraft,
    syntax: Seq<SyntaxDefinition>,
    used: Seq<bool>,
    protocol: ProviderProtocol,
    i: int,
) -> bool {
    &&& 0 <= i < syntax.len()
    &&& i < used.len() ==> !used[i]
    &&& syntax[i].spec_matches_provider_range(draft.provider_range@, protocol)
}

/// Its name range is exactly the provider range.
pub open spec fn is_exact_range(
    draft: DefinitionDraft,
    syntax: Seq<SyntaxDefinition>,
    protocol: ProviderProtocol,
    i: int,
) -> bool {
    spec_canonical_bounds(draft.provider_range@) == spec_canonical_bounds(
        syntax[i].spec_name_range(protocol),
    )
}

/// Its name starts at the point an LSP identity names.
pub open spec fn is_at_point(
    syntax: Seq<SyntaxDefinition>,
    protocol: ProviderProtocol,
    point: (i32, i32),
    i: int,
) -> bool {
    syntax[i].spec_name_range(protocol).len() >= 2 && (
    syntax[i].spec_name_range(protocol)[0],
    syntax[i].spec_name_range(protocol)[1],
    ) == point
}

/// Its name is the provider definition's base name.
pub open spec fn is_same_name(draft: DefinitionDraft, syntax: Seq<SyntaxDefinition>, i: int) -> bool {
    syntax[i].name@ == spec_definition_base_name(draft.display_name@)
}

/// The three ways of telling the candidates apart, in order of authority.
pub open spec fn criterion(
    draft: DefinitionDraft,
    syntax: Seq<SyntaxDefinition>,
    used: Seq<bool>,
    protocol: ProviderProtocol,
    which: int,
    i: int,
) -> bool {
    is_positional(draft, syntax, used, protocol, i) && if which == 0 {
        is_exact_range(draft, syntax, protocol, i)
    } else if which == 1 {
        spec_provider_symbol_source_point(draft.symbol_id.value@) matches Some(p) && is_at_point(
            syntax,
            protocol,
            p,
            i,
        )
    } else {
        is_same_name(draft, syntax, i)
    }
}

/// `i` is the only candidate meeting criterion `which`.
pub open spec fn is_only(
    draft: DefinitionDraft,
    syntax: Seq<SyntaxDefinition>,
    used: Seq<bool>,
    protocol: ProviderProtocol,
    which: int,
    i: int,
) -> bool {
    &&& criterion(draft, syntax, used, protocol, which, i)
    &&& forall|j: int| j != i ==> !#[trigger] criterion(draft, syntax, used, protocol, which, j)
}

pub open spec fn unique_by(
    draft: DefinitionDraft,
    syntax: Seq<SyntaxDefinition>,
    used: Seq<bool>,
    protocol: ProviderProtocol,
    which: int,
) -> Option<int> {
    if exists|i: int| #[trigger] is_only(draft, syntax, used, protocol, which, i) {
        Some(choose|i: int| #[trigger] is_only(draft, syntax, used, protocol, which, i))
    } else {
        None
    }
}

/// The source declaration a provider definition stands for: among the free
/// declarations whose ranges fit, the only one whose name range is exactly
/// the provider range; else the only one starting where an LSP identity
/// points; else the only one with the provider's base name; else none.
pub open spec fn spec_select_syntax_definition(
    draft: DefinitionDraft,
    syntax: Seq<SyntaxDefinition>,
    used: Seq<bool>,
    protocol: ProviderProtocol,
) -> Option<int> {
    if unique_by(draft, syntax, used, protocol, 0) is Some {
        unique_by(draft, syntax, used, protocol, 0)
    } else if unique_by(draft, syntax, used, protocol, 1) is Some {
        unique_by(draft, syntax, used, protocol, 1)
    } else {
        unique_by(draft, syntax, used, protocol, 2)
    }
}

proof fn lemma_only_unique(
    draft: DefinitionDraft,
    syntax: Seq<SyntaxDefinition>,
    used: Seq<bool>,
    protocol: ProviderProtocol,
    which: int,
    i: int,
)
    requires
        is_only(draft, syntax, used, protocol, which, i),
    ensures
        unique_by(draft, syntax, used, protocol, which) == Some(i),
{
    let c = choose|c: int| #[trigger] is_only(draft, syntax, used, protocol, which, c);
    if c != i {
        assert(!criterion(draft, syntax, used, protocol, which, c));
    }
}

/// Counts the candidates meeting criterion `which`, up to two, and the first.
fn count_candidates(
    draft: &DefinitionDraft,
    syntax: &[SyntaxDefinition],
    used: &[bool],
    protocol: ProviderProtocol,
    which: u8,
    point: Option<(i32, i32)>,
    base_name: &[char],
) -> (r: (usize, usize))
    requires
        which <= 2,
        point == spec_provider_symbol_source_point(draft.symbol_id.value@),
        base_name@ == spec_definition_base_name(draft.display_name@),
    ensures
        r.0 == 0 ==> forall|j: int| !#[trigger] criterion(*draft, syntax@, used@, protocol, which as int, j),
        r.0 == 1 ==> is_only(*draft, syntax@, used@, protocol, which as int, r.1 as int),
        r.0 >= 2 ==> forall|j: int| !#[trigger] is_only(*draft, syntax@, used@, protocol, which as int, j),
{
    let mut count: usize = 0;
    let mut first: usize = 0;
    let mut second: usize = 0;
    let mut i: usize = 0;
    while i < syntax.len()
        invariant
            i <= syntax.len(),
            which <= 2,
            point == spec_provider_symbol_source_point(draft.symbol_id.value@),
            base_name@ == spec_definition_base_name(draft.display_name@),
            count <= 2,
            count == 0 ==> forall|j: int|
                j < i ==> !#[trigger] criterion(*draft, syntax@, used@, protocol, which as int, j),
            count >= 1 ==> first < i && criterion(*draft, syntax@, used@, protocol, which as int, first as int),
            count == 1 ==> forall|j: int|
                j < i && j != first ==> !#[trigger] criterion(*draft, syntax@, used@, protocol, which as int, j),
            count == 2 ==> second < i && second != first && criterion(*draft,
                syntax@,
                used@,
                protocol,
                which as int,
                second as int,
            ),
        decreases syntax.len() - i,
    {
        let d = &syntax[i];
        let free = i >= used.len() || !used[i];
        let fits = free && d.matches_provider_range(draft.provider_range.as_slice(), protocol);
        let hit = fits && if which == 0 {
            crate::definitions::ranges_equal(draft.provider_range.as_slice(), d.name_range(protocol))
        } else if which == 1 {
            match point {
                Some(p) => {
                    let start = crate::definitions::range_start(d.name_range(protocol));
                    match start {
                        Some(s) => s.0 == p.0 && s.1 == p.1,
                        None => false,
                    }
                },
                None => false,
            }
        } else {
            crate::text::seq_eq(crate::text::chars_of(d.name.as_str()).as_slice(), base_name)
        };
        assert(hit == criterion(*draft, syntax@, used@, protocol, which as int, i as int));
        if hit {
            if count == 0 {
                first = i;
                count = 1;
            } else if count == 1 {
                second = i;
                count = 2;
            }
        }
        i += 1;
    }
    proof {
        if count == 0 {
            assert forall|j: int| !#[trigger] criterion(*draft, syntax@, used@, protocol, which as int, j) by {
                if j >= i {
                    assert(!is_positional(*draft, syntax@, used@, protocol, j));
                }
            }
        }
        if count == 1 {
            assert forall|j: int| j != first implies !#[trigger] criterion(*draft,
                syntax@,
                used@,
                protocol,
                which as int,
                j,
            ) by {
                if j >= i {
                    assert(!is_positional(*draft, syntax@, used@, protocol, j));
                }
            }
        }
        if count == 2 {
            assert forall|j: int| !#[trigger] is_only(*draft, syntax@, used@, protocol, which as int, j) by {
                if is_only(*draft, syntax@, used@, protocol, which as int, j) {
                    if j == first {
                        assert(criterion(*draft, syntax@, used@, protocol, which as int, second as int));
                    } else {
                        assert(criterion(*draft, syntax@, used@, protocol, which as int, first as int));
                    }
                }
            }
        }
    }
    (count, first)
}

/// The index of the source declaration `draft` stands for (see
/// `spec_select_syntax_definition`). `used` marks the declarations already
/// matched to other provider definitions.
pub fn select_syntax_definition(
    draft: &DefinitionDraft,
    syntax: &[SyntaxDefinition],
    used: &[bool],
    protocol: ProviderProtocol,
) -> (r: Option<usize>)
    ensures
        match r {
            Some(i) => spec_select_syntax_definition(*draft, syntax@, used@, protocol) == Some(
                i as int,
            ),
            None => spec_select_syntax_definition(*draft, syntax@, used@, protocol) is None,
        },
{
    let point = crate::definitions::provider_symbol_source_point(&draft.symbol_id);
    let base = crate::definitions::definition_base_name(draft.display_name.as_str());
    let base_chars = crate::text::chars_of(base.as_str());
    let (n0, i0) = count_candidates(draft, syntax, used, protocol, 0, point, base_chars.as_slice());
    if n0 == 1 {
        proof {
            lemma_only_unique(*draft, syntax@, used@, protocol, 0, i0 as int);
        }
        return Some(i0);
    }
    assert(unique_by(*draft, syntax@, used@, protocol, 0) is None) by {
        if n0 == 0 {
            assert forall|j: int| !#[trigger] is_only(*draft, syntax@, used@, protocol, 0, j) by {
                assert(!criterion(*draft, syntax@, used@, protocol, 0, j));
            }
        }
    }
    let (n1, i1) = count_candidates(draft, syntax, used, protocol, 1, point, base_chars.as_slice());
    if n1 == 1 {
        proof {
            lemma_only_unique(*draft, syntax@, used@, protocol, 1, i1 as int);
        }
        return Some(i1);
    }
    assert(unique_by(*draft, syntax@, used@, protocol, 1) is None) by {
        if n1 == 0 {
            assert forall|j: int| !#[trigger] is_only(*draft, syntax@, used@, protocol, 1, j) by {
                assert(!criterion(*draft, syntax@, used@, protocol, 1, j));
            }
        }
    }
    let (n2, i2) = count_candidates(draft, syntax, used, protocol, 2, point, base_chars.as_slice());
    if n2 == 1 {
        proof {
            lemma_only_unique(*draft, syntax@, used@, protocol, 2, i2 as int);
        }
        return Some(i2);
    }
    assert(unique_by(*draft, syntax@, used@, protocol, 2) is None) by {
        if n2 == 0 {
            assert forall|j: int| !#[trigger] is_only(*draft, syntax@, used@, protocol, 2, j) by {
                assert(!criterion(*draft, syntax@, used@, protocol, 2, j));
            }
        }
    }
    None
}

} // verus!

verus! {

/// A free-standing alias: the provider range is exactly the name of an
/// already matched declaration whose primary definition and this one both
/// fit its kind.
pub open spec fn is_alias_at(
    draft: DefinitionDraft,
    syntax: Seq<SyntaxDefinition>,
    used: Seq<bool>,
    matched: Seq<Option<ProviderSymbolId>>,
    defs: Seq<DefinitionDraft>,
    protocol: ProviderProtocol,
    i: int,
) -> bool {
    &&& 0 <= i < syntax.len()
    &&& i < used.len() && used[i]
    &&& spec_canonical_bounds(draft.provider_range@) == spec_canonical_bounds(
        syntax[i].spec_name_range(protocol),
    )
    &&& i < matched.len()
    &&& matched[i] matches Some(p) && lookup(defs, p.value@) matches Some(pd)
        && spec_kind_matches_source(pd.canonical_kind_hint, syntax[i].kind)
        && spec_kind_matches_source(draft.canonical_kind_hint, syntax[i].kind)
}

pub open spec fn is_only_alias(
    draft: DefinitionDraft,
    syntax: Seq<SyntaxDefinition>,
    used: Seq<bool>,
    matched: Seq<Option<ProviderSymbolId>>,
    defs: Seq<DefinitionDraft>,
    protocol: ProviderProtocol,
    i: int,
) -> bool {
    &&& is_alias_at(draft, syntax, used, matched, defs, protocol, i)
    &&& forall|j: int|
        j != i ==> !#[trigger] is_alias_at(draft, syntax, used, matched, defs, protocol, j)
}

/// The primary definition a provider definition duplicates, when exactly one
/// matched declaration can be its alias.
pub open spec fn spec_select_provider_definition_alias(
    draft: DefinitionDraft,
    syntax: Seq<SyntaxDefinition>,
    used: Seq<bool>,
    matched: Seq<Option<ProviderSymbolId>>,
    defs: Seq<DefinitionDraft>,
    protocol: ProviderProtocol,
) -> Option<ProviderSymbolId> {
    if exists|i: int| #[trigger] is_only_alias(draft, syntax, used, matched, defs, protocol, i) {
        matched[choose|i: int| #[trigger] is_only_alias(draft, syntax, used, matched, defs, protocol, i)]
    } else {
        None
    }
}

pub fn select_provider_definition_alias(
    draft: &DefinitionDraft,
    syntax: &[SyntaxDefinition],
    used: &[bool],
    matched: &[Option<ProviderSymbolId>],
    definitions: &DefinitionTable,
    protocol: ProviderProtocol,
) -> (r: Option<ProviderSymbolId>)
    requires
        definitions.wf(),
    ensures
        r == spec_select_provider_definition_alias(
            *draft,
            syntax@,
            used@,
            matched@,
            definitions.entries@,
            protocol,
        ),
{
    let ghost defs = definitions.entries@;
    let mut count: usize = 0;
    let mut first: usize = 0;
    let mut second: usize = 0;
    let mut i: usize = 0;
    while i < syntax.len()
        invariant
            i <= syntax.len(),
            definitions.wf(),
            defs == definitions.entries@,
            count <= 2,
            count == 0 ==> forall|j: int|
                j < i ==> !#[trigger] is_alias_at(*draft, syntax@, used@, matched@, defs, protocol, j),
            count >= 1 ==> first < i && is_alias_at(*draft, syntax@, used@, matched@, defs, protocol, first as int),
            count == 1 ==> forall|j: int|
                j < i && j != first ==> !#[trigger] is_alias_at(
                    *draft,
                    syntax@,
                    used@,
                    matched@,
                    defs,
                    protocol,
                    j,
                ),
            count == 2 ==> second < i && second != first && is_alias_at(
                *draft,
                syntax@,
                used@,
                matched@,
                defs,
                protocol,
                second as int,
            ),
        decreases syntax.len() - i,
    {
        let d = &syntax[i];
        let mut hit = false;
        if i < used.len() && used[i] && crate::definitions::ranges_equal(
            draft.provider_range.as_slice(),
            d.name_range(protocol),
        ) && i < matched.len() {
            if let Some(p) = &matched[i] {
                if let Some(pd) = definitions.get(p) {
                    hit = crate::definitions::definition_kinds_can_alias(
                        pd.canonical_kind_hint,
                        draft.canonical_kind_hint,
                        d.kind,
                    );
                }
            }
        }
        assert(hit == is_alias_at(*draft, syntax@, used@, matched@, defs, protocol, i as int));
        if hit {
            if count == 0 {
                first = i;
                count = 1;
            } else if count == 1 {
                second = i;
                count = 2;
            }
        }
        i += 1;
    }
    if count == 1 {
        proof {
            assert forall|j: int| j != first implies !#[trigger] is_alias_at(
                *draft,
                syntax@,
                used@,
                matched@,
                defs,
                protocol,
                j,
            ) by {
                if j >= i || j < 0 {
                }
            }
            assert(is_only_alias(*draft, syntax@, used@, matched@, defs, protocol, first as int));
            let c = choose|c: int| #[trigger] is_only_alias(*draft, syntax@, used@, matched@, defs, protocol, c);
            if c != first {
                assert(!is_alias_at(*draft, syntax@, used@, matched@, defs, protocol, c));
            }
        }
        return match &matched[first] {
            Some(p) => Some(p.duplicate()),
            None => None,
        };
    }
    proof {
        assert forall|j: int| !#[trigger] is_only_alias(*draft, syntax@, used@, matched@, defs, protocol, j) by {
            if is_only_alias(*draft, syntax@, used@, matched@, defs, protocol, j) {
                if count == 0 {
                    assert(!is_alias_at(*draft, syntax@, used@, matched@, defs, protocol, j));
                } else if j == first {
                    assert(is_alias_at(*draft, syntax@, used@, matched@, defs, protocol, second as int));
                } else {
                    assert(is_alias_at(*draft, syntax@, used@, matched@, defs, protocol, first as int));
                }
            }
        }
    }
    None
}

} // verus!

verus! {

/// What reconciliation decided for one provider definition of a file.
#[derive(Clone, Debug)]
pub enum MatchOutcome {
    /// Not reconciled: absent from the table, or a namespace.
    Skipped,
    /// It stands for the declaration at `index`; `refined` when the
    /// declaration's kind replaced the provider's.
    Matched { index: usize, refined: bool },
    /// It duplicates the primary definition.
    Alias { primary: ProviderSymbolId },
    /// No declaration fits it; `counted` when that is an audit failure (it is
    /// not a provider field candidate).
    Extra { counted: bool },
}

/// A draft once matched to declaration `i`: the declaration owns its display
/// name, callable header (when it has one), accessibility and kind.
pub open spec fn matched_draft(d: DefinitionDraft, i: int, s: SyntaxDefinition) -> DefinitionDraft {
    DefinitionDraft {
        syntax_match: Some(i as usize),
        display_name: s.name,
        signature: if s.signature is Some {
            s.signature
        } else {
            d.signature
        },
        visibility: s.visibility,
        field_candidate: false,
        canonical_kind_hint: s.kind,
        ..d
    }
}

/// The state of matching one file: declarations used, the provider
/// definition each declaration was matched to, and the definition table.
pub type MatchState = (Seq<bool>, Seq<Option<ProviderSymbolId>>, Seq<DefinitionDraft>);

/// One matching step for the provider definition `id`.
pub open spec fn match_step(
    state: MatchState,
    id: ProviderSymbolId,
    syntax: Seq<SyntaxDefinition>,
    protocol: ProviderProtocol,
) -> (MatchState, MatchOutcome) {
    let (used, matched, defs) = state;
    match lookup(defs, id.value@) {
        None => (state, MatchOutcome::Skipped),
        Some(d) => if d.canonical_kind_hint == crate::model::FactNodeKind::Namespace {
            (state, MatchOutcome::Skipped)
        } else {
            match spec_select_syntax_definition(d, syntax, used, protocol) {
                Some(i) => (
                    (
                        used.update(i, true),
                        matched.update(i, Some(id)),
                        defs.update(
                            crate::definitions::index_of_id(defs, id.value@),
                            matched_draft(d, i, syntax[i]),
                        ),
                    ),
                    MatchOutcome::Matched {
                        index: i as usize,
                        refined: d.canonical_kind_hint != syntax[i].kind,
                    },
                ),
                None => match spec_select_provider_definition_alias(
                    d,
                    syntax,
                    used,
                    matched,
                    defs,
                    protocol,
                ) {
                    Some(p) => (state, MatchOutcome::Alias { primary: p }),
                    None => (state, MatchOutcome::Extra { counted: !d.field_candidate }),
                },
            }
        },
    }
}

/// Matching the provider definitions `ids` of one file, in order.
pub open spec fn match_fold(
    state: MatchState,
    ids: Seq<ProviderSymbolId>,
    syntax: Seq<SyntaxDefinition>,
    protocol: ProviderProtocol,
) -> (MatchState, Seq<MatchOutcome>)
    decreases ids.len(),
{
    if ids.len() == 0 {
        (state, Seq::empty())
    } else {
        let (st, outs) = match_fold(state, ids.drop_last(), syntax, protocol);
        let (st2, o) = match_step(st, ids.last(), syntax, protocol);
        (st2, outs.push(o))
    }
}

/// The initial state of a file with `n` declarations.
pub open spec fn initial_match_state(n: nat, defs: Seq<DefinitionDraft>) -> MatchState {
    (Seq::new(n, |i: int| false), Seq::new(n, |i: int| None::<ProviderSymbolId>), defs)
}

/// Matches the provider definitions of one file (`ids`, in reconciliation
/// order) to the file's source declarations, updating matched drafts in
/// `definitions`. Returns each definition's outcome and, per declaration,
/// whether it was used and by which definition.
pub fn match_path_definitions(
    ids: &[ProviderSymbolId],
    syntax: &[SyntaxDefinition],
    definitions: &mut DefinitionTable,
    protocol: ProviderProtocol,
) -> (r: (Vec<MatchOutcome>, Vec<bool>, Vec<Option<ProviderSymbolId>>))
    requires
        old(definitions).wf(),
    ensures
        final(definitions).wf(),
        match_fold(
            initial_match_state(syntax@.len(), old(definitions).entries@),
            ids@,
            syntax@,
            protocol,
        ) == ((r.1@, r.2@, final(definitions).entries@), r.0@),
        r.0@.len() == ids@.len(),
{
    let mut used: Vec<bool> = Vec::new();
    let mut matched: Vec<Option<ProviderSymbolId>> = Vec::new();
    let mut k: usize = 0;
    while k < syntax.len()
        invariant
            k <= syntax.len(),
            used@ == Seq::new(k as nat, |i: int| false),
            matched@ == Seq::new(k as nat, |i: int| None::<ProviderSymbolId>),
        decreases syntax.len() - k,
    {
        used.push(false);
        matched.push(None);
        k += 1;
        assert(used@ =~= Seq::new(k as nat, |i: int| false));
        assert(matched@ =~= Seq::new(k as nat, |i: int| None::<ProviderSymbolId>));
    }
    let ghost start = initial_match_state(syntax@.len(), definitions.entries@);
    let mut outcomes: Vec<MatchOutcome> = Vec::new();
    let mut n: usize = 0;
    while n < ids.len()
        invariant
            n <= ids.len(),
            definitions.wf(),
            used@.len() == syntax@.len(),
            matched@.len() == syntax@.len(),
            outcomes@.len() == n,
            match_fold(start, ids@.take(n as int), syntax@, protocol) == (
                (used@, matched@, definitions.entries@),
                outcomes@,
            ),
        decreases ids.len() - n,
    {
        let id = &ids[n];
        assert(ids@.take(n + 1).drop_last() == ids@.take(n as int));
        assert(ids@.take(n + 1).last() == ids@[n as int]);
        let ghost st = (used@, matched@, definitions.entries@);
        let outcome: MatchOutcome = match definitions.position(id) {
            None => MatchOutcome::Skipped,
            Some(pos) => {
                let d = &definitions.entries[pos];
                if d.canonical_kind_hint == crate::model::FactNodeKind::Namespace {
                    MatchOutcome::Skipped
                } else {
                    match select_syntax_definition(d, syntax, used.as_slice(), protocol) {
                        Some(i) => {
                            let s = &syntax[i];
                            let refined = d.canonical_kind_hint != s.kind;
                            let signature = match &s.signature {
                                Some(sig) => Some(sig.clone()),
                                None => None,
                            };
                            definitions.record_syntax_match(
                                pos,
                                i,
                                s.kind,
                                s.name.clone(),
                                signature,
                                s.visibility,
                            );
                            used.set(i, true);
                            matched.set(i, Some(id.duplicate()));
                            MatchOutcome::Matched { index: i, refined }
                        },
                        None => {
                            match select_provider_definition_alias(
                                d,
                                syntax,
                                used.as_slice(),
                                matched.as_slice(),
                                definitions,
                                protocol,
                            ) {
                                Some(p) => MatchOutcome::Alias { primary: p },
                                None => MatchOutcome::Extra { counted: !d.field_candidate },
                            }
                        },
                    }
                }
            },
        };
        proof {
            let (st2, o) = match_step(st, ids@[n as int], syntax@, protocol);
            assert(st2 == (used@, matched@, definitions.entries@));
            assert(o == outcome);
        }
        outcomes.push(outcome);
        n += 1;
    }
    assert(ids@.take(ids@.len() as int) == ids@);
    (outcomes, used, matched)
}

} // verus!

verus! {

/// The order in which the definitions of a file are reconciled: shorter
/// identities first, equal lengths in text order.
pub open spec fn id_before(a: Seq<char>, b: Seq<char>) -> bool {
    a.len() < b.len() || (a.len() == b.len() && crate::text::seq_lt(a, b))
}

pub proof fn lemma_id_before_transitive(a: Seq<char>, b: Seq<char>, c: Seq<char>)
    requires
        id_before(a, b),
        id_before(b, c),
    ensures
        id_before(a, c),
{
    if a.len() == b.len() && b.len() == c.len() {
        crate::text::lemma_seq_lt_transitive(a, b, c);
    }
}

pub proof fn lemma_id_before_total(a: Seq<char>, b: Seq<char>)
    ensures
        a == b || id_before(a, b) || id_before(b, a),
{
    if a.len() == b.len() {
        crate::text::lemma_seq_lt_total(a, b);
    }
}

pub open spec fn id_views(v: Seq<ProviderSymbolId>) -> Seq<Seq<char>> {
    v.map_values(|p: ProviderSymbolId| p.value@)
}

pub open spec fn sorted_by_id(v: Seq<Seq<char>>) -> bool {
    forall|i: int, j: int| 0 <= i < j < v.len() ==> id_before(#[trigger] v[i], #[trigger] v[j])
}

/// Sorts distinct identities into reconciliation order.
pub fn sort_ids(ids: Vec<ProviderSymbolId>) -> (r: Vec<ProviderSymbolId>)
    ensures
        sorted_by_id(id_views(r@)),
        forall|x: ProviderSymbolId| r@.contains(x) ==> ids@.contains(x),
        forall|x: ProviderSymbolId| ids@.contains(x) ==> exists|k: int|
            0 <= k < r@.len() && r@[k].value@ == x.value@,
{
    let mut out: Vec<ProviderSymbolId> = Vec::new();
    let mut i: usize = 0;
    while i < ids.len()
        invariant
            i <= ids.len(),
            sorted_by_id(id_views(out@)),
            forall|x: ProviderSymbolId| out@.contains(x) ==> ids@.contains(x),
            forall|k: int| 0 <= k < i ==> exists|m: int|
                0 <= m < out@.len() && out@[m].value@ == #[trigger] ids@[k].value@,
        decreases ids.len() - i,
    {
        let x = &ids[i];
        let xc = chars_of(x.value.as_str());
        let mut p: usize = 0;
        let mut equal = false;
        loop
            invariant_except_break
                !equal,
            invariant
                p <= out.len(),
                xc@ == x.value@,
                forall|k: int| 0 <= k < p ==> id_before(#[trigger] id_views(out@)[k], x.value@),
            ensures
                equal ==> p < out.len() && id_views(out@)[p as int] == x.value@,
                !equal ==> p == out.len() || id_before(x.value@, id_views(out@)[p as int]),
            decreases out.len() - p,
        {
            if p == out.len() {
                break;
            }
            let oc = chars_of(out[p].value.as_str());
            assert(oc@ == id_views(out@)[p as int]);
            if oc.len() == xc.len() {
                let o = crate::text::order_chars(oc.as_slice(), xc.as_slice());
                if o == 0 {
                    equal = true;
                    break;
                }
                if o == 1 {
                    break;
                }
            } else if oc.len() > xc.len() {
                break;
            }
            p += 1;
        }
        let ghost before = id_views(out@);
        let ghost old_out = out@;
        if !equal {
            out.insert(p, x.duplicate());
            proof {
                let nv = id_views(out@);
                assert(nv =~= before.insert(p as int, x.value@));
                assert forall|a: int, b: int| 0 <= a < b < nv.len() implies id_before(
                    #[trigger] nv[a],
                    #[trigger] nv[b],
                ) by {
                    if a < p && b == p {
                    } else if a < p && b > p {
                        assert(nv[b] == before[b - 1]);
                        if b - 1 > a {
                            assert(id_before(before[a], before[b - 1]));
                        }
                    } else if a == p && b > p {
                        assert(nv[b] == before[b - 1]);
                        if b - 1 > p {
                            assert(id_before(before[p as int], before[b - 1]));
                            lemma_id_before_transitive(x.value@, before[p as int], before[b - 1]);
                        }
                    } else if a > p {
                        assert(nv[a] == before[a - 1]);
                        assert(nv[b] == before[b - 1]);
                    }
                }
                assert(out@ == old_out.insert(p as int, *x));
                assert forall|y: ProviderSymbolId| out@.contains(y) implies ids@.contains(y) by {
                    let k = choose|k: int| 0 <= k < out@.len() && out@[k] == y;
                    if k < p {
                        assert(old_out[k] == y);
                        assert(old_out.contains(y));
                    } else if k > p {
                        assert(old_out[k - 1] == y);
                        assert(old_out.contains(y));
                    } else {
                        assert(ids@[i as int] == y);
                    }
                }
                assert forall|k: int| 0 <= k < i + 1 implies exists|m: int|
                    0 <= m < out@.len() && out@[m].value@ == #[trigger] ids@[k].value@ by {
                    if k == i {
                        assert(out@[p as int].value@ == ids@[k].value@);
                    } else {
                        let m = choose|m: int|
                            0 <= m < old_out.len() && old_out[m].value@ == ids@[k].value@;
                        if m < p {
                            assert(out@[m] == old_out[m]);
                        } else {
                            assert(out@[m + 1] == old_out[m]);
                        }
                    }
                }
            }
        } else {
            assert forall|k: int| 0 <= k < i + 1 implies exists|m: int|
                0 <= m < out@.len() && out@[m].value@ == #[trigger] ids@[k].value@ by {
                if k == i {
                    assert(out@[p as int].value@ == ids@[k].value@);
                }
            }
        }
        i += 1;
    }
    proof {
        assert forall|x: ProviderSymbolId| ids@.contains(x) implies exists|k: int|
            0 <= k < out@.len() && out@[k].value@ == x.value@ by {
            let k = choose|k: int| 0 <= k < ids@.len() && ids@[k] == x;
            assert(0 <= k < i);
            let w = ids@[k].value@;
            assert(exists|m: int| 0 <= m < out@.len() && out@[m].value@ == w);
        }
    }
    out
}

} // verus!

verus! {

/// Matching keeps every draft's identity and file, in place.
pub open spec fn same_skeleton(a: Seq<DefinitionDraft>, b: Seq<DefinitionDraft>) -> bool {
    &&& a.len() == b.len()
    &&& forall|i: int|
        0 <= i < a.len() ==> (#[trigger] a[i]).symbol_id == b[i].symbol_id && a[i].path == b[i].path
}

pub proof fn lemma_match_fold_skeleton(
    state: MatchState,
    ids: Seq<ProviderSymbolId>,
    syntax: Seq<SyntaxDefinition>,
    protocol: ProviderProtocol,
)
    requires
        crate::definitions::ids_unique(state.2),
    ensures
        same_skeleton(match_fold(state, ids, syntax, protocol).0.2, state.2),
        crate::definitions::ids_unique(match_fold(state, ids, syntax, protocol).0.2),
    decreases ids.len(),
{
    if ids.len() > 0 {
        lemma_match_fold_skeleton(state, ids.drop_last(), syntax, protocol);
        let (st, outs) = match_fold(state, ids.drop_last(), syntax, protocol);
        let defs = st.2;
        let id = ids.last();
        if let Some(d) = lookup(defs, id.value@) {
            if d.canonical_kind_hint != crate::model::FactNodeKind::Namespace {
                if let Some(i) = spec_select_syntax_definition(d, syntax, st.0, protocol) {
                    let pos = crate::definitions::index_of_id(defs, id.value@);
                    let nd = defs.update(pos, matched_draft(d, i, syntax[i]));
                    assert(same_skeleton(nd, state.2));
                    assert(crate::definitions::ids_unique(nd)) by {
                        assert forall|a: int, b: int|
                            0 <= a < nd.len() && 0 <= b < nd.len() && (#[trigger] nd[a]).symbol_id.value@
                                == (#[trigger] nd[b]).symbol_id.value@ implies a == b by {
                            assert(nd[a].symbol_id == defs[a].symbol_id);
                            assert(nd[b].symbol_id == defs[b].symbol_id);
                        }
                    }
                }
            }
        }
    }
}

/// `d` is a provider definition of the file `path`.
pub open spec fn in_path(d: DefinitionDraft, path: Seq<char>) -> bool {
    d.path.value@ == path
}

/// `order` lists the provider definitions of `path` in `defs`, in
/// reconciliation order.
pub open spec fn is_path_order(defs: Seq<DefinitionDraft>, path: Seq<char>, order: Seq<ProviderSymbolId>) -> bool {
    &&& sorted_by_id(id_views(order))
    &&& forall|x: ProviderSymbolId|
        #[trigger] order.contains(x) ==> exists|i: int|
            0 <= i < defs.len() && defs[i].symbol_id == x && in_path(defs[i], path)
    &&& forall|i: int|
        0 <= i < defs.len() && #[trigger] in_path(defs[i], path) ==> exists|m: int|
            0 <= m < order.len() && order[m].value@ == defs[i].symbol_id.value@
}

/// The per-file results of matching: declarations used, the definition each
/// declaration was matched to, and each definition's outcome.
pub type FileMatch = (Seq<bool>, Seq<Option<ProviderSymbolId>>, Seq<MatchOutcome>);

/// Matching every file in turn, each with its own definition order.
pub open spec fn match_files(
    defs: Seq<DefinitionDraft>,
    syntax: Seq<Seq<SyntaxDefinition>>,
    orders: Seq<Seq<ProviderSymbolId>>,
    protocol: ProviderProtocol,
) -> (Seq<DefinitionDraft>, Seq<FileMatch>)
    decreases syntax.len(),
{
    if syntax.len() == 0 || orders.len() < syntax.len() {
        (defs, Seq::empty())
    } else {
        let (d1, res) = match_files(defs, syntax.drop_last(), orders.take(syntax.len() - 1), protocol);
        let (st, outs) = match_fold(
            initial_match_state(syntax.last().len(), d1),
            orders[syntax.len() - 1],
            syntax.last(),
            protocol,
        );
        (st.2, res.push((st.0, st.1, outs)))
    }
}

pub open spec fn file_paths(files: Seq<(crate::model::RepositoryPath, Vec<SyntaxDefinition>)>) -> Seq<
    Seq<char>,
> {
    files.map_values(|f: (crate::model::RepositoryPath, Vec<SyntaxDefinition>)| f.0.value@)
}

pub open spec fn file_syntax(files: Seq<(crate::model::RepositoryPath, Vec<SyntaxDefinition>)>) -> Seq<
    Seq<SyntaxDefinition>,
> {
    files.map_values(|f: (crate::model::RepositoryPath, Vec<SyntaxDefinition>)| f.1@)
}

/// The identities of the provider definitions of `path`, in table order.
fn ids_in_path(definitions: &DefinitionTable, path: &crate::model::RepositoryPath) -> (r: Vec<
    ProviderSymbolId,
>)
    ensures
        forall|x: ProviderSymbolId|
            #[trigger] r@.contains(x) ==> exists|i: int|
                0 <= i < definitions.entries@.len() && definitions.entries@[i].symbol_id == x
                    && in_path(definitions.entries@[i], path.value@),
        forall|i: int|
            0 <= i < definitions.entries@.len() && #[trigger] in_path(
                definitions.entries@[i],
                path.value@,
            ) ==> r@.contains(definitions.entries@[i].symbol_id),
{
    let mut out: Vec<ProviderSymbolId> = Vec::new();
    let mut i: usize = 0;
    while i < definitions.entries.len()
        invariant
            i <= definitions.entries@.len(),
            forall|x: ProviderSymbolId|
                #[trigger] out@.contains(x) ==> exists|k: int|
                    0 <= k < definitions.entries@.len() && definitions.entries@[k].symbol_id == x
                        && in_path(definitions.entries@[k], path.value@),
            forall|k: int|
                0 <= k < i && #[trigger] in_path(definitions.entries@[k], path.value@)
                    ==> out@.contains(definitions.entries@[k].symbol_id),
        decreases definitions.entries@.len() - i,
    {
        let d = &definitions.entries[i];
        if crate::text::str_eq(d.path.as_str(), path.as_str()) {
            let ghost old = out@;
            out.push(d.symbol_id.duplicate());
            proof {
                assert(out@[old.len() as int] == d.symbol_id);
                assert forall|x: ProviderSymbolId| #[trigger] out@.contains(x) implies exists|k: int|
                    0 <= k < definitions.entries@.len() && definitions.entries@[k].symbol_id == x
                        && in_path(definitions.entries@[k], path.value@) by {
                    let m = choose|m: int| 0 <= m < out@.len() && out@[m] == x;
                    if m < old.len() {
                        assert(old[m] == x);
                        assert(old.contains(x));
                    } else {
                        assert(definitions.entries@[i as int].symbol_id == x);
                    }
                }
                assert forall|k: int|
                    0 <= k < i + 1 && #[trigger] in_path(definitions.entries@[k], path.value@)
                        implies out@.contains(definitions.entries@[k].symbol_id) by {
                    if k < i {
                        let m = choose|m: int| 0 <= m < old.len() && old[m] == definitions.entries@[k].symbol_id;
                        assert(out@[m] == old[m]);
                    } else {
                        assert(out@[old.len() as int] == definitions.entries@[k].symbol_id);
                    }
                }
            }
        }
        i += 1;
    }
    out
}

} // verus!

verus! {

pub open spec fn order_views(v: Seq<Vec<ProviderSymbolId>>) -> Seq<Seq<ProviderSymbolId>> {
    v.map_values(|o: Vec<ProviderSymbolId>| o@)
}

pub open spec fn file_match_views(v: Seq<(Vec<bool>, Vec<Option<ProviderSymbolId>>, Vec<MatchOutcome>)>) -> Seq<FileMatch> {
    v.map_values(|t: (Vec<bool>, Vec<Option<ProviderSymbolId>>, Vec<MatchOutcome>)| (t.0@, t.1@, t.2@))
}

/// Matches the provider definitions of every file with an inventory to the
/// file's source declarations, file by file, each file's definitions in
/// reconciliation order.
pub fn match_all_files(
    files: &[(crate::model::RepositoryPath, Vec<SyntaxDefinition>)],
    definitions: &mut DefinitionTable,
    protocol: ProviderProtocol,
) -> (r: (Vec<(Vec<bool>, Vec<Option<ProviderSymbolId>>, Vec<MatchOutcome>)>, Vec<Vec<ProviderSymbolId>>))
    requires
        old(definitions).wf(),
    ensures
        final(definitions).wf(),
        same_skeleton(final(definitions).entries@, old(definitions).entries@),
        r.1@.len() == files@.len(),
        r.0@.len() == files@.len(),
        forall|k: int| 0 <= k < files@.len() ==> (#[trigger] r.0@[k]).2@.len() == r.1@[k]@.len(),
        forall|k: int|
            0 <= k < files@.len() ==> is_path_order(
                old(definitions).entries@,
                file_paths(files@)[k],
                #[trigger] order_views(r.1@)[k],
            ),
        match_files(old(definitions).entries@, file_syntax(files@), order_views(r.1@), protocol) == (
            final(definitions).entries@,
            file_match_views(r.0@),
        ),
{
    let ghost defs0 = definitions.entries@;
    let ghost mut orders: Seq<Seq<ProviderSymbolId>> = Seq::empty();
    let mut results: Vec<(Vec<bool>, Vec<Option<ProviderSymbolId>>, Vec<MatchOutcome>)> = Vec::new();
    let mut order_vecs: Vec<Vec<ProviderSymbolId>> = Vec::new();
    assert(order_views(order_vecs@) =~= orders);
    let mut k: usize = 0;
    while k < files.len()
        invariant
            k <= files.len(),
            order_views(order_vecs@) == orders,
            order_vecs@.len() == k,
            forall|j: int| 0 <= j < k ==> (#[trigger] results@[j]).2@.len() == order_vecs@[j]@.len(),
            definitions.wf(),
            same_skeleton(definitions.entries@, defs0),
            orders.len() == k,
            results@.len() == k,
            forall|j: int|
                0 <= j < k ==> is_path_order(defs0, file_paths(files@)[j], #[trigger] orders[j]),
            match_files(defs0, file_syntax(files@).take(k as int), orders, protocol) == (
                definitions.entries@,
                file_match_views(results@),
            ),
        decreases files.len() - k,
    {
        let path = &files[k].0;
        let syntax = files[k].1.as_slice();
        let ids = ids_in_path(definitions, path);
        let order = sort_ids(ids);
        let ghost cur = definitions.entries@;
        proof {
            assert(file_paths(files@)[k as int] == path.value@);
            assert forall|x: ProviderSymbolId| #[trigger] order@.contains(x) implies exists|i: int|
                0 <= i < defs0.len() && defs0[i].symbol_id == x && in_path(
                    defs0[i],
                    path.value@,
                ) by {
                assert(ids@.contains(x));
                let i = choose|i: int|
                    0 <= i < cur.len() && cur[i].symbol_id == x && in_path(cur[i], path.value@);
                assert(cur[i].symbol_id == defs0[i].symbol_id && cur[i].path == defs0[i].path);
            }
            assert forall|i: int| 0 <= i < defs0.len() && #[trigger] in_path(
                defs0[i],
                path.value@,
            ) implies exists|m: int|
                0 <= m < order@.len() && order@[m].value@ == defs0[i].symbol_id.value@ by {
                assert(cur[i].symbol_id == defs0[i].symbol_id && cur[i].path == defs0[i].path);
                assert(in_path(cur[i], path.value@));
                assert(ids@.contains(cur[i].symbol_id));
            }
            assert(is_path_order(defs0, file_paths(files@)[k as int], order@));
        }
        let ghost prior = definitions.entries@;
        let (outs, used, matched) = match_path_definitions(order.as_slice(), syntax, definitions, protocol);
        proof {
            lemma_match_fold_skeleton(
                initial_match_state(syntax@.len(), prior),
                order@,
                syntax@,
                protocol,
            );
            let new_orders = orders.push(order@);
            let ft = file_syntax(files@).take(k + 1);
            assert(ft.drop_last() == file_syntax(files@).take(k as int));
            assert(ft.last() == syntax@);
            assert(new_orders.take(ft.len() - 1) == orders);
            assert(new_orders[ft.len() - 1] == order@);
            orders = new_orders;
        }
        let ghost old_orders = order_vecs@;
        let ghost ov = order@;
        order_vecs.push(order);
        assert(order_views(order_vecs@) =~= order_views(old_orders).push(ov));
        let ghost old_results = results@;
        let ghost tv = (used@, matched@, outs@);
        let entry = (used, matched, outs);
        results.push(entry);
        proof {
            assert(results@ == old_results.push(entry));
            assert(file_match_views(results@) =~= file_match_views(old_results).push(tv));
            assert forall|j: int|
                0 <= j < k + 1 implies is_path_order(defs0, file_paths(files@)[j], #[trigger] orders[j]) by {
            }
        }
        k += 1;
    }
    assert(file_syntax(files@).take(files@.len() as int) == file_syntax(files@));
    (results, order_vecs)
}

} // verus!

verus! {

/// What owner resolution decides for one definition.
#[derive(Clone, Debug)]
pub enum OwnerResolution {
    /// The definition matched no declaration of an inventoried file.
    NotApplicable,
    /// Its declaration has an owner that no provider definition matched.
    Unresolved,
    /// Its owner, once resolved: `declared` when the declaration names an
    /// owner, `repaired` when the owner differs from the provider's.
    Resolved { parent: Option<ProviderSymbolId>, declared: bool, repaired: bool },
}

/// `j` is the first declaration of the file whose name range is exactly `range`.
pub open spec fn is_first_named(
    syntax: Seq<SyntaxDefinition>,
    range: Seq<i32>,
    protocol: ProviderProtocol,
    j: int,
) -> bool {
    &&& 0 <= j < syntax.len()
    &&& syntax[j].spec_name_range(protocol) == range
    &&& forall|k: int| 0 <= k < j ==> (#[trigger] syntax[k]).spec_name_range(protocol) != range
}

pub open spec fn parent_index(syntax: Seq<SyntaxDefinition>, range: Seq<i32>, protocol: ProviderProtocol) -> Option<
    int,
> {
    if exists|j: int| #[trigger] is_first_named(syntax, range, protocol, j) {
        Some(choose|j: int| #[trigger] is_first_named(syntax, range, protocol, j))
    } else {
        None
    }
}

pub open spec fn same_parent(a: Option<ProviderSymbolId>, b: Option<ProviderSymbolId>) -> bool {
    match (a, b) {
        (Some(x), Some(y)) => x.value@ == y.value@,
        (None, None) => true,
        _ => false,
    }
}

/// The first file whose path is `path`.
pub open spec fn is_file_of(paths: Seq<Seq<char>>, path: Seq<char>, k: int) -> bool {
    0 <= k < paths.len() && paths[k] == path && forall|m: int| 0 <= m < k ==> #[trigger] paths[m] != path
}

pub open spec fn file_of(paths: Seq<Seq<char>>, path: Seq<char>) -> Option<int> {
    if exists|k: int| #[trigger] is_file_of(paths, path, k) {
        Some(choose|k: int| #[trigger] is_file_of(paths, path, k))
    } else {
        None
    }
}

/// The owner decision for `d` against the matched files.
pub open spec fn spec_owner_resolution(
    d: DefinitionDraft,
    paths: Seq<Seq<char>>,
    syntax: Seq<Seq<SyntaxDefinition>>,
    files: Seq<FileMatch>,
    kinds: Seq<DefinitionDraft>,
    protocol: ProviderProtocol,
) -> OwnerResolution {
    match (file_of(paths, d.path.value@), d.syntax_match) {
        (Some(k), Some(idx)) => if k < syntax.len() && k < files.len() && (idx as int) < syntax[k].len() {
            let candidate = syntax[k][idx as int];
            let expected: Option<ProviderSymbolId> = match candidate.spec_parent_name_range(protocol) {
                Some(r) => match parent_index(syntax[k], r, protocol) {
                    Some(j) => if j < files[k].1.len() {
                        files[k].1[j]
                    } else {
                        None
                    },
                    None => None,
                },
                None => None,
            };
            if candidate.spec_parent_name_range(protocol) is Some && expected is None {
                OwnerResolution::Unresolved
            } else {
                let normalized = match expected {
                    Some(p) => Some(p),
                    None => match d.parent_symbol_id {
                        Some(p) => if lookup(kinds, p.value@) matches Some(o) && o.canonical_kind_hint
                            == crate::model::FactNodeKind::Namespace {
                            None
                        } else {
                            Some(p)
                        },
                        None => None,
                    },
                };
                OwnerResolution::Resolved {
                    parent: if same_parent(normalized, d.parent_symbol_id) {
                        d.parent_symbol_id
                    } else {
                        normalized
                    },
                    declared: candidate.spec_parent_name_range(protocol) is Some,
                    repaired: !same_parent(normalized, d.parent_symbol_id),
                }
            }
        } else {
            OwnerResolution::NotApplicable
        },
        _ => OwnerResolution::NotApplicable,
    }
}

/// The definition left after owner resolution, if it is kept: unresolved
/// ownership drops it, and so does missing from an inventoried file's
/// declarations.
pub open spec fn resolved_entry(
    d: DefinitionDraft,
    paths: Seq<Seq<char>>,
    syntax: Seq<Seq<SyntaxDefinition>>,
    files: Seq<FileMatch>,
    kinds: Seq<DefinitionDraft>,
    protocol: ProviderProtocol,
) -> Option<DefinitionDraft> {
    match spec_owner_resolution(d, paths, syntax, files, kinds, protocol) {
        OwnerResolution::Unresolved => None,
        OwnerResolution::Resolved { parent, .. } => Some(DefinitionDraft { parent_symbol_id: parent, ..d }),
        OwnerResolution::NotApplicable => if d.syntax_match is None && file_of(paths, d.path.value@) is Some {
            None
        } else {
            Some(d)
        },
    }
}

pub open spec fn resolved_entries(
    defs: Seq<DefinitionDraft>,
    paths: Seq<Seq<char>>,
    syntax: Seq<Seq<SyntaxDefinition>>,
    files: Seq<FileMatch>,
    kinds: Seq<DefinitionDraft>,
    protocol: ProviderProtocol,
) -> Seq<DefinitionDraft>
    decreases defs.len(),
{
    if defs.len() == 0 {
        Seq::empty()
    } else {
        let r = resolved_entries(defs.drop_last(), paths, syntax, files, kinds, protocol);
        match resolved_entry(defs.last(), paths, syntax, files, kinds, protocol) {
            Some(e) => r.push(e),
            None => r,
        }
    }
}

fn i32_slices_equal(a: &[i32], b: &[i32]) -> (r: bool)
    ensures
        r == (a@ == b@),
{
    if a.len() != b.len() {
        return false;
    }
    let mut i: usize = 0;
    while i < a.len()
        invariant
            a.len() == b.len(),
            i <= a.len(),
            forall|j: int| 0 <= j < i ==> a@[j] == b@[j],
        decreases a.len() - i,
    {
        if a[i] != b[i] {
            return false;
        }
        i += 1;
    }
    assert(a@ =~= b@);
    true
}

fn parent_index_exec(syntax: &[SyntaxDefinition], range: &[i32], protocol: ProviderProtocol) -> (r: Option<usize>)
    ensures
        match r {
            Some(j) => parent_index(syntax@, range@, protocol) == Some(j as int),
            None => parent_index(syntax@, range@, protocol) is None,
        },
{
    let mut j: usize = 0;
    while j < syntax.len()
        invariant
            j <= syntax.len(),
            forall|k: int| 0 <= k < j ==> (#[trigger] syntax@[k]).spec_name_range(protocol) != range@,
        decreases syntax.len() - j,
    {
        if i32_slices_equal(syntax[j].name_range(protocol), range) {
            proof {
                assert(is_first_named(syntax@, range@, protocol, j as int));
                let c = choose|c: int| #[trigger] is_first_named(syntax@, range@, protocol, c);
                if c < j {
                    assert(syntax@[c].spec_name_range(protocol) != range@);
                } else if c > j {
                    assert(syntax@[j as int].spec_name_range(protocol) != range@);
                }
            }
            return Some(j);
        }
        j += 1;
    }
    proof {
        assert forall|c: int| !#[trigger] is_first_named(syntax@, range@, protocol, c) by {
            if is_first_named(syntax@, range@, protocol, c) {
                assert(syntax@[c].spec_name_range(protocol) == range@);
            }
        }
    }
    None
}

fn file_of_exec(files: &[(crate::model::RepositoryPath, Vec<SyntaxDefinition>)], path: &crate::model::RepositoryPath) -> (r: Option<usize>)
    ensures
        match r {
            Some(k) => file_of(file_paths(files@), path.value@) == Some(k as int),
            None => file_of(file_paths(files@), path.value@) is None,
        },
{
    let ghost paths = file_paths(files@);
    let mut k: usize = 0;
    while k < files.len()
        invariant
            k <= files.len(),
            paths == file_paths(files@),
            forall|m: int| 0 <= m < k ==> #[trigger] paths[m] != path.value@,
        decreases files.len() - k,
    {
        if crate::text::str_eq(files[k].0.as_str(), path.as_str()) {
            proof {
                assert(paths[k as int] == path.value@);
                assert(is_file_of(paths, path.value@, k as int));
                let c = choose|c: int| #[trigger] is_file_of(paths, path.value@, c);
                if c < k {
                    assert(paths[c] != path.value@);
                } else if c > k {
                    assert(paths[k as int] != path.value@);
                }
            }
            return Some(k);
        }
        k += 1;
    }
    proof {
        assert forall|c: int| !#[trigger] is_file_of(paths, path.value@, c) by {
            if is_file_of(paths, path.value@, c) {
                assert(paths[c] == path.value@);
            }
        }
    }
    None
}

} // verus!

verus! {

fn dup_parent(p: &Option<ProviderSymbolId>) -> (r: Option<ProviderSymbolId>)
    ensures
        r == *p,
{
    match p {
        Some(x) => Some(x.duplicate()),
        None => None,
    }
}

fn same_parent_exec(a: &Option<ProviderSymbolId>, b: &Option<ProviderSymbolId>) -> (r: bool)
    ensures
        r == same_parent(*a, *b),
{
    match (a, b) {
        (Some(x), Some(y)) => crate::text::str_eq(x.value.as_str(), y.value.as_str()),
        (None, None) => true,
        _ => false,
    }
}

/// The owner decision for `d` (see `spec_owner_resolution`), with `kinds`
/// the table as matching left it.
pub fn owner_resolution(
    d: &DefinitionDraft,
    files: &[(crate::model::RepositoryPath, Vec<SyntaxDefinition>)],
    results: &[(Vec<bool>, Vec<Option<ProviderSymbolId>>, Vec<MatchOutcome>)],
    kinds: &DefinitionTable,
    protocol: ProviderProtocol,
) -> (r: OwnerResolution)
    requires
        kinds.wf(),
    ensures
        r == spec_owner_resolution(
            *d,
            file_paths(files@),
            file_syntax(files@),
            file_match_views(results@),
            kinds.entries@,
            protocol,
        ),
{
    let Some(k) = file_of_exec(files, &d.path) else {
        return OwnerResolution::NotApplicable;
    };
    let Some(idx) = d.syntax_match else {
        return OwnerResolution::NotApplicable;
    };
    if !(k < files.len() && k < results.len() && idx < files[k].1.len()) {
        return OwnerResolution::NotApplicable;
    }
    let syntax = files[k].1.as_slice();
    let matched = results[k].1.as_slice();
    assert(file_syntax(files@)[k as int] == syntax@);
    assert(file_match_views(results@)[k as int].1 == matched@);
    let candidate = &syntax[idx];
    let range = candidate.parent_name_range(protocol);
    let expected: Option<ProviderSymbolId> = match range {
        Some(r) => match parent_index_exec(syntax, r, protocol) {
            Some(j) => if j < matched.len() {
                dup_parent(&matched[j])
            } else {
                None
            },
            None => None,
        },
        None => None,
    };
    if range.is_some() && expected.is_none() {
        return OwnerResolution::Unresolved;
    }
    let normalized: Option<ProviderSymbolId> = match expected {
        Some(p) => Some(p),
        None => match &d.parent_symbol_id {
            Some(p) => {
                let namespace = match kinds.get(p) {
                    Some(o) => o.canonical_kind_hint == crate::model::FactNodeKind::Namespace,
                    None => false,
                };
                if namespace {
                    None
                } else {
                    Some(p.duplicate())
                }
            },
            None => None,
        },
    };
    let same = same_parent_exec(&normalized, &d.parent_symbol_id);
    OwnerResolution::Resolved {
        parent: if same {
            dup_parent(&d.parent_symbol_id)
        } else {
            normalized
        },
        declared: range.is_some(),
        repaired: !same,
    }
}

} // verus!

verus! {

/// The `(alias, primary)` pairs of one file's outcomes, in order: `order`
/// lists the file's definitions as they were matched.
pub open spec fn file_alias_pairs(order: Seq<ProviderSymbolId>, outs: Seq<MatchOutcome>) -> Seq<
    (ProviderSymbolId, ProviderSymbolId),
>
    decreases outs.len(),
{
    if outs.len() == 0 {
        Seq::empty()
    } else {
        let r = file_alias_pairs(order, outs.drop_last());
        match outs.last() {
            MatchOutcome::Alias { primary } => r.push((order[outs.len() - 1], primary)),
            _ => r,
        }
    }
}

/// The alias pairs of every file, file after file.
pub open spec fn all_alias_pairs(orders: Seq<Seq<ProviderSymbolId>>, files: Seq<FileMatch>) -> Seq<
    (ProviderSymbolId, ProviderSymbolId),
>
    decreases files.len(),
{
    if files.len() == 0 {
        Seq::empty()
    } else {
        all_alias_pairs(orders, files.drop_last()) + file_alias_pairs(
            orders[files.len() - 1],
            files.last().2,
        )
    }
}

/// Every entry of `resolved_entries` keeps the identity of a definition it
/// came from, and distinct identities stay distinct.
pub proof fn lemma_resolved_entries_ids(
    defs: Seq<DefinitionDraft>,
    paths: Seq<Seq<char>>,
    syntax: Seq<Seq<SyntaxDefinition>>,
    files: Seq<FileMatch>,
    kinds: Seq<DefinitionDraft>,
    protocol: ProviderProtocol,
)
    ensures
        forall|j: int|
            0 <= j < resolved_entries(defs, paths, syntax, files, kinds, protocol).len() ==> exists|m: int|
                0 <= m < defs.len() && (#[trigger] resolved_entries(
                    defs,
                    paths,
                    syntax,
                    files,
                    kinds,
                    protocol,
                )[j]).symbol_id == defs[m].symbol_id,
        crate::definitions::ids_unique(defs) ==> crate::definitions::ids_unique(
            resolved_entries(defs, paths, syntax, files, kinds, protocol),
        ),
    decreases defs.len(),
{
    if defs.len() > 0 {
        let init = defs.drop_last();
        lemma_resolved_entries_ids(init, paths, syntax, files, kinds, protocol);
        let r0 = resolved_entries(init, paths, syntax, files, kinds, protocol);
        let r = resolved_entries(defs, paths, syntax, files, kinds, protocol);
        assert forall|j: int| 0 <= j < r0.len() implies exists|m: int|
            0 <= m < defs.len() && (#[trigger] r0[j]).symbol_id == defs[m].symbol_id by {
            let m = choose|m: int| 0 <= m < init.len() && r0[j].symbol_id == init[m].symbol_id;
            assert(defs[m] == init[m]);
        }
        match resolved_entry(defs.last(), paths, syntax, files, kinds, protocol) {
            Some(e) => {
                assert(r == r0.push(e));
                assert(e.symbol_id == defs[defs.len() - 1].symbol_id);
                assert forall|j: int| 0 <= j < r.len() implies exists|m: int|
                    0 <= m < defs.len() && (#[trigger] r[j]).symbol_id == defs[m].symbol_id by {
                    if j < r0.len() {
                        assert(r[j] == r0[j]);
                    }
                }
                if crate::definitions::ids_unique(defs) {
                    assert(crate::definitions::ids_unique(init)) by {
                        assert forall|a: int, b: int|
                            0 <= a < init.len() && 0 <= b < init.len()
                                && (#[trigger] init[a]).symbol_id.value@ == (#[trigger] init[b]).symbol_id.value@
                                implies a == b by {
                            assert(defs[a] == init[a] && defs[b] == init[b]);
                        }
                    }
                    assert forall|a: int, b: int|
                        0 <= a < r.len() && 0 <= b < r.len() && (#[trigger] r[a]).symbol_id.value@
                            == (#[trigger] r[b]).symbol_id.value@ implies a == b by {
                        if a < r0.len() && b == r0.len() {
                            assert(r[a] == r0[a]);
                            let m = choose|m: int| 0 <= m < init.len() && r0[a].symbol_id == init[m].symbol_id;
                            assert(defs[m] == init[m]);
                            assert(defs[m].symbol_id.value@ == defs[defs.len() - 1].symbol_id.value@);
                        } else if b < r0.len() && a == r0.len() {
                            assert(r[b] == r0[b]);
                            let m = choose|m: int| 0 <= m < init.len() && r0[b].symbol_id == init[m].symbol_id;
                            assert(defs[m] == init[m]);
                            assert(defs[m].symbol_id.value@ == defs[defs.len() - 1].symbol_id.value@);
                        } else if a < r0.len() && b < r0.len() {
                            assert(r[a] == r0[a] && r[b] == r0[b]);
                        }
                    }
                }
            },
            None => {
                if crate::definitions::ids_unique(defs) {
                    assert(crate::definitions::ids_unique(init)) by {
                        assert forall|a: int, b: int|
                            0 <= a < init.len() && 0 <= b < init.len()
                                && (#[trigger] init[a]).symbol_id.value@ == (#[trigger] init[b]).symbol_id.value@
                                implies a == b by {
                            assert(defs[a] == init[a] && defs[b] == init[b]);
                        }
                    }
                }
            },
        }
    }
}

/// The result of reconciling a unit's provider definitions with its source
/// declarations: each file's matching, each matched definition's owner
/// decision, and the provider definitions found to be aliases of another,
/// as `(alias, primary)` pairs.
#[derive(Debug)]
pub struct InventoryReconciliation {
    pub files: Vec<(Vec<bool>, Vec<Option<ProviderSymbolId>>, Vec<MatchOutcome>)>,
    pub owners: Vec<OwnerResolution>,
    pub aliases: Vec<(ProviderSymbolId, ProviderSymbolId)>,
}

fn push_file_aliases(
    aliases: &mut Vec<(ProviderSymbolId, ProviderSymbolId)>,
    order: &[ProviderSymbolId],
    outs: &[MatchOutcome],
)
    requires
        outs@.len() <= order@.len(),
    ensures
        final(aliases)@ == old(aliases)@ + file_alias_pairs(order@, outs@),
{
    let ghost start = aliases@;
    let mut n: usize = 0;
    while n < outs.len()
        invariant
            n <= outs@.len(),
            outs@.len() <= order@.len(),
            aliases@ == start + file_alias_pairs(order@, outs@.take(n as int)),
        decreases outs@.len() - n,
    {
        let ghost before = aliases@;
        let ghost t = outs@.take(n + 1);
        assert(t.drop_last() == outs@.take(n as int));
        assert(t.last() == outs@[n as int]);
        match &outs[n] {
            MatchOutcome::Alias { primary } => {
                aliases.push((order[n].duplicate(), primary.duplicate()));
                assert(aliases@ == start + file_alias_pairs(order@, t));
            },
            _ => {
                assert(aliases@ == start + file_alias_pairs(order@, t));
            },
        }
        n += 1;
    }
    assert(outs@.take(outs@.len() as int) == outs@);
}

/// Reconciles the provider definitions of a unit with the declarations of its
/// inventoried files: definitions are matched file by file; owners are then
/// resolved from the declarations' structure; definitions with unresolved
/// owners, and definitions of inventoried files that match no declaration,
/// are dropped. `files` holds each inventoried file once.
pub fn reconcile_definition_inventory(
    files: &[(crate::model::RepositoryPath, Vec<SyntaxDefinition>)],
    definitions: &mut DefinitionTable,
    protocol: ProviderProtocol,
) -> (r: InventoryReconciliation)
    requires
        old(definitions).wf(),
    ensures
        final(definitions).wf(),
        exists|orders: Seq<Seq<ProviderSymbolId>>|
            #![trigger match_files(old(definitions).entries@, file_syntax(files@), orders, protocol)]
            {
            &&& orders.len() == files@.len()
            &&& forall|k: int|
                0 <= k < files@.len() ==> is_path_order(
                    old(definitions).entries@,
                    file_paths(files@)[k],
                    #[trigger] orders[k],
                )
            &&& {
                let (matched_defs, fm) = match_files(
                    old(definitions).entries@,
                    file_syntax(files@),
                    orders,
                    protocol,
                );
                &&& file_match_views(r.files@) == fm
                &&& r.owners@.len() == matched_defs.len()
                &&& forall|i: int|
                    0 <= i < matched_defs.len() ==> #[trigger] r.owners@[i] == spec_owner_resolution(
                        matched_defs[i],
                        file_paths(files@),
                        file_syntax(files@),
                        fm,
                        matched_defs,
                        protocol,
                    )
                &&& final(definitions).entries@ == resolved_entries(
                    matched_defs,
                    file_paths(files@),
                    file_syntax(files@),
                    fm,
                    matched_defs,
                    protocol,
                )
                &&& r.aliases@ == all_alias_pairs(orders, fm)
            }
        },
{
    let (results, orders) = match_all_files(files, definitions, protocol);
    let ghost defs_a = definitions.entries@;
    let ghost paths = file_paths(files@);
    let ghost syntax = file_syntax(files@);
    let ghost fm = file_match_views(results@);
    let ghost ov = order_views(orders@);
    // Owner decisions, made against the table as matching left it.
    let mut owners: Vec<OwnerResolution> = Vec::new();
    let mut i: usize = 0;
    while i < definitions.entries.len()
        invariant
            i <= definitions.entries@.len(),
            definitions.wf(),
            definitions.entries@ == defs_a,
            fm == file_match_views(results@),
            paths == file_paths(files@),
            syntax == file_syntax(files@),
            owners@.len() == i,
            forall|j: int|
                0 <= j < i ==> #[trigger] owners@[j] == spec_owner_resolution(
                    defs_a[j],
                    paths,
                    syntax,
                    fm,
                    defs_a,
                    protocol,
                ),
        decreases definitions.entries@.len() - i,
    {
        let decision = owner_resolution(
            &definitions.entries[i],
            files,
            results.as_slice(),
            definitions,
            protocol,
        );
        owners.push(decision);
        i += 1;
    }
    // The table keeps each definition that resolved, under its resolved owner.
    let mut rest: Vec<DefinitionDraft> = Vec::new();
    std::mem::swap(&mut rest, &mut definitions.entries);
    let mut kept: Vec<DefinitionDraft> = Vec::new();
    let mut i: usize = 0;
    while i < owners.len()
        invariant
            i <= owners@.len(),
            owners@.len() == defs_a.len(),
            rest@ == defs_a.skip(i as int),
            forall|j: int|
                0 <= j < defs_a.len() ==> #[trigger] owners@[j] == spec_owner_resolution(
                    defs_a[j],
                    paths,
                    syntax,
                    fm,
                    defs_a,
                    protocol,
                ),
            kept@ == resolved_entries(defs_a.take(i as int), paths, syntax, fm, defs_a, protocol),
            paths == file_paths(files@),
            syntax == file_syntax(files@),
        decreases owners@.len() - i,
    {
        let ghost prefix = defs_a.take(i + 1);
        assert(prefix.drop_last() == defs_a.take(i as int));
        assert(prefix.last() == defs_a[i as int]);
        assert(rest@[0] == defs_a[i as int]);
        let mut d = rest.remove(0);
        assert(rest@ =~= defs_a.skip(i + 1));
        match &owners[i] {
            OwnerResolution::Unresolved => {},
            OwnerResolution::Resolved { parent, .. } => {
                d.parent_symbol_id = dup_parent(parent);
                kept.push(d);
            },
            OwnerResolution::NotApplicable => {
                let inventoried = file_of_exec(files, &d.path).is_some();
                if !(d.syntax_match.is_none() && inventoried) {
                    kept.push(d);
                }
            },
        }
        i += 1;
    }
    assert(defs_a.take(defs_a.len() as int) == defs_a);
    proof {
        lemma_resolved_entries_ids(defs_a, paths, syntax, fm, defs_a, protocol);
    }
    definitions.entries = kept;
    // The aliases, file after file.
    let mut aliases: Vec<(ProviderSymbolId, ProviderSymbolId)> = Vec::new();
    let mut k: usize = 0;
    while k < results.len()
        invariant
            k <= results@.len(),
            results@.len() == orders@.len(),
            fm == file_match_views(results@),
            ov == order_views(orders@),
            forall|j: int| 0 <= j < fm.len() ==> (#[trigger] fm[j]).2.len() <= ov[j].len(),
            aliases@ == all_alias_pairs(ov, fm.take(k as int)),
        decreases results@.len() - k,
    {
        let ghost t = fm.take(k + 1);
        assert(t.drop_last() == fm.take(k as int));
        assert(t.last() == fm[k as int]);
        assert(fm[k as int].2 == results@[k as int].2@);
        assert(ov[k as int] == orders@[k as int]@);
        push_file_aliases(&mut aliases, orders[k].as_slice(), results[k].2.as_slice());
        k += 1;
    }
    assert(fm.take(fm.len() as int) == fm);
    InventoryReconciliation { files: results, owners, aliases }
}

} // verus!
