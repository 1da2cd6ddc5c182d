//! Classification of provider type relations against explicit syntax.
//!
//! A provider's `USES_TYPE`, `TYPE_DEFINITION`, `IMPLEMENTATION`,
//! `DEFINITION_OVERRIDE` or `DEFINITION` relation between two definitions is
//! kept only when an explicit declaration-bound site of the source file, or
//! the definitions' own kinds, support it.
use vstd::prelude::*;

use crate::definitions::{
    lookup, spec_definition_base_name, spec_is_type_owner_kind, DefinitionDraft, DefinitionTable,
};
use crate::inventory::{uses_utf16, ProviderProtocol, SyntaxDefinition};
use crate::model::{AnalysisCapability, FactNodeKind, IrEndpoint, LanguageRelationKind, ProgrammingLanguage, ProviderSymbolId, RepositoryPath};
use crate::relations::{alias_of, listed, spec_endpoint, spec_provider_relation_capability, spec_hierarchy_kind, spec_is_override_pair, spec_relation_kind_rank, RelationOutput, TypeRelationIntent};
use crate::resolver::{first_match, is_first_match, lemma_first_match, lemma_no_match, target_view, TargetView};
use crate::schedule::spec_decimal;
use crate::syntax::spec_canonical_bounds;
use crate::text::{char_views, concat, join_chars, join_with, string_of};

verus! {

/// One explicit hierarchy clause: `class A extends B`, `impl T for S`, ...
#[derive(Clone, Debug)]
pub struct SyntaxTypeRelationSite {
    pub intent: TypeRelationIntent,
    pub source_name: String,
    pub source_utf8_range: Vec<i32>,
    pub source_utf16_range: Vec<i32>,
    pub target_name: String,
    pub target_utf8_range: Vec<i32>,
    pub target_utf16_range: Vec<i32>,
}

/// One explicit, declaration-bound type reference.
#[derive(Clone, Debug)]
pub struct SyntaxTypeUseSite {
    pub source_name: String,
    pub source_name_utf8_range: Vec<i32>,
    pub source_name_utf16_range: Vec<i32>,
    pub source_declaration_utf8_range: Vec<i32>,
    pub source_declaration_utf16_range: Vec<i32>,
    pub target_name: String,
    pub target_utf8_range: Vec<i32>,
    pub target_utf16_range: Vec<i32>,
}

/// The same bounds (see `syntax::ranges_equal`).
pub open spec fn same_bounds(a: Seq<i32>, b: Seq<i32>) -> bool {
    spec_canonical_bounds(a) == spec_canonical_bounds(b)
}

/// `outer` encloses `inner` (see `syntax::range_contains`).
pub open spec fn contains_range(outer: Seq<i32>, inner: Seq<i32>) -> bool {
    match (spec_canonical_bounds(outer), spec_canonical_bounds(inner)) {
        (Some(o), Some(i)) => crate::syntax::point_le(o.0, i.0) && crate::syntax::point_le(i.1, o.1),
        _ => false,
    }
}

impl SyntaxTypeRelationSite {
    pub open spec fn spec_source_range(&self, protocol: ProviderProtocol) -> Seq<i32> {
        if uses_utf16(protocol) {
            self.source_utf16_range@
        } else {
            self.source_utf8_range@
        }
    }

    pub open spec fn spec_target_range(&self, protocol: ProviderProtocol) -> Seq<i32> {
        if uses_utf16(protocol) {
            self.target_utf16_range@
        } else {
            self.target_utf8_range@
        }
    }

    pub fn source_range(&self, protocol: ProviderProtocol) -> (r: &[i32])
        ensures
            r@ == self.spec_source_range(protocol),
    {
        match protocol {
            ProviderProtocol::LanguageServerProtocol => self.source_utf16_range.as_slice(),
            _ => self.source_utf8_range.as_slice(),
        }
    }

    pub fn target_range(&self, protocol: ProviderProtocol) -> (r: &[i32])
        ensures
            r@ == self.spec_target_range(protocol),
    {
        match protocol {
            ProviderProtocol::LanguageServerProtocol => self.target_utf16_range.as_slice(),
            _ => self.target_utf8_range.as_slice(),
        }
    }
}

impl SyntaxTypeUseSite {
    pub open spec fn spec_source_name_range(&self, protocol: ProviderProtocol) -> Seq<i32> {
        if uses_utf16(protocol) {
            self.source_name_utf16_range@
        } else {
            self.source_name_utf8_range@
        }
    }

    pub open spec fn spec_target_range(&self, protocol: ProviderProtocol) -> Seq<i32> {
        if uses_utf16(protocol) {
            self.target_utf16_range@
        } else {
            self.target_utf8_range@
        }
    }

    /// A provider range designates this site's target when it is the same
    /// range or one encloses the other.
    pub open spec fn spec_matches_target_range(&self, range: Seq<i32>, protocol: ProviderProtocol) -> bool {
        let target = self.spec_target_range(protocol);
        same_bounds(target, range) || contains_range(range, target) || contains_range(target, range)
    }

    pub fn source_name_range(&self, protocol: ProviderProtocol) -> (r: &[i32])
        ensures
            r@ == self.spec_source_name_range(protocol),
    {
        match protocol {
            ProviderProtocol::LanguageServerProtocol => self.source_name_utf16_range.as_slice(),
            _ => self.source_name_utf8_range.as_slice(),
        }
    }

    pub fn target_range(&self, protocol: ProviderProtocol) -> (r: &[i32])
        ensures
            r@ == self.spec_target_range(protocol),
    {
        match protocol {
            ProviderProtocol::LanguageServerProtocol => self.target_utf16_range.as_slice(),
            _ => self.target_utf8_range.as_slice(),
        }
    }

    pub fn matches_target_range(&self, range: &[i32], protocol: ProviderProtocol) -> (r: bool)
        ensures
            r == self.spec_matches_target_range(range@, protocol),
    {
        let target = self.target_range(protocol);
        crate::syntax::ranges_equal(target, range) || crate::syntax::range_contains(range, target)
            || crate::syntax::range_contains(target, range)
    }
}

/// The declarations found in one file.
#[derive(Debug)]
pub struct FileSyntaxDefinitions {
    pub path: RepositoryPath,
    pub definitions: Vec<SyntaxDefinition>,
}

/// The hierarchy clauses found in one file.
#[derive(Debug)]
pub struct FileTypeRelationSites {
    pub path: RepositoryPath,
    pub sites: Vec<SyntaxTypeRelationSite>,
}

/// The type references found in one file.
#[derive(Debug)]
pub struct FileTypeUseSites {
    pub path: RepositoryPath,
    pub sites: Vec<SyntaxTypeUseSite>,
}

/// Where a provider reported occurrences of one symbol in one file.
#[derive(Debug)]
pub struct SymbolOccurrenceRanges {
    pub path: String,
    pub symbol_id: ProviderSymbolId,
    pub ranges: Vec<Vec<i32>>,
}

/// What type-relation classification reads; each table is read by its
/// first entry for a key.
pub struct ProviderRelationClassificationContext<'a> {
    pub language: ProgrammingLanguage,
    pub protocol: ProviderProtocol,
    pub definitions: &'a DefinitionTable,
    pub syntax_definitions: &'a [FileSyntaxDefinitions],
    pub syntax_type_relations: &'a [FileTypeRelationSites],
    pub syntax_type_uses: &'a [FileTypeUseSites],
    pub hierarchy_occurrence_ranges: &'a [SymbolOccurrenceRanges],
}

/// A classified type relation. Its capability is always type relations, its
/// evidence a type-relation site and its dispatch not applicable.
#[derive(Debug)]
pub struct TypeRelationMapping {
    pub kind: LanguageRelationKind,
    pub reverse_endpoints: bool,
    pub evidence_range: Option<Vec<i32>>,
    pub matched_explicit_site_key: Option<String>,
}

/// A mapping by its plain values.
pub type MappingView = (LanguageRelationKind, bool, Option<Seq<i32>>, Option<Seq<char>>);

pub open spec fn mapping_view(m: TypeRelationMapping) -> MappingView {
    (
        m.kind,
        m.reverse_endpoints,
        match m.evidence_range {
            Some(r) => Some(r@),
            None => None,
        },
        match m.matched_explicit_site_key {
            Some(k) => Some(k@),
            None => None,
        },
    )
}

pub open spec fn definitions_at(path: Seq<char>) -> spec_fn(FileSyntaxDefinitions) -> bool {
    |e: FileSyntaxDefinitions| e.path.value@ == path
}

pub open spec fn relation_sites_at(path: Seq<char>) -> spec_fn(FileTypeRelationSites) -> bool {
    |e: FileTypeRelationSites| e.path.value@ == path
}

pub open spec fn use_sites_at(path: Seq<char>) -> spec_fn(FileTypeUseSites) -> bool {
    |e: FileTypeUseSites| e.path.value@ == path
}

pub open spec fn occurrences_at(path: Seq<char>, id: Seq<char>) -> spec_fn(SymbolOccurrenceRanges) -> bool {
    |e: SymbolOccurrenceRanges| e.path@ == path && e.symbol_id.value@ == id
}

/// The declaration a definition was matched to in its own file.
pub open spec fn syntax_definition_of(
    ctx: ProviderRelationClassificationContext,
    d: DefinitionDraft,
) -> Option<SyntaxDefinition> {
    match d.syntax_match {
        None => None,
        Some(index) => match first_match(ctx.syntax_definitions@, definitions_at(d.path.value@)) {
            None => None,
            Some(i) => if index < ctx.syntax_definitions@[i].definitions@.len() {
                Some(ctx.syntax_definitions@[i].definitions@[index as int])
            } else {
                None
            },
        },
    }
}

pub open spec fn type_use_matches(
    protocol: ProviderProtocol,
    relation_range: Seq<i32>,
    name_range: Seq<i32>,
) -> spec_fn(SyntaxTypeUseSite) -> bool {
    |site: SyntaxTypeUseSite|
        same_bounds(site.spec_source_name_range(protocol), name_range)
            && site.spec_matches_target_range(relation_range, protocol)
}

/// The first type reference of the source's file that is bound to the
/// source declaration's name and lies at the provider's range.
pub open spec fn spec_explicit_type_use_site(
    ctx: ProviderRelationClassificationContext,
    relation: RelationOutput,
    source_id: Seq<char>,
    target_id: Seq<char>,
    source: DefinitionDraft,
) -> Option<SyntaxTypeUseSite> {
    if source_id == target_id || source.path.value@ != relation.path@ {
        None
    } else {
        match syntax_definition_of(ctx, source) {
            None => None,
            Some(declaration) => match first_match(ctx.syntax_type_uses@, use_sites_at(source.path.value@)) {
                None => None,
                Some(i) => {
                    let sites = ctx.syntax_type_uses@[i].sites@;
                    match first_match(
                        sites,
                        type_use_matches(ctx.protocol, relation.range@, declaration.spec_name_range(ctx.protocol)),
                    ) {
                        Some(j) => Some(sites[j]),
                        None => None,
                    }
                },
            },
        }
    }
}

/// The provider's occurrence ranges of symbol `id` in file `path`.
pub open spec fn occurrence_ranges(
    ctx: ProviderRelationClassificationContext,
    path: Seq<char>,
    id: Seq<char>,
) -> Seq<Seq<i32>> {
    match first_match(ctx.hierarchy_occurrence_ranges@, occurrences_at(path, id)) {
        Some(i) => ctx.hierarchy_occurrence_ranges@[i].ranges@.map_values(|r: Vec<i32>| r@),
        None => Seq::empty(),
    }
}

pub open spec fn any_same_bounds(ranges: Seq<Seq<i32>>, r: Seq<i32>) -> bool {
    exists|k: int| 0 <= k < ranges.len() && #[trigger] same_bounds(ranges[k], r)
}

pub open spec fn hierarchy_matches(
    protocol: ProviderProtocol,
    name_range: Seq<i32>,
    source_ranges: Seq<Seq<i32>>,
    target_ranges: Seq<Seq<i32>>,
    target_name: Seq<char>,
) -> spec_fn(SyntaxTypeRelationSite) -> bool {
    |site: SyntaxTypeRelationSite|
        (same_bounds(site.spec_source_range(protocol), name_range) || any_same_bounds(
            source_ranges,
            site.spec_source_range(protocol),
        )) && (any_same_bounds(target_ranges, site.spec_target_range(protocol))
            || site.target_name@ == target_name)
}

/// The first hierarchy clause of the source's file whose source is the
/// source declaration (by its name or a provider occurrence) and whose
/// target is the target definition (by a provider occurrence or its name).
pub open spec fn spec_explicit_hierarchy_site(
    ctx: ProviderRelationClassificationContext,
    source_id: Seq<char>,
    target_id: Seq<char>,
    source: DefinitionDraft,
    target: DefinitionDraft,
) -> Option<SyntaxTypeRelationSite> {
    match syntax_definition_of(ctx, source) {
        None => None,
        Some(declaration) => match first_match(
            ctx.syntax_type_relations@,
            relation_sites_at(source.path.value@),
        ) {
            None => None,
            Some(i) => {
                let sites = ctx.syntax_type_relations@[i].sites@;
                let found = first_match(
                    sites,
                    hierarchy_matches(
                        ctx.protocol,
                        declaration.spec_name_range(ctx.protocol),
                        occurrence_ranges(ctx, source.path.value@, source_id),
                        occurrence_ranges(ctx, source.path.value@, target_id),
                        spec_definition_base_name(target.display_name@),
                    ),
                );
                match found {
                    Some(j) => Some(sites[j]),
                    None => None,
                }
            },
        },
    }
}


// ---------------------------------------------------------------------------
// Site keys
// ---------------------------------------------------------------------------

/// The decimal text of an `i32`, with a leading `-` when negative.
pub open spec fn spec_i32_text(x: i32) -> Seq<char> {
    if x < 0 {
        "-"@ + spec_decimal((-x) as nat)
    } else {
        spec_decimal(x as nat)
    }
}

/// The `Debug` text of a list of `i32`: `[a, b, c]`.
pub open spec fn spec_debug_i32s(v: Seq<i32>) -> Seq<char> {
    "["@ + join_with(v.map_values(|x: i32| spec_i32_text(x)), ", "@) + "]"@
}

/// The number a site's intent contributes to its key.
pub open spec fn intent_number(intent: TypeRelationIntent) -> nat {
    match intent {
        TypeRelationIntent::Exact(kind) => spec_relation_kind_rank(kind) as nat,
        TypeRelationIntent::CSharpBase => 255,
    }
}

/// The audit key of an explicit hierarchy site: tab-separated path, source
/// name and range, target name and range, and intent number.
pub open spec fn spec_type_relation_site_key(path: Seq<char>, site: SyntaxTypeRelationSite) -> Seq<char> {
    path + "\t"@ + site.source_name@ + "\t"@ + spec_debug_i32s(site.source_utf8_range@) + "\t"@
        + site.target_name@ + "\t"@ + spec_debug_i32s(site.target_utf8_range@) + "\t"@
        + spec_decimal(intent_number(site.intent))
}

fn i32_text(x: i32) -> (r: Vec<char>)
    ensures
        r@ == spec_i32_text(x),
{
    if x < 0 {
        let magnitude: i64 = -(x as i64);
        let digits = crate::schedule::decimal_chars(magnitude as usize);
        let mut out: Vec<char> = Vec::new();
        out.push('-');
        let mut k: usize = 0;
        while k < digits.len()
            invariant
                k <= digits.len(),
                out@ == seq!['-'] + digits@.take(k as int),
            decreases digits.len() - k,
        {
            out.push(digits[k]);
            assert(digits@.take(k + 1) =~= digits@.take(k as int).push(digits@[k as int]));
            assert(out@ =~= seq!['-'] + digits@.take(k + 1));
            k += 1;
        }
        proof {
            reveal_strlit("-");
            assert(digits@.take(digits@.len() as int) =~= digits@);
            assert("-"@ =~= seq!['-']);
        }
        out
    } else {
        crate::schedule::decimal_chars(x as usize)
    }
}

/// The `Debug` text of a list of `i32`.
pub fn debug_i32s(v: &[i32]) -> (r: String)
    ensures
        r@ == spec_debug_i32s(v@),
{
    let mut pieces: Vec<Vec<char>> = Vec::new();
    let mut k: usize = 0;
    while k < v.len()
        invariant
            k <= v.len(),
            char_views(pieces@) == v@.take(k as int).map_values(|x: i32| spec_i32_text(x)),
        decreases v.len() - k,
    {
        let ghost prev = pieces@;
        let t = i32_text(v[k]);
        pieces.push(t);
        assert(char_views(pieces@) =~= char_views(prev).push(spec_i32_text(v@[k as int])));
        assert(v@.take(k + 1).map_values(|x: i32| spec_i32_text(x)) =~= v@.take(k as int).map_values(|x: i32| spec_i32_text(x)).push(spec_i32_text(v@[k as int])));
        k += 1;
    }
    assert(v@.take(v@.len() as int) =~= v@);
    let joined = join_chars(&pieces, ", ");
    let body = string_of(joined.as_slice());
    let opened = concat("[", body.as_str());
    concat(opened.as_str(), "]")
}

/// The audit key of an explicit hierarchy site of file `path`.
pub fn type_relation_site_key(path: &RepositoryPath, site: &SyntaxTypeRelationSite) -> (r: String)
    ensures
        r@ == spec_type_relation_site_key(path.value@, *site),
{
    let intent: usize = match site.intent {
        TypeRelationIntent::Exact(kind) => crate::relations::relation_kind_rank(kind) as usize,
        TypeRelationIntent::CSharpBase => 255,
    };
    let a = concat(path.as_str(), "\t");
    let b = concat(a.as_str(), site.source_name.as_str());
    let c = concat(b.as_str(), "\t");
    let source_range = debug_i32s(site.source_utf8_range.as_slice());
    let d = concat(c.as_str(), source_range.as_str());
    let e = concat(d.as_str(), "\t");
    let f = concat(e.as_str(), site.target_name.as_str());
    let g = concat(f.as_str(), "\t");
    let target_range = debug_i32s(site.target_utf8_range.as_slice());
    let h = concat(g.as_str(), target_range.as_str());
    let i = concat(h.as_str(), "\t");
    let number = crate::schedule::decimal_text(intent);
    concat(i.as_str(), number.as_str())
}


// ---------------------------------------------------------------------------
// Classification
// ---------------------------------------------------------------------------

pub open spec fn is_call_relation(kind: Seq<char>) -> bool {
    kind == "CALLS"@ || kind == "CONSTRUCTS"@
}

/// The classification of a provider relation that is not a call: a
/// reference to a type needs an explicit type-use site; a relation between
/// two type owners must be an `IMPLEMENTATION`, which Go takes as is and
/// other languages need an explicit hierarchy clause for; a relation between
/// methods of distinct type owners is an override (clangd's `DEFINITION`
/// pair with reversed endpoints in C++).
pub open spec fn spec_classify_views(
    ctx: ProviderRelationClassificationContext,
    relation: RelationOutput,
    source: TargetView,
    target: TargetView,
) -> Option<MappingView> {
    match (source, target) {
        (TargetView::Symbol(s), TargetView::Symbol(t)) => {
            let defs = ctx.definitions.entries@;
            match (lookup(defs, s), lookup(defs, t)) {
                (Some(sd), Some(td)) => {
                    let kind = relation.kind@;
                    if kind == "TYPE_DEFINITION"@ || kind == "USES_TYPE"@ {
                        if !(spec_is_type_owner_kind(td.canonical_kind_hint) || td.canonical_kind_hint
                            == FactNodeKind::TypeAlias) {
                            None
                        } else {
                            match spec_explicit_type_use_site(ctx, relation, s, t, sd) {
                                None => None,
                                Some(site) => Some(
                                    (
                                        LanguageRelationKind::UsesType,
                                        false,
                                        Some(site.spec_target_range(ctx.protocol)),
                                        None,
                                    ),
                                ),
                            }
                        }
                    } else if spec_is_type_owner_kind(sd.canonical_kind_hint) && spec_is_type_owner_kind(
                        td.canonical_kind_hint,
                    ) {
                        if kind != "IMPLEMENTATION"@ {
                            None
                        } else if ctx.language == ProgrammingLanguage::Go {
                            Some((LanguageRelationKind::Implements, false, None, None))
                        } else {
                            match spec_explicit_hierarchy_site(ctx, s, t, sd, td) {
                                None => None,
                                Some(site) => match spec_hierarchy_kind(
                                    site.intent,
                                    sd.canonical_kind_hint,
                                    td.canonical_kind_hint,
                                ) {
                                    None => None,
                                    Some(k) => Some(
                                        (
                                            k,
                                            false,
                                            Some(site.spec_target_range(ctx.protocol)),
                                            Some(spec_type_relation_site_key(sd.path.value@, site)),
                                        ),
                                    ),
                                },
                            }
                        }
                    } else if spec_is_override_pair(defs, sd, td) {
                        if kind == "IMPLEMENTATION"@ || kind == "DEFINITION_OVERRIDE"@ {
                            Some((LanguageRelationKind::Overrides, false, None, None))
                        } else if kind == "DEFINITION"@ && ctx.language == ProgrammingLanguage::Cpp {
                            Some((LanguageRelationKind::Overrides, true, None, None))
                        } else {
                            None
                        }
                    } else {
                        None
                    }
                },
                _ => None,
            }
        },
        _ => None,
    }
}

/// The classification of a relation between two endpoints.
pub open spec fn spec_classify_type_relation(
    ctx: ProviderRelationClassificationContext,
    relation: RelationOutput,
    source: IrEndpoint,
    target: IrEndpoint,
) -> Option<MappingView> {
    spec_classify_views(ctx, relation, target_view(source), target_view(target))
}

fn find_syntax_definition<'a>(
    ctx: &ProviderRelationClassificationContext<'a>,
    d: &DefinitionDraft,
) -> (r: Option<&'a SyntaxDefinition>)
    ensures
        match r {
            Some(x) => syntax_definition_of(*ctx, *d) == Some(*x),
            None => syntax_definition_of(*ctx, *d) is None,
        },
{
    let index = match d.syntax_match {
        None => {
            return None;
        },
        Some(index) => index,
    };
    let table = ctx.syntax_definitions;
    let mut i: usize = 0;
    while i < table.len()
        invariant
            i <= table.len(),
            table@ == ctx.syntax_definitions@,
            d.syntax_match == Some(index),
            forall|j: int| 0 <= j < i ==> !definitions_at(d.path.value@)(#[trigger] table@[j]),
        decreases table.len() - i,
    {
        if crate::text::str_eq(table[i].path.as_str(), d.path.as_str()) {
            proof {
                lemma_first_match(table@, definitions_at(d.path.value@), i as int);
            }
            if index < table[i].definitions.len() {
                return Some(&table[i].definitions[index]);
            } else {
                return None;
            }
        }
        i += 1;
    }
    proof {
        lemma_no_match(table@, definitions_at(d.path.value@));
    }
    None
}

/// The explicit type reference that supports a provider type use, if any.
pub fn explicit_type_use_site<'a>(
    ctx: &ProviderRelationClassificationContext<'a>,
    relation: &RelationOutput,
    source_id: &ProviderSymbolId,
    target_id: &ProviderSymbolId,
    source: &DefinitionDraft,
) -> (r: Option<&'a SyntaxTypeUseSite>)
    ensures
        match r {
            Some(x) => spec_explicit_type_use_site(*ctx, *relation, source_id.value@, target_id.value@, *source) == Some(*x),
            None => spec_explicit_type_use_site(*ctx, *relation, source_id.value@, target_id.value@, *source) is None,
        },
{
    if crate::text::str_eq(source_id.as_str(), target_id.as_str()) || !crate::text::str_eq(
        source.path.as_str(),
        relation.path.as_str(),
    ) {
        return None;
    }
    let declaration = match find_syntax_definition(ctx, source) {
        None => {
            return None;
        },
        Some(x) => x,
    };
    let name_range = declaration.name_range(ctx.protocol);
    let table = ctx.syntax_type_uses;
    let mut i: usize = 0;
    while i < table.len()
        invariant
            i <= table.len(),
            table@ == ctx.syntax_type_uses@,
            source_id.value@ != target_id.value@,
            source.path.value@ == relation.path@,
            syntax_definition_of(*ctx, *source) == Some(*declaration),
            name_range@ == declaration.spec_name_range(ctx.protocol),
            forall|j: int| 0 <= j < i ==> !use_sites_at(source.path.value@)(#[trigger] table@[j]),
        decreases table.len() - i,
    {
        if crate::text::str_eq(table[i].path.as_str(), source.path.as_str()) {
            proof {
                lemma_first_match(table@, use_sites_at(source.path.value@), i as int);
            }
            let sites = &table[i].sites;
            let ghost pred = type_use_matches(ctx.protocol, relation.range@, name_range@);
            let mut k: usize = 0;
            while k < sites.len()
                invariant
                    k <= sites.len(),
                    pred == type_use_matches(ctx.protocol, relation.range@, name_range@),
                    sites@ == table@[i as int].sites@,
                    i < table@.len(),
                    table@ == ctx.syntax_type_uses@,
                    first_match(table@, use_sites_at(source.path.value@)) == Some(i as int),
                    source_id.value@ != target_id.value@,
                    source.path.value@ == relation.path@,
                    syntax_definition_of(*ctx, *source) == Some(*declaration),
                    name_range@ == declaration.spec_name_range(ctx.protocol),
                    forall|j: int| 0 <= j < k ==> !pred(#[trigger] sites@[j]),
                decreases sites.len() - k,
            {
                let site = &sites[k];
                if crate::syntax::ranges_equal(site.source_name_range(ctx.protocol), name_range)
                    && site.matches_target_range(relation.range.as_slice(), ctx.protocol) {
                    proof {
                        lemma_first_match(sites@, pred, k as int);
                    }
                    return Some(site);
                }
                k += 1;
            }
            proof {
                lemma_no_match(sites@, pred);
            }
            return None;
        }
        i += 1;
    }
    proof {
        lemma_no_match(table@, use_sites_at(source.path.value@));
    }
    None
}

fn occurrence_table_index(
    ctx: &ProviderRelationClassificationContext,
    path: &RepositoryPath,
    id: &ProviderSymbolId,
) -> (r: Option<usize>)
    ensures
        match r {
            Some(i) => i < ctx.hierarchy_occurrence_ranges@.len() && first_match(ctx.hierarchy_occurrence_ranges@, occurrences_at(path.value@, id.value@)) == Some(i as int),
            None => first_match(ctx.hierarchy_occurrence_ranges@, occurrences_at(path.value@, id.value@)) is None,
        },
{
    let table = ctx.hierarchy_occurrence_ranges;
    let mut i: usize = 0;
    while i < table.len()
        invariant
            i <= table.len(),
            table@ == ctx.hierarchy_occurrence_ranges@,
            forall|j: int| 0 <= j < i ==> !occurrences_at(path.value@, id.value@)(#[trigger] table@[j]),
        decreases table.len() - i,
    {
        if crate::text::str_eq(table[i].path.as_str(), path.as_str()) && crate::text::str_eq(
            table[i].symbol_id.as_str(),
            id.as_str(),
        ) {
            proof {
                lemma_first_match(table@, occurrences_at(path.value@, id.value@), i as int);
            }
            return Some(i);
        }
        i += 1;
    }
    proof {
        lemma_no_match(table@, occurrences_at(path.value@, id.value@));
    }
    None
}

/// Whether one of the provider's occurrences of `id` in `path` has the
/// bounds of `range`.
fn occurs_with_bounds(
    ctx: &ProviderRelationClassificationContext,
    path: &RepositoryPath,
    id: &ProviderSymbolId,
    range: &[i32],
) -> (r: bool)
    ensures
        r == any_same_bounds(occurrence_ranges(*ctx, path.value@, id.value@), range@),
{
    match occurrence_table_index(ctx, path, id) {
        None => false,
        Some(i) => {
            let ranges = &ctx.hierarchy_occurrence_ranges[i].ranges;
            let ghost views = ranges@.map_values(|r: Vec<i32>| r@);
            assert(views == occurrence_ranges(*ctx, path.value@, id.value@));
            let mut k: usize = 0;
            while k < ranges.len()
                invariant
                    k <= ranges.len(),
                    views == ranges@.map_values(|r: Vec<i32>| r@),
                    views == occurrence_ranges(*ctx, path.value@, id.value@),
                    forall|j: int| 0 <= j < k ==> !#[trigger] same_bounds(views[j], range@),
                decreases ranges.len() - k,
            {
                assert(views[k as int] == ranges@[k as int]@);
                if crate::syntax::ranges_equal(ranges[k].as_slice(), range) {
                    assert(same_bounds(views[k as int], range@));
                    return true;
                }
                k += 1;
            }
            false
        },
    }
}

/// The explicit hierarchy clause that supports a provider relation between
/// two type definitions, if any.
pub fn explicit_hierarchy_site<'a>(
    ctx: &ProviderRelationClassificationContext<'a>,
    source_id: &ProviderSymbolId,
    target_id: &ProviderSymbolId,
    source: &DefinitionDraft,
    target: &DefinitionDraft,
) -> (r: Option<&'a SyntaxTypeRelationSite>)
    ensures
        match r {
            Some(x) => spec_explicit_hierarchy_site(*ctx, source_id.value@, target_id.value@, *source, *target) == Some(*x),
            None => spec_explicit_hierarchy_site(*ctx, source_id.value@, target_id.value@, *source, *target) is None,
        },
{
    let declaration = match find_syntax_definition(ctx, source) {
        None => {
            return None;
        },
        Some(x) => x,
    };
    let name_range = declaration.name_range(ctx.protocol);
    let target_name = crate::definitions::definition_base_name(target.display_name.as_str());
    let table = ctx.syntax_type_relations;
    let mut i: usize = 0;
    while i < table.len()
        invariant
            i <= table.len(),
            table@ == ctx.syntax_type_relations@,
            syntax_definition_of(*ctx, *source) == Some(*declaration),
            name_range@ == declaration.spec_name_range(ctx.protocol),
            target_name@ == spec_definition_base_name(target.display_name@),
            forall|j: int| 0 <= j < i ==> !relation_sites_at(source.path.value@)(#[trigger] table@[j]),
        decreases table.len() - i,
    {
        if crate::text::str_eq(table[i].path.as_str(), source.path.as_str()) {
            proof {
                lemma_first_match(table@, relation_sites_at(source.path.value@), i as int);
            }
            let sites = &table[i].sites;
            let ghost pred = hierarchy_matches(
                ctx.protocol,
                name_range@,
                occurrence_ranges(*ctx, source.path.value@, source_id.value@),
                occurrence_ranges(*ctx, source.path.value@, target_id.value@),
                target_name@,
            );
            let mut k: usize = 0;
            while k < sites.len()
                invariant
                    k <= sites.len(),
                    pred == hierarchy_matches(
                        ctx.protocol,
                        name_range@,
                        occurrence_ranges(*ctx, source.path.value@, source_id.value@),
                        occurrence_ranges(*ctx, source.path.value@, target_id.value@),
                        target_name@,
                    ),
                    sites@ == table@[i as int].sites@,
                    i < table@.len(),
                    table@ == ctx.syntax_type_relations@,
                    first_match(table@, relation_sites_at(source.path.value@)) == Some(i as int),
                    syntax_definition_of(*ctx, *source) == Some(*declaration),
                    name_range@ == declaration.spec_name_range(ctx.protocol),
                    target_name@ == spec_definition_base_name(target.display_name@),
                    forall|j: int| 0 <= j < k ==> !pred(#[trigger] sites@[j]),
                decreases sites.len() - k,
            {
                let site = &sites[k];
                let site_source = site.source_range(ctx.protocol);
                let site_target = site.target_range(ctx.protocol);
                let source_ok = crate::syntax::ranges_equal(site_source, name_range)
                    || occurs_with_bounds(ctx, &source.path, source_id, site_source);
                let target_ok = occurs_with_bounds(ctx, &source.path, target_id, site_target)
                    || crate::text::str_eq(site.target_name.as_str(), target_name.as_str());
                if source_ok && target_ok {
                    proof {
                        lemma_first_match(sites@, pred, k as int);
                    }
                    return Some(site);
                }
                k += 1;
            }
            proof {
                lemma_no_match(sites@, pred);
            }
            return None;
        }
        i += 1;
    }
    proof {
        lemma_no_match(table@, relation_sites_at(source.path.value@));
    }
    None
}

fn type_relation_mapping(
    kind: LanguageRelationKind,
    evidence_range: Option<Vec<i32>>,
    reverse_endpoints: bool,
    matched_explicit_site_key: Option<String>,
) -> (r: TypeRelationMapping)
    ensures
        r.kind == kind,
        r.reverse_endpoints == reverse_endpoints,
        r.evidence_range == evidence_range,
        r.matched_explicit_site_key == matched_explicit_site_key,
{
    TypeRelationMapping { kind, reverse_endpoints, evidence_range, matched_explicit_site_key }
}

fn copy_range(v: &[i32]) -> (r: Vec<i32>)
    ensures
        r@ == v@,
{
    let mut out: Vec<i32> = Vec::new();
    let mut k: usize = 0;
    while k < v.len()
        invariant
            k <= v.len(),
            out@ == v@.take(k as int),
        decreases v.len() - k,
    {
        out.push(v[k]);
        assert(out@ =~= v@.take(k + 1));
        k += 1;
    }
    assert(v@.take(v@.len() as int) =~= v@);
    out
}

/// Classifies a provider relation that is not a call between two endpoints.
pub fn classify_type_relation(
    relation: &RelationOutput,
    source: &IrEndpoint,
    target: &IrEndpoint,
    context: &ProviderRelationClassificationContext,
) -> (r: Option<TypeRelationMapping>)
    requires
        context.definitions.wf(),
        !is_call_relation(relation.kind@),
    ensures
        match r {
            Some(m) => spec_classify_type_relation(*context, *relation, *source, *target) == Some(mapping_view(m)),
            None => spec_classify_type_relation(*context, *relation, *source, *target) is None,
        },
{
    let (source_id, target_id) = match (source, target) {
        (IrEndpoint::NativeSymbol { symbol_id: s }, IrEndpoint::NativeSymbol { symbol_id: t }) => (s, t),
        _ => {
            return None;
        },
    };
    let source_definition = match context.definitions.get(source_id) {
        None => {
            return None;
        },
        Some(d) => d,
    };
    let target_definition = match context.definitions.get(target_id) {
        None => {
            return None;
        },
        Some(d) => d,
    };
    let kind = relation.kind.as_str();
    if crate::text::str_eq(kind, "TYPE_DEFINITION") || crate::text::str_eq(kind, "USES_TYPE") {
        if !crate::relations::is_type_reference_target_kind(target_definition.canonical_kind_hint) {
            return None;
        }
        let site = match explicit_type_use_site(context, relation, source_id, target_id, source_definition) {
            None => {
                return None;
            },
            Some(x) => x,
        };
        let range = copy_range(site.target_range(context.protocol));
        return Some(type_relation_mapping(LanguageRelationKind::UsesType, Some(range), false, None));
    }
    if crate::definitions::is_type_owner_kind(source_definition.canonical_kind_hint)
        && crate::definitions::is_type_owner_kind(target_definition.canonical_kind_hint) {
        if !crate::text::str_eq(kind, "IMPLEMENTATION") {
            return None;
        }
        if context.language == ProgrammingLanguage::Go {
            return Some(type_relation_mapping(LanguageRelationKind::Implements, None, false, None));
        }
        let site = match explicit_hierarchy_site(
            context,
            source_id,
            target_id,
            source_definition,
            target_definition,
        ) {
            None => {
                return None;
            },
            Some(x) => x,
        };
        let relation_kind = match crate::relations::hierarchy_kind(
            site.intent,
            source_definition,
            target_definition,
        ) {
            None => {
                return None;
            },
            Some(k) => k,
        };
        let range = copy_range(site.target_range(context.protocol));
        let key = type_relation_site_key(&source_definition.path, site);
        return Some(type_relation_mapping(relation_kind, Some(range), false, Some(key)));
    }
    if crate::relations::is_override_pair(source_definition, target_definition, context.definitions) {
        if crate::text::str_eq(kind, "IMPLEMENTATION") || crate::text::str_eq(kind, "DEFINITION_OVERRIDE") {
            return Some(type_relation_mapping(LanguageRelationKind::Overrides, None, false, None));
        }
        if crate::text::str_eq(kind, "DEFINITION") && context.language == ProgrammingLanguage::Cpp {
            // clangd reports a header declaration -> implementation pair as
            // `is_definition`. Only a cross-owner C++ method pair is an
            // override here; top-level prototype/definition pairs are not.
            return Some(type_relation_mapping(LanguageRelationKind::Overrides, None, true, None));
        }
        return None;
    }
    None
}


// ---------------------------------------------------------------------------
// The per-relation stage
// ---------------------------------------------------------------------------

/// What becomes of one provider relation in the type-relation stage.
#[derive(Debug)]
pub enum RelationTriage {
    /// Not a relation a provider is authoritative for (imports, references).
    NotProviderRelation,
    /// A call or construction, classified against call-site evidence.
    CallRelation,
    /// A type relation that is counted as omitted.
    Omitted,
    /// A type relation whose oriented endpoints coincide; it is skipped.
    SelfRelation,
    /// A type relation with its oriented endpoints and mapping.
    Classified { source: IrEndpoint, target: IrEndpoint, mapping: TypeRelationMapping },
}

pub enum TriageView {
    NotProviderRelation,
    CallRelation,
    Omitted,
    SelfRelation,
    Classified(TargetView, TargetView, MappingView),
}

pub open spec fn triage_view(r: RelationTriage) -> TriageView {
    match r {
        RelationTriage::NotProviderRelation => TriageView::NotProviderRelation,
        RelationTriage::CallRelation => TriageView::CallRelation,
        RelationTriage::Omitted => TriageView::Omitted,
        RelationTriage::SelfRelation => TriageView::SelfRelation,
        RelationTriage::Classified { source, target, mapping } => TriageView::Classified(
            target_view(source),
            target_view(target),
            mapping_view(mapping),
        ),
    }
}

/// A symbol endpoint replaced by its primary definition when it is an alias.
pub open spec fn remap_view(e: TargetView, aliases: Seq<(ProviderSymbolId, ProviderSymbolId)>) -> TargetView {
    match e {
        TargetView::Symbol(id) => match alias_of(aliases, id) {
            Some(primary) => TargetView::Symbol(primary.value@),
            None => e,
        },
        _ => e,
    }
}

pub open spec fn discarded_view(e: TargetView, ids: Seq<ProviderSymbolId>) -> bool {
    match e {
        TargetView::Symbol(id) => listed(ids, id),
        _ => false,
    }
}

/// The stage: provider-authoritative type relations with parseable
/// endpoints are remapped to primary definitions, dropped when an endpoint
/// was discarded, classified, oriented, and skipped when both ends coincide.
pub open spec fn spec_triage(
    ctx: ProviderRelationClassificationContext,
    relation: RelationOutput,
    aliases: Seq<(ProviderSymbolId, ProviderSymbolId)>,
    discarded: Seq<ProviderSymbolId>,
) -> TriageView {
    match spec_provider_relation_capability(relation.kind@) {
        None => TriageView::NotProviderRelation,
        Some(AnalysisCapability::DirectCalls) => TriageView::CallRelation,
        Some(_) => match (spec_endpoint(relation.from@), spec_endpoint(relation.to@)) {
            (Some(from), Some(to)) => {
                let source = remap_view(from, aliases);
                let target = remap_view(to, aliases);
                if discarded_view(target, discarded) || discarded_view(source, discarded) {
                    TriageView::Omitted
                } else {
                    match spec_classify_views(ctx, relation, source, target) {
                        None => TriageView::Omitted,
                        Some(m) => {
                            let oriented = if m.1 {
                                (target, source)
                            } else {
                                (source, target)
                            };
                            if oriented.0 == oriented.1 {
                                TriageView::SelfRelation
                            } else {
                                TriageView::Classified(oriented.0, oriented.1, m)
                            }
                        },
                    }
                }
            },
            _ => TriageView::Omitted,
        },
    }
}

fn same_endpoint(a: &IrEndpoint, b: &IrEndpoint) -> (r: bool)
    ensures
        r == (target_view(*a) == target_view(*b)),
{
    match (a, b) {
        (IrEndpoint::NativeSymbol { symbol_id: x }, IrEndpoint::NativeSymbol { symbol_id: y }) => {
            crate::text::str_eq(x.as_str(), y.as_str())
        },
        (IrEndpoint::File { path: x }, IrEndpoint::File { path: y }) => crate::text::str_eq(
            x.as_str(),
            y.as_str(),
        ),
        (
            IrEndpoint::Structure { unit_id: u, kind: k, qualified_name: n },
            IrEndpoint::Structure { unit_id: v, kind: l, qualified_name: m },
        ) => crate::text::str_eq(u.as_str(), v.as_str()) && *k == *l && crate::text::str_eq(
            n.as_str(),
            m.as_str(),
        ),
        _ => false,
    }
}

/// Runs one provider relation through the type-relation stage.
pub fn triage_type_relation(
    relation: &RelationOutput,
    aliases: &[(ProviderSymbolId, ProviderSymbolId)],
    discarded_definition_ids: &[ProviderSymbolId],
    context: &ProviderRelationClassificationContext,
) -> (r: RelationTriage)
    requires
        context.definitions.wf(),
    ensures
        triage_view(r) == spec_triage(*context, *relation, aliases@, discarded_definition_ids@),
{
    let capability = match crate::relations::provider_relation_capability(relation.kind.as_str()) {
        None => {
            return RelationTriage::NotProviderRelation;
        },
        Some(c) => c,
    };
    if capability == AnalysisCapability::DirectCalls {
        return RelationTriage::CallRelation;
    }
    let source = match crate::relations::endpoint(relation.from.as_str()) {
        Err(_) => {
            return RelationTriage::Omitted;
        },
        Ok(e) => e,
    };
    let target = match crate::relations::endpoint(relation.to.as_str()) {
        Err(_) => {
            return RelationTriage::Omitted;
        },
        Ok(e) => e,
    };
    let source = crate::relations::remap_provider_alias(source, aliases);
    let target = crate::relations::remap_provider_alias(target, aliases);
    let (source, target) = match crate::relations::retain_relation_endpoints(
        relation,
        capability,
        source,
        target,
        discarded_definition_ids,
    ) {
        None => {
            return RelationTriage::Omitted;
        },
        Some(pair) => pair,
    };
    let mapping = match classify_type_relation(relation, &source, &target, context) {
        None => {
            return RelationTriage::Omitted;
        },
        Some(m) => m,
    };
    let (source, target) = if mapping.reverse_endpoints {
        (target, source)
    } else {
        (source, target)
    };
    if same_endpoint(&source, &target) {
        return RelationTriage::SelfRelation;
    }
    RelationTriage::Classified { source, target, mapping }
}

} // verus!
