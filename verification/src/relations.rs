//! Provider relation classification at the Language IR boundary.
//!
//! The provider supplies exact endpoints and source ranges. This module only
//! maps those facts into the closed product vocabulary when independent
//! syntax and definition evidence supports the mapping.
use vstd::prelude::*;

use crate::definitions::{
    definition_base_name, is_type_owner_kind, lookup, spec_definition_base_name, spec_is_type_owner_kind, DefinitionDraft, DefinitionTable,
};
use crate::dispatch::SyntaxCallSite;
use crate::model::{
    spec_kind_name, valid_repository_path, AnalysisCapability, CallSiteForm, EvidenceId,
    FactNodeKind, IrEndpoint, LanguageRelationKind, ProgrammingLanguage, ProviderSymbolId,
    RepositoryPath,
};
use crate::resolver::{target_view, TargetView};
use crate::text::{chars_eq_str, chars_of, concat, is_prefix, owned, str_eq, substr, trim_ws};

verus! {

/// A relation as a provider reports it.
#[derive(Debug)]
pub struct RelationOutput {
    pub from: String,
    pub to: String,
    pub kind: String,
    pub path: String,
    pub range: Vec<i32>,
}

/// A relation of the Language IR.
#[derive(Debug)]
pub struct IrRelation {
    pub source: IrEndpoint,
    pub target: IrEndpoint,
    pub kind: LanguageRelationKind,
    pub evidence_ids: Vec<EvidenceId>,
}

/// How an explicit type-relation site names its relation.
#[derive(Clone, Copy, Debug, PartialEq, Eq, Structural)]
pub enum TypeRelationIntent {
    Exact(LanguageRelationKind),
    CSharpBase,
}

pub open spec fn spec_provider_relation_capability(native: Seq<char>) -> Option<AnalysisCapability> {
    if native == "CALLS"@ || native == "CONSTRUCTS"@ {
        Some(AnalysisCapability::DirectCalls)
    } else if native == "IMPLEMENTATION"@ || native == "DEFINITION_OVERRIDE"@ || native
        == "DEFINITION"@ || native == "TYPE_DEFINITION"@ || native == "USES_TYPE"@ {
        Some(AnalysisCapability::TypeRelations)
    } else {
        None
    }
}

/// The capability a native provider relation is accounted under; imports and
/// generic references are not provider-authoritative relations.
pub fn provider_relation_capability(native: &str) -> (r: Option<AnalysisCapability>)
    ensures
        r == spec_provider_relation_capability(native@),
{
    let v = chars_of(native);
    let v = v.as_slice();
    if chars_eq_str(v, "CALLS") || chars_eq_str(v, "CONSTRUCTS") {
        Some(AnalysisCapability::DirectCalls)
    } else if chars_eq_str(v, "IMPLEMENTATION") || chars_eq_str(v, "DEFINITION_OVERRIDE")
        || chars_eq_str(v, "DEFINITION") || chars_eq_str(v, "TYPE_DEFINITION") || chars_eq_str(
        v,
        "USES_TYPE",
    ) {
        Some(AnalysisCapability::TypeRelations)
    } else {
        None
    }
}

pub fn is_type_reference_target_kind(kind: FactNodeKind) -> (b: bool)
    ensures
        b == (spec_is_type_owner_kind(kind) || kind == FactNodeKind::TypeAlias),
{
    is_type_owner_kind(kind) || kind == FactNodeKind::TypeAlias
}

/// The base name of a constructor's owner, when `target` is a constructor
/// whose owner is among `definitions`.
pub open spec fn constructor_owner_name(e: Seq<DefinitionDraft>, target: DefinitionDraft) -> Option<Seq<char>> {
    if target.canonical_kind_hint == FactNodeKind::Constructor {
        match target.parent_symbol_id {
            Some(p) => match lookup(e, p.value@) {
                Some(o) => Some(spec_definition_base_name(o.display_name@)),
                None => None,
            },
            None => None,
        }
    } else {
        None
    }
}

/// The names a written call token may carry for `target`: its own base name,
/// and for a constructor the base name of its owner type. Each name occurs once.
pub fn executable_target_names(target: &DefinitionDraft, definitions: &DefinitionTable) -> (r: Vec<String>)
    requires
        definitions.wf(),
    ensures
        r@.len() >= 1,
        r@[0]@ == spec_definition_base_name(target.display_name@),
        match constructor_owner_name(definitions.entries@, *target) {
            Some(n) => if n == spec_definition_base_name(target.display_name@) {
                r@.len() == 1
            } else {
                r@.len() == 2 && r@[1]@ == n
            },
            None => r@.len() == 1,
        },
{
    let own = definition_base_name(target.display_name.as_str());
    let mut names: Vec<String> = Vec::new();
    if target.canonical_kind_hint == FactNodeKind::Constructor {
        if let Some(owner_id) = &target.parent_symbol_id {
            if let Some(owner) = definitions.get(owner_id) {
                // Providers commonly resolve `new Box()` to `.ctor`, `<init>`, or
                // `__init__`. The source token is the owner type (`Box`), so both
                // exact semantic identities are needed for the same call site.
                let owner_name = definition_base_name(owner.display_name.as_str());
                let same = str_eq(own.as_str(), owner_name.as_str());
                names.push(own);
                if !same {
                    names.push(owner_name);
                }
                return names;
            }
        }
    }
    names.push(own);
    names
}

pub open spec fn spec_call_site_matches_relation(
    form: CallSiteForm,
    kind: LanguageRelationKind,
    language: ProgrammingLanguage,
    target_kind: FactNodeKind,
) -> bool {
    match kind {
        LanguageRelationKind::Calls => form != CallSiteForm::Construct,
        LanguageRelationKind::Constructs => form == CallSiteForm::Construct || ((language
            == ProgrammingLanguage::Python || language == ProgrammingLanguage::Dart) && (target_kind
            == FactNodeKind::Constructor || target_kind == FactNodeKind::Type || target_kind
            == FactNodeKind::Class || target_kind == FactNodeKind::Struct)),
        _ => false,
    }
}

/// Whether a written call site can carry a provider relation of `kind`.
pub fn call_site_matches_relation(
    site: &SyntaxCallSite,
    kind: LanguageRelationKind,
    language: ProgrammingLanguage,
    target_kind: FactNodeKind,
) -> (b: bool)
    ensures
        b == spec_call_site_matches_relation(site.form, kind, language, target_kind),
{
    match kind {
        LanguageRelationKind::Calls => site.form != CallSiteForm::Construct,
        LanguageRelationKind::Constructs => site.form == CallSiteForm::Construct || ((language
            == ProgrammingLanguage::Python || language == ProgrammingLanguage::Dart) && (target_kind
            == FactNodeKind::Constructor || target_kind == FactNodeKind::Type || target_kind
            == FactNodeKind::Class || target_kind == FactNodeKind::Struct)),
        _ => false,
    }
}

pub open spec fn spec_hierarchy_kind(
    intent: TypeRelationIntent,
    source_kind: FactNodeKind,
    target_kind: FactNodeKind,
) -> Option<LanguageRelationKind> {
    match intent {
        TypeRelationIntent::Exact(kind) => Some(kind),
        TypeRelationIntent::CSharpBase => {
            if source_kind == FactNodeKind::Interface {
                if target_kind == FactNodeKind::Interface {
                    Some(LanguageRelationKind::Extends)
                } else {
                    None
                }
            } else if target_kind == FactNodeKind::Interface || target_kind == FactNodeKind::Trait {
                Some(LanguageRelationKind::Implements)
            } else if target_kind == FactNodeKind::Class || target_kind == FactNodeKind::Struct {
                Some(LanguageRelationKind::Extends)
            } else {
                None
            }
        },
    }
}

/// The relation an explicit hierarchy site states between two type definitions.
pub fn hierarchy_kind(
    intent: TypeRelationIntent,
    source: &DefinitionDraft,
    target: &DefinitionDraft,
) -> (r: Option<LanguageRelationKind>)
    ensures
        r == spec_hierarchy_kind(intent, source.canonical_kind_hint, target.canonical_kind_hint),
{
    match intent {
        TypeRelationIntent::Exact(kind) => Some(kind),
        TypeRelationIntent::CSharpBase => {
            if source.canonical_kind_hint == FactNodeKind::Interface {
                return if target.canonical_kind_hint == FactNodeKind::Interface {
                    Some(LanguageRelationKind::Extends)
                } else {
                    None
                };
            }
            match target.canonical_kind_hint {
                FactNodeKind::Interface | FactNodeKind::Trait => Some(
                    LanguageRelationKind::Implements,
                ),
                FactNodeKind::Class | FactNodeKind::Struct => Some(LanguageRelationKind::Extends),
                _ => None,
            }
        },
    }
}

pub open spec fn owner_is_type(e: Seq<DefinitionDraft>, owner: ProviderSymbolId) -> bool {
    match lookup(e, owner.value@) {
        Some(o) => spec_is_type_owner_kind(o.canonical_kind_hint),
        None => false,
    }
}

pub open spec fn spec_is_override_pair(
    e: Seq<DefinitionDraft>,
    source: DefinitionDraft,
    target: DefinitionDraft,
) -> bool {
    source.canonical_kind_hint == FactNodeKind::Method && target.canonical_kind_hint
        == FactNodeKind::Method && match (source.parent_symbol_id, target.parent_symbol_id) {
        (Some(so), Some(to)) => so.value@ != to.value@ && owner_is_type(e, so) && owner_is_type(
            e,
            to,
        ),
        _ => false,
    }
}

/// Whether two methods of distinct type owners form an override pair.
pub fn is_override_pair(
    source: &DefinitionDraft,
    target: &DefinitionDraft,
    definitions: &DefinitionTable,
) -> (b: bool)
    requires
        definitions.wf(),
    ensures
        b == spec_is_override_pair(definitions.entries@, *source, *target),
{
    if source.canonical_kind_hint != FactNodeKind::Method || target.canonical_kind_hint
        != FactNodeKind::Method {
        return false;
    }
    let (Some(source_owner), Some(target_owner)) = (&source.parent_symbol_id, &target.parent_symbol_id) else {
        return false;
    };
    if str_eq(source_owner.value.as_str(), target_owner.value.as_str()) {
        return false;
    }
    let source_ok = match definitions.get(source_owner) {
        Some(o) => is_type_owner_kind(o.canonical_kind_hint),
        None => false,
    };
    let target_ok = match definitions.get(target_owner) {
        Some(o) => is_type_owner_kind(o.canonical_kind_hint),
        None => false,
    };
    source_ok && target_ok
}

/// The endpoint a provider's raw endpoint text denotes: `file:<path>` a
/// repository file, any other non-blank text a provider symbol.
pub open spec fn spec_endpoint(raw: Seq<char>) -> Option<TargetView> {
    if is_prefix("file:"@, raw) {
        if valid_repository_path(raw.skip(5)) {
            Some(TargetView::File(raw.skip(5)))
        } else {
            None
        }
    } else if trim_ws(raw).len() > 0 {
        Some(TargetView::Symbol(raw))
    } else {
        None
    }
}

/// Parses a provider endpoint: `file:<path>` names a repository file, any
/// other text a provider symbol.
pub fn endpoint(raw: &str) -> (r: Result<IrEndpoint, String>)
    ensures
        match r {
            Ok(e) => spec_endpoint(raw@) == Some(target_view(e)),
            Err(_) => spec_endpoint(raw@) is None,
        },
        if is_prefix("file:"@, raw@) {
            let rest = raw@.skip(5);
            match r {
                Ok(IrEndpoint::File { path }) => path.value@ == rest && valid_repository_path(rest),
                Ok(_) => false,
                Err(_) => !valid_repository_path(rest),
            }
        } else {
            match r {
                Ok(IrEndpoint::NativeSymbol { symbol_id }) => symbol_id.value@ == raw@ && trim_ws(
                    raw@,
                ).len() > 0,
                Ok(_) => false,
                Err(_) => trim_ws(raw@).len() == 0,
            }
        },
{
    let v = chars_of(raw);
    if crate::text::starts_with(v.as_slice(), "file:") {
        proof {
            reveal_strlit("file:");
        }
        let rest = substr(raw, 5, v.len());
        return match RepositoryPath::parse(rest) {
            Ok(path) => Ok(IrEndpoint::File { path }),
            Err(error) => Err(concat("invalid provider file endpoint: ", error.as_str())),
        };
    }
    match ProviderSymbolId::parse(raw) {
        Ok(symbol_id) => Ok(IrEndpoint::NativeSymbol { symbol_id }),
        Err(error) => Err(concat("invalid provider symbol endpoint: ", error.as_str())),
    }
}

/// The first alias target listed for `id`.
pub open spec fn alias_of(
    aliases: Seq<(ProviderSymbolId, ProviderSymbolId)>,
    id: Seq<char>,
) -> Option<ProviderSymbolId>
    decreases aliases.len(),
{
    if aliases.len() == 0 {
        None
    } else if aliases[0].0.value@ == id {
        Some(aliases[0].1)
    } else {
        alias_of(aliases.drop_first(), id)
    }
}

fn alias_lookup(
    aliases: &[(ProviderSymbolId, ProviderSymbolId)],
    id: &ProviderSymbolId,
) -> (r: Option<ProviderSymbolId>)
    ensures
        r == alias_of(aliases@, id.value@),
{
    let mut i: usize = 0;
    assert(aliases@.skip(0) == aliases@);
    while i < aliases.len()
        invariant
            i <= aliases.len(),
            alias_of(aliases@, id.value@) == alias_of(aliases@.skip(i as int), id.value@),
        decreases aliases.len() - i,
    {
        assert(aliases@.skip(i as int).drop_first() == aliases@.skip(i + 1));
        assert(aliases@.skip(i as int)[0] == aliases@[i as int]);
        if str_eq(aliases[i].0.value.as_str(), id.value.as_str()) {
            return Some(aliases[i].1.duplicate());
        }
        i += 1;
    }
    None
}

/// Replaces a symbol endpoint by its primary definition when it is an alias.
pub fn remap_provider_alias(
    endpoint: IrEndpoint,
    aliases: &[(ProviderSymbolId, ProviderSymbolId)],
) -> (r: IrEndpoint)
    ensures
        match endpoint {
            IrEndpoint::NativeSymbol { symbol_id } => match alias_of(aliases@, symbol_id.value@) {
                Some(primary) => r == IrEndpoint::NativeSymbol { symbol_id: primary },
                None => r == IrEndpoint::NativeSymbol { symbol_id },
            },
            _ => r == endpoint,
        },
{
    match endpoint {
        IrEndpoint::NativeSymbol { symbol_id } => match alias_lookup(aliases, &symbol_id) {
            Some(primary) => IrEndpoint::NativeSymbol { symbol_id: primary },
            None => IrEndpoint::NativeSymbol { symbol_id },
        },
        other => other,
    }
}

pub open spec fn listed(ids: Seq<ProviderSymbolId>, id: Seq<char>) -> bool {
    exists|k: int| 0 <= k < ids.len() && (#[trigger] ids[k]).value@ == id
}

pub open spec fn is_discarded(endpoint: IrEndpoint, ids: Seq<ProviderSymbolId>) -> bool {
    match endpoint {
        IrEndpoint::NativeSymbol { symbol_id } => listed(ids, symbol_id.value@),
        _ => false,
    }
}

fn is_listed(ids: &[ProviderSymbolId], id: &ProviderSymbolId) -> (b: bool)
    ensures
        b == listed(ids@, id.value@),
{
    let mut k: usize = 0;
    while k < ids.len()
        invariant
            k <= ids.len(),
            forall|m: int| 0 <= m < k ==> (#[trigger] ids@[m]).value@ != id.value@,
        decreases ids.len() - k,
    {
        if str_eq(ids[k].value.as_str(), id.value.as_str()) {
            return true;
        }
        k += 1;
    }
    false
}

fn endpoint_discarded(endpoint: &IrEndpoint, ids: &[ProviderSymbolId]) -> (b: bool)
    ensures
        b == is_discarded(*endpoint, ids@),
{
    match endpoint {
        IrEndpoint::NativeSymbol { symbol_id } => is_listed(ids, symbol_id),
        _ => false,
    }
}

/// Keeps a relation whose endpoints survived. A discarded target drops it; a
/// discarded source drops it too, except that a direct call is re-anchored to
/// the relation's file.
pub fn retain_relation_endpoints(
    relation: &RelationOutput,
    capability: AnalysisCapability,
    source: IrEndpoint,
    target: IrEndpoint,
    discarded_definition_ids: &[ProviderSymbolId],
) -> (r: Option<(IrEndpoint, IrEndpoint)>)
    ensures
        if is_discarded(target, discarded_definition_ids@) {
            r is None
        } else if !is_discarded(source, discarded_definition_ids@) {
            r == Some((source, target))
        } else if capability != AnalysisCapability::DirectCalls || !valid_repository_path(
            relation.path@,
        ) {
            r is None
        } else {
            r matches Some((IrEndpoint::File { path }, t)) && path.value@ == relation.path@ && t
                == target
        },
{
    if endpoint_discarded(&target, discarded_definition_ids) {
        return None;
    }
    if !endpoint_discarded(&source, discarded_definition_ids) {
        return Some((source, target));
    }
    if capability != AnalysisCapability::DirectCalls {
        return None;
    }
    match RepositoryPath::parse(relation.path.as_str()) {
        Ok(path) => Some((IrEndpoint::File { path }, target)),
        Err(_) => None,
    }
}

/// The stable wire rank of a relation kind (rank 5 is retired).
pub open spec fn spec_relation_kind_rank(kind: LanguageRelationKind) -> u8 {
    match kind {
        LanguageRelationKind::Contains => 0,
        LanguageRelationKind::Declares => 1,
        LanguageRelationKind::BelongsTo => 2,
        LanguageRelationKind::Imports => 3,
        LanguageRelationKind::Exports => 4,
        LanguageRelationKind::Calls => 6,
        LanguageRelationKind::Constructs => 7,
        LanguageRelationKind::Extends => 8,
        LanguageRelationKind::Implements => 9,
        LanguageRelationKind::MixesIn => 10,
        LanguageRelationKind::Overrides => 11,
        LanguageRelationKind::UsesType => 12,
        LanguageRelationKind::Tests => 13,
        LanguageRelationKind::ExecutesQuery => 14,
        LanguageRelationKind::Reads => 15,
        LanguageRelationKind::Writes => 16,
    }
}

pub fn relation_kind_rank(kind: LanguageRelationKind) -> (r: u8)
    ensures
        r == spec_relation_kind_rank(kind),
{
    match kind {
        LanguageRelationKind::Contains => 0,
        LanguageRelationKind::Declares => 1,
        LanguageRelationKind::BelongsTo => 2,
        LanguageRelationKind::Imports => 3,
        LanguageRelationKind::Exports => 4,
        LanguageRelationKind::Calls => 6,
        LanguageRelationKind::Constructs => 7,
        LanguageRelationKind::Extends => 8,
        LanguageRelationKind::Implements => 9,
        LanguageRelationKind::MixesIn => 10,
        LanguageRelationKind::Overrides => 11,
        LanguageRelationKind::UsesType => 12,
        LanguageRelationKind::Tests => 13,
        LanguageRelationKind::ExecutesQuery => 14,
        LanguageRelationKind::Reads => 15,
        LanguageRelationKind::Writes => 16,
    }
}

/// The sort key text of an endpoint.
pub open spec fn spec_endpoint_key(endpoint: IrEndpoint) -> Seq<char> {
    match endpoint {
        IrEndpoint::NativeSymbol { symbol_id } => "symbol:"@ + symbol_id.value@,
        IrEndpoint::File { path } => "file:"@ + path.value@,
        IrEndpoint::Structure { unit_id, kind, qualified_name } => "structure:"@ + unit_id.value@
            + ":"@ + spec_kind_name(kind) + ":"@ + qualified_name@,
    }
}

pub fn endpoint_key(endpoint: &IrEndpoint) -> (r: String)
    ensures
        r@ == spec_endpoint_key(*endpoint),
{
    match endpoint {
        IrEndpoint::NativeSymbol { symbol_id } => concat("symbol:", symbol_id.value.as_str()),
        IrEndpoint::File { path } => concat("file:", path.value.as_str()),
        IrEndpoint::Structure { unit_id, kind, qualified_name } => {
            let a = concat("structure:", unit_id.value.as_str());
            let b = concat(a.as_str(), ":");
            let c = concat(b.as_str(), kind.as_str());
            let d = concat(c.as_str(), ":");
            concat(d.as_str(), qualified_name.as_str())
        },
    }
}

/// The canonical order key of a relation: endpoints, kind rank, first evidence.
pub fn relation_sort_key(relation: &IrRelation) -> (r: (String, String, u8, String))
    ensures
        r.0@ == spec_endpoint_key(relation.source),
        r.1@ == spec_endpoint_key(relation.target),
        r.2 == spec_relation_kind_rank(relation.kind),
        r.3@ == (if relation.evidence_ids@.len() > 0 {
            relation.evidence_ids@[0].value@
        } else {
            Seq::<char>::empty()
        }),
{
    let evidence = if relation.evidence_ids.len() > 0 {
        owned(relation.evidence_ids[0].value.as_str())
    } else {
        String::new()
    };
    (
        endpoint_key(&relation.source),
        endpoint_key(&relation.target),
        relation_kind_rank(relation.kind),
        evidence,
    )
}

} // verus!
