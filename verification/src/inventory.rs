//! The provider-independent inventory of source declarations: what one
//! declaration records, and the name rules the syntax walk applies.
use vstd::prelude::*;

use crate::model::{FactNodeKind, Visibility};
use crate::syntax::{point_le, range_contains, ranges_equal, spec_canonical_bounds};
use crate::text::{chars_eq_str, chars_of, is_word_char, is_word_char_exec, unicode_alphabetic};

verus! {

/// How a provider reports positions: LSP servers count UTF-16 units, SCIP
/// indexes and compiler APIs count UTF-8 bytes.
#[derive(Clone, Copy, Debug, PartialEq, Eq, Structural)]
pub enum ProviderProtocol {
    Scip,
    LanguageServerProtocol,
    CompilerApi,
}

/// One explicit declaration found in a source file.
#[derive(Clone, Debug)]
pub struct SyntaxDefinition {
    pub kind: FactNodeKind,
    pub name: String,
    pub name_utf8_range: Vec<i32>,
    pub name_utf16_range: Vec<i32>,
    pub declaration_utf8_range: Vec<i32>,
    pub declaration_utf16_range: Vec<i32>,
    pub parent_name_utf8_range: Option<Vec<i32>>,
    pub parent_name_utf16_range: Option<Vec<i32>>,
    pub signature: Option<String>,
    pub visibility: Visibility,
}

pub open spec fn uses_utf16(protocol: ProviderProtocol) -> bool {
    protocol == ProviderProtocol::LanguageServerProtocol
}

impl SyntaxDefinition {
    pub open spec fn spec_name_range(&self, protocol: ProviderProtocol) -> Seq<i32> {
        if uses_utf16(protocol) {
            self.name_utf16_range@
        } else {
            self.name_utf8_range@
        }
    }

    pub open spec fn spec_declaration_range(&self, protocol: ProviderProtocol) -> Seq<i32> {
        if uses_utf16(protocol) {
            self.declaration_utf16_range@
        } else {
            self.declaration_utf8_range@
        }
    }

    pub open spec fn spec_parent_name_range(&self, protocol: ProviderProtocol) -> Option<Seq<i32>> {
        let parent = if uses_utf16(protocol) {
            self.parent_name_utf16_range
        } else {
            self.parent_name_utf8_range
        };
        match parent {
            Some(r) => Some(r@),
            None => None,
        }
    }

    /// The name range in the provider's position encoding.
    pub fn name_range(&self, protocol: ProviderProtocol) -> (r: &[i32])
        ensures
            r@ == self.spec_name_range(protocol),
    {
        match protocol {
            ProviderProtocol::LanguageServerProtocol => self.name_utf16_range.as_slice(),
            _ => self.name_utf8_range.as_slice(),
        }
    }

    /// The declaration range in the provider's position encoding.
    pub fn declaration_range(&self, protocol: ProviderProtocol) -> (r: &[i32])
        ensures
            r@ == self.spec_declaration_range(protocol),
    {
        match protocol {
            ProviderProtocol::LanguageServerProtocol => self.declaration_utf16_range.as_slice(),
            _ => self.declaration_utf8_range.as_slice(),
        }
    }

    /// The owner's name range in the provider's position encoding.
    pub fn parent_name_range(&self, protocol: ProviderProtocol) -> (r: Option<&[i32]>)
        ensures
            match r {
                Some(v) => self.spec_parent_name_range(protocol) == Some(v@),
                None => self.spec_parent_name_range(protocol) is None,
            },
    {
        let parent = match protocol {
            ProviderProtocol::LanguageServerProtocol => &self.parent_name_utf16_range,
            _ => &self.parent_name_utf8_range,
        };
        match parent {
            Some(v) => Some(v.as_slice()),
            None => None,
        }
    }

    /// Whether a provider range designates this declaration: it is the name,
    /// it encloses the name, or the declaration encloses it.
    pub open spec fn spec_matches_provider_range(&self, range: Seq<i32>, protocol: ProviderProtocol) -> bool {
        let name = self.spec_name_range(protocol);
        ||| spec_canonical_bounds(name) == spec_canonical_bounds(range)
        ||| encloses(range, name)
        ||| encloses(self.spec_declaration_range(protocol), range)
    }

    pub fn matches_provider_range(&self, range: &[i32], protocol: ProviderProtocol) -> (r: bool)
        ensures
            r == self.spec_matches_provider_range(range@, protocol),
    {
        let name = self.name_range(protocol);
        ranges_equal(name, range) || range_contains(range, name) || range_contains(
            self.declaration_range(protocol),
            range,
        )
    }
}

/// Whether the range `outer` encloses the range `inner`.
pub open spec fn encloses(outer: Seq<i32>, inner: Seq<i32>) -> bool {
    match (spec_canonical_bounds(outer), spec_canonical_bounds(inner)) {
        (Some(o), Some(i)) => point_le(o.0, i.0) && point_le(i.1, o.1),
        _ => false,
    }
}

/// An identifier that can name a definition: `_` or a letter first, then
/// `_`, letters and digits.
pub open spec fn spec_is_definition_name(value: Seq<char>) -> bool {
    &&& value.len() > 0
    &&& (value[0] == '_' || unicode_alphabetic(value[0]))
    &&& forall|k: int| 1 <= k < value.len() ==> is_word_char(#[trigger] value[k])
}

pub fn is_definition_name(value: &str) -> (r: bool)
    ensures
        r == spec_is_definition_name(value@),
{
    let v = chars_of(value);
    if v.len() == 0 {
        return false;
    }
    if !(v[0] == '_' || crate::text::char_is_alphabetic(v[0])) {
        return false;
    }
    let mut k: usize = 1;
    while k < v.len()
        invariant
            1 <= k <= v.len(),
            v@ == value@,
            forall|m: int| 1 <= m < k ==> is_word_char(#[trigger] v@[m]),
        decreases v.len() - k,
    {
        if !is_word_char_exec(v[k]) {
            return false;
        }
        k += 1;
    }
    true
}

/// Whether a definition name is the language's constructor spelling.
pub open spec fn spec_is_constructor_name(language: Seq<char>, name: Seq<char>) -> bool {
    (language == "typescript"@ || language == "javascript"@) && name == "constructor"@ || language
        == "python"@ && name == "__init__"@
}

pub fn is_constructor_name(language: &str, name: &str) -> (r: bool)
    ensures
        r == spec_is_constructor_name(language@, name@),
{
    let l = chars_of(language);
    let n = chars_of(name);
    let l = l.as_slice();
    let n = n.as_slice();
    (chars_eq_str(l, "typescript") || chars_eq_str(l, "javascript")) && chars_eq_str(
        n,
        "constructor",
    ) || chars_eq_str(l, "python") && chars_eq_str(n, "__init__")
}

/// The type definition that a member written inside it belongs to.
#[derive(Clone, Debug)]
pub struct SyntaxOwner {
    pub name: String,
    pub kind: FactNodeKind,
    pub visibility: Visibility,
    pub member_visibility: Option<Visibility>,
    pub name_utf8_range: Vec<i32>,
    pub name_utf16_range: Vec<i32>,
}

/// An owner built from a type definition: members of a trait take the
/// trait's own accessibility.
pub open spec fn owner_of(d: SyntaxDefinition) -> SyntaxOwner {
    SyntaxOwner {
        name: d.name,
        kind: d.kind,
        visibility: d.visibility,
        member_visibility: if d.kind == FactNodeKind::Trait {
            Some(d.visibility)
        } else {
            None
        },
        name_utf8_range: d.name_utf8_range,
        name_utf16_range: d.name_utf16_range,
    }
}

pub open spec fn names_type_owner(d: SyntaxDefinition, name: Seq<char>) -> bool {
    d.name@ == name && crate::definitions::spec_is_type_owner_kind(d.kind)
}

/// `i` is the only type definition called `name`.
pub open spec fn is_unique_owner(definitions: Seq<SyntaxDefinition>, name: Seq<char>, i: int) -> bool {
    &&& 0 <= i < definitions.len()
    &&& names_type_owner(definitions[i], name)
    &&& forall|j: int|
        0 <= j < definitions.len() && j != i ==> !#[trigger] names_type_owner(definitions[j], name)
}

/// The single type definition called `name`, if exactly one exists.
pub open spec fn spec_owner_for_name(definitions: Seq<SyntaxDefinition>, name: Seq<char>) -> Option<
    int,
> {
    if exists|i: int| #[trigger] is_unique_owner(definitions, name, i) {
        Some(choose|i: int| #[trigger] is_unique_owner(definitions, name, i))
    } else {
        None
    }
}

fn find_type_owner(definitions: &[SyntaxDefinition], name: &[char], start: usize) -> (r: Option<
    usize,
>)
    requires
        start <= definitions.len(),
    ensures
        match r {
            Some(k) => start <= k < definitions@.len() && names_type_owner(definitions@[k as int], name@)
                && forall|j: int| start <= j < k ==> !#[trigger] names_type_owner(definitions@[j], name@),
            None => forall|j: int|
                start <= j < definitions@.len() ==> !#[trigger] names_type_owner(definitions@[j], name@),
        },
{
    let mut i: usize = start;
    while i < definitions.len()
        invariant
            start <= i <= definitions.len(),
            forall|j: int| start <= j < i ==> !#[trigger] names_type_owner(definitions@[j], name@),
        decreases definitions.len() - i,
    {
        let d = &definitions[i];
        let dn = chars_of(d.name.as_str());
        if crate::text::seq_eq(dn.as_slice(), name) && crate::definitions::is_type_owner_kind(d.kind) {
            return Some(i);
        }
        i += 1;
    }
    None
}

/// The owner a member named by a receiver or `impl` target belongs to: the
/// unique type definition of that name; none when there is none or several.
pub fn owner_for_name(definitions: &[SyntaxDefinition], name: &str) -> (r: Option<SyntaxOwner>)
    ensures
        match r {
            Some(o) => spec_owner_for_name(definitions@, name@) matches Some(i) && o.name@
                == definitions@[i].name@ && o.kind == definitions@[i].kind && o.visibility
                == definitions@[i].visibility && o.member_visibility == owner_of(
                definitions@[i],
            ).member_visibility && o.name_utf8_range@ == definitions@[i].name_utf8_range@
                && o.name_utf16_range@ == definitions@[i].name_utf16_range@,
            None => spec_owner_for_name(definitions@, name@) is None,
        },
{
    let n = chars_of(name);
    let Some(f) = find_type_owner(definitions, n.as_slice(), 0) else {
        proof {
            assert forall|x: int| !#[trigger] is_unique_owner(definitions@, name@, x) by {}
        }
        return None;
    };
    assert(f < definitions.len());
    if let Some(g) = find_type_owner(definitions, n.as_slice(), f + 1) {
        proof {
            assert forall|x: int| !#[trigger] is_unique_owner(definitions@, name@, x) by {
                if is_unique_owner(definitions@, name@, x) {
                    if x == f {
                        assert(!names_type_owner(definitions@[g as int], name@));
                    } else {
                        assert(!names_type_owner(definitions@[f as int], name@));
                    }
                }
            }
        }
        return None;
    }
    proof {
        assert(is_unique_owner(definitions@, name@, f as int));
        let c = choose|i: int| #[trigger] is_unique_owner(definitions@, name@, i);
        if c != f {
            assert(!names_type_owner(definitions@[f as int], name@));
        }
    }
    let d = &definitions[f];
    Some(
        SyntaxOwner {
            name: d.name.clone(),
            kind: d.kind,
            visibility: d.visibility,
            member_visibility: if matches!(d.kind, FactNodeKind::Trait) {
                Some(d.visibility)
            } else {
                None
            },
            name_utf8_range: d.name_utf8_range.clone(),
            name_utf16_range: d.name_utf16_range.clone(),
        },
    )
}

} // verus!

verus! {

// ---------------------------------------------------------------------------
// The definition audit of one file
// ---------------------------------------------------------------------------

/// The name of the first definition whose name lies at `range`.
pub open spec fn name_at(defs: Seq<SyntaxDefinition>, range: Seq<i32>) -> Option<Seq<char>>
    decreases defs.len(),
{
    if defs.len() == 0 {
        None
    } else if defs[0].name_utf8_range@ == range {
        Some(defs[0].name@)
    } else {
        name_at(defs.drop_first(), range)
    }
}

/// The parent an audit key names: the first definition named at the
/// definition's parent range, `-` when there is none.
pub open spec fn parent_label(defs: Seq<SyntaxDefinition>, d: SyntaxDefinition) -> Seq<char> {
    match d.parent_name_utf8_range {
        Some(r) => match name_at(defs, r@) {
            Some(n) => n,
            None => "-"@,
        },
        None => "-"@,
    }
}

/// The audit key of a definition of `path`: path, kind, name and parent,
/// separated by tabs.
pub open spec fn audit_key(path: Seq<char>, defs: Seq<SyntaxDefinition>, d: SyntaxDefinition) -> Seq<char> {
    path + "\t"@ + crate::model::spec_kind_name(d.kind) + "\t"@ + d.name@ + "\t"@ + parent_label(defs, d)
}

/// How many definitions name a parent.
pub open spec fn owned_count(defs: Seq<SyntaxDefinition>) -> nat
    decreases defs.len(),
{
    if defs.len() == 0 {
        0
    } else {
        owned_count(defs.drop_last()) + if defs.last().parent_name_utf8_range is Some {
            1nat
        } else {
            0nat
        }
    }
}

fn same_range(a: &[i32], b: &[i32]) -> (r: bool)
    ensures
        r == (a@ == b@),
{
    if a.len() != b.len() {
        return false;
    }
    let mut i: usize = 0;
    while i < a.len()
        invariant
            a.len() == b.len(),
            i <= a.len(),
            forall|k: int| 0 <= k < i ==> a@[k] == b@[k],
        decreases a.len() - i,
    {
        if a[i] != b[i] {
            return false;
        }
        i += 1;
    }
    assert(a@ =~= b@);
    true
}

fn find_name_at(defs: &[SyntaxDefinition], range: &[i32]) -> (r: Option<String>)
    ensures
        match r {
            Some(n) => name_at(defs@, range@) == Some(n@),
            None => name_at(defs@, range@) is None,
        },
{
    let mut i: usize = 0;
    proof {
        assert(defs@.skip(0) =~= defs@);
    }
    while i < defs.len()
        invariant
            i <= defs.len(),
            name_at(defs@, range@) == name_at(defs@.skip(i as int), range@),
        decreases defs.len() - i,
    {
        assert(defs@.skip(i as int)[0] == defs@[i as int]);
        assert(defs@.skip(i as int).drop_first() =~= defs@.skip(i + 1));
        if same_range(defs[i].name_utf8_range.as_slice(), range) {
            return Some(crate::text::owned(defs[i].name.as_str()));
        }
        i += 1;
    }
    None
}

/// The audit keys of a file's syntax definitions, one per definition, in
/// order.
pub fn definition_audit_keys(path: &str, defs: &[SyntaxDefinition]) -> (r: Vec<String>)
    ensures
        r.len() == defs.len(),
        forall|i: int| 0 <= i < defs.len() ==> (#[trigger] r@[i])@ == audit_key(path@, defs@, defs@[i]),
{
    let mut keys: Vec<String> = Vec::new();
    let mut i: usize = 0;
    proof {
        reveal_strlit("-");
        reveal_strlit("\t");
    }
    while i < defs.len()
        invariant
            i <= defs.len(),
            keys.len() == i,
            forall|k: int| 0 <= k < i ==> (#[trigger] keys@[k])@ == audit_key(path@, defs@, defs@[k]),
        decreases defs.len() - i,
    {
        let d = &defs[i];
        let parent = match &d.parent_name_utf8_range {
            Some(r) => match find_name_at(defs, r.as_slice()) {
                Some(n) => n,
                None => crate::text::owned("-"),
            },
            None => crate::text::owned("-"),
        };
        let a = crate::text::concat(path, "\t");
        let b = crate::text::concat(a.as_str(), d.kind.as_str());
        let c = crate::text::concat(b.as_str(), "\t");
        let e = crate::text::concat(c.as_str(), d.name.as_str());
        let f = crate::text::concat(e.as_str(), "\t");
        let key = crate::text::concat(f.as_str(), parent.as_str());
        keys.push(key);
        i += 1;
    }
    keys
}

/// How many of a file's syntax definitions name a parent.
pub fn owned_definition_count(defs: &[SyntaxDefinition]) -> (r: usize)
    ensures
        r == owned_count(defs@),
{
    let mut n: usize = 0;
    let mut i: usize = 0;
    while i < defs.len()
        invariant
            i <= defs.len(),
            n == owned_count(defs@.take(i as int)),
            n <= i,
        decreases defs.len() - i,
    {
        assert(defs@.take(i + 1).drop_last() =~= defs@.take(i as int));
        if defs[i].parent_name_utf8_range.is_some() {
            n += 1;
        }
        i += 1;
    }
    assert(defs@.take(defs.len() as int) =~= defs@);
    n
}

} // verus!
