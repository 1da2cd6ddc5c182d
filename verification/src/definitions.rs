//! Provider definition drafts and their reconciliation with source declarations.
//!
//! Provider symbols keep identity, while exact source declarations own the
//! display name, callable header, visibility, kind refinement, and structural
//! owner.
use vstd::prelude::*;

use crate::model::{
    EvidenceId, FactNodeKind, ProgrammingLanguage, ProviderSymbolId, RepositoryPath,
    SourceFileKind, SourceFlags, Visibility,
};
use crate::syntax::{spec_canonical_bounds, Point};
use crate::text::{
    after_first, after_last, all_ascii_digits, ascii_lower, before_first, before_last, chars_eq_str, chars_of, contains_str, find_first_in, find_last_in, find_last_whitespace, has_where, in_set, is_ascii_alnum, is_ascii_alnum_exec, is_ascii_digit_exec, is_numeric_class, is_prefix, is_ws_class, contains_sub, owned, parse_i32, spec_parse_i32, starts_with, str_eq, string_of, substr, to_ascii_lower_char, trim_chars, trim_end_by, trim_end_in, trim_end_numeric, trim_end_whitespace, trim_start_by, trim_start_in, trim_ws,
};
use vstd::slice::slice_subrange;

verus! {

/// One provider definition on its way into the Language IR.
#[derive(Debug)]
pub struct DefinitionDraft {
    pub symbol_id: ProviderSymbolId,
    pub native_kind: String,
    pub canonical_kind_hint: FactNodeKind,
    pub qualified_name: String,
    pub display_name: String,
    pub signature: Option<String>,
    pub visibility: Visibility,
    pub parent_symbol_id: Option<ProviderSymbolId>,
    pub definition_evidence_id: EvidenceId,
    pub flags: SourceFlags,
    pub field_candidate: bool,
    pub path: RepositoryPath,
    pub provider_range: Vec<i32>,
    pub syntax_match: Option<usize>,
}

/// The definitions of one unit, keyed by provider symbol identity.
///
/// Each identity occurs at most once (see `wf`), as in an ordered map.
#[derive(Debug)]
pub struct DefinitionTable {
    pub entries: Vec<DefinitionDraft>,
}

/// Whether some draft of `e` has the identity `id`.
pub open spec fn has_id(e: Seq<DefinitionDraft>, id: Seq<char>) -> bool {
    exists|i: int| 0 <= i < e.len() && (#[trigger] e[i]).symbol_id.value@ == id
}

/// The index of the draft of `e` with identity `id` (meaningful when `has_id`).
pub open spec fn index_of_id(e: Seq<DefinitionDraft>, id: Seq<char>) -> int {
    choose|i: int| 0 <= i < e.len() && (#[trigger] e[i]).symbol_id.value@ == id
}

/// The draft of `e` with identity `id`, if any.
pub open spec fn lookup(e: Seq<DefinitionDraft>, id: Seq<char>) -> Option<DefinitionDraft> {
    if has_id(e, id) {
        Some(e[index_of_id(e, id)])
    } else {
        None
    }
}

/// No identity occurs twice in `e`.
pub open spec fn ids_unique(e: Seq<DefinitionDraft>) -> bool {
    forall|i: int, j: int|
        0 <= i < e.len() && 0 <= j < e.len() && (#[trigger] e[i]).symbol_id.value@ == (#[trigger] e[j]).symbol_id.value@
            ==> i == j
}

/// The kind of the draft with identity `id`, if any.
pub open spec fn kind_of(e: Seq<DefinitionDraft>, id: Option<ProviderSymbolId>) -> Option<FactNodeKind> {
    match id {
        Some(p) => match lookup(e, p.value@) {
            Some(d) => Some(d.canonical_kind_hint),
            None => None,
        },
        None => None,
    }
}

impl DefinitionTable {
    pub open spec fn wf(&self) -> bool {
        ids_unique(self.entries@)
    }

    pub fn new() -> (t: DefinitionTable)
        ensures
            t.wf(),
            t.entries@.len() == 0,
    {
        DefinitionTable { entries: Vec::new() }
    }

    /// The position of the draft with identity `id`.
    pub fn position(&self, id: &ProviderSymbolId) -> (r: Option<usize>)
        requires
            self.wf(),
        ensures
            match r {
                Some(i) => i < self.entries@.len() && i == index_of_id(self.entries@, id.value@)
                    && has_id(self.entries@, id.value@),
                None => !has_id(self.entries@, id.value@),
            },
    {
        let mut i: usize = 0;
        while i < self.entries.len()
            invariant
                self.wf(),
                i <= self.entries@.len(),
                forall|k: int| 0 <= k < i ==> (#[trigger] self.entries@[k]).symbol_id.value@ != id.value@,
            decreases self.entries.len() - i,
        {
            if str_eq(self.entries[i].symbol_id.value.as_str(), id.value.as_str()) {
                proof {
                    assert(has_id(self.entries@, id.value@));
                    let c = index_of_id(self.entries@, id.value@);
                    assert(self.entries@[c].symbol_id.value@ == id.value@);
                    assert(self.entries@[i as int].symbol_id.value@ == id.value@);
                    assert(c == i);
                }
                return Some(i);
            }
            i += 1;
        }
        None
    }

    /// The draft with identity `id`.
    pub fn get(&self, id: &ProviderSymbolId) -> (r: Option<&DefinitionDraft>)
        requires
            self.wf(),
        ensures
            match r {
                Some(d) => lookup(self.entries@, id.value@) == Some(*d),
                None => lookup(self.entries@, id.value@) is None,
            },
    {
        match self.position(id) {
            Some(i) => Some(&self.entries[i]),
            None => None,
        }
    }

    pub fn contains_key(&self, id: &ProviderSymbolId) -> (b: bool)
        requires
            self.wf(),
        ensures
            b == has_id(self.entries@, id.value@),
    {
        self.position(id).is_some()
    }

    /// Records that the draft at `pos` stands for source declaration `index`:
    /// the declaration's kind, name, header (when it has one) and
    /// accessibility replace the provider's, and the draft is no longer a
    /// field candidate.
    pub fn record_syntax_match(
        &mut self,
        pos: usize,
        index: usize,
        kind: FactNodeKind,
        display_name: String,
        signature: Option<String>,
        visibility: Visibility,
    )
        requires
            old(self).wf(),
            pos < old(self).entries@.len(),
        ensures
            final(self).wf(),
            final(self).entries@ == old(self).entries@.update(
                pos as int,
                DefinitionDraft {
                    syntax_match: Some(index),
                    display_name: display_name,
                    signature: if signature is Some {
                        signature
                    } else {
                        old(self).entries@[pos as int].signature
                    },
                    visibility: visibility,
                    field_candidate: false,
                    canonical_kind_hint: kind,
                    ..old(self).entries@[pos as int]
                },
            ),
    {
        let removed = self.entries.remove(pos);
        let sig = match signature {
            Some(s) => Some(s),
            None => removed.signature,
        };
        let updated = DefinitionDraft {
            syntax_match: Some(index),
            display_name,
            signature: sig,
            visibility,
            field_candidate: false,
            canonical_kind_hint: kind,
            ..removed
        };
        self.entries.insert(pos, updated);
        proof {
            let e = self.entries@;
            let o = old(self).entries@;
            assert(e =~= o.update(pos as int, e[pos as int]));
            assert forall|a: int, b: int|
                0 <= a < e.len() && 0 <= b < e.len() && (#[trigger] e[a]).symbol_id.value@
                    == (#[trigger] e[b]).symbol_id.value@ implies a == b by {
                assert(e[a].symbol_id == o[a].symbol_id);
                assert(e[b].symbol_id == o[b].symbol_id);
            }
        }
    }

    /// Replaces the draft at `i` by one with the same identity.
    pub fn replace_at(&mut self, i: usize, draft: DefinitionDraft)
        requires
            old(self).wf(),
            i < old(self).entries@.len(),
            draft.symbol_id == old(self).entries@[i as int].symbol_id,
        ensures
            final(self).wf(),
            final(self).entries@ == old(self).entries@.update(i as int, draft),
    {
        self.entries.set(i, draft);
        proof {
            let e = self.entries@;
            let o = old(self).entries@;
            assert forall|a: int, b: int|
                0 <= a < e.len() && 0 <= b < e.len() && (#[trigger] e[a]).symbol_id.value@
                    == (#[trigger] e[b]).symbol_id.value@ implies a == b by {
                assert(e[a].symbol_id == o[a].symbol_id);
                assert(e[b].symbol_id == o[b].symbol_id);
            }
        }
    }

    /// Adds `draft`, replacing the draft with the same identity if there is one.
    pub fn insert(&mut self, draft: DefinitionDraft)
        requires
            old(self).wf(),
        ensures
            final(self).wf(),
            lookup(final(self).entries@, draft.symbol_id.value@) == Some(draft),
            forall|id: Seq<char>|
                id != draft.symbol_id.value@ ==> lookup(final(self).entries@, id) == lookup(
                    old(self).entries@,
                    id,
                ),
    {
        let ghost d = draft;
        match self.position(&draft.symbol_id) {
            Some(i) => {
                self.entries.set(i, draft);
                proof {
                    let e = self.entries@;
                    let o = old(self).entries@;
                    assert forall|a: int, b: int|
                        0 <= a < e.len() && 0 <= b < e.len() && (#[trigger] e[a]).symbol_id.value@
                            == (#[trigger] e[b]).symbol_id.value@ implies a == b by {
                        if a != i && b != i {
                            assert(o[a] == e[a] && o[b] == e[b]);
                        } else if a == i && b != i {
                            assert(o[b] == e[b]);
                            assert(o[i as int].symbol_id.value@ == d.symbol_id.value@);
                        } else if b == i && a != i {
                            assert(o[a] == e[a]);
                            assert(o[i as int].symbol_id.value@ == d.symbol_id.value@);
                        }
                    }
                    assert(e[i as int] == d);
                    assert(has_id(e, d.symbol_id.value@));
                    let c = index_of_id(e, d.symbol_id.value@);
                    assert(c == i);
                    assert forall|id: Seq<char>| id != d.symbol_id.value@ implies lookup(e, id)
                        == lookup(o, id) by {
                        if has_id(o, id) {
                            let k = index_of_id(o, id);
                            assert(k != i);
                            assert(e[k] == o[k]);
                            assert(has_id(e, id));
                            let m = index_of_id(e, id);
                            assert(m != i);
                            assert(o[m] == e[m]);
                        }
                        if has_id(e, id) {
                            let m = index_of_id(e, id);
                            assert(m != i);
                            assert(o[m] == e[m]);
                        }
                    }
                }
            },
            None => {
                self.entries.push(draft);
                proof {
                    let e = self.entries@;
                    let o = old(self).entries@;
                    let n = o.len() as int;
                    assert(e[n] == d);
                    assert forall|a: int, b: int|
                        0 <= a < e.len() && 0 <= b < e.len() && (#[trigger] e[a]).symbol_id.value@
                            == (#[trigger] e[b]).symbol_id.value@ implies a == b by {
                        if a < n && b < n {
                            assert(o[a] == e[a] && o[b] == e[b]);
                        } else if a < n {
                            assert(o[a] == e[a]);
                        } else if b < n {
                            assert(o[b] == e[b]);
                        }
                    }
                    assert(has_id(e, d.symbol_id.value@));
                    let c = index_of_id(e, d.symbol_id.value@);
                    assert(c == n);
                    assert forall|id: Seq<char>| id != d.symbol_id.value@ implies lookup(e, id)
                        == lookup(o, id) by {
                        if has_id(o, id) {
                            let k = index_of_id(o, id);
                            assert(e[k] == o[k]);
                            assert(has_id(e, id));
                            let m = index_of_id(e, id);
                            assert(m != n);
                            assert(o[m] == e[m]);
                        }
                        if has_id(e, id) {
                            let m = index_of_id(e, id);
                            assert(m != n);
                            assert(o[m] == e[m]);
                        }
                    }
                }
            },
        }
    }
}

} // verus!

verus! {

// ---------------------------------------------------------------------------
// Ranges of provider definitions
// ---------------------------------------------------------------------------

/// The `(line, column)` a range starts at, when it has at least two numbers.
pub fn range_start(range: &[i32]) -> (r: Option<(i32, i32)>)
    ensures
        r == (if range@.len() >= 2 {
            Some((range@[0], range@[1]))
        } else {
            None::<Point>
        }),
{
    if range.len() >= 2 {
        Some((range[0], range[1]))
    } else {
        None
    }
}

pub fn canonical_range_bounds(range: &[i32]) -> (r: Option<((i32, i32), (i32, i32))>)
    ensures
        r == spec_canonical_bounds(range@),
{
    crate::syntax::canonical_bounds(range)
}

pub fn ranges_equal(left: &[i32], right: &[i32]) -> (r: bool)
    ensures
        r == (spec_canonical_bounds(left@) == spec_canonical_bounds(right@)),
{
    canonical_range_bounds(left) == canonical_range_bounds(right)
}

// ---------------------------------------------------------------------------
// Kinds
// ---------------------------------------------------------------------------

pub open spec fn spec_is_type_owner_kind(kind: FactNodeKind) -> bool {
    kind == FactNodeKind::Type || kind == FactNodeKind::Class || kind == FactNodeKind::Interface
        || kind == FactNodeKind::Trait || kind == FactNodeKind::Struct || kind == FactNodeKind::Enum
}

pub fn is_type_owner_kind(kind: FactNodeKind) -> (b: bool)
    ensures
        b == spec_is_type_owner_kind(kind),
{
    matches!(
        kind,
        FactNodeKind::Type | FactNodeKind::Class | FactNodeKind::Interface | FactNodeKind::Trait
            | FactNodeKind::Struct | FactNodeKind::Enum
    )
}

pub open spec fn spec_kind_matches_source(provider: FactNodeKind, syntax: FactNodeKind) -> bool {
    provider == syntax || (provider == FactNodeKind::Type && spec_is_type_owner_kind(syntax)) || (
    provider == FactNodeKind::Method && syntax == FactNodeKind::Constructor)
}

/// Whether a provider kind is compatible with the kind of the source declaration.
pub fn definition_kind_matches_source(provider: FactNodeKind, syntax: FactNodeKind) -> (b: bool)
    ensures
        b == spec_kind_matches_source(provider, syntax),
{
    provider == syntax || (provider == FactNodeKind::Type && is_type_owner_kind(syntax)) || (
    provider == FactNodeKind::Method && syntax == FactNodeKind::Constructor)
}

/// Whether two provider definitions can both stand for one source declaration.
pub fn definition_kinds_can_alias(
    primary: FactNodeKind,
    duplicate: FactNodeKind,
    syntax: FactNodeKind,
) -> (b: bool)
    ensures
        b == (spec_kind_matches_source(primary, syntax) && spec_kind_matches_source(duplicate, syntax)),
{
    definition_kind_matches_source(primary, syntax) && definition_kind_matches_source(duplicate, syntax)
}

/// `s` keeping only its ASCII letters and digits.
pub open spec fn keep_ascii_alnum(s: Seq<char>) -> Seq<char>
    decreases s.len(),
{
    if s.len() == 0 {
        s
    } else if is_ascii_alnum(s.last()) {
        keep_ascii_alnum(s.drop_last()).push(s.last())
    } else {
        keep_ascii_alnum(s.drop_last())
    }
}

/// The compact spelling of a native kind: ASCII letters and digits, lower-cased.
pub open spec fn compact_kind(native: Seq<char>) -> Seq<char> {
    ascii_lower(keep_ascii_alnum(native))
}

pub fn compact_kind_exec(native: &str) -> (r: Vec<char>)
    ensures
        r@ == compact_kind(native@),
{
    let v = chars_of(native);
    let mut r: Vec<char> = Vec::new();
    let mut i: usize = 0;
    while i < v.len()
        invariant
            i <= v.len(),
            v@ == native@,
            r@ == compact_kind(v@.take(i as int)),
        decreases v.len() - i,
    {
        assert(v@.take(i + 1).drop_last() == v@.take(i as int));
        if is_ascii_alnum_exec(v[i]) {
            r.push(to_ascii_lower_char(v[i]));
            assert(r@ =~= compact_kind(v@.take(i + 1)));
        }
        i += 1;
    }
    assert(v@.take(v.len() as int) == v@);
    r
}

pub open spec fn spec_canonical_definition_kind(native: Seq<char>) -> Option<FactNodeKind> {
    let c = compact_kind(native);
    if c == "namespace"@ || c == "package"@ || c == "module"@ {
        Some(FactNodeKind::Namespace)
    } else if c == "type"@ {
        Some(FactNodeKind::Type)
    } else if c == "class"@ {
        Some(FactNodeKind::Class)
    } else if c == "interface"@ {
        Some(FactNodeKind::Interface)
    } else if c == "trait"@ || c == "mixin"@ {
        Some(FactNodeKind::Trait)
    } else if c == "struct"@ || c == "union"@ {
        Some(FactNodeKind::Struct)
    } else if c == "enum"@ {
        Some(FactNodeKind::Enum)
    } else if c == "typealias"@ || c == "typedef"@ {
        Some(FactNodeKind::TypeAlias)
    } else if c == "function"@ || c == "operator"@ {
        Some(FactNodeKind::Function)
    } else if c == "method"@ {
        Some(FactNodeKind::Method)
    } else if c == "constructor"@ {
        Some(FactNodeKind::Constructor)
    } else if c == "constant"@ {
        Some(FactNodeKind::Constant)
    } else if c == "field"@ || c == "property"@ {
        Some(FactNodeKind::Field)
    } else {
        None
    }
}

/// Maps a provider's native kind spelling to the product kind.
pub fn canonical_definition_kind(native: &str) -> (r: Option<FactNodeKind>)
    ensures
        r == spec_canonical_definition_kind(native@),
{
    let c = compact_kind_exec(native);
    let c = c.as_slice();
    if chars_eq_str(c, "namespace") || chars_eq_str(c, "package") || chars_eq_str(c, "module") {
        Some(FactNodeKind::Namespace)
    } else if chars_eq_str(c, "type") {
        Some(FactNodeKind::Type)
    } else if chars_eq_str(c, "class") {
        Some(FactNodeKind::Class)
    } else if chars_eq_str(c, "interface") {
        Some(FactNodeKind::Interface)
    } else if chars_eq_str(c, "trait") || chars_eq_str(c, "mixin") {
        Some(FactNodeKind::Trait)
    } else if chars_eq_str(c, "struct") || chars_eq_str(c, "union") {
        Some(FactNodeKind::Struct)
    } else if chars_eq_str(c, "enum") {
        Some(FactNodeKind::Enum)
    } else if chars_eq_str(c, "typealias") || chars_eq_str(c, "typedef") {
        Some(FactNodeKind::TypeAlias)
    } else if chars_eq_str(c, "function") || chars_eq_str(c, "operator") {
        Some(FactNodeKind::Function)
    } else if chars_eq_str(c, "method") {
        Some(FactNodeKind::Method)
    } else if chars_eq_str(c, "constructor") {
        Some(FactNodeKind::Constructor)
    } else if chars_eq_str(c, "constant") {
        Some(FactNodeKind::Constant)
    } else if chars_eq_str(c, "field") || chars_eq_str(c, "property") {
        Some(FactNodeKind::Field)
    } else {
        None
    }
}

/// Whether a provider's native kind spelling is `variable`.
pub fn is_variable_definition_kind(native: &str) -> (b: bool)
    ensures
        b == (compact_kind(native@) == "variable"@),
{
    let c = compact_kind_exec(native);
    chars_eq_str(c.as_slice(), "variable")
}

pub fn source_flags(kind: SourceFileKind) -> (f: SourceFlags)
    ensures
        f == (SourceFlags {
            test: kind == SourceFileKind::Test,
            generated: kind == SourceFileKind::Generated,
            vendor: kind == SourceFileKind::Vendor,
            external: false,
        }),
{
    SourceFlags {
        test: kind == SourceFileKind::Test,
        generated: kind == SourceFileKind::Generated,
        vendor: kind == SourceFileKind::Vendor,
        external: false,
    }
}

// ---------------------------------------------------------------------------
// Names
// ---------------------------------------------------------------------------

/// The point an LSP fallback identity (`lsp ...@line:column`) carries.
pub open spec fn spec_provider_symbol_source_point(v: Seq<char>) -> Option<Point> {
    let at = in_set(seq!['@']);
    let colon = in_set(seq![':']);
    if !is_prefix("lsp "@, v) || !has_where(v, at) {
        None
    } else {
        let location = after_last(v, at);
        if !has_where(location, colon) {
            None
        } else {
            match (
                spec_parse_i32(before_first(location, colon)),
                spec_parse_i32(after_first(location, colon)),
            ) {
                (Some(line), Some(column)) => Some((line, column)),
                _ => None,
            }
        }
    }
}

pub fn provider_symbol_source_point(symbol: &ProviderSymbolId) -> (r: Option<(i32, i32)>)
    ensures
        r == spec_provider_symbol_source_point(symbol.value@),
{
    let v = chars_of(symbol.value.as_str());
    if !starts_with(v.as_slice(), "lsp ") {
        return None;
    }
    let at_set = ['@'];
    assert(at_set@ == seq!['@']);
    let Some(at) = find_last_in(v.as_slice(), &at_set) else {
        return None;
    };
    let location = slice_subrange(v.as_slice(), at + 1, v.len());
    assert(location@ == v@.skip(at + 1));
    let colon_set = [':'];
    assert(colon_set@ == seq![':']);
    let Some(colon) = find_first_in(location, &colon_set) else {
        return None;
    };
    let line_text = slice_subrange(location, 0, colon);
    let column_text = slice_subrange(location, colon + 1, location.len());
    assert(line_text@ == location@.take(colon as int));
    assert(column_text@ == location@.skip(colon + 1));
    let line = parse_i32(line_text);
    let column = parse_i32(column_text);
    match (line, column) {
        (Some(line), Some(column)) => Some((line, column)),
        _ => None,
    }
}

/// `identity` of `identity@line:column` when both numbers are non-empty runs of
/// ASCII digits; `symbol` otherwise.
pub open spec fn spec_strip_lsp_location_suffix(s: Seq<char>) -> Seq<char> {
    let at = in_set(seq!['@']);
    let colon = in_set(seq![':']);
    if !has_where(s, at) {
        s
    } else {
        let suffix = after_last(s, at);
        if !has_where(suffix, colon) {
            s
        } else {
            let line = before_first(suffix, colon);
            let column = after_first(suffix, colon);
            if line.len() > 0 && column.len() > 0 && all_ascii_digits(line) && all_ascii_digits(
                column,
            ) {
                before_last(s, at)
            } else {
                s
            }
        }
    }
}

fn all_digits_exec(s: &[char]) -> (b: bool)
    ensures
        b == all_ascii_digits(s@),
{
    let mut i: usize = 0;
    while i < s.len()
        invariant
            i <= s.len(),
            all_ascii_digits(s@.take(i as int)),
        decreases s.len() - i,
    {
        if !is_ascii_digit_exec(s[i]) {
            return false;
        }
        i += 1;
        assert(all_ascii_digits(s@.take(i as int))) by {
            assert forall|k: int| 0 <= k < i implies crate::text::is_ascii_digit(#[trigger] s@.take(i as int)[k]) by {
                if k < i - 1 {
                    assert(s@.take(i as int)[k] == s@.take(i - 1)[k]);
                }
            }
        }
    }
    assert(s@.take(s.len() as int) == s@);
    true
}

/// The length of the prefix of `v` that `strip_lsp_location_suffix` keeps.
fn strip_lsp_location_suffix_len(v: &[char]) -> (n: usize)
    ensures
        n <= v.len(),
        v@.take(n as int) == spec_strip_lsp_location_suffix(v@),
{
    let at_set = ['@'];
    assert(at_set@ == seq!['@']);
    assert(v@.take(v.len() as int) == v@);
    let Some(at) = find_last_in(v, &at_set) else {
        return v.len();
    };
    let suffix = slice_subrange(v, at + 1, v.len());
    assert(suffix@ == v@.skip(at + 1));
    let colon_set = [':'];
    assert(colon_set@ == seq![':']);
    let Some(colon) = find_first_in(suffix, &colon_set) else {
        return v.len();
    };
    let line = slice_subrange(suffix, 0, colon);
    let column = slice_subrange(suffix, colon + 1, suffix.len());
    assert(line@ == suffix@.take(colon as int));
    assert(column@ == suffix@.skip(colon + 1));
    if line.len() > 0 && column.len() > 0 && all_digits_exec(line) && all_digits_exec(column) {
        at
    } else {
        v.len()
    }
}

/// Removes an LSP `@line:column` suffix from a fallback identity.
pub fn strip_lsp_location_suffix(symbol: &str) -> (r: &str)
    ensures
        r@ == spec_strip_lsp_location_suffix(symbol@),
{
    let v = chars_of(symbol);
    let n = strip_lsp_location_suffix_len(v.as_slice());
    substr(symbol, 0, n)
}

/// Whether the identity, once its LSP suffix is removed, is a property descriptor (`...:`).
pub open spec fn spec_is_property_descriptor(s0: Seq<char>) -> bool {
    let s1 = spec_strip_lsp_location_suffix(s0);
    s1.len() > 0 && s1.last() == ':'
}

/// The last descriptor of an identity: after its trailing separators are
/// removed, the part after the last `#`, `.`, `:` or `/`.
pub open spec fn spec_last_descriptor(s0: Seq<char>) -> Seq<char> {
    let s1 = spec_strip_lsp_location_suffix(s0);
    let s2 = trim_end_by(s1, in_set(seq!['.', ':', '/', '#']));
    after_last(s2, in_set(seq!['#', '.', ':', '/']))
}

/// `s.split_whitespace().last().unwrap_or(s)`.
pub open spec fn spec_last_word_or_all(s: Seq<char>) -> Seq<char> {
    let t = trim_end_by(s, is_ws_class());
    if t.len() == 0 {
        s
    } else {
        after_last(t, is_ws_class())
    }
}

/// The human name a provider symbol identity ends in.
pub open spec fn spec_short_symbol_name(s0: Seq<char>) -> Seq<char> {
    let s3 = spec_last_descriptor(s0);
    if s3.len() > 0 && s3[0] == '(' && s3.last() == ')' {
        s3
    } else {
        let s5 = spec_last_word_or_all(before_first(s3, in_set(seq!['('])));
        if spec_is_property_descriptor(s0) {
            trim_end_by(s5, is_numeric_class())
        } else {
            s5
        }
    }
}

fn last_descriptor_bounds(vs: &[char]) -> (r: (usize, usize, bool))
    ensures
        r.0 <= r.1 <= vs@.len(),
        vs@.subrange(r.0 as int, r.1 as int) == spec_last_descriptor(vs@),
        r.2 == spec_is_property_descriptor(vs@),
{
    let e1 = strip_lsp_location_suffix_len(vs);
    let property = e1 > 0 && vs[e1 - 1] == ':';
    let w1 = slice_subrange(vs, 0, e1);
    assert(w1@ == vs@.take(e1 as int));
    let set2 = ['.', ':', '/', '#'];
    assert(set2@ == seq!['.', ':', '/', '#']);
    let e2 = trim_end_in(w1, &set2);
    let w2 = slice_subrange(vs, 0, e2);
    assert(w2@ == w1@.take(e2 as int));
    let set3 = ['#', '.', ':', '/'];
    assert(set3@ == seq!['#', '.', ':', '/']);
    let b3 = match find_last_in(w2, &set3) {
        Some(i) => i + 1,
        None => 0,
    };
    assert(w2@.skip(0) == w2@);
    assert(vs@.subrange(b3 as int, e2 as int) == w2@.skip(b3 as int));
    (b3, e2, property)
}

fn last_word_bounds(vs: &[char], b: usize, e: usize) -> (r: (usize, usize))
    requires
        b <= e <= vs@.len(),
    ensures
        b <= r.0 <= r.1 <= e,
        vs@.subrange(r.0 as int, r.1 as int) == spec_last_word_or_all(vs@.subrange(b as int, e as int)),
{
    let w = slice_subrange(vs, b, e);
    let t_len = trim_end_whitespace(w);
    if t_len == 0 {
        return (b, e);
    }
    let t = slice_subrange(vs, b, b + t_len);
    assert(t@ == w@.take(t_len as int));
    match find_last_whitespace(t) {
        Some(i) => {
            assert(vs@.subrange(b + i + 1, (b + t_len) as int) == t@.skip(i + 1));
            (b + i + 1, b + t_len)
        },
        None => {
            assert(t@.skip(0) == t@);
            (b, b + t_len)
        },
    }
}

/// The human name a provider symbol identity ends in. Unnamed clangd
/// declarations such as `(anonymous enum)` keep their whole label.
pub fn short_symbol_name(symbol: &str) -> (r: &str)
    ensures
        r@ == spec_short_symbol_name(symbol@),
{
    let v = chars_of(symbol);
    let vs = v.as_slice();
    let (b3, e2, property) = last_descriptor_bounds(vs);
    let w3 = slice_subrange(vs, b3, e2);
    if w3.len() > 0 && w3[0] == '(' && w3[w3.len() - 1] == ')' {
        return substr(symbol, b3, e2);
    }
    let open_set = ['('];
    assert(open_set@ == seq!['(']);
    let e4 = match find_first_in(w3, &open_set) {
        Some(i) => b3 + i,
        None => e2,
    };
    assert(w3@.take(w3@.len() as int) == w3@);
    assert(vs@.subrange(b3 as int, e4 as int) == before_first(w3@, in_set(seq!['('])));
    let (b5, e5) = last_word_bounds(vs, b3, e4);
    if property {
        let w5 = slice_subrange(vs, b5, e5);
        let n = trim_end_numeric(w5);
        assert(vs@.subrange(b5 as int, b5 + n) == w5@.take(n as int));
        substr(symbol, b5, b5 + n)
    } else {
        substr(symbol, b5, e5)
    }
}

/// `s` without its leading and trailing backquotes.
pub open spec fn trim_backquotes(s: Seq<char>) -> Seq<char> {
    trim_end_by(trim_start_by(s, in_set(seq!['`'])), in_set(seq!['`']))
}

/// The bare name of a display name, qualified name or header.
pub open spec fn spec_definition_base_name(value: Seq<char>) -> Seq<char> {
    let v1 = before_first(value, in_set(seq!['(']));
    let v2 = before_first(v1, in_set(seq!['<']));
    let v3 = trim_ws(v2);
    let v4 = after_last(v3, in_set(seq!['#', '.', ':', '/', ' ']));
    trim_backquotes(v4)
}

pub fn definition_base_name(value: &str) -> (r: String)
    ensures
        r@ == spec_definition_base_name(value@),
{
    let v = chars_of(value);
    let open_set = ['('];
    assert(open_set@ == seq!['(']);
    let e1 = match find_first_in(v.as_slice(), &open_set) {
        Some(i) => i,
        None => v.len(),
    };
    assert(v@.take(v.len() as int) == v@);
    let w1 = slice_subrange(v.as_slice(), 0, e1);
    let angle_set = ['<'];
    assert(angle_set@ == seq!['<']);
    let e2 = match find_first_in(w1, &angle_set) {
        Some(i) => i,
        None => e1,
    };
    assert(w1@.take(e1 as int) == w1@);
    let w2 = slice_subrange(v.as_slice(), 0, e2);
    assert(w2@ == w1@.take(e2 as int));
    let w3 = trim_chars(w2);
    let sep_set = ['#', '.', ':', '/', ' '];
    assert(sep_set@ == seq!['#', '.', ':', '/', ' ']);
    let b4 = match find_last_in(w3.as_slice(), &sep_set) {
        Some(i) => {
            assert(i < w3.len());
            i + 1
        },
        None => 0,
    };
    assert(w3@.skip(0) == w3@);
    let w4 = slice_subrange(w3.as_slice(), b4, w3.len());
    let tick_set = ['`'];
    assert(tick_set@ == seq!['`']);
    let b5 = trim_start_in(w4, &tick_set);
    let w5 = slice_subrange(w4, b5, w4.len());
    let e6 = trim_end_in(w5, &tick_set);
    string_of(slice_subrange(w5, 0, e6))
}

} // verus!

verus! {

/// What a provider reports of one symbol.
#[derive(Debug)]
pub struct SymbolOutput {
    pub symbol: String,
    pub kind: String,
    pub display_name: Option<String>,
    pub signature: Option<String>,
    pub enclosing_symbol: Option<String>,
}

pub open spec fn spec_definition_display_name(symbol: Seq<char>, display_name: Option<Seq<char>>) -> Seq<char> {
    match display_name {
        Some(name) => if trim_ws(name).len() > 0 {
            name
        } else {
            spec_short_symbol_name(symbol)
        },
        None => spec_short_symbol_name(symbol),
    }
}

/// The provider's display name when it is not blank, else the short name of the symbol.
pub fn definition_display_name(symbol: &SymbolOutput) -> (r: String)
    ensures
        r@ == spec_definition_display_name(
            symbol.symbol@,
            match symbol.display_name {
                Some(n) => Some(n@),
                None => None,
            },
        ),
{
    if let Some(name) = &symbol.display_name {
        let v = chars_of(name.as_str());
        let t = trim_chars(v.as_slice());
        if t.len() > 0 {
            return owned(name.as_str());
        }
    }
    owned(short_symbol_name(symbol.symbol.as_str()))
}

/// The trimmed text, unless it is absent or blank.
pub fn normalized_optional_text(value: Option<&str>) -> (r: Option<String>)
    ensures
        match value {
            Some(v) => if trim_ws(v@).len() > 0 {
                r is Some && r->0@ == trim_ws(v@)
            } else {
                r is None
            },
            None => r is None,
        },
{
    match value {
        Some(v) => {
            let t = crate::text::trim_str(v);
            let tv = chars_of(t);
            if tv.len() > 0 {
                Some(owned(t))
            } else {
                None
            }
        },
        None => None,
    }
}

pub open spec fn spec_definition_is_constructor(
    language: ProgrammingLanguage,
    display_name: Seq<char>,
    qualified_name: Seq<char>,
    has_signature: bool,
    parent: Option<(FactNodeKind, Seq<char>)>,
) -> bool {
    let child = spec_definition_base_name(display_name);
    match parent {
        None => false,
        Some(p) => {
            if !spec_is_type_owner_kind(p.0) {
                false
            } else if child == "constructor"@ || child == "__init__"@ || child == ".ctor"@ || child
                == "<init>"@ || contains_sub(qualified_name, "<constructor>"@) || contains_sub(
                qualified_name,
                "`.ctor`"@,
            ) || contains_sub(qualified_name, "<init>"@) {
                true
            } else if child != spec_definition_base_name(p.1) {
                false
            } else {
                match language {
                    ProgrammingLanguage::Dart => true,
                    ProgrammingLanguage::Java => !has_signature,
                    _ => false,
                }
            }
        },
    }
}

/// Whether a provider method is the constructor of its type owner.
pub fn definition_is_constructor(
    language: ProgrammingLanguage,
    draft: &DefinitionDraft,
    parent: Option<&(FactNodeKind, String)>,
) -> (b: bool)
    ensures
        b == spec_definition_is_constructor(
            language,
            draft.display_name@,
            draft.qualified_name@,
            draft.signature is Some,
            match parent {
                Some(p) => Some((p.0, p.1@)),
                None => None,
            },
        ),
{
    let child = definition_base_name(draft.display_name.as_str());
    let Some(parent) = parent else {
        return false;
    };
    if !is_type_owner_kind(parent.0) {
        return false;
    }
    let q = chars_of(draft.qualified_name.as_str());
    if str_eq(child.as_str(), "constructor") || str_eq(child.as_str(), "__init__") || str_eq(
        child.as_str(),
        ".ctor",
    ) || str_eq(child.as_str(), "<init>") || contains_str(q.as_slice(), "<constructor>")
        || contains_str(q.as_slice(), "`.ctor`") || contains_str(q.as_slice(), "<init>") {
        return true;
    }
    let parent_base = definition_base_name(parent.1.as_str());
    if !str_eq(child.as_str(), parent_base.as_str()) {
        return false;
    }
    match language {
        ProgrammingLanguage::Dart => true,
        ProgrammingLanguage::Java => draft.signature.is_none(),
        _ => false,
    }
}

// ---------------------------------------------------------------------------
// Reconciling provider drafts among themselves
// ---------------------------------------------------------------------------

/// The owner of `d`, with a self-ownership claim dropped.
pub open spec fn cleared_parent(d: DefinitionDraft) -> Option<ProviderSymbolId> {
    match d.parent_symbol_id {
        Some(p) => if p.value@ == d.symbol_id.value@ {
            None
        } else {
            Some(p)
        },
        None => None,
    }
}

/// The owner draft of `d` among `e`.
pub open spec fn owner_draft(e: Seq<DefinitionDraft>, d: DefinitionDraft) -> Option<DefinitionDraft> {
    match cleared_parent(d) {
        Some(p) => lookup(e, p.value@),
        None => None,
    }
}

/// A provider field candidate survives only when a type directly owns it.
pub open spec fn keeps_draft(e: Seq<DefinitionDraft>, d: DefinitionDraft) -> bool {
    !d.field_candidate || match owner_draft(e, d) {
        Some(o) => spec_is_type_owner_kind(o.canonical_kind_hint),
        None => false,
    }
}

/// The kind of `d` once its structural context is known.
pub open spec fn reconciled_kind(
    language: ProgrammingLanguage,
    e: Seq<DefinitionDraft>,
    d: DefinitionDraft,
) -> FactNodeKind {
    if d.field_candidate {
        FactNodeKind::Field
    } else if d.canonical_kind_hint != FactNodeKind::Method {
        d.canonical_kind_hint
    } else {
        match owner_draft(e, d) {
            Some(o) => if o.canonical_kind_hint == FactNodeKind::Namespace {
                FactNodeKind::Function
            } else if spec_definition_is_constructor(
                language,
                d.display_name@,
                d.qualified_name@,
                d.signature is Some,
                Some((o.canonical_kind_hint, o.display_name@)),
            ) {
                FactNodeKind::Constructor
            } else {
                d.canonical_kind_hint
            },
            None => d.canonical_kind_hint,
        }
    }
}

pub open spec fn reconciled_draft(
    language: ProgrammingLanguage,
    e: Seq<DefinitionDraft>,
    d: DefinitionDraft,
) -> DefinitionDraft {
    DefinitionDraft {
        parent_symbol_id: cleared_parent(d),
        canonical_kind_hint: reconciled_kind(language, e, d),
        ..d
    }
}

/// The drafts of `s` that survive, reconciled against the whole table `e`, in order.
pub open spec fn reconciled_drafts(
    language: ProgrammingLanguage,
    e: Seq<DefinitionDraft>,
    s: Seq<DefinitionDraft>,
) -> Seq<DefinitionDraft>
    decreases s.len(),
{
    if s.len() == 0 {
        Seq::empty()
    } else {
        let r = reconciled_drafts(language, e, s.drop_last());
        if keeps_draft(e, s.last()) {
            r.push(reconciled_draft(language, e, s.last()))
        } else {
            r
        }
    }
}

/// The decisions for one draft: survives, final kind, drops its self-ownership.
fn draft_decision(
    language: ProgrammingLanguage,
    definitions: &DefinitionTable,
    d: &DefinitionDraft,
) -> (r: (bool, FactNodeKind, bool))
    requires
        definitions.wf(),
    ensures
        r.0 == keeps_draft(definitions.entries@, *d),
        r.1 == reconciled_kind(language, definitions.entries@, *d),
        r.2 == (cleared_parent(*d) is None && d.parent_symbol_id is Some),
{
    let e = &definitions.entries;
    let self_parent = match &d.parent_symbol_id {
        Some(p) => str_eq(p.value.as_str(), d.symbol_id.value.as_str()),
        None => false,
    };
    let owner: Option<&DefinitionDraft> = if self_parent {
        None
    } else {
        match &d.parent_symbol_id {
            Some(p) => definitions.get(p),
            None => None,
        }
    };
    assert(match owner {
        Some(o) => owner_draft(e@, *d) == Some(*o),
        None => owner_draft(e@, *d) is None,
    });
    let keep = !d.field_candidate || match owner {
        Some(o) => is_type_owner_kind(o.canonical_kind_hint),
        None => false,
    };
    let kind = if d.field_candidate {
        FactNodeKind::Field
    } else if d.canonical_kind_hint != FactNodeKind::Method {
        d.canonical_kind_hint
    } else {
        match owner {
            Some(o) => {
                if o.canonical_kind_hint == FactNodeKind::Namespace {
                    FactNodeKind::Function
                } else {
                    let owner_facts = (o.canonical_kind_hint, owned(o.display_name.as_str()));
                    if definition_is_constructor(language, d, Some(&owner_facts)) {
                        FactNodeKind::Constructor
                    } else {
                        d.canonical_kind_hint
                    }
                }
            },
            None => d.canonical_kind_hint,
        }
    };
    (keep, kind, self_parent)
}

/// Removes impossible self-ownership, drops provider variables that no type
/// owns directly, and refines method kinds from their structural owner.
pub fn reconcile_definition_drafts(language: ProgrammingLanguage, definitions: &mut DefinitionTable)
    requires
        old(definitions).wf(),
    ensures
        final(definitions).wf(),
        final(definitions).entries@ == reconciled_drafts(
            language,
            old(definitions).entries@,
            old(definitions).entries@,
        ),
{
    let ghost e = definitions.entries@;
    let n = definitions.entries.len();
    // Decide every draft against the table as it stands.
    let mut decisions: Vec<(bool, FactNodeKind, bool)> = Vec::new();
    let mut i: usize = 0;
    while i < n
        invariant
            n == definitions.entries@.len(),
            e == definitions.entries@,
            definitions.wf(),
            i <= n,
            decisions@.len() == i,
            forall|k: int|
                0 <= k < i ==> {
                    &&& (#[trigger] decisions@[k]).0 == keeps_draft(e, e[k])
                    &&& decisions@[k].1 == reconciled_kind(language, e, e[k])
                    &&& decisions@[k].2 == (cleared_parent(e[k]) is None && e[k].parent_symbol_id is Some)
                },
        decreases n - i,
    {
        let dec = draft_decision(language, definitions, &definitions.entries[i]);
        decisions.push(dec);
        i += 1;
    }
    // Take the drafts out, reversed, so they can be moved one by one in order.
    let mut taken: Vec<DefinitionDraft> = Vec::new();
    std::mem::swap(&mut taken, &mut definitions.entries);
    let mut reversed: Vec<DefinitionDraft> = Vec::new();
    while taken.len() > 0
        invariant
            taken@.len() + reversed@.len() == n,
            e.len() == n,
            taken@ == e.take(taken@.len() as int),
            forall|k: int| 0 <= k < reversed@.len() ==> #[trigger] reversed@[k] == e[n - 1 - k],
        decreases taken.len(),
    {
        let d = taken.pop().unwrap();
        reversed.push(d);
    }
    let mut out: Vec<DefinitionDraft> = Vec::new();
    let ghost mut origin: Seq<int> = Seq::empty();
    let mut j: usize = 0;
    while j < n
        invariant
            e.len() == n,
            ids_unique(e),
            decisions@.len() == n,
            forall|k: int|
                0 <= k < n ==> {
                    &&& (#[trigger] decisions@[k]).0 == keeps_draft(e, e[k])
                    &&& decisions@[k].1 == reconciled_kind(language, e, e[k])
                    &&& decisions@[k].2 == (cleared_parent(e[k]) is None && e[k].parent_symbol_id is Some)
                },
            j <= n,
            reversed@.len() == n - j,
            forall|k: int| 0 <= k < reversed@.len() ==> #[trigger] reversed@[k] == e[n - 1 - k],
            out@ == reconciled_drafts(language, e, e.take(j as int)),
            origin.len() == out@.len(),
            forall|k: int| 0 <= k < origin.len() ==> 0 <= #[trigger] origin[k] < j,
            forall|k: int, m: int| 0 <= k < m < origin.len() ==> #[trigger] origin[k] < #[trigger] origin[m],
            forall|k: int|
                0 <= k < origin.len() ==> (#[trigger] out@[k]).symbol_id.value@ == e[origin[k]].symbol_id.value@,
        decreases n - j,
    {
        let mut d = reversed.pop().unwrap();
        assert(d == e[j as int]);
        assert(e.take(j + 1).drop_last() == e.take(j as int));
        let (keep, kind, clear) = decisions[j];
        if keep {
            if clear {
                d.parent_symbol_id = None;
            }
            d.canonical_kind_hint = kind;
            proof {
                assert(d == reconciled_draft(language, e, e[j as int]));
                origin = origin.push(j as int);
            }
            out.push(d);
        }
        j += 1;
    }
    assert(e.take(n as int) == e);
    definitions.entries = out;
    proof {
        let o = definitions.entries@;
        assert forall|a: int, b: int|
            0 <= a < o.len() && 0 <= b < o.len() && (#[trigger] o[a]).symbol_id.value@ == (#[trigger] o[b]).symbol_id.value@
                implies a == b by {
            assert(e[origin[a]].symbol_id.value@ == e[origin[b]].symbol_id.value@);
            if a < b {
                assert(origin[a] < origin[b]);
            } else if b < a {
                assert(origin[b] < origin[a]);
            }
        }
    }
}

} // verus!
