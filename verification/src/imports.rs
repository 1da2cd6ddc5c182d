//! Import specifiers: the text rules that turn a written import into the
//! module or file names it can designate.
use vstd::prelude::*;

use crate::model::{valid_repository_path, RepositoryPath};
use crate::text::{
    before_sub, before_sub_chars, char_views, chars_eq_str, chars_of, contains_char, is_prefix, join_chars, join_with, slice_range, sorted_unique_strings, split_once_chars, split_once_sub, split_sub, split_sub_chars, string_of, string_views, strictly_sorted, trim_chars, trim_end_matches_chars, trim_end_matches_sub, trim_start_matches_chars, trim_start_matches_sub, trim_ws,
};

verus! {

/// Whether an import site brings names in or passes them on.
#[derive(Clone, Copy, Debug, PartialEq, Eq, Structural)]
pub enum ImportRelation {
    Imports,
    Exports,
}

/// The syntactic form of an import site, with what its resolution needs.
#[derive(Clone, Copy, Debug, PartialEq, Eq, Structural)]
pub enum ImportForm {
    EcmaScriptModule,
    EcmaScriptRequire,
    EcmaScriptDynamic,
    PythonModule,
    Java { static_import: bool, wildcard: bool },
    CSharp { static_import: bool, alias: bool },
    CInclude { system: bool, literal: bool },
    GoPackage,
    RustUse,
    RustExternCrate,
    DartUri { conditional: bool },
}

/// One explicit import site of one source file.
#[derive(Clone, Debug)]
pub struct ImportSite {
    pub language: crate::model::ProgrammingLanguage,
    pub relation: ImportRelation,
    pub form: ImportForm,
    pub specifier: String,
    /// Tree-sitter columns are UTF-8 byte columns.
    pub utf8_range: Vec<i32>,
    /// Kept for parity with LSP diagnostics.
    pub utf16_range: Vec<i32>,
}

/// A quoted or bracketed import path without its delimiters: `'..'`, `".."`,
/// `` `..` `` and `<..>` pairs are removed.
pub open spec fn spec_strip_delimiters(value: Seq<char>) -> Seq<char> {
    if value.len() >= 2 && ((value[0] == '\'' && value.last() == '\'') || (value[0] == '"'
        && value.last() == '"') || (value[0] == '`' && value.last() == '`') || (value[0] == '<'
        && value.last() == '>')) {
        value.subrange(1, value.len() - 1)
    } else {
        value
    }
}

/// Removes one pair of import-path delimiters. The delimiters are ASCII, so
/// testing the first and last characters is the same as testing the first and
/// last bytes.
pub fn strip_delimiters(value: &str) -> (r: String)
    ensures
        r@ == spec_strip_delimiters(value@),
{
    let v = chars_of(value);
    let n = v.len();
    if n >= 2 {
        let first = v[0];
        let last = v[n - 1];
        if (first == '\'' && last == '\'') || (first == '"' && last == '"') || (first == '`'
            && last == '`') || (first == '<' && last == '>') {
            return crate::text::string_of_range(v.as_slice(), 1, n - 1);
        }
    }
    string_of(v.as_slice())
}

/// A relative ECMAScript specifier: `.`, `..`, `./..` or `../..`.
pub open spec fn spec_is_relative_specifier(value: Seq<char>) -> bool {
    value == seq!['.'] || value == seq!['.', '.'] || is_prefix(seq!['.', '/'], value) || is_prefix(
        seq!['.', '.', '/'],
        value,
    )
}

pub fn is_relative_specifier(value: &str) -> (r: bool)
    ensures
        r == spec_is_relative_specifier(value@),
{
    let v = chars_of(value);
    let v = v.as_slice();
    let dot = ['.'];
    let dots = ['.', '.'];
    let dot_slash = ['.', '/'];
    let dots_slash = ['.', '.', '/'];
    assert(dot@ == seq!['.']);
    assert(dots@ == seq!['.', '.']);
    assert(dot_slash@ == seq!['.', '/']);
    assert(dots_slash@ == seq!['.', '.', '/']);
    crate::text::seq_eq(v, &dot) || crate::text::seq_eq(v, &dots) || crate::text::occurs_at_exec(
        v,
        &dot_slash,
        0,
    ) || crate::text::occurs_at_exec(v, &dots_slash, 0)
}

/// Whether the last path segment has a `.` in it.
pub open spec fn spec_has_extension(path: Seq<char>) -> bool {
    crate::census::file_name(path).contains('.')
}

pub fn has_extension(path: &str) -> (r: bool)
    ensures
        r == spec_has_extension(path@),
{
    let p = chars_of(path);
    let name = crate::census::last_segment(p.as_slice(), '/');
    contains_char(name.as_slice(), '.')
}

/// Whether a Rust path starts in `std`, `core` or `alloc`.
pub open spec fn spec_starts_with_rust_standard_crate(value: Seq<char>) -> bool {
    let head = before_sub(value, "::"@);
    head == "std"@ || head == "core"@ || head == "alloc"@
}

pub fn starts_with_rust_standard_crate(value: &str) -> (r: bool)
    ensures
        r == spec_starts_with_rust_standard_crate(value@),
{
    let v = chars_of(value);
    let head = before_sub_chars(v.as_slice(), "::");
    let h = head.as_slice();
    chars_eq_str(h, "std") || chars_eq_str(h, "core") || chars_eq_str(h, "alloc")
}

// ---------------------------------------------------------------------------
// Rust `use` paths
// ---------------------------------------------------------------------------

/// The path of a `use` specifier without its alias, whitespace and glob.
pub open spec fn rust_raw_path(specifier: Seq<char>) -> Seq<char> {
    trim_end_matches_sub(trim_ws(before_sub(specifier, " as "@)), "::*"@)
}

pub open spec fn is_path_keyword(p: Seq<char>) -> bool {
    p == "crate"@ || p == "self"@ || p == "super"@
}

/// The path a group import is resolved by: the part before `::{`. A group
/// directly under `crate`, `self` or `super` names several roots and has none.
pub open spec fn rust_group_base(raw: Seq<char>) -> Option<Seq<char>> {
    match split_once_sub(raw, "::{"@) {
        Some(parts) => if is_path_keyword(parts.0) {
            None
        } else {
            Some(parts.0)
        },
        None => Some(raw),
    }
}

/// `raw` is the keyword `kw` or a path under it.
pub open spec fn names_path(raw: Seq<char>, kw: Seq<char>) -> bool {
    raw == kw || is_prefix(kw + "::"@, raw)
}

pub open spec fn with_suffix(base: Seq<char>, suffix: Seq<char>) -> Seq<char> {
    if suffix.len() == 0 {
        base
    } else {
        base + "::"@ + suffix
    }
}

pub proof fn lemma_trim_start_matches_len(s: Seq<char>, t: Seq<char>)
    ensures
        trim_start_matches_sub(s, t).len() <= s.len(),
    decreases s.len(),
{
    if t.len() > 0 && is_prefix(t, s) {
        lemma_trim_start_matches_len(s.skip(t.len() as int), t);
    }
}

/// Climbs one module per leading `super`; `None` once it would climb past the
/// crate root.
pub open spec fn super_walk(base: Seq<Seq<char>>, suffix: Seq<char>) -> Option<(Seq<Seq<char>>, Seq<char>)>
    decreases suffix.len(),
{
    if names_path(suffix, "super"@) {
        proof {
            reveal_strlit("super");
            lemma_trim_start_matches_len(suffix.skip(5), "::"@);
        }
        if base.len() <= 1 {
            None
        } else {
            super_walk(base.drop_last(), trim_start_matches_sub(suffix.skip(5), "::"@))
        }
    } else {
        Some((base, suffix))
    }
}

/// The candidate a `super::..` path gives from one source module.
pub open spec fn super_candidate(source: Seq<char>, raw: Seq<char>) -> Option<Seq<char>> {
    match super_walk(split_sub(source, "::"@), raw) {
        Some(walked) => if walked.0.len() == 0 {
            None
        } else {
            Some(with_suffix(join_with(walked.0, "::"@), walked.1))
        },
        None => None,
    }
}

/// Whether `x` is a module path a Rust `use` specifier may name, given the
/// modules of the importing file.
pub open spec fn is_rust_candidate(specifier: Seq<char>, modules: Seq<Seq<char>>, x: Seq<char>) -> bool {
    match rust_group_base(rust_raw_path(specifier)) {
        None => false,
        Some(raw) => if names_path(raw, "crate"@) {
            x == raw
        } else if names_path(raw, "self"@) {
            exists|i: int|
                0 <= i < modules.len() && x == with_suffix(
                    #[trigger] modules[i],
                    trim_start_matches_sub(raw.skip(4), "::"@),
                )
        } else if names_path(raw, "super"@) {
            exists|i: int| 0 <= i < modules.len() && super_candidate(#[trigger] modules[i], raw) == Some(x)
        } else {
            x == "crate::"@ + raw || x == raw
        },
    }
}

fn names_path_exec(raw: &[char], kw: &str) -> (r: bool)
    ensures
        r == names_path(raw@, kw@),
{
    let k = chars_of(kw);
    let mut kc = k.clone();
    kc.push(':');
    kc.push(':');
    proof {
        reveal_strlit("::");
        assert(kc@ =~= kw@ + "::"@);
    }
    chars_eq_str(raw, kw) || crate::text::occurs_at_exec(raw, kc.as_slice(), 0)
}

fn with_suffix_exec(base: &[char], suffix: &[char]) -> (r: String)
    ensures
        r@ == with_suffix(base@, suffix@),
{
    let mut v = slice_range(base, 0, base.len());
    if suffix.len() > 0 {
        v.push(':');
        v.push(':');
        let mut k: usize = 0;
        let ghost mid = v@;
        while k < suffix.len()
            invariant
                k <= suffix.len(),
                v@ == mid + suffix@.take(k as int),
            decreases suffix.len() - k,
        {
            v.push(suffix[k]);
            k += 1;
            assert(v@ =~= mid + suffix@.take(k as int));
        }
        proof {
            reveal_strlit("::");
            assert(suffix@.take(suffix@.len() as int) == suffix@);
            assert(v@ =~= base@ + "::"@ + suffix@);
        }
    } else {
        assert(v@ == base@);
    }
    string_of(v.as_slice())
}

fn super_candidate_exec(source: &str, raw: &[char]) -> (r: Option<String>)
    ensures
        match r {
            Some(c) => super_candidate(source@, raw@) == Some(c@),
            None => super_candidate(source@, raw@) is None,
        },
{
    proof {
        reveal_strlit("::");
    }
    let sc = chars_of(source);
    let mut base = split_sub_chars(sc.as_slice(), "::");
    let mut suffix: Vec<char> = slice_range(raw, 0, raw.len());
    assert(suffix@ == raw@);
    loop
        invariant
            super_walk(char_views(base@), suffix@) == super_walk(split_sub(source@, "::"@), raw@),
        ensures
            super_walk(char_views(base@), suffix@) == super_walk(split_sub(source@, "::"@), raw@),
            !names_path(suffix@, "super"@),
        decreases suffix@.len(),
    {
        if !names_path_exec(suffix.as_slice(), "super") {
            break;
        }
        proof {
            reveal_strlit("super");
            lemma_trim_start_matches_len(suffix@.skip(5), "::"@);
        }
        if base.len() <= 1 {
            return None;
        }
        let ghost old_base = char_views(base@);
        base.pop();
        assert(char_views(base@) == old_base.drop_last());
        let after = slice_range(suffix.as_slice(), 5, suffix.len());
        assert(after@ == suffix@.skip(5));
        suffix = trim_start_matches_chars(after.as_slice(), "::");
    }
    if base.len() == 0 {
        return None;
    }
    let joined = join_chars(&base, "::");
    Some(with_suffix_exec(joined.as_slice(), suffix.as_slice()))
}

/// The module paths a Rust `use` specifier may name, given the modules of the
/// importing file; sorted and without duplicates.
pub fn rust_import_candidates(specifier: &str, source_modules: &[String]) -> (r: Vec<String>)
    ensures
        strictly_sorted(string_views(r@)),
        forall|x: Seq<char>|
            string_views(r@).contains(x) <==> is_rust_candidate(
                specifier@,
                string_views(source_modules@),
                x,
            ),
{
    proof {
        reveal_strlit("::");
        reveal_strlit("::{");
        reveal_strlit(" as ");
        reveal_strlit("::*");
    }
    let sc = chars_of(specifier);
    let before_alias = before_sub_chars(sc.as_slice(), " as ");
    let trimmed = trim_chars(before_alias.as_slice());
    let raw0 = trim_end_matches_chars(trimmed.as_slice(), "::*");
    let ghost modules = string_views(source_modules@);
    let raw: Vec<char> = match split_once_chars(raw0.as_slice(), "::{") {
        Some(parts) => {
            let p = parts.0.as_slice();
            if chars_eq_str(p, "crate") || chars_eq_str(p, "self") || chars_eq_str(p, "super") {
                let empty: Vec<String> = Vec::new();
                assert forall|x: Seq<char>| !is_rust_candidate(specifier@, modules, x) by {}
                return empty;
            }
            parts.0
        },
        None => raw0,
    };
    assert(rust_group_base(rust_raw_path(specifier@)) == Some(raw@));
    let mut candidates: Vec<String> = Vec::new();
    if names_path_exec(raw.as_slice(), "crate") {
        candidates.push(string_of(raw.as_slice()));
        assert forall|x: Seq<char>| string_views(candidates@).contains(x) <==> is_rust_candidate(
            specifier@,
            modules,
            x,
        ) by {
            if x == raw@ {
                assert(string_views(candidates@)[0] == x);
            }
        }
    } else if names_path_exec(raw.as_slice(), "self") {
        proof {
            reveal_strlit("self");
        }
        let after = slice_range(raw.as_slice(), 4, raw.len());
        let suffix = trim_start_matches_chars(after.as_slice(), "::");
        assert(suffix@ == trim_start_matches_sub(raw@.skip(4), "::"@));
        let mut i: usize = 0;
        while i < source_modules.len()
            invariant
                i <= source_modules.len(),
                modules == string_views(source_modules@),
                candidates@.len() == i,
                forall|k: int|
                    0 <= k < i ==> #[trigger] string_views(candidates@)[k] == with_suffix(
                        modules[k],
                        suffix@,
                    ),
            decreases source_modules.len() - i,
        {
            let m = chars_of(source_modules[i].as_str());
            assert(m@ == modules[i as int]);
            let c = with_suffix_exec(m.as_slice(), suffix.as_slice());
            let ghost old = candidates@;
            let ghost cv = c@;
            candidates.push(c);
            assert(candidates@ == old.push(c));
            assert forall|k: int| 0 <= k < i + 1 implies #[trigger] string_views(candidates@)[k]
                == with_suffix(modules[k], suffix@) by {
                if k < i {
                    assert(candidates@[k] == old[k]);
                    assert(string_views(old)[k] == with_suffix(modules[k], suffix@));
                } else {
                    assert(string_views(candidates@)[k] == cv);
                }
            }
            i += 1;
        }
        assert forall|x: Seq<char>| string_views(candidates@).contains(x) <==> is_rust_candidate(
            specifier@,
            modules,
            x,
        ) by {
            if string_views(candidates@).contains(x) {
                let k = choose|k: int|
                    0 <= k < string_views(candidates@).len() && string_views(candidates@)[k] == x;
                assert(x == with_suffix(modules[k], suffix@));
            }
            if is_rust_candidate(specifier@, modules, x) {
                let k = choose|k: int|
                    0 <= k < modules.len() && x == with_suffix(
                        #[trigger] modules[k],
                        trim_start_matches_sub(raw@.skip(4), "::"@),
                    );
                assert(string_views(candidates@)[k] == x);
            }
        }
    } else if names_path_exec(raw.as_slice(), "super") {
        let mut i: usize = 0;
        while i < source_modules.len()
            invariant
                i <= source_modules.len(),
                modules == string_views(source_modules@),
                forall|x: Seq<char>|
                    string_views(candidates@).contains(x) <==> exists|k: int|
                        0 <= k < i && super_candidate(#[trigger] modules[k], raw@) == Some(x),
            decreases source_modules.len() - i,
        {
            let ghost old = string_views(candidates@);
            match super_candidate_exec(source_modules[i].as_str(), raw.as_slice()) {
                Some(c) => {
                    candidates.push(c);
                    assert(string_views(candidates@) == old.push(c@));
                    assert forall|x: Seq<char>| string_views(candidates@).contains(x) <==> exists|
                        k: int,
                    | 0 <= k < i + 1 && super_candidate(#[trigger] modules[k], raw@) == Some(x) by {
                        if string_views(candidates@).contains(x) {
                            let j = choose|j: int|
                                0 <= j < string_views(candidates@).len() && string_views(
                                    candidates@,
                                )[j] == x;
                            if j < old.len() {
                                assert(old[j] == x);
                                assert(old.contains(x));
                            } else {
                                assert(super_candidate(modules[i as int], raw@) == Some(x));
                            }
                        }
                        if exists|k: int|
                            0 <= k < i + 1 && super_candidate(#[trigger] modules[k], raw@) == Some(
                                x,
                            ) {
                            let k = choose|k: int|
                                0 <= k < i + 1 && super_candidate(#[trigger] modules[k], raw@)
                                    == Some(x);
                            if k < i {
                                assert(old.contains(x));
                                let j = choose|j: int| 0 <= j < old.len() && old[j] == x;
                                assert(string_views(candidates@)[j] == x);
                            } else {
                                assert(string_views(candidates@)[old.len() as int] == x);
                            }
                        }
                    }
                },
                None => {
                    assert forall|x: Seq<char>| string_views(candidates@).contains(x) <==> exists|
                        k: int,
                    | 0 <= k < i + 1 && super_candidate(#[trigger] modules[k], raw@) == Some(x) by {
                        if exists|k: int|
                            0 <= k < i + 1 && super_candidate(#[trigger] modules[k], raw@) == Some(
                                x,
                            ) {
                            let k = choose|k: int|
                                0 <= k < i + 1 && super_candidate(#[trigger] modules[k], raw@)
                                    == Some(x);
                            assert(k < i);
                        }
                    }
                },
            }
            i += 1;
        }
    } else {
        let mut with_crate: Vec<char> = Vec::new();
        with_crate.push('c');
        with_crate.push('r');
        with_crate.push('a');
        with_crate.push('t');
        with_crate.push('e');
        with_crate.push(':');
        with_crate.push(':');
        let mut k: usize = 0;
        let ghost mid = with_crate@;
        while k < raw.len()
            invariant
                k <= raw.len(),
                with_crate@ == mid + raw@.take(k as int),
            decreases raw.len() - k,
        {
            with_crate.push(raw[k]);
            k += 1;
            assert(with_crate@ =~= mid + raw@.take(k as int));
        }
        proof {
            reveal_strlit("crate::");
            assert(raw@.take(raw@.len() as int) == raw@);
            assert(with_crate@ =~= "crate::"@ + raw@);
        }
        candidates.push(string_of(with_crate.as_slice()));
        candidates.push(string_of(raw.as_slice()));
        assert forall|x: Seq<char>| string_views(candidates@).contains(x) <==> is_rust_candidate(
            specifier@,
            modules,
            x,
        ) by {
            if x == "crate::"@ + raw@ {
                assert(string_views(candidates@)[0] == x);
            }
            if x == raw@ {
                assert(string_views(candidates@)[1] == x);
            }
        }
    }
    sorted_unique_strings(candidates)
}

// ---------------------------------------------------------------------------
// Relative paths and Python relative modules
// ---------------------------------------------------------------------------

pub open spec fn replace_backslashes(s: Seq<char>) -> Seq<char> {
    s.map_values(|c: char| if c == '\\' { '/' } else { c })
}

/// Applies the segments of a relative path to a stack of directory names:
/// empty and `.` segments are skipped, `..` climbs (failing above the root),
/// a segment holding NUL fails, any other segment descends.
pub open spec fn walk_segments(parts: Seq<Seq<char>>, segments: Seq<Seq<char>>) -> Option<Seq<Seq<char>>>
    decreases segments.len(),
{
    if segments.len() == 0 {
        Some(parts)
    } else {
        let s = segments[0];
        let rest = segments.drop_first();
        if s.len() == 0 || s == seq!['.'] {
            walk_segments(parts, rest)
        } else if s == seq!['.', '.'] {
            if parts.len() == 0 {
                None
            } else {
                walk_segments(parts.drop_last(), rest)
            }
        } else if s.contains('\0') {
            None
        } else {
            walk_segments(parts.push(s), rest)
        }
    }
}

/// The repository path a relative specifier designates from directory
/// `base`; `None` for absolute specifiers, for paths that climb above the
/// repository root, and for results that are not valid paths.
pub open spec fn spec_normalize_join(base: Seq<char>, specifier: Seq<char>) -> Option<Seq<char>> {
    if specifier.len() > 0 && specifier[0] == '/' {
        None
    } else {
        let start = if base.len() == 0 {
            Seq::<Seq<char>>::empty()
        } else {
            crate::census::split_on(base, '/')
        };
        match walk_segments(start, crate::census::split_on(replace_backslashes(specifier), '/')) {
            None => None,
            Some(parts) => if parts.len() == 0 {
                None
            } else if valid_repository_path(join_with(parts, seq!['/'])) {
                Some(join_with(parts, seq!['/']))
            } else {
                None
            },
        }
    }
}

pub(crate) fn string_pieces(v: &Vec<String>) -> (r: Vec<Vec<char>>)
    ensures
        char_views(r@) == crate::census::views_of_strings(v@),
{
    let mut r: Vec<Vec<char>> = Vec::new();
    let mut i: usize = 0;
    while i < v.len()
        invariant
            i <= v.len(),
            char_views(r@) == crate::census::views_of_strings(v@).take(i as int),
        decreases v.len() - i,
    {
        let c = chars_of(v[i].as_str());
        let ghost old = r@;
        let ghost cv = c@;
        r.push(c);
        assert(r@ == old.push(c));
        assert(char_views(r@) =~= char_views(old).push(cv));
        assert(char_views(r@) =~= crate::census::views_of_strings(v@).take(i + 1));
        i += 1;
    }
    assert(crate::census::views_of_strings(v@).take(v@.len() as int) == crate::census::views_of_strings(v@));
    r
}

pub fn normalize_join(base: &RepositoryPath, specifier: &str) -> (r: Option<RepositoryPath>)
    ensures
        match r {
            Some(p) => spec_normalize_join(base.value@, specifier@) == Some(p.value@)
                && valid_repository_path(p.value@),
            None => spec_normalize_join(base.value@, specifier@) is None,
        },
{
    let sc = chars_of(specifier);
    if sc.len() > 0 && sc[0] == '/' {
        return None;
    }
    let mut parts: Vec<Vec<char>> = if base.is_root() {
        Vec::new()
    } else {
        let b = chars_of(base.as_str());
        let pieces = crate::census::split_chars(b.as_slice(), '/');
        string_pieces(&pieces)
    };
    let mut replaced: Vec<char> = Vec::new();
    let mut k: usize = 0;
    while k < sc.len()
        invariant
            k <= sc.len(),
            replaced@ == replace_backslashes(sc@.take(k as int)),
        decreases sc.len() - k,
    {
        let c = sc[k];
        replaced.push(if c == '\\' { '/' } else { c });
        k += 1;
        assert(replaced@ =~= replace_backslashes(sc@.take(k as int)));
    }
    assert(sc@.take(sc@.len() as int) == sc@);
    let seg_strings = crate::census::split_chars(replaced.as_slice(), '/');
    let segments = string_pieces(&seg_strings);
    let ghost all = char_views(segments@);
    let ghost start = char_views(parts@);
    assert(all.skip(0) == all);
    assert(all == crate::census::split_on(replace_backslashes(specifier@), '/'));
    assert(start == if base.value@.len() == 0 {
        Seq::<Seq<char>>::empty()
    } else {
        crate::census::split_on(base.value@, '/')
    });
    let mut i: usize = 0;
    while i < segments.len()
        invariant
            i <= segments.len(),
            all == char_views(segments@),
            walk_segments(start, all) == walk_segments(char_views(parts@), all.skip(i as int)),
            all == crate::census::split_on(replace_backslashes(specifier@), '/'),
            start == if base.value@.len() == 0 {
                Seq::<Seq<char>>::empty()
            } else {
                crate::census::split_on(base.value@, '/')
            },
            !(specifier@.len() > 0 && specifier@[0] == '/'),
        decreases segments.len() - i,
    {
        let seg = segments[i].as_slice();
        assert(seg@ == all[i as int]);
        assert(all.skip(i as int)[0] == all[i as int]);
        assert(all.skip(i as int).drop_first() == all.skip(i + 1));
        let dot = ['.'];
        let dots = ['.', '.'];
        assert(dot@ == seq!['.']);
        assert(dots@ == seq!['.', '.']);
        let ghost pv0 = char_views(parts@);
        let ghost cur = all.skip(i as int);
        assert(cur.len() > 0);
        if seg.len() == 0 || crate::text::seq_eq(seg, &dot) {
            assert(walk_segments(pv0, cur) == walk_segments(pv0, all.skip(i + 1)));
            assert(walk_segments(start, all) == walk_segments(char_views(parts@), all.skip(i + 1)));
        } else if crate::text::seq_eq(seg, &dots) {
            if parts.len() == 0 {
                return None;
            }
            let ghost old = char_views(parts@);
            parts.pop();
            assert(char_views(parts@) =~= old.drop_last());
            assert(walk_segments(pv0, cur) == walk_segments(pv0.drop_last(), all.skip(i + 1)));
            assert(walk_segments(start, all) == walk_segments(char_views(parts@), all.skip(i + 1)));
        } else if contains_char(seg, '\0') {
            return None;
        } else {
            let ghost old = char_views(parts@);
            let piece = slice_range(seg, 0, seg.len());
            let ghost pv = piece@;
            assert(pv =~= seg@);
            let ghost oldv = parts@;
            parts.push(piece);
            assert(parts@ == oldv.push(piece));
            assert(char_views(parts@) =~= old.push(pv));
            assert(walk_segments(pv0, cur) == walk_segments(pv0.push(seg@), all.skip(i + 1)));
            assert(walk_segments(start, all) == walk_segments(char_views(parts@), all.skip(i + 1)));
        }
        i += 1;
    }
    assert(all.skip(segments.len() as int) =~= Seq::<Seq<char>>::empty());
    if parts.len() == 0 {
        return None;
    }
    let joined = join_chars(&parts, "/");
    proof {
        reveal_strlit("/");
        assert("/"@ =~= seq!['/']);
    }
    let text = string_of(joined.as_slice());
    match RepositoryPath::parse(text.as_str()) {
        Ok(p) => Some(p),
        Err(_) => None,
    }
}

/// The number of leading `.` characters of `s`.
pub open spec fn leading_dots(s: Seq<char>) -> nat
    decreases s.len(),
{
    if s.len() > 0 && s[0] == '.' {
        1 + leading_dots(s.drop_first())
    } else {
        0
    }
}

/// The module a Python relative import names from one module of the
/// importing file: climb one package per extra leading dot, then append the
/// suffix.
pub open spec fn python_relative_name(
    module: Seq<char>,
    is_package: bool,
    dots: nat,
    suffix: Seq<char>,
) -> Option<Seq<char>> {
    let parts0 = crate::census::split_on(module, '.');
    let parts1 = if is_package {
        parts0
    } else {
        parts0.drop_last()
    };
    let climb: int = if dots >= 1 {
        dots - 1
    } else {
        0
    };
    let parts = if parts1.len() >= climb {
        parts1.take(parts1.len() - climb)
    } else {
        Seq::<Seq<char>>::empty()
    };
    if parts.len() == 0 && suffix.len() == 0 {
        None
    } else {
        let base = join_with(parts, seq!['.']);
        let qualified = if base.len() == 0 {
            suffix
        } else if suffix.len() == 0 {
            base
        } else {
            base + seq!['.'] + suffix
        };
        if qualified.len() > 0 {
            Some(qualified)
        } else {
            None
        }
    }
}

/// Whether the importing file is a package initializer.
pub open spec fn is_package_init(source_path: Seq<char>) -> bool {
    let name = crate::census::file_name(source_path);
    name == "__init__.py"@ || name == "__init__.pyi"@
}

/// The suffix of a relative specifier: after its leading dots, without
/// surrounding dots.
pub open spec fn relative_suffix(specifier: Seq<char>) -> Seq<char> {
    crate::text::trim_end_by(
        crate::text::trim_start_by(specifier.skip(leading_dots(specifier) as int), crate::text::in_set(seq!['.'])),
        crate::text::in_set(seq!['.']),
    )
}

pub proof fn lemma_leading_dots(s: Seq<char>)
    ensures
        leading_dots(s) <= s.len(),
        forall|k: int| 0 <= k < leading_dots(s) ==> s[k] == '.',
        leading_dots(s) < s.len() ==> s[leading_dots(s) as int] != '.',
    decreases s.len(),
{
    if s.len() > 0 && s[0] == '.' {
        lemma_leading_dots(s.drop_first());
        assert forall|k: int| 0 <= k < leading_dots(s) implies s[k] == '.' by {
            if k > 0 {
                assert(s[k] == s.drop_first()[k - 1]);
            }
        }
    }
}

fn python_relative_name_exec(
    module: &str,
    is_package: bool,
    dots: usize,
    suffix: &[char],
) -> (r: Option<String>)
    ensures
        match r {
            Some(q) => python_relative_name(module@, is_package, dots as nat, suffix@) == Some(q@),
            None => python_relative_name(module@, is_package, dots as nat, suffix@) is None,
        },
{
    let m = chars_of(module);
    let pieces = crate::census::split_chars(m.as_slice(), '.');
    let mut parts = string_pieces(&pieces);
    proof {
        crate::census::lemma_split_on_nonempty(module@, '.');
    }
    if !is_package {
        let ghost old = char_views(parts@);
        parts.pop();
        assert(char_views(parts@) =~= old.drop_last());
    }
    let climb: usize = if dots >= 1 { dots - 1 } else { 0 };
    if parts.len() >= climb {
        let keep = parts.len() - climb;
        let ghost old = char_views(parts@);
        parts.truncate(keep);
        assert(char_views(parts@) =~= old.take(keep as int));
    } else {
        parts = Vec::new();
        assert(char_views(parts@) =~= Seq::<Seq<char>>::empty());
    }
    if parts.len() == 0 && suffix.len() == 0 {
        return None;
    }
    let base = join_chars(&parts, ".");
    proof {
        reveal_strlit(".");
        assert("."@ =~= seq!['.']);
    }
    let qualified: Vec<char> = if base.len() == 0 {
        slice_range(suffix, 0, suffix.len())
    } else if suffix.len() == 0 {
        base
    } else {
        let mut q = base.clone();
        q.push('.');
        let ghost mid = q@;
        let mut k: usize = 0;
        while k < suffix.len()
            invariant
                k <= suffix.len(),
                q@ == mid + suffix@.take(k as int),
            decreases suffix.len() - k,
        {
            q.push(suffix[k]);
            k += 1;
            assert(q@ =~= mid + suffix@.take(k as int));
        }
        assert(suffix@.take(suffix@.len() as int) == suffix@);
        assert(q@ =~= base@ + seq!['.'] + suffix@);
        q
    };
    if qualified.len() > 0 {
        Some(string_of(qualified.as_slice()))
    } else {
        None
    }
}

/// The absolute module names a Python relative import (`.x`, `..y`) names
/// from the importing file, one per module name of that file; sorted and
/// without duplicates.
pub fn python_relative_module_names(
    source_path: &RepositoryPath,
    source_modules: Option<&Vec<String>>,
    specifier: &str,
) -> (r: Vec<String>)
    ensures
        strictly_sorted(string_views(r@)),
        forall|x: Seq<char>|
            string_views(r@).contains(x) <==> match source_modules {
                Some(ms) => exists|i: int|
                    0 <= i < ms@.len() && python_relative_name(
                        #[trigger] ms@[i]@,
                        is_package_init(source_path.value@),
                        leading_dots(specifier@),
                        relative_suffix(specifier@),
                    ) == Some(x),
                None => false,
            },
{
    let sc = chars_of(specifier);
    let mut dots: usize = 0;
    while dots < sc.len() && sc[dots] == '.'
        invariant
            dots <= sc.len(),
            forall|k: int| 0 <= k < dots ==> sc@[k] == '.',
        decreases sc.len() - dots,
    {
        dots += 1;
    }
    proof {
        lemma_leading_dots(sc@);
        let n = leading_dots(sc@);
        if dots < n {
            assert(sc@[dots as int] == '.');
        }
        if n < dots {
            assert(sc@[n as int] == '.');
        }
    }
    let after = slice_range(sc.as_slice(), dots, sc.len());
    let dot_set = ['.'];
    assert(dot_set@ == seq!['.']);
    let s0 = crate::text::trim_start_in(after.as_slice(), &dot_set);
    let rest = slice_range(after.as_slice(), s0, after.len());
    assert(rest@ == after@.skip(s0 as int));
    let e0 = crate::text::trim_end_in(rest.as_slice(), &dot_set);
    let suffix = slice_range(rest.as_slice(), 0, e0);
    assert(suffix@ == relative_suffix(specifier@));
    let p = chars_of(source_path.as_str());
    let name = crate::census::last_segment(p.as_slice(), '/');
    let is_package = chars_eq_str(name.as_slice(), "__init__.py") || chars_eq_str(
        name.as_slice(),
        "__init__.pyi",
    );
    let mut resolved: Vec<String> = Vec::new();
    match source_modules {
        None => {
        },
        Some(ms) => {
            let mut i: usize = 0;
            while i < ms.len()
                invariant
                    i <= ms.len(),
                    dots == leading_dots(specifier@),
                    suffix@ == relative_suffix(specifier@),
                    is_package == is_package_init(source_path.value@),
                    forall|x: Seq<char>|
                        string_views(resolved@).contains(x) <==> exists|k: int|
                            0 <= k < i && python_relative_name(
                                #[trigger] ms@[k]@,
                                is_package,
                                dots as nat,
                                suffix@,
                            ) == Some(x),
                decreases ms.len() - i,
            {
                let ghost old = string_views(resolved@);
                let ghost oldv = resolved@;
                match python_relative_name_exec(ms[i].as_str(), is_package, dots, suffix.as_slice()) {
                    Some(q) => {
                        let ghost qv = q@;
                        resolved.push(q);
                        assert(resolved@ == oldv.push(q));
                        assert(string_views(resolved@) =~= old.push(qv));
                        assert forall|x: Seq<char>| string_views(resolved@).contains(x) <==> exists|
                            k: int,
                        |
                            0 <= k < i + 1 && python_relative_name(
                                #[trigger] ms@[k]@,
                                is_package,
                                dots as nat,
                                suffix@,
                            ) == Some(x) by {
                            if string_views(resolved@).contains(x) {
                                let j = choose|j: int|
                                    0 <= j < string_views(resolved@).len() && string_views(
                                        resolved@,
                                    )[j] == x;
                                if j < old.len() {
                                    assert(old[j] == x);
                                    assert(old.contains(x));
                                } else {
                                    assert(python_relative_name(
                                        ms@[i as int]@,
                                        is_package,
                                        dots as nat,
                                        suffix@,
                                    ) == Some(x));
                                }
                            }
                            if exists|k: int|
                                0 <= k < i + 1 && python_relative_name(
                                    #[trigger] ms@[k]@,
                                    is_package,
                                    dots as nat,
                                    suffix@,
                                ) == Some(x) {
                                let k = choose|k: int|
                                    0 <= k < i + 1 && python_relative_name(
                                        #[trigger] ms@[k]@,
                                        is_package,
                                        dots as nat,
                                        suffix@,
                                    ) == Some(x);
                                if k < i {
                                    assert(old.contains(x));
                                    let j = choose|j: int| 0 <= j < old.len() && old[j] == x;
                                    assert(string_views(resolved@)[j] == x);
                                } else {
                                    assert(string_views(resolved@)[old.len() as int] == x);
                                }
                            }
                        }
                    },
                    None => {
                        assert forall|x: Seq<char>| string_views(resolved@).contains(x) <==> exists|
                            k: int,
                        |
                            0 <= k < i + 1 && python_relative_name(
                                #[trigger] ms@[k]@,
                                is_package,
                                dots as nat,
                                suffix@,
                            ) == Some(x) by {
                            if exists|k: int|
                                0 <= k < i + 1 && python_relative_name(
                                    #[trigger] ms@[k]@,
                                    is_package,
                                    dots as nat,
                                    suffix@,
                                ) == Some(x) {
                                let k = choose|k: int|
                                    0 <= k < i + 1 && python_relative_name(
                                        #[trigger] ms@[k]@,
                                        is_package,
                                        dots as nat,
                                        suffix@,
                                    ) == Some(x);
                                assert(k < i);
                            }
                        }
                    },
                }
                i += 1;
            }
        },
    }
    sorted_unique_strings(resolved)
}

} // verus!

