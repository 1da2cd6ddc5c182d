//! Repository-path and module-name rules behind the project import index.
use vstd::prelude::*;

use crate::model::{valid_repository_path, AnalysisUnitId, FactNodeKind, IrEndpoint, RepositoryPath};
use crate::text::{
    before_last, char_views, chars_eq_str, chars_of, has_where, in_set, is_prefix, join_chars,
    join_with, rfind_char, slice_range, string_of, trim_ws,
};

verus! {

/// A structural import target: a package or namespace of one analysis unit.
#[derive(Clone, Debug)]
pub struct StructureTarget {
    pub unit_id: AnalysisUnitId,
    pub kind: FactNodeKind,
    pub qualified_name: String,
}

impl StructureTarget {
    /// The Language IR endpoint of the target.
    pub fn endpoint(&self) -> (r: IrEndpoint)
        ensures
            r == (IrEndpoint::Structure {
                unit_id: self.unit_id,
                kind: self.kind,
                qualified_name: self.qualified_name,
            }),
    {
        IrEndpoint::Structure {
            unit_id: self.unit_id.duplicate(),
            kind: self.kind,
            qualified_name: self.qualified_name.clone(),
        }
    }
}

/// `prefix.name`, or whichever of the two is not empty.
pub open spec fn spec_qualify(prefix: Seq<char>, name: Seq<char>) -> Seq<char> {
    if prefix.len() == 0 {
        name
    } else if name.len() == 0 {
        prefix
    } else {
        prefix + seq!['.'] + name
    }
}

pub fn qualify(prefix: &str, name: &str) -> (r: String)
    ensures
        r@ == spec_qualify(prefix@, name@),
{
    let p = chars_of(prefix);
    let n = chars_of(name);
    if p.len() == 0 {
        return string_of(n.as_slice());
    }
    if n.len() == 0 {
        return string_of(p.as_slice());
    }
    let mut v = p.clone();
    v.push('.');
    let ghost mid = v@;
    let mut k: usize = 0;
    while k < n.len()
        invariant
            k <= n.len(),
            v@ == mid + n@.take(k as int),
        decreases n.len() - k,
    {
        v.push(n[k]);
        k += 1;
        assert(v@ =~= mid + n@.take(k as int));
    }
    assert(n@.take(n@.len() as int) == n@);
    assert(v@ =~= p@ + seq!['.'] + n@);
    string_of(v.as_slice())
}

/// The dotted prefixes of a module name, shortest first: `a`, `a.b`, ...
/// (the module itself only when `include_self`).
pub open spec fn spec_module_parent_names(module: Seq<char>, include_self: bool) -> Seq<Seq<char>> {
    let parts = crate::census::split_on(module, '.');
    let end: int = if include_self {
        parts.len() as int
    } else if parts.len() >= 1 {
        parts.len() - 1
    } else {
        0
    };
    Seq::new(end as nat, |k: int| join_with(parts.take(k + 1), seq!['.']))
}

pub fn module_parent_names(module: &str, include_self: bool) -> (r: Vec<String>)
    ensures
        crate::text::string_views(r@) == spec_module_parent_names(module@, include_self),
{
    let m = chars_of(module);
    let pieces = crate::census::split_chars(m.as_slice(), '.');
    let mut parts: Vec<Vec<char>> = Vec::new();
    let mut i: usize = 0;
    while i < pieces.len()
        invariant
            i <= pieces.len(),
            char_views(parts@) == crate::census::views_of_strings(pieces@).take(i as int),
        decreases pieces.len() - i,
    {
        let ghost old = char_views(parts@);
        let c = chars_of(pieces[i].as_str());
        assert(c@ == crate::census::views_of_strings(pieces@)[i as int]);
        let ghost oldv = parts@;
        parts.push(c);
        assert(parts@ == oldv.push(c));
        assert(char_views(parts@) =~= old.push(c@));
        assert(char_views(parts@) =~= crate::census::views_of_strings(pieces@).take(i + 1));
        i += 1;
    }
    assert(crate::census::views_of_strings(pieces@).take(pieces@.len() as int)
        == crate::census::views_of_strings(pieces@));
    let ghost all = char_views(parts@);
    let end: usize = if include_self {
        parts.len()
    } else if parts.len() >= 1 {
        parts.len() - 1
    } else {
        0
    };
    let mut out: Vec<String> = Vec::new();
    let mut prefix: Vec<Vec<char>> = Vec::new();
    let mut length: usize = 0;
    while length < end
        invariant
            length <= end <= parts.len(),
            all == char_views(parts@),
            char_views(prefix@) == all.take(length as int),
            crate::text::string_views(out@) == spec_module_parent_names(module@, include_self).take(
                length as int,
            ),
            all == crate::census::split_on(module@, '.'),
            end == spec_module_parent_names(module@, include_self).len(),
        decreases end - length,
    {
        let ghost oldp = char_views(prefix@);
        let piece = slice_range(parts[length].as_slice(), 0, parts[length].len());
        assert(piece@ == all[length as int]);
        let ghost oldpv = prefix@;
        prefix.push(piece);
        assert(prefix@ == oldpv.push(piece));
        assert(char_views(prefix@) =~= oldp.push(piece@));
        assert(char_views(prefix@) =~= all.take(length + 1));
        let joined = join_chars(&prefix, ".");
        proof {
            reveal_strlit(".");
            assert("."@ =~= seq!['.']);
        }
        let ghost oldo = crate::text::string_views(out@);
        let ghost oldov = out@;
        let js = string_of(joined.as_slice());
        assert(js@ == spec_module_parent_names(module@, include_self)[length as int]);
        out.push(js);
        assert(out@ == oldov.push(js));
        assert(crate::text::string_views(out@) =~= oldo.push(js@));
        assert(crate::text::string_views(out@) =~= spec_module_parent_names(module@, include_self).take(
            length + 1,
        ));
        length += 1;
    }
    assert(spec_module_parent_names(module@, include_self).take(end as int)
        == spec_module_parent_names(module@, include_self));
    out
}

/// The directory of a path: the part before its last `/` when that is a
/// valid path, else the repository root.
pub open spec fn spec_parent_path(path: Seq<char>) -> Seq<char> {
    let slash = in_set(seq!['/']);
    if has_where(path, slash) && valid_repository_path(before_last(path, slash)) {
        before_last(path, slash)
    } else {
        Seq::<char>::empty()
    }
}

pub fn parent_path(path: &RepositoryPath) -> (r: RepositoryPath)
    ensures
        r.value@ == spec_parent_path(path.value@),
{
    let p = chars_of(path.as_str());
    let ps = p.as_slice();
    match rfind_char(ps, '/') {
        Some(i) => {
            proof {
                let c = in_set(seq!['/']);
                crate::text::lemma_in_single(ps@[i as int], '/');
                assert forall|k: int| i < k < ps@.len() implies !#[trigger] c(ps@[k]) by {
                    crate::text::lemma_in_single(ps@[k], '/');
                }
                assert(crate::text::is_last_where(ps@, c, i as int));
                crate::text::lemma_last_where_unique(ps@, c, i as int);
            }
            let parent = string_of(vstd::slice::slice_subrange(ps, 0, i));
            assert(parent@ == ps@.take(i as int));
            match RepositoryPath::parse(parent.as_str()) {
                Ok(r) => r,
                Err(_) => RepositoryPath::root(),
            }
        },
        None => {
            proof {
                let c = in_set(seq!['/']);
                if has_where(ps@, c) {
                    let k = choose|k: int| 0 <= k < ps@.len() && #[trigger] c(ps@[k]);
                    crate::text::lemma_in_single(ps@[k], '/');
                    assert(ps@.contains('/'));
                }
            }
            RepositoryPath::root()
        },
    }
}

/// A path relative to `root`: all of it from the repository root, the part
/// after `root/` below `root`, and the empty text for `root` itself.
pub open spec fn spec_strip_repository_prefix(path: Seq<char>, root: Seq<char>) -> Option<Seq<char>> {
    if root.len() == 0 {
        Some(path)
    } else if is_prefix(root + seq!['/'], path) {
        Some(path.skip(root.len() as int + 1))
    } else if path == root {
        Some(Seq::<char>::empty())
    } else {
        None
    }
}

pub fn strip_repository_prefix(path: &RepositoryPath, root: &RepositoryPath) -> (r: Option<String>)
    ensures
        match r {
            Some(s) => spec_strip_repository_prefix(path.value@, root.value@) == Some(s@),
            None => spec_strip_repository_prefix(path.value@, root.value@) is None,
        },
{
    let p = chars_of(path.as_str());
    if root.is_root() {
        return Some(string_of(p.as_slice()));
    }
    let r = chars_of(root.as_str());
    let mut rs = r.clone();
    rs.push('/');
    assert(rs@ =~= r@ + seq!['/']);
    if crate::text::occurs_at_exec(p.as_slice(), rs.as_slice(), 0) {
        return Some(crate::text::string_of_range(p.as_slice(), rs.len(), p.len()));
    }
    if crate::text::seq_eq(p.as_slice(), r.as_slice()) {
        return Some(String::new());
    }
    None
}

/// `root/suffix` (or either alone when the other is empty), if valid.
pub open spec fn spec_joined_path(root: Seq<char>, suffix: Seq<char>) -> Seq<char> {
    if root.len() == 0 {
        suffix
    } else if suffix.len() == 0 {
        root
    } else {
        root + seq!['/'] + suffix
    }
}

pub fn join_repository_path(root: &RepositoryPath, suffix: &str) -> (r: Option<RepositoryPath>)
    ensures
        match r {
            Some(p) => p.value@ == spec_joined_path(root.value@, suffix@) && valid_repository_path(
                p.value@,
            ),
            None => !valid_repository_path(spec_joined_path(root.value@, suffix@)),
        },
{
    let r = chars_of(root.as_str());
    let s = chars_of(suffix);
    let value: Vec<char> = if r.len() == 0 {
        s
    } else if s.len() == 0 {
        r
    } else {
        let mut v = r.clone();
        v.push('/');
        let ghost mid = v@;
        let mut k: usize = 0;
        while k < s.len()
            invariant
                k <= s.len(),
                v@ == mid + s@.take(k as int),
            decreases s.len() - k,
        {
            v.push(s[k]);
            k += 1;
            assert(v@ =~= mid + s@.take(k as int));
        }
        assert(s@.take(s@.len() as int) == s@);
        assert(v@ =~= r@ + seq!['/'] + s@);
        v
    };
    let text = string_of(value.as_slice());
    match RepositoryPath::parse(text.as_str()) {
        Ok(p) => Some(p),
        Err(_) => None,
    }
}

// ---------------------------------------------------------------------------
// Package names from configuration files
// ---------------------------------------------------------------------------

/// The `module` path a `go.mod` line declares, ignoring `//` comments.
pub open spec fn go_module_of_line(line: Seq<char>) -> Option<Seq<char>> {
    let l = trim_ws(crate::text::before_sub(line, "//"@));
    if is_prefix("module"@, l) {
        let v = trim_ws(l.skip(6));
        if v.len() > 0 {
            Some(v)
        } else {
            None
        }
    } else {
        None
    }
}

/// The first declared module among `lines`.
pub open spec fn first_go_module(lines: Seq<Seq<char>>) -> Option<Seq<char>>
    decreases lines.len(),
{
    if lines.len() == 0 {
        None
    } else {
        match go_module_of_line(lines[0]) {
            Some(v) => Some(v),
            None => first_go_module(lines.drop_first()),
        }
    }
}

fn go_module_of_line_exec(line: &[char]) -> (r: Option<Vec<char>>)
    ensures
        match r {
            Some(v) => go_module_of_line(line@) == Some(v@),
            None => go_module_of_line(line@) is None,
        },
{
    let code = crate::text::before_sub_chars(line, "//");
    let l = crate::text::trim_chars(code.as_slice());
    if !crate::text::starts_with(l.as_slice(), "module") {
        return None;
    }
    proof {
        reveal_strlit("module");
    }
    let rest = slice_range(l.as_slice(), 6, l.len());
    let v = crate::text::trim_chars(rest.as_slice());
    if v.len() > 0 {
        Some(v)
    } else {
        None
    }
}

/// The module path of a `go.mod` text.
pub fn parse_go_module(source: &str) -> (r: Option<String>)
    ensures
        match r {
            Some(v) => first_go_module(crate::text::text_lines(source@)) == Some(v@),
            None => first_go_module(crate::text::text_lines(source@)) is None,
        },
{
    let s = chars_of(source);
    let lines = crate::text::lines_of(s.as_slice());
    let ghost all = char_views(lines@);
    assert(all.skip(0) == all);
    let mut i: usize = 0;
    while i < lines.len()
        invariant
            i <= lines.len(),
            all == char_views(lines@),
            all == crate::text::text_lines(source@),
            first_go_module(all) == first_go_module(all.skip(i as int)),
        decreases lines.len() - i,
    {
        assert(all.skip(i as int)[0] == all[i as int]);
        assert(all.skip(i as int).drop_first() == all.skip(i + 1));
        assert(lines@[i as int]@ == all[i as int]);
        if let Some(v) = go_module_of_line_exec(lines[i].as_slice()) {
            return Some(string_of(v.as_slice()));
        }
        i += 1;
    }
    None
}

/// A value without surrounding single and double quotes.
pub open spec fn trim_quotes(s: Seq<char>) -> Seq<char> {
    crate::text::trim_end_by(
        crate::text::trim_start_by(s, in_set(seq!['\'', '"'])),
        in_set(seq!['\'', '"']),
    )
}

fn trim_quotes_exec(s: &[char]) -> (r: Vec<char>)
    ensures
        r@ == trim_quotes(s@),
{
    let quotes = ['\'', '"'];
    assert(quotes@ == seq!['\'', '"']);
    let start = crate::text::trim_start_in(s, &quotes);
    let rest = slice_range(s, start, s.len());
    assert(rest@ == s@.skip(start as int));
    let end = crate::text::trim_end_in(rest.as_slice(), &quotes);
    slice_range(rest.as_slice(), 0, end)
}

/// A line without its `#` comment, trimmed.
pub open spec fn uncommented(line: Seq<char>) -> Seq<char> {
    trim_ws(crate::text::before_first(line, in_set(seq!['#'])))
}

fn uncommented_raw(line: &[char]) -> (r: Vec<char>)
    ensures
        r@ == crate::text::before_first(line@, in_set(seq!['#'])),
{
    let hash = ['#'];
    assert(hash@ == seq!['#']);
    match crate::text::find_first_in(line, &hash) {
        Some(i) => slice_range(line, 0, i),
        None => slice_range(line, 0, line.len()),
    }
}

/// The `name` of the `[package]` table among `lines`, reading on from a
/// state that is inside that table or not.
pub open spec fn toml_package_name(lines: Seq<Seq<char>>, in_package: bool) -> Option<Seq<char>>
    decreases lines.len(),
{
    if lines.len() == 0 {
        None
    } else {
        let line = uncommented(lines[0]);
        let rest = lines.drop_first();
        if line.len() > 0 && line[0] == '[' {
            toml_package_name(rest, line == "[package]"@)
        } else if !in_package {
            toml_package_name(rest, false)
        } else {
            match crate::text::split_once_sub(line, seq!['=']) {
                Some(kv) => if trim_ws(kv.0) == "name"@ && trim_quotes(trim_ws(kv.1)).len() > 0 {
                    Some(trim_quotes(trim_ws(kv.1)))
                } else {
                    toml_package_name(rest, true)
                },
                None => toml_package_name(rest, true),
            }
        }
    }
}

/// The package name of a `Cargo.toml` or `pyproject.toml` text.
pub fn parse_toml_package_name(source: &str) -> (r: Option<String>)
    ensures
        match r {
            Some(v) => toml_package_name(crate::text::text_lines(source@), false) == Some(v@),
            None => toml_package_name(crate::text::text_lines(source@), false) is None,
        },
{
    let s = chars_of(source);
    let lines = crate::text::lines_of(s.as_slice());
    let ghost all = char_views(lines@);
    assert(all.skip(0) == all);
    let mut in_package = false;
    let mut i: usize = 0;
    while i < lines.len()
        invariant
            i <= lines.len(),
            all == char_views(lines@),
            all == crate::text::text_lines(source@),
            toml_package_name(all, false) == toml_package_name(all.skip(i as int), in_package),
        decreases lines.len() - i,
    {
        assert(all.skip(i as int)[0] == all[i as int]);
        assert(all.skip(i as int).drop_first() == all.skip(i + 1));
        assert(lines@[i as int]@ == all[i as int]);
        let raw = uncommented_raw(lines[i].as_slice());
        let line = crate::text::trim_chars(raw.as_slice());
        if line.len() > 0 && line[0] == '[' {
            in_package = chars_eq_str(line.as_slice(), "[package]");
            i += 1;
            continue;
        }
        if !in_package {
            i += 1;
            continue;
        }
        let eq = ['='];
        assert(eq@ == seq!['=']);
        proof {
            reveal_strlit("=");
            assert("="@ =~= seq!['=']);
        }
        if let Some(kv) = crate::text::split_once_chars(line.as_slice(), "=") {
            let key = crate::text::trim_chars(kv.0.as_slice());
            if chars_eq_str(key.as_slice(), "name") {
                let value = crate::text::trim_chars(kv.1.as_slice());
                let name = trim_quotes_exec(value.as_slice());
                if name.len() > 0 {
                    return Some(string_of(name.as_slice()));
                }
            }
        }
        i += 1;
    }
    None
}

/// The top-level `name:` value a YAML line gives, if any.
pub open spec fn yaml_name_of_line(line: Seq<char>) -> Option<Seq<char>> {
    if line.len() > 0 && crate::text::unicode_white_space(line[0]) {
        None
    } else {
        match crate::text::split_once_sub(
            crate::text::before_first(line, in_set(seq!['#'])),
            seq![':'],
        ) {
            Some(kv) => if trim_ws(kv.0) == "name"@ && trim_quotes(trim_ws(kv.1)).len() > 0 {
                Some(trim_quotes(trim_ws(kv.1)))
            } else {
                None
            },
            None => None,
        }
    }
}

pub open spec fn first_yaml_name(lines: Seq<Seq<char>>) -> Option<Seq<char>>
    decreases lines.len(),
{
    if lines.len() == 0 {
        None
    } else {
        match yaml_name_of_line(lines[0]) {
            Some(v) => Some(v),
            None => first_yaml_name(lines.drop_first()),
        }
    }
}

fn yaml_name_of_line_exec(line: &[char]) -> (r: Option<Vec<char>>)
    ensures
        match r {
            Some(v) => yaml_name_of_line(line@) == Some(v@),
            None => yaml_name_of_line(line@) is None,
        },
{
    if line.len() > 0 && crate::text::char_is_whitespace(line[0]) {
        return None;
    }
    let raw = uncommented_raw(line);
    proof {
        reveal_strlit(":");
        assert(":"@ =~= seq![':']);
    }
    let Some(kv) = crate::text::split_once_chars(raw.as_slice(), ":") else {
        return None;
    };
    let key = crate::text::trim_chars(kv.0.as_slice());
    if !chars_eq_str(key.as_slice(), "name") {
        return None;
    }
    let value = crate::text::trim_chars(kv.1.as_slice());
    let name = trim_quotes_exec(value.as_slice());
    if name.len() > 0 {
        Some(name)
    } else {
        None
    }
}

/// The top-level `name` of a `pubspec.yaml` text.
pub fn parse_yaml_top_level_name(source: &str) -> (r: Option<String>)
    ensures
        match r {
            Some(v) => first_yaml_name(crate::text::text_lines(source@)) == Some(v@),
            None => first_yaml_name(crate::text::text_lines(source@)) is None,
        },
{
    let s = chars_of(source);
    let lines = crate::text::lines_of(s.as_slice());
    let ghost all = char_views(lines@);
    assert(all.skip(0) == all);
    let mut i: usize = 0;
    while i < lines.len()
        invariant
            i <= lines.len(),
            all == char_views(lines@),
            all == crate::text::text_lines(source@),
            first_yaml_name(all) == first_yaml_name(all.skip(i as int)),
        decreases lines.len() - i,
    {
        assert(all.skip(i as int)[0] == all[i as int]);
        assert(all.skip(i as int).drop_first() == all.skip(i + 1));
        assert(lines@[i as int]@ == all[i as int]);
        if let Some(v) = yaml_name_of_line_exec(lines[i].as_slice()) {
            return Some(string_of(v.as_slice()));
        }
        i += 1;
    }
    None
}

/// Sorts and de-duplicates the values of every entry of an index.
pub fn canonicalize_values(map: &mut Vec<(String, Vec<String>)>)
    ensures
        final(map)@.len() == old(map)@.len(),
        forall|i: int|
            0 <= i < final(map)@.len() ==> (#[trigger] final(map)@[i]).0 == old(map)@[i].0
                && crate::text::strictly_sorted(crate::text::string_views(final(map)@[i].1@))
                && forall|x: Seq<char>|
                crate::text::string_views(final(map)@[i].1@).contains(x)
                    <==> crate::text::string_views(old(map)@[i].1@).contains(x),
{
    let ghost before = map@;
    let mut out: Vec<(String, Vec<String>)> = Vec::new();
    let mut i: usize = 0;
    while i < map.len()
        invariant
            i <= map.len(),
            map@ == before,
            out@.len() == i,
            forall|k: int|
                0 <= k < i ==> (#[trigger] out@[k]).0 == before[k].0
                    && crate::text::strictly_sorted(crate::text::string_views(out@[k].1@))
                    && forall|x: Seq<char>|
                    crate::text::string_views(out@[k].1@).contains(x)
                        <==> crate::text::string_views(before[k].1@).contains(x),
        decreases map.len() - i,
    {
        let key = map[i].0.clone();
        let values = map[i].1.clone();
        assert(values@ == before[i as int].1@);
        let sorted = sorted_unique_values(values);
        let ghost old_out = out@;
        out.push((key, sorted));
        assert forall|k: int| 0 <= k < i + 1 implies (#[trigger] out@[k]).0 == before[k].0
            && crate::text::strictly_sorted(crate::text::string_views(out@[k].1@)) && forall|
            x: Seq<char>,
        |
            crate::text::string_views(out@[k].1@).contains(x)
                <==> crate::text::string_views(before[k].1@).contains(x) by {
            if k < i {
                assert(out@[k] == old_out[k]);
            }
        }
        i += 1;
    }
    *map = out;
}

fn sorted_unique_values(values: Vec<String>) -> (r: Vec<String>)
    ensures
        crate::text::strictly_sorted(crate::text::string_views(r@)),
        forall|x: Seq<char>|
            crate::text::string_views(r@).contains(x) <==> crate::text::string_views(
                values@,
            ).contains(x),
{
    crate::text::sorted_unique_strings(values)
}


// ---------------------------------------------------------------------------
// Module names of source files
// ---------------------------------------------------------------------------

/// The stem of a path's file name: the part before its first `.`.
pub open spec fn spec_file_stem(path: Seq<char>) -> Seq<char> {
    crate::text::before_first(crate::census::file_name(path), in_set(seq!['.']))
}

/// The stem of the file name of `path`; every path has one.
pub fn file_stem(path: &RepositoryPath) -> (r: Option<String>)
    ensures
        match r {
            Some(s) => s@ == spec_file_stem(path.value@),
            None => false,
        },
{
    let p = chars_of(path.as_str());
    let name = crate::census::last_segment(p.as_slice(), '/');
    match crate::text::find_char(name.as_slice(), '.') {
        Some(i) => {
            proof {
                let c = in_set(seq!['.']);
                crate::text::lemma_in_single(name@[i as int], '.');
                assert forall|k: int| 0 <= k < i implies !#[trigger] c(name@[k]) by {
                    crate::text::lemma_in_single(name@[k], '.');
                }
                crate::text::lemma_first_where_unique(name@, c, i as int);
            }
            Some(crate::text::string_of_range(name.as_slice(), 0, i))
        },
        None => {
            proof {
                let c = in_set(seq!['.']);
                assert forall|k: int| 0 <= k < name@.len() implies !#[trigger] c(name@[k]) by {
                    crate::text::lemma_in_single(name@[k], '.');
                }
            }
            Some(string_of(name.as_slice()))
        },
    }
}

/// `s` without the suffix `t`, when it ends with it.
pub open spec fn strip_suffix(s: Seq<char>, t: Seq<char>) -> Option<Seq<char>> {
    if crate::text::is_suffix(t, s) {
        Some(s.take(s.len() - t.len()))
    } else {
        None
    }
}

/// `s` without the prefix `t`, when it starts with it.
pub open spec fn strip_prefix(s: Seq<char>, t: Seq<char>) -> Option<Seq<char>> {
    if is_prefix(t, s) {
        Some(s.skip(t.len() as int))
    } else {
        None
    }
}

fn strip_suffix_chars(s: &[char], t: &str) -> (r: Option<Vec<char>>)
    ensures
        match r {
            Some(v) => strip_suffix(s@, t@) == Some(v@),
            None => strip_suffix(s@, t@) is None,
        },
{
    let tc = chars_of(t);
    if crate::text::ends_with(s, t) {
        Some(slice_range(s, 0, s.len() - tc.len()))
    } else {
        None
    }
}

fn strip_prefix_chars(s: &[char], t: &str) -> (r: Option<Vec<char>>)
    ensures
        match r {
            Some(v) => strip_prefix(s@, t@) == Some(v@),
            None => strip_prefix(s@, t@) is None,
        },
{
    let tc = chars_of(t);
    if crate::text::starts_with(s, t) {
        let v = slice_range(s, tc.len(), s.len());
        assert(v@ =~= s@.skip(t@.len() as int));
        Some(v)
    } else {
        None
    }
}

/// A Python file's path below its unit root without the `.py` or `.pyi`
/// extension and without a trailing `/__init__`.
pub open spec fn python_module_path(root: Seq<char>, path: Seq<char>) -> Option<Seq<char>> {
    match spec_strip_repository_prefix(path, root) {
        None => None,
        Some(relative) => {
            let without_extension = match strip_suffix(relative, ".py"@) {
                Some(w) => Some(w),
                None => strip_suffix(relative, ".pyi"@),
            };
            match without_extension {
                None => None,
                Some(w) => match strip_suffix(w, "/__init__"@) {
                    Some(v) => Some(v),
                    None => Some(w),
                },
            }
        },
    }
}

/// `x` is a dotted module name of the Python file `path` below `root`: the
/// whole module path, or the part below a leading `src/`.
pub open spec fn is_python_module_name(root: Seq<char>, path: Seq<char>, x: Seq<char>) -> bool {
    match python_module_path(root, path) {
        None => false,
        Some(m) => {
            ||| (m.len() > 0 && m != "__init__"@ && x == crate::text::replace_char(m, '/', '.'))
            ||| match strip_prefix(m, "src/"@) {
                Some(below) => below.len() > 0 && x == crate::text::replace_char(below, '/', '.'),
                None => false,
            }
        },
    }
}

/// The dotted module names of a Python file, in increasing order.
pub fn python_module_names(root: &RepositoryPath, path: &RepositoryPath) -> (r: Vec<String>)
    ensures
        crate::text::strictly_sorted(crate::text::string_views(r@)),
        forall|x: Seq<char>|
            crate::text::string_views(r@).contains(x) <==> is_python_module_name(
                root.value@,
                path.value@,
                x,
            ),
{
    let mut names: Vec<String> = Vec::new();
    let relative = match strip_repository_prefix(path, root) {
        None => {
            assert(crate::text::string_views(names@) =~= Seq::<Seq<char>>::empty());
            return names;
        },
        Some(r) => r,
    };
    let rc = chars_of(relative.as_str());
    let without_extension = match strip_suffix_chars(rc.as_slice(), ".py") {
        Some(w) => w,
        None => match strip_suffix_chars(rc.as_slice(), ".pyi") {
            Some(w) => w,
            None => {
                assert(crate::text::string_views(names@) =~= Seq::<Seq<char>>::empty());
                return names;
            },
        },
    };
    let without_init = match strip_suffix_chars(without_extension.as_slice(), "/__init__") {
        Some(v) => v,
        None => without_extension,
    };
    let ghost m = without_init@;
    assert(python_module_path(root.value@, path.value@) == Some(m));
    let whole = without_init.len() > 0 && !crate::text::chars_eq_str(without_init.as_slice(), "__init__");
    if whole {
        let dotted = crate::text::replace_char_str(string_of(without_init.as_slice()).as_str(), '/', '.');
        names.push(dotted);
    }
    let below = strip_prefix_chars(without_init.as_slice(), "src/");
    let mut extra = false;
    match below {
        Some(b) => {
            if b.len() > 0 {
                let dotted = crate::text::replace_char_str(string_of(b.as_slice()).as_str(), '/', '.');
                names.push(dotted);
                extra = true;
            }
        },
        None => {},
    }
    proof {
        assert forall|x: Seq<char>|
            crate::text::string_views(names@).contains(x) <==> is_python_module_name(root.value@, path.value@, x) by {
            if crate::text::string_views(names@).contains(x) {
                let k = choose|k: int| 0 <= k < crate::text::string_views(names@).len() && crate::text::string_views(names@)[k] == x;
                assert(crate::text::string_views(names@)[k] == names@[k]@);
            }
            if is_python_module_name(root.value@, path.value@, x) {
                if m.len() > 0 && m != "__init__"@ && x == crate::text::replace_char(m, '/', '.') {
                    assert(crate::text::string_views(names@)[0] == names@[0]@);
                } else {
                    let k = names@.len() - 1;
                    assert(crate::text::string_views(names@)[k] == names@[k]@);
                }
            }
        }
    }
    crate::text::sorted_unique_strings(names)
}

/// The Rust module path of a file below its unit's `src/`: `crate` for the
/// crate roots, `crate::a::b` for `src/a/b.rs` or `src/a/b/mod.rs`.
pub open spec fn spec_rust_module_name(root: Seq<char>, path: Seq<char>) -> Option<Seq<char>> {
    match spec_strip_repository_prefix(path, root) {
        None => None,
        Some(relative) => match strip_prefix(relative, "src/"@) {
            None => None,
            Some(source) => match strip_suffix(source, ".rs"@) {
                None => None,
                Some(w) => if w == "lib"@ || w == "main"@ {
                    Some("crate"@)
                } else {
                    let stem = match strip_suffix(w, "/mod"@) {
                        Some(v) => v,
                        None => w,
                    };
                    let module = join_with(crate::census::split_on(stem, '/'), "::"@);
                    if module.len() > 0 {
                        Some("crate::"@ + module)
                    } else {
                        None
                    }
                },
            },
        },
    }
}

pub fn rust_module_name(root: &RepositoryPath, path: &RepositoryPath) -> (r: Option<String>)
    ensures
        match r {
            Some(s) => spec_rust_module_name(root.value@, path.value@) == Some(s@),
            None => spec_rust_module_name(root.value@, path.value@) is None,
        },
{
    let relative = strip_repository_prefix(path, root)?;
    let rc = chars_of(relative.as_str());
    let source = strip_prefix_chars(rc.as_slice(), "src/")?;
    let w = strip_suffix_chars(source.as_slice(), ".rs")?;
    if crate::text::chars_eq_str(w.as_slice(), "lib") || crate::text::chars_eq_str(w.as_slice(), "main") {
        return Some(crate::text::owned("crate"));
    }
    let stem = match strip_suffix_chars(w.as_slice(), "/mod") {
        Some(v) => v,
        None => w,
    };
    let parts = crate::census::split_chars(stem.as_slice(), '/');
    let pieces = crate::imports::string_pieces(&parts);
    let module = join_chars(&pieces, "::");
    if module.len() > 0 {
        let joined = string_of(module.as_slice());
        Some(crate::text::concat("crate::", joined.as_str()))
    } else {
        None
    }
}


/// `paths` holds the `.py` implementation of the stub stem `stem`.
pub open spec fn has_implementation(paths: Seq<RepositoryPath>, stem: Seq<char>) -> bool {
    exists|q: int| 0 <= q < paths.len() && #[trigger] strip_suffix(paths[q].value@, ".py"@) == Some(stem)
}

/// A path stays unless it is a `.pyi` stub whose implementation is listed too.
pub open spec fn keeps_path(paths: Seq<RepositoryPath>) -> spec_fn(RepositoryPath) -> bool {
    |p: RepositoryPath|
        match strip_suffix(p.value@, ".pyi"@) {
            Some(stem) => !has_implementation(paths, stem),
            None => true,
        }
}

fn lists_implementation(paths: &[RepositoryPath], stem: &[char]) -> (r: bool)
    ensures
        r == has_implementation(paths@, stem@),
{
    let mut q: usize = 0;
    while q < paths.len()
        invariant
            q <= paths.len(),
            forall|k: int| 0 <= k < q ==> #[trigger] strip_suffix(paths@[k].value@, ".py"@) != Some(stem@),
        decreases paths.len() - q,
    {
        let pc = chars_of(paths[q].as_str());
        match strip_suffix_chars(pc.as_slice(), ".py") {
            Some(s) => {
                if crate::text::seq_eq(s.as_slice(), stem) {
                    return true;
                }
            },
            None => {},
        }
        q += 1;
    }
    false
}

/// The paths of one module without stubs whose implementation is listed.
fn implementation_files(paths: &[RepositoryPath]) -> (r: Vec<RepositoryPath>)
    ensures
        r@ == paths@.filter(keeps_path(paths@)),
{
    let mut out: Vec<RepositoryPath> = Vec::new();
    let mut k: usize = 0;
    while k < paths.len()
        invariant
            k <= paths.len(),
            out@ == paths@.take(k as int).filter(keeps_path(paths@)),
        decreases paths.len() - k,
    {
        let pc = chars_of(paths[k].as_str());
        let keep = match strip_suffix_chars(pc.as_slice(), ".pyi") {
            Some(stem) => !lists_implementation(paths, stem.as_slice()),
            None => true,
        };
        assert(keep == keeps_path(paths@)(paths@[k as int]));
        assert(paths@.take(k + 1) =~= paths@.take(k as int).push(paths@[k as int]));
        proof {
            paths@.take(k as int).lemma_filter_push(paths@[k as int], keeps_path(paths@));
        }
        if keep {
            out.push(paths[k].duplicate());
        }
        assert(out@ == paths@.take(k + 1).filter(keeps_path(paths@)));
        k += 1;
    }
    assert(paths@.take(paths@.len() as int) =~= paths@);
    out
}

/// Drops a `.pyi` stub from every module that also lists its `.py`
/// implementation; keys and the order of the other paths are kept.
pub fn prefer_python_implementation_files(modules: &mut Vec<crate::resolver::KeyedPaths>)
    ensures
        final(modules)@.len() == old(modules)@.len(),
        forall|i: int|
            0 <= i < old(modules)@.len() ==> (#[trigger] final(modules)@[i]).key@ == old(modules)@[i].key@
                && final(modules)@[i].paths@ == old(modules)@[i].paths@.filter(
                keeps_path(old(modules)@[i].paths@),
            ),
{
    let ghost before = modules@;
    let mut i: usize = 0;
    while i < modules.len()
        invariant
            i <= modules.len(),
            modules@.len() == before.len(),
            forall|j: int|
                i <= j < before.len() ==> #[trigger] modules@[j] == before[j],
            forall|j: int|
                0 <= j < i ==> (#[trigger] modules@[j]).key@ == before[j].key@ && modules@[j].paths@
                    == before[j].paths@.filter(keeps_path(before[j].paths@)),
        decreases modules.len() - i,
    {
        let kept = implementation_files(modules[i].paths.as_slice());
        let key = modules[i].key.clone();
        modules.set(i, crate::resolver::KeyedPaths { key, paths: kept });
        i += 1;
    }
}

} // verus!

