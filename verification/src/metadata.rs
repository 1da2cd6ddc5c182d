//! Source-backed declaration metadata: the callable header a definition is
//! displayed with, and the accessibility its language gives it.
use vstd::prelude::*;

use crate::model::{FactNodeKind, Visibility};
use crate::text::{
    chars_of, has_word_token, is_prefix, is_suffix, is_ws_class, occurs_at_exec, slice_range, string_of, trim_end_by, trim_start_by, trim_end_whitespace, trim_start_whitespace, unicode_alphanumeric, word_token_in,
};

verus! {

/// Scans `s` from `i` with nesting depth `depth`: an `open` character nests,
/// a `close` character un-nests. The result is the index just past the
/// `close` that brings the depth back to zero; `None` when a `close` comes at
/// depth zero or the text ends first.
pub open spec fn scan_balanced(s: Seq<char>, open: char, close: char, i: int, depth: nat) -> Option<
    int,
>
    decreases s.len() - i,
{
    if i < 0 || i >= s.len() {
        None
    } else if s[i] == open {
        scan_balanced(s, open, close, i + 1, depth + 1)
    } else if s[i] == close {
        if depth == 0 {
            None
        } else if depth == 1 {
            Some(i + 1)
        } else {
            scan_balanced(s, open, close, i + 1, (depth - 1) as nat)
        }
    } else {
        scan_balanced(s, open, close, i + 1, depth)
    }
}

pub proof fn lemma_scan_balanced_bounds(s: Seq<char>, open: char, close: char, i: int, depth: nat)
    ensures
        scan_balanced(s, open, close, i, depth) matches Some(j) ==> i < j <= s.len(),
    decreases s.len() - i,
{
    if 0 <= i < s.len() {
        if s[i] == open {
            lemma_scan_balanced_bounds(s, open, close, i + 1, depth + 1);
        } else if s[i] == close {
            if depth > 1 {
                lemma_scan_balanced_bounds(s, open, close, i + 1, (depth - 1) as nat);
            }
        } else {
            lemma_scan_balanced_bounds(s, open, close, i + 1, depth);
        }
    }
}

/// What is left of `value` after a leading balanced group that starts with
/// `prefix`; `None` when `value` does not start with `prefix` or the group
/// never closes.
pub open spec fn spec_strip_balanced_prefix(
    value: Seq<char>,
    prefix: Seq<char>,
    open: char,
    close: char,
) -> Option<Seq<char>> {
    if !is_prefix(prefix, value) {
        None
    } else {
        match scan_balanced(value, open, close, 0, 0) {
            Some(j) => Some(value.skip(j)),
            None => None,
        }
    }
}

fn scan_balanced_exec(s: &[char], open: char, close: char, start: usize) -> (r: Option<usize>)
    requires
        start <= s.len(),
    ensures
        match r {
            Some(j) => scan_balanced(s@, open, close, start as int, 0) == Some(j as int),
            None => scan_balanced(s@, open, close, start as int, 0) is None,
        },
{
    let mut depth: usize = 0;
    let mut i: usize = start;
    while i < s.len()
        invariant
            start <= i <= s.len(),
            depth <= i - start,
            scan_balanced(s@, open, close, start as int, 0) == scan_balanced(
                s@,
                open,
                close,
                i as int,
                depth as nat,
            ),
        decreases s.len() - i,
    {
        if s[i] == open {
            depth += 1;
        } else if s[i] == close {
            if depth == 0 {
                return None;
            }
            depth -= 1;
            if depth == 0 {
                return Some(i + 1);
            }
        }
        i += 1;
    }
    None
}

pub fn strip_balanced_prefix(value: &str, prefix: &str, open: char, close: char) -> (r: Option<
    String,
>)
    ensures
        match r {
            Some(rest) => spec_strip_balanced_prefix(value@, prefix@, open, close) == Some(rest@),
            None => spec_strip_balanced_prefix(value@, prefix@, open, close) is None,
        },
{
    let v = chars_of(value);
    let p = chars_of(prefix);
    match strip_balanced_chars(v.as_slice(), p.as_slice(), open, close) {
        Some(rest) => Some(string_of(rest.as_slice())),
        None => None,
    }
}

fn strip_balanced_chars(v: &[char], p: &[char], open: char, close: char) -> (r: Option<Vec<char>>)
    ensures
        match r {
            Some(rest) => spec_strip_balanced_prefix(v@, p@, open, close) == Some(rest@),
            None => spec_strip_balanced_prefix(v@, p@, open, close) is None,
        },
{
    if !occurs_at_exec(v, p, 0) {
        return None;
    }
    match scan_balanced_exec(v, open, close, 0) {
        Some(j) => {
            proof {
                lemma_scan_balanced_bounds(v@, open, close, 0, 0);
            }
            Some(slice_range(v, j, v.len()))
        },
        None => None,
    }
}

/// A character that continues an `@annotation` name: `_`, `.` or alphanumeric.
pub open spec fn is_annotation_char(c: char) -> bool {
    c == '_' || c == '.' || unicode_alphanumeric(c)
}

/// The length of the leading run of annotation-name characters of `s`.
pub open spec fn annotation_name_len(s: Seq<char>) -> int
    decreases s.len(),
{
    if s.len() > 0 && is_annotation_char(s[0]) {
        1 + annotation_name_len(s.drop_first())
    } else {
        0
    }
}

pub proof fn lemma_annotation_name_len(s: Seq<char>)
    ensures
        0 <= annotation_name_len(s) <= s.len(),
        forall|k: int| 0 <= k < annotation_name_len(s) ==> is_annotation_char(#[trigger] s[k]),
        annotation_name_len(s) < s.len() ==> !is_annotation_char(s[annotation_name_len(s)]),
    decreases s.len(),
{
    if s.len() > 0 && is_annotation_char(s[0]) {
        lemma_annotation_name_len(s.drop_first());
        assert forall|k: int| 0 <= k < annotation_name_len(s) implies is_annotation_char(
            #[trigger] s[k],
        ) by {
            if k > 0 {
                assert(s[k] == s.drop_first()[k - 1]);
            }
        }
    }
}

/// One step of attribute stripping on an already trimmed text: the rest after
/// a leading `#[...]`, `[...]` or `@name(...)`/`@name`, if there is one.
pub open spec fn attribute_step(v: Seq<char>) -> Option<Seq<char>> {
    if spec_strip_balanced_prefix(v, seq!['#', '['], '[', ']') is Some {
        spec_strip_balanced_prefix(v, seq!['#', '['], '[', ']')
    } else if spec_strip_balanced_prefix(v, seq!['['], '[', ']') is Some {
        spec_strip_balanced_prefix(v, seq!['['], '[', ']')
    } else if v.len() > 0 && v[0] == '@' {
        let after_at = v.drop_first();
        let name_end = annotation_name_len(after_at);
        if name_end == 0 {
            None
        } else {
            let rest = trim_start_by(after_at.skip(name_end), is_ws_class());
            if rest.len() > 0 && rest[0] == '(' {
                spec_strip_balanced_prefix(rest, seq!['('], '(', ')')
            } else {
                Some(rest)
            }
        }
    } else {
        None
    }
}

pub proof fn lemma_attribute_step_shrinks(v: Seq<char>)
    ensures
        attribute_step(v) matches Some(rest) ==> rest.len() < v.len(),
{
    lemma_scan_balanced_bounds(v, '[', ']', 0, 0);
    if v.len() > 0 && v[0] == '@' {
        let after_at = v.drop_first();
        lemma_annotation_name_len(after_at);
        let name_end = annotation_name_len(after_at);
        let rest = trim_start_by(after_at.skip(name_end), is_ws_class());
        crate::text::lemma_trim_start_len(after_at.skip(name_end), is_ws_class());
        lemma_scan_balanced_bounds(rest, '(', ')', 0, 0);
    }
}

/// Declaration text without its leading attributes and annotations
/// (`#[..]`, `[..]`, `@name(..)`), and without the whitespace before them.
pub open spec fn spec_strip_leading_attributes(value: Seq<char>) -> Seq<char>
    decreases value.len(),
{
    let v = trim_start_by(value, is_ws_class());
    proof {
        crate::text::lemma_trim_start_len(value, is_ws_class());
        lemma_attribute_step_shrinks(v);
    }
    match attribute_step(v) {
        Some(rest) => spec_strip_leading_attributes(rest),
        None => v,
    }
}

fn annotation_name_end(s: &[char]) -> (r: usize)
    ensures
        r == annotation_name_len(s@),
{
    proof {
        lemma_annotation_name_len(s@);
    }
    let mut i: usize = 0;
    while i < s.len() && (s[i] == '_' || s[i] == '.' || crate::text::char_is_alphanumeric(s[i]))
        invariant
            i <= s.len(),
            forall|k: int| 0 <= k < i ==> is_annotation_char(#[trigger] s@[k]),
            0 <= annotation_name_len(s@) <= s@.len(),
            forall|k: int| 0 <= k < annotation_name_len(s@) ==> is_annotation_char(#[trigger] s@[k]),
            annotation_name_len(s@) < s@.len() ==> !is_annotation_char(s@[annotation_name_len(s@)]),
        decreases s.len() - i,
    {
        i += 1;
    }
    proof {
        let n = annotation_name_len(s@);
        if i < n {
            assert(is_annotation_char(s@[i as int]));
        }
        if n < i {
            assert(is_annotation_char(s@[n]));
        }
    }
    i
}

fn attribute_step_exec(v: &[char]) -> (r: Option<Vec<char>>)
    ensures
        match r {
            Some(rest) => attribute_step(v@) == Some(rest@),
            None => attribute_step(v@) is None,
        },
{
    let hash_open = ['#', '['];
    assert(hash_open@ == seq!['#', '[']);
    if let Some(rest) = strip_balanced_chars(v, &hash_open, '[', ']') {
        return Some(rest);
    }
    let bracket = ['['];
    assert(bracket@ == seq!['[']);
    if let Some(rest) = strip_balanced_chars(v, &bracket, '[', ']') {
        return Some(rest);
    }
    if v.len() > 0 && v[0] == '@' {
        let after_at = vstd::slice::slice_subrange(v, 1, v.len());
        assert(after_at@ == v@.drop_first());
        let name_end = annotation_name_end(after_at);
        if name_end == 0 {
            return None;
        }
        proof {
            lemma_annotation_name_len(after_at@);
        }
        let tail = vstd::slice::slice_subrange(after_at, name_end, after_at.len());
        assert(tail@ == after_at@.skip(name_end as int));
        let start = trim_start_whitespace(tail);
        let rest = slice_range(tail, start, tail.len());
        assert(rest@ == tail@.skip(start as int));
        if rest.len() > 0 && rest[0] == '(' {
            let paren = ['('];
            assert(paren@ == seq!['(']);
            return strip_balanced_chars(rest.as_slice(), &paren, '(', ')');
        }
        return Some(rest);
    }
    None
}

pub fn strip_leading_attributes(value: &str) -> (r: String)
    ensures
        r@ == spec_strip_leading_attributes(value@),
{
    let chars = chars_of(value);
    let mut cur: Vec<char> = chars;
    loop
        invariant
            spec_strip_leading_attributes(cur@) == spec_strip_leading_attributes(value@),
        decreases cur@.len(),
    {
        let start = trim_start_whitespace(cur.as_slice());
        let v = slice_range(cur.as_slice(), start, cur.len());
        assert(v@ == trim_start_by(cur@, is_ws_class()));
        proof {
            crate::text::lemma_trim_start_len(cur@, is_ws_class());
            lemma_attribute_step_shrinks(v@);
        }
        match attribute_step_exec(v.as_slice()) {
            Some(rest) => {
                cur = rest;
            },
            None => {
                return string_of(v.as_slice());
            },
        }
    }
}

/// Whether `expected` is one of the identifier-like words of `value` (the
/// pieces between characters that are neither `_` nor alphanumeric).
pub fn has_word(value: &str, expected: &str) -> (r: bool)
    ensures
        r == has_word_token(value@, expected@),
{
    let v = chars_of(value);
    let e = chars_of(expected);
    word_token_in(v.as_slice(), e.as_slice())
}

/// A Python "dunder" name such as `__init__`.
pub open spec fn spec_is_python_dunder(name: Seq<char>) -> bool {
    name.len() > 4 && is_prefix(seq!['_', '_'], name) && is_suffix(seq!['_', '_'], name)
}

/// Whether `name` is a dunder name. Counting characters here agrees with
/// counting bytes: a name that starts and ends with `__` has more than four
/// bytes exactly when it has more than four characters.
pub fn is_python_dunder(name: &str) -> (r: bool)
    ensures
        r == spec_is_python_dunder(name@),
{
    let n = chars_of(name);
    let n = n.as_slice();
    proof {
        reveal_strlit("__");
        assert("__"@ =~= seq!['_', '_']);
    }
    n.len() > 4 && crate::text::starts_with(n, "__") && crate::text::ends_with(n, "__")
}

/// `split_whitespace().join(" ")`.
pub fn normalize_whitespace(value: &str) -> (r: String)
    ensures
        r@ == crate::text::collapse_whitespace(value@),
{
    crate::text::collapse_whitespace_str(value)
}

/// A `:` at `a` that is not part of a `::`.
pub open spec fn lone_colon_at(s: Seq<char>, a: int) -> bool {
    &&& 0 <= a < s.len()
    &&& s[a] == ':'
    &&& (a == 0 || s[a - 1] != ':')
    &&& (a + 1 == s.len() || s[a + 1] != ':')
}

/// The first lone `:` of `s` at or after `from`.
pub open spec fn is_first_lone_colon(s: Seq<char>, from: int, a: int) -> bool {
    from <= a && lone_colon_at(s, a) && forall|b: int| from <= b < a ==> !#[trigger] lone_colon_at(s, b)
}

/// A constructor header without a member-initializer list: the text before
/// the first lone `:` after the balanced parameter list, trimmed at its end.
pub open spec fn spec_strip_constructor_initializer(value: Seq<char>) -> Seq<char> {
    if !value.contains('(') {
        value
    } else {
        let open = crate::text::first_where(value, crate::text::in_set(seq!['(']));
        match scan_balanced(value, '(', ')', open, 0) {
            None => value,
            Some(close) => if exists|a: int| #[trigger] is_first_lone_colon(value, close, a) {
                let a = choose|a: int| #[trigger] is_first_lone_colon(value, close, a);
                trim_end_by(value.take(a), is_ws_class())
            } else {
                value
            },
        }
    }
}

proof fn lemma_first_lone_colon_unique(s: Seq<char>, from: int, a: int, b: int)
    requires
        is_first_lone_colon(s, from, a),
        is_first_lone_colon(s, from, b),
    ensures
        a == b,
{
    if a < b {
        assert(!lone_colon_at(s, a));
    } else if b < a {
        assert(!lone_colon_at(s, b));
    }
}

pub fn strip_constructor_initializer(value: &str) -> (r: String)
    ensures
        r@ == spec_strip_constructor_initializer(value@),
{
    let chars = chars_of(value);
    let v = chars.as_slice();
    let Some(open) = crate::text::find_char(v, '(') else {
        return string_of(v);
    };
    proof {
        let c = crate::text::in_set(seq!['(']);
        crate::text::lemma_in_single(v@[open as int], '(');
        assert forall|k: int| 0 <= k < open implies !#[trigger] c(v@[k]) by {
            crate::text::lemma_in_single(v@[k], '(');
        }
        assert(crate::text::is_first_where(v@, c, open as int));
        crate::text::lemma_first_where_unique(v@, c, open as int);
    }
    let Some(close) = scan_balanced_exec(v, '(', ')', open) else {
        return string_of(v);
    };
    proof {
        lemma_scan_balanced_bounds(v@, '(', ')', open as int, 0);
    }
    match first_lone_colon(v, close) {
        Some(a) => {
            proof {
                assert forall|x: int| #[trigger] is_first_lone_colon(v@, close as int, x) implies x
                    == a by {
                    lemma_first_lone_colon_unique(v@, close as int, x, a as int);
                }
            }
            let prefix = vstd::slice::slice_subrange(v, 0, a);
            assert(prefix@ == v@.take(a as int));
            let end = trim_end_whitespace(prefix);
            assert(v@.subrange(0, end as int) == v@.take(a as int).take(end as int));
            assert(v@.contains('(')) by {
                assert(v@[open as int] == '(');
            }
            crate::text::string_of_range(v, 0, end)
        },
        None => string_of(v),
    }
}

fn first_lone_colon(v: &[char], from: usize) -> (r: Option<usize>)
    requires
        from <= v.len(),
    ensures
        match r {
            Some(a) => is_first_lone_colon(v@, from as int, a as int),
            None => forall|x: int| !#[trigger] is_first_lone_colon(v@, from as int, x),
        },
{
    let mut a: usize = from;
    while a < v.len()
        invariant
            from <= a <= v.len(),
            forall|b: int| from <= b < a ==> !#[trigger] lone_colon_at(v@, b),
        decreases v.len() - a,
    {
        if v[a] == ':' && (a == 0 || v[a - 1] != ':') && (a + 1 == v.len() || v[a + 1] != ':') {
            assert(lone_colon_at(v@, a as int));
            return Some(a);
        }
        a += 1;
    }
    proof {
        assert forall|x: int| !#[trigger] is_first_lone_colon(v@, from as int, x) by {
            if is_first_lone_colon(v@, from as int, x) {
                assert(lone_colon_at(v@, x));
            }
        }
    }
    None
}

/// A header without the terminators that end it before its body (`=>`,
/// `;`, `:`, `{`), each taken off together with the whitespace before it.
pub open spec fn strip_terminators(s: Seq<char>) -> Seq<char>
    decreases s.len(),
{
    let t = trim_end_by(s, is_ws_class());
    proof {
        crate::text::lemma_trim_end_len(s, is_ws_class());
        if t.len() >= 2 {
            crate::text::lemma_trim_end_len(t.take(t.len() - 2), is_ws_class());
        }
        if t.len() >= 1 {
            crate::text::lemma_trim_end_len(t.take(t.len() - 1), is_ws_class());
        }
    }
    if is_suffix(seq!['=', '>'], t) {
        strip_terminators(trim_end_by(t.take(t.len() - 2), is_ws_class()))
    } else if t.len() > 0 && (t.last() == ';' || t.last() == ':' || t.last() == '{') {
        strip_terminators(trim_end_by(t.take(t.len() - 1), is_ws_class()))
    } else {
        s
    }
}

fn strip_terminators_exec(s: &[char]) -> (r: Vec<char>)
    ensures
        r@ == strip_terminators(s@),
{
    let mut cur: Vec<char> = slice_range(s, 0, s.len());
    assert(cur@ == s@.subrange(0, s@.len() as int));
    assert(s@.subrange(0, s@.len() as int) == s@);
    loop
        invariant
            strip_terminators(cur@) == strip_terminators(s@),
        decreases cur@.len(),
    {
        let end = trim_end_whitespace(cur.as_slice());
        let t = slice_range(cur.as_slice(), 0, end);
        assert(t@ == cur@.take(end as int));
        proof {
            crate::text::lemma_trim_end_len(cur@, is_ws_class());
        }
        let n = t.len();
        if n >= 2 && t[n - 2] == '=' && t[n - 1] == '>' {
            assert(is_suffix(seq!['=', '>'], t@)) by {
                assert(t@.subrange(n - 2, n as int) =~= seq!['=', '>']);
            }
            let head = vstd::slice::slice_subrange(t.as_slice(), 0, n - 2);
            assert(head@ == t@.take(n - 2));
            let e2 = trim_end_whitespace(head);
            let next = slice_range(t.as_slice(), 0, e2);
            proof {
                assert(next@ == head@.take(e2 as int));
                crate::text::lemma_trim_end_len(t@.take(n - 2), is_ws_class());
            }
            cur = next;
        } else {
            assert(!is_suffix(seq!['=', '>'], t@)) by {
                if is_suffix(seq!['=', '>'], t@) {
                    assert(t@.subrange(n - 2, n as int) == seq!['=', '>']);
                    assert(t@[n - 2] == seq!['=', '>'][0]);
                    assert(t@[n - 1] == seq!['=', '>'][1]);
                }
            }
            if n >= 1 && (t[n - 1] == ';' || t[n - 1] == ':' || t[n - 1] == '{') {
                let head = vstd::slice::slice_subrange(t.as_slice(), 0, n - 1);
                assert(head@ == t@.take(n - 1));
                let e1 = trim_end_whitespace(head);
                let next = slice_range(t.as_slice(), 0, e1);
                proof {
                    assert(next@ == head@.take(e1 as int));
                    crate::text::lemma_trim_end_len(t@.take(n - 1), is_ws_class());
                }
                cur = next;
            } else {
                return cur;
            }
        }
    }
}

/// The largest callable header kept, in UTF-8 bytes.
pub const MAX_SIGNATURE_BYTES: usize = 8192;

/// The normalized header text of a callable declaration whose source runs
/// `raw` (from the declaration's start up to its body).
pub open spec fn spec_signature_text(raw: Seq<char>, is_constructor: bool) -> Seq<char> {
    let base = crate::text::collapse_whitespace(spec_strip_leading_attributes(raw));
    let base = if is_constructor {
        spec_strip_constructor_initializer(base)
    } else {
        base
    };
    strip_terminators(base)
}

pub open spec fn is_callable_kind(kind: FactNodeKind) -> bool {
    kind == FactNodeKind::Function || kind == FactNodeKind::Method || kind
        == FactNodeKind::Constructor
}

/// The header kept for a definition: callables only, non-empty and at most
/// `MAX_SIGNATURE_BYTES` bytes long.
pub open spec fn spec_callable_signature(kind: FactNodeKind, raw: Seq<char>) -> Option<Seq<char>> {
    if !is_callable_kind(kind) {
        None
    } else {
        let s = spec_signature_text(raw, kind == FactNodeKind::Constructor);
        if s.len() > 0 && crate::text::utf8_len(s) <= MAX_SIGNATURE_BYTES {
            Some(s)
        } else {
            None
        }
    }
}

pub fn callable_signature(kind: FactNodeKind, raw: &str) -> (r: Option<String>)
    ensures
        match r {
            Some(s) => spec_callable_signature(kind, raw@) == Some(s@),
            None => spec_callable_signature(kind, raw@) is None,
        },
{
    if !(kind == FactNodeKind::Function || kind == FactNodeKind::Method || kind
        == FactNodeKind::Constructor) {
        return None;
    }
    let stripped = strip_leading_attributes(raw);
    let mut signature = normalize_whitespace(stripped.as_str());
    if kind == FactNodeKind::Constructor {
        signature = strip_constructor_initializer(signature.as_str());
    }
    let chars = chars_of(signature.as_str());
    let finished = strip_terminators_exec(chars.as_slice());
    if finished.len() > 0 && crate::text::utf8_len_within(finished.as_slice(), MAX_SIGNATURE_BYTES) {
        Some(string_of(finished.as_slice()))
    } else {
        None
    }
}

// ---------------------------------------------------------------------------
// Language-defined accessibility
// ---------------------------------------------------------------------------

pub open spec fn starts_with_char(s: Seq<char>, c: char) -> bool {
    s.len() > 0 && s[0] == c
}

pub open spec fn spec_typescript_visibility(
    prefix: Seq<char>,
    name: Seq<char>,
    owner_kind: Option<FactNodeKind>,
    explicitly_exported: bool,
) -> Visibility {
    if has_word_token(prefix, "private"@) || starts_with_char(name, '#') {
        Visibility::Private
    } else if has_word_token(prefix, "protected"@) {
        Visibility::Protected
    } else if has_word_token(prefix, "public"@) || owner_kind is Some || has_word_token(
        prefix,
        "export"@,
    ) || explicitly_exported {
        Visibility::Public
    } else {
        Visibility::Internal
    }
}

pub fn typescript_visibility(
    prefix: &str,
    name: &str,
    owner_kind: Option<FactNodeKind>,
    explicitly_exported: bool,
) -> (r: Visibility)
    ensures
        r == spec_typescript_visibility(prefix@, name@, owner_kind, explicitly_exported),
{
    let n = chars_of(name);
    if has_word(prefix, "private") || (n.len() > 0 && n[0] == '#') {
        Visibility::Private
    } else if has_word(prefix, "protected") {
        Visibility::Protected
    } else if has_word(prefix, "public") || owner_kind.is_some() || has_word(prefix, "export")
        || explicitly_exported {
        Visibility::Public
    } else {
        Visibility::Internal
    }
}

pub open spec fn spec_javascript_visibility(
    prefix: Seq<char>,
    name: Seq<char>,
    owner_kind: Option<FactNodeKind>,
    explicitly_exported: bool,
) -> Visibility {
    if starts_with_char(name, '#') {
        Visibility::Private
    } else if owner_kind is Some || has_word_token(prefix, "export"@) || explicitly_exported {
        Visibility::Public
    } else {
        Visibility::Internal
    }
}

pub fn javascript_visibility(
    prefix: &str,
    name: &str,
    owner_kind: Option<FactNodeKind>,
    explicitly_exported: bool,
) -> (r: Visibility)
    ensures
        r == spec_javascript_visibility(prefix@, name@, owner_kind, explicitly_exported),
{
    let n = chars_of(name);
    if n.len() > 0 && n[0] == '#' {
        Visibility::Private
    } else if owner_kind.is_some() || has_word(prefix, "export") || explicitly_exported {
        Visibility::Public
    } else {
        Visibility::Internal
    }
}

pub open spec fn spec_python_visibility(name: Seq<char>, owner_kind: Option<FactNodeKind>) -> Visibility {
    if owner_kind is Some && is_prefix(seq!['_', '_'], name) && !is_suffix(seq!['_', '_'], name)
        && name.len() > 2 {
        Visibility::Private
    } else if starts_with_char(name, '_') && !spec_is_python_dunder(name) {
        Visibility::Internal
    } else {
        Visibility::Public
    }
}

/// Python accessibility by naming convention. (`name.len() > 2` in bytes is
/// more than two characters for a name that starts with `__`.)
pub fn python_visibility(name: &str, owner_kind: Option<FactNodeKind>) -> (r: Visibility)
    ensures
        r == spec_python_visibility(name@, owner_kind),
{
    let n = chars_of(name);
    let n = n.as_slice();
    proof {
        reveal_strlit("__");
        assert("__"@ =~= seq!['_', '_']);
    }
    if owner_kind.is_some() && crate::text::starts_with(n, "__") && !crate::text::ends_with(n, "__")
        && n.len() > 2 {
        Visibility::Private
    } else if n.len() > 0 && n[0] == '_' && !is_python_dunder(name) {
        Visibility::Internal
    } else {
        Visibility::Public
    }
}

pub open spec fn is_interface_owner(owner_kind: Option<FactNodeKind>) -> bool {
    owner_kind == Some(FactNodeKind::Interface)
}

pub open spec fn spec_java_visibility(prefix: Seq<char>, owner_kind: Option<FactNodeKind>) -> Visibility {
    if has_word_token(prefix, "public"@) {
        Visibility::Public
    } else if has_word_token(prefix, "protected"@) {
        Visibility::Protected
    } else if has_word_token(prefix, "private"@) {
        Visibility::Private
    } else if is_interface_owner(owner_kind) {
        Visibility::Public
    } else {
        Visibility::Package
    }
}

pub fn java_visibility(prefix: &str, owner_kind: Option<FactNodeKind>) -> (r: Visibility)
    ensures
        r == spec_java_visibility(prefix@, owner_kind),
{
    if has_word(prefix, "public") {
        Visibility::Public
    } else if has_word(prefix, "protected") {
        Visibility::Protected
    } else if has_word(prefix, "private") {
        Visibility::Private
    } else if matches!(owner_kind, Some(FactNodeKind::Interface)) {
        Visibility::Public
    } else {
        Visibility::Package
    }
}

pub open spec fn spec_csharp_visibility(prefix: Seq<char>, owner_kind: Option<FactNodeKind>) -> Visibility {
    if has_word_token(prefix, "public"@) {
        Visibility::Public
    } else if has_word_token(prefix, "protected"@) {
        Visibility::Protected
    } else if has_word_token(prefix, "internal"@) {
        Visibility::Internal
    } else if has_word_token(prefix, "private"@) {
        Visibility::Private
    } else if is_interface_owner(owner_kind) {
        Visibility::Public
    } else if owner_kind is Some {
        Visibility::Private
    } else {
        Visibility::Internal
    }
}

/// C# accessibility; `protected internal` and `private protected` stay
/// coarse-grained as protected.
pub fn csharp_visibility(prefix: &str, owner_kind: Option<FactNodeKind>) -> (r: Visibility)
    ensures
        r == spec_csharp_visibility(prefix@, owner_kind),
{
    if has_word(prefix, "public") {
        Visibility::Public
    } else if has_word(prefix, "protected") {
        Visibility::Protected
    } else if has_word(prefix, "internal") {
        Visibility::Internal
    } else if has_word(prefix, "private") {
        Visibility::Private
    } else if matches!(owner_kind, Some(FactNodeKind::Interface)) {
        Visibility::Public
    } else if owner_kind.is_some() {
        Visibility::Private
    } else {
        Visibility::Internal
    }
}

pub open spec fn spec_c_visibility(prefix: Seq<char>) -> Visibility {
    if has_word_token(prefix, "static"@) {
        Visibility::Internal
    } else {
        Visibility::Public
    }
}

pub fn c_visibility(prefix: &str) -> (r: Visibility)
    ensures
        r == spec_c_visibility(prefix@),
{
    if has_word(prefix, "static") {
        Visibility::Internal
    } else {
        Visibility::Public
    }
}

pub open spec fn spec_access_specifier_visibility(value: Seq<char>) -> Visibility {
    if has_word_token(value, "public"@) {
        Visibility::Public
    } else if has_word_token(value, "protected"@) {
        Visibility::Protected
    } else if has_word_token(value, "private"@) {
        Visibility::Private
    } else {
        Visibility::Unknown
    }
}

/// The accessibility a C++ `public:`/`protected:`/`private:` label gives.
pub fn access_specifier_visibility(value: &str) -> (r: Visibility)
    ensures
        r == spec_access_specifier_visibility(value@),
{
    if has_word(value, "public") {
        Visibility::Public
    } else if has_word(value, "protected") {
        Visibility::Protected
    } else if has_word(value, "private") {
        Visibility::Private
    } else {
        Visibility::Unknown
    }
}

/// The accessibility of a C++ member: the last access label before it in its
/// class body, else the default of its owner (`class` members are private,
/// `struct` and `union` members public). `None` for the labels means the
/// member is not inside a class body, which leaves it unknown.
pub open spec fn spec_cpp_member_visibility(
    owner_kind: Option<FactNodeKind>,
    labels: Option<Seq<Seq<char>>>,
) -> Visibility
    decreases (match labels {
        Some(l) => l.len(),
        None => 0,
    }),
{
    match labels {
        None => Visibility::Unknown,
        Some(l) => if l.len() == 0 {
            if owner_kind == Some(FactNodeKind::Class) {
                Visibility::Private
            } else {
                Visibility::Public
            }
        } else {
            spec_access_specifier_visibility(l.last())
        },
    }
}

pub fn cpp_member_visibility(owner_kind: Option<FactNodeKind>, labels: Option<&[&str]>) -> (r:
    Visibility)
    ensures
        r == spec_cpp_member_visibility(
            owner_kind,
            match labels {
                Some(l) => Some(crate::census::views_of(l@)),
                None => None,
            },
        ),
{
    match labels {
        None => Visibility::Unknown,
        Some(l) => {
            if l.len() == 0 {
                if matches!(owner_kind, Some(FactNodeKind::Class)) {
                    Visibility::Private
                } else {
                    Visibility::Public
                }
            } else {
                let last = l[l.len() - 1];
                assert(crate::census::views_of(l@).last() == last@);
                access_specifier_visibility(last)
            }
        },
    }
}

pub open spec fn spec_cpp_visibility(
    prefix: Seq<char>,
    owner_kind: Option<FactNodeKind>,
    member_labels: Option<Seq<Seq<char>>>,
    inside_anonymous_namespace: bool,
) -> Visibility {
    if owner_kind is Some {
        spec_cpp_member_visibility(owner_kind, member_labels)
    } else if has_word_token(prefix, "static"@) || inside_anonymous_namespace {
        Visibility::Internal
    } else {
        Visibility::Public
    }
}

pub fn cpp_visibility(
    prefix: &str,
    owner_kind: Option<FactNodeKind>,
    member_labels: Option<&[&str]>,
    inside_anonymous_namespace: bool,
) -> (r: Visibility)
    ensures
        r == spec_cpp_visibility(
            prefix@,
            owner_kind,
            match member_labels {
                Some(l) => Some(crate::census::views_of(l@)),
                None => None,
            },
            inside_anonymous_namespace,
        ),
{
    if owner_kind.is_some() {
        return cpp_member_visibility(owner_kind, member_labels);
    }
    if has_word(prefix, "static") || inside_anonymous_namespace {
        Visibility::Internal
    } else {
        Visibility::Public
    }
}

pub open spec fn spec_go_visibility(name: Seq<char>) -> Visibility {
    if name.len() > 0 && crate::text::unicode_uppercase(name[0]) {
        Visibility::Public
    } else {
        Visibility::Internal
    }
}

/// Go exports exactly the names that begin with an upper-case letter.
pub fn go_visibility(name: &str) -> (r: Visibility)
    ensures
        r == spec_go_visibility(name@),
{
    let n = chars_of(name);
    if n.len() > 0 && crate::text::char_is_uppercase(n[0]) {
        Visibility::Public
    } else {
        Visibility::Internal
    }
}

pub open spec fn spec_rust_visibility(
    prefix: Seq<char>,
    owner_kind: Option<FactNodeKind>,
    owner_visibility: Option<Visibility>,
    owner_member_visibility: Option<Visibility>,
) -> Visibility {
    if has_word_token(prefix, "pub"@) {
        if crate::text::contains_sub(crate::text::without_whitespace(prefix), "pub("@) {
            Visibility::Internal
        } else {
            Visibility::Public
        }
    } else if owner_member_visibility is Some || owner_kind == Some(FactNodeKind::Trait) {
        match owner_member_visibility {
            Some(v) => v,
            None => match owner_visibility {
                Some(v) => v,
                None => Visibility::Unknown,
            },
        }
    } else {
        Visibility::Private
    }
}

/// Rust accessibility: `pub` is public, `pub(..)` is crate-internal, trait
/// members take their owner's accessibility, anything else is private.
pub fn rust_visibility(
    prefix: &str,
    owner_kind: Option<FactNodeKind>,
    owner_visibility: Option<Visibility>,
    owner_member_visibility: Option<Visibility>,
) -> (r: Visibility)
    ensures
        r == spec_rust_visibility(prefix@, owner_kind, owner_visibility, owner_member_visibility),
{
    if has_word(prefix, "pub") {
        let p = chars_of(prefix);
        let compact = crate::text::remove_whitespace(p.as_slice());
        if crate::text::contains_str(compact.as_slice(), "pub(") {
            Visibility::Internal
        } else {
            Visibility::Public
        }
    } else if owner_member_visibility.is_some() || matches!(owner_kind, Some(FactNodeKind::Trait)) {
        match owner_member_visibility {
            Some(v) => v,
            None => match owner_visibility {
                Some(v) => v,
                None => Visibility::Unknown,
            },
        }
    } else {
        Visibility::Private
    }
}

pub open spec fn spec_dart_visibility(name: Seq<char>) -> Visibility {
    if starts_with_char(name, '_') {
        Visibility::Private
    } else {
        Visibility::Public
    }
}

pub fn dart_visibility(name: &str) -> (r: Visibility)
    ensures
        r == spec_dart_visibility(name@),
{
    let n = chars_of(name);
    if n.len() > 0 && n[0] == '_' {
        Visibility::Private
    } else {
        Visibility::Public
    }
}

/// What the syntax tree says of a declaration beyond its text: whether an
/// `export` statement wraps it, and, in C++, the access labels before it in
/// its class body (`None` outside a class body) and whether it sits in an
/// anonymous namespace.
pub struct DeclarationContext<'a> {
    pub explicitly_exported: bool,
    pub cpp_member_labels: Option<&'a [&'a str]>,
    pub inside_anonymous_namespace: bool,
}

pub open spec fn labels_view(labels: Option<&[&str]>) -> Option<Seq<Seq<char>>> {
    match labels {
        Some(l) => Some(crate::census::views_of(l@)),
        None => None,
    }
}

/// The accessibility of a definition under the rules of `language`, from the
/// declaration text before its name (`prefix`), its name, its owner and the
/// syntax context.
pub open spec fn spec_definition_visibility(
    language: Seq<char>,
    prefix: Seq<char>,
    name: Seq<char>,
    owner_kind: Option<FactNodeKind>,
    owner_visibility: Option<Visibility>,
    owner_member_visibility: Option<Visibility>,
    explicitly_exported: bool,
    cpp_member_labels: Option<Seq<Seq<char>>>,
    inside_anonymous_namespace: bool,
) -> Visibility {
    if language == "typescript"@ {
        spec_typescript_visibility(prefix, name, owner_kind, explicitly_exported)
    } else if language == "javascript"@ {
        spec_javascript_visibility(prefix, name, owner_kind, explicitly_exported)
    } else if language == "python"@ {
        spec_python_visibility(name, owner_kind)
    } else if language == "java"@ {
        spec_java_visibility(prefix, owner_kind)
    } else if language == "csharp"@ {
        spec_csharp_visibility(prefix, owner_kind)
    } else if language == "c"@ {
        spec_c_visibility(prefix)
    } else if language == "cpp"@ {
        spec_cpp_visibility(prefix, owner_kind, cpp_member_labels, inside_anonymous_namespace)
    } else if language == "go"@ {
        spec_go_visibility(name)
    } else if language == "rust"@ {
        spec_rust_visibility(prefix, owner_kind, owner_visibility, owner_member_visibility)
    } else if language == "dart"@ {
        spec_dart_visibility(name)
    } else {
        Visibility::Unknown
    }
}

pub fn definition_visibility(
    language: &str,
    prefix: &str,
    name: &str,
    owner_kind: Option<FactNodeKind>,
    owner_visibility: Option<Visibility>,
    owner_member_visibility: Option<Visibility>,
    context: &DeclarationContext,
) -> (r: Visibility)
    ensures
        r == spec_definition_visibility(
            language@,
            prefix@,
            name@,
            owner_kind,
            owner_visibility,
            owner_member_visibility,
            context.explicitly_exported,
            labels_view(context.cpp_member_labels),
            context.inside_anonymous_namespace,
        ),
{
    let l = chars_of(language);
    let l = l.as_slice();
    if crate::text::chars_eq_str(l, "typescript") {
        typescript_visibility(prefix, name, owner_kind, context.explicitly_exported)
    } else if crate::text::chars_eq_str(l, "javascript") {
        javascript_visibility(prefix, name, owner_kind, context.explicitly_exported)
    } else if crate::text::chars_eq_str(l, "python") {
        python_visibility(name, owner_kind)
    } else if crate::text::chars_eq_str(l, "java") {
        java_visibility(prefix, owner_kind)
    } else if crate::text::chars_eq_str(l, "csharp") {
        csharp_visibility(prefix, owner_kind)
    } else if crate::text::chars_eq_str(l, "c") {
        c_visibility(prefix)
    } else if crate::text::chars_eq_str(l, "cpp") {
        cpp_visibility(
            prefix,
            owner_kind,
            context.cpp_member_labels,
            context.inside_anonymous_namespace,
        )
    } else if crate::text::chars_eq_str(l, "go") {
        go_visibility(name)
    } else if crate::text::chars_eq_str(l, "rust") {
        rust_visibility(prefix, owner_kind, owner_visibility, owner_member_visibility)
    } else if crate::text::chars_eq_str(l, "dart") {
        dart_visibility(name)
    } else {
        Visibility::Unknown
    }
}

} // verus!

