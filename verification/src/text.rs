//! Character-sequence primitives shared by every scanner of this crate.
//!
//! Every text in this crate is modelled by its sequence of Unicode scalar
//! values (`Seq<char>`, the view of `str` and `String`). The functions here
//! compute on those sequences, and the spec functions say what they compute.
use vstd::prelude::*;

verus! {

// ---------------------------------------------------------------------------
// Character classes
// ---------------------------------------------------------------------------

pub open spec fn is_ascii_digit(c: char) -> bool {
    '0' <= c && c <= '9'
}

pub open spec fn is_ascii_upper(c: char) -> bool {
    'A' <= c && c <= 'Z'
}

pub open spec fn is_ascii_lower(c: char) -> bool {
    'a' <= c && c <= 'z'
}

pub open spec fn is_ascii_alpha(c: char) -> bool {
    is_ascii_upper(c) || is_ascii_lower(c)
}

pub open spec fn is_ascii_alnum(c: char) -> bool {
    is_ascii_alpha(c) || is_ascii_digit(c)
}

/// ASCII whitespace as `u8::is_ascii_whitespace` defines it (no vertical tab).
pub open spec fn is_ascii_ws(c: char) -> bool {
    c == ' ' || c == '\t' || c == '\n' || c == '\x0C' || c == '\r'
}

pub open spec fn is_ascii_char(c: char) -> bool {
    (c as u32) < 128
}

/// Whether `c` has the Unicode `White_Space` property (`PropList.txt`):
/// `\t` to `\r`, space, U+0085, U+00A0, U+1680, U+2000 to U+200A, U+2028,
/// U+2029, U+202F, U+205F and U+3000.
pub open spec fn unicode_white_space(c: char) -> bool {
    let u = c as u32;
    ||| 0x09 <= u && u <= 0x0D
    ||| u == 0x20
    ||| u == 0x85
    ||| u == 0xA0
    ||| u == 0x1680
    ||| 0x2000 <= u && u <= 0x200A
    ||| u == 0x2028
    ||| u == 0x2029
    ||| u == 0x202F
    ||| u == 0x205F
    ||| u == 0x3000
}

/// Whether `c` is alphabetic or numeric in Unicode, as `char::is_alphanumeric`
/// documents it.
pub open spec fn unicode_alphanumeric(c: char) -> bool {
    unicode_alphabetic(c) || unicode_numeric(c)
}

/// Whether `c` has the Unicode `Alphabetic` property, as `char::is_alphabetic` decides.
pub uninterp spec fn unicode_alphabetic(c: char) -> bool;

/// Whether `c` is in a Unicode numeric category, as `char::is_numeric` decides.
pub uninterp spec fn unicode_numeric(c: char) -> bool;

/// Whether `c` is whitespace, as `char::is_whitespace` decides: the
/// Unicode `White_Space` property that `unicode_white_space` lists.
pub fn char_is_whitespace(c: char) -> (b: bool)
    ensures
        b == unicode_white_space(c),
{
    let u = c as u32;
    (0x09 <= u && u <= 0x0D) || u == 0x20 || u == 0x85 || u == 0xA0 || u == 0x1680 || (0x2000 <= u && u <= 0x200A)
        || u == 0x2028 || u == 0x2029 || u == 0x202F || u == 0x205F || u == 0x3000
}

/// `char::is_alphanumeric`: alphabetic or numeric, as `unicode_alphanumeric`
/// states; for an ASCII character std decides it as an ASCII letter or digit.
#[verifier::external_body]
pub fn char_is_alphanumeric(c: char) -> (b: bool)
    ensures
        b == unicode_alphanumeric(c),
        is_ascii_char(c) ==> (b <==> is_ascii_alnum(c)),
{
    c.is_alphanumeric()
}

/// `char::is_alphabetic`. The result is named by `unicode_alphabetic`; for an
/// ASCII character std decides it as an ASCII letter.
#[verifier::external_body]
pub fn char_is_alphabetic(c: char) -> (b: bool)
    ensures
        b == unicode_alphabetic(c),
        is_ascii_char(c) ==> (b <==> is_ascii_alpha(c)),
{
    c.is_alphabetic()
}

/// `char::is_numeric`. The result is named by `unicode_numeric`; for an ASCII
/// character std decides it as an ASCII digit.
#[verifier::external_body]
pub fn char_is_numeric(c: char) -> (b: bool)
    ensures
        b == unicode_numeric(c),
        is_ascii_char(c) ==> (b <==> is_ascii_digit(c)),
{
    c.is_numeric()
}

/// Whether `c` has the Unicode `Uppercase` property, as `char::is_uppercase` decides.
pub uninterp spec fn unicode_uppercase(c: char) -> bool;

/// `char::is_uppercase`. The result is named by `unicode_uppercase`; for an
/// ASCII character std decides it as an ASCII capital letter.
#[verifier::external_body]
pub fn char_is_uppercase(c: char) -> (b: bool)
    ensures
        b == unicode_uppercase(c),
        is_ascii_char(c) ==> (b <==> is_ascii_upper(c)),
{
    c.is_uppercase()
}

/// `String::push`: appends one character.
#[verifier::external_body]
pub fn push_char(s: &mut String, c: char)
    ensures
        final(s)@ == old(s)@.push(c),
{
    s.push(c)
}

pub open spec fn ascii_lower_char(c: char) -> char {
    if is_ascii_upper(c) {
        ((c as u32) + 32) as char
    } else {
        c
    }
}

pub open spec fn ascii_upper_char(c: char) -> char {
    if is_ascii_lower(c) {
        ((c as u32) - 32) as char
    } else {
        c
    }
}

pub open spec fn ascii_lower(s: Seq<char>) -> Seq<char> {
    s.map_values(|c: char| ascii_lower_char(c))
}

pub open spec fn ascii_upper(s: Seq<char>) -> Seq<char> {
    s.map_values(|c: char| ascii_upper_char(c))
}

pub fn to_ascii_lower_char(c: char) -> (r: char)
    ensures
        r == ascii_lower_char(c),
{
    if 'A' <= c && c <= 'Z' {
        let code = c as u32 + 32;
        assert(code < 128);
        let byte = code as u8;
        byte as char
    } else {
        c
    }
}

pub fn to_ascii_upper_char(c: char) -> (r: char)
    ensures
        r == ascii_upper_char(c),
{
    if 'a' <= c && c <= 'z' {
        let code = c as u32 - 32;
        let byte = code as u8;
        byte as char
    } else {
        c
    }
}

/// `s` with each ASCII upper-case letter lower-cased.
pub fn lower_chars(s: &[char]) -> (r: Vec<char>)
    ensures
        r@ == ascii_lower(s@),
{
    let mut r: Vec<char> = Vec::new();
    let mut i: usize = 0;
    while i < s.len()
        invariant
            i <= s.len(),
            r@ == ascii_lower(s@.take(i as int)),
        decreases s.len() - i,
    {
        r.push(to_ascii_lower_char(s[i]));
        i += 1;
        assert(r@ =~= ascii_lower(s@.take(i as int)));
    }
    assert(s@.take(s.len() as int) == s@);
    r
}

/// `str::to_ascii_lowercase`.
pub fn ascii_lowercase(s: &str) -> (r: String)
    ensures
        r@ == ascii_lower(s@),
{
    let v = chars_of(s);
    let l = lower_chars(v.as_slice());
    string_of(l.as_slice())
}

pub fn is_ascii_alnum_exec(c: char) -> (b: bool)
    ensures
        b == is_ascii_alnum(c),
{
    ('a' <= c && c <= 'z') || ('A' <= c && c <= 'Z') || ('0' <= c && c <= '9')
}

pub fn is_ascii_digit_exec(c: char) -> (b: bool)
    ensures
        b == is_ascii_digit(c),
{
    '0' <= c && c <= '9'
}

// ---------------------------------------------------------------------------
// Conversions
// ---------------------------------------------------------------------------

/// The characters of `s`, in order.
pub fn chars_of(s: &str) -> (v: Vec<char>)
    ensures
        v@ == s@,
{
    let mut v: Vec<char> = Vec::new();
    for c in it: s.chars()
        invariant
            v@ == it.seq().take(it.index() as int),
    {
        v.push(c);
    }
    v
}

/// A string whose characters are those of `v`.
pub fn string_of(v: &[char]) -> (s: String)
    ensures
        s@ == v@,
{
    let mut s = String::new();
    let mut i: usize = 0;
    while i < v.len()
        invariant
            i <= v.len(),
            s@ == v@.take(i as int),
        decreases v.len() - i,
    {
        push_char(&mut s, v[i]);
        i += 1;
        assert(v@.take(i as int) == v@.take((i - 1) as int).push(v@[i - 1]));
    }
    assert(v@.take(v.len() as int) == v@);
    s
}

/// A string whose characters are those of `v` from `start` up to `end`.
pub fn string_of_range(v: &[char], start: usize, end: usize) -> (s: String)
    requires
        start <= end <= v.len(),
    ensures
        s@ == v@.subrange(start as int, end as int),
{
    let mut s = String::new();
    let mut i: usize = start;
    while i < end
        invariant
            start <= i <= end <= v.len(),
            s@ == v@.subrange(start as int, i as int),
        decreases end - i,
    {
        push_char(&mut s, v[i]);
        i += 1;
        assert(v@.subrange(start as int, i as int) == v@.subrange(start as int, (i - 1) as int).push(
            v@[i - 1],
        ));
    }
    s
}

/// The sub-string of `s` made of its characters from `start` up to `end`.
pub fn substr<'a>(s: &'a str, start: usize, end: usize) -> (r: &'a str)
    requires
        start <= end <= s@.len(),
    ensures
        r@ == s@.subrange(start as int, end as int),
{
    s.substring_char(start, end)
}

/// A copy of `s`.
pub fn owned(s: &str) -> (r: String)
    ensures
        r@ == s@,
{
    s.to_owned()
}

/// The concatenation of `a` and `b`.
pub fn concat(a: &str, b: &str) -> (r: String)
    ensures
        r@ == a@ + b@,
{
    let mut r = a.to_owned();
    r.append(b);
    r
}

// ---------------------------------------------------------------------------
// Comparisons
// ---------------------------------------------------------------------------

pub fn seq_eq(a: &[char], b: &[char]) -> (r: bool)
    ensures
        r == (a@ == b@),
{
    if a.len() != b.len() {
        return false;
    }
    let mut i: usize = 0;
    while i < a.len()
        invariant
            a.len() == b.len(),
            i <= a.len(),
            forall|j: int| 0 <= j < i ==> a@[j] == b@[j],
        decreases a.len() - i,
    {
        if a[i] != b[i] {
            return false;
        }
        i += 1;
    }
    assert(a@ =~= b@);
    true
}

/// Whether the characters of `a` are exactly those of `b`.
pub fn str_eq(a: &str, b: &str) -> (r: bool)
    ensures
        r == (a@ == b@),
{
    let x = chars_of(a);
    let y = chars_of(b);
    seq_eq(x.as_slice(), y.as_slice())
}

/// Whether the characters of `a` are exactly those of the text `b`.
pub fn chars_eq_str(a: &[char], b: &str) -> (r: bool)
    ensures
        r == (a@ == b@),
{
    let y = chars_of(b);
    seq_eq(a, y.as_slice())
}

/// Whether `a` equals `b` once both are ASCII-lower-cased.
pub fn eq_ignore_ascii_case(a: &[char], b: &str) -> (r: bool)
    ensures
        r == (ascii_lower(a@) == ascii_lower(b@)),
{
    let y = chars_of(b);
    if a.len() != y.len() {
        proof {
            assert(ascii_lower(a@).len() != ascii_lower(b@).len());
        }
        return false;
    }
    let mut i: usize = 0;
    while i < a.len()
        invariant
            a.len() == y.len(),
            y@ == b@,
            i <= a.len(),
            forall|j: int| 0 <= j < i ==> ascii_lower_char(a@[j]) == ascii_lower_char(y@[j]),
        decreases a.len() - i,
    {
        if to_ascii_lower_char(a[i]) != to_ascii_lower_char(y[i]) {
            assert(ascii_lower(a@)[i as int] != ascii_lower(b@)[i as int]);
            return false;
        }
        i += 1;
    }
    assert(ascii_lower(a@) =~= ascii_lower(b@));
    true
}

pub open spec fn is_prefix(p: Seq<char>, s: Seq<char>) -> bool {
    p.len() <= s.len() && s.subrange(0, p.len() as int) == p
}

pub open spec fn is_suffix(p: Seq<char>, s: Seq<char>) -> bool {
    p.len() <= s.len() && s.subrange(s.len() - p.len(), s.len() as int) == p
}

/// Whether `t` occurs in `s` at index `i`.
pub open spec fn occurs_at(s: Seq<char>, t: Seq<char>, i: int) -> bool {
    0 <= i && i + t.len() <= s.len() && s.subrange(i, i + t.len()) == t
}

pub open spec fn contains_sub(s: Seq<char>, t: Seq<char>) -> bool {
    exists|i: int| occurs_at(s, t, i)
}

pub fn occurs_at_exec(s: &[char], t: &[char], i: usize) -> (r: bool)
    ensures
        r == occurs_at(s@, t@, i as int),
{
    if i > s.len() || t.len() > s.len() - i {
        return false;
    }
    let mut j: usize = 0;
    while j < t.len()
        invariant
            i + t.len() <= s.len(),
            j <= t.len(),
            forall|k: int| 0 <= k < j ==> s@[i + k] == t@[k],
        decreases t.len() - j,
    {
        if s[i + j] != t[j] {
            assert(s@.subrange(i as int, i + t.len())[j as int] != t@[j as int]);
            return false;
        }
        j += 1;
    }
    assert(s@.subrange(i as int, i + t.len()) =~= t@);
    true
}

pub fn starts_with(s: &[char], p: &str) -> (r: bool)
    ensures
        r == is_prefix(p@, s@),
{
    let t = chars_of(p);
    let r = occurs_at_exec(s, t.as_slice(), 0);
    r
}

pub fn ends_with(s: &[char], p: &str) -> (r: bool)
    ensures
        r == is_suffix(p@, s@),
{
    let t = chars_of(p);
    if t.len() > s.len() {
        return false;
    }
    occurs_at_exec(s, t.as_slice(), s.len() - t.len())
}

/// The first index at which `t` occurs in `s`, if any.
pub fn find_sub(s: &[char], t: &[char]) -> (r: Option<usize>)
    ensures
        match r {
            Some(i) => occurs_at(s@, t@, i as int) && forall|k: int|
                0 <= k < i ==> !occurs_at(s@, t@, k),
            None => !contains_sub(s@, t@),
        },
{
    let mut i: usize = 0;
    loop
        invariant
            i <= s.len(),
            forall|k: int| 0 <= k < i ==> !occurs_at(s@, t@, k),
        ensures
            i == s.len(),
            !occurs_at(s@, t@, i as int),
        decreases s.len() - i,
    {
        if occurs_at_exec(s, t, i) {
            return Some(i);
        }
        if i == s.len() {
            break;
        }
        i += 1;
    }
    assert forall|k: int| !occurs_at(s@, t@, k) by {
        if 0 <= k <= i {
        }
    }
    None
}

pub fn contains_str(s: &[char], t: &str) -> (r: bool)
    ensures
        r == contains_sub(s@, t@),
{
    let tc = chars_of(t);
    find_sub(s, tc.as_slice()).is_some()
}

/// Whether some character of `s` is `c`.
pub fn contains_char(s: &[char], c: char) -> (r: bool)
    ensures
        r == s@.contains(c),
{
    let mut i: usize = 0;
    while i < s.len()
        invariant
            i <= s.len(),
            forall|k: int| 0 <= k < i ==> s@[k] != c,
        decreases s.len() - i,
    {
        if s[i] == c {
            return true;
        }
        i += 1;
    }
    false
}

/// The first index of `c` in `s`.
pub open spec fn first_index_of(s: Seq<char>, c: char) -> Option<int> {
    if s.contains(c) {
        Some(choose|i: int| 0 <= i < s.len() && s[i] == c && forall|k: int| 0 <= k < i ==> s[k] != c)
    } else {
        None
    }
}

pub fn find_char(s: &[char], c: char) -> (r: Option<usize>)
    ensures
        match r {
            Some(i) => i < s@.len() && s@[i as int] == c && forall|k: int|
                0 <= k < i ==> s@[k] != c,
            None => !s@.contains(c),
        },
{
    let mut i: usize = 0;
    while i < s.len()
        invariant
            i <= s.len(),
            forall|k: int| 0 <= k < i ==> s@[k] != c,
        decreases s.len() - i,
    {
        if s[i] == c {
            return Some(i);
        }
        i += 1;
    }
    None
}

pub fn rfind_char(s: &[char], c: char) -> (r: Option<usize>)
    ensures
        match r {
            Some(i) => i < s@.len() && s@[i as int] == c && forall|k: int|
                i < k < s@.len() ==> s@[k] != c,
            None => !s@.contains(c),
        },
{
    let mut i: usize = s.len();
    while i > 0
        invariant
            i <= s.len(),
            forall|k: int| i <= k < s@.len() ==> s@[k] != c,
        decreases i,
    {
        if s[i - 1] == c {
            return Some(i - 1);
        }
        i -= 1;
    }
    None
}

} // verus!

verus! {

// ---------------------------------------------------------------------------
// Words and whitespace
// ---------------------------------------------------------------------------

/// A character that `str::split` keeps inside an identifier-like token:
/// `_` or an alphanumeric character (for ASCII, a letter or a digit; above
/// ASCII, a Unicode alphanumeric character).
pub open spec fn is_word_char(c: char) -> bool {
    c == '_' || if is_ascii_char(c) {
        is_ascii_alnum(c)
    } else {
        unicode_alphanumeric(c)
    }
}

pub fn is_word_char_exec(c: char) -> (b: bool)
    ensures
        b == is_word_char(c),
{
    c == '_' || char_is_alphanumeric(c)
}

/// Whether `t` is one of the pieces of `s` split at every non-word character:
/// `t` occurs in `s` between two non-word characters (or the ends of `s`) and
/// holds only word characters.
pub open spec fn has_word_token(s: Seq<char>, t: Seq<char>) -> bool {
    &&& forall|k: int| 0 <= k < t.len() ==> is_word_char(#[trigger] t[k])
    &&& exists|i: int| #[trigger] token_at(s, t, i)
}

/// `t` occurs in `s` at `i`, bounded by non-word characters or the ends of `s`.
pub open spec fn token_at(s: Seq<char>, t: Seq<char>, i: int) -> bool {
    occurs_at(s, t, i) && (i == 0 || !is_word_char(s[i - 1])) && (i + t.len() == s.len()
        || !is_word_char(s[i + t.len()]))
}

/// Whether the word-split of `s` yields a piece equal to `t` (the shared
/// modifier test of declaration headers).
pub fn word_token_in(s: &[char], t: &[char]) -> (r: bool)
    ensures
        r == has_word_token(s@, t@),
{
    let mut k: usize = 0;
    while k < t.len()
        invariant
            k <= t.len(),
            forall|m: int| 0 <= m < k ==> is_word_char(#[trigger] t@[m]),
        decreases t.len() - k,
    {
        if !is_word_char_exec(t[k]) {
            return false;
        }
        k += 1;
    }
    let mut i: usize = 0;
    loop
        invariant
            i <= s.len(),
            forall|m: int| 0 <= m < t.len() ==> is_word_char(#[trigger] t@[m]),
            forall|j: int| 0 <= j < i ==> !#[trigger] token_at(s@, t@, j),
        ensures
            i == s.len(),
            !token_at(s@, t@, i as int),
        decreases s.len() - i,
    {
        if occurs_at_exec(s, t, i) {
            let before = i == 0 || !is_word_char_exec(s[i - 1]);
            let after = i + t.len() == s.len() || !is_word_char_exec(s[i + t.len()]);
            if before && after {
                assert(token_at(s@, t@, i as int));
                return true;
            }
        }
        if i == s.len() {
            break;
        }
        i += 1;
    }
    assert forall|j: int| !#[trigger] token_at(s@, t@, j) by {
        if 0 <= j <= i {
        }
    }
    false
}

/// `split_whitespace().join(" ")`: runs of whitespace become one space and the
/// ends are trimmed.
pub open spec fn collapse_whitespace(s: Seq<char>) -> Seq<char>
    decreases s.len(),
{
    if s.len() == 0 {
        s
    } else {
        let r = collapse_whitespace(s.drop_last());
        let c = s.last();
        if unicode_white_space(c) {
            r
        } else if s.len() >= 2 && unicode_white_space(s[s.len() - 2]) && r.len() > 0 {
            r + seq![' ', c]
        } else {
            r.push(c)
        }
    }
}

/// `split_whitespace().join(" ")` on a text.
pub fn collapse_whitespace_str(text: &str) -> (r: String)
    ensures
        r@ == collapse_whitespace(text@),
{
    let v = chars_of(text);
    let s = v.as_slice();
    let mut r: Vec<char> = Vec::new();
    let mut i: usize = 0;
    while i < s.len()
        invariant
            i <= s.len(),
            s@ == text@,
            r@ == collapse_whitespace(s@.take(i as int)),
        decreases s.len() - i,
    {
        let ghost p = s@.take(i + 1);
        assert(p.drop_last() == s@.take(i as int));
        let c = s[i];
        if !char_is_whitespace(c) {
            if i >= 1 && char_is_whitespace(s[i - 1]) && r.len() > 0 {
                r.push(' ');
                r.push(c);
                assert(r@ =~= collapse_whitespace(p));
            } else {
                r.push(c);
            }
        }
        i += 1;
    }
    assert(s@.take(s.len() as int) == s@);
    string_of(r.as_slice())
}

/// `s` without its Unicode whitespace characters.
pub open spec fn without_whitespace(s: Seq<char>) -> Seq<char>
    decreases s.len(),
{
    if s.len() == 0 {
        s
    } else if unicode_white_space(s.last()) {
        without_whitespace(s.drop_last())
    } else {
        without_whitespace(s.drop_last()).push(s.last())
    }
}

pub fn remove_whitespace(s: &[char]) -> (r: Vec<char>)
    ensures
        r@ == without_whitespace(s@),
{
    let mut r: Vec<char> = Vec::new();
    let mut i: usize = 0;
    while i < s.len()
        invariant
            i <= s.len(),
            r@ == without_whitespace(s@.take(i as int)),
        decreases s.len() - i,
    {
        assert(s@.take(i + 1).drop_last() == s@.take(i as int));
        if !char_is_whitespace(s[i]) {
            r.push(s[i]);
        }
        i += 1;
    }
    assert(s@.take(s.len() as int) == s@);
    r
}

/// `s` without its leading characters that satisfy `p`.
pub open spec fn trim_start_by(s: Seq<char>, p: spec_fn(char) -> bool) -> Seq<char>
    decreases s.len(),
{
    if s.len() > 0 && p(s[0]) {
        trim_start_by(s.drop_first(), p)
    } else {
        s
    }
}

/// `s` without its trailing characters that satisfy `p`.
pub open spec fn trim_end_by(s: Seq<char>, p: spec_fn(char) -> bool) -> Seq<char>
    decreases s.len(),
{
    if s.len() > 0 && p(s.last()) {
        trim_end_by(s.drop_last(), p)
    } else {
        s
    }
}

pub open spec fn ws_pred() -> spec_fn(char) -> bool {
    |c: char| unicode_white_space(c)
}

/// `str::trim`: `s` without leading and trailing Unicode whitespace.
pub open spec fn trim_ws(s: Seq<char>) -> Seq<char> {
    trim_end_by(trim_start_by(s, ws_pred()), ws_pred())
}

pub proof fn lemma_trim_start_skip(s: Seq<char>, p: spec_fn(char) -> bool, i: int)
    requires
        0 <= i <= s.len(),
        forall|k: int| 0 <= k < i ==> p(s[k]),
    ensures
        trim_start_by(s, p) == trim_start_by(s.subrange(i, s.len() as int), p),
    decreases i,
{
    if i > 0 {
        assert(p(s[0]));
        lemma_trim_start_skip(s.drop_first(), p, i - 1);
        assert(s.drop_first().subrange(i - 1, s.drop_first().len() as int) == s.subrange(
            i,
            s.len() as int,
        ));
    } else {
        assert(s.subrange(0, s.len() as int) == s);
    }
}

pub proof fn lemma_trim_end_skip(s: Seq<char>, p: spec_fn(char) -> bool, j: int)
    requires
        0 <= j <= s.len(),
        forall|k: int| j <= k < s.len() ==> p(s[k]),
    ensures
        trim_end_by(s, p) == trim_end_by(s.subrange(0, j), p),
    decreases s.len() - j,
{
    if j < s.len() {
        assert(p(s.last()));
        lemma_trim_end_skip(s.drop_last(), p, j);
        assert(s.drop_last().subrange(0, j) == s.subrange(0, j));
    } else {
        assert(s.subrange(0, j) == s);
    }
}

/// The bounds `(start, end)` such that `s[start..end]` is `trim_ws(s)`.
pub fn trim_bounds(s: &[char]) -> (r: (usize, usize))
    ensures
        r.0 <= r.1 <= s.len(),
        s@.subrange(r.0 as int, r.1 as int) == trim_ws(s@),
{
    let mut start: usize = 0;
    while start < s.len() && char_is_whitespace(s[start])
        invariant
            start <= s.len(),
            forall|k: int| 0 <= k < start ==> unicode_white_space(s@[k]),
        decreases s.len() - start,
    {
        start += 1;
    }
    proof {
        lemma_trim_start_skip(s@, ws_pred(), start as int);
        assert(start == s.len() || !unicode_white_space(s@[start as int]));
    }
    let ghost rest = s@.subrange(start as int, s.len() as int);
    assert(trim_start_by(rest, ws_pred()) == rest);
    let mut end: usize = s.len();
    while end > start && char_is_whitespace(s[end - 1])
        invariant
            start <= end <= s.len(),
            rest == s@.subrange(start as int, s.len() as int),
            forall|k: int| end <= k < s.len() ==> unicode_white_space(s@[k]),
        decreases end,
    {
        end -= 1;
    }
    proof {
        let n = rest.len() as int;
        let j = end - start;
        assert forall|k: int| j <= k < n implies (ws_pred())(rest[k]) by {
            assert(rest[k] == s@[start + k]);
        }
        lemma_trim_end_skip(rest, ws_pred(), j);
        assert(rest.subrange(0, j) == s@.subrange(start as int, end as int));
        let t = s@.subrange(start as int, end as int);
        if t.len() > 0 {
            assert(t.last() == s@[end - 1]);
        }
    }
    (start, end)
}

/// `str::trim` on a character slice.
pub fn trim_chars(s: &[char]) -> (r: Vec<char>)
    ensures
        r@ == trim_ws(s@),
{
    let (a, b) = trim_bounds(s);
    slice_range(s, a, b)
}

/// `str::trim` on a text.
pub fn trim_str<'a>(s: &'a str) -> (r: &'a str)
    ensures
        r@ == trim_ws(s@),
{
    let v = chars_of(s);
    let (a, b) = trim_bounds(v.as_slice());
    s.substring_char(a, b)
}

/// The characters of `s` from `start` up to `end`.
pub fn slice_range(s: &[char], start: usize, end: usize) -> (r: Vec<char>)
    requires
        start <= end <= s.len(),
    ensures
        r@ == s@.subrange(start as int, end as int),
{
    let mut r: Vec<char> = Vec::new();
    let mut i: usize = start;
    while i < end
        invariant
            start <= i <= end <= s.len(),
            r@ == s@.subrange(start as int, i as int),
        decreases end - i,
    {
        r.push(s[i]);
        i += 1;
        assert(r@ == s@.subrange(start as int, i as int));
    }
    r
}

} // verus!

verus! {

// ---------------------------------------------------------------------------
// Searching by character class
// ---------------------------------------------------------------------------

/// The class of the characters of `set`.
pub open spec fn in_set(set: Seq<char>) -> spec_fn(char) -> bool {
    |c: char| set.contains(c)
}

/// The class of Unicode whitespace characters.
pub open spec fn is_ws_class() -> spec_fn(char) -> bool {
    |c: char| unicode_white_space(c)
}

/// The class of Unicode numeric characters.
pub open spec fn is_numeric_class() -> spec_fn(char) -> bool {
    |c: char| unicode_numeric(c)
}

pub open spec fn has_where(s: Seq<char>, p: spec_fn(char) -> bool) -> bool {
    exists|i: int| 0 <= i < s.len() && #[trigger] p(s[i])
}

pub open spec fn is_first_where(s: Seq<char>, p: spec_fn(char) -> bool, i: int) -> bool {
    0 <= i < s.len() && p(s[i]) && forall|k: int| 0 <= k < i ==> !#[trigger] p(s[k])
}

pub open spec fn is_last_where(s: Seq<char>, p: spec_fn(char) -> bool, i: int) -> bool {
    0 <= i < s.len() && p(s[i]) && forall|k: int| i < k < s.len() ==> !#[trigger] p(s[k])
}

/// The index of the first character of `s` in class `p` (meaningful when `has_where`).
pub open spec fn first_where(s: Seq<char>, p: spec_fn(char) -> bool) -> int {
    choose|i: int| is_first_where(s, p, i)
}

/// The index of the last character of `s` in class `p` (meaningful when `has_where`).
pub open spec fn last_where(s: Seq<char>, p: spec_fn(char) -> bool) -> int {
    choose|i: int| is_last_where(s, p, i)
}

/// `s.split(p).next()`: the part of `s` before its first character in class `p`.
pub open spec fn before_first(s: Seq<char>, p: spec_fn(char) -> bool) -> Seq<char> {
    if has_where(s, p) {
        s.take(first_where(s, p))
    } else {
        s
    }
}

/// The part of `s` after its first character in class `p` (all of `s` when there is none).
pub open spec fn after_first(s: Seq<char>, p: spec_fn(char) -> bool) -> Seq<char> {
    if has_where(s, p) {
        s.skip(first_where(s, p) + 1)
    } else {
        s
    }
}

/// `s.rsplit(p).next()`: the part of `s` after its last character in class `p`.
pub open spec fn after_last(s: Seq<char>, p: spec_fn(char) -> bool) -> Seq<char> {
    if has_where(s, p) {
        s.skip(last_where(s, p) + 1)
    } else {
        s
    }
}

/// The part of `s` before its last character in class `p` (all of `s` when there is none).
pub open spec fn before_last(s: Seq<char>, p: spec_fn(char) -> bool) -> Seq<char> {
    if has_where(s, p) {
        s.take(last_where(s, p))
    } else {
        s
    }
}

/// Membership in a one-character class is equality with that character.
pub proof fn lemma_in_single(x: char, c: char)
    ensures
        in_set(seq![c])(x) <==> x == c,
{
    if x == c {
        assert(seq![c][0] == x);
    }
}

pub proof fn lemma_first_where_unique(s: Seq<char>, p: spec_fn(char) -> bool, i: int)
    requires
        is_first_where(s, p, i),
    ensures
        has_where(s, p),
        first_where(s, p) == i,
{
    assert(p(s[i]));
    let j = first_where(s, p);
    assert(is_first_where(s, p, j));
    if j < i {
        assert(!p(s[j]));
    } else if i < j {
        assert(!p(s[i]));
    }
}

pub proof fn lemma_last_where_unique(s: Seq<char>, p: spec_fn(char) -> bool, i: int)
    requires
        is_last_where(s, p, i),
    ensures
        has_where(s, p),
        last_where(s, p) == i,
{
    assert(p(s[i]));
    let j = last_where(s, p);
    assert(is_last_where(s, p, j));
    if j < i {
        assert(!p(s[i]));
    } else if i < j {
        assert(!p(s[j]));
    }
}

/// The index of the first character of `s` that is one of `set`.
pub fn find_first_in(s: &[char], set: &[char]) -> (r: Option<usize>)
    ensures
        match r {
            Some(i) => i < s@.len() && has_where(s@, in_set(set@)) && first_where(s@, in_set(set@))
                == i,
            None => !has_where(s@, in_set(set@)),
        },
{
    let mut i: usize = 0;
    while i < s.len()
        invariant
            i <= s.len(),
            forall|k: int| 0 <= k < i ==> !#[trigger] (in_set(set@))(s@[k]),
        decreases s.len() - i,
    {
        if contains_char(set, s[i]) {
            proof {
                lemma_first_where_unique(s@, in_set(set@), i as int);
            }
            return Some(i);
        }
        i += 1;
    }
    None
}

/// The index of the last character of `s` that is one of `set`.
pub fn find_last_in(s: &[char], set: &[char]) -> (r: Option<usize>)
    ensures
        match r {
            Some(i) => i < s@.len() && has_where(s@, in_set(set@)) && last_where(s@, in_set(set@))
                == i,
            None => !has_where(s@, in_set(set@)),
        },
{
    let mut i: usize = s.len();
    while i > 0
        invariant
            i <= s.len(),
            forall|k: int| i <= k < s.len() ==> !#[trigger] (in_set(set@))(s@[k]),
        decreases i,
    {
        if contains_char(set, s[i - 1]) {
            proof {
                lemma_last_where_unique(s@, in_set(set@), i - 1);
            }
            return Some(i - 1);
        }
        i -= 1;
    }
    None
}

/// The index of the last whitespace character of `s`.
pub fn find_last_whitespace(s: &[char]) -> (r: Option<usize>)
    ensures
        match r {
            Some(i) => i < s@.len() && has_where(s@, is_ws_class()) && last_where(s@, is_ws_class())
                == i,
            None => !has_where(s@, is_ws_class()),
        },
{
    let mut i: usize = s.len();
    while i > 0
        invariant
            i <= s.len(),
            forall|k: int| i <= k < s.len() ==> !#[trigger] (is_ws_class())(s@[k]),
        decreases i,
    {
        if char_is_whitespace(s[i - 1]) {
            proof {
                lemma_last_where_unique(s@, is_ws_class(), i - 1);
            }
            return Some(i - 1);
        }
        i -= 1;
    }
    None
}

/// The end of `s` once its trailing characters of `set` are removed.
pub fn trim_end_in(s: &[char], set: &[char]) -> (r: usize)
    ensures
        r <= s.len(),
        s@.take(r as int) == trim_end_by(s@, in_set(set@)),
{
    let mut end: usize = s.len();
    while end > 0 && contains_char(set, s[end - 1])
        invariant
            end <= s.len(),
            forall|k: int| end <= k < s.len() ==> (in_set(set@))(s@[k]),
        decreases end,
    {
        end -= 1;
    }
    proof {
        lemma_trim_end_skip(s@, in_set(set@), end as int);
        assert(s@.subrange(0, end as int) == s@.take(end as int));
        if end > 0 {
            assert(s@.take(end as int).last() == s@[end - 1]);
        }
    }
    end
}

/// The start of `s` once its leading characters of `set` are removed.
pub fn trim_start_in(s: &[char], set: &[char]) -> (r: usize)
    ensures
        r <= s.len(),
        s@.skip(r as int) == trim_start_by(s@, in_set(set@)),
{
    let mut start: usize = 0;
    while start < s.len() && contains_char(set, s[start])
        invariant
            start <= s.len(),
            forall|k: int| 0 <= k < start ==> (in_set(set@))(s@[k]),
        decreases s.len() - start,
    {
        start += 1;
    }
    proof {
        lemma_trim_start_skip(s@, in_set(set@), start as int);
        assert(s@.subrange(start as int, s@.len() as int) == s@.skip(start as int));
    }
    start
}

/// The end of `s` once its trailing numeric characters are removed.
pub fn trim_end_numeric(s: &[char]) -> (r: usize)
    ensures
        r <= s.len(),
        s@.take(r as int) == trim_end_by(s@, is_numeric_class()),
{
    let mut end: usize = s.len();
    while end > 0 && char_is_numeric(s[end - 1])
        invariant
            end <= s.len(),
            forall|k: int| end <= k < s.len() ==> (is_numeric_class())(s@[k]),
        decreases end,
    {
        end -= 1;
    }
    proof {
        lemma_trim_end_skip(s@, is_numeric_class(), end as int);
        assert(s@.subrange(0, end as int) == s@.take(end as int));
    }
    end
}

/// The start of `s` once its leading whitespace is removed.
pub fn trim_start_whitespace(s: &[char]) -> (r: usize)
    ensures
        r <= s.len(),
        s@.skip(r as int) == trim_start_by(s@, is_ws_class()),
{
    let mut start: usize = 0;
    while start < s.len() && char_is_whitespace(s[start])
        invariant
            start <= s.len(),
            forall|k: int| 0 <= k < start ==> (is_ws_class())(s@[k]),
        decreases s.len() - start,
    {
        start += 1;
    }
    proof {
        lemma_trim_start_skip(s@, is_ws_class(), start as int);
        assert(s@.subrange(start as int, s@.len() as int) == s@.skip(start as int));
    }
    start
}

/// Trimming the front leaves a suffix of `s`.
pub proof fn lemma_trim_start_len(s: Seq<char>, p: spec_fn(char) -> bool)
    ensures
        trim_start_by(s, p).len() <= s.len(),
        trim_start_by(s, p) == s.skip(s.len() - trim_start_by(s, p).len()),
    decreases s.len(),
{
    if s.len() > 0 && p(s[0]) {
        lemma_trim_start_len(s.drop_first(), p);
        let t = trim_start_by(s.drop_first(), p);
        assert(s.drop_first().skip(s.drop_first().len() - t.len()) == s.skip(s.len() - t.len()));
    } else {
        assert(s.skip(0) == s);
    }
}

/// Trimming the back leaves a prefix of `s`.
pub proof fn lemma_trim_end_len(s: Seq<char>, p: spec_fn(char) -> bool)
    ensures
        trim_end_by(s, p).len() <= s.len(),
        trim_end_by(s, p) == s.take(trim_end_by(s, p).len() as int),
    decreases s.len(),
{
    if s.len() > 0 && p(s.last()) {
        lemma_trim_end_len(s.drop_last(), p);
        let t = trim_end_by(s.drop_last(), p);
        assert(s.drop_last().take(t.len() as int) == s.take(t.len() as int));
    } else {
        assert(s.take(s.len() as int) == s);
    }
}

/// The end of `s` once its trailing whitespace is removed.
pub fn trim_end_whitespace(s: &[char]) -> (r: usize)
    ensures
        r <= s.len(),
        s@.take(r as int) == trim_end_by(s@, is_ws_class()),
{
    let mut end: usize = s.len();
    while end > 0 && char_is_whitespace(s[end - 1])
        invariant
            end <= s.len(),
            forall|k: int| end <= k < s.len() ==> (is_ws_class())(s@[k]),
        decreases end,
    {
        end -= 1;
    }
    proof {
        lemma_trim_end_skip(s@, is_ws_class(), end as int);
        assert(s@.subrange(0, end as int) == s@.take(end as int));
    }
    end
}

} // verus!

verus! {

// ---------------------------------------------------------------------------
// Decimal numbers
// ---------------------------------------------------------------------------

pub open spec fn all_ascii_digits(s: Seq<char>) -> bool {
    forall|k: int| 0 <= k < s.len() ==> is_ascii_digit(#[trigger] s[k])
}

pub open spec fn digit_value(c: char) -> int {
    (c as u32) as int - ('0' as u32) as int
}

/// The value of a sequence of decimal digits.
pub open spec fn digits_value(s: Seq<char>) -> int
    decreases s.len(),
{
    if s.len() == 0 {
        0
    } else {
        digits_value(s.drop_last()) * 10 + digit_value(s.last())
    }
}

/// `i32::from_str`: an optional `+` or `-`, then one or more ASCII digits,
/// whose value fits in `i32`.
pub open spec fn spec_parse_i32(s: Seq<char>) -> Option<i32> {
    let signed = s.len() > 0 && (s[0] == '+' || s[0] == '-');
    let digits = if signed {
        s.drop_first()
    } else {
        s
    };
    let value = if signed && s[0] == '-' {
        -digits_value(digits)
    } else {
        digits_value(digits)
    };
    if digits.len() > 0 && all_ascii_digits(digits) && i32::MIN <= value <= i32::MAX {
        Some(value as i32)
    } else {
        None
    }
}

pub proof fn lemma_digits_value_nonneg(s: Seq<char>)
    requires
        all_ascii_digits(s),
    ensures
        digits_value(s) >= 0,
    decreases s.len(),
{
    if s.len() > 0 {
        lemma_digits_value_nonneg(s.drop_last());
        assert(is_ascii_digit(s.last()));
    }
}

/// A digit sequence is worth at least any of its prefixes.
pub proof fn lemma_digits_value_prefix(s: Seq<char>, i: int)
    requires
        all_ascii_digits(s),
        0 <= i <= s.len(),
    ensures
        digits_value(s.take(i)) <= digits_value(s),
    decreases s.len() - i,
{
    if i < s.len() {
        let t = s.take(i + 1);
        assert(t.drop_last() == s.take(i));
        lemma_digits_value_nonneg(s.take(i));
        assert(is_ascii_digit(t.last()));
        assert(digits_value(s.take(i)) <= digits_value(t)) by (nonlinear_arith)
            requires
                digits_value(t) == digits_value(s.take(i)) * 10 + digit_value(t.last()),
                digits_value(s.take(i)) >= 0,
                digit_value(t.last()) >= 0,
        ;
        lemma_digits_value_prefix(s, i + 1);
    } else {
        assert(s.take(i) == s);
    }
}

/// The value of the digits `s[start..]` when they are all ASCII digits and the
/// value is at most 2^31; `None` otherwise.
fn capped_digits_value(s: &[char], start: usize) -> (r: Option<i64>)
    requires
        start <= s.len(),
    ensures
        ({
            let d = s@.subrange(start as int, s@.len() as int);
            match r {
                Some(v) => all_ascii_digits(d) && v == digits_value(d) && 0 <= v <= 2147483648,
                None => !all_ascii_digits(d) || digits_value(d) > 2147483648,
            }
        }),
{
    let ghost d = s@.subrange(start as int, s@.len() as int);
    let mut value: i64 = 0;
    let mut i: usize = start;
    while i < s.len()
        invariant
            start <= i <= s.len(),
            d == s@.subrange(start as int, s@.len() as int),
            all_ascii_digits(d.take(i - start)),
            value == digits_value(d.take(i - start)),
            0 <= value <= 2147483648,
        decreases s.len() - i,
    {
        let c = s[i];
        assert(d[i - start] == s@[i as int]);
        if !is_ascii_digit_exec(c) {
            assert(!all_ascii_digits(d));
            return None;
        }
        let dv = (c as u32 - '0' as u32) as i64;
        assert(d.take(i - start + 1).drop_last() == d.take(i - start));
        assert(d.take(i - start + 1).last() == c);
        let next = value * 10 + dv;
        assert(all_ascii_digits(d.take(i - start + 1)));
        if next > 2147483648 {
            proof {
                if all_ascii_digits(d) {
                    lemma_digits_value_prefix(d, i - start + 1);
                }
            }
            return None;
        }
        value = next;
        i += 1;
    }
    assert(d.take(i - start) == d);
    Some(value)
}

/// Parses `i32` the way `str::parse::<i32>` does.
pub fn parse_i32(s: &[char]) -> (r: Option<i32>)
    ensures
        r == spec_parse_i32(s@),
{
    let signed = s.len() > 0 && (s[0] == '+' || s[0] == '-');
    let negative = signed && s[0] == '-';
    let start: usize = if signed { 1 } else { 0 };
    let ghost digits = if signed { s@.drop_first() } else { s@ };
    assert(digits == s@.subrange(start as int, s@.len() as int));
    if start >= s.len() {
        return None;
    }
    match capped_digits_value(s, start) {
        None => None,
        Some(value) => {
            if negative {
                Some((0 - value) as i32)
            } else if value <= 2147483647 {
                Some(value as i32)
            } else {
                None
            }
        },
    }
}

} // verus!

verus! {

// ---------------------------------------------------------------------------
// Lexicographic order of texts (by code point, as `str`'s `Ord` by bytes)
// ---------------------------------------------------------------------------

pub open spec fn seq_lt(a: Seq<char>, b: Seq<char>) -> bool
    decreases a.len(),
{
    if a.len() == 0 {
        b.len() > 0
    } else if b.len() == 0 {
        false
    } else if a[0] != b[0] {
        a[0] < b[0]
    } else {
        seq_lt(a.drop_first(), b.drop_first())
    }
}

pub proof fn lemma_seq_lt_irreflexive(a: Seq<char>)
    ensures
        !seq_lt(a, a),
    decreases a.len(),
{
    if a.len() > 0 {
        lemma_seq_lt_irreflexive(a.drop_first());
    }
}

pub proof fn lemma_seq_lt_transitive(a: Seq<char>, b: Seq<char>, c: Seq<char>)
    requires
        seq_lt(a, b),
        seq_lt(b, c),
    ensures
        seq_lt(a, c),
    decreases a.len(),
{
    if a.len() > 0 && b.len() > 0 && c.len() > 0 {
        if a[0] == b[0] && b[0] == c[0] {
            lemma_seq_lt_transitive(a.drop_first(), b.drop_first(), c.drop_first());
        }
    }
}

pub proof fn lemma_seq_lt_total(a: Seq<char>, b: Seq<char>)
    ensures
        a == b || seq_lt(a, b) || seq_lt(b, a),
    decreases a.len(),
{
    if a.len() > 0 && b.len() > 0 {
        if a[0] == b[0] {
            lemma_seq_lt_total(a.drop_first(), b.drop_first());
            if a.drop_first() == b.drop_first() {
                assert(a.drop_first().len() == b.drop_first().len());
                assert(a.len() == b.len());
                assert forall|k: int| 0 <= k < a.len() implies a[k] == b[k] by {
                    if k > 0 {
                        assert(a[k] == a.drop_first()[k - 1]);
                        assert(b[k] == b.drop_first()[k - 1]);
                    }
                }
                assert(a =~= b);
            }
        }
    } else if a.len() == 0 && b.len() == 0 {
        assert(a =~= b);
    }
}

pub proof fn lemma_seq_lt_asymmetric(a: Seq<char>, b: Seq<char>)
    requires
        seq_lt(a, b),
    ensures
        !seq_lt(b, a),
    decreases a.len(),
{
    if a.len() > 0 && b.len() > 0 && a[0] == b[0] {
        lemma_seq_lt_asymmetric(a.drop_first(), b.drop_first());
    }
}

/// `-1`, `0` or `1` as `a` is before, equal to, or after `b`.
pub fn order_chars(a: &[char], b: &[char]) -> (r: i8)
    ensures
        r == -1 <==> seq_lt(a@, b@),
        r == 0 <==> a@ == b@,
        r == 1 <==> seq_lt(b@, a@),
        r == -1 || r == 0 || r == 1,
{
    let mut i: usize = 0;
    proof {
        assert(a@.skip(0) == a@);
        assert(b@.skip(0) == b@);
    }
    while i < a.len() && i < b.len()
        invariant
            i <= a.len(),
            i <= b.len(),
            forall|k: int| 0 <= k < i ==> a@[k] == b@[k],
            seq_lt(a@, b@) == seq_lt(a@.skip(i as int), b@.skip(i as int)),
            seq_lt(b@, a@) == seq_lt(b@.skip(i as int), a@.skip(i as int)),
        decreases a.len() - i,
    {
        assert(a@.skip(i as int)[0] == a@[i as int]);
        assert(b@.skip(i as int)[0] == b@[i as int]);
        if a[i] != b[i] {
            if a[i] < b[i] {
                proof {
                    lemma_seq_lt_asymmetric(a@, b@);
                }
                return -1;
            } else {
                proof {
                    lemma_seq_lt_asymmetric(b@, a@);
                }
                return 1;
            }
        }
        assert(a@.skip(i as int).drop_first() == a@.skip(i + 1));
        assert(b@.skip(i as int).drop_first() == b@.skip(i + 1));
        i += 1;
    }
    if a.len() == b.len() {
        assert(a@ =~= b@);
        proof {
            lemma_seq_lt_irreflexive(a@);
        }
        0
    } else if a.len() < b.len() {
        assert(a@ != b@);
        proof {
            lemma_seq_lt_asymmetric(a@, b@);
        }
        -1
    } else {
        assert(a@ != b@);
        proof {
            lemma_seq_lt_asymmetric(b@, a@);
        }
        1
    }
}

} // verus!

verus! {

pub proof fn lemma_push_to_set<A>(s: Seq<A>, x: A)
    ensures
        s.push(x).to_set() == s.to_set().insert(x),
{
    assert forall|y: A| s.push(x).to_set().contains(y) <==> s.to_set().insert(x).contains(y) by {
        if s.push(x).contains(y) {
            let i = choose|i: int| 0 <= i < s.push(x).len() && s.push(x)[i] == y;
            if i < s.len() {
                assert(s[i] == y);
                assert(s.contains(y));
            }
        }
        if s.contains(y) {
            let i = choose|i: int| 0 <= i < s.len() && s[i] == y;
            assert(s.push(x)[i] == y);
        }
        if y == x {
            assert(s.push(x)[s.len() as int] == x);
        }
    }
    assert(s.push(x).to_set() =~= s.to_set().insert(x));
}

} // verus!

verus! {

// ---------------------------------------------------------------------------
// UTF-8 lengths
// ---------------------------------------------------------------------------

/// The number of bytes of the UTF-8 encoding of `c`.
pub open spec fn char_utf8_len(c: char) -> nat {
    if (c as u32) < 0x80 {
        1
    } else if (c as u32) < 0x800 {
        2
    } else if (c as u32) < 0x10000 {
        3
    } else {
        4
    }
}

/// The number of bytes of the UTF-8 encoding of `s` (what `str::len` returns).
pub open spec fn utf8_len(s: Seq<char>) -> nat
    decreases s.len(),
{
    if s.len() == 0 {
        0
    } else {
        utf8_len(s.drop_last()) + char_utf8_len(s.last())
    }
}

proof fn lemma_encode_utf8_concat(a: Seq<char>, b: Seq<char>)
    ensures
        vstd::utf8::encode_utf8(a + b) == vstd::utf8::encode_utf8(a) + vstd::utf8::encode_utf8(b),
    decreases a.len(),
{
    if a.len() == 0 {
        assert(a + b == b);
        assert(vstd::utf8::encode_utf8(a) == Seq::<u8>::empty());
        assert(Seq::<u8>::empty() + vstd::utf8::encode_utf8(b) == vstd::utf8::encode_utf8(b));
    } else {
        assert((a + b).drop_first() == a.drop_first() + b);
        assert((a + b)[0] == a[0]);
        lemma_encode_utf8_concat(a.drop_first(), b);
        assert(vstd::utf8::encode_scalar(a[0] as u32) + (vstd::utf8::encode_utf8(a.drop_first())
            + vstd::utf8::encode_utf8(b)) == (vstd::utf8::encode_scalar(a[0] as u32)
            + vstd::utf8::encode_utf8(a.drop_first())) + vstd::utf8::encode_utf8(b));
    }
}

/// `utf8_len` is the length of vstd's UTF-8 encoding, and so what `str::len` returns.
pub proof fn lemma_utf8_len_is_encoding_len(s: Seq<char>)
    ensures
        utf8_len(s) == vstd::utf8::encode_utf8(s).len(),
    decreases s.len(),
{
    if s.len() > 0 {
        lemma_utf8_len_is_encoding_len(s.drop_last());
        let c = s.last();
        assert(s == s.drop_last() + seq![c]);
        lemma_encode_utf8_concat(s.drop_last(), seq![c]);
        assert(seq![c].drop_first() == Seq::<char>::empty());
        assert(vstd::utf8::encode_utf8(seq![c]) == vstd::utf8::encode_scalar(c as u32)
            + vstd::utf8::encode_utf8(Seq::<char>::empty()));
        vstd::utf8::char_is_scalar(c);
    }
}

/// The bytes of a `str` (whose count `str::len` returns) number `utf8_len` of its characters.
pub proof fn lemma_str_len(s: &str)
    ensures
        vstd::string::StringSliceAdditionalSpecFns::spec_bytes(s).len() == utf8_len(s@),
{
    lemma_utf8_len_is_encoding_len(s@);
}

/// `char::len_utf8`.
pub fn char_len_utf8(c: char) -> (r: usize)
    ensures
        r == char_utf8_len(c),
{
    let code = c as u32;
    if code < 0x80 {
        1
    } else if code < 0x800 {
        2
    } else if code < 0x10000 {
        3
    } else {
        4
    }
}

/// Whether the UTF-8 encoding of `s` takes at most `limit` bytes.
pub fn utf8_len_within(s: &[char], limit: usize) -> (r: bool)
    ensures
        r == (utf8_len(s@) <= limit),
{
    let mut total: usize = 0;
    let mut i: usize = 0;
    while i < s.len()
        invariant
            i <= s.len(),
            total == utf8_len(s@.take(i as int)),
            total <= limit,
        decreases s.len() - i,
    {
        assert(s@.take(i + 1).drop_last() == s@.take(i as int));
        let w = char_len_utf8(s[i]);
        if w > limit - total {
            proof {
                lemma_utf8_len_prefix_mono(s@, i + 1, s.len() as int);
                assert(s@.take(s.len() as int) == s@);
            }
            return false;
        }
        total += w;
        i += 1;
    }
    assert(s@.take(s.len() as int) == s@);
    true
}

/// A longer prefix never takes fewer bytes.
pub proof fn lemma_utf8_len_prefix_mono(s: Seq<char>, i: int, j: int)
    requires
        0 <= i <= j <= s.len(),
    ensures
        utf8_len(s.take(i)) <= utf8_len(s.take(j)),
    decreases j - i,
{
    if i < j {
        lemma_utf8_len_prefix_mono(s, i, j - 1);
        assert(s.take(j).drop_last() == s.take(j - 1));
    }
}

} // verus!

verus! {

// ---------------------------------------------------------------------------
// Sorted string sets
// ---------------------------------------------------------------------------

pub open spec fn string_views(v: Seq<String>) -> Seq<Seq<char>> {
    v.map_values(|s: String| s@)
}

/// Strictly increasing in the order of `str`'s `Ord` (code-point lexicographic).
pub open spec fn strictly_sorted(v: Seq<Seq<char>>) -> bool {
    forall|i: int, j: int| 0 <= i < j < v.len() ==> seq_lt(#[trigger] v[i], #[trigger] v[j])
}

/// `s` with every `from` replaced by `to`.
pub open spec fn replace_char(s: Seq<char>, from: char, to: char) -> Seq<char> {
    s.map_values(|c: char| if c == from { to } else { c })
}

/// `str::replace` of one character by another.
pub fn replace_char_str(s: &str, from: char, to: char) -> (r: String)
    ensures
        r@ == replace_char(s@, from, to),
{
    let v = chars_of(s);
    let mut out: Vec<char> = Vec::new();
    let mut i: usize = 0;
    while i < v.len()
        invariant
            i <= v.len(),
            out@ == replace_char(v@.take(i as int), from, to),
        decreases v.len() - i,
    {
        let c = v[i];
        out.push(if c == from { to } else { c });
        assert(out@ =~= replace_char(v@.take(i + 1), from, to));
        i += 1;
    }
    assert(v@.take(v@.len() as int) == v@);
    string_of(out.as_slice())
}

/// Two strictly increasing sequences with the same elements are equal.
pub proof fn lemma_strictly_sorted_unique(a: Seq<Seq<char>>, b: Seq<Seq<char>>)
    requires
        strictly_sorted(a),
        strictly_sorted(b),
        forall|x: Seq<char>| a.contains(x) <==> b.contains(x),
    ensures
        a == b,
    decreases a.len(),
{
    if a.len() == 0 {
        if b.len() > 0 {
            assert(b.contains(b[0]));
        }
        assert(a =~= b);
    } else if b.len() == 0 {
        assert(a.contains(a[0]));
    } else {
        assert(a.contains(b[0]));
        assert(b.contains(a[0]));
        let i = choose|i: int| 0 <= i < a.len() && a[i] == b[0];
        let j = choose|j: int| 0 <= j < b.len() && b[j] == a[0];
        if a[0] != b[0] {
            if i > 0 && j > 0 {
                assert(seq_lt(a[0], a[i]));
                assert(seq_lt(b[0], b[j]));
                lemma_seq_lt_asymmetric(a[0], b[0]);
            }
        }
        let ta = a.drop_first();
        let tb = b.drop_first();
        assert forall|x: Seq<char>| ta.contains(x) <==> tb.contains(x) by {
            if ta.contains(x) {
                let k = choose|k: int| 0 <= k < ta.len() && ta[k] == x;
                assert(a[k + 1] == x);
                assert(seq_lt(a[0], x));
                lemma_seq_lt_irreflexive(x);
                assert(b.contains(x));
                let m = choose|m: int| 0 <= m < b.len() && b[m] == x;
                assert(tb[m - 1] == x);
            }
            if tb.contains(x) {
                let k = choose|k: int| 0 <= k < tb.len() && tb[k] == x;
                assert(b[k + 1] == x);
                assert(seq_lt(b[0], x));
                lemma_seq_lt_irreflexive(x);
                assert(a.contains(x));
                let m = choose|m: int| 0 <= m < a.len() && a[m] == x;
                assert(ta[m - 1] == x);
            }
        }
        assert(strictly_sorted(ta)) by {
            assert forall|p: int, q: int| 0 <= p < q < ta.len() implies seq_lt(
                #[trigger] ta[p],
                #[trigger] ta[q],
            ) by {
                assert(ta[p] == a[p + 1] && ta[q] == a[q + 1]);
            }
        }
        assert(strictly_sorted(tb)) by {
            assert forall|p: int, q: int| 0 <= p < q < tb.len() implies seq_lt(
                #[trigger] tb[p],
                #[trigger] tb[q],
            ) by {
                assert(tb[p] == b[p + 1] && tb[q] == b[q + 1]);
            }
        }
        lemma_strictly_sorted_unique(ta, tb);
        assert(a =~= seq![a[0]] + ta);
        assert(b =~= seq![b[0]] + tb);
    }
}

/// `sort` followed by `dedup`: the distinct strings of `v` in increasing order.
pub fn sorted_unique_strings(v: Vec<String>) -> (r: Vec<String>)
    ensures
        strictly_sorted(string_views(r@)),
        forall|x: Seq<char>| string_views(r@).contains(x) <==> string_views(v@).contains(x),
{
    let mut out: Vec<String> = Vec::new();
    let mut i: usize = 0;
    while i < v.len()
        invariant
            i <= v.len(),
            strictly_sorted(string_views(out@)),
            forall|x: Seq<char>|
                string_views(out@).contains(x) <==> string_views(v@.take(i as int)).contains(x),
        decreases v.len() - i,
    {
        let x = &v[i];
        let xc = chars_of(x.as_str());
        let mut p: usize = 0;
        let mut equal = false;
        loop
            invariant_except_break
                !equal,
            invariant
                p <= out.len(),
                xc@ == x@,
                forall|k: int| 0 <= k < p ==> seq_lt(#[trigger] string_views(out@)[k], x@),
            ensures
                equal ==> p < out.len() && string_views(out@)[p as int] == x@,
                !equal ==> p == out.len() || seq_lt(x@, string_views(out@)[p as int]),
            decreases out.len() - p,
        {
            if p == out.len() {
                break;
            }
            let oc = chars_of(out[p].as_str());
            let o = order_chars(oc.as_slice(), xc.as_slice());
            if o == 0 {
                equal = true;
                break;
            }
            if o == 1 {
                break;
            }
            p += 1;
        }
        let ghost views_before = string_views(out@);
        let ghost taken = string_views(v@.take(i as int));
        assert(string_views(v@.take(i + 1)) == taken.push(x@)) by {
            assert(v@.take(i + 1) == v@.take(i as int).push(v@[i as int]));
        }
        if equal {
            assert(views_before[p as int] == x@);
            assert forall|y: Seq<char>| string_views(out@).contains(y) <==> string_views(
                v@.take(i + 1),
            ).contains(y) by {
                if y == x@ {
                    assert(views_before.contains(y));
                    assert(taken.push(x@)[i as int] == y);
                }
                if taken.push(x@).contains(y) && y != x@ {
                    let k = choose|k: int| 0 <= k < taken.push(x@).len() && taken.push(x@)[k] == y;
                    assert(taken[k] == y);
                }
                if taken.contains(y) {
                    let k = choose|k: int| 0 <= k < taken.len() && taken[k] == y;
                    assert(taken.push(x@)[k] == y);
                }
            }
        } else {
            out.insert(p, x.clone());
            proof {
                let nv = string_views(out@);
                assert(nv == views_before.insert(p as int, x@));
                assert forall|a: int, b: int| 0 <= a < b < nv.len() implies seq_lt(
                    #[trigger] nv[a],
                    #[trigger] nv[b],
                ) by {
                    if p < views_before.len() {
                        lemma_seq_lt_total(views_before[p as int], x@);
                    }
                    if a < p && b == p {
                    } else if a < p && b > p {
                        assert(nv[b] == views_before[b - 1]);
                        if b - 1 > a {
                            assert(seq_lt(views_before[a], views_before[b - 1]));
                        }
                    } else if a == p && b > p {
                        assert(nv[b] == views_before[b - 1]);
                        if b - 1 > p {
                            assert(seq_lt(views_before[p as int], views_before[b - 1]));
                            lemma_seq_lt_transitive(x@, views_before[p as int], views_before[b - 1]);
                        }
                    } else if a > p {
                        assert(nv[a] == views_before[a - 1]);
                        assert(nv[b] == views_before[b - 1]);
                    }
                }
                assert forall|y: Seq<char>| nv.contains(y) <==> string_views(v@.take(i + 1)).contains(
                    y,
                ) by {
                    if nv.contains(y) {
                        let k = choose|k: int| 0 <= k < nv.len() && nv[k] == y;
                        if k < p {
                            assert(views_before[k] == y);
                            assert(views_before.contains(y));
                        } else if k > p {
                            assert(views_before[k - 1] == y);
                            assert(views_before.contains(y));
                        } else {
                            assert(taken.push(x@)[i as int] == y);
                        }
                        if views_before.contains(y) {
                            let m = choose|m: int| 0 <= m < taken.len() && taken[m] == y;
                            assert(taken.push(x@)[m] == y);
                        }
                    }
                    if taken.push(x@).contains(y) {
                        let k = choose|k: int| 0 <= k < taken.push(x@).len() && taken.push(x@)[k] == y;
                        if k == i {
                            assert(nv[p as int] == y);
                        } else {
                            assert(taken[k] == y);
                            assert(views_before.contains(y));
                            let m = choose|m: int| 0 <= m < views_before.len() && views_before[m] == y;
                            if m < p {
                                assert(nv[m] == y);
                            } else {
                                assert(nv[m + 1] == y);
                            }
                        }
                    }
                }
            }
        }
        i += 1;
    }
    assert(v@.take(v.len() as int) == v@);
    out
}

} // verus!

verus! {

// ---------------------------------------------------------------------------
// Splitting, joining and trimming by pattern
// ---------------------------------------------------------------------------

/// `i` is the first index at which `t` occurs in `s`.
pub open spec fn is_first_occurrence(s: Seq<char>, t: Seq<char>, i: int) -> bool {
    occurs_at(s, t, i) && forall|k: int| 0 <= k < i ==> !#[trigger] occurs_at(s, t, k)
}

/// `str::split_once` with a text pattern: the parts before and after the
/// first occurrence of `t`.
pub open spec fn split_once_sub(s: Seq<char>, t: Seq<char>) -> Option<(Seq<char>, Seq<char>)> {
    if contains_sub(s, t) {
        let i = choose|i: int| #[trigger] is_first_occurrence(s, t, i);
        Some((s.take(i), s.skip(i + t.len())))
    } else {
        None
    }
}

/// `s.split(t).next()`: the part of `s` before the first `t`.
pub open spec fn before_sub(s: Seq<char>, t: Seq<char>) -> Seq<char> {
    match split_once_sub(s, t) {
        Some(parts) => parts.0,
        None => s,
    }
}

pub proof fn lemma_first_occurrence_unique(s: Seq<char>, t: Seq<char>, i: int, j: int)
    requires
        is_first_occurrence(s, t, i),
        is_first_occurrence(s, t, j),
    ensures
        i == j,
{
    if i < j {
        assert(!occurs_at(s, t, i));
    } else if j < i {
        assert(!occurs_at(s, t, j));
    }
}

/// `str::split_once(t)` on characters.
pub fn split_once_chars(s: &[char], t: &str) -> (r: Option<(Vec<char>, Vec<char>)>)
    ensures
        match r {
            Some(parts) => split_once_sub(s@, t@) == Some((parts.0@, parts.1@)),
            None => split_once_sub(s@, t@) is None,
        },
{
    let tc = chars_of(t);
    match find_sub(s, tc.as_slice()) {
        Some(i) => {
            proof {
                assert(is_first_occurrence(s@, t@, i as int));
                assert(contains_sub(s@, t@));
                let c = choose|c: int| #[trigger] is_first_occurrence(s@, t@, c);
                lemma_first_occurrence_unique(s@, t@, c, i as int);
            }
            assert(i + tc.len() <= s.len());
            let end = i + tc.len();
            (Some((slice_range(s, 0, i), slice_range(s, end, s.len()))))
        },
        None => None,
    }
}

/// `s.split(t).next()` on characters.
pub fn before_sub_chars(s: &[char], t: &str) -> (r: Vec<char>)
    ensures
        r@ == before_sub(s@, t@),
{
    match split_once_chars(s, t) {
        Some(parts) => parts.0,
        None => slice_range(s, 0, s.len()),
    }
}

/// `str::trim_end_matches` with a text pattern.
pub open spec fn trim_end_matches_sub(s: Seq<char>, t: Seq<char>) -> Seq<char>
    decreases s.len(),
{
    if t.len() > 0 && is_suffix(t, s) {
        trim_end_matches_sub(s.take(s.len() - t.len()), t)
    } else {
        s
    }
}

/// `str::trim_start_matches` with a text pattern.
pub open spec fn trim_start_matches_sub(s: Seq<char>, t: Seq<char>) -> Seq<char>
    decreases s.len(),
{
    if t.len() > 0 && is_prefix(t, s) {
        trim_start_matches_sub(s.skip(t.len() as int), t)
    } else {
        s
    }
}

pub fn trim_end_matches_chars(s: &[char], t: &str) -> (r: Vec<char>)
    ensures
        r@ == trim_end_matches_sub(s@, t@),
{
    let tc = chars_of(t);
    let mut cur = slice_range(s, 0, s.len());
    assert(cur@ == s@);
    if tc.len() == 0 {
        return cur;
    }
    loop
        invariant
            tc@ == t@,
            tc@.len() > 0,
            trim_end_matches_sub(cur@, t@) == trim_end_matches_sub(s@, t@),
        decreases cur@.len(),
    {
        if tc.len() <= cur.len() && occurs_at_exec(cur.as_slice(), tc.as_slice(), cur.len() - tc.len()) {
            let next = slice_range(cur.as_slice(), 0, cur.len() - tc.len());
            assert(next@ == cur@.take(cur@.len() - t@.len()));
            cur = next;
        } else {
            return cur;
        }
    }
}

pub fn trim_start_matches_chars(s: &[char], t: &str) -> (r: Vec<char>)
    ensures
        r@ == trim_start_matches_sub(s@, t@),
{
    let tc = chars_of(t);
    let mut cur = slice_range(s, 0, s.len());
    assert(cur@ == s@);
    if tc.len() == 0 {
        return cur;
    }
    loop
        invariant
            tc@ == t@,
            tc@.len() > 0,
            trim_start_matches_sub(cur@, t@) == trim_start_matches_sub(s@, t@),
        decreases cur@.len(),
    {
        if occurs_at_exec(cur.as_slice(), tc.as_slice(), 0) {
            let next = slice_range(cur.as_slice(), tc.len(), cur.len());
            assert(next@ == cur@.skip(t@.len() as int));
            cur = next;
        } else {
            return cur;
        }
    }
}

/// `parts.join(sep)`.
pub open spec fn join_with(parts: Seq<Seq<char>>, sep: Seq<char>) -> Seq<char>
    decreases parts.len(),
{
    if parts.len() == 0 {
        Seq::<char>::empty()
    } else if parts.len() == 1 {
        parts[0]
    } else {
        join_with(parts.drop_last(), sep) + sep + parts.last()
    }
}

/// `parts.join(sep)` on character pieces.
pub fn join_chars(parts: &Vec<Vec<char>>, sep: &str) -> (r: Vec<char>)
    ensures
        r@ == join_with(char_views(parts@), sep@),
{
    let sc = chars_of(sep);
    let mut r: Vec<char> = Vec::new();
    let mut i: usize = 0;
    while i < parts.len()
        invariant
            i <= parts.len(),
            sc@ == sep@,
            r@ == join_with(char_views(parts@).take(i as int), sep@),
        decreases parts.len() - i,
    {
        let ghost before = r@;
        let ghost prefix = char_views(parts@).take(i + 1);
        assert(prefix.drop_last() == char_views(parts@).take(i as int));
        if i > 0 {
            let mut k: usize = 0;
            while k < sc.len()
                invariant
                    k <= sc.len(),
                    r@ == before + sc@.take(k as int),
                decreases sc.len() - k,
            {
                r.push(sc[k]);
                k += 1;
                assert(r@ =~= before + sc@.take(k as int));
            }
            assert(sc@.take(sc@.len() as int) == sc@);
        }
        let ghost mid = r@;
        let piece = &parts[i];
        let mut k: usize = 0;
        while k < piece.len()
            invariant
                k <= piece.len(),
                r@ == mid + piece@.take(k as int),
            decreases piece.len() - k,
        {
            r.push(piece[k]);
            k += 1;
            assert(r@ =~= mid + piece@.take(k as int));
        }
        assert(piece@.take(piece@.len() as int) == piece@);
        assert(prefix.last() == piece@);
        if i == 0 {
            assert(r@ =~= join_with(prefix, sep@));
        } else {
            assert(r@ =~= join_with(prefix, sep@));
        }
        i += 1;
    }
    assert(char_views(parts@).take(parts@.len() as int) == char_views(parts@));
    r
}

pub open spec fn char_views(v: Seq<Vec<char>>) -> Seq<Seq<char>> {
    v.map_values(|x: Vec<char>| x@)
}

} // verus!

verus! {

pub proof fn lemma_first_occurrence_exists(s: Seq<char>, t: Seq<char>, j: int)
    requires
        occurs_at(s, t, j),
    ensures
        exists|i: int| #[trigger] is_first_occurrence(s, t, i),
    decreases j,
{
    if exists|k: int| 0 <= k < j && #[trigger] occurs_at(s, t, k) {
        let k = choose|k: int| 0 <= k < j && #[trigger] occurs_at(s, t, k);
        lemma_first_occurrence_exists(s, t, k);
    } else {
        assert(is_first_occurrence(s, t, j));
    }
}

/// The split parts of `split_once_sub` are shorter than `s` (for a non-empty pattern).
pub proof fn lemma_split_once_sub_shorter(s: Seq<char>, t: Seq<char>)
    requires
        t.len() > 0,
        contains_sub(s, t),
    ensures
        split_once_sub(s, t) matches Some(parts) && parts.1.len() < s.len() && parts.0.len()
            < s.len(),
{
    let j = choose|j: int| occurs_at(s, t, j);
    lemma_first_occurrence_exists(s, t, j);
}

/// `s.split(t)` with a non-empty text pattern.
pub open spec fn split_sub(s: Seq<char>, t: Seq<char>) -> Seq<Seq<char>>
    decreases s.len(),
{
    if t.len() > 0 && contains_sub(s, t) {
        proof {
            lemma_split_once_sub_shorter(s, t);
        }
        let parts = split_once_sub(s, t).unwrap();
        seq![parts.0] + split_sub(parts.1, t)
    } else {
        seq![s]
    }
}

pub proof fn lemma_split_sub_nonempty(s: Seq<char>, t: Seq<char>)
    ensures
        split_sub(s, t).len() >= 1,
    decreases s.len(),
{
    if t.len() > 0 && contains_sub(s, t) {
        lemma_split_once_sub_shorter(s, t);
        lemma_split_sub_nonempty(split_once_sub(s, t).unwrap().1, t);
    }
}

/// `s.split(t)` on characters, for a non-empty pattern.
pub fn split_sub_chars(s: &[char], t: &str) -> (r: Vec<Vec<char>>)
    requires
        t@.len() > 0,
    ensures
        char_views(r@) == split_sub(s@, t@),
{
    let mut done: Vec<Vec<char>> = Vec::new();
    let mut rest: Vec<char> = slice_range(s, 0, s.len());
    assert(rest@ == s@);
    loop
        invariant
            t@.len() > 0,
            char_views(done@) + split_sub(rest@, t@) == split_sub(s@, t@),
        decreases rest@.len(),
    {
        match split_once_chars(rest.as_slice(), t) {
            Some(parts) => {
                proof {
                    lemma_split_once_sub_shorter(rest@, t@);
                    assert(split_sub(rest@, t@) == seq![parts.0@] + split_sub(parts.1@, t@));
                }
                let ghost old_done = char_views(done@);
                done.push(parts.0);
                assert(char_views(done@) == old_done.push(parts.0@));
                assert(char_views(done@) + split_sub(parts.1@, t@) =~= old_done + (seq![parts.0@]
                    + split_sub(parts.1@, t@)));
                rest = parts.1;
            },
            None => {
                let ghost old_done = char_views(done@);
                done.push(rest);
                assert(char_views(done@) =~= old_done + seq![rest@]);
                return done;
            },
        }
    }
}

} // verus!

verus! {

// ---------------------------------------------------------------------------
// Lines
// ---------------------------------------------------------------------------

/// A line without the `\r` of a `\r\n` ending.
pub open spec fn strip_cr(s: Seq<char>) -> Seq<char> {
    if s.len() > 0 && s.last() == '\r' {
        s.drop_last()
    } else {
        s
    }
}

/// `str::lines`: the pieces between `\n`s, each without the `\r` before its
/// `\n`; a final empty piece (after a trailing `\n`, or of the empty text)
/// is not a line.
pub open spec fn text_lines(s: Seq<char>) -> Seq<Seq<char>> {
    let p = crate::census::split_on(s, '\n');
    let body = Seq::new((p.len() - 1) as nat, |i: int| strip_cr(p[i]));
    if p.len() >= 1 && p[p.len() - 1].len() > 0 {
        body.push(p[p.len() - 1])
    } else {
        body
    }
}

pub fn lines_of(s: &[char]) -> (r: Vec<Vec<char>>)
    ensures
        char_views(r@) == text_lines(s@),
{
    let pieces = crate::census::split_chars(s, '\n');
    let ghost p = crate::census::split_on(s@, '\n');
    proof {
        crate::census::lemma_split_on_nonempty(s@, '\n');
    }
    assert(crate::census::views_of_strings(pieces@) == p);
    let n = pieces.len();
    let mut out: Vec<Vec<char>> = Vec::new();
    let mut i: usize = 0;
    while i + 1 < n
        invariant
            n == pieces.len(),
            n >= 1,
            i + 1 <= n,
            crate::census::views_of_strings(pieces@) == p,
            char_views(out@) == Seq::new(i as nat, |k: int| strip_cr(p[k])),
        decreases n - i,
    {
        let c = chars_of(pieces[i].as_str());
        assert(c@ == p[i as int]);
        let line: Vec<char> = if c.len() > 0 && c[c.len() - 1] == '\r' {
            slice_range(c.as_slice(), 0, c.len() - 1)
        } else {
            c
        };
        assert(line@ == strip_cr(p[i as int]));
        let ghost old = out@;
        let ghost lv = line@;
        out.push(line);
        assert(out@ == old.push(line));
        assert(char_views(out@) =~= char_views(old).push(lv));
        assert(char_views(out@) =~= Seq::new((i + 1) as nat, |k: int| strip_cr(p[k])));
        i += 1;
    }
    let last = chars_of(pieces[n - 1].as_str());
    assert(last@ == p[n - 1]);
    if last.len() > 0 {
        let ghost old = out@;
        let ghost lv = last@;
        out.push(last);
        assert(out@ == old.push(last));
        assert(char_views(out@) =~= char_views(old).push(lv));
        assert(char_views(out@) =~= text_lines(s@));
    } else {
        assert(char_views(out@) =~= text_lines(s@));
    }
    out
}

} // verus!

