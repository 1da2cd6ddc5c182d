//! Exact SQL-literal inventory shared by every supported source language.
//!
//! A fact is emitted only when one string literal holds a complete SQL data
//! access statement and a concrete table identifier. Interpolation,
//! concatenation and query builders are never evaluated.
use vstd::prelude::*;

use crate::text::{
    ascii_lower, ascii_upper, chars_eq_str, collapse_whitespace, chars_of, contains_str, eq_ignore_ascii_case, is_ascii_ws, is_word_char, is_word_char_exec, string_of, to_ascii_lower_char, to_ascii_upper_char,
};

verus! {

// ---------------------------------------------------------------------------
// Tokens
// ---------------------------------------------------------------------------

/// The single-character punctuation tokens of the SQL scanner.
pub open spec fn is_sql_delimiter(c: char) -> bool {
    c == '(' || c == ')' || c == ',' || c == '.' || c == ';'
}

/// The index of the `\n` that ends a `--` comment scanned from `i` (or the end).
pub open spec fn line_comment_end(s: Seq<char>, i: int) -> int
    decreases s.len() - i,
{
    if i < 0 || i >= s.len() || s[i] == '\n' {
        i
    } else {
        line_comment_end(s, i + 1)
    }
}

/// The index of the `*` of the `*/` that closes a block comment scanned from
/// `i`, or the last index when there is none.
pub open spec fn block_comment_scan(s: Seq<char>, i: int) -> int
    decreases s.len() - i,
{
    if 0 <= i && i + 1 < s.len() && !(s[i] == '*' && s[i + 1] == '/') {
        block_comment_scan(s, i + 1)
    } else {
        i
    }
}

/// The index after the `'` that closes a string literal scanned from `i`;
/// a doubled `''` is an escaped quote.
pub open spec fn quote_end(s: Seq<char>, i: int) -> int
    decreases s.len() - i,
{
    if i < 0 || i >= s.len() {
        i
    } else if s[i] == '\'' {
        if i + 1 < s.len() && s[i + 1] == '\'' {
            quote_end(s, i + 2)
        } else {
            i + 1
        }
    } else {
        quote_end(s, i + 1)
    }
}

/// The index after `closing` scanned from `i` (or the end).
pub open spec fn quoted_identifier_end(s: Seq<char>, i: int, closing: char) -> int
    decreases s.len() - i,
{
    if i < 0 || i >= s.len() {
        i
    } else if s[i] == closing {
        i + 1
    } else {
        quoted_identifier_end(s, i + 1, closing)
    }
}

/// The end of a bare word scanned from `i`.
pub open spec fn word_end(s: Seq<char>, i: int) -> int
    decreases s.len() - i,
{
    if 0 <= i < s.len() && !is_ascii_ws(s[i]) && !is_sql_delimiter(s[i]) && s[i] != '\'' {
        word_end(s, i + 1)
    } else {
        i
    }
}

pub proof fn lemma_scans_advance(s: Seq<char>, i: int, closing: char)
    requires
        0 <= i,
    ensures
        i <= line_comment_end(s, i) <= if i <= s.len() { s.len() as int } else { i },
        i <= block_comment_scan(s, i),
        block_comment_scan(s, i) <= if i <= s.len() { s.len() as int } else { i },
        i <= quote_end(s, i) <= if i <= s.len() { s.len() as int } else { i },
        i <= quoted_identifier_end(s, i, closing) <= if i <= s.len() { s.len() as int } else { i },
        i <= word_end(s, i) <= if i <= s.len() { s.len() as int } else { i },
    decreases s.len() - i,
{
    if i < s.len() {
        lemma_scans_advance(s, i + 1, closing);
        if i + 2 <= s.len() {
            lemma_scans_advance(s, i + 2, closing);
        }
    }
}

/// The closing character of a quoted identifier opened by `c`.
pub open spec fn closing_of(c: char) -> char {
    if c == '[' {
        ']'
    } else {
        c
    }
}

/// The SQL tokens of `s` from index `i`: whitespace and comments are
/// skipped, a string literal becomes `?`, punctuation is one token, quoted
/// identifiers and bare words are kept verbatim.
pub open spec fn sql_tokens_from(s: Seq<char>, i: int) -> Seq<Seq<char>>
    decreases s.len() - i,
{
    if i < 0 || i >= s.len() {
        Seq::empty()
    } else {
        let c = s[i];
        proof {
            lemma_scans_advance(s, i + 1, closing_of(c));
            lemma_scans_advance(s, i + 2, closing_of(c));
            lemma_scans_advance(s, i, closing_of(c));
        }
        if is_ascii_ws(c) {
            sql_tokens_from(s, i + 1)
        } else if c == '-' && i + 1 < s.len() && s[i + 1] == '-' {
            sql_tokens_from(s, line_comment_end(s, i + 2))
        } else if c == '/' && i + 1 < s.len() && s[i + 1] == '*' {
            let e = block_comment_scan(s, i + 2) + 2;
            sql_tokens_from(s, if e < s.len() { e } else { s.len() as int })
        } else if c == '\'' {
            seq![seq!['?']] + sql_tokens_from(s, quote_end(s, i + 1))
        } else if is_sql_delimiter(c) {
            seq![seq![c]] + sql_tokens_from(s, i + 1)
        } else if c == '"' || c == '`' || c == '[' {
            let e = quoted_identifier_end(s, i + 1, closing_of(c));
            seq![s.subrange(i, e)] + sql_tokens_from(s, e)
        } else {
            let e = word_end(s, i);
            seq![s.subrange(i, e)] + sql_tokens_from(s, e)
        }
    }
}

pub open spec fn spec_sql_tokens(s: Seq<char>) -> Seq<Seq<char>> {
    sql_tokens_from(s, 0)
}

fn is_ascii_ws_exec(c: char) -> (b: bool)
    ensures
        b == is_ascii_ws(c),
{
    c == ' ' || c == '\t' || c == '\n' || c == '\x0C' || c == '\r'
}

fn is_sql_delimiter_exec(c: char) -> (b: bool)
    ensures
        b == is_sql_delimiter(c),
{
    c == '(' || c == ')' || c == ',' || c == '.' || c == ';'
}

fn one_char(c: char) -> (s: String)
    ensures
        s@ == seq![c],
{
    let mut s = String::new();
    crate::text::push_char(&mut s, c);
    s
}

/// Splits SQL text into tokens (see `sql_tokens_from`).
pub fn sql_tokens(sql: &str) -> (r: Vec<String>)
    ensures
        r@.map_values(|t: String| t@) == spec_sql_tokens(sql@),
{
    let v = chars_of(sql);
    let s = v.as_slice();
    let n = s.len();
    let mut tokens: Vec<String> = Vec::new();
    let mut index: usize = 0;
    while index < n
        invariant
            n == s@.len(),
            s@ == sql@,
            index <= n,
            tokens@.map_values(|t: String| t@) + sql_tokens_from(s@, index as int) == spec_sql_tokens(
                s@,
            ),
        decreases n - index,
    {
        let ghost before = tokens@.map_values(|t: String| t@);
        let ghost i = index as int;
        let c = s[index];
        proof {
            lemma_scans_advance(s@, i + 1, closing_of(c));
            lemma_scans_advance(s@, i + 2, closing_of(c));
            lemma_scans_advance(s@, i, closing_of(c));
        }
        if is_ascii_ws_exec(c) {
            index += 1;
            continue;
        }
        if c == '-' && n - index > 1 && s[index + 1] == '-' {
            index += 2;
            while index < n && s[index] != '\n'
                invariant
                    index <= n,
                    n == s@.len(),
                    i + 2 <= index,
                    line_comment_end(s@, i + 2) == line_comment_end(s@, index as int),
                decreases n - index,
            {
                index += 1;
            }
            continue;
        }
        if c == '/' && n - index > 1 && s[index + 1] == '*' {
            index += 2;
            while n - index > 1 && !(s[index] == '*' && s[index + 1] == '/')
                invariant
                    index <= n,
                    n == s@.len(),
                    i + 2 <= index,
                    block_comment_scan(s@, i + 2) == block_comment_scan(s@, index as int),
                decreases n - index,
            {
                index += 1;
            }
            index = if n - index > 2 { index + 2 } else { n };
            continue;
        }
        if c == '\'' {
            index += 1;
            while index < n
                invariant_except_break
                    quote_end(s@, i + 1) == quote_end(s@, index as int),
                invariant
                    index <= n,
                    n == s@.len(),
                    i + 1 <= index,
                ensures
                    index <= n,
                    quote_end(s@, i + 1) == index,
                decreases n - index,
            {
                if s[index] == '\'' {
                    if n - index > 1 && s[index + 1] == '\'' {
                        index += 2;
                        continue;
                    }
                    index += 1;
                    break;
                }
                index += 1;
            }
            tokens.push(one_char('?'));
            proof {
                assert(tokens@.map_values(|t: String| t@) == before.push(seq!['?']));
                assert(before + sql_tokens_from(s@, i) == before.push(seq!['?']) + sql_tokens_from(
                    s@,
                    index as int,
                ));
            }
            continue;
        }
        if is_sql_delimiter_exec(c) {
            tokens.push(one_char(c));
            index += 1;
            proof {
                assert(tokens@.map_values(|t: String| t@) == before.push(seq![c]));
                assert(before + sql_tokens_from(s@, i) == before.push(seq![c]) + sql_tokens_from(
                    s@,
                    index as int,
                ));
            }
            continue;
        }
        if c == '"' || c == '`' || c == '[' {
            let closing = if c == '[' { ']' } else { c };
            let start = index;
            index += 1;
            while index < n
                invariant_except_break
                    quoted_identifier_end(s@, i + 1, closing) == quoted_identifier_end(
                        s@,
                        index as int,
                        closing,
                    ),
                invariant
                    index <= n,
                    n == s@.len(),
                    i + 1 <= index,
                ensures
                    index <= n,
                    quoted_identifier_end(s@, i + 1, closing) == index,
                decreases n - index,
            {
                if s[index] == closing {
                    index += 1;
                    break;
                }
                index += 1;
            }
            let token = crate::text::string_of_range(s, start, index);
            tokens.push(token);
            proof {
                assert(tokens@.map_values(|t: String| t@) == before.push(s@.subrange(i, index as int)));
                assert(before + sql_tokens_from(s@, i) == before.push(s@.subrange(i, index as int))
                    + sql_tokens_from(s@, index as int));
            }
            continue;
        }
        let start = index;
        while index < n && !is_ascii_ws_exec(s[index]) && !is_sql_delimiter_exec(s[index]) && s[index]
            != '\''
            invariant
                index <= n,
                n == s@.len(),
                i <= index,
                word_end(s@, i) == word_end(s@, index as int),
            decreases n - index,
        {
            index += 1;
        }
        let token = crate::text::string_of_range(s, start, index);
        tokens.push(token);
        proof {
            assert(tokens@.map_values(|t: String| t@) == before.push(s@.subrange(i, index as int)));
            assert(before + sql_tokens_from(s@, i) == before.push(s@.subrange(i, index as int))
                + sql_tokens_from(s@, index as int));
        }
    }
    assert(sql_tokens_from(s@, index as int) == Seq::<Seq<char>>::empty());
    assert(tokens@.map_values(|t: String| t@) + Seq::<Seq<char>>::empty() == tokens@.map_values(
        |t: String| t@,
    ));
    tokens
}

} // verus!

verus! {

/// The character views of a token list.
pub open spec fn token_views(t: Seq<String>) -> Seq<Seq<char>> {
    t.map_values(|s: String| s@)
}

pub proof fn lemma_tokens_bounded(s: Seq<char>, i: int)
    requires
        0 <= i,
    ensures
        sql_tokens_from(s, i).len() <= if i <= s.len() { s.len() - i } else { 0 },
    decreases s.len() - i,
{
    if i < s.len() {
        let c = s[i];
        lemma_scans_advance(s, i + 1, closing_of(c));
        lemma_scans_advance(s, i + 2, closing_of(c));
        lemma_scans_advance(s, i, closing_of(c));
        if is_ascii_ws(c) {
            lemma_tokens_bounded(s, i + 1);
        } else if c == '-' && i + 1 < s.len() && s[i + 1] == '-' {
            lemma_tokens_bounded(s, line_comment_end(s, i + 2));
        } else if c == '/' && i + 1 < s.len() && s[i + 1] == '*' {
            let e = block_comment_scan(s, i + 2) + 2;
            lemma_tokens_bounded(s, if e < s.len() { e } else { s.len() as int });
        } else if c == '\'' {
            lemma_tokens_bounded(s, quote_end(s, i + 1));
        } else if is_sql_delimiter(c) {
            lemma_tokens_bounded(s, i + 1);
        } else if c == '"' || c == '`' || c == '[' {
            lemma_tokens_bounded(s, quoted_identifier_end(s, i + 1, closing_of(c)));
        } else {
            assert(word_end(s, i) == word_end(s, i + 1));
            lemma_tokens_bounded(s, word_end(s, i));
        }
    }
}

// ---------------------------------------------------------------------------
// Identifiers and tables
// ---------------------------------------------------------------------------

pub open spec fn spec_is_identifier(t: Seq<char>) -> bool {
    &&& t.len() > 0
    &&& t != "."@ && t != ","@ && t != "("@ && t != ")"@ && t != ";"@ && t != "?"@
    &&& t[0] != '$' && t[0] != ':' && t[0] != '%'
    &&& exists|k: int| 0 <= k < t.len() && is_word_char(#[trigger] t[k])
}

fn has_word_char(t: &[char]) -> (b: bool)
    ensures
        b == exists|k: int| 0 <= k < t@.len() && is_word_char(#[trigger] t@[k]),
{
    let mut k: usize = 0;
    while k < t.len()
        invariant
            k <= t.len(),
            forall|m: int| 0 <= m < k ==> !is_word_char(#[trigger] t@[m]),
        decreases t.len() - k,
    {
        if is_word_char_exec(t[k]) {
            assert(is_word_char(t@[k as int]));
            return true;
        }
        k += 1;
    }
    false
}

/// Whether a token can name a table or a keyword.
pub fn is_identifier(token: &str) -> (b: bool)
    ensures
        b == spec_is_identifier(token@),
{
    let t = chars_of(token);
    let t = t.as_slice();
    if t.len() == 0 || chars_eq_str(t, ".") || chars_eq_str(t, ",") || chars_eq_str(t, "(")
        || chars_eq_str(t, ")") || chars_eq_str(t, ";") || chars_eq_str(t, "?") {
        return false;
    }
    if t[0] == '$' || t[0] == ':' || t[0] == '%' {
        return false;
    }
    has_word_char(t)
}

/// The identifier quotes that `normalize_identifier` trims.
pub open spec fn identifier_quotes() -> spec_fn(char) -> bool {
    crate::text::in_set(seq!['"', '`', '[', ']'])
}

pub open spec fn spec_normalize_identifier(t: Seq<char>) -> Seq<char> {
    ascii_lower(
        crate::text::trim_end_by(crate::text::trim_start_by(t, identifier_quotes()), identifier_quotes()),
    )
}

fn lower_chars(s: &[char]) -> (r: String)
    ensures
        r@ == ascii_lower(s@),
{
    let mut r = String::new();
    let mut i: usize = 0;
    while i < s.len()
        invariant
            i <= s.len(),
            r@ == ascii_lower(s@.take(i as int)),
        decreases s.len() - i,
    {
        crate::text::push_char(&mut r, to_ascii_lower_char(s[i]));
        i += 1;
        assert(r@ =~= ascii_lower(s@.take(i as int)));
    }
    assert(s@.take(s.len() as int) == s@);
    r
}

fn upper_chars(s: &[char]) -> (r: Vec<char>)
    ensures
        r@ == ascii_upper(s@),
{
    let mut r: Vec<char> = Vec::new();
    let mut i: usize = 0;
    while i < s.len()
        invariant
            i <= s.len(),
            r@ == ascii_upper(s@.take(i as int)),
        decreases s.len() - i,
    {
        r.push(to_ascii_upper_char(s[i]));
        i += 1;
        assert(r@ =~= ascii_upper(s@.take(i as int)));
    }
    assert(s@.take(s.len() as int) == s@);
    r
}

/// Trims identifier quotes and lower-cases ASCII letters.
pub fn normalize_identifier(token: &str) -> (r: String)
    ensures
        r@ == spec_normalize_identifier(token@),
{
    let v = chars_of(token);
    let quotes = ['"', '`', '[', ']'];
    assert(quotes@ == seq!['"', '`', '[', ']']);
    let start = crate::text::trim_start_in(v.as_slice(), &quotes);
    let rest = vstd::slice::slice_subrange(v.as_slice(), start, v.len());
    let end = crate::text::trim_end_in(rest, &quotes);
    let body = vstd::slice::slice_subrange(rest, 0, end);
    lower_chars(body)
}

pub open spec fn spec_reserved_table_token(t: Seq<char>) -> bool {
    let u = ascii_upper(t);
    u == "SELECT"@ || u == "VALUES"@ || u == "UNNEST"@ || u == "TABLE"@ || u == "SET"@ || u
        == "WHERE"@ || u == "RETURNING"@
}

/// Whether a token after `FROM`/`JOIN`/`INTO` is a keyword rather than a table.
pub fn reserved_table_token(token: &str) -> (b: bool)
    ensures
        b == spec_reserved_table_token(token@),
{
    let v = chars_of(token);
    let u = upper_chars(v.as_slice());
    let u = u.as_slice();
    chars_eq_str(u, "SELECT") || chars_eq_str(u, "VALUES") || chars_eq_str(u, "UNNEST")
        || chars_eq_str(u, "TABLE") || chars_eq_str(u, "SET") || chars_eq_str(u, "WHERE")
        || chars_eq_str(u, "RETURNING")
}

/// The first index at or after `i` that is not an `ONLY`/`LATERAL` modifier.
pub open spec fn skip_table_modifiers(t: Seq<Seq<char>>, i: int) -> int
    decreases t.len() - i,
{
    if 0 <= i < t.len() && (ascii_upper(t[i]) == "ONLY"@ || ascii_upper(t[i]) == "LATERAL"@) {
        skip_table_modifiers(t, i + 1)
    } else {
        i
    }
}

/// Extends `acc` (whose last part is `t[i]`) with `.part` segments.
pub open spec fn dotted_table(t: Seq<Seq<char>>, i: int, acc: Seq<char>) -> Option<Seq<char>>
    decreases t.len() - i,
{
    if 0 <= i && i + 1 < t.len() && t[i + 1] == "."@ {
        if i + 2 >= t.len() {
            None
        } else if !spec_is_identifier(t[i + 2]) {
            Some(acc)
        } else {
            dotted_table(t, i + 2, acc + seq!['.'] + spec_normalize_identifier(t[i + 2]))
        }
    } else {
        Some(acc)
    }
}

/// The table named by the tokens at `index`, if they name one.
pub open spec fn spec_table_after(t: Seq<Seq<char>>, index: int) -> Option<Seq<char>> {
    let i = skip_table_modifiers(t, index);
    if i < 0 || i >= t.len() {
        None
    } else {
        let first = t[i];
        if first == "("@ || !spec_is_identifier(first) || spec_reserved_table_token(first) {
            None
        } else {
            match dotted_table(t, i, spec_normalize_identifier(first)) {
                Some(table) => if table.len() > 0 {
                    Some(table)
                } else {
                    None
                },
                None => None,
            }
        }
    }
}

fn is_modifier_token(token: &str) -> (b: bool)
    ensures
        b == (ascii_upper(token@) == "ONLY"@ || ascii_upper(token@) == "LATERAL"@),
{
    let v = chars_of(token);
    let u = upper_chars(v.as_slice());
    chars_eq_str(u.as_slice(), "ONLY") || chars_eq_str(u.as_slice(), "LATERAL")
}

/// The value `dotted_table` yields, kept only when non-empty.
pub open spec fn nonempty_table(r: Option<Seq<char>>) -> Option<Seq<char>> {
    match r {
        Some(table) => if table.len() > 0 {
            Some(table)
        } else {
            None
        },
        None => None,
    }
}

/// The (lower-cased, possibly schema-qualified) table named at `index`.
pub fn table_after(tokens: &[String], start: usize) -> (r: Option<String>)
    ensures
        match r {
            Some(s) => spec_table_after(token_views(tokens@), start as int) == Some(s@),
            None => spec_table_after(token_views(tokens@), start as int) is None,
        },
{
    let ghost t = token_views(tokens@);
    let ghost index0 = start as int;
    let mut index = start;
    while index < tokens.len() && is_modifier_token(tokens[index].as_str())
        invariant
            t == token_views(tokens@),
            index0 <= index,
            skip_table_modifiers(t, index0) == skip_table_modifiers(t, index as int),
        decreases tokens.len() - index,
    {
        index += 1;
    }
    assert(skip_table_modifiers(t, index as int) == index);
    if index >= tokens.len() {
        return None;
    }
    let first = tokens[index].as_str();
    assert(t[index as int] == first@);
    if crate::text::str_eq(first, "(") || !is_identifier(first) || reserved_table_token(first) {
        return None;
    }
    let mut table = normalize_identifier(first);
    loop
        invariant
            t == token_views(tokens@),
            index0 == start,
            index < tokens.len(),
            spec_table_after(t, index0) == nonempty_table(dotted_table(t, index as int, table@)),
        ensures
            t == token_views(tokens@),
            spec_table_after(t, index0) == nonempty_table(Some(table@)),
        decreases tokens.len() - index,
    {
        if tokens.len() - index > 1 && crate::text::str_eq(tokens[index + 1].as_str(), ".") {
            assert(t[index + 1] == tokens@[index + 1]@);
            if tokens.len() - index <= 2 {
                assert(dotted_table(t, index as int, table@) is None);
                return None;
            }
            let next = tokens[index + 2].as_str();
            assert(t[index + 2] == next@);
            if !is_identifier(next) {
                break;
            }
            let dot = one_char('.');
            let part = normalize_identifier(next);
            let t1 = crate::text::concat(table.as_str(), dot.as_str());
            table = crate::text::concat(t1.as_str(), part.as_str());
            index += 2;
        } else {
            break;
        }
    }
    let n = chars_of(table.as_str());
    if n.len() > 0 {
        Some(table)
    } else {
        None
    }
}

} // verus!

verus! {

// ---------------------------------------------------------------------------
// Common table expressions
// ---------------------------------------------------------------------------

/// The index after the `)` that closes a group whose nesting is `depth` at
/// `cursor` (or the end of the tokens).
pub open spec fn group_end(t: Seq<Seq<char>>, cursor: int, depth: int) -> int
    decreases t.len() - cursor,
{
    if cursor < 0 || cursor >= t.len() {
        cursor
    } else if t[cursor] == seq!['('] {
        group_end(t, cursor + 1, depth + 1)
    } else if t[cursor] == seq![')'] {
        if depth - 1 == 0 {
            cursor + 1
        } else {
            group_end(t, cursor + 1, depth - 1)
        }
    } else {
        group_end(t, cursor + 1, depth)
    }
}

pub proof fn lemma_group_end_bounds(t: Seq<Seq<char>>, cursor: int, depth: int)
    requires
        0 <= cursor,
    ensures
        cursor <= group_end(t, cursor, depth),
        cursor <= t.len() ==> group_end(t, cursor, depth) <= t.len(),
    decreases t.len() - cursor,
{
    if cursor < t.len() {
        lemma_group_end_bounds(t, cursor + 1, depth + 1);
        lemma_group_end_bounds(t, cursor + 1, depth - 1);
        lemma_group_end_bounds(t, cursor + 1, depth);
    }
}

/// Whether token `i` exists and is `keyword` regardless of ASCII case.
pub open spec fn token_is(t: Seq<Seq<char>>, i: int, keyword: Seq<char>) -> bool {
    0 <= i < t.len() && ascii_lower(t[i]) == ascii_lower(keyword)
}

/// The CTE names declared from token `index` on (`name [(cols)] AS (body)`, comma-separated).
pub open spec fn cte_names_from(t: Seq<Seq<char>>, index: int) -> Seq<Seq<char>>
    decreases t.len() - index,
{
    if index < 0 || index >= t.len() || !spec_is_identifier(t[index]) {
        Seq::empty()
    } else {
        let c1 = index + 1;
        let c2 = if c1 < t.len() && t[c1] == seq!['('] {
            group_end(t, c1 + 1, 1)
        } else {
            c1
        };
        proof {
            lemma_group_end_bounds(t, c1 + 1, 1);
        }
        if !token_is(t, c2, "AS"@) {
            Seq::empty()
        } else {
            let name = seq![spec_normalize_identifier(t[index])];
            let c3 = c2 + 1;
            if !(c3 < t.len() && t[c3] == seq!['(']) {
                name
            } else {
                let c4 = group_end(t, c3 + 1, 1);
                proof {
                    lemma_group_end_bounds(t, c3 + 1, 1);
                }
                if c4 < t.len() && t[c4] == seq![','] {
                    name + cte_names_from(t, c4 + 1)
                } else {
                    name
                }
            }
        }
    }
}

/// The names of the common table expressions a `WITH` statement declares.
pub open spec fn spec_cte_names(t: Seq<Seq<char>>) -> Seq<Seq<char>> {
    if token_is(t, 0, "WITH"@) {
        cte_names_from(t, if token_is(t, 1, "RECURSIVE"@) { 2 } else { 1 })
    } else {
        Seq::empty()
    }
}

fn token_eq_ignore_case(tokens: &[String], i: usize, keyword: &str) -> (b: bool)
    ensures
        b == token_is(token_views(tokens@), i as int, keyword@),
{
    if i >= tokens.len() {
        return false;
    }
    let v = chars_of(tokens[i].as_str());
    eq_ignore_ascii_case(v.as_slice(), keyword)
}

fn token_is_char(tokens: &[String], i: usize, c: char) -> (b: bool)
    ensures
        b == (i < tokens@.len() && token_views(tokens@)[i as int] == seq![c]),
{
    if i >= tokens.len() {
        return false;
    }
    let v = chars_of(tokens[i].as_str());
    v.len() == 1 && v[0] == c && {
        assert(v@ == seq![c]);
        true
    }
}

/// Scans from `cursor` at nesting `depth` to the token after the closing `)`.
fn skip_group(tokens: &[String], cursor0: usize, depth0: u128) -> (r: usize)
    requires
        cursor0 <= tokens@.len(),
        1 <= depth0 <= cursor0 + 1,
    ensures
        r == group_end(token_views(tokens@), cursor0 as int, depth0 as int),
        cursor0 <= r <= tokens@.len(),
{
    let ghost t = token_views(tokens@);
    let mut cursor = cursor0;
    let mut depth = depth0;
    while cursor < tokens.len()
        invariant_except_break
            group_end(t, cursor0 as int, depth0 as int) == group_end(t, cursor as int, depth as int),
            1 <= depth <= cursor + 1,
        invariant
            t == token_views(tokens@),
            cursor0 <= cursor <= tokens@.len(),
        ensures
            cursor0 <= cursor <= tokens@.len(),
            group_end(t, cursor0 as int, depth0 as int) == cursor,
        decreases tokens.len() - cursor,
    {
        if token_is_char(tokens, cursor, '(') {
            depth += 1;
        } else if token_is_char(tokens, cursor, ')') {
            depth -= 1;
            if depth == 0 {
                cursor += 1;
                break;
            }
        }
        cursor += 1;
    }
    cursor
}

/// The CTE names of a `WITH` statement, normalized.
pub fn cte_names(tokens: &[String]) -> (r: Vec<String>)
    ensures
        token_views(r@) == spec_cte_names(token_views(tokens@)),
{
    let ghost t = token_views(tokens@);
    let mut names: Vec<String> = Vec::new();
    if !token_eq_ignore_case(tokens, 0, "WITH") {
        assert(token_views(names@) =~= Seq::<Seq<char>>::empty());
        return names;
    }
    let mut index: usize = if token_eq_ignore_case(tokens, 1, "RECURSIVE") { 2 } else { 1 };
    let ghost start = index as int;
    assert(token_views(names@) + cte_names_from(t, start) == spec_cte_names(t));
    loop
        invariant
            t == token_views(tokens@),
            index <= tokens@.len() + 1,
            index >= 1,
            token_views(names@) + cte_names_from(t, index as int) == spec_cte_names(t),
        decreases tokens@.len() + 1 - index,
    {
        let ghost before = token_views(names@);
        if index >= tokens.len() || !is_identifier(tokens[index].as_str()) {
            proof {
                assert(cte_names_from(t, index as int) == Seq::<Seq<char>>::empty());
                assert(before + Seq::<Seq<char>>::empty() == before);
            }
            return names;
        }
        let mut cursor = index + 1;
        if token_is_char(tokens, cursor, '(') {
            cursor = skip_group(tokens, cursor + 1, 1);
        }
        if !token_eq_ignore_case(tokens, cursor, "AS") {
            proof {
                assert(cte_names_from(t, index as int) == Seq::<Seq<char>>::empty());
                assert(before + Seq::<Seq<char>>::empty() == before);
            }
            return names;
        }
        let name = normalize_identifier(tokens[index].as_str());
        names.push(name);
        assert(token_views(names@) == before.push(spec_normalize_identifier(t[index as int])));
        cursor += 1;
        if !token_is_char(tokens, cursor, '(') {
            proof {
                assert(cte_names_from(t, index as int) == seq![spec_normalize_identifier(t[index as int])]);
                assert(before + seq![spec_normalize_identifier(t[index as int])] == token_views(names@));
                assert(token_views(names@) + Seq::<Seq<char>>::empty() == token_views(names@));
            }
            return names;
        }
        let end = skip_group(tokens, cursor + 1, 1);
        if token_is_char(tokens, end, ',') {
            proof {
                assert(cte_names_from(t, index as int) == seq![spec_normalize_identifier(t[index as int])]
                    + cte_names_from(t, end + 1));
                assert(before + (seq![spec_normalize_identifier(t[index as int])] + cte_names_from(t, end + 1))
                    == token_views(names@) + cte_names_from(t, end + 1));
            }
            index = end + 1;
        } else {
            proof {
                assert(cte_names_from(t, index as int) == seq![spec_normalize_identifier(t[index as int])]);
                assert(before + seq![spec_normalize_identifier(t[index as int])] == token_views(names@));
                assert(token_views(names@) + Seq::<Seq<char>>::empty() == token_views(names@));
            }
            return names;
        }
    }
}

} // verus!

verus! {

// ---------------------------------------------------------------------------
// Table accesses
// ---------------------------------------------------------------------------

#[derive(Clone, Copy, Debug, PartialEq, Eq, Structural, PartialOrd, Ord)]
pub enum SqlTableAccessKind {
    Read,
    Write,
}

/// One table a statement reads or writes.
#[derive(Clone, Debug, PartialEq, Eq, PartialOrd, Ord)]
pub struct SqlTableAccess {
    pub table: String,
    pub kind: SqlTableAccessKind,
}

pub type AccessView = (Seq<char>, SqlTableAccessKind);

pub open spec fn access_view(a: SqlTableAccess) -> AccessView {
    (a.table@, a.kind)
}

pub open spec fn access_views(v: Seq<SqlTableAccess>) -> Seq<AccessView> {
    v.map_values(|a: SqlTableAccess| access_view(a))
}

/// The order of accesses: by table text, then reads before writes.
pub open spec fn access_lt(x: AccessView, y: AccessView) -> bool {
    crate::text::seq_lt(x.0, y.0) || (x.0 == y.0 && x.1 == SqlTableAccessKind::Read && y.1
        == SqlTableAccessKind::Write)
}

pub open spec fn strictly_increasing(v: Seq<AccessView>) -> bool {
    forall|i: int, j: int| 0 <= i < j < v.len() ==> access_lt(#[trigger] v[i], #[trigger] v[j])
}

pub proof fn lemma_access_lt_transitive(x: AccessView, y: AccessView, z: AccessView)
    requires
        access_lt(x, y),
        access_lt(y, z),
    ensures
        access_lt(x, z),
{
    if crate::text::seq_lt(x.0, y.0) && crate::text::seq_lt(y.0, z.0) {
        crate::text::lemma_seq_lt_transitive(x.0, y.0, z.0);
    }
}

pub proof fn lemma_access_lt_irreflexive(x: AccessView)
    ensures
        !access_lt(x, x),
{
    crate::text::lemma_seq_lt_irreflexive(x.0);
}

fn access_before(x: &SqlTableAccess, y: &SqlTableAccess) -> (b: bool)
    ensures
        b == access_lt(access_view(*x), access_view(*y)),
{
    let a = chars_of(x.table.as_str());
    let c = chars_of(y.table.as_str());
    let o = crate::text::order_chars(a.as_slice(), c.as_slice());
    o == -1 || (o == 0 && x.kind == SqlTableAccessKind::Read && y.kind == SqlTableAccessKind::Write)
}

fn access_same(x: &SqlTableAccess, y: &SqlTableAccess) -> (b: bool)
    ensures
        b == (access_view(*x) == access_view(*y)),
{
    crate::text::str_eq(x.table.as_str(), y.table.as_str()) && x.kind == y.kind
}

/// Inserts `a` into the strictly increasing `v`, unless it is already there.
fn insert_access(v: &mut Vec<SqlTableAccess>, a: SqlTableAccess)
    requires
        strictly_increasing(access_views(old(v)@)),
    ensures
        strictly_increasing(access_views(final(v)@)),
        access_views(final(v)@).to_set() == access_views(old(v)@).to_set().insert(access_view(a)),
{
    let ghost old_views = access_views(v@);
    let mut k: usize = 0;
    while k < v.len() && access_before(&v[k], &a)
        invariant
            k <= v@.len(),
            old_views == access_views(v@),
            strictly_increasing(old_views),
            forall|j: int| 0 <= j < k ==> access_lt(#[trigger] old_views[j], access_view(a)),
        decreases v.len() - k,
    {
        k += 1;
    }
    if k < v.len() && access_same(&v[k], &a) {
        proof {
            assert(old_views[k as int] == access_view(a));
            assert(old_views.to_set().insert(access_view(a)) =~= old_views.to_set());
        }
        return;
    }
    proof {
        if k < v@.len() {
            crate::text::lemma_seq_lt_total(old_views[k as int].0, access_view(a).0);
            assert(access_lt(access_view(a), old_views[k as int]));
        }
    }
    v.insert(k, a);
    proof {
        let nv = access_views(v@);
        let x = access_view(a);
        assert(nv == old_views.insert(k as int, x));
        assert forall|i: int, j: int| 0 <= i < j < nv.len() implies access_lt(#[trigger] nv[i], #[trigger] nv[j]) by {
            if j < k {
                assert(nv[i] == old_views[i] && nv[j] == old_views[j]);
            } else if j == k {
                assert(nv[i] == old_views[i]);
            } else if i == k {
                assert(nv[j] == old_views[j - 1]);
                if j - 1 > k {
                    lemma_access_lt_transitive(x, old_views[k as int], old_views[j - 1]);
                }
            } else if i < k {
                assert(nv[i] == old_views[i] && nv[j] == old_views[j - 1]);
                if j - 1 >= k {
                    assert(access_lt(old_views[i], x));
                    if k < old_views.len() {
                        assert(access_lt(x, old_views[k as int]));
                        if j - 1 > k {
                            lemma_access_lt_transitive(x, old_views[k as int], old_views[j - 1]);
                        }
                        lemma_access_lt_transitive(old_views[i], x, old_views[j - 1]);
                    }
                }
            } else {
                assert(nv[i] == old_views[i - 1] && nv[j] == old_views[j - 1]);
            }
        }
        assert(nv.to_set() =~= old_views.to_set().insert(x)) by {
            assert forall|y: AccessView| nv.to_set().contains(y) <==> old_views.to_set().insert(x).contains(y) by {
                if nv.to_set().contains(y) {
                    let i = choose|i: int| 0 <= i < nv.len() && nv[i] == y;
                    if i < k {
                        assert(old_views[i] == y);
                    } else if i > k {
                        assert(old_views[i - 1] == y);
                    }
                }
                if old_views.to_set().contains(y) && y != x {
                    let i = choose|i: int| 0 <= i < old_views.len() && old_views[i] == y;
                    if i < k {
                        assert(nv[i] == y);
                    } else {
                        assert(nv[i + 1] == y);
                    }
                }
                if y == x {
                    assert(nv[k as int] == x);
                }
            }
        }
    }
}

/// The index of the first token that is `keyword` regardless of case.
pub open spec fn is_first_keyword(t: Seq<Seq<char>>, keyword: Seq<char>, p: int) -> bool {
    token_is(t, p, keyword) && forall|q: int| 0 <= q < p ==> !#[trigger] token_is(t, q, keyword)
}

/// The table named after the first `keyword` token, if any.
pub open spec fn keyword_table(t: Seq<Seq<char>>, keyword: Seq<char>) -> Option<Seq<char>> {
    if exists|p: int| #[trigger] token_is(t, p, keyword) {
        spec_table_after(t, (choose|p: int| is_first_keyword(t, keyword, p)) + 1)
    } else {
        None
    }
}

pub proof fn lemma_first_keyword_unique(t: Seq<Seq<char>>, keyword: Seq<char>, p: int)
    requires
        is_first_keyword(t, keyword, p),
    ensures
        (choose|q: int| is_first_keyword(t, keyword, q)) == p,
{
    let q = choose|q: int| is_first_keyword(t, keyword, q);
    assert(is_first_keyword(t, keyword, q));
    if q < p {
        assert(!token_is(t, q, keyword));
    } else if p < q {
        assert(!token_is(t, p, keyword));
    }
}

/// Pushes the table named after token `index`, when there is one.
pub fn push_after_index(
    tokens: &[String],
    index: usize,
    kind: SqlTableAccessKind,
    accesses: &mut Vec<SqlTableAccess>,
)
    requires
        index < usize::MAX,
    ensures
        match spec_table_after(token_views(tokens@), index + 1) {
            Some(table) => access_views(final(accesses)@) == access_views(old(accesses)@).push(
                (table, kind),
            ),
            None => final(accesses)@ == old(accesses)@,
        },
{
    if let Some(table) = table_after(tokens, index + 1) {
        let ghost before = access_views(accesses@);
        accesses.push(SqlTableAccess { table, kind });
        assert(access_views(accesses@) =~= before.push(access_view(accesses@.last())));
    }
}

/// Pushes the table named after the first `keyword` token, when there is one.
pub fn push_after_keyword(
    tokens: &[String],
    keyword: &str,
    kind: SqlTableAccessKind,
    accesses: &mut Vec<SqlTableAccess>,
)
    ensures
        match keyword_table(token_views(tokens@), keyword@) {
            Some(table) => access_views(final(accesses)@) == access_views(old(accesses)@).push(
                (table, kind),
            ),
            None => final(accesses)@ == old(accesses)@,
        },
{
    let ghost t = token_views(tokens@);
    let mut p: usize = 0;
    while p < tokens.len()
        invariant
            t == token_views(tokens@),
            p <= tokens@.len(),
            accesses@ == old(accesses)@,
            forall|q: int| 0 <= q < p ==> !#[trigger] token_is(t, q, keyword@),
        decreases tokens.len() - p,
    {
        if token_eq_ignore_case(tokens, p, keyword) {
            proof {
                lemma_first_keyword_unique(t, keyword@, p as int);
                assert(token_is(t, p as int, keyword@));
            }
            push_after_index(tokens, p, kind, accesses);
            return;
        }
        p += 1;
    }
    assert forall|q: int| !#[trigger] token_is(t, q, keyword@) by {
        if 0 <= q < p {
        }
    }
}

} // verus!

verus! {

// ---------------------------------------------------------------------------
// Statement classification
// ---------------------------------------------------------------------------

pub open spec fn is_first_identifier(t: Seq<Seq<char>>, p: int) -> bool {
    0 <= p < t.len() && spec_is_identifier(t[p]) && forall|q: int|
        0 <= q < p ==> !spec_is_identifier(#[trigger] t[q])
}

/// The first token that can be a keyword or a name.
pub open spec fn first_identifier(t: Seq<Seq<char>>) -> Option<Seq<char>> {
    if exists|p: int| 0 <= p < t.len() && spec_is_identifier(#[trigger] t[p]) {
        Some(t[choose|p: int| is_first_identifier(t, p)])
    } else {
        None
    }
}

/// The data-access operation a leading keyword names (`WITH` reads).
pub open spec fn sql_operation(first: Seq<char>) -> Option<Seq<char>> {
    let u = ascii_upper(first);
    if u == "SELECT"@ || u == "WITH"@ {
        Some("SELECT"@)
    } else if u == "INSERT"@ {
        Some("INSERT"@)
    } else if u == "UPDATE"@ {
        Some("UPDATE"@)
    } else if u == "DELETE"@ {
        Some("DELETE"@)
    } else if u == "MERGE"@ {
        Some("MERGE"@)
    } else {
        None
    }
}

/// The table an operation writes, as an access list of at most one entry.
pub open spec fn write_accesses(t: Seq<Seq<char>>, op: Seq<char>) -> Seq<AccessView> {
    let w = if op == "INSERT"@ || op == "MERGE"@ {
        keyword_table(t, "INTO"@)
    } else if op == "UPDATE"@ {
        spec_table_after(t, 1)
    } else if op == "DELETE"@ {
        keyword_table(t, "FROM"@)
    } else {
        None
    };
    match w {
        Some(table) => seq![(table, SqlTableAccessKind::Write)],
        None => Seq::empty(),
    }
}

pub open spec fn is_cte_name(cte: Seq<Seq<char>>, table: Seq<char>) -> bool {
    exists|k: int| 0 <= k < cte.len() && ascii_lower(#[trigger] cte[k]) == ascii_lower(table)
}

/// The tables read after the `FROM`/`JOIN` tokens among the first `n` tokens,
/// CTE names excluded.
pub open spec fn read_accesses(t: Seq<Seq<char>>, cte: Seq<Seq<char>>, n: int) -> Seq<AccessView>
    decreases n,
{
    if n <= 0 {
        Seq::empty()
    } else {
        let r = read_accesses(t, cte, n - 1);
        let i = n - 1;
        if token_is(t, i, "FROM"@) || token_is(t, i, "JOIN"@) {
            match spec_table_after(t, i + 1) {
                Some(table) => if !is_cte_name(cte, table) {
                    r.push((table, SqlTableAccessKind::Read))
                } else {
                    r
                },
                None => r,
            }
        } else {
            r
        }
    }
}

/// Every access a statement makes, before ordering and de-duplication.
pub open spec fn raw_accesses(t: Seq<Seq<char>>, op: Seq<char>) -> Seq<AccessView> {
    write_accesses(t, op) + read_accesses(t, spec_cte_names(t), t.len() as int)
}

fn duplicate_access(a: &SqlTableAccess) -> (r: SqlTableAccess)
    ensures
        r == *a,
{
    SqlTableAccess { table: a.table.clone(), kind: a.kind }
}

fn is_listed_cte(cte: &[String], table: &String) -> (b: bool)
    ensures
        b == is_cte_name(token_views(cte@), table@),
{
    let tv = chars_of(table.as_str());
    let mut k: usize = 0;
    while k < cte.len()
        invariant
            k <= cte@.len(),
            tv@ == table@,
            forall|m: int| 0 <= m < k ==> ascii_lower(#[trigger] token_views(cte@)[m]) != ascii_lower(table@),
        decreases cte.len() - k,
    {
        let c = chars_of(cte[k].as_str());
        if eq_ignore_ascii_case(c.as_slice(), table.as_str()) {
            assert(ascii_lower(token_views(cte@)[k as int]) == ascii_lower(table@));
            return true;
        }
        k += 1;
    }
    false
}

fn operation_text(first: &str) -> (r: Option<String>)
    ensures
        match r {
            Some(op) => sql_operation(first@) == Some(op@),
            None => sql_operation(first@) is None,
        },
{
    let v = chars_of(first);
    let u = upper_chars(v.as_slice());
    let u = u.as_slice();
    if chars_eq_str(u, "SELECT") || chars_eq_str(u, "WITH") {
        Some(crate::text::owned("SELECT"))
    } else if chars_eq_str(u, "INSERT") {
        Some(crate::text::owned("INSERT"))
    } else if chars_eq_str(u, "UPDATE") {
        Some(crate::text::owned("UPDATE"))
    } else if chars_eq_str(u, "DELETE") {
        Some(crate::text::owned("DELETE"))
    } else if chars_eq_str(u, "MERGE") {
        Some(crate::text::owned("MERGE"))
    } else {
        None
    }
}

/// Classifies one complete SQL statement: its operation and the tables it
/// reads and writes, ordered by table and de-duplicated. `None` when it is not
/// a data-access statement or names no concrete table.
pub fn classify_sql(sql: &str) -> (r: Option<(String, Vec<SqlTableAccess>)>)
    ensures
        ({
            let t = spec_sql_tokens(sql@);
            match r {
                Some((op, acc)) => {
                    &&& first_identifier(t) is Some
                    &&& sql_operation(first_identifier(t)->0) == Some(op@)
                    &&& acc@.len() > 0
                    &&& strictly_increasing(access_views(acc@))
                    &&& access_views(acc@).to_set() == raw_accesses(t, op@).to_set()
                },
                None => match first_identifier(t) {
                    None => true,
                    Some(first) => match sql_operation(first) {
                        None => true,
                        Some(op) => raw_accesses(t, op).len() == 0,
                    },
                },
            }
        }),
{
    let tokens = sql_tokens(sql);
    let ghost t = spec_sql_tokens(sql@);
    proof {
        lemma_tokens_bounded(sql@, 0);
        assert(token_views(tokens@) == t);
        assert(tokens@.len() == t.len());
    }
    let mut p: usize = 0;
    while p < tokens.len() && !is_identifier(tokens[p].as_str())
        invariant
            t == token_views(tokens@),
            p <= tokens@.len(),
            forall|q: int| 0 <= q < p ==> !spec_is_identifier(#[trigger] t[q]),
        decreases tokens.len() - p,
    {
        p += 1;
    }
    if p >= tokens.len() {
        return None;
    }
    proof {
        assert(is_first_identifier(t, p as int));
        let c = choose|q: int| is_first_identifier(t, q);
        assert(is_first_identifier(t, c));
        if c < p {
            assert(!spec_is_identifier(t[c]));
        } else if p < c {
            assert(!spec_is_identifier(t[p as int]));
        }
        assert(first_identifier(t) == Some(t[p as int]));
    }
    let Some(operation) = operation_text(tokens[p].as_str()) else {
        return None;
    };
    let cte = cte_names(tokens.as_slice());
    let mut accesses: Vec<SqlTableAccess> = Vec::new();
    let o = chars_of(operation.as_str());
    let o = o.as_slice();
    if chars_eq_str(o, "INSERT") || chars_eq_str(o, "MERGE") {
        push_after_keyword(tokens.as_slice(), "INTO", SqlTableAccessKind::Write, &mut accesses);
    } else if chars_eq_str(o, "UPDATE") {
        push_after_index(tokens.as_slice(), 0, SqlTableAccessKind::Write, &mut accesses);
    } else if chars_eq_str(o, "DELETE") {
        push_after_keyword(tokens.as_slice(), "FROM", SqlTableAccessKind::Write, &mut accesses);
    }
    assert(access_views(accesses@) =~= write_accesses(t, operation@));
    let ghost cv = spec_cte_names(t);
    let mut index: usize = 0;
    while index < tokens.len()
        invariant
            t == token_views(tokens@),
            token_views(cte@) == cv,
            cv == spec_cte_names(t),
            index <= tokens@.len(),
            access_views(accesses@) == write_accesses(t, operation@) + read_accesses(t, cv, index as int),
        decreases tokens.len() - index,
    {
        let ghost before = access_views(accesses@);
        if token_eq_ignore_case(tokens.as_slice(), index, "FROM") || token_eq_ignore_case(
            tokens.as_slice(),
            index,
            "JOIN",
        ) {
            if let Some(table) = table_after(tokens.as_slice(), index + 1) {
                if !is_listed_cte(cte.as_slice(), &table) {
                    accesses.push(SqlTableAccess { table, kind: SqlTableAccessKind::Read });
                    assert(access_views(accesses@) =~= before.push(access_view(accesses@.last())));
                }
            }
        }
        index += 1;
    }
    let ghost raw = access_views(accesses@);
    assert(raw == raw_accesses(t, operation@));
    let mut sorted: Vec<SqlTableAccess> = Vec::new();
    let mut k: usize = 0;
    while k < accesses.len()
        invariant
            raw == access_views(accesses@),
            k <= accesses@.len(),
            strictly_increasing(access_views(sorted@)),
            access_views(sorted@).to_set() == raw.take(k as int).to_set(),
        decreases accesses.len() - k,
    {
        let a = duplicate_access(&accesses[k]);
        insert_access(&mut sorted, a);
        proof {
            assert(raw.take(k + 1) == raw.take(k as int).push(raw[k as int]));
            crate::text::lemma_push_to_set(raw.take(k as int), raw[k as int]);
        }
        k += 1;
    }
    assert(raw.take(k as int) == raw);
    if sorted.len() > 0 {
        Some((operation, sorted))
    } else {
        proof {
            if raw.len() > 0 {
                assert(raw.to_set().contains(raw[0]));
                assert(access_views(sorted@).to_set().contains(raw[0]));
            }
        }
        None
    }
}

} // verus!

verus! {

// ---------------------------------------------------------------------------
// Literal values
// ---------------------------------------------------------------------------

pub open spec fn spec_is_string_node(language: Seq<char>, kind: Seq<char>) -> bool {
    if language == "typescript"@ || language == "javascript"@ {
        kind == "string"@ || kind == "template_string"@
    } else if language == "python"@ {
        kind == "string"@ || kind == "concatenated_string"@
    } else if language == "java"@ || language == "csharp"@ || language == "c"@ || language == "cpp"@
        || language == "rust"@ || language == "dart"@ {
        kind == "string_literal"@ || kind == "raw_string_literal"@
    } else if language == "go"@ {
        kind == "interpreted_string_literal"@ || kind == "raw_string_literal"@
    } else {
        false
    }
}

/// Whether a syntax node kind is a whole string literal in `language`.
pub fn is_string_node(language: &str, kind: &str) -> (b: bool)
    ensures
        b == spec_is_string_node(language@, kind@),
{
    let l = chars_of(language);
    let l = l.as_slice();
    let k = chars_of(kind);
    let k = k.as_slice();
    if chars_eq_str(l, "typescript") || chars_eq_str(l, "javascript") {
        chars_eq_str(k, "string") || chars_eq_str(k, "template_string")
    } else if chars_eq_str(l, "python") {
        chars_eq_str(k, "string") || chars_eq_str(k, "concatenated_string")
    } else if chars_eq_str(l, "java") || chars_eq_str(l, "csharp") || chars_eq_str(l, "c")
        || chars_eq_str(l, "cpp") || chars_eq_str(l, "rust") || chars_eq_str(l, "dart") {
        chars_eq_str(k, "string_literal") || chars_eq_str(k, "raw_string_literal")
    } else if chars_eq_str(l, "go") {
        chars_eq_str(k, "interpreted_string_literal") || chars_eq_str(k, "raw_string_literal")
    } else {
        false
    }
}

/// The body of `t` when it starts with `d` and what follows ends with `d`.
pub open spec fn strip_delimiter(t: Seq<char>, d: Seq<char>) -> Option<Seq<char>> {
    if crate::text::is_prefix(d, t) && crate::text::is_suffix(d, t.skip(d.len() as int)) {
        Some(t.subrange(d.len() as int, t.len() - d.len()))
    } else {
        None
    }
}

pub open spec fn spec_strip_quoted(t: Seq<char>) -> Option<Seq<char>> {
    if strip_delimiter(t, seq!['"', '"', '"']) is Some {
        strip_delimiter(t, seq!['"', '"', '"'])
    } else if strip_delimiter(t, seq!['\'', '\'', '\'']) is Some {
        strip_delimiter(t, seq!['\'', '\'', '\''])
    } else if strip_delimiter(t, seq!['"']) is Some {
        strip_delimiter(t, seq!['"'])
    } else if strip_delimiter(t, seq!['\'']) is Some {
        strip_delimiter(t, seq!['\''])
    } else {
        strip_delimiter(t, seq!['`'])
    }
}

fn strip_delimiter_exec(t: &[char], d: &[char]) -> (r: Option<Vec<char>>)
    ensures
        match r {
            Some(v) => strip_delimiter(t@, d@) == Some(v@),
            None => strip_delimiter(t@, d@) is None,
        },
{
    let n = d.len();
    if !crate::text::occurs_at_exec(t, d, 0) {
        return None;
    }
    let rest = vstd::slice::slice_subrange(t, n, t.len());
    assert(rest@ == t@.skip(n as int));
    if rest.len() < n {
        return None;
    }
    if !crate::text::occurs_at_exec(rest, d, rest.len() - n) {
        return None;
    }
    Some(crate::text::slice_range(t, n, t.len() - n))
}

fn strip_quoted_chars(t: &[char]) -> (r: Option<Vec<char>>)
    ensures
        match r {
            Some(v) => spec_strip_quoted(t@) == Some(v@),
            None => spec_strip_quoted(t@) is None,
        },
{
    let d1 = ['"', '"', '"'];
    let d2 = ['\'', '\'', '\''];
    let d3 = ['"'];
    let d4 = ['\''];
    let d5 = ['`'];
    assert(d1@ == seq!['"', '"', '"']);
    assert(d2@ == seq!['\'', '\'', '\'']);
    assert(d3@ == seq!['"']);
    assert(d4@ == seq!['\'']);
    assert(d5@ == seq!['`']);
    if let Some(v) = strip_delimiter_exec(t, &d1) {
        return Some(v);
    }
    if let Some(v) = strip_delimiter_exec(t, &d2) {
        return Some(v);
    }
    if let Some(v) = strip_delimiter_exec(t, &d3) {
        return Some(v);
    }
    if let Some(v) = strip_delimiter_exec(t, &d4) {
        return Some(v);
    }
    strip_delimiter_exec(t, &d5)
}

/// The body of a quoted literal (`"""`, `'''`, `"`, `'` or `` ` ``).
pub fn strip_quoted(text: &str) -> (r: Option<String>)
    ensures
        match r {
            Some(v) => spec_strip_quoted(text@) == Some(v@),
            None => spec_strip_quoted(text@) is None,
        },
{
    let t = chars_of(text);
    match strip_quoted_chars(t.as_slice()) {
        Some(v) => Some(string_of(v.as_slice())),
        None => None,
    }
}

/// `str::replace(s, "\"\"", "\"")`: each doubled quote, left to right, becomes one.
pub open spec fn undouble_quotes(s: Seq<char>) -> Seq<char>
    decreases s.len(),
{
    if s.len() >= 2 && s[0] == '"' && s[1] == '"' {
        seq!['"'] + undouble_quotes(s.skip(2))
    } else if s.len() > 0 {
        seq![s[0]] + undouble_quotes(s.skip(1))
    } else {
        s
    }
}

fn undouble_quotes_exec(s: &[char]) -> (r: Vec<char>)
    ensures
        r@ == undouble_quotes(s@),
{
    let mut r: Vec<char> = Vec::new();
    let mut i: usize = 0;
    assert(s@.skip(0) == s@);
    while i < s.len()
        invariant
            i <= s.len(),
            r@ + undouble_quotes(s@.skip(i as int)) == undouble_quotes(s@),
        decreases s.len() - i,
    {
        let ghost before = r@;
        if s.len() - i >= 2 && s[i] == '"' && s[i + 1] == '"' {
            assert(s@.skip(i as int).skip(2) == s@.skip(i + 2));
            r.push('"');
            i += 2;
            assert(before + (seq!['"'] + undouble_quotes(s@.skip(i as int))) == r@ + undouble_quotes(s@.skip(i as int)));
        } else {
            assert(s@.skip(i as int).skip(1) == s@.skip(i + 1));
            r.push(s[i]);
            i += 1;
            assert(before + (seq![s@[i - 1]] + undouble_quotes(s@.skip(i as int))) == r@ + undouble_quotes(s@.skip(i as int)));
        }
    }
    assert(undouble_quotes(s@.skip(i as int)) == Seq::<char>::empty());
    assert(r@ + Seq::<char>::empty() == r@);
    r
}

pub open spec fn all_hashes(s: Seq<char>) -> bool {
    forall|k: int| 0 <= k < s.len() ==> #[trigger] s[k] == '#'
}

/// The body of a raw literal `t` whose opening body starts after index `open`
/// and whose closing sequence is `suffix`.
pub open spec fn raw_body(t: Seq<char>, open: int, suffix: Seq<char>) -> Option<Seq<char>> {
    if crate::text::is_suffix(suffix, t) {
        let body = t.take(t.len() - suffix.len());
        if open + 1 <= body.len() {
            Some(body.skip(open + 1))
        } else {
            None
        }
    } else {
        None
    }
}

/// The exact value of a string literal, when its text alone fixes it:
/// interpolated or formatted literals have none.
pub open spec fn spec_exact_literal_value(language: Seq<char>, raw: Seq<char>) -> Option<Seq<char>> {
    let text = crate::text::trim_ws(raw);
    let quote_class = crate::text::in_set(seq!['\'', '"']);
    if text.len() == 0 {
        None
    } else if (language == "typescript"@ || language == "javascript"@) && text[0] == '`' {
        if text.last() != '`' || crate::text::contains_sub(text, seq!['$', '{']) {
            None
        } else {
            Some(text.subrange(1, text.len() - 1))
        }
    } else if language == "python"@ {
        if !crate::text::has_where(text, quote_class) {
            None
        } else {
            let at = crate::text::first_where(text, quote_class);
            if ascii_lower(text.take(at)).contains('f') {
                None
            } else {
                spec_strip_quoted(text.skip(at))
            }
        }
    } else if language == "rust"@ && text[0] == 'r' {
        if !text.contains('"') {
            None
        } else {
            let quote = crate::text::first_where(text, crate::text::in_set(seq!['"']));
            let hashes = text.subrange(1, quote);
            if !all_hashes(hashes) {
                None
            } else {
                raw_body(text, quote, seq!['"'] + hashes)
            }
        }
    } else if language == "cpp"@ && crate::text::is_prefix(seq!['R', '"'], text) {
        if !text.contains('(') {
            None
        } else {
            let open = crate::text::first_where(text, crate::text::in_set(seq!['(']));
            raw_body(text, open, seq![')'] + text.subrange(2, open) + seq!['"'])
        }
    } else if language == "csharp"@ && crate::text::is_prefix(seq!['@', '"'], text) && text.last() == '"' {
        Some(undouble_quotes(text.subrange(2, text.len() - 1)))
    } else if language == "dart"@ && text.len() >= 2 && (text[0] == 'r' || text[0] == 'R') && (text[1]
        == '"' || text[1] == '\'') {
        spec_strip_quoted(text.skip(1))
    } else {
        spec_strip_quoted(text)
    }
}

fn raw_body_exec(t: &[char], open: usize, suffix: &[char]) -> (r: Option<Vec<char>>)
    ensures
        match r {
            Some(v) => raw_body(t@, open as int, suffix@) == Some(v@),
            None => raw_body(t@, open as int, suffix@) is None,
        },
{
    if suffix.len() > t.len() || !crate::text::occurs_at_exec(t, suffix, t.len() - suffix.len()) {
        return None;
    }
    let body_len = t.len() - suffix.len();
    if open >= body_len {
        return None;
    }
    let v = crate::text::slice_range(t, open + 1, body_len);
    assert(v@ == t@.take(body_len as int).skip(open + 1));
    Some(v)
}

fn all_hash_chars(s: &[char]) -> (b: bool)
    ensures
        b == all_hashes(s@),
{
    let mut k: usize = 0;
    while k < s.len()
        invariant
            k <= s@.len(),
            forall|m: int| 0 <= m < k ==> #[trigger] s@[m] == '#',
        decreases s.len() - k,
    {
        if s[k] != '#' {
            return false;
        }
        k += 1;
    }
    true
}

/// The exact value of a literal's text in `language` (see `spec_exact_literal_value`).
pub fn exact_literal_value(language: &str, raw: &str) -> (r: Option<String>)
    requires
        !((language@ == "typescript"@ || language@ == "javascript"@) && crate::text::trim_ws(raw@)
            == seq!['`']),
        !(language@ == "csharp"@ && crate::text::trim_ws(raw@) == seq!['@', '"']),
    ensures
        match r {
            Some(v) => spec_exact_literal_value(language@, raw@) == Some(v@),
            None => spec_exact_literal_value(language@, raw@) is None,
        },
{
    let l = chars_of(language);
    let l = l.as_slice();
    let rv = chars_of(raw);
    let text = crate::text::trim_chars(rv.as_slice());
    let t = text.as_slice();
    let n = t.len();
    if n == 0 {
        return None;
    }
    if (chars_eq_str(l, "typescript") || chars_eq_str(l, "javascript")) && t[0] == '`' {
        let dollar = ['$', '{'];
        assert(dollar@ == seq!['$', '{']);
        if t[n - 1] != '`' || crate::text::find_sub(t, &dollar).is_some() {
            return None;
        }
        assert(n >= 2) by {
            if n == 1 {
                assert(t@ == seq!['`']);
            }
        }
        let body = crate::text::slice_range(t, 1, n - 1);
        return Some(string_of(body.as_slice()));
    }
    if chars_eq_str(l, "python") {
        let quotes = ['\'', '"'];
        assert(quotes@ == seq!['\'', '"']);
        let Some(at) = crate::text::find_first_in(t, &quotes) else {
            return None;
        };
        let prefix = crate::text::slice_range(t, 0, at);
        let lowered = crate::text::lower_chars(prefix.as_slice());
        if crate::text::contains_char(lowered.as_slice(), 'f') {
            return None;
        }
        let rest = vstd::slice::slice_subrange(t, at, n);
        assert(rest@ == t@.skip(at as int));
        return match strip_quoted_chars(rest) {
            Some(v) => Some(string_of(v.as_slice())),
            None => None,
        };
    }
    if chars_eq_str(l, "rust") && t[0] == 'r' {
        let Some(quote) = crate::text::find_char(t, '"') else {
            return None;
        };
        proof {
            let c = crate::text::in_set(seq!['"']);
            assert(crate::text::is_first_where(t@, c, quote as int)) by {
                crate::text::lemma_in_single(t@[quote as int], '"');
                assert forall|k: int| 0 <= k < quote implies !#[trigger] c(t@[k]) by {
                    crate::text::lemma_in_single(t@[k], '"');
                }
            }
            crate::text::lemma_first_where_unique(t@, c, quote as int);
        }
        let hashes = crate::text::slice_range(t, 1, quote);
        if !all_hash_chars(hashes.as_slice()) {
            return None;
        }
        let mut suffix: Vec<char> = Vec::new();
        suffix.push('"');
        let mut m: usize = 0;
        while m < hashes.len()
            invariant
                m <= hashes@.len(),
                suffix@ == seq!['"'] + hashes@.take(m as int),
            decreases hashes.len() - m,
        {
            suffix.push(hashes[m]);
            m += 1;
            assert(suffix@ =~= seq!['"'] + hashes@.take(m as int));
        }
        assert(hashes@.take(hashes@.len() as int) == hashes@);
        return match raw_body_exec(t, quote, suffix.as_slice()) {
            Some(v) => Some(string_of(v.as_slice())),
            None => None,
        };
    }
    if chars_eq_str(l, "cpp") && n >= 2 && t[0] == 'R' && t[1] == '"' {
        assert(crate::text::is_prefix(seq!['R', '"'], t@)) by {
            assert(t@.subrange(0, 2) =~= seq!['R', '"']);
        }
        let Some(open) = crate::text::find_char(t, '(') else {
            return None;
        };
        proof {
            let c = crate::text::in_set(seq!['(']);
            assert(crate::text::is_first_where(t@, c, open as int)) by {
                crate::text::lemma_in_single(t@[open as int], '(');
                assert forall|k: int| 0 <= k < open implies !#[trigger] c(t@[k]) by {
                    crate::text::lemma_in_single(t@[k], '(');
                }
            }
            crate::text::lemma_first_where_unique(t@, c, open as int);
        }
        assert(open >= 2);
        let mut suffix: Vec<char> = Vec::new();
        suffix.push(')');
        let mut m: usize = 2;
        while m < open
            invariant
                2 <= m <= open,
                open < t@.len(),
                suffix@ == seq![')'] + t@.subrange(2, m as int),
            decreases open - m,
        {
            suffix.push(t[m]);
            m += 1;
            assert(suffix@ =~= seq![')'] + t@.subrange(2, m as int));
        }
        suffix.push('"');
        assert(suffix@ =~= seq![')'] + t@.subrange(2, open as int) + seq!['"']);
        return match raw_body_exec(t, open, suffix.as_slice()) {
            Some(v) => Some(string_of(v.as_slice())),
            None => None,
        };
    } else if chars_eq_str(l, "cpp") {
        proof {
            if crate::text::is_prefix(seq!['R', '"'], t@) {
                assert(t@[0] == seq!['R', '"'][0] && t@[1] == seq!['R', '"'][1]);
            }
        }
    }
    if chars_eq_str(l, "csharp") && n >= 2 && t[0] == '@' && t[1] == '"' && t[n - 1] == '"' {
        assert(crate::text::is_prefix(seq!['@', '"'], t@)) by {
            assert(t@.subrange(0, 2) =~= seq!['@', '"']);
        }
        assert(n >= 3) by {
            if n == 2 {
                assert(t@ =~= seq!['@', '"']);
            }
        }
        let body = vstd::slice::slice_subrange(t, 2, n - 1);
        let v = undouble_quotes_exec(body);
        return Some(string_of(v.as_slice()));
    } else if chars_eq_str(l, "csharp") {
        proof {
            if crate::text::is_prefix(seq!['@', '"'], t@) {
                assert(t@[0] == seq!['@', '"'][0] && t@[1] == seq!['@', '"'][1]);
            }
        }
    }
    if chars_eq_str(l, "dart") && n >= 2 && (t[0] == 'r' || t[0] == 'R') && (t[1] == '"' || t[1]
        == '\'') {
        let rest = vstd::slice::slice_subrange(t, 1, n);
        assert(rest@ == t@.skip(1));
        return match strip_quoted_chars(rest) {
            Some(v) => Some(string_of(v.as_slice())),
            None => None,
        };
    }
    match strip_quoted_chars(t) {
        Some(v) => Some(string_of(v.as_slice())),
        None => None,
    }
}

/// The statement text with whitespace runs collapsed (the identity a query digest hashes).
pub fn normalize_sql(sql: &str) -> (r: String)
    ensures
        r@ == collapse_whitespace(sql@),
{
    crate::text::collapse_whitespace_str(sql)
}

} // verus!

verus! {

// ---------------------------------------------------------------------------
// SQL context
// ---------------------------------------------------------------------------

/// A character that `split` on "not ASCII alphanumeric and not `_`" keeps
/// inside a piece.
pub open spec fn is_ascii_word(c: char) -> bool {
    crate::text::is_ascii_alnum(c) || c == '_'
}

/// `t` is a whole piece of `s` at `i` when `s` is split at every character
/// that is not ASCII alphanumeric or `_`.
pub open spec fn ascii_token_at(s: Seq<char>, t: Seq<char>, i: int) -> bool {
    &&& crate::text::occurs_at(s, t, i)
    &&& (i == 0 || !is_ascii_word(s[i - 1]))
    &&& (i + t.len() == s.len() || !is_ascii_word(s[i + t.len()]))
}

pub open spec fn has_ascii_token(s: Seq<char>, t: Seq<char>) -> bool {
    exists|i: int| #[trigger] ascii_token_at(s, t, i)
}

/// The last position of `c` in `s`, or `-1`.
pub open spec fn last_index(s: Seq<char>, c: char) -> int
    decreases s.len(),
{
    if s.len() == 0 {
        -1
    } else if s.last() == c {
        s.len() - 1
    } else {
        last_index(s.drop_last(), c)
    }
}

/// The calls that execute a literal as a query.
pub open spec fn sql_call_marker(m: int) -> Seq<char> {
    if m == 0 {
        ".execute"@
    } else if m == 1 {
        ".executemany"@
    } else if m == 2 {
        ".query"@
    } else if m == 3 {
        "preparestatement"@
    } else if m == 4 {
        "createquery"@
    } else if m == 5 {
        "createnativequery"@
    } else if m == 6 {
        "sqlx::query"@
    } else if m == 7 {
        "query!"@
    } else if m == 8 {
        "query_as!"@
    } else {
        "sql_query"@
    }
}

/// The variable names that hold a query.
pub open spec fn sql_variable_name(m: int) -> Seq<char> {
    if m == 0 {
        "sql"@
    } else if m == 1 {
        "query"@
    } else if m == 2 {
        "statement"@
    } else if m == 3 {
        "command"@
    } else {
        "stmt"@
    }
}

/// Whether the source text of an enclosing node before a literal marks the
/// literal as a query: a query-executing call, or an assignment to a
/// variable named like a query.
pub open spec fn is_sql_context_prefix(prefix: Seq<char>) -> bool {
    let l = ascii_lower(prefix);
    ||| exists|m: int| 0 <= m < 10 && crate::text::contains_sub(l, #[trigger] sql_call_marker(m))
    ||| l.contains('=') && exists|m: int|
        0 <= m < 5 && has_ascii_token(l.take(last_index(l, '=')), #[trigger] sql_variable_name(m))
}

/// Whether a string literal sits in a query context. `prefixes` holds, for
/// each enclosing node from the nearest outwards, its source text before the
/// literal; at most six enclosing nodes are consulted.
pub open spec fn spec_has_sql_context(prefixes: Seq<Seq<char>>) -> bool {
    exists|i: int| 0 <= i < prefixes.len() && i < 6 && is_sql_context_prefix(#[trigger] prefixes[i])
}

fn is_ascii_word_exec(c: char) -> (r: bool)
    ensures
        r == is_ascii_word(c),
{
    crate::text::is_ascii_alnum_exec(c) || c == '_'
}

fn ascii_token_in(s: &[char], t: &str) -> (r: bool)
    ensures
        r == has_ascii_token(s@, t@),
{
    let tv = chars_of(t);
    let tc = tv.as_slice();
    let mut i: usize = 0;
    loop
        invariant
            i <= s.len(),
            tc@ == t@,
            forall|j: int| 0 <= j < i ==> !#[trigger] ascii_token_at(s@, t@, j),
        ensures
            i == s.len(),
            !ascii_token_at(s@, t@, i as int),
        decreases s.len() - i,
    {
        if crate::text::occurs_at_exec(s, tc, i) {
            let before = i == 0 || !is_ascii_word_exec(s[i - 1]);
            let after = i + tc.len() == s.len() || !is_ascii_word_exec(s[i + tc.len()]);
            if before && after {
                assert(ascii_token_at(s@, t@, i as int));
                return true;
            }
        }
        if i == s.len() {
            break;
        }
        i += 1;
    }
    assert forall|j: int| !#[trigger] ascii_token_at(s@, t@, j) by {
        if 0 <= j <= i {
        }
    }
    false
}

fn last_index_exec(s: &[char], c: char) -> (r: Option<usize>)
    ensures
        match r {
            Some(k) => k < s@.len() && last_index(s@, c) == k && s@[k as int] == c,
            None => last_index(s@, c) == -1,
        },
{
    let mut k: usize = s.len();
    assert(s@.take(k as int) == s@);
    while k > 0
        invariant
            k <= s.len(),
            last_index(s@, c) == last_index(s@.take(k as int), c),
        decreases k,
    {
        assert(s@.take(k as int).drop_last() == s@.take(k - 1));
        assert(s@.take(k as int).last() == s@[k - 1]);
        if s[k - 1] == c {
            return Some(k - 1);
        }
        k -= 1;
    }
    proof {
        assert(s@.take(0) =~= Seq::<char>::empty());
    }
    None
}

fn is_sql_context_prefix_exec(prefix: &str) -> (r: bool)
    ensures
        r == is_sql_context_prefix(prefix@),
{
    let raw = chars_of(prefix);
    let lowered = crate::text::lower_chars(raw.as_slice());
    let l = lowered.as_slice();
    proof {
        reveal_strlit(".execute");
        reveal_strlit(".executemany");
        reveal_strlit(".query");
        reveal_strlit("preparestatement");
        reveal_strlit("createquery");
        reveal_strlit("createnativequery");
        reveal_strlit("sqlx::query");
        reveal_strlit("query!");
        reveal_strlit("query_as!");
        reveal_strlit("sql_query");
    }
    let markers = [
        ".execute",
        ".executemany",
        ".query",
        "preparestatement",
        "createquery",
        "createnativequery",
        "sqlx::query",
        "query!",
        "query_as!",
        "sql_query",
    ];
    let mut m: usize = 0;
    while m < 10
        invariant
            m <= 10,
            l@ == ascii_lower(prefix@),
            forall|k: int| 0 <= k < 10 ==> (#[trigger] markers@[k])@ == sql_call_marker(k),
            forall|k: int| 0 <= k < m ==> !crate::text::contains_sub(l@, #[trigger] sql_call_marker(k)),
        decreases 10 - m,
    {
        if contains_str(l, markers[m]) {
            assert(crate::text::contains_sub(l@, sql_call_marker(m as int)));
            return true;
        }
        m += 1;
    }
    let names = ["sql", "query", "statement", "command", "stmt"];
    proof {
        reveal_strlit("sql");
        reveal_strlit("query");
        reveal_strlit("statement");
        reveal_strlit("command");
        reveal_strlit("stmt");
    }
    match last_index_exec(l, '=') {
        None => {
            proof {
                if l@.contains('=') {
                    lemma_last_index_found(l@, '=');
                }
            }
            false
        },
        Some(e) => {
            proof {
                assert(l@[e as int] == '=');
            }
            let before = crate::text::string_of_range(l, 0, e);
            let bv = chars_of(before.as_str());
            assert(bv@ == l@.take(last_index(l@, '=')));
            let mut n: usize = 0;
            while n < 5
                invariant
                    n <= 5,
                    l@ == ascii_lower(prefix@),
                    e < l@.len(),
                    l@[e as int] == '=',
                    bv@ == l@.take(last_index(l@, '=')),
                    forall|k: int| 0 <= k < 5 ==> (#[trigger] names@[k])@ == sql_variable_name(k),
                    forall|k: int| 0 <= k < n ==> !has_ascii_token(bv@, #[trigger] sql_variable_name(k)),
                decreases 5 - n,
            {
                if ascii_token_in(bv.as_slice(), names[n]) {
                    assert(has_ascii_token(bv@, sql_variable_name(n as int)));
                    assert(l@[e as int] == '=');
                    assert(l@.contains('='));
                    return true;
                }
                n += 1;
            }
            false
        },
    }
}

proof fn lemma_last_index_found(s: Seq<char>, c: char)
    requires
        s.contains(c),
    ensures
        0 <= last_index(s, c) < s.len(),
        s[last_index(s, c)] == c,
    decreases s.len(),
{
    if s.last() != c {
        let k = choose|k: int| 0 <= k < s.len() && s[k] == c;
        assert(k < s.len() - 1);
        assert(s.drop_last()[k] == c);
        lemma_last_index_found(s.drop_last(), c);
    }
}

/// Whether a string literal sits in a query context (see
/// `spec_has_sql_context`).
pub fn has_sql_context(prefixes: &[&str]) -> (r: bool)
    ensures
        r == spec_has_sql_context(crate::census::views_of(prefixes@)),
{
    let ghost v = crate::census::views_of(prefixes@);
    let mut i: usize = 0;
    while i < prefixes.len() && i < 6
        invariant
            i <= prefixes@.len(),
            i <= 6,
            v == crate::census::views_of(prefixes@),
            forall|k: int| 0 <= k < i ==> !is_sql_context_prefix(#[trigger] v[k]),
        decreases prefixes@.len() - i,
    {
        assert(v[i as int] == prefixes@[i as int]@);
        if is_sql_context_prefix_exec(prefixes[i]) {
            return true;
        }
        i += 1;
    }
    false
}

} // verus!
