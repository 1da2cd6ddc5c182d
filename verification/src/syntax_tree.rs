//! Syntax trees as plain values: the tree-sitter parse of one source file,
//! as its nodes in pre-order, and byte-offset slicing of source text.
use vstd::prelude::*;

use crate::text::{char_utf8_len, utf8_len};

verus! {

/// The tree-sitter grammar a source file is parsed with.
#[derive(Clone, Copy, Debug, PartialEq, Eq, Structural)]
pub enum Grammar {
    TypeScript,
    Tsx,
    JavaScript,
    Python,
    Java,
    CSharp,
    C,
    Cpp,
    Go,
    Rust,
    Dart,
}

/// The grammar for a language name; TypeScript files ending in `.tsx` use
/// the TSX grammar.
pub open spec fn spec_grammar_for(language: Seq<char>, path: Seq<char>) -> Option<Grammar> {
    if language == "typescript"@ {
        if crate::text::is_suffix(".tsx"@, path) {
            Some(Grammar::Tsx)
        } else {
            Some(Grammar::TypeScript)
        }
    } else if language == "javascript"@ {
        Some(Grammar::JavaScript)
    } else if language == "python"@ {
        Some(Grammar::Python)
    } else if language == "java"@ {
        Some(Grammar::Java)
    } else if language == "csharp"@ {
        Some(Grammar::CSharp)
    } else if language == "c"@ {
        Some(Grammar::C)
    } else if language == "cpp"@ {
        Some(Grammar::Cpp)
    } else if language == "go"@ {
        Some(Grammar::Go)
    } else if language == "rust"@ {
        Some(Grammar::Rust)
    } else if language == "dart"@ {
        Some(Grammar::Dart)
    } else {
        None
    }
}

pub fn grammar_for(language: &str, path: &str) -> (r: Option<Grammar>)
    ensures
        r == spec_grammar_for(language@, path@),
{
    let eq = |name: &str| -> (b: bool)
        ensures
            b == (language@ == name@),
        { crate::text::str_eq(language, name) };
    if eq("typescript") {
        let p = crate::text::chars_of(path);
        if crate::text::ends_with(p.as_slice(), ".tsx") {
            Some(Grammar::Tsx)
        } else {
            Some(Grammar::TypeScript)
        }
    } else if eq("javascript") {
        Some(Grammar::JavaScript)
    } else if eq("python") {
        Some(Grammar::Python)
    } else if eq("java") {
        Some(Grammar::Java)
    } else if eq("csharp") {
        Some(Grammar::CSharp)
    } else if eq("c") {
        Some(Grammar::C)
    } else if eq("cpp") {
        Some(Grammar::Cpp)
    } else if eq("go") {
        Some(Grammar::Go)
    } else if eq("rust") {
        Some(Grammar::Rust)
    } else if eq("dart") {
        Some(Grammar::Dart)
    } else {
        None
    }
}

/// One node of a syntax tree. Nodes are listed in pre-order; `depth` is the
/// node's distance from the root.
#[derive(Clone, Debug)]
pub struct SyntaxNode {
    pub kind: String,
    pub named: bool,
    pub start_byte: usize,
    pub end_byte: usize,
    pub start_row: usize,
    pub start_column: usize,
    pub end_row: usize,
    pub end_column: usize,
    pub depth: usize,
    pub has_error: bool,
    pub field: Option<String>,
}

/// A node by its plain values: kind, named, start and end byte, start row
/// and column, end row and column, depth, whether its subtree has an error,
/// and the name of the field its parent holds it in.
pub type NodeTuple = (Seq<char>, bool, usize, usize, usize, usize, usize, usize, usize, bool, Option<Seq<char>>);

pub open spec fn node_tuple(n: SyntaxNode) -> NodeTuple {
    (
        n.kind@,
        n.named,
        n.start_byte,
        n.end_byte,
        n.start_row,
        n.start_column,
        n.end_row,
        n.end_column,
        n.depth,
        n.has_error,
        match n.field {
            Some(f) => Some(f@),
            None => None,
        },
    )
}

pub open spec fn node_tuples(v: Seq<SyntaxNode>) -> Seq<NodeTuple> {
    v.map_values(|n: SyntaxNode| node_tuple(n))
}

#[verifier::external_type_specification]
#[verifier::external_body]
pub struct ExTree(tree_sitter::Tree);

/// The nodes, in pre-order, of tree-sitter's parse of `source` with
/// `grammar`; `None` when tree-sitter gives no tree.
pub uninterp spec fn tree_sitter_nodes(grammar: Grammar, source: Seq<char>) -> Option<Seq<NodeTuple>>;

/// The nodes, in pre-order, that a parsed tree holds.
pub uninterp spec fn syntax_tree_nodes(tree: tree_sitter::Tree) -> Seq<NodeTuple>;

/// `tree_sitter::Parser::parse` of `source` with the grammar's language
/// (after `Parser::set_language`; a language it refuses, as for an ABI
/// version it does not support, gives no tree either). Claimed: the tree
/// holds exactly the nodes that the parse of these arguments gives, and
/// there is no tree exactly when that parse gives none. No time limit or
/// cancellation is set, so the parse depends on its arguments alone.
#[verifier::external_body]
fn parse_tree(grammar: Grammar, source: &str) -> (r: Option<tree_sitter::Tree>)
    ensures
        match r {
            Some(t) => tree_sitter_nodes(grammar, source@) == Some(syntax_tree_nodes(t)),
            None => tree_sitter_nodes(grammar, source@) is None,
        },
{
    let language: tree_sitter::Language = match grammar {
        Grammar::TypeScript => tree_sitter_typescript::LANGUAGE_TYPESCRIPT, Grammar::Tsx => tree_sitter_typescript::LANGUAGE_TSX,
        Grammar::JavaScript => tree_sitter_javascript::LANGUAGE, Grammar::Python => tree_sitter_python::LANGUAGE,
        Grammar::Java => tree_sitter_java::LANGUAGE, Grammar::CSharp => tree_sitter_c_sharp::LANGUAGE,
        Grammar::C => tree_sitter_c::LANGUAGE, Grammar::Cpp => tree_sitter_cpp::LANGUAGE,
        Grammar::Go => tree_sitter_go::LANGUAGE, Grammar::Rust => tree_sitter_rust::LANGUAGE,
        Grammar::Dart => tree_sitter_dart::LANGUAGE,
    }.into();
    let mut parser = tree_sitter::Parser::new();
    parser.set_language(&language).ok()?;
    parser.parse(source, None)
}

/// The nodes of a parsed tree in pre-order (`TreeCursor::goto_descendant`
/// over `Node::descendant_count`), each converted field by field, with the
/// field name `TreeCursor::field_name` gives for it.
#[verifier::external_body]
fn tree_nodes(tree: &tree_sitter::Tree) -> (r: Vec<SyntaxNode>)
    ensures
        node_tuples(r@) == syntax_tree_nodes(*tree),
{
    let (mut cursor, mut nodes) = (tree.walk(), Vec::new());
    for index in 0..tree.root_node().descendant_count() {
        cursor.goto_descendant(index);
        let (n, s, e) = (cursor.node(), cursor.node().start_position(), cursor.node().end_position());
        nodes.push(SyntaxNode { kind: n.kind().into(), named: n.is_named(), start_byte: n.start_byte(), end_byte: n.end_byte(), start_row: s.row, start_column: s.column, end_row: e.row, end_column: e.column, depth: cursor.depth() as usize, has_error: n.has_error(), field: cursor.field_name().map(Into::into) });
    }
    nodes
}

/// The syntax tree of `source`, as its nodes in pre-order.
pub fn parse_syntax(grammar: Grammar, source: &str) -> (r: Option<Vec<SyntaxNode>>)
    ensures
        match r {
            Some(v) => tree_sitter_nodes(grammar, source@) == Some(node_tuples(v@)),
            None => tree_sitter_nodes(grammar, source@) is None,
        },
{
    match parse_tree(grammar, source) {
        Some(tree) => Some(tree_nodes(&tree)),
        None => None,
    }
}

/// Why a source file yields no syntax tree to work on.
#[derive(Clone, Copy, Debug, PartialEq, Eq, Structural)]
pub enum ParseError {
    /// No grammar is registered for the language.
    NoGrammar,
    /// The parser gave no tree.
    NoTree,
    /// The tree holds syntax errors or missing nodes.
    IncompleteTree,
}

/// The syntax tree of a source file in a language: refused when the language
/// has no grammar, when the parser gives no tree, or when the tree's root
/// reports an error within it.
pub open spec fn spec_parse_source(language: Seq<char>, path: Seq<char>, source: Seq<char>) -> Result<
    Seq<NodeTuple>,
    ParseError,
> {
    match spec_grammar_for(language, path) {
        None => Err(ParseError::NoGrammar),
        Some(g) => match tree_sitter_nodes(g, source) {
            None => Err(ParseError::NoTree),
            Some(t) => if t.len() > 0 && t[0].9 {
                Err(ParseError::IncompleteTree)
            } else {
                Ok(t)
            },
        },
    }
}

/// Parses a source file with the grammar of its language and path.
pub fn parse_source(language: &str, path: &str, source: &str) -> (r: Result<Vec<SyntaxNode>, ParseError>)
    ensures
        match r {
            Ok(v) => spec_parse_source(language@, path@, source@) == Ok::<Seq<NodeTuple>, ParseError>(
                node_tuples(v@),
            ),
            Err(e) => spec_parse_source(language@, path@, source@) == Err::<Seq<NodeTuple>, ParseError>(e),
        },
{
    let grammar = match grammar_for(language, path) {
        Some(g) => g,
        None => {
            return Err(ParseError::NoGrammar);
        },
    };
    let nodes = match parse_syntax(grammar, source) {
        Some(v) => v,
        None => {
            return Err(ParseError::NoTree);
        },
    };
    if nodes.len() > 0 && nodes[0].has_error {
        proof {
            assert(node_tuples(nodes@)[0] == node_tuple(nodes@[0]));
        }
        return Err(ParseError::IncompleteTree);
    }
    proof {
        if nodes.len() > 0 {
            assert(node_tuples(nodes@)[0] == node_tuple(nodes@[0]));
        }
    }
    Ok(nodes)
}

/// The `[start_line, start_column, end_line, end_column]` range of a node,
/// its columns in UTF-8 bytes (tree-sitter's columns).
pub open spec fn node_range(n: NodeTuple) -> Seq<i32> {
    seq![n.4 as i32, n.5 as i32, n.6 as i32, n.7 as i32]
}

/// The range of a node, its columns in UTF-8 bytes.
pub fn node_utf8_range(n: &SyntaxNode) -> (r: Vec<i32>)
    ensures
        r@ == node_range(node_tuple(*n)),
{
    let mut r: Vec<i32> = Vec::new();
    r.push(n.start_row as i32);
    r.push(n.start_column as i32);
    r.push(n.end_row as i32);
    r.push(n.end_column as i32);
    r
}

// ---------------------------------------------------------------------------
// Byte offsets in text
// ---------------------------------------------------------------------------

pub proof fn lemma_utf8_len_strict(s: Seq<char>, i: int, j: int)
    requires
        0 <= i < j <= s.len(),
    ensures
        utf8_len(s.take(i)) < utf8_len(s.take(j)),
    decreases j - i,
{
    assert(s.take(j).drop_last() == s.take(j - 1));
    if i < j - 1 {
        lemma_utf8_len_strict(s, i, j - 1);
    }
}

/// The character index at which byte offset `b` falls, when it falls on a
/// character boundary.
pub open spec fn byte_index(s: Seq<char>, b: int) -> Option<int> {
    if exists|i: int| 0 <= i <= s.len() && utf8_len(#[trigger] s.take(i)) == b {
        Some(choose|i: int| 0 <= i <= s.len() && utf8_len(#[trigger] s.take(i)) == b)
    } else {
        None
    }
}

/// `str::get(a..b)`: the text between byte offsets `a` and `b`, when both
/// are character boundaries and `a <= b`.
pub open spec fn byte_slice(s: Seq<char>, a: int, b: int) -> Option<Seq<char>> {
    match (byte_index(s, a), byte_index(s, b)) {
        (Some(i), Some(j)) => if i <= j {
            Some(s.subrange(i, j))
        } else {
            None
        },
        _ => None,
    }
}

proof fn lemma_byte_index_unique(s: Seq<char>, b: int, i: int)
    requires
        0 <= i <= s.len(),
        utf8_len(s.take(i)) == b,
    ensures
        byte_index(s, b) == Some(i),
{
    let c = choose|k: int| 0 <= k <= s.len() && utf8_len(#[trigger] s.take(k)) == b;
    if c < i {
        lemma_utf8_len_strict(s, c, i);
    } else if i < c {
        lemma_utf8_len_strict(s, i, c);
    }
}

/// The character index of byte offset `b` in `s`, if it is a boundary.
pub fn char_index_of_byte(s: &[char], b: usize) -> (r: Option<usize>)
    ensures
        match r {
            Some(i) => byte_index(s@, b as int) == Some(i as int),
            None => byte_index(s@, b as int) is None,
        },
{
    let mut i: usize = 0;
    let mut acc: u128 = 0;
    while i < s.len()
        invariant
            i <= s.len(),
            acc == utf8_len(s@.take(i as int)),
            acc <= 4 * i,
            forall|k: int| 0 <= k < i ==> utf8_len(#[trigger] s@.take(k)) != b,
            acc <= b,
        decreases s.len() - i,
    {
        if acc == b as u128 {
            proof {
                lemma_byte_index_unique(s@, b as int, i as int);
            }
            return Some(i);
        }
        let step = crate::text::char_len_utf8(s[i]) as u128;
        assert(s@.take(i + 1).drop_last() == s@.take(i as int));
        assert(char_utf8_len(s@[i as int]) <= 4);
        acc = acc + step;
        if acc > b as u128 {
            proof {
                assert forall|k: int| 0 <= k <= s@.len() implies utf8_len(#[trigger] s@.take(k)) != b by {
                    if k > i {
                        crate::text::lemma_utf8_len_prefix_mono(s@, i + 1, k);
                    }
                }
            }
            return None;
        }
        i += 1;
    }
    if acc == b as u128 {
        proof {
            lemma_byte_index_unique(s@, b as int, i as int);
        }
        Some(i)
    } else {
        None
    }
}

/// `str::get(a..b)` on characters.
pub fn byte_slice_chars(s: &[char], a: usize, b: usize) -> (r: Option<Vec<char>>)
    ensures
        match r {
            Some(v) => byte_slice(s@, a as int, b as int) == Some(v@),
            None => byte_slice(s@, a as int, b as int) is None,
        },
{
    match (char_index_of_byte(s, a), char_index_of_byte(s, b)) {
        (Some(i), Some(j)) => if i <= j {
            Some(crate::text::slice_range(s, i, j))
        } else {
            None
        },
        _ => None,
    }
}

/// The number of UTF-8 bytes of `s`.
pub fn utf8_length(s: &[char]) -> (r: u128)
    ensures
        r == utf8_len(s@),
{
    let mut i: usize = 0;
    let mut acc: u128 = 0;
    while i < s.len()
        invariant
            i <= s.len(),
            acc == utf8_len(s@.take(i as int)),
            acc <= 4 * i,
        decreases s.len() - i,
    {
        assert(s@.take(i + 1).drop_last() == s@.take(i as int));
        assert(char_utf8_len(s@[i as int]) <= 4);
        acc = acc + crate::text::char_len_utf8(s[i]) as u128;
        i += 1;
    }
    assert(s@.take(s@.len() as int) == s@);
    acc
}

} // verus!

verus! {

/// The text of a parse refusal of `path` in `language` for the inventory
/// named `capability`.
pub open spec fn spec_parse_message(e: ParseError, language: Seq<char>, capability: Seq<char>, path: Seq<char>) -> Seq<
    char,
> {
    match e {
        ParseError::NoGrammar => "no syntax grammar is registered for "@ + language,
        ParseError::NoTree => language + " "@ + capability + " parser returned no tree"@,
        ParseError::IncompleteTree => language + " "@ + capability
            + " parser produced an incomplete syntax tree for "@ + path,
    }
}

/// The message that refuses the parse of `path` in `language` for the
/// inventory named `capability`.
pub fn parse_error_message(e: ParseError, language: &str, capability: &str, path: &str) -> (r: String)
    ensures
        r@ == spec_parse_message(e, language@, capability@, path@),
{
    match e {
        ParseError::NoGrammar => crate::text::concat("no syntax grammar is registered for ", language),
        ParseError::NoTree => {
            let a = crate::text::concat(language, " ");
            let b = crate::text::concat(a.as_str(), capability);
            crate::text::concat(b.as_str(), " parser returned no tree")
        },
        ParseError::IncompleteTree => {
            let a = crate::text::concat(language, " ");
            let b = crate::text::concat(a.as_str(), capability);
            let c = crate::text::concat(b.as_str(), " parser produced an incomplete syntax tree for ");
            crate::text::concat(c.as_str(), path)
        },
    }
}

} // verus!

verus! {

// ---------------------------------------------------------------------------
// UTF-16 columns
// ---------------------------------------------------------------------------

/// `s` split at each `\n` (what `str::split('\n')` yields).
pub open spec fn newline_pieces(s: Seq<char>) -> Seq<Seq<char>>
    decreases s.len(),
{
    if s.len() == 0 {
        seq![Seq::<char>::empty()]
    } else {
        let p = newline_pieces(s.drop_last());
        if s.last() == '\n' {
            p.push(Seq::<char>::empty())
        } else {
            p.update(p.len() - 1, p.last().push(s.last()))
        }
    }
}

proof fn lemma_newline_pieces_nonempty(s: Seq<char>)
    ensures
        newline_pieces(s).len() >= 1,
    decreases s.len(),
{
    if s.len() > 0 {
        lemma_newline_pieces_nonempty(s.drop_last());
    }
}

/// The lines of `s` as `str::lines` yields them: the pieces between line
/// feeds, a `\r` before a line feed removed, and no empty last line after a
/// final line feed.
pub open spec fn text_lines(s: Seq<char>) -> Seq<Seq<char>> {
    let p = newline_pieces(s);
    let n: int = if p.last().len() == 0 {
        p.len() - 1
    } else {
        p.len() as int
    };
    Seq::new(
        n as nat,
        |i: int|
            if i < p.len() - 1 && p[i].len() > 0 && p[i].last() == '\r' {
                p[i].drop_last()
            } else {
                p[i]
            },
    )
}

/// The number of UTF-16 code units of `s`.
pub open spec fn utf16_len(s: Seq<char>) -> nat
    decreases s.len(),
{
    if s.len() == 0 {
        0
    } else {
        utf16_len(s.drop_last()) + if (s.last() as u32) >= 0x10000 {
            2nat
        } else {
            1nat
        }
    }
}

/// The UTF-16 column of a point given by line and UTF-8 column: the UTF-16
/// length of the line's text before the column, or the column itself when
/// the line or the cut does not exist.
pub open spec fn spec_utf16_column(source: Seq<char>, row: int, column: int) -> int {
    let lines = text_lines(source);
    if 0 <= row < lines.len() {
        match byte_slice(lines[row], 0, column) {
            Some(prefix) => utf16_len(prefix) as int,
            None => column,
        }
    } else {
        column
    }
}

/// The lines of a text.
fn lines_of(s: &[char]) -> (r: Vec<Vec<char>>)
    ensures
        r@.map_values(|v: Vec<char>| v@) == text_lines(s@),
{
    let mut pieces: Vec<Vec<char>> = Vec::new();
    pieces.push(Vec::new());
    let mut i: usize = 0;
    proof {
        assert(s@.take(0) =~= Seq::<char>::empty());
        assert(pieces@.map_values(|v: Vec<char>| v@) =~= newline_pieces(s@.take(0)));
    }
    while i < s.len()
        invariant
            i <= s.len(),
            pieces.len() >= 1,
            pieces@.map_values(|v: Vec<char>| v@) == newline_pieces(s@.take(i as int)),
        decreases s.len() - i,
    {
        let ghost before = pieces@.map_values(|v: Vec<char>| v@);
        proof {
            assert(s@.take(i + 1).drop_last() =~= s@.take(i as int));
            assert(s@.take(i + 1).last() == s@[i as int]);
        }
        if s[i] == '\n' {
            pieces.push(Vec::new());
            proof {
                assert(pieces@.map_values(|v: Vec<char>| v@) =~= before.push(Seq::<char>::empty()));
            }
        } else {
            let last = pieces.len() - 1;
            let mut piece = pieces.pop().unwrap();
            let ghost old_piece = piece@;
            piece.push(s[i]);
            pieces.push(piece);
            proof {
                assert(pieces@.map_values(|v: Vec<char>| v@) =~= before.update(
                    last as int,
                    old_piece.push(s@[i as int]),
                ));
            }
        }
        i += 1;
    }
    proof {
        assert(s@.take(s.len() as int) =~= s@);
    }
    let ghost p = newline_pieces(s@);
    let count: usize = if pieces[pieces.len() - 1].len() == 0 {
        pieces.len() - 1
    } else {
        pieces.len()
    };
    proof {
        assert(pieces@[pieces.len() - 1]@ == p.last());
    }
    let mut lines: Vec<Vec<char>> = Vec::new();
    let mut k: usize = 0;
    while k < count
        invariant
            count <= pieces.len(),
            k <= count,
            p == newline_pieces(s@),
            pieces@.map_values(|v: Vec<char>| v@) == p,
            count == (if p.last().len() == 0 { p.len() - 1 } else { p.len() as int }),
            lines.len() == k,
            forall|j: int| 0 <= j < k ==> (#[trigger] lines@[j])@ == text_lines(s@)[j],
        decreases count - k,
    {
        assert(pieces@[k as int]@ == p[k as int]);
        let piece = &pieces[k];
        let n = piece.len();
        if k + 1 < pieces.len() && n > 0 && piece[n - 1] == '\r' {
            let trimmed = crate::text::slice_range(piece.as_slice(), 0, n - 1);
            assert(trimmed@ =~= p[k as int].drop_last());
            lines.push(trimmed);
        } else {
            let whole = crate::text::slice_range(piece.as_slice(), 0, n);
            assert(whole@ =~= p[k as int]);
            lines.push(whole);
        }
        k += 1;
    }
    assert(lines@.map_values(|v: Vec<char>| v@) =~= text_lines(s@));
    lines
}

/// The UTF-16 length of a text.
fn utf16_length(s: &[char]) -> (r: u128)
    ensures
        r == utf16_len(s@),
{
    let mut i: usize = 0;
    let mut acc: u128 = 0;
    while i < s.len()
        invariant
            i <= s.len(),
            acc == utf16_len(s@.take(i as int)),
            acc <= 2 * i,
        decreases s.len() - i,
    {
        assert(s@.take(i + 1).drop_last() =~= s@.take(i as int));
        if (s[i] as u32) >= 0x10000 {
            acc = acc + 2;
        } else {
            acc = acc + 1;
        }
        i += 1;
    }
    assert(s@.take(s.len() as int) =~= s@);
    acc
}

/// The UTF-16 column of the point at `row` and UTF-8 column `column`.
pub fn utf16_column(source: &str, row: usize, column: usize) -> (r: u128)
    ensures
        r == spec_utf16_column(source@, row as int, column as int),
{
    let chars = crate::text::chars_of(source);
    let lines = lines_of(chars.as_slice());
    if row < lines.len() {
        assert(lines@[row as int]@ == text_lines(source@)[row as int]);
        match byte_slice_chars(lines[row].as_slice(), 0, column) {
            Some(prefix) => utf16_length(prefix.as_slice()),
            None => column as u128,
        }
    } else {
        column as u128
    }
}

/// The `[start_line, start_column, end_line, end_column]` range of a node,
/// its columns in UTF-16 code units.
pub open spec fn spec_node_utf16_range(source: Seq<char>, n: NodeTuple) -> Seq<i32> {
    seq![
        n.4 as i32,
        spec_utf16_column(source, n.4 as int, n.5 as int) as i32,
        n.6 as i32,
        spec_utf16_column(source, n.6 as int, n.7 as int) as i32,
    ]
}

/// The range of a node in UTF-16 columns.
pub fn node_utf16_range(source: &str, n: &SyntaxNode) -> (r: Vec<i32>)
    ensures
        r@ == spec_node_utf16_range(source@, node_tuple(*n)),
{
    let start = utf16_column(source, n.start_row, n.start_column);
    let end = utf16_column(source, n.end_row, n.end_column);
    let mut r: Vec<i32> = Vec::new();
    r.push(n.start_row as i32);
    r.push(start as i32);
    r.push(n.end_row as i32);
    r.push(end as i32);
    r
}

} // verus!
