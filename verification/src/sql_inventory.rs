//! The SQL-literal inventory of one parsed source file: every string
//! literal of the syntax tree that sits in a query context and holds a
//! complete data-access statement becomes one query site; sites are listed
//! by range, operation and digest, one per range and digest.
use vstd::prelude::*;

use crate::digest::{sha256, utf8_bytes};
use crate::sql_literals::{
    access_views, raw_accesses, spec_exact_literal_value, spec_has_sql_context, spec_is_string_node,
    spec_sql_tokens, strictly_increasing, AccessView,
};
use crate::sql_queries::{sql_statement, SqlQuerySite};
use crate::syntax_tree::{byte_slice, node_range, node_tuple, node_tuples, node_utf8_range, NodeTuple, SyntaxNode};
use crate::text::{collapse_whitespace, seq_lt, string_views, trim_ws, utf8_len};

verus! {

/// Why a file's SQL literals cannot be inventoried.
#[derive(Clone, Copy, Debug, PartialEq, Eq, Structural)]
pub enum SqlInventoryError {
    /// The node list does not have the shape of a pre-order listing.
    MalformedTree,
    /// A query-context literal is a lone template or verbatim-string opener.
    UnterminatedLiteral,
}

// ---------------------------------------------------------------------------
// The tree
// ---------------------------------------------------------------------------

/// `j` is the parent of node `i`: the nearest earlier node one level up.
pub open spec fn is_parent(t: Seq<NodeTuple>, i: int, j: int) -> bool {
    &&& 0 <= j < i < t.len()
    &&& t[j].8 + 1 == t[i].8
    &&& forall|k: int| j < k < i ==> #[trigger] t[k].8 != t[j].8
}

pub open spec fn parent_of(t: Seq<NodeTuple>, i: int) -> Option<int> {
    if exists|j: int| is_parent(t, i, j) {
        Some(choose|j: int| is_parent(t, i, j))
    } else {
        None
    }
}

/// The shape of a pre-order listing: the first node is the root, at depth
/// zero, and every later node lies below the root and at most one level
/// below the node before it.
pub open spec fn well_shaped(t: Seq<NodeTuple>) -> bool {
    &&& t.len() > 0
    &&& t[0].8 == 0
    &&& forall|i: int| 1 <= i < t.len() ==> 1 <= #[trigger] t[i].8 <= t[i - 1].8 + 1
}

proof fn lemma_parent_unique(t: Seq<NodeTuple>, i: int, j: int)
    requires
        is_parent(t, i, j),
    ensures
        parent_of(t, i) == Some(j),
{
    let c = choose|c: int| is_parent(t, i, c);
    if c < j {
        assert(t[j].8 != t[c].8);
    } else if j < c {
        assert(t[c].8 != t[j].8);
    }
}

pub(crate) proof fn lemma_parent_before(t: Seq<NodeTuple>, i: int)
    ensures
        parent_of(t, i) matches Some(p) ==> 0 <= p < i,
{
    if exists|j: int| is_parent(t, i, j) {
        let c = choose|c: int| is_parent(t, i, c);
        assert(is_parent(t, i, c));
    }
}

/// The walk reaches node `i`: the first node, and every named node whose
/// parent is reached and is not itself a string literal.
pub open spec fn visited(language: Seq<char>, t: Seq<NodeTuple>, i: int) -> bool
    decreases i,
{
    if i <= 0 {
        true
    } else {
        t[i].1 && match parent_of(t, i) {
            Some(p) => 0 <= p < i && visited(language, t, p) && !spec_is_string_node(language, t[p].0),
            None => false,
        }
    }
}

/// The text between two byte offsets of `src`, empty when they do not cut
/// it at character boundaries.
pub open spec fn text_between(src: Seq<char>, a: int, b: int) -> Seq<char> {
    match byte_slice(src, a, b) {
        Some(x) => x,
        None => Seq::empty(),
    }
}

/// The text of `parent` before `child`.
pub open spec fn prefix_text(src: Seq<char>, child: NodeTuple, parent: NodeTuple) -> Seq<char> {
    let pt = text_between(src, parent.2 as int, parent.3 as int);
    let len: int = if child.2 >= parent.2 { child.2 - parent.2 } else { 0 };
    let m: int = if len <= utf8_len(pt) { len } else { utf8_len(pt) as int };
    match byte_slice(pt, 0, m) {
        Some(x) => x,
        None => pt,
    }
}

/// For up to `k` enclosing nodes of `i`, nearest first, the enclosing
/// node's text before its child on the way to `i`.
pub open spec fn ancestor_prefixes(src: Seq<char>, t: Seq<NodeTuple>, i: int, k: nat) -> Seq<Seq<char>>
    decreases k,
{
    if k == 0 {
        Seq::empty()
    } else {
        match parent_of(t, i) {
            Some(p) => seq![prefix_text(src, t[i], t[p])] + ancestor_prefixes(src, t, p, (k - 1) as nat),
            None => Seq::empty(),
        }
    }
}

// ---------------------------------------------------------------------------
// Sites
// ---------------------------------------------------------------------------

/// A query site by its plain values: range, operation, digest, tables.
pub type SiteView = (Seq<i32>, Seq<char>, Seq<u8>, Set<AccessView>);

pub open spec fn site_view(s: SqlQuerySite) -> SiteView {
    (s.utf8_range@, s.operation@, s.digest@, access_views(s.tables@).to_set())
}

pub open spec fn site_views(v: Seq<SqlQuerySite>) -> Seq<SiteView> {
    v.map_values(|s: SqlQuerySite| site_view(s))
}

/// The site of one literal, as `sql_queries::sql_query_site` gives it.
pub open spec fn literal_site(language: Seq<char>, raw: Seq<char>, range: Seq<i32>, prefixes: Seq<Seq<char>>) -> Option<SiteView> {
    if !spec_has_sql_context(prefixes) {
        None
    } else {
        match spec_exact_literal_value(language, raw) {
            None => None,
            Some(v) => match sql_statement(v) {
                None => None,
                Some(op) => Some(
                    (range, op, sha256(utf8_bytes(collapse_whitespace(v))), raw_accesses(
                        spec_sql_tokens(v),
                        op,
                    ).to_set()),
                ),
            },
        }
    }
}

/// A lone template-literal or verbatim-string opener.
pub open spec fn unterminated(language: Seq<char>, raw: Seq<char>) -> bool {
    ||| (language == "typescript"@ || language == "javascript"@) && trim_ws(raw) == seq!['`']
    ||| language == "csharp"@ && trim_ws(raw) == seq!['@', '"']
}

/// A string literal the walk reaches.
pub open spec fn is_literal(language: Seq<char>, t: Seq<NodeTuple>, i: int) -> bool {
    visited(language, t, i) && spec_is_string_node(language, t[i].0)
}

pub open spec fn candidate(language: Seq<char>, src: Seq<char>, t: Seq<NodeTuple>, i: int) -> Option<SiteView> {
    if is_literal(language, t, i) {
        literal_site(
            language,
            text_between(src, t[i].2 as int, t[i].3 as int),
            node_range(t[i]),
            ancestor_prefixes(src, t, i, 6),
        )
    } else {
        None
    }
}

/// A reached literal in a query context that is an unterminated opener.
pub open spec fn blocked(language: Seq<char>, src: Seq<char>, t: Seq<NodeTuple>, i: int) -> bool {
    &&& is_literal(language, t, i)
    &&& spec_has_sql_context(ancestor_prefixes(src, t, i, 6))
    &&& unterminated(language, text_between(src, t[i].2 as int, t[i].3 as int))
}

/// The sites of the first `n` nodes, in pre-order.
pub open spec fn candidates(language: Seq<char>, src: Seq<char>, t: Seq<NodeTuple>, n: int) -> Seq<SiteView>
    decreases n,
{
    if n <= 0 {
        Seq::empty()
    } else {
        let before = candidates(language, src, t, n - 1);
        match candidate(language, src, t, n - 1) {
            Some(s) => before.push(s),
            None => before,
        }
    }
}

// ---------------------------------------------------------------------------
// Order and de-duplication
// ---------------------------------------------------------------------------

pub open spec fn lt_i32s(a: Seq<i32>, b: Seq<i32>) -> bool
    decreases a.len(),
{
    if a.len() == 0 {
        b.len() > 0
    } else if b.len() == 0 {
        false
    } else if a[0] != b[0] {
        a[0] < b[0]
    } else {
        lt_i32s(a.drop_first(), b.drop_first())
    }
}

pub open spec fn lt_u8s(a: Seq<u8>, b: Seq<u8>) -> bool
    decreases a.len(),
{
    if a.len() == 0 {
        b.len() > 0
    } else if b.len() == 0 {
        false
    } else if a[0] != b[0] {
        a[0] < b[0]
    } else {
        lt_u8s(a.drop_first(), b.drop_first())
    }
}

/// Sites order by range, then operation, then digest.
pub open spec fn site_lt(x: SiteView, y: SiteView) -> bool {
    ||| lt_i32s(x.0, y.0)
    ||| x.0 == y.0 && seq_lt(x.1, y.1)
    ||| x.0 == y.0 && x.1 == y.1 && lt_u8s(x.2, y.2)
}

/// `x` inserted after every element it does not precede.
pub open spec fn insert_site(s: Seq<SiteView>, x: SiteView) -> Seq<SiteView>
    decreases s.len(),
{
    if s.len() == 0 || !site_lt(x, s.last()) {
        s.push(x)
    } else {
        insert_site(s.drop_last(), x).push(s.last())
    }
}

/// The stable sort of `s` by `site_lt`.
pub open spec fn sort_sites(s: Seq<SiteView>) -> Seq<SiteView>
    decreases s.len(),
{
    if s.len() == 0 {
        s
    } else {
        insert_site(sort_sites(s.drop_last()), s.last())
    }
}

/// Two sites of one range with one digest.
pub open spec fn same_site(x: SiteView, y: SiteView) -> bool {
    x.0 == y.0 && x.2 == y.2
}

/// `s` without each site that repeats the one kept before it.
pub open spec fn dedup_sites(s: Seq<SiteView>) -> Seq<SiteView>
    decreases s.len(),
{
    if s.len() == 0 {
        s
    } else {
        let d = dedup_sites(s.drop_last());
        if d.len() > 0 && same_site(d.last(), s.last()) {
            d
        } else {
            d.push(s.last())
        }
    }
}

/// The inventory of a file: refused when the tree is malformed or a
/// query-context literal is an unterminated opener; else the sites of the
/// reached literals in pre-order, sorted and de-duplicated.
pub open spec fn spec_sql_inventory(language: Seq<char>, src: Seq<char>, t: Seq<NodeTuple>) -> Result<Seq<SiteView>, SqlInventoryError> {
    if !well_shaped(t) {
        Err(SqlInventoryError::MalformedTree)
    } else if exists|i: int| 0 <= i < t.len() && #[trigger] blocked(language, src, t, i) {
        Err(SqlInventoryError::UnterminatedLiteral)
    } else {
        Ok(dedup_sites(sort_sites(candidates(language, src, t, t.len() as int))))
    }
}

} // verus!

verus! {

// ---------------------------------------------------------------------------
// Parents and reached nodes
// ---------------------------------------------------------------------------

/// The parent of every node of a pre-order listing (zero for the root);
/// `None` when the list does not have that shape.
pub fn tree_parents(nodes: &[SyntaxNode]) -> (r: Option<Vec<usize>>)
    ensures
        match r {
            Some(p) => {
                &&& well_shaped(node_tuples(nodes@))
                &&& p.len() == nodes.len()
                &&& forall|i: int|
                    1 <= i < nodes.len() ==> parent_of(node_tuples(nodes@), i) == Some(
                        #[trigger] p@[i] as int,
                    )
            },
            None => !well_shaped(node_tuples(nodes@)),
        },
{
    let ghost t = node_tuples(nodes@);
    if nodes.len() == 0 {
        return None;
    }
    assert(t[0] == node_tuple(nodes@[0]));
    if nodes[0].depth != 0 {
        return None;
    }
    let mut parents: Vec<usize> = Vec::new();
    parents.push(0);
    let mut last: Vec<usize> = Vec::new();
    last.push(0);
    let mut i: usize = 1;
    while i < nodes.len()
        invariant
            t == node_tuples(nodes@),
            1 <= i <= nodes.len(),
            t[0].8 == 0,
            parents.len() == i,
            forall|k: int| 1 <= k < i ==> 1 <= #[trigger] t[k].8 <= t[k - 1].8 + 1,
            forall|k: int| 1 <= k < i ==> parent_of(t, k) == Some(#[trigger] parents@[k] as int),
            last.len() == t[i - 1].8 + 1,
            forall|d: int| 0 <= d < last.len() ==> #[trigger] last@[d] < i && t[last@[d] as int].8 == d,
            forall|d: int, m: int|
                #![trigger last@[d], t[m]]
                0 <= d < last.len() && last@[d] < m < i ==> t[m].8 != d,
        decreases nodes.len() - i,
    {
        assert(t[i as int] == node_tuple(nodes@[i as int]));
        let d = nodes[i].depth;
        if d == 0 || d > last.len() {
            assert(!(1 <= t[i as int].8 <= t[i - 1].8 + 1));
            return None;
        }
        let p = last[d - 1];
        proof {
            assert(t[p as int].8 == d - 1);
            assert forall|k: int| p < k < i implies #[trigger] t[k].8 != t[p as int].8 by {
                assert(last@[d - 1] == p);
            }
            assert(is_parent(t, i as int, p as int));
            lemma_parent_unique(t, i as int, p as int);
        }
        parents.push(p);
        let ghost old_last = last@;
        last.truncate(d);
        last.push(i);
        proof {
            assert forall|e: int| 0 <= e < last.len() implies #[trigger] last@[e] < i + 1 && t[last@[e] as int].8 == e by {
                if e < d {
                    assert(last@[e] == old_last[e]);
                }
            }
            assert forall|e: int, m: int| #![trigger last@[e], t[m]] 0 <= e < last.len() && last@[e] < m < i + 1 implies t[m].8 != e by {
                if e < d {
                    assert(last@[e] == old_last[e]);
                    if m < i {
                        assert(old_last[e] < m);
                    }
                }
            }
        }
        i += 1;
    }
    Some(parents)
}

/// Whether the walk reaches each node.
fn reached_nodes(language: &str, nodes: &[SyntaxNode], parents: &[usize]) -> (r: Vec<bool>)
    requires
        well_shaped(node_tuples(nodes@)),
        parents.len() == nodes.len(),
        forall|i: int|
            1 <= i < nodes.len() ==> parent_of(node_tuples(nodes@), i) == Some(#[trigger] parents@[i] as int),
    ensures
        r.len() == nodes.len(),
        forall|i: int| 0 <= i < nodes.len() ==> #[trigger] r@[i] == visited(language@, node_tuples(nodes@), i),
{
    let ghost t = node_tuples(nodes@);
    let mut r: Vec<bool> = Vec::new();
    r.push(true);
    let mut i: usize = 1;
    while i < nodes.len()
        invariant
            t == node_tuples(nodes@),
            1 <= i <= nodes.len(),
            r.len() == i,
            parents.len() == nodes.len(),
            forall|k: int| 1 <= k < nodes.len() ==> parent_of(t, k) == Some(#[trigger] parents@[k] as int),
            forall|k: int| 0 <= k < i ==> #[trigger] r@[k] == visited(language@, t, k),
        decreases nodes.len() - i,
    {
        let p = parents[i];
        proof {
            assert(parent_of(t, i as int) == Some(parents@[i as int] as int));
            lemma_parent_before(t, i as int);
            assert(t[i as int] == node_tuple(nodes@[i as int]));
            assert(t[p as int] == node_tuple(nodes@[p as int]));
        }
        let here = nodes[i].named && r[p] && !crate::sql_literals::is_string_node(language, nodes[p].kind.as_str());
        r.push(here);
        i += 1;
    }
    r
}

// ---------------------------------------------------------------------------
// Texts of nodes
// ---------------------------------------------------------------------------

/// The source text between two byte offsets, empty when they do not cut
/// the text at character boundaries.
pub(crate) fn text_of_range(src: &[char], start: usize, end: usize) -> (r: Vec<char>)
    ensures
        r@ == text_between(src@, start as int, end as int),
{
    match crate::syntax_tree::byte_slice_chars(src, start, end) {
        Some(v) => v,
        None => Vec::new(),
    }
}

/// The text of `parent` before `child`.
fn prefix_of(src: &[char], child: &SyntaxNode, parent: &SyntaxNode) -> (r: String)
    ensures
        r@ == prefix_text(src@, node_tuple(*child), node_tuple(*parent)),
{
    let pt = text_of_range(src, parent.start_byte, parent.end_byte);
    let len: usize = if child.start_byte >= parent.start_byte {
        child.start_byte - parent.start_byte
    } else {
        0
    };
    let total = crate::syntax_tree::utf8_length(pt.as_slice());
    let m: usize = if (len as u128) <= total {
        len
    } else {
        total as usize
    };
    match crate::syntax_tree::byte_slice_chars(pt.as_slice(), 0, m) {
        Some(x) => crate::text::string_of(x.as_slice()),
        None => crate::text::string_of(pt.as_slice()),
    }
}

/// The texts before node `i` of up to six of its enclosing nodes.
fn ancestor_texts(src: &[char], nodes: &[SyntaxNode], parents: &[usize], i: usize) -> (r: Vec<String>)
    requires
        i < nodes.len(),
        parents.len() == nodes.len(),
        forall|k: int|
            1 <= k < nodes.len() ==> parent_of(node_tuples(nodes@), k) == Some(#[trigger] parents@[k] as int),
    ensures
        string_views(r@) == ancestor_prefixes(src@, node_tuples(nodes@), i as int, 6),
{
    let ghost t = node_tuples(nodes@);
    let mut r: Vec<String> = Vec::new();
    let mut cur: usize = i;
    let mut k: usize = 0;
    while k < 6 && cur > 0
        invariant
            t == node_tuples(nodes@),
            k <= 6,
            cur < nodes.len(),
            parents.len() == nodes.len(),
            forall|j: int| 1 <= j < nodes.len() ==> parent_of(t, j) == Some(#[trigger] parents@[j] as int),
            string_views(r@) + ancestor_prefixes(src@, t, cur as int, (6 - k) as nat)
                == ancestor_prefixes(src@, t, i as int, 6),
        decreases 6 - k,
    {
        let p = parents[cur];
        proof {
            assert(parent_of(t, cur as int) == Some(parents@[cur as int] as int));
            lemma_parent_before(t, cur as int);
            assert(t[cur as int] == node_tuple(nodes@[cur as int]));
            assert(t[p as int] == node_tuple(nodes@[p as int]));
        }
        let s = prefix_of(src, &nodes[cur], &nodes[p]);
        let ghost before = string_views(r@);
        let ghost rest = ancestor_prefixes(src@, t, p as int, (6 - k - 1) as nat);
        proof {
            assert(ancestor_prefixes(src@, t, cur as int, (6 - k) as nat) == seq![s@] + rest);
        }
        r.push(s);
        proof {
            assert(string_views(r@) == before.push(s@));
            assert(before + (seq![s@] + rest) =~= before.push(s@) + rest);
        }
        cur = p;
        k += 1;
    }
    proof {
        if k < 6 {
            assert(cur == 0);
            assert(parent_of(t, 0) is None);
        }
        assert(ancestor_prefixes(src@, t, cur as int, (6 - k) as nat) == Seq::<Seq<char>>::empty());
        assert(string_views(r@) + Seq::<Seq<char>>::empty() =~= string_views(r@));
    }
    r
}

} // verus!

verus! {

// ---------------------------------------------------------------------------
// Comparing and placing sites
// ---------------------------------------------------------------------------

/// Negative, zero or positive as `a` is before, equal to or after `b`.
pub(crate) fn compare_i32s(a: &[i32], b: &[i32]) -> (r: i8)
    ensures
        (r < 0) == lt_i32s(a@, b@),
        (r == 0) == (a@ == b@),
{
    let mut i: usize = 0;
    proof {
        assert(a@.skip(0) == a@);
        assert(b@.skip(0) == b@);
    }
    while i < a.len() && i < b.len()
        invariant
            i <= a.len(),
            i <= b.len(),
            forall|k: int| 0 <= k < i ==> a@[k] == b@[k],
            lt_i32s(a@, b@) == lt_i32s(a@.skip(i as int), b@.skip(i as int)),
        decreases a.len() - i,
    {
        assert(a@.skip(i as int)[0] == a@[i as int]);
        assert(b@.skip(i as int)[0] == b@[i as int]);
        if a[i] != b[i] {
            if a[i] < b[i] {
                return -1;
            } else {
                return 1;
            }
        }
        assert(a@.skip(i as int).drop_first() == a@.skip(i + 1));
        assert(b@.skip(i as int).drop_first() == b@.skip(i + 1));
        i += 1;
    }
    if a.len() == b.len() {
        assert(a@ =~= b@);
        0
    } else if a.len() < b.len() {
        -1
    } else {
        1
    }
}

/// Negative, zero or positive as `a` is before, equal to or after `b`.
fn compare_u8s(a: &[u8], b: &[u8]) -> (r: i8)
    ensures
        (r < 0) == lt_u8s(a@, b@),
        (r == 0) == (a@ == b@),
{
    let mut i: usize = 0;
    proof {
        assert(a@.skip(0) == a@);
        assert(b@.skip(0) == b@);
    }
    while i < a.len() && i < b.len()
        invariant
            i <= a.len(),
            i <= b.len(),
            forall|k: int| 0 <= k < i ==> a@[k] == b@[k],
            lt_u8s(a@, b@) == lt_u8s(a@.skip(i as int), b@.skip(i as int)),
        decreases a.len() - i,
    {
        assert(a@.skip(i as int)[0] == a@[i as int]);
        assert(b@.skip(i as int)[0] == b@[i as int]);
        if a[i] != b[i] {
            if a[i] < b[i] {
                return -1;
            } else {
                return 1;
            }
        }
        assert(a@.skip(i as int).drop_first() == a@.skip(i + 1));
        assert(b@.skip(i as int).drop_first() == b@.skip(i + 1));
        i += 1;
    }
    if a.len() == b.len() {
        assert(a@ =~= b@);
        0
    } else if a.len() < b.len() {
        -1
    } else {
        1
    }
}

/// Whether site `a` orders before site `b`.
fn site_less(a: &SqlQuerySite, b: &SqlQuerySite) -> (r: bool)
    ensures
        r == site_lt(site_view(*a), site_view(*b)),
{
    let c = compare_i32s(a.utf8_range.as_slice(), b.utf8_range.as_slice());
    if c != 0 {
        return c < 0;
    }
    let oa = crate::text::chars_of(a.operation.as_str());
    let ob = crate::text::chars_of(b.operation.as_str());
    let d = crate::text::order_chars(oa.as_slice(), ob.as_slice());
    if d != 0 {
        return d < 0;
    }
    compare_u8s(a.digest.as_slice(), b.digest.as_slice()) < 0
}

/// Whether two sites share range and digest.
fn site_same(a: &SqlQuerySite, b: &SqlQuerySite) -> (r: bool)
    ensures
        r == same_site(site_view(*a), site_view(*b)),
{
    compare_i32s(a.utf8_range.as_slice(), b.utf8_range.as_slice()) == 0 && compare_u8s(
        a.digest.as_slice(),
        b.digest.as_slice(),
    ) == 0
}

proof fn lemma_insert_site_at(s: Seq<SiteView>, x: SiteView, p: int)
    requires
        0 <= p <= s.len(),
        forall|k: int| p <= k < s.len() ==> site_lt(x, #[trigger] s[k]),
        p == 0 || !site_lt(x, s[p - 1]),
    ensures
        insert_site(s, x) == s.insert(p, x),
    decreases s.len(),
{
    if s.len() == p {
        assert(s.push(x) =~= s.insert(p, x));
    } else {
        assert(site_lt(x, s[s.len() - 1]));
        lemma_insert_site_at(s.drop_last(), x, p);
        assert(s.drop_last().insert(p, x).push(s.last()) =~= s.insert(p, x));
    }
}

/// Places `site` after every site it does not order before.
fn insert_sorted(sorted: &mut Vec<SqlQuerySite>, site: SqlQuerySite) -> (p: usize)
    ensures
        p <= old(sorted).len(),
        final(sorted)@ == old(sorted)@.insert(p as int, site),
        site_views(final(sorted)@) == insert_site(site_views(old(sorted)@), site_view(site)),
{
    let ghost views = site_views(sorted@);
    let mut p: usize = sorted.len();
    loop
        invariant
            p <= sorted.len(),
            views == site_views(sorted@),
            forall|k: int| p <= k < sorted.len() ==> site_lt(site_view(site), #[trigger] views[k]),
        ensures
            p <= sorted.len(),
            forall|k: int| p <= k < sorted.len() ==> site_lt(site_view(site), #[trigger] views[k]),
            p == 0 || !site_lt(site_view(site), views[p - 1]),
        decreases p,
    {
        if p == 0 {
            break;
        }
        let before = site_less(&site, &sorted[p - 1]);
        if !before {
            break;
        }
        p -= 1;
    }
    proof {
        lemma_insert_site_at(views, site_view(site), p as int);
    }
    let ghost sv = site_view(site);
    sorted.insert(p, site);
    proof {
        assert(site_views(sorted@) =~= views.insert(p as int, sv));
    }
    p
}

// ---------------------------------------------------------------------------
// Literals
// ---------------------------------------------------------------------------

/// Whether `raw` is a lone template-literal or verbatim-string opener.
fn unterminated_opener(language: &str, raw: &str) -> (r: bool)
    ensures
        r == unterminated(language@, raw@),
{
    let text = crate::text::trim_str(raw);
    proof {
        reveal_strlit("`");
        reveal_strlit("@\"");
        assert("`"@ =~= seq!['`']);
        assert("@\""@ =~= seq!['@', '"']);
    }
    let script = crate::text::str_eq(language, "typescript") || crate::text::str_eq(language, "javascript");
    (script && crate::text::str_eq(text, "`")) || (crate::text::str_eq(language, "csharp")
        && crate::text::str_eq(text, "@\""))
}

/// The texts of `v`, borrowed.
fn borrow_all<'a>(v: &'a [String]) -> (r: Vec<&'a str>)
    ensures
        crate::census::views_of(r@) == string_views(v@),
{
    let mut r: Vec<&'a str> = Vec::new();
    let mut k: usize = 0;
    while k < v.len()
        invariant
            k <= v.len(),
            r.len() == k,
            forall|j: int| 0 <= j < k ==> (#[trigger] r@[j])@ == v@[j]@,
        decreases v.len() - k,
    {
        r.push(v[k].as_str());
        k += 1;
    }
    assert(crate::census::views_of(r@) =~= string_views(v@));
    r
}

} // verus!

verus! {

// ---------------------------------------------------------------------------
// The inventory
// ---------------------------------------------------------------------------

/// Every site lists its tables in strictly increasing order.
pub open spec fn tables_sorted(v: Seq<SqlQuerySite>) -> bool {
    forall|k: int| 0 <= k < v.len() ==> strictly_increasing(access_views(#[trigger] v[k].tables@))
}

/// `sorted` without each site that repeats the range and digest of the site
/// kept before it.
fn dedup_sorted(sorted: Vec<SqlQuerySite>) -> (r: Vec<SqlQuerySite>)
    requires
        tables_sorted(sorted@),
    ensures
        site_views(r@) == dedup_sites(site_views(sorted@)),
        tables_sorted(r@),
{
    let ghost orig = sorted@;
    let ghost n = orig.len();
    let mut rest = sorted;
    let mut rev: Vec<SqlQuerySite> = Vec::new();
    while rest.len() > 0
        invariant
            rest.len() + rev.len() == n,
            forall|k: int| 0 <= k < rest.len() ==> #[trigger] rest@[k] == orig[k],
            forall|k: int| 0 <= k < rev.len() ==> #[trigger] rev@[k] == orig[n - 1 - k],
        decreases rest.len(),
    {
        match rest.pop() {
            Some(x) => {
                rev.push(x);
            },
            None => {},
        }
    }
    let ghost s = site_views(orig);
    let mut r: Vec<SqlQuerySite> = Vec::new();
    proof {
        assert(s.take(0) =~= Seq::<SiteView>::empty());
    }
    while rev.len() > 0
        invariant
            rev.len() <= n,
            s == site_views(orig),
            n == orig.len(),
            tables_sorted(orig),
            forall|k: int| 0 <= k < rev.len() ==> #[trigger] rev@[k] == orig[n - 1 - k],
            site_views(r@) == dedup_sites(s.take(n - rev.len())),
            tables_sorted(r@),
        decreases rev.len(),
    {
        let ghost m = n - rev.len() + 1;
        match rev.pop() {
            Some(x) => {
                proof {
                    assert(x == orig[m - 1]);
                    assert(s.take(m).drop_last() =~= s.take(m - 1));
                    assert(s.take(m).last() == site_view(x));
                }
                let keep = r.len() == 0 || !site_same(&r[r.len() - 1], &x);
                proof {
                    if r.len() > 0 {
                        assert(site_views(r@).last() == site_view(r@[r.len() - 1]));
                    }
                }
                if keep {
                    let ghost before = r@;
                    r.push(x);
                    proof {
                        assert(site_views(r@) =~= site_views(before).push(site_view(x)));
                        assert forall|k: int| 0 <= k < r.len() implies strictly_increasing(
                            access_views(#[trigger] r@[k].tables@),
                        ) by {
                            if k < before.len() {
                                assert(r@[k] == before[k]);
                            }
                        }
                    }
                }
            },
            None => {},
        }
    }
    proof {
        assert(s.take(n as int) =~= s);
    }
    r
}

/// What node `i` contributes to the inventory: `Err` when it is a literal
/// that blocks it, else its site, if any.
fn node_site(
    language: &str,
    source: &str,
    src: &[char],
    nodes: &[SyntaxNode],
    parents: &[usize],
    reached: bool,
    i: usize,
) -> (r: Result<Option<SqlQuerySite>, ()>)
    requires
        src@ == source@,
        i < nodes.len(),
        parents.len() == nodes.len(),
        forall|k: int|
            1 <= k < nodes.len() ==> parent_of(node_tuples(nodes@), k) == Some(#[trigger] parents@[k] as int),
        reached == visited(language@, node_tuples(nodes@), i as int),
    ensures
        match r {
            Err(()) => blocked(language@, source@, node_tuples(nodes@), i as int),
            Ok(found) => {
                &&& !blocked(language@, source@, node_tuples(nodes@), i as int)
                &&& match found {
                    Some(site) => {
                        &&& candidate(language@, source@, node_tuples(nodes@), i as int) == Some(site_view(site))
                        &&& strictly_increasing(access_views(site.tables@))
                    },
                    None => candidate(language@, source@, node_tuples(nodes@), i as int) is None,
                }
            },
        },
{
    let ghost t = node_tuples(nodes@);
    proof {
        assert(t[i as int] == node_tuple(nodes@[i as int]));
    }
    if !(reached && crate::sql_literals::is_string_node(language, nodes[i].kind.as_str())) {
        return Ok(None);
    }
    let raw_chars = text_of_range(src, nodes[i].start_byte, nodes[i].end_byte);
    let prefixes = ancestor_texts(src, nodes, parents, i);
    let refs = borrow_all(prefixes.as_slice());
    if !crate::sql_literals::has_sql_context(refs.as_slice()) {
        return Ok(None);
    }
    let raw = crate::text::string_of(raw_chars.as_slice());
    if unterminated_opener(language, raw.as_str()) {
        return Err(());
    }
    let found = crate::sql_queries::sql_query_site(language, raw.as_str(), node_utf8_range(&nodes[i]), refs.as_slice());
    proof {
        match &found {
            Some(site) => {
                assert(candidate(language@, source@, t, i as int) == Some(site_view(*site)));
            },
            None => {},
        }
    }
    Ok(found)
}

/// Places a site among sorted sites, keeping every site's tables sorted.
fn add_site(sorted: &mut Vec<SqlQuerySite>, site: SqlQuerySite)
    requires
        tables_sorted(old(sorted)@),
        strictly_increasing(access_views(site.tables@)),
    ensures
        tables_sorted(final(sorted)@),
        site_views(final(sorted)@) == insert_site(site_views(old(sorted)@), site_view(site)),
{
    let ghost before = sorted@;
    let ghost tables = site.tables@;
    let p = insert_sorted(sorted, site);
    proof {
        assert forall|k: int| 0 <= k < sorted.len() implies strictly_increasing(
            access_views(#[trigger] sorted@[k].tables@),
        ) by {
            if k < p {
                assert(sorted@[k] == before[k]);
            } else if k > p {
                assert(sorted@[k] == before[k - 1]);
            } else {
                assert(sorted@[k].tables@ == tables);
            }
        }
    }
}

/// The SQL query sites of a parsed source file: `nodes` is its syntax tree in
/// pre-order. Refused when the nodes are not a pre-order listing, or when a
/// string literal in a query context is an unterminated opener; otherwise
/// the sites of the reached literals, sorted by range, operation and digest,
/// one per range and digest.
#[verifier::rlimit(30)]
pub fn inventory_sql_query_literals(language: &str, source: &str, nodes: &[SyntaxNode]) -> (r: Result<
    Vec<SqlQuerySite>,
    SqlInventoryError,
>)
    ensures
        match r {
            Ok(v) => {
                &&& spec_sql_inventory(language@, source@, node_tuples(nodes@)) == Ok::<
                    Seq<SiteView>,
                    SqlInventoryError,
                >(site_views(v@))
                &&& tables_sorted(v@)
            },
            Err(e) => spec_sql_inventory(language@, source@, node_tuples(nodes@)) == Err::<
                Seq<SiteView>,
                SqlInventoryError,
            >(e),
        },
{
    let ghost t = node_tuples(nodes@);
    let parents = match tree_parents(nodes) {
        Some(p) => p,
        None => {
            return Err(SqlInventoryError::MalformedTree);
        },
    };
    let reach = reached_nodes(language, nodes, parents.as_slice());
    let src = crate::text::chars_of(source);
    let mut sorted: Vec<SqlQuerySite> = Vec::new();
    let mut i: usize = 0;
    while i < nodes.len()
        invariant
            t == node_tuples(nodes@),
            well_shaped(t),
            src@ == source@,
            parents.len() == nodes.len(),
            forall|k: int| 1 <= k < nodes.len() ==> parent_of(t, k) == Some(#[trigger] parents@[k] as int),
            reach.len() == nodes.len(),
            forall|k: int| 0 <= k < nodes.len() ==> #[trigger] reach@[k] == visited(language@, t, k),
            i <= nodes.len(),
            site_views(sorted@) == sort_sites(candidates(language@, source@, t, i as int)),
            tables_sorted(sorted@),
            forall|k: int| 0 <= k < i ==> !#[trigger] blocked(language@, source@, t, k),
        decreases nodes.len() - i,
    {
        proof {
            assert(reach@[i as int] == visited(language@, t, i as int));
        }
        let found = match node_site(language, source, src.as_slice(), nodes, parents.as_slice(), reach[i], i) {
            Ok(found) => found,
            Err(()) => {
                proof {
                    assert(blocked(language@, source@, t, i as int));
                    assert(!well_shaped(t) || exists|k: int| 0 <= k < t.len() && #[trigger] blocked(language@, source@, t, k));
                }
                return Err(SqlInventoryError::UnterminatedLiteral);
            },
        };
        let ghost cands = candidates(language@, source@, t, i as int);
        match found {
            Some(site) => {
                proof {
                    assert(cands.push(site_view(site)).drop_last() =~= cands);
                }
                add_site(&mut sorted, site);
            },
            None => {},
        }
        i += 1;
    }
    proof {
        assert(!exists|k: int| 0 <= k < t.len() && #[trigger] blocked(language@, source@, t, k));
    }
    Ok(dedup_sorted(sorted))
}

} // verus!

verus! {

/// Why the SQL literals of a source text cannot be inventoried.
#[derive(Clone, Copy, Debug, PartialEq, Eq, Structural)]
pub enum SourceSqlError {
    Parse(crate::syntax_tree::ParseError),
    Inventory(SqlInventoryError),
}

/// The inventory of a source text: its parse, then the inventory of the
/// parsed nodes.
pub open spec fn spec_source_sql_inventory(language: Seq<char>, path: Seq<char>, source: Seq<char>) -> Result<
    Seq<SiteView>,
    SourceSqlError,
> {
    match crate::syntax_tree::spec_parse_source(language, path, source) {
        Err(e) => Err(SourceSqlError::Parse(e)),
        Ok(t) => match spec_sql_inventory(language, source, t) {
            Ok(v) => Ok(v),
            Err(e) => Err(SourceSqlError::Inventory(e)),
        },
    }
}

/// The SQL query sites of a source file, parsed with the grammar of its
/// language.
pub fn inventory_source_sql(language: &str, path: &str, source: &str) -> (r: Result<
    Vec<SqlQuerySite>,
    SourceSqlError,
>)
    ensures
        match r {
            Ok(v) => {
                &&& spec_source_sql_inventory(language@, path@, source@) == Ok::<
                    Seq<SiteView>,
                    SourceSqlError,
                >(site_views(v@))
                &&& tables_sorted(v@)
            },
            Err(e) => spec_source_sql_inventory(language@, path@, source@) == Err::<
                Seq<SiteView>,
                SourceSqlError,
            >(e),
        },
{
    let nodes = match crate::syntax_tree::parse_source(language, path, source) {
        Ok(v) => v,
        Err(e) => {
            return Err(SourceSqlError::Parse(e));
        },
    };
    match inventory_sql_query_literals(language, source, nodes.as_slice()) {
        Ok(v) => Ok(v),
        Err(e) => Err(SourceSqlError::Inventory(e)),
    }
}

} // verus!

verus! {

// ---------------------------------------------------------------------------
// The order of sites
// ---------------------------------------------------------------------------

proof fn lemma_lt_i32s_order(a: Seq<i32>, b: Seq<i32>, c: Seq<i32>)
    ensures
        !lt_i32s(a, a),
        a == b || lt_i32s(a, b) || lt_i32s(b, a),
        lt_i32s(a, b) && lt_i32s(b, c) ==> lt_i32s(a, c),
    decreases a.len(),
{
    if a.len() > 0 {
        lemma_lt_i32s_order(a.drop_first(), a.drop_first(), a.drop_first());
    }
    if a.len() > 0 && b.len() > 0 {
        lemma_lt_i32s_order(a.drop_first(), b.drop_first(), if c.len() > 0 { c.drop_first() } else { c });
        if a[0] == b[0] && a.drop_first() == b.drop_first() {
            assert(a =~= seq![a[0]] + a.drop_first());
            assert(b =~= seq![b[0]] + b.drop_first());
        }
    } else if a.len() == 0 && b.len() == 0 {
        assert(a =~= b);
    }
}

proof fn lemma_lt_u8s_order(a: Seq<u8>, b: Seq<u8>, c: Seq<u8>)
    ensures
        !lt_u8s(a, a),
        a == b || lt_u8s(a, b) || lt_u8s(b, a),
        lt_u8s(a, b) && lt_u8s(b, c) ==> lt_u8s(a, c),
    decreases a.len(),
{
    if a.len() > 0 {
        lemma_lt_u8s_order(a.drop_first(), a.drop_first(), a.drop_first());
    }
    if a.len() > 0 && b.len() > 0 {
        lemma_lt_u8s_order(a.drop_first(), b.drop_first(), if c.len() > 0 { c.drop_first() } else { c });
        if a[0] == b[0] && a.drop_first() == b.drop_first() {
            assert(a =~= seq![a[0]] + a.drop_first());
            assert(b =~= seq![b[0]] + b.drop_first());
        }
    } else if a.len() == 0 && b.len() == 0 {
        assert(a =~= b);
    }
}

/// Sites ordered by `site_lt` form a strict weak order: no site precedes
/// itself, and of three sites, one that precedes the last precedes or
/// follows the middle one accordingly.
pub proof fn lemma_site_order(x: SiteView, y: SiteView, z: SiteView)
    ensures
        !site_lt(x, x),
        site_lt(x, y) ==> !site_lt(y, x),
        site_lt(x, z) ==> site_lt(x, y) || site_lt(y, z),
{
    lemma_lt_i32s_order(x.0, y.0, z.0);
    lemma_lt_i32s_order(y.0, z.0, x.0);
    lemma_lt_i32s_order(z.0, x.0, y.0);
    lemma_lt_i32s_order(x.0, z.0, y.0);
    lemma_lt_i32s_order(y.0, x.0, z.0);
    lemma_lt_i32s_order(z.0, y.0, x.0);
    lemma_lt_i32s_order(x.0, y.0, x.0);
    lemma_lt_u8s_order(x.2, y.2, z.2);
    lemma_lt_u8s_order(y.2, z.2, x.2);
    lemma_lt_u8s_order(z.2, x.2, y.2);
    lemma_lt_u8s_order(x.2, z.2, y.2);
    lemma_lt_u8s_order(y.2, x.2, z.2);
    lemma_lt_u8s_order(z.2, y.2, x.2);
    lemma_lt_u8s_order(x.2, y.2, x.2);
    crate::text::lemma_seq_lt_irreflexive(x.1);
    crate::text::lemma_seq_lt_total(x.1, y.1);
    crate::text::lemma_seq_lt_total(y.1, z.1);
    crate::text::lemma_seq_lt_total(x.1, z.1);
    if seq_lt(x.1, y.1) {
        crate::text::lemma_seq_lt_asymmetric(x.1, y.1);
    }
    if seq_lt(x.1, y.1) && seq_lt(y.1, z.1) {
        crate::text::lemma_seq_lt_transitive(x.1, y.1, z.1);
    }
    if seq_lt(y.1, z.1) && seq_lt(z.1, x.1) {
        crate::text::lemma_seq_lt_transitive(y.1, z.1, x.1);
    }
    if seq_lt(z.1, x.1) && seq_lt(x.1, y.1) {
        crate::text::lemma_seq_lt_transitive(z.1, x.1, y.1);
    }
    if seq_lt(x.1, z.1) && seq_lt(z.1, y.1) {
        crate::text::lemma_seq_lt_transitive(x.1, z.1, y.1);
    }
    if seq_lt(y.1, x.1) && seq_lt(x.1, z.1) {
        crate::text::lemma_seq_lt_transitive(y.1, x.1, z.1);
    }
    if seq_lt(z.1, y.1) && seq_lt(y.1, x.1) {
        crate::text::lemma_seq_lt_transitive(z.1, y.1, x.1);
    }
    if seq_lt(x.1, z.1) {
        crate::text::lemma_seq_lt_asymmetric(x.1, z.1);
    }
    if seq_lt(y.1, x.1) {
        crate::text::lemma_seq_lt_asymmetric(y.1, x.1);
    }
}

/// `s` lists no site before one that precedes it.
pub open spec fn sites_ordered(s: Seq<SiteView>) -> bool {
    forall|i: int, j: int| 0 <= i < j < s.len() ==> !site_lt(#[trigger] s[j], #[trigger] s[i])
}

proof fn lemma_insert_site_ordered(s: Seq<SiteView>, x: SiteView)
    requires
        sites_ordered(s),
    ensures
        sites_ordered(insert_site(s, x)),
        insert_site(s, x).len() == s.len() + 1,
        forall|i: int|
            0 <= i < insert_site(s, x).len() ==> #[trigger] insert_site(s, x)[i] == x || s.contains(
                insert_site(s, x)[i],
            ),
    decreases s.len(),
{
    let r = insert_site(s, x);
    if s.len() == 0 || !site_lt(x, s.last()) {
        assert(r == s.push(x));
        assert forall|i: int, j: int| 0 <= i < j < r.len() implies !site_lt(#[trigger] r[j], #[trigger] r[i]) by {
            if j == s.len() {
                lemma_site_order(x, s.last(), s[i]);
                if i < s.len() - 1 {
                    assert(!site_lt(s[s.len() - 1], s[i]));
                }
            }
        }
        assert forall|i: int| 0 <= i < r.len() implies #[trigger] r[i] == x || s.contains(r[i]) by {
            if i < s.len() {
                assert(r[i] == s[i]);
            }
        }
    } else {
        let d = s.drop_last();
        let y = s.last();
        assert forall|i: int, j: int| 0 <= i < j < d.len() implies !site_lt(#[trigger] d[j], #[trigger] d[i]) by {
            assert(d[i] == s[i] && d[j] == s[j]);
        }
        lemma_insert_site_ordered(d, x);
        let inner = insert_site(d, x);
        assert(r == inner.push(y));
        assert forall|i: int, j: int| 0 <= i < j < r.len() implies !site_lt(#[trigger] r[j], #[trigger] r[i]) by {
            if j == inner.len() {
                assert(r[j] == y);
                assert(r[i] == inner[i]);
                if inner[i] == x {
                    lemma_site_order(x, y, x);
                } else {
                    assert(d.contains(inner[i]));
                    let k = choose|k: int| 0 <= k < d.len() && d[k] == inner[i];
                    assert(s[k] == d[k]);
                    assert(!site_lt(s[s.len() - 1], s[k]));
                }
            } else {
                assert(r[i] == inner[i] && r[j] == inner[j]);
            }
        }
        assert forall|i: int| 0 <= i < r.len() implies #[trigger] r[i] == x || s.contains(r[i]) by {
            if i < inner.len() {
                assert(r[i] == inner[i]);
                if inner[i] != x {
                    assert(d.contains(inner[i]));
                    let k = choose|k: int| 0 <= k < d.len() && d[k] == inner[i];
                    assert(s[k] == d[k]);
                }
            } else {
                assert(r[i] == s[s.len() - 1]);
            }
        }
    }
}

/// Sorting puts sites in order and keeps only sites it was given.
pub proof fn lemma_sort_sites_ordered(s: Seq<SiteView>)
    ensures
        sites_ordered(sort_sites(s)),
        forall|i: int| 0 <= i < sort_sites(s).len() ==> s.contains(#[trigger] sort_sites(s)[i]),
    decreases s.len(),
{
    if s.len() > 0 {
        let d = s.drop_last();
        lemma_sort_sites_ordered(d);
        lemma_insert_site_ordered(sort_sites(d), s.last());
        let r = sort_sites(s);
        assert forall|i: int| 0 <= i < r.len() implies s.contains(#[trigger] r[i]) by {
            if r[i] == s.last() {
                assert(s[s.len() - 1] == r[i]);
            } else {
                assert(sort_sites(d).contains(r[i]));
                let k = choose|k: int| 0 <= k < sort_sites(d).len() && sort_sites(d)[k] == r[i];
                assert(d.contains(sort_sites(d)[k]));
                let m = choose|m: int| 0 <= m < d.len() && d[m] == r[i];
                assert(s[m] == d[m]);
            }
        }
    }
}

/// De-duplicating keeps the order, keeps only sites it was given, and
/// leaves no two neighbours with one range and digest.
pub proof fn lemma_dedup_sites(s: Seq<SiteView>)
    requires
        sites_ordered(s),
    ensures
        sites_ordered(dedup_sites(s)),
        forall|i: int| 0 <= i < dedup_sites(s).len() ==> s.contains(#[trigger] dedup_sites(s)[i]),
        forall|i: int| 0 <= i < dedup_sites(s).len() - 1 ==> !same_site(#[trigger] dedup_sites(s)[i], dedup_sites(s)[i + 1]),
    decreases s.len(),
{
    if s.len() > 0 {
        let d = s.drop_last();
        assert forall|i: int, j: int| 0 <= i < j < d.len() implies !site_lt(#[trigger] d[j], #[trigger] d[i]) by {
            assert(d[i] == s[i] && d[j] == s[j]);
        }
        lemma_dedup_sites(d);
        let e = dedup_sites(d);
        let r = dedup_sites(s);
        let y = s.last();
        assert forall|i: int| 0 <= i < e.len() implies d.contains(#[trigger] e[i]) && !site_lt(y, e[i]) by {
            assert(d.contains(e[i]));
            let k = choose|k: int| 0 <= k < d.len() && d[k] == e[i];
            assert(s[k] == d[k]);
            assert(!site_lt(s[s.len() - 1], s[k]));
        }
        if !(e.len() > 0 && same_site(e.last(), y)) {
            assert(r == e.push(y));
            assert forall|i: int, j: int| 0 <= i < j < r.len() implies !site_lt(#[trigger] r[j], #[trigger] r[i]) by {
                if j == e.len() {
                    assert(r[i] == e[i]);
                } else {
                    assert(r[i] == e[i] && r[j] == e[j]);
                }
            }
            assert forall|i: int| 0 <= i < r.len() implies s.contains(#[trigger] r[i]) by {
                if i < e.len() {
                    assert(r[i] == e[i]);
                    let k = choose|k: int| 0 <= k < d.len() && d[k] == e[i];
                    assert(s[k] == d[k]);
                } else {
                    assert(s[s.len() - 1] == r[i]);
                }
            }
            assert forall|i: int| 0 <= i < r.len() - 1 implies !same_site(#[trigger] r[i], r[i + 1]) by {
                assert(r[i] == e[i]);
                if i + 1 < e.len() {
                    assert(r[i + 1] == e[i + 1]);
                }
            }
        } else {
            assert forall|i: int| 0 <= i < r.len() implies s.contains(#[trigger] r[i]) by {
                let k = choose|k: int| 0 <= k < d.len() && d[k] == e[i];
                assert(s[k] == d[k]);
            }
        }
    }
}

/// Every site among the first `n` nodes' sites is the site of one of them.
pub proof fn lemma_candidates_come_from_nodes(language: Seq<char>, src: Seq<char>, t: Seq<NodeTuple>, n: int)
    ensures
        forall|i: int|
            0 <= i < candidates(language, src, t, n).len() ==> exists|k: int|
                0 <= k < n && candidate(language, src, t, k) == Some(#[trigger] candidates(language, src, t, n)[i]),
    decreases n,
{
    if n > 0 {
        lemma_candidates_come_from_nodes(language, src, t, n - 1);
        let before = candidates(language, src, t, n - 1);
        let all = candidates(language, src, t, n);
        assert forall|i: int| 0 <= i < all.len() implies exists|k: int|
            0 <= k < n && candidate(language, src, t, k) == Some(#[trigger] all[i]) by {
            if i < before.len() {
                assert(all[i] == before[i]);
                let k = choose|k: int| 0 <= k < n - 1 && candidate(language, src, t, k) == Some(before[i]);
                assert(candidate(language, src, t, k) == Some(all[i]));
            } else {
                assert(candidate(language, src, t, n - 1) == Some(all[i]));
            }
        }
    }
}

} // verus!
