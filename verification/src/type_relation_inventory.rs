//! The provider-independent inventory of explicit type hierarchy sites: what
//! the source says about a type and the types it extends, implements or
//! mixes in. A walk through named children from the root visits every
//! declaration that can carry such a clause; each clause target is reduced
//! to its type-name leaf, and the sites come out in order, without repeats.
use vstd::prelude::*;

use crate::model::{LanguageRelationKind, ProgrammingLanguage};
use crate::ordering::{dedup_by, lemma_dedup_by_push, lemma_insert_by_at, lemma_sort_by_push, sort_by};
use crate::relations::TypeRelationIntent;
use crate::sql_inventory::{compare_i32s, lt_i32s, parent_of, tree_parents, well_shaped};
use crate::syntax_tree::{
    node_range, node_tuple, node_tuples, node_utf16_range, node_utf8_range, parse_source, spec_node_utf16_range,
    spec_parse_source, NodeTuple, ParseError, SyntaxNode,
};
use crate::syntax_walk::{
    children, children_of, first_child, first_child_of, index_opt, indices, kind_is, node_text, test_view,
    trimmed_text_of, walked, walked_nodes, ChildTest, ChildTestView,
};
use crate::text::{seq_lt, string_of, trim_ws};
use crate::type_classification::SyntaxTypeRelationSite;
use crate::type_relations::{
    is_clause_wrapper, is_type_argument_container, is_type_name, spec_intent_rank, spec_is_clause_wrapper,
    spec_is_type_argument_container, spec_is_type_name,
};

verus! {

/// A hierarchy site by its plain values: intent, source name and ranges,
/// target name and ranges.
pub type RelationSiteView = (TypeRelationIntent, Seq<char>, Seq<i32>, Seq<i32>, Seq<char>, Seq<i32>, Seq<i32>);

pub open spec fn relation_site_view(s: SyntaxTypeRelationSite) -> RelationSiteView {
    (
        s.intent,
        s.source_name@,
        s.source_utf8_range@,
        s.source_utf16_range@,
        s.target_name@,
        s.target_utf8_range@,
        s.target_utf16_range@,
    )
}

pub open spec fn relation_site_views(v: Seq<SyntaxTypeRelationSite>) -> Seq<RelationSiteView> {
    v.map_values(|s: SyntaxTypeRelationSite| relation_site_view(s))
}

/// The site of a source name and a target name: none when either trims to
/// nothing or both are the same text.
pub open spec fn pair_sites(src: Seq<char>, t: Seq<NodeTuple>, s: int, g: int, intent: TypeRelationIntent) -> Seq<
    RelationSiteView,
> {
    let st = trim_ws(node_text(src, t[s]));
    let gt = trim_ws(node_text(src, t[g]));
    if st.len() == 0 || gt.len() == 0 || st == gt {
        Seq::empty()
    } else {
        seq![
            (
                intent,
                st,
                node_range(t[s]),
                spec_node_utf16_range(src, t[s]),
                gt,
                node_range(t[g]),
                spec_node_utf16_range(src, t[g]),
            ),
        ]
    }
}

/// The type-name leaf of a node: the node itself when it is a type name,
/// else the leaf of its last named child, not a type-argument container,
/// that has one.
pub open spec fn type_name_leaf(t: Seq<NodeTuple>, i: int) -> Option<int>
    decreases t.len() - i, 1int, 0int,
{
    if i < 0 || i >= t.len() {
        None
    } else if spec_is_type_name(t[i].0) {
        Some(i)
    } else {
        leaf_among(t, i, children(t, i, ChildTestView::Named), children(t, i, ChildTestView::Named).len() as int)
    }
}

/// The leaf of the last of the first `k` children `cs` of `i` that has one.
pub open spec fn leaf_among(t: Seq<NodeTuple>, i: int, cs: Seq<int>, k: int) -> Option<int>
    decreases t.len() - i, 0int, k,
{
    if k <= 0 || k > cs.len() {
        None
    } else {
        let c = cs[k - 1];
        if i < c < t.len() && !spec_is_type_argument_container(t[c].0) {
            match type_name_leaf(t, c) {
                Some(x) => Some(x),
                None => leaf_among(t, i, cs, k - 1),
            }
        } else {
            leaf_among(t, i, cs, k - 1)
        }
    }
}

/// The site of a source name and the leaf of a target.
pub open spec fn target_sites(src: Seq<char>, t: Seq<NodeTuple>, s: int, g: int, intent: TypeRelationIntent) -> Seq<
    RelationSiteView,
> {
    match type_name_leaf(t, g) {
        Some(l) => pair_sites(src, t, s, l, intent),
        None => Seq::empty(),
    }
}

/// The sites of a clause: each named child a target, a clause wrapper
/// entered in turn.
pub open spec fn clause_sites(
    src: Seq<char>,
    t: Seq<NodeTuple>,
    s: int,
    clause: int,
    intent: TypeRelationIntent,
) -> Seq<RelationSiteView>
    decreases t.len() - clause, 1int, 0int,
{
    if clause < 0 || clause >= t.len() {
        Seq::empty()
    } else {
        clause_list(
            src,
            t,
            s,
            clause,
            intent,
            children(t, clause, ChildTestView::Named),
            children(t, clause, ChildTestView::Named).len() as int,
        )
    }
}

pub open spec fn clause_list(
    src: Seq<char>,
    t: Seq<NodeTuple>,
    s: int,
    clause: int,
    intent: TypeRelationIntent,
    cs: Seq<int>,
    k: int,
) -> Seq<RelationSiteView>
    decreases t.len() - clause, 0int, k,
{
    if k <= 0 || k > cs.len() {
        Seq::empty()
    } else {
        let before = clause_list(src, t, s, clause, intent, cs, k - 1);
        let c = cs[k - 1];
        if clause < c < t.len() {
            if spec_is_clause_wrapper(t[c].0) {
                before + clause_sites(src, t, s, c, intent)
            } else {
                before + target_sites(src, t, s, c, intent)
            }
        } else {
            before
        }
    }
}

/// The clause sites of each of the first `k` nodes of `cs`.
pub open spec fn clauses_over(
    src: Seq<char>,
    t: Seq<NodeTuple>,
    s: int,
    cs: Seq<int>,
    k: int,
    intent: TypeRelationIntent,
) -> Seq<RelationSiteView>
    decreases k,
{
    if k <= 0 || k > cs.len() {
        Seq::empty()
    } else {
        clauses_over(src, t, s, cs, k - 1, intent) + clause_sites(src, t, s, cs[k - 1], intent)
    }
}

/// The target sites of each of the first `k` nodes of `cs`.
pub open spec fn targets_over(
    src: Seq<char>,
    t: Seq<NodeTuple>,
    s: int,
    cs: Seq<int>,
    k: int,
    intent: TypeRelationIntent,
) -> Seq<RelationSiteView>
    decreases k,
{
    if k <= 0 || k > cs.len() {
        Seq::empty()
    } else {
        targets_over(src, t, s, cs, k - 1, intent) + target_sites(src, t, s, cs[k - 1], intent)
    }
}

pub open spec fn extends() -> TypeRelationIntent {
    TypeRelationIntent::Exact(LanguageRelationKind::Extends)
}

pub open spec fn implements() -> TypeRelationIntent {
    TypeRelationIntent::Exact(LanguageRelationKind::Implements)
}

/// A TypeScript class heritage: its `extends` and `implements` clauses.
pub open spec fn heritage_sites(src: Seq<char>, t: Seq<NodeTuple>, s: int, cs: Seq<int>, k: int) -> Seq<
    RelationSiteView,
>
    decreases k,
{
    if k <= 0 || k > cs.len() {
        Seq::empty()
    } else {
        let c = cs[k - 1];
        heritage_sites(src, t, s, cs, k - 1) + if t[c].0 == "extends_clause"@ {
            clause_sites(src, t, s, c, extends())
        } else if t[c].0 == "implements_clause"@ {
            clause_sites(src, t, s, c, implements())
        } else {
            Seq::empty()
        }
    }
}

/// The members of a TypeScript class or interface that name supertypes.
pub open spec fn ts_member_sites(src: Seq<char>, t: Seq<NodeTuple>, s: int, cs: Seq<int>, k: int) -> Seq<
    RelationSiteView,
>
    decreases k,
{
    if k <= 0 || k > cs.len() {
        Seq::empty()
    } else {
        let c = cs[k - 1];
        ts_member_sites(src, t, s, cs, k - 1) + if t[c].0 == "class_heritage"@ {
            heritage_sites(
                src,
                t,
                s,
                children(t, c, ChildTestView::Named),
                children(t, c, ChildTestView::Named).len() as int,
            )
        } else if t[c].0 == "extends_type_clause"@ {
            clause_sites(src, t, s, c, extends())
        } else {
            Seq::empty()
        }
    }
}

/// The named children of `i` of one kind, with their clause sites.
pub open spec fn kind_clauses(
    src: Seq<char>,
    t: Seq<NodeTuple>,
    s: int,
    i: int,
    kind: Seq<char>,
    intent: TypeRelationIntent,
) -> Seq<RelationSiteView> {
    let cs = children(t, i, ChildTestView::NamedKind(kind));
    clauses_over(src, t, s, cs, cs.len() as int, intent)
}

/// The clause sites of the child of `i` in a field, none without one.
pub open spec fn field_clause(
    src: Seq<char>,
    t: Seq<NodeTuple>,
    s: int,
    i: int,
    field: Seq<char>,
    intent: TypeRelationIntent,
) -> Seq<RelationSiteView> {
    match first_child(t, i, ChildTestView::Field(field)) {
        Some(c) => clause_sites(src, t, s, c, intent),
        None => Seq::empty(),
    }
}

pub open spec fn kind_in(k: Seq<char>, a: Seq<char>, b: Seq<char>) -> bool {
    k == a || k == b
}

/// The hierarchy sites one declaration node states.
pub open spec fn node_relation_sites(language: ProgrammingLanguage, src: Seq<char>, t: Seq<NodeTuple>, i: int) -> Seq<
    RelationSiteView,
> {
    let k = t[i].0;
    let name = first_child(t, i, ChildTestView::Field("name"@));
    match language {
        ProgrammingLanguage::TypeScript => if kind_in(k, "class_declaration"@, "interface_declaration"@) {
            match name {
                Some(s) => ts_member_sites(
                    src,
                    t,
                    s,
                    children(t, i, ChildTestView::Named),
                    children(t, i, ChildTestView::Named).len() as int,
                ),
                None => Seq::empty(),
            }
        } else {
            Seq::empty()
        },
        ProgrammingLanguage::JavaScript => if kind_in(k, "class_declaration"@, "class"@) {
            match name {
                Some(s) => kind_clauses(src, t, s, i, "class_heritage"@, extends()),
                None => Seq::empty(),
            }
        } else {
            Seq::empty()
        },
        ProgrammingLanguage::Python => if k == "class_definition"@ {
            match (name, first_child(t, i, ChildTestView::Field("superclasses"@))) {
                (Some(s), Some(c)) => clause_sites(src, t, s, c, extends()),
                _ => Seq::empty(),
            }
        } else {
            Seq::empty()
        },
        ProgrammingLanguage::Java => if kind_in(k, "class_declaration"@, "interface_declaration"@) {
            match name {
                Some(s) => field_clause(src, t, s, i, "superclass"@, extends()) + field_clause(
                    src,
                    t,
                    s,
                    i,
                    "interfaces"@,
                    implements(),
                ) + if k == "interface_declaration"@ {
                    kind_clauses(src, t, s, i, "extends_interfaces"@, extends())
                } else {
                    Seq::empty()
                },
                None => Seq::empty(),
            }
        } else {
            Seq::empty()
        },
        ProgrammingLanguage::CSharp => if kind_in(k, "class_declaration"@, "record_declaration"@) || kind_in(
            k,
            "struct_declaration"@,
            "interface_declaration"@,
        ) {
            match name {
                Some(s) => kind_clauses(src, t, s, i, "base_list"@, TypeRelationIntent::CSharpBase),
                None => Seq::empty(),
            }
        } else {
            Seq::empty()
        },
        ProgrammingLanguage::Cpp => if kind_in(k, "class_specifier"@, "struct_specifier"@) {
            match name {
                Some(s) => kind_clauses(src, t, s, i, "base_class_clause"@, extends()),
                None => Seq::empty(),
            }
        } else {
            Seq::empty()
        },
        ProgrammingLanguage::Rust => if k == "impl_item"@ {
            match (
                first_child(t, i, ChildTestView::Field("type"@)),
                first_child(t, i, ChildTestView::Field("trait"@)),
            ) {
                (Some(a), Some(b)) => match (type_name_leaf(t, a), type_name_leaf(t, b)) {
                    (Some(x), Some(y)) => pair_sites(src, t, x, y, implements()),
                    _ => Seq::empty(),
                },
                _ => Seq::empty(),
            }
        } else {
            Seq::empty()
        },
        ProgrammingLanguage::Dart => if kind_in(k, "class_declaration"@, "mixin_declaration"@) {
            match name {
                Some(s) => (match first_child(t, i, ChildTestView::Field("superclass"@)) {
                    Some(sup) => {
                        let types = children(t, sup, ChildTestView::Field("type"@));
                        targets_over(src, t, s, types, types.len() as int, extends()) + kind_clauses(
                            src,
                            t,
                            s,
                            sup,
                            "mixins"@,
                            TypeRelationIntent::Exact(LanguageRelationKind::MixesIn),
                        )
                    },
                    None => Seq::empty(),
                }) + field_clause(src, t, s, i, "interfaces"@, implements()),
                None => Seq::empty(),
            }
        } else {
            Seq::empty()
        },
        _ => Seq::empty(),
    }
}

/// The sites of the first `n` nodes the walk reaches, in pre-order.
pub open spec fn walk_sites(language: ProgrammingLanguage, src: Seq<char>, t: Seq<NodeTuple>, n: int) -> Seq<
    RelationSiteView,
>
    decreases n,
{
    if n <= 0 {
        Seq::empty()
    } else {
        walk_sites(language, src, t, n - 1) + if walked(t, n - 1) {
            node_relation_sites(language, src, t, n - 1)
        } else {
            Seq::empty()
        }
    }
}

/// Sites order by source range, intent, target range and target name.
pub open spec fn site_before(a: RelationSiteView, b: RelationSiteView) -> bool {
    if a.2 != b.2 {
        lt_i32s(a.2, b.2)
    } else if spec_intent_rank(a.0) != spec_intent_rank(b.0) {
        spec_intent_rank(a.0) < spec_intent_rank(b.0)
    } else if a.5 != b.5 {
        lt_i32s(a.5, b.5)
    } else {
        seq_lt(a.4, b.4)
    }
}

pub open spec fn site_lt() -> spec_fn(RelationSiteView, RelationSiteView) -> bool {
    |a: RelationSiteView, b: RelationSiteView| site_before(a, b)
}

pub open spec fn site_same() -> spec_fn(RelationSiteView, RelationSiteView) -> bool {
    |a: RelationSiteView, b: RelationSiteView| a == b
}

/// The hierarchy sites of a parsed source, in order, without repeats; a
/// node list that is not a pre-order listing gives none.
pub open spec fn spec_type_relation_sites(language: ProgrammingLanguage, src: Seq<char>, t: Seq<NodeTuple>) -> Seq<
    RelationSiteView,
> {
    if well_shaped(t) {
        dedup_by(sort_by(walk_sites(language, src, t, t.len() as int), site_lt()), site_same())
    } else {
        Seq::empty()
    }
}


// ---------------------------------------------------------------------------
// Building the sites
// ---------------------------------------------------------------------------

fn leaf_of(nodes: &[SyntaxNode], i: usize) -> (r: Option<usize>)
    requires
        i < nodes.len(),
    ensures
        index_opt(r) == type_name_leaf(node_tuples(nodes@), i as int),
        r matches Some(x) ==> x < nodes.len(),
    decreases nodes.len() - i,
{
    let ghost t = node_tuples(nodes@);
    proof {
        assert(t[i as int] == node_tuple(nodes@[i as int]));
    }
    if is_type_name(nodes[i].kind.as_str()) {
        return Some(i);
    }
    let cs = children_of(nodes, i, ChildTest::Named);
    let ghost cv = indices(cs@);
    let mut k = cs.len();
    while k > 0
        invariant
            t == node_tuples(nodes@),
            i < nodes.len(),
            cv == indices(cs@),
            cv == children(t, i as int, ChildTestView::Named),
            forall|m: int| 0 <= m < cs.len() ==> i < #[trigger] cs@[m] < nodes.len(),
            k <= cs.len(),
            type_name_leaf(t, i as int) == leaf_among(t, i as int, cv, k as int),
        decreases k,
    {
        let c = cs[k - 1];
        proof {
            assert(cv[k - 1] == c as int);
            assert(t[c as int] == node_tuple(nodes@[c as int]));
        }
        if !is_type_argument_container(nodes[c].kind.as_str()) {
            match leaf_of(nodes, c) {
                Some(x) => {
                    return Some(x);
                },
                None => {},
            }
        }
        k -= 1;
    }
    None
}

fn copy_range(v: &Vec<i32>) -> (r: Vec<i32>)
    ensures
        r@ == v@,
{
    let mut out: Vec<i32> = Vec::new();
    let mut i: usize = 0;
    while i < v.len()
        invariant
            i <= v.len(),
            out@ == v@.take(i as int),
        decreases v.len() - i,
    {
        out.push(v[i]);
        i += 1;
        assert(out@ =~= v@.take(i as int));
    }
    assert(v@.take(v.len() as int) =~= v@);
    out
}

fn push_pair(
    source: &str,
    src: &[char],
    nodes: &[SyntaxNode],
    s: usize,
    g: usize,
    intent: TypeRelationIntent,
    out: &mut Vec<SyntaxTypeRelationSite>,
)
    requires
        src@ == source@,
        s < nodes.len(),
        g < nodes.len(),
    ensures
        relation_site_views(final(out)@) == relation_site_views(old(out)@) + pair_sites(
            source@,
            node_tuples(nodes@),
            s as int,
            g as int,
            intent,
        ),
{
    let ghost t = node_tuples(nodes@);
    proof {
        assert(t[s as int] == node_tuple(nodes@[s as int]));
        assert(t[g as int] == node_tuple(nodes@[g as int]));
    }
    let st = trimmed_text_of(src, &nodes[s]);
    let gt = trimmed_text_of(src, &nodes[g]);
    let same = crate::text::seq_eq(st.as_slice(), gt.as_slice());
    if st.len() == 0 || gt.len() == 0 || same {
        assert(relation_site_views(out@) + Seq::<RelationSiteView>::empty() =~= relation_site_views(out@));
        return;
    }
    let site = SyntaxTypeRelationSite {
        intent,
        source_name: string_of(st.as_slice()),
        source_utf8_range: node_utf8_range(&nodes[s]),
        source_utf16_range: node_utf16_range(source, &nodes[s]),
        target_name: string_of(gt.as_slice()),
        target_utf8_range: node_utf8_range(&nodes[g]),
        target_utf16_range: node_utf16_range(source, &nodes[g]),
    };
    let ghost before = relation_site_views(out@);
    out.push(site);
    assert(relation_site_views(out@) =~= before + pair_sites(source@, t, s as int, g as int, intent));
}

fn push_target(
    source: &str,
    src: &[char],
    nodes: &[SyntaxNode],
    s: usize,
    g: usize,
    intent: TypeRelationIntent,
    out: &mut Vec<SyntaxTypeRelationSite>,
)
    requires
        src@ == source@,
        s < nodes.len(),
        g < nodes.len(),
    ensures
        relation_site_views(final(out)@) == relation_site_views(old(out)@) + target_sites(
            source@,
            node_tuples(nodes@),
            s as int,
            g as int,
            intent,
        ),
{
    match leaf_of(nodes, g) {
        Some(l) => push_pair(source, src, nodes, s, l, intent, out),
        None => {
            assert(relation_site_views(out@) + Seq::<RelationSiteView>::empty() =~= relation_site_views(out@));
        },
    }
}

fn push_clause(
    source: &str,
    src: &[char],
    nodes: &[SyntaxNode],
    s: usize,
    clause: usize,
    intent: TypeRelationIntent,
    out: &mut Vec<SyntaxTypeRelationSite>,
)
    requires
        src@ == source@,
        s < nodes.len(),
        clause < nodes.len(),
    ensures
        relation_site_views(final(out)@) == relation_site_views(old(out)@) + clause_sites(
            source@,
            node_tuples(nodes@),
            s as int,
            clause as int,
            intent,
        ),
    decreases nodes.len() - clause,
{
    let ghost t = node_tuples(nodes@);
    let ghost start = relation_site_views(out@);
    let cs = children_of(nodes, clause, ChildTest::Named);
    let ghost cv = indices(cs@);
    let mut k: usize = 0;
    assert(start + clause_list(source@, t, s as int, clause as int, intent, cv, 0) =~= start);
    while k < cs.len()
        invariant
            t == node_tuples(nodes@),
            src@ == source@,
            s < nodes.len(),
            clause < nodes.len(),
            cv == indices(cs@),
            cv == children(t, clause as int, ChildTestView::Named),
            forall|m: int| 0 <= m < cs.len() ==> clause < #[trigger] cs@[m] < nodes.len(),
            k <= cs.len(),
            relation_site_views(out@) == start + clause_list(source@, t, s as int, clause as int, intent, cv, k as int),
        decreases cs.len() - k,
    {
        let c = cs[k];
        proof {
            assert(cv[k as int] == c as int);
            assert(t[c as int] == node_tuple(nodes@[c as int]));
        }
        let ghost mid = relation_site_views(out@);
        if is_clause_wrapper(nodes[c].kind.as_str()) {
            push_clause(source, src, nodes, s, c, intent, out);
        } else {
            push_target(source, src, nodes, s, c, intent, out);
        }
        k += 1;
        proof {
            assert(relation_site_views(out@) =~= start + clause_list(
                source@,
                t,
                s as int,
                clause as int,
                intent,
                cv,
                k as int,
            ));
        }
    }
    assert(cv.len() == cs.len());
}

/// Clause sites of each node of `cs`.
#[verifier::spinoff_prover]
#[verifier::rlimit(40)]
fn push_clauses(
    source: &str,
    src: &[char],
    nodes: &[SyntaxNode],
    s: usize,
    cs: &Vec<usize>,
    intent: TypeRelationIntent,
    out: &mut Vec<SyntaxTypeRelationSite>,
)
    requires
        src@ == source@,
        s < nodes.len(),
        forall|m: int| 0 <= m < cs.len() ==> #[trigger] cs@[m] < nodes.len(),
    ensures
        relation_site_views(final(out)@) == relation_site_views(old(out)@) + clauses_over(
            source@,
            node_tuples(nodes@),
            s as int,
            indices(cs@),
            cs.len() as int,
            intent,
        ),
{
    let ghost t = node_tuples(nodes@);
    let ghost start = relation_site_views(out@);
    let ghost cv = indices(cs@);
    let mut k: usize = 0;
    assert(start + clauses_over(source@, t, s as int, cv, 0, intent) =~= start);
    while k < cs.len()
        invariant
            t == node_tuples(nodes@),
            src@ == source@,
            s < nodes.len(),
            cv == indices(cs@),
            forall|m: int| 0 <= m < cs.len() ==> #[trigger] cs@[m] < nodes.len(),
            k <= cs.len(),
            relation_site_views(out@) == start + clauses_over(source@, t, s as int, cv, k as int, intent),
        decreases cs.len() - k,
    {
        assert(cv[k as int] == cs@[k as int] as int);
        push_clause(source, src, nodes, s, cs[k], intent, out);
        k += 1;
        assert(relation_site_views(out@) =~= start + clauses_over(source@, t, s as int, cv, k as int, intent));
    }
}

/// Target sites of each node of `cs`.
fn push_targets(
    source: &str,
    src: &[char],
    nodes: &[SyntaxNode],
    s: usize,
    cs: &Vec<usize>,
    intent: TypeRelationIntent,
    out: &mut Vec<SyntaxTypeRelationSite>,
)
    requires
        src@ == source@,
        s < nodes.len(),
        forall|m: int| 0 <= m < cs.len() ==> #[trigger] cs@[m] < nodes.len(),
    ensures
        relation_site_views(final(out)@) == relation_site_views(old(out)@) + targets_over(
            source@,
            node_tuples(nodes@),
            s as int,
            indices(cs@),
            cs.len() as int,
            intent,
        ),
{
    let ghost t = node_tuples(nodes@);
    let ghost start = relation_site_views(out@);
    let ghost cv = indices(cs@);
    let mut k: usize = 0;
    assert(start + targets_over(source@, t, s as int, cv, 0, intent) =~= start);
    while k < cs.len()
        invariant
            t == node_tuples(nodes@),
            src@ == source@,
            s < nodes.len(),
            cv == indices(cs@),
            forall|m: int| 0 <= m < cs.len() ==> #[trigger] cs@[m] < nodes.len(),
            k <= cs.len(),
            relation_site_views(out@) == start + targets_over(source@, t, s as int, cv, k as int, intent),
        decreases cs.len() - k,
    {
        assert(cv[k as int] == cs@[k as int] as int);
        push_target(source, src, nodes, s, cs[k], intent, out);
        k += 1;
        assert(relation_site_views(out@) =~= start + targets_over(source@, t, s as int, cv, k as int, intent));
    }
}


fn push_heritage(
    source: &str,
    src: &[char],
    nodes: &[SyntaxNode],
    s: usize,
    heritage: usize,
    out: &mut Vec<SyntaxTypeRelationSite>,
)
    requires
        src@ == source@,
        s < nodes.len(),
        heritage < nodes.len(),
    ensures
        relation_site_views(final(out)@) == relation_site_views(old(out)@) + heritage_sites(
            source@,
            node_tuples(nodes@),
            s as int,
            children(node_tuples(nodes@), heritage as int, ChildTestView::Named),
            children(node_tuples(nodes@), heritage as int, ChildTestView::Named).len() as int,
        ),
{
    let ghost t = node_tuples(nodes@);
    let ghost start = relation_site_views(out@);
    let cs = children_of(nodes, heritage, ChildTest::Named);
    let ghost cv = indices(cs@);
    let mut k: usize = 0;
    assert(start + heritage_sites(source@, t, s as int, cv, 0) =~= start);
    while k < cs.len()
        invariant
            t == node_tuples(nodes@),
            src@ == source@,
            s < nodes.len(),
            cv == indices(cs@),
            forall|m: int| 0 <= m < cs.len() ==> #[trigger] cs@[m] < nodes.len(),
            k <= cs.len(),
            relation_site_views(out@) == start + heritage_sites(source@, t, s as int, cv, k as int),
        decreases cs.len() - k,
    {
        let c = cs[k];
        proof {
            assert(cv[k as int] == c as int);
            assert(t[c as int] == node_tuple(nodes@[c as int]));
        }
        if kind_is(&nodes[c], "extends_clause") {
            push_clause(source, src, nodes, s, c, TypeRelationIntent::Exact(LanguageRelationKind::Extends), out);
        } else if kind_is(&nodes[c], "implements_clause") {
            push_clause(source, src, nodes, s, c, TypeRelationIntent::Exact(LanguageRelationKind::Implements), out);
        }
        k += 1;
        assert(relation_site_views(out@) =~= start + heritage_sites(source@, t, s as int, cv, k as int));
    }
}

fn push_ts_members(
    source: &str,
    src: &[char],
    nodes: &[SyntaxNode],
    s: usize,
    i: usize,
    out: &mut Vec<SyntaxTypeRelationSite>,
)
    requires
        src@ == source@,
        s < nodes.len(),
        i < nodes.len(),
    ensures
        relation_site_views(final(out)@) == relation_site_views(old(out)@) + ts_member_sites(
            source@,
            node_tuples(nodes@),
            s as int,
            children(node_tuples(nodes@), i as int, ChildTestView::Named),
            children(node_tuples(nodes@), i as int, ChildTestView::Named).len() as int,
        ),
{
    let ghost t = node_tuples(nodes@);
    let ghost start = relation_site_views(out@);
    let cs = children_of(nodes, i, ChildTest::Named);
    let ghost cv = indices(cs@);
    let mut k: usize = 0;
    assert(start + ts_member_sites(source@, t, s as int, cv, 0) =~= start);
    while k < cs.len()
        invariant
            t == node_tuples(nodes@),
            src@ == source@,
            s < nodes.len(),
            cv == indices(cs@),
            forall|m: int| 0 <= m < cs.len() ==> #[trigger] cs@[m] < nodes.len(),
            k <= cs.len(),
            relation_site_views(out@) == start + ts_member_sites(source@, t, s as int, cv, k as int),
        decreases cs.len() - k,
    {
        let c = cs[k];
        proof {
            assert(cv[k as int] == c as int);
            assert(t[c as int] == node_tuple(nodes@[c as int]));
        }
        if kind_is(&nodes[c], "class_heritage") {
            push_heritage(source, src, nodes, s, c, out);
        } else if kind_is(&nodes[c], "extends_type_clause") {
            push_clause(source, src, nodes, s, c, TypeRelationIntent::Exact(LanguageRelationKind::Extends), out);
        }
        k += 1;
        assert(relation_site_views(out@) =~= start + ts_member_sites(source@, t, s as int, cv, k as int));
    }
}

fn push_kind_clauses(
    source: &str,
    src: &[char],
    nodes: &[SyntaxNode],
    s: usize,
    i: usize,
    kind: &str,
    intent: TypeRelationIntent,
    out: &mut Vec<SyntaxTypeRelationSite>,
)
    requires
        src@ == source@,
        s < nodes.len(),
        i < nodes.len(),
    ensures
        relation_site_views(final(out)@) == relation_site_views(old(out)@) + kind_clauses(
            source@,
            node_tuples(nodes@),
            s as int,
            i as int,
            kind@,
            intent,
        ),
{
    let cs = children_of(nodes, i, ChildTest::NamedKind(kind));
    push_clauses(source, src, nodes, s, &cs, intent, out);
}

fn push_field_clause(
    source: &str,
    src: &[char],
    nodes: &[SyntaxNode],
    s: usize,
    i: usize,
    field: &str,
    intent: TypeRelationIntent,
    out: &mut Vec<SyntaxTypeRelationSite>,
)
    requires
        src@ == source@,
        s < nodes.len(),
        i < nodes.len(),
    ensures
        relation_site_views(final(out)@) == relation_site_views(old(out)@) + field_clause(
            source@,
            node_tuples(nodes@),
            s as int,
            i as int,
            field@,
            intent,
        ),
{
    match first_child_of(nodes, i, ChildTest::Field(field)) {
        Some(c) => push_clause(source, src, nodes, s, c, intent, out),
        None => {
            assert(relation_site_views(out@) + Seq::<RelationSiteView>::empty() =~= relation_site_views(out@));
        },
    }
}


#[verifier::spinoff_prover]
#[verifier::rlimit(60)]
fn push_node_sites(
    language: ProgrammingLanguage,
    source: &str,
    src: &[char],
    nodes: &[SyntaxNode],
    i: usize,
    out: &mut Vec<SyntaxTypeRelationSite>,
)
    requires
        src@ == source@,
        i < nodes.len(),
    ensures
        relation_site_views(final(out)@) == relation_site_views(old(out)@) + node_relation_sites(
            language,
            source@,
            node_tuples(nodes@),
            i as int,
        ),
{
    let ghost t = node_tuples(nodes@);
    let ghost start = relation_site_views(out@);
    proof {
        assert(t[i as int] == node_tuple(nodes@[i as int]));
    }
    let n = &nodes[i];
    let name = first_child_of(nodes, i, ChildTest::Field("name"));
    let extends = TypeRelationIntent::Exact(LanguageRelationKind::Extends);
    let implements = TypeRelationIntent::Exact(LanguageRelationKind::Implements);
    match language {
        ProgrammingLanguage::TypeScript => {
            if kind_is(n, "class_declaration") || kind_is(n, "interface_declaration") {
                if let Some(s) = name {
                    push_ts_members(source, src, nodes, s, i, out);
                    return;
                }
            }
        },
        ProgrammingLanguage::JavaScript => {
            if kind_is(n, "class_declaration") || kind_is(n, "class") {
                if let Some(s) = name {
                    push_kind_clauses(source, src, nodes, s, i, "class_heritage", extends, out);
                    return;
                }
            }
        },
        ProgrammingLanguage::Python => {
            if kind_is(n, "class_definition") {
                let sup = first_child_of(nodes, i, ChildTest::Field("superclasses"));
                if let (Some(s), Some(c)) = (name, sup) {
                    push_clause(source, src, nodes, s, c, extends, out);
                    return;
                }
            }
        },
        ProgrammingLanguage::Java => {
            if kind_is(n, "class_declaration") || kind_is(n, "interface_declaration") {
                if let Some(s) = name {
                    let ghost a = relation_site_views(out@);
                    push_field_clause(source, src, nodes, s, i, "superclass", extends, out);
                    let ghost b = relation_site_views(out@);
                    push_field_clause(source, src, nodes, s, i, "interfaces", implements, out);
                    let ghost c = relation_site_views(out@);
                    if kind_is(n, "interface_declaration") {
                        push_kind_clauses(source, src, nodes, s, i, "extends_interfaces", extends, out);
                    } else {
                        assert(relation_site_views(out@) =~= relation_site_views(out@) + Seq::<RelationSiteView>::empty());
                    }
                    assert(relation_site_views(out@) =~= start + node_relation_sites(language, source@, t, i as int));
                    return;
                }
            }
        },
        ProgrammingLanguage::CSharp => {
            if kind_is(n, "class_declaration") || kind_is(n, "record_declaration") || kind_is(n, "struct_declaration")
                || kind_is(n, "interface_declaration") {
                if let Some(s) = name {
                    push_kind_clauses(source, src, nodes, s, i, "base_list", TypeRelationIntent::CSharpBase, out);
                    return;
                }
            }
        },
        ProgrammingLanguage::Cpp => {
            if kind_is(n, "class_specifier") || kind_is(n, "struct_specifier") {
                if let Some(s) = name {
                    push_kind_clauses(source, src, nodes, s, i, "base_class_clause", extends, out);
                    return;
                }
            }
        },
        ProgrammingLanguage::Rust => {
            if kind_is(n, "impl_item") {
                let a = first_child_of(nodes, i, ChildTest::Field("type"));
                let b = first_child_of(nodes, i, ChildTest::Field("trait"));
                if let (Some(a), Some(b)) = (a, b) {
                    let x = leaf_of(nodes, a);
                    let y = leaf_of(nodes, b);
                    if let (Some(x), Some(y)) = (x, y) {
                        push_pair(source, src, nodes, x, y, implements, out);
                        return;
                    }
                }
            }
        },
        ProgrammingLanguage::Dart => {
            if kind_is(n, "class_declaration") || kind_is(n, "mixin_declaration") {
                if let Some(s) = name {
                    match first_child_of(nodes, i, ChildTest::Field("superclass")) {
                        Some(sup) => {
                            let types = children_of(nodes, sup, ChildTest::Field("type"));
                            push_targets(source, src, nodes, s, &types, extends, out);
                            push_kind_clauses(
                                source,
                                src,
                                nodes,
                                s,
                                sup,
                                "mixins",
                                TypeRelationIntent::Exact(LanguageRelationKind::MixesIn),
                                out,
                            );
                        },
                        None => {},
                    }
                    push_field_clause(source, src, nodes, s, i, "interfaces", implements, out);
                    assert(relation_site_views(out@) =~= start + node_relation_sites(language, source@, t, i as int));
                    return;
                }
            }
        },
        _ => {},
    }
    assert(relation_site_views(out@) =~= start + node_relation_sites(language, source@, t, i as int));
}


// ---------------------------------------------------------------------------
// Order
// ---------------------------------------------------------------------------

fn copy_site(x: &SyntaxTypeRelationSite) -> (r: SyntaxTypeRelationSite)
    ensures
        relation_site_view(r) == relation_site_view(*x),
{
    SyntaxTypeRelationSite {
        intent: x.intent,
        source_name: crate::text::owned(x.source_name.as_str()),
        source_utf8_range: copy_range(&x.source_utf8_range),
        source_utf16_range: copy_range(&x.source_utf16_range),
        target_name: crate::text::owned(x.target_name.as_str()),
        target_utf8_range: copy_range(&x.target_utf8_range),
        target_utf16_range: copy_range(&x.target_utf16_range),
    }
}

fn site_less(a: &SyntaxTypeRelationSite, b: &SyntaxTypeRelationSite) -> (r: bool)
    ensures
        r == site_before(relation_site_view(*a), relation_site_view(*b)),
{
    let c = compare_i32s(a.source_utf8_range.as_slice(), b.source_utf8_range.as_slice());
    if c != 0 {
        return c < 0;
    }
    let ia = crate::type_relations::intent_rank(a.intent);
    let ib = crate::type_relations::intent_rank(b.intent);
    if ia != ib {
        return ia < ib;
    }
    let c = compare_i32s(a.target_utf8_range.as_slice(), b.target_utf8_range.as_slice());
    if c != 0 {
        return c < 0;
    }
    let x = crate::text::chars_of(a.target_name.as_str());
    let y = crate::text::chars_of(b.target_name.as_str());
    crate::text::order_chars(x.as_slice(), y.as_slice()) == -1
}

fn site_same_exec(a: &SyntaxTypeRelationSite, b: &SyntaxTypeRelationSite) -> (r: bool)
    ensures
        r == (relation_site_view(*a) == relation_site_view(*b)),
{
    a.intent == b.intent && crate::text::str_eq(a.source_name.as_str(), b.source_name.as_str()) && compare_i32s(
        a.source_utf8_range.as_slice(),
        b.source_utf8_range.as_slice(),
    ) == 0 && compare_i32s(a.source_utf16_range.as_slice(), b.source_utf16_range.as_slice()) == 0
        && crate::text::str_eq(a.target_name.as_str(), b.target_name.as_str()) && compare_i32s(
        a.target_utf8_range.as_slice(),
        b.target_utf8_range.as_slice(),
    ) == 0 && compare_i32s(a.target_utf16_range.as_slice(), b.target_utf16_range.as_slice()) == 0
}

fn sort_sites(raw: &[SyntaxTypeRelationSite]) -> (r: Vec<SyntaxTypeRelationSite>)
    ensures
        relation_site_views(r@) == sort_by(relation_site_views(raw@), site_lt()),
{
    let ghost all = relation_site_views(raw@);
    let mut sorted: Vec<SyntaxTypeRelationSite> = Vec::new();
    let mut i: usize = 0;
    proof {
        assert(all.take(0) =~= Seq::<RelationSiteView>::empty());
    }
    while i < raw.len()
        invariant
            i <= raw.len(),
            all == relation_site_views(raw@),
            relation_site_views(sorted@) == sort_by(all.take(i as int), site_lt()),
        decreases raw.len() - i,
    {
        let x = copy_site(&raw[i]);
        let ghost xv = relation_site_view(x);
        proof {
            assert(all.take(i + 1) =~= all.take(i as int).push(xv));
            lemma_sort_by_push(all.take(i as int), xv, site_lt());
        }
        let ghost views = relation_site_views(sorted@);
        let mut p: usize = sorted.len();
        loop
            invariant
                p <= sorted.len(),
                views == relation_site_views(sorted@),
                xv == relation_site_view(x),
                forall|k: int| p <= k < sorted.len() ==> site_lt()(xv, #[trigger] views[k]),
            ensures
                p <= sorted.len(),
                forall|k: int| p <= k < sorted.len() ==> site_lt()(xv, #[trigger] views[k]),
                p == 0 || !site_lt()(xv, views[p - 1]),
            decreases p,
        {
            if p == 0 {
                break;
            }
            if !site_less(&x, &sorted[p - 1]) {
                break;
            }
            p -= 1;
        }
        proof {
            lemma_insert_by_at(views, xv, site_lt(), p as int);
        }
        sorted.insert(p, x);
        proof {
            assert(relation_site_views(sorted@) =~= views.insert(p as int, xv));
        }
        i += 1;
    }
    proof {
        assert(all.take(raw.len() as int) =~= all);
    }
    sorted
}

fn dedup_sites(sorted: &[SyntaxTypeRelationSite]) -> (r: Vec<SyntaxTypeRelationSite>)
    ensures
        relation_site_views(r@) == dedup_by(relation_site_views(sorted@), site_same()),
{
    let ghost all = relation_site_views(sorted@);
    let mut out: Vec<SyntaxTypeRelationSite> = Vec::new();
    let mut i: usize = 0;
    proof {
        assert(all.take(0) =~= Seq::<RelationSiteView>::empty());
    }
    while i < sorted.len()
        invariant
            i <= sorted.len(),
            all == relation_site_views(sorted@),
            relation_site_views(out@) == dedup_by(all.take(i as int), site_same()),
        decreases sorted.len() - i,
    {
        let x = copy_site(&sorted[i]);
        proof {
            assert(all.take(i + 1) =~= all.take(i as int).push(relation_site_view(x)));
            lemma_dedup_by_push(all.take(i as int), relation_site_view(x), site_same());
        }
        let keep = out.len() == 0 || !site_same_exec(&out[out.len() - 1], &x);
        proof {
            if out.len() > 0 {
                assert(relation_site_views(out@).last() == relation_site_view(out@[out.len() - 1]));
            }
        }
        if keep {
            let ghost before = relation_site_views(out@);
            out.push(x);
            assert(relation_site_views(out@) =~= before.push(relation_site_view(x)));
        }
        i += 1;
    }
    proof {
        assert(all.take(sorted.len() as int) =~= all);
    }
    out
}

// ---------------------------------------------------------------------------
// The inventory
// ---------------------------------------------------------------------------

/// The hierarchy sites of a parsed source, in order, without repeats.
pub fn type_relation_sites_of_nodes(language: ProgrammingLanguage, source: &str, nodes: &[SyntaxNode]) -> (r: Vec<
    SyntaxTypeRelationSite,
>)
    ensures
        relation_site_views(r@) == spec_type_relation_sites(language, source@, node_tuples(nodes@)),
{
    let ghost t = node_tuples(nodes@);
    let parents = match tree_parents(nodes) {
        Some(p) => p,
        None => {
            return Vec::new();
        },
    };
    let reach = walked_nodes(nodes, parents.as_slice());
    let src = crate::text::chars_of(source);
    let mut raw: Vec<SyntaxTypeRelationSite> = Vec::new();
    let mut i: usize = 0;
    while i < nodes.len()
        invariant
            t == node_tuples(nodes@),
            src@ == source@,
            reach.len() == nodes.len(),
            forall|k: int| 0 <= k < nodes.len() ==> #[trigger] reach@[k] == walked(t, k),
            i <= nodes.len(),
            relation_site_views(raw@) == walk_sites(language, source@, t, i as int),
        decreases nodes.len() - i,
    {
        let ghost before = relation_site_views(raw@);
        proof {
            assert(reach@[i as int] == walked(t, i as int));
        }
        if reach[i] {
            push_node_sites(language, source, src.as_slice(), nodes, i, &mut raw);
        } else {
            assert(before =~= before + Seq::<RelationSiteView>::empty());
        }
        i += 1;
    }
    let sorted = sort_sites(raw.as_slice());
    dedup_sites(sorted.as_slice())
}

/// The explicit type hierarchy sites of a source file, parsed with the
/// grammar of its language and path.
pub fn inventory_type_relation_sites(language: ProgrammingLanguage, path: &str, source: &str) -> (r: Result<
    Vec<SyntaxTypeRelationSite>,
    ParseError,
>)
    ensures
        match spec_parse_source(crate::model::spec_language_name(language), path@, source@) {
            Ok(t) => r matches Ok(v) && relation_site_views(v@) == spec_type_relation_sites(language, source@, t),
            Err(e) => r == Err::<Vec<SyntaxTypeRelationSite>, ParseError>(e),
        },
{
    match parse_source(language.as_str(), path, source) {
        Ok(nodes) => Ok(type_relation_sites_of_nodes(language, source, nodes.as_slice())),
        Err(e) => Err(e),
    }
}

} // verus!
