//! The provider-independent inventory of source declarations: the
//! independently measured syntax denominator that provider definitions are
//! reconciled against. A walk through named children from the root finds
//! each explicit, product-relevant declaration outside executable bodies:
//! its kind, where its name is written, its owner, and the header and
//! accessibility its language gives it. It never resolves a name to a target.
use vstd::prelude::*;

use crate::syntax_tree::{node_range, node_tuple, node_tuples, node_utf16_range, node_utf8_range, spec_node_utf16_range, NodeTuple, SyntaxNode};
use crate::inventory::SyntaxDefinition;
use crate::sql_inventory::text_between;
use crate::syntax_walk::{
    node_text_of, children, children_of, first_child, first_child_of, index_opt, indices, kind_is, node_text, trimmed_text_of, ChildTest,
    ChildTestView,
};
use crate::model::{FactNodeKind, Visibility};
use crate::sql_inventory::{compare_i32s, lt_i32s, parent_of, tree_parents, well_shaped};
use crate::ordering::{dedup_by, lemma_dedup_by_push, lemma_insert_by_at, lemma_sort_by_push, sort_by};
use crate::syntax_tree::{parse_source, spec_parse_source, ParseError};
use crate::text::seq_lt;
use crate::syntax_tree::{byte_slice, byte_slice_chars};
use crate::metadata::{spec_callable_signature, spec_definition_visibility, callable_signature, definition_visibility, DeclarationContext, labels_view, is_callable_kind};
use crate::text::{has_word_token, unicode_alphabetic, unicode_alphanumeric, char_is_alphabetic, char_is_alphanumeric, string_of, char_is_whitespace, occurs_at, occurs_at_exec, str_eq, trim_ws, unicode_white_space};

verus! {

// ---------------------------------------------------------------------------
// Kinds of node the inventory looks for
// ---------------------------------------------------------------------------

/// A set of node kinds the inventory searches for.
#[derive(Clone, Copy, Debug, PartialEq, Eq, Structural)]
pub enum KindSet {
    FunctionDeclarator,
    TypeIdentifier,
    NameLeaves,
    Identifier,
    IdentifierOrType,
    FunctionSignature,
    DartSignatures,
    DartConstructors,
    GetterSignature,
    VariableDeclarator,
    FieldIdentifier,
    BodyBoundaries,
    ConstructorBoundaries,
    IdentifierLeaves,
    DeclaratorNames,
    CallableInitializers,
}

/// Whether a node kind belongs to a set.
pub open spec fn in_set(ks: KindSet, k: Seq<char>) -> bool {
    match ks {
        KindSet::FunctionDeclarator => k == "function_declarator"@,
        KindSet::TypeIdentifier => k == "type_identifier"@,
        KindSet::NameLeaves => k == "identifier"@ || k == "type_identifier"@ || k == "field_identifier"@ || k
            == "property_identifier"@,
        KindSet::Identifier => k == "identifier"@,
        KindSet::IdentifierOrType => k == "identifier"@ || k == "type_identifier"@,
        KindSet::FunctionSignature => k == "function_signature"@,
        KindSet::DartSignatures => k == "function_signature"@ || k == "getter_signature"@ || k
            == "setter_signature"@ || k == "operator_signature"@,
        KindSet::DartConstructors => k == "constructor_signature"@ || k == "constant_constructor_signature"@ || k
            == "factory_constructor_signature"@ || k == "redirecting_factory_constructor_signature"@,
        KindSet::GetterSignature => k == "getter_signature"@,
        KindSet::VariableDeclarator => k == "variable_declarator"@,
        KindSet::FieldIdentifier => k == "field_identifier"@,
        KindSet::BodyBoundaries => k == "arrow_expression_clause"@ || k == "function_body"@ || k
            == "statement_block"@ || k == "compound_statement"@ || k == "block"@,
        KindSet::ConstructorBoundaries => k == "arrow_expression_clause"@ || k == "function_body"@ || k
            == "statement_block"@ || k == "compound_statement"@ || k == "block"@ || k
            == "field_initializer_list"@ || k == "constructor_initializer"@ || k == "initializers"@,
        KindSet::IdentifierLeaves => k == "identifier"@ || k == "type_identifier"@ || k == "field_identifier"@
            || k == "property_identifier"@ || k == "namespace_identifier"@,
        KindSet::DeclaratorNames => k == "identifier"@ || k == "field_identifier"@ || k == "type_identifier"@
            || k == "operator_name"@,
        KindSet::CallableInitializers => k == "arrow_function"@ || k == "function_expression"@ || k
            == "generator_function"@,
    }
}

pub fn in_set_exec(ks: KindSet, n: &SyntaxNode) -> (r: bool)
    ensures
        r == in_set(ks, node_tuple(*n).0),
{
    match ks {
        KindSet::FunctionDeclarator => kind_is(n, "function_declarator"),
        KindSet::TypeIdentifier => kind_is(n, "type_identifier"),
        KindSet::NameLeaves => kind_is(n, "identifier") || kind_is(n, "type_identifier") || kind_is(
            n,
            "field_identifier",
        ) || kind_is(n, "property_identifier"),
        KindSet::Identifier => kind_is(n, "identifier"),
        KindSet::IdentifierOrType => kind_is(n, "identifier") || kind_is(n, "type_identifier"),
        KindSet::FunctionSignature => kind_is(n, "function_signature"),
        KindSet::DartSignatures => kind_is(n, "function_signature") || kind_is(n, "getter_signature") || kind_is(
            n,
            "setter_signature",
        ) || kind_is(n, "operator_signature"),
        KindSet::DartConstructors => kind_is(n, "constructor_signature") || kind_is(
            n,
            "constant_constructor_signature",
        ) || kind_is(n, "factory_constructor_signature") || kind_is(n, "redirecting_factory_constructor_signature"),
        KindSet::GetterSignature => kind_is(n, "getter_signature"),
        KindSet::VariableDeclarator => kind_is(n, "variable_declarator"),
        KindSet::FieldIdentifier => kind_is(n, "field_identifier"),
        KindSet::BodyBoundaries => kind_is(n, "arrow_expression_clause") || kind_is(n, "function_body")
            || kind_is(n, "statement_block") || kind_is(n, "compound_statement") || kind_is(n, "block"),
        KindSet::ConstructorBoundaries => kind_is(n, "arrow_expression_clause") || kind_is(n, "function_body")
            || kind_is(n, "statement_block") || kind_is(n, "compound_statement") || kind_is(n, "block")
            || kind_is(n, "field_initializer_list") || kind_is(n, "constructor_initializer") || kind_is(
            n,
            "initializers",
        ),
        KindSet::IdentifierLeaves => kind_is(n, "identifier") || kind_is(n, "type_identifier") || kind_is(
            n,
            "field_identifier",
        ) || kind_is(n, "property_identifier") || kind_is(n, "namespace_identifier"),
        KindSet::DeclaratorNames => kind_is(n, "identifier") || kind_is(n, "field_identifier") || kind_is(
            n,
            "type_identifier",
        ) || kind_is(n, "operator_name"),
        KindSet::CallableInitializers => kind_is(n, "arrow_function") || kind_is(n, "function_expression")
            || kind_is(n, "generator_function"),
    }
}

// ---------------------------------------------------------------------------
// Searches below a node
// ---------------------------------------------------------------------------

/// The first node of a kind in `ks` at or below `i`, in pre-order through
/// named children.
pub open spec fn first_of_kind(t: Seq<NodeTuple>, i: int, ks: KindSet) -> Option<int>
    decreases t.len() - i, 1int, 0int,
{
    if i < 0 || i >= t.len() {
        None
    } else if in_set(ks, t[i].0) {
        Some(i)
    } else {
        first_of_kind_in(t, i, children(t, i, ChildTestView::Named), 0, ks)
    }
}

/// The first such node below the children `cs[k..]` of `i`.
pub open spec fn first_of_kind_in(t: Seq<NodeTuple>, i: int, cs: Seq<int>, k: int, ks: KindSet) -> Option<int>
    decreases t.len() - i, 0int, cs.len() - k,
{
    if k < 0 || k >= cs.len() {
        None
    } else if i < cs[k] < t.len() {
        match first_of_kind(t, cs[k], ks) {
            Some(x) => Some(x),
            None => first_of_kind_in(t, i, cs, k + 1, ks),
        }
    } else {
        first_of_kind_in(t, i, cs, k + 1, ks)
    }
}

pub fn first_of_kind_exec(nodes: &[SyntaxNode], i: usize, ks: KindSet) -> (r: Option<usize>)
    requires
        i < nodes.len(),
    ensures
        index_opt(r) == first_of_kind(node_tuples(nodes@), i as int, ks),
        r matches Some(x) ==> x < nodes.len(),
    decreases nodes.len() - i,
{
    let ghost t = node_tuples(nodes@);
    proof {
        assert(t[i as int] == node_tuple(nodes@[i as int]));
    }
    if in_set_exec(ks, &nodes[i]) {
        return Some(i);
    }
    let cs = children_of(nodes, i, ChildTest::Named);
    let mut k: usize = 0;
    while k < cs.len()
        invariant
            t == node_tuples(nodes@),
            i < nodes.len(),
            k <= cs.len(),
            !in_set(ks, t[i as int].0),
            indices(cs@) == children(t, i as int, ChildTestView::Named),
            forall|m: int| 0 <= m < cs.len() ==> i < #[trigger] cs@[m] < nodes.len(),
            first_of_kind(t, i as int, ks) == first_of_kind_in(t, i as int, indices(cs@), k as int, ks),
        decreases cs.len() - k,
    {
        let c = cs[k];
        assert(indices(cs@)[k as int] == c as int);
        match first_of_kind_exec(nodes, c, ks) {
            Some(x) => {
                return Some(x);
            },
            None => {},
        }
        k += 1;
    }
    None
}

/// The nodes of a kind in `ks` below `i`, in pre-order through named
/// children, not looking inside a node once it is found.
pub open spec fn all_of_kind(t: Seq<NodeTuple>, i: int, ks: KindSet) -> Seq<int>
    decreases t.len() - i, 1int, 0int,
{
    if i < 0 || i >= t.len() {
        Seq::empty()
    } else {
        all_of_kind_in(t, i, children(t, i, ChildTestView::Named), 0, ks)
    }
}

pub open spec fn all_of_kind_in(t: Seq<NodeTuple>, i: int, cs: Seq<int>, k: int, ks: KindSet) -> Seq<int>
    decreases t.len() - i, 0int, cs.len() - k,
{
    if k < 0 || k >= cs.len() {
        Seq::empty()
    } else if i < cs[k] < t.len() {
        let here = if in_set(ks, t[cs[k]].0) {
            seq![cs[k]]
        } else {
            all_of_kind(t, cs[k], ks)
        };
        here + all_of_kind_in(t, i, cs, k + 1, ks)
    } else {
        all_of_kind_in(t, i, cs, k + 1, ks)
    }
}

pub fn all_of_kind_exec(nodes: &[SyntaxNode], i: usize, ks: KindSet) -> (r: Vec<usize>)
    requires
        i < nodes.len(),
    ensures
        indices(r@) == all_of_kind(node_tuples(nodes@), i as int, ks),
        forall|m: int| 0 <= m < r.len() ==> #[trigger] r@[m] < nodes.len(),
    decreases nodes.len() - i,
{
    let ghost t = node_tuples(nodes@);
    let cs = children_of(nodes, i, ChildTest::Named);
    let mut out: Vec<usize> = Vec::new();
    let mut k: usize = 0;
    while k < cs.len()
        invariant
            t == node_tuples(nodes@),
            i < nodes.len(),
            k <= cs.len(),
            indices(cs@) == children(t, i as int, ChildTestView::Named),
            forall|m: int| 0 <= m < cs.len() ==> i < #[trigger] cs@[m] < nodes.len(),
            forall|m: int| 0 <= m < out.len() ==> #[trigger] out@[m] < nodes.len(),
            all_of_kind(t, i as int, ks) == indices(out@) + all_of_kind_in(t, i as int, indices(cs@), k as int, ks),
        decreases cs.len() - k,
    {
        let c = cs[k];
        assert(indices(cs@)[k as int] == c as int);
        proof {
            assert(t[c as int] == node_tuple(nodes@[c as int]));
        }
        let ghost before = indices(out@);
        if in_set_exec(ks, &nodes[c]) {
            out.push(c);
            proof {
                assert(indices(out@) =~= before + seq![c as int]);
            }
        } else {
            let below = all_of_kind_exec(nodes, c, ks);
            let mut m: usize = 0;
            while m < below.len()
                invariant
                    m <= below.len(),
                    indices(out@) == before + indices(below@).take(m as int),
                    forall|x: int| 0 <= x < below.len() ==> #[trigger] below@[x] < nodes.len(),
                    forall|x: int| 0 <= x < out.len() ==> #[trigger] out@[x] < nodes.len(),
                decreases below.len() - m,
            {
                let ghost o = indices(out@);
                out.push(below[m]);
                proof {
                    assert(indices(out@) =~= o.push(below@[m as int] as int));
                    assert(indices(below@).take(m + 1) =~= indices(below@).take(m as int).push(below@[m as int] as int));
                    assert(indices(out@) =~= before + indices(below@).take(m + 1));
                }
                m += 1;
            }
            assert(indices(below@).take(below.len() as int) =~= indices(below@));
        }
        proof {
            assert(before + (if in_set(ks, t[c as int].0) {
                seq![c as int]
            } else {
                all_of_kind(t, c as int, ks)
            } + all_of_kind_in(t, i as int, indices(cs@), k + 1, ks)) =~= indices(out@) + all_of_kind_in(
                t,
                i as int,
                indices(cs@),
                k + 1,
                ks,
            ));
        }
        k += 1;
    }
    assert(indices(out@) + Seq::<int>::empty() =~= indices(out@));
    out
}

/// The first named child of `i` of a kind in `ks`.
pub open spec fn first_named_of_kind(t: Seq<NodeTuple>, i: int, ks: KindSet) -> Option<int> {
    first_named_in(t, children(t, i, ChildTestView::Named), 0, ks)
}

pub open spec fn first_named_in(t: Seq<NodeTuple>, cs: Seq<int>, k: int, ks: KindSet) -> Option<int>
    decreases cs.len() - k,
{
    if k < 0 || k >= cs.len() {
        None
    } else if 0 <= cs[k] < t.len() && in_set(ks, t[cs[k]].0) {
        Some(cs[k])
    } else {
        first_named_in(t, cs, k + 1, ks)
    }
}

pub fn first_named_of_kind_exec(nodes: &[SyntaxNode], i: usize, ks: KindSet) -> (r: Option<usize>)
    requires
        i < nodes.len(),
    ensures
        index_opt(r) == first_named_of_kind(node_tuples(nodes@), i as int, ks),
        r matches Some(x) ==> i < x < nodes.len(),
{
    let ghost t = node_tuples(nodes@);
    let cs = children_of(nodes, i, ChildTest::Named);
    let mut k: usize = 0;
    while k < cs.len()
        invariant
            t == node_tuples(nodes@),
            k <= cs.len(),
            indices(cs@) == children(t, i as int, ChildTestView::Named),
            forall|m: int| 0 <= m < cs.len() ==> i < #[trigger] cs@[m] < nodes.len(),
            first_named_of_kind(t, i as int, ks) == first_named_in(t, indices(cs@), k as int, ks),
        decreases cs.len() - k,
    {
        let c = cs[k];
        assert(indices(cs@)[k as int] == c as int);
        proof {
            assert(t[c as int] == node_tuple(nodes@[c as int]));
        }
        if in_set_exec(ks, &nodes[c]) {
            return Some(c);
        }
        k += 1;
    }
    None
}


// ---------------------------------------------------------------------------
// Names of declarations
// ---------------------------------------------------------------------------

/// The child of `i` held in field `f`.
pub open spec fn field_of(t: Seq<NodeTuple>, i: int, f: Seq<char>) -> Option<int> {
    first_child(t, i, ChildTestView::Field(f))
}

pub open spec fn or_else(a: Option<int>, b: Option<int>) -> Option<int> {
    if a is Some {
        a
    } else {
        b
    }
}

/// The identifier leaf of `i`: `i` itself when it is a name, else the leaf
/// of its `name`, then its `declarator` field, else the first name below it.
pub open spec fn identifier_leaf(t: Seq<NodeTuple>, i: int) -> Option<int>
    decreases t.len() - i,
{
    if i < 0 || i >= t.len() {
        None
    } else if in_set(KindSet::IdentifierLeaves, t[i].0) {
        Some(i)
    } else {
        let by_name = match field_of(t, i, "name"@) {
            Some(c) => if i < c < t.len() {
                identifier_leaf(t, c)
            } else {
                None
            },
            None => None,
        };
        let by_declarator = match field_of(t, i, "declarator"@) {
            Some(c) => if i < c < t.len() {
                identifier_leaf(t, c)
            } else {
                None
            },
            None => None,
        };
        or_else(by_name, or_else(by_declarator, first_of_kind(t, i, KindSet::NameLeaves)))
    }
}

/// The identifier leaf of the child of `i` in field `f`.
pub open spec fn leaf_of_field(t: Seq<NodeTuple>, i: int, f: Seq<char>) -> Option<int> {
    match field_of(t, i, f) {
        Some(c) => identifier_leaf(t, c),
        None => None,
    }
}

pub fn identifier_leaf_exec(nodes: &[SyntaxNode], i: usize) -> (r: Option<usize>)
    requires
        i < nodes.len(),
    ensures
        index_opt(r) == identifier_leaf(node_tuples(nodes@), i as int),
        r matches Some(x) ==> x < nodes.len(),
    decreases nodes.len() - i,
{
    let ghost t = node_tuples(nodes@);
    proof {
        assert(t[i as int] == node_tuple(nodes@[i as int]));
    }
    if in_set_exec(KindSet::IdentifierLeaves, &nodes[i]) {
        return Some(i);
    }
    match first_child_of(nodes, i, ChildTest::Field("name")) {
        Some(c) => match identifier_leaf_exec(nodes, c) {
            Some(x) => {
                return Some(x);
            },
            None => {},
        },
        None => {},
    }
    match first_child_of(nodes, i, ChildTest::Field("declarator")) {
        Some(c) => match identifier_leaf_exec(nodes, c) {
            Some(x) => {
                return Some(x);
            },
            None => {},
        },
        None => {},
    }
    first_of_kind_exec(nodes, i, KindSet::NameLeaves)
}

pub fn leaf_of_field_exec(nodes: &[SyntaxNode], i: usize, f: &str) -> (r: Option<usize>)
    requires
        i < nodes.len(),
    ensures
        index_opt(r) == leaf_of_field(node_tuples(nodes@), i as int, f@),
        r matches Some(x) ==> x < nodes.len(),
{
    match first_child_of(nodes, i, ChildTest::Field(f)) {
        Some(c) => identifier_leaf_exec(nodes, c),
        None => None,
    }
}

/// The name a C-family declarator declares: `i` itself when it is a name,
/// else that of its `declarator`, then its `name` field, else that of the
/// first named child that has one.
pub open spec fn declarator_name(t: Seq<NodeTuple>, i: int) -> Option<int>
    decreases t.len() - i, 1int, 0int,
{
    if i < 0 || i >= t.len() {
        None
    } else if in_set(KindSet::DeclaratorNames, t[i].0) {
        Some(i)
    } else {
        let by_declarator = match field_of(t, i, "declarator"@) {
            Some(c) => if i < c < t.len() {
                declarator_name(t, c)
            } else {
                None
            },
            None => None,
        };
        let by_name = match field_of(t, i, "name"@) {
            Some(c) => if i < c < t.len() {
                declarator_name(t, c)
            } else {
                None
            },
            None => None,
        };
        or_else(by_declarator, or_else(by_name, declarator_name_in(t, i, children(t, i, ChildTestView::Named), 0)))
    }
}

pub open spec fn declarator_name_in(t: Seq<NodeTuple>, i: int, cs: Seq<int>, k: int) -> Option<int>
    decreases t.len() - i, 0int, cs.len() - k,
{
    if k < 0 || k >= cs.len() {
        None
    } else if i < cs[k] < t.len() {
        match declarator_name(t, cs[k]) {
            Some(x) => Some(x),
            None => declarator_name_in(t, i, cs, k + 1),
        }
    } else {
        declarator_name_in(t, i, cs, k + 1)
    }
}

pub fn declarator_name_exec(nodes: &[SyntaxNode], i: usize) -> (r: Option<usize>)
    requires
        i < nodes.len(),
    ensures
        index_opt(r) == declarator_name(node_tuples(nodes@), i as int),
        r matches Some(x) ==> x < nodes.len(),
    decreases nodes.len() - i,
{
    let ghost t = node_tuples(nodes@);
    proof {
        assert(t[i as int] == node_tuple(nodes@[i as int]));
    }
    if in_set_exec(KindSet::DeclaratorNames, &nodes[i]) {
        return Some(i);
    }
    match first_child_of(nodes, i, ChildTest::Field("declarator")) {
        Some(c) => match declarator_name_exec(nodes, c) {
            Some(x) => {
                return Some(x);
            },
            None => {},
        },
        None => {},
    }
    match first_child_of(nodes, i, ChildTest::Field("name")) {
        Some(c) => match declarator_name_exec(nodes, c) {
            Some(x) => {
                return Some(x);
            },
            None => {},
        },
        None => {},
    }
    let cs = children_of(nodes, i, ChildTest::Named);
    let mut k: usize = 0;
    while k < cs.len()
        invariant
            t == node_tuples(nodes@),
            i < nodes.len(),
            k <= cs.len(),
            indices(cs@) == children(t, i as int, ChildTestView::Named),
            forall|m: int| 0 <= m < cs.len() ==> i < #[trigger] cs@[m] < nodes.len(),
            declarator_name(t, i as int) == declarator_name_in(t, i as int, indices(cs@), k as int),
        decreases cs.len() - k,
    {
        let c = cs[k];
        assert(indices(cs@)[k as int] == c as int);
        match declarator_name_exec(nodes, c) {
            Some(x) => {
                return Some(x);
            },
            None => {},
        }
        k += 1;
    }
    None
}

/// Whether a declaration binds a function value (an arrow function, a
/// function or generator expression) in its `value` or `initializer` field.
pub open spec fn has_callable_initializer(t: Seq<NodeTuple>, i: int) -> bool {
    match or_else(field_of(t, i, "value"@), field_of(t, i, "initializer"@)) {
        Some(v) => 0 <= v < t.len() && in_set(KindSet::CallableInitializers, t[v].0),
        None => false,
    }
}

pub fn has_callable_initializer_exec(nodes: &[SyntaxNode], i: usize) -> (r: bool)
    requires
        i < nodes.len(),
    ensures
        r == has_callable_initializer(node_tuples(nodes@), i as int),
{
    let ghost t = node_tuples(nodes@);
    let v = match first_child_of(nodes, i, ChildTest::Field("value")) {
        Some(v) => Some(v),
        None => first_child_of(nodes, i, ChildTest::Field("initializer")),
    };
    match v {
        Some(v) => {
            proof {
                assert(t[v as int] == node_tuple(nodes@[v as int]));
            }
            in_set_exec(KindSet::CallableInitializers, &nodes[v])
        },
        None => false,
    }
}


/// A C or C++ grammar.
pub open spec fn is_c_family(l: Seq<char>) -> bool {
    l == "c"@ || l == "cpp"@
}

pub open spec fn is_rust_named_item(k: Seq<char>) -> bool {
    k == "function_item"@ || k == "function_signature_item"@ || k == "trait_item"@ || k == "struct_item"@ || k
        == "enum_item"@ || k == "union_item"@ || k == "type_item"@
}

/// The name of a declaration by its language's rule, before the check that
/// it is not blank.
pub open spec fn name_by_rule(l: Seq<char>, t: Seq<NodeTuple>, i: int) -> Option<int> {
    let k = t[i].0;
    if is_c_family(l) && (k == "function_definition"@ || k == "declaration"@ || k == "field_declaration"@) {
        or_else(
            match field_of(t, i, "declarator"@) {
                Some(d) => declarator_name(t, d),
                None => None,
            },
            match first_of_kind(t, i, KindSet::FunctionDeclarator) {
                Some(d) => declarator_name(t, d),
                None => None,
            },
        )
    } else if is_c_family(l) && k == "type_definition"@ {
        or_else(
            match field_of(t, i, "declarator"@) {
                Some(d) => declarator_name(t, d),
                None => None,
            },
            first_of_kind(t, i, KindSet::TypeIdentifier),
        )
    } else if l == "go"@ && k == "type_spec"@ {
        leaf_of_field(t, i, "name"@)
    } else if l == "rust"@ && is_rust_named_item(k) {
        leaf_of_field(t, i, "name"@)
    } else if l == "dart"@ && k == "function_declaration"@ {
        match field_of(t, i, "signature"@) {
            Some(g) => leaf_of_field(t, g, "name"@),
            None => None,
        }
    } else if l == "dart"@ && k == "declaration"@ {
        match first_of_kind(t, i, KindSet::FunctionSignature) {
            Some(g) => leaf_of_field(t, g, "name"@),
            None => None,
        }
    } else if l == "dart"@ && k == "method_signature"@ {
        match first_of_kind(t, i, KindSet::DartSignatures) {
            Some(g) => leaf_of_field(t, g, "name"@),
            None => None,
        }
    } else if l == "dart"@ {
        or_else(leaf_of_field(t, i, "name"@), first_of_kind(t, i, KindSet::IdentifierOrType))
    } else {
        first_named_of_kind(t, i, KindSet::NameLeaves)
    }
}

/// The node that names declaration `i`: the leaf of its `name` field when it
/// has one, else the name its language's rule finds, unless that is blank.
pub open spec fn definition_name(l: Seq<char>, t: Seq<NodeTuple>, src: Seq<char>, i: int) -> Option<int> {
    match field_of(t, i, "name"@) {
        Some(c) => identifier_leaf(t, c),
        None => match name_by_rule(l, t, i) {
            Some(x) => if 0 <= x < t.len() && trim_ws(node_text(src, t[x])).len() > 0 {
                Some(x)
            } else {
                None
            },
            None => None,
        },
    }
}

fn declarator_of(nodes: &[SyntaxNode], d: Option<usize>) -> (r: Option<usize>)
    requires
        d matches Some(x) ==> x < nodes.len(),
    ensures
        index_opt(r) == match index_opt(d) {
            Some(x) => declarator_name(node_tuples(nodes@), x),
            None => None,
        },
        r matches Some(x) ==> x < nodes.len(),
{
    match d {
        Some(x) => declarator_name_exec(nodes, x),
        None => None,
    }
}

fn name_by_rule_exec(lang: &str, nodes: &[SyntaxNode], i: usize) -> (r: Option<usize>)
    requires
        i < nodes.len(),
    ensures
        index_opt(r) == name_by_rule(lang@, node_tuples(nodes@), i as int),
        r matches Some(x) ==> x < nodes.len(),
{
    let ghost t = node_tuples(nodes@);
    proof {
        assert(t[i as int] == node_tuple(nodes@[i as int]));
    }
    let n = &nodes[i];
    let c_family = str_eq(lang, "c") || str_eq(lang, "cpp");
    let dart = str_eq(lang, "dart");
    if c_family && (kind_is(n, "function_definition") || kind_is(n, "declaration") || kind_is(n, "field_declaration")) {
        let a = declarator_of(nodes, first_child_of(nodes, i, ChildTest::Field("declarator")));
        if a.is_some() {
            a
        } else {
            declarator_of(nodes, first_of_kind_exec(nodes, i, KindSet::FunctionDeclarator))
        }
    } else if c_family && kind_is(n, "type_definition") {
        let a = declarator_of(nodes, first_child_of(nodes, i, ChildTest::Field("declarator")));
        if a.is_some() {
            a
        } else {
            first_of_kind_exec(nodes, i, KindSet::TypeIdentifier)
        }
    } else if str_eq(lang, "go") && kind_is(n, "type_spec") {
        leaf_of_field_exec(nodes, i, "name")
    } else if str_eq(lang, "rust") && (kind_is(n, "function_item") || kind_is(n, "function_signature_item") || kind_is(
        n,
        "trait_item",
    ) || kind_is(n, "struct_item") || kind_is(n, "enum_item") || kind_is(n, "union_item") || kind_is(n, "type_item")) {
        leaf_of_field_exec(nodes, i, "name")
    } else if dart && kind_is(n, "function_declaration") {
        match first_child_of(nodes, i, ChildTest::Field("signature")) {
            Some(g) => leaf_of_field_exec(nodes, g, "name"),
            None => None,
        }
    } else if dart && kind_is(n, "declaration") {
        match first_of_kind_exec(nodes, i, KindSet::FunctionSignature) {
            Some(g) => leaf_of_field_exec(nodes, g, "name"),
            None => None,
        }
    } else if dart && kind_is(n, "method_signature") {
        match first_of_kind_exec(nodes, i, KindSet::DartSignatures) {
            Some(g) => leaf_of_field_exec(nodes, g, "name"),
            None => None,
        }
    } else if dart {
        let a = leaf_of_field_exec(nodes, i, "name");
        if a.is_some() {
            a
        } else {
            first_of_kind_exec(nodes, i, KindSet::IdentifierOrType)
        }
    } else {
        first_named_of_kind_exec(nodes, i, KindSet::NameLeaves)
    }
}

pub fn definition_name_exec(lang: &str, nodes: &[SyntaxNode], chars: &[char], i: usize) -> (r: Option<usize>)
    requires
        i < nodes.len(),
    ensures
        index_opt(r) == definition_name(lang@, node_tuples(nodes@), chars@, i as int),
        r matches Some(x) ==> x < nodes.len(),
{
    let ghost t = node_tuples(nodes@);
    match first_child_of(nodes, i, ChildTest::Field("name")) {
        Some(c) => identifier_leaf_exec(nodes, c),
        None => match name_by_rule_exec(lang, nodes, i) {
            Some(x) => {
                proof {
                    assert(t[x as int] == node_tuple(nodes@[x as int]));
                }
                let text = trimmed_text_of(chars, &nodes[x]);
                if text.len() > 0 {
                    Some(x)
                } else {
                    None
                }
            },
            None => None,
        },
    }
}


// ---------------------------------------------------------------------------
// Ancestors
// ---------------------------------------------------------------------------

/// `p` lists the parent of every node but the root.
pub open spec fn parents_ok(t: Seq<NodeTuple>, p: Seq<usize>) -> bool {
    &&& well_shaped(t)
    &&& p.len() == t.len()
    &&& forall|i: int| 1 <= i < t.len() ==> parent_of(t, i) == Some(#[trigger] p[i] as int)
}

fn parent_exec(nodes: &[SyntaxNode], parents: &[usize], i: usize) -> (r: Option<usize>)
    requires
        i < nodes.len(),
        parents_ok(node_tuples(nodes@), parents@),
    ensures
        index_opt(r) == parent_of(node_tuples(nodes@), i as int),
        r matches Some(p) ==> p < i,
{
    proof {
        crate::sql_inventory::lemma_parent_before(node_tuples(nodes@), i as int);
    }
    if i == 0 {
        None
    } else {
        assert(parent_of(node_tuples(nodes@), i as int) == Some(parents@[i as int] as int));
        Some(parents[i])
    }
}

/// Whether `i` is an executable body in `l`, inside which nothing is a
/// product definition.
pub open spec fn is_executable_body(l: Seq<char>, t: Seq<NodeTuple>, i: int) -> bool {
    let k = t[i].0;
    if l == "typescript"@ || l == "javascript"@ {
        k == "statement_block"@
    } else if l == "python"@ {
        k == "block"@ && match parent_of(t, i) {
            Some(p) => t[p].0 != "class_definition"@,
            None => true,
        }
    } else if l == "java"@ || l == "csharp"@ || l == "go"@ || l == "rust"@ {
        k == "block"@
    } else if is_c_family(l) {
        k == "compound_statement"@
    } else if l == "dart"@ {
        k == "function_body"@
    } else {
        false
    }
}

fn is_executable_body_exec(lang: &str, nodes: &[SyntaxNode], parents: &[usize], i: usize) -> (r: bool)
    requires
        i < nodes.len(),
        parents_ok(node_tuples(nodes@), parents@),
    ensures
        r == is_executable_body(lang@, node_tuples(nodes@), i as int),
{
    let ghost t = node_tuples(nodes@);
    proof {
        assert(t[i as int] == node_tuple(nodes@[i as int]));
    }
    let n = &nodes[i];
    if str_eq(lang, "typescript") || str_eq(lang, "javascript") {
        kind_is(n, "statement_block")
    } else if str_eq(lang, "python") {
        kind_is(n, "block") && match parent_exec(nodes, parents, i) {
            Some(p) => {
                proof {
                    assert(t[p as int] == node_tuple(nodes@[p as int]));
                }
                !kind_is(&nodes[p], "class_definition")
            },
            None => true,
        }
    } else if str_eq(lang, "java") || str_eq(lang, "csharp") || str_eq(lang, "go") || str_eq(lang, "rust") {
        kind_is(n, "block")
    } else if str_eq(lang, "c") || str_eq(lang, "cpp") {
        kind_is(n, "compound_statement")
    } else if str_eq(lang, "dart") {
        kind_is(n, "function_body")
    } else {
        false
    }
}

/// A Python assignment written directly in a class body.
pub open spec fn direct_class_assignment(t: Seq<NodeTuple>, i: int) -> bool {
    match parent_of(t, i) {
        Some(p) => match parent_of(t, p) {
            Some(g) => t[p].0 == "expression_statement"@ && t[g].0 == "block"@,
            None => false,
        },
        None => false,
    }
}

fn direct_class_assignment_exec(nodes: &[SyntaxNode], parents: &[usize], i: usize) -> (r: bool)
    requires
        i < nodes.len(),
        parents_ok(node_tuples(nodes@), parents@),
    ensures
        r == direct_class_assignment(node_tuples(nodes@), i as int),
{
    let ghost t = node_tuples(nodes@);
    match parent_exec(nodes, parents, i) {
        Some(p) => match parent_exec(nodes, parents, p) {
            Some(g) => {
                proof {
                    assert(t[p as int] == node_tuple(nodes@[p as int]));
                    assert(t[g as int] == node_tuple(nodes@[g as int]));
                }
                kind_is(&nodes[p], "expression_statement") && kind_is(&nodes[g], "block")
            },
            None => false,
        },
        None => false,
    }
}

/// Whether a Dart declaration at `a` lies in a class body before any
/// function body, block or function declaration encloses it.
pub open spec fn dart_class_member(t: Seq<NodeTuple>, a: int) -> bool
    decreases a,
{
    if a < 0 || a >= t.len() {
        false
    } else if t[a].0 == "function_body"@ || t[a].0 == "block"@ || t[a].0 == "function_declaration"@ {
        false
    } else if t[a].0 == "class_body"@ {
        true
    } else {
        match parent_of(t, a) {
            Some(p) => if 0 <= p < a {
                dart_class_member(t, p)
            } else {
                false
            },
            None => false,
        }
    }
}

fn dart_class_member_exec(nodes: &[SyntaxNode], parents: &[usize], a: usize) -> (r: bool)
    requires
        a < nodes.len(),
        parents_ok(node_tuples(nodes@), parents@),
    ensures
        r == dart_class_member(node_tuples(nodes@), a as int),
    decreases a,
{
    let ghost t = node_tuples(nodes@);
    proof {
        assert(t[a as int] == node_tuple(nodes@[a as int]));
    }
    let n = &nodes[a];
    if kind_is(n, "function_body") || kind_is(n, "block") || kind_is(n, "function_declaration") {
        false
    } else if kind_is(n, "class_body") {
        true
    } else {
        match parent_exec(nodes, parents, a) {
            Some(p) => dart_class_member_exec(nodes, parents, p),
            None => false,
        }
    }
}

// ---------------------------------------------------------------------------
// What a node declares
// ---------------------------------------------------------------------------

/// Whether `i` has a named child of kind `k`.
pub open spec fn has_named_child(t: Seq<NodeTuple>, i: int, k: Seq<char>) -> bool {
    first_child(t, i, ChildTestView::NamedKind(k)) is Some
}

/// The kind of type node `i` declares in `l`, if any.
pub open spec fn type_kind(l: Seq<char>, t: Seq<NodeTuple>, i: int) -> Option<FactNodeKind> {
    let k = t[i].0;
    if (l == "typescript"@ && (k == "class_declaration"@ || k == "abstract_class_declaration"@)) || (l
        == "javascript"@ && (k == "class_declaration"@ || k == "class"@)) || ((l == "java"@ || l == "csharp"@)
        && (k == "class_declaration"@ || k == "record_declaration"@)) || (l == "cpp"@ && k == "class_specifier"@)
        || (l == "dart"@ && (k == "class_declaration"@ || k == "extension_type_declaration"@)) {
        Some(FactNodeKind::Class)
    } else if (l == "typescript"@ && k == "interface_declaration"@) || (l == "java"@ && (k
        == "interface_declaration"@ || k == "annotation_type_declaration"@)) || (l == "csharp"@ && k
        == "interface_declaration"@) {
        Some(FactNodeKind::Interface)
    } else if l == "go"@ && k == "type_spec"@ && has_named_child(t, i, "interface_type"@) {
        Some(FactNodeKind::Interface)
    } else if (l == "rust"@ && k == "trait_item"@) || (l == "dart"@ && k == "mixin_declaration"@) {
        Some(FactNodeKind::Trait)
    } else if (is_c_family(l) && (k == "struct_specifier"@ || k == "union_specifier"@)) || (l == "csharp"@ && k
        == "struct_declaration"@) {
        Some(FactNodeKind::Struct)
    } else if l == "go"@ && k == "type_spec"@ && has_named_child(t, i, "struct_type"@) {
        Some(FactNodeKind::Struct)
    } else if l == "rust"@ && (k == "struct_item"@ || k == "union_item"@) {
        Some(FactNodeKind::Struct)
    } else if ((l == "typescript"@ || l == "java"@ || l == "csharp"@ || l == "dart"@) && k == "enum_declaration"@)
        || (is_c_family(l) && k == "enum_specifier"@) || (l == "rust"@ && k == "enum_item"@) {
        Some(FactNodeKind::Enum)
    } else if (l == "typescript"@ && k == "type_alias_declaration"@) || (is_c_family(l) && k
        == "type_definition"@) || (l == "rust"@ && k == "type_item"@) || (l == "dart"@ && k == "type_alias"@) {
        Some(FactNodeKind::TypeAlias)
    } else if l == "go"@ && k == "type_spec"@ {
        Some(FactNodeKind::Type)
    } else if l == "python"@ && k == "class_definition"@ {
        Some(FactNodeKind::Class)
    } else {
        None
    }
}

fn type_kind_exec(lang: &str, nodes: &[SyntaxNode], i: usize) -> (r: Option<FactNodeKind>)
    requires
        i < nodes.len(),
    ensures
        r == type_kind(lang@, node_tuples(nodes@), i as int),
{
    let ghost t = node_tuples(nodes@);
    proof {
        assert(t[i as int] == node_tuple(nodes@[i as int]));
    }
    let n = &nodes[i];
    let ts = str_eq(lang, "typescript");
    let js = str_eq(lang, "javascript");
    let java = str_eq(lang, "java");
    let cs = str_eq(lang, "csharp");
    let cpp = str_eq(lang, "cpp");
    let c_family = str_eq(lang, "c") || cpp;
    let dart = str_eq(lang, "dart");
    let go = str_eq(lang, "go");
    let rust = str_eq(lang, "rust");
    if (ts && (kind_is(n, "class_declaration") || kind_is(n, "abstract_class_declaration"))) || (js && (kind_is(
        n,
        "class_declaration",
    ) || kind_is(n, "class"))) || ((java || cs) && (kind_is(n, "class_declaration") || kind_is(
        n,
        "record_declaration",
    ))) || (cpp && kind_is(n, "class_specifier")) || (dart && (kind_is(n, "class_declaration") || kind_is(
        n,
        "extension_type_declaration",
    ))) {
        Some(FactNodeKind::Class)
    } else if (ts && kind_is(n, "interface_declaration")) || (java && (kind_is(n, "interface_declaration")
        || kind_is(n, "annotation_type_declaration"))) || (cs && kind_is(n, "interface_declaration")) {
        Some(FactNodeKind::Interface)
    } else if go && kind_is(n, "type_spec") && first_child_of(nodes, i, ChildTest::NamedKind("interface_type")).is_some() {
        Some(FactNodeKind::Interface)
    } else if (rust && kind_is(n, "trait_item")) || (dart && kind_is(n, "mixin_declaration")) {
        Some(FactNodeKind::Trait)
    } else if (c_family && (kind_is(n, "struct_specifier") || kind_is(n, "union_specifier"))) || (cs && kind_is(
        n,
        "struct_declaration",
    )) {
        Some(FactNodeKind::Struct)
    } else if go && kind_is(n, "type_spec") && first_child_of(nodes, i, ChildTest::NamedKind("struct_type")).is_some() {
        Some(FactNodeKind::Struct)
    } else if rust && (kind_is(n, "struct_item") || kind_is(n, "union_item")) {
        Some(FactNodeKind::Struct)
    } else if ((ts || java || cs || dart) && kind_is(n, "enum_declaration")) || (c_family && kind_is(
        n,
        "enum_specifier",
    )) || (rust && kind_is(n, "enum_item")) {
        Some(FactNodeKind::Enum)
    } else if (ts && kind_is(n, "type_alias_declaration")) || (c_family && kind_is(n, "type_definition")) || (rust
        && kind_is(n, "type_item")) || (dart && kind_is(n, "type_alias")) {
        Some(FactNodeKind::TypeAlias)
    } else if go && kind_is(n, "type_spec") {
        Some(FactNodeKind::Type)
    } else if str_eq(lang, "python") && kind_is(n, "class_definition") {
        Some(FactNodeKind::Class)
    } else {
        None
    }
}


/// The kind of callable node `i` declares in `l`, given whether it has an
/// owner, before a constructor is recognised by its name.
pub open spec fn callable_kind(l: Seq<char>, t: Seq<NodeTuple>, i: int, owned: bool) -> Option<FactNodeKind> {
    let k = t[i].0;
    let ts = l == "typescript"@;
    let js = l == "javascript"@;
    let dart = l == "dart"@;
    let by_owner = if owned {
        FactNodeKind::Method
    } else {
        FactNodeKind::Function
    };
    if ((ts || js) && (k == "function_declaration"@ || k == "generator_function_declaration"@)) || (l == "python"@
        && k == "function_definition"@) {
        Some(by_owner)
    } else if (ts && (k == "method_definition"@ || k == "method_signature"@ || k == "abstract_method_signature"@))
        || (js && k == "method_definition"@) || ((l == "java"@ || l == "csharp"@) && k == "method_declaration"@)
        || (l == "go"@ && (k == "method_declaration"@ || k == "method_elem"@)) {
        Some(FactNodeKind::Method)
    } else if (ts || js) && k == "variable_declarator"@ && !owned && has_callable_initializer(t, i) {
        Some(FactNodeKind::Function)
    } else if ((ts && k == "public_field_definition"@) || (js && k == "field_definition"@)) && owned
        && has_callable_initializer(t, i) {
        Some(FactNodeKind::Method)
    } else if (l == "java"@ && (k == "constructor_declaration"@ || k == "compact_constructor_declaration"@)) || (l
        == "csharp"@ && k == "constructor_declaration"@) {
        Some(FactNodeKind::Constructor)
    } else if is_c_family(l) && (k == "function_definition"@ || k == "declaration"@ || k == "field_declaration"@)
        && first_of_kind(t, i, KindSet::FunctionDeclarator) is Some {
        Some(by_owner)
    } else if l == "go"@ && k == "function_declaration"@ {
        Some(FactNodeKind::Function)
    } else if l == "rust"@ && (k == "function_item"@ || k == "function_signature_item"@) {
        Some(by_owner)
    } else if dart && k == "function_declaration"@ {
        Some(FactNodeKind::Function)
    } else if dart && k == "declaration"@ && owned && first_of_kind(t, i, KindSet::FunctionSignature) is Some {
        Some(FactNodeKind::Method)
    } else if dart && k == "method_signature"@ && first_of_kind(t, i, KindSet::DartConstructors) is Some {
        None
    } else if dart && k == "method_signature"@ && first_of_kind(t, i, KindSet::GetterSignature) is Some {
        None
    } else if dart && k == "method_signature"@ {
        Some(FactNodeKind::Method)
    } else if dart && (k == "getter_signature"@ || k == "setter_signature"@) {
        Some(FactNodeKind::Field)
    } else if dart && in_set(KindSet::DartConstructors, k) {
        Some(FactNodeKind::Constructor)
    } else {
        None
    }
}

fn callable_kind_exec(lang: &str, nodes: &[SyntaxNode], i: usize, owned: bool) -> (r: Option<FactNodeKind>)
    requires
        i < nodes.len(),
    ensures
        r == callable_kind(lang@, node_tuples(nodes@), i as int, owned),
{
    let ghost t = node_tuples(nodes@);
    proof {
        assert(t[i as int] == node_tuple(nodes@[i as int]));
    }
    let n = &nodes[i];
    let ts = str_eq(lang, "typescript");
    let js = str_eq(lang, "javascript");
    let dart = str_eq(lang, "dart");
    let by_owner = if owned {
        FactNodeKind::Method
    } else {
        FactNodeKind::Function
    };
    if ((ts || js) && (kind_is(n, "function_declaration") || kind_is(n, "generator_function_declaration"))) || (str_eq(
        lang,
        "python",
    ) && kind_is(n, "function_definition")) {
        Some(by_owner)
    } else if (ts && (kind_is(n, "method_definition") || kind_is(n, "method_signature") || kind_is(
        n,
        "abstract_method_signature",
    ))) || (js && kind_is(n, "method_definition")) || ((str_eq(lang, "java") || str_eq(lang, "csharp")) && kind_is(
        n,
        "method_declaration",
    )) || (str_eq(lang, "go") && (kind_is(n, "method_declaration") || kind_is(n, "method_elem"))) {
        Some(FactNodeKind::Method)
    } else if (ts || js) && kind_is(n, "variable_declarator") && !owned && has_callable_initializer_exec(nodes, i) {
        Some(FactNodeKind::Function)
    } else if ((ts && kind_is(n, "public_field_definition")) || (js && kind_is(n, "field_definition"))) && owned
        && has_callable_initializer_exec(nodes, i) {
        Some(FactNodeKind::Method)
    } else if (str_eq(lang, "java") && (kind_is(n, "constructor_declaration") || kind_is(
        n,
        "compact_constructor_declaration",
    ))) || (str_eq(lang, "csharp") && kind_is(n, "constructor_declaration")) {
        Some(FactNodeKind::Constructor)
    } else if (str_eq(lang, "c") || str_eq(lang, "cpp")) && (kind_is(n, "function_definition") || kind_is(
        n,
        "declaration",
    ) || kind_is(n, "field_declaration")) && first_of_kind_exec(nodes, i, KindSet::FunctionDeclarator).is_some() {
        Some(by_owner)
    } else if str_eq(lang, "go") && kind_is(n, "function_declaration") {
        Some(FactNodeKind::Function)
    } else if str_eq(lang, "rust") && (kind_is(n, "function_item") || kind_is(n, "function_signature_item")) {
        Some(by_owner)
    } else if dart && kind_is(n, "function_declaration") {
        Some(FactNodeKind::Function)
    } else if dart && kind_is(n, "declaration") && owned && first_of_kind_exec(
        nodes,
        i,
        KindSet::FunctionSignature,
    ).is_some() {
        Some(FactNodeKind::Method)
    } else if dart && kind_is(n, "method_signature") && first_of_kind_exec(nodes, i, KindSet::DartConstructors).is_some() {
        None
    } else if dart && kind_is(n, "method_signature") && first_of_kind_exec(nodes, i, KindSet::GetterSignature).is_some() {
        None
    } else if dart && kind_is(n, "method_signature") {
        Some(FactNodeKind::Method)
    } else if dart && (kind_is(n, "getter_signature") || kind_is(n, "setter_signature")) {
        Some(FactNodeKind::Field)
    } else if dart && in_set_exec(KindSet::DartConstructors, n) {
        Some(FactNodeKind::Constructor)
    } else {
        None
    }
}

pub open spec fn opt_seq(o: Option<int>) -> Seq<int> {
    match o {
        Some(x) => seq![x],
        None => Seq::empty(),
    }
}

/// The names declared by the variable declarators `ds[k..]`.
pub open spec fn declared_names(t: Seq<NodeTuple>, ds: Seq<int>, k: int) -> Seq<int>
    decreases ds.len() - k,
{
    if k < 0 || k >= ds.len() {
        Seq::empty()
    } else {
        opt_seq(or_else(leaf_of_field(t, ds[k], "name"@), first_named_of_kind(t, ds[k], KindSet::Identifier)))
            + declared_names(t, ds, k + 1)
    }
}

/// The names a field declaration declares, by its language's rule.
pub open spec fn field_names(l: Seq<char>, t: Seq<NodeTuple>, i: int) -> Seq<int> {
    if l == "java"@ || l == "csharp"@ {
        declared_names(t, all_of_kind(t, i, KindSet::VariableDeclarator), 0)
    } else if is_c_family(l) {
        all_of_kind(t, i, KindSet::FieldIdentifier)
    } else if l == "go"@ {
        match field_of(t, i, "name"@) {
            Some(n) => seq![n],
            None => all_of_kind(t, i, KindSet::FieldIdentifier),
        }
    } else if l == "rust"@ {
        opt_seq(field_of(t, i, "name"@)) + opt_seq(first_named_of_kind(t, i, KindSet::FieldIdentifier))
    } else {
        opt_seq(leaf_of_field(t, i, "name"@))
    }
}

fn push_opt(out: &mut Vec<usize>, o: Option<usize>)
    ensures
        final(out)@ == old(out)@ + match o {
            Some(x) => seq![x],
            None => Seq::<usize>::empty(),
        },
        indices(final(out)@) == indices(old(out)@) + opt_seq(index_opt(o)),
{
    let ghost before = indices(out@);
    match o {
        Some(x) => {
            out.push(x);
            assert(indices(out@) =~= before + seq![x as int]);
            assert(out@ =~= old(out)@ + seq![x]);
        },
        None => {
            assert(indices(out@) =~= before + Seq::<int>::empty());
            assert(out@ =~= old(out)@ + Seq::<usize>::empty());
        },
    }
}

fn field_names_exec(lang: &str, nodes: &[SyntaxNode], i: usize) -> (r: Vec<usize>)
    requires
        i < nodes.len(),
    ensures
        indices(r@) == field_names(lang@, node_tuples(nodes@), i as int),
        forall|m: int| 0 <= m < r.len() ==> #[trigger] r@[m] < nodes.len(),
{
    let ghost t = node_tuples(nodes@);
    if str_eq(lang, "java") || str_eq(lang, "csharp") {
        let ds = all_of_kind_exec(nodes, i, KindSet::VariableDeclarator);
        let mut out: Vec<usize> = Vec::new();
        let mut k: usize = 0;
        while k < ds.len()
            invariant
                t == node_tuples(nodes@),
                k <= ds.len(),
                forall|m: int| 0 <= m < ds.len() ==> #[trigger] ds@[m] < nodes.len(),
                forall|m: int| 0 <= m < out.len() ==> #[trigger] out@[m] < nodes.len(),
                declared_names(t, indices(ds@), 0) == indices(out@) + declared_names(t, indices(ds@), k as int),
            decreases ds.len() - k,
        {
            let d = ds[k];
            assert(indices(ds@)[k as int] == d as int);
            let a = leaf_of_field_exec(nodes, d, "name");
            let name = if a.is_some() {
                a
            } else {
                first_named_of_kind_exec(nodes, d, KindSet::Identifier)
            };
            let ghost before = indices(out@);
            push_opt(&mut out, name);
            assert(before + (opt_seq(index_opt(name)) + declared_names(t, indices(ds@), k + 1)) =~= indices(out@)
                + declared_names(t, indices(ds@), k + 1));
            k += 1;
        }
        assert(indices(out@) + Seq::<int>::empty() =~= indices(out@));
        out
    } else if str_eq(lang, "c") || str_eq(lang, "cpp") {
        all_of_kind_exec(nodes, i, KindSet::FieldIdentifier)
    } else if str_eq(lang, "go") {
        match first_child_of(nodes, i, ChildTest::Field("name")) {
            Some(n) => {
                let mut out: Vec<usize> = Vec::new();
                out.push(n);
                assert(indices(out@) =~= seq![n as int]);
                out
            },
            None => all_of_kind_exec(nodes, i, KindSet::FieldIdentifier),
        }
    } else if str_eq(lang, "rust") {
        let mut out: Vec<usize> = Vec::new();
        push_opt(&mut out, first_child_of(nodes, i, ChildTest::Field("name")));
        push_opt(&mut out, first_named_of_kind_exec(nodes, i, KindSet::FieldIdentifier));
        assert(indices(out@) =~= Seq::<int>::empty() + opt_seq(field_of(t, i as int, "name"@)) + opt_seq(
            first_named_of_kind(t, i as int, KindSet::FieldIdentifier),
        ));
        out
    } else {
        let mut out: Vec<usize> = Vec::new();
        push_opt(&mut out, leaf_of_field_exec(nodes, i, "name"));
        assert(indices(out@) =~= opt_seq(leaf_of_field(t, i as int, "name"@)));
        out
    }
}

/// `w` is one of the whitespace-separated words of `s`.
pub open spec fn has_ws_word(s: Seq<char>, w: Seq<char>) -> bool {
    &&& w.len() > 0
    &&& forall|k: int| 0 <= k < w.len() ==> !unicode_white_space(#[trigger] w[k])
    &&& exists|i: int| #[trigger] ws_word_at(s, w, i)
}

pub open spec fn ws_word_at(s: Seq<char>, w: Seq<char>, i: int) -> bool {
    occurs_at(s, w, i) && (i == 0 || unicode_white_space(s[i - 1])) && (i + w.len() == s.len() || unicode_white_space(
        s[i + w.len()],
    ))
}

fn has_ws_word_exec(s: &[char], w: &str) -> (r: bool)
    ensures
        r == has_ws_word(s@, w@),
{
    let wv = crate::text::chars_of(w);
    let wc = wv.as_slice();
    if wc.len() == 0 {
        return false;
    }
    let mut k: usize = 0;
    while k < wc.len()
        invariant
            k <= wc.len(),
            wc@ == w@,
            forall|m: int| 0 <= m < k ==> !unicode_white_space(#[trigger] wc@[m]),
        decreases wc.len() - k,
    {
        if char_is_whitespace(wc[k]) {
            return false;
        }
        k += 1;
    }
    let mut i: usize = 0;
    loop
        invariant
            i <= s.len(),
            wc@ == w@,
            wc.len() > 0,
            forall|m: int| 0 <= m < wc.len() ==> !unicode_white_space(#[trigger] wc@[m]),
            forall|j: int| 0 <= j < i ==> !#[trigger] ws_word_at(s@, wc@, j),
        ensures
            i == s.len(),
            !ws_word_at(s@, wc@, i as int),
        decreases s.len() - i,
    {
        if occurs_at_exec(s, wc, i) {
            let before = i == 0 || char_is_whitespace(s[i - 1]);
            let after = i + wc.len() == s.len() || char_is_whitespace(s[i + wc.len()]);
            if before && after {
                assert(ws_word_at(s@, wc@, i as int));
                return true;
            }
        }
        if i == s.len() {
            break;
        }
        i += 1;
    }
    assert forall|j: int| !#[trigger] ws_word_at(s@, wc@, j) by {
        if 0 <= j <= i {
        }
    }
    false
}

/// A TypeScript constructor parameter that declares a field: its text
/// carries an accessibility or `readonly` modifier.
pub open spec fn is_parameter_property(src: Seq<char>, n: NodeTuple) -> bool {
    let text = node_text(src, n);
    has_ws_word(text, "public"@) || has_ws_word(text, "protected"@) || has_ws_word(text, "private"@)
        || has_ws_word(text, "readonly"@)
}

fn parameter_property_exec(chars: &[char], n: &SyntaxNode) -> (r: bool)
    ensures
        r == is_parameter_property(chars@, node_tuple(*n)),
{
    let text = node_text_of(chars, n);
    has_ws_word_exec(text.as_slice(), "public") || has_ws_word_exec(text.as_slice(), "protected") || has_ws_word_exec(
        text.as_slice(),
        "private",
    ) || has_ws_word_exec(text.as_slice(), "readonly")
}

/// The name of a parameter: the leaf of its `pattern` (else `name`) field,
/// else the first identifier below it.
pub open spec fn parameter_name(t: Seq<NodeTuple>, i: int) -> Option<int> {
    or_else(
        match or_else(field_of(t, i, "pattern"@), field_of(t, i, "name"@)) {
            Some(c) => identifier_leaf(t, c),
            None => None,
        },
        first_of_kind(t, i, KindSet::Identifier),
    )
}


// ---------------------------------------------------------------------------
// What the syntax says around a declaration
// ---------------------------------------------------------------------------

/// Whether an `export` statement encloses `c`: the nearest export statement
/// or declaration above it, below the file's root node, says `export`
/// before `c`.
pub open spec fn exported_above(t: Seq<NodeTuple>, src: Seq<char>, c: int) -> bool
    decreases c,
{
    match parent_of(t, c) {
        Some(p) => if 0 <= p < c && c < t.len() {
            let k = t[p].0;
            if k == "export_statement"@ || k == "export_declaration"@ {
                has_word_token(text_between(src, t[p].2 as int, t[c].2 as int), "export"@)
            } else if k == "program"@ || k == "module"@ || k == "source_file"@ || k == "translation_unit"@ {
                false
            } else {
                exported_above(t, src, p)
            }
        } else {
            false
        },
        None => false,
    }
}

fn exported_above_exec(nodes: &[SyntaxNode], parents: &[usize], chars: &[char], c: usize) -> (r: bool)
    requires
        c < nodes.len(),
        parents_ok(node_tuples(nodes@), parents@),
    ensures
        r == exported_above(node_tuples(nodes@), chars@, c as int),
    decreases c,
{
    let ghost t = node_tuples(nodes@);
    match parent_exec(nodes, parents, c) {
        Some(p) => {
            proof {
                assert(t[p as int] == node_tuple(nodes@[p as int]));
                assert(t[c as int] == node_tuple(nodes@[c as int]));
            }
            let n = &nodes[p];
            if kind_is(n, "export_statement") || kind_is(n, "export_declaration") {
                let text = crate::sql_inventory::text_of_range(chars, nodes[p].start_byte, nodes[c].start_byte);
                crate::text::word_token_in(text.as_slice(), crate::text::chars_of("export").as_slice())
            } else if kind_is(n, "program") || kind_is(n, "module") || kind_is(n, "source_file") || kind_is(
                n,
                "translation_unit",
            ) {
                false
            } else {
                exported_above_exec(nodes, parents, chars, p)
            }
        },
        None => false,
    }
}

/// Whether `n` names its namespace with non-blank text.
pub open spec fn named_namespace(t: Seq<NodeTuple>, src: Seq<char>, p: int) -> bool {
    match field_of(t, p, "name"@) {
        Some(n) => 0 <= n < t.len() && trim_ws(node_text(src, t[n])).len() > 0,
        None => false,
    }
}

/// Whether some namespace above `c` has no name.
pub open spec fn anonymous_namespace_above(t: Seq<NodeTuple>, src: Seq<char>, c: int) -> bool
    decreases c,
{
    match parent_of(t, c) {
        Some(p) => if 0 <= p < c {
            (t[p].0 == "namespace_definition"@ && !named_namespace(t, src, p)) || anonymous_namespace_above(t, src, p)
        } else {
            false
        },
        None => false,
    }
}

fn anonymous_namespace_above_exec(nodes: &[SyntaxNode], parents: &[usize], chars: &[char], c: usize) -> (r: bool)
    requires
        c < nodes.len(),
        parents_ok(node_tuples(nodes@), parents@),
    ensures
        r == anonymous_namespace_above(node_tuples(nodes@), chars@, c as int),
    decreases c,
{
    let ghost t = node_tuples(nodes@);
    match parent_exec(nodes, parents, c) {
        Some(p) => {
            proof {
                assert(t[p as int] == node_tuple(nodes@[p as int]));
            }
            if kind_is(&nodes[p], "namespace_definition") {
                let named = match first_child_of(nodes, p, ChildTest::Field("name")) {
                    Some(n) => {
                        proof {
                            assert(t[n as int] == node_tuple(nodes@[n as int]));
                        }
                        trimmed_text_of(chars, &nodes[n]).len() > 0
                    },
                    None => false,
                };
                if !named {
                    return true;
                }
            }
            anonymous_namespace_above_exec(nodes, parents, chars, p)
        },
        None => false,
    }
}

/// The texts of the access labels among the children `cs[k..]` that start
/// before byte `start`.
pub open spec fn labels_before(t: Seq<NodeTuple>, src: Seq<char>, cs: Seq<int>, k: int, start: int) -> Seq<Seq<char>>
    decreases cs.len() - k,
{
    if k < 0 || k >= cs.len() {
        Seq::empty()
    } else if 0 <= cs[k] < t.len() {
        if t[cs[k]].2 >= start {
            Seq::empty()
        } else if t[cs[k]].0 == "access_specifier"@ {
            seq![node_text(src, t[cs[k]])] + labels_before(t, src, cs, k + 1, start)
        } else {
            labels_before(t, src, cs, k + 1, start)
        }
    } else {
        labels_before(t, src, cs, k + 1, start)
    }
}

/// The access labels before `c` in the nearest class body above it; `None`
/// outside any class body.
pub open spec fn labels_above(t: Seq<NodeTuple>, src: Seq<char>, c: int) -> Option<Seq<Seq<char>>>
    decreases c,
{
    match parent_of(t, c) {
        Some(p) => if 0 <= p < c && c < t.len() {
            if t[p].0 == "field_declaration_list"@ {
                Some(labels_before(t, src, children(t, p, ChildTestView::Named), 0, t[c].2 as int))
            } else {
                labels_above(t, src, p)
            }
        } else {
            None
        },
        None => None,
    }
}

fn labels_above_exec(nodes: &[SyntaxNode], parents: &[usize], chars: &[char], c: usize) -> (r: Option<Vec<String>>)
    requires
        c < nodes.len(),
        parents_ok(node_tuples(nodes@), parents@),
    ensures
        match r {
            Some(v) => labels_above(node_tuples(nodes@), chars@, c as int) == Some(crate::text::string_views(v@)),
            None => labels_above(node_tuples(nodes@), chars@, c as int) is None,
        },
    decreases c,
{
    let ghost t = node_tuples(nodes@);
    match parent_exec(nodes, parents, c) {
        Some(p) => {
            proof {
                assert(t[p as int] == node_tuple(nodes@[p as int]));
                assert(t[c as int] == node_tuple(nodes@[c as int]));
            }
            if kind_is(&nodes[p], "field_declaration_list") {
                let start = nodes[c].start_byte;
                let cs = children_of(nodes, p, ChildTest::Named);
                let mut out: Vec<String> = Vec::new();
                let mut k: usize = 0;
                let mut done = false;
                while k < cs.len() && !done
                    invariant
                        t == node_tuples(nodes@),
                        k <= cs.len(),
                        done ==> labels_before(t, chars@, indices(cs@), k as int, start as int) =~= Seq::<Seq<char>>::empty(),
                        c < nodes.len(),
                        start == t[c as int].2,
                        indices(cs@) == children(t, p as int, ChildTestView::Named),
                        forall|m: int| 0 <= m < cs.len() ==> #[trigger] cs@[m] < nodes.len(),
                        labels_before(t, chars@, indices(cs@), 0, start as int) == crate::text::string_views(out@)
                            + labels_before(t, chars@, indices(cs@), k as int, start as int),
                    decreases cs.len() - k + (if done { 0int } else { 1int }),
                {
                    let x = cs[k];
                    assert(indices(cs@)[k as int] == x as int);
                    proof {
                        assert(t[x as int] == node_tuple(nodes@[x as int]));
                    }
                    if nodes[x].start_byte >= start {
                        assert(labels_before(t, chars@, indices(cs@), k as int, start as int) =~= Seq::<Seq<char>>::empty());
                        done = true;
                    } else if kind_is(&nodes[x], "access_specifier") {
                        let text = node_text_of(chars, &nodes[x]);
                        let ghost before = crate::text::string_views(out@);
                        out.push(string_of(text.as_slice()));
                        proof {
                            assert(crate::text::string_views(out@) =~= before.push(text@));
                            assert(before + (seq![text@] + labels_before(t, chars@, indices(cs@), k + 1, start as int))
                                =~= crate::text::string_views(out@) + labels_before(t, chars@, indices(cs@), k + 1, start as int));
                        }
                        k += 1;
                    } else {
                        k += 1;
                    }
                }
                proof {
                    if !done {
                        assert(labels_before(t, chars@, indices(cs@), k as int, start as int) =~= Seq::<Seq<char>>::empty());
                    }
                    assert(crate::text::string_views(out@) + Seq::<Seq<char>>::empty() =~= crate::text::string_views(out@));
                }
                Some(out)
            } else {
                labels_above_exec(nodes, parents, chars, p)
            }
        },
        None => None,
    }
}


// ---------------------------------------------------------------------------
// Headers and accessibility
// ---------------------------------------------------------------------------

pub open spec fn opt_min(a: Option<int>, b: Option<int>) -> Option<int> {
    match (a, b) {
        (Some(x), Some(y)) => Some(if x <= y {
            x
        } else {
            y
        }),
        (Some(x), None) => Some(x),
        (None, y) => y,
    }
}

/// The smallest start byte of a node of a kind in `ks` below `i`, not
/// looking inside a node once it is found.
pub open spec fn first_start(t: Seq<NodeTuple>, i: int, ks: KindSet) -> Option<int>
    decreases t.len() - i, 1int, 0int,
{
    if i < 0 || i >= t.len() {
        None
    } else {
        first_start_in(t, i, children(t, i, ChildTestView::Named), 0, ks)
    }
}

pub open spec fn first_start_in(t: Seq<NodeTuple>, i: int, cs: Seq<int>, k: int, ks: KindSet) -> Option<int>
    decreases t.len() - i, 0int, cs.len() - k,
{
    if k < 0 || k >= cs.len() {
        None
    } else if i < cs[k] < t.len() {
        let here = if in_set(ks, t[cs[k]].0) {
            Some(t[cs[k]].2 as int)
        } else {
            first_start(t, cs[k], ks)
        };
        opt_min(here, first_start_in(t, i, cs, k + 1, ks))
    } else {
        first_start_in(t, i, cs, k + 1, ks)
    }
}

fn opt_min_exec(a: Option<usize>, b: Option<usize>) -> (r: Option<usize>)
    ensures
        index_opt(r) == opt_min(index_opt(a), index_opt(b)),
{
    match (a, b) {
        (Some(x), Some(y)) => Some(if x <= y {
            x
        } else {
            y
        }),
        (Some(x), None) => Some(x),
        (None, y) => y,
    }
}

fn first_start_exec(nodes: &[SyntaxNode], i: usize, ks: KindSet) -> (r: Option<usize>)
    requires
        i < nodes.len(),
    ensures
        index_opt(r) == first_start(node_tuples(nodes@), i as int, ks),
    decreases nodes.len() - i,
{
    let ghost t = node_tuples(nodes@);
    let cs = children_of(nodes, i, ChildTest::Named);
    let mut found: Option<usize> = None;
    let mut k: usize = 0;
    while k < cs.len()
        invariant
            t == node_tuples(nodes@),
            i < nodes.len(),
            k <= cs.len(),
            indices(cs@) == children(t, i as int, ChildTestView::Named),
            forall|m: int| 0 <= m < cs.len() ==> i < #[trigger] cs@[m] < nodes.len(),
            first_start(t, i as int, ks) == opt_min(index_opt(found), first_start_in(t, i as int, indices(cs@), k as int, ks)),
        decreases cs.len() - k,
    {
        let c = cs[k];
        assert(indices(cs@)[k as int] == c as int);
        proof {
            assert(t[c as int] == node_tuple(nodes@[c as int]));
        }
        let here = if in_set_exec(ks, &nodes[c]) {
            Some(nodes[c].start_byte)
        } else {
            first_start_exec(nodes, c, ks)
        };
        found = opt_min_exec(found, here);
        k += 1;
    }
    found
}

/// Where the body of a callable declaration starts: its `body` field, else
/// the body of a function value it binds, else the first body boundary below
/// it (constructor initializer lists count for constructors).
pub open spec fn body_start(t: Seq<NodeTuple>, d: int, kind: FactNodeKind) -> Option<int> {
    match field_of(t, d, "body"@) {
        Some(b) => Some(t[b].2 as int),
        None => {
            let bound = match or_else(field_of(t, d, "value"@), field_of(t, d, "initializer"@)) {
                Some(v) => if 0 <= v < t.len() && in_set(KindSet::CallableInitializers, t[v].0) {
                    match field_of(t, v, "body"@) {
                        Some(b) => Some(t[b].2 as int),
                        None => None,
                    }
                } else {
                    None
                },
                None => None,
            };
            if bound is Some {
                bound
            } else {
                first_start(
                    t,
                    d,
                    if kind == FactNodeKind::Constructor {
                        KindSet::ConstructorBoundaries
                    } else {
                        KindSet::BodyBoundaries
                    },
                )
            }
        },
    }
}

fn body_start_exec(nodes: &[SyntaxNode], d: usize, kind: FactNodeKind) -> (r: Option<usize>)
    requires
        d < nodes.len(),
    ensures
        index_opt(r) == body_start(node_tuples(nodes@), d as int, kind),
{
    let ghost t = node_tuples(nodes@);
    match first_child_of(nodes, d, ChildTest::Field("body")) {
        Some(b) => {
            proof {
                assert(t[b as int] == node_tuple(nodes@[b as int]));
            }
            Some(nodes[b].start_byte)
        },
        None => {
            let v = match first_child_of(nodes, d, ChildTest::Field("value")) {
                Some(v) => Some(v),
                None => first_child_of(nodes, d, ChildTest::Field("initializer")),
            };
            let bound = match v {
                Some(v) => {
                    proof {
                        assert(t[v as int] == node_tuple(nodes@[v as int]));
                    }
                    if in_set_exec(KindSet::CallableInitializers, &nodes[v]) {
                        match first_child_of(nodes, v, ChildTest::Field("body")) {
                            Some(b) => {
                                proof {
                                    assert(t[b as int] == node_tuple(nodes@[b as int]));
                                }
                                Some(nodes[b].start_byte)
                            },
                            None => None,
                        }
                    } else {
                        None
                    }
                },
                None => None,
            };
            if bound.is_some() {
                bound
            } else {
                let ks = if kind == FactNodeKind::Constructor {
                    KindSet::ConstructorBoundaries
                } else {
                    KindSet::BodyBoundaries
                };
                first_start_exec(nodes, d, ks)
            }
        },
    }
}

/// The header of a callable declaration `d`: its text from its start up to
/// its body, normalized.
pub open spec fn definition_signature(t: Seq<NodeTuple>, src: Seq<char>, kind: FactNodeKind, d: int) -> Option<Seq<char>> {
    if !is_callable_kind(kind) {
        None
    } else {
        let end = match body_start(t, d, kind) {
            Some(b) => b,
            None => t[d].3 as int,
        };
        match byte_slice(src, t[d].2 as int, end) {
            Some(raw) => spec_callable_signature(kind, raw),
            None => None,
        }
    }
}

fn definition_signature_exec(nodes: &[SyntaxNode], chars: &[char], kind: FactNodeKind, d: usize) -> (r: Option<String>)
    requires
        d < nodes.len(),
    ensures
        match r {
            Some(x) => definition_signature(node_tuples(nodes@), chars@, kind, d as int) == Some(x@),
            None => definition_signature(node_tuples(nodes@), chars@, kind, d as int) is None,
        },
{
    let ghost t = node_tuples(nodes@);
    proof {
        assert(t[d as int] == node_tuple(nodes@[d as int]));
    }
    if !(kind == FactNodeKind::Function || kind == FactNodeKind::Method || kind == FactNodeKind::Constructor) {
        return None;
    }
    let end = match body_start_exec(nodes, d, kind) {
        Some(b) => b,
        None => nodes[d].end_byte,
    };
    match byte_slice_chars(chars, nodes[d].start_byte, end) {
        Some(raw) => {
            let text = string_of(raw.as_slice());
            callable_signature(kind, text.as_str())
        },
        None => None,
    }
}

/// A name made of word characters that starts with `_` or a letter.
pub open spec fn is_definition_name(v: Seq<char>) -> bool {
    &&& v.len() > 0
    &&& (v[0] == '_' || unicode_alphabetic(v[0]))
    &&& forall|k: int| 1 <= k < v.len() ==> (#[trigger] v[k] == '_' || unicode_alphanumeric(v[k]))
}

fn is_definition_name_exec(v: &[char]) -> (r: bool)
    ensures
        r == is_definition_name(v@),
{
    if v.len() == 0 {
        return false;
    }
    if !(v[0] == '_' || char_is_alphabetic(v[0])) {
        return false;
    }
    let mut k: usize = 1;
    while k < v.len()
        invariant
            1 <= k <= v.len(),
            forall|m: int| 1 <= m < k ==> (#[trigger] v@[m] == '_' || unicode_alphanumeric(v@[m])),
        decreases v.len() - k,
    {
        if !(v[k] == '_' || char_is_alphanumeric(v[k])) {
            return false;
        }
        k += 1;
    }
    true
}


// ---------------------------------------------------------------------------
// Definitions and their owners
// ---------------------------------------------------------------------------

/// A definition by its plain values: kind, name, name range (UTF-8 and
/// UTF-16 columns), declaration range (likewise), owner's name range
/// (likewise), header and accessibility.
pub type DefinitionView = (
    FactNodeKind,
    Seq<char>,
    Seq<i32>,
    Seq<i32>,
    Seq<i32>,
    Seq<i32>,
    Option<Seq<i32>>,
    Option<Seq<i32>>,
    Option<Seq<char>>,
    Visibility,
);

pub open spec fn opt_i32s(o: Option<Vec<i32>>) -> Option<Seq<i32>> {
    match o {
        Some(v) => Some(v@),
        None => None,
    }
}

pub open spec fn definition_view(d: SyntaxDefinition) -> DefinitionView {
    (
        d.kind,
        d.name@,
        d.name_utf8_range@,
        d.name_utf16_range@,
        d.declaration_utf8_range@,
        d.declaration_utf16_range@,
        opt_i32s(d.parent_name_utf8_range),
        opt_i32s(d.parent_name_utf16_range),
        match d.signature {
            Some(x) => Some(x@),
            None => None,
        },
        d.visibility,
    )
}

pub open spec fn definition_views(v: Seq<SyntaxDefinition>) -> Seq<DefinitionView> {
    v.map_values(|d: SyntaxDefinition| definition_view(d))
}

/// The type that encloses a member: its name, kind, accessibility, the
/// accessibility it gives its members (a trait's own), and its name range.
pub struct SyntaxOwner {
    pub name: String,
    pub kind: FactNodeKind,
    pub visibility: Visibility,
    pub member_visibility: Option<Visibility>,
    pub name_utf8_range: Vec<i32>,
    pub name_utf16_range: Vec<i32>,
}

pub type OwnerView = (Seq<char>, FactNodeKind, Visibility, Option<Visibility>, Seq<i32>, Seq<i32>);

pub open spec fn owner_view(o: SyntaxOwner) -> OwnerView {
    (o.name@, o.kind, o.visibility, o.member_visibility, o.name_utf8_range@, o.name_utf16_range@)
}

pub open spec fn owner_opt(o: Option<SyntaxOwner>) -> Option<OwnerView> {
    match o {
        Some(x) => Some(owner_view(x)),
        None => None,
    }
}

fn copy_i32s(v: &[i32]) -> (r: Vec<i32>)
    ensures
        r@ == v@,
{
    let mut r: Vec<i32> = Vec::new();
    let mut k: usize = 0;
    while k < v.len()
        invariant
            k <= v.len(),
            r@ == v@.take(k as int),
        decreases v.len() - k,
    {
        r.push(v[k]);
        assert(r@ =~= v@.take(k + 1));
        k += 1;
    }
    assert(v@.take(v.len() as int) =~= v@);
    r
}

fn copy_owner(o: &SyntaxOwner) -> (r: SyntaxOwner)
    ensures
        owner_view(r) == owner_view(*o),
{
    SyntaxOwner {
        name: crate::text::owned(o.name.as_str()),
        kind: o.kind,
        visibility: o.visibility,
        member_visibility: o.member_visibility,
        name_utf8_range: copy_i32s(o.name_utf8_range.as_slice()),
        name_utf16_range: copy_i32s(o.name_utf16_range.as_slice()),
    }
}

fn copy_owner_opt(o: &Option<SyntaxOwner>) -> (r: Option<SyntaxOwner>)
    ensures
        owner_opt(r) == owner_opt(*o),
{
    match o {
        Some(x) => Some(copy_owner(x)),
        None => None,
    }
}

/// The kinds of definition that own members.
pub open spec fn is_type_owner_kind(kind: FactNodeKind) -> bool {
    kind == FactNodeKind::Type || kind == FactNodeKind::Class || kind == FactNodeKind::Interface || kind
        == FactNodeKind::Trait || kind == FactNodeKind::Struct || kind == FactNodeKind::Enum
}

pub open spec fn trait_members(kind: FactNodeKind, vis: Visibility) -> Option<Visibility> {
    if kind == FactNodeKind::Trait {
        Some(vis)
    } else {
        None
    }
}

/// The owner a type declaration named by `n` becomes.
pub open spec fn owner_from(t: Seq<NodeTuple>, src: Seq<char>, n: int, kind: FactNodeKind, vis: Visibility) -> OwnerView {
    (node_text(src, t[n]), kind, vis, trait_members(kind, vis), node_range(t[n]), spec_node_utf16_range(src, t[n]))
}

/// The accessibility of declaration `d` named by `n` under its language's
/// rules, from the syntax around it.
pub open spec fn definition_visibility_at(
    l: Seq<char>,
    t: Seq<NodeTuple>,
    src: Seq<char>,
    d: int,
    n: int,
    name: Seq<char>,
    parent: Option<OwnerView>,
) -> Visibility {
    spec_definition_visibility(
        l,
        text_between(src, t[d].2 as int, t[n].2 as int),
        name,
        match parent {
            Some(o) => Some(o.1),
            None => None,
        },
        match parent {
            Some(o) => Some(o.2),
            None => None,
        },
        match parent {
            Some(o) => o.3,
            None => None,
        },
        exported_above(t, src, d),
        if l == "cpp"@ {
            labels_above(t, src, d)
        } else {
            None
        },
        if l == "cpp"@ {
            anonymous_namespace_above(t, src, d)
        } else {
            false
        },
    )
}

/// Adds the definition of kind `kind` that declaration `d` makes under the
/// name node `n`, when the name is a proper name; the second part is its
/// accessibility, `None` when nothing was added.
pub open spec fn push_definition(
    l: Seq<char>,
    t: Seq<NodeTuple>,
    src: Seq<char>,
    defs: Seq<DefinitionView>,
    kind: FactNodeKind,
    n: int,
    d: int,
    parent: Option<OwnerView>,
) -> (Seq<DefinitionView>, Option<Visibility>) {
    let text = trim_ws(node_text(src, t[n]));
    if !is_definition_name(text) {
        (defs, None)
    } else {
        let vis = definition_visibility_at(l, t, src, d, n, text, parent);
        (
            defs.push(
                (
                    kind,
                    text,
                    node_range(t[n]),
                    spec_node_utf16_range(src, t[n]),
                    node_range(t[d]),
                    spec_node_utf16_range(src, t[d]),
                    match parent {
                        Some(o) => Some(o.4),
                        None => None,
                    },
                    match parent {
                        Some(o) => Some(o.5),
                        None => None,
                    },
                    definition_signature(t, src, kind, d),
                    vis,
                ),
            ),
            Some(vis),
        )
    }
}

/// The walk's view of the syntax tree: its nodes in pre-order, each node's
/// parent, the language, and the source as text and as characters.
pub struct TreeInput<'a> {
    pub language: &'a str,
    pub nodes: &'a [SyntaxNode],
    pub parents: &'a [usize],
    pub source: &'a str,
    pub chars: &'a [char],
}

pub open spec fn input_ok(x: TreeInput) -> bool {
    &&& parents_ok(node_tuples(x.nodes@), x.parents@)
    &&& x.chars@ == x.source@
}

fn strs_of(v: &Vec<String>) -> (r: Vec<&str>)
    ensures
        crate::census::views_of(r@) == crate::text::string_views(v@),
{
    let mut r: Vec<&str> = Vec::new();
    let mut k: usize = 0;
    while k < v.len()
        invariant
            k <= v.len(),
            crate::census::views_of(r@) == crate::text::string_views(v@).take(k as int),
        decreases v.len() - k,
    {
        let ghost before = crate::census::views_of(r@);
        r.push(v[k].as_str());
        assert(crate::census::views_of(r@) =~= before.push(v@[k as int]@));
        assert(crate::text::string_views(v@).take(k + 1) =~= crate::text::string_views(v@).take(k as int).push(
            v@[k as int]@,
        ));
        k += 1;
    }
    assert(crate::text::string_views(v@).take(v.len() as int) =~= crate::text::string_views(v@));
    r
}

fn push_definition_exec(
    x: &TreeInput,
    defs: &mut Vec<SyntaxDefinition>,
    kind: FactNodeKind,
    n: usize,
    d: usize,
    parent: &Option<SyntaxOwner>,
) -> (r: Option<Visibility>)
    requires
        input_ok(*x),
        n < x.nodes.len(),
        d < x.nodes.len(),
    ensures
        (definition_views(final(defs)@), r) == push_definition(
            x.language@,
            node_tuples(x.nodes@),
            x.chars@,
            definition_views(old(defs)@),
            kind,
            n as int,
            d as int,
            owner_opt(*parent),
        ),
{
    let ghost t = node_tuples(x.nodes@);
    let nodes = x.nodes;
    let chars = x.chars;
    proof {
        assert(t[n as int] == node_tuple(nodes@[n as int]));
        assert(t[d as int] == node_tuple(nodes@[d as int]));
    }
    let text = trimmed_text_of(chars, &nodes[n]);
    if !is_definition_name_exec(text.as_slice()) {
        return None;
    }
    let name = string_of(text.as_slice());
    let prefix_chars = crate::sql_inventory::text_of_range(chars, nodes[d].start_byte, nodes[n].start_byte);
    let prefix = string_of(prefix_chars.as_slice());
    let exported = exported_above_exec(nodes, x.parents, chars, d);
    let cpp = str_eq(x.language, "cpp");
    let labels = if cpp {
        labels_above_exec(nodes, x.parents, chars, d)
    } else {
        None
    };
    let anonymous = if cpp {
        anonymous_namespace_above_exec(nodes, x.parents, chars, d)
    } else {
        false
    };
    let (owner_kind, owner_visibility, owner_members, parent8, parent16) = match parent {
        Some(o) => (
            Some(o.kind),
            Some(o.visibility),
            o.member_visibility,
            Some(copy_i32s(o.name_utf8_range.as_slice())),
            Some(copy_i32s(o.name_utf16_range.as_slice())),
        ),
        None => (None, None, None, None, None),
    };
    let vis = match &labels {
        Some(v) => {
            let refs = strs_of(v);
            let context = DeclarationContext {
                explicitly_exported: exported,
                cpp_member_labels: Some(refs.as_slice()),
                inside_anonymous_namespace: anonymous,
            };
            definition_visibility(
                x.language,
                prefix.as_str(),
                name.as_str(),
                owner_kind,
                owner_visibility,
                owner_members,
                &context,
            )
        },
        None => {
            let context = DeclarationContext {
                explicitly_exported: exported,
                cpp_member_labels: None,
                inside_anonymous_namespace: anonymous,
            };
            definition_visibility(
                x.language,
                prefix.as_str(),
                name.as_str(),
                owner_kind,
                owner_visibility,
                owner_members,
                &context,
            )
        },
    };
    let signature = definition_signature_exec(nodes, chars, kind, d);
    let ghost before = definition_views(defs@);
    defs.push(
        SyntaxDefinition {
            kind,
            name,
            name_utf8_range: node_utf8_range(&nodes[n]),
            name_utf16_range: node_utf16_range(x.source, &nodes[n]),
            declaration_utf8_range: node_utf8_range(&nodes[d]),
            declaration_utf16_range: node_utf16_range(x.source, &nodes[d]),
            parent_name_utf8_range: parent8,
            parent_name_utf16_range: parent16,
            signature,
            visibility: vis,
        },
    );
    assert(definition_views(defs@) =~= before.push(definition_view(defs@.last())));
    Some(vis)
}


/// The positions in `defs[..n]` of type definitions named `name`.
pub open spec fn owner_hits(defs: Seq<DefinitionView>, name: Seq<char>, n: int) -> Seq<int>
    decreases n,
{
    if n <= 0 || n > defs.len() {
        Seq::empty()
    } else {
        owner_hits(defs, name, n - 1) + if defs[n - 1].1 == name && is_type_owner_kind(defs[n - 1].0) {
            seq![n - 1]
        } else {
            Seq::empty()
        }
    }
}

pub open spec fn owner_of_definition(d: DefinitionView) -> OwnerView {
    (d.1, d.0, d.9, trait_members(d.0, d.9), d.2, d.3)
}

/// The owner named `name`: the one type definition so named, if exactly one.
pub open spec fn owner_for_name(defs: Seq<DefinitionView>, name: Seq<char>) -> Option<OwnerView> {
    let h = owner_hits(defs, name, defs.len() as int);
    if h.len() == 1 {
        Some(owner_of_definition(defs[h[0]]))
    } else {
        None
    }
}

fn owner_for_name_exec(defs: &Vec<SyntaxDefinition>, name: &[char]) -> (r: Option<SyntaxOwner>)
    ensures
        owner_opt(r) == owner_for_name(definition_views(defs@), name@),
{
    let ghost v = definition_views(defs@);
    let mut first: usize = 0;
    let mut count: usize = 0;
    let mut k: usize = 0;
    while k < defs.len()
        invariant
            v == definition_views(defs@),
            k <= defs.len(),
            count <= 2,
            count as int == (if owner_hits(v, name@, k as int).len() >= 2 {
                2
            } else {
                owner_hits(v, name@, k as int).len() as int
            }),
            count >= 1 ==> first < k && owner_hits(v, name@, k as int)[0] == first as int,
        decreases defs.len() - k,
    {
        let d = &defs[k];
        assert(v[k as int] == definition_view(defs@[k as int]));
        let name_matches = crate::text::chars_eq_str(name, d.name.as_str());
        let owner_kind = d.kind == FactNodeKind::Type || d.kind == FactNodeKind::Class || d.kind
            == FactNodeKind::Interface || d.kind == FactNodeKind::Trait || d.kind == FactNodeKind::Struct || d.kind
            == FactNodeKind::Enum;
        proof {
            assert(owner_hits(v, name@, k + 1) == owner_hits(v, name@, k as int) + if v[k as int].1 == name@
                && is_type_owner_kind(v[k as int].0) {
                seq![k as int]
            } else {
                Seq::<int>::empty()
            });
        }
        if name_matches && owner_kind {
            if count == 0 {
                first = k;
            }
            if count < 2 {
                count += 1;
            }
        }
        k += 1;
    }
    assert(v.len() == defs.len());
    if count == 1 {
        let d = &defs[first];
        assert(v[first as int] == definition_view(defs@[first as int]));
        Some(
            SyntaxOwner {
                name: crate::text::owned(d.name.as_str()),
                kind: d.kind,
                visibility: d.visibility,
                member_visibility: if d.kind == FactNodeKind::Trait {
                    Some(d.visibility)
                } else {
                    None
                },
                name_utf8_range: copy_i32s(d.name_utf8_range.as_slice()),
                name_utf16_range: copy_i32s(d.name_utf16_range.as_slice()),
            },
        )
    } else {
        None
    }
}

/// The owner of a Go method: the one type named by its receiver.
pub open spec fn receiver_owner(t: Seq<NodeTuple>, src: Seq<char>, i: int, defs: Seq<DefinitionView>) -> Option<
    OwnerView,
> {
    match field_of(t, i, "receiver"@) {
        Some(r) => match first_of_kind(t, r, KindSet::TypeIdentifier) {
            Some(n) => owner_for_name(defs, node_text(src, t[n])),
            None => None,
        },
        None => None,
    }
}

/// The owner of a Rust `impl` block: the one type it implements, its
/// members taking the accessibility of the implemented trait when that is a
/// trait of this file.
pub open spec fn impl_owner(t: Seq<NodeTuple>, src: Seq<char>, i: int, defs: Seq<DefinitionView>) -> Option<OwnerView> {
    match field_of(t, i, "type"@) {
        Some(ty) => match first_of_kind(t, ty, KindSet::TypeIdentifier) {
            Some(n) => match owner_for_name(defs, node_text(src, t[n])) {
                Some(o) => {
                    let tr = match field_of(t, i, "trait"@) {
                        Some(tn) => match first_of_kind(t, tn, KindSet::TypeIdentifier) {
                            Some(m) => match owner_for_name(defs, node_text(src, t[m])) {
                                Some(x) => if x.1 == FactNodeKind::Trait {
                                    Some(x)
                                } else {
                                    None
                                },
                                None => None,
                            },
                            None => None,
                        },
                        None => None,
                    };
                    match tr {
                        Some(x) => Some((o.0, o.1, o.2, Some(x.2), o.4, o.5)),
                        None => Some(o),
                    }
                },
                None => None,
            },
            None => None,
        },
        None => None,
    }
}

fn owner_named_by(x: &TreeInput, defs: &Vec<SyntaxDefinition>, field: Option<usize>) -> (r: Option<SyntaxOwner>)
    requires
        input_ok(*x),
        field matches Some(f) ==> f < x.nodes.len(),
    ensures
        owner_opt(r) == match index_opt(field) {
            Some(f) => match first_of_kind(node_tuples(x.nodes@), f, KindSet::TypeIdentifier) {
                Some(n) => owner_for_name(definition_views(defs@), node_text(x.chars@, node_tuples(x.nodes@)[n])),
                None => None,
            },
            None => None,
        },
{
    let ghost t = node_tuples(x.nodes@);
    match field {
        Some(f) => match first_of_kind_exec(x.nodes, f, KindSet::TypeIdentifier) {
            Some(n) => {
                proof {
                    assert(t[n as int] == node_tuple(x.nodes@[n as int]));
                }
                let text = node_text_of(x.chars, &x.nodes[n]);
                owner_for_name_exec(defs, text.as_slice())
            },
            None => None,
        },
        None => None,
    }
}

fn receiver_owner_exec(x: &TreeInput, i: usize, defs: &Vec<SyntaxDefinition>) -> (r: Option<SyntaxOwner>)
    requires
        input_ok(*x),
        i < x.nodes.len(),
    ensures
        owner_opt(r) == receiver_owner(node_tuples(x.nodes@), x.chars@, i as int, definition_views(defs@)),
{
    owner_named_by(x, defs, first_child_of(x.nodes, i, ChildTest::Field("receiver")))
}

fn impl_owner_exec(x: &TreeInput, i: usize, defs: &Vec<SyntaxDefinition>) -> (r: Option<SyntaxOwner>)
    requires
        input_ok(*x),
        i < x.nodes.len(),
    ensures
        owner_opt(r) == impl_owner(node_tuples(x.nodes@), x.chars@, i as int, definition_views(defs@)),
{
    match owner_named_by(x, defs, first_child_of(x.nodes, i, ChildTest::Field("type"))) {
        Some(o) => {
            let tr = owner_named_by(x, defs, first_child_of(x.nodes, i, ChildTest::Field("trait")));
            match tr {
                Some(tr) => {
                    if tr.kind == FactNodeKind::Trait {
                        Some(
                            SyntaxOwner {
                                name: o.name,
                                kind: o.kind,
                                visibility: o.visibility,
                                member_visibility: Some(tr.visibility),
                                name_utf8_range: o.name_utf8_range,
                                name_utf16_range: o.name_utf16_range,
                            },
                        )
                    } else {
                        Some(o)
                    }
                },
                None => Some(o),
            }
        },
        None => None,
    }
}


// ---------------------------------------------------------------------------
// The walk
// ---------------------------------------------------------------------------

/// The type node `i` declares outside executable bodies, and its name node.
pub open spec fn type_definition(l: Seq<char>, t: Seq<NodeTuple>, src: Seq<char>, i: int, inside: bool) -> Option<
    (FactNodeKind, int),
> {
    if inside {
        None
    } else {
        match type_kind(l, t, i) {
            Some(k) => match definition_name(l, t, src, i) {
                Some(n) => Some((k, n)),
                None => None,
            },
            None => None,
        }
    }
}

/// Whether a callable named `text` with an owner is a constructor by name.
pub open spec fn constructor_by_name(l: Seq<char>, text: Seq<char>, owner: OwnerView) -> bool {
    ((l == "typescript"@ || l == "javascript"@) && text == "constructor"@) || (l == "python"@ && text
        == "__init__"@) || (l == "cpp"@ && owner.0 == text)
}

/// The callable node `i` declares outside executable bodies, and its name
/// node; an owned callable named as a constructor is one.
pub open spec fn callable_definition(
    l: Seq<char>,
    t: Seq<NodeTuple>,
    src: Seq<char>,
    i: int,
    owner: Option<OwnerView>,
    inside: bool,
) -> Option<(FactNodeKind, int)> {
    if inside {
        None
    } else {
        match callable_kind(l, t, i, owner is Some) {
            Some(k) => match definition_name(l, t, src, i) {
                Some(n) => {
                    let ctor = match owner {
                        Some(o) => constructor_by_name(l, node_text(src, t[n]), o),
                        None => false,
                    };
                    Some((
                        if ctor {
                            FactNodeKind::Constructor
                        } else {
                            k
                        },
                        n,
                    ))
                },
                None => None,
            },
            None => None,
        }
    }
}

/// The field names node `i` declares as a member.
pub open spec fn field_nodes(l: Seq<char>, t: Seq<NodeTuple>, src: Seq<char>, i: int) -> Seq<int> {
    let k = t[i].0;
    let listed = (l == "typescript"@ && (k == "public_field_definition"@ || k == "property_signature"@)) || (l
        == "javascript"@ && k == "field_definition"@) || (l == "java"@ && k == "field_declaration"@) || (l
        == "csharp"@ && (k == "field_declaration"@ || k == "property_declaration"@)) || ((l == "go"@ || l
        == "rust"@) && k == "field_declaration"@);
    if listed || (is_c_family(l) && k == "field_declaration"@ && first_of_kind(t, i, KindSet::FunctionDeclarator)
        is None) {
        field_names(l, t, i)
    } else if l == "python"@ && k == "assignment"@ && direct_class_assignment(t, i) {
        match field_of(t, i, "left"@) {
            Some(n) => if 0 <= n < t.len() && t[n].0 == "identifier"@ {
                seq![n]
            } else {
                Seq::empty()
            },
            None => Seq::empty(),
        }
    } else if l == "dart"@ && (k == "initialized_identifier"@ || k == "static_final_declaration"@)
        && dart_class_member(t, i) {
        opt_seq(or_else(field_of(t, i, "name"@), first_named_of_kind(t, i, KindSet::Identifier)))
    } else if l == "typescript"@ && (k == "required_parameter"@ || k == "optional_parameter"@)
        && is_parameter_property(src, t[i]) {
        opt_seq(parameter_name(t, i))
    } else {
        Seq::empty()
    }
}

/// Adds a field for each of the names `ns[k..]` of declaration `d`.
pub open spec fn push_fields(
    l: Seq<char>,
    t: Seq<NodeTuple>,
    src: Seq<char>,
    defs: Seq<DefinitionView>,
    ns: Seq<int>,
    k: int,
    d: int,
    owner: Option<OwnerView>,
) -> Seq<DefinitionView>
    decreases ns.len() - k,
{
    if k < 0 || k >= ns.len() {
        defs
    } else {
        push_fields(l, t, src, push_definition(l, t, src, defs, FactNodeKind::Field, ns[k], d, owner).0, ns, k + 1, d, owner)
    }
}

/// The fields node `i` adds for its owner, outside executable bodies.
pub open spec fn collect_fields(
    l: Seq<char>,
    t: Seq<NodeTuple>,
    src: Seq<char>,
    i: int,
    owner: Option<OwnerView>,
    inside: bool,
    defs: Seq<DefinitionView>,
) -> Seq<DefinitionView> {
    if inside || has_callable_initializer(t, i) || owner is None {
        defs
    } else {
        push_fields(l, t, src, defs, field_nodes(l, t, src, i), 0, i, owner)
    }
}

pub open spec fn or_owner(a: Option<OwnerView>, b: Option<OwnerView>) -> Option<OwnerView> {
    if a is Some {
        a
    } else {
        b
    }
}

/// What node `i` adds, given its owner and whether it lies in an executable
/// body; the second part is the owner of its children.
pub open spec fn visit_node(
    l: Seq<char>,
    t: Seq<NodeTuple>,
    src: Seq<char>,
    i: int,
    owner: Option<OwnerView>,
    inside: bool,
    defs: Seq<DefinitionView>,
) -> (Seq<DefinitionView>, Option<OwnerView>) {
    let inherited = if l == "rust"@ && t[i].0 == "impl_item"@ {
        or_owner(impl_owner(t, src, i, defs), owner)
    } else {
        owner
    };
    let (d1, child_owner) = match type_definition(l, t, src, i, inside) {
        Some((k, n)) => {
            let (d, vis) = push_definition(l, t, src, defs, k, n, i, inherited);
            (
                d,
                match vis {
                    Some(v) => if is_type_owner_kind(k) {
                        Some(owner_from(t, src, n, k, v))
                    } else {
                        inherited
                    },
                    None => inherited,
                },
            )
        },
        None => (defs, inherited),
    };
    let callable_owner = if l == "go"@ && t[i].0 == "method_declaration"@ {
        or_owner(receiver_owner(t, src, i, d1), child_owner)
    } else {
        child_owner
    };
    let d2 = match callable_definition(l, t, src, i, callable_owner, inside) {
        Some((k, n)) => push_definition(l, t, src, d1, k, n, i, callable_owner).0,
        None => d1,
    };
    (collect_fields(l, t, src, i, child_owner, inside, d2), child_owner)
}

/// The definitions after visiting `i` and, in order, the subtrees of its
/// named children.
pub open spec fn visit(
    l: Seq<char>,
    t: Seq<NodeTuple>,
    src: Seq<char>,
    i: int,
    owner: Option<OwnerView>,
    inside: bool,
    defs: Seq<DefinitionView>,
) -> Seq<DefinitionView>
    decreases t.len() - i, 1int, 0int,
{
    if i < 0 || i >= t.len() {
        defs
    } else {
        let (d, child_owner) = visit_node(l, t, src, i, owner, inside, defs);
        visit_children(
            l,
            t,
            src,
            i,
            children(t, i, ChildTestView::Named),
            0,
            child_owner,
            inside || is_executable_body(l, t, i),
            d,
        )
    }
}

pub open spec fn visit_children(
    l: Seq<char>,
    t: Seq<NodeTuple>,
    src: Seq<char>,
    i: int,
    cs: Seq<int>,
    k: int,
    owner: Option<OwnerView>,
    inside: bool,
    defs: Seq<DefinitionView>,
) -> Seq<DefinitionView>
    decreases t.len() - i, 0int, cs.len() - k,
{
    if k < 0 || k >= cs.len() {
        defs
    } else if i < cs[k] < t.len() {
        visit_children(l, t, src, i, cs, k + 1, owner, inside, visit(l, t, src, cs[k], owner, inside, defs))
    } else {
        visit_children(l, t, src, i, cs, k + 1, owner, inside, defs)
    }
}


fn type_definition_exec(x: &TreeInput, i: usize, inside: bool) -> (r: Option<(FactNodeKind, usize)>)
    requires
        i < x.nodes.len(),
    ensures
        match r {
            Some((k, n)) => n < x.nodes.len() && type_definition(x.language@, node_tuples(x.nodes@), x.chars@, i as int, inside)
                == Some((k, n as int)),
            None => type_definition(x.language@, node_tuples(x.nodes@), x.chars@, i as int, inside) is None,
        },
{
    if inside {
        return None;
    }
    match type_kind_exec(x.language, x.nodes, i) {
        Some(k) => match definition_name_exec(x.language, x.nodes, x.chars, i) {
            Some(n) => Some((k, n)),
            None => None,
        },
        None => None,
    }
}

fn callable_definition_exec(x: &TreeInput, i: usize, owner: &Option<SyntaxOwner>, inside: bool) -> (r: Option<
    (FactNodeKind, usize),
>)
    requires
        i < x.nodes.len(),
    ensures
        match r {
            Some((k, n)) => n < x.nodes.len() && callable_definition(
                x.language@,
                node_tuples(x.nodes@),
                x.chars@,
                i as int,
                owner_opt(*owner),
                inside,
            ) == Some((k, n as int)),
            None => callable_definition(x.language@, node_tuples(x.nodes@), x.chars@, i as int, owner_opt(*owner), inside)
                is None,
        },
{
    let ghost t = node_tuples(x.nodes@);
    if inside {
        return None;
    }
    match callable_kind_exec(x.language, x.nodes, i, owner.is_some()) {
        Some(k) => match definition_name_exec(x.language, x.nodes, x.chars, i) {
            Some(n) => {
                proof {
                    assert(t[n as int] == node_tuple(x.nodes@[n as int]));
                }
                let ctor = match owner {
                    Some(o) => {
                        let text = node_text_of(x.chars, &x.nodes[n]);
                        let l = x.language;
                        ((str_eq(l, "typescript") || str_eq(l, "javascript")) && crate::text::chars_eq_str(
                            text.as_slice(),
                            "constructor",
                        )) || (str_eq(l, "python") && crate::text::chars_eq_str(text.as_slice(), "__init__")) || (
                        str_eq(l, "cpp") && crate::text::chars_eq_str(text.as_slice(), o.name.as_str()))
                    },
                    None => false,
                };
                Some(
                    (
                        if ctor {
                            FactNodeKind::Constructor
                        } else {
                            k
                        },
                        n,
                    ),
                )
            },
            None => None,
        },
        None => None,
    }
}

fn field_nodes_exec(x: &TreeInput, i: usize) -> (r: Vec<usize>)
    requires
        input_ok(*x),
        i < x.nodes.len(),
    ensures
        indices(r@) == field_nodes(x.language@, node_tuples(x.nodes@), x.chars@, i as int),
        forall|m: int| 0 <= m < r.len() ==> #[trigger] r@[m] < x.nodes.len(),
{
    let ghost t = node_tuples(x.nodes@);
    let nodes = x.nodes;
    let l = x.language;
    proof {
        assert(t[i as int] == node_tuple(nodes@[i as int]));
    }
    let n = &nodes[i];
    let listed = (str_eq(l, "typescript") && (kind_is(n, "public_field_definition") || kind_is(n, "property_signature")))
        || (str_eq(l, "javascript") && kind_is(n, "field_definition")) || (str_eq(l, "java") && kind_is(
        n,
        "field_declaration",
    )) || (str_eq(l, "csharp") && (kind_is(n, "field_declaration") || kind_is(n, "property_declaration"))) || ((str_eq(
        l,
        "go",
    ) || str_eq(l, "rust")) && kind_is(n, "field_declaration"));
    if listed || ((str_eq(l, "c") || str_eq(l, "cpp")) && kind_is(n, "field_declaration") && first_of_kind_exec(
        nodes,
        i,
        KindSet::FunctionDeclarator,
    ).is_none()) {
        field_names_exec(l, nodes, i)
    } else if str_eq(l, "python") && kind_is(n, "assignment") && direct_class_assignment_exec(nodes, x.parents, i) {
        let mut out: Vec<usize> = Vec::new();
        match first_child_of(nodes, i, ChildTest::Field("left")) {
            Some(m) => {
                proof {
                    assert(t[m as int] == node_tuple(nodes@[m as int]));
                }
                if kind_is(&nodes[m], "identifier") {
                    out.push(m);
                }
            },
            None => {},
        }
        assert(indices(out@) =~= field_nodes(l@, t, x.chars@, i as int));
        out
    } else if str_eq(l, "dart") && (kind_is(n, "initialized_identifier") || kind_is(n, "static_final_declaration"))
        && dart_class_member_exec(nodes, x.parents, i) {
        let mut out: Vec<usize> = Vec::new();
        let a = first_child_of(nodes, i, ChildTest::Field("name"));
        let name = if a.is_some() {
            a
        } else {
            first_named_of_kind_exec(nodes, i, KindSet::Identifier)
        };
        push_opt(&mut out, name);
        assert(indices(out@) =~= field_nodes(l@, t, x.chars@, i as int));
        out
    } else if str_eq(l, "typescript") && (kind_is(n, "required_parameter") || kind_is(n, "optional_parameter"))
        && parameter_property_exec(x.chars, n) {
        let mut out: Vec<usize> = Vec::new();
        let a = match first_child_of(nodes, i, ChildTest::Field("pattern")) {
            Some(c) => Some(c),
            None => first_child_of(nodes, i, ChildTest::Field("name")),
        };
        let leaf = match a {
            Some(c) => identifier_leaf_exec(nodes, c),
            None => None,
        };
        let name = if leaf.is_some() {
            leaf
        } else {
            first_of_kind_exec(nodes, i, KindSet::Identifier)
        };
        push_opt(&mut out, name);
        assert(indices(out@) =~= field_nodes(l@, t, x.chars@, i as int));
        out
    } else {
        let out: Vec<usize> = Vec::new();
        assert(indices(out@) =~= field_nodes(l@, t, x.chars@, i as int));
        out
    }
}

fn collect_fields_exec(x: &TreeInput, i: usize, owner: &Option<SyntaxOwner>, inside: bool, defs: &mut Vec<SyntaxDefinition>)
    requires
        input_ok(*x),
        i < x.nodes.len(),
    ensures
        definition_views(final(defs)@) == collect_fields(
            x.language@,
            node_tuples(x.nodes@),
            x.chars@,
            i as int,
            owner_opt(*owner),
            inside,
            definition_views(old(defs)@),
        ),
{
    let ghost t = node_tuples(x.nodes@);
    if inside || has_callable_initializer_exec(x.nodes, i) || owner.is_none() {
        return;
    }
    let ns = field_nodes_exec(x, i);
    let ghost start = definition_views(defs@);
    let mut k: usize = 0;
    while k < ns.len()
        invariant
            input_ok(*x),
            t == node_tuples(x.nodes@),
            i < x.nodes.len(),
            k <= ns.len(),
            forall|m: int| 0 <= m < ns.len() ==> #[trigger] ns@[m] < x.nodes.len(),
            push_fields(x.language@, t, x.chars@, start, indices(ns@), 0, i as int, owner_opt(*owner)) == push_fields(
                x.language@,
                t,
                x.chars@,
                definition_views(defs@),
                indices(ns@),
                k as int,
                i as int,
                owner_opt(*owner),
            ),
        decreases ns.len() - k,
    {
        let f = ns[k];
        assert(indices(ns@)[k as int] == f as int);
        push_definition_exec(x, defs, FactNodeKind::Field, f, i, owner);
        k += 1;
    }
}


fn owner_from_exec(x: &TreeInput, n: usize, kind: FactNodeKind, vis: Visibility) -> (r: SyntaxOwner)
    requires
        input_ok(*x),
        n < x.nodes.len(),
    ensures
        owner_view(r) == owner_from(node_tuples(x.nodes@), x.chars@, n as int, kind, vis),
{
    let ghost t = node_tuples(x.nodes@);
    proof {
        assert(t[n as int] == node_tuple(x.nodes@[n as int]));
    }
    let text = node_text_of(x.chars, &x.nodes[n]);
    SyntaxOwner {
        name: string_of(text.as_slice()),
        kind,
        visibility: vis,
        member_visibility: if kind == FactNodeKind::Trait {
            Some(vis)
        } else {
            None
        },
        name_utf8_range: node_utf8_range(&x.nodes[n]),
        name_utf16_range: node_utf16_range(x.source, &x.nodes[n]),
    }
}

fn visit_exec(x: &TreeInput, i: usize, owner: &Option<SyntaxOwner>, inside: bool, defs: &mut Vec<SyntaxDefinition>)
    requires
        input_ok(*x),
        i < x.nodes.len(),
    ensures
        definition_views(final(defs)@) == visit(
            x.language@,
            node_tuples(x.nodes@),
            x.chars@,
            i as int,
            owner_opt(*owner),
            inside,
            definition_views(old(defs)@),
        ),
    decreases x.nodes.len() - i,
{
    let ghost t = node_tuples(x.nodes@);
    let ghost l = x.language@;
    let ghost src = x.chars@;
    let ghost d0 = definition_views(defs@);
    let nodes = x.nodes;
    proof {
        assert(t[i as int] == node_tuple(nodes@[i as int]));
    }
    let rust_impl = str_eq(x.language, "rust") && kind_is(&nodes[i], "impl_item");
    let impl_o = if rust_impl {
        impl_owner_exec(x, i, defs)
    } else {
        None
    };
    let inherited: Option<SyntaxOwner> = if impl_o.is_some() {
        impl_o
    } else {
        copy_owner_opt(owner)
    };
    assert(owner_opt(inherited) == if l == "rust"@ && t[i as int].0 == "impl_item"@ {
        or_owner(impl_owner(t, src, i as int, d0), owner_opt(*owner))
    } else {
        owner_opt(*owner)
    });
    let child_owner: Option<SyntaxOwner> = match type_definition_exec(x, i, inside) {
        Some((k, n)) => {
            let vis = push_definition_exec(x, defs, k, n, i, &inherited);
            match vis {
                Some(v) => if k == FactNodeKind::Type || k == FactNodeKind::Class || k == FactNodeKind::Interface || k
                    == FactNodeKind::Trait || k == FactNodeKind::Struct || k == FactNodeKind::Enum {
                    Some(owner_from_exec(x, n, k, v))
                } else {
                    inherited
                },
                None => inherited,
            }
        },
        None => inherited,
    };
    let ghost d1 = definition_views(defs@);
    let go_method = str_eq(x.language, "go") && kind_is(&nodes[i], "method_declaration");
    let go_o = if go_method {
        receiver_owner_exec(x, i, defs)
    } else {
        None
    };
    let callable_owner: Option<SyntaxOwner> = if go_o.is_some() {
        go_o
    } else {
        copy_owner_opt(&child_owner)
    };
    match callable_definition_exec(x, i, &callable_owner, inside) {
        Some((k, n)) => {
            push_definition_exec(x, defs, k, n, i, &callable_owner);
        },
        None => {},
    }
    collect_fields_exec(x, i, &child_owner, inside, defs);
    let ghost d3 = definition_views(defs@);
    assert(visit_node(l, t, src, i as int, owner_opt(*owner), inside, d0) == (d3, owner_opt(child_owner)));
    let child_inside = inside || is_executable_body_exec(x.language, nodes, x.parents, i);
    let cs = children_of(nodes, i, ChildTest::Named);
    let mut k: usize = 0;
    while k < cs.len()
        invariant
            input_ok(*x),
            t == node_tuples(x.nodes@),
            l == x.language@,
            src == x.chars@,
            i < x.nodes.len(),
            k <= cs.len(),
            indices(cs@) == children(t, i as int, ChildTestView::Named),
            forall|m: int| 0 <= m < cs.len() ==> i < #[trigger] cs@[m] < x.nodes.len(),
            visit(l, t, src, i as int, owner_opt(*owner), inside, d0) == visit_children(
                l,
                t,
                src,
                i as int,
                indices(cs@),
                k as int,
                owner_opt(child_owner),
                child_inside,
                definition_views(defs@),
            ),
        decreases cs.len() - k,
    {
        let c = cs[k];
        assert(indices(cs@)[k as int] == c as int);
        visit_exec(x, c, &child_owner, child_inside, defs);
        k += 1;
    }
}


// ---------------------------------------------------------------------------
// The inventory
// ---------------------------------------------------------------------------

/// The position of a definition kind in the order the inventory lists kinds.
pub open spec fn fact_kind_rank(k: FactNodeKind) -> int {
    match k {
        FactNodeKind::Namespace => 0,
        FactNodeKind::Package => 1,
        FactNodeKind::Type => 2,
        FactNodeKind::Class => 3,
        FactNodeKind::Interface => 4,
        FactNodeKind::Trait => 5,
        FactNodeKind::Struct => 6,
        FactNodeKind::Enum => 7,
        FactNodeKind::TypeAlias => 8,
        FactNodeKind::Function => 9,
        FactNodeKind::Method => 10,
        FactNodeKind::Constructor => 11,
        FactNodeKind::Constant => 12,
        FactNodeKind::Field => 13,
    }
}

fn fact_kind_rank_exec(k: FactNodeKind) -> (r: u8)
    ensures
        r as int == fact_kind_rank(k),
{
    match k {
        FactNodeKind::Namespace => 0,
        FactNodeKind::Package => 1,
        FactNodeKind::Type => 2,
        FactNodeKind::Class => 3,
        FactNodeKind::Interface => 4,
        FactNodeKind::Trait => 5,
        FactNodeKind::Struct => 6,
        FactNodeKind::Enum => 7,
        FactNodeKind::TypeAlias => 8,
        FactNodeKind::Function => 9,
        FactNodeKind::Method => 10,
        FactNodeKind::Constructor => 11,
        FactNodeKind::Constant => 12,
        FactNodeKind::Field => 13,
    }
}

/// Definitions order by name range, kind, name and declaration range.
pub open spec fn definition_before(a: DefinitionView, b: DefinitionView) -> bool {
    if a.2 != b.2 {
        lt_i32s(a.2, b.2)
    } else if a.0 != b.0 {
        fact_kind_rank(a.0) < fact_kind_rank(b.0)
    } else if a.1 != b.1 {
        seq_lt(a.1, b.1)
    } else {
        lt_i32s(a.4, b.4)
    }
}

pub open spec fn definition_lt() -> spec_fn(DefinitionView, DefinitionView) -> bool {
    |a: DefinitionView, b: DefinitionView| definition_before(a, b)
}

/// Two definitions are one when kind, name, name range and declaration
/// range agree.
pub open spec fn definition_same() -> spec_fn(DefinitionView, DefinitionView) -> bool {
    |a: DefinitionView, b: DefinitionView| a.0 == b.0 && a.1 == b.1 && a.2 == b.2 && a.4 == b.4
}

/// The declarations of a parsed source, in order, without repeats; a node
/// list that is not a pre-order listing gives none.
pub open spec fn spec_definitions(l: Seq<char>, src: Seq<char>, t: Seq<NodeTuple>) -> Seq<DefinitionView> {
    if well_shaped(t) {
        dedup_by(sort_by(visit(l, t, src, 0, None, false, Seq::empty()), definition_lt()), definition_same())
    } else {
        Seq::empty()
    }
}

fn copy_opt_i32s(o: &Option<Vec<i32>>) -> (r: Option<Vec<i32>>)
    ensures
        opt_i32s(r) == opt_i32s(*o),
{
    match o {
        Some(v) => Some(copy_i32s(v.as_slice())),
        None => None,
    }
}

fn copy_definition(d: &SyntaxDefinition) -> (r: SyntaxDefinition)
    ensures
        definition_view(r) == definition_view(*d),
{
    SyntaxDefinition {
        kind: d.kind,
        name: crate::text::owned(d.name.as_str()),
        name_utf8_range: copy_i32s(d.name_utf8_range.as_slice()),
        name_utf16_range: copy_i32s(d.name_utf16_range.as_slice()),
        declaration_utf8_range: copy_i32s(d.declaration_utf8_range.as_slice()),
        declaration_utf16_range: copy_i32s(d.declaration_utf16_range.as_slice()),
        parent_name_utf8_range: copy_opt_i32s(&d.parent_name_utf8_range),
        parent_name_utf16_range: copy_opt_i32s(&d.parent_name_utf16_range),
        signature: match &d.signature {
            Some(x) => Some(crate::text::owned(x.as_str())),
            None => None,
        },
        visibility: d.visibility,
    }
}

fn definition_less(a: &SyntaxDefinition, b: &SyntaxDefinition) -> (r: bool)
    ensures
        r == definition_before(definition_view(*a), definition_view(*b)),
{
    let c = compare_i32s(a.name_utf8_range.as_slice(), b.name_utf8_range.as_slice());
    if c != 0 {
        return c < 0;
    }
    if a.kind != b.kind {
        return fact_kind_rank_exec(a.kind) < fact_kind_rank_exec(b.kind);
    }
    let x = crate::text::chars_of(a.name.as_str());
    let y = crate::text::chars_of(b.name.as_str());
    let o = crate::text::order_chars(x.as_slice(), y.as_slice());
    if o != 0 {
        return o == -1;
    }
    compare_i32s(a.declaration_utf8_range.as_slice(), b.declaration_utf8_range.as_slice()) < 0
}

fn definition_same_exec(a: &SyntaxDefinition, b: &SyntaxDefinition) -> (r: bool)
    ensures
        r == definition_same()(definition_view(*a), definition_view(*b)),
{
    a.kind == b.kind && str_eq(a.name.as_str(), b.name.as_str()) && compare_i32s(
        a.name_utf8_range.as_slice(),
        b.name_utf8_range.as_slice(),
    ) == 0 && compare_i32s(a.declaration_utf8_range.as_slice(), b.declaration_utf8_range.as_slice()) == 0
}

fn sort_definitions(raw: &[SyntaxDefinition]) -> (r: Vec<SyntaxDefinition>)
    ensures
        definition_views(r@) == sort_by(definition_views(raw@), definition_lt()),
{
    let ghost all = definition_views(raw@);
    let mut sorted: Vec<SyntaxDefinition> = Vec::new();
    let mut i: usize = 0;
    proof {
        assert(all.take(0) =~= Seq::<DefinitionView>::empty());
    }
    while i < raw.len()
        invariant
            i <= raw.len(),
            all == definition_views(raw@),
            definition_views(sorted@) == sort_by(all.take(i as int), definition_lt()),
        decreases raw.len() - i,
    {
        let x = copy_definition(&raw[i]);
        let ghost xv = definition_view(x);
        proof {
            assert(all.take(i + 1) =~= all.take(i as int).push(xv));
            lemma_sort_by_push(all.take(i as int), xv, definition_lt());
        }
        let ghost views = definition_views(sorted@);
        let mut p: usize = sorted.len();
        loop
            invariant
                p <= sorted.len(),
                views == definition_views(sorted@),
                xv == definition_view(x),
                forall|k: int| p <= k < sorted.len() ==> definition_lt()(xv, #[trigger] views[k]),
            ensures
                p <= sorted.len(),
                forall|k: int| p <= k < sorted.len() ==> definition_lt()(xv, #[trigger] views[k]),
                p == 0 || !definition_lt()(xv, views[p - 1]),
            decreases p,
        {
            if p == 0 {
                break;
            }
            if !definition_less(&x, &sorted[p - 1]) {
                break;
            }
            p -= 1;
        }
        proof {
            lemma_insert_by_at(views, xv, definition_lt(), p as int);
        }
        sorted.insert(p, x);
        proof {
            assert(definition_views(sorted@) =~= views.insert(p as int, xv));
        }
        i += 1;
    }
    proof {
        assert(all.take(raw.len() as int) =~= all);
    }
    sorted
}

fn dedup_definitions(sorted: &[SyntaxDefinition]) -> (r: Vec<SyntaxDefinition>)
    ensures
        definition_views(r@) == dedup_by(definition_views(sorted@), definition_same()),
{
    let ghost all = definition_views(sorted@);
    let mut out: Vec<SyntaxDefinition> = Vec::new();
    let mut i: usize = 0;
    proof {
        assert(all.take(0) =~= Seq::<DefinitionView>::empty());
    }
    while i < sorted.len()
        invariant
            i <= sorted.len(),
            all == definition_views(sorted@),
            definition_views(out@) == dedup_by(all.take(i as int), definition_same()),
        decreases sorted.len() - i,
    {
        let x = copy_definition(&sorted[i]);
        proof {
            assert(all.take(i + 1) =~= all.take(i as int).push(definition_view(x)));
            lemma_dedup_by_push(all.take(i as int), definition_view(x), definition_same());
        }
        let keep = out.len() == 0 || !definition_same_exec(&out[out.len() - 1], &x);
        proof {
            if out.len() > 0 {
                assert(definition_views(out@).last() == definition_view(out@[out.len() - 1]));
            }
        }
        if keep {
            let ghost before = definition_views(out@);
            out.push(x);
            assert(definition_views(out@) =~= before.push(definition_view(x)));
        }
        i += 1;
    }
    proof {
        assert(all.take(sorted.len() as int) =~= all);
    }
    out
}

/// The declarations of a parsed source, in order, without repeats.
pub fn definitions_of_nodes(language: &str, source: &str, nodes: &[SyntaxNode]) -> (r: Vec<SyntaxDefinition>)
    ensures
        definition_views(r@) == spec_definitions(language@, source@, node_tuples(nodes@)),
{
    let parents = match tree_parents(nodes) {
        Some(p) => p,
        None => {
            return Vec::new();
        },
    };
    let chars = crate::text::chars_of(source);
    let x = TreeInput { language, nodes, parents: parents.as_slice(), source, chars: chars.as_slice() };
    let mut raw: Vec<SyntaxDefinition> = Vec::new();
    let none: Option<SyntaxOwner> = None;
    assert(definition_views(raw@) =~= Seq::<DefinitionView>::empty());
    visit_exec(&x, 0, &none, false, &mut raw);
    let sorted = sort_definitions(raw.as_slice());
    dedup_definitions(sorted.as_slice())
}

/// The declarations of a source file, parsed with the grammar of its
/// language and path: each explicit, product-relevant declaration outside
/// executable bodies, by name range, kind, name and declaration range.
pub fn inventory_definitions(language: &str, path: &str, source: &str) -> (r: Result<Vec<SyntaxDefinition>, ParseError>)
    ensures
        match spec_parse_source(language@, path@, source@) {
            Ok(t) => r matches Ok(v) && definition_views(v@) == spec_definitions(language@, source@, t),
            Err(e) => r == Err::<Vec<SyntaxDefinition>, ParseError>(e),
        },
{
    match parse_source(language, path, source) {
        Ok(nodes) => Ok(definitions_of_nodes(language, source, nodes.as_slice())),
        Err(e) => Err(e),
    }
}

} // verus!
