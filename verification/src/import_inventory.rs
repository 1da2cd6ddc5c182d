//! The syntax inventory of explicit import sites: a walk through named
//! children from the root finds the import and export statements each
//! language writes, keeps the specifier each names (its delimiters removed
//! where it is a literal) and the form resolution needs, and lists the sites
//! in order, without repeats.
use vstd::prelude::*;

use crate::imports::{spec_strip_delimiters, strip_delimiters, ImportForm, ImportRelation, ImportSite};
use crate::model::ProgrammingLanguage;
use crate::ordering::{dedup_by, lemma_dedup_by_push, lemma_insert_by_at, lemma_sort_by_push, sort_by};
use crate::sql_inventory::{compare_i32s, lt_i32s, tree_parents, well_shaped};
use crate::syntax_tree::{
    node_range, node_tuple, node_tuples, node_utf16_range, node_utf8_range, parse_source, spec_node_utf16_range,
    spec_parse_source, NodeTuple, ParseError, SyntaxNode,
};
use crate::syntax_walk::{
    children, children_of, first_child, first_child_of, index_opt, indices, kind_is, node_text, test_view,
    trimmed_text_of, walked, walked_nodes, ChildTest, ChildTestView,
};
use crate::text::{is_prefix, is_suffix, seq_lt, split_once_sub, string_of, trim_ws};

verus! {

/// An import site by its plain values: language, relation, form,
/// specifier, UTF-8 and UTF-16 ranges.
pub type ImportSiteView = (ProgrammingLanguage, ImportRelation, ImportForm, Seq<char>, Seq<i32>, Seq<i32>);

pub open spec fn import_site_view(s: ImportSite) -> ImportSiteView {
    (s.language, s.relation, s.form, s.specifier@, s.utf8_range@, s.utf16_range@)
}

pub open spec fn import_site_views(v: Seq<ImportSite>) -> Seq<ImportSiteView> {
    v.map_values(|s: ImportSite| import_site_view(s))
}

/// The site of a specifier written at node `e`: none when the specifier
/// trims to nothing.
pub open spec fn raw_sites(
    language: ProgrammingLanguage,
    relation: ImportRelation,
    form: ImportForm,
    specifier: Seq<char>,
    src: Seq<char>,
    t: Seq<NodeTuple>,
    e: int,
) -> Seq<ImportSiteView> {
    let s = trim_ws(specifier);
    if s.len() == 0 {
        Seq::empty()
    } else {
        seq![(language, relation, form, s, node_range(t[e]), spec_node_utf16_range(src, t[e]))]
    }
}

/// The site of a literal `l` written in statement `e`.
pub open spec fn literal_sites(
    language: ProgrammingLanguage,
    relation: ImportRelation,
    form: ImportForm,
    src: Seq<char>,
    t: Seq<NodeTuple>,
    l: int,
    e: int,
) -> Seq<ImportSiteView> {
    raw_sites(language, relation, form, spec_strip_delimiters(trim_ws(node_text(src, t[l]))), src, t, e)
}

pub open spec fn opt_literal_sites(
    language: ProgrammingLanguage,
    relation: ImportRelation,
    form: ImportForm,
    src: Seq<char>,
    t: Seq<NodeTuple>,
    l: Option<int>,
    e: int,
) -> Seq<ImportSiteView> {
    match l {
        Some(x) => literal_sites(language, relation, form, src, t, x, e),
        None => Seq::empty(),
    }
}

pub open spec fn field_of(t: Seq<NodeTuple>, i: int, f: Seq<char>) -> Option<int> {
    first_child(t, i, ChildTestView::Field(f))
}

/// The `source` of an ECMAScript import: its own, or that of its
/// `require` clause.
pub open spec fn import_source(t: Seq<NodeTuple>, i: int) -> Option<int> {
    match field_of(t, i, "source"@) {
        Some(x) => Some(x),
        None => match first_child(t, i, ChildTestView::NamedKind("import_require_clause"@)) {
            Some(c) => field_of(t, c, "source"@),
            None => None,
        },
    }
}

pub open spec fn ecmascript_sites(language: ProgrammingLanguage, src: Seq<char>, t: Seq<NodeTuple>, i: int) -> Seq<
    ImportSiteView,
> {
    let k = t[i].0;
    if k == "import_statement"@ {
        opt_literal_sites(language, ImportRelation::Imports, ImportForm::EcmaScriptModule, src, t, import_source(t, i), i)
    } else if k == "export_statement"@ {
        opt_literal_sites(
            language,
            ImportRelation::Exports,
            ImportForm::EcmaScriptModule,
            src,
            t,
            field_of(t, i, "source"@),
            i,
        )
    } else if k == "call_expression"@ {
        match field_of(t, i, "function"@) {
            None => Seq::empty(),
            Some(f) => {
                let form = if t[f].0 == "import"@ {
                    Some(ImportForm::EcmaScriptDynamic)
                } else if trim_ws(node_text(src, t[f])) == "require"@ {
                    Some(ImportForm::EcmaScriptRequire)
                } else {
                    None
                };
                match (form, field_of(t, i, "arguments"@)) {
                    (Some(form), Some(a)) => opt_literal_sites(
                        language,
                        ImportRelation::Imports,
                        form,
                        src,
                        t,
                        first_child(t, a, ChildTestView::NamedKind("string"@)),
                        i,
                    ),
                    _ => Seq::empty(),
                }
            },
        }
    } else {
        Seq::empty()
    }
}

/// The module a Python `import` names: an aliased import's own name.
pub open spec fn python_name(t: Seq<NodeTuple>, c: int) -> int {
    if t[c].0 == "aliased_import"@ {
        match field_of(t, c, "name"@) {
            Some(x) => x,
            None => c,
        }
    } else {
        c
    }
}

/// The sites of the first `k` names of a Python `import`.
pub open spec fn python_names(
    language: ProgrammingLanguage,
    src: Seq<char>,
    t: Seq<NodeTuple>,
    i: int,
    cs: Seq<int>,
    k: int,
) -> Seq<ImportSiteView>
    decreases k,
{
    if k <= 0 || k > cs.len() {
        Seq::empty()
    } else {
        python_names(language, src, t, i, cs, k - 1) + raw_sites(
            language,
            ImportRelation::Imports,
            ImportForm::PythonModule,
            node_text(src, t[python_name(t, cs[k - 1])]),
            src,
            t,
            i,
        )
    }
}

pub open spec fn python_sites(language: ProgrammingLanguage, src: Seq<char>, t: Seq<NodeTuple>, i: int) -> Seq<
    ImportSiteView,
> {
    let k = t[i].0;
    if k == "import_statement"@ {
        let cs = children(t, i, ChildTestView::Field("name"@));
        python_names(language, src, t, i, cs, cs.len() as int)
    } else if k == "import_from_statement"@ {
        match field_of(t, i, "module_name"@) {
            Some(m) => raw_sites(
                language,
                ImportRelation::Imports,
                ImportForm::PythonModule,
                node_text(src, t[m]),
                src,
                t,
                i,
            ),
            None => Seq::empty(),
        }
    } else {
        Seq::empty()
    }
}

/// `s` without a leading `p`, trimmed; `s` itself when it does not start
/// with `p`.
pub open spec fn strip_word(s: Seq<char>, p: Seq<char>) -> Seq<char> {
    if is_prefix(p, s) {
        trim_ws(s.skip(p.len() as int))
    } else {
        s
    }
}

/// `s` without a trailing `;`, trimmed.
pub open spec fn strip_semicolon(s: Seq<char>) -> Seq<char> {
    if s.len() > 0 && s.last() == ';' {
        trim_ws(s.drop_last())
    } else {
        s
    }
}

/// A Java import's specifier and form, read from its text.
pub open spec fn java_import(text: Seq<char>) -> (ImportForm, Seq<char>) {
    let b1 = strip_word(trim_ws(text), "import"@);
    let st = is_prefix("static"@, b1);
    let b2 = strip_word(b1, "static"@);
    let b3 = strip_semicolon(b2);
    let wildcard = is_suffix(".*"@, b3);
    let spec = if wildcard {
        b3.take(b3.len() - 2)
    } else {
        b3
    };
    (ImportForm::Java { static_import: st, wildcard }, spec)
}

/// A C# using directive's specifier and form, read from its text.
pub open spec fn csharp_using(text: Seq<char>) -> (ImportForm, Seq<char>) {
    let b1 = strip_word(strip_word(trim_ws(text), "global"@), "using"@);
    let b2 = strip_semicolon(b1);
    let st = is_prefix("static"@, b2);
    let b3 = strip_word(b2, "static"@);
    match split_once_sub(b3, "="@) {
        Some(parts) => (ImportForm::CSharp { static_import: st, alias: true }, trim_ws(parts.1)),
        None => (ImportForm::CSharp { static_import: st, alias: false }, b3),
    }
}

pub open spec fn c_include_sites(language: ProgrammingLanguage, src: Seq<char>, t: Seq<NodeTuple>, i: int) -> Seq<
    ImportSiteView,
> {
    match field_of(t, i, "path"@) {
        None => Seq::empty(),
        Some(p) => {
            let system = t[p].0 == "system_lib_string"@;
            let literal = t[p].0 == "string_literal"@ || system;
            let raw = trim_ws(node_text(src, t[p]));
            raw_sites(
                language,
                ImportRelation::Imports,
                ImportForm::CInclude { system, literal },
                if literal {
                    spec_strip_delimiters(raw)
                } else {
                    raw
                },
                src,
                t,
                i,
            )
        },
    }
}

pub open spec fn field_raw_sites(
    language: ProgrammingLanguage,
    form: ImportForm,
    src: Seq<char>,
    t: Seq<NodeTuple>,
    i: int,
    f: Seq<char>,
) -> Seq<ImportSiteView> {
    match field_of(t, i, f) {
        Some(x) => raw_sites(language, ImportRelation::Imports, form, node_text(src, t[x]), src, t, i),
        None => Seq::empty(),
    }
}

// ---------------------------------------------------------------------------
// Dart URIs
// ---------------------------------------------------------------------------

/// The `uri` nodes below `x`, reached through named children, not looking
/// inside a `uri`, in order.
pub open spec fn uri_nodes(t: Seq<NodeTuple>, x: int) -> Seq<int>
    decreases t.len() - x, 1int, 0int,
{
    if x < 0 || x >= t.len() {
        Seq::empty()
    } else {
        uri_list(t, x, children(t, x, ChildTestView::Named), children(t, x, ChildTestView::Named).len() as int)
    }
}

pub open spec fn uri_list(t: Seq<NodeTuple>, x: int, cs: Seq<int>, k: int) -> Seq<int>
    decreases t.len() - x, 0int, k,
{
    if k <= 0 || k > cs.len() {
        Seq::empty()
    } else {
        let c = cs[k - 1];
        uri_list(t, x, cs, k - 1) + if x < c < t.len() {
            if t[c].0 == "uri"@ {
                seq![c]
            } else {
                uri_nodes(t, c)
            }
        } else {
            Seq::empty()
        }
    }
}

/// The first `string_literal` at or below `x` through named children, in
/// pre-order.
pub open spec fn first_literal(t: Seq<NodeTuple>, x: int) -> Option<int>
    decreases t.len() - x, 1int, 0int,
{
    if x < 0 || x >= t.len() {
        None
    } else if t[x].0 == "string_literal"@ {
        Some(x)
    } else {
        literal_among(
            t,
            x,
            children(t, x, ChildTestView::Named),
            children(t, x, ChildTestView::Named).len() as int,
            0,
        )
    }
}

/// The first literal below the children `cs` of `x` from position `m` on.
pub open spec fn literal_among(t: Seq<NodeTuple>, x: int, cs: Seq<int>, n: int, m: int) -> Option<int>
    decreases t.len() - x, 0int, n - m,
{
    if m < 0 || m >= n || n > cs.len() {
        None
    } else {
        let c = cs[m];
        if x < c < t.len() {
            match first_literal(t, c) {
                Some(l) => Some(l),
                None => literal_among(t, x, cs, n, m + 1),
            }
        } else {
            literal_among(t, x, cs, n, m + 1)
        }
    }
}

/// A raw Dart string `r'..'` or `r".."` without its `r`.
pub open spec fn strip_raw_marker(s: Seq<char>) -> Seq<char> {
    if s.len() >= 2 && s[0] == 'r' && (s[1] == '\'' || s[1] == '"') {
        s.skip(1)
    } else {
        s
    }
}

pub open spec fn dart_uri_sites(
    language: ProgrammingLanguage,
    relation: ImportRelation,
    src: Seq<char>,
    t: Seq<NodeTuple>,
    i: int,
    container: Option<int>,
) -> Seq<ImportSiteView> {
    match container {
        None => Seq::empty(),
        Some(c) => {
            let uris = if t[c].0 == "uri"@ {
                seq![c] + uri_nodes(t, c)
            } else {
                uri_nodes(t, c)
            };
            if uris.len() == 0 {
                Seq::empty()
            } else {
                match first_literal(t, uris[0]) {
                    None => Seq::empty(),
                    Some(l) => raw_sites(
                        language,
                        relation,
                        ImportForm::DartUri { conditional: uris.len() > 1 },
                        spec_strip_delimiters(strip_raw_marker(trim_ws(node_text(src, t[l])))),
                        src,
                        t,
                        i,
                    ),
                }
            }
        },
    }
}

pub open spec fn dart_sites(language: ProgrammingLanguage, src: Seq<char>, t: Seq<NodeTuple>, i: int) -> Seq<
    ImportSiteView,
> {
    let k = t[i].0;
    if k == "library_import"@ {
        let container = match first_child(t, i, ChildTestView::NamedKind("import_specification"@)) {
            Some(s) => field_of(t, s, "uri"@),
            None => None,
        };
        dart_uri_sites(language, ImportRelation::Imports, src, t, i, container)
    } else if k == "library_export"@ {
        dart_uri_sites(language, ImportRelation::Exports, src, t, i, field_of(t, i, "uri"@))
    } else {
        Seq::empty()
    }
}

/// The import sites one node states.
pub open spec fn node_import_sites(language: ProgrammingLanguage, src: Seq<char>, t: Seq<NodeTuple>, i: int) -> Seq<
    ImportSiteView,
> {
    let k = t[i].0;
    match language {
        ProgrammingLanguage::TypeScript | ProgrammingLanguage::JavaScript => ecmascript_sites(language, src, t, i),
        ProgrammingLanguage::Python => python_sites(language, src, t, i),
        ProgrammingLanguage::Java => if k == "import_declaration"@ {
            let (form, spec) = java_import(node_text(src, t[i]));
            raw_sites(language, ImportRelation::Imports, form, spec, src, t, i)
        } else {
            Seq::empty()
        },
        ProgrammingLanguage::CSharp => if k == "using_directive"@ {
            let (form, spec) = csharp_using(node_text(src, t[i]));
            raw_sites(language, ImportRelation::Imports, form, spec, src, t, i)
        } else {
            Seq::empty()
        },
        ProgrammingLanguage::C | ProgrammingLanguage::Cpp => if k == "preproc_include"@ {
            c_include_sites(language, src, t, i)
        } else {
            Seq::empty()
        },
        ProgrammingLanguage::Go => if k == "import_spec"@ {
            opt_literal_sites(language, ImportRelation::Imports, ImportForm::GoPackage, src, t, field_of(t, i, "path"@), i)
        } else {
            Seq::empty()
        },
        ProgrammingLanguage::Rust => if k == "use_declaration"@ {
            field_raw_sites(language, ImportForm::RustUse, src, t, i, "argument"@)
        } else if k == "extern_crate_declaration"@ {
            field_raw_sites(language, ImportForm::RustExternCrate, src, t, i, "name"@)
        } else {
            Seq::empty()
        },
        ProgrammingLanguage::Dart => dart_sites(language, src, t, i),
    }
}

/// The sites of the first `n` nodes the walk reaches, in pre-order.
pub open spec fn walk_import_sites(language: ProgrammingLanguage, src: Seq<char>, t: Seq<NodeTuple>, n: int) -> Seq<
    ImportSiteView,
>
    decreases n,
{
    if n <= 0 {
        Seq::empty()
    } else {
        walk_import_sites(language, src, t, n - 1) + if walked(t, n - 1) {
            node_import_sites(language, src, t, n - 1)
        } else {
            Seq::empty()
        }
    }
}

/// The order of the forms: by variant, then by their flags, `false` first.
pub open spec fn form_key(f: ImportForm) -> (int, bool, bool) {
    match f {
        ImportForm::EcmaScriptModule => (0, false, false),
        ImportForm::EcmaScriptRequire => (1, false, false),
        ImportForm::EcmaScriptDynamic => (2, false, false),
        ImportForm::PythonModule => (3, false, false),
        ImportForm::Java { static_import, wildcard } => (4, static_import, wildcard),
        ImportForm::CSharp { static_import, alias } => (5, static_import, alias),
        ImportForm::CInclude { system, literal } => (6, system, literal),
        ImportForm::GoPackage => (7, false, false),
        ImportForm::RustUse => (8, false, false),
        ImportForm::RustExternCrate => (9, false, false),
        ImportForm::DartUri { conditional } => (10, conditional, false),
    }
}

pub open spec fn form_before(a: ImportForm, b: ImportForm) -> bool {
    let x = form_key(a);
    let y = form_key(b);
    if x.0 != y.0 {
        x.0 < y.0
    } else if x.1 != y.1 {
        !x.1
    } else {
        !x.2 && y.2
    }
}

pub open spec fn relation_rank(r: ImportRelation) -> int {
    match r {
        ImportRelation::Imports => 0,
        ImportRelation::Exports => 1,
    }
}

/// Sites order by range, relation, form and specifier.
pub open spec fn import_before(a: ImportSiteView, b: ImportSiteView) -> bool {
    if a.4 != b.4 {
        lt_i32s(a.4, b.4)
    } else if a.1 != b.1 {
        relation_rank(a.1) < relation_rank(b.1)
    } else if a.2 != b.2 {
        form_before(a.2, b.2)
    } else {
        seq_lt(a.3, b.3)
    }
}

pub open spec fn import_lt() -> spec_fn(ImportSiteView, ImportSiteView) -> bool {
    |a: ImportSiteView, b: ImportSiteView| import_before(a, b)
}

pub open spec fn import_same() -> spec_fn(ImportSiteView, ImportSiteView) -> bool {
    |a: ImportSiteView, b: ImportSiteView| a == b
}

/// The import sites of a parsed source, in order, without repeats; a node
/// list that is not a pre-order listing gives none.
pub open spec fn spec_import_sites(language: ProgrammingLanguage, src: Seq<char>, t: Seq<NodeTuple>) -> Seq<
    ImportSiteView,
> {
    if well_shaped(t) {
        dedup_by(sort_by(walk_import_sites(language, src, t, t.len() as int), import_lt()), import_same())
    } else {
        Seq::empty()
    }
}


// ---------------------------------------------------------------------------
// Building the sites
// ---------------------------------------------------------------------------

fn push_raw(
    language: ProgrammingLanguage,
    relation: ImportRelation,
    form: ImportForm,
    specifier: &[char],
    source: &str,
    nodes: &[SyntaxNode],
    e: usize,
    out: &mut Vec<ImportSite>,
)
    requires
        e < nodes.len(),
    ensures
        import_site_views(final(out)@) == import_site_views(old(out)@) + raw_sites(
            language,
            relation,
            form,
            specifier@,
            source@,
            node_tuples(nodes@),
            e as int,
        ),
{
    let ghost t = node_tuples(nodes@);
    proof {
        assert(t[e as int] == node_tuple(nodes@[e as int]));
    }
    let sp = crate::text::trim_chars(specifier);
    let ghost before = import_site_views(out@);
    if sp.len() == 0 {
        assert(before + Seq::<ImportSiteView>::empty() =~= before);
        return;
    }
    out.push(
        ImportSite {
            language,
            relation,
            form,
            specifier: string_of(sp.as_slice()),
            utf8_range: node_utf8_range(&nodes[e]),
            utf16_range: node_utf16_range(source, &nodes[e]),
        },
    );
    assert(import_site_views(out@) =~= before + raw_sites(language, relation, form, specifier@, source@, t, e as int));
}

fn push_literal(
    language: ProgrammingLanguage,
    relation: ImportRelation,
    form: ImportForm,
    source: &str,
    src: &[char],
    nodes: &[SyntaxNode],
    l: Option<usize>,
    e: usize,
    out: &mut Vec<ImportSite>,
)
    requires
        src@ == source@,
        e < nodes.len(),
        l matches Some(x) ==> x < nodes.len(),
    ensures
        import_site_views(final(out)@) == import_site_views(old(out)@) + opt_literal_sites(
            language,
            relation,
            form,
            source@,
            node_tuples(nodes@),
            index_opt(l),
            e as int,
        ),
{
    match l {
        Some(x) => {
            proof {
                assert(node_tuples(nodes@)[x as int] == node_tuple(nodes@[x as int]));
            }
            let raw = trimmed_text_of(src, &nodes[x]);
            let stripped = strip_delimiters(string_of(raw.as_slice()).as_str());
            let v = crate::text::chars_of(stripped.as_str());
            push_raw(language, relation, form, v.as_slice(), source, nodes, e, out);
        },
        None => {
            assert(import_site_views(out@) + Seq::<ImportSiteView>::empty() =~= import_site_views(out@));
        },
    }
}

fn field_of_exec(nodes: &[SyntaxNode], i: usize, f: &str) -> (r: Option<usize>)
    requires
        i < nodes.len(),
    ensures
        index_opt(r) == field_of(node_tuples(nodes@), i as int, f@),
        r matches Some(x) ==> x < nodes.len(),
{
    first_child_of(nodes, i, ChildTest::Field(f))
}

fn push_ecmascript(
    language: ProgrammingLanguage,
    source: &str,
    src: &[char],
    nodes: &[SyntaxNode],
    i: usize,
    out: &mut Vec<ImportSite>,
)
    requires
        src@ == source@,
        i < nodes.len(),
    ensures
        import_site_views(final(out)@) == import_site_views(old(out)@) + ecmascript_sites(
            language,
            source@,
            node_tuples(nodes@),
            i as int,
        ),
{
    let ghost t = node_tuples(nodes@);
    proof {
        assert(t[i as int] == node_tuple(nodes@[i as int]));
    }
    let n = &nodes[i];
    if kind_is(n, "import_statement") {
        let own = field_of_exec(nodes, i, "source");
        let l = match own {
            Some(x) => Some(x),
            None => match first_child_of(nodes, i, ChildTest::NamedKind("import_require_clause")) {
                Some(c) => field_of_exec(nodes, c, "source"),
                None => None,
            },
        };
        push_literal(language, ImportRelation::Imports, ImportForm::EcmaScriptModule, source, src, nodes, l, i, out);
    } else if kind_is(n, "export_statement") {
        let l = field_of_exec(nodes, i, "source");
        push_literal(language, ImportRelation::Exports, ImportForm::EcmaScriptModule, source, src, nodes, l, i, out);
    } else if kind_is(n, "call_expression") {
        match field_of_exec(nodes, i, "function") {
            None => {
                assert(import_site_views(out@) + Seq::<ImportSiteView>::empty() =~= import_site_views(out@));
            },
            Some(f) => {
                proof {
                    assert(t[f as int] == node_tuple(nodes@[f as int]));
                }
                let form = if kind_is(&nodes[f], "import") {
                    Some(ImportForm::EcmaScriptDynamic)
                } else {
                    let text = trimmed_text_of(src, &nodes[f]);
                    if crate::text::chars_eq_str(text.as_slice(), "require") {
                        Some(ImportForm::EcmaScriptRequire)
                    } else {
                        None
                    }
                };
                match (form, field_of_exec(nodes, i, "arguments")) {
                    (Some(form), Some(a)) => {
                        let l = first_child_of(nodes, a, ChildTest::NamedKind("string"));
                        push_literal(language, ImportRelation::Imports, form, source, src, nodes, l, i, out);
                    },
                    _ => {
                        assert(import_site_views(out@) + Seq::<ImportSiteView>::empty() =~= import_site_views(out@));
                    },
                }
            },
        }
    } else {
        assert(import_site_views(out@) + Seq::<ImportSiteView>::empty() =~= import_site_views(out@));
    }
}

fn push_python(
    language: ProgrammingLanguage,
    source: &str,
    src: &[char],
    nodes: &[SyntaxNode],
    i: usize,
    out: &mut Vec<ImportSite>,
)
    requires
        src@ == source@,
        i < nodes.len(),
    ensures
        import_site_views(final(out)@) == import_site_views(old(out)@) + python_sites(
            language,
            source@,
            node_tuples(nodes@),
            i as int,
        ),
{
    let ghost t = node_tuples(nodes@);
    let ghost start = import_site_views(out@);
    proof {
        assert(t[i as int] == node_tuple(nodes@[i as int]));
    }
    if kind_is(&nodes[i], "import_statement") {
        let cs = children_of(nodes, i, ChildTest::Field("name"));
        let ghost cv = indices(cs@);
        let mut k: usize = 0;
        assert(start + python_names(language, source@, t, i as int, cv, 0) =~= start);
        while k < cs.len()
            invariant
                t == node_tuples(nodes@),
                src@ == source@,
                i < nodes.len(),
                cv == indices(cs@),
                forall|m: int| 0 <= m < cs.len() ==> i < #[trigger] cs@[m] < nodes.len(),
                k <= cs.len(),
                import_site_views(out@) == start + python_names(language, source@, t, i as int, cv, k as int),
            decreases cs.len() - k,
        {
            let c = cs[k];
            proof {
                assert(cv[k as int] == c as int);
                assert(t[c as int] == node_tuple(nodes@[c as int]));
            }
            let name = if kind_is(&nodes[c], "aliased_import") {
                match field_of_exec(nodes, c, "name") {
                    Some(x) => x,
                    None => c,
                }
            } else {
                c
            };
            proof {
                assert(name as int == python_name(t, c as int));
                assert(t[name as int] == node_tuple(nodes@[name as int]));
            }
            let text = crate::syntax_walk::node_text_of(src, &nodes[name]);
            push_raw(language, ImportRelation::Imports, ImportForm::PythonModule, text.as_slice(), source, nodes, i, out);
            k += 1;
            assert(import_site_views(out@) =~= start + python_names(language, source@, t, i as int, cv, k as int));
        }
    } else if kind_is(&nodes[i], "import_from_statement") {
        match field_of_exec(nodes, i, "module_name") {
            Some(m) => {
                proof {
                    assert(t[m as int] == node_tuple(nodes@[m as int]));
                }
                let text = crate::syntax_walk::node_text_of(src, &nodes[m]);
                push_raw(language, ImportRelation::Imports, ImportForm::PythonModule, text.as_slice(), source, nodes, i, out);
            },
            None => {
                assert(start + Seq::<ImportSiteView>::empty() =~= start);
            },
        }
    } else {
        assert(start + Seq::<ImportSiteView>::empty() =~= start);
    }
}


fn copy_chars(s: &[char]) -> (r: Vec<char>)
    ensures
        r@ == s@,
{
    let r = crate::text::slice_range(s, 0, s.len());
    assert(s@.subrange(0, s@.len() as int) =~= s@);
    r
}

fn strip_word_exec(s: &[char], p: &str) -> (r: Vec<char>)
    ensures
        r@ == strip_word(s@, p@),
{
    let pv = crate::text::chars_of(p);
    if crate::text::starts_with(s, p) {
        let rest = crate::text::slice_range(s, pv.len(), s.len());
        assert(rest@ =~= s@.skip(p@.len() as int));
        crate::text::trim_chars(rest.as_slice())
    } else {
        copy_chars(s)
    }
}

fn strip_semicolon_exec(s: &[char]) -> (r: Vec<char>)
    ensures
        r@ == strip_semicolon(s@),
{
    if s.len() > 0 && s[s.len() - 1] == ';' {
        let rest = crate::text::slice_range(s, 0, s.len() - 1);
        assert(rest@ =~= s@.drop_last());
        crate::text::trim_chars(rest.as_slice())
    } else {
        copy_chars(s)
    }
}

fn java_import_exec(text: &[char]) -> (r: (ImportForm, Vec<char>))
    ensures
        (r.0, r.1@) == java_import(text@),
{
    let t0 = crate::text::trim_chars(text);
    let b1 = strip_word_exec(t0.as_slice(), "import");
    let st = crate::text::starts_with(b1.as_slice(), "static");
    let b2 = strip_word_exec(b1.as_slice(), "static");
    let b3 = strip_semicolon_exec(b2.as_slice());
    let wildcard = crate::text::ends_with(b3.as_slice(), ".*");
    proof {
        reveal_strlit(".*");
    }
    let spec = if wildcard {
        let v = crate::text::slice_range(b3.as_slice(), 0, b3.len() - 2);
        assert(v@ =~= b3@.take(b3@.len() - 2));
        v
    } else {
        b3
    };
    (ImportForm::Java { static_import: st, wildcard }, spec)
}

fn csharp_using_exec(text: &[char]) -> (r: (ImportForm, Vec<char>))
    ensures
        (r.0, r.1@) == csharp_using(text@),
{
    let t0 = crate::text::trim_chars(text);
    let g = strip_word_exec(t0.as_slice(), "global");
    let b1 = strip_word_exec(g.as_slice(), "using");
    let b2 = strip_semicolon_exec(b1.as_slice());
    let st = crate::text::starts_with(b2.as_slice(), "static");
    let b3 = strip_word_exec(b2.as_slice(), "static");
    match crate::text::split_once_chars(b3.as_slice(), "=") {
        Some(parts) => (ImportForm::CSharp { static_import: st, alias: true }, crate::text::trim_chars(parts.1.as_slice())),
        None => (ImportForm::CSharp { static_import: st, alias: false }, b3),
    }
}

fn push_text_form(
    language: ProgrammingLanguage,
    java: bool,
    source: &str,
    src: &[char],
    nodes: &[SyntaxNode],
    i: usize,
    out: &mut Vec<ImportSite>,
)
    requires
        src@ == source@,
        i < nodes.len(),
    ensures
        ({
            let text = node_text(source@, node_tuples(nodes@)[i as int]);
            let fs = if java {
                java_import(text)
            } else {
                csharp_using(text)
            };
            import_site_views(final(out)@) == import_site_views(old(out)@) + raw_sites(
                language,
                ImportRelation::Imports,
                fs.0,
                fs.1,
                source@,
                node_tuples(nodes@),
                i as int,
            )
        }),
{
    proof {
        assert(node_tuples(nodes@)[i as int] == node_tuple(nodes@[i as int]));
    }
    let text = crate::syntax_walk::node_text_of(src, &nodes[i]);
    let (form, spec) = if java {
        java_import_exec(text.as_slice())
    } else {
        csharp_using_exec(text.as_slice())
    };
    push_raw(language, ImportRelation::Imports, form, spec.as_slice(), source, nodes, i, out);
}

fn push_c_include(
    language: ProgrammingLanguage,
    source: &str,
    src: &[char],
    nodes: &[SyntaxNode],
    i: usize,
    out: &mut Vec<ImportSite>,
)
    requires
        src@ == source@,
        i < nodes.len(),
    ensures
        import_site_views(final(out)@) == import_site_views(old(out)@) + c_include_sites(
            language,
            source@,
            node_tuples(nodes@),
            i as int,
        ),
{
    let ghost t = node_tuples(nodes@);
    match field_of_exec(nodes, i, "path") {
        None => {
            assert(import_site_views(out@) + Seq::<ImportSiteView>::empty() =~= import_site_views(out@));
        },
        Some(p) => {
            proof {
                assert(t[p as int] == node_tuple(nodes@[p as int]));
            }
            let system = kind_is(&nodes[p], "system_lib_string");
            let literal = kind_is(&nodes[p], "string_literal") || system;
            let raw = trimmed_text_of(src, &nodes[p]);
            let spec = if literal {
                let st = strip_delimiters(string_of(raw.as_slice()).as_str());
                crate::text::chars_of(st.as_str())
            } else {
                raw
            };
            push_raw(
                language,
                ImportRelation::Imports,
                ImportForm::CInclude { system, literal },
                spec.as_slice(),
                source,
                nodes,
                i,
                out,
            );
        },
    }
}

fn push_field_raw(
    language: ProgrammingLanguage,
    form: ImportForm,
    source: &str,
    src: &[char],
    nodes: &[SyntaxNode],
    i: usize,
    f: &str,
    out: &mut Vec<ImportSite>,
)
    requires
        src@ == source@,
        i < nodes.len(),
    ensures
        import_site_views(final(out)@) == import_site_views(old(out)@) + field_raw_sites(
            language,
            form,
            source@,
            node_tuples(nodes@),
            i as int,
            f@,
        ),
{
    match field_of_exec(nodes, i, f) {
        Some(x) => {
            proof {
                assert(node_tuples(nodes@)[x as int] == node_tuple(nodes@[x as int]));
            }
            let text = crate::syntax_walk::node_text_of(src, &nodes[x]);
            push_raw(language, ImportRelation::Imports, form, text.as_slice(), source, nodes, i, out);
        },
        None => {
            assert(import_site_views(out@) + Seq::<ImportSiteView>::empty() =~= import_site_views(out@));
        },
    }
}


fn uri_nodes_exec(nodes: &[SyntaxNode], x: usize, out: &mut Vec<usize>)
    requires
        x < nodes.len(),
        forall|m: int| 0 <= m < old(out).len() ==> #[trigger] old(out)@[m] < nodes.len(),
    ensures
        indices(final(out)@) == indices(old(out)@) + uri_nodes(node_tuples(nodes@), x as int),
        forall|m: int| 0 <= m < final(out).len() ==> #[trigger] final(out)@[m] < nodes.len(),
    decreases nodes.len() - x,
{
    let ghost t = node_tuples(nodes@);
    let ghost start = indices(out@);
    let cs = children_of(nodes, x, ChildTest::Named);
    let ghost cv = indices(cs@);
    let mut k: usize = 0;
    assert(start + uri_list(t, x as int, cv, 0) =~= start);
    while k < cs.len()
        invariant
            t == node_tuples(nodes@),
            x < nodes.len(),
            cv == indices(cs@),
            cv == children(t, x as int, ChildTestView::Named),
            forall|m: int| 0 <= m < cs.len() ==> x < #[trigger] cs@[m] < nodes.len(),
            forall|m: int| 0 <= m < out.len() ==> #[trigger] out@[m] < nodes.len(),
            k <= cs.len(),
            indices(out@) == start + uri_list(t, x as int, cv, k as int),
        decreases cs.len() - k,
    {
        let c = cs[k];
        proof {
            assert(cv[k as int] == c as int);
            assert(t[c as int] == node_tuple(nodes@[c as int]));
        }
        if kind_is(&nodes[c], "uri") {
            let ghost before = indices(out@);
            out.push(c);
            assert(indices(out@) =~= before + seq![c as int]);
        } else {
            uri_nodes_exec(nodes, c, out);
        }
        k += 1;
        assert(indices(out@) =~= start + uri_list(t, x as int, cv, k as int));
    }
}

fn first_literal_exec(nodes: &[SyntaxNode], x: usize) -> (r: Option<usize>)
    requires
        x < nodes.len(),
    ensures
        index_opt(r) == first_literal(node_tuples(nodes@), x as int),
        r matches Some(l) ==> l < nodes.len(),
    decreases nodes.len() - x,
{
    let ghost t = node_tuples(nodes@);
    proof {
        assert(t[x as int] == node_tuple(nodes@[x as int]));
    }
    if kind_is(&nodes[x], "string_literal") {
        return Some(x);
    }
    let cs = children_of(nodes, x, ChildTest::Named);
    let ghost cv = indices(cs@);
    let mut m: usize = 0;
    while m < cs.len()
        invariant
            t == node_tuples(nodes@),
            x < nodes.len(),
            cv == indices(cs@),
            cv == children(t, x as int, ChildTestView::Named),
            forall|q: int| 0 <= q < cs.len() ==> x < #[trigger] cs@[q] < nodes.len(),
            m <= cs.len(),
            first_literal(t, x as int) == literal_among(t, x as int, cv, cv.len() as int, m as int),
        decreases cs.len() - m,
    {
        let c = cs[m];
        proof {
            assert(cv[m as int] == c as int);
        }
        match first_literal_exec(nodes, c) {
            Some(l) => {
                return Some(l);
            },
            None => {},
        }
        m += 1;
    }
    None
}

fn push_dart_uri(
    language: ProgrammingLanguage,
    relation: ImportRelation,
    source: &str,
    src: &[char],
    nodes: &[SyntaxNode],
    i: usize,
    container: Option<usize>,
    out: &mut Vec<ImportSite>,
)
    requires
        src@ == source@,
        i < nodes.len(),
        container matches Some(c) ==> c < nodes.len(),
    ensures
        import_site_views(final(out)@) == import_site_views(old(out)@) + dart_uri_sites(
            language,
            relation,
            source@,
            node_tuples(nodes@),
            i as int,
            index_opt(container),
        ),
{
    let ghost t = node_tuples(nodes@);
    let c = match container {
        Some(c) => c,
        None => {
            assert(import_site_views(out@) + Seq::<ImportSiteView>::empty() =~= import_site_views(out@));
            return;
        },
    };
    proof {
        assert(t[c as int] == node_tuple(nodes@[c as int]));
    }
    let mut uris: Vec<usize> = Vec::new();
    if kind_is(&nodes[c], "uri") {
        uris.push(c);
        assert(indices(uris@) =~= seq![c as int]);
    }
    uri_nodes_exec(nodes, c, &mut uris);
    proof {
        if t[c as int].0 != "uri"@ {
            assert(Seq::<int>::empty() + uri_nodes(t, c as int) =~= uri_nodes(t, c as int));
        }
    }
    if uris.len() == 0 {
        assert(import_site_views(out@) + Seq::<ImportSiteView>::empty() =~= import_site_views(out@));
        return;
    }
    proof {
        assert(indices(uris@)[0] == uris@[0] as int);
    }
    match first_literal_exec(nodes, uris[0]) {
        None => {
            assert(import_site_views(out@) + Seq::<ImportSiteView>::empty() =~= import_site_views(out@));
        },
        Some(l) => {
            proof {
                assert(t[l as int] == node_tuple(nodes@[l as int]));
            }
            let raw = trimmed_text_of(src, &nodes[l]);
            let unmarked = if raw.len() >= 2 && raw[0] == 'r' && (raw[1] == '\'' || raw[1] == '"') {
                let v = crate::text::slice_range(raw.as_slice(), 1, raw.len());
                assert(v@ =~= raw@.skip(1));
                v
            } else {
                raw
            };
            let st = strip_delimiters(string_of(unmarked.as_slice()).as_str());
            let spec = crate::text::chars_of(st.as_str());
            push_raw(
                language,
                relation,
                ImportForm::DartUri { conditional: uris.len() > 1 },
                spec.as_slice(),
                source,
                nodes,
                i,
                out,
            );
        },
    }
}

fn push_dart(
    language: ProgrammingLanguage,
    source: &str,
    src: &[char],
    nodes: &[SyntaxNode],
    i: usize,
    out: &mut Vec<ImportSite>,
)
    requires
        src@ == source@,
        i < nodes.len(),
    ensures
        import_site_views(final(out)@) == import_site_views(old(out)@) + dart_sites(
            language,
            source@,
            node_tuples(nodes@),
            i as int,
        ),
{
    proof {
        assert(node_tuples(nodes@)[i as int] == node_tuple(nodes@[i as int]));
    }
    if kind_is(&nodes[i], "library_import") {
        let container = match first_child_of(nodes, i, ChildTest::NamedKind("import_specification")) {
            Some(s) => field_of_exec(nodes, s, "uri"),
            None => None,
        };
        push_dart_uri(language, ImportRelation::Imports, source, src, nodes, i, container, out);
    } else if kind_is(&nodes[i], "library_export") {
        let container = field_of_exec(nodes, i, "uri");
        push_dart_uri(language, ImportRelation::Exports, source, src, nodes, i, container, out);
    } else {
        assert(import_site_views(out@) + Seq::<ImportSiteView>::empty() =~= import_site_views(out@));
    }
}

#[verifier::spinoff_prover]
#[verifier::rlimit(40)]
fn push_node_imports(
    language: ProgrammingLanguage,
    source: &str,
    src: &[char],
    nodes: &[SyntaxNode],
    i: usize,
    out: &mut Vec<ImportSite>,
)
    requires
        src@ == source@,
        i < nodes.len(),
    ensures
        import_site_views(final(out)@) == import_site_views(old(out)@) + node_import_sites(
            language,
            source@,
            node_tuples(nodes@),
            i as int,
        ),
{
    proof {
        assert(node_tuples(nodes@)[i as int] == node_tuple(nodes@[i as int]));
    }
    let n = &nodes[i];
    match language {
        ProgrammingLanguage::TypeScript | ProgrammingLanguage::JavaScript => push_ecmascript(
            language,
            source,
            src,
            nodes,
            i,
            out,
        ),
        ProgrammingLanguage::Python => push_python(language, source, src, nodes, i, out),
        ProgrammingLanguage::Java => {
            if kind_is(n, "import_declaration") {
                push_text_form(language, true, source, src, nodes, i, out);
            } else {
                assert(import_site_views(out@) + Seq::<ImportSiteView>::empty() =~= import_site_views(out@));
            }
        },
        ProgrammingLanguage::CSharp => {
            if kind_is(n, "using_directive") {
                push_text_form(language, false, source, src, nodes, i, out);
            } else {
                assert(import_site_views(out@) + Seq::<ImportSiteView>::empty() =~= import_site_views(out@));
            }
        },
        ProgrammingLanguage::C | ProgrammingLanguage::Cpp => {
            if kind_is(n, "preproc_include") {
                push_c_include(language, source, src, nodes, i, out);
            } else {
                assert(import_site_views(out@) + Seq::<ImportSiteView>::empty() =~= import_site_views(out@));
            }
        },
        ProgrammingLanguage::Go => {
            if kind_is(n, "import_spec") {
                let l = field_of_exec(nodes, i, "path");
                push_literal(language, ImportRelation::Imports, ImportForm::GoPackage, source, src, nodes, l, i, out);
            } else {
                assert(import_site_views(out@) + Seq::<ImportSiteView>::empty() =~= import_site_views(out@));
            }
        },
        ProgrammingLanguage::Rust => {
            if kind_is(n, "use_declaration") {
                push_field_raw(language, ImportForm::RustUse, source, src, nodes, i, "argument", out);
            } else if kind_is(n, "extern_crate_declaration") {
                push_field_raw(language, ImportForm::RustExternCrate, source, src, nodes, i, "name", out);
            } else {
                assert(import_site_views(out@) + Seq::<ImportSiteView>::empty() =~= import_site_views(out@));
            }
        },
        ProgrammingLanguage::Dart => push_dart(language, source, src, nodes, i, out),
    }
}


// ---------------------------------------------------------------------------
// Order
// ---------------------------------------------------------------------------

fn copy_range(v: &Vec<i32>) -> (r: Vec<i32>)
    ensures
        r@ == v@,
{
    let mut out: Vec<i32> = Vec::new();
    let mut i: usize = 0;
    while i < v.len()
        invariant
            i <= v.len(),
            out@ == v@.take(i as int),
        decreases v.len() - i,
    {
        out.push(v[i]);
        i += 1;
        assert(out@ =~= v@.take(i as int));
    }
    assert(v@.take(v.len() as int) =~= v@);
    out
}

fn copy_import(x: &ImportSite) -> (r: ImportSite)
    ensures
        import_site_view(r) == import_site_view(*x),
{
    ImportSite {
        language: x.language,
        relation: x.relation,
        form: x.form,
        specifier: crate::text::owned(x.specifier.as_str()),
        utf8_range: copy_range(&x.utf8_range),
        utf16_range: copy_range(&x.utf16_range),
    }
}

fn form_key_exec(f: ImportForm) -> (r: (u8, bool, bool))
    ensures
        (r.0 as int, r.1, r.2) == form_key(f),
{
    match f {
        ImportForm::EcmaScriptModule => (0, false, false),
        ImportForm::EcmaScriptRequire => (1, false, false),
        ImportForm::EcmaScriptDynamic => (2, false, false),
        ImportForm::PythonModule => (3, false, false),
        ImportForm::Java { static_import, wildcard } => (4, static_import, wildcard),
        ImportForm::CSharp { static_import, alias } => (5, static_import, alias),
        ImportForm::CInclude { system, literal } => (6, system, literal),
        ImportForm::GoPackage => (7, false, false),
        ImportForm::RustUse => (8, false, false),
        ImportForm::RustExternCrate => (9, false, false),
        ImportForm::DartUri { conditional } => (10, conditional, false),
    }
}

fn import_less(a: &ImportSite, b: &ImportSite) -> (r: bool)
    ensures
        r == import_before(import_site_view(*a), import_site_view(*b)),
{
    let c = compare_i32s(a.utf8_range.as_slice(), b.utf8_range.as_slice());
    if c != 0 {
        return c < 0;
    }
    if a.relation != b.relation {
        return a.relation == ImportRelation::Imports;
    }
    if a.form != b.form {
        let x = form_key_exec(a.form);
        let y = form_key_exec(b.form);
        if x.0 != y.0 {
            return x.0 < y.0;
        }
        if x.1 != y.1 {
            return !x.1;
        }
        return !x.2 && y.2;
    }
    let p = crate::text::chars_of(a.specifier.as_str());
    let q = crate::text::chars_of(b.specifier.as_str());
    crate::text::order_chars(p.as_slice(), q.as_slice()) == -1
}

fn import_same_exec(a: &ImportSite, b: &ImportSite) -> (r: bool)
    ensures
        r == (import_site_view(*a) == import_site_view(*b)),
{
    a.language == b.language && a.relation == b.relation && a.form == b.form && crate::text::str_eq(
        a.specifier.as_str(),
        b.specifier.as_str(),
    ) && compare_i32s(a.utf8_range.as_slice(), b.utf8_range.as_slice()) == 0 && compare_i32s(
        a.utf16_range.as_slice(),
        b.utf16_range.as_slice(),
    ) == 0
}

fn sort_imports(raw: &[ImportSite]) -> (r: Vec<ImportSite>)
    ensures
        import_site_views(r@) == sort_by(import_site_views(raw@), import_lt()),
{
    let ghost all = import_site_views(raw@);
    let mut sorted: Vec<ImportSite> = Vec::new();
    let mut i: usize = 0;
    proof {
        assert(all.take(0) =~= Seq::<ImportSiteView>::empty());
    }
    while i < raw.len()
        invariant
            i <= raw.len(),
            all == import_site_views(raw@),
            import_site_views(sorted@) == sort_by(all.take(i as int), import_lt()),
        decreases raw.len() - i,
    {
        let x = copy_import(&raw[i]);
        let ghost xv = import_site_view(x);
        proof {
            assert(all.take(i + 1) =~= all.take(i as int).push(xv));
            lemma_sort_by_push(all.take(i as int), xv, import_lt());
        }
        let ghost views = import_site_views(sorted@);
        let mut p: usize = sorted.len();
        loop
            invariant
                p <= sorted.len(),
                views == import_site_views(sorted@),
                xv == import_site_view(x),
                forall|k: int| p <= k < sorted.len() ==> import_lt()(xv, #[trigger] views[k]),
            ensures
                p <= sorted.len(),
                forall|k: int| p <= k < sorted.len() ==> import_lt()(xv, #[trigger] views[k]),
                p == 0 || !import_lt()(xv, views[p - 1]),
            decreases p,
        {
            if p == 0 {
                break;
            }
            if !import_less(&x, &sorted[p - 1]) {
                break;
            }
            p -= 1;
        }
        proof {
            lemma_insert_by_at(views, xv, import_lt(), p as int);
        }
        sorted.insert(p, x);
        proof {
            assert(import_site_views(sorted@) =~= views.insert(p as int, xv));
        }
        i += 1;
    }
    proof {
        assert(all.take(raw.len() as int) =~= all);
    }
    sorted
}

fn dedup_imports(sorted: &[ImportSite]) -> (r: Vec<ImportSite>)
    ensures
        import_site_views(r@) == dedup_by(import_site_views(sorted@), import_same()),
{
    let ghost all = import_site_views(sorted@);
    let mut out: Vec<ImportSite> = Vec::new();
    let mut i: usize = 0;
    proof {
        assert(all.take(0) =~= Seq::<ImportSiteView>::empty());
    }
    while i < sorted.len()
        invariant
            i <= sorted.len(),
            all == import_site_views(sorted@),
            import_site_views(out@) == dedup_by(all.take(i as int), import_same()),
        decreases sorted.len() - i,
    {
        let x = copy_import(&sorted[i]);
        proof {
            assert(all.take(i + 1) =~= all.take(i as int).push(import_site_view(x)));
            lemma_dedup_by_push(all.take(i as int), import_site_view(x), import_same());
        }
        let keep = out.len() == 0 || !import_same_exec(&out[out.len() - 1], &x);
        proof {
            if out.len() > 0 {
                assert(import_site_views(out@).last() == import_site_view(out@[out.len() - 1]));
            }
        }
        if keep {
            let ghost before = import_site_views(out@);
            out.push(x);
            assert(import_site_views(out@) =~= before.push(import_site_view(x)));
        }
        i += 1;
    }
    proof {
        assert(all.take(sorted.len() as int) =~= all);
    }
    out
}

// ---------------------------------------------------------------------------
// The inventory
// ---------------------------------------------------------------------------

/// The import sites of a parsed source, in order, without repeats.
pub fn import_sites_of_nodes(language: ProgrammingLanguage, source: &str, nodes: &[SyntaxNode]) -> (r: Vec<ImportSite>)
    ensures
        import_site_views(r@) == spec_import_sites(language, source@, node_tuples(nodes@)),
{
    let ghost t = node_tuples(nodes@);
    let parents = match tree_parents(nodes) {
        Some(p) => p,
        None => {
            return Vec::new();
        },
    };
    let reach = walked_nodes(nodes, parents.as_slice());
    let src = crate::text::chars_of(source);
    let mut raw: Vec<ImportSite> = Vec::new();
    let mut i: usize = 0;
    while i < nodes.len()
        invariant
            t == node_tuples(nodes@),
            src@ == source@,
            reach.len() == nodes.len(),
            forall|k: int| 0 <= k < nodes.len() ==> #[trigger] reach@[k] == walked(t, k),
            i <= nodes.len(),
            import_site_views(raw@) == walk_import_sites(language, source@, t, i as int),
        decreases nodes.len() - i,
    {
        let ghost before = import_site_views(raw@);
        proof {
            assert(reach@[i as int] == walked(t, i as int));
        }
        if reach[i] {
            push_node_imports(language, source, src.as_slice(), nodes, i, &mut raw);
        } else {
            assert(before =~= before + Seq::<ImportSiteView>::empty());
        }
        i += 1;
    }
    let sorted = sort_imports(raw.as_slice());
    dedup_imports(sorted.as_slice())
}

/// The explicit import sites of a source file, parsed with the grammar of
/// its language and path.
pub fn inventory_import_sites(language: ProgrammingLanguage, path: &str, source: &str) -> (r: Result<
    Vec<ImportSite>,
    ParseError,
>)
    ensures
        match spec_parse_source(crate::model::spec_language_name(language), path@, source@) {
            Ok(t) => r matches Ok(v) && import_site_views(v@) == spec_import_sites(language, source@, t),
            Err(e) => r == Err::<Vec<ImportSite>, ParseError>(e),
        },
{
    match parse_source(language.as_str(), path, source) {
        Ok(nodes) => Ok(import_sites_of_nodes(language, source, nodes.as_slice())),
        Err(e) => Err(e),
    }
}

} // verus!
