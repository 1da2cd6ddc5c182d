//! Exact SQL literals promoted to query and table facts: a query definition
//! per literal with a source span, one table-reference definition per table
//! a unit's queries name, the relation from the literal's owner (or its file)
//! to the query, and a read or write relation from the query to each table.
use vstd::prelude::*;

use crate::digest::hex_of;
use crate::model::LanguageRelationKind;
use crate::ordering::{dedup_by, insert_by, lemma_dedup_by_push, lemma_insert_by_at, lemma_sort_by_push, sort_by};
use crate::schedule::spec_decimal;
use crate::sql_literals::SqlTableAccessKind;
use crate::sql_queries::SqlQuerySite;
use crate::text::seq_lt;

verus! {

/// One query site of a file, with the evidence its span was recorded under
/// (none when its range has no source span) and the declaration that owns it,
/// if any.
#[derive(Debug)]
pub struct SqlSiteInput {
    pub path: String,
    pub site: SqlQuerySite,
    pub evidence_id: Option<String>,
    pub owner: Option<String>,
}

/// What a SQL definition stands for.
#[derive(Clone, Copy, Debug, PartialEq, Eq, Structural)]
pub enum SqlDefinitionKind {
    Query,
    TableReference,
}

/// A query or table-reference definition.
#[derive(Debug)]
pub struct SqlDefinition {
    pub symbol_id: String,
    pub kind: SqlDefinitionKind,
    pub qualified_name: String,
    pub display_name: String,
    pub evidence_id: String,
}

/// An end of a SQL relation: a declared symbol or a file.
#[derive(Debug)]
pub enum SqlEndpoint {
    Symbol(String),
    File(String),
}

/// A relation between a query's owner, the query and its tables.
#[derive(Debug)]
pub struct SqlRelation {
    pub source: SqlEndpoint,
    pub target: SqlEndpoint,
    pub kind: LanguageRelationKind,
    pub evidence_id: String,
}

/// The counts of a unit's SQL facts.
#[derive(Clone, Copy, Debug)]
pub struct SqlQueryAudit {
    pub eligible_query_count: u64,
    pub accepted_query_count: u64,
    pub query_definition_count: u64,
    pub table_definition_count: u64,
    pub emitted_relation_count: u64,
    pub callable_owner_count: u64,
}

/// A unit's SQL facts.
#[derive(Debug)]
pub struct SqlQueryFacts {
    pub definitions: Vec<SqlDefinition>,
    pub relations: Vec<SqlRelation>,
    pub audit: SqlQueryAudit,
}

// ---------------------------------------------------------------------------
// The model
// ---------------------------------------------------------------------------

pub type DefView = (Seq<char>, SqlDefinitionKind, Seq<char>, Seq<char>, Seq<char>);

pub open spec fn def_view(d: SqlDefinition) -> DefView {
    (d.symbol_id@, d.kind, d.qualified_name@, d.display_name@, d.evidence_id@)
}

pub open spec fn def_views(v: Seq<SqlDefinition>) -> Seq<DefView> {
    v.map_values(|d: SqlDefinition| def_view(d))
}

pub open spec fn endpoint_key(e: SqlEndpoint) -> Seq<char> {
    match e {
        SqlEndpoint::Symbol(id) => "symbol:"@ + id@,
        SqlEndpoint::File(path) => "file:"@ + path@,
    }
}

pub type RelView = (Seq<char>, Seq<char>, LanguageRelationKind, Seq<char>);

pub open spec fn rel_view(r: SqlRelation) -> RelView {
    (endpoint_key(r.source), endpoint_key(r.target), r.kind, r.evidence_id@)
}

pub open spec fn rel_views(v: Seq<SqlRelation>) -> Seq<RelView> {
    v.map_values(|r: SqlRelation| rel_view(r))
}

/// A number as `i32`'s `Display` writes it.
pub open spec fn i32_text(n: i32) -> Seq<char> {
    if n < 0 {
        "-"@ + spec_decimal((-n) as nat)
    } else {
        spec_decimal(n as nat)
    }
}

pub open spec fn entry_or_zero(v: Seq<i32>, k: int) -> i32 {
    if 0 <= k < v.len() {
        v[k]
    } else {
        0
    }
}

/// The point a query is named by: its path, line, column and digest.
pub open spec fn query_point(s: SqlSiteInput) -> Seq<char> {
    s.path@ + ":"@ + i32_text(entry_or_zero(s.site.utf8_range@, 0)) + ":"@ + i32_text(
        entry_or_zero(s.site.utf8_range@, 1),
    ) + ":"@ + hex_of(s.site.digest@)
}

pub open spec fn query_symbol(unit: Seq<char>, s: SqlSiteInput) -> Seq<char> {
    "static-sql-query:"@ + unit + ":"@ + query_point(s)
}

pub open spec fn site_display(site: SqlQuerySite) -> Seq<char> {
    site.operation@ + " "@ + (if site.tables@.len() > 0 {
        site.tables@[0].table@
    } else {
        "query"@
    })
}

pub open spec fn query_def(unit: Seq<char>, s: SqlSiteInput, evidence: Seq<char>) -> DefView {
    (query_symbol(unit, s), SqlDefinitionKind::Query, "sql.query:"@ + query_point(s), site_display(s.site), evidence)
}

pub open spec fn table_symbol(unit: Seq<char>, table: Seq<char>) -> Seq<char> {
    "static-sql-table:"@ + unit + ":"@ + table
}

pub open spec fn table_def(unit: Seq<char>, table: Seq<char>, evidence: Seq<char>) -> DefView {
    (table_symbol(unit, table), SqlDefinitionKind::TableReference, "sql.table:"@ + table, table, evidence)
}

/// `d` added unless a definition of its symbol is listed already.
pub open spec fn add_table(list: Seq<DefView>, d: DefView) -> Seq<DefView> {
    if exists|i: int| 0 <= i < list.len() && (#[trigger] list[i]).0 == d.0 {
        list
    } else {
        list.push(d)
    }
}

pub open spec fn add_tables(
    list: Seq<DefView>,
    unit: Seq<char>,
    tables: Seq<crate::sql_literals::SqlTableAccess>,
    evidence: Seq<char>,
) -> Seq<DefView>
    decreases tables.len(),
{
    if tables.len() == 0 {
        list
    } else {
        add_table(add_tables(list, unit, tables.drop_last(), evidence), table_def(unit, tables.last().table@, evidence))
    }
}

pub open spec fn access_kind(k: SqlTableAccessKind) -> LanguageRelationKind {
    match k {
        SqlTableAccessKind::Read => LanguageRelationKind::Reads,
        SqlTableAccessKind::Write => LanguageRelationKind::Writes,
    }
}

/// The relations of one accepted site: owner (or file) to query, then the
/// query to each table.
pub open spec fn site_relations(unit: Seq<char>, s: SqlSiteInput, evidence: Seq<char>) -> Seq<RelView> {
    let source = match s.owner {
        Some(o) => "symbol:"@ + o@,
        None => "file:"@ + s.path@,
    };
    let query = "symbol:"@ + query_symbol(unit, s);
    seq![(source, query, LanguageRelationKind::ExecutesQuery, evidence)] + s.site.tables@.map_values(
        |a: crate::sql_literals::SqlTableAccess|
            (query, "symbol:"@ + table_symbol(unit, a.table@), access_kind(a.kind), evidence),
    )
}

/// Query definitions, table definitions (first occurrence of each symbol),
/// relations, accepted and owned counts over the inputs, in input order.
pub open spec fn collect(unit: Seq<char>, inputs: Seq<SqlSiteInput>) -> (Seq<DefView>, Seq<DefView>, Seq<RelView>, nat, nat)
    decreases inputs.len(),
{
    if inputs.len() == 0 {
        (Seq::empty(), Seq::empty(), Seq::empty(), 0, 0)
    } else {
        let (q, t, r, accepted, owned) = collect(unit, inputs.drop_last());
        let s = inputs.last();
        match s.evidence_id {
            None => (q, t, r, accepted, owned),
            Some(ev) => (
                q.push(query_def(unit, s, ev@)),
                add_tables(t, unit, s.site.tables@, ev@),
                r + site_relations(unit, s, ev@),
                accepted + 1,
                owned + if s.owner is Some {
                    1nat
                } else {
                    0nat
                },
            ),
        }
    }
}

pub open spec fn def_lt() -> spec_fn(DefView, DefView) -> bool {
    |a: DefView, b: DefView| seq_lt(a.0, b.0)
}

pub open spec fn kind_rank(k: LanguageRelationKind) -> nat {
    match k {
        LanguageRelationKind::ExecutesQuery => 0,
        LanguageRelationKind::Reads => 1,
        LanguageRelationKind::Writes => 2,
        _ => 3,
    }
}

/// Relations order by source key, target key, kind and evidence.
pub open spec fn rel_lt() -> spec_fn(RelView, RelView) -> bool {
    |a: RelView, b: RelView|
        {
            ||| seq_lt(a.0, b.0)
            ||| a.0 == b.0 && seq_lt(a.1, b.1)
            ||| a.0 == b.0 && a.1 == b.1 && kind_rank(a.2) < kind_rank(b.2)
            ||| a.0 == b.0 && a.1 == b.1 && a.2 == b.2 && seq_lt(a.3, b.3)
        }
}

pub open spec fn rel_eq() -> spec_fn(RelView, RelView) -> bool {
    |a: RelView, b: RelView| a == b
}

} // verus!

verus! {

fn i32_text_exec(n: i32) -> (r: String)
    ensures
        r@ == i32_text(n),
{
    if n < 0 {
        let m: i64 = -(n as i64);
        let digits = crate::capabilities::decimal_u64(m as u64);
        let d = crate::text::string_of(digits.as_slice());
        crate::text::concat("-", d.as_str())
    } else {
        let digits = crate::capabilities::decimal_u64(n as u64);
        crate::text::string_of(digits.as_slice())
    }
}

fn entry_or_zero_exec(v: &[i32], k: usize) -> (r: i32)
    ensures
        r == entry_or_zero(v@, k as int),
{
    if k < v.len() {
        v[k]
    } else {
        0
    }
}

fn query_point_exec(s: &SqlSiteInput) -> (r: String)
    ensures
        r@ == query_point(*s),
{
    let line = i32_text_exec(entry_or_zero_exec(s.site.utf8_range.as_slice(), 0));
    let column = i32_text_exec(entry_or_zero_exec(s.site.utf8_range.as_slice(), 1));
    let hex = crate::digest::to_hex(s.site.digest.as_slice());
    let a = crate::text::concat(s.path.as_str(), ":");
    let b = crate::text::concat(a.as_str(), line.as_str());
    let c = crate::text::concat(b.as_str(), ":");
    let d = crate::text::concat(c.as_str(), column.as_str());
    let e = crate::text::concat(d.as_str(), ":");
    crate::text::concat(e.as_str(), hex.as_str())
}

fn endpoint_key_exec(e: &SqlEndpoint) -> (r: String)
    ensures
        r@ == endpoint_key(*e),
{
    match e {
        SqlEndpoint::Symbol(id) => crate::text::concat("symbol:", id.as_str()),
        SqlEndpoint::File(path) => crate::text::concat("file:", path.as_str()),
    }
}

fn copy_endpoint(e: &SqlEndpoint) -> (r: SqlEndpoint)
    ensures
        endpoint_key(r) == endpoint_key(*e),
{
    match e {
        SqlEndpoint::Symbol(id) => SqlEndpoint::Symbol(crate::text::owned(id.as_str())),
        SqlEndpoint::File(path) => SqlEndpoint::File(crate::text::owned(path.as_str())),
    }
}

fn copy_def(d: &SqlDefinition) -> (r: SqlDefinition)
    ensures
        def_view(r) == def_view(*d),
{
    SqlDefinition {
        symbol_id: crate::text::owned(d.symbol_id.as_str()),
        kind: d.kind,
        qualified_name: crate::text::owned(d.qualified_name.as_str()),
        display_name: crate::text::owned(d.display_name.as_str()),
        evidence_id: crate::text::owned(d.evidence_id.as_str()),
    }
}

fn copy_rel(r0: &SqlRelation) -> (r: SqlRelation)
    ensures
        rel_view(r) == rel_view(*r0),
{
    SqlRelation {
        source: copy_endpoint(&r0.source),
        target: copy_endpoint(&r0.target),
        kind: r0.kind,
        evidence_id: crate::text::owned(r0.evidence_id.as_str()),
    }
}

fn add_table_exec(list: &mut Vec<SqlDefinition>, d: SqlDefinition)
    ensures
        def_views(final(list)@) == add_table(def_views(old(list)@), def_view(d)),
{
    let ghost views = def_views(list@);
    let mut i: usize = 0;
    while i < list.len()
        invariant
            i <= list.len(),
            views == def_views(list@),
            forall|k: int| 0 <= k < i ==> (#[trigger] views[k]).0 != d.symbol_id@,
        decreases list.len() - i,
    {
        if crate::text::str_eq(list[i].symbol_id.as_str(), d.symbol_id.as_str()) {
            assert(views[i as int].0 == def_view(d).0);
            return;
        }
        i += 1;
    }
    list.push(d);
    assert(def_views(list@) =~= views.push(def_view(d)));
}

fn kind_index(k: LanguageRelationKind) -> (r: u8)
    ensures
        r == kind_rank(k),
{
    match k {
        LanguageRelationKind::ExecutesQuery => 0,
        LanguageRelationKind::Reads => 1,
        LanguageRelationKind::Writes => 2,
        _ => 3,
    }
}

fn rel_less(a: &SqlRelation, b: &SqlRelation) -> (r: bool)
    ensures
        r == rel_lt()(rel_view(*a), rel_view(*b)),
{
    let sa = crate::text::chars_of(endpoint_key_exec(&a.source).as_str());
    let sb = crate::text::chars_of(endpoint_key_exec(&b.source).as_str());
    let o = crate::text::order_chars(sa.as_slice(), sb.as_slice());
    if o != 0 {
        return o == -1;
    }
    let ta = crate::text::chars_of(endpoint_key_exec(&a.target).as_str());
    let tb = crate::text::chars_of(endpoint_key_exec(&b.target).as_str());
    let o = crate::text::order_chars(ta.as_slice(), tb.as_slice());
    if o != 0 {
        return o == -1;
    }
    let ka = kind_index(a.kind);
    let kb = kind_index(b.kind);
    if a.kind != b.kind {
        if ka != kb {
            return ka < kb;
        }
        return false;
    }
    let ea = crate::text::chars_of(a.evidence_id.as_str());
    let eb = crate::text::chars_of(b.evidence_id.as_str());
    crate::text::order_chars(ea.as_slice(), eb.as_slice()) == -1
}

fn rel_same(a: &SqlRelation, b: &SqlRelation) -> (r: bool)
    ensures
        r == rel_eq()(rel_view(*a), rel_view(*b)),
{
    let sa = endpoint_key_exec(&a.source);
    let sb = endpoint_key_exec(&b.source);
    let ta = endpoint_key_exec(&a.target);
    let tb = endpoint_key_exec(&b.target);
    crate::text::str_eq(sa.as_str(), sb.as_str()) && crate::text::str_eq(ta.as_str(), tb.as_str()) && a.kind
        == b.kind && crate::text::str_eq(a.evidence_id.as_str(), b.evidence_id.as_str())
}

fn def_less(a: &SqlDefinition, b: &SqlDefinition) -> (r: bool)
    ensures
        r == def_lt()(def_view(*a), def_view(*b)),
{
    let sa = crate::text::chars_of(a.symbol_id.as_str());
    let sb = crate::text::chars_of(b.symbol_id.as_str());
    crate::text::order_chars(sa.as_slice(), sb.as_slice()) == -1
}

fn sort_defs(raw: &[SqlDefinition]) -> (r: Vec<SqlDefinition>)
    ensures
        def_views(r@) == sort_by(def_views(raw@), def_lt()),
{
    let ghost all = def_views(raw@);
    let mut sorted: Vec<SqlDefinition> = Vec::new();
    let mut i: usize = 0;
    proof {
        assert(all.take(0) =~= Seq::<DefView>::empty());
    }
    while i < raw.len()
        invariant
            i <= raw.len(),
            all == def_views(raw@),
            def_views(sorted@) == sort_by(all.take(i as int), def_lt()),
        decreases raw.len() - i,
    {
        let x = copy_def(&raw[i]);
        let ghost xv = def_view(x);
        proof {
            assert(all.take(i + 1) =~= all.take(i as int).push(xv));
            lemma_sort_by_push(all.take(i as int), xv, def_lt());
        }
        let ghost views = def_views(sorted@);
        let mut p: usize = sorted.len();
        loop
            invariant
                p <= sorted.len(),
                views == def_views(sorted@),
                xv == def_view(x),
                forall|k: int| p <= k < sorted.len() ==> def_lt()(xv, #[trigger] views[k]),
            ensures
                p <= sorted.len(),
                forall|k: int| p <= k < sorted.len() ==> def_lt()(xv, #[trigger] views[k]),
                p == 0 || !def_lt()(xv, views[p - 1]),
            decreases p,
        {
            if p == 0 {
                break;
            }
            if !def_less(&x, &sorted[p - 1]) {
                break;
            }
            p -= 1;
        }
        proof {
            lemma_insert_by_at(views, xv, def_lt(), p as int);
        }
        sorted.insert(p, x);
        proof {
            assert(def_views(sorted@) =~= views.insert(p as int, xv));
        }
        i += 1;
    }
    proof {
        assert(all.take(raw.len() as int) =~= all);
    }
    sorted
}

fn sort_rels(raw: &[SqlRelation]) -> (r: Vec<SqlRelation>)
    ensures
        rel_views(r@) == sort_by(rel_views(raw@), rel_lt()),
{
    let ghost all = rel_views(raw@);
    let mut sorted: Vec<SqlRelation> = Vec::new();
    let mut i: usize = 0;
    proof {
        assert(all.take(0) =~= Seq::<RelView>::empty());
    }
    while i < raw.len()
        invariant
            i <= raw.len(),
            all == rel_views(raw@),
            rel_views(sorted@) == sort_by(all.take(i as int), rel_lt()),
        decreases raw.len() - i,
    {
        let x = copy_rel(&raw[i]);
        let ghost xv = rel_view(x);
        proof {
            assert(all.take(i + 1) =~= all.take(i as int).push(xv));
            lemma_sort_by_push(all.take(i as int), xv, rel_lt());
        }
        let ghost views = rel_views(sorted@);
        let mut p: usize = sorted.len();
        loop
            invariant
                p <= sorted.len(),
                views == rel_views(sorted@),
                xv == rel_view(x),
                forall|k: int| p <= k < sorted.len() ==> rel_lt()(xv, #[trigger] views[k]),
            ensures
                p <= sorted.len(),
                forall|k: int| p <= k < sorted.len() ==> rel_lt()(xv, #[trigger] views[k]),
                p == 0 || !rel_lt()(xv, views[p - 1]),
            decreases p,
        {
            if p == 0 {
                break;
            }
            if !rel_less(&x, &sorted[p - 1]) {
                break;
            }
            p -= 1;
        }
        proof {
            lemma_insert_by_at(views, xv, rel_lt(), p as int);
        }
        sorted.insert(p, x);
        proof {
            assert(rel_views(sorted@) =~= views.insert(p as int, xv));
        }
        i += 1;
    }
    proof {
        assert(all.take(raw.len() as int) =~= all);
    }
    sorted
}

fn dedup_rels(sorted: &[SqlRelation]) -> (r: Vec<SqlRelation>)
    ensures
        rel_views(r@) == dedup_by(rel_views(sorted@), rel_eq()),
{
    let ghost all = rel_views(sorted@);
    let mut out: Vec<SqlRelation> = Vec::new();
    let mut i: usize = 0;
    proof {
        assert(all.take(0) =~= Seq::<RelView>::empty());
    }
    while i < sorted.len()
        invariant
            i <= sorted.len(),
            all == rel_views(sorted@),
            rel_views(out@) == dedup_by(all.take(i as int), rel_eq()),
        decreases sorted.len() - i,
    {
        let x = copy_rel(&sorted[i]);
        proof {
            assert(all.take(i + 1) =~= all.take(i as int).push(rel_view(x)));
            lemma_dedup_by_push(all.take(i as int), rel_view(x), rel_eq());
        }
        let keep = out.len() == 0 || !rel_same(&out[out.len() - 1], &x);
        proof {
            if out.len() > 0 {
                assert(rel_views(out@).last() == rel_view(out@[out.len() - 1]));
            }
        }
        if keep {
            let ghost before = rel_views(out@);
            out.push(x);
            assert(rel_views(out@) =~= before.push(rel_view(x)));
        }
        i += 1;
    }
    proof {
        assert(all.take(sorted.len() as int) =~= all);
    }
    out
}

} // verus!

verus! {

/// The SQL facts of a unit's query sites, in input order: each site with a
/// source span gives a query definition, the relation from its owner (or
/// its file) to the query, and a read or write relation to each of its
/// tables; each table named gives one table-reference definition, under the
/// evidence of its first site. Definitions are ordered by symbol; relations
/// by source, target, kind and evidence, each once.
pub fn sql_query_facts(unit_id: &str, inputs: &[SqlSiteInput]) -> (r: SqlQueryFacts)
    requires
        inputs.len() <= u64::MAX,
    ensures
        ({
            let (q, t, rels, accepted, owned) = collect(unit_id@, inputs@);
            &&& def_views(r.definitions@) == sort_by(q + t, def_lt())
            &&& rel_views(r.relations@) == dedup_by(sort_by(rels, rel_lt()), rel_eq())
            &&& r.audit.eligible_query_count == inputs.len()
            &&& r.audit.accepted_query_count == accepted
            &&& r.audit.query_definition_count == accepted
            &&& r.audit.table_definition_count == t.len()
            &&& r.audit.callable_owner_count == owned
            &&& r.audit.emitted_relation_count == r.relations@.len()
        }),
{
    let ghost unit = unit_id@;
    let mut queries: Vec<SqlDefinition> = Vec::new();
    let mut tables: Vec<SqlDefinition> = Vec::new();
    let mut relations: Vec<SqlRelation> = Vec::new();
    let mut accepted: u64 = 0;
    let mut owned: u64 = 0;
    let mut i: usize = 0;
    proof {
        assert(inputs@.take(0) =~= Seq::<SqlSiteInput>::empty());
    }
    while i < inputs.len()
        invariant
            i <= inputs.len(),
            inputs.len() <= u64::MAX,
            unit == unit_id@,
            accepted <= i,
            owned <= i,
            ({
                let (q, t, rels, a, o) = collect(unit, inputs@.take(i as int));
                &&& def_views(queries@) == q
                &&& def_views(tables@) == t
                &&& rel_views(relations@) == rels
                &&& accepted == a
                &&& owned == o
            }),
        decreases inputs.len() - i,
    {
        let s = &inputs[i];
        proof {
            assert(inputs@.take(i + 1).drop_last() =~= inputs@.take(i as int));
            assert(inputs@.take(i + 1).last() == inputs@[i as int]);
        }
        match &s.evidence_id {
            None => {},
            Some(ev) => {
                let point = query_point_exec(s);
                let qa = crate::text::concat("static-sql-query:", unit_id);
                let qb = crate::text::concat(qa.as_str(), ":");
                let symbol = crate::text::concat(qb.as_str(), point.as_str());
                let qualified = crate::text::concat("sql.query:", point.as_str());
                let display = crate::sql_queries::display_name(&s.site);
                let qd = SqlDefinition {
                    symbol_id: crate::text::owned(symbol.as_str()),
                    kind: SqlDefinitionKind::Query,
                    qualified_name: qualified,
                    display_name: display,
                    evidence_id: crate::text::owned(ev.as_str()),
                };
                let ghost qprev = def_views(queries@);
                queries.push(qd);
                proof {
                    assert(def_views(queries@) =~= qprev.push(query_def(unit, *s, ev@)));
                }
                let ghost tstart = def_views(tables@);
                let ghost accesses = s.site.tables@;
                let mut j: usize = 0;
                proof {
                    assert(accesses.take(0) =~= Seq::<crate::sql_literals::SqlTableAccess>::empty());
                }
                while j < s.site.tables.len()
                    invariant
                        j <= s.site.tables.len(),
                        unit == unit_id@,
                        accesses == s.site.tables@,
                        def_views(tables@) == add_tables(tstart, unit, accesses.take(j as int), ev@),
                    decreases s.site.tables.len() - j,
                {
                    let name = s.site.tables[j].table.as_str();
                    let ta = crate::text::concat("static-sql-table:", unit_id);
                    let tb = crate::text::concat(ta.as_str(), ":");
                    let tsym = crate::text::concat(tb.as_str(), name);
                    let td = SqlDefinition {
                        symbol_id: tsym,
                        kind: SqlDefinitionKind::TableReference,
                        qualified_name: crate::text::concat("sql.table:", name),
                        display_name: crate::text::owned(name),
                        evidence_id: crate::text::owned(ev.as_str()),
                    };
                    proof {
                        assert(accesses.take(j + 1).drop_last() =~= accesses.take(j as int));
                        assert(accesses.take(j + 1).last() == accesses[j as int]);
                        assert(def_view(td) == table_def(unit, accesses[j as int].table@, ev@));
                    }
                    add_table_exec(&mut tables, td);
                    j += 1;
                }
                proof {
                    assert(accesses.take(accesses.len() as int) =~= accesses);
                }
                let source = match &s.owner {
                    Some(o) => SqlEndpoint::Symbol(crate::text::owned(o.as_str())),
                    None => SqlEndpoint::File(crate::text::owned(s.path.as_str())),
                };
                let ghost rstart = rel_views(relations@);
                let first = SqlRelation {
                    source,
                    target: SqlEndpoint::Symbol(crate::text::owned(symbol.as_str())),
                    kind: LanguageRelationKind::ExecutesQuery,
                    evidence_id: crate::text::owned(ev.as_str()),
                };
                relations.push(first);
                let ghost mapped = accesses.map_values(
                    |a: crate::sql_literals::SqlTableAccess|
                        (
                            "symbol:"@ + query_symbol(unit, *s),
                            "symbol:"@ + table_symbol(unit, a.table@),
                            access_kind(a.kind),
                            ev@,
                        ),
                );
                let ghost head = rstart.push(rel_view(first));
                proof {
                    assert(rel_views(relations@) =~= head);
                    assert(head + mapped.take(0) =~= head);
                }
                let mut k: usize = 0;
                while k < s.site.tables.len()
                    invariant
                        k <= s.site.tables.len(),
                        unit == unit_id@,
                        accesses == s.site.tables@,
                        symbol@ == query_symbol(unit, *s),
                        mapped == accesses.map_values(
                            |a: crate::sql_literals::SqlTableAccess|
                                (
                                    "symbol:"@ + query_symbol(unit, *s),
                                    "symbol:"@ + table_symbol(unit, a.table@),
                                    access_kind(a.kind),
                                    ev@,
                                ),
                        ),
                        rel_views(relations@) == head + mapped.take(k as int),
                    decreases s.site.tables.len() - k,
                {
                    let access = &s.site.tables[k];
                    let ta = crate::text::concat("static-sql-table:", unit_id);
                    let tb = crate::text::concat(ta.as_str(), ":");
                    let tsym = crate::text::concat(tb.as_str(), access.table.as_str());
                    let kind = match access.kind {
                        SqlTableAccessKind::Read => LanguageRelationKind::Reads,
                        SqlTableAccessKind::Write => LanguageRelationKind::Writes,
                    };
                    let rel = SqlRelation {
                        source: SqlEndpoint::Symbol(crate::text::owned(symbol.as_str())),
                        target: SqlEndpoint::Symbol(tsym),
                        kind,
                        evidence_id: crate::text::owned(ev.as_str()),
                    };
                    let ghost prev = rel_views(relations@);
                    relations.push(rel);
                    proof {
                        assert(rel_view(rel) == mapped[k as int]);
                        assert(rel_views(relations@) =~= prev.push(rel_view(rel)));
                        assert(mapped.take(k + 1) =~= mapped.take(k as int).push(mapped[k as int]));
                        assert(head + mapped.take(k + 1) =~= (head + mapped.take(k as int)).push(mapped[k as int]));
                    }
                    k += 1;
                }
                proof {
                    assert(mapped.take(accesses.len() as int) =~= mapped);
                    assert(head + mapped =~= rstart + site_relations(unit, *s, ev@));
                }
                accepted = accepted + 1;
                if s.owner.is_some() {
                    owned = owned + 1;
                }
            },
        }
        i += 1;
    }
    proof {
        assert(inputs@.take(inputs.len() as int) =~= inputs@);
    }
    let ghost q = def_views(queries@);
    let ghost t = def_views(tables@);
    let table_count = tables.len();
    let mut all = queries;
    let rest = tables;
    let mut m: usize = 0;
    while m < rest.len()
        invariant
            m <= rest.len(),
            def_views(rest@) == t,
            def_views(all@) == q + t.take(m as int),
        decreases rest.len() - m,
    {
        let d = copy_def(&rest[m]);
        let ghost prev = def_views(all@);
        all.push(d);
        proof {
            assert(def_views(all@) =~= prev.push(def_view(d)));
            assert(t.take(m + 1) =~= t.take(m as int).push(t[m as int]));
            assert(q + t.take(m + 1) =~= (q + t.take(m as int)).push(t[m as int]));
        }
        m += 1;
    }
    proof {
        assert(t.take(t.len() as int) =~= t);
    }
    let definitions = sort_defs(all.as_slice());
    let sorted_rels = sort_rels(relations.as_slice());
    let final_rels = dedup_rels(sorted_rels.as_slice());
    let emitted = final_rels.len() as u64;
    SqlQueryFacts {
        definitions,
        relations: final_rels,
        audit: SqlQueryAudit {
            eligible_query_count: inputs.len() as u64,
            accepted_query_count: accepted,
            query_definition_count: accepted,
            table_definition_count: table_count as u64,
            emitted_relation_count: emitted,
            callable_owner_count: owned,
        },
    }
}

} // verus!
