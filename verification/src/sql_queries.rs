//! Exact SQL literals as query facts: a query site for each literal in a
//! query context whose statement names a table, and the declaration that
//! owns it.
use vstd::prelude::*;

use crate::definitions::{DefinitionDraft, DefinitionTable};
use crate::digest::{sha256, utf8_bytes};
use crate::inventory::SyntaxDefinition;
use crate::model::{ProviderSymbolId, RepositoryPath};
use crate::sql_literals::{
    access_views, classify_sql, exact_literal_value, first_identifier, raw_accesses,
    spec_exact_literal_value, spec_has_sql_context, spec_sql_tokens, sql_operation,
    strictly_increasing, AccessView, SqlTableAccess,
};
use crate::text::{chars_of, collapse_whitespace};

verus! {

/// The operation of a SQL statement that reads or writes at least one table.
pub open spec fn sql_statement(sql: Seq<char>) -> Option<Seq<char>> {
    let t = spec_sql_tokens(sql);
    match first_identifier(t) {
        Some(first) => match sql_operation(first) {
            Some(op) => if raw_accesses(t, op).len() > 0 {
                Some(op)
            } else {
                None
            },
            None => None,
        },
        None => None,
    }
}

/// `tables` lists the distinct tables the statement accesses, in order.
pub open spec fn is_statement_tables(sql: Seq<char>, op: Seq<char>, tables: Seq<AccessView>) -> bool {
    &&& tables.len() > 0
    &&& strictly_increasing(tables)
    &&& tables.to_set() == raw_accesses(spec_sql_tokens(sql), op).to_set()
}

/// One query literal: its range, operation, statement digest and tables.
#[derive(Debug)]
pub struct SqlQuerySite {
    pub utf8_range: Vec<i32>,
    pub operation: String,
    pub digest: Vec<u8>,
    pub tables: Vec<SqlTableAccess>,
}

/// The query site of a string literal: `raw` is its source text, `prefixes`
/// the source text of each enclosing node before it (nearest first). A
/// literal becomes a site when it sits in a query context, has an exact
/// value, and that value is a statement naming a table.
pub fn sql_query_site(language: &str, raw: &str, utf8_range: Vec<i32>, prefixes: &[&str]) -> (r: Option<
    SqlQuerySite,
>)
    requires
        !((language@ == "typescript"@ || language@ == "javascript"@) && crate::text::trim_ws(raw@)
            == seq!['`']),
        !(language@ == "csharp"@ && crate::text::trim_ws(raw@) == seq!['@', '"']),
    ensures
        match r {
            Some(site) => {
                &&& spec_has_sql_context(crate::census::views_of(prefixes@))
                &&& spec_exact_literal_value(language@, raw@) matches Some(v) && {
                    &&& sql_statement(v) == Some(site.operation@)
                    &&& is_statement_tables(v, site.operation@, access_views(site.tables@))
                    &&& site.digest@ == sha256(utf8_bytes(collapse_whitespace(v)))
                }
                &&& site.utf8_range@ == utf8_range@
            },
            None => {
                ||| !spec_has_sql_context(crate::census::views_of(prefixes@))
                ||| spec_exact_literal_value(language@, raw@) is None
                ||| spec_exact_literal_value(language@, raw@) matches Some(v) && sql_statement(v) is None
            },
        },
{
    if !crate::sql_literals::has_sql_context(prefixes) {
        return None;
    }
    let value = match exact_literal_value(language, raw) {
        Some(v) => v,
        None => {
            return None;
        },
    };
    match classify_sql(value.as_str()) {
        Some((operation, tables)) => {
            proof {
                let t = spec_sql_tokens(value@);
                let acc = access_views(tables@);
                assert(acc.contains(acc[0]));
                assert(acc.to_set().contains(acc[0]));
                assert(raw_accesses(t, operation@).contains(acc[0]));
            }
            let digest = crate::digest::sql_query_digest(value.as_str());
            Some(SqlQuerySite { utf8_range, operation, digest, tables })
        },
        None => None,
    }
}

/// The display name of a query site: its operation and first table.
pub fn display_name(site: &SqlQuerySite) -> (r: String)
    ensures
        r@ == site.operation@ + " "@ + (if site.tables@.len() > 0 {
            site.tables@[0].table@
        } else {
            "query"@
        }),
{
    let head = crate::text::concat(site.operation.as_str(), " ");
    proof {
        reveal_strlit(" ");
        reveal_strlit("query");
    }
    if site.tables.len() > 0 {
        crate::text::concat(head.as_str(), site.tables[0].table.as_str())
    } else {
        crate::text::concat(head.as_str(), "query")
    }
}

} // verus!

verus! {

/// A definition of `path` whose matched declaration encloses the query range.
pub open spec fn owns_query(
    d: DefinitionDraft,
    path: Seq<char>,
    query_range: Seq<i32>,
    syntax: Seq<SyntaxDefinition>,
) -> bool {
    &&& d.path.value@ == path
    &&& d.syntax_match matches Some(index) && (index as int) < syntax.len()
        && crate::inventory::encloses(syntax[index as int].declaration_utf8_range@, query_range)
}

/// The owner order: smaller declarations first (lines, then columns), then by
/// identity.
pub open spec fn owner_before(a: DefinitionDraft, b: DefinitionDraft, syntax: Seq<SyntaxDefinition>) -> bool {
    let wa = crate::adapter::spec_range_weight(syntax[a.syntax_match->0 as int].declaration_utf8_range@);
    let wb = crate::adapter::spec_range_weight(syntax[b.syntax_match->0 as int].declaration_utf8_range@);
    ||| wa.0 < wb.0
    ||| wa.0 == wb.0 && wa.1 < wb.1
    ||| wa == wb && crate::text::seq_lt(a.symbol_id.value@, b.symbol_id.value@)
}

/// The declaration that owns a query literal: among the definitions of the
/// file whose matched declaration encloses the literal, the one with the
/// smallest declaration (then the least identity). `syntax` is the file's
/// declarations, when it has an inventory.
pub fn exact_enclosing_definition(
    path: &RepositoryPath,
    query_range: &[i32],
    syntax: Option<&[SyntaxDefinition]>,
    definitions: &DefinitionTable,
) -> (r: Option<ProviderSymbolId>)
    ensures
        match syntax {
            None => r is None,
            Some(s) => match r {
                None => forall|i: int|
                    0 <= i < definitions.entries@.len() ==> !owns_query(
                        #[trigger] definitions.entries@[i],
                        path.value@,
                        query_range@,
                        s@,
                    ),
                Some(id) => exists|i: int|
                    0 <= i < definitions.entries@.len() && owns_query(
                        #[trigger] definitions.entries@[i],
                        path.value@,
                        query_range@,
                        s@,
                    ) && definitions.entries@[i].symbol_id == id && forall|j: int|
                        0 <= j < definitions.entries@.len() && owns_query(
                            #[trigger] definitions.entries@[j],
                            path.value@,
                            query_range@,
                            s@,
                        ) ==> !owner_before(definitions.entries@[j], definitions.entries@[i], s@),
            },
        },
{
    let s = match syntax {
        Some(s) => s,
        None => {
            return None;
        },
    };
    let ghost e = definitions.entries@;
    let mut best: Option<usize> = None;
    let mut i: usize = 0;
    while i < definitions.entries.len()
        invariant
            i <= e.len(),
            e == definitions.entries@,
            match best {
                None => forall|k: int| 0 <= k < i ==> !owns_query(#[trigger] e[k], path.value@, query_range@, s@),
                Some(b) => b < i && owns_query(e[b as int], path.value@, query_range@, s@) && forall|k: int|
                    0 <= k < i && owns_query(#[trigger] e[k], path.value@, query_range@, s@)
                        ==> !owner_before(e[k], e[b as int], s@),
            },
        decreases e.len() - i,
    {
        let d = &definitions.entries[i];
        let owns = match d.syntax_match {
            Some(index) => index < s.len() && crate::text::str_eq(d.path.as_str(), path.as_str())
                && crate::syntax::range_contains(s[index].declaration_utf8_range.as_slice(), query_range),
            None => false,
        };
        proof {
            if let Some(index) = d.syntax_match {
                if (index as int) < s@.len() {
                    assert(crate::inventory::encloses(s@[index as int].declaration_utf8_range@, query_range@)
                        == match (
                        crate::syntax::spec_canonical_bounds(s@[index as int].declaration_utf8_range@),
                        crate::syntax::spec_canonical_bounds(query_range@),
                    ) {
                        (Some(o), Some(q)) => crate::syntax::point_le(o.0, q.0) && crate::syntax::point_le(q.1, o.1),
                        _ => false,
                    });
                }
            }
            assert(owns == owns_query(*d, path.value@, query_range@, s@));
        }
        if owns {
            let better = match best {
                None => true,
                Some(b) => owner_before_exec(d, &definitions.entries[b], s),
            };
            if better {
                proof {
                    if let Some(b) = best {
                        assert forall|k: int|
                            0 <= k < i + 1 && owns_query(#[trigger] e[k], path.value@, query_range@, s@)
                                implies !owner_before(e[k], e[i as int], s@) by {
                            if k < i {
                                lemma_owner_before_not_both(e[k], e[b as int], e[i as int], s@);
                            } else {
                                lemma_owner_before_irreflexive(e[i as int], s@);
                            }
                        }
                    } else {
                        assert forall|k: int|
                            0 <= k < i + 1 && owns_query(#[trigger] e[k], path.value@, query_range@, s@)
                                implies !owner_before(e[k], e[i as int], s@) by {
                            lemma_owner_before_irreflexive(e[i as int], s@);
                        }
                    }
                }
                best = Some(i);
            }
        }
        i += 1;
    }
    match best {
        Some(b) => Some(definitions.entries[b].symbol_id.duplicate()),
        None => None,
    }
}

proof fn lemma_owner_before_irreflexive(a: DefinitionDraft, syntax: Seq<SyntaxDefinition>)
    ensures
        !owner_before(a, a, syntax),
{
    crate::text::lemma_seq_lt_irreflexive(a.symbol_id.value@);
}

/// `k` cannot come before the new best when it did not come before the old
/// best and the new best came before the old one.
proof fn lemma_owner_before_not_both(k: DefinitionDraft, b: DefinitionDraft, i: DefinitionDraft, syntax: Seq<SyntaxDefinition>)
    requires
        !owner_before(k, b, syntax),
        owner_before(i, b, syntax),
    ensures
        !owner_before(k, i, syntax),
{
    if owner_before(k, i, syntax) {
        let wk = crate::adapter::spec_range_weight(syntax[k.syntax_match->0 as int].declaration_utf8_range@);
        let wi = crate::adapter::spec_range_weight(syntax[i.syntax_match->0 as int].declaration_utf8_range@);
        let wb = crate::adapter::spec_range_weight(syntax[b.syntax_match->0 as int].declaration_utf8_range@);
        if wk == wi && wi == wb {
            crate::text::lemma_seq_lt_transitive(k.symbol_id.value@, i.symbol_id.value@, b.symbol_id.value@);
        }
    }
}

fn owner_before_exec(a: &DefinitionDraft, b: &DefinitionDraft, syntax: &[SyntaxDefinition]) -> (r: bool)
    requires
        a.syntax_match matches Some(x) && x < syntax@.len(),
        b.syntax_match matches Some(y) && y < syntax@.len(),
    ensures
        r == owner_before(*a, *b, syntax@),
{
    let ia = match a.syntax_match {
        Some(x) => x,
        None => 0,
    };
    let ib = match b.syntax_match {
        Some(y) => y,
        None => 0,
    };
    let wa = crate::adapter::range_weight(syntax[ia].declaration_utf8_range.as_slice());
    let wb = crate::adapter::range_weight(syntax[ib].declaration_utf8_range.as_slice());
    if wa.0 != wb.0 {
        return wa.0 < wb.0;
    }
    if wa.1 != wb.1 {
        return wa.1 < wb.1;
    }
    let av = chars_of(a.symbol_id.value.as_str());
    let bv = chars_of(b.symbol_id.value.as_str());
    crate::text::order_chars(av.as_slice(), bv.as_slice()) == -1
}

} // verus!
