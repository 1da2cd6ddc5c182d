//! The type-relation audit of one language over a run: the audits of its
//! units merged one after the other (the site and file sets united, the
//! entries put in canonical order without repeats), and its counts.
use vstd::prelude::*;

use crate::census::language_rank;
use crate::import_summary::distinct_count;
use crate::language_ir::language_index;
use crate::model::{LanguageRelationKind, ProgrammingLanguage};
use crate::ordering::{dedup_by, lemma_dedup_by_push, lemma_insert_by_at, lemma_sort_by_push, sort_by};
use crate::relations::{relation_kind_rank, spec_relation_kind_rank};
use crate::text::{order_chars, seq_lt, str_eq, string_views};
use crate::unit_relations::{audit_entry_view, audit_entry_views, AuditEntryView, TypeRelationAuditEntry};

verus! {

/// The type-relation audit of one unit.
#[derive(Debug)]
pub struct TypeRelationAudit {
    pub explicit_site_keys: Vec<String>,
    pub matched_explicit_site_keys: Vec<String>,
    pub inventory_failed_files: Vec<String>,
    pub entries: Vec<TypeRelationAuditEntry>,
}

/// The type-relation summary of one language.
#[derive(Clone, Copy, Debug, PartialEq, Eq, Structural)]
pub struct TypeRelationLanguageSummary {
    pub language: ProgrammingLanguage,
    pub relation_count: u64,
    pub extends_count: u64,
    pub implements_count: u64,
    pub mixes_in_count: u64,
    pub overrides_count: u64,
    pub uses_type_count: u64,
    pub explicit_hierarchy_site_count: u64,
    pub matched_explicit_hierarchy_site_count: u64,
    pub unmatched_explicit_hierarchy_site_count: u64,
    pub inventory_failed_file_count: u64,
}

/// Entries order by unit, language, path, relation kind, source and target
/// symbols, native relation, then start and end position.
pub open spec fn entry_before(a: AuditEntryView, b: AuditEntryView) -> bool {
    if a.0 != b.0 {
        seq_lt(a.0, b.0)
    } else if a.1 != b.1 {
        language_rank(a.1) < language_rank(b.1)
    } else if a.2 != b.2 {
        seq_lt(a.2, b.2)
    } else if spec_relation_kind_rank(a.4) != spec_relation_kind_rank(b.4) {
        spec_relation_kind_rank(a.4) < spec_relation_kind_rank(b.4)
    } else if a.5.0 != b.5.0 {
        seq_lt(a.5.0, b.5.0)
    } else if a.6.0 != b.6.0 {
        seq_lt(a.6.0, b.6.0)
    } else if a.3 != b.3 {
        seq_lt(a.3, b.3)
    } else if a.7.0 != b.7.0 {
        a.7.0 < b.7.0
    } else if a.7.1 != b.7.1 {
        a.7.1 < b.7.1
    } else if a.7.2 != b.7.2 {
        a.7.2 < b.7.2
    } else {
        a.7.3 < b.7.3
    }
}

pub open spec fn entry_lt() -> spec_fn(AuditEntryView, AuditEntryView) -> bool {
    |a: AuditEntryView, b: AuditEntryView| entry_before(a, b)
}

pub open spec fn entry_same() -> spec_fn(AuditEntryView, AuditEntryView) -> bool {
    |a: AuditEntryView, b: AuditEntryView| a == b
}

/// Entries in canonical order, a repeat of the entry before dropped.
pub open spec fn canonical_entries(v: Seq<AuditEntryView>) -> Seq<AuditEntryView> {
    dedup_by(sort_by(v, entry_lt()), entry_same())
}

/// The entries of the first `n` audits merged one after the other.
pub open spec fn merged_entries(s: Seq<TypeRelationAudit>, n: int) -> Seq<AuditEntryView>
    decreases n,
{
    if n <= 0 {
        Seq::empty()
    } else {
        canonical_entries(merged_entries(s, n - 1) + audit_entry_views(s[n - 1].entries@))
    }
}

/// The keys (`which` 0: explicit sites, 1: matched sites, 2: failed files)
/// of all the audits.
pub open spec fn key_set(s: Seq<TypeRelationAudit>, which: int) -> Set<Seq<char>>
    decreases s.len(),
{
    if s.len() == 0 {
        Set::empty()
    } else {
        key_set(s.drop_last(), which).union(
            string_views(
                if which == 0 {
                    s.last().explicit_site_keys@
                } else if which == 1 {
                    s.last().matched_explicit_site_keys@
                } else {
                    s.last().inventory_failed_files@
                },
            ).to_set(),
        )
    }
}

/// How many entries of `v` are of `kind`.
pub open spec fn kind_count(v: Seq<AuditEntryView>, kind: LanguageRelationKind) -> nat
    decreases v.len(),
{
    if v.len() == 0 {
        0
    } else {
        kind_count(v.drop_last(), kind) + if v.last().4 == kind {
            1nat
        } else {
            0nat
        }
    }
}

fn copy_entry(e: &TypeRelationAuditEntry) -> (r: TypeRelationAuditEntry)
    ensures
        audit_entry_view(r) == audit_entry_view(*e),
{
    TypeRelationAuditEntry {
        unit_id: crate::text::owned(e.unit_id.as_str()),
        language: e.language,
        path: crate::text::owned(e.path.as_str()),
        native_relation: crate::text::owned(e.native_relation.as_str()),
        kind: e.kind,
        source_symbol: crate::text::owned(e.source_symbol.as_str()),
        source_name: crate::text::owned(e.source_name.as_str()),
        target_symbol: crate::text::owned(e.target_symbol.as_str()),
        target_name: crate::text::owned(e.target_name.as_str()),
        start_line: e.start_line,
        start_utf8_column: e.start_utf8_column,
        end_line: e.end_line,
        end_utf8_column: e.end_utf8_column,
    }
}

fn text_order(a: &str, b: &str) -> (r: i8)
    ensures
        r == -1 <==> seq_lt(a@, b@),
        r == 0 <==> a@ == b@,
{
    let x = crate::text::chars_of(a);
    let y = crate::text::chars_of(b);
    order_chars(x.as_slice(), y.as_slice())
}

fn entry_less(a: &TypeRelationAuditEntry, b: &TypeRelationAuditEntry) -> (r: bool)
    ensures
        r == entry_before(audit_entry_view(*a), audit_entry_view(*b)),
{
    let o = text_order(a.unit_id.as_str(), b.unit_id.as_str());
    if o != 0 {
        return o == -1;
    }
    let la = language_index(a.language);
    let lb = language_index(b.language);
    if la != lb {
        return la < lb;
    }
    proof {
        assert(a.language == b.language);
    }
    let o = text_order(a.path.as_str(), b.path.as_str());
    if o != 0 {
        return o == -1;
    }
    let ka = relation_kind_rank(a.kind);
    let kb = relation_kind_rank(b.kind);
    if ka != kb {
        return ka < kb;
    }
    let o = text_order(a.source_symbol.as_str(), b.source_symbol.as_str());
    if o != 0 {
        return o == -1;
    }
    let o = text_order(a.target_symbol.as_str(), b.target_symbol.as_str());
    if o != 0 {
        return o == -1;
    }
    let o = text_order(a.native_relation.as_str(), b.native_relation.as_str());
    if o != 0 {
        return o == -1;
    }
    if a.start_line != b.start_line {
        return a.start_line < b.start_line;
    }
    if a.start_utf8_column != b.start_utf8_column {
        return a.start_utf8_column < b.start_utf8_column;
    }
    if a.end_line != b.end_line {
        return a.end_line < b.end_line;
    }
    a.end_utf8_column < b.end_utf8_column
}

fn entry_same_exec(a: &TypeRelationAuditEntry, b: &TypeRelationAuditEntry) -> (r: bool)
    ensures
        r == (audit_entry_view(*a) == audit_entry_view(*b)),
{
    str_eq(a.unit_id.as_str(), b.unit_id.as_str()) && a.language == b.language && str_eq(a.path.as_str(), b.path.as_str())
        && str_eq(a.native_relation.as_str(), b.native_relation.as_str()) && a.kind == b.kind && str_eq(
        a.source_symbol.as_str(),
        b.source_symbol.as_str(),
    ) && str_eq(a.source_name.as_str(), b.source_name.as_str()) && str_eq(
        a.target_symbol.as_str(),
        b.target_symbol.as_str(),
    ) && str_eq(a.target_name.as_str(), b.target_name.as_str()) && a.start_line == b.start_line
        && a.start_utf8_column == b.start_utf8_column && a.end_line == b.end_line && a.end_utf8_column
        == b.end_utf8_column
}

fn sort_entries(raw: &[TypeRelationAuditEntry]) -> (r: Vec<TypeRelationAuditEntry>)
    ensures
        audit_entry_views(r@) == sort_by(audit_entry_views(raw@), entry_lt()),
{
    let ghost all = audit_entry_views(raw@);
    let mut sorted: Vec<TypeRelationAuditEntry> = Vec::new();
    let mut i: usize = 0;
    proof {
        assert(all.take(0) =~= Seq::<AuditEntryView>::empty());
    }
    while i < raw.len()
        invariant
            i <= raw.len(),
            all == audit_entry_views(raw@),
            audit_entry_views(sorted@) == sort_by(all.take(i as int), entry_lt()),
        decreases raw.len() - i,
    {
        let x = copy_entry(&raw[i]);
        let ghost xv = audit_entry_view(x);
        proof {
            assert(all.take(i + 1) =~= all.take(i as int).push(xv));
            lemma_sort_by_push(all.take(i as int), xv, entry_lt());
        }
        let ghost views = audit_entry_views(sorted@);
        let mut p: usize = sorted.len();
        loop
            invariant
                p <= sorted.len(),
                views == audit_entry_views(sorted@),
                xv == audit_entry_view(x),
                forall|k: int| p <= k < sorted.len() ==> entry_lt()(xv, #[trigger] views[k]),
            ensures
                p <= sorted.len(),
                forall|k: int| p <= k < sorted.len() ==> entry_lt()(xv, #[trigger] views[k]),
                p == 0 || !entry_lt()(xv, views[p - 1]),
            decreases p,
        {
            if p == 0 {
                break;
            }
            if !entry_less(&x, &sorted[p - 1]) {
                break;
            }
            p -= 1;
        }
        proof {
            lemma_insert_by_at(views, xv, entry_lt(), p as int);
        }
        sorted.insert(p, x);
        proof {
            assert(audit_entry_views(sorted@) =~= views.insert(p as int, xv));
        }
        i += 1;
    }
    proof {
        assert(all.take(raw.len() as int) =~= all);
    }
    sorted
}

fn dedup_entries(sorted: &[TypeRelationAuditEntry]) -> (r: Vec<TypeRelationAuditEntry>)
    ensures
        audit_entry_views(r@) == dedup_by(audit_entry_views(sorted@), entry_same()),
{
    let ghost all = audit_entry_views(sorted@);
    let mut out: Vec<TypeRelationAuditEntry> = Vec::new();
    let mut i: usize = 0;
    proof {
        assert(all.take(0) =~= Seq::<AuditEntryView>::empty());
    }
    while i < sorted.len()
        invariant
            i <= sorted.len(),
            all == audit_entry_views(sorted@),
            audit_entry_views(out@) == dedup_by(all.take(i as int), entry_same()),
        decreases sorted.len() - i,
    {
        let x = copy_entry(&sorted[i]);
        proof {
            assert(all.take(i + 1) =~= all.take(i as int).push(audit_entry_view(x)));
            lemma_dedup_by_push(all.take(i as int), audit_entry_view(x), entry_same());
        }
        let keep = out.len() == 0 || !entry_same_exec(&out[out.len() - 1], &x);
        proof {
            if out.len() > 0 {
                assert(audit_entry_views(out@).last() == audit_entry_view(out@[out.len() - 1]));
            }
        }
        if keep {
            let ghost before = audit_entry_views(out@);
            out.push(x);
            assert(audit_entry_views(out@) =~= before.push(audit_entry_view(x)));
        }
        i += 1;
    }
    proof {
        assert(all.take(sorted.len() as int) =~= all);
    }
    out
}


fn copy_entries(out: &mut Vec<TypeRelationAuditEntry>, v: &Vec<TypeRelationAuditEntry>)
    ensures
        audit_entry_views(final(out)@) == audit_entry_views(old(out)@) + audit_entry_views(v@),
{
    let ghost start = audit_entry_views(out@);
    let mut i: usize = 0;
    while i < v.len()
        invariant
            i <= v.len(),
            audit_entry_views(out@) == start + audit_entry_views(v@).take(i as int),
        decreases v.len() - i,
    {
        let ghost before = audit_entry_views(out@);
        out.push(copy_entry(&v[i]));
        assert(audit_entry_views(out@) =~= before.push(audit_entry_view(v@[i as int])));
        assert(audit_entry_views(out@) =~= start + audit_entry_views(v@).take(i + 1));
        i += 1;
    }
    assert(audit_entry_views(v@).take(v.len() as int) =~= audit_entry_views(v@));
}

fn push_keys(out: &mut Vec<String>, v: &Vec<String>)
    ensures
        string_views(final(out)@).to_set() == string_views(old(out)@).to_set().union(string_views(v@).to_set()),
{
    let ghost start = string_views(out@);
    let mut i: usize = 0;
    while i < v.len()
        invariant
            i <= v.len(),
            string_views(out@).to_set() == start.to_set().union(string_views(v@).take(i as int).to_set()),
        decreases v.len() - i,
    {
        let ghost before = string_views(out@);
        out.push(crate::text::owned(v[i].as_str()));
        proof {
            assert(string_views(out@) =~= before.push(v@[i as int]@));
            before.lemma_push_to_set_commute(v@[i as int]@);
            assert(string_views(v@).take(i + 1) =~= string_views(v@).take(i as int).push(v@[i as int]@));
            string_views(v@).take(i as int).lemma_push_to_set_commute(v@[i as int]@);
            assert(string_views(out@).to_set() =~= start.to_set().union(string_views(v@).take(i + 1).to_set()));
        }
        i += 1;
    }
    assert(string_views(v@).take(v.len() as int) =~= string_views(v@));
}

fn contains_text(v: &Vec<String>, x: &str) -> (r: bool)
    ensures
        r == string_views(v@).contains(x@),
{
    let mut i: usize = 0;
    while i < v.len()
        invariant
            i <= v.len(),
            forall|j: int| 0 <= j < i ==> v@[j]@ != x@,
        decreases v.len() - i,
    {
        if str_eq(v[i].as_str(), x) {
            assert(string_views(v@)[i as int] == x@);
            return true;
        }
        i += 1;
    }
    proof {
        if string_views(v@).contains(x@) {
            let j = choose|j: int| 0 <= j < string_views(v@).len() && string_views(v@)[j] == x@;
            assert(v@[j]@ == x@);
        }
    }
    false
}

fn count_kinds(v: &Vec<TypeRelationAuditEntry>) -> (r: (u64, u64, u64, u64, u64))
    ensures
        r.0 == kind_count(audit_entry_views(v@), LanguageRelationKind::Extends),
        r.1 == kind_count(audit_entry_views(v@), LanguageRelationKind::Implements),
        r.2 == kind_count(audit_entry_views(v@), LanguageRelationKind::MixesIn),
        r.3 == kind_count(audit_entry_views(v@), LanguageRelationKind::Overrides),
        r.4 == kind_count(audit_entry_views(v@), LanguageRelationKind::UsesType),
{
    let ghost w = audit_entry_views(v@);
    let mut c: (u64, u64, u64, u64, u64) = (0, 0, 0, 0, 0);
    let mut i: usize = 0;
    while i < v.len()
        invariant
            i <= v.len(),
            w == audit_entry_views(v@),
            c.0 == kind_count(w.take(i as int), LanguageRelationKind::Extends),
            c.1 == kind_count(w.take(i as int), LanguageRelationKind::Implements),
            c.2 == kind_count(w.take(i as int), LanguageRelationKind::MixesIn),
            c.3 == kind_count(w.take(i as int), LanguageRelationKind::Overrides),
            c.4 == kind_count(w.take(i as int), LanguageRelationKind::UsesType),
            c.0 <= i && c.1 <= i && c.2 <= i && c.3 <= i && c.4 <= i,
        decreases v.len() - i,
    {
        proof {
            assert(w.take(i + 1).drop_last() =~= w.take(i as int));
            assert(w.take(i + 1).last() == audit_entry_view(v@[i as int]));
        }
        match v[i].kind {
            LanguageRelationKind::Extends => {
                c.0 = c.0 + 1;
            },
            LanguageRelationKind::Implements => {
                c.1 = c.1 + 1;
            },
            LanguageRelationKind::MixesIn => {
                c.2 = c.2 + 1;
            },
            LanguageRelationKind::Overrides => {
                c.3 = c.3 + 1;
            },
            LanguageRelationKind::UsesType => {
                c.4 = c.4 + 1;
            },
            _ => {},
        }
        i += 1;
    }
    assert(w.take(v.len() as int) =~= w);
    c
}

/// The type-relation summary of a language from the audits of its units,
/// merged in order: the number of distinct entries and of each hierarchy
/// kind among them, the explicit hierarchy sites, those matched, those left
/// unmatched, and the files whose type-relation inventory failed.
pub fn type_relation_language_summary(language: ProgrammingLanguage, audits: &[TypeRelationAudit]) -> (r:
    TypeRelationLanguageSummary)
    ensures
        r.language == language,
        r.relation_count == merged_entries(audits@, audits.len() as int).len(),
        r.extends_count == kind_count(merged_entries(audits@, audits.len() as int), LanguageRelationKind::Extends),
        r.implements_count == kind_count(
            merged_entries(audits@, audits.len() as int),
            LanguageRelationKind::Implements,
        ),
        r.mixes_in_count == kind_count(merged_entries(audits@, audits.len() as int), LanguageRelationKind::MixesIn),
        r.overrides_count == kind_count(merged_entries(audits@, audits.len() as int), LanguageRelationKind::Overrides),
        r.uses_type_count == kind_count(merged_entries(audits@, audits.len() as int), LanguageRelationKind::UsesType),
        r.explicit_hierarchy_site_count == key_set(audits@, 0).len(),
        r.matched_explicit_hierarchy_site_count == key_set(audits@, 1).len(),
        r.unmatched_explicit_hierarchy_site_count == key_set(audits@, 0).difference(key_set(audits@, 1)).len(),
        r.inventory_failed_file_count == key_set(audits@, 2).len(),
{
    let ghost s = audits@;
    let mut merged: Vec<TypeRelationAuditEntry> = Vec::new();
    let mut explicit: Vec<String> = Vec::new();
    let mut matched: Vec<String> = Vec::new();
    let mut failed: Vec<String> = Vec::new();
    let mut i: usize = 0;
    proof {
        assert(string_views(explicit@).to_set() =~= key_set(s.take(0), 0));
        assert(string_views(matched@).to_set() =~= key_set(s.take(0), 1));
        assert(string_views(failed@).to_set() =~= key_set(s.take(0), 2));
    }
    while i < audits.len()
        invariant
            s == audits@,
            i <= s.len(),
            audit_entry_views(merged@) == merged_entries(s, i as int),
            string_views(explicit@).to_set() == key_set(s.take(i as int), 0),
            string_views(matched@).to_set() == key_set(s.take(i as int), 1),
            string_views(failed@).to_set() == key_set(s.take(i as int), 2),
        decreases s.len() - i,
    {
        let a = &audits[i];
        let mut all: Vec<TypeRelationAuditEntry> = Vec::new();
        copy_entries(&mut all, &merged);
        copy_entries(&mut all, &a.entries);
        let sorted = sort_entries(all.as_slice());
        merged = dedup_entries(sorted.as_slice());
        push_keys(&mut explicit, &a.explicit_site_keys);
        push_keys(&mut matched, &a.matched_explicit_site_keys);
        push_keys(&mut failed, &a.inventory_failed_files);
        proof {
            assert(s.take(i + 1).drop_last() =~= s.take(i as int));
            assert(s.take(i + 1).last() == s[i as int]);
            assert(audit_entry_views(all@) =~= merged_entries(s, i as int) + audit_entry_views(s[i as int].entries@));
        }
        i += 1;
    }
    proof {
        assert(s.take(s.len() as int) =~= s);
    }
    let (extends, implements, mixes_in, overrides, uses_type) = count_kinds(&merged);
    let ghost e = key_set(s, 0);
    let ghost m = key_set(s, 1);
    let mut unmatched: Vec<String> = Vec::new();
    let mut j: usize = 0;
    while j < explicit.len()
        invariant
            j <= explicit.len(),
            string_views(explicit@).to_set() == e,
            string_views(matched@).to_set() == m,
            string_views(unmatched@).to_set() == string_views(explicit@).take(j as int).to_set().difference(m),
        decreases explicit.len() - j,
    {
        let ghost before = string_views(unmatched@);
        let x = &explicit[j];
        let ghost xv = explicit@[j as int]@;
        let hit = contains_text(&matched, x.as_str());
        proof {
            assert(string_views(explicit@).take(j + 1) =~= string_views(explicit@).take(j as int).push(xv));
            string_views(explicit@).take(j as int).lemma_push_to_set_commute(xv);
            assert(hit == m.contains(xv));
        }
        if !hit {
            unmatched.push(crate::text::owned(x.as_str()));
            proof {
                assert(string_views(unmatched@) =~= before.push(xv));
                before.lemma_push_to_set_commute(xv);
            }
        }
        proof {
            assert(string_views(unmatched@).to_set() =~= string_views(explicit@).take(j + 1).to_set().difference(m));
        }
        j += 1;
    }
    proof {
        assert(string_views(explicit@).take(explicit.len() as int) =~= string_views(explicit@));
    }
    let merged_count = merged.len() as u64;
    TypeRelationLanguageSummary {
        language,
        relation_count: merged_count,
        extends_count: extends,
        implements_count: implements,
        mixes_in_count: mixes_in,
        overrides_count: overrides,
        uses_type_count: uses_type,
        explicit_hierarchy_site_count: distinct_count(explicit),
        matched_explicit_hierarchy_site_count: distinct_count(matched),
        unmatched_explicit_hierarchy_site_count: distinct_count(unmatched),
        inventory_failed_file_count: distinct_count(failed),
    }
}

} // verus!
