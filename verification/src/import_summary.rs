//! The import audit of one language over a run: the import and export
//! audits of its units merged, each count summed and the files whose import
//! inventory failed, or whose project metadata was missing, counted once.
use vstd::prelude::*;

use crate::capabilities::{audit_of, find_audit, ImportAudit, ImportCapabilityAudit};
use crate::model::{AnalysisCapability, ProgrammingLanguage, RepositoryPath};
use crate::schedule::path_set;
use crate::text::{sorted_unique_strings, string_views};

verus! {

/// The import summary of one language.
#[derive(Clone, Copy, Debug, PartialEq, Eq, Structural)]
pub struct ImportLanguageSummary {
    pub language: ProgrammingLanguage,
    pub eligible_site_count: u64,
    pub import_site_count: u64,
    pub export_site_count: u64,
    pub internal_relation_count: u64,
    pub known_external_count: u64,
    pub unresolved_count: u64,
    pub ambiguous_count: u64,
    pub invalid_evidence_count: u64,
    pub inventory_failed_file_count: u64,
    pub metadata_unavailable_file_count: u64,
}

/// Count `k` of a capability audit (eligible, internal, known external,
/// unresolved, ambiguous, invalid evidence); zero for an absent audit.
pub open spec fn audit_count(a: Option<ImportCapabilityAudit>, k: int) -> nat {
    match a {
        None => 0,
        Some(x) => if k == 0 {
            x.eligible_count as nat
        } else if k == 1 {
            x.internal_relation_count as nat
        } else if k == 2 {
            x.known_external_count as nat
        } else if k == 3 {
            x.unresolved_count as nat
        } else if k == 4 {
            x.ambiguous_count as nat
        } else {
            x.invalid_evidence_count as nat
        },
    }
}

/// Count `k` of capability `c` summed over the audits.
pub open spec fn capability_total(s: Seq<ImportAudit>, c: AnalysisCapability, k: int) -> nat
    decreases s.len(),
{
    if s.len() == 0 {
        0
    } else {
        capability_total(s.drop_last(), c, k) + audit_count(audit_of(s.last(), c), k)
    }
}

/// The files of a capability audit whose import inventory failed (`missing`
/// false) or whose project metadata was missing (`missing` true).
pub open spec fn audit_files(a: Option<ImportCapabilityAudit>, missing: bool) -> Set<Seq<char>> {
    match a {
        None => Set::empty(),
        Some(x) => if missing {
            path_set(x.metadata_unavailable_files@)
        } else {
            path_set(x.inventory_failed_files@)
        },
    }
}

/// Those files over the import and export audits of every unit.
pub open spec fn language_files(s: Seq<ImportAudit>, missing: bool) -> Set<Seq<char>>
    decreases s.len(),
{
    if s.len() == 0 {
        Set::empty()
    } else {
        language_files(s.drop_last(), missing).union(
            audit_files(audit_of(s.last(), AnalysisCapability::Imports), missing),
        ).union(audit_files(audit_of(s.last(), AnalysisCapability::Exports), missing))
    }
}

/// Every summed count fits its counter.
pub open spec fn import_totals_fit(s: Seq<ImportAudit>) -> bool {
    forall|k: int|
        0 <= k < 6 ==> #[trigger] capability_total(s, AnalysisCapability::Imports, k) + capability_total(
            s,
            AnalysisCapability::Exports,
            k,
        ) <= u64::MAX
}

proof fn lemma_capability_total_step(s: Seq<ImportAudit>, c: AnalysisCapability, i: int, k: int)
    requires
        0 <= i < s.len(),
    ensures
        capability_total(s.take(i + 1), c, k) == capability_total(s.take(i), c, k) + audit_count(audit_of(s[i], c), k),
{
    assert(s.take(i + 1).drop_last() =~= s.take(i));
}

proof fn lemma_capability_total_prefix(s: Seq<ImportAudit>, c: AnalysisCapability, i: int, k: int)
    requires
        0 <= i <= s.len(),
    ensures
        capability_total(s.take(i), c, k) <= capability_total(s, c, k),
    decreases s.len() - i,
{
    if i < s.len() {
        lemma_capability_total_prefix(s, c, i + 1, k);
        lemma_capability_total_step(s, c, i, k);
    } else {
        assert(s.take(i) =~= s);
    }
}

pub open spec fn opt_view(a: Option<&ImportCapabilityAudit>) -> Option<ImportCapabilityAudit> {
    match a {
        Some(x) => Some(*x),
        None => None,
    }
}

fn capability_audit(audit: &ImportAudit, c: AnalysisCapability) -> (r: Option<&ImportCapabilityAudit>)
    ensures
        opt_view(r) == audit_of(*audit, c),
{
    match find_audit(audit, c) {
        Some(i) => Some(&audit.capabilities[i].audit),
        None => None,
    }
}

fn push_paths(out: &mut Vec<String>, paths: &Vec<RepositoryPath>)
    ensures
        string_views(final(out)@).to_set() == string_views(old(out)@).to_set().union(path_set(paths@)),
{
    let ghost start = string_views(out@);
    let mut i: usize = 0;
    while i < paths.len()
        invariant
            i <= paths.len(),
            string_views(out@).to_set() == start.to_set().union(path_set(paths@.take(i as int))),
        decreases paths.len() - i,
    {
        let ghost before = string_views(out@);
        out.push(crate::text::owned(paths[i].as_str()));
        proof {
            assert(string_views(out@) =~= before.push(paths@[i as int].value@));
            assert(crate::schedule::path_views(paths@.take(i + 1)) =~= crate::schedule::path_views(
                paths@.take(i as int),
            ).push(paths@[i as int].value@));
            before.lemma_push_to_set_commute(paths@[i as int].value@);
            crate::schedule::path_views(paths@.take(i as int)).lemma_push_to_set_commute(paths@[i as int].value@);
            assert(string_views(out@).to_set() =~= start.to_set().union(path_set(paths@.take(i + 1))));
        }
        i += 1;
    }
    assert(paths@.take(paths.len() as int) =~= paths@);
}

fn push_audit_files(out: &mut Vec<String>, a: Option<&ImportCapabilityAudit>, missing: bool)
    ensures
        string_views(final(out)@).to_set() == string_views(old(out)@).to_set().union(audit_files(opt_view(a), missing)),
{
    match a {
        Some(x) => {
            if missing {
                push_paths(out, &x.metadata_unavailable_files);
            } else {
                push_paths(out, &x.inventory_failed_files);
            }
        },
        None => {
            assert(string_views(out@).to_set().union(Set::empty()) =~= string_views(out@).to_set());
        },
    }
}

fn count_at(a: Option<&ImportCapabilityAudit>, k: usize) -> (r: u64)
    ensures
        r == audit_count(opt_view(a), k as int),
{
    match a {
        Some(c) => if k == 0 {
            c.eligible_count
        } else if k == 1 {
            c.internal_relation_count
        } else if k == 2 {
            c.known_external_count
        } else if k == 3 {
            c.unresolved_count
        } else if k == 4 {
            c.ambiguous_count
        } else {
            c.invalid_evidence_count
        },
        None => 0,
    }
}

pub(crate) fn distinct_count(v: Vec<String>) -> (r: u64)
    ensures
        r == string_views(v@).to_set().len(),
{
    let u = sorted_unique_strings(v);
    proof {
        let w = string_views(u@);
        assert(w.no_duplicates()) by {
            assert forall|i: int, j: int| 0 <= i < w.len() && 0 <= j < w.len() && i != j implies w[i] != w[j] by {
                if i < j {
                    crate::text::lemma_seq_lt_irreflexive(w[i]);
                } else {
                    crate::text::lemma_seq_lt_irreflexive(w[j]);
                }
            }
        }
        w.unique_seq_to_set();
        assert(w.to_set() =~= string_views(v@).to_set());
    }
    u.len() as u64
}


/// The import summary of a language from the import audits of its units:
/// each count summed over the units' import and export audits, the site
/// counts split by capability, and the distinct files whose import inventory
/// failed or whose project metadata was missing.
pub fn import_language_summary(language: ProgrammingLanguage, audits: &[ImportAudit]) -> (r: ImportLanguageSummary)
    requires
        import_totals_fit(audits@),
    ensures
        r.language == language,
        r.eligible_site_count == capability_total(audits@, AnalysisCapability::Imports, 0) + capability_total(
            audits@,
            AnalysisCapability::Exports,
            0,
        ),
        r.import_site_count == capability_total(audits@, AnalysisCapability::Imports, 0),
        r.export_site_count == capability_total(audits@, AnalysisCapability::Exports, 0),
        r.internal_relation_count == capability_total(audits@, AnalysisCapability::Imports, 1) + capability_total(
            audits@,
            AnalysisCapability::Exports,
            1,
        ),
        r.known_external_count == capability_total(audits@, AnalysisCapability::Imports, 2) + capability_total(
            audits@,
            AnalysisCapability::Exports,
            2,
        ),
        r.unresolved_count == capability_total(audits@, AnalysisCapability::Imports, 3) + capability_total(
            audits@,
            AnalysisCapability::Exports,
            3,
        ),
        r.ambiguous_count == capability_total(audits@, AnalysisCapability::Imports, 4) + capability_total(
            audits@,
            AnalysisCapability::Exports,
            4,
        ),
        r.invalid_evidence_count == capability_total(audits@, AnalysisCapability::Imports, 5) + capability_total(
            audits@,
            AnalysisCapability::Exports,
            5,
        ),
        r.inventory_failed_file_count == language_files(audits@, false).len(),
        r.metadata_unavailable_file_count == language_files(audits@, true).len(),
{
    let ghost s = audits@;
    let mut totals: Vec<u64> = vec![0, 0, 0, 0, 0, 0];
    let mut import_sites: u64 = 0;
    let mut export_sites: u64 = 0;
    let mut failed: Vec<String> = Vec::new();
    let mut missing: Vec<String> = Vec::new();
    let mut i: usize = 0;
    assert(string_views(failed@).to_set() =~= language_files(s.take(0), false));
    assert(string_views(missing@).to_set() =~= language_files(s.take(0), true));
    while i < audits.len()
        invariant
            s == audits@,
            i <= s.len(),
            import_totals_fit(s),
            totals@.len() == 6,
            forall|k: int|
                0 <= k < 6 ==> #[trigger] totals@[k] == capability_total(s.take(i as int), AnalysisCapability::Imports, k) + capability_total(
                    s.take(i as int),
                    AnalysisCapability::Exports,
                    k,
                ),
            import_sites == capability_total(s.take(i as int), AnalysisCapability::Imports, 0),
            export_sites == capability_total(s.take(i as int), AnalysisCapability::Exports, 0),
            string_views(failed@).to_set() == language_files(s.take(i as int), false),
            string_views(missing@).to_set() == language_files(s.take(i as int), true),
        decreases s.len() - i,
    {
        let a = &audits[i];
        let imports = capability_audit(a, AnalysisCapability::Imports);
        let exports = capability_audit(a, AnalysisCapability::Exports);
        let ghost ia = opt_view(imports);
        let ghost ea = opt_view(exports);
        assert(*a == s[i as int]);
        assert(ia == audit_of(s[i as int], AnalysisCapability::Imports));
        assert(ea == audit_of(s[i as int], AnalysisCapability::Exports));
        proof {
            assert forall|k: int| 0 <= k < 6 implies #[trigger] totals@[k] + audit_count(ia, k) + audit_count(ea, k)
                <= u64::MAX && totals@[k] + audit_count(ia, k) + audit_count(ea, k) == capability_total(
                s.take(i + 1),
                AnalysisCapability::Imports,
                k,
            ) + capability_total(s.take(i + 1), AnalysisCapability::Exports, k) by {
                lemma_capability_total_prefix(s, AnalysisCapability::Imports, i + 1, k);
                lemma_capability_total_prefix(s, AnalysisCapability::Exports, i + 1, k);
                lemma_capability_total_step(s, AnalysisCapability::Imports, i as int, k);
                lemma_capability_total_step(s, AnalysisCapability::Exports, i as int, k);
                assert(import_totals_fit(s));
                assert(capability_total(s, AnalysisCapability::Imports, k) + capability_total(
                    s,
                    AnalysisCapability::Exports,
                    k,
                ) <= u64::MAX);
            }
            lemma_capability_total_step(s, AnalysisCapability::Imports, i as int, 0);
            lemma_capability_total_step(s, AnalysisCapability::Exports, i as int, 0);
        }
        let mut k: usize = 0;
        let ghost before = totals@;
        while k < 6
            invariant
                k <= 6,
                totals@.len() == 6,
                forall|j: int| k <= j < 6 ==> #[trigger] totals@[j] == before[j],
                forall|j: int| 0 <= j < k ==> #[trigger] totals@[j] == before[j] + audit_count(ia, j) + audit_count(ea, j),
                forall|j: int| 0 <= j < 6 ==> before[j] + audit_count(ia, j) + audit_count(ea, j) <= u64::MAX,
                ia == opt_view(imports),
                ea == opt_view(exports),
            decreases 6 - k,
        {
            let x = count_at(imports, k);
            let y = count_at(exports, k);
            assert(x == audit_count(ia, k as int) && y == audit_count(ea, k as int));
            let t = totals[k] + x + y;
            totals.set(k, t);
            k += 1;
        }
        match imports {
            Some(c) => {
                import_sites = import_sites + c.eligible_count;
            },
            None => {},
        }
        match exports {
            Some(c) => {
                export_sites = export_sites + c.eligible_count;
            },
            None => {},
        }
        push_audit_files(&mut failed, imports, false);
        push_audit_files(&mut failed, exports, false);
        push_audit_files(&mut missing, imports, true);
        push_audit_files(&mut missing, exports, true);
        proof {
            assert(s.take(i + 1).drop_last() =~= s.take(i as int));
            assert(s.take(i + 1).last() == s[i as int]);
        }
        i += 1;
    }
    proof {
        assert(s.take(s.len() as int) =~= s);
    }
    ImportLanguageSummary {
        language,
        eligible_site_count: totals[0],
        import_site_count: import_sites,
        export_site_count: export_sites,
        internal_relation_count: totals[1],
        known_external_count: totals[2],
        unresolved_count: totals[3],
        ambiguous_count: totals[4],
        invalid_evidence_count: totals[5],
        inventory_failed_file_count: distinct_count(failed),
        metadata_unavailable_file_count: distinct_count(missing),
    }
}

} // verus!
