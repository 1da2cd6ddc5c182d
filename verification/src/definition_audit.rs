//! The counts of a definition audit: what syntax inventory and provider
//! reconciliation found for a unit, merged over the units of a run and per
//! language, and which of them block a unit's definitions.
use vstd::prelude::*;

use crate::census::language_rank;
use crate::model::ProgrammingLanguage;

verus! {

/// The counters of a definition audit.
#[derive(Clone, Copy, Debug, PartialEq, Eq, Structural)]
pub struct DefinitionAuditCounts {
    pub syntax_definition_count: u64,
    pub owned_syntax_definition_count: u64,
    pub matched_definition_count: u64,
    pub missing_syntax_definition_count: u64,
    pub extra_provider_definition_count: u64,
    pub provider_definition_alias_count: u64,
    pub kind_refinement_count: u64,
    pub owner_repair_count: u64,
    pub resolved_owner_count: u64,
    pub unresolved_owner_count: u64,
    pub inventory_failed_file_count: u64,
    pub metadata_definition_count: u64,
    pub callable_definition_count: u64,
    pub callable_signature_count: u64,
    pub known_visibility_count: u64,
}

/// Counter `k` of an audit, in declaration order.
pub open spec fn audit_field(c: DefinitionAuditCounts, k: int) -> nat {
    if k == 0 {
        c.syntax_definition_count as nat
    } else if k == 1 {
        c.owned_syntax_definition_count as nat
    } else if k == 2 {
        c.matched_definition_count as nat
    } else if k == 3 {
        c.missing_syntax_definition_count as nat
    } else if k == 4 {
        c.extra_provider_definition_count as nat
    } else if k == 5 {
        c.provider_definition_alias_count as nat
    } else if k == 6 {
        c.kind_refinement_count as nat
    } else if k == 7 {
        c.owner_repair_count as nat
    } else if k == 8 {
        c.resolved_owner_count as nat
    } else if k == 9 {
        c.unresolved_owner_count as nat
    } else if k == 10 {
        c.inventory_failed_file_count as nat
    } else if k == 11 {
        c.metadata_definition_count as nat
    } else if k == 12 {
        c.callable_definition_count as nat
    } else if k == 13 {
        c.callable_signature_count as nat
    } else {
        c.known_visibility_count as nat
    }
}

/// What blocks a unit's definitions: source declarations the provider
/// missed, provider definitions with no declaration, owners left
/// unresolved, and files whose syntax inventory failed.
pub open spec fn spec_blocking_count(c: DefinitionAuditCounts) -> nat {
    (c.missing_syntax_definition_count + c.extra_provider_definition_count + c.unresolved_owner_count
        + c.inventory_failed_file_count) as nat
}

/// Counter `k` summed over the audits.
pub open spec fn audit_total(s: Seq<DefinitionAuditCounts>, k: int) -> nat
    decreases s.len(),
{
    if s.len() == 0 {
        0
    } else {
        audit_total(s.drop_last(), k) + audit_field(s.last(), k)
    }
}

/// Counter `k` summed over the audits of units in `language`.
pub open spec fn language_total(s: Seq<(ProgrammingLanguage, DefinitionAuditCounts)>, language: ProgrammingLanguage, k: int) -> nat
    decreases s.len(),
{
    if s.len() == 0 {
        0
    } else {
        language_total(s.drop_last(), language, k) + if s.last().0 == language {
            audit_field(s.last().1, k)
        } else {
            0
        }
    }
}

pub open spec fn has_language(s: Seq<(ProgrammingLanguage, DefinitionAuditCounts)>, language: ProgrammingLanguage) -> bool {
    exists|i: int| 0 <= i < s.len() && (#[trigger] s[i]).0 == language
}

impl DefinitionAuditCounts {
    /// An audit that has counted nothing.
    pub fn empty() -> (r: DefinitionAuditCounts)
        ensures
            forall|k: int| audit_field(r, k) == 0,
    {
        DefinitionAuditCounts {
            syntax_definition_count: 0,
            owned_syntax_definition_count: 0,
            matched_definition_count: 0,
            missing_syntax_definition_count: 0,
            extra_provider_definition_count: 0,
            provider_definition_alias_count: 0,
            kind_refinement_count: 0,
            owner_repair_count: 0,
            resolved_owner_count: 0,
            unresolved_owner_count: 0,
            inventory_failed_file_count: 0,
            metadata_definition_count: 0,
            callable_definition_count: 0,
            callable_signature_count: 0,
            known_visibility_count: 0,
        }
    }

    /// How many findings block the unit's definitions.
    pub fn blocking_count(&self) -> (r: u64)
        requires
            spec_blocking_count(*self) <= u64::MAX,
        ensures
            r == spec_blocking_count(*self),
    {
        self.missing_syntax_definition_count + self.extra_provider_definition_count + self.unresolved_owner_count
            + self.inventory_failed_file_count
    }

    /// Adds another audit's counters to these.
    pub fn absorb(&mut self, other: &DefinitionAuditCounts)
        requires
            forall|k: int| 0 <= k < 15 ==> audit_field(*old(self), k) + audit_field(*other, k) <= u64::MAX,
        ensures
            forall|k: int| 0 <= k < 15 ==> audit_field(*final(self), k) == audit_field(*old(self), k) + audit_field(*other, k),
    {
        assert(audit_field(*self, 0) + audit_field(*other, 0) <= u64::MAX);
        assert(audit_field(*self, 1) + audit_field(*other, 1) <= u64::MAX);
        assert(audit_field(*self, 2) + audit_field(*other, 2) <= u64::MAX);
        assert(audit_field(*self, 3) + audit_field(*other, 3) <= u64::MAX);
        assert(audit_field(*self, 4) + audit_field(*other, 4) <= u64::MAX);
        assert(audit_field(*self, 5) + audit_field(*other, 5) <= u64::MAX);
        assert(audit_field(*self, 6) + audit_field(*other, 6) <= u64::MAX);
        assert(audit_field(*self, 7) + audit_field(*other, 7) <= u64::MAX);
        assert(audit_field(*self, 8) + audit_field(*other, 8) <= u64::MAX);
        assert(audit_field(*self, 9) + audit_field(*other, 9) <= u64::MAX);
        assert(audit_field(*self, 10) + audit_field(*other, 10) <= u64::MAX);
        assert(audit_field(*self, 11) + audit_field(*other, 11) <= u64::MAX);
        assert(audit_field(*self, 12) + audit_field(*other, 12) <= u64::MAX);
        assert(audit_field(*self, 13) + audit_field(*other, 13) <= u64::MAX);
        assert(audit_field(*self, 14) + audit_field(*other, 14) <= u64::MAX);
        self.syntax_definition_count = self.syntax_definition_count + other.syntax_definition_count;
        self.owned_syntax_definition_count = self.owned_syntax_definition_count + other.owned_syntax_definition_count;
        self.matched_definition_count = self.matched_definition_count + other.matched_definition_count;
        self.missing_syntax_definition_count = self.missing_syntax_definition_count
            + other.missing_syntax_definition_count;
        self.extra_provider_definition_count = self.extra_provider_definition_count
            + other.extra_provider_definition_count;
        self.provider_definition_alias_count = self.provider_definition_alias_count
            + other.provider_definition_alias_count;
        self.kind_refinement_count = self.kind_refinement_count + other.kind_refinement_count;
        self.owner_repair_count = self.owner_repair_count + other.owner_repair_count;
        self.resolved_owner_count = self.resolved_owner_count + other.resolved_owner_count;
        self.unresolved_owner_count = self.unresolved_owner_count + other.unresolved_owner_count;
        self.inventory_failed_file_count = self.inventory_failed_file_count + other.inventory_failed_file_count;
        self.metadata_definition_count = self.metadata_definition_count + other.metadata_definition_count;
        self.callable_definition_count = self.callable_definition_count + other.callable_definition_count;
        self.callable_signature_count = self.callable_signature_count + other.callable_signature_count;
        self.known_visibility_count = self.known_visibility_count + other.known_visibility_count;
    }
}


proof fn lemma_audit_total_step(s: Seq<DefinitionAuditCounts>, i: int, k: int)
    requires
        0 <= i < s.len(),
    ensures
        audit_total(s.take(i + 1), k) == audit_total(s.take(i), k) + audit_field(s[i], k),
{
    assert(s.take(i + 1).drop_last() =~= s.take(i));
}

proof fn lemma_audit_total_prefix(s: Seq<DefinitionAuditCounts>, i: int, k: int)
    requires
        0 <= i <= s.len(),
    ensures
        audit_total(s.take(i), k) <= audit_total(s, k),
    decreases s.len() - i,
{
    if i < s.len() {
        lemma_audit_total_prefix(s, i + 1, k);
        lemma_audit_total_step(s, i, k);
    } else {
        assert(s.take(i) =~= s);
    }
}

/// The audit of a whole run: every counter summed over the units' audits.
pub fn merge_definition_audits(audits: &[DefinitionAuditCounts]) -> (r: DefinitionAuditCounts)
    requires
        forall|k: int| 0 <= k < 15 ==> audit_total(audits@, k) <= u64::MAX,
    ensures
        forall|k: int| 0 <= k < 15 ==> audit_field(r, k) == audit_total(audits@, k),
{
    let mut acc = DefinitionAuditCounts::empty();
    let mut i: usize = 0;
    assert forall|k: int| 0 <= k < 15 implies audit_field(acc, k) == audit_total(audits@.take(0), k) by {}
    while i < audits.len()
        invariant
            i <= audits.len(),
            forall|k: int| 0 <= k < 15 ==> audit_total(audits@, k) <= u64::MAX,
            forall|k: int| 0 <= k < 15 ==> audit_field(acc, k) == audit_total(audits@.take(i as int), k),
        decreases audits.len() - i,
    {
        proof {
            assert forall|k: int| 0 <= k < 15 implies audit_field(acc, k) + audit_field(audits@[i as int], k)
                <= u64::MAX by {
                lemma_audit_total_step(audits@, i as int, k);
                lemma_audit_total_prefix(audits@, i + 1, k);
            }
        }
        acc.absorb(&audits[i]);
        proof {
            assert forall|k: int| 0 <= k < 15 implies audit_field(acc, k) == audit_total(audits@.take(i + 1), k) by {
                lemma_audit_total_step(audits@, i as int, k);
            }
        }
        i += 1;
    }
    assert(audits@.take(audits.len() as int) =~= audits@);
    acc
}

pub open spec fn language_of_rank(r: int) -> ProgrammingLanguage {
    if r == 0 {
        ProgrammingLanguage::TypeScript
    } else if r == 1 {
        ProgrammingLanguage::JavaScript
    } else if r == 2 {
        ProgrammingLanguage::Python
    } else if r == 3 {
        ProgrammingLanguage::Java
    } else if r == 4 {
        ProgrammingLanguage::CSharp
    } else if r == 5 {
        ProgrammingLanguage::C
    } else if r == 6 {
        ProgrammingLanguage::Cpp
    } else if r == 7 {
        ProgrammingLanguage::Go
    } else if r == 8 {
        ProgrammingLanguage::Rust
    } else {
        ProgrammingLanguage::Dart
    }
}

fn language_at(r: usize) -> (l: ProgrammingLanguage)
    requires
        r < 10,
    ensures
        l == language_of_rank(r as int),
        language_rank(l) == r,
{
    if r == 0 {
        ProgrammingLanguage::TypeScript
    } else if r == 1 {
        ProgrammingLanguage::JavaScript
    } else if r == 2 {
        ProgrammingLanguage::Python
    } else if r == 3 {
        ProgrammingLanguage::Java
    } else if r == 4 {
        ProgrammingLanguage::CSharp
    } else if r == 5 {
        ProgrammingLanguage::C
    } else if r == 6 {
        ProgrammingLanguage::Cpp
    } else if r == 7 {
        ProgrammingLanguage::Go
    } else if r == 8 {
        ProgrammingLanguage::Rust
    } else {
        ProgrammingLanguage::Dart
    }
}

proof fn lemma_language_total_step(
    s: Seq<(ProgrammingLanguage, DefinitionAuditCounts)>,
    l: ProgrammingLanguage,
    i: int,
    k: int,
)
    requires
        0 <= i < s.len(),
    ensures
        language_total(s.take(i + 1), l, k) == language_total(s.take(i), l, k) + if s[i].0 == l {
            audit_field(s[i].1, k)
        } else {
            0
        },
{
    assert(s.take(i + 1).drop_last() =~= s.take(i));
}

proof fn lemma_language_total_prefix(
    s: Seq<(ProgrammingLanguage, DefinitionAuditCounts)>,
    l: ProgrammingLanguage,
    i: int,
    k: int,
)
    requires
        0 <= i <= s.len(),
    ensures
        language_total(s.take(i), l, k) <= language_total(s, l, k),
    decreases s.len() - i,
{
    if i < s.len() {
        lemma_language_total_prefix(s, l, i + 1, k);
        lemma_language_total_step(s, l, i, k);
    } else {
        assert(s.take(i) =~= s);
    }
}

/// The audit of one language: every counter summed over the audits of its
/// units, and whether it has any.
fn language_audit(audits: &[(ProgrammingLanguage, DefinitionAuditCounts)], l: ProgrammingLanguage) -> (r: (
    DefinitionAuditCounts,
    bool,
))
    requires
        forall|k: int| 0 <= k < 15 ==> language_total(audits@, l, k) <= u64::MAX,
    ensures
        forall|k: int| 0 <= k < 15 ==> audit_field(r.0, k) == language_total(audits@, l, k),
        r.1 == has_language(audits@, l),
{
    let mut acc = DefinitionAuditCounts::empty();
    let mut found = false;
    let mut i: usize = 0;
    assert forall|k: int| 0 <= k < 15 implies audit_field(acc, k) == language_total(audits@.take(0), l, k) by {}
    while i < audits.len()
        invariant
            i <= audits.len(),
            forall|k: int| 0 <= k < 15 ==> language_total(audits@, l, k) <= u64::MAX,
            forall|k: int| 0 <= k < 15 ==> audit_field(acc, k) == language_total(audits@.take(i as int), l, k),
            found == exists|j: int| 0 <= j < i && (#[trigger] audits@[j]).0 == l,
        decreases audits.len() - i,
    {
        if audits[i].0 == l {
            proof {
                assert forall|k: int| 0 <= k < 15 implies audit_field(acc, k) + audit_field(audits@[i as int].1, k)
                    <= u64::MAX by {
                    lemma_language_total_step(audits@, l, i as int, k);
                    lemma_language_total_prefix(audits@, l, i + 1, k);
                }
            }
            acc.absorb(&audits[i].1);
            found = true;
        }
        proof {
            assert forall|k: int| 0 <= k < 15 implies audit_field(acc, k) == language_total(
                audits@.take(i + 1),
                l,
                k,
            ) by {
                lemma_language_total_step(audits@, l, i as int, k);
            }
        }
        i += 1;
    }
    assert(audits@.take(audits.len() as int) =~= audits@);
    (acc, found)
}

/// The audits of a run per language: one entry for each language that has a
/// unit, in language order, with its counters summed over that language's
/// units.
pub fn definition_audits_by_language(audits: &[(ProgrammingLanguage, DefinitionAuditCounts)]) -> (r: Vec<
    (ProgrammingLanguage, DefinitionAuditCounts),
>)
    requires
        forall|l: ProgrammingLanguage, k: int| 0 <= k < 15 ==> language_total(audits@, l, k) <= u64::MAX,
    ensures
        forall|i: int, j: int| 0 <= i < j < r@.len() ==> language_rank(r@[i].0) < language_rank(r@[j].0),
        forall|l: ProgrammingLanguage| has_language(r@, l) <==> has_language(audits@, l),
        forall|i: int, k: int|
            0 <= i < r@.len() && 0 <= k < 15 ==> #[trigger] audit_field(r@[i].1, k) == language_total(
                audits@,
                r@[i].0,
                k,
            ),
{
    let mut out: Vec<(ProgrammingLanguage, DefinitionAuditCounts)> = Vec::new();
    let mut rank: usize = 0;
    while rank < 10
        invariant
            rank <= 10,
            forall|l: ProgrammingLanguage, k: int| 0 <= k < 15 ==> language_total(audits@, l, k) <= u64::MAX,
            forall|i: int, j: int| 0 <= i < j < out@.len() ==> language_rank(out@[i].0) < language_rank(out@[j].0),
            forall|i: int| 0 <= i < out@.len() ==> language_rank((#[trigger] out@[i]).0) < rank,
            forall|l: ProgrammingLanguage|
                language_rank(l) < rank ==> (has_language(out@, l) <==> has_language(audits@, l)),
            forall|l: ProgrammingLanguage| language_rank(l) >= rank ==> !has_language(out@, l),
            forall|i: int, k: int|
                0 <= i < out@.len() && 0 <= k < 15 ==> #[trigger] audit_field(out@[i].1, k) == language_total(
                    audits@,
                    out@[i].0,
                    k,
                ),
        decreases 10 - rank,
    {
        let l = language_at(rank);
        let (counts, found) = language_audit(audits, l);
        let ghost before = out@;
        if found {
            out.push((l, counts));
            proof {
                assert forall|m: ProgrammingLanguage| language_rank(m) < rank + 1 implies (has_language(out@, m)
                    <==> has_language(audits@, m)) by {
                    if language_rank(m) < rank {
                        if has_language(out@, m) {
                            let i = choose|i: int| 0 <= i < out@.len() && (#[trigger] out@[i]).0 == m;
                            assert(i < before.len());
                            assert(before[i].0 == m);
                        }
                        if has_language(before, m) {
                            let i = choose|i: int| 0 <= i < before.len() && (#[trigger] before[i]).0 == m;
                            assert(out@[i].0 == m);
                        }
                    } else {
                        assert(m == l);
                        assert(out@[before.len() as int].0 == m);
                    }
                }
                assert forall|m: ProgrammingLanguage| language_rank(m) >= rank + 1 implies !has_language(out@, m) by {
                    if has_language(out@, m) {
                        let i = choose|i: int| 0 <= i < out@.len() && (#[trigger] out@[i]).0 == m;
                        if i < before.len() {
                            assert(before[i].0 == m);
                        }
                    }
                }
            }
        } else {
            proof {
                assert forall|m: ProgrammingLanguage| language_rank(m) < rank + 1 implies (has_language(out@, m)
                    <==> has_language(audits@, m)) by {
                    if language_rank(m) == rank {
                        assert(m == l);
                    }
                }
            }
        }
        rank += 1;
    }
    proof {
        assert forall|l: ProgrammingLanguage| has_language(out@, l) <==> has_language(audits@, l) by {
            assert(language_rank(l) < 10);
        }
    }
    out
}


/// The audits of the pairs, without their languages.
pub open spec fn audits_of(s: Seq<(ProgrammingLanguage, DefinitionAuditCounts)>) -> Seq<DefinitionAuditCounts> {
    s.map_values(|p: (ProgrammingLanguage, DefinitionAuditCounts)| p.1)
}

/// Counter `k` summed over the languages of rank below `r`, each language
/// contributing its own total.
pub open spec fn languages_sum(s: Seq<(ProgrammingLanguage, DefinitionAuditCounts)>, k: int, r: int) -> nat
    decreases r,
{
    if r <= 0 {
        0
    } else {
        languages_sum(s, k, r - 1) + language_total(s, language_of_rank(r - 1), k)
    }
}

proof fn lemma_languages_sum_push(
    s: Seq<(ProgrammingLanguage, DefinitionAuditCounts)>,
    x: (ProgrammingLanguage, DefinitionAuditCounts),
    k: int,
    r: int,
)
    requires
        0 <= r <= 10,
    ensures
        languages_sum(s.push(x), k, r) == languages_sum(s, k, r) + if language_rank(x.0) < r {
            audit_field(x.1, k)
        } else {
            0
        },
    decreases r,
{
    if r > 0 {
        lemma_languages_sum_push(s, x, k, r - 1);
        assert(s.push(x).drop_last() =~= s);
        let l = language_of_rank(r - 1);
        assert(language_rank(l) == r - 1);
        assert((x.0 == l) <==> (language_rank(x.0) == r - 1));
    }
}

/// Every counter of a run's definition audit is the sum, over the
/// languages, of that counter in the language's audit.
pub proof fn law_language_audits_add_up_to_the_run(s: Seq<(ProgrammingLanguage, DefinitionAuditCounts)>, k: int)
    ensures
        languages_sum(s, k, 10) == audit_total(audits_of(s), k),
    decreases s.len(),
{
    if s.len() > 0 {
        let front = s.drop_last();
        law_language_audits_add_up_to_the_run(front, k);
        assert(front.push(s.last()) =~= s);
        lemma_languages_sum_push(front, s.last(), k, 10);
        assert(audits_of(s).drop_last() =~= audits_of(front));
    } else {
        assert(languages_sum(s, k, 10) == 0) by {
            lemma_languages_sum_empty(s, k, 10);
        }
    }
}

proof fn lemma_languages_sum_empty(s: Seq<(ProgrammingLanguage, DefinitionAuditCounts)>, k: int, r: int)
    requires
        s.len() == 0,
    ensures
        languages_sum(s, k, r) == 0,
    decreases r,
{
    if r > 0 {
        lemma_languages_sum_empty(s, k, r - 1);
    }
}

} // verus!
