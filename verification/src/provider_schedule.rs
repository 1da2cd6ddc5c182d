//! The provider schedule of an analysis plan: which provider executions run,
//! which planned files are accounted for without one, and the receipt.
//!
//! The plan owns file membership. A unit may be split into several
//! executions, but no file moves to another unit and none is dropped
//! silently: every planned file is scheduled once or recorded as an omission.
use vstd::prelude::*;

use crate::model::{ProgrammingLanguage, RepositoryPath};
use crate::schedule::{
    chunked_shards, copy_paths, decimal_text, find_path, lemma_path_lt_irreflexive,
    lemma_path_lt_transitive, path_before, path_lt, path_set,
    path_views, root_scope, shard_view, shard_views, spec_chunked_shards, spec_decimal,
    spec_omission_reason_name, spec_root_scope, spec_typescript_shards, typescript_shards,
    OmissionReason, ProjectModelUnit, ScheduledShard, ShardView,
};
use crate::text::{ascii_lower, chars_of, ends_with, is_suffix, lower_chars, string_of};

verus! {

/// One analysis unit of the plan. For a C, C++ or C# unit, `activity` holds
/// what the unit's project configuration leaves active (every file when
/// there is none).
#[derive(Debug)]
pub struct PlanUnit {
    pub id: String,
    pub language: ProgrammingLanguage,
    pub root: RepositoryPath,
    pub activity: Option<UnitActivity>,
}

/// The files a project configuration activates, and how many it excludes.
#[derive(Debug)]
pub struct UnitActivity {
    pub active: Vec<RepositoryPath>,
    pub excluded: usize,
}

/// One file/language assignment of the plan, with the units that own it.
#[derive(Debug)]
pub struct PlanAssignment {
    pub language: ProgrammingLanguage,
    pub path: RepositoryPath,
    pub unit_ids: Vec<String>,
}

/// A planned file that is accounted for without being sent to a provider.
#[derive(Clone, Debug, PartialEq, Eq)]
pub struct Omission {
    pub language: ProgrammingLanguage,
    pub path: RepositoryPath,
    pub reason: OmissionReason,
}

pub type OmissionView = (ProgrammingLanguage, Seq<char>, OmissionReason);

pub open spec fn omission_view(o: Omission) -> OmissionView {
    (o.language, o.path.value@, o.reason)
}

pub open spec fn omission_views(v: Seq<Omission>) -> Seq<OmissionView> {
    v.map_values(|o: Omission| omission_view(o))
}

/// The owner of an assignment (its first unit).
pub open spec fn first_owner(a: PlanAssignment) -> Seq<char> {
    a.unit_ids@[0]@
}

pub open spec fn is_c_family(language: ProgrammingLanguage) -> bool {
    language == ProgrammingLanguage::C || language == ProgrammingLanguage::Cpp || language
        == ProgrammingLanguage::CSharp
}

pub open spec fn is_vue_path(p: Seq<char>) -> bool {
    is_suffix(".vue"@, ascii_lower(p))
}

/// Why a file of the unit is not sent to its provider: a Vue component of a
/// TypeScript unit is measured by the project model only; a C-family file
/// its configuration leaves inactive is excluded.
pub open spec fn omission_reason_of(u: PlanUnit, p: Seq<char>) -> Option<OmissionReason> {
    if u.language == ProgrammingLanguage::TypeScript && is_vue_path(p) {
        Some(OmissionReason::ProjectModelOnly)
    } else if is_c_family(u.language) && (match u.activity {
        Some(a) => !path_set(a.active@).contains(p),
        None => false,
    }) {
        Some(OmissionReason::ProjectConfigExcluded)
    } else {
        None
    }
}

/// The files of a unit its provider is given, in plan order.
pub open spec fn provider_files_of(u: PlanUnit, assignments: Seq<PlanAssignment>) -> Seq<Seq<char>>
    decreases assignments.len(),
{
    if assignments.len() == 0 {
        Seq::empty()
    } else {
        let r = provider_files_of(u, assignments.drop_last());
        let a = assignments.last();
        if first_owner(a) == u.id@ && omission_reason_of(u, a.path.value@) is None {
            r.push(a.path.value@)
        } else {
            r
        }
    }
}

/// The omissions of a unit, in plan order.
pub open spec fn unit_omissions(u: PlanUnit, assignments: Seq<PlanAssignment>) -> Seq<OmissionView>
    decreases assignments.len(),
{
    if assignments.len() == 0 {
        Seq::empty()
    } else {
        let r = unit_omissions(u, assignments.drop_last());
        let a = assignments.last();
        if first_owner(a) == u.id@ && omission_reason_of(u, a.path.value@) is Some {
            r.push((u.language, a.path.value@, omission_reason_of(u, a.path.value@)->0))
        } else {
            r
        }
    }
}

/// The project exclusions a unit's first shard reports.
pub open spec fn excluded_of(u: PlanUnit) -> usize {
    if is_c_family(u.language) {
        match u.activity {
            Some(a) => a.excluded,
            None => 0,
        }
    } else {
        0
    }
}

/// The shards of one unit given its provider files: by project for
/// TypeScript/JavaScript, in runs of at most 512 files for Dart, and one
/// shard otherwise; none without files.
pub open spec fn unit_shards_for(
    u: PlanUnit,
    files: Seq<Seq<char>>,
    project_units: Seq<ProjectModelUnit>,
) -> Seq<ShardView> {
    let scope = spec_root_scope(u.root.value@);
    if files.len() == 0 {
        Seq::empty()
    } else if u.language == ProgrammingLanguage::TypeScript || u.language
        == ProgrammingLanguage::JavaScript {
        spec_typescript_shards(
            u.language,
            u.id@,
            u.root.value@,
            scope,
            files.to_set(),
            project_units,
            excluded_of(u),
        )
    } else if u.language == ProgrammingLanguage::Dart {
        spec_chunked_shards(u.language, u.id@, u.root.value@, "dart:"@ + scope, files, excluded_of(u))
    } else {
        seq![
            (
                u.id@,
                crate::model::spec_language_name(u.language) + ":"@ + scope,
                u.language,
                u.root.value@,
                files,
                None,
                excluded_of(u),
            ),
        ]
    }
}

/// The shards of one unit of the plan.
pub open spec fn spec_unit_shards(
    u: PlanUnit,
    assignments: Seq<PlanAssignment>,
    project_units: Seq<ProjectModelUnit>,
) -> Seq<ShardView> {
    unit_shards_for(u, provider_files_of(u, assignments), project_units)
}

fn excluded_exec(u: &PlanUnit) -> (r: usize)
    ensures
        r == excluded_of(*u),
{
    if u.language == ProgrammingLanguage::C || u.language == ProgrammingLanguage::Cpp
        || u.language == ProgrammingLanguage::CSharp {
        match &u.activity {
            Some(a) => a.excluded,
            None => 0,
        }
    } else {
        0
    }
}

/// Builds the shards of one unit from its provider files.
fn build_unit_shards(u: &PlanUnit, files: &[RepositoryPath], project_units: &[ProjectModelUnit]) -> (r: Vec<
    ScheduledShard,
>)
    ensures
        shard_views(r@) == unit_shards_for(*u, path_views(files@), project_units@),
{
    if files.len() == 0 {
        assert(shard_views(Seq::<ScheduledShard>::empty()) =~= Seq::<ShardView>::empty());
        return Vec::new();
    }
    let scope = root_scope(&u.root);
    let excluded = excluded_exec(u);
    if u.language == ProgrammingLanguage::TypeScript || u.language == ProgrammingLanguage::JavaScript {
        typescript_shards(u.language, u.id.as_str(), &u.root, scope.as_str(), files, project_units, excluded)
    } else if u.language == ProgrammingLanguage::Dart {
        let dart_scope = crate::text::concat("dart:", scope.as_str());
        proof {
            reveal_strlit("dart:");
        }
        chunked_shards(u.language, u.id.as_str(), &u.root, dart_scope.as_str(), files, excluded)
    } else {
        let name = crate::text::concat(u.language.as_str(), ":");
        let scope_id = crate::text::concat(name.as_str(), scope.as_str());
        proof {
            reveal_strlit(":");
        }
        let shard = ScheduledShard {
            analysis_unit_id: crate::text::owned(u.id.as_str()),
            execution_scope_id: scope_id,
            language: u.language,
            root: u.root.duplicate(),
            files: copy_paths(files, 0, files.len()),
            provider_config: None,
            project_excluded_files: excluded,
        };
        let mut v: Vec<ScheduledShard> = Vec::new();
        v.push(shard);
        proof {
            assert(files@.subrange(0, files@.len() as int) == files@);
            assert(shard_views(v@) =~= unit_shards_for(*u, path_views(files@), project_units@));
        }
        v
    }
}

} // verus!

verus! {

/// Every assignment has exactly one owner.
pub open spec fn single_owners(assignments: Seq<PlanAssignment>) -> bool {
    forall|k: int| 0 <= k < assignments.len() ==> (#[trigger] assignments[k]).unit_ids@.len() == 1
}

fn is_vue_text(p: &str) -> (r: bool)
    ensures
        r == is_vue_path(p@),
{
    let v = chars_of(p);
    let l = lower_chars(v.as_slice());
    ends_with(l.as_slice(), ".vue")
}

fn omission_reason_exec(u: &PlanUnit, p: &RepositoryPath) -> (r: Option<OmissionReason>)
    ensures
        r == omission_reason_of(*u, p.value@),
{
    if u.language == ProgrammingLanguage::TypeScript && is_vue_text(p.as_str()) {
        return Some(OmissionReason::ProjectModelOnly);
    }
    let c_family = u.language == ProgrammingLanguage::C || u.language == ProgrammingLanguage::Cpp
        || u.language == ProgrammingLanguage::CSharp;
    if c_family {
        if let Some(a) = &u.activity {
            match find_path(a.active.as_slice(), p.as_str()) {
                None => {
                    return Some(OmissionReason::ProjectConfigExcluded);
                },
                Some(k) => {
                    proof {
                        assert(path_views(a.active@)[k as int] == p.value@);
                        assert(path_views(a.active@).contains(p.value@));
                    }
                },
            }
        }
    }
    None
}

/// The files of a unit that go to its provider, and those accounted for
/// without it.
fn unit_files(u: &PlanUnit, assignments: &[PlanAssignment]) -> (r: (Vec<RepositoryPath>, Vec<Omission>))
    requires
        single_owners(assignments@),
    ensures
        path_views(r.0@) == provider_files_of(*u, assignments@),
        omission_views(r.1@) == unit_omissions(*u, assignments@),
{
    let mut files: Vec<RepositoryPath> = Vec::new();
    let mut omitted: Vec<Omission> = Vec::new();
    let mut k: usize = 0;
    while k < assignments.len()
        invariant
            k <= assignments@.len(),
            single_owners(assignments@),
            path_views(files@) == provider_files_of(*u, assignments@.take(k as int)),
            omission_views(omitted@) == unit_omissions(*u, assignments@.take(k as int)),
        decreases assignments@.len() - k,
    {
        let a = &assignments[k];
        proof {
            assert(assignments@.take(k + 1).drop_last() == assignments@.take(k as int));
            assert(assignments@.take(k + 1).last() == a);
            assert(a.unit_ids@.len() == 1);
        }
        if crate::text::str_eq(a.unit_ids[0].as_str(), u.id.as_str()) {
            match omission_reason_exec(u, &a.path) {
                None => {
                    let ghost before = files@;
                    files.push(a.path.duplicate());
                    assert(path_views(files@) =~= path_views(before).push(a.path.value@));
                },
                Some(reason) => {
                    let ghost before = omitted@;
                    omitted.push(Omission { language: u.language, path: a.path.duplicate(), reason });
                    assert(omission_views(omitted@) =~= omission_views(before).push(
                        (u.language, a.path.value@, reason),
                    ));
                },
            }
        }
        k += 1;
    }
    assert(assignments@.take(assignments@.len() as int) == assignments@);
    (files, omitted)
}

} // verus!

verus! {

/// The shards of every unit, in plan order.
pub open spec fn all_shards(
    units: Seq<PlanUnit>,
    assignments: Seq<PlanAssignment>,
    project_units: Seq<ProjectModelUnit>,
) -> Seq<ShardView>
    decreases units.len(),
{
    if units.len() == 0 {
        Seq::empty()
    } else {
        all_shards(units.drop_last(), assignments, project_units) + spec_unit_shards(
            units.last(),
            assignments,
            project_units,
        )
    }
}

/// The omissions of every unit, in plan order.
pub open spec fn all_omissions(units: Seq<PlanUnit>, assignments: Seq<PlanAssignment>) -> Seq<OmissionView>
    decreases units.len(),
{
    if units.len() == 0 {
        Seq::empty()
    } else {
        all_omissions(units.drop_last(), assignments) + unit_omissions(units.last(), assignments)
    }
}

/// A scheduled file: language, path and analysis unit.
pub type ScheduleKey = (ProgrammingLanguage, Seq<char>, Seq<char>);

pub open spec fn shard_file_keys(s: ShardView) -> Seq<ScheduleKey> {
    s.4.map_values(|f: Seq<char>| (s.2, f, s.0))
}

/// The scheduled files of the shards, shard after shard.
pub open spec fn shard_keys(v: Seq<ShardView>) -> Seq<ScheduleKey>
    decreases v.len(),
{
    if v.len() == 0 {
        Seq::empty()
    } else {
        shard_keys(v.drop_last()) + shard_file_keys(v.last())
    }
}

/// `j` is the first position of `keys` that repeats an earlier one.
pub open spec fn is_first_repeat(keys: Seq<ScheduleKey>, j: int) -> bool {
    &&& 0 <= j < keys.len()
    &&& keys.take(j).contains(keys[j])
    &&& forall|i: int| 0 <= i < j ==> !(#[trigger] keys.take(i)).contains(keys[i])
}

pub open spec fn has_repeat(keys: Seq<ScheduleKey>) -> bool {
    exists|j: int| 0 <= j < keys.len() && (#[trigger] keys.take(j)).contains(keys[j])
}

pub open spec fn first_repeat(keys: Seq<ScheduleKey>) -> int {
    choose|j: int| is_first_repeat(keys, j)
}

/// The message that refuses a file scheduled twice.
pub open spec fn repeat_message(key: ScheduleKey) -> Seq<char> {
    "provider schedule assigned "@ + crate::model::spec_language_name(key.0) + ":"@ + key.1
        + " more than once"@
}

/// The first assignment without exactly one owner.
pub open spec fn is_first_multi_owner(assignments: Seq<PlanAssignment>, k: int) -> bool {
    &&& 0 <= k < assignments.len()
    &&& assignments[k].unit_ids@.len() != 1
    &&& forall|i: int| 0 <= i < k ==> (#[trigger] assignments[i]).unit_ids@.len() == 1
}

pub open spec fn owner_message(a: PlanAssignment) -> Seq<char> {
    "provider scheduling requires one owner per file/language: "@ + a.path.value@ + " has "@
        + spec_decimal(a.unit_ids@.len())
}

fn check_owners(assignments: &[PlanAssignment]) -> (r: Result<(), String>)
    ensures
        r is Ok <==> single_owners(assignments@),
        r matches Err(message) ==> exists|k: int|
            is_first_multi_owner(assignments@, k) && message@ == owner_message(assignments@[k]),
{
    let mut k: usize = 0;
    while k < assignments.len()
        invariant
            k <= assignments@.len(),
            forall|i: int| 0 <= i < k ==> (#[trigger] assignments@[i]).unit_ids@.len() == 1,
        decreases assignments@.len() - k,
    {
        let n = assignments[k].unit_ids.len();
        if n != 1 {
            let head = crate::text::concat(
                "provider scheduling requires one owner per file/language: ",
                assignments[k].path.as_str(),
            );
            let head = crate::text::concat(head.as_str(), " has ");
            let count = decimal_text(n);
            let message = crate::text::concat(head.as_str(), count.as_str());
            proof {
                reveal_strlit("provider scheduling requires one owner per file/language: ");
                reveal_strlit(" has ");
                assert(is_first_multi_owner(assignments@, k as int));
                assert(message@ == owner_message(assignments@[k as int]));
            }
            return Err(message);
        }
        k += 1;
    }
    Ok(())
}

pub open spec fn key_view(k: (ProgrammingLanguage, String, String)) -> ScheduleKey {
    (k.0, k.1@, k.2@)
}

pub open spec fn key_views(v: Seq<(ProgrammingLanguage, String, String)>) -> Seq<ScheduleKey> {
    v.map_values(|k: (ProgrammingLanguage, String, String)| key_view(k))
}

fn contains_key(keys: &[(ProgrammingLanguage, String, String)], language: ProgrammingLanguage, path: &str, unit: &str) -> (r: bool)
    ensures
        r == key_views(keys@).contains((language, path@, unit@)),
{
    let mut i: usize = 0;
    while i < keys.len()
        invariant
            i <= keys@.len(),
            forall|m: int| 0 <= m < i ==> #[trigger] key_views(keys@)[m] != (language, path@, unit@),
        decreases keys@.len() - i,
    {
        if keys[i].0 == language && crate::text::str_eq(keys[i].1.as_str(), path) && crate::text::str_eq(
            keys[i].2.as_str(),
            unit,
        ) {
            assert(key_views(keys@)[i as int] == (language, path@, unit@));
            return true;
        }
        i += 1;
    }
    false
}

} // verus!

verus! {

pub proof fn lemma_shard_keys_append(a: Seq<ShardView>, b: Seq<ShardView>)
    ensures
        shard_keys(a + b) == shard_keys(a) + shard_keys(b),
    decreases b.len(),
{
    if b.len() == 0 {
        assert(a + b =~= a);
        assert(shard_keys(a) + shard_keys(b) =~= shard_keys(a));
    } else {
        lemma_shard_keys_append(a, b.drop_last());
        assert((a + b).drop_last() =~= a + b.drop_last());
        assert((a + b).last() == b.last());
        assert(shard_keys(a) + shard_keys(b) =~= shard_keys(a) + shard_keys(b.drop_last())
            + shard_file_keys(b.last()));
    }
}

pub proof fn lemma_all_shards_prefix(
    units: Seq<PlanUnit>,
    assignments: Seq<PlanAssignment>,
    project_units: Seq<ProjectModelUnit>,
    i: int,
)
    requires
        0 <= i <= units.len(),
    ensures
        all_shards(units, assignments, project_units) == all_shards(units.take(i), assignments, project_units)
            + all_shards(units, assignments, project_units).skip(
            all_shards(units.take(i), assignments, project_units).len() as int,
        ),
        all_shards(units.take(i), assignments, project_units).len() <= all_shards(
            units,
            assignments,
            project_units,
        ).len(),
    decreases units.len() - i,
{
    if i == units.len() {
        assert(units.take(i) == units);
        assert(all_shards(units, assignments, project_units).skip(
            all_shards(units, assignments, project_units).len() as int,
        ) =~= Seq::<ShardView>::empty());
        assert(all_shards(units, assignments, project_units) + Seq::<ShardView>::empty()
            =~= all_shards(units, assignments, project_units));
    } else {
        lemma_all_shards_prefix(units, assignments, project_units, i + 1);
        let a = all_shards(units.take(i), assignments, project_units);
        let b = all_shards(units.take(i + 1), assignments, project_units);
        assert(units.take(i + 1).drop_last() == units.take(i));
        assert(b == a + spec_unit_shards(units[i], assignments, project_units));
        let w = all_shards(units, assignments, project_units);
        assert(w =~= a + w.skip(a.len() as int));
    }
}

proof fn lemma_first_repeat_is(keys: Seq<ScheduleKey>, j: int)
    requires
        is_first_repeat(keys, j),
    ensures
        first_repeat(keys) == j,
        has_repeat(keys),
{
    let f = first_repeat(keys);
    assert(is_first_repeat(keys, f));
    if f < j {
        assert(!keys.take(f).contains(keys[f]));
    } else if f > j {
        assert(!keys.take(j).contains(keys[j]));
    }
}

/// The shards and omissions of every unit, with the scheduled files in
/// order; refused at the first file scheduled twice.
fn collect_shards(
    units: &[PlanUnit],
    assignments: &[PlanAssignment],
    project_units: &[ProjectModelUnit],
) -> (r: Result<(Vec<ScheduledShard>, Vec<Omission>, Vec<(ProgrammingLanguage, String, String)>), String>)
    requires
        single_owners(assignments@),
    ensures
        ({
            let keys = shard_keys(all_shards(units@, assignments@, project_units@));
            match r {
                Ok((shards, omissions, scheduled)) => {
                    &&& !has_repeat(keys)
                    &&& shard_views(shards@) == all_shards(units@, assignments@, project_units@)
                    &&& omission_views(omissions@) == all_omissions(units@, assignments@)
                    &&& key_views(scheduled@) == keys
                },
                Err(message) => has_repeat(keys) && message@ == repeat_message(keys[first_repeat(keys)]),
            }
        }),
{
    let ghost full = shard_keys(all_shards(units@, assignments@, project_units@));
    let mut scheduled: Vec<ScheduledShard> = Vec::new();
    let mut omissions: Vec<Omission> = Vec::new();
    let mut keys: Vec<(ProgrammingLanguage, String, String)> = Vec::new();
    let mut i: usize = 0;
    while i < units.len()
        invariant
            i <= units@.len(),
            single_owners(assignments@),
            full == shard_keys(all_shards(units@, assignments@, project_units@)),
            shard_views(scheduled@) == all_shards(units@.take(i as int), assignments@, project_units@),
            omission_views(omissions@) == all_omissions(units@.take(i as int), assignments@),
            key_views(keys@) == shard_keys(shard_views(scheduled@)),
            forall|j: int| 0 <= j < keys@.len() ==> !(#[trigger] key_views(keys@).take(j)).contains(key_views(keys@)[j]),
        decreases units@.len() - i,
    {
        let u = &units[i];
        proof {
            assert(units@.take(i + 1).drop_last() == units@.take(i as int));
            assert(units@.take(i + 1).last() == u);
        }
        let (files, omitted) = unit_files(u, assignments);
        let ghost om_before = omission_views(omissions@);
        let mut om = omitted;
        let ghost mut o: int = 0;
        let ghost om_unit = omission_views(om@);
        proof {
            assert(om_unit.skip(0) == om_unit);
        }
        while om.len() > 0
            invariant
                0 <= o <= om_unit.len(),
                omission_views(omissions@) == om_before + om_unit.take(o),
                omission_views(om@) == om_unit.skip(o),
                o + om@.len() == om_unit.len(),
            decreases om@.len(),
        {
            let ghost pre = omissions@;
            let ghost old_om = om@;
            let x = om.remove(0);
            omissions.push(x);
            proof {
                assert(om@ == old_om.remove(0));
                assert(omission_views(old_om)[0] == omission_view(x));
                assert(omission_views(omissions@) =~= omission_views(pre).push(omission_view(x)));
                assert(om_unit.skip(o)[0] == omission_view(x));
                assert(om_unit.take(o + 1) =~= om_unit.take(o).push(om_unit[o]));
                assert(omission_views(om@) =~= omission_views(old_om).drop_first());
                assert(om_unit.skip(o).drop_first() =~= om_unit.skip(o + 1));
                assert(omission_views(om@) =~= om_unit.skip(o + 1));
                o = o + 1;
            }
        }
        proof {
            assert(om_unit.take(o) == om_unit);
        }
        let mut ushards = build_unit_shards(u, files.as_slice(), project_units);
        let ghost uv = shard_views(ushards@);
        let ghost base = shard_views(scheduled@);
        proof {
            assert(uv == spec_unit_shards(*u, assignments@, project_units@));
            lemma_all_shards_prefix(units@, assignments@, project_units@, i + 1);
            lemma_shard_keys_append(base, uv);
            let next = all_shards(units@.take(i + 1), assignments@, project_units@);
            assert(next == base + uv);
            lemma_shard_keys_append(next, all_shards(units@, assignments@, project_units@).skip(next.len() as int));
        }
        let ghost mut c: int = 0;
        proof {
            assert(uv.skip(0) == uv);
        }
        while ushards.len() > 0
            invariant
                0 <= c,
                i < units@.len(),
                full == shard_keys(all_shards(units@, assignments@, project_units@)),
                full.len() >= shard_keys(base + uv).len(),
                full.take(shard_keys(base + uv).len() as int) == shard_keys(base + uv),
                shard_views(scheduled@) == base + uv.take(c as int),
                shard_views(ushards@) == uv.skip(c as int),
                c + ushards@.len() == uv.len(),
                key_views(keys@) == shard_keys(shard_views(scheduled@)),
                forall|j: int| 0 <= j < keys@.len() ==> !(#[trigger] key_views(keys@).take(j)).contains(key_views(keys@)[j]),
            decreases ushards@.len(),
        {
            let ghost old_u = ushards@;
            let s = ushards.remove(0);
            proof {
                assert(ushards@ == old_u.remove(0));
                assert(shard_views(old_u)[0] == shard_view(s));
                assert(uv.skip(c as int)[0] == shard_view(s));
                assert(shard_views(ushards@) =~= shard_views(old_u).drop_first());
                assert(uv.skip(c as int).drop_first() =~= uv.skip(c + 1));
                assert(shard_views(ushards@) =~= uv.skip(c + 1));
                lemma_shard_keys_append(base + uv.take(c as int), seq![shard_view(s)]);
                assert(base + uv.take(c + 1) =~= (base + uv.take(c as int)) + seq![shard_view(s)]);
                lemma_shard_keys_append(base + uv.take(c + 1), uv.skip(c + 1));
                assert(base + uv =~= (base + uv.take(c + 1)) + uv.skip(c + 1));
                assert(shard_keys(seq![shard_view(s)]) =~= shard_file_keys(shard_view(s))) by {
                    assert(seq![shard_view(s)].drop_last() =~= Seq::<ShardView>::empty());
                    assert(seq![shard_view(s)].last() == shard_view(s));
                    assert(shard_keys(Seq::<ShardView>::empty()) =~= Seq::<ScheduleKey>::empty());
                }
            }
            let ghost kbase = key_views(keys@);
            let ghost fk = shard_file_keys(shard_view(s));
            let mut f: usize = 0;
            while f < s.files.len()
                invariant
                    f <= s.files@.len(),
                    full == shard_keys(all_shards(units@, assignments@, project_units@)),
                    fk == shard_file_keys(shard_view(s)),
                    fk.len() == s.files@.len(),
                    key_views(keys@) == kbase + fk.take(f as int),
                    full.len() >= (kbase + fk).len(),
                    full.take((kbase + fk).len() as int) == kbase + fk,
                    forall|j: int| 0 <= j < keys@.len() ==> !(#[trigger] key_views(keys@).take(j)).contains(key_views(keys@)[j]),
                decreases s.files@.len() - f,
            {
                let path = s.files[f].as_str();
                let unit = s.analysis_unit_id.as_str();
                assert(fk[f as int] == (s.language, path@, unit@));
                if contains_key(keys.as_slice(), s.language, path, unit) {
                    let head = crate::text::concat("provider schedule assigned ", s.language.as_str());
                    let head = crate::text::concat(head.as_str(), ":");
                    let head = crate::text::concat(head.as_str(), path);
                    let message = crate::text::concat(head.as_str(), " more than once");
                    proof {
                        reveal_strlit("provider schedule assigned ");
                        reveal_strlit(":");
                        reveal_strlit(" more than once");
                        let j = key_views(keys@).len() as int;
                        assert(full.take(j + 1) =~= key_views(keys@).push(fk[f as int])) by {
                            assert((kbase + fk).take(j + 1) =~= kbase + fk.take(f + 1));
                            assert(full.take(j + 1) =~= full.take((kbase + fk).len() as int).take(j + 1));
                        }
                        assert(j + 1 <= full.len());
                        assert(full.take(j + 1)[j] == full[j]);
                        assert(full[j] == fk[f as int]);
                        assert(full.take(j) =~= key_views(keys@));
                        assert forall|m: int| 0 <= m < j implies !(#[trigger] full.take(m)).contains(full[m]) by {
                            assert(full.take(m) =~= key_views(keys@).take(m));
                            assert(full[m] == key_views(keys@)[m]);
                        }
                        assert(is_first_repeat(full, j));
                        lemma_first_repeat_is(full, j);
                        assert(message@ == repeat_message(full[j]));
                    }
                    return Err(message);
                }
                let ghost kv_before = key_views(keys@);
                keys.push((s.language, crate::text::owned(path), crate::text::owned(unit)));
                proof {
                    assert(key_views(keys@) =~= kv_before.push(fk[f as int]));
                    assert(fk.take(f + 1) =~= fk.take(f as int).push(fk[f as int]));
                    assert forall|j: int| 0 <= j < keys@.len() implies !(#[trigger] key_views(keys@).take(j)).contains(
                        key_views(keys@)[j],
                    ) by {
                        if j < kv_before.len() {
                            assert(key_views(keys@).take(j) =~= kv_before.take(j));
                            assert(key_views(keys@)[j] == kv_before[j]);
                        } else {
                            assert(key_views(keys@).take(j) =~= kv_before);
                        }
                    }
                }
                f += 1;
            }
            let ghost sched_before = shard_views(scheduled@);
            scheduled.push(s);
            proof {
                assert(shard_views(scheduled@) =~= sched_before.push(shard_view(s)));
                assert(uv.take(c + 1) =~= uv.take(c as int).push(uv[c as int]));
                assert(fk.take(fk.len() as int) == fk);
                assert(shard_views(scheduled@) =~= base + uv.take(c + 1));
            }
            proof {
                c = c + 1;
            }
        }
        proof {
            assert(uv.take(c as int) == uv);
            assert(all_shards(units@.take(i + 1), assignments@, project_units@) == base + uv);
        }
        i += 1;
    }
    proof {
        assert(units@.take(units@.len() as int) == units@);
        assert forall|j: int| 0 <= j < full.len() implies !(#[trigger] full.take(j)).contains(full[j]) by {
            assert(full.take(j) =~= key_views(keys@).take(j));
        }
    }
    Ok((scheduled, omissions, keys))
}

} // verus!

verus! {

/// The file/language/unit keys the plan assigns.
pub open spec fn planned_keys(assignments: Seq<PlanAssignment>) -> Set<ScheduleKey> {
    Set::new(
        |k: ScheduleKey|
            exists|i: int|
                0 <= i < assignments.len() && k == (
                    #[trigger] assignments[i].language,
                    assignments[i].path.value@,
                    first_owner(assignments[i]),
                ),
    )
}

/// The first assignment of an omitted file/language.
pub open spec fn is_first_assignment_of(assignments: Seq<PlanAssignment>, o: OmissionView, i: int) -> bool {
    &&& 0 <= i < assignments.len()
    &&& assignments[i].language == o.0 && assignments[i].path.value@ == o.1
    &&& forall|m: int|
        0 <= m < i ==> !((#[trigger] assignments[m]).language == o.0 && assignments[m].path.value@ == o.1)
}

/// The key an omission accounts for: its file and language, with the unit of
/// the first assignment of that file and language.
pub open spec fn omitted_key(assignments: Seq<PlanAssignment>, o: OmissionView) -> Option<ScheduleKey> {
    if exists|i: int| #[trigger] is_first_assignment_of(assignments, o, i) {
        let i = choose|i: int| #[trigger] is_first_assignment_of(assignments, o, i);
        Some((o.0, o.1, first_owner(assignments[i])))
    } else {
        None
    }
}

pub open spec fn omitted_keys(assignments: Seq<PlanAssignment>, omissions: Seq<OmissionView>) -> Set<ScheduleKey> {
    Set::new(
        |k: ScheduleKey|
            exists|m: int| 0 <= m < omissions.len() && omitted_key(assignments, #[trigger] omissions[m]) == Some(k),
    )
}

/// The schedule accounts for the plan exactly: the scheduled and omitted keys
/// are the planned keys.
pub open spec fn accounts_for_plan(
    assignments: Seq<PlanAssignment>,
    scheduled: Seq<ScheduleKey>,
    omissions: Seq<OmissionView>,
) -> bool {
    scheduled.to_set().union(omitted_keys(assignments, omissions)) == planned_keys(assignments)
}

fn key_text(key: &(ProgrammingLanguage, String, String)) -> (r: Vec<char>)
    ensures
        r@ == crate::model::spec_language_name(key.0) + ":"@ + key.1@,
{
    let a = crate::text::concat(key.0.as_str(), ":");
    let b = crate::text::concat(a.as_str(), key.1.as_str());
    proof {
        reveal_strlit(":");
    }
    chars_of(b.as_str())
}

/// The keys among the first `n` of `a` that `b` lacks, in order of first
/// occurrence, each once.
pub open spec fn missing_prefix(a: Seq<ScheduleKey>, b: Seq<ScheduleKey>, n: int) -> Seq<ScheduleKey>
    decreases n,
{
    if n <= 0 {
        Seq::empty()
    } else {
        let before = missing_prefix(a, b, n - 1);
        let k = a[n - 1];
        if !b.contains(k) && !before.contains(k) {
            before.push(k)
        } else {
            before
        }
    }
}

/// The keys of `a` that `b` lacks, each once, at most `limit` of them.
pub open spec fn missing_sample(a: Seq<ScheduleKey>, b: Seq<ScheduleKey>, limit: int) -> Seq<ScheduleKey> {
    let all = missing_prefix(a, b, a.len() as int);
    if all.len() <= limit {
        all
    } else {
        all.take(limit)
    }
}

/// The `language:path` text of a key.
pub open spec fn key_text_view(k: ScheduleKey) -> Seq<char> {
    crate::model::spec_language_name(k.0) + ":"@ + k.1
}

proof fn lemma_missing_prefix_grows(a: Seq<ScheduleKey>, b: Seq<ScheduleKey>, j: int, n: int)
    requires
        0 <= j <= n,
    ensures
        missing_prefix(a, b, j).len() <= missing_prefix(a, b, n).len(),
        missing_prefix(a, b, n).take(missing_prefix(a, b, j).len() as int) == missing_prefix(a, b, j),
    decreases n - j,
{
    if j < n {
        lemma_missing_prefix_grows(a, b, j, n - 1);
        let p = missing_prefix(a, b, n - 1);
        let q = missing_prefix(a, b, n);
        let len = missing_prefix(a, b, j).len() as int;
        assert(q.take(len) =~= p.take(len));
    } else {
        assert(missing_prefix(a, b, n).take(missing_prefix(a, b, n).len() as int) =~= missing_prefix(a, b, n));
    }
}

/// The keys of `a` that `b` lacks, each once, at most `limit` of them, as
/// `language:path` texts.
fn missing_keys(
    a: &[(ProgrammingLanguage, String, String)],
    b: &[(ProgrammingLanguage, String, String)],
    limit: usize,
) -> (r: Vec<Vec<char>>)
    ensures
        r@.len() == missing_sample(key_views(a@), key_views(b@), limit as int).len(),
        forall|j: int|
            0 <= j < r@.len() ==> (#[trigger] r@[j])@ == key_text_view(
                missing_sample(key_views(a@), key_views(b@), limit as int)[j],
            ),
{
    let ghost ka = key_views(a@);
    let ghost kb = key_views(b@);
    let mut seen: Vec<(ProgrammingLanguage, String, String)> = Vec::new();
    let mut out: Vec<Vec<char>> = Vec::new();
    let mut i: usize = 0;
    while i < a.len() && out.len() < limit
        invariant
            i <= a.len(),
            ka == key_views(a@),
            kb == key_views(b@),
            key_views(seen@) == missing_prefix(ka, kb, i as int),
            out@.len() == seen@.len(),
            out@.len() <= limit,
            forall|j: int| 0 <= j < out@.len() ==> (#[trigger] out@[j])@ == key_text_view(key_views(seen@)[j]),
        decreases a.len() - i,
    {
        let k = &a[i];
        assert(ka[i as int] == (k.0, k.1@, k.2@));
        let ghost before_seen = seen@;
        let ghost before_out = out@;
        if !contains_key(b, k.0, k.1.as_str(), k.2.as_str()) && !contains_key(
            seen.as_slice(),
            k.0,
            k.1.as_str(),
            k.2.as_str(),
        ) {
            seen.push((k.0, k.1.clone(), k.2.clone()));
            out.push(key_text(k));
            assert(key_views(seen@) =~= key_views(before_seen).push(ka[i as int]));
            assert forall|j: int| 0 <= j < out@.len() implies (#[trigger] out@[j])@ == key_text_view(key_views(seen@)[j]) by {
                if j < before_out.len() {
                    assert(out@[j] == before_out[j]);
                    assert(key_views(seen@)[j] == key_views(before_seen)[j]);
                }
            }
        }
        i += 1;
    }
    proof {
        let all = missing_prefix(ka, kb, ka.len() as int);
        lemma_missing_prefix_grows(ka, kb, i as int, ka.len() as int);
        if i < a.len() {
            assert(out@.len() == limit);
            if all.len() <= limit {
                assert(all =~= missing_prefix(ka, kb, i as int));
            }
        } else {
            assert(ka.len() == i);
        }
        assert(missing_sample(ka, kb, limit as int) =~= key_views(seen@));
    }
    out
}

/// Whether every key of `a` is one of `b`.
fn all_keys_in(a: &[(ProgrammingLanguage, String, String)], b: &[(ProgrammingLanguage, String, String)]) -> (r: bool)
    ensures
        r == (forall|x: ScheduleKey| key_views(a@).contains(x) ==> key_views(b@).contains(x)),
{
    let mut i: usize = 0;
    while i < a.len()
        invariant
            i <= a@.len(),
            forall|m: int| 0 <= m < i ==> key_views(b@).contains(#[trigger] key_views(a@)[m]),
        decreases a@.len() - i,
    {
        if !contains_key(b, a[i].0, a[i].1.as_str(), a[i].2.as_str()) {
            proof {
                assert(key_views(a@)[i as int] == (a@[i as int].0, a@[i as int].1@, a@[i as int].2@));
                assert(key_views(a@).contains(key_views(a@)[i as int]));
            }
            return false;
        }
        i += 1;
    }
    proof {
        assert forall|x: ScheduleKey| key_views(a@).contains(x) implies key_views(b@).contains(x) by {
            let m = choose|m: int| 0 <= m < key_views(a@).len() && key_views(a@)[m] == x;
        }
    }
    true
}

fn planned_key_list(assignments: &[PlanAssignment]) -> (r: Vec<(ProgrammingLanguage, String, String)>)
    requires
        single_owners(assignments@),
    ensures
        key_views(r@).to_set() == planned_keys(assignments@),
{
    let mut out: Vec<(ProgrammingLanguage, String, String)> = Vec::new();
    let mut i: usize = 0;
    while i < assignments.len()
        invariant
            i <= assignments@.len(),
            single_owners(assignments@),
            key_views(out@).len() == i,
            forall|m: int|
                0 <= m < i ==> #[trigger] key_views(out@)[m] == (
                    assignments@[m].language,
                    assignments@[m].path.value@,
                    first_owner(assignments@[m]),
                ),
        decreases assignments@.len() - i,
    {
        let a = &assignments[i];
        assert(a.unit_ids@.len() == 1);
        let ghost before = key_views(out@);
        out.push((a.language, a.path.value.clone(), a.unit_ids[0].clone()));
        proof {
            assert(key_views(out@) =~= before.push(
                (a.language, a.path.value@, first_owner(*a)),
            ));
        }
        i += 1;
    }
    proof {
        assert forall|k: ScheduleKey| key_views(out@).to_set().contains(k) <==> planned_keys(assignments@).contains(k) by {
            if key_views(out@).contains(k) {
                let m = choose|m: int| 0 <= m < key_views(out@).len() && key_views(out@)[m] == k;
                assert(k == (assignments@[m].language, assignments@[m].path.value@, first_owner(assignments@[m])));
            }
            if planned_keys(assignments@).contains(k) {
                let m = choose|m: int|
                    0 <= m < assignments@.len() && k == (
                        #[trigger] assignments@[m].language,
                        assignments@[m].path.value@,
                        first_owner(assignments@[m]),
                    );
                assert(key_views(out@)[m] == k);
            }
        }
        assert(key_views(out@).to_set() =~= planned_keys(assignments@));
    }
    out
}

fn first_assignment_of(assignments: &[PlanAssignment], o: &Omission) -> (r: Option<usize>)
    ensures
        match r {
            Some(i) => is_first_assignment_of(assignments@, omission_view(*o), i as int),
            None => forall|i: int| !#[trigger] is_first_assignment_of(assignments@, omission_view(*o), i),
        },
{
    let mut i: usize = 0;
    while i < assignments.len()
        invariant
            i <= assignments@.len(),
            forall|m: int|
                0 <= m < i ==> !((#[trigger] assignments@[m]).language == o.language
                    && assignments@[m].path.value@ == o.path.value@),
        decreases assignments@.len() - i,
    {
        if assignments[i].language == o.language && crate::text::str_eq(
            assignments[i].path.as_str(),
            o.path.as_str(),
        ) {
            return Some(i);
        }
        i += 1;
    }
    proof {
        assert forall|i: int| !#[trigger] is_first_assignment_of(assignments@, omission_view(*o), i) by {
            if is_first_assignment_of(assignments@, omission_view(*o), i) {
                assert(assignments@[i].language == o.language);
            }
        }
    }
    None
}

proof fn lemma_first_assignment_unique(assignments: Seq<PlanAssignment>, o: OmissionView, i: int, j: int)
    requires
        is_first_assignment_of(assignments, o, i),
        is_first_assignment_of(assignments, o, j),
    ensures
        i == j,
{
    if i < j {
        assert(!(assignments[i].language == o.0 && assignments[i].path.value@ == o.1));
    } else if j < i {
        assert(!(assignments[j].language == o.0 && assignments[j].path.value@ == o.1));
    }
}

fn omitted_key_list(assignments: &[PlanAssignment], omissions: &[Omission]) -> (r: Vec<
    (ProgrammingLanguage, String, String),
>)
    requires
        single_owners(assignments@),
    ensures
        key_views(r@).to_set() == omitted_keys(assignments@, omission_views(omissions@)),
{
    let ghost ov = omission_views(omissions@);
    let mut out: Vec<(ProgrammingLanguage, String, String)> = Vec::new();
    let mut m: usize = 0;
    while m < omissions.len()
        invariant
            m <= omissions@.len(),
            ov == omission_views(omissions@),
            single_owners(assignments@),
            forall|k: ScheduleKey|
                key_views(out@).contains(k) <==> exists|n: int|
                    0 <= n < m && omitted_key(assignments@, #[trigger] ov[n]) == Some(k),
        decreases omissions@.len() - m,
    {
        let o = &omissions[m];
        let ghost before = key_views(out@);
        assert(ov[m as int] == omission_view(*o));
        match first_assignment_of(assignments, o) {
            Some(i) => {
                assert(assignments@[i as int].unit_ids@.len() == 1);
                let key = (o.language, o.path.value.clone(), assignments[i].unit_ids[0].clone());
                out.push(key);
                proof {
                    let x = omission_view(*o);
                    assert(exists|j: int| #[trigger] is_first_assignment_of(assignments@, x, j));
                    let c = choose|j: int| #[trigger] is_first_assignment_of(assignments@, x, j);
                    lemma_first_assignment_unique(assignments@, x, i as int, c);
                    assert(omitted_key(assignments@, x) == Some(key_view(key)));
                    assert(key_views(out@) =~= before.push(key_view(key)));
                    assert forall|k: ScheduleKey| key_views(out@).contains(k) <==> exists|n: int|
                        0 <= n < m + 1 && omitted_key(assignments@, #[trigger] ov[n]) == Some(k) by {
                        if key_views(out@).contains(k) {
                            let q = choose|q: int| 0 <= q < key_views(out@).len() && key_views(out@)[q] == k;
                            if q < before.len() {
                                assert(before[q] == k);
                                assert(before.contains(k));
                            } else {
                                assert(omitted_key(assignments@, ov[m as int]) == Some(k));
                            }
                        }
                        if exists|n: int| 0 <= n < m + 1 && omitted_key(assignments@, #[trigger] ov[n]) == Some(k) {
                            let n = choose|n: int| 0 <= n < m + 1 && omitted_key(assignments@, #[trigger] ov[n]) == Some(k);
                            if n < m {
                                assert(before.contains(k));
                                let q = choose|q: int| 0 <= q < before.len() && before[q] == k;
                                assert(key_views(out@)[q] == k);
                            } else {
                                assert(key_views(out@)[before.len() as int] == k);
                            }
                        }
                    }
                }
            },
            None => {
                proof {
                    let x = omission_view(*o);
                    assert(omitted_key(assignments@, x) is None);
                    assert forall|k: ScheduleKey| key_views(out@).contains(k) <==> exists|n: int|
                        0 <= n < m + 1 && omitted_key(assignments@, #[trigger] ov[n]) == Some(k) by {
                        if exists|n: int| 0 <= n < m + 1 && omitted_key(assignments@, #[trigger] ov[n]) == Some(k) {
                            let n = choose|n: int| 0 <= n < m + 1 && omitted_key(assignments@, #[trigger] ov[n]) == Some(k);
                            assert(n < m);
                        }
                    }
                }
            },
        }
        m += 1;
    }
    proof {
        assert(key_views(out@).to_set() =~= omitted_keys(assignments@, ov));
    }
    out
}

} // verus!

verus! {

/// The first file of a shard, absent ones first, then in path order.
pub open spec fn first_file_lt(a: Seq<Seq<char>>, b: Seq<Seq<char>>) -> bool {
    if a.len() == 0 {
        b.len() > 0
    } else if b.len() == 0 {
        false
    } else {
        path_lt(a[0], b[0])
    }
}

/// The schedule order: language, analysis unit, execution scope, first file.
pub open spec fn shard_before(a: ShardView, b: ShardView) -> bool {
    let la = crate::model::spec_language_name(a.2);
    let lb = crate::model::spec_language_name(b.2);
    ||| crate::text::seq_lt(la, lb)
    ||| la == lb && crate::text::seq_lt(a.0, b.0)
    ||| la == lb && a.0 == b.0 && crate::text::seq_lt(a.1, b.1)
    ||| la == lb && a.0 == b.0 && a.1 == b.1 && first_file_lt(a.4, b.4)
}

/// `v` is in schedule order (shards with equal keys in any order).
pub open spec fn shards_in_order(v: Seq<ShardView>) -> bool {
    forall|i: int, j: int| 0 <= i < j < v.len() ==> !shard_before(#[trigger] v[j], #[trigger] v[i])
}

proof fn lemma_first_file_lt_transitive(a: Seq<Seq<char>>, b: Seq<Seq<char>>, c: Seq<Seq<char>>)
    requires
        first_file_lt(a, b),
        first_file_lt(b, c),
    ensures
        first_file_lt(a, c),
{
    if a.len() > 0 && b.len() > 0 && c.len() > 0 {
        lemma_path_lt_transitive(a[0], b[0], c[0]);
    }
}

pub proof fn lemma_shard_before_transitive(a: ShardView, b: ShardView, c: ShardView)
    requires
        shard_before(a, b),
        shard_before(b, c),
    ensures
        shard_before(a, c),
{
    let la = crate::model::spec_language_name(a.2);
    let lb = crate::model::spec_language_name(b.2);
    let lc = crate::model::spec_language_name(c.2);
    if crate::text::seq_lt(la, lb) && crate::text::seq_lt(lb, lc) {
        crate::text::lemma_seq_lt_transitive(la, lb, lc);
    }
    if la == lb && lb == lc {
        if crate::text::seq_lt(a.0, b.0) && crate::text::seq_lt(b.0, c.0) {
            crate::text::lemma_seq_lt_transitive(a.0, b.0, c.0);
        }
        if a.0 == b.0 && b.0 == c.0 {
            if crate::text::seq_lt(a.1, b.1) && crate::text::seq_lt(b.1, c.1) {
                crate::text::lemma_seq_lt_transitive(a.1, b.1, c.1);
            }
            if a.1 == b.1 && b.1 == c.1 && first_file_lt(a.4, b.4) && first_file_lt(b.4, c.4) {
                lemma_first_file_lt_transitive(a.4, b.4, c.4);
            }
        }
    }
}

pub proof fn lemma_shard_before_irreflexive(a: ShardView)
    ensures
        !shard_before(a, a),
{
    crate::text::lemma_seq_lt_irreflexive(crate::model::spec_language_name(a.2));
    crate::text::lemma_seq_lt_irreflexive(a.0);
    crate::text::lemma_seq_lt_irreflexive(a.1);
    if a.4.len() > 0 {
        lemma_path_lt_irreflexive(a.4[0]);
    }
}

fn text_order(a: &str, b: &str) -> (r: i8)
    ensures
        r == -1 <==> crate::text::seq_lt(a@, b@),
        r == 0 <==> a@ == b@,
        r == 1 <==> crate::text::seq_lt(b@, a@),
        r == -1 || r == 0 || r == 1,
{
    let av = chars_of(a);
    let bv = chars_of(b);
    crate::text::order_chars(av.as_slice(), bv.as_slice())
}

fn shard_before_exec(a: &ScheduledShard, b: &ScheduledShard) -> (r: bool)
    ensures
        r == shard_before(shard_view(*a), shard_view(*b)),
{
    let o = text_order(a.language.as_str(), b.language.as_str());
    if o != 0 {
        return o == -1;
    }
    let o = text_order(a.analysis_unit_id.as_str(), b.analysis_unit_id.as_str());
    if o != 0 {
        return o == -1;
    }
    let o = text_order(a.execution_scope_id.as_str(), b.execution_scope_id.as_str());
    if o != 0 {
        return o == -1;
    }
    if a.files.len() == 0 {
        return b.files.len() > 0;
    }
    if b.files.len() == 0 {
        return false;
    }
    path_before(a.files[0].as_str(), b.files[0].as_str())
}

/// Sorts shards into schedule order, keeping shards with equal keys in
/// their given order.
pub fn sort_shards(v: Vec<ScheduledShard>) -> (r: Vec<ScheduledShard>)
    ensures
        shards_in_order(shard_views(r@)),
        shard_views(r@).to_multiset() == shard_views(v@).to_multiset(),
{
    let ghost input = shard_views(v@);
    let mut rest = v;
    let mut out: Vec<ScheduledShard> = Vec::new();
    proof {
        assert(input.skip(0) == input);
        assert(shard_views(out@) =~= Seq::<ShardView>::empty());
        assert(input.take(0) =~= Seq::<ShardView>::empty());
    }
    while rest.len() > 0
        invariant
            shard_views(rest@) == input.skip(input.len() - rest@.len()),
            shards_in_order(shard_views(out@)),
            shard_views(out@).to_multiset() == input.take(input.len() - rest@.len()).to_multiset(),
            rest@.len() <= input.len(),
        decreases rest@.len(),
    {
        let ghost done = input.len() - rest@.len();
        let ghost old_rest = rest@;
        let x = rest.remove(0);
        proof {
            assert(shard_views(old_rest)[0] == shard_view(x));
            assert(input.skip(done)[0] == shard_view(x));
            assert(shard_views(rest@) =~= shard_views(old_rest).drop_first());
            assert(input.skip(done).drop_first() =~= input.skip(done + 1));
        }
        let mut p: usize = 0;
        while p < out.len() && !shard_before_exec(&x, &out[p])
            invariant
                p <= out.len(),
                forall|k: int| 0 <= k < p ==> !shard_before(shard_view(x), #[trigger] shard_views(out@)[k]),
            decreases out.len() - p,
        {
            p += 1;
        }
        let ghost before = shard_views(out@);
        out.insert(p, x);
        proof {
            let nv = shard_views(out@);
            assert(nv =~= before.insert(p as int, shard_view(x)));
            assert forall|a: int, b: int| 0 <= a < b < nv.len() implies !shard_before(
                #[trigger] nv[b],
                #[trigger] nv[a],
            ) by {
                if a < p && b == p {
                    assert(nv[a] == before[a]);
                    assert(!shard_before(shard_view(x), before[a]));
                } else if a < p && b > p {
                    assert(nv[a] == before[a]);
                    assert(nv[b] == before[b - 1]);
                } else if a == p && b > p {
                    assert(nv[b] == before[b - 1]);
                    assert(shard_before(shard_view(x), before[p as int]));
                    if shard_before(before[b - 1], shard_view(x)) {
                        lemma_shard_before_transitive(before[b - 1], shard_view(x), before[p as int]);
                        if b - 1 == p {
                            lemma_shard_before_irreflexive(before[p as int]);
                        }
                    }
                } else if a > p {
                    assert(nv[a] == before[a - 1]);
                    assert(nv[b] == before[b - 1]);
                }
            }
            vstd::seq_lib::to_multiset_insert(before, p as int, shard_view(x));
            assert(input.take(done + 1) =~= input.take(done).push(input[done]));
            vstd::seq_lib::to_multiset_build(input.take(done), input[done]);
        }
    }
    proof {
        assert(input.take(input.len() as int) == input);
    }
    out
}

} // verus!

verus! {

pub open spec fn reason_rank(r: OmissionReason) -> int {
    match r {
        OmissionReason::ProjectModelOnly => 0,
        OmissionReason::ProjectConfigExcluded => 1,
    }
}

/// The receipt order of omissions: language, path, reason.
pub open spec fn omission_before(a: OmissionView, b: OmissionView) -> bool {
    ||| crate::census::language_rank(a.0) < crate::census::language_rank(b.0)
    ||| a.0 == b.0 && crate::text::seq_lt(a.1, b.1)
    ||| a.0 == b.0 && a.1 == b.1 && reason_rank(a.2) < reason_rank(b.2)
}

pub open spec fn omissions_sorted(v: Seq<OmissionView>) -> bool {
    forall|i: int, j: int| 0 <= i < j < v.len() ==> omission_before(#[trigger] v[i], #[trigger] v[j])
}

proof fn lemma_omission_before_transitive(a: OmissionView, b: OmissionView, c: OmissionView)
    requires
        omission_before(a, b),
        omission_before(b, c),
    ensures
        omission_before(a, c),
{
    if a.0 == b.0 && b.0 == c.0 && crate::text::seq_lt(a.1, b.1) && crate::text::seq_lt(b.1, c.1) {
        crate::text::lemma_seq_lt_transitive(a.1, b.1, c.1);
    }
}

proof fn lemma_omission_order_total(a: OmissionView, b: OmissionView)
    ensures
        a == b || omission_before(a, b) || omission_before(b, a),
{
    crate::text::lemma_seq_lt_total(a.1, b.1);
    if crate::census::language_rank(a.0) == crate::census::language_rank(b.0) {
        assert(a.0 == b.0);
    }
    if reason_rank(a.2) == reason_rank(b.2) {
        assert(a.2 == b.2);
    }
}

proof fn lemma_omission_before_irreflexive(a: OmissionView)
    ensures
        !omission_before(a, a),
{
    crate::text::lemma_seq_lt_irreflexive(a.1);
}

fn language_rank_exec(l: ProgrammingLanguage) -> (r: u8)
    ensures
        r as int == crate::census::language_rank(l),
{
    match l {
        ProgrammingLanguage::TypeScript => 0,
        ProgrammingLanguage::JavaScript => 1,
        ProgrammingLanguage::Python => 2,
        ProgrammingLanguage::Java => 3,
        ProgrammingLanguage::CSharp => 4,
        ProgrammingLanguage::C => 5,
        ProgrammingLanguage::Cpp => 6,
        ProgrammingLanguage::Go => 7,
        ProgrammingLanguage::Rust => 8,
        ProgrammingLanguage::Dart => 9,
    }
}

fn reason_rank_exec(r: OmissionReason) -> (k: u8)
    ensures
        k as int == reason_rank(r),
{
    match r {
        OmissionReason::ProjectModelOnly => 0,
        OmissionReason::ProjectConfigExcluded => 1,
    }
}

/// `-1`, `0` or `1` as `a` is before, equal to, or after `b`.
fn omission_order(a: &Omission, b: &Omission) -> (r: i8)
    ensures
        r == -1 <==> omission_before(omission_view(*a), omission_view(*b)),
        r == 0 <==> omission_view(*a) == omission_view(*b),
        r == 1 <==> omission_before(omission_view(*b), omission_view(*a)),
        r == -1 || r == 0 || r == 1,
{
    proof {
        lemma_omission_before_irreflexive(omission_view(*a));
        lemma_omission_before_irreflexive(omission_view(*b));
        crate::text::lemma_seq_lt_irreflexive(a.path.value@);
        if crate::text::seq_lt(a.path.value@, b.path.value@) {
            crate::text::lemma_seq_lt_asymmetric(a.path.value@, b.path.value@);
        }
    }
    let la = language_rank_exec(a.language);
    let lb = language_rank_exec(b.language);
    if la != lb {
        return if la < lb {
            -1
        } else {
            1
        };
    }
    assert(a.language == b.language);
    let o = text_order(a.path.as_str(), b.path.as_str());
    if o != 0 {
        return o;
    }
    let ra = reason_rank_exec(a.reason);
    let rb = reason_rank_exec(b.reason);
    if ra < rb {
        -1
    } else if ra > rb {
        1
    } else {
        assert(a.reason == b.reason);
        0
    }
}

/// The distinct omissions in receipt order.
pub fn sort_omissions(v: Vec<Omission>) -> (r: Vec<Omission>)
    ensures
        omissions_sorted(omission_views(r@)),
        omission_views(r@).to_set() == omission_views(v@).to_set(),
{
    let ghost input = omission_views(v@);
    let mut rest = v;
    let mut out: Vec<Omission> = Vec::new();
    proof {
        assert(input.skip(0) == input);
        assert(omission_views(out@).to_set() =~= input.take(0).to_set());
    }
    while rest.len() > 0
        invariant
            omission_views(rest@) == input.skip(input.len() - rest@.len()),
            omissions_sorted(omission_views(out@)),
            omission_views(out@).to_set() == input.take(input.len() - rest@.len()).to_set(),
            rest@.len() <= input.len(),
        decreases rest@.len(),
    {
        let ghost done = input.len() - rest@.len();
        let ghost old_rest = rest@;
        let x = rest.remove(0);
        proof {
            assert(omission_views(old_rest)[0] == omission_view(x));
            assert(input.skip(done)[0] == omission_view(x));
            assert(omission_views(rest@) =~= omission_views(old_rest).drop_first());
            assert(input.skip(done).drop_first() =~= input.skip(done + 1));
            assert(input.take(done + 1) =~= input.take(done).push(omission_view(x)));
            crate::text::lemma_push_to_set(input.take(done), omission_view(x));
        }
        let mut p: usize = 0;
        while p < out.len() && omission_order(&out[p], &x) == -1
            invariant
                p <= out.len(),
                forall|k: int| 0 <= k < p ==> omission_before(#[trigger] omission_views(out@)[k], omission_view(x)),
            decreases out.len() - p,
        {
            p += 1;
        }
        let ghost before = omission_views(out@);
        if p < out.len() && omission_order(&out[p], &x) == 0 {
            proof {
                assert(before[p as int] == omission_view(x));
                assert(before.to_set().contains(omission_view(x)));
                assert(before.to_set().insert(omission_view(x)) =~= before.to_set());
            }
        } else {
            out.insert(p, x);
            proof {
                let nv = omission_views(out@);
                assert(nv =~= before.insert(p as int, omission_view(x)));
                if p < before.len() {
                    lemma_omission_order_total(before[p as int], omission_view(x));
                }
                assert forall|a: int, b: int| 0 <= a < b < nv.len() implies omission_before(
                    #[trigger] nv[a],
                    #[trigger] nv[b],
                ) by {
                    if a < p && b == p {
                        assert(nv[a] == before[a]);
                    } else if a < p && b > p {
                        assert(nv[a] == before[a]);
                        assert(nv[b] == before[b - 1]);
                    } else if a == p && b > p {
                        assert(nv[b] == before[b - 1]);
                        if b - 1 > p {
                            lemma_omission_before_transitive(omission_view(x), before[p as int], before[b - 1]);
                        }
                    } else if a > p {
                        assert(nv[a] == before[a - 1]);
                        assert(nv[b] == before[b - 1]);
                    }
                }
                assert forall|o: OmissionView| nv.to_set().contains(o) <==> before.to_set().insert(omission_view(x)).contains(o) by {
                    if nv.contains(o) {
                        let k = choose|k: int| 0 <= k < nv.len() && nv[k] == o;
                        if k < p {
                            assert(before[k] == o);
                        } else if k > p {
                            assert(before[k - 1] == o);
                        }
                    }
                    if before.contains(o) {
                        let k = choose|k: int| 0 <= k < before.len() && before[k] == o;
                        if k < p {
                            assert(nv[k] == o);
                        } else {
                            assert(nv[k + 1] == o);
                        }
                    }
                    if o == omission_view(x) {
                        assert(nv[p as int] == o);
                    }
                }
                assert(nv.to_set() =~= before.to_set().insert(omission_view(x)));
            }
        }
    }
    proof {
        assert(input.take(input.len() as int) == input);
    }
    out
}

} // verus!

verus! {

/// The most omissions a receipt lists.
pub const RECEIPT_SAMPLE_LIMIT: usize = 100;

pub open spec fn reason_count(v: Seq<OmissionView>, reason: OmissionReason) -> nat
    decreases v.len(),
{
    if v.len() == 0 {
        0
    } else {
        reason_count(v.drop_last(), reason) + if v.last().2 == reason {
            1nat
        } else {
            0nat
        }
    }
}

/// The receipt line of an omission: `language:path:reason`.
pub open spec fn omission_text(o: OmissionView) -> Seq<char> {
    crate::model::spec_language_name(o.0) + ":"@ + o.1 + ":"@ + spec_omission_reason_name(o.2)
}

pub open spec fn shard_unit_ids(v: Seq<ShardView>) -> Seq<Seq<char>> {
    v.map_values(|s: ShardView| s.0)
}

fn count_reason(v: &[Omission], reason: OmissionReason) -> (r: usize)
    ensures
        r == reason_count(omission_views(v@), reason),
{
    let mut n: usize = 0;
    let mut i: usize = 0;
    while i < v.len()
        invariant
            i <= v@.len(),
            n == reason_count(omission_views(v@).take(i as int), reason),
            n <= i,
        decreases v@.len() - i,
    {
        assert(omission_views(v@).take(i + 1).drop_last() == omission_views(v@).take(i as int));
        if v[i].reason == reason {
            n += 1;
        }
        i += 1;
    }
    assert(omission_views(v@).take(v@.len() as int) == omission_views(v@));
    n
}

fn omission_sample(v: &[Omission]) -> (r: Vec<String>)
    ensures
        r@.len() == if v@.len() < RECEIPT_SAMPLE_LIMIT { v@.len() } else { RECEIPT_SAMPLE_LIMIT as nat },
        forall|i: int| 0 <= i < r@.len() ==> (#[trigger] r@[i])@ == omission_text(omission_views(v@)[i]),
{
    let n = if v.len() < RECEIPT_SAMPLE_LIMIT {
        v.len()
    } else {
        RECEIPT_SAMPLE_LIMIT
    };
    let mut out: Vec<String> = Vec::new();
    let mut i: usize = 0;
    while i < n
        invariant
            i <= n <= v@.len(),
            out@.len() == i,
            forall|k: int| 0 <= k < i ==> (#[trigger] out@[k])@ == omission_text(omission_views(v@)[k]),
        decreases n - i,
    {
        let o = &v[i];
        let a = crate::text::concat(o.language.as_str(), ":");
        let b = crate::text::concat(a.as_str(), o.path.as_str());
        let c = crate::text::concat(b.as_str(), ":");
        let d = crate::text::concat(c.as_str(), o.reason.as_str());
        proof {
            reveal_strlit(":");
            assert(d@ == omission_text(omission_views(v@)[i as int]));
        }
        out.push(d);
        i += 1;
    }
    out
}

/// How many distinct analysis units the shards serve.
fn distinct_unit_count(shards: &[ScheduledShard]) -> (r: usize)
    ensures
        r == shard_unit_ids(shard_views(shards@)).to_set().len(),
{
    let ghost ids = shard_unit_ids(shard_views(shards@));
    let mut seen: Vec<String> = Vec::new();
    let mut i: usize = 0;
    while i < shards.len()
        invariant
            i <= shards@.len(),
            ids == shard_unit_ids(shard_views(shards@)),
            crate::text::string_views(seen@).no_duplicates(),
            crate::text::string_views(seen@).to_set() == ids.take(i as int).to_set(),
        decreases shards@.len() - i,
    {
        let id = shards[i].analysis_unit_id.as_str();
        assert(ids[i as int] == id@);
        proof {
            assert(ids.take(i + 1) == ids.take(i as int).push(id@));
            crate::text::lemma_push_to_set(ids.take(i as int), id@);
        }
        let mut found = false;
        let mut k: usize = 0;
        while k < seen.len()
            invariant
                k <= seen@.len(),
                found ==> crate::text::string_views(seen@).contains(id@),
                !found ==> forall|m: int| 0 <= m < k ==> #[trigger] crate::text::string_views(seen@)[m] != id@,
            decreases seen@.len() - k,
        {
            if crate::text::str_eq(seen[k].as_str(), id) {
                assert(crate::text::string_views(seen@)[k as int] == id@);
                found = true;
            }
            k += 1;
        }
        if found {
            proof {
                assert(crate::text::string_views(seen@).to_set().contains(id@));
                assert(crate::text::string_views(seen@).to_set().insert(id@) =~= crate::text::string_views(seen@).to_set());
            }
        } else {
            let ghost before = crate::text::string_views(seen@);
            seen.push(crate::text::owned(id));
            proof {
                assert(crate::text::string_views(seen@) =~= before.push(id@));
                crate::text::lemma_push_to_set(before, id@);
                assert forall|a: int, b: int|
                    0 <= a < crate::text::string_views(seen@).len() && 0 <= b < crate::text::string_views(seen@).len() && a != b
                    implies crate::text::string_views(seen@)[a] != crate::text::string_views(seen@)[b] by {
                    if a < before.len() && b < before.len() {
                    } else if a == before.len() {
                        assert(before[b] != id@);
                    } else {
                        assert(before[a] != id@);
                    }
                }
            }
        }
        i += 1;
    }
    proof {
        assert(ids.take(ids.len() as int) == ids);
        crate::text::string_views(seen@).unique_seq_to_set();
    }
    seen.len()
}

/// How many distinct keys a list holds.
fn distinct_key_count(keys: &[(ProgrammingLanguage, String, String)]) -> (r: usize)
    ensures
        r == key_views(keys@).to_set().len(),
{
    let ghost all = key_views(keys@);
    let mut seen: Vec<(ProgrammingLanguage, String, String)> = Vec::new();
    let mut i: usize = 0;
    while i < keys.len()
        invariant
            i <= keys@.len(),
            all == key_views(keys@),
            key_views(seen@).no_duplicates(),
            key_views(seen@).to_set() == all.take(i as int).to_set(),
        decreases keys@.len() - i,
    {
        let k = &keys[i];
        assert(all[i as int] == key_view(*k));
        proof {
            assert(all.take(i + 1) == all.take(i as int).push(key_view(*k)));
            crate::text::lemma_push_to_set(all.take(i as int), key_view(*k));
        }
        if contains_key(seen.as_slice(), k.0, k.1.as_str(), k.2.as_str()) {
            proof {
                assert(key_views(seen@).to_set().contains(key_view(*k)));
                assert(key_views(seen@).to_set().insert(key_view(*k)) =~= key_views(seen@).to_set());
            }
        } else {
            let ghost before = key_views(seen@);
            seen.push((k.0, k.1.clone(), k.2.clone()));
            proof {
                assert(key_views(seen@) =~= before.push(key_view(*k)));
                crate::text::lemma_push_to_set(before, key_view(*k));
                assert forall|a: int, b: int|
                    0 <= a < key_views(seen@).len() && 0 <= b < key_views(seen@).len() && a != b
                    implies key_views(seen@)[a] != key_views(seen@)[b] by {
                    if a < before.len() && b < before.len() {
                    } else if a == before.len() {
                        assert(before.contains(before[b]));
                    } else {
                        assert(before.contains(before[a]));
                    }
                }
            }
        }
        i += 1;
    }
    proof {
        assert(all.take(all.len() as int) == all);
        key_views(seen@).unique_seq_to_set();
    }
    seen.len()
}

} // verus!

verus! {

/// What a schedule reports of itself.
#[derive(Debug)]
pub struct ScheduleReceipt {
    pub analysis_unit_count: usize,
    pub scheduled_analysis_unit_count: usize,
    pub execution_shard_count: usize,
    pub planned_file_language_count: usize,
    pub scheduled_file_language_count: usize,
    pub project_model_only_count: usize,
    pub project_config_excluded_count: usize,
    pub omission_sample: Vec<String>,
    pub details_truncated: bool,
}

/// The provider executions of a plan, the planned files accounted for
/// without one, and the receipt.
#[derive(Debug)]
pub struct ProviderSchedule {
    pub units: Vec<ScheduledShard>,
    pub omissions: Vec<Omission>,
    pub receipt: ScheduleReceipt,
}

/// The message that refuses a schedule that does not account for its plan.
pub open spec fn is_accounting_message(message: Seq<char>) -> bool {
    crate::text::is_prefix(
        "provider schedule does not exactly account for AnalysisPlan assignments; missing=["@,
        message,
    )
}

fn accounting_message(missing: &Vec<Vec<char>>, extra: &Vec<Vec<char>>) -> (r: String)
    ensures
        is_accounting_message(r@),
{
    let head = "provider schedule does not exactly account for AnalysisPlan assignments; missing=[";
    let m = crate::text::join_chars(missing, ", ");
    let e = crate::text::join_chars(extra, ", ");
    let a = crate::text::concat(head, string_of(m.as_slice()).as_str());
    let b = crate::text::concat(a.as_str(), "] extra=[");
    let c = crate::text::concat(b.as_str(), string_of(e.as_slice()).as_str());
    let d = crate::text::concat(c.as_str(), "]");
    proof {
        assert(d@.take(head@.len() as int) =~= head@);
    }
    d
}

/// Builds the provider schedule of a plan.
///
/// Every provider file comes from one assignment of the plan; planned files
/// that cannot be sent to a provider are kept as omissions: Vue components of
/// TypeScript units (measured by the project model) and C-family files their
/// project configuration leaves inactive. A unit may be split into several
/// executions, but no file moves to another unit, none is scheduled twice,
/// and the scheduled and omitted files together are exactly the planned ones;
/// a plan that breaks this is refused.
pub fn schedule_provider_units(
    units: &[PlanUnit],
    assignments: &[PlanAssignment],
    project_units: &[ProjectModelUnit],
) -> (r: Result<ProviderSchedule, String>)
    ensures
        ({
            let shards = all_shards(units@, assignments@, project_units@);
            let keys = shard_keys(shards);
            let omitted = all_omissions(units@, assignments@);
            match r {
                Ok(schedule) => {
                    let listed = omission_views(schedule.omissions@);
                    &&& single_owners(assignments@)
                    &&& !has_repeat(keys)
                    &&& accounts_for_plan(assignments@, keys, omitted)
                    &&& shards_in_order(shard_views(schedule.units@))
                    &&& shard_views(schedule.units@).to_multiset() == shards.to_multiset()
                    &&& omissions_sorted(listed)
                    &&& listed.to_set() == omitted.to_set()
                    &&& schedule.receipt.analysis_unit_count == units@.len()
                    &&& schedule.receipt.scheduled_analysis_unit_count == shard_unit_ids(shards).to_set().len()
                    &&& schedule.receipt.execution_shard_count == shards.len()
                    &&& schedule.receipt.planned_file_language_count == planned_keys(assignments@).len()
                    &&& schedule.receipt.scheduled_file_language_count == keys.len()
                    &&& schedule.receipt.project_model_only_count == reason_count(
                        listed,
                        OmissionReason::ProjectModelOnly,
                    )
                    &&& schedule.receipt.project_config_excluded_count == reason_count(
                        listed,
                        OmissionReason::ProjectConfigExcluded,
                    )
                    &&& schedule.receipt.omission_sample@.len() == (if listed.len() < RECEIPT_SAMPLE_LIMIT {
                        listed.len()
                    } else {
                        RECEIPT_SAMPLE_LIMIT as nat
                    })
                    &&& forall|i: int|
                        0 <= i < schedule.receipt.omission_sample@.len() ==> (
                        #[trigger] schedule.receipt.omission_sample@[i])@ == omission_text(listed[i])
                    &&& schedule.receipt.details_truncated == (listed.len() > RECEIPT_SAMPLE_LIMIT)
                },
                Err(message) => {
                    ||| !single_owners(assignments@) && exists|k: int|
                        is_first_multi_owner(assignments@, k) && message@ == owner_message(assignments@[k])
                    ||| single_owners(assignments@) && has_repeat(keys) && message@ == repeat_message(
                        keys[first_repeat(keys)],
                    )
                    ||| single_owners(assignments@) && !has_repeat(keys) && !accounts_for_plan(
                        assignments@,
                        keys,
                        omitted,
                    ) && is_accounting_message(message@)
                },
            }
        }),
{
    match check_owners(assignments) {
        Ok(()) => {},
        Err(message) => {
            return Err(message);
        },
    }
    let (shards, omissions, scheduled) = match collect_shards(units, assignments, project_units) {
        Ok(found) => found,
        Err(message) => {
            return Err(message);
        },
    };
    let ghost keys = key_views(scheduled@);
    let planned = planned_key_list(assignments);
    let omitted_list = omitted_key_list(assignments, omissions.as_slice());
    let mut accounted: Vec<(ProgrammingLanguage, String, String)> = Vec::new();
    let mut i: usize = 0;
    while i < scheduled.len()
        invariant
            i <= scheduled@.len(),
            key_views(accounted@) == key_views(scheduled@).take(i as int),
        decreases scheduled@.len() - i,
    {
        let k = &scheduled[i];
        let ghost before = key_views(accounted@);
        accounted.push((k.0, k.1.clone(), k.2.clone()));
        assert(key_views(accounted@) =~= before.push(key_view(*k)));
        assert(key_views(scheduled@)[i as int] == key_view(*k));
        assert(key_views(scheduled@).take(i + 1) =~= key_views(scheduled@).take(i as int).push(key_view(*k)));
        assert(key_views(accounted@) =~= key_views(scheduled@).take(i + 1));
        i += 1;
    }
    let ghost scheduled_part = key_views(accounted@);
    let mut j: usize = 0;
    while j < omitted_list.len()
        invariant
            j <= omitted_list@.len(),
            scheduled_part == key_views(scheduled@),
            key_views(accounted@) == scheduled_part + key_views(omitted_list@).take(j as int),
        decreases omitted_list@.len() - j,
    {
        let k = &omitted_list[j];
        let ghost before = key_views(accounted@);
        accounted.push((k.0, k.1.clone(), k.2.clone()));
        assert(key_views(accounted@) =~= before.push(key_view(*k)));
        assert(key_views(omitted_list@)[j as int] == key_view(*k));
        assert(key_views(omitted_list@).take(j + 1) =~= key_views(omitted_list@).take(j as int).push(key_view(*k)));
        assert(key_views(accounted@) =~= scheduled_part + key_views(omitted_list@).take(j + 1));
        j += 1;
    }
    proof {
        assert(scheduled_part == key_views(scheduled@).take(scheduled@.len() as int));
        assert(key_views(scheduled@).take(scheduled@.len() as int) == key_views(scheduled@));
        assert(key_views(omitted_list@).take(omitted_list@.len() as int) == key_views(omitted_list@));
        assert(key_views(accounted@).to_set() =~= keys.to_set().union(
            omitted_keys(assignments@, all_omissions(units@, assignments@)),
        )) by {
            assert forall|x: ScheduleKey| key_views(accounted@).contains(x) <==> (keys.contains(x) || key_views(omitted_list@).contains(x)) by {
                let a = key_views(accounted@);
                if a.contains(x) {
                    let q = choose|q: int| 0 <= q < a.len() && a[q] == x;
                    if q < keys.len() {
                        assert(keys[q] == x);
                    } else {
                        assert(key_views(omitted_list@)[q - keys.len()] == x);
                    }
                }
                if keys.contains(x) {
                    let q = choose|q: int| 0 <= q < keys.len() && keys[q] == x;
                    assert(a[q] == x);
                }
                if key_views(omitted_list@).contains(x) {
                    let q = choose|q: int| 0 <= q < key_views(omitted_list@).len() && key_views(omitted_list@)[q] == x;
                    assert(a[q + keys.len()] == x);
                }
            }
        }
    }
    let complete = all_keys_in(planned.as_slice(), accounted.as_slice());
    let sound = all_keys_in(accounted.as_slice(), planned.as_slice());
    if !(complete && sound) {
        let missing = missing_keys(planned.as_slice(), accounted.as_slice(), RECEIPT_SAMPLE_LIMIT);
        let extra = missing_keys(accounted.as_slice(), planned.as_slice(), RECEIPT_SAMPLE_LIMIT);
        let message = accounting_message(&missing, &extra);
        proof {
            let acc = key_views(accounted@).to_set();
            let pl = key_views(planned@).to_set();
            if acc == pl {
                assert forall|x: ScheduleKey| key_views(planned@).contains(x) implies key_views(accounted@).contains(x) by {
                    assert(pl.contains(x));
                }
                assert forall|x: ScheduleKey| key_views(accounted@).contains(x) implies key_views(planned@).contains(x) by {
                    assert(acc.contains(x));
                }
            }
        }
        return Err(message);
    }
    proof {
        assert(key_views(accounted@).to_set() =~= key_views(planned@).to_set());
    }
    let execution_shard_count = shards.len();
    let scheduled_analysis_unit_count = distinct_unit_count(shards.as_slice());
    let planned_file_language_count = distinct_key_count(planned.as_slice());
    let scheduled_file_language_count = scheduled.len();
    let sorted_shards = sort_shards(shards);
    let sorted_omissions = sort_omissions(omissions);
    let project_model_only_count = count_reason(sorted_omissions.as_slice(), OmissionReason::ProjectModelOnly);
    let project_config_excluded_count = count_reason(
        sorted_omissions.as_slice(),
        OmissionReason::ProjectConfigExcluded,
    );
    let omission_sample = omission_sample(sorted_omissions.as_slice());
    let details_truncated = sorted_omissions.len() > RECEIPT_SAMPLE_LIMIT;
    Ok(
        ProviderSchedule {
            units: sorted_shards,
            omissions: sorted_omissions,
            receipt: ScheduleReceipt {
                analysis_unit_count: units.len(),
                scheduled_analysis_unit_count,
                execution_shard_count,
                planned_file_language_count,
                scheduled_file_language_count,
                project_model_only_count,
                project_config_excluded_count,
                omission_sample,
                details_truncated,
            },
        },
    )
}

} // verus!

verus! {

/// Every shard of a unit belongs to the unit, runs in its language and
/// holds only files it was given.
pub proof fn lemma_unit_shard_files(u: PlanUnit, files: Seq<Seq<char>>, project_units: Seq<ProjectModelUnit>)
    ensures
        forall|j: int|
            0 <= j < unit_shards_for(u, files, project_units).len() ==> {
                let s = #[trigger] unit_shards_for(u, files, project_units)[j];
                &&& s.0 == u.id@
                &&& s.2 == u.language
                &&& forall|q: Seq<char>| s.4.contains(q) ==> files.contains(q)
            },
{
    let shards = unit_shards_for(u, files, project_units);
    let scope = spec_root_scope(u.root.value@);
    if files.len() == 0 {
    } else if u.language == ProgrammingLanguage::TypeScript || u.language == ProgrammingLanguage::JavaScript {
        let all = files.to_set();
        vstd::seq_lib::seq_to_set_is_finite(files);
        let order = crate::schedule::unit_order_of(project_units);
        crate::schedule::lemma_project_claims_within(project_units, order, all);
        let (groups, rest) = crate::schedule::project_claims_in_order(project_units, order, all);
        assert forall|j: int| 0 <= j < shards.len() implies {
            let s = #[trigger] shards[j];
            &&& s.0 == u.id@
            &&& s.2 == u.language
            &&& forall|q: Seq<char>| s.4.contains(q) ==> files.contains(q)
        } by {
            let set = if j < groups.len() { groups[j].1 } else { rest };
            assert(set.subset_of(all));
            vstd::set_lib::lemma_set_subset_finite(all, set);
            crate::schedule::lemma_sorted_paths_of_finite(set);
            assert(shards[j].4 == crate::schedule::sorted_paths_of(set));
            assert forall|q: Seq<char>| shards[j].4.contains(q) implies files.contains(q) by {
                assert(crate::schedule::sorted_paths_of(set).to_set().contains(q));
                assert(all.contains(q));
            }
        }
    } else if u.language == ProgrammingLanguage::Dart {
        let n = files.len() as int;
        assert forall|j: int| 0 <= j < shards.len() implies {
            let s = #[trigger] shards[j];
            &&& s.0 == u.id@
            &&& s.2 == u.language
            &&& forall|q: Seq<char>| s.4.contains(q) ==> files.contains(q)
        } by {
            assert(shards.len() == (n + 511) / 512);
            assert(512 * j < n) by (nonlinear_arith)
                requires
                    0 <= j < (n + 511) / 512,
                    n >= 0,
            ;
            let end = crate::schedule::chunk_end(n, j);
            assert(shards[j].4 == files.subrange(512 * j, end));
            assert forall|q: Seq<char>| shards[j].4.contains(q) implies files.contains(q) by {
                let k = choose|k: int| 0 <= k < shards[j].4.len() && shards[j].4[k] == q;
                assert(files[512 * j + k] == q);
            }
        }
    } else {
        assert forall|j: int| 0 <= j < shards.len() implies {
            let s = #[trigger] shards[j];
            &&& s.0 == u.id@
            &&& s.2 == u.language
            &&& forall|q: Seq<char>| s.4.contains(q) ==> files.contains(q)
        } by {
            assert(j == 0);
        }
    }
}

/// Every key a list of shards schedules comes from one of its shards.
pub proof fn lemma_shard_key_source(v: Seq<ShardView>, i: int)
    requires
        0 <= i < shard_keys(v).len(),
    ensures
        exists|j: int, k: int|
            0 <= j < v.len() && 0 <= k < v[j].4.len() && #[trigger] shard_keys(v)[i] == (v[j].2, v[j].4[k], v[j].0),
    decreases v.len(),
{
    let front = shard_keys(v.drop_last());
    let last = v.last();
    if i < front.len() {
        lemma_shard_key_source(v.drop_last(), i);
        let (j, k) = choose|j: int, k: int|
            0 <= j < v.drop_last().len() && 0 <= k < v.drop_last()[j].4.len() && #[trigger] front[i] == (
                v.drop_last()[j].2,
                v.drop_last()[j].4[k],
                v.drop_last()[j].0,
            );
        assert(v[j] == v.drop_last()[j]);
        assert(shard_keys(v)[i] == front[i]);
    } else {
        let k = i - front.len();
        assert(shard_keys(v)[i] == shard_file_keys(last)[k]);
        assert(v[v.len() - 1] == last);
    }
}

/// Every key the plan's shards schedule is a provider file of a unit of the
/// plan, in that unit's language and under its id.
pub proof fn lemma_scheduled_key_unit(
    units: Seq<PlanUnit>,
    assignments: Seq<PlanAssignment>,
    project_units: Seq<ProjectModelUnit>,
    i: int,
)
    requires
        0 <= i < shard_keys(all_shards(units, assignments, project_units)).len(),
    ensures
        exists|m: int|
            0 <= m < units.len() && {
                let key = shard_keys(all_shards(units, assignments, project_units))[i];
                &&& key.0 == (#[trigger] units[m]).language
                &&& key.2 == units[m].id@
                &&& provider_files_of(units[m], assignments).contains(key.1)
            },
    decreases units.len(),
{
    let front = all_shards(units.drop_last(), assignments, project_units);
    let tail = spec_unit_shards(units.last(), assignments, project_units);
    lemma_shard_keys_append(front, tail);
    let key = shard_keys(all_shards(units, assignments, project_units))[i];
    if i < shard_keys(front).len() {
        lemma_scheduled_key_unit(units.drop_last(), assignments, project_units, i);
        let m = choose|m: int|
            0 <= m < units.drop_last().len() && {
                let k = shard_keys(front)[i];
                &&& k.0 == (#[trigger] units.drop_last()[m]).language
                &&& k.2 == units.drop_last()[m].id@
                &&& provider_files_of(units.drop_last()[m], assignments).contains(k.1)
            };
        assert(units[m] == units.drop_last()[m]);
    } else {
        let u = units.last();
        let i2 = i - shard_keys(front).len();
        lemma_shard_key_source(tail, i2);
        let (j, k) = choose|j: int, k: int|
            0 <= j < tail.len() && 0 <= k < tail[j].4.len() && #[trigger] shard_keys(tail)[i2] == (
                tail[j].2,
                tail[j].4[k],
                tail[j].0,
            );
        lemma_unit_shard_files(u, provider_files_of(u, assignments), project_units);
        assert(tail[j].4.contains(tail[j].4[k]));
        assert(units[units.len() - 1] == u);
    }
}

} // verus!

verus! {

/// A valid plan: unit ids are distinct, no file is assigned twice for one
/// language, every assignment has one owner, and an owner that is a unit of
/// the plan has the assignment's language.
pub open spec fn plan_is_valid(units: Seq<PlanUnit>, assignments: Seq<PlanAssignment>) -> bool {
    &&& forall|i: int, j: int|
        0 <= i < units.len() && 0 <= j < units.len() && (#[trigger] units[i]).id@ == (#[trigger] units[j]).id@
            ==> i == j
    &&& forall|i: int, j: int|
        0 <= i < assignments.len() && 0 <= j < assignments.len() && (#[trigger] assignments[i]).language
            == (#[trigger] assignments[j]).language && assignments[i].path.value@ == assignments[j].path.value@
            ==> i == j
    &&& single_owners(assignments)
    &&& forall|t: int, m: int|
        0 <= t < assignments.len() && 0 <= m < units.len() && first_owner(#[trigger] assignments[t])
            == (#[trigger] units[m]).id@ ==> units[m].language == assignments[t].language
}

/// A provider file of a unit is the path of an assignment the unit owns.
pub proof fn lemma_provider_file_source(u: PlanUnit, a: Seq<PlanAssignment>, p: Seq<char>)
    requires
        provider_files_of(u, a).contains(p),
    ensures
        exists|t: int| 0 <= t < a.len() && first_owner(#[trigger] a[t]) == u.id@ && a[t].path.value@ == p,
    decreases a.len(),
{
    let r = provider_files_of(u, a.drop_last());
    if r.contains(p) {
        lemma_provider_file_source(u, a.drop_last(), p);
        let t = choose|t: int|
            0 <= t < a.drop_last().len() && first_owner(#[trigger] a.drop_last()[t]) == u.id@
                && a.drop_last()[t].path.value@ == p;
        assert(a[t] == a.drop_last()[t]);
    } else {
        let n = a.len() - 1;
        assert(a[n] == a.last());
        if !(first_owner(a.last()) == u.id@ && omission_reason_of(u, a.last().path.value@) is None) {
            assert(provider_files_of(u, a) == r);
        }
        let k = choose|k: int| 0 <= k < provider_files_of(u, a).len() && provider_files_of(u, a)[k] == p;
        if k < r.len() {
            assert(r[k] == p);
        }
    }
}

/// An omission of a unit is an assignment the unit owns, in its language,
/// for the reason the unit gives for that file.
pub proof fn lemma_unit_omission_source(u: PlanUnit, a: Seq<PlanAssignment>, k: int)
    requires
        0 <= k < unit_omissions(u, a).len(),
    ensures
        ({
            let o = unit_omissions(u, a)[k];
            &&& o.0 == u.language
            &&& omission_reason_of(u, o.1) == Some(o.2)
            &&& exists|t: int| 0 <= t < a.len() && first_owner(#[trigger] a[t]) == u.id@ && a[t].path.value@ == o.1
        }),
    decreases a.len(),
{
    let r = unit_omissions(u, a.drop_last());
    if k < r.len() {
        lemma_unit_omission_source(u, a.drop_last(), k);
        let t = choose|t: int|
            0 <= t < a.drop_last().len() && first_owner(#[trigger] a.drop_last()[t]) == u.id@
                && a.drop_last()[t].path.value@ == r[k].1;
        assert(a[t] == a.drop_last()[t]);
    } else {
        let n = a.len() - 1;
        assert(a[n] == a.last());
    }
}

/// An omission of the plan comes from one of its units.
pub proof fn lemma_omission_source(units: Seq<PlanUnit>, a: Seq<PlanAssignment>, i: int)
    requires
        0 <= i < all_omissions(units, a).len(),
    ensures
        exists|m: int|
            0 <= m < units.len() && {
                let o = all_omissions(units, a)[i];
                &&& o.0 == (#[trigger] units[m]).language
                &&& omission_reason_of(units[m], o.1) == Some(o.2)
                &&& exists|t: int|
                    0 <= t < a.len() && first_owner(#[trigger] a[t]) == units[m].id@ && a[t].path.value@ == o.1
            },
    decreases units.len(),
{
    let front = all_omissions(units.drop_last(), a);
    let o = all_omissions(units, a)[i];
    if i < front.len() {
        lemma_omission_source(units.drop_last(), a, i);
        let m = choose|m: int|
            0 <= m < units.drop_last().len() && {
                let o = front[i];
                &&& o.0 == (#[trigger] units.drop_last()[m]).language
                &&& omission_reason_of(units.drop_last()[m], o.1) == Some(o.2)
                &&& exists|t: int|
                    0 <= t < a.len() && first_owner(#[trigger] a[t]) == units.drop_last()[m].id@ && a[t].path.value@
                        == o.1
            };
        assert(units[m] == units.drop_last()[m]);
    } else {
        let u = units.last();
        lemma_unit_omission_source(u, a, i - front.len());
        assert(units[units.len() - 1] == u);
    }
}

/// Every omission has one of the two reasons.
pub proof fn lemma_reason_counts_add_up(v: Seq<OmissionView>)
    ensures
        reason_count(v, OmissionReason::ProjectModelOnly) + reason_count(v, OmissionReason::ProjectConfigExcluded)
            == v.len(),
    decreases v.len(),
{
    if v.len() > 0 {
        lemma_reason_counts_add_up(v.drop_last());
    }
}

} // verus!
