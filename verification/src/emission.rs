//! What the emission of a run does with each unit of its plan: a unit whose
//! language produced no output, or whose provider is not registered, is
//! reported unavailable; any other unit is emitted over the files the plan
//! assigns to it, and must have files and an executed provider context.
use vstd::prelude::*;

use crate::provider_schedule::PlanAssignment;
use crate::resolver::GapCode;
use crate::text::{string_views, strictly_sorted};

verus! {

/// The paths of the assignments that list unit `unit_id`.
pub open spec fn assigned_paths(assignments: Seq<PlanAssignment>, unit_id: Seq<char>) -> Set<Seq<char>> {
    Set::new(
        |p: Seq<char>|
            exists|i: int|
                0 <= i < assignments.len() && #[trigger] assignments[i].path.value@ == p && string_views(
                    assignments[i].unit_ids@,
                ).contains(unit_id),
    )
}

/// The files the plan assigns to unit `unit_id`, distinct and in path order.
pub fn unit_files(assignments: &[PlanAssignment], unit_id: &str) -> (r: Vec<String>)
    ensures
        strictly_sorted(string_views(r@)),
        forall|p: Seq<char>| string_views(r@).contains(p) <==> assigned_paths(assignments@, unit_id@).contains(p),
{
    let mut paths: Vec<String> = Vec::new();
    let mut i: usize = 0;
    while i < assignments.len()
        invariant
            i <= assignments.len(),
            forall|p: Seq<char>|
                string_views(paths@).contains(p) <==> exists|k: int|
                    0 <= k < i && #[trigger] assignments@[k].path.value@ == p && string_views(
                        assignments@[k].unit_ids@,
                    ).contains(unit_id@),
        decreases assignments.len() - i,
    {
        let a = &assignments[i];
        let ghost names = string_views(a.unit_ids@);
        let mut listed = false;
        let mut j: usize = 0;
        while j < a.unit_ids.len()
            invariant
                j <= a.unit_ids.len(),
                names == string_views(a.unit_ids@),
                listed == (exists|k: int| 0 <= k < j && #[trigger] names[k] == unit_id@),
            decreases a.unit_ids.len() - j,
        {
            let hit = crate::text::str_eq(a.unit_ids[j].as_str(), unit_id);
            assert(names[j as int] == a.unit_ids@[j as int]@);
            listed = listed || hit;
            j += 1;
        }
        assert(listed == names.contains(unit_id@));
        let ghost before = string_views(paths@);
        if listed {
            paths.push(crate::text::owned(a.path.value.as_str()));
            proof {
                assert(string_views(paths@) =~= before.push(a.path.value@));
            }
        }
        proof {
            assert forall|p: Seq<char>| string_views(paths@).contains(p) <==> exists|k: int|
                0 <= k < i + 1 && #[trigger] assignments@[k].path.value@ == p && string_views(
                    assignments@[k].unit_ids@,
                ).contains(unit_id@) by {
                if listed {
                    crate::text::lemma_push_to_set(before, a.path.value@);
                    assert(string_views(paths@).to_set().contains(p) == string_views(paths@).contains(p));
                    assert(before.to_set().contains(p) == before.contains(p));
                }
                if p == a.path.value@ && listed {
                    assert(assignments@[i as int].path.value@ == p);
                }
            }
        }
        i += 1;
    }
    let r = crate::text::sorted_unique_strings(paths);
    proof {
        assert forall|p: Seq<char>| string_views(r@).contains(p) <==> assigned_paths(assignments@, unit_id@).contains(p) by {
            if assigned_paths(assignments@, unit_id@).contains(p) {
                let k = choose|k: int|
                    0 <= k < assignments@.len() && #[trigger] assignments@[k].path.value@ == p && string_views(
                        assignments@[k].unit_ids@,
                    ).contains(unit_id@);
            }
        }
    }
    r
}

/// What the emission does with one unit.
#[derive(Debug)]
pub enum UnitDisposition {
    /// The unit is reported unavailable with this gap.
    Unavailable { gap: GapCode },
    /// The unit is emitted over these files.
    Emit { files: Vec<String> },
}

/// Decides what the emission does with unit `unit_id`: without output for
/// its language it is unavailable as an incomplete execution; without a
/// registered provider it is unavailable as a missing provider; otherwise it
/// is emitted over its assigned files, and a unit with no assigned file or
/// no executed provider context is refused.
pub fn plan_unit_disposition(
    assignments: &[PlanAssignment],
    unit_id: &str,
    has_language_output: bool,
    has_provider: bool,
    has_execution_context: bool,
) -> (r: Result<UnitDisposition, String>)
    ensures
        !has_language_output ==> (r matches Ok(UnitDisposition::Unavailable { gap }) && gap
            == GapCode::ProviderExecutionIncomplete),
        has_language_output && !has_provider ==> (r matches Ok(UnitDisposition::Unavailable { gap }) && gap
            == GapCode::ProviderUnavailable),
        has_language_output && has_provider ==> match r {
            Ok(UnitDisposition::Emit { files }) => {
                &&& has_execution_context
                &&& files@.len() > 0
                &&& strictly_sorted(string_views(files@))
                &&& forall|p: Seq<char>| string_views(files@).contains(p) <==> assigned_paths(assignments@, unit_id@).contains(p)
            },
            Ok(UnitDisposition::Unavailable { .. }) => false,
            Err(message) => {
                ||| assigned_paths(assignments@, unit_id@).is_empty() && message@ == "analysis unit has no assigned files: "@
                    + unit_id@
                ||| !assigned_paths(assignments@, unit_id@).is_empty() && !has_execution_context && message@
                    == "analysis unit has no executed provider context: "@ + unit_id@
            },
        },
{
    if !has_language_output {
        return Ok(UnitDisposition::Unavailable { gap: GapCode::ProviderExecutionIncomplete });
    }
    if !has_provider {
        return Ok(UnitDisposition::Unavailable { gap: GapCode::ProviderUnavailable });
    }
    let files = unit_files(assignments, unit_id);
    if files.len() == 0 {
        proof {
            assert(assigned_paths(assignments@, unit_id@) =~= Set::empty()) by {
                assert forall|p: Seq<char>| !assigned_paths(assignments@, unit_id@).contains(p) by {
                    if assigned_paths(assignments@, unit_id@).contains(p) {
                        assert(string_views(files@).contains(p));
                    }
                }
            }
        }
        return Err(crate::text::concat("analysis unit has no assigned files: ", unit_id));
    }
    proof {
        let x = string_views(files@)[0];
        assert(string_views(files@).contains(x));
        assert(assigned_paths(assignments@, unit_id@).contains(x));
    }
    if !has_execution_context {
        return Err(crate::text::concat("analysis unit has no executed provider context: ", unit_id));
    }
    Ok(UnitDisposition::Emit { files })
}

} // verus!
