//! Rules of the direct provider path: the closed vocabulary of provider
//! execution statuses.
use vstd::prelude::*;

use crate::model::RepositoryPath;
use crate::text::{chars_eq_str, chars_of, concat};

verus! {

/// The execution statuses a provider may report.
pub open spec fn is_closed_status(status: Seq<char>) -> bool {
    ||| status == "indexed"@
    ||| status == "indexed-partial"@
    ||| status == "excluded"@
    ||| status == "excluded-by-project-config"@
    ||| status == "empty-semantic"@
    ||| status == "missing-tool"@
    ||| status == "indexer-failed"@
    ||| status == "invalid-output"@
}

/// Accepts a provider's execution status, or refuses an unknown one with a
/// message that names it.
pub fn ensure_closed_status(status: &str) -> (r: Result<(), String>)
    ensures
        r is Ok <==> is_closed_status(status@),
        r matches Err(message) ==> message@ == "provider emitted an unknown execution status: "@
            + status@,
{
    let s = chars_of(status);
    let s = s.as_slice();
    if chars_eq_str(s, "indexed") || chars_eq_str(s, "indexed-partial") || chars_eq_str(
        s,
        "excluded",
    ) || chars_eq_str(s, "excluded-by-project-config") || chars_eq_str(s, "empty-semantic")
        || chars_eq_str(s, "missing-tool") || chars_eq_str(s, "indexer-failed") || chars_eq_str(
        s,
        "invalid-output",
    ) {
        Ok(())
    } else {
        Err(concat("provider emitted an unknown execution status: ", status))
    }
}

} // verus!

verus! {

/// How a provider execution ran.
#[derive(Clone, Copy, Debug, PartialEq, Eq, Structural)]
pub enum ProviderExecutionMode {
    Project,
    GeneratedProject,
    SourceOnlyFallback,
    Composite,
    NotExecuted,
}

/// What reconciling one provider execution with its plan unit found.
#[derive(Clone, Copy, Debug, PartialEq, Eq, Structural)]
pub enum ExecutionAssessment {
    /// The provider did not run; its planned context is recorded as missing.
    NotExecuted,
    /// The provider ran the planned project context exactly.
    Exact,
    /// The provider ran, but with less than the planned context.
    Partial,
}

/// Why an execution contradicts the plan unit it claims.
#[derive(Clone, Debug, PartialEq, Eq)]
pub enum ExecutionContextError {
    /// A batch reports indexed output without an executed context.
    IndexedWithoutExecution,
    /// An executed context omits its analysis root.
    MissingAnalysisRoot,
    /// The executed root is not the unit's root; `actual` is the root that ran.
    RootMismatch { actual: String },
    /// Configuration files outside the plan unit were used: those files, in order.
    UnplannedConfiguration { files: Vec<String> },
    /// A project execution used dimensions outside the plan unit: those
    /// dimensions, in order.
    UnplannedDimensions { dimensions: Vec<String> },
}

/// The result of reconciling one execution: its assessment, the planned
/// configuration files it did not use, and the dimensions only it or only
/// the plan has.
#[derive(Clone, Debug)]
pub struct ExecutionReconciliation {
    pub assessment: ExecutionAssessment,
    pub planned_only_config_files: Vec<String>,
    pub actual_only_dimensions: Vec<String>,
    pub planned_only_dimensions: Vec<String>,
    pub generated_or_fallback: bool,
}

pub open spec fn claims_indexed(status: Seq<char>) -> bool {
    status == "indexed"@ || status == "indexed-partial"@ || status == "empty-semantic"@
}

/// The members of `a` that `b` lacks.
pub open spec fn set_minus(a: Seq<Seq<char>>, b: Seq<Seq<char>>) -> Set<Seq<char>> {
    Set::new(|x: Seq<char>| a.contains(x) && !b.contains(x))
}

pub open spec fn is_generated_or_fallback(mode: ProviderExecutionMode) -> bool {
    mode == ProviderExecutionMode::GeneratedProject || mode
        == ProviderExecutionMode::SourceOnlyFallback || mode == ProviderExecutionMode::Composite
}

/// Whether one of `b` is the text `x`.
fn contains_text(b: &[String], x: &str) -> (r: bool)
    ensures
        r == crate::text::string_views(b@).contains(x@),
{
    let mut j: usize = 0;
    while j < b.len()
        invariant
            j <= b.len(),
            forall|k: int| 0 <= k < j ==> crate::text::string_views(b@)[k] != x@,
        decreases b.len() - j,
    {
        if crate::text::str_eq(b[j].as_str(), x) {
            assert(crate::text::string_views(b@)[j as int] == x@);
            return true;
        }
        j += 1;
    }
    false
}

/// The distinct members of `a` absent from `b`, in increasing order.
fn difference(a: &[String], b: &[String]) -> (r: Vec<String>)
    ensures
        crate::text::strictly_sorted(crate::text::string_views(r@)),
        crate::text::string_views(r@).to_set() == set_minus(
            crate::text::string_views(a@),
            crate::text::string_views(b@),
        ),
{
    let ghost av = crate::text::string_views(a@);
    let ghost bv = crate::text::string_views(b@);
    let mut out: Vec<String> = Vec::new();
    let mut i: usize = 0;
    assert(crate::text::string_views(out@).to_set() =~= av.take(0).to_set().filter(
        |x: Seq<char>| !bv.contains(x),
    ));
    while i < a.len()
        invariant
            i <= a.len(),
            av == crate::text::string_views(a@),
            bv == crate::text::string_views(b@),
            crate::text::string_views(out@).to_set() == av.take(i as int).to_set().filter(
                |x: Seq<char>| !bv.contains(x),
            ),
        decreases a.len() - i,
    {
        let ghost prev = crate::text::string_views(out@);
        let ghost ai = av[i as int];
        assert(av.take(i + 1) == av.take(i as int).push(ai));
        proof {
            crate::text::lemma_push_to_set(av.take(i as int), ai);
        }
        let present = contains_text(b, a[i].as_str());
        assert(a@[i as int]@ == ai);
        if !present {
            out.push(a[i].clone());
            assert(crate::text::string_views(out@) =~= prev.push(ai));
            proof {
                crate::text::lemma_push_to_set(prev, ai);
            }
            assert(crate::text::string_views(out@).to_set() =~= av.take(i + 1).to_set().filter(
                |x: Seq<char>| !bv.contains(x),
            ));
        } else {
            assert(crate::text::string_views(out@).to_set() =~= av.take(i + 1).to_set().filter(
                |x: Seq<char>| !bv.contains(x),
            ));
        }
        i += 1;
    }
    assert(av.take(a@.len() as int) == av);
    assert forall|x: Seq<char>| av.to_set().contains(x) <==> av.contains(x) by {}
    assert(crate::text::string_views(out@).to_set() =~= set_minus(av, bv));
    let sorted = crate::text::sorted_unique_strings(out);
    assert(crate::text::string_views(sorted@).to_set() =~= set_minus(av, bv));
    sorted
}

fn copy_strings(v: &[String]) -> (r: Vec<String>)
    ensures
        crate::text::string_views(r@) == crate::text::string_views(v@),
{
    let mut out: Vec<String> = Vec::new();
    let mut i: usize = 0;
    while i < v.len()
        invariant
            i <= v.len(),
            crate::text::string_views(out@) == crate::text::string_views(v@).take(i as int),
        decreases v.len() - i,
    {
        let ghost prev = out@;
        out.push(v[i].clone());
        assert(crate::text::string_views(out@) =~= crate::text::string_views(prev).push(v@[i as int]@));
        assert(crate::text::string_views(v@).take(i + 1) =~= crate::text::string_views(v@).take(i as int).push(v@[i as int]@));
        i += 1;
    }
    assert(crate::text::string_views(v@).take(v@.len() as int) =~= crate::text::string_views(v@));
    out
}

/// Reconciles one provider execution with the plan unit that owns it.
///
/// A provider that did not run may not claim indexed output. One that ran
/// must report the unit's root, may use no configuration outside the unit,
/// and in project mode no dimension outside it. The execution is exact when
/// it ran in project mode with no missing dimension, every planned
/// configuration file and exactly the planned dimensions; else partial.
pub fn reconcile_execution(
    mode: ProviderExecutionMode,
    status: &str,
    analysis_root: Option<&RepositoryPath>,
    unit_root: &RepositoryPath,
    planned_configs: &[String],
    actual_configs: &[String],
    planned_dimensions: &[String],
    actual_dimensions: &[String],
    missing_dimension_count: usize,
) -> (r: Result<ExecutionReconciliation, ExecutionContextError>)
    ensures
        mode == ProviderExecutionMode::NotExecuted ==> (match r {
            Err(e) => claims_indexed(status@) && e == ExecutionContextError::IndexedWithoutExecution,
            Ok(x) => !claims_indexed(status@) && x.assessment == ExecutionAssessment::NotExecuted,
        }),
        mode != ProviderExecutionMode::NotExecuted ==> (match r {
            Err(e) => {
                ||| analysis_root is None && e == ExecutionContextError::MissingAnalysisRoot
                ||| analysis_root matches Some(root) && root.value@ != unit_root.value@ && (e matches
                    ExecutionContextError::RootMismatch { actual } && actual@ == root.value@)
                ||| analysis_root matches Some(root) && root.value@ == unit_root.value@ && !set_minus(
                    crate::text::string_views(actual_configs@),
                    crate::text::string_views(planned_configs@),
                ).is_empty() && (e matches ExecutionContextError::UnplannedConfiguration { files }
                    && crate::text::strictly_sorted(crate::text::string_views(files@))
                    && crate::text::string_views(files@).to_set() == set_minus(
                    crate::text::string_views(actual_configs@),
                    crate::text::string_views(planned_configs@),
                ))
                ||| analysis_root matches Some(root) && root.value@ == unit_root.value@ && set_minus(
                    crate::text::string_views(actual_configs@),
                    crate::text::string_views(planned_configs@),
                ).is_empty() && mode == ProviderExecutionMode::Project && !set_minus(
                    crate::text::string_views(actual_dimensions@),
                    crate::text::string_views(planned_dimensions@),
                ).is_empty() && (e matches ExecutionContextError::UnplannedDimensions { dimensions }
                    && crate::text::strictly_sorted(crate::text::string_views(dimensions@))
                    && crate::text::string_views(dimensions@).to_set() == set_minus(
                    crate::text::string_views(actual_dimensions@),
                    crate::text::string_views(planned_dimensions@),
                ))
            },
            Ok(x) => {
                &&& analysis_root matches Some(root) && root.value@ == unit_root.value@
                &&& set_minus(
                    crate::text::string_views(actual_configs@),
                    crate::text::string_views(planned_configs@),
                ).is_empty()
                &&& (mode == ProviderExecutionMode::Project ==> set_minus(
                    crate::text::string_views(actual_dimensions@),
                    crate::text::string_views(planned_dimensions@),
                ).is_empty())
                &&& x.assessment == (if mode == ProviderExecutionMode::Project
                    && missing_dimension_count == 0 && x.planned_only_config_files@.len() == 0
                    && x.actual_only_dimensions@.len() == 0
                    && x.planned_only_dimensions@.len() == 0 {
                    ExecutionAssessment::Exact
                } else {
                    ExecutionAssessment::Partial
                })
                &&& x.generated_or_fallback == is_generated_or_fallback(mode)
            },
        }),
        match r {
            Ok(x) => if mode == ProviderExecutionMode::NotExecuted {
                &&& crate::text::string_views(x.planned_only_config_files@)
                    == crate::text::string_views(planned_configs@)
                &&& x.actual_only_dimensions@.len() == 0
                &&& crate::text::string_views(x.planned_only_dimensions@)
                    == crate::text::string_views(planned_dimensions@)
            } else {
                &&& crate::text::strictly_sorted(crate::text::string_views(x.planned_only_config_files@))
                &&& crate::text::string_views(x.planned_only_config_files@).to_set() == set_minus(
                    crate::text::string_views(planned_configs@),
                    crate::text::string_views(actual_configs@),
                )
                &&& crate::text::strictly_sorted(crate::text::string_views(x.actual_only_dimensions@))
                &&& crate::text::string_views(x.actual_only_dimensions@).to_set() == set_minus(
                    crate::text::string_views(actual_dimensions@),
                    crate::text::string_views(planned_dimensions@),
                )
                &&& crate::text::strictly_sorted(crate::text::string_views(x.planned_only_dimensions@))
                &&& crate::text::string_views(x.planned_only_dimensions@).to_set() == set_minus(
                    crate::text::string_views(planned_dimensions@),
                    crate::text::string_views(actual_dimensions@),
                )
            },
            Err(_) => true,
        },
{
    if mode == ProviderExecutionMode::NotExecuted {
        let s = chars_of(status);
        let s = s.as_slice();
        if chars_eq_str(s, "indexed") || chars_eq_str(s, "indexed-partial") || chars_eq_str(
            s,
            "empty-semantic",
        ) {
            return Err(ExecutionContextError::IndexedWithoutExecution);
        }
        let planned_only_config_files = copy_strings(planned_configs);
        let planned_only_dimensions = copy_strings(planned_dimensions);
        return Ok(
            ExecutionReconciliation {
                assessment: ExecutionAssessment::NotExecuted,
                planned_only_config_files,
                actual_only_dimensions: Vec::new(),
                planned_only_dimensions,
                generated_or_fallback: false,
            },
        );
    }
    let root = match analysis_root {
        Some(root) => root,
        None => {
            return Err(ExecutionContextError::MissingAnalysisRoot);
        },
    };
    if !crate::text::str_eq(root.as_str(), unit_root.as_str()) {
        return Err(ExecutionContextError::RootMismatch { actual: crate::text::owned(root.as_str()) });
    }
    let unplanned = difference(actual_configs, planned_configs);
    if unplanned.len() > 0 {
        proof {
            let x = crate::text::string_views(unplanned@)[0];
            assert(crate::text::string_views(unplanned@).contains(x));
            assert(set_minus(
                crate::text::string_views(actual_configs@),
                crate::text::string_views(planned_configs@),
            ).contains(x));
        }
        return Err(ExecutionContextError::UnplannedConfiguration { files: unplanned });
    }
    proof {
        assert(set_minus(
            crate::text::string_views(actual_configs@),
            crate::text::string_views(planned_configs@),
        ) =~= Set::empty()) by {
            assert forall|x: Seq<char>| !set_minus(
                crate::text::string_views(actual_configs@),
                crate::text::string_views(planned_configs@),
            ).contains(x) by {
                if set_minus(
                    crate::text::string_views(actual_configs@),
                    crate::text::string_views(planned_configs@),
                ).contains(x) {
                    assert(crate::text::string_views(unplanned@).contains(x));
                }
            }
        }
    }
    let planned_only_config_files = difference(planned_configs, actual_configs);
    let actual_only_dimensions = difference(actual_dimensions, planned_dimensions);
    let planned_only_dimensions = difference(planned_dimensions, actual_dimensions);
    let actual_only_empty = actual_only_dimensions.len() == 0;
    proof {
        let s = set_minus(
            crate::text::string_views(actual_dimensions@),
            crate::text::string_views(planned_dimensions@),
        );
        if actual_only_empty {
            assert(s =~= Set::empty()) by {
                assert forall|x: Seq<char>| !s.contains(x) by {
                    if s.contains(x) {
                        assert(crate::text::string_views(actual_only_dimensions@).contains(x));
                    }
                }
            }
        } else {
            let x = crate::text::string_views(actual_only_dimensions@)[0];
            assert(crate::text::string_views(actual_only_dimensions@).contains(x));
            assert(s.contains(x));
        }
    }
    if mode == ProviderExecutionMode::Project && !actual_only_empty {
        return Err(ExecutionContextError::UnplannedDimensions { dimensions: actual_only_dimensions });
    }
    let exact = mode == ProviderExecutionMode::Project && missing_dimension_count == 0
        && planned_only_config_files.len() == 0 && actual_only_dimensions.len() == 0
        && planned_only_dimensions.len() == 0;
    let generated_or_fallback = mode == ProviderExecutionMode::GeneratedProject || mode
        == ProviderExecutionMode::SourceOnlyFallback || mode == ProviderExecutionMode::Composite;
    Ok(
        ExecutionReconciliation {
            assessment: if exact {
                ExecutionAssessment::Exact
            } else {
                ExecutionAssessment::Partial
            },
            planned_only_config_files,
            actual_only_dimensions,
            planned_only_dimensions,
            generated_or_fallback,
        },
    )
}

} // verus!

verus! {

/// The text of an execution error of a unit in `language` whose batch
/// reported `status`.
pub open spec fn spec_execution_message(
    e: ExecutionContextError,
    language: Seq<char>,
    status: Seq<char>,
    unit_id: Seq<char>,
    unit_root: Seq<char>,
) -> Seq<char> {
    match e {
        ExecutionContextError::IndexedWithoutExecution => language + " batch claims "@ + status
            + " without an executed provider context"@,
        ExecutionContextError::MissingAnalysisRoot => language
            + " executed provider context omitted its analysis root"@,
        ExecutionContextError::RootMismatch { actual } => language + " provider executed root "@
            + actual@ + " but AnalysisPlan unit "@ + unit_id + " requires "@ + unit_root,
        ExecutionContextError::UnplannedConfiguration { files } => language
            + " provider executed with configuration outside AnalysisPlan unit "@ + unit_id + ": "@
            + crate::text::join_with(crate::text::string_views(files@), ", "@),
        ExecutionContextError::UnplannedDimensions { dimensions } => language
            + " provider executed dimensions outside AnalysisPlan unit "@ + unit_id + ": "@
            + crate::text::join_with(crate::text::string_views(dimensions@), ", "@),
    }
}

/// `parts.join(sep)` on texts.
fn join_strings(parts: &[String], sep: &str) -> (r: String)
    ensures
        r@ == crate::text::join_with(crate::text::string_views(parts@), sep@),
{
    let mut pieces: Vec<Vec<char>> = Vec::new();
    let mut k: usize = 0;
    while k < parts.len()
        invariant
            k <= parts.len(),
            crate::text::char_views(pieces@) == crate::text::string_views(parts@).take(k as int),
        decreases parts.len() - k,
    {
        let piece = chars_of(parts[k].as_str());
        let ghost before = pieces@;
        pieces.push(piece);
        proof {
            assert(crate::text::char_views(pieces@) =~= crate::text::char_views(before).push(parts@[k as int]@));
            assert(crate::text::string_views(parts@).take(k + 1) =~= crate::text::string_views(parts@).take(
                k as int,
            ).push(parts@[k as int]@));
        }
        k += 1;
    }
    assert(crate::text::string_views(parts@).take(parts.len() as int) =~= crate::text::string_views(parts@));
    let joined = crate::text::join_chars(&pieces, sep);
    crate::text::string_of(joined.as_slice())
}

/// The message that refuses an execution of unit `unit_id` (rooted at
/// `unit_root`) in `language` whose batch reported `status`.
pub fn execution_error_message(
    e: &ExecutionContextError,
    language: crate::model::ProgrammingLanguage,
    status: &str,
    unit_id: &str,
    unit_root: &str,
) -> (r: String)
    ensures
        r@ == spec_execution_message(*e, crate::model::spec_language_name(language), status@, unit_id@, unit_root@),
{
    let name = language.as_str();
    match e {
        ExecutionContextError::IndexedWithoutExecution => {
            let a = concat(name, " batch claims ");
            let b = concat(a.as_str(), status);
            concat(b.as_str(), " without an executed provider context")
        },
        ExecutionContextError::MissingAnalysisRoot => concat(
            name,
            " executed provider context omitted its analysis root",
        ),
        ExecutionContextError::RootMismatch { actual } => {
            let a = concat(name, " provider executed root ");
            let b = concat(a.as_str(), actual.as_str());
            let c = concat(b.as_str(), " but AnalysisPlan unit ");
            let d = concat(c.as_str(), unit_id);
            let f = concat(d.as_str(), " requires ");
            concat(f.as_str(), unit_root)
        },
        ExecutionContextError::UnplannedConfiguration { files } => {
            let a = concat(name, " provider executed with configuration outside AnalysisPlan unit ");
            let b = concat(a.as_str(), unit_id);
            let c = concat(b.as_str(), ": ");
            let list = join_strings(files.as_slice(), ", ");
            concat(c.as_str(), list.as_str())
        },
        ExecutionContextError::UnplannedDimensions { dimensions } => {
            let a = concat(name, " provider executed dimensions outside AnalysisPlan unit ");
            let b = concat(a.as_str(), unit_id);
            let c = concat(b.as_str(), ": ");
            let list = join_strings(dimensions.as_slice(), ", ");
            concat(c.as_str(), list.as_str())
        },
    }
}

} // verus!

verus! {

// ---------------------------------------------------------------------------
// Tallying the executions of a run
// ---------------------------------------------------------------------------

/// One reconciled provider execution: its mode, what reconciling it found,
/// the source files it read, and the kinds of context dimension it lacked.
#[derive(Clone, Debug)]
pub struct ExecutionRecord {
    pub mode: ProviderExecutionMode,
    pub assessment: ExecutionAssessment,
    pub source_file_count: u64,
    pub missing_dimensions: Vec<String>,
}

/// The counts a run's execution-context receipt reports. The missing
/// dimension counts list each kind once, in order.
#[derive(Clone, Debug)]
pub struct ExecutionTally {
    pub execution_count: u64,
    pub exact_execution_count: u64,
    pub partial_execution_count: u64,
    pub not_executed_count: u64,
    pub generated_or_fallback_count: u64,
    pub source_file_count: u64,
    pub missing_dimension_counts: Vec<(String, u64)>,
}

/// How many records have the assessment `a`.
pub open spec fn assessed(v: Seq<ExecutionRecord>, a: ExecutionAssessment) -> nat
    decreases v.len(),
{
    if v.len() == 0 {
        0
    } else {
        assessed(v.drop_last(), a) + if v.last().assessment == a {
            1nat
        } else {
            0nat
        }
    }
}

/// How many executed records ran a generated project or a fallback.
pub open spec fn generated_count(v: Seq<ExecutionRecord>) -> nat
    decreases v.len(),
{
    if v.len() == 0 {
        0
    } else {
        generated_count(v.drop_last()) + if v.last().assessment != ExecutionAssessment::NotExecuted
            && is_generated_or_fallback(v.last().mode) {
            1nat
        } else {
            0nat
        }
    }
}

/// The source files the executed records read.
pub open spec fn executed_sources(v: Seq<ExecutionRecord>) -> nat
    decreases v.len(),
{
    if v.len() == 0 {
        0
    } else {
        executed_sources(v.drop_last()) + if v.last().assessment != ExecutionAssessment::NotExecuted {
            v.last().source_file_count as nat
        } else {
            0nat
        }
    }
}

/// How often `kind` occurs in `kinds`.
pub open spec fn kind_occurrences(kinds: Seq<Seq<char>>, kind: Seq<char>) -> nat
    decreases kinds.len(),
{
    if kinds.len() == 0 {
        0
    } else {
        kind_occurrences(kinds.drop_last(), kind) + if kinds.last() == kind {
            1nat
        } else {
            0nat
        }
    }
}

/// How often the records lack a dimension of `kind`.
pub open spec fn missing_occurrences(v: Seq<ExecutionRecord>, kind: Seq<char>) -> nat
    decreases v.len(),
{
    if v.len() == 0 {
        0
    } else {
        missing_occurrences(v.drop_last(), kind) + kind_occurrences(
            crate::text::string_views(v.last().missing_dimensions@),
            kind,
        )
    }
}

/// How many missing dimensions the records list in all.
pub open spec fn missing_total(v: Seq<ExecutionRecord>) -> nat
    decreases v.len(),
{
    if v.len() == 0 {
        0
    } else {
        missing_total(v.drop_last()) + v.last().missing_dimensions@.len()
    }
}

/// The count a list of counts gives `kind` (the sum of its entries for it).
pub open spec fn listed_count(v: Seq<(String, u64)>, kind: Seq<char>) -> nat
    decreases v.len(),
{
    if v.len() == 0 {
        0
    } else {
        listed_count(v.drop_last(), kind) + if v.last().0@ == kind {
            v.last().1 as nat
        } else {
            0nat
        }
    }
}

pub open spec fn count_keys(v: Seq<(String, u64)>) -> Seq<Seq<char>> {
    v.map_values(|e: (String, u64)| e.0@)
}

proof fn lemma_listed_count_insert(v: Seq<(String, u64)>, p: int, e: (String, u64), kind: Seq<char>)
    requires
        0 <= p <= v.len(),
    ensures
        listed_count(v.insert(p, e), kind) == listed_count(v, kind) + if e.0@ == kind {
            e.1 as nat
        } else {
            0nat
        },
    decreases v.len(),
{
    if p < v.len() {
        lemma_listed_count_insert(v.drop_last(), p, e, kind);
        assert(v.insert(p, e).drop_last() =~= v.drop_last().insert(p, e));
    } else {
        assert(v.insert(p, e) =~= v.push(e));
        assert(v.push(e).drop_last() =~= v);
    }
}

proof fn lemma_listed_count_update(v: Seq<(String, u64)>, p: int, e: (String, u64), kind: Seq<char>)
    requires
        0 <= p < v.len(),
        e.0@ == v[p].0@,
    ensures
        listed_count(v.update(p, e), kind) + (if v[p].0@ == kind {
            v[p].1 as nat
        } else {
            0nat
        }) == listed_count(v, kind) + if e.0@ == kind {
            e.1 as nat
        } else {
            0nat
        },
    decreases v.len(),
{
    if p < v.len() - 1 {
        lemma_listed_count_update(v.drop_last(), p, e, kind);
        assert(v.update(p, e).drop_last() =~= v.drop_last().update(p, e));
    } else {
        assert(v.update(p, e).drop_last() =~= v.drop_last());
    }
}

proof fn lemma_listed_count_absent(v: Seq<(String, u64)>, kind: Seq<char>)
    requires
        !count_keys(v).contains(kind),
    ensures
        listed_count(v, kind) == 0,
    decreases v.len(),
{
    if v.len() > 0 {
        assert(count_keys(v.drop_last()) =~= count_keys(v).drop_last());
        if count_keys(v.drop_last()).contains(kind) {
            let i = choose|i: int| 0 <= i < count_keys(v.drop_last()).len() && count_keys(v.drop_last())[i] == kind;
            assert(count_keys(v)[i] == kind);
        }
        lemma_listed_count_absent(v.drop_last(), kind);
        assert(count_keys(v)[v.len() - 1] == v.last().0@);
    }
}

/// Adds one occurrence of `kind` to sorted counts.
fn add_kind(counts: &mut Vec<(String, u64)>, kind: &str)
    requires
        crate::text::strictly_sorted(count_keys(old(counts)@)),
        listed_count(old(counts)@, kind@) < u64::MAX,
    ensures
        crate::text::strictly_sorted(count_keys(final(counts)@)),
        count_keys(final(counts)@).to_set() == count_keys(old(counts)@).to_set().insert(kind@),
        forall|k: Seq<char>|
            #[trigger] listed_count(final(counts)@, k) == listed_count(old(counts)@, k) + if k == kind@ {
                1nat
            } else {
                0nat
            },
{
    let ghost old_v = counts@;
    let ghost keys = count_keys(old_v);
    let kc = chars_of(kind);
    let mut p: usize = 0;
    let mut stop = false;
    while p < counts.len() && !stop
        invariant
            p <= counts.len(),
            counts@ == old_v,
            old_v == old(counts)@,
            keys == count_keys(old_v),
            crate::text::strictly_sorted(keys),
            listed_count(old_v, kind@) < u64::MAX,
            kc@ == kind@,
            forall|j: int| 0 <= j < p ==> crate::text::seq_lt(#[trigger] keys[j], kind@),
            stop ==> p < counts.len() && crate::text::seq_lt(kind@, keys[p as int]),
        decreases counts.len() - p, if stop { 0int } else { 1int },
    {
        let key = chars_of(counts[p].0.as_str());
        let order = crate::text::order_chars(key.as_slice(), kc.as_slice());
        assert(keys[p as int] == counts@[p as int].0@);
        if order == 0 {
            let c = counts[p].1;
            let ghost probe = (counts@[p as int].0, 0u64);
            proof {
                assert(old_v[p as int].0@ == kind@);
                lemma_listed_count_update(old_v, p as int, probe, kind@);
                assert(listed_count(old_v, kind@) >= c);
            }
            let name = crate::text::owned(counts[p].0.as_str());
            let next: u64 = c + 1;
            let ghost entry = (name, next);
            counts.set(p, (name, next));
            proof {
                assert(counts@ == old_v.update(p as int, entry));
                assert(count_keys(counts@) =~= keys);
                assert forall|k: Seq<char>| #[trigger] listed_count(counts@, k) == listed_count(old_v, k) + if k == kind@ {
                    1nat
                } else {
                    0nat
                } by {
                    lemma_listed_count_update(old_v, p as int, entry, k);
                }
                assert(count_keys(counts@).to_set() =~= keys.to_set().insert(kind@)) by {
                    assert(keys.contains(keys[p as int]));
                }
            }
            return;
        }
        if order == 1 {
            stop = true;
        } else {
            p += 1;
        }
    }
    proof {
        assert forall|j: int| p <= j < keys.len() implies crate::text::seq_lt(kind@, #[trigger] keys[j]) by {
            if j > p {
                assert(crate::text::seq_lt(keys[p as int], keys[j]));
                crate::text::lemma_seq_lt_transitive(kind@, keys[p as int], keys[j]);
            }
        }
        assert(!keys.contains(kind@)) by {
            if keys.contains(kind@) {
                let j = choose|j: int| 0 <= j < keys.len() && keys[j] == kind@;
                crate::text::lemma_seq_lt_irreflexive(kind@);
            }
        }
        lemma_listed_count_absent(old_v, kind@);
    }
    let entry = (crate::text::owned(kind), 1u64);
    let ghost e = entry;
    counts.insert(p, entry);
    proof {
        assert(count_keys(counts@) =~= keys.insert(p as int, kind@));
        assert forall|i: int, j: int| 0 <= i < j < count_keys(counts@).len() implies crate::text::seq_lt(
            #[trigger] count_keys(counts@)[i],
            #[trigger] count_keys(counts@)[j],
        ) by {
            let n = count_keys(counts@);
            if j < p {
                assert(n[i] == keys[i] && n[j] == keys[j]);
            } else if j == p {
                assert(n[i] == keys[i]);
            } else if i == p {
                assert(n[j] == keys[j - 1]);
            } else if i < p {
                assert(n[i] == keys[i] && n[j] == keys[j - 1]);
                crate::text::lemma_seq_lt_transitive(keys[i], kind@, keys[j - 1]);
            } else {
                assert(n[i] == keys[i - 1] && n[j] == keys[j - 1]);
            }
        }
        assert(count_keys(counts@).to_set() =~= keys.to_set().insert(kind@)) by {
            assert forall|x: Seq<char>| count_keys(counts@).to_set().contains(x) == keys.to_set().insert(kind@).contains(x) by {
                let n = count_keys(counts@);
                if n.contains(x) {
                    let i = choose|i: int| 0 <= i < n.len() && n[i] == x;
                    if i < p {
                        assert(keys[i] == x);
                    } else if i > p {
                        assert(keys[i - 1] == x);
                    }
                }
                if keys.contains(x) {
                    let i = choose|i: int| 0 <= i < keys.len() && keys[i] == x;
                    if i < p {
                        assert(n[i] == x);
                    } else {
                        assert(n[i + 1] == x);
                    }
                }
                if x == kind@ {
                    assert(n[p as int] == x);
                }
            }
        }
        assert forall|k: Seq<char>| #[trigger] listed_count(counts@, k) == listed_count(old_v, k) + if k == kind@ {
            1nat
        } else {
            0nat
        } by {
            lemma_listed_count_insert(old_v, p as int, e, k);
        }
    }
}

} // verus!

verus! {

proof fn lemma_kind_occurrences_bounded(s: Seq<Seq<char>>, k: Seq<char>)
    ensures
        kind_occurrences(s, k) <= s.len(),
    decreases s.len(),
{
    if s.len() > 0 {
        lemma_kind_occurrences_bounded(s.drop_last(), k);
    }
}

proof fn lemma_missing_occurrences_bounded(v: Seq<ExecutionRecord>, k: Seq<char>)
    ensures
        missing_occurrences(v, k) <= missing_total(v),
    decreases v.len(),
{
    if v.len() > 0 {
        lemma_missing_occurrences_bounded(v.drop_last(), k);
        lemma_kind_occurrences_bounded(crate::text::string_views(v.last().missing_dimensions@), k);
    }
}

proof fn lemma_prefix_sums(v: Seq<ExecutionRecord>, i: int, j: int)
    requires
        0 <= i <= j <= v.len(),
    ensures
        missing_total(v.take(i)) <= missing_total(v.take(j)),
        executed_sources(v.take(i)) <= executed_sources(v.take(j)),
    decreases j - i,
{
    if i < j {
        lemma_prefix_sums(v, i, j - 1);
        assert(v.take(j).drop_last() =~= v.take(j - 1));
    }
}

/// The counts a run's execution-context receipt reports: how many
/// executions there were, how many were exact, partial or not executed, how
/// many executed ones ran a generated project or a fallback, how many source
/// files the executed ones read, and for each kind of context dimension how
/// often an execution lacked it.
pub fn tally_executions(records: &[ExecutionRecord]) -> (r: ExecutionTally)
    requires
        records.len() <= u64::MAX,
        executed_sources(records@) <= u64::MAX,
        missing_total(records@) < u64::MAX,
    ensures
        r.execution_count == records.len(),
        r.exact_execution_count == assessed(records@, ExecutionAssessment::Exact),
        r.partial_execution_count == assessed(records@, ExecutionAssessment::Partial),
        r.not_executed_count == assessed(records@, ExecutionAssessment::NotExecuted),
        r.generated_or_fallback_count == generated_count(records@),
        r.source_file_count == executed_sources(records@),
        crate::text::strictly_sorted(count_keys(r.missing_dimension_counts@)),
        forall|k: Seq<char>|
            #[trigger] listed_count(r.missing_dimension_counts@, k) == missing_occurrences(records@, k),
        forall|k: Seq<char>|
            count_keys(r.missing_dimension_counts@).contains(k) <==> #[trigger] missing_occurrences(
                records@,
                k,
            ) > 0,
{
    let ghost v = records@;
    let mut exact: u64 = 0;
    let mut partial: u64 = 0;
    let mut skipped: u64 = 0;
    let mut generated: u64 = 0;
    let mut sources: u64 = 0;
    let mut counts: Vec<(String, u64)> = Vec::new();
    let mut i: usize = 0;
    proof {
        assert(v.take(0) =~= Seq::<ExecutionRecord>::empty());
    }
    while i < records.len()
        invariant
            v == records@,
            i <= records.len(),
            records.len() <= u64::MAX,
            executed_sources(v) <= u64::MAX,
            missing_total(v) < u64::MAX,
            exact == assessed(v.take(i as int), ExecutionAssessment::Exact),
            partial == assessed(v.take(i as int), ExecutionAssessment::Partial),
            skipped == assessed(v.take(i as int), ExecutionAssessment::NotExecuted),
            exact + partial + skipped == i,
            generated == generated_count(v.take(i as int)),
            generated <= i,
            sources == executed_sources(v.take(i as int)),
            crate::text::strictly_sorted(count_keys(counts@)),
            forall|k: Seq<char>| #[trigger] listed_count(counts@, k) == missing_occurrences(v.take(i as int), k),
            forall|k: Seq<char>| count_keys(counts@).to_set().contains(k) <==> #[trigger] listed_count(counts@, k) > 0,
        decreases records.len() - i,
    {
        let rec = &records[i];
        let ghost pre = v.take(i as int);
        let ghost next = v.take(i + 1);
        proof {
            assert(next.drop_last() =~= pre);
            assert(next.last() == v[i as int]);
            lemma_prefix_sums(v, i + 1, v.len() as int);
            assert(v.take(v.len() as int) =~= v);
        }
        match rec.assessment {
            ExecutionAssessment::Exact => {
                exact = exact + 1;
            },
            ExecutionAssessment::Partial => {
                partial = partial + 1;
            },
            ExecutionAssessment::NotExecuted => {
                skipped = skipped + 1;
            },
        }
        if rec.assessment != ExecutionAssessment::NotExecuted {
            if rec.mode == ProviderExecutionMode::GeneratedProject || rec.mode
                == ProviderExecutionMode::SourceOnlyFallback || rec.mode == ProviderExecutionMode::Composite {
                generated = generated + 1;
            }
            sources = sources + rec.source_file_count;
        }
        let ghost kinds = crate::text::string_views(rec.missing_dimensions@);
        let mut j: usize = 0;
        proof {
            assert(kinds.take(0) =~= Seq::<Seq<char>>::empty());
        }
        while j < rec.missing_dimensions.len()
            invariant
                v == records@,
                i < records.len(),
                rec == &records[i as int],
                pre == v.take(i as int),
                next == v.take(i + 1),
                missing_total(next) <= missing_total(v),
                missing_total(v) < u64::MAX,
                missing_total(next) == missing_total(pre) + rec.missing_dimensions@.len(),
                kinds == crate::text::string_views(rec.missing_dimensions@),
                j <= rec.missing_dimensions.len(),
                crate::text::strictly_sorted(count_keys(counts@)),
                forall|k: Seq<char>| #[trigger] listed_count(counts@, k) == missing_occurrences(pre, k)
                    + kind_occurrences(kinds.take(j as int), k),
                forall|k: Seq<char>| count_keys(counts@).to_set().contains(k) <==> #[trigger] listed_count(counts@, k) > 0,
            decreases rec.missing_dimensions.len() - j,
        {
            let kind = rec.missing_dimensions[j].as_str();
            proof {
                lemma_missing_occurrences_bounded(pre, kind@);
                lemma_kind_occurrences_bounded(kinds.take(j as int), kind@);
                assert(listed_count(counts@, kind@) < u64::MAX);
                assert(kinds.take(j + 1).drop_last() =~= kinds.take(j as int));
                assert(kinds.take(j + 1).last() == kind@);
            }
            let ghost before = counts@;
            add_kind(&mut counts, kind);
            proof {
                assert forall|k: Seq<char>| count_keys(counts@).to_set().contains(k) <==> #[trigger] listed_count(counts@, k) > 0 by {
                    assert(listed_count(counts@, k) == listed_count(before, k) + if k == kind@ { 1nat } else { 0nat });
                    if k != kind@ {
                        assert(count_keys(counts@).to_set().contains(k) == count_keys(before).to_set().contains(k));
                    }
                }
            }
            j += 1;
        }
        proof {
            assert(kinds.take(kinds.len() as int) =~= kinds);
        }
        i += 1;
    }
    proof {
        assert(v.take(v.len() as int) =~= v);
        assert forall|k: Seq<char>| count_keys(counts@).contains(k) <==> #[trigger] missing_occurrences(v, k) > 0 by {
            assert(listed_count(counts@, k) == missing_occurrences(v.take(v.len() as int), k));
            assert(count_keys(counts@).to_set().contains(k) == count_keys(counts@).contains(k));
        }
    }
    ExecutionTally {
        execution_count: records.len() as u64,
        exact_execution_count: exact,
        partial_execution_count: partial,
        not_executed_count: skipped,
        generated_or_fallback_count: generated,
        source_file_count: sources,
        missing_dimension_counts: counts,
    }
}

} // verus!
