//! Resolution of one import site against the project import index.
//!
//! A site resolves to exactly one internal file or structure, to a known
//! external boundary, to a measured gap, or to an ambiguity with the number of
//! distinct candidates. Candidate lists are sets: order and repetition never
//! change the answer.
use vstd::prelude::*;

use crate::model::{
    valid_repository_path, AnalysisUnitId, FactNodeKind, IrEndpoint, ProgrammingLanguage, RepositoryPath,
};
use crate::project_index::StructureTarget;
use crate::schedule::{path_set, path_views};
use crate::imports::{
    is_package_init, is_rust_candidate, leading_dots, python_relative_name, relative_suffix,
    spec_has_extension, spec_is_relative_specifier, spec_normalize_join,
    spec_starts_with_rust_standard_crate, ImportForm, ImportSite,
};
use crate::project_index::{spec_joined_path, spec_parent_path};
use crate::text::{before_sub, is_prefix, replace_char, string_views, strictly_sorted};

verus! {

/// Why a fact or a capability is missing or incomplete.
#[derive(Clone, Copy, Debug, PartialEq, Eq, Structural)]
pub enum GapCode {
    UnresolvedTarget,
    MissingDependencyMetadata,
    MissingProjectMetadata,
    MissingCompileContext,
    MissingTypeMetadata,
    DynamicDispatch,
    RuntimeRegistration,
    ProviderUnavailable,
    ProviderExecutionIncomplete,
    WorkspaceBudgetExceeded,
    QueryBudgetExceeded,
    GeneratedSourceMappingUnavailable,
}

/// How an internal target was established.
#[derive(Clone, Copy, Debug, PartialEq, Eq, Structural)]
pub enum ResolutionMethod {
    SyntaxExact,
    ProjectModel,
}

/// The answer for one import site.
#[derive(Debug)]
pub enum ImportResolution {
    Internal { target: IrEndpoint, method: ResolutionMethod },
    KnownExternal,
    Unresolved { gap: GapCode },
    Ambiguous { candidate_count: u64 },
}

/// An endpoint by its plain values.
pub enum TargetView {
    Symbol(Seq<char>),
    File(Seq<char>),
    Structure(Seq<char>, FactNodeKind, Seq<char>),
}

/// A resolution by its plain values.
pub enum ResolutionView {
    Internal(TargetView, ResolutionMethod),
    KnownExternal,
    Unresolved(GapCode),
    Ambiguous(nat),
}

pub open spec fn target_view(e: IrEndpoint) -> TargetView {
    match e {
        IrEndpoint::NativeSymbol { symbol_id } => TargetView::Symbol(symbol_id.value@),
        IrEndpoint::File { path } => TargetView::File(path.value@),
        IrEndpoint::Structure { unit_id, kind, qualified_name } => TargetView::Structure(
            unit_id.value@,
            kind,
            qualified_name@,
        ),
    }
}

pub open spec fn resolution_view(r: ImportResolution) -> ResolutionView {
    match r {
        ImportResolution::Internal { target, method } => ResolutionView::Internal(
            target_view(target),
            method,
        ),
        ImportResolution::KnownExternal => ResolutionView::KnownExternal,
        ImportResolution::Unresolved { gap } => ResolutionView::Unresolved(gap),
        ImportResolution::Ambiguous { candidate_count } => ResolutionView::Ambiguous(
            candidate_count as nat,
        ),
    }
}

pub open spec fn unresolved_view(gap: GapCode) -> ResolutionView {
    ResolutionView::Unresolved(gap)
}

/// One distinct candidate file resolves; none is an unresolved target; more
/// are an ambiguity counted by distinct files.
pub open spec fn files_selection(s: Set<Seq<char>>, method: ResolutionMethod) -> ResolutionView {
    if s.len() == 1 {
        ResolutionView::Internal(TargetView::File(s.choose()), method)
    } else if s.len() == 0 {
        ResolutionView::Unresolved(GapCode::UnresolvedTarget)
    } else {
        ResolutionView::Ambiguous(s.len())
    }
}

pub type StructureKey = (Seq<char>, FactNodeKind, Seq<char>);

pub open spec fn structure_key(t: StructureTarget) -> StructureKey {
    (t.unit_id.value@, t.kind, t.qualified_name@)
}

pub open spec fn structure_keys(v: Seq<StructureTarget>) -> Seq<StructureKey> {
    v.map_values(|t: StructureTarget| structure_key(t))
}

pub open spec fn structure_set(v: Seq<StructureTarget>) -> Set<StructureKey> {
    structure_keys(v).to_set()
}

/// The same rule as for files, over distinct structures.
pub open spec fn structures_selection(
    s: Set<StructureKey>,
    method: ResolutionMethod,
) -> ResolutionView {
    if s.len() == 1 {
        ResolutionView::Internal(
            TargetView::Structure(s.choose().0, s.choose().1, s.choose().2),
            method,
        )
    } else if s.len() == 0 {
        ResolutionView::Unresolved(GapCode::UnresolvedTarget)
    } else {
        ResolutionView::Ambiguous(s.len())
    }
}

fn unresolved(gap: GapCode) -> (r: ImportResolution)
    ensures
        resolution_view(r) == unresolved_view(gap),
{
    ImportResolution::Unresolved { gap }
}

proof fn lemma_distinct_set_len<A>(v: Seq<A>)
    requires
        forall|i: int, j: int| 0 <= i < j < v.len() ==> #[trigger] v[i] != #[trigger] v[j],
    ensures
        v.to_set().len() == v.len(),
        v.len() == 1 ==> v.to_set() == set![v[0]] && v.to_set().choose() == v[0],
{
    assert(v.no_duplicates()) by {
        assert forall|i: int, j: int| 0 <= i < v.len() && 0 <= j < v.len() && i != j implies v[i]
            != v[j] by {
            if i < j {
                assert(v[i] != v[j]);
            } else {
                assert(v[j] != v[i]);
            }
        }
    }
    v.unique_seq_to_set();
    if v.len() == 1 {
        assert(v.to_set() =~= set![v[0]]);
        assert(v.to_set().contains(v[0]));
        let c = v.to_set().choose();
        assert(v.to_set().contains(c));
    }
}

/// Selects among candidate files.
pub fn select_files_without_source(paths: &[RepositoryPath], method: ResolutionMethod) -> (r:
    ImportResolution)
    ensures
        resolution_view(r) == files_selection(path_set(paths@), method),
{
    let distinct = crate::schedule::distinct_paths(paths);
    proof {
        lemma_distinct_set_len(path_views(distinct@));
    }
    if distinct.len() == 1 {
        assert(path_views(distinct@)[0] == distinct@[0].value@);
        ImportResolution::Internal {
            target: IrEndpoint::File { path: distinct[0].duplicate() },
            method,
        }
    } else if distinct.len() == 0 {
        unresolved(GapCode::UnresolvedTarget)
    } else {
        ImportResolution::Ambiguous { candidate_count: distinct.len() as u64 }
    }
}

/// Selects among candidate files other than the importing file itself.
pub fn select_files(source: &RepositoryPath, paths: &[RepositoryPath], method: ResolutionMethod) -> (r:
    ImportResolution)
    ensures
        resolution_view(r) == files_selection(path_set(paths@).remove(source.value@), method),
{
    let mut kept: Vec<RepositoryPath> = Vec::new();
    let mut i: usize = 0;
    while i < paths.len()
        invariant
            i <= paths.len(),
            path_set(kept@) == path_views(paths@).take(i as int).to_set().remove(source.value@),
        decreases paths.len() - i,
    {
        let ghost prev = kept@;
        proof {
            assert(path_views(paths@).take(i + 1) == path_views(paths@).take(i as int).push(
                paths@[i as int].value@,
            ));
            crate::text::lemma_push_to_set(
                path_views(paths@).take(i as int),
                paths@[i as int].value@,
            );
        }
        if !crate::text::str_eq(paths[i].as_str(), source.as_str()) {
            kept.push(paths[i].duplicate());
            proof {
                assert(path_views(kept@) =~= path_views(prev).push(paths@[i as int].value@));
                crate::text::lemma_push_to_set(path_views(prev), paths@[i as int].value@);
                assert(path_set(kept@) =~= path_views(paths@).take(i + 1).to_set().remove(
                    source.value@,
                ));
            }
        } else {
            assert(path_set(kept@) =~= path_views(paths@).take(i + 1).to_set().remove(
                source.value@,
            ));
        }
        i += 1;
    }
    assert(path_views(paths@).take(paths@.len() as int) == path_views(paths@));
    select_files_without_source(kept.as_slice(), method)
}

fn same_structure(a: &StructureTarget, b: &StructureTarget) -> (r: bool)
    ensures
        r == (structure_key(*a) == structure_key(*b)),
{
    crate::text::str_eq(a.unit_id.as_str(), b.unit_id.as_str()) && a.kind == b.kind
        && crate::text::str_eq(a.qualified_name.as_str(), b.qualified_name.as_str())
}

fn duplicate_structure(t: &StructureTarget) -> (r: StructureTarget)
    ensures
        structure_key(r) == structure_key(*t),
{
    StructureTarget {
        unit_id: t.unit_id.duplicate(),
        kind: t.kind,
        qualified_name: t.qualified_name.clone(),
    }
}

/// Selects among candidate structures, each counted once.
pub fn select_structures(structures: &[StructureTarget], method: ResolutionMethod) -> (r:
    ImportResolution)
    ensures
        resolution_view(r) == structures_selection(structure_set(structures@), method),
{
    let mut out: Vec<StructureTarget> = Vec::new();
    let mut i: usize = 0;
    while i < structures.len()
        invariant
            i <= structures.len(),
            forall|a: int, b: int|
                0 <= a < b < out@.len() ==> #[trigger] structure_keys(out@)[a]
                    != #[trigger] structure_keys(out@)[b],
            structure_set(out@) == structure_keys(structures@).take(i as int).to_set(),
        decreases structures.len() - i,
    {
        let ghost prev = out@;
        let ghost key = structure_key(structures@[i as int]);
        proof {
            assert(structure_keys(structures@).take(i + 1) == structure_keys(structures@).take(
                i as int,
            ).push(key));
            crate::text::lemma_push_to_set(structure_keys(structures@).take(i as int), key);
        }
        let mut k: usize = 0;
        let mut seen = false;
        while k < out.len()
            invariant
                k <= out.len(),
                out@ == prev,
                key == structure_key(structures@[i as int]),
                i < structures.len(),
                seen ==> structure_keys(out@).contains(key),
                !seen ==> forall|m: int| 0 <= m < k ==> #[trigger] structure_keys(out@)[m] != key,
            decreases out.len() - k,
        {
            if same_structure(&out[k], &structures[i]) {
                assert(structure_keys(out@)[k as int] == key);
                seen = true;
            }
            k += 1;
        }
        if !seen {
            out.push(duplicate_structure(&structures[i]));
            proof {
                assert(structure_keys(out@) =~= structure_keys(prev).push(key));
                crate::text::lemma_push_to_set(structure_keys(prev), key);
            }
        } else {
            assert(structure_keys(prev).to_set().insert(key) =~= structure_keys(prev).to_set());
        }
        i += 1;
    }
    assert(structure_keys(structures@).take(structures@.len() as int) == structure_keys(
        structures@,
    ));
    proof {
        lemma_distinct_set_len(structure_keys(out@));
    }
    if out.len() == 1 {
        let t = &out[0];
        assert(structure_keys(out@)[0] == structure_key(out@[0]));
        ImportResolution::Internal { target: t.endpoint(), method }
    } else if out.len() == 0 {
        unresolved(GapCode::UnresolvedTarget)
    } else {
        ImportResolution::Ambiguous { candidate_count: out.len() as u64 }
    }
}

// ---------------------------------------------------------------------------
// The index
// ---------------------------------------------------------------------------

/// Files listed under one key (a module, type or crate name).
#[derive(Debug)]
pub struct KeyedPaths {
    pub key: String,
    pub paths: Vec<RepositoryPath>,
}

/// Structures listed under one key (a package or namespace name).
#[derive(Debug)]
pub struct KeyedStructures {
    pub key: String,
    pub targets: Vec<StructureTarget>,
}

/// The module names one source file declares.
#[derive(Debug)]
pub struct SourceModules {
    pub path: RepositoryPath,
    pub modules: Vec<String>,
}

/// The analysis unit that owns one file for one language.
#[derive(Debug)]
pub struct FileOwner {
    pub language: ProgrammingLanguage,
    pub path: RepositoryPath,
    pub unit_id: AnalysisUnitId,
}

/// The files a compiler project model resolved one specifier of one source to.
#[derive(Debug)]
pub struct ProjectModelTargets {
    pub language: ProgrammingLanguage,
    pub source: RepositoryPath,
    pub specifier: String,
    pub targets: Vec<RepositoryPath>,
}

/// The files of one Rust module of one unit.
#[derive(Debug)]
pub struct RustModulePaths {
    pub unit_id: AnalysisUnitId,
    pub module: String,
    pub paths: Vec<RepositoryPath>,
}

/// Exact project metadata against which import sites resolve. Each table is
/// read by its first entry for a key.
#[derive(Debug)]
pub struct ProjectImportIndex {
    pub included_files: Vec<RepositoryPath>,
    pub owners: Vec<FileOwner>,
    pub project_model_files: Vec<RepositoryPath>,
    pub project_model_targets: Vec<ProjectModelTargets>,
    pub python_modules: Vec<KeyedPaths>,
    pub python_packages: Vec<KeyedStructures>,
    pub python_source_modules: Vec<SourceModules>,
    pub java_types: Vec<KeyedPaths>,
    pub java_packages: Vec<KeyedStructures>,
    pub csharp_types: Vec<KeyedPaths>,
    pub csharp_namespaces: Vec<KeyedStructures>,
    pub go_packages: Vec<KeyedStructures>,
    pub rust_modules: Vec<RustModulePaths>,
    pub rust_source_modules: Vec<SourceModules>,
    pub rust_crates: Vec<KeyedPaths>,
    pub dart_package_files: Vec<KeyedPaths>,
    pub metadata_failed_files: Vec<FileOwnerKey>,
}

/// A file of one language.
#[derive(Debug)]
pub struct FileOwnerKey {
    pub language: ProgrammingLanguage,
    pub path: RepositoryPath,
}

/// `i` is the first position of `v` where `p` holds.
pub open spec fn is_first_match<T>(v: Seq<T>, p: spec_fn(T) -> bool, i: int) -> bool {
    &&& 0 <= i < v.len()
    &&& p(v[i])
    &&& forall|j: int| 0 <= j < i ==> !p(#[trigger] v[j])
}

/// The first position of `v` where `p` holds.
pub open spec fn first_match<T>(v: Seq<T>, p: spec_fn(T) -> bool) -> Option<int> {
    if exists|i: int| is_first_match(v, p, i) {
        Some(choose|i: int| is_first_match(v, p, i))
    } else {
        None
    }
}

pub proof fn lemma_first_match<T>(v: Seq<T>, p: spec_fn(T) -> bool, i: int)
    requires
        is_first_match(v, p, i),
    ensures
        first_match(v, p) == Some(i),
{
    let j = choose|j: int| is_first_match(v, p, j);
    assert(is_first_match(v, p, j));
    if j < i {
        assert(!p(v[j]));
    } else if i < j {
        assert(!p(v[i]));
    }
}

pub proof fn lemma_no_match<T>(v: Seq<T>, p: spec_fn(T) -> bool)
    requires
        forall|j: int| 0 <= j < v.len() ==> !p(#[trigger] v[j]),
    ensures
        first_match(v, p) is None,
{
}

pub open spec fn keyed_paths_at(k: Seq<char>) -> spec_fn(KeyedPaths) -> bool {
    |e: KeyedPaths| e.key@ == k
}

pub open spec fn keyed_structures_at(k: Seq<char>) -> spec_fn(KeyedStructures) -> bool {
    |e: KeyedStructures| e.key@ == k
}

pub open spec fn source_modules_at(path: Seq<char>) -> spec_fn(SourceModules) -> bool {
    |e: SourceModules| e.path.value@ == path
}

pub open spec fn owner_at(language: ProgrammingLanguage, path: Seq<char>) -> spec_fn(FileOwner) -> bool {
    |e: FileOwner| e.language == language && e.path.value@ == path
}

pub open spec fn model_targets_at(
    language: ProgrammingLanguage,
    source: Seq<char>,
    specifier: Seq<char>,
) -> spec_fn(ProjectModelTargets) -> bool {
    |e: ProjectModelTargets|
        e.language == language && e.source.value@ == source && e.specifier@ == specifier
}

pub open spec fn rust_module_at(unit: Seq<char>, module: Seq<char>) -> spec_fn(RustModulePaths) -> bool {
    |e: RustModulePaths| e.unit_id.value@ == unit && e.module@ == module
}

/// The files listed under `k`.
pub open spec fn lookup_paths(t: Seq<KeyedPaths>, k: Seq<char>) -> Option<Seq<RepositoryPath>> {
    match first_match(t, keyed_paths_at(k)) {
        Some(i) => Some(t[i].paths@),
        None => None,
    }
}

/// The structures listed under `k`.
pub open spec fn lookup_structures(t: Seq<KeyedStructures>, k: Seq<char>) -> Option<Seq<StructureTarget>> {
    match first_match(t, keyed_structures_at(k)) {
        Some(i) => Some(t[i].targets@),
        None => None,
    }
}

/// The module names recorded for `path`.
pub open spec fn lookup_modules(t: Seq<SourceModules>, path: Seq<char>) -> Option<Seq<String>> {
    match first_match(t, source_modules_at(path)) {
        Some(i) => Some(t[i].modules@),
        None => None,
    }
}

/// The unit that owns `path` for `language`.
pub open spec fn lookup_owner(t: Seq<FileOwner>, language: ProgrammingLanguage, path: Seq<char>) -> Option<Seq<char>> {
    match first_match(t, owner_at(language, path)) {
        Some(i) => Some(t[i].unit_id.value@),
        None => None,
    }
}

/// The project-model targets of one specifier of one source.
pub open spec fn lookup_model_targets(
    t: Seq<ProjectModelTargets>,
    language: ProgrammingLanguage,
    source: Seq<char>,
    specifier: Seq<char>,
) -> Option<Seq<RepositoryPath>> {
    match first_match(t, model_targets_at(language, source, specifier)) {
        Some(i) => Some(t[i].targets@),
        None => None,
    }
}

/// The files of module `module` of unit `unit`.
pub open spec fn lookup_rust_module(t: Seq<RustModulePaths>, unit: Seq<char>, module: Seq<char>) -> Option<Seq<RepositoryPath>> {
    match first_match(t, rust_module_at(unit, module)) {
        Some(i) => Some(t[i].paths@),
        None => None,
    }
}

fn find_keyed_paths(t: &[KeyedPaths], k: &str) -> (r: Option<usize>)
    ensures
        match r {
            Some(i) => i < t@.len() && first_match(t@, keyed_paths_at(k@)) == Some(i as int),
            None => first_match(t@, keyed_paths_at(k@)) is None,
        },
{
    let mut i: usize = 0;
    while i < t.len()
        invariant
            i <= t.len(),
            forall|j: int| 0 <= j < i ==> !keyed_paths_at(k@)(#[trigger] t@[j]),
        decreases t.len() - i,
    {
        if crate::text::str_eq(t[i].key.as_str(), k) {
            proof {
                lemma_first_match(t@, keyed_paths_at(k@), i as int);
            }
            return Some(i);
        }
        i += 1;
    }
    proof {
        lemma_no_match(t@, keyed_paths_at(k@));
    }
    None
}

fn find_keyed_structures(t: &[KeyedStructures], k: &str) -> (r: Option<usize>)
    ensures
        match r {
            Some(i) => i < t@.len() && first_match(t@, keyed_structures_at(k@)) == Some(i as int),
            None => first_match(t@, keyed_structures_at(k@)) is None,
        },
{
    let mut i: usize = 0;
    while i < t.len()
        invariant
            i <= t.len(),
            forall|j: int| 0 <= j < i ==> !keyed_structures_at(k@)(#[trigger] t@[j]),
        decreases t.len() - i,
    {
        if crate::text::str_eq(t[i].key.as_str(), k) {
            proof {
                lemma_first_match(t@, keyed_structures_at(k@), i as int);
            }
            return Some(i);
        }
        i += 1;
    }
    proof {
        lemma_no_match(t@, keyed_structures_at(k@));
    }
    None
}

fn find_source_modules(t: &[SourceModules], path: &RepositoryPath) -> (r: Option<usize>)
    ensures
        match r {
            Some(i) => i < t@.len() && first_match(t@, source_modules_at(path.value@)) == Some(i as int),
            None => first_match(t@, source_modules_at(path.value@)) is None,
        },
{
    let mut i: usize = 0;
    while i < t.len()
        invariant
            i <= t.len(),
            forall|j: int| 0 <= j < i ==> !source_modules_at(path.value@)(#[trigger] t@[j]),
        decreases t.len() - i,
    {
        if crate::text::str_eq(t[i].path.as_str(), path.as_str()) {
            proof {
                lemma_first_match(t@, source_modules_at(path.value@), i as int);
            }
            return Some(i);
        }
        i += 1;
    }
    proof {
        lemma_no_match(t@, source_modules_at(path.value@));
    }
    None
}

fn find_owner(t: &[FileOwner], language: ProgrammingLanguage, path: &RepositoryPath) -> (r: Option<usize>)
    ensures
        match r {
            Some(i) => i < t@.len() && first_match(t@, owner_at(language, path.value@)) == Some(i as int),
            None => first_match(t@, owner_at(language, path.value@)) is None,
        },
{
    let mut i: usize = 0;
    while i < t.len()
        invariant
            i <= t.len(),
            forall|j: int| 0 <= j < i ==> !owner_at(language, path.value@)(#[trigger] t@[j]),
        decreases t.len() - i,
    {
        if t[i].language == language && crate::text::str_eq(t[i].path.as_str(), path.as_str()) {
            proof {
                lemma_first_match(t@, owner_at(language, path.value@), i as int);
            }
            return Some(i);
        }
        i += 1;
    }
    proof {
        lemma_no_match(t@, owner_at(language, path.value@));
    }
    None
}

fn find_model_targets(
    t: &[ProjectModelTargets],
    language: ProgrammingLanguage,
    source: &RepositoryPath,
    specifier: &str,
) -> (r: Option<usize>)
    ensures
        match r {
            Some(i) => i < t@.len() && first_match(t@, model_targets_at(language, source.value@, specifier@)) == Some(i as int),
            None => first_match(t@, model_targets_at(language, source.value@, specifier@)) is None,
        },
{
    let mut i: usize = 0;
    while i < t.len()
        invariant
            i <= t.len(),
            forall|j: int| 0 <= j < i ==> !model_targets_at(language, source.value@, specifier@)(#[trigger] t@[j]),
        decreases t.len() - i,
    {
        if t[i].language == language && crate::text::str_eq(t[i].source.as_str(), source.as_str())
            && crate::text::str_eq(t[i].specifier.as_str(), specifier) {
            proof {
                lemma_first_match(t@, model_targets_at(language, source.value@, specifier@), i as int);
            }
            return Some(i);
        }
        i += 1;
    }
    proof {
        lemma_no_match(t@, model_targets_at(language, source.value@, specifier@));
    }
    None
}

fn find_rust_module(t: &[RustModulePaths], unit: &AnalysisUnitId, module: &str) -> (r: Option<usize>)
    ensures
        match r {
            Some(i) => i < t@.len() && first_match(t@, rust_module_at(unit.value@, module@)) == Some(i as int),
            None => first_match(t@, rust_module_at(unit.value@, module@)) is None,
        },
{
    let mut i: usize = 0;
    while i < t.len()
        invariant
            i <= t.len(),
            forall|j: int| 0 <= j < i ==> !rust_module_at(unit.value@, module@)(#[trigger] t@[j]),
        decreases t.len() - i,
    {
        if crate::text::str_eq(t[i].unit_id.as_str(), unit.as_str()) && crate::text::str_eq(
            t[i].module.as_str(),
            module,
        ) {
            proof {
                lemma_first_match(t@, rust_module_at(unit.value@, module@), i as int);
            }
            return Some(i);
        }
        i += 1;
    }
    proof {
        lemma_no_match(t@, rust_module_at(unit.value@, module@));
    }
    None
}

/// Whether `(language, path)` is a pair `t` lists.
pub open spec fn lists_file(t: Seq<FileOwnerKey>, language: ProgrammingLanguage, path: Seq<char>) -> bool {
    exists|i: int| 0 <= i < t.len() && t[i].language == language && #[trigger] t[i].path.value@ == path
}

impl ProjectImportIndex {
    /// The unit that owns `path` for `language`.
    pub fn owner(&self, language: ProgrammingLanguage, path: &RepositoryPath) -> (r: Option<&AnalysisUnitId>)
        ensures
            match r {
                Some(u) => lookup_owner(self.owners@, language, path.value@) == Some(u.value@),
                None => lookup_owner(self.owners@, language, path.value@) is None,
            },
    {
        match find_owner(self.owners.as_slice(), language, path) {
            Some(i) => Some(&self.owners[i].unit_id),
            None => None,
        }
    }

    /// Whether reading the project metadata of this file failed.
    pub fn metadata_failed(&self, language: ProgrammingLanguage, path: &RepositoryPath) -> (r: bool)
        ensures
            r == lists_file(self.metadata_failed_files@, language, path.value@),
    {
        let mut i: usize = 0;
        while i < self.metadata_failed_files.len()
            invariant
                i <= self.metadata_failed_files.len(),
                forall|j: int|
                    0 <= j < i ==> !(self.metadata_failed_files@[j].language == language
                        && #[trigger] self.metadata_failed_files@[j].path.value@ == path.value@),
            decreases self.metadata_failed_files.len() - i,
        {
            let entry = &self.metadata_failed_files[i];
            if entry.language == language && crate::text::str_eq(entry.path.as_str(), path.as_str()) {
                return true;
            }
            i += 1;
        }
        false
    }
}

// ---------------------------------------------------------------------------
// Candidate universes and relative paths
// ---------------------------------------------------------------------------

/// The files the plan assigns to `language`.
pub open spec fn owned_files(owners: Seq<FileOwner>, language: ProgrammingLanguage) -> Set<Seq<char>> {
    Set::new(
        |p: Seq<char>|
            exists|i: int|
                0 <= i < owners.len() && owners[i].language == language
                    && #[trigger] owners[i].path.value@ == p,
    )
}

pub open spec fn has_language(owners: Seq<FileOwner>, language: ProgrammingLanguage) -> bool {
    exists|i: int| 0 <= i < owners.len() && #[trigger] owners[i].language == language
}

pub open spec fn is_ecmascript(language: ProgrammingLanguage) -> bool {
    language == ProgrammingLanguage::TypeScript || language == ProgrammingLanguage::JavaScript
}

pub open spec fn is_c_family(language: ProgrammingLanguage) -> bool {
    language == ProgrammingLanguage::C || language == ProgrammingLanguage::Cpp
}

/// The closed candidate universe for path resolution from `language`:
/// TypeScript and JavaScript share their files, C and C++ theirs; another
/// language has its own files, or every included file when it has none.
pub open spec fn resolution_universe(index: ProjectImportIndex, language: ProgrammingLanguage) -> Set<Seq<char>> {
    if is_ecmascript(language) {
        owned_files(index.owners@, ProgrammingLanguage::TypeScript).union(
            owned_files(index.owners@, ProgrammingLanguage::JavaScript),
        )
    } else if is_c_family(language) {
        owned_files(index.owners@, ProgrammingLanguage::C).union(
            owned_files(index.owners@, ProgrammingLanguage::Cpp),
        )
    } else if has_language(index.owners@, language) {
        owned_files(index.owners@, language)
    } else {
        path_set(index.included_files@)
    }
}

fn same_family(a: ProgrammingLanguage, b: ProgrammingLanguage) -> (r: bool)
    ensures
        r == (a == b || (is_ecmascript(a) && is_ecmascript(b)) || (is_c_family(a) && is_c_family(b))),
{
    match (a, b) {
        (ProgrammingLanguage::TypeScript, ProgrammingLanguage::JavaScript) => true,
        (ProgrammingLanguage::JavaScript, ProgrammingLanguage::TypeScript) => true,
        (ProgrammingLanguage::C, ProgrammingLanguage::Cpp) => true,
        (ProgrammingLanguage::Cpp, ProgrammingLanguage::C) => true,
        _ => a == b,
    }
}

impl ProjectImportIndex {
    /// The files a relative path from `language` may resolve to.
    pub fn resolution_files(&self, language: ProgrammingLanguage) -> (r: Vec<RepositoryPath>)
        ensures
            path_set(r@) == resolution_universe(*self, language),
    {
        let shared = match language {
            ProgrammingLanguage::TypeScript | ProgrammingLanguage::JavaScript | ProgrammingLanguage::C
            | ProgrammingLanguage::Cpp => true,
            _ => false,
        };
        let mut out: Vec<RepositoryPath> = Vec::new();
        let mut any = false;
        let mut i: usize = 0;
        while i < self.owners.len()
            invariant
                i <= self.owners.len(),
                shared == (is_ecmascript(language) || is_c_family(language)),
                any == exists|j: int| 0 <= j < i && #[trigger] self.owners@[j].language == language,
                forall|p: Seq<char>|
                    path_set(out@).contains(p) <==> exists|j: int|
                        0 <= j < i && (self.owners@[j].language == language || (is_ecmascript(language) && is_ecmascript(self.owners@[j].language)) || (is_c_family(language) && is_c_family(self.owners@[j].language)))
                            && #[trigger] self.owners@[j].path.value@ == p,
            decreases self.owners.len() - i,
        {
            let o = &self.owners[i];
            let ghost prev = out@;
            if o.language == language {
                any = true;
            }
            let in_family = same_family(language, o.language);
            if in_family {
                out.push(o.path.duplicate());
                proof {
                    assert(path_views(out@) =~= path_views(prev).push(o.path.value@));
                    crate::text::lemma_push_to_set(path_views(prev), o.path.value@);
                }
            }
            proof {
                let fam = |j: int| self.owners@[j].language == language || (is_ecmascript(language) && is_ecmascript(self.owners@[j].language)) || (is_c_family(language) && is_c_family(self.owners@[j].language));
                assert(fam(i as int) == in_family);
                assert(path_set(out@) == if fam(i as int) { path_set(prev).insert(self.owners@[i as int].path.value@) } else { path_set(prev) });
                assert forall|p: Seq<char>|
                    path_set(out@).contains(p) <==> exists|j: int|
                        0 <= j < i + 1 && (self.owners@[j].language == language || (is_ecmascript(language) && is_ecmascript(self.owners@[j].language)) || (is_c_family(language) && is_c_family(self.owners@[j].language)))
                            && #[trigger] self.owners@[j].path.value@ == p by {
                    if path_set(out@).contains(p) {
                        if !path_set(prev).contains(p) {
                            assert(self.owners@[i as int].path.value@ == p);
                        } else {
                            let j = choose|j: int|
                                0 <= j < i && (self.owners@[j].language == language || (is_ecmascript(language) && is_ecmascript(self.owners@[j].language)) || (is_c_family(language) && is_c_family(self.owners@[j].language)))
                                    && #[trigger] self.owners@[j].path.value@ == p;
                            assert(0 <= j < i + 1);
                        }
                    }
                    if exists|j: int|
                        0 <= j < i + 1 && (self.owners@[j].language == language || (is_ecmascript(language) && is_ecmascript(self.owners@[j].language)) || (is_c_family(language) && is_c_family(self.owners@[j].language)))
                            && #[trigger] self.owners@[j].path.value@ == p {
                        let j = choose|j: int|
                            0 <= j < i + 1 && (self.owners@[j].language == language || (is_ecmascript(language) && is_ecmascript(self.owners@[j].language)) || (is_c_family(language) && is_c_family(self.owners@[j].language)))
                                && #[trigger] self.owners@[j].path.value@ == p;
                        if j < i {
                            assert(path_set(prev).contains(p));
                        }
                    }
                }
            }
            i += 1;
        }
        if shared || any {
            proof {
                let u = resolution_universe(*self, language);
                assert forall|p: Seq<char>| path_set(out@).contains(p) <==> u.contains(p) by {
                    if path_set(out@).contains(p) {
                        let j = choose|j: int|
                            0 <= j < self.owners@.len() && (self.owners@[j].language == language || (is_ecmascript(language) && is_ecmascript(self.owners@[j].language)) || (is_c_family(language) && is_c_family(self.owners@[j].language)))
                                && #[trigger] self.owners@[j].path.value@ == p;
                        assert(owned_files(self.owners@, self.owners@[j].language).contains(p));
                    }
                    if u.contains(p) {
                        if is_ecmascript(language) {
                            if owned_files(self.owners@, ProgrammingLanguage::TypeScript).contains(p) {
                                let j = choose|j: int| 0 <= j < self.owners@.len() && self.owners@[j].language == ProgrammingLanguage::TypeScript && #[trigger] self.owners@[j].path.value@ == p;
                                assert(path_set(out@).contains(p));
                            } else {
                                let j = choose|j: int| 0 <= j < self.owners@.len() && self.owners@[j].language == ProgrammingLanguage::JavaScript && #[trigger] self.owners@[j].path.value@ == p;
                                assert(path_set(out@).contains(p));
                            }
                        } else if is_c_family(language) {
                            if owned_files(self.owners@, ProgrammingLanguage::C).contains(p) {
                                let j = choose|j: int| 0 <= j < self.owners@.len() && self.owners@[j].language == ProgrammingLanguage::C && #[trigger] self.owners@[j].path.value@ == p;
                                assert(path_set(out@).contains(p));
                            } else {
                                let j = choose|j: int| 0 <= j < self.owners@.len() && self.owners@[j].language == ProgrammingLanguage::Cpp && #[trigger] self.owners@[j].path.value@ == p;
                                assert(path_set(out@).contains(p));
                            }
                        } else {
                            let j = choose|j: int| 0 <= j < self.owners@.len() && self.owners@[j].language == language && #[trigger] self.owners@[j].path.value@ == p;
                            assert(path_set(out@).contains(p));
                        }
                    }
                }
                assert(path_set(out@) =~= u);
            }
            out
        } else {
            let mut all: Vec<RepositoryPath> = Vec::new();
            let mut k: usize = 0;
            while k < self.included_files.len()
                invariant
                    k <= self.included_files.len(),
                    path_views(all@) == path_views(self.included_files@).take(k as int),
                decreases self.included_files.len() - k,
            {
                let ghost prev = all@;
                all.push(self.included_files[k].duplicate());
                assert(path_views(all@) =~= path_views(prev).push(self.included_files@[k as int].value@));
                assert(path_views(self.included_files@).take(k + 1) =~= path_views(self.included_files@).take(k as int).push(self.included_files@[k as int].value@));
                k += 1;
            }
            assert(path_views(self.included_files@).take(k as int) == path_views(self.included_files@));
            all
        }
    }
}

/// The distinct paths of `v` in increasing order.
pub fn canonical_paths(v: &[RepositoryPath]) -> (r: Vec<RepositoryPath>)
    ensures
        strictly_sorted(path_views(r@)),
        path_set(r@) == path_set(v@),
{
    let mut names: Vec<String> = Vec::new();
    let mut i: usize = 0;
    while i < v.len()
        invariant
            i <= v.len(),
            string_views(names@) == path_views(v@).take(i as int),
        decreases v.len() - i,
    {
        let ghost prev = names@;
        names.push(v[i].value.clone());
        assert(string_views(names@) =~= string_views(prev).push(v@[i as int].value@));
        assert(path_views(v@).take(i + 1) =~= path_views(v@).take(i as int).push(v@[i as int].value@));
        i += 1;
    }
    assert(path_views(v@).take(v@.len() as int) == path_views(v@));
    let sorted = crate::text::sorted_unique_strings(names);
    let mut out: Vec<RepositoryPath> = Vec::new();
    let mut k: usize = 0;
    while k < sorted.len()
        invariant
            k <= sorted.len(),
            path_views(out@) == string_views(sorted@).take(k as int),
        decreases sorted.len() - k,
    {
        let ghost prev = out@;
        out.push(RepositoryPath { value: sorted[k].clone() });
        assert(path_views(out@) =~= path_views(prev).push(sorted@[k as int]@));
        assert(string_views(sorted@).take(k + 1) =~= string_views(sorted@).take(k as int).push(sorted@[k as int]@));
        k += 1;
    }
    assert(string_views(sorted@).take(sorted@.len() as int) == string_views(sorted@));
    assert(path_set(out@) =~= path_set(v@));
    out
}

pub open spec fn ext_views(exts: Seq<&str>) -> Seq<Seq<char>> {
    exts.map_values(|e: &str| e@)
}

/// `c` is `cand` with extension `ext` appended, or, with `index_files`, the
/// file `index` plus `ext` inside directory `cand`; a valid path either way.
pub open spec fn extension_candidate(cand: Seq<char>, ext: Seq<char>, index_files: bool, c: Seq<char>) -> bool {
    ||| (c == cand + ext && valid_repository_path(cand + ext))
    ||| (index_files && c == spec_joined_path(cand, "index"@ + ext) && valid_repository_path(c))
}

/// `c` is a listed file that the relative target `cand` names exactly or,
/// when `cand` has no extension, through one of `exts`.
pub open spec fn relative_candidate(
    cand: Seq<char>,
    files: Set<Seq<char>>,
    exts: Seq<Seq<char>>,
    index_files: bool,
    c: Seq<char>,
) -> bool {
    &&& files.contains(c)
    &&& (c == cand || (!spec_has_extension(cand) && exists|e: int|
        0 <= e < exts.len() && #[trigger] extension_candidate(cand, exts[e], index_files, c)))
}

/// The files a relative specifier from `source` may name.
pub open spec fn relative_set(
    source: Seq<char>,
    specifier: Seq<char>,
    files: Set<Seq<char>>,
    exts: Seq<Seq<char>>,
    index_files: bool,
) -> Set<Seq<char>> {
    match spec_normalize_join(spec_parent_path(source), specifier) {
        None => Set::empty(),
        Some(cand) => Set::new(|c: Seq<char>| relative_candidate(cand, files, exts, index_files, c)),
    }
}

spec fn suffix_hits(cand: Seq<char>, files: Set<Seq<char>>, exts: Seq<Seq<char>>, k: int) -> Set<Seq<char>> {
    Set::new(|c: Seq<char>| files.contains(c) && exists|e: int| 0 <= e < k && #[trigger] extension_candidate(cand, exts[e], false, c))
}

spec fn index_hits(cand: Seq<char>, files: Set<Seq<char>>, exts: Seq<Seq<char>>, k: int) -> Set<Seq<char>> {
    Set::new(|c: Seq<char>| files.contains(c) && exists|e: int| 0 <= e < k && #[trigger] index_candidate(cand, exts[e], c))
}

spec fn index_candidate(cand: Seq<char>, ext: Seq<char>, c: Seq<char>) -> bool {
    c == spec_joined_path(cand, "index"@ + ext) && valid_repository_path(c)
}

fn push_if_listed(found: &mut Vec<RepositoryPath>, files: &[RepositoryPath], path: RepositoryPath)
    ensures
        path_set(final(found)@) == if path_set(files@).contains(path.value@) {
            path_set(old(found)@).insert(path.value@)
        } else {
            path_set(old(found)@)
        },
{
    let ghost prev = found@;
    match crate::schedule::find_path(files, path.as_str()) {
        Some(k) => {
            assert(path_views(files@)[k as int] == path.value@);
            assert(path_set(files@).contains(path.value@));
            let ghost v = path.value@;
            found.push(path);
            proof {
                assert(path_views(found@) =~= path_views(prev).push(v));
                crate::text::lemma_push_to_set(path_views(prev), v);
            }
        },
        None => {},
    }
}

/// The listed files a relative specifier from `source_path` names, in
/// increasing order.
pub fn resolve_relative_candidates(
    source_path: &RepositoryPath,
    specifier: &str,
    included_files: &[RepositoryPath],
    extensions: &[&str],
    index_files: bool,
) -> (r: Vec<RepositoryPath>)
    ensures
        strictly_sorted(path_views(r@)),
        path_set(r@) == relative_set(
            source_path.value@,
            specifier@,
            path_set(included_files@),
            ext_views(extensions@),
            index_files,
        ),
{
    let base = crate::project_index::parent_path(source_path);
    let candidate = match crate::imports::normalize_join(&base, specifier) {
        None => {
            let empty: Vec<RepositoryPath> = Vec::new();
            assert(path_set(empty@) =~= Set::empty());
            return empty;
        },
        Some(c) => c,
    };
    let ghost cand = candidate.value@;
    let ghost files = path_set(included_files@);
    let ghost exts = ext_views(extensions@);
    let mut found: Vec<RepositoryPath> = Vec::new();
    assert(path_set(found@) =~= Set::empty());
    push_if_listed(&mut found, included_files, candidate.duplicate());
    let ghost first = path_set(found@);
    assert(first =~= Set::new(|c: Seq<char>| files.contains(c) && c == cand));
    if !crate::imports::has_extension(candidate.as_str()) {
        let mut k: usize = 0;
        while k < extensions.len()
            invariant
                k <= extensions.len(),
                cand == candidate.value@,
                files == path_set(included_files@),
                exts == ext_views(extensions@),
                path_set(found@) == first.union(suffix_hits(cand, files, exts, k as int)),
            decreases extensions.len() - k,
        {
            let ghost prev = path_set(found@);
            let joined = crate::text::concat(candidate.as_str(), extensions[k]);
            assert(exts[k as int] == extensions@[k as int]@);
            match RepositoryPath::parse(joined.as_str()) {
                Ok(path) => {
                    push_if_listed(&mut found, included_files, path);
                },
                Err(_) => {},
            }
            proof {
                assert forall|c: Seq<char>| #[trigger] suffix_hits(cand, files, exts, k + 1).contains(c) <==> suffix_hits(cand, files, exts, k as int).contains(c) || (files.contains(c) && extension_candidate(cand, exts[k as int], false, c)) by {
                    if suffix_hits(cand, files, exts, k + 1).contains(c) {
                        let e = choose|e: int| 0 <= e < k + 1 && #[trigger] extension_candidate(cand, exts[e], false, c);
                        if e < k {
                            assert(suffix_hits(cand, files, exts, k as int).contains(c));
                        }
                    }
                    if suffix_hits(cand, files, exts, k as int).contains(c) {
                        let e = choose|e: int| 0 <= e < k && #[trigger] extension_candidate(cand, exts[e], false, c);
                        assert(0 <= e < k + 1);
                    }
                }
                assert(path_set(found@) =~= first.union(suffix_hits(cand, files, exts, k + 1)));
            }
            k += 1;
        }
        let ghost second = path_set(found@);
        if index_files {
            let mut m: usize = 0;
            while m < extensions.len()
                invariant
                    m <= extensions.len(),
                    cand == candidate.value@,
                    files == path_set(included_files@),
                    exts == ext_views(extensions@),
                    path_set(found@) == second.union(index_hits(cand, files, exts, m as int)),
                decreases extensions.len() - m,
            {
                let name = crate::text::concat("index", extensions[m]);
                assert(exts[m as int] == extensions@[m as int]@);
                match crate::project_index::join_repository_path(&candidate, name.as_str()) {
                    Some(path) => {
                        push_if_listed(&mut found, included_files, path);
                    },
                    None => {},
                }
                proof {
                    assert forall|c: Seq<char>| #[trigger] index_hits(cand, files, exts, m + 1).contains(c) <==> index_hits(cand, files, exts, m as int).contains(c) || (files.contains(c) && index_candidate(cand, exts[m as int], c)) by {
                        if index_hits(cand, files, exts, m + 1).contains(c) {
                            let e = choose|e: int| 0 <= e < m + 1 && #[trigger] index_candidate(cand, exts[e], c);
                            if e < m {
                                assert(index_hits(cand, files, exts, m as int).contains(c));
                            }
                        }
                        if index_hits(cand, files, exts, m as int).contains(c) {
                            let e = choose|e: int| 0 <= e < m && #[trigger] index_candidate(cand, exts[e], c);
                            assert(0 <= e < m + 1);
                        }
                    }
                    assert(path_set(found@) =~= second.union(index_hits(cand, files, exts, m + 1)));
                }
                m += 1;
            }
        }
        proof {
            let n = exts.len() as int;
            let target = relative_set(source_path.value@, specifier@, files, exts, index_files);
            assert forall|c: Seq<char>| path_set(found@).contains(c) <==> target.contains(c) by {
                if suffix_hits(cand, files, exts, n).contains(c) {
                    let e = choose|e: int| 0 <= e < n && #[trigger] extension_candidate(cand, exts[e], false, c);
                    assert(extension_candidate(cand, exts[e], index_files, c));
                }
                if index_files && index_hits(cand, files, exts, n).contains(c) {
                    let e = choose|e: int| 0 <= e < n && #[trigger] index_candidate(cand, exts[e], c);
                    assert(extension_candidate(cand, exts[e], index_files, c));
                }
                if target.contains(c) && c != cand {
                    let e = choose|e: int| 0 <= e < n && #[trigger] extension_candidate(cand, exts[e], index_files, c);
                    if c == cand + exts[e] && valid_repository_path(cand + exts[e]) {
                        assert(extension_candidate(cand, exts[e], false, c));
                        assert(suffix_hits(cand, files, exts, n).contains(c));
                    } else {
                        assert(index_candidate(cand, exts[e], c));
                        assert(index_hits(cand, files, exts, n).contains(c));
                    }
                }
            }
            assert(path_set(found@) =~= target);
        }
    } else {
        assert(path_set(found@) =~= relative_set(source_path.value@, specifier@, files, exts, index_files));
    }
    canonical_paths(found.as_slice())
}

// ---------------------------------------------------------------------------
// Longest qualified matches
// ---------------------------------------------------------------------------

/// The last position below `n` where `t` occurs in `s`.
pub open spec fn last_occurrence_before(s: Seq<char>, t: Seq<char>, n: int) -> Option<int>
    decreases n,
{
    if n <= 0 {
        None
    } else if crate::text::occurs_at(s, t, n - 1) {
        Some(n - 1)
    } else {
        last_occurrence_before(s, t, n - 1)
    }
}

/// `s.rsplit_once(t)` keeping the part before the separator.
pub open spec fn rsplit_head(s: Seq<char>, t: Seq<char>) -> Option<Seq<char>> {
    match last_occurrence_before(s, t, s.len() as int) {
        Some(i) => Some(s.take(i)),
        None => None,
    }
}

pub proof fn lemma_last_occurrence_bound(s: Seq<char>, t: Seq<char>, n: int)
    ensures
        match last_occurrence_before(s, t, n) {
            Some(i) => 0 <= i < n && crate::text::occurs_at(s, t, i),
            None => true,
        },
    decreases n,
{
    if n > 0 && !crate::text::occurs_at(s, t, n - 1) {
        lemma_last_occurrence_bound(s, t, n - 1);
    }
}

pub proof fn lemma_rsplit_head_shorter(s: Seq<char>, t: Seq<char>)
    ensures
        match rsplit_head(s, t) {
            Some(h) => h.len() < s.len(),
            None => true,
        },
{
    lemma_last_occurrence_bound(s, t, s.len() as int);
}

/// `rsplit_once(t)` on characters, keeping the head.
pub fn rsplit_head_chars(s: &[char], t: &str) -> (r: Option<Vec<char>>)
    ensures
        match r {
            Some(h) => rsplit_head(s@, t@) == Some(h@),
            None => rsplit_head(s@, t@) is None,
        },
{
    let tc = crate::text::chars_of(t);
    let mut n: usize = s.len();
    while n > 0
        invariant
            n <= s.len(),
            tc@ == t@,
            last_occurrence_before(s@, t@, s@.len() as int) == last_occurrence_before(s@, t@, n as int),
        decreases n,
    {
        if crate::text::occurs_at_exec(s, tc.as_slice(), n - 1) {
            return Some(crate::text::slice_range(s, 0, n - 1));
        }
        n -= 1;
    }
    None
}

/// The files of the longest dotted prefix of `q` that `t` lists.
pub open spec fn longest_qualified(t: Seq<KeyedPaths>, q: Seq<char>) -> Option<Seq<RepositoryPath>>
    decreases q.len(),
{
    match lookup_paths(t, q) {
        Some(p) => Some(p),
        None => match rsplit_head(q, "."@) {
            Some(h) => {
                proof {
                    lemma_rsplit_head_shorter(q, "."@);
                }
                longest_qualified(t, h)
            },
            None => None,
        },
    }
}

/// The files of the longest `::` prefix of `m` that unit `unit` declares.
pub open spec fn longest_rust_module(t: Seq<RustModulePaths>, unit: Seq<char>, m: Seq<char>) -> Option<Seq<RepositoryPath>>
    decreases m.len(),
{
    match lookup_rust_module(t, unit, m) {
        Some(p) => Some(p),
        None => match rsplit_head(m, "::"@) {
            Some(h) => {
                proof {
                    lemma_rsplit_head_shorter(m, "::"@);
                }
                longest_rust_module(t, unit, h)
            },
            None => None,
        },
    }
}

/// The entry of `index` for the longest dotted prefix of `qualified`.
pub fn longest_qualified_file_match(index: &[KeyedPaths], qualified: &str) -> (r: Option<usize>)
    ensures
        match r {
            Some(i) => i < index@.len() && longest_qualified(index@, qualified@) == Some(index@[i as int].paths@),
            None => longest_qualified(index@, qualified@) is None,
        },
{
    let mut candidate: Vec<char> = crate::text::chars_of(qualified);
    loop
        invariant
            longest_qualified(index@, qualified@) == longest_qualified(index@, candidate@),
        decreases candidate@.len(),
    {
        let name = crate::text::string_of(candidate.as_slice());
        match find_keyed_paths(index, name.as_str()) {
            Some(i) => {
                return Some(i);
            },
            None => {},
        }
        match rsplit_head_chars(candidate.as_slice(), ".") {
            Some(h) => {
                proof {
                    lemma_rsplit_head_shorter(candidate@, "."@);
                }
                candidate = h;
            },
            None => {
                return None;
            },
        }
    }
}

/// The entry of `index` for the longest `::` prefix of `module` in unit `unit_id`.
pub fn longest_rust_module_match(index: &[RustModulePaths], unit_id: &AnalysisUnitId, module: &str) -> (r: Option<usize>)
    ensures
        match r {
            Some(i) => i < index@.len() && longest_rust_module(index@, unit_id.value@, module@) == Some(index@[i as int].paths@),
            None => longest_rust_module(index@, unit_id.value@, module@) is None,
        },
{
    let mut candidate: Vec<char> = crate::text::chars_of(module);
    loop
        invariant
            longest_rust_module(index@, unit_id.value@, module@) == longest_rust_module(index@, unit_id.value@, candidate@),
        decreases candidate@.len(),
    {
        let name = crate::text::string_of(candidate.as_slice());
        match find_rust_module(index, unit_id, name.as_str()) {
            Some(i) => {
                return Some(i);
            },
            None => {},
        }
        match rsplit_head_chars(candidate.as_slice(), "::") {
            Some(h) => {
                proof {
                    lemma_rsplit_head_shorter(candidate@, "::"@);
                }
                candidate = h;
            },
            None => {
                return None;
            },
        }
    }
}

// ---------------------------------------------------------------------------
// Resolution rules
// ---------------------------------------------------------------------------

pub open spec fn ecmascript_exts() -> Seq<Seq<char>> {
    seq![".ts"@, ".tsx"@, ".mts"@, ".cts"@, ".js"@, ".jsx"@, ".mjs"@, ".cjs"@, ".d.ts"@]
}

/// ECMAScript: the compiler project model decides for the sources it
/// visited; otherwise relative specifiers resolve through the shared
/// TypeScript/JavaScript files, `node:` is external and other bare
/// specifiers lack dependency metadata.
pub open spec fn spec_resolve_ecmascript(
    index: ProjectImportIndex,
    source: Seq<char>,
    language: ProgrammingLanguage,
    specifier: Seq<char>,
) -> ResolutionView {
    match lookup_model_targets(index.project_model_targets@, language, source, specifier) {
        Some(targets) => files_selection(
            path_set(targets).remove(source),
            ResolutionMethod::ProjectModel,
        ),
        None => if path_set(index.project_model_files@).contains(source) {
            if spec_is_relative_specifier(specifier) || (specifier.len() > 0 && (specifier[0]
                == '/' || specifier[0] == '#')) {
                unresolved_view(GapCode::UnresolvedTarget)
            } else {
                ResolutionView::KnownExternal
            }
        } else if spec_is_relative_specifier(specifier) {
            files_selection(
                relative_set(
                    source,
                    specifier,
                    resolution_universe(index, language),
                    ecmascript_exts(),
                    true,
                ).remove(source),
                ResolutionMethod::SyntaxExact,
            )
        } else if is_prefix("node:"@, specifier) {
            ResolutionView::KnownExternal
        } else {
            unresolved_view(GapCode::MissingDependencyMetadata)
        },
    }
}

/// The module names a Python specifier designates from `source`.
pub open spec fn python_module_set(index: ProjectImportIndex, source: Seq<char>, specifier: Seq<char>) -> Set<Seq<char>> {
    if specifier.len() > 0 && specifier[0] == '.' {
        Set::new(
            |x: Seq<char>|
                match lookup_modules(index.python_source_modules@, source) {
                    Some(ms) => exists|i: int|
                        0 <= i < ms.len() && python_relative_name(
                            #[trigger] ms[i]@,
                            is_package_init(source),
                            leading_dots(specifier),
                            relative_suffix(specifier),
                        ) == Some(x),
                    None => false,
                },
        )
    } else {
        set![specifier]
    }
}

/// The files that define any of `names`.
pub open spec fn python_files(index: ProjectImportIndex, names: Set<Seq<char>>) -> Set<Seq<char>> {
    Set::new(
        |p: Seq<char>|
            exists|m: Seq<char>|
                #[trigger] names.contains(m) && match lookup_paths(index.python_modules@, m) {
                    Some(ps) => path_set(ps).contains(p),
                    None => false,
                },
    )
}

/// The packages any of `names` is.
pub open spec fn python_structures(index: ProjectImportIndex, names: Set<Seq<char>>) -> Set<StructureKey> {
    Set::new(
        |t: StructureKey|
            exists|m: Seq<char>|
                #[trigger] names.contains(m) && match lookup_structures(index.python_packages@, m) {
                    Some(ts) => structure_set(ts).contains(t),
                    None => false,
                },
    )
}

/// Python: module files first, then packages.
pub open spec fn spec_resolve_python(index: ProjectImportIndex, source: Seq<char>, specifier: Seq<char>) -> ResolutionView {
    let names = python_module_set(index, source, specifier);
    if names == Set::<Seq<char>>::empty() {
        unresolved_view(GapCode::UnresolvedTarget)
    } else if python_files(index, names) != Set::<Seq<char>>::empty() {
        files_selection(python_files(index, names).remove(source), ResolutionMethod::SyntaxExact)
    } else if python_structures(index, names) != Set::<StructureKey>::empty() {
        structures_selection(python_structures(index, names), ResolutionMethod::SyntaxExact)
    } else if specifier.len() > 0 && specifier[0] == '.' {
        unresolved_view(GapCode::UnresolvedTarget)
    } else {
        unresolved_view(GapCode::MissingDependencyMetadata)
    }
}

/// Java: a wildcard import names a package, another import the longest
/// type prefix; `java` itself is external.
pub open spec fn spec_resolve_java(index: ProjectImportIndex, form: ImportForm, specifier: Seq<char>) -> ResolutionView {
    match form {
        ImportForm::Java { static_import, wildcard } => {
            let fallback = if specifier == "java"@ || is_prefix("java."@, specifier) {
                ResolutionView::KnownExternal
            } else {
                unresolved_view(GapCode::MissingDependencyMetadata)
            };
            if wildcard && !static_import {
                match lookup_structures(index.java_packages@, specifier) {
                    Some(ps) => structures_selection(structure_set(ps), ResolutionMethod::SyntaxExact),
                    None => fallback,
                }
            } else {
                match longest_qualified(index.java_types@, specifier) {
                    Some(ps) => files_selection(path_set(ps), ResolutionMethod::SyntaxExact),
                    None => fallback,
                }
            }
        },
        _ => unresolved_view(GapCode::UnresolvedTarget),
    }
}

/// C#: static and alias directives name a type, others a namespace;
/// `System` is external.
pub open spec fn spec_resolve_csharp(index: ProjectImportIndex, form: ImportForm, specifier: Seq<char>) -> ResolutionView {
    match form {
        ImportForm::CSharp { static_import, alias } => {
            let rest = match lookup_structures(index.csharp_namespaces@, specifier) {
                Some(ns) => structures_selection(structure_set(ns), ResolutionMethod::SyntaxExact),
                None => if specifier == "System"@ || is_prefix("System."@, specifier) {
                    ResolutionView::KnownExternal
                } else {
                    unresolved_view(GapCode::MissingDependencyMetadata)
                },
            };
            if static_import || alias {
                match longest_qualified(index.csharp_types@, specifier) {
                    Some(ps) => files_selection(path_set(ps), ResolutionMethod::SyntaxExact),
                    None => rest,
                }
            } else {
                rest
            }
        },
        _ => unresolved_view(GapCode::UnresolvedTarget),
    }
}

/// C and C++: only a quoted literal include relative to the source resolves;
/// everything else needs the compile command.
pub open spec fn spec_resolve_c_family(
    index: ProjectImportIndex,
    source: Seq<char>,
    language: ProgrammingLanguage,
    form: ImportForm,
    specifier: Seq<char>,
) -> ResolutionView {
    match form {
        ImportForm::CInclude { system, literal } => {
            let targets = relative_set(
                source,
                specifier,
                resolution_universe(index, language),
                Seq::empty(),
                false,
            );
            if !literal {
                unresolved_view(GapCode::MissingCompileContext)
            } else if !system && targets != Set::<Seq<char>>::empty() {
                files_selection(targets.remove(source), ResolutionMethod::SyntaxExact)
            } else {
                unresolved_view(GapCode::MissingCompileContext)
            }
        },
        _ => unresolved_view(GapCode::UnresolvedTarget),
    }
}

/// Go: a module package of the project, or a standard-library path (first
/// element without a dot).
pub open spec fn spec_resolve_go(index: ProjectImportIndex, specifier: Seq<char>) -> ResolutionView {
    match lookup_structures(index.go_packages@, specifier) {
        Some(ps) => structures_selection(structure_set(ps), ResolutionMethod::ProjectModel),
        None => {
            let first = before_sub(specifier, "/"@);
            if first.len() > 0 && !first.contains('.') {
                ResolutionView::KnownExternal
            } else {
                unresolved_view(GapCode::MissingDependencyMetadata)
            }
        },
    }
}

/// The crate a module candidate starts in.
pub open spec fn crate_head(c: Seq<char>) -> Seq<char> {
    before_sub(
        if is_prefix("crate::"@, c) {
            c.skip("crate::"@.len() as int)
        } else {
            c
        },
        "::"@,
    )
}

/// The candidates of a `use` path, in increasing order.
pub open spec fn rust_candidate_seq(specifier: Seq<char>, modules: Seq<Seq<char>>) -> Seq<Seq<char>> {
    choose|s: Seq<Seq<char>>|
        strictly_sorted(s) && forall|x: Seq<char>| s.contains(x) <==> is_rust_candidate(specifier, modules, x)
}

/// The first candidate that names a module of the unit, or a crate of the
/// project, decides.
pub open spec fn rust_use_resolution(
    index: ProjectImportIndex,
    unit: Seq<char>,
    source: Seq<char>,
    cands: Seq<Seq<char>>,
) -> ResolutionView
    decreases cands.len(),
{
    if cands.len() == 0 {
        unresolved_view(GapCode::UnresolvedTarget)
    } else {
        match longest_rust_module(index.rust_modules@, unit, cands[0]) {
            Some(ps) => files_selection(path_set(ps).remove(source), ResolutionMethod::SyntaxExact),
            None => match lookup_paths(index.rust_crates@, crate_head(cands[0])) {
                Some(ps) => files_selection(path_set(ps).remove(source), ResolutionMethod::ProjectModel),
                None => rust_use_resolution(index, unit, source, cands.drop_first()),
            },
        }
    }
}

pub open spec fn source_module_names(t: Seq<SourceModules>, source: Seq<char>) -> Seq<Seq<char>> {
    match lookup_modules(t, source) {
        Some(ms) => string_views(ms),
        None => Seq::empty(),
    }
}

/// Rust: `extern crate` names a crate of the project; `use` paths resolve
/// through the unit's modules, then through crates; the standard crates are
/// external.
pub open spec fn spec_resolve_rust(index: ProjectImportIndex, source: Seq<char>, form: ImportForm, specifier: Seq<char>) -> ResolutionView {
    match form {
        ImportForm::RustExternCrate => if specifier == "std"@ || specifier == "core"@ || specifier
            == "alloc"@ {
            ResolutionView::KnownExternal
        } else {
            match lookup_paths(index.rust_crates@, replace_char(specifier, '-', '_')) {
                Some(ps) => files_selection(path_set(ps).remove(source), ResolutionMethod::ProjectModel),
                None => unresolved_view(GapCode::MissingDependencyMetadata),
            }
        },
        ImportForm::RustUse => if spec_starts_with_rust_standard_crate(specifier) {
            ResolutionView::KnownExternal
        } else {
            match lookup_owner(index.owners@, ProgrammingLanguage::Rust, source) {
                None => unresolved_view(GapCode::UnresolvedTarget),
                Some(unit) => rust_use_resolution(
                    index,
                    unit,
                    source,
                    rust_candidate_seq(
                        specifier,
                        source_module_names(index.rust_source_modules@, source),
                    ),
                ),
            }
        },
        _ => unresolved_view(GapCode::UnresolvedTarget),
    }
}

/// Dart: conditional imports need project metadata; `dart:` is external;
/// `package:` URIs name package files; other URIs are relative.
pub open spec fn spec_resolve_dart(index: ProjectImportIndex, source: Seq<char>, form: ImportForm, specifier: Seq<char>) -> ResolutionView {
    match form {
        ImportForm::DartUri { conditional } => if conditional {
            unresolved_view(GapCode::MissingProjectMetadata)
        } else if is_prefix("dart:"@, specifier) {
            ResolutionView::KnownExternal
        } else if is_prefix("package:"@, specifier) {
            match lookup_paths(index.dart_package_files@, specifier) {
                Some(ps) => files_selection(path_set(ps).remove(source), ResolutionMethod::ProjectModel),
                None => unresolved_view(GapCode::MissingDependencyMetadata),
            }
        } else {
            files_selection(
                relative_set(
                    source,
                    specifier,
                    resolution_universe(index, ProgrammingLanguage::Dart),
                    Seq::empty(),
                    false,
                ).remove(source),
                ResolutionMethod::SyntaxExact,
            )
        },
        _ => unresolved_view(GapCode::UnresolvedTarget),
    }
}

/// The resolution of one site of `source` by its language's rule.
pub open spec fn spec_resolve(index: ProjectImportIndex, source: Seq<char>, language: ProgrammingLanguage, form: ImportForm, specifier: Seq<char>) -> ResolutionView {
    match language {
        ProgrammingLanguage::TypeScript | ProgrammingLanguage::JavaScript => spec_resolve_ecmascript(
            index,
            source,
            language,
            specifier,
        ),
        ProgrammingLanguage::Python => spec_resolve_python(index, source, specifier),
        ProgrammingLanguage::Java => spec_resolve_java(index, form, specifier),
        ProgrammingLanguage::CSharp => spec_resolve_csharp(index, form, specifier),
        ProgrammingLanguage::C | ProgrammingLanguage::Cpp => spec_resolve_c_family(
            index,
            source,
            language,
            form,
            specifier,
        ),
        ProgrammingLanguage::Go => spec_resolve_go(index, specifier),
        ProgrammingLanguage::Rust => spec_resolve_rust(index, source, form, specifier),
        ProgrammingLanguage::Dart => spec_resolve_dart(index, source, form, specifier),
    }
}

// ---------------------------------------------------------------------------
// Resolution
// ---------------------------------------------------------------------------

fn extend_paths(out: &mut Vec<RepositoryPath>, more: &[RepositoryPath])
    ensures
        path_set(final(out)@) == path_set(old(out)@).union(path_set(more@)),
{
    let ghost start = path_set(out@);
    let mut k: usize = 0;
    while k < more.len()
        invariant
            k <= more.len(),
            path_set(out@) == start.union(path_views(more@).take(k as int).to_set()),
        decreases more.len() - k,
    {
        let ghost prev = out@;
        out.push(more[k].duplicate());
        proof {
            assert(path_views(out@) =~= path_views(prev).push(more@[k as int].value@));
            crate::text::lemma_push_to_set(path_views(prev), more@[k as int].value@);
            assert(path_views(more@).take(k + 1) =~= path_views(more@).take(k as int).push(
                more@[k as int].value@,
            ));
            crate::text::lemma_push_to_set(
                path_views(more@).take(k as int),
                more@[k as int].value@,
            );
            assert(path_set(out@) =~= start.union(path_views(more@).take(k + 1).to_set()));
        }
        k += 1;
    }
    assert(path_views(more@).take(more@.len() as int) == path_views(more@));
}

fn extend_structures(out: &mut Vec<StructureTarget>, more: &[StructureTarget])
    ensures
        structure_set(final(out)@) == structure_set(old(out)@).union(structure_set(more@)),
{
    let ghost start = structure_set(out@);
    let mut k: usize = 0;
    while k < more.len()
        invariant
            k <= more.len(),
            structure_set(out@) == start.union(structure_keys(more@).take(k as int).to_set()),
        decreases more.len() - k,
    {
        let ghost prev = out@;
        let ghost key = structure_key(more@[k as int]);
        out.push(duplicate_structure(&more[k]));
        proof {
            assert(structure_keys(out@) =~= structure_keys(prev).push(key));
            crate::text::lemma_push_to_set(structure_keys(prev), key);
            assert(structure_keys(more@).take(k + 1) =~= structure_keys(more@).take(k as int).push(
                key,
            ));
            crate::text::lemma_push_to_set(structure_keys(more@).take(k as int), key);
            assert(structure_set(out@) =~= start.union(structure_keys(more@).take(k + 1).to_set()));
        }
        k += 1;
    }
    assert(structure_keys(more@).take(more@.len() as int) == structure_keys(more@));
}

proof fn lemma_path_set_empty(v: Seq<RepositoryPath>)
    ensures
        (path_set(v) == Set::<Seq<char>>::empty()) <==> v.len() == 0,
{
    if v.len() > 0 {
        assert(path_views(v)[0] == v[0].value@);
        assert(path_set(v).contains(v[0].value@));
    } else {
        assert(path_set(v) =~= Set::<Seq<char>>::empty());
    }
}

proof fn lemma_structure_set_empty(v: Seq<StructureTarget>)
    ensures
        (structure_set(v) == Set::<StructureKey>::empty()) <==> v.len() == 0,
{
    if v.len() > 0 {
        assert(structure_keys(v)[0] == structure_key(v[0]));
        assert(structure_set(v).contains(structure_key(v[0])));
    } else {
        assert(structure_set(v) =~= Set::<StructureKey>::empty());
    }
}

fn crate_head_str(c: &str) -> (r: String)
    ensures
        r@ == crate_head(c@),
{
    let cc = crate::text::chars_of(c);
    let prefix = crate::text::chars_of("crate::");
    let rest = if crate::text::starts_with(cc.as_slice(), "crate::") {
        crate::text::slice_range(cc.as_slice(), prefix.len(), cc.len())
    } else {
        crate::text::slice_range(cc.as_slice(), 0, cc.len())
    };
    assert(cc@.skip(prefix@.len() as int) =~= cc@.subrange(prefix@.len() as int, cc@.len() as int));
    assert(cc@.subrange(0, cc@.len() as int) =~= cc@);
    let head = crate::text::before_sub_chars(rest.as_slice(), "::");
    crate::text::string_of(head.as_slice())
}

impl ProjectImportIndex {
    fn resolve_go(&self, site: &ImportSite) -> (r: ImportResolution)
        ensures
            resolution_view(r) == spec_resolve_go(*self, site.specifier@),
    {
        match find_keyed_structures(self.go_packages.as_slice(), site.specifier.as_str()) {
            Some(i) => select_structures(
                self.go_packages[i].targets.as_slice(),
                ResolutionMethod::ProjectModel,
            ),
            None => {
                let sc = crate::text::chars_of(site.specifier.as_str());
                let first = crate::text::before_sub_chars(sc.as_slice(), "/");
                if first.len() > 0 && !crate::text::contains_char(first.as_slice(), '.') {
                    ImportResolution::KnownExternal
                } else {
                    unresolved(GapCode::MissingDependencyMetadata)
                }
            },
        }
    }

    fn resolve_java(&self, site: &ImportSite) -> (r: ImportResolution)
        ensures
            resolution_view(r) == spec_resolve_java(*self, site.form, site.specifier@),
    {
        match site.form {
            ImportForm::Java { static_import, wildcard } => {
                let spec = site.specifier.as_str();
                if wildcard && !static_import {
                    match find_keyed_structures(self.java_packages.as_slice(), spec) {
                        Some(i) => {
                            return select_structures(
                                self.java_packages[i].targets.as_slice(),
                                ResolutionMethod::SyntaxExact,
                            );
                        },
                        None => {},
                    }
                } else {
                    match longest_qualified_file_match(self.java_types.as_slice(), spec) {
                        Some(i) => {
                            return select_files_without_source(
                                self.java_types[i].paths.as_slice(),
                                ResolutionMethod::SyntaxExact,
                            );
                        },
                        None => {},
                    }
                }
                let sc = crate::text::chars_of(spec);
                if crate::text::str_eq(spec, "java") || crate::text::starts_with(
                    sc.as_slice(),
                    "java.",
                ) {
                    ImportResolution::KnownExternal
                } else {
                    unresolved(GapCode::MissingDependencyMetadata)
                }
            },
            _ => unresolved(GapCode::UnresolvedTarget),
        }
    }

    fn resolve_csharp(&self, site: &ImportSite) -> (r: ImportResolution)
        ensures
            resolution_view(r) == spec_resolve_csharp(*self, site.form, site.specifier@),
    {
        match site.form {
            ImportForm::CSharp { static_import, alias } => {
                let spec = site.specifier.as_str();
                if static_import || alias {
                    match longest_qualified_file_match(self.csharp_types.as_slice(), spec) {
                        Some(i) => {
                            return select_files_without_source(
                                self.csharp_types[i].paths.as_slice(),
                                ResolutionMethod::SyntaxExact,
                            );
                        },
                        None => {},
                    }
                }
                match find_keyed_structures(self.csharp_namespaces.as_slice(), spec) {
                    Some(i) => {
                        return select_structures(
                            self.csharp_namespaces[i].targets.as_slice(),
                            ResolutionMethod::SyntaxExact,
                        );
                    },
                    None => {},
                }
                let sc = crate::text::chars_of(spec);
                if crate::text::str_eq(spec, "System") || crate::text::starts_with(
                    sc.as_slice(),
                    "System.",
                ) {
                    ImportResolution::KnownExternal
                } else {
                    unresolved(GapCode::MissingDependencyMetadata)
                }
            },
            _ => unresolved(GapCode::UnresolvedTarget),
        }
    }

    fn resolve_c_family(&self, source_path: &RepositoryPath, site: &ImportSite) -> (r: ImportResolution)
        ensures
            resolution_view(r) == spec_resolve_c_family(
                *self,
                source_path.value@,
                site.language,
                site.form,
                site.specifier@,
            ),
    {
        match site.form {
            ImportForm::CInclude { system, literal } => {
                if !literal {
                    return unresolved(GapCode::MissingCompileContext);
                }
                if !system {
                    let candidates = self.resolution_files(site.language);
                    let no_extensions: [&str; 0] = [];
                    assert(ext_views(no_extensions@) =~= Seq::<Seq<char>>::empty());
                    let targets = resolve_relative_candidates(
                        source_path,
                        site.specifier.as_str(),
                        candidates.as_slice(),
                        no_extensions.as_slice(),
                        false,
                    );
                    proof {
                        lemma_path_set_empty(targets@);
                    }
                    if targets.len() > 0 {
                        return select_files(
                            source_path,
                            targets.as_slice(),
                            ResolutionMethod::SyntaxExact,
                        );
                    }
                }
                unresolved(GapCode::MissingCompileContext)
            },
            _ => unresolved(GapCode::UnresolvedTarget),
        }
    }

    fn resolve_dart(&self, source_path: &RepositoryPath, site: &ImportSite) -> (r: ImportResolution)
        ensures
            resolution_view(r) == spec_resolve_dart(*self, source_path.value@, site.form, site.specifier@),
    {
        match site.form {
            ImportForm::DartUri { conditional } => {
                if conditional {
                    return unresolved(GapCode::MissingProjectMetadata);
                }
                let spec = site.specifier.as_str();
                let sc = crate::text::chars_of(spec);
                if crate::text::starts_with(sc.as_slice(), "dart:") {
                    return ImportResolution::KnownExternal;
                }
                if crate::text::starts_with(sc.as_slice(), "package:") {
                    return match find_keyed_paths(self.dart_package_files.as_slice(), spec) {
                        Some(i) => select_files(
                            source_path,
                            self.dart_package_files[i].paths.as_slice(),
                            ResolutionMethod::ProjectModel,
                        ),
                        None => unresolved(GapCode::MissingDependencyMetadata),
                    };
                }
                let candidates = self.resolution_files(ProgrammingLanguage::Dart);
                let no_extensions: [&str; 0] = [];
                assert(ext_views(no_extensions@) =~= Seq::<Seq<char>>::empty());
                let targets = resolve_relative_candidates(
                    source_path,
                    spec,
                    candidates.as_slice(),
                    no_extensions.as_slice(),
                    false,
                );
                select_files(source_path, targets.as_slice(), ResolutionMethod::SyntaxExact)
            },
            _ => unresolved(GapCode::UnresolvedTarget),
        }
    }

    fn resolve_ecmascript(&self, source_path: &RepositoryPath, site: &ImportSite) -> (r: ImportResolution)
        ensures
            resolution_view(r) == spec_resolve_ecmascript(
                *self,
                source_path.value@,
                site.language,
                site.specifier@,
            ),
    {
        let spec = site.specifier.as_str();
        match find_model_targets(
            self.project_model_targets.as_slice(),
            site.language,
            source_path,
            spec,
        ) {
            Some(i) => {
                return select_files(
                    source_path,
                    self.project_model_targets[i].targets.as_slice(),
                    ResolutionMethod::ProjectModel,
                );
            },
            None => {},
        }
        let sc = crate::text::chars_of(spec);
        let relative = crate::imports::is_relative_specifier(spec);
        match crate::schedule::find_path(self.project_model_files.as_slice(), source_path.as_str()) {
            Some(k) => {
                assert(path_views(self.project_model_files@)[k as int] == source_path.value@);
                assert(path_set(self.project_model_files@).contains(source_path.value@));
                return if relative || (sc.len() > 0 && (sc[0] == '/' || sc[0] == '#')) {
                    unresolved(GapCode::UnresolvedTarget)
                } else {
                    ImportResolution::KnownExternal
                };
            },
            None => {},
        }
        if relative {
            let candidates = self.resolution_files(site.language);
            let extensions: [&str; 9] = [
                ".ts",
                ".tsx",
                ".mts",
                ".cts",
                ".js",
                ".jsx",
                ".mjs",
                ".cjs",
                ".d.ts",
            ];
            assert(ext_views(extensions@) =~= ecmascript_exts());
            let targets = resolve_relative_candidates(
                source_path,
                spec,
                candidates.as_slice(),
                extensions.as_slice(),
                true,
            );
            return select_files(source_path, targets.as_slice(), ResolutionMethod::SyntaxExact);
        }
        if crate::text::starts_with(sc.as_slice(), "node:") {
            ImportResolution::KnownExternal
        } else {
            unresolved(GapCode::MissingDependencyMetadata)
        }
    }
}

impl ProjectImportIndex {
    fn resolve_python(&self, source_path: &RepositoryPath, site: &ImportSite) -> (r: ImportResolution)
        ensures
            resolution_view(r) == spec_resolve_python(*self, source_path.value@, site.specifier@),
    {
        let spec = site.specifier.as_str();
        let sc = crate::text::chars_of(spec);
        let dotted = sc.len() > 0 && sc[0] == '.';
        let ghost names_set = python_module_set(*self, source_path.value@, spec@);
        let mut module_names: Vec<String> = Vec::new();
        if dotted {
            match find_source_modules(self.python_source_modules.as_slice(), source_path) {
                Some(i) => {
                    module_names = crate::imports::python_relative_module_names(
                        source_path,
                        Some(&self.python_source_modules[i].modules),
                        spec,
                    );
                    let ghost ms = self.python_source_modules@[i as int].modules@;
                    assert(lookup_modules(self.python_source_modules@, source_path.value@) == Some(ms));
                    assert forall|x: Seq<char>| string_views(module_names@).contains(x) <==> names_set.contains(x) by {
                        if string_views(module_names@).contains(x) {
                            let k = choose|k: int|
                                0 <= k < ms.len() && python_relative_name(
                                    #[trigger] ms[k]@,
                                    is_package_init(source_path.value@),
                                    leading_dots(spec@),
                                    relative_suffix(spec@),
                                ) == Some(x);
                            assert(spec@.len() > 0 && spec@[0] == '.');
                            assert(exists|k: int|
                                0 <= k < ms.len() && python_relative_name(
                                    #[trigger] ms[k]@,
                                    is_package_init(source_path.value@),
                                    leading_dots(spec@),
                                    relative_suffix(spec@),
                                ) == Some(x));
                            assert(python_module_set(*self, source_path.value@, spec@).contains(x) <==> (match lookup_modules(self.python_source_modules@, source_path.value@) {
                                Some(ms2) => exists|k: int|
                                    0 <= k < ms2.len() && python_relative_name(
                                        #[trigger] ms2[k]@,
                                        is_package_init(source_path.value@),
                                        leading_dots(spec@),
                                        relative_suffix(spec@),
                                    ) == Some(x),
                                None => false,
                            }));
                            assert(names_set.contains(x));
                        }
                        if names_set.contains(x) {
                            let k = choose|k: int|
                                0 <= k < ms.len() && python_relative_name(
                                    #[trigger] ms[k]@,
                                    is_package_init(source_path.value@),
                                    leading_dots(spec@),
                                    relative_suffix(spec@),
                                ) == Some(x);
                            assert(string_views(module_names@).contains(x));
                        }
                    }
                },
                None => {
                    module_names = crate::imports::python_relative_module_names(source_path, None, spec);
                    assert forall|x: Seq<char>| string_views(module_names@).contains(x) <==> names_set.contains(x) by {
                    }
                },
            }
        } else {
            module_names.push(site.specifier.clone());
            assert(string_views(module_names@) =~= seq![spec@]);
            assert forall|x: Seq<char>| string_views(module_names@).contains(x) <==> names_set.contains(x) by {
                if x == spec@ {
                    assert(string_views(module_names@)[0] == x);
                }
            }
        }
        if module_names.len() == 0 {
            assert(names_set =~= Set::<Seq<char>>::empty());
            return unresolved(GapCode::UnresolvedTarget);
        }
        assert(names_set.contains(module_names@[0]@)) by {
            assert(string_views(module_names@)[0] == module_names@[0]@);
        }
        let mut files: Vec<RepositoryPath> = Vec::new();
        let mut j: usize = 0;
        while j < module_names.len()
            invariant
                j <= module_names.len(),
                forall|p: Seq<char>|
                    path_set(files@).contains(p) <==> exists|k: int|
                        0 <= k < j && match lookup_paths(self.python_modules@, #[trigger] module_names@[k]@) {
                            Some(ps) => path_set(ps).contains(p),
                            None => false,
                        },
            decreases module_names.len() - j,
        {
            let ghost prev = path_set(files@);
            match find_keyed_paths(self.python_modules.as_slice(), module_names[j].as_str()) {
                Some(i) => {
                    extend_paths(&mut files, self.python_modules[i].paths.as_slice());
                },
                None => {},
            }
            proof {
                assert forall|p: Seq<char>|
                    path_set(files@).contains(p) <==> exists|k: int|
                        0 <= k < j + 1 && match lookup_paths(self.python_modules@, #[trigger] module_names@[k]@) {
                            Some(ps) => path_set(ps).contains(p),
                            None => false,
                        } by {
                    if exists|k: int|
                        0 <= k < j + 1 && match lookup_paths(self.python_modules@, #[trigger] module_names@[k]@) {
                            Some(ps) => path_set(ps).contains(p),
                            None => false,
                        } {
                        let k = choose|k: int|
                            0 <= k < j + 1 && match lookup_paths(self.python_modules@, #[trigger] module_names@[k]@) {
                                Some(ps) => path_set(ps).contains(p),
                                None => false,
                            };
                        if k < j {
                            assert(prev.contains(p));
                        }
                    }
                    if path_set(files@).contains(p) && !prev.contains(p) {
                        assert(0 <= j < j + 1);
                    }
                }
            }
            j += 1;
        }
        proof {
            let pf = python_files(*self, names_set);
            assert forall|p: Seq<char>| path_set(files@).contains(p) <==> pf.contains(p) by {
                if path_set(files@).contains(p) {
                    let k = choose|k: int|
                        0 <= k < module_names@.len() && match lookup_paths(self.python_modules@, #[trigger] module_names@[k]@) {
                            Some(ps) => path_set(ps).contains(p),
                            None => false,
                        };
                    assert(string_views(module_names@)[k] == module_names@[k]@);
                    assert(names_set.contains(module_names@[k]@));
                }
                if pf.contains(p) {
                    let m = choose|m: Seq<char>|
                        #[trigger] names_set.contains(m) && match lookup_paths(self.python_modules@, m) {
                            Some(ps) => path_set(ps).contains(p),
                            None => false,
                        };
                    assert(string_views(module_names@).contains(m));
                    let k = choose|k: int| 0 <= k < string_views(module_names@).len() && string_views(module_names@)[k] == m;
                    assert(module_names@[k]@ == m);
                }
            }
            assert(path_set(files@) =~= pf);
            lemma_path_set_empty(files@);
        }
        let files = canonical_paths(files.as_slice());
        proof {
            lemma_path_set_empty(files@);
        }
        if files.len() > 0 {
            return select_files(source_path, files.as_slice(), ResolutionMethod::SyntaxExact);
        }
        let mut structures: Vec<StructureTarget> = Vec::new();
        let mut j: usize = 0;
        while j < module_names.len()
            invariant
                j <= module_names.len(),
                forall|t: StructureKey|
                    structure_set(structures@).contains(t) <==> exists|k: int|
                        0 <= k < j && match lookup_structures(self.python_packages@, #[trigger] module_names@[k]@) {
                            Some(ts) => structure_set(ts).contains(t),
                            None => false,
                        },
            decreases module_names.len() - j,
        {
            let ghost prev = structure_set(structures@);
            match find_keyed_structures(self.python_packages.as_slice(), module_names[j].as_str()) {
                Some(i) => {
                    extend_structures(&mut structures, self.python_packages[i].targets.as_slice());
                },
                None => {},
            }
            proof {
                assert forall|t: StructureKey|
                    structure_set(structures@).contains(t) <==> exists|k: int|
                        0 <= k < j + 1 && match lookup_structures(self.python_packages@, #[trigger] module_names@[k]@) {
                            Some(ts) => structure_set(ts).contains(t),
                            None => false,
                        } by {
                    if exists|k: int|
                        0 <= k < j + 1 && match lookup_structures(self.python_packages@, #[trigger] module_names@[k]@) {
                            Some(ts) => structure_set(ts).contains(t),
                            None => false,
                        } {
                        let k = choose|k: int|
                            0 <= k < j + 1 && match lookup_structures(self.python_packages@, #[trigger] module_names@[k]@) {
                                Some(ts) => structure_set(ts).contains(t),
                                None => false,
                            };
                        if k < j {
                            assert(prev.contains(t));
                        }
                    }
                    if structure_set(structures@).contains(t) && !prev.contains(t) {
                        assert(0 <= j < j + 1);
                    }
                }
            }
            j += 1;
        }
        proof {
            let ps = python_structures(*self, names_set);
            assert forall|t: StructureKey| structure_set(structures@).contains(t) <==> ps.contains(t) by {
                if structure_set(structures@).contains(t) {
                    let k = choose|k: int|
                        0 <= k < module_names@.len() && match lookup_structures(self.python_packages@, #[trigger] module_names@[k]@) {
                            Some(ts) => structure_set(ts).contains(t),
                            None => false,
                        };
                    assert(string_views(module_names@)[k] == module_names@[k]@);
                    assert(names_set.contains(module_names@[k]@));
                }
                if ps.contains(t) {
                    let m = choose|m: Seq<char>|
                        #[trigger] names_set.contains(m) && match lookup_structures(self.python_packages@, m) {
                            Some(ts) => structure_set(ts).contains(t),
                            None => false,
                        };
                    assert(string_views(module_names@).contains(m));
                    let k = choose|k: int| 0 <= k < string_views(module_names@).len() && string_views(module_names@)[k] == m;
                    assert(module_names@[k]@ == m);
                }
            }
            assert(structure_set(structures@) =~= ps);
            lemma_structure_set_empty(structures@);
        }
        if structures.len() > 0 {
            return select_structures(structures.as_slice(), ResolutionMethod::SyntaxExact);
        }
        if dotted {
            unresolved(GapCode::UnresolvedTarget)
        } else {
            unresolved(GapCode::MissingDependencyMetadata)
        }
    }
}

impl ProjectImportIndex {
    fn resolve_rust(&self, source_path: &RepositoryPath, site: &ImportSite) -> (r: ImportResolution)
        ensures
            resolution_view(r) == spec_resolve_rust(*self, source_path.value@, site.form, site.specifier@),
    {
        let spec = site.specifier.as_str();
        match site.form {
            ImportForm::RustExternCrate => {
                if crate::text::str_eq(spec, "std") || crate::text::str_eq(spec, "core")
                    || crate::text::str_eq(spec, "alloc") {
                    return ImportResolution::KnownExternal;
                }
                let name = crate::text::replace_char_str(spec, '-', '_');
                match find_keyed_paths(self.rust_crates.as_slice(), name.as_str()) {
                    Some(i) => select_files(
                        source_path,
                        self.rust_crates[i].paths.as_slice(),
                        ResolutionMethod::ProjectModel,
                    ),
                    None => unresolved(GapCode::MissingDependencyMetadata),
                }
            },
            ImportForm::RustUse => {
                if crate::imports::starts_with_rust_standard_crate(spec) {
                    return ImportResolution::KnownExternal;
                }
                let unit_id = match self.owner(ProgrammingLanguage::Rust, source_path) {
                    None => {
                        return unresolved(GapCode::UnresolvedTarget);
                    },
                    Some(u) => u,
                };
                let no_modules: Vec<String> = Vec::new();
                let found = find_source_modules(self.rust_source_modules.as_slice(), source_path);
                let modules: &[String] = match found {
                    Some(i) => self.rust_source_modules[i].modules.as_slice(),
                    None => no_modules.as_slice(),
                };
                assert(string_views(modules@) == source_module_names(
                    self.rust_source_modules@,
                    source_path.value@,
                )) by {
                    if found.is_none() {
                        assert(string_views(modules@) =~= Seq::<Seq<char>>::empty());
                    }
                }
                let candidates = crate::imports::rust_import_candidates(spec, modules);
                let ghost cands = string_views(candidates@);
                proof {
                    let mods = source_module_names(self.rust_source_modules@, source_path.value@);
                    assert(strictly_sorted(cands) && forall|x: Seq<char>| cands.contains(x) <==> is_rust_candidate(spec@, mods, x));
                    let chosen = rust_candidate_seq(spec@, mods);
                    assert(strictly_sorted(chosen) && forall|x: Seq<char>| chosen.contains(x) <==> is_rust_candidate(spec@, mods, x));
                    crate::text::lemma_strictly_sorted_unique(chosen, cands);
                }
                assert(cands.skip(0) =~= cands);
                let mut k: usize = 0;
                while k < candidates.len()
                    invariant
                        k <= candidates.len(),
                        cands == string_views(candidates@),
                        spec_resolve_rust(*self, source_path.value@, site.form, site.specifier@)
                            == rust_use_resolution(
                            *self,
                            unit_id.value@,
                            source_path.value@,
                            cands,
                        ),
                        rust_use_resolution(*self, unit_id.value@, source_path.value@, cands)
                            == rust_use_resolution(
                            *self,
                            unit_id.value@,
                            source_path.value@,
                            cands.skip(k as int),
                        ),
                    decreases candidates.len() - k,
                {
                    let candidate = candidates[k].as_str();
                    assert(cands.skip(k as int)[0] == candidate@);
                    assert(cands.skip(k as int).drop_first() =~= cands.skip(k + 1));
                    match longest_rust_module_match(self.rust_modules.as_slice(), unit_id, candidate) {
                        Some(i) => {
                            return select_files(
                                source_path,
                                self.rust_modules[i].paths.as_slice(),
                                ResolutionMethod::SyntaxExact,
                            );
                        },
                        None => {},
                    }
                    let head = crate_head_str(candidate);
                    match find_keyed_paths(self.rust_crates.as_slice(), head.as_str()) {
                        Some(i) => {
                            return select_files(
                                source_path,
                                self.rust_crates[i].paths.as_slice(),
                                ResolutionMethod::ProjectModel,
                            );
                        },
                        None => {},
                    }
                    k += 1;
                }
                unresolved(GapCode::UnresolvedTarget)
            },
            _ => unresolved(GapCode::UnresolvedTarget),
        }
    }

    /// Resolves one import site of `source_path` by the rule of its language.
    pub fn resolve(&self, source_path: &RepositoryPath, site: &ImportSite) -> (r: ImportResolution)
        ensures
            resolution_view(r) == spec_resolve(
                *self,
                source_path.value@,
                site.language,
                site.form,
                site.specifier@,
            ),
    {
        match site.language {
            ProgrammingLanguage::TypeScript | ProgrammingLanguage::JavaScript => self.resolve_ecmascript(
                source_path,
                site,
            ),
            ProgrammingLanguage::Python => self.resolve_python(source_path, site),
            ProgrammingLanguage::Java => self.resolve_java(site),
            ProgrammingLanguage::CSharp => self.resolve_csharp(site),
            ProgrammingLanguage::C | ProgrammingLanguage::Cpp => self.resolve_c_family(source_path, site),
            ProgrammingLanguage::Go => self.resolve_go(site),
            ProgrammingLanguage::Rust => self.resolve_rust(source_path, site),
            ProgrammingLanguage::Dart => self.resolve_dart(source_path, site),
        }
    }
}

} // verus!
