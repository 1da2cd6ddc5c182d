//! Naming rules of the provider schedule: execution-scope identities and the
//! reasons a planned file is not sent to a provider.
use vstd::prelude::*;

use crate::model::{ProgrammingLanguage, RepositoryPath};
use crate::text::{ascii_lower, chars_of, ends_with, is_ascii_alnum, is_ascii_alnum_exec, is_suffix, lower_chars, string_of};

verus! {

/// Why a planned file is accounted for without being sent to a provider.
#[derive(Clone, Copy, Debug, PartialEq, Eq, Structural)]
pub enum OmissionReason {
    ProjectModelOnly,
    ProjectConfigExcluded,
}

pub open spec fn spec_omission_reason_name(reason: OmissionReason) -> Seq<char> {
    match reason {
        OmissionReason::ProjectModelOnly => "project-model-only"@,
        OmissionReason::ProjectConfigExcluded => "project-config-excluded"@,
    }
}

impl OmissionReason {
    /// The receipt spelling of the reason.
    pub fn as_str(self) -> (r: &'static str)
        ensures
            r@ == spec_omission_reason_name(self),
    {
        match self {
            OmissionReason::ProjectModelOnly => "project-model-only",
            OmissionReason::ProjectConfigExcluded => "project-config-excluded",
        }
    }
}

/// A character kept in a scope identity: ASCII alphanumeric, `-` or `_`.
pub open spec fn is_scope_char(c: char) -> bool {
    is_ascii_alnum(c) || c == '-' || c == '_'
}

/// Every character outside the scope alphabet becomes `_`.
pub open spec fn spec_sanitize_scope(value: Seq<char>) -> Seq<char> {
    value.map_values(|c: char| if is_scope_char(c) { c } else { '_' })
}

pub fn sanitize_scope(value: &str) -> (r: String)
    ensures
        r@ == spec_sanitize_scope(value@),
{
    let v = chars_of(value);
    let mut out: Vec<char> = Vec::new();
    let mut i: usize = 0;
    while i < v.len()
        invariant
            i <= v.len(),
            out@ == spec_sanitize_scope(v@.take(i as int)),
        decreases v.len() - i,
    {
        let c = v[i];
        if is_ascii_alnum_exec(c) || c == '-' || c == '_' {
            out.push(c);
        } else {
            out.push('_');
        }
        i += 1;
        assert(out@ =~= spec_sanitize_scope(v@.take(i as int)));
    }
    assert(v@.take(v.len() as int) == v@);
    string_of(out.as_slice())
}

/// The scope identity of an analysis-unit root: `root` for the repository
/// root, else the sanitized path.
pub open spec fn spec_root_scope(root: Seq<char>) -> Seq<char> {
    if root.len() == 0 {
        "root"@
    } else {
        spec_sanitize_scope(root)
    }
}

pub fn root_scope(root: &RepositoryPath) -> (r: String)
    ensures
        r@ == spec_root_scope(root.value@),
{
    if root.is_root() {
        crate::text::owned("root")
    } else {
        sanitize_scope(root.as_str())
    }
}

/// Whether a path names a Vue single-file component (case-insensitively).
pub fn is_vue(path: &RepositoryPath) -> (r: bool)
    ensures
        r == is_suffix(".vue"@, ascii_lower(path.value@)),
{
    let v = chars_of(path.as_str());
    let l = lower_chars(v.as_slice());
    ends_with(l.as_slice(), ".vue")
}

} // verus!

verus! {

pub open spec fn spec_digit_char(d: int) -> char {
    if d == 0 {
        '0'
    } else if d == 1 {
        '1'
    } else if d == 2 {
        '2'
    } else if d == 3 {
        '3'
    } else if d == 4 {
        '4'
    } else if d == 5 {
        '5'
    } else if d == 6 {
        '6'
    } else if d == 7 {
        '7'
    } else if d == 8 {
        '8'
    } else {
        '9'
    }
}

/// The decimal spelling of a number, without leading zeros.
pub open spec fn spec_decimal(n: nat) -> Seq<char>
    decreases n,
{
    if n < 10 {
        seq![spec_digit_char(n as int)]
    } else {
        spec_decimal(n / 10).push(spec_digit_char((n % 10) as int))
    }
}

pub(crate) fn digit_char(d: usize) -> (r: char)
    requires
        d < 10,
    ensures
        r == spec_digit_char(d as int),
{
    if d == 0 {
        '0'
    } else if d == 1 {
        '1'
    } else if d == 2 {
        '2'
    } else if d == 3 {
        '3'
    } else if d == 4 {
        '4'
    } else if d == 5 {
        '5'
    } else if d == 6 {
        '6'
    } else if d == 7 {
        '7'
    } else if d == 8 {
        '8'
    } else {
        '9'
    }
}

pub(crate) fn decimal_chars(n: usize) -> (r: Vec<char>)
    ensures
        r@ == spec_decimal(n as nat),
    decreases n,
{
    if n < 10 {
        let mut v: Vec<char> = Vec::new();
        v.push(digit_char(n));
        assert(v@ =~= seq![spec_digit_char(n as int)]);
        v
    } else {
        let mut v = decimal_chars(n / 10);
        v.push(digit_char(n % 10));
        v
    }
}

/// The decimal text of a number.
pub fn decimal_text(n: usize) -> (r: String)
    ensures
        r@ == spec_decimal(n as nat),
{
    let v = decimal_chars(n);
    string_of(v.as_slice())
}

} // verus!

verus! {

/// The most files one Dart provider execution is given.
pub const MAX_DART_FILES_PER_PROVIDER: usize = 512;

/// Where a provider execution takes its project configuration from.
#[derive(Clone, Debug, PartialEq, Eq)]
pub enum ProviderConfig {
    /// A configuration generated for the execution (its file path).
    Generated(String),
    /// A project configuration of the repository (its repository path).
    Project(String),
}

/// One provider execution: the analysis unit it serves, its execution scope,
/// the unit's language and root, and the files it is given.
#[derive(Debug)]
pub struct ScheduledShard {
    pub analysis_unit_id: String,
    pub execution_scope_id: String,
    pub language: ProgrammingLanguage,
    pub root: RepositoryPath,
    pub files: Vec<RepositoryPath>,
    pub provider_config: Option<ProviderConfig>,
    pub project_excluded_files: usize,
}

/// How many shards `n` files fill at `MAX_DART_FILES_PER_PROVIDER` each.
pub open spec fn chunk_count(n: nat) -> nat {
    ((n + 511) / 512) as nat
}

pub open spec fn chunk_end(n: int, k: int) -> int {
    if 512 * k + 512 < n {
        512 * k + 512
    } else {
        n
    }
}

/// Shard `k` of a chunked schedule: the `k`-th run of at most 512 files,
/// scope `{scope}:shard-{k}`, and the unit's project exclusions counted once,
/// on the first shard.
pub open spec fn is_chunk_shard(
    s: ScheduledShard,
    k: int,
    language: ProgrammingLanguage,
    analysis_unit_id: Seq<char>,
    root: RepositoryPath,
    scope: Seq<char>,
    files: Seq<RepositoryPath>,
    project_excluded_files: usize,
) -> bool {
    &&& s.analysis_unit_id@ == analysis_unit_id
    &&& s.execution_scope_id@ == scope + ":shard-"@ + spec_decimal(k as nat)
    &&& s.language == language
    &&& s.root == root
    &&& s.files@ == files.subrange(512 * k, chunk_end(files.len() as int, k))
    &&& s.provider_config is None
    &&& s.project_excluded_files == (if k == 0 {
        project_excluded_files
    } else {
        0
    })
}

pub(crate) fn copy_paths(files: &[RepositoryPath], start: usize, end: usize) -> (r: Vec<RepositoryPath>)
    requires
        start <= end <= files@.len(),
    ensures
        r@ == files@.subrange(start as int, end as int),
{
    let mut out: Vec<RepositoryPath> = Vec::new();
    let mut i: usize = start;
    while i < end
        invariant
            start <= i <= end <= files@.len(),
            out@ == files@.subrange(start as int, i as int),
        decreases end - i,
    {
        out.push(files[i].duplicate());
        i += 1;
        assert(out@ =~= files@.subrange(start as int, i as int));
    }
    out
}

/// Splits a unit's files into runs of at most 512 for the provider; every
/// shard keeps the unit's identity.
pub fn chunked_shards(
    language: ProgrammingLanguage,
    analysis_unit_id: &str,
    root: &RepositoryPath,
    scope: &str,
    files: &[RepositoryPath],
    project_excluded_files: usize,
) -> (r: Vec<ScheduledShard>)
    ensures
        r@.len() == chunk_count(files@.len()),
        forall|k: int|
            0 <= k < r@.len() ==> is_chunk_shard(
                #[trigger] r@[k],
                k,
                language,
                analysis_unit_id@,
                *root,
                scope@,
                files@,
                project_excluded_files,
            ),
        shard_views(r@) == spec_chunked_shards(
            language,
            analysis_unit_id@,
            root.value@,
            scope@,
            path_views(files@),
            project_excluded_files,
        ),
{
    let n = files.len();
    let mut shards: Vec<ScheduledShard> = Vec::new();
    let mut start: usize = 0;
    let mut k: usize = 0;
    while start < n
        invariant
            n == files@.len(),
            start <= n,
            start < n ==> start == 512 * k,
            start < n ==> k < chunk_count(n as nat),
            start >= n ==> k == chunk_count(n as nat),
            shards@.len() == k,
            forall|j: int|
                0 <= j < k ==> is_chunk_shard(
                    #[trigger] shards@[j],
                    j,
                    language,
                    analysis_unit_id@,
                    *root,
                    scope@,
                    files@,
                    project_excluded_files,
                ),
        decreases n - start,
    {
        let end = if n - start > MAX_DART_FILES_PER_PROVIDER {
            start + MAX_DART_FILES_PER_PROVIDER
        } else {
            n
        };
        let name = crate::text::concat(scope, ":shard-");
        let index = decimal_text(k);
        let scope_id = crate::text::concat(name.as_str(), index.as_str());
        let shard = ScheduledShard {
            analysis_unit_id: crate::text::owned(analysis_unit_id),
            execution_scope_id: scope_id,
            language,
            root: root.duplicate(),
            files: copy_paths(files, start, end),
            provider_config: None,
            project_excluded_files: if k == 0 {
                project_excluded_files
            } else {
                0
            },
        };
        proof {
            reveal_strlit(":shard-");
            assert(shard.execution_scope_id@ == scope@ + ":shard-"@ + spec_decimal(k as nat));
            assert(end == chunk_end(n as int, k as int));
        }
        shards.push(shard);
        start = end;
        k += 1;
        proof {
            assert forall|j: int|
                0 <= j < k implies is_chunk_shard(
                    #[trigger] shards@[j],
                    j,
                    language,
                    analysis_unit_id@,
                    *root,
                    scope@,
                    files@,
                    project_excluded_files,
                ) by {
                if j < k - 1 {
                } else {
                    assert(shards@[j] == shard);
                }
            }
            if start < n {
                assert(start == 512 * k);
                assert(512 * k < n);
                assert(k < (n + 511) / 512) by (nonlinear_arith)
                    requires
                        512 * k < n,
                ;
            } else {
                assert(k == (n + 511) / 512) by (nonlinear_arith)
                    requires
                        512 * (k - 1) < n,
                        n <= 512 * k,
                        k >= 1,
                ;
            }
        }
    }
    proof {
        lemma_chunk_views(shards@, language, analysis_unit_id@, *root, scope@, files@, project_excluded_files);
    }
    shards
}

} // verus!

verus! {

/// The sort key of a path character: `/` comes before every other character,
/// so that paths order component by component.
pub open spec fn path_char_key(c: char) -> int {
    if c == '/' {
        0
    } else {
        (c as u32) as int + 1
    }
}

/// Component-wise path order: the first differing character decides, `/`
/// lowest; a proper prefix comes first.
pub open spec fn path_lt(a: Seq<char>, b: Seq<char>) -> bool
    decreases a.len(),
{
    if a.len() == 0 {
        b.len() > 0
    } else if b.len() == 0 {
        false
    } else if a[0] != b[0] {
        path_char_key(a[0]) < path_char_key(b[0])
    } else {
        path_lt(a.drop_first(), b.drop_first())
    }
}

pub proof fn lemma_path_char_key_injective(a: char, b: char)
    ensures
        path_char_key(a) == path_char_key(b) ==> a == b,
{
    if a != '/' && b != '/' && path_char_key(a) == path_char_key(b) {
        assert((a as u32) == (b as u32));
        assert(a == b);
    }
}

pub proof fn lemma_path_lt_irreflexive(a: Seq<char>)
    ensures
        !path_lt(a, a),
    decreases a.len(),
{
    if a.len() > 0 {
        lemma_path_lt_irreflexive(a.drop_first());
    }
}

pub proof fn lemma_path_lt_transitive(a: Seq<char>, b: Seq<char>, c: Seq<char>)
    requires
        path_lt(a, b),
        path_lt(b, c),
    ensures
        path_lt(a, c),
    decreases a.len(),
{
    if a.len() > 0 && b.len() > 0 && c.len() > 0 {
        lemma_path_char_key_injective(a[0], b[0]);
        lemma_path_char_key_injective(b[0], c[0]);
        lemma_path_char_key_injective(a[0], c[0]);
        if a[0] == b[0] && b[0] == c[0] {
            lemma_path_lt_transitive(a.drop_first(), b.drop_first(), c.drop_first());
        }
    }
}

pub proof fn lemma_path_lt_total(a: Seq<char>, b: Seq<char>)
    ensures
        a == b || path_lt(a, b) || path_lt(b, a),
    decreases a.len(),
{
    if a.len() > 0 && b.len() > 0 {
        lemma_path_char_key_injective(a[0], b[0]);
        if a[0] == b[0] {
            lemma_path_lt_total(a.drop_first(), b.drop_first());
            if a.drop_first() == b.drop_first() {
                assert(a.drop_first().len() == b.drop_first().len());
                assert(a.len() == b.len());
                assert forall|k: int| 0 <= k < a.len() implies a[k] == b[k] by {
                    if k > 0 {
                        assert(a[k] == a.drop_first()[k - 1]);
                        assert(b[k] == b.drop_first()[k - 1]);
                    }
                }
                assert(a =~= b);
            }
        }
    } else if a.len() == 0 && b.len() == 0 {
        assert(a =~= b);
    }
}

pub proof fn lemma_path_lt_asymmetric(a: Seq<char>, b: Seq<char>)
    requires
        path_lt(a, b),
    ensures
        !path_lt(b, a),
    decreases a.len(),
{
    if a.len() > 0 && b.len() > 0 && a[0] == b[0] {
        lemma_path_lt_asymmetric(a.drop_first(), b.drop_first());
    }
}

fn path_char_key_exec(c: char) -> (r: u32)
    ensures
        r as int == path_char_key(c),
{
    if c == '/' {
        0
    } else {
        (c as u32) + 1
    }
}

/// Whether `a` comes before `b` in component-wise path order.
pub fn path_before(a: &str, b: &str) -> (r: bool)
    ensures
        r == path_lt(a@, b@),
{
    let av = chars_of(a);
    let bv = chars_of(b);
    let mut i: usize = 0;
    proof {
        assert(av@.skip(0) == av@);
        assert(bv@.skip(0) == bv@);
    }
    while i < av.len() && i < bv.len()
        invariant
            i <= av.len(),
            i <= bv.len(),
            av@ == a@,
            bv@ == b@,
            path_lt(av@, bv@) == path_lt(av@.skip(i as int), bv@.skip(i as int)),
        decreases av.len() - i,
    {
        assert(av@.skip(i as int)[0] == av@[i as int]);
        assert(bv@.skip(i as int)[0] == bv@[i as int]);
        if av[i] != bv[i] {
            return path_char_key_exec(av[i]) < path_char_key_exec(bv[i]);
        }
        assert(av@.skip(i as int).drop_first() == av@.skip(i + 1));
        assert(bv@.skip(i as int).drop_first() == bv@.skip(i + 1));
        i += 1;
    }
    i < bv.len()
}

pub open spec fn path_views(v: Seq<RepositoryPath>) -> Seq<Seq<char>> {
    v.map_values(|p: RepositoryPath| p.value@)
}

/// `v` is in strictly increasing path order.
pub open spec fn paths_sorted(v: Seq<Seq<char>>) -> bool {
    forall|i: int, j: int| 0 <= i < j < v.len() ==> path_lt(#[trigger] v[i], #[trigger] v[j])
}

/// No path occurs twice in `v`.
pub open spec fn paths_distinct(v: Seq<Seq<char>>) -> bool {
    forall|i: int, j: int| 0 <= i < j < v.len() ==> #[trigger] v[i] != #[trigger] v[j]
}

/// Sorts distinct paths into path order.
pub fn sort_paths(v: Vec<RepositoryPath>) -> (r: Vec<RepositoryPath>)
    requires
        paths_distinct(path_views(v@)),
    ensures
        paths_sorted(path_views(r@)),
        r@.to_multiset() == v@.to_multiset(),
        path_views(r@).to_set() == path_views(v@).to_set(),
        r@.len() == v@.len(),
{
    broadcast use vstd::seq_lib::group_to_multiset_ensures;
    let ghost input = v@;
    let mut rest = v;
    let mut out: Vec<RepositoryPath> = Vec::new();
    proof {
        assert(input.skip(0) == input);
    }
    while rest.len() > 0
        invariant
            paths_distinct(path_views(input)),
            rest@ == input.skip(input.len() - rest@.len()),
            paths_sorted(path_views(out@)),
            out@.to_multiset() == input.take(input.len() - rest@.len()).to_multiset(),
            out@.len() == input.len() - rest@.len(),
        decreases rest@.len(),
    {
        let ghost done = input.len() - rest@.len();
        assert(rest@[0] == input[done]);
        let x = rest.remove(0);
        assert(rest@ =~= input.skip(done + 1));
        let mut p: usize = 0;
        while p < out.len() && path_before(out[p].as_str(), x.as_str())
            invariant
                p <= out.len(),
                forall|k: int| 0 <= k < p ==> path_lt(#[trigger] path_views(out@)[k], x.value@),
            decreases out.len() - p,
        {
            p += 1;
        }
        let ghost before = out@;
        out.insert(p, x);
        proof {
            let pv = path_views(before);
            let nv = path_views(out@);
            assert(nv =~= pv.insert(p as int, x.value@));
            // `x` differs from every path already placed.
            assert forall|k: int| 0 <= k < pv.len() implies #[trigger] pv[k] != x.value@ by {
                assert(before.contains(before[k]));
                vstd::seq_lib::to_multiset_contains(before, before[k]);
                vstd::seq_lib::to_multiset_contains(input.take(done), before[k]);
                assert(input.take(done).contains(before[k]));
                let m2 = choose|m2: int| 0 <= m2 < done && input.take(done)[m2] == before[k];
                assert(path_views(input)[m2] == pv[k]);
                assert(path_views(input)[done] == x.value@);
            }
            if p < pv.len() {
                lemma_path_lt_total(pv[p as int], x.value@);
            }
            assert forall|a: int, b: int| 0 <= a < b < nv.len() implies path_lt(
                #[trigger] nv[a],
                #[trigger] nv[b],
            ) by {
                if a < p && b == p {
                } else if a < p && b > p {
                    assert(nv[b] == pv[b - 1]);
                    if b - 1 > a {
                    }
                } else if a == p && b > p {
                    assert(nv[b] == pv[b - 1]);
                    if b - 1 > p {
                        lemma_path_lt_transitive(x.value@, pv[p as int], pv[b - 1]);
                    }
                } else if a > p {
                    assert(nv[a] == pv[a - 1]);
                    assert(nv[b] == pv[b - 1]);
                }
            }
            vstd::seq_lib::to_multiset_insert(before, p as int, x);
            assert(input.take(done + 1) =~= input.take(done).push(input[done]));
            vstd::seq_lib::to_multiset_build(input.take(done), input[done]);
        }
    }
    proof {
        assert(input.take(input.len() as int) == input);
        assert forall|s: Seq<char>| path_views(out@).to_set().contains(s) implies path_views(
            input,
        ).to_set().contains(s) by {
            let k = choose|k: int| 0 <= k < path_views(out@).len() && path_views(out@)[k] == s;
            assert(out@.contains(out@[k]));
            vstd::seq_lib::to_multiset_contains(out@, out@[k]);
            vstd::seq_lib::to_multiset_contains(input, out@[k]);
            assert(input.contains(out@[k]));
            let m = choose|m: int| 0 <= m < input.len() && input[m] == out@[k];
            assert(path_views(input)[m] == s);
        }
        assert forall|s: Seq<char>| path_views(input).to_set().contains(s) implies path_views(
            out@,
        ).to_set().contains(s) by {
            let k = choose|k: int| 0 <= k < path_views(input).len() && path_views(input)[k] == s;
            assert(input.contains(input[k]));
            vstd::seq_lib::to_multiset_contains(input, input[k]);
            vstd::seq_lib::to_multiset_contains(out@, input[k]);
            assert(out@.contains(input[k]));
            let m = choose|m: int| 0 <= m < out@.len() && out@[m] == input[k];
            assert(path_views(out@)[m] == s);
        }
        assert(path_views(out@).to_set() =~= path_views(input).to_set());
    }
    out
}

} // verus!

verus! {

/// A TypeScript/JavaScript project of the project model: its identity, its
/// configuration files, the files it compiles, and whether it was made up to
/// hold files no configuration claims.
#[derive(Debug)]
pub struct ProjectModelUnit {
    pub id: String,
    pub config: Option<String>,
    pub base_config: Option<String>,
    pub files: Vec<String>,
    pub allow_js: bool,
    pub synthetic: bool,
    pub generated_config: Option<String>,
}

/// How many times `c` occurs in `s`.
pub open spec fn count_char(s: Seq<char>, c: char) -> nat
    decreases s.len(),
{
    if s.len() == 0 {
        0
    } else {
        count_char(s.drop_last(), c) + if s.last() == c {
            1nat
        } else {
            0nat
        }
    }
}

/// How deep a project's configuration file lies (`/`s in its path).
pub open spec fn config_depth(u: ProjectModelUnit) -> nat {
    match u.config {
        Some(c) => count_char(c@, '/'),
        None => match u.base_config {
            Some(b) => count_char(b@, '/'),
            None => 0,
        },
    }
}

/// The project order: real projects before synthetic ones, deeper
/// configurations first, then by identity.
pub open spec fn unit_key_before(a: ProjectModelUnit, b: ProjectModelUnit) -> bool {
    ||| !a.synthetic && b.synthetic
    ||| a.synthetic == b.synthetic && config_depth(a) > config_depth(b)
    ||| a.synthetic == b.synthetic && config_depth(a) == config_depth(b) && crate::text::seq_lt(
        a.id@,
        b.id@,
    )
}

pub open spec fn unit_key_same(a: ProjectModelUnit, b: ProjectModelUnit) -> bool {
    a.synthetic == b.synthetic && config_depth(a) == config_depth(b) && a.id@ == b.id@
}

/// The stable project order on unit positions.
pub open spec fn index_before(units: Seq<ProjectModelUnit>, i: int, j: int) -> bool {
    unit_key_before(units[i], units[j]) || (unit_key_same(units[i], units[j]) && i < j)
}

/// `order` lists every project position once, in stable project order.
pub open spec fn is_unit_order(units: Seq<ProjectModelUnit>, order: Seq<usize>) -> bool {
    &&& order.len() == units.len()
    &&& forall|k: int| 0 <= k < order.len() ==> #[trigger] order[k] < units.len()
    &&& forall|a: int, b: int|
        0 <= a < b < order.len() ==> index_before(units, #[trigger] order[a] as int, #[trigger] order[b] as int)
    &&& forall|i: int| 0 <= i < units.len() ==> #[trigger] order.contains(i as usize)
}

pub proof fn lemma_unit_key_before_transitive(a: ProjectModelUnit, b: ProjectModelUnit, c: ProjectModelUnit)
    requires
        unit_key_before(a, b),
        unit_key_before(b, c),
    ensures
        unit_key_before(a, c),
{
    if a.synthetic == b.synthetic && b.synthetic == c.synthetic && config_depth(a) == config_depth(b)
        && config_depth(b) == config_depth(c) {
        crate::text::lemma_seq_lt_transitive(a.id@, b.id@, c.id@);
    }
}

pub proof fn lemma_index_before_transitive(units: Seq<ProjectModelUnit>, i: int, j: int, k: int)
    requires
        index_before(units, i, j),
        index_before(units, j, k),
    ensures
        index_before(units, i, k),
{
    if unit_key_before(units[i], units[j]) && unit_key_before(units[j], units[k]) {
        lemma_unit_key_before_transitive(units[i], units[j], units[k]);
    }
}

pub proof fn lemma_index_before_irreflexive(units: Seq<ProjectModelUnit>, i: int)
    ensures
        !index_before(units, i, i),
{
    crate::text::lemma_seq_lt_irreflexive(units[i].id@);
}

fn count_slashes(s: &str) -> (r: usize)
    ensures
        r == count_char(s@, '/'),
{
    let v = chars_of(s);
    let mut n: usize = 0;
    let mut i: usize = 0;
    while i < v.len()
        invariant
            i <= v.len(),
            v@ == s@,
            n == count_char(v@.take(i as int), '/'),
            n <= i,
        decreases v.len() - i,
    {
        assert(v@.take(i + 1).drop_last() == v@.take(i as int));
        if v[i] == '/' {
            n += 1;
        }
        i += 1;
    }
    assert(v@.take(v.len() as int) == v@);
    n
}

fn config_depth_exec(u: &ProjectModelUnit) -> (r: usize)
    ensures
        r == config_depth(*u),
{
    match &u.config {
        Some(c) => count_slashes(c.as_str()),
        None => match &u.base_config {
            Some(b) => count_slashes(b.as_str()),
            None => 0,
        },
    }
}

fn unit_key_before_exec(a: &ProjectModelUnit, b: &ProjectModelUnit) -> (r: bool)
    ensures
        r == unit_key_before(*a, *b),
{
    if a.synthetic != b.synthetic {
        return !a.synthetic;
    }
    let da = config_depth_exec(a);
    let db = config_depth_exec(b);
    if da != db {
        return da > db;
    }
    let ai = chars_of(a.id.as_str());
    let bi = chars_of(b.id.as_str());
    crate::text::order_chars(ai.as_slice(), bi.as_slice()) == -1
}

/// The order in which projects claim files: a stable sort of their positions
/// by the project order.
pub fn project_unit_order(units: &[ProjectModelUnit]) -> (r: Vec<usize>)
    ensures
        is_unit_order(units@, r@),
{
    let mut order: Vec<usize> = Vec::new();
    let mut i: usize = 0;
    while i < units.len()
        invariant
            i <= units.len(),
            order@.len() == i,
            forall|k: int| 0 <= k < order@.len() ==> #[trigger] order@[k] < i,
            forall|a: int, b: int|
                0 <= a < b < order@.len() ==> index_before(units@, #[trigger] order@[a] as int, #[trigger] order@[b] as int),
            forall|m: int| 0 <= m < i ==> #[trigger] order@.contains(m as usize),
        decreases units.len() - i,
    {
        let mut p: usize = 0;
        while p < order.len() && !unit_key_before_exec(&units[i], &units[order[p]])
            invariant
                p <= order.len(),
                i < units.len(),
                forall|k: int| 0 <= k < order@.len() ==> #[trigger] order@[k] < i,
                forall|k: int| 0 <= k < p ==> index_before(units@, #[trigger] order@[k] as int, i as int),
            decreases order.len() - p,
        {
            proof {
                let x = order@[p as int] as int;
                lemma_unit_key_total(units@[x], units@[i as int]);
            }
            p += 1;
        }
        let ghost before = order@;
        order.insert(p, i);
        proof {
            let nv = order@;
            assert(nv == before.insert(p as int, i));
            assert forall|a: int, b: int| 0 <= a < b < nv.len() implies index_before(
                units@,
                #[trigger] nv[a] as int,
                #[trigger] nv[b] as int,
            ) by {
                if a < p && b == p {
                } else if a < p && b > p {
                    assert(nv[b] == before[b - 1]);
                } else if a == p && b > p {
                    assert(nv[b] == before[b - 1]);
                    if b - 1 > p {
                        lemma_index_before_transitive(
                            units@,
                            i as int,
                            before[p as int] as int,
                            before[b - 1] as int,
                        );
                    }
                } else if a > p {
                    assert(nv[a] == before[a - 1]);
                    assert(nv[b] == before[b - 1]);
                }
            }
            assert forall|m: int| 0 <= m < i + 1 implies #[trigger] nv.contains(m as usize) by {
                if m == i {
                    assert(nv[p as int] == i);
                } else {
                    assert(before.contains(m as usize));
                    let k = choose|k: int| 0 <= k < before.len() && before[k] == m as usize;
                    if k < p {
                        assert(nv[k] == before[k]);
                    } else {
                        assert(nv[k + 1] == before[k]);
                    }
                }
            }
        }
        i += 1;
    }
    order
}

pub proof fn lemma_unit_key_total(a: ProjectModelUnit, b: ProjectModelUnit)
    ensures
        unit_key_before(a, b) || unit_key_before(b, a) || unit_key_same(a, b),
{
    crate::text::lemma_seq_lt_total(a.id@, b.id@);
}

} // verus!

verus! {

/// A path text with `\` separators turned into `/`.
pub open spec fn slashed(s: Seq<char>) -> Seq<char> {
    s.map_values(|c: char| if c == '\\' { '/' } else { c })
}

fn replace_backslashes(s: &str) -> (r: String)
    ensures
        r@ == slashed(s@),
{
    let v = chars_of(s);
    let mut out: Vec<char> = Vec::new();
    let mut i: usize = 0;
    while i < v.len()
        invariant
            i <= v.len(),
            v@ == s@,
            out@ == slashed(v@.take(i as int)),
        decreases v.len() - i,
    {
        if v[i] == '\\' {
            out.push('/');
        } else {
            out.push(v[i]);
        }
        i += 1;
        assert(out@ =~= slashed(v@.take(i as int)));
    }
    assert(v@.take(v.len() as int) == v@);
    string_of(out.as_slice())
}

pub open spec fn path_set(v: Seq<RepositoryPath>) -> Set<Seq<char>> {
    path_views(v).to_set()
}

/// `q` is one of the files a project lists (separators normalized) and a
/// valid repository path.
pub open spec fn project_claims(u: ProjectModelUnit, q: Seq<char>) -> bool {
    &&& crate::model::valid_repository_path(q)
    &&& exists|j: int| 0 <= j < u.files@.len() && slashed(#[trigger] u.files@[j]@) == q
}

/// The still-unclaimed files a project takes.
pub open spec fn claimed_by(u: ProjectModelUnit, remaining: Set<Seq<char>>) -> Set<Seq<char>> {
    remaining.filter(|q: Seq<char>| project_claims(u, q))
}

/// Projects claim files in `order`: each takes what is still unclaimed of its
/// own files. The result lists `(project, claimed files)` for every project
/// that claimed something, and the files no project claimed.
pub open spec fn project_claims_in_order(
    units: Seq<ProjectModelUnit>,
    order: Seq<usize>,
    remaining: Set<Seq<char>>,
) -> (Seq<(int, Set<Seq<char>>)>, Set<Seq<char>>)
    decreases order.len(),
{
    if order.len() == 0 {
        (Seq::empty(), remaining)
    } else {
        let (groups, rest) = project_claims_in_order(units, order.drop_last(), remaining);
        let u = order.last() as int;
        let c = claimed_by(units[u], rest);
        (if c.is_empty() {
            groups
        } else {
            groups.push((u, c))
        }, rest.difference(c))
    }
}

/// The configuration a project's provider execution uses: a generated one
/// when there is one, else the project's own.
pub open spec fn project_provider_config(u: ProjectModelUnit) -> Option<ProviderConfig> {
    match u.generated_config {
        Some(g) => Some(ProviderConfig::Generated(g)),
        None => match u.config {
            Some(c) => Some(ProviderConfig::Project(c)),
            None => None,
        },
    }
}

/// Shard `m` of a TypeScript/JavaScript schedule, for the project `u` and the
/// files it claimed.
pub open spec fn is_project_shard(
    s: ScheduledShard,
    m: int,
    u: ProjectModelUnit,
    claimed: Set<Seq<char>>,
    language: ProgrammingLanguage,
    analysis_unit_id: Seq<char>,
    root: RepositoryPath,
    root_scope: Seq<char>,
    project_excluded_files: usize,
) -> bool {
    &&& s.analysis_unit_id@ == analysis_unit_id
    &&& s.execution_scope_id@ == "tsjs:"@ + root_scope + ":"@ + spec_sanitize_scope(u.id@)
    &&& s.language == language
    &&& s.root == root
    &&& paths_sorted(path_views(s.files@))
    &&& path_set(s.files@) == claimed
    &&& s.provider_config == project_provider_config(u)
    &&& s.project_excluded_files == (if m == 0 {
        project_excluded_files
    } else {
        0
    })
}

/// The last shard of a TypeScript/JavaScript schedule: the files no project
/// claimed.
pub open spec fn is_fallback_shard(
    s: ScheduledShard,
    m: int,
    rest: Set<Seq<char>>,
    language: ProgrammingLanguage,
    analysis_unit_id: Seq<char>,
    root: RepositoryPath,
    root_scope: Seq<char>,
    project_excluded_files: usize,
) -> bool {
    &&& s.analysis_unit_id@ == analysis_unit_id
    &&& s.execution_scope_id@ == "tsjs:"@ + root_scope + ":fallback"@
    &&& s.language == language
    &&& s.root == root
    &&& paths_sorted(path_views(s.files@))
    &&& path_set(s.files@) == rest
    &&& s.provider_config is None
    &&& s.project_excluded_files == (if m == 0 {
        project_excluded_files
    } else {
        0
    })
}

pub(crate) fn find_path(v: &[RepositoryPath], value: &str) -> (r: Option<usize>)
    ensures
        match r {
            Some(k) => k < v@.len() && v@[k as int].value@ == value@,
            None => !path_views(v@).contains(value@),
        },
{
    let mut k: usize = 0;
    while k < v.len()
        invariant
            k <= v.len(),
            forall|m: int| 0 <= m < k ==> #[trigger] path_views(v@)[m] != value@,
        decreases v.len() - k,
    {
        if crate::text::str_eq(v[k].as_str(), value) {
            return Some(k);
        }
        assert(path_views(v@)[k as int] == v@[k as int].value@);
        k += 1;
    }
    None
}

pub proof fn lemma_distinct_remove(v: Seq<RepositoryPath>, k: int)
    requires
        0 <= k < v.len(),
        paths_distinct(path_views(v)),
    ensures
        paths_distinct(path_views(v.remove(k))),
        path_set(v.remove(k)) == path_set(v).remove(v[k].value@),
{
    let w = v.remove(k);
    assert(path_views(w) =~= path_views(v).remove(k));
    let pv = path_views(v);
    let pw = path_views(w);
    assert forall|s: Seq<char>| pw.to_set().contains(s) <==> pv.to_set().remove(v[k].value@).contains(s) by {
        if pw.to_set().contains(s) {
            let i = choose|i: int| 0 <= i < pw.len() && pw[i] == s;
            if i < k {
                assert(pv[i] == s);
                assert(pv[i] != pv[k]);
            } else {
                assert(pv[i + 1] == s);
                assert(pv[k] != pv[i + 1]);
            }
            assert(pv.contains(s));
        }
        if pv.to_set().remove(v[k].value@).contains(s) {
            let i = choose|i: int| 0 <= i < pv.len() && pv[i] == s;
            assert(i != k);
            if i < k {
                assert(pw[i] == s);
            } else {
                assert(pw[i - 1] == s);
            }
        }
    }
    assert(pw.to_set() =~= pv.to_set().remove(v[k].value@));
}

/// The distinct paths of `files`, first occurrences kept.
pub(crate) fn distinct_paths(files: &[RepositoryPath]) -> (r: Vec<RepositoryPath>)
    ensures
        paths_distinct(path_views(r@)),
        path_set(r@) == path_set(files@),
{
    let mut out: Vec<RepositoryPath> = Vec::new();
    let mut i: usize = 0;
    while i < files.len()
        invariant
            i <= files.len(),
            paths_distinct(path_views(out@)),
            path_set(out@) == path_views(files@).take(i as int).to_set(),
        decreases files.len() - i,
    {
        let ghost prev = out@;
        let found = find_path(out.as_slice(), files[i].as_str());
        proof {
            assert(path_views(files@).take(i + 1) == path_views(files@).take(i as int).push(
                files@[i as int].value@,
            ));
            crate::text::lemma_push_to_set(path_views(files@).take(i as int), files@[i as int].value@);
        }
        if found.is_none() {
            out.push(files[i].duplicate());
            proof {
                assert(path_views(out@) =~= path_views(prev).push(files@[i as int].value@));
                crate::text::lemma_push_to_set(path_views(prev), files@[i as int].value@);
            }
        } else {
            proof {
                let k = found->0 as int;
                assert(path_views(prev)[k] == files@[i as int].value@);
                assert(path_views(prev).to_set().contains(files@[i as int].value@));
                assert(path_views(prev).to_set().insert(files@[i as int].value@) =~= path_views(
                    prev,
                ).to_set());
            }
        }
        i += 1;
    }
    assert(path_views(files@).take(files@.len() as int) == path_views(files@));
    out
}

/// Moves the files a project claims out of `remaining`.
fn claim_files(u: &ProjectModelUnit, remaining: &mut Vec<RepositoryPath>) -> (r: Vec<RepositoryPath>)
    requires
        paths_distinct(path_views(old(remaining)@)),
    ensures
        paths_distinct(path_views(final(remaining)@)),
        paths_distinct(path_views(r@)),
        path_set(r@) == claimed_by(*u, path_set(old(remaining)@)),
        path_set(final(remaining)@) == path_set(old(remaining)@).difference(
            claimed_by(*u, path_set(old(remaining)@)),
        ),
{
    let ghost start = path_set(remaining@);
    let mut claimed: Vec<RepositoryPath> = Vec::new();
    let mut j: usize = 0;
    while j < u.files.len()
        invariant
            j <= u.files@.len(),
            paths_distinct(path_views(remaining@)),
            paths_distinct(path_views(claimed@)),
            path_set(claimed@) == start.filter(
                |q: Seq<char>|
                    crate::model::valid_repository_path(q) && exists|m: int|
                        0 <= m < j && slashed(#[trigger] u.files@[m]@) == q,
            ),
            path_set(remaining@) == start.difference(path_set(claimed@)),
        decreases u.files@.len() - j,
    {
        let q = replace_backslashes(u.files[j].as_str());
        let ghost before_claimed = claimed@;
        let ghost before_remaining = remaining@;
        let ghost old_filter = path_set(claimed@);
        match RepositoryPath::parse(q.as_str()) {
            Ok(path) => {
                match find_path(remaining.as_slice(), path.as_str()) {
                    Some(k) => {
                        proof {
                            lemma_distinct_remove(remaining@, k as int);
                        }
                        let taken = remaining.remove(k);
                        proof {
                            assert(!path_set(before_claimed).contains(taken.value@)) by {
                                assert(path_views(before_remaining)[k as int] == taken.value@);
                                assert(path_set(before_remaining).contains(taken.value@));
                            }
                            let pc = path_views(before_claimed);
                            let pn = path_views(before_claimed.push(taken));
                            assert(pn =~= pc.push(taken.value@));
                            assert forall|a: int, b: int| 0 <= a < b < pn.len() implies #[trigger] pn[a]
                                != #[trigger] pn[b] by {
                                if b == pc.len() {
                                    assert(pn[a] == pc[a]);
                                    assert(pc.contains(pc[a]));
                                    assert(pc.to_set().contains(pc[a]));
                                } else {
                                    assert(pn[a] == pc[a] && pn[b] == pc[b]);
                                }
                            }
                        }
                        claimed.push(taken);
                        proof {
                            assert(path_views(claimed@) =~= path_views(before_claimed).push(q@));
                            crate::text::lemma_push_to_set(path_views(before_claimed), q@);
                            assert(path_set(claimed@) =~= start.filter(
                                |x: Seq<char>|
                                    crate::model::valid_repository_path(x) && exists|m: int|
                                        0 <= m < j + 1 && slashed(#[trigger] u.files@[m]@) == x,
                            )) by {
                                assert forall|x: Seq<char>| #[trigger] path_set(claimed@).contains(x) implies start.contains(x) && crate::model::valid_repository_path(x) && exists|m: int|
                                        0 <= m < j + 1 && slashed(#[trigger] u.files@[m]@) == x by {
                                    if x == q@ {
                                        assert(path_views(before_remaining)[k as int] == x);
                                        assert(path_views(before_remaining).contains(x));
                                        assert(path_set(before_remaining).contains(x));
                                        assert(slashed(u.files@[j as int]@) == x);
                                    } else {
                                        assert(path_views(before_claimed).push(q@).to_set().contains(x));
                                        assert(old_filter.contains(x));
                                        let m = choose|m: int| 0 <= m < j && slashed(#[trigger] u.files@[m]@) == x;
                                        assert(slashed(u.files@[m]@) == x);
                                    }
                                }
                                assert forall|x: Seq<char>| start.contains(x) && crate::model::valid_repository_path(x) && (exists|m: int|
                                        0 <= m < j + 1 && slashed(#[trigger] u.files@[m]@) == x) implies #[trigger] path_set(claimed@).contains(x) by {
                                    let m = choose|m: int| 0 <= m < j + 1 && slashed(#[trigger] u.files@[m]@) == x;
                                    if m < j {
                                        assert(old_filter.contains(x));
                                    } else {
                                        assert(x == q@);
                                    }
                                }
                            }
                            assert(path_set(remaining@) =~= start.difference(path_set(claimed@)));
                        }
                    },
                    None => {
                        proof {
                            assert(path_set(claimed@) =~= start.filter(
                                |x: Seq<char>|
                                    crate::model::valid_repository_path(x) && exists|m: int|
                                        0 <= m < j + 1 && slashed(#[trigger] u.files@[m]@) == x,
                            )) by {
                                assert forall|x: Seq<char>| start.contains(x) && crate::model::valid_repository_path(x) && (exists|m: int|
                                        0 <= m < j + 1 && slashed(#[trigger] u.files@[m]@) == x) implies #[trigger] path_set(claimed@).contains(x) by {
                                    let m = choose|m: int| 0 <= m < j + 1 && slashed(#[trigger] u.files@[m]@) == x;
                                    if m == j {
                                        assert(x == q@);
                                        assert(!path_set(remaining@).contains(x));
                                    }
                                }
                            }
                        }
                    },
                }
            },
            Err(_) => {
                proof {
                    assert(path_set(claimed@) =~= start.filter(
                        |x: Seq<char>|
                            crate::model::valid_repository_path(x) && exists|m: int|
                                0 <= m < j + 1 && slashed(#[trigger] u.files@[m]@) == x,
                    )) by {
                        assert forall|x: Seq<char>| start.contains(x) && crate::model::valid_repository_path(x) && (exists|m: int|
                                0 <= m < j + 1 && slashed(#[trigger] u.files@[m]@) == x) implies #[trigger] path_set(claimed@).contains(x) by {
                            let m = choose|m: int| 0 <= m < j + 1 && slashed(#[trigger] u.files@[m]@) == x;
                            if m == j {
                                assert(x == q@);
                            }
                        }
                    }
                }
            },
        }
        j += 1;
    }
    proof {
        assert(path_set(claimed@) =~= claimed_by(*u, start));
    }
    claimed
}

} // verus!

verus! {

fn project_config_exec(u: &ProjectModelUnit) -> (r: Option<ProviderConfig>)
    ensures
        r == project_provider_config(*u),
{
    match &u.generated_config {
        Some(g) => Some(ProviderConfig::Generated(g.clone())),
        None => match &u.config {
            Some(c) => Some(ProviderConfig::Project(c.clone())),
            None => None,
        },
    }
}

/// Splits a TypeScript/JavaScript unit along its projects: projects claim the
/// unit's files in project order, each shard holding the files one project
/// claimed (in path order); files no project claims form a last shard. The
/// unit's project exclusions are counted once, on the first shard.
pub fn typescript_shards(
    language: ProgrammingLanguage,
    analysis_unit_id: &str,
    root: &RepositoryPath,
    root_scope: &str,
    files: &[RepositoryPath],
    project_units: &[ProjectModelUnit],
    project_excluded_files: usize,
) -> (r: Vec<ScheduledShard>)
    ensures
        exists|order: Seq<usize>|
            #![trigger project_claims_in_order(project_units@, order, path_set(files@))]
            {
            &&& is_unit_order(project_units@, order)
            &&& {
                let (groups, rest) = project_claims_in_order(project_units@, order, path_set(files@));
                &&& r@.len() == groups.len() + (if rest.is_empty() {
                    0int
                } else {
                    1int
                })
                &&& forall|m: int|
                    0 <= m < groups.len() ==> is_project_shard(
                        #[trigger] r@[m],
                        m,
                        project_units@[groups[m].0],
                        groups[m].1,
                        language,
                        analysis_unit_id@,
                        *root,
                        root_scope@,
                        project_excluded_files,
                    )
                &&& !rest.is_empty() ==> is_fallback_shard(
                    r@[groups.len() as int],
                    groups.len() as int,
                    rest,
                    language,
                    analysis_unit_id@,
                    *root,
                    root_scope@,
                    project_excluded_files,
                )
            }
        },
        shard_views(r@) == spec_typescript_shards(
            language,
            analysis_unit_id@,
            root.value@,
            root_scope@,
            path_set(files@),
            project_units@,
            project_excluded_files,
        ),
{
    let order = project_unit_order(project_units);
    let mut remaining = distinct_paths(files);
    let ghost start = path_set(files@);
    let mut shards: Vec<ScheduledShard> = Vec::new();
    let prefix = crate::text::concat("tsjs:", root_scope);
    let prefix = crate::text::concat(prefix.as_str(), ":");
    proof {
        reveal_strlit("tsjs:");
        reveal_strlit(":");
    }
    let mut n: usize = 0;
    while n < order.len()
        invariant
            n <= order@.len(),
            is_unit_order(project_units@, order@),
            paths_distinct(path_views(remaining@)),
            prefix@ == "tsjs:"@ + root_scope@ + ":"@,
            ({
                let (groups, rest) = project_claims_in_order(project_units@, order@.take(n as int), start);
                &&& path_set(remaining@) == rest
                &&& shards@.len() == groups.len()
                &&& forall|m: int|
                    0 <= m < groups.len() ==> is_project_shard(
                        #[trigger] shards@[m],
                        m,
                        project_units@[groups[m].0],
                        groups[m].1,
                        language,
                        analysis_unit_id@,
                        *root,
                        root_scope@,
                        project_excluded_files,
                    )
            }),
        decreases order@.len() - n,
    {
        let index = order[n];
        proof {
            assert(order@[n as int] < project_units@.len());
            assert(order@.take(n + 1).drop_last() == order@.take(n as int));
            assert(order@.take(n + 1).last() == index);
        }
        let unit = &project_units[index];
        let ghost rest_before = path_set(remaining@);
        let claimed = claim_files(unit, &mut remaining);
        if claimed.len() > 0 {
            let first_shard = shards.len() == 0;
            let files_sorted = sort_paths(claimed);
            let scope = crate::text::concat(prefix.as_str(), sanitize_scope(unit.id.as_str()).as_str());
            let shard = ScheduledShard {
                analysis_unit_id: crate::text::owned(analysis_unit_id),
                execution_scope_id: scope,
                language,
                root: root.duplicate(),
                files: files_sorted,
                provider_config: project_config_exec(unit),
                project_excluded_files: if first_shard {
                    project_excluded_files
                } else {
                    0
                },
            };
            let ghost old_shards = shards@;
            shards.push(shard);
            proof {
                let (g0, r0) = project_claims_in_order(project_units@, order@.take(n as int), start);
                let c = claimed_by(project_units@[index as int], r0);
                assert(path_set(claimed@) == c);
                assert(!c.is_empty()) by {
                    assert(path_views(claimed@).len() > 0);
                    assert(path_views(claimed@).to_set().contains(path_views(claimed@)[0]));
                }
                assert(shards@.len() == g0.len() + 1);
                let (g1, r1) = project_claims_in_order(project_units@, order@.take(n + 1), start);
                assert(g1 == g0.push((index as int, c)));
                assert forall|m: int| 0 <= m < g1.len() implies is_project_shard(
                    #[trigger] shards@[m],
                    m,
                    project_units@[g1[m].0],
                    g1[m].1,
                    language,
                    analysis_unit_id@,
                    *root,
                    root_scope@,
                    project_excluded_files,
                ) by {
                    if m < g0.len() {
                        assert(shards@[m] == old_shards[m]);
                    } else {
                        assert(shards@[m] == shard);
                    }
                }
            }
        } else {
            proof {
                let (g0, r0) = project_claims_in_order(project_units@, order@.take(n as int), start);
                let c = claimed_by(project_units@[index as int], r0);
                assert(path_set(claimed@) == c);
                assert(c =~= Set::<Seq<char>>::empty()) by {
                    assert(path_views(claimed@) =~= Seq::<Seq<char>>::empty());
                }
                assert(r0.difference(c) =~= r0);
            }
        }
        n += 1;
    }
    proof {
        assert(order@.take(order@.len() as int) == order@);
    }
    if remaining.len() > 0 {
        let ghost rest = path_set(remaining@);
        let first_shard = shards.len() == 0;
        let fallback_files = sort_paths(remaining);
        let scope = crate::text::concat(prefix.as_str(), "fallback");
        proof {
            reveal_strlit("fallback");
            reveal_strlit(":fallback");
            assert(scope@ == "tsjs:"@ + root_scope@ + ":fallback"@);
        }
        let shard = ScheduledShard {
            analysis_unit_id: crate::text::owned(analysis_unit_id),
            execution_scope_id: scope,
            language,
            root: root.duplicate(),
            files: fallback_files,
            provider_config: None,
            project_excluded_files: if first_shard {
                project_excluded_files
            } else {
                0
            },
        };
        let ghost old_shards = shards@;
        shards.push(shard);
        proof {
            let (g, r) = project_claims_in_order(project_units@, order@, start);
            assert(!r.is_empty()) by {
                assert(path_views(shard.files@).len() > 0);
                assert(path_views(shard.files@).to_set().contains(path_views(shard.files@)[0]));
            }
            assert forall|m: int| 0 <= m < g.len() implies is_project_shard(
                #[trigger] shards@[m],
                m,
                project_units@[g[m].0],
                g[m].1,
                language,
                analysis_unit_id@,
                *root,
                root_scope@,
                project_excluded_files,
            ) by {
                assert(shards@[m] == old_shards[m]);
            }
            assert(shards@[g.len() as int] == shard);
        }
    } else {
        proof {
            let (g, r) = project_claims_in_order(project_units@, order@, start);
            assert(r =~= Set::<Seq<char>>::empty()) by {
                assert(path_views(remaining@) =~= Seq::<Seq<char>>::empty());
            }
        }
    }
    proof {
        lemma_typescript_views(
            shards@,
            order@,
            language,
            analysis_unit_id@,
            *root,
            root_scope@,
            start,
            project_units@,
            project_excluded_files,
        );
    }
    shards
}

} // verus!

verus! {

/// Two path lists in strict path order with the same members are equal.
pub proof fn lemma_sorted_paths_unique(a: Seq<Seq<char>>, b: Seq<Seq<char>>)
    requires
        paths_sorted(a),
        paths_sorted(b),
        a.to_set() == b.to_set(),
    ensures
        a == b,
    decreases a.len(),
{
    assert forall|x: Seq<char>| a.contains(x) <==> b.contains(x) by {
        assert(a.contains(x) <==> a.to_set().contains(x));
        assert(b.contains(x) <==> b.to_set().contains(x));
    }
    if a.len() == 0 {
        if b.len() > 0 {
            assert(b.contains(b[0]));
        }
        assert(a =~= b);
    } else if b.len() == 0 {
        assert(a.contains(a[0]));
    } else {
        assert(a.contains(b[0]));
        assert(b.contains(a[0]));
        let i = choose|i: int| 0 <= i < a.len() && a[i] == b[0];
        let j = choose|j: int| 0 <= j < b.len() && b[j] == a[0];
        if a[0] != b[0] {
            if i > 0 && j > 0 {
                assert(path_lt(a[0], a[i]));
                assert(path_lt(b[0], b[j]));
                lemma_path_lt_asymmetric(a[0], b[0]);
            }
        }
        let ta = a.drop_first();
        let tb = b.drop_first();
        assert forall|x: Seq<char>| ta.to_set().contains(x) <==> tb.to_set().contains(x) by {
            if ta.contains(x) {
                let k = choose|k: int| 0 <= k < ta.len() && ta[k] == x;
                assert(a[k + 1] == x);
                assert(path_lt(a[0], x));
                lemma_path_lt_irreflexive(x);
                assert(b.contains(x));
                let m = choose|m: int| 0 <= m < b.len() && b[m] == x;
                assert(tb[m - 1] == x);
            }
            if tb.contains(x) {
                let k = choose|k: int| 0 <= k < tb.len() && tb[k] == x;
                assert(b[k + 1] == x);
                assert(path_lt(b[0], x));
                lemma_path_lt_irreflexive(x);
                assert(a.contains(x));
                let m = choose|m: int| 0 <= m < a.len() && a[m] == x;
                assert(ta[m - 1] == x);
            }
        }
        assert(ta.to_set() =~= tb.to_set());
        assert(paths_sorted(ta)) by {
            assert forall|p: int, q: int| 0 <= p < q < ta.len() implies path_lt(
                #[trigger] ta[p],
                #[trigger] ta[q],
            ) by {
                assert(ta[p] == a[p + 1] && ta[q] == a[q + 1]);
            }
        }
        assert(paths_sorted(tb)) by {
            assert forall|p: int, q: int| 0 <= p < q < tb.len() implies path_lt(
                #[trigger] tb[p],
                #[trigger] tb[q],
            ) by {
                assert(tb[p] == b[p + 1] && tb[q] == b[q + 1]);
            }
        }
        lemma_sorted_paths_unique(ta, tb);
        assert(a =~= seq![a[0]] + ta);
        assert(b =~= seq![b[0]] + tb);
    }
}

pub proof fn lemma_index_before_asymmetric(units: Seq<ProjectModelUnit>, i: int, j: int)
    requires
        index_before(units, i, j),
    ensures
        !index_before(units, j, i),
{
    crate::text::lemma_seq_lt_irreflexive(units[i].id@);
    if crate::text::seq_lt(units[i].id@, units[j].id@) {
        crate::text::lemma_seq_lt_asymmetric(units[i].id@, units[j].id@);
    }
    if crate::text::seq_lt(units[j].id@, units[i].id@) {
        crate::text::lemma_seq_lt_asymmetric(units[j].id@, units[i].id@);
    }
}

/// Position lists strictly sorted by the project order with the same members
/// are equal.
proof fn lemma_index_sorted_unique(units: Seq<ProjectModelUnit>, a: Seq<usize>, b: Seq<usize>)
    requires
        forall|p: int, q: int|
            0 <= p < q < a.len() ==> index_before(units, #[trigger] a[p] as int, #[trigger] a[q] as int),
        forall|p: int, q: int|
            0 <= p < q < b.len() ==> index_before(units, #[trigger] b[p] as int, #[trigger] b[q] as int),
        forall|x: usize| a.contains(x) <==> b.contains(x),
    ensures
        a == b,
    decreases a.len(),
{
    if a.len() == 0 {
        if b.len() > 0 {
            assert(b.contains(b[0]));
        }
        assert(a =~= b);
    } else if b.len() == 0 {
        assert(a.contains(a[0]));
    } else {
        assert(a.contains(b[0]));
        assert(b.contains(a[0]));
        let i = choose|i: int| 0 <= i < a.len() && a[i] == b[0];
        let j = choose|j: int| 0 <= j < b.len() && b[j] == a[0];
        if a[0] != b[0] {
            if i > 0 && j > 0 {
                assert(index_before(units, a[0] as int, a[i] as int));
                assert(index_before(units, b[0] as int, b[j] as int));
                lemma_index_before_asymmetric(units, a[0] as int, b[0] as int);
            }
        }
        let ta = a.drop_first();
        let tb = b.drop_first();
        assert forall|x: usize| ta.contains(x) <==> tb.contains(x) by {
            if ta.contains(x) {
                let k = choose|k: int| 0 <= k < ta.len() && ta[k] == x;
                assert(a[k + 1] == x);
                assert(index_before(units, a[0] as int, x as int));
                lemma_index_before_irreflexive(units, x as int);
                assert(b.contains(x));
                let m = choose|m: int| 0 <= m < b.len() && b[m] == x;
                assert(tb[m - 1] == x);
            }
            if tb.contains(x) {
                let k = choose|k: int| 0 <= k < tb.len() && tb[k] == x;
                assert(b[k + 1] == x);
                assert(index_before(units, b[0] as int, x as int));
                lemma_index_before_irreflexive(units, x as int);
                assert(a.contains(x));
                let m = choose|m: int| 0 <= m < a.len() && a[m] == x;
                assert(ta[m - 1] == x);
            }
        }
        assert forall|p: int, q: int| 0 <= p < q < ta.len() implies index_before(
            units,
            #[trigger] ta[p] as int,
            #[trigger] ta[q] as int,
        ) by {
            assert(ta[p] == a[p + 1] && ta[q] == a[q + 1]);
        }
        assert forall|p: int, q: int| 0 <= p < q < tb.len() implies index_before(
            units,
            #[trigger] tb[p] as int,
            #[trigger] tb[q] as int,
        ) by {
            assert(tb[p] == b[p + 1] && tb[q] == b[q + 1]);
        }
        lemma_index_sorted_unique(units, ta, tb);
        assert(a =~= seq![a[0]] + ta);
        assert(b =~= seq![b[0]] + tb);
    }
}

/// The project order of a list of projects is unique.
pub proof fn lemma_unit_order_unique(units: Seq<ProjectModelUnit>, a: Seq<usize>, b: Seq<usize>)
    requires
        is_unit_order(units, a),
        is_unit_order(units, b),
    ensures
        a == b,
{
    assert forall|x: usize| a.contains(x) <==> b.contains(x) by {
        if a.contains(x) {
            let k = choose|k: int| 0 <= k < a.len() && a[k] == x;
            assert(a[k] < units.len());
            assert(b.contains((x as int) as usize));
        }
        if b.contains(x) {
            let k = choose|k: int| 0 <= k < b.len() && b[k] == x;
            assert(b[k] < units.len());
            assert(a.contains((x as int) as usize));
        }
    }
    lemma_index_sorted_unique(units, a, b);
}

} // verus!

verus! {

/// What a shard holds, as plain values: unit identity, scope identity,
/// language, root, files, configuration and counted project exclusions.
pub type ShardView = (
    Seq<char>,
    Seq<char>,
    ProgrammingLanguage,
    Seq<char>,
    Seq<Seq<char>>,
    Option<ProviderConfig>,
    usize,
);

pub open spec fn shard_view(s: ScheduledShard) -> ShardView {
    (
        s.analysis_unit_id@,
        s.execution_scope_id@,
        s.language,
        s.root.value@,
        path_views(s.files@),
        s.provider_config,
        s.project_excluded_files,
    )
}

pub open spec fn shard_views(v: Seq<ScheduledShard>) -> Seq<ShardView> {
    v.map_values(|s: ScheduledShard| shard_view(s))
}

/// The project order (see `is_unit_order`, which has one solution).
pub open spec fn unit_order_of(units: Seq<ProjectModelUnit>) -> Seq<usize> {
    choose|o: Seq<usize>| is_unit_order(units, o)
}

/// The members of a path set in path order.
pub open spec fn sorted_paths_of(s: Set<Seq<char>>) -> Seq<Seq<char>> {
    choose|v: Seq<Seq<char>>| paths_sorted(v) && v.to_set() == s
}

/// The shards of a chunked unit.
pub open spec fn spec_chunked_shards(
    language: ProgrammingLanguage,
    unit_id: Seq<char>,
    root: Seq<char>,
    scope: Seq<char>,
    files: Seq<Seq<char>>,
    excluded: usize,
) -> Seq<ShardView> {
    Seq::new(
        chunk_count(files.len()),
        |k: int|
            (
                unit_id,
                scope + ":shard-"@ + spec_decimal(k as nat),
                language,
                root,
                files.subrange(512 * k, chunk_end(files.len() as int, k)),
                None,
                if k == 0 {
                    excluded
                } else {
                    0usize
                },
            ),
    )
}

/// The shards of a TypeScript/JavaScript unit.
pub open spec fn spec_typescript_shards(
    language: ProgrammingLanguage,
    unit_id: Seq<char>,
    root: Seq<char>,
    root_scope: Seq<char>,
    files: Set<Seq<char>>,
    units: Seq<ProjectModelUnit>,
    excluded: usize,
) -> Seq<ShardView> {
    let (groups, rest) = project_claims_in_order(units, unit_order_of(units), files);
    let projects = Seq::new(
        groups.len(),
        |m: int|
            (
                unit_id,
                "tsjs:"@ + root_scope + ":"@ + spec_sanitize_scope(units[groups[m].0].id@),
                language,
                root,
                sorted_paths_of(groups[m].1),
                project_provider_config(units[groups[m].0]),
                if m == 0 {
                    excluded
                } else {
                    0usize
                },
            ),
    );
    if rest.is_empty() {
        projects
    } else {
        projects.push(
            (
                unit_id,
                "tsjs:"@ + root_scope + ":fallback"@,
                language,
                root,
                sorted_paths_of(rest),
                None,
                if groups.len() == 0 {
                    excluded
                } else {
                    0usize
                },
            ),
        )
    }
}

proof fn lemma_sorted_paths_of(v: Seq<Seq<char>>, s: Set<Seq<char>>)
    requires
        paths_sorted(v),
        v.to_set() == s,
    ensures
        sorted_paths_of(s) == v,
{
    assert(exists|w: Seq<Seq<char>>| paths_sorted(w) && w.to_set() == s);
    lemma_sorted_paths_unique(v, sorted_paths_of(s));
}

proof fn lemma_chunk_views(
    r: Seq<ScheduledShard>,
    language: ProgrammingLanguage,
    unit_id: Seq<char>,
    root: RepositoryPath,
    scope: Seq<char>,
    files: Seq<RepositoryPath>,
    excluded: usize,
)
    requires
        r.len() == chunk_count(files.len()),
        forall|k: int|
            0 <= k < r.len() ==> is_chunk_shard(#[trigger] r[k], k, language, unit_id, root, scope, files, excluded),
    ensures
        shard_views(r) == spec_chunked_shards(language, unit_id, root.value@, scope, path_views(files), excluded),
{
    let spec_v = spec_chunked_shards(language, unit_id, root.value@, scope, path_views(files), excluded);
    assert forall|k: int| 0 <= k < r.len() implies #[trigger] shard_views(r)[k] == spec_v[k] by {
        assert(is_chunk_shard(r[k], k, language, unit_id, root, scope, files, excluded));
        assert(path_views(r[k].files@) =~= path_views(files).subrange(
            512 * k,
            chunk_end(files.len() as int, k),
        ));
    }
    assert(shard_views(r) =~= spec_v);
}

proof fn lemma_typescript_views(
    r: Seq<ScheduledShard>,
    order: Seq<usize>,
    language: ProgrammingLanguage,
    unit_id: Seq<char>,
    root: RepositoryPath,
    root_scope: Seq<char>,
    files: Set<Seq<char>>,
    units: Seq<ProjectModelUnit>,
    excluded: usize,
)
    requires
        is_unit_order(units, order),
        ({
            let (groups, rest) = project_claims_in_order(units, order, files);
            &&& r.len() == groups.len() + (if rest.is_empty() {
                0int
            } else {
                1int
            })
            &&& forall|m: int|
                0 <= m < groups.len() ==> is_project_shard(
                    #[trigger] r[m],
                    m,
                    units[groups[m].0],
                    groups[m].1,
                    language,
                    unit_id,
                    root,
                    root_scope,
                    excluded,
                )
            &&& !rest.is_empty() ==> is_fallback_shard(
                r[groups.len() as int],
                groups.len() as int,
                rest,
                language,
                unit_id,
                root,
                root_scope,
                excluded,
            )
        }),
    ensures
        shard_views(r) == spec_typescript_shards(language, unit_id, root.value@, root_scope, files, units, excluded),
{
    assert(exists|o: Seq<usize>| is_unit_order(units, o));
    lemma_unit_order_unique(units, order, unit_order_of(units));
    let (groups, rest) = project_claims_in_order(units, order, files);
    let spec_v = spec_typescript_shards(language, unit_id, root.value@, root_scope, files, units, excluded);
    assert forall|k: int| 0 <= k < r.len() implies #[trigger] shard_views(r)[k] == spec_v[k] by {
        if k < groups.len() {
            assert(is_project_shard(r[k], k, units[groups[k].0], groups[k].1, language, unit_id, root, root_scope, excluded));
            lemma_sorted_paths_of(path_views(r[k].files@), groups[k].1);
        } else {
            lemma_sorted_paths_of(path_views(r[k].files@), rest);
        }
    }
    assert(shard_views(r) =~= spec_v);
}

} // verus!

verus! {

/// Inserting a path absent from a sorted list gives a sorted list of the
/// paths and the new one.
proof fn lemma_sorted_insert(v: Seq<Seq<char>>, x: Seq<char>)
    requires
        paths_sorted(v),
        !v.contains(x),
    ensures
        exists|w: Seq<Seq<char>>| paths_sorted(w) && w.to_set() == v.to_set().insert(x),
    decreases v.len(),
{
    if v.len() == 0 {
        let w = seq![x];
        assert(w.to_set() =~= v.to_set().insert(x)) by {
            assert(w[0] == x);
        }
        assert(paths_sorted(w));
    } else {
        let n = v.len() - 1;
        let l = v[n];
        assert(v.contains(l));
        lemma_path_lt_total(l, x);
        if path_lt(l, x) {
            let w = v.push(x);
            assert forall|i: int, j: int| 0 <= i < j < w.len() implies path_lt(#[trigger] w[i], #[trigger] w[j]) by {
                if j == v.len() {
                    if i < n {
                        lemma_path_lt_transitive(v[i], l, x);
                    }
                } else {
                    assert(w[i] == v[i] && w[j] == v[j]);
                }
            }
            assert(w.to_set() =~= v.to_set().insert(x)) by {
                assert forall|q: Seq<char>| w.contains(q) <==> (v.contains(q) || q == x) by {
                    if w.contains(q) {
                        let k = choose|k: int| 0 <= k < w.len() && w[k] == q;
                        if k < v.len() {
                            assert(v[k] == q);
                        }
                    }
                    if v.contains(q) {
                        let k = choose|k: int| 0 <= k < v.len() && v[k] == q;
                        assert(w[k] == q);
                    }
                    if q == x {
                        assert(w[v.len() as int] == x);
                    }
                }
            }
        } else {
            let d = v.drop_last();
            assert(!d.contains(x)) by {
                if d.contains(x) {
                    let k = choose|k: int| 0 <= k < d.len() && d[k] == x;
                    assert(v[k] == x);
                }
            }
            assert(paths_sorted(d)) by {
                assert forall|i: int, j: int| 0 <= i < j < d.len() implies path_lt(#[trigger] d[i], #[trigger] d[j]) by {
                    assert(d[i] == v[i] && d[j] == v[j]);
                }
            }
            lemma_sorted_insert(d, x);
            let w0 = choose|w: Seq<Seq<char>>| paths_sorted(w) && w.to_set() == d.to_set().insert(x);
            let w = w0.push(l);
            assert forall|i: int| 0 <= i < w0.len() implies path_lt(#[trigger] w0[i], l) by {
                assert(w0.contains(w0[i]));
                assert(w0.to_set().contains(w0[i]));
                if w0[i] != x {
                    assert(d.contains(w0[i]));
                    let k = choose|k: int| 0 <= k < d.len() && d[k] == w0[i];
                    assert(v[k] == d[k]);
                }
            }
            assert forall|i: int, j: int| 0 <= i < j < w.len() implies path_lt(#[trigger] w[i], #[trigger] w[j]) by {
                if j == w0.len() {
                    assert(w[i] == w0[i]);
                } else {
                    assert(w[i] == w0[i] && w[j] == w0[j]);
                }
            }
            assert(w.to_set() =~= v.to_set().insert(x)) by {
                assert forall|q: Seq<char>| w.contains(q) <==> (v.contains(q) || q == x) by {
                    if w.contains(q) {
                        let k = choose|k: int| 0 <= k < w.len() && w[k] == q;
                        if k < w0.len() {
                            assert(w0[k] == q);
                            assert(w0.contains(q));
                            assert(w0.to_set().contains(q));
                            if q != x {
                                assert(d.contains(q));
                                let m = choose|m: int| 0 <= m < d.len() && d[m] == q;
                                assert(v[m] == q);
                            }
                        } else {
                            assert(q == l);
                        }
                    }
                    if v.contains(q) {
                        let k = choose|k: int| 0 <= k < v.len() && v[k] == q;
                        if k < n {
                            assert(d[k] == q);
                            assert(d.contains(q));
                            assert(w0.to_set().contains(q));
                            assert(w0.contains(q));
                            let m = choose|m: int| 0 <= m < w0.len() && w0[m] == q;
                            assert(w[m] == q);
                        } else {
                            assert(w[w0.len() as int] == q);
                        }
                    }
                    if q == x {
                        assert(w0.to_set().contains(x));
                        assert(w0.contains(x));
                        let m = choose|m: int| 0 <= m < w0.len() && w0[m] == x;
                        assert(w[m] == x);
                    }
                }
            }
        }
    }
}

/// Every finite set of paths has its sorted list.
pub proof fn lemma_sorted_paths_of_finite(s: Set<Seq<char>>)
    requires
        s.finite(),
    ensures
        paths_sorted(sorted_paths_of(s)),
        sorted_paths_of(s).to_set() == s,
    decreases s.len(),
{
    if s.len() == 0 {
        vstd::set_lib::lemma_set_empty_equivalency_len(s);
        let w = Seq::<Seq<char>>::empty();
        assert(w.to_set() =~= s);
        assert(paths_sorted(w));
    } else {
        let x = s.choose();
        vstd::set::axiom_set_choose_len(s);
        let r = s.remove(x);
        vstd::set::axiom_set_remove_finite(s, x);
        vstd::set::axiom_set_remove_len(s, x);
        lemma_sorted_paths_of_finite(r);
        let v = sorted_paths_of(r);
        assert(!v.contains(x)) by {
            if v.contains(x) {
                assert(v.to_set().contains(x));
            }
        }
        lemma_sorted_insert(v, x);
        assert(r.insert(x) =~= s);
    }
    assert(exists|w: Seq<Seq<char>>| paths_sorted(w) && w.to_set() == s);
}

/// What projects claim, and what is left, lies within what was there to claim.
pub proof fn lemma_project_claims_within(
    units: Seq<ProjectModelUnit>,
    order: Seq<usize>,
    remaining: Set<Seq<char>>,
)
    ensures
        ({
            let (groups, rest) = project_claims_in_order(units, order, remaining);
            &&& rest.subset_of(remaining)
            &&& forall|m: int| 0 <= m < groups.len() ==> (#[trigger] groups[m]).1.subset_of(remaining)
        }),
    decreases order.len(),
{
    if order.len() > 0 {
        lemma_project_claims_within(units, order.drop_last(), remaining);
        let (groups, rest) = project_claims_in_order(units, order.drop_last(), remaining);
        let u = order.last() as int;
        let c = claimed_by(units[u], rest);
        assert(c.subset_of(rest));
        let g2 = if c.is_empty() { groups } else { groups.push((u, c)) };
        assert forall|m: int| 0 <= m < g2.len() implies (#[trigger] g2[m]).1.subset_of(remaining) by {
            if m < groups.len() {
                assert(g2[m] == groups[m]);
            }
        }
    }
}

} // verus!
