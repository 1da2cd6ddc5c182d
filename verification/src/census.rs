//! Path-name rules of the source census: which files are generated, tests,
//! documentation, deployment, build or configuration files, and which
//! directories the product never descends into.
use vstd::prelude::*;

use crate::model::{ProgrammingLanguage, RepositoryPath, SourceFileKind};
use crate::text::{
    after_last, ascii_lower, chars_eq_str, chars_of, contains_str, contains_sub, ends_with,
    has_where, in_set, is_prefix, is_suffix, lower_chars, rfind_char, slice_range, starts_with,
    string_of,
};

verus! {

/// Whether a lower-cased file name marks generated code.
pub open spec fn spec_is_generated_name(name: Seq<char>) -> bool {
    ||| contains_sub(name, ".generated."@)
    ||| is_suffix(".g.dart"@, name)
    ||| is_suffix(".freezed.dart"@, name)
    ||| is_suffix(".designer.cs"@, name)
    ||| is_suffix(".pb.go"@, name)
    ||| is_suffix(".pb.cc"@, name)
    ||| is_suffix(".pb.h"@, name)
}

pub fn is_generated_name(name: &str) -> (r: bool)
    ensures
        r == spec_is_generated_name(name@),
{
    let n = chars_of(name);
    let n = n.as_slice();
    contains_str(n, ".generated.") || ends_with(n, ".g.dart") || ends_with(n, ".freezed.dart")
        || ends_with(n, ".designer.cs") || ends_with(n, ".pb.go") || ends_with(n, ".pb.cc")
        || ends_with(n, ".pb.h")
}

/// Whether a lower-cased file name carries a test marker.
pub open spec fn spec_is_test_name(name: Seq<char>) -> bool {
    ||| contains_sub(name, ".test."@)
    ||| contains_sub(name, ".spec."@)
    ||| contains_sub(name, "_test."@)
    ||| contains_sub(name, "test_"@)
}

pub fn is_test_name(name: &str) -> (r: bool)
    ensures
        r == spec_is_test_name(name@),
{
    let n = chars_of(name);
    let n = n.as_slice();
    contains_str(n, ".test.") || contains_str(n, ".spec.") || contains_str(n, "_test.")
        || contains_str(n, "test_")
}

pub open spec fn spec_is_documentation(name: Seq<char>, extension: Option<Seq<char>>) -> bool {
    ||| (match extension {
        Some(e) => e == "md"@ || e == "mdx"@ || e == "rst"@ || e == "adoc"@ || e == "txt"@,
        None => false,
    })
    ||| name == "readme"@
    ||| name == "license"@
    ||| name == "notice"@
    ||| name == "authors"@
    ||| name == "changelog"@
}

pub fn is_documentation(name: &str, extension: Option<&str>) -> (r: bool)
    ensures
        r == spec_is_documentation(
            name@,
            match extension {
                Some(e) => Some(e@),
                None => None,
            },
        ),
{
    let by_extension = match extension {
        Some(e) => {
            let e = chars_of(e);
            let e = e.as_slice();
            chars_eq_str(e, "md") || chars_eq_str(e, "mdx") || chars_eq_str(e, "rst")
                || chars_eq_str(e, "adoc") || chars_eq_str(e, "txt")
        },
        None => false,
    };
    let n = chars_of(name);
    let n = n.as_slice();
    by_extension || chars_eq_str(n, "readme") || chars_eq_str(n, "license") || chars_eq_str(
        n,
        "notice",
    ) || chars_eq_str(n, "authors") || chars_eq_str(n, "changelog")
}

pub open spec fn is_deployment_segment(segment: Seq<char>) -> bool {
    segment == ".github"@ || segment == "k8s"@ || segment == "kubernetes"@ || segment
        == "deploy"@ || segment == "deployment"@
}

pub open spec fn spec_is_deployment_file(
    segments: Seq<Seq<char>>,
    name: Seq<char>,
    extension: Option<Seq<char>>,
) -> bool {
    ||| name == "dockerfile"@
    ||| is_prefix("dockerfile."@, name)
    ||| name == "docker-compose.yml"@
    ||| name == "docker-compose.yaml"@
    ||| (match extension {
        Some(e) => e == "tf"@ || e == "tfvars"@,
        None => false,
    })
    ||| (exists|i: int| 0 <= i < segments.len() && #[trigger] is_deployment_segment(segments[i]))
        && (match extension {
        Some(e) => e == "yml"@ || e == "yaml"@ || e == "json"@,
        None => false,
    })
}

pub open spec fn views_of(segments: Seq<&str>) -> Seq<Seq<char>> {
    segments.map_values(|s: &str| s@)
}

pub open spec fn view_of_option(extension: Option<&str>) -> Option<Seq<char>> {
    match extension {
        Some(e) => Some(e@),
        None => None,
    }
}

fn is_deployment_segment_exec(segment: &str) -> (r: bool)
    ensures
        r == is_deployment_segment(segment@),
{
    let s = chars_of(segment);
    let s = s.as_slice();
    chars_eq_str(s, ".github") || chars_eq_str(s, "k8s") || chars_eq_str(s, "kubernetes")
        || chars_eq_str(s, "deploy") || chars_eq_str(s, "deployment")
}

pub fn is_deployment_file(segments: &[&str], name: &str, extension: Option<&str>) -> (r: bool)
    ensures
        r == spec_is_deployment_file(views_of(segments@), name@, view_of_option(extension)),
{
    let n = chars_of(name);
    let n = n.as_slice();
    if chars_eq_str(n, "dockerfile") || starts_with(n, "dockerfile.") || chars_eq_str(
        n,
        "docker-compose.yml",
    ) || chars_eq_str(n, "docker-compose.yaml") {
        return true;
    }
    let (infra, structured) = match extension {
        Some(e) => {
            let e = chars_of(e);
            let e = e.as_slice();
            (
                chars_eq_str(e, "tf") || chars_eq_str(e, "tfvars"),
                chars_eq_str(e, "yml") || chars_eq_str(e, "yaml") || chars_eq_str(e, "json"),
            )
        },
        None => (false, false),
    };
    if infra {
        return true;
    }
    structured && any_deployment_segment(segments)
}

fn any_deployment_segment(segments: &[&str]) -> (r: bool)
    ensures
        r == exists|i: int|
            0 <= i < segments@.len() && #[trigger] is_deployment_segment(views_of(segments@)[i]),
{
    let mut i: usize = 0;
    while i < segments.len()
        invariant
            i <= segments.len(),
            forall|k: int| 0 <= k < i ==> !#[trigger] is_deployment_segment(views_of(segments@)[k]),
        decreases segments.len() - i,
    {
        if is_deployment_segment_exec(segments[i]) {
            assert(is_deployment_segment(views_of(segments@)[i as int]));
            return true;
        }
        i += 1;
    }
    false
}

pub open spec fn spec_is_build_file(name: Seq<char>) -> bool {
    ||| name == "makefile"@
    ||| name == "gnumakefile"@
    ||| name == "justfile"@
    ||| name == "cmakelists.txt"@
    ||| name == "meson.build"@
    ||| name == "meson_options.txt"@
    ||| name == "build"@
    ||| name == "build.bazel"@
    ||| name == "workspace"@
    ||| name == "workspace.bazel"@
    ||| name == "compile_commands.json"@
    ||| name == "compile_flags.txt"@
    ||| name == ".clangd"@
    ||| is_suffix(".gradle"@, name)
    ||| is_suffix(".gradle.kts"@, name)
    ||| is_suffix(".csproj"@, name)
    ||| is_suffix(".sln"@, name)
    ||| is_suffix(".slnx"@, name)
    ||| is_suffix(".vcxproj"@, name)
    ||| is_suffix(".props"@, name)
    ||| is_suffix(".targets"@, name)
}

pub fn is_build_file(name: &str) -> (r: bool)
    ensures
        r == spec_is_build_file(name@),
{
    let n = chars_of(name);
    let n = n.as_slice();
    chars_eq_str(n, "makefile") || chars_eq_str(n, "gnumakefile") || chars_eq_str(n, "justfile")
        || chars_eq_str(n, "cmakelists.txt") || chars_eq_str(n, "meson.build") || chars_eq_str(
        n,
        "meson_options.txt",
    ) || chars_eq_str(n, "build") || chars_eq_str(n, "build.bazel") || chars_eq_str(
        n,
        "workspace",
    ) || chars_eq_str(n, "workspace.bazel") || chars_eq_str(n, "compile_commands.json")
        || chars_eq_str(n, "compile_flags.txt") || chars_eq_str(n, ".clangd") || ends_with(
        n,
        ".gradle",
    ) || ends_with(n, ".gradle.kts") || ends_with(n, ".csproj") || ends_with(n, ".sln")
        || ends_with(n, ".slnx") || ends_with(n, ".vcxproj") || ends_with(n, ".props")
        || ends_with(n, ".targets")
}

/// The configuration files whose exact name marks them as semantic configuration.
pub open spec fn is_named_config(name: Seq<char>) -> bool {
    ||| name == ".gitignore"@
    ||| name == ".ignore"@
    ||| name == "package.json"@
    ||| name == "package-lock.json"@
    ||| name == "pnpm-lock.yaml"@
    ||| name == "yarn.lock"@
    ||| name == "pyproject.toml"@
    ||| name == "pyrightconfig.json"@
    ||| name == "setup.cfg"@
    ||| name == "requirements.txt"@
    ||| name == "pipfile"@
    ||| name == "pipfile.lock"@
    ||| name == "poetry.lock"@
    ||| name == "global.json"@
    ||| name == "nuget.config"@
    ||| name == ".editorconfig"@
    ||| name == "pom.xml"@
    ||| name == "gradle.properties"@
    ||| name == "go.mod"@
    ||| name == "go.sum"@
    ||| name == "go.work"@
    ||| name == "go.work.sum"@
    ||| name == "cargo.toml"@
    ||| name == "cargo.lock"@
    ||| name == "pubspec.yaml"@
    ||| name == "pubspec.lock"@
    ||| name == "analysis_options.yaml"@
    ||| name == "prisma.schema"@
}

pub open spec fn spec_is_semantic_config_file(name: Seq<char>) -> bool {
    ||| is_named_config(name)
    ||| is_prefix("tsconfig"@, name) && is_suffix(".json"@, name)
    ||| is_prefix("jsconfig"@, name) && is_suffix(".json"@, name)
    ||| is_prefix("requirements"@, name) && is_suffix(".txt"@, name)
    ||| is_suffix(".prisma"@, name)
    ||| is_suffix(".ruleset"@, name)
}

fn is_named_config_exec(n: &[char]) -> (r: bool)
    ensures
        r == is_named_config(n@),
{
    chars_eq_str(n, ".gitignore") || chars_eq_str(n, ".ignore") || chars_eq_str(n, "package.json")
        || chars_eq_str(n, "package-lock.json") || chars_eq_str(n, "pnpm-lock.yaml")
        || chars_eq_str(n, "yarn.lock") || chars_eq_str(n, "pyproject.toml") || chars_eq_str(
        n,
        "pyrightconfig.json",
    ) || chars_eq_str(n, "setup.cfg") || chars_eq_str(n, "requirements.txt") || chars_eq_str(
        n,
        "pipfile",
    ) || chars_eq_str(n, "pipfile.lock") || chars_eq_str(n, "poetry.lock") || chars_eq_str(
        n,
        "global.json",
    ) || chars_eq_str(n, "nuget.config") || chars_eq_str(n, ".editorconfig") || chars_eq_str(
        n,
        "pom.xml",
    ) || chars_eq_str(n, "gradle.properties") || chars_eq_str(n, "go.mod") || chars_eq_str(
        n,
        "go.sum",
    ) || chars_eq_str(n, "go.work") || chars_eq_str(n, "go.work.sum") || chars_eq_str(
        n,
        "cargo.toml",
    ) || chars_eq_str(n, "cargo.lock") || chars_eq_str(n, "pubspec.yaml") || chars_eq_str(
        n,
        "pubspec.lock",
    ) || chars_eq_str(n, "analysis_options.yaml") || chars_eq_str(n, "prisma.schema")
}

pub fn is_semantic_config_file(name: &str) -> (r: bool)
    ensures
        r == spec_is_semantic_config_file(name@),
{
    let n = chars_of(name);
    let n = n.as_slice();
    is_named_config_exec(n) || starts_with(n, "tsconfig") && ends_with(n, ".json") || starts_with(
        n,
        "jsconfig",
    ) && ends_with(n, ".json") || starts_with(n, "requirements") && ends_with(n, ".txt")
        || ends_with(n, ".prisma") || ends_with(n, ".ruleset")
}

/// Directories that are never product source: `Some(true)` for dependency
/// trees that are skipped silently, `Some(false)` for tool and output
/// directories that are skipped and recorded, `None` for any other name.
pub open spec fn spec_product_ignored_directory(name: Seq<char>) -> Option<bool> {
    let n = ascii_lower(name);
    if n == "node_modules"@ || n == "vendor"@ || n == "venv"@ || n == ".venv"@ || n
        == ".dart_tool"@ || n == ".gradle"@ {
        Some(true)
    } else if n == ".git"@ || n == ".idea"@ || n == ".vscode"@ || n == ".pytest_cache"@ || n
        == ".ruby-lsp"@ || n == ".storybook"@ || n == ".cache"@ || n == ".code_memory"@ || n
        == "__pycache__"@ || n == "coverage"@ || n == "dist"@ || n == "docs"@ || n == "obj"@
        || n == "out"@ || n == "target"@ || n == "tmp"@ {
        Some(false)
    } else {
        None
    }
}

pub fn product_ignored_directory(name: &str) -> (r: Option<bool>)
    ensures
        r == spec_product_ignored_directory(name@),
{
    let raw = chars_of(name);
    let lowered = lower_chars(raw.as_slice());
    let n = lowered.as_slice();
    if chars_eq_str(n, "node_modules") || chars_eq_str(n, "vendor") || chars_eq_str(n, "venv")
        || chars_eq_str(n, ".venv") || chars_eq_str(n, ".dart_tool") || chars_eq_str(n, ".gradle") {
        return Some(true);
    }
    if chars_eq_str(n, ".git") || chars_eq_str(n, ".idea") || chars_eq_str(n, ".vscode")
        || chars_eq_str(n, ".pytest_cache") || chars_eq_str(n, ".ruby-lsp") || chars_eq_str(
        n,
        ".storybook",
    ) || chars_eq_str(n, ".cache") || chars_eq_str(n, ".code_memory") || chars_eq_str(
        n,
        "__pycache__",
    ) || chars_eq_str(n, "coverage") || chars_eq_str(n, "dist") || chars_eq_str(n, "docs")
        || chars_eq_str(n, "obj") || chars_eq_str(n, "out") || chars_eq_str(n, "target")
        || chars_eq_str(n, "tmp") {
        return Some(false);
    }
    None
}

/// `s.split(sep)`: the pieces of `s` between occurrences of `sep`.
pub open spec fn split_on(s: Seq<char>, sep: char) -> Seq<Seq<char>>
    decreases s.len(),
{
    if s.len() == 0 {
        seq![Seq::<char>::empty()]
    } else {
        let r = split_on(s.drop_last(), sep);
        if s.last() == sep {
            r.push(Seq::<char>::empty())
        } else {
            r.update(r.len() - 1, r.last().push(s.last()))
        }
    }
}

pub proof fn lemma_split_on_nonempty(s: Seq<char>, sep: char)
    ensures
        split_on(s, sep).len() >= 1,
    decreases s.len(),
{
    if s.len() > 0 {
        lemma_split_on_nonempty(s.drop_last(), sep);
    }
}

/// The pieces of `s` between its `sep` characters.
pub fn split_chars(s: &[char], sep: char) -> (r: Vec<String>)
    ensures
        views_of_strings(r@) == split_on(s@, sep),
{
    let mut done: Vec<String> = Vec::new();
    let mut cur: Vec<char> = Vec::new();
    let mut i: usize = 0;
    while i < s.len()
        invariant
            i <= s.len(),
            views_of_strings(done@).push(cur@) == split_on(s@.take(i as int), sep),
        decreases s.len() - i,
    {
        proof {
            assert(s@.take(i + 1).drop_last() == s@.take(i as int));
            lemma_split_on_nonempty(s@.take(i as int), sep);
        }
        if s[i] == sep {
            let piece = string_of(cur.as_slice());
            done.push(piece);
            cur = Vec::new();
            assert(views_of_strings(done@).push(cur@) =~= split_on(s@.take(i + 1), sep));
        } else {
            cur.push(s[i]);
            assert(views_of_strings(done@).push(cur@) =~= split_on(s@.take(i + 1), sep));
        }
        i += 1;
    }
    let last = string_of(cur.as_slice());
    done.push(last);
    assert(s@.take(s.len() as int) == s@);
    assert(views_of_strings(done@) =~= split_on(s@, sep));
    done
}

pub open spec fn views_of_strings(v: Seq<String>) -> Seq<Seq<char>> {
    v.map_values(|s: String| s@)
}

/// The final `/`-separated segment of a path.
pub open spec fn file_name(path: Seq<char>) -> Seq<char> {
    after_last(path, in_set(seq!['/']))
}

/// The part of a file name after its last `.`, when it has one.
pub open spec fn file_extension(name: Seq<char>) -> Option<Seq<char>> {
    if has_where(name, in_set(seq!['.'])) {
        Some(after_last(name, in_set(seq!['.'])))
    } else {
        None
    }
}

/// The characters of `s` after the last `c` (all of `s` when there is none),
/// or `None` for the part after the last `c` when `s` has no `c` and `whole` is false.
fn after_last_char(s: &[char], c: char) -> (r: (Vec<char>, bool))
    ensures
        r.0@ == after_last(s@, in_set(seq![c])),
        r.1 == has_where(s@, in_set(seq![c])),
{
    match rfind_char(s, c) {
        Some(i) => {
            proof {
                let p = in_set(seq![c]);
                crate::text::lemma_in_single(s@[i as int], c);
                assert forall|k: int| i < k < s@.len() implies !#[trigger] p(s@[k]) by {
                    crate::text::lemma_in_single(s@[k], c);
                }
                assert(crate::text::is_last_where(s@, p, i as int));
                crate::text::lemma_last_where_unique(s@, p, i as int);
            }
            assert(i < s.len());
            (slice_range(s, i + 1, s.len()), true)
        },
        None => {
            proof {
                let p = in_set(seq![c]);
                if has_where(s@, p) {
                    let k = choose|k: int| 0 <= k < s@.len() && #[trigger] p(s@[k]);
                    crate::text::lemma_in_single(s@[k], c);
                    assert(s@.contains(c));
                }
            }
            (slice_range(s, 0, s.len()), false)
        },
    }
}

/// The final `sep`-separated segment of `s`.
pub fn last_segment(s: &[char], sep: char) -> (r: Vec<char>)
    ensures
        r@ == after_last(s@, in_set(seq![sep])),
{
    after_last_char(s, sep).0
}

/// Whether a lower-cased file name names a file of secrets that is never read.
pub open spec fn spec_is_sensitive_name(name: Seq<char>) -> bool {
    ||| name == ".env"@
    ||| is_prefix(".env."@, name)
    ||| name == ".npmrc"@
    ||| name == ".pypirc"@
    ||| name == ".netrc"@
    ||| name == "credentials"@
}

pub fn is_sensitive_path(path: &RepositoryPath) -> (r: bool)
    ensures
        r == spec_is_sensitive_name(ascii_lower(file_name(path.value@))),
{
    let p = chars_of(path.as_str());
    let (name, _) = after_last_char(p.as_slice(), '/');
    let lowered = lower_chars(name.as_slice());
    let n = lowered.as_slice();
    chars_eq_str(n, ".env") || starts_with(n, ".env.") || chars_eq_str(n, ".npmrc")
        || chars_eq_str(n, ".pypirc") || chars_eq_str(n, ".netrc") || chars_eq_str(
        n,
        "credentials",
    )
}

/// What the census does with a file.
#[derive(Clone, Copy, Debug, PartialEq, Eq, Structural)]
pub enum FilePolicy {
    Measure,
    Exclude,
    Unsupported,
}

/// The languages, kind and policy of one repository file.
#[derive(Debug)]
pub struct FileClassification {
    pub languages: Vec<ProgrammingLanguage>,
    pub kind: SourceFileKind,
    pub policy: FilePolicy,
}

/// The position of a language in the canonical language order.
pub open spec fn language_rank(language: ProgrammingLanguage) -> int {
    match language {
        ProgrammingLanguage::TypeScript => 0,
        ProgrammingLanguage::JavaScript => 1,
        ProgrammingLanguage::Python => 2,
        ProgrammingLanguage::Java => 3,
        ProgrammingLanguage::CSharp => 4,
        ProgrammingLanguage::C => 5,
        ProgrammingLanguage::Cpp => 6,
        ProgrammingLanguage::Go => 7,
        ProgrammingLanguage::Rust => 8,
        ProgrammingLanguage::Dart => 9,
    }
}

/// `v` is in the canonical language order with no language twice.
pub open spec fn strictly_ranked(v: Seq<ProgrammingLanguage>) -> bool {
    forall|i: int, j: int| 0 <= i < j < v.len() ==> language_rank(v[i]) < language_rank(v[j])
}

/// The languages of `input`, plus TypeScript when `with_typescript`, sorted
/// into the canonical order without duplicates.
pub fn canonical_languages(input: &[ProgrammingLanguage], with_typescript: bool) -> (r: Vec<
    ProgrammingLanguage,
>)
    ensures
        strictly_ranked(r@),
        forall|l: ProgrammingLanguage|
            r@.contains(l) <==> (input@.contains(l) || (with_typescript && l
                == ProgrammingLanguage::TypeScript)),
{
    let all = [
        ProgrammingLanguage::TypeScript,
        ProgrammingLanguage::JavaScript,
        ProgrammingLanguage::Python,
        ProgrammingLanguage::Java,
        ProgrammingLanguage::CSharp,
        ProgrammingLanguage::C,
        ProgrammingLanguage::Cpp,
        ProgrammingLanguage::Go,
        ProgrammingLanguage::Rust,
        ProgrammingLanguage::Dart,
    ];
    let mut r: Vec<ProgrammingLanguage> = Vec::new();
    let mut k: usize = 0;
    while k < 10
        invariant
            k <= 10,
            all@.len() == 10,
            forall|m: int| 0 <= m < 10 ==> language_rank(#[trigger] all@[m]) == m,
            strictly_ranked(r@),
            forall|m: int| 0 <= m < r@.len() ==> language_rank(#[trigger] r@[m]) < k,
            forall|l: ProgrammingLanguage|
                language_rank(l) < k ==> (r@.contains(l) <==> (input@.contains(l) || (
                with_typescript && l == ProgrammingLanguage::TypeScript))),
            forall|l: ProgrammingLanguage| r@.contains(l) ==> language_rank(l) < k,
        decreases 10 - k,
    {
        let l = all[k];
        let mut present = with_typescript && l == ProgrammingLanguage::TypeScript;
        let mut j: usize = 0;
        while j < input.len() && !present
            invariant
                j <= input.len(),
                present ==> (input@.contains(l) || (with_typescript && l
                    == ProgrammingLanguage::TypeScript)),
                !present ==> !(with_typescript && l == ProgrammingLanguage::TypeScript),
                !present ==> forall|m: int| 0 <= m < j ==> input@[m] != l,
            decreases input.len() - j,
        {
            if input[j] == l {
                present = true;
            }
            j += 1;
        }
        let ghost old_r = r@;
        if present {
            r.push(l);
        }
        proof {
            assert forall|x: ProgrammingLanguage| r@.contains(x) implies language_rank(x) < k + 1 by {
                if old_r.contains(x) {
                } else {
                    assert(x == l);
                }
            }
            assert forall|x: ProgrammingLanguage| language_rank(x) < k + 1 implies (r@.contains(x)
                <==> (input@.contains(x) || (with_typescript && x
                == ProgrammingLanguage::TypeScript))) by {
                if language_rank(x) == k {
                    assert(x == l);
                    if !present {
                        if input@.contains(x) {
                            let m = choose|m: int| 0 <= m < input@.len() && input@[m] == x;
                            assert(input@[m] == l);
                        }
                        assert(!old_r.contains(x));
                    } else {
                        assert(r@[r@.len() - 1] == x);
                    }
                } else {
                    if present {
                        assert(r@.contains(x) <==> old_r.contains(x)) by {
                            if r@.contains(x) {
                                let m = choose|m: int| 0 <= m < r@.len() && r@[m] == x;
                                if m < old_r.len() {
                                    assert(old_r[m] == x);
                                }
                            }
                            if old_r.contains(x) {
                                let m = choose|m: int| 0 <= m < old_r.len() && old_r[m] == x;
                                assert(r@[m] == x);
                            }
                        }
                    }
                }
            }
        }
        k += 1;
    }
    proof {
        assert forall|x: ProgrammingLanguage| language_rank(x) < 10 by {}
    }
    r
}

/// Whether a `/`-separated path has a segment naming a test directory.
pub open spec fn is_test_segment(segment: Seq<char>) -> bool {
    segment == "test"@ || segment == "tests"@ || segment == "spec"@ || segment == "specs"@
        || segment == "e2e"@ || segment == "__tests__"@
}

pub open spec fn is_migration_segment(segment: Seq<char>) -> bool {
    segment == "migration"@ || segment == "migrations"@ || segment == "migrate"@
}

pub open spec fn has_test_segment(segments: Seq<Seq<char>>) -> bool {
    exists|i: int| 0 <= i < segments.len() && #[trigger] is_test_segment(segments[i])
}

pub open spec fn has_migration_segment(segments: Seq<Seq<char>>) -> bool {
    exists|i: int| 0 <= i < segments.len() && #[trigger] is_migration_segment(segments[i])
}

/// The kind and policy of a file from its lower-cased path, given whether
/// any language claims its extension.
pub open spec fn spec_kind_and_policy(lower: Seq<char>, has_language: bool) -> (
    SourceFileKind,
    FilePolicy,
) {
    let name = file_name(lower);
    let extension = file_extension(name);
    let segments = split_on(lower, '/');
    let in_test_scope = has_test_segment(segments);
    let in_migration_scope = has_migration_segment(segments);
    if has_language {
        if spec_is_generated_name(name) {
            (SourceFileKind::Generated, FilePolicy::Measure)
        } else if in_test_scope || spec_is_test_name(name) {
            (SourceFileKind::Test, FilePolicy::Measure)
        } else if in_migration_scope {
            (SourceFileKind::Migration, FilePolicy::Measure)
        } else {
            (SourceFileKind::Source, FilePolicy::Measure)
        }
    } else if extension == Some("sql"@) {
        if in_migration_scope {
            (SourceFileKind::Migration, FilePolicy::Measure)
        } else {
            (SourceFileKind::Sql, FilePolicy::Measure)
        }
    } else if spec_is_deployment_file(segments, name, extension) {
        (SourceFileKind::Deployment, FilePolicy::Measure)
    } else if spec_is_build_file(name) {
        (SourceFileKind::Build, FilePolicy::Measure)
    } else if spec_is_semantic_config_file(name) {
        (SourceFileKind::Config, FilePolicy::Measure)
    } else if spec_is_documentation(name, extension) {
        (SourceFileKind::Documentation, FilePolicy::Exclude)
    } else {
        (SourceFileKind::Other, FilePolicy::Unsupported)
    }
}

fn segment_flags(segments: &[&str]) -> (r: (bool, bool))
    ensures
        r.0 == has_test_segment(views_of(segments@)),
        r.1 == has_migration_segment(views_of(segments@)),
{
    let mut test = false;
    let mut migration = false;
    let mut i: usize = 0;
    while i < segments.len()
        invariant
            i <= segments.len(),
            test == exists|k: int|
                0 <= k < i && #[trigger] is_test_segment(views_of(segments@)[k]),
            migration == exists|k: int|
                0 <= k < i && #[trigger] is_migration_segment(views_of(segments@)[k]),
        decreases segments.len() - i,
    {
        let s = chars_of(segments[i]);
        let s = s.as_slice();
        let ghost v = views_of(segments@);
        assert(s@ == v[i as int]);
        let ghost old_test = test;
        let ghost old_migration = migration;
        if chars_eq_str(s, "test") || chars_eq_str(s, "tests") || chars_eq_str(s, "spec")
            || chars_eq_str(s, "specs") || chars_eq_str(s, "e2e") || chars_eq_str(s, "__tests__") {
            test = true;
        }
        if chars_eq_str(s, "migration") || chars_eq_str(s, "migrations") || chars_eq_str(
            s,
            "migrate",
        ) {
            migration = true;
        }
        proof {
            if is_test_segment(v[i as int]) {
                assert(test);
            }
            if is_migration_segment(v[i as int]) {
                assert(migration);
            }
            assert(test == (old_test || is_test_segment(v[i as int])));
            assert(migration == (old_migration || is_migration_segment(v[i as int])));
            if old_test {
                let k = choose|k: int| 0 <= k < i && #[trigger] is_test_segment(v[k]);
                assert(0 <= k < i + 1 && is_test_segment(v[k]));
            }
            if old_migration {
                let k = choose|k: int| 0 <= k < i && #[trigger] is_migration_segment(v[k]);
                assert(0 <= k < i + 1 && is_migration_segment(v[k]));
            }
            if test && !old_test {
                assert(is_test_segment(v[i as int]));
            }
            if migration && !old_migration {
                assert(is_migration_segment(v[i as int]));
            }
        }
        i += 1;
    }
    (test, migration)
}

/// The lower-cased extension of a repository file: the part of its lower-cased
/// file name after the last `.`, none when the name has no `.`.
pub fn file_extension_of(path: &RepositoryPath) -> (r: Option<String>)
    ensures
        match r {
            Some(e) => file_extension(file_name(ascii_lower(path.value@))) == Some(e@),
            None => file_extension(file_name(ascii_lower(path.value@))) is None,
        },
{
    let raw = chars_of(path.as_str());
    let lowered = lower_chars(raw.as_slice());
    let (name_chars, _) = after_last_char(lowered.as_slice(), '/');
    let (ext_chars, has_dot) = after_last_char(name_chars.as_slice(), '.');
    if has_dot {
        Some(string_of(ext_chars.as_slice()))
    } else {
        None
    }
}

/// Classifies one repository file by its path. `extension_languages` are the
/// languages whose registered extensions include the file's extension.
pub fn classify(path: &RepositoryPath, extension_languages: &[ProgrammingLanguage]) -> (r:
    FileClassification)
    ensures
        strictly_ranked(r.languages@),
        forall|l: ProgrammingLanguage|
            r.languages@.contains(l) <==> (extension_languages@.contains(l) || (file_extension(
                file_name(ascii_lower(path.value@)),
            ) == Some("vue"@) && l == ProgrammingLanguage::TypeScript)),
        (r.kind, r.policy) == spec_kind_and_policy(
            ascii_lower(path.value@),
            r.languages@.len() > 0,
        ),
{
    let raw = chars_of(path.as_str());
    let lowered = lower_chars(raw.as_slice());
    let lower = lowered.as_slice();
    let (name_chars, _) = after_last_char(lower, '/');
    let name = name_chars.as_slice();
    let (ext_chars, has_dot) = after_last_char(name, '.');
    let ext_text = string_of(ext_chars.as_slice());
    let extension: Option<&str> = if has_dot {
        Some(ext_text.as_str())
    } else {
        None
    };
    assert(view_of_option(extension) == file_extension(name@));
    let is_vue = has_dot && chars_eq_str(ext_chars.as_slice(), "vue");
    let languages = canonical_languages(extension_languages, is_vue);
    let pieces = split_chars(lower, '/');
    let mut segments: Vec<&str> = Vec::new();
    let mut i: usize = 0;
    while i < pieces.len()
        invariant
            i <= pieces.len(),
            views_of(segments@) == views_of_strings(pieces@).take(i as int),
        decreases pieces.len() - i,
    {
        let piece: &str = pieces[i].as_str();
        let ghost before = segments@;
        segments.push(piece);
        assert(segments@ == before.push(piece));
        assert(piece@ == pieces@[i as int]@);
        assert(views_of(before).len() == before.len());
        assert(views_of_strings(pieces@).len() == pieces@.len());
        assert(before.len() == i);
        assert(views_of(segments@).len() == i + 1);
        assert(views_of(segments@)[i as int] == piece@);
        assert(views_of(segments@)[i as int] == views_of_strings(pieces@)[i as int]);
        i += 1;
        assert(views_of(segments@) =~= views_of_strings(pieces@).take(i as int));
    }
    assert(views_of_strings(pieces@).take(pieces@.len() as int) == views_of_strings(pieces@));
    let (in_test_scope, in_migration_scope) = segment_flags(segments.as_slice());
    let name_text = string_of(name);
    let name_str = name_text.as_str();
    let generated = is_generated_name(name_str);
    if languages.len() > 0 {
        let kind = if generated {
            SourceFileKind::Generated
        } else if in_test_scope || is_test_name(name_str) {
            SourceFileKind::Test
        } else if in_migration_scope {
            SourceFileKind::Migration
        } else {
            SourceFileKind::Source
        };
        return FileClassification { languages, kind, policy: FilePolicy::Measure };
    }
    if has_dot && chars_eq_str(ext_chars.as_slice(), "sql") {
        let kind = if in_migration_scope {
            SourceFileKind::Migration
        } else {
            SourceFileKind::Sql
        };
        return FileClassification { languages, kind, policy: FilePolicy::Measure };
    }
    if is_deployment_file(segments.as_slice(), name_str, extension) {
        return FileClassification {
            languages,
            kind: SourceFileKind::Deployment,
            policy: FilePolicy::Measure,
        };
    }
    if is_build_file(name_str) {
        return FileClassification {
            languages,
            kind: SourceFileKind::Build,
            policy: FilePolicy::Measure,
        };
    }
    if is_semantic_config_file(name_str) {
        return FileClassification {
            languages,
            kind: SourceFileKind::Config,
            policy: FilePolicy::Measure,
        };
    }
    if is_documentation(name_str, extension) {
        return FileClassification {
            languages,
            kind: SourceFileKind::Documentation,
            policy: FilePolicy::Exclude,
        };
    }
    FileClassification { languages, kind: SourceFileKind::Other, policy: FilePolicy::Unsupported }
}

} // verus!
