//! The closed vocabularies of the Language IR that the scanners speak.
use vstd::prelude::*;

verus! {

/// The ten source languages with a registered provider.
#[derive(Clone, Copy, Debug, PartialEq, Eq, Structural, PartialOrd, Ord, Hash)]
pub enum ProgrammingLanguage {
    TypeScript,
    JavaScript,
    Python,
    Java,
    CSharp,
    C,
    Cpp,
    Go,
    Rust,
    Dart,
}

/// Kinds of product definitions and structures.
#[derive(Clone, Copy, Debug, PartialEq, Eq, Structural, PartialOrd, Ord, Hash)]
pub enum FactNodeKind {
    Namespace,
    Package,
    Type,
    Class,
    Interface,
    Trait,
    Struct,
    Enum,
    TypeAlias,
    Function,
    Method,
    Constructor,
    Constant,
    Field,
}

/// Language-defined accessibility of a definition.
#[derive(Clone, Copy, Debug, PartialEq, Eq, Structural, PartialOrd, Ord, Hash)]
pub enum Visibility {
    Public,
    Protected,
    Internal,
    Package,
    Private,
    Unknown,
}

/// How a resolved executable target is reached at run time.
#[derive(Clone, Copy, Debug, PartialEq, Eq, Structural, PartialOrd, Ord, Hash)]
pub enum DispatchKind {
    Direct,
    Virtual,
    Interface,
    Dynamic,
    Unknown,
    NotApplicable,
}

/// The closed relation vocabulary of the Language IR.
#[derive(Clone, Copy, Debug, PartialEq, Eq, Structural, PartialOrd, Ord, Hash)]
pub enum LanguageRelationKind {
    Contains,
    Declares,
    BelongsTo,
    Imports,
    Exports,
    Calls,
    Constructs,
    Extends,
    Implements,
    MixesIn,
    Overrides,
    UsesType,
    Tests,
    ExecutesQuery,
    Reads,
    Writes,
}

/// The syntactic shape of a written call site.
#[derive(Clone, Copy, Debug, PartialEq, Eq, Structural, PartialOrd, Ord, Hash)]
pub enum CallSiteForm {
    Call,
    Construct,
}

/// Analysis capabilities that a relation can be accounted under.
#[derive(Clone, Copy, Debug, PartialEq, Eq, Structural, PartialOrd, Ord, Hash)]
pub enum AnalysisCapability {
    ProjectStructure,
    Definitions,
    Imports,
    Exports,
    DirectCalls,
    TypeRelations,
    Overrides,
    OrmQuery,
    EventExternal,
    FrameworkBindings,
}

/// The census category of a repository file.
#[derive(Clone, Copy, Debug, PartialEq, Eq, Structural, PartialOrd, Ord, Hash)]
pub enum SourceFileKind {
    Source,
    Test,
    Generated,
    Vendor,
    Migration,
    Sql,
    Deployment,
    Build,
    Config,
    Documentation,
    Other,
}

/// Per-definition source flags.
#[derive(Clone, Copy, Debug, PartialEq, Eq, Structural, Default)]
pub struct SourceFlags {
    pub test: bool,
    pub generated: bool,
    pub vendor: bool,
    pub external: bool,
}

/// Outcome of one audited import site.
#[derive(Clone, Copy, Debug, PartialEq, Eq, Structural, PartialOrd, Ord, Hash)]
pub enum ImportAuditOutcome {
    Internal,
    KnownExternal,
    Unresolved,
    Ambiguous,
    InvalidEvidence,
    InventoryFailed,
    MetadataUnavailable,
}

} // verus!

verus! {

/// Whether `s` is a canonical repository-relative path: non-empty, `/`-separated
/// segments that are neither empty, `.` nor `..`, with no `\` and no NUL.
pub open spec fn valid_repository_path(s: Seq<char>) -> bool {
    &&& s.len() > 0
    &&& s[0] != '/'
    &&& s.last() != '/'
    &&& forall|i: int| 0 <= i < s.len() ==> #[trigger] s[i] != '\\' && s[i] != '\0'
    &&& forall|i: int|
        0 <= i < s.len() - 1 ==> !(#[trigger] s[i] == '/' && s[i + 1] == '/')
    &&& !bad_segment_at(s)
}

/// `s` holds a `.` or `..` segment starting at `i`.
pub open spec fn dot_segment_at(s: Seq<char>, i: int) -> bool {
    &&& 0 <= i < s.len()
    &&& (i == 0 || s[i - 1] == '/')
    &&& s[i] == '.'
    &&& (i + 1 == s.len() || s[i + 1] == '/' || (s[i + 1] == '.' && (i + 2 == s.len() || s[i
        + 2] == '/')))
}

/// `s` holds a `.` or `..` segment.
pub open spec fn bad_segment_at(s: Seq<char>) -> bool {
    exists|i: int| #[trigger] dot_segment_at(s, i)
}

/// A path relative to the repository root. The empty path is the root itself.
#[derive(Clone, Debug, PartialEq, Eq, PartialOrd, Ord, Hash)]
pub struct RepositoryPath {
    pub value: String,
}

/// An opaque provider symbol identity.
#[derive(Clone, Debug, PartialEq, Eq, PartialOrd, Ord, Hash)]
pub struct ProviderSymbolId {
    pub value: String,
}

/// The identity of one analysis unit.
#[derive(Clone, Debug, PartialEq, Eq, PartialOrd, Ord, Hash)]
pub struct AnalysisUnitId {
    pub value: String,
}

/// The identity of one evidence record.
#[derive(Clone, Debug, PartialEq, Eq, PartialOrd, Ord, Hash)]
pub struct EvidenceId {
    pub value: String,
}

impl ProviderSymbolId {
    /// A symbol identity from its text; blank text is refused.
    pub fn parse(value: &str) -> (r: Result<ProviderSymbolId, String>)
        ensures
            match r {
                Ok(id) => id.value@ == value@ && crate::text::trim_ws(value@).len() > 0,
                Err(_) => crate::text::trim_ws(value@).len() == 0,
            },
    {
        let v = crate::text::chars_of(value);
        let t = crate::text::trim_chars(v.as_slice());
        if t.len() == 0 {
            Err(crate::text::owned("provider symbol identity is empty"))
        } else {
            Ok(ProviderSymbolId { value: crate::text::owned(value) })
        }
    }
}

impl AnalysisUnitId {
    /// A unit identity from its text; blank text is refused.
    pub fn parse(value: &str) -> (r: Result<AnalysisUnitId, String>)
        ensures
            match r {
                Ok(id) => id.value@ == value@ && crate::text::trim_ws(value@).len() > 0,
                Err(_) => crate::text::trim_ws(value@).len() == 0,
            },
    {
        let v = crate::text::chars_of(value);
        let t = crate::text::trim_chars(v.as_slice());
        if t.len() == 0 {
            Err(crate::text::owned("analysis unit identity is empty"))
        } else {
            Ok(AnalysisUnitId { value: crate::text::owned(value) })
        }
    }
}

impl RepositoryPath {
    /// The repository root.
    pub fn root() -> (r: RepositoryPath)
        ensures
            r.value@.len() == 0,
    {
        RepositoryPath { value: String::new() }
    }

    pub fn is_root(&self) -> (b: bool)
        ensures
            b == (self.value@.len() == 0),
    {
        let v = crate::text::chars_of(self.value.as_str());
        v.len() == 0
    }

    /// A repository path from its text; anything but a canonical relative path is refused.
    pub fn parse(value: &str) -> (r: Result<RepositoryPath, String>)
        ensures
            match r {
                Ok(p) => p.value@ == value@ && valid_repository_path(value@),
                Err(_) => !valid_repository_path(value@),
            },
    {
        let v = crate::text::chars_of(value);
        if is_valid_repository_path(v.as_slice()) {
            Ok(RepositoryPath { value: crate::text::owned(value) })
        } else {
            Err(crate::text::owned("invalid repository path"))
        }
    }
}

fn is_valid_repository_path(s: &[char]) -> (b: bool)
    ensures
        b == valid_repository_path(s@),
{
    let n = s.len();
    if n == 0 || s[0] == '/' || s[n - 1] == '/' {
        return false;
    }
    let mut i: usize = 0;
    while i < n
        invariant
            n == s.len(),
            i <= n,
            forall|k: int| 0 <= k < i ==> #[trigger] s@[k] != '\\' && s@[k] != '\0',
            forall|k: int| 0 <= k < i && k < n - 1 ==> !(#[trigger] s@[k] == '/' && s@[k + 1] == '/'),
        decreases n - i,
    {
        if s[i] == '\\' || s[i] == '\0' {
            return false;
        }
        if i + 1 < n && s[i] == '/' && s[i + 1] == '/' {
            return false;
        }
        i += 1;
    }
    let mut i: usize = 0;
    while i < n
        invariant
            n == s.len(),
            i <= n,
            forall|k: int| 0 <= k < i ==> !#[trigger] dot_segment_at(s@, k),
        decreases n - i,
    {
        if (i == 0 || s[i - 1] == '/') && s[i] == '.' && (i + 1 == n || s[i + 1] == '/' || (s[i
            + 1] == '.' && (i + 2 == n || s[i + 2] == '/'))) {
            assert(dot_segment_at(s@, i as int));
            return false;
        }
        i += 1;
    }
    true
}

} // verus!

verus! {

impl ProviderSymbolId {
    pub fn duplicate(&self) -> (r: ProviderSymbolId)
        ensures
            r == *self,
    {
        ProviderSymbolId { value: self.value.clone() }
    }

    pub fn as_str(&self) -> (r: &str)
        ensures
            r@ == self.value@,
    {
        self.value.as_str()
    }
}

impl RepositoryPath {
    pub fn duplicate(&self) -> (r: RepositoryPath)
        ensures
            r == *self,
    {
        RepositoryPath { value: self.value.clone() }
    }

    pub fn as_str(&self) -> (r: &str)
        ensures
            r@ == self.value@,
    {
        self.value.as_str()
    }
}

impl AnalysisUnitId {
    pub fn duplicate(&self) -> (r: AnalysisUnitId)
        ensures
            r == *self,
    {
        AnalysisUnitId { value: self.value.clone() }
    }

    pub fn as_str(&self) -> (r: &str)
        ensures
            r@ == self.value@,
    {
        self.value.as_str()
    }
}

/// The wire name of a language.
pub open spec fn spec_language_name(language: ProgrammingLanguage) -> Seq<char> {
    match language {
        ProgrammingLanguage::TypeScript => "typescript"@,
        ProgrammingLanguage::JavaScript => "javascript"@,
        ProgrammingLanguage::Python => "python"@,
        ProgrammingLanguage::Java => "java"@,
        ProgrammingLanguage::CSharp => "csharp"@,
        ProgrammingLanguage::C => "c"@,
        ProgrammingLanguage::Cpp => "cpp"@,
        ProgrammingLanguage::Go => "go"@,
        ProgrammingLanguage::Rust => "rust"@,
        ProgrammingLanguage::Dart => "dart"@,
    }
}

impl ProgrammingLanguage {
    pub fn as_str(self) -> (r: &'static str)
        ensures
            r@ == spec_language_name(self),
    {
        match self {
            ProgrammingLanguage::TypeScript => "typescript",
            ProgrammingLanguage::JavaScript => "javascript",
            ProgrammingLanguage::Python => "python",
            ProgrammingLanguage::Java => "java",
            ProgrammingLanguage::CSharp => "csharp",
            ProgrammingLanguage::C => "c",
            ProgrammingLanguage::Cpp => "cpp",
            ProgrammingLanguage::Go => "go",
            ProgrammingLanguage::Rust => "rust",
            ProgrammingLanguage::Dart => "dart",
        }
    }
}

/// The wire name of a node kind.
pub open spec fn spec_kind_name(kind: FactNodeKind) -> Seq<char> {
    match kind {
        FactNodeKind::Namespace => "namespace"@,
        FactNodeKind::Package => "package"@,
        FactNodeKind::Type => "type"@,
        FactNodeKind::Class => "class"@,
        FactNodeKind::Interface => "interface"@,
        FactNodeKind::Trait => "trait"@,
        FactNodeKind::Struct => "struct"@,
        FactNodeKind::Enum => "enum"@,
        FactNodeKind::TypeAlias => "type_alias"@,
        FactNodeKind::Function => "function"@,
        FactNodeKind::Method => "method"@,
        FactNodeKind::Constructor => "constructor"@,
        FactNodeKind::Constant => "constant"@,
        FactNodeKind::Field => "field"@,
    }
}

impl FactNodeKind {
    pub fn as_str(self) -> (r: &'static str)
        ensures
            r@ == spec_kind_name(self),
    {
        match self {
            FactNodeKind::Namespace => "namespace",
            FactNodeKind::Package => "package",
            FactNodeKind::Type => "type",
            FactNodeKind::Class => "class",
            FactNodeKind::Interface => "interface",
            FactNodeKind::Trait => "trait",
            FactNodeKind::Struct => "struct",
            FactNodeKind::Enum => "enum",
            FactNodeKind::TypeAlias => "type_alias",
            FactNodeKind::Function => "function",
            FactNodeKind::Method => "method",
            FactNodeKind::Constructor => "constructor",
            FactNodeKind::Constant => "constant",
            FactNodeKind::Field => "field",
        }
    }
}

/// One endpoint of a Language IR relation.
#[derive(Debug)]
pub enum IrEndpoint {
    NativeSymbol { symbol_id: ProviderSymbolId },
    File { path: RepositoryPath },
    Structure { unit_id: AnalysisUnitId, kind: FactNodeKind, qualified_name: String },
}

} // verus!
