//! Conservative execution-dispatch classification.
//!
//! A semantic provider resolves a written call token to a definition, while
//! the source language decides whether that definition is necessarily the
//! runtime target. This module prefers a typed non-direct result over a
//! convenient direct guess.
use vstd::prelude::*;

use crate::definitions::{kind_of, DefinitionDraft, DefinitionTable};
use crate::model::{
    CallSiteForm, DispatchKind, FactNodeKind, LanguageRelationKind, ProgrammingLanguage,
    Visibility,
};
use crate::text::{chars_of, ends_with, has_word_token, is_suffix, remove_whitespace, without_whitespace, word_token_in};

verus! {

/// A written call site found in the syntax tree.
#[derive(Debug)]
pub struct SyntaxCallSite {
    pub form: CallSiteForm,
    pub callee_text: String,
    pub lexical_ordinal: u32,
}

/// What the dispatch rules read of a resolved target.
#[derive(Clone, Copy, Debug)]
pub struct DispatchTarget<'a> {
    pub kind: FactNodeKind,
    pub signature: Option<&'a str>,
    pub visibility: Visibility,
    pub owner_kind: Option<FactNodeKind>,
}

// ---------------------------------------------------------------------------
// The rules, as spec functions
// ---------------------------------------------------------------------------

/// The characters of an optional header.
pub open spec fn sig_view(signature: Option<&str>) -> Option<Seq<char>> {
    match signature {
        Some(s) => Some(s@),
        None => None,
    }
}

/// The characters of an optional owned header.
pub open spec fn owned_sig_view(signature: Option<String>) -> Option<Seq<char>> {
    match signature {
        Some(s) => Some(s@),
        None => None,
    }
}

/// What the rules read of a target: kind, header, visibility, owner kind.
pub type TargetFacts = (FactNodeKind, Option<Seq<char>>, Visibility, Option<FactNodeKind>);

pub open spec fn facts(t: DispatchTarget) -> TargetFacts {
    (t.kind, sig_view(t.signature), t.visibility, t.owner_kind)
}

pub open spec fn spec_has_modifier(signature: Option<Seq<char>>, expected: Seq<char>) -> bool {
    match signature {
        Some(s) => has_word_token(s, expected),
        None => false,
    }
}

pub open spec fn spec_has_any_modifier(signature: Option<Seq<char>>, expected: Seq<&str>) -> bool {
    exists|i: int| 0 <= i < expected.len() && spec_has_modifier(signature, (#[trigger] expected[i])@)
}

pub open spec fn spec_is_cpp_pure_virtual(signature: Seq<char>) -> bool {
    is_suffix("=0"@, without_whitespace(signature))
}

pub open spec fn has_static(t: TargetFacts) -> bool {
    spec_has_modifier(t.1, "static"@)
}

pub open spec fn spec_java_dispatch(t: TargetFacts) -> DispatchKind {
    if t.0 == FactNodeKind::Constructor || t.0 == FactNodeKind::Function || t.2
        == Visibility::Private || has_static(t) || spec_has_modifier(t.1, "private"@)
        || spec_has_modifier(t.1, "final"@) {
        DispatchKind::Direct
    } else if t.3 == Some(FactNodeKind::Interface) {
        DispatchKind::Interface
    } else if t.0 == FactNodeKind::Method {
        DispatchKind::Virtual
    } else {
        DispatchKind::Unknown
    }
}

pub open spec fn spec_csharp_dispatch(t: TargetFacts) -> DispatchKind {
    if t.0 == FactNodeKind::Constructor || t.0 == FactNodeKind::Function || t.2
        == Visibility::Private || has_static(t) || spec_has_modifier(t.1, "private"@)
        || spec_has_modifier(t.1, "sealed"@) {
        DispatchKind::Direct
    } else if t.3 == Some(FactNodeKind::Interface) {
        DispatchKind::Interface
    } else if spec_has_modifier(t.1, "virtual"@) || spec_has_modifier(
        t.1,
        "abstract"@,
    ) || spec_has_modifier(t.1, "override"@) {
        DispatchKind::Virtual
    } else if t.0 == FactNodeKind::Method {
        DispatchKind::Direct
    } else {
        DispatchKind::Unknown
    }
}

pub open spec fn spec_cpp_dispatch(t: TargetFacts) -> DispatchKind {
    if t.0 == FactNodeKind::Constructor || t.0 == FactNodeKind::Function {
        DispatchKind::Direct
    } else if spec_has_modifier(t.1, "virtual"@) || spec_has_modifier(
        t.1,
        "override"@,
    ) || (match t.1 {
        Some(s) => spec_is_cpp_pure_virtual(s),
        None => false,
    }) {
        DispatchKind::Virtual
    } else if t.0 == FactNodeKind::Method {
        DispatchKind::Direct
    } else {
        DispatchKind::Unknown
    }
}

pub open spec fn spec_go_dispatch(t: TargetFacts) -> DispatchKind {
    if t.0 == FactNodeKind::Function {
        DispatchKind::Direct
    } else if t.3 == Some(FactNodeKind::Interface) {
        DispatchKind::Interface
    } else if t.0 == FactNodeKind::Method && (t.3 == Some(FactNodeKind::Struct)
        || t.3 == Some(FactNodeKind::Type)) {
        DispatchKind::Direct
    } else {
        DispatchKind::Unknown
    }
}

pub open spec fn spec_rust_dispatch(t: TargetFacts) -> DispatchKind {
    if t.0 == FactNodeKind::Function || t.0 == FactNodeKind::Constructor {
        DispatchKind::Direct
    } else if t.3 == Some(FactNodeKind::Trait) {
        DispatchKind::Interface
    } else if t.0 == FactNodeKind::Method && (t.3 == Some(FactNodeKind::Struct)
        || t.3 == Some(FactNodeKind::Enum) || t.3 == Some(FactNodeKind::Type)) {
        DispatchKind::Direct
    } else {
        DispatchKind::Unknown
    }
}

pub open spec fn spec_dart_dispatch(t: TargetFacts) -> DispatchKind {
    if t.0 == FactNodeKind::Function || t.0 == FactNodeKind::Constructor || has_static(t) {
        DispatchKind::Direct
    } else if t.3 == Some(FactNodeKind::Interface) || t.3 == Some(
        FactNodeKind::Trait,
    ) {
        DispatchKind::Interface
    } else if t.0 == FactNodeKind::Method {
        DispatchKind::Virtual
    } else {
        DispatchKind::Unknown
    }
}

/// Languages whose runtime may rebind a resolved target.
pub open spec fn is_dynamic_language(language: ProgrammingLanguage) -> bool {
    language == ProgrammingLanguage::TypeScript || language == ProgrammingLanguage::JavaScript
        || language == ProgrammingLanguage::Python
}

pub open spec fn spec_constructor_dispatch(language: ProgrammingLanguage, t: TargetFacts) -> DispatchKind {
    match language {
        ProgrammingLanguage::TypeScript | ProgrammingLanguage::JavaScript
        | ProgrammingLanguage::Python => DispatchKind::Dynamic,
        ProgrammingLanguage::Java | ProgrammingLanguage::CSharp | ProgrammingLanguage::Cpp => {
            if t.0 == FactNodeKind::Constructor {
                DispatchKind::Direct
            } else {
                DispatchKind::Unknown
            }
        },
        ProgrammingLanguage::Dart => {
            if spec_has_modifier(t.1, "factory"@) {
                DispatchKind::Dynamic
            } else if t.0 == FactNodeKind::Constructor {
                DispatchKind::Direct
            } else {
                DispatchKind::Dynamic
            }
        },
        ProgrammingLanguage::C | ProgrammingLanguage::Go | ProgrammingLanguage::Rust => {
            if t.0 == FactNodeKind::Constructor || t.0 == FactNodeKind::Function {
                DispatchKind::Direct
            } else {
                DispatchKind::Unknown
            }
        },
    }
}

pub open spec fn spec_classify_target(
    language: ProgrammingLanguage,
    relation_kind: LanguageRelationKind,
    form: CallSiteForm,
    t: TargetFacts,
) -> DispatchKind {
    if relation_kind == LanguageRelationKind::Constructs || form == CallSiteForm::Construct {
        spec_constructor_dispatch(language, t)
    } else {
        match language {
            ProgrammingLanguage::TypeScript | ProgrammingLanguage::JavaScript
            | ProgrammingLanguage::Python => DispatchKind::Dynamic,
            ProgrammingLanguage::Java => spec_java_dispatch(t),
            ProgrammingLanguage::CSharp => spec_csharp_dispatch(t),
            ProgrammingLanguage::C => {
                if t.0 == FactNodeKind::Function {
                    DispatchKind::Direct
                } else {
                    DispatchKind::Dynamic
                }
            },
            ProgrammingLanguage::Cpp => spec_cpp_dispatch(t),
            ProgrammingLanguage::Go => spec_go_dispatch(t),
            ProgrammingLanguage::Rust => spec_rust_dispatch(t),
            ProgrammingLanguage::Dart => spec_dart_dispatch(t),
        }
    }
}

// ---------------------------------------------------------------------------
// Executable rules
// ---------------------------------------------------------------------------

/// Classifies the dispatch of a resolved call or construction, reading the
/// target's owner kind from `definitions`.
pub fn classify_execution_dispatch(
    language: ProgrammingLanguage,
    relation_kind: LanguageRelationKind,
    site: &SyntaxCallSite,
    target: &DefinitionDraft,
    definitions: &DefinitionTable,
) -> (r: DispatchKind)
    requires
        definitions.wf(),
    ensures
        r == spec_classify_target(
            language,
            relation_kind,
            site.form,
            (
                target.canonical_kind_hint,
                owned_sig_view(target.signature),
                target.visibility,
                kind_of(definitions.entries@, target.parent_symbol_id),
            ),
        ),
{
    let owner_kind = match &target.parent_symbol_id {
        Some(owner) => match definitions.get(owner) {
            Some(d) => Some(d.canonical_kind_hint),
            None => None,
        },
        None => None,
    };
    let signature = match &target.signature {
        Some(s) => Some(s.as_str()),
        None => None,
    };
    classify_target(
        language,
        relation_kind,
        site.form,
        DispatchTarget {
            kind: target.canonical_kind_hint,
            signature,
            visibility: target.visibility,
            owner_kind,
        },
    )
}

pub fn classify_target(
    language: ProgrammingLanguage,
    relation_kind: LanguageRelationKind,
    form: CallSiteForm,
    target: DispatchTarget<'_>,
) -> (r: DispatchKind)
    ensures
        r == spec_classify_target(language, relation_kind, form, facts(target)),
{
    if relation_kind == LanguageRelationKind::Constructs || form == CallSiteForm::Construct {
        return constructor_dispatch(language, target);
    }
    match language {
        ProgrammingLanguage::TypeScript | ProgrammingLanguage::JavaScript
        | ProgrammingLanguage::Python => DispatchKind::Dynamic,
        ProgrammingLanguage::Java => java_dispatch(target),
        ProgrammingLanguage::CSharp => csharp_dispatch(target),
        ProgrammingLanguage::C => {
            if target.kind == FactNodeKind::Function {
                DispatchKind::Direct
            } else {
                DispatchKind::Dynamic
            }
        },
        ProgrammingLanguage::Cpp => cpp_dispatch(target),
        ProgrammingLanguage::Go => go_dispatch(target),
        ProgrammingLanguage::Rust => rust_dispatch(target),
        ProgrammingLanguage::Dart => dart_dispatch(target),
    }
}

pub fn constructor_dispatch(language: ProgrammingLanguage, target: DispatchTarget<'_>) -> (r: DispatchKind)
    ensures
        r == spec_constructor_dispatch(language, facts(target)),
{
    match language {
        ProgrammingLanguage::TypeScript | ProgrammingLanguage::JavaScript
        | ProgrammingLanguage::Python => DispatchKind::Dynamic,
        ProgrammingLanguage::Java | ProgrammingLanguage::CSharp | ProgrammingLanguage::Cpp => {
            if target.kind == FactNodeKind::Constructor {
                DispatchKind::Direct
            } else {
                DispatchKind::Unknown
            }
        },
        ProgrammingLanguage::Dart => {
            if has_modifier(target.signature, "factory") {
                DispatchKind::Dynamic
            } else if target.kind == FactNodeKind::Constructor {
                DispatchKind::Direct
            } else {
                // A class-only Dart target does not prove whether the selected
                // constructor is a redirecting factory.
                DispatchKind::Dynamic
            }
        },
        ProgrammingLanguage::C | ProgrammingLanguage::Go | ProgrammingLanguage::Rust => {
            if target.kind == FactNodeKind::Constructor || target.kind == FactNodeKind::Function {
                DispatchKind::Direct
            } else {
                DispatchKind::Unknown
            }
        },
    }
}

pub fn java_dispatch(target: DispatchTarget<'_>) -> (r: DispatchKind)
    ensures
        r == spec_java_dispatch(facts(target)),
{
    if target.kind == FactNodeKind::Constructor || target.kind == FactNodeKind::Function
        || target.visibility == Visibility::Private || has_modifier(target.signature, "static")
        || has_modifier(target.signature, "private") || has_modifier(target.signature, "final") {
        DispatchKind::Direct
    } else if target.owner_kind == Some(FactNodeKind::Interface) {
        DispatchKind::Interface
    } else if target.kind == FactNodeKind::Method {
        DispatchKind::Virtual
    } else {
        DispatchKind::Unknown
    }
}

pub fn csharp_dispatch(target: DispatchTarget<'_>) -> (r: DispatchKind)
    ensures
        r == spec_csharp_dispatch(facts(target)),
{
    if target.kind == FactNodeKind::Constructor || target.kind == FactNodeKind::Function
        || target.visibility == Visibility::Private || has_modifier(target.signature, "static")
        || has_modifier(target.signature, "private") || has_modifier(target.signature, "sealed") {
        DispatchKind::Direct
    } else if target.owner_kind == Some(FactNodeKind::Interface) {
        DispatchKind::Interface
    } else if has_modifier(target.signature, "virtual") || has_modifier(target.signature, "abstract")
        || has_modifier(target.signature, "override") {
        DispatchKind::Virtual
    } else if target.kind == FactNodeKind::Method {
        // C# instance methods are non-virtual unless explicitly declared
        // virtual/abstract/override.
        DispatchKind::Direct
    } else {
        DispatchKind::Unknown
    }
}

pub fn cpp_dispatch(target: DispatchTarget<'_>) -> (r: DispatchKind)
    ensures
        r == spec_cpp_dispatch(facts(target)),
{
    if target.kind == FactNodeKind::Constructor || target.kind == FactNodeKind::Function {
        return DispatchKind::Direct;
    }
    let pure = match target.signature {
        Some(s) => is_cpp_pure_virtual(s),
        None => false,
    };
    if has_modifier(target.signature, "virtual") || has_modifier(target.signature, "override") || pure {
        DispatchKind::Virtual
    } else if target.kind == FactNodeKind::Method {
        DispatchKind::Direct
    } else {
        DispatchKind::Unknown
    }
}

pub fn go_dispatch(target: DispatchTarget<'_>) -> (r: DispatchKind)
    ensures
        r == spec_go_dispatch(facts(target)),
{
    if target.kind == FactNodeKind::Function {
        DispatchKind::Direct
    } else if target.owner_kind == Some(FactNodeKind::Interface) {
        DispatchKind::Interface
    } else if target.kind == FactNodeKind::Method && (target.owner_kind == Some(FactNodeKind::Struct)
        || target.owner_kind == Some(FactNodeKind::Type)) {
        DispatchKind::Direct
    } else {
        DispatchKind::Unknown
    }
}

pub fn rust_dispatch(target: DispatchTarget<'_>) -> (r: DispatchKind)
    ensures
        r == spec_rust_dispatch(facts(target)),
{
    if target.kind == FactNodeKind::Function || target.kind == FactNodeKind::Constructor {
        DispatchKind::Direct
    } else if target.owner_kind == Some(FactNodeKind::Trait) {
        DispatchKind::Interface
    } else if target.kind == FactNodeKind::Method && (target.owner_kind == Some(FactNodeKind::Struct)
        || target.owner_kind == Some(FactNodeKind::Enum) || target.owner_kind == Some(
        FactNodeKind::Type,
    )) {
        DispatchKind::Direct
    } else {
        DispatchKind::Unknown
    }
}

pub fn dart_dispatch(target: DispatchTarget<'_>) -> (r: DispatchKind)
    ensures
        r == spec_dart_dispatch(facts(target)),
{
    if target.kind == FactNodeKind::Function || target.kind == FactNodeKind::Constructor
        || has_modifier(target.signature, "static") {
        DispatchKind::Direct
    } else if target.owner_kind == Some(FactNodeKind::Interface) || target.owner_kind == Some(
        FactNodeKind::Trait,
    ) {
        DispatchKind::Interface
    } else if target.kind == FactNodeKind::Method {
        DispatchKind::Virtual
    } else {
        DispatchKind::Unknown
    }
}

/// Whether the header, with its whitespace removed, ends in `=0`.
pub fn is_cpp_pure_virtual(signature: &str) -> (b: bool)
    ensures
        b == spec_is_cpp_pure_virtual(signature@),
{
    let chars = chars_of(signature);
    let compact = remove_whitespace(chars.as_slice());
    ends_with(compact.as_slice(), "=0")
}

/// Whether any of `expected` is a modifier of `signature`.
pub fn has_any_modifier(signature: Option<&str>, expected: &[&str]) -> (b: bool)
    ensures
        b == spec_has_any_modifier(sig_view(signature), expected@),
{
    let mut i: usize = 0;
    while i < expected.len()
        invariant
            i <= expected.len(),
            forall|k: int| 0 <= k < i ==> !spec_has_modifier(sig_view(signature), (#[trigger] expected@[k])@),
        decreases expected.len() - i,
    {
        if has_modifier(signature, expected[i]) {
            return true;
        }
        i += 1;
    }
    false
}

/// Whether `expected` is one of the words of `signature` split at every
/// character that is neither `_` nor alphanumeric.
pub fn has_modifier(signature: Option<&str>, expected: &str) -> (b: bool)
    ensures
        b == spec_has_modifier(sig_view(signature), expected@),
{
    match signature {
        Some(s) => {
            let sc = chars_of(s);
            let ec = chars_of(expected);
            word_token_in(sc.as_slice(), ec.as_slice())
        },
        None => false,
    }
}

} // verus!
