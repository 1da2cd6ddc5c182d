//! Ordering keys and node-kind vocabularies of the explicit type-relation and
//! type-use inventory.
use vstd::prelude::*;

use crate::model::LanguageRelationKind;
use crate::relations::TypeRelationIntent;
use crate::text::{chars_eq_str, chars_of};

verus! {

/// The position weight of one line in a range key.
pub const LINE_WEIGHT: i64 = 1_000_000;

/// A sortable start key of a range: `line * 1_000_000 + column`; ranges with
/// fewer than two numbers sort after every real range.
pub open spec fn spec_range_start(range: Seq<i32>) -> int {
    if range.len() >= 2 {
        range[0] * 1_000_000 + range[1]
    } else {
        i64::MAX / 2
    }
}

pub fn range_start(range: &[i32]) -> (r: i64)
    ensures
        r == spec_range_start(range@),
{
    if range.len() >= 2 {
        range[0] as i64 * LINE_WEIGHT + range[1] as i64
    } else {
        i64::MAX / 2
    }
}

/// A sortable end key of a compact (`[line, start, end]`) or expanded
/// (`[start_line, start, end_line, end]`) range; other shapes sort before
/// every real range.
pub open spec fn spec_range_end(range: Seq<i32>) -> int {
    if range.len() == 3 {
        range[0] * 1_000_000 + range[2]
    } else if range.len() == 4 {
        range[2] * 1_000_000 + range[3]
    } else {
        i64::MIN / 2
    }
}

pub fn range_end(range: &[i32]) -> (r: i64)
    ensures
        r == spec_range_end(range@),
{
    if range.len() == 3 {
        range[0] as i64 * LINE_WEIGHT + range[2] as i64
    } else if range.len() == 4 {
        range[2] as i64 * LINE_WEIGHT + range[3] as i64
    } else {
        i64::MIN / 2
    }
}

/// The differences a range's size is computed from fit in `i32`.
pub open spec fn range_size_fits(range: Seq<i32>) -> bool {
    if range.len() == 3 {
        i32::MIN <= range[2] - range[1] <= i32::MAX
    } else if range.len() == 4 {
        i32::MIN <= range[3] - range[1] <= i32::MAX && i32::MIN <= range[2] - range[0]
            <= i32::MAX
    } else {
        true
    }
}

/// A sortable size key: columns of a single-line range, or line and column
/// differences of a multi-line one; other shapes are the largest.
pub open spec fn spec_range_size(range: Seq<i32>) -> int {
    if range.len() == 3 {
        range[2] - range[1]
    } else if range.len() == 4 {
        (range[2] - range[0]) * 1_000_000 + (range[3] - range[1])
    } else {
        i64::MAX as int
    }
}

pub fn range_size(range: &[i32]) -> (r: i64)
    requires
        range_size_fits(range@),
    ensures
        r == spec_range_size(range@),
{
    if range.len() == 3 {
        (range[2] - range[1]) as i64
    } else if range.len() == 4 {
        (range[2] - range[0]) as i64 * LINE_WEIGHT + (range[3] - range[1]) as i64
    } else {
        i64::MAX
    }
}

/// How far apart two ranges start.
pub open spec fn spec_range_distance(left: Seq<i32>, right: Seq<i32>) -> int {
    let d = spec_range_start(left) - spec_range_start(right);
    if d < 0 {
        -d
    } else {
        d
    }
}

pub fn range_distance(left: &[i32], right: &[i32]) -> (r: i64)
    ensures
        r == spec_range_distance(left@, right@),
{
    let d = range_start(left) - range_start(right);
    if d < 0 {
        -d
    } else {
        d
    }
}

/// Node kinds that name a used type.
pub open spec fn spec_is_type_use_name(kind: Seq<char>) -> bool {
    kind == "identifier"@ || kind == "type_identifier"@
}

pub fn is_type_use_name(kind: &str) -> (r: bool)
    ensures
        r == spec_is_type_use_name(kind@),
{
    let k = chars_of(kind);
    let k = k.as_slice();
    chars_eq_str(k, "identifier") || chars_eq_str(k, "type_identifier")
}

/// Node kinds that can be the name leaf of a type expression.
pub open spec fn spec_is_type_name(kind: Seq<char>) -> bool {
    kind == "identifier"@ || kind == "type_identifier"@ || kind == "field_identifier"@ || kind
        == "namespace_identifier"@
}

pub fn is_type_name(kind: &str) -> (r: bool)
    ensures
        r == spec_is_type_name(kind@),
{
    let k = chars_of(kind);
    let k = k.as_slice();
    chars_eq_str(k, "identifier") || chars_eq_str(k, "type_identifier") || chars_eq_str(
        k,
        "field_identifier",
    ) || chars_eq_str(k, "namespace_identifier")
}

/// Node kinds whose names are arguments or decorations of a type, not the type.
pub open spec fn spec_is_type_argument_container(kind: Seq<char>) -> bool {
    ||| kind == "type_arguments"@
    ||| kind == "type_argument_list"@
    ||| kind == "type_parameters"@
    ||| kind == "type_parameter_list"@
    ||| kind == "argument_list"@
    ||| kind == "arguments"@
    ||| kind == "access_specifier"@
    ||| kind == "attribute"@
    ||| kind == "attribute_declaration"@
    ||| kind == "annotation"@
    ||| kind == "marker_annotation"@
}

pub fn is_type_argument_container(kind: &str) -> (r: bool)
    ensures
        r == spec_is_type_argument_container(kind@),
{
    let k = chars_of(kind);
    let k = k.as_slice();
    chars_eq_str(k, "type_arguments") || chars_eq_str(k, "type_argument_list") || chars_eq_str(
        k,
        "type_parameters",
    ) || chars_eq_str(k, "type_parameter_list") || chars_eq_str(k, "argument_list")
        || chars_eq_str(k, "arguments") || chars_eq_str(k, "access_specifier") || chars_eq_str(
        k,
        "attribute",
    ) || chars_eq_str(k, "attribute_declaration") || chars_eq_str(k, "annotation")
        || chars_eq_str(k, "marker_annotation")
}

/// Node kinds that only wrap the types of a hierarchy clause.
pub open spec fn spec_is_clause_wrapper(kind: Seq<char>) -> bool {
    kind == "type_list"@ || kind == "extends_interfaces"@ || kind == "interfaces"@ || kind
        == "mixins"@ || kind == "superclass"@
}

pub fn is_clause_wrapper(kind: &str) -> (r: bool)
    ensures
        r == spec_is_clause_wrapper(kind@),
{
    let k = chars_of(kind);
    let k = k.as_slice();
    chars_eq_str(k, "type_list") || chars_eq_str(k, "extends_interfaces") || chars_eq_str(
        k,
        "interfaces",
    ) || chars_eq_str(k, "mixins") || chars_eq_str(k, "superclass")
}

/// The order in which the intents of one hierarchy site are reported.
pub open spec fn spec_intent_rank(intent: TypeRelationIntent) -> u8 {
    match intent {
        TypeRelationIntent::Exact(LanguageRelationKind::Extends) => 0,
        TypeRelationIntent::Exact(LanguageRelationKind::Implements) => 1,
        TypeRelationIntent::Exact(LanguageRelationKind::MixesIn) => 2,
        TypeRelationIntent::CSharpBase => 3,
        TypeRelationIntent::Exact(_) => 4,
    }
}

pub fn intent_rank(intent: TypeRelationIntent) -> (r: u8)
    ensures
        r == spec_intent_rank(intent),
{
    match intent {
        TypeRelationIntent::Exact(LanguageRelationKind::Extends) => 0,
        TypeRelationIntent::Exact(LanguageRelationKind::Implements) => 1,
        TypeRelationIntent::Exact(LanguageRelationKind::MixesIn) => 2,
        TypeRelationIntent::CSharpBase => 3,
        TypeRelationIntent::Exact(_) => 4,
    }
}

} // verus!
