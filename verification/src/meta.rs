//! Metadata-level validation as the earlier, flat-typed form of the rule had
//! it: the data's column names and types match the dictionary, where an
//! `enum` may be backed by a string, a number, or a true enum.

use vstd::prelude::*;

use crate::text::{before_paren, prefix_before_paren, str_eq};

verus! {

/// Collapse a declared dictionary type to its base form for comparison by
/// dropping any trailing `(...)` qualifier.
pub fn normalize_dict_type(dict_type: &str) -> (r: &str)
    ensures
        r@ == before_paren(dict_type@),
{
    prefix_before_paren(dict_type)
}

/// Whether a declared dictionary type is compatible with a type read from the
/// data (one of `boolean`, `string`, `enum`, `date`, `datetime`, `number`):
/// by category, an `enum` accepting string, number, or enum data.
pub open spec fn flat_compatible(dict_type: Seq<char>, actual: Seq<char>) -> bool {
    let base = before_paren(dict_type);
    if base == "number"@ {
        actual == "number"@
    } else if base == "string"@ {
        actual == "string"@
    } else if base == "boolean"@ {
        actual == "boolean"@
    } else if base == "date"@ {
        actual == "date"@
    } else if base == "datetime"@ {
        actual == "datetime"@
    } else if base == "enum"@ {
        actual == "string"@ || actual == "number"@ || actual == "enum"@
    } else {
        false
    }
}

/// Whether a declared dictionary type is compatible with a type read from the
/// data, as [`flat_compatible`] states.
pub fn types_compatible(dict_type: &str, actual: &str) -> (r: bool)
    ensures
        r == flat_compatible(dict_type@, actual@),
{
    let base = normalize_dict_type(dict_type);
    if str_eq(base, "number") {
        str_eq(actual, "number")
    } else if str_eq(base, "string") {
        str_eq(actual, "string")
    } else if str_eq(base, "boolean") {
        str_eq(actual, "boolean")
    } else if str_eq(base, "date") {
        str_eq(actual, "date")
    } else if str_eq(base, "datetime") {
        str_eq(actual, "datetime")
    } else if str_eq(base, "enum") {
        str_eq(actual, "string") || str_eq(actual, "number") || str_eq(actual, "enum")
    } else {
        false
    }
}

/// The later, list-aware rule never accepts a scalar pairing that this one
/// refuses: it only narrows `enum` (no number data) and adds `struct`.
pub proof fn law_list_aware_rule_narrows_flat_rule(dict_type: Seq<char>, actual: Seq<char>)
    requires
        crate::text::list_elem(dict_type) is None,
        before_paren(dict_type) != "struct"@,
    ensures
        crate::validate_meta::compatible(dict_type, actual) ==> flat_compatible(dict_type, actual),
{
}

} // verus!
