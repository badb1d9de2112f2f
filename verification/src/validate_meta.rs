//! Metadata-level validation, the `M##` checks: the type rule that decides
//! whether a column's declared dictionary type fits the type read from the
//! data's schema.

use vstd::prelude::*;

use crate::text::{before_paren, list_depth, list_elem, prefix_before_paren, str_eq};
use crate::validate_spec::documented_types;

verus! {

/// Collapse a declared dictionary type to its base form for comparison by
/// dropping any trailing `(...)` qualifier.
pub fn normalize_dict_type(dict_type: &str) -> (r: &str)
    ensures
        r@ == before_paren(dict_type@),
{
    prefix_before_paren(dict_type)
}

/// The element type of a `list(...)` type string, from either side of the
/// comparison.
pub fn list_element(ty: &str) -> (r: Option<&str>)
    ensures
        match r {
            Some(e) => list_elem(ty@) == Some(e@),
            None => list_elem(ty@) is None,
        },
{
    crate::text::list_element(ty)
}

/// Whether a declared dictionary type is compatible with a type read from the
/// data: by category, an `enum` backed by string-like data only, a list by a
/// list whose element type is compatible, to any depth.
pub open spec fn compatible(dict_type: Seq<char>, actual: Seq<char>) -> bool
    decreases dict_type.len(),
{
    match list_elem(dict_type) {
        Some(elem) => match list_elem(actual) {
            Some(actual_elem) => compatible(elem, actual_elem),
            None => false,
        },
        None => {
            let base = before_paren(dict_type);
            if base == "number"@ {
                actual == "number"@
            } else if base == "string"@ {
                actual == "string"@
            } else if base == "boolean"@ {
                actual == "boolean"@
            } else if base == "date"@ {
                actual == "date"@
            } else if base == "datetime"@ {
                actual == "datetime"@
            } else if base == "enum"@ {
                actual == "string"@ || actual == "enum"@
            } else if base == "struct"@ {
                actual == "struct"@
            } else {
                false
            }
        },
    }
}

/// Whether a declared dictionary type is compatible with a type read from the
/// data (one of `boolean`, `string`, `enum`, `date`, `datetime`, `number`,
/// `struct`, `list(...)`, or a shape with no data-dict type such as `map`).
pub fn types_compatible(dict_type: &str, actual: &str) -> (r: bool)
    ensures
        r == compatible(dict_type@, actual@),
    decreases dict_type@.len(),
{
    if let Some(elem) = list_element(dict_type) {
        return match list_element(actual) {
            Some(actual_elem) => types_compatible(elem, actual_elem),
            None => false,
        };
    }
    let base = normalize_dict_type(dict_type);
    if str_eq(base, "number") {
        str_eq(actual, "number")
    } else if str_eq(base, "string") {
        str_eq(actual, "string")
    } else if str_eq(base, "boolean") {
        str_eq(actual, "boolean")
    } else if str_eq(base, "date") {
        str_eq(actual, "date")
    } else if str_eq(base, "datetime") {
        str_eq(actual, "datetime")
    } else if str_eq(base, "enum") {
        str_eq(actual, "string") || str_eq(actual, "enum")
    } else if str_eq(base, "struct") {
        str_eq(actual, "struct")
    } else {
        false
    }
}

/// A declared type and the data's type only ever match at the same list
/// depth: a `list(list(string))` column never fits `list(string)` data.
pub proof fn law_compatible_types_share_list_depth(dict_type: Seq<char>, actual: Seq<char>)
    ensures
        compatible(dict_type, actual) ==> list_depth(dict_type) == list_depth(actual),
    decreases dict_type.len(),
{
    reveal_strlit("number");
    reveal_strlit("string");
    reveal_strlit("boolean");
    reveal_strlit("date");
    reveal_strlit("datetime");
    reveal_strlit("enum");
    reveal_strlit("struct");
    reveal_strlit("list(");
    match list_elem(dict_type) {
        Some(elem) => {
            if let Some(actual_elem) = list_elem(actual) {
                law_compatible_types_share_list_depth(elem, actual_elem);
            }
        },
        None => {},
    }
}

/// Dropping a `(...)` qualifier twice is dropping it once.
pub proof fn law_normalize_is_idempotent(t: Seq<char>)
    ensures
        before_paren(before_paren(t)) == before_paren(t),
    decreases t.len(),
{
    if t.len() > 0 && t[0] != '(' {
        law_normalize_is_idempotent(t.drop_first());
        let b = before_paren(t);
        assert(b[0] == t[0]);
        assert(b.drop_first() =~= before_paren(t.drop_first()));
    }
}


proof fn lemma_before_paren_of(a: Seq<char>, b: Seq<char>)
    requires
        forall|k: int| 0 <= k < a.len() ==> a[k] != '(',
    ensures
        before_paren(a + seq!['('] + b) == a,
        before_paren(a) == a,
    decreases a.len(),
{
    if a.len() == 0 {
        assert((a + seq!['('] + b)[0] == '(');
    } else {
        assert((a + seq!['('] + b).drop_first() =~= a.drop_first() + seq!['('] + b);
        assert(a.drop_first().len() < a.len());
        assert forall|k: int| 0 <= k < a.drop_first().len() implies a.drop_first()[k] != '(' by {
            assert(a.drop_first()[k] == a[k + 1]);
        }
        lemma_before_paren_of(a.drop_first(), b);
        assert(seq![a[0]] + a.drop_first() =~= a);
    }
}

/// Every documented column type fits data of its own base type: a
/// `datetime` column fits `datetime` data, a `number(ordinal)` column
/// `number` data, an `enum` column `enum` data; and a list of any of them
/// fits a list of that base type.
pub proof fn law_each_type_fits_data_of_its_base()
    ensures
        forall|i: int|
            0 <= i < documented_types().len() ==> compatible(
                #[trigger] documented_types()[i],
                before_paren(documented_types()[i]),
            ) && compatible(
                "list("@ + documented_types()[i] + ")"@,
                "list("@ + before_paren(documented_types()[i]) + ")"@,
            ),
{
    reveal_strlit("string");
    reveal_strlit("number");
    reveal_strlit("number(id)");
    reveal_strlit("number(ordinal)");
    reveal_strlit("number(quantity)");
    reveal_strlit("boolean");
    reveal_strlit("date");
    reveal_strlit("datetime");
    reveal_strlit("enum");
    reveal_strlit("struct");
    reveal_strlit("list(");
    reveal_strlit(")");
    let d = documented_types();
    assert forall|i: int| 0 <= i < d.len() implies compatible(#[trigger] d[i], before_paren(d[i])) && compatible(
        "list("@ + d[i] + ")"@,
        "list("@ + before_paren(d[i]) + ")"@,
    ) by {
        let t = d[i];
        let base: Seq<char> = if i <= 4 {
            "number"@
        } else {
            t
        };
        if 2 <= i <= 4 {
            let q: Seq<char> = if i == 2 {
                "id)"@
            } else if i == 3 {
                "ordinal)"@
            } else {
                "quantity)"@
            };
            reveal_strlit("id)");
            reveal_strlit("ordinal)");
            reveal_strlit("quantity)");
            assert(t =~= "number"@ + seq!['('] + q);
            lemma_before_paren_of("number"@, q);
        } else {
            assert(forall|k: int| 0 <= k < t.len() ==> t[k] != '(');
            lemma_before_paren_of(t, seq![]);
        }
        assert(before_paren(t) == if i == 0 { t } else { base });
        if t.len() >= 6 && t.take(5) == "list("@ {
            assert(t.take(5)[0] == "list("@[0]);
        }
        let bt = before_paren(t);
        if bt.len() >= 6 && bt.take(5) == "list("@ {
            assert(bt.take(5)[0] == "list("@[0]);
        }
        assert(list_elem(t) is None);
        assert(list_elem(bt) is None);
        let l = "list("@ + t + ")"@;
        let lb = "list("@ + bt + ")"@;
        assert(l.take(5) =~= "list("@);
        assert(l.subrange(5, l.len() - 1) =~= t);
        assert(lb.take(5) =~= "list("@);
        assert(lb.subrange(5, lb.len() - 1) =~= bt);
        assert(list_elem(l) == Some(t));
        assert(list_elem(lb) == Some(bt));
        assert("number"@[0] == 'n' && "string"@[0] == 's' && "boolean"@[0] == 'b' && "date"@[0] == 'd'
            && "enum"@[0] == 'e' && "struct"@[0] == 's' && "datetime"@[0] == 'd');
        assert("string"@[3] == 'i' && "struct"@[3] == 'u');
        assert(compatible(t, bt));
        assert(compatible(l, lb));
    }
}

} // verus!
