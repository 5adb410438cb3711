//! Type-name spelling utilities shared by the stages.

use vstd::prelude::*;
use crate::text::str_eq;

verus! {

/// The canonical spelling of a type name: the short aliases `Int`, `Bool`
/// and `Str` become `Integer`, `Boolean` and `String`; every other name is
/// its own canonical spelling.
pub open spec fn canonical_alias(name: Seq<char>) -> Seq<char> {
    if name == "Int"@ {
        "Integer"@
    } else if name == "Bool"@ {
        "Boolean"@
    } else if name == "Str"@ {
        "String"@
    } else {
        name
    }
}

/// Normalizes a type-alias identifier to its canonical long form.
pub fn normalize_type_alias(name: &str) -> (r: &str)
    ensures
        r@ == canonical_alias(name@),
{
    if str_eq(name, "Int") {
        "Integer"
    } else if str_eq(name, "Bool") {
        "Boolean"
    } else if str_eq(name, "Str") {
        "String"
    } else {
        name
    }
}

/// Normalizing is idempotent: a canonical name is already canonical.
pub proof fn lemma_normalize_idempotent(name: Seq<char>)
    ensures
        canonical_alias(canonical_alias(name)) == canonical_alias(name),
{
    reveal_strlit("Int");
    reveal_strlit("Bool");
    reveal_strlit("Str");
    reveal_strlit("Integer");
    reveal_strlit("Boolean");
    reveal_strlit("String");
}

} // verus!
