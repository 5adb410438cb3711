//! Command-line flag scanning for `yara run <file> [flags]`.

use vstd::prelude::*;
use crate::text::str_eq;

verus! {

/// The views of a list of arguments.
pub open spec fn arg_views(args: Seq<String>) -> Seq<Seq<char>> {
    args.map_values(|a: String| a@)
}

/// The position of the first argument satisfying `is_flag`, if any.
pub open spec fn first_flag(args: Seq<Seq<char>>, is_flag: spec_fn(Seq<char>) -> bool) -> Option<int>
    decreases args.len(),
{
    if args.len() == 0 {
        None
    } else {
        match first_flag(args.drop_last(), is_flag) {
            Some(i) => Some(i),
            None => if is_flag(args.last()) { Some(args.len() - 1) } else { None },
        }
    }
}

/// The argument after the first one satisfying `is_flag`: `None` when no
/// argument does, or when it is the last one.
pub open spec fn flag_value(args: Seq<Seq<char>>, is_flag: spec_fn(Seq<char>) -> bool) -> Option<Seq<char>> {
    match first_flag(args, is_flag) {
        Some(i) => if i + 1 < args.len() { Some(args[i + 1]) } else { None },
        None => None,
    }
}

/// `--keywords`.
pub open spec fn is_keywords_flag(a: Seq<char>) -> bool {
    a == "--keywords"@
}

/// `--vocabulary`, or its older alias `--keywords`.
pub open spec fn is_vocabulary_flag(a: Seq<char>) -> bool {
    a == "--vocabulary"@ || a == "--keywords"@
}

/// Nothing before `i` satisfies `is_flag` exactly when the first match is at or after `i`.
proof fn lemma_first_flag_prefix(args: Seq<Seq<char>>, is_flag: spec_fn(Seq<char>) -> bool, i: int)
    requires
        0 <= i < args.len(),
        forall|k: int| 0 <= k < i ==> !is_flag(#[trigger] args[k]),
    ensures
        is_flag(args[i]) ==> first_flag(args, is_flag) == Some(i),
        first_flag(args.take(i + 1), is_flag) == if is_flag(args[i]) { Some(i) } else { None::<int> },
    decreases args.len(),
{
    lemma_first_flag_none(args.take(i), is_flag);
    assert(args.take(i + 1).drop_last() =~= args.take(i));
    if is_flag(args[i]) {
        lemma_first_flag_extend(args, is_flag, i + 1, i);
    }
}

/// With no match in `args`, `first_flag` finds none.
proof fn lemma_first_flag_none(args: Seq<Seq<char>>, is_flag: spec_fn(Seq<char>) -> bool)
    requires
        forall|k: int| 0 <= k < args.len() ==> !is_flag(#[trigger] args[k]),
    ensures
        first_flag(args, is_flag) is None,
    decreases args.len(),
{
    if args.len() > 0 {
        lemma_first_flag_none(args.drop_last(), is_flag);
    }
}

/// A match found in a prefix stays the first match of the whole list.
proof fn lemma_first_flag_extend(args: Seq<Seq<char>>, is_flag: spec_fn(Seq<char>) -> bool, n: int, i: int)
    requires
        0 <= i < n <= args.len(),
        first_flag(args.take(n), is_flag) == Some(i),
    ensures
        first_flag(args, is_flag) == Some(i),
    decreases args.len() - n,
{
    if n < args.len() {
        assert(args.take(n + 1).drop_last() =~= args.take(n));
        lemma_first_flag_extend(args, is_flag, n + 1, i);
    } else {
        assert(args.take(n) =~= args);
    }
}

/// The value after the first argument accepted by `is_flag`.
fn find_flag_value(rest: &[String], Ghost(is_flag): Ghost<spec_fn(Seq<char>) -> bool>, first: &str, second: &str) -> (r: Option<String>)
    requires
        forall|a: Seq<char>| #[trigger] is_flag(a) <==> (a == first@ || a == second@),
    ensures
        r matches Some(v) ==> flag_value(arg_views(rest@), is_flag) == Some(v@),
        r is None <==> flag_value(arg_views(rest@), is_flag) is None,
{
    let ghost args = arg_views(rest@);
    let mut i: usize = 0;
    while i < rest.len()
        invariant
            i <= rest@.len(),
            args == arg_views(rest@),
            forall|a: Seq<char>| #[trigger] is_flag(a) <==> (a == first@ || a == second@),
            forall|k: int| 0 <= k < i ==> !is_flag(#[trigger] args[k]),
        decreases rest@.len() - i,
    {
        let a = rest[i].as_str();
        if str_eq(a, first) || str_eq(a, second) {
            proof { lemma_first_flag_prefix(args, is_flag, i as int); }
            if i + 1 < rest.len() {
                return Some(rest[i + 1].clone());
            } else {
                return None;
            }
        }
        i = i + 1;
    }
    proof { lemma_first_flag_none(args, is_flag); }
    None
}

/// The path given after `--keywords`, if any.
pub fn parse_keywords_flag(rest: &[String]) -> (r: Option<String>)
    ensures
        r matches Some(v) ==> flag_value(arg_views(rest@), |a: Seq<char>| is_keywords_flag(a)) == Some(v@),
        r is None <==> flag_value(arg_views(rest@), |a: Seq<char>| is_keywords_flag(a)) is None,
{
    find_flag_value(rest, Ghost(|a: Seq<char>| is_keywords_flag(a)), "--keywords", "--keywords")
}

/// The path given after `--vocabulary` (or its alias `--keywords`), if any.
pub fn parse_vocabulary_flag(rest: &[String]) -> (r: Option<String>)
    ensures
        r matches Some(v) ==> flag_value(arg_views(rest@), |a: Seq<char>| is_vocabulary_flag(a)) == Some(v@),
        r is None <==> flag_value(arg_views(rest@), |a: Seq<char>| is_vocabulary_flag(a)) is None,
{
    find_flag_value(rest, Ghost(|a: Seq<char>| is_vocabulary_flag(a)), "--vocabulary", "--keywords")
}

} // verus!
