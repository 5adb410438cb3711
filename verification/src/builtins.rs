//! Registry of Yara's fixed-arity builtins: array operations (`len`, `push`,
//! `get`, `set`, `pop`), pointer operations (`alloc`, `deref`, `set_deref`,
//! `free`) and the collector (`collect`).
//!
//! This module says which names are builtins and how many arguments each
//! takes; the type checker owns their typing rules. `print` is variadic and
//! handled on its own path, so it is not listed here.

use vstd::prelude::*;
use crate::text::str_eq;

verus! {

/// One builtin's name and its exact argument count.
#[derive(Debug, Clone, Copy)]
pub struct Builtin {
    /// The name it is called by in source.
    pub name: &'static str,
    /// Exact number of arguments.
    pub arity: usize,
}

/// The builtin table, in registry order: each name with its arity.
pub open spec fn builtin_table() -> Seq<(Seq<char>, nat)> {
    seq![
        ("len"@, 1nat),
        ("push"@, 2nat),
        ("get"@, 2nat),
        ("set"@, 3nat),
        ("pop"@, 1nat),
        ("alloc"@, 1nat),
        ("deref"@, 1nat),
        ("set_deref"@, 2nat),
        ("free"@, 1nat),
        ("collect"@, 0nat),
    ]
}

/// The arity of the builtin called `name`, if `name` is a builtin.
pub open spec fn builtin_arity(name: Seq<char>) -> Option<nat> {
    if exists|i: int| 0 <= i < builtin_table().len() && #[trigger] builtin_table()[i].0 == name {
        let i = choose|i: int| 0 <= i < builtin_table().len() && #[trigger] builtin_table()[i].0 == name;
        Some(builtin_table()[i].1)
    } else {
        None
    }
}

/// Every builtin, in registry order.
pub fn builtins() -> (r: Vec<Builtin>)
    ensures
        r@.len() == builtin_table().len(),
        forall|i: int| 0 <= i < r@.len() ==> (#[trigger] r@[i]).name@ == builtin_table()[i].0
            && r@[i].arity == builtin_table()[i].1,
{
    let r = vec![
        Builtin { name: "len", arity: 1 },
        Builtin { name: "push", arity: 2 },
        Builtin { name: "get", arity: 2 },
        Builtin { name: "set", arity: 3 },
        Builtin { name: "pop", arity: 1 },
        Builtin { name: "alloc", arity: 1 },
        Builtin { name: "deref", arity: 1 },
        Builtin { name: "set_deref", arity: 2 },
        Builtin { name: "free", arity: 1 },
        Builtin { name: "collect", arity: 0 },
    ];
    r
}

/// No two builtins share a name.
pub proof fn lemma_builtin_names_unique()
    ensures
        forall|i: int, j: int| 0 <= i < builtin_table().len() && 0 <= j < builtin_table().len()
            && i != j ==> #[trigger] builtin_table()[i].0 != #[trigger] builtin_table()[j].0,
{
    reveal_strlit("len");
    reveal_strlit("push");
    reveal_strlit("get");
    reveal_strlit("set");
    reveal_strlit("pop");
    reveal_strlit("alloc");
    reveal_strlit("deref");
    reveal_strlit("set_deref");
    reveal_strlit("free");
    reveal_strlit("collect");
    assert forall|i: int, j: int| 0 <= i < builtin_table().len() && 0 <= j < builtin_table().len()
        && i != j implies #[trigger] builtin_table()[i].0 != #[trigger] builtin_table()[j].0 by {
        let a = builtin_table()[i].0;
        let b = builtin_table()[j].0;
        if a == b {
            assert(a.len() == b.len());
            assert(a[0] == b[0]);
            assert(a[a.len() - 1] == b[b.len() - 1]);
        }
    }
}

/// The arity of each builtin, as the table lists it, and no other name is one.
pub proof fn lemma_builtin_arities()
    ensures
        builtin_arity("len"@) == Some(1nat),
        builtin_arity("push"@) == Some(2nat),
        builtin_arity("get"@) == Some(2nat),
        builtin_arity("set"@) == Some(3nat),
        builtin_arity("pop"@) == Some(1nat),
        builtin_arity("alloc"@) == Some(1nat),
        builtin_arity("deref"@) == Some(1nat),
        builtin_arity("set_deref"@) == Some(2nat),
        builtin_arity("free"@) == Some(1nat),
        builtin_arity("collect"@) == Some(0nat),
        forall|name: Seq<char>| #[trigger] builtin_arity(name) is Some ==> name == "len"@ || name == "push"@
            || name == "get"@ || name == "set"@ || name == "pop"@ || name == "alloc"@ || name == "deref"@
            || name == "set_deref"@ || name == "free"@ || name == "collect"@,
{
    lemma_builtin_names_unique();
    assert(builtin_table()[0].0 == "len"@);
    assert(builtin_table()[1].0 == "push"@);
    assert(builtin_table()[2].0 == "get"@);
    assert(builtin_table()[3].0 == "set"@);
    assert(builtin_table()[4].0 == "pop"@);
    assert(builtin_table()[5].0 == "alloc"@);
    assert(builtin_table()[6].0 == "deref"@);
    assert(builtin_table()[7].0 == "set_deref"@);
    assert(builtin_table()[8].0 == "free"@);
    assert(builtin_table()[9].0 == "collect"@);
    assert forall|name: Seq<char>| #[trigger] builtin_arity(name) is Some implies name == "len"@ || name == "push"@
        || name == "get"@ || name == "set"@ || name == "pop"@ || name == "alloc"@ || name == "deref"@
        || name == "set_deref"@ || name == "free"@ || name == "collect"@ by {
        let i = choose|i: int| 0 <= i < builtin_table().len() && #[trigger] builtin_table()[i].0 == name;
        assert(0 <= i < 10);
    }
}

/// Looks up a builtin by name, or `None` if `name` is not one (the caller
/// then falls through to user-defined functions).
pub fn lookup(name: &str) -> (r: Option<Builtin>)
    ensures
        r is None <==> builtin_arity(name@) is None,
        r matches Some(b) ==> b.name@ == name@ && builtin_arity(name@) == Some(b.arity as nat),
{
    let table = builtins();
    let mut i: usize = 0;
    while i < table.len()
        invariant
            i <= table@.len(),
            table@.len() == builtin_table().len(),
            forall|k: int| 0 <= k < table@.len() ==> (#[trigger] table@[k]).name@ == builtin_table()[k].0
                && table@[k].arity == builtin_table()[k].1,
            forall|k: int| 0 <= k < i ==> builtin_table()[k].0 != name@,
        decreases table@.len() - i,
    {
        let b = table[i];
        if str_eq(b.name, name) {
            proof {
                lemma_builtin_names_unique();
                assert(builtin_table()[i as int].0 == name@);
                let c = choose|c: int| 0 <= c < builtin_table().len() && #[trigger] builtin_table()[c].0 == name@;
                if c != i {
                    assert(builtin_table()[c].0 != builtin_table()[i as int].0);
                }
            }
            return Some(b);
        }
        i = i + 1;
    }
    None
}

} // verus!
