//! Registry of Yara's methods on primitive receivers (`Integer`, `Float`,
//! `Boolean`, `String`, arrays, pointers): `xs.size()`, `2.to_s()`,
//! `"3".to_i()`, `p.deref()`, ... keyed by receiver kind and name, since
//! one name (`to_s`) exists on several receivers. Instances of user classes
//! and `Nil` have no entry here; their method calls go through the class
//! tables instead.

use vstd::prelude::*;
use crate::text::str_eq;
use crate::typechecker::{Type, TypeModel};

verus! {

/// Which kind of receiver a method attaches to.
#[derive(Debug, Clone, Copy, PartialEq, Eq, Structural)]
pub enum ReceiverKind {
    Integer,
    Float,
    Boolean,
    String,
    Array,
    Pointer,
}

/// One method: its receiver kind, name and exact argument count.
#[derive(Debug, Clone, Copy)]
pub struct Method {
    pub receiver: ReceiverKind,
    pub name: &'static str,
    pub arity: usize,
}

/// The method table, in registry order.
pub open spec fn method_table() -> Seq<(ReceiverKind, Seq<char>, nat)> {
    seq![
        (ReceiverKind::Array, "size"@, 0nat),
        (ReceiverKind::Array, "push"@, 1nat),
        (ReceiverKind::Array, "get"@, 1nat),
        (ReceiverKind::Array, "set"@, 2nat),
        (ReceiverKind::Array, "pop"@, 0nat),
        (ReceiverKind::Array, "is_empty"@, 0nat),
        (ReceiverKind::String, "size"@, 0nat),
        (ReceiverKind::String, "upper"@, 0nat),
        (ReceiverKind::String, "lower"@, 0nat),
        (ReceiverKind::String, "trim"@, 0nat),
        (ReceiverKind::String, "is_empty"@, 0nat),
        (ReceiverKind::String, "to_i"@, 0nat),
        (ReceiverKind::String, "to_f"@, 0nat),
        (ReceiverKind::String, "to_s"@, 0nat),
        (ReceiverKind::Integer, "to_s"@, 0nat),
        (ReceiverKind::Integer, "to_f"@, 0nat),
        (ReceiverKind::Integer, "abs"@, 0nat),
        (ReceiverKind::Float, "to_s"@, 0nat),
        (ReceiverKind::Float, "to_i"@, 0nat),
        (ReceiverKind::Float, "abs"@, 0nat),
        (ReceiverKind::Boolean, "to_s"@, 0nat),
        (ReceiverKind::Pointer, "deref"@, 0nat),
        (ReceiverKind::Pointer, "set_deref"@, 1nat),
        (ReceiverKind::Pointer, "free"@, 0nat),
    ]
}

/// Every primitive method, in registry order.
pub fn methods() -> (r: Vec<Method>)
    ensures
        r@.len() == method_table().len(),
        forall|i: int| 0 <= i < r@.len() ==> (#[trigger] r@[i]).receiver == method_table()[i].0
            && r@[i].name@ == method_table()[i].1 && r@[i].arity == method_table()[i].2,
{
    vec![
        Method { receiver: ReceiverKind::Array, name: "size", arity: 0 },
        Method { receiver: ReceiverKind::Array, name: "push", arity: 1 },
        Method { receiver: ReceiverKind::Array, name: "get", arity: 1 },
        Method { receiver: ReceiverKind::Array, name: "set", arity: 2 },
        Method { receiver: ReceiverKind::Array, name: "pop", arity: 0 },
        Method { receiver: ReceiverKind::Array, name: "is_empty", arity: 0 },
        Method { receiver: ReceiverKind::String, name: "size", arity: 0 },
        Method { receiver: ReceiverKind::String, name: "upper", arity: 0 },
        Method { receiver: ReceiverKind::String, name: "lower", arity: 0 },
        Method { receiver: ReceiverKind::String, name: "trim", arity: 0 },
        Method { receiver: ReceiverKind::String, name: "is_empty", arity: 0 },
        Method { receiver: ReceiverKind::String, name: "to_i", arity: 0 },
        Method { receiver: ReceiverKind::String, name: "to_f", arity: 0 },
        Method { receiver: ReceiverKind::String, name: "to_s", arity: 0 },
        Method { receiver: ReceiverKind::Integer, name: "to_s", arity: 0 },
        Method { receiver: ReceiverKind::Integer, name: "to_f", arity: 0 },
        Method { receiver: ReceiverKind::Integer, name: "abs", arity: 0 },
        Method { receiver: ReceiverKind::Float, name: "to_s", arity: 0 },
        Method { receiver: ReceiverKind::Float, name: "to_i", arity: 0 },
        Method { receiver: ReceiverKind::Float, name: "abs", arity: 0 },
        Method { receiver: ReceiverKind::Boolean, name: "to_s", arity: 0 },
        Method { receiver: ReceiverKind::Pointer, name: "deref", arity: 0 },
        Method { receiver: ReceiverKind::Pointer, name: "set_deref", arity: 1 },
        Method { receiver: ReceiverKind::Pointer, name: "free", arity: 0 },
    ]
}

/// No receiver kind has two methods of the same name.
pub proof fn lemma_method_pairs_unique()
    ensures
        forall|i: int, j: int| 0 <= i < method_table().len() && 0 <= j < method_table().len()
            && i != j && #[trigger] method_table()[i].0 == #[trigger] method_table()[j].0
            ==> method_table()[i].1 != method_table()[j].1,
{
    reveal_strlit("size");
    reveal_strlit("push");
    reveal_strlit("get");
    reveal_strlit("set");
    reveal_strlit("pop");
    reveal_strlit("is_empty");
    reveal_strlit("upper");
    reveal_strlit("lower");
    reveal_strlit("trim");
    reveal_strlit("to_i");
    reveal_strlit("to_f");
    reveal_strlit("to_s");
    reveal_strlit("abs");
    reveal_strlit("deref");
    reveal_strlit("set_deref");
    reveal_strlit("free");
    assert forall|i: int, j: int| 0 <= i < method_table().len() && 0 <= j < method_table().len()
        && i != j && #[trigger] method_table()[i].0 == #[trigger] method_table()[j].0
        implies method_table()[i].1 != method_table()[j].1 by {
        let a = method_table()[i].1;
        let b = method_table()[j].1;
        if a == b {
            assert(a.len() == b.len());
            assert(a[0] == b[0]);
            assert(a[a.len() - 1] == b[b.len() - 1]);
        }
    }
}

/// The registry position of the method `name` on `receiver`, if there is one.
pub open spec fn method_index(receiver: ReceiverKind, name: Seq<char>) -> Option<int> {
    if exists|i: int| 0 <= i < method_table().len() && (#[trigger] method_table()[i]).0 == receiver
        && method_table()[i].1 == name {
        Some(choose|i: int| 0 <= i < method_table().len() && (#[trigger] method_table()[i]).0 == receiver
            && method_table()[i].1 == name)
    } else {
        None
    }
}

/// Each entry of the table is found at its own position.
pub proof fn lemma_method_positions()
    ensures
        forall|i: int| 0 <= i < method_table().len() ==> method_index(
            #[trigger] method_table()[i].0,
            method_table()[i].1,
        ) == Some(i),
{
    lemma_method_pairs_unique();
    assert forall|i: int| 0 <= i < method_table().len() implies method_index(
        #[trigger] method_table()[i].0,
        method_table()[i].1,
    ) == Some(i) by {
        let c = method_index(method_table()[i].0, method_table()[i].1)->0;
        if c != i {
            assert(method_table()[c].1 != method_table()[i].1);
        }
    }
}

/// The positions, and so the arities, of the methods whose arguments the
/// type checker inspects.
pub proof fn lemma_method_arities()
    ensures
        method_index(ReceiverKind::Array, "push"@) == Some(1int),
        method_index(ReceiverKind::Array, "get"@) == Some(2int),
        method_index(ReceiverKind::Array, "set"@) == Some(3int),
        method_index(ReceiverKind::Pointer, "set_deref"@) == Some(22int),
        method_table()[1].2 == 1,
        method_table()[2].2 == 1,
        method_table()[3].2 == 2,
        method_table()[22].2 == 1,
{
    lemma_method_positions();
    assert(method_table()[1].0 == ReceiverKind::Array && method_table()[1].1 == "push"@);
    assert(method_table()[2].0 == ReceiverKind::Array && method_table()[2].1 == "get"@);
    assert(method_table()[3].0 == ReceiverKind::Array && method_table()[3].1 == "set"@);
    assert(method_table()[22].0 == ReceiverKind::Pointer && method_table()[22].1 == "set_deref"@);
}

/// Looks up a method by receiver kind and name.
pub fn lookup(receiver: ReceiverKind, name: &str) -> (r: Option<Method>)
    ensures
        r is None <==> method_index(receiver, name@) is None,
        r matches Some(m) ==> m.receiver == receiver && m.name@ == name@
            && m.arity == method_table()[method_index(receiver, name@)->0].2,
{
    let table = methods();
    let mut i: usize = 0;
    while i < table.len()
        invariant
            i <= table@.len(),
            table@.len() == method_table().len(),
            forall|k: int| 0 <= k < table@.len() ==> (#[trigger] table@[k]).receiver == method_table()[k].0
                && table@[k].name@ == method_table()[k].1 && table@[k].arity == method_table()[k].2,
            forall|k: int| 0 <= k < i ==> !((#[trigger] method_table()[k]).0 == receiver
                && method_table()[k].1 == name@),
        decreases table@.len() - i,
    {
        let m = table[i];
        if m.receiver == receiver && str_eq(m.name, name) {
            proof {
                lemma_method_pairs_unique();
                assert(method_table()[i as int].0 == receiver && method_table()[i as int].1 == name@);
                let c = method_index(receiver, name@)->0;
                if c != i {
                    assert(method_table()[c].1 != method_table()[i as int].1);
                }
            }
            return Some(m);
        }
        i = i + 1;
    }
    None
}

/// The names of the entries of `entries` attached to `receiver`, in order.
pub open spec fn names_in(entries: Seq<(ReceiverKind, Seq<char>, nat)>, receiver: ReceiverKind) -> Seq<Seq<char>>
    decreases entries.len(),
{
    if entries.len() == 0 {
        Seq::empty()
    } else {
        let rest = names_in(entries.drop_last(), receiver);
        if entries.last().0 == receiver {
            rest.push(entries.last().1)
        } else {
            rest
        }
    }
}

/// The names of the methods on `receiver`, in registry order.
pub open spec fn names_on(receiver: ReceiverKind) -> Seq<Seq<char>> {
    names_in(method_table(), receiver)
}

/// All method names available on `receiver`, in registry order.
pub fn names_for(receiver: ReceiverKind) -> (r: Vec<&'static str>)
    ensures
        r@.map_values(|s: &str| s@) == names_on(receiver),
{
    let table = methods();
    let mut r: Vec<&'static str> = Vec::new();
    let mut i: usize = 0;
    assert(r@.map_values(|s: &str| s@) =~= names_in(method_table().take(0), receiver));
    while i < table.len()
        invariant
            i <= table@.len(),
            table@.len() == method_table().len(),
            forall|k: int| 0 <= k < table@.len() ==> (#[trigger] table@[k]).receiver == method_table()[k].0
                && table@[k].name@ == method_table()[k].1 && table@[k].arity == method_table()[k].2,
            r@.map_values(|s: &str| s@) == names_in(method_table().take(i as int), receiver),
        decreases table@.len() - i,
    {
        let m = table[i];
        proof {
            assert(method_table().take(i + 1).drop_last() =~= method_table().take(i as int));
            assert(method_table().take(i + 1).last() == method_table()[i as int]);
        }
        if m.receiver == receiver {
            r.push(m.name);
            assert(r@.map_values(|s: &str| s@) =~= names_in(method_table().take(i + 1), receiver));
        } else {
            assert(r@.map_values(|s: &str| s@) =~= names_in(method_table().take(i + 1), receiver));
        }
        i = i + 1;
    }
    assert(method_table().take(i as int) =~= method_table());
    r
}

/// The receiver kind of a static type: `None` for class instances and `Nil`.
pub open spec fn receiver_of_type(t: TypeModel) -> Option<ReceiverKind> {
    match t {
        TypeModel::Integer => Some(ReceiverKind::Integer),
        TypeModel::Float => Some(ReceiverKind::Float),
        TypeModel::Boolean => Some(ReceiverKind::Boolean),
        TypeModel::String => Some(ReceiverKind::String),
        TypeModel::Array(_) => Some(ReceiverKind::Array),
        TypeModel::Pointer(_) => Some(ReceiverKind::Pointer),
        TypeModel::Nil => None,
        TypeModel::Instance(_) => None,
    }
}

impl ReceiverKind {
    /// Maps a static type to its receiver kind, or `None` for an instance or `Nil`.
    pub fn of_type(t: &Type) -> (r: Option<ReceiverKind>)
        ensures
            r == receiver_of_type(t@),
    {
        match t {
            Type::Integer => Some(ReceiverKind::Integer),
            Type::Float => Some(ReceiverKind::Float),
            Type::Boolean => Some(ReceiverKind::Boolean),
            Type::String => Some(ReceiverKind::String),
            Type::Array(_) => Some(ReceiverKind::Array),
            Type::Pointer(_) => Some(ReceiverKind::Pointer),
            Type::Nil => None,
            Type::Instance(_) => None,
        }
    }
}

} // verus!
