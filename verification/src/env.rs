//! A lexical-scope stack shared by the type checker (names to types) and
//! the interpreter (names to values): a stack of name-to-binding maps,
//! searched innermost first so inner declarations shadow outer ones.

use vstd::prelude::*;
use crate::strmap::StrMap;

verus! {

/// A stack of scopes; the innermost is last.
#[derive(Debug)]
pub struct Environment<T> {
    scopes: Vec<StrMap<T>>,
}

/// The binding `name` resolves to in `scopes`, searching innermost first.
pub open spec fn resolve<T>(scopes: Seq<Map<Seq<char>, T>>, name: Seq<char>) -> Option<T>
    decreases scopes.len(),
{
    if scopes.len() == 0 {
        None
    } else if scopes.last().contains_key(name) {
        Some(scopes.last()[name])
    } else {
        resolve(scopes.drop_last(), name)
    }
}

/// Assignment: the innermost scope that binds `name` gets the new value;
/// if none does, `name` is bound in the innermost scope.
pub open spec fn assign<T>(scopes: Seq<Map<Seq<char>, T>>, name: Seq<char>, value: T) -> Seq<Map<Seq<char>, T>>
    decreases scopes.len(),
{
    if scopes.len() == 0 {
        scopes
    } else if scopes.last().contains_key(name) || resolve(scopes.drop_last(), name) is None {
        scopes.update(scopes.len() - 1, scopes.last().insert(name, value))
    } else {
        assign(scopes.drop_last(), name, value).push(scopes.last())
    }
}

impl<T> Environment<T> {
    /// The scopes, outermost first.
    pub closed spec fn scopes(&self) -> Seq<Map<Seq<char>, T>> {
        self.scopes@.map_values(|m: StrMap<T>| m@)
    }

    /// A fresh environment with a single empty (global) scope.
    pub fn new() -> (r: Self)
        ensures
            r.scopes() == seq![Map::<Seq<char>, T>::empty()],
    {
        let r = Environment { scopes: vec![StrMap::new()] };
        assert(r.scopes() =~= seq![Map::<Seq<char>, T>::empty()]);
        r
    }

    /// Opens a new empty innermost scope.
    pub fn push_scope(&mut self)
        ensures
            final(self).scopes() == old(self).scopes().push(Map::empty()),
    {
        self.scopes.push(StrMap::new());
        assert(self.scopes() =~= old(self).scopes().push(Map::empty()));
    }

    /// Discards the innermost scope and every binding in it (nothing happens
    /// when no scope is left).
    pub fn pop_scope(&mut self)
        ensures
            old(self).scopes().len() > 0 ==> final(self).scopes() == old(self).scopes().drop_last(),
            old(self).scopes().len() == 0 ==> final(self).scopes() == old(self).scopes(),
    {
        let _ = self.scopes.pop();
        assert(old(self).scopes().len() > 0 ==> self.scopes() =~= old(self).scopes().drop_last());
        assert(old(self).scopes().len() == 0 ==> self.scopes() =~= old(self).scopes());
    }

    /// Binds `name` in the innermost scope, shadowing any outer binding.
    pub fn declare(&mut self, name: &str, value: T)
        requires
            old(self).scopes().len() > 0,
        ensures
            final(self).scopes() == old(self).scopes().update(
                old(self).scopes().len() - 1,
                old(self).scopes().last().insert(name@, value),
            ),
    {
        let last = self.scopes.len() - 1;
        let mut scope = self.scopes.remove(last);
        scope.insert(name.to_owned(), value);
        self.scopes.push(scope);
        assert(self.scopes() =~= old(self).scopes().update(
            old(self).scopes().len() - 1,
            old(self).scopes().last().insert(name@, value),
        ));
    }

    /// Resolves `name`, innermost scope first; `None` if no scope binds it.
    pub fn lookup(&self, name: &str) -> (r: Option<&T>)
        ensures
            r matches Some(v) ==> resolve(self.scopes(), name@) == Some(*v),
            r is None <==> resolve(self.scopes(), name@) is None,
    {
        let mut i = self.scopes.len();
        assert(self.scopes().take(i as int) =~= self.scopes());
        while i > 0
            invariant
                i <= self.scopes@.len(),
                resolve(self.scopes(), name@) == resolve(self.scopes().take(i as int), name@),
            decreases i,
        {
            let found = self.scopes[i - 1].get(name);
            assert(self.scopes().take(i as int).last() == self.scopes@[i - 1]@);
            assert(self.scopes().take(i as int).drop_last() =~= self.scopes().take(i - 1));
            match found {
                Some(v) => {
                    return Some(v);
                },
                None => {},
            }
            i = i - 1;
        }
        None
    }

    /// Assignment: updates the innermost existing binding of `name` in place,
    /// or binds it in the innermost scope if no scope has it.
    pub fn set_or_declare(&mut self, name: &str, value: T)
        requires
            old(self).scopes().len() > 0,
        ensures
            final(self).scopes() == assign(old(self).scopes(), name@, value),
    {
        let ghost s0 = self.scopes();
        let n = self.scopes.len();
        let mut i = n;
        assert(s0.take(n as int) =~= s0);
        while i > 0
            invariant
                i <= n,
                n == self.scopes@.len(),
                s0 == self.scopes(),
                s0 == old(self).scopes(),
                n > 0,
                forall|k: int| i <= k < n ==> !(#[trigger] s0[k]).contains_key(name@),
            decreases i,
        {
            if self.scopes[i - 1].contains_key(name) {
                let mut scope = self.scopes.remove(i - 1);
                scope.insert(name.to_owned(), value);
                self.scopes.insert(i - 1, scope);
                proof {
                    let target = (i - 1) as int;
                    assert(self.scopes() =~= s0.update(target, s0[target].insert(name@, value)));
                    lemma_assign_at(s0, name@, value, target);
                }
                return;
            }
            i = i - 1;
        }
        self.declare(name, value);
        proof {
            lemma_assign_fresh(s0, name@, value);
        }
    }

    /// The innermost scope's map.
    pub fn current(&self) -> (r: &StrMap<T>)
        requires
            self.scopes().len() > 0,
        ensures
            r@ == self.scopes().last(),
    {
        let n = self.scopes.len();
        &self.scopes[n - 1]
    }

    /// How many scopes are open.
    pub fn depth(&self) -> (r: usize)
        ensures
            r == self.scopes().len(),
    {
        self.scopes.len()
    }

    /// The `i`-th scope's map, outermost first.
    pub fn scope(&self, i: usize) -> (r: &StrMap<T>)
        requires
            i < self.scopes().len(),
        ensures
            r@ == self.scopes()[i as int],
    {
        &self.scopes[i]
    }
}

/// When scope `target` is the innermost one binding `name`, assignment
/// updates exactly that scope.
proof fn lemma_assign_at<T>(s: Seq<Map<Seq<char>, T>>, name: Seq<char>, value: T, target: int)
    requires
        0 <= target < s.len(),
        s[target].contains_key(name),
        forall|k: int| target < k < s.len() ==> !(#[trigger] s[k]).contains_key(name),
    ensures
        assign(s, name, value) == s.update(target, s[target].insert(name, value)),
    decreases s.len(),
{
    if target < s.len() - 1 {
        let d = s.drop_last();
        assert(!s.last().contains_key(name));
        lemma_resolve_some(d, name, target);
        lemma_assign_at(d, name, value, target);
        assert(assign(d, name, value).push(s.last()) =~= s.update(target, s[target].insert(name, value)));
    }
}

proof fn lemma_resolve_some<T>(s: Seq<Map<Seq<char>, T>>, name: Seq<char>, target: int)
    requires
        0 <= target < s.len(),
        s[target].contains_key(name),
    ensures
        resolve(s, name) is Some,
    decreases s.len(),
{
    if !s.last().contains_key(name) {
        lemma_resolve_some(s.drop_last(), name, target);
    }
}

proof fn lemma_resolve_none<T>(s: Seq<Map<Seq<char>, T>>, name: Seq<char>)
    requires
        forall|k: int| 0 <= k < s.len() ==> !(#[trigger] s[k]).contains_key(name),
    ensures
        resolve(s, name) is None,
    decreases s.len(),
{
    if s.len() > 0 {
        assert(!s[s.len() - 1].contains_key(name));
        lemma_resolve_none(s.drop_last(), name);
    }
}

/// When no scope binds `name`, assignment binds it in the innermost scope.
proof fn lemma_assign_fresh<T>(s: Seq<Map<Seq<char>, T>>, name: Seq<char>, value: T)
    requires
        s.len() > 0,
        forall|k: int| 0 <= k < s.len() ==> !(#[trigger] s[k]).contains_key(name),
    ensures
        assign(s, name, value) == s.update(s.len() - 1, s.last().insert(name, value)),
{
    lemma_resolve_none(s.drop_last(), name);
}

/// Opening a scope and closing it again leaves the environment as it was.
pub proof fn lemma_push_pop_identity<T>(s: Seq<Map<Seq<char>, T>>)
    ensures
        s.push(Map::empty()).drop_last() == s,
{
    assert(s.push(Map::empty()).drop_last() =~= s);
}

/// A name just declared resolves to its new value.
pub proof fn lemma_declare_then_resolve<T>(s: Seq<Map<Seq<char>, T>>, name: Seq<char>, value: T)
    requires
        s.len() > 0,
    ensures
        resolve(s.update(s.len() - 1, s.last().insert(name, value)), name) == Some(value),
{
}

/// Declaring in an inner scope and closing that scope restores what the
/// name resolved to before.
pub proof fn lemma_shadow_then_restore<T>(s: Seq<Map<Seq<char>, T>>, name: Seq<char>, value: T)
    ensures
        ({
            let inner = s.push(Map::<Seq<char>, T>::empty());
            let declared = inner.update(inner.len() - 1, inner.last().insert(name, value));
            resolve(declared.drop_last(), name) == resolve(s, name)
        }),
{
    let inner = s.push(Map::<Seq<char>, T>::empty());
    let declared = inner.update(inner.len() - 1, inner.last().insert(name, value));
    assert(declared.drop_last() =~= s);
}

/// A name just assigned resolves to its new value.
pub proof fn lemma_assign_then_resolve<T>(s: Seq<Map<Seq<char>, T>>, name: Seq<char>, value: T)
    requires
        s.len() > 0,
    ensures
        resolve(assign(s, name, value), name) == Some(value),
    decreases s.len(),
{
    if !(s.last().contains_key(name) || resolve(s.drop_last(), name) is None) {
        lemma_assign_then_resolve(s.drop_last(), name, value);
        assert(assign(s, name, value).drop_last() =~= assign(s.drop_last(), name, value));
    }
}

/// Assignment never changes how many scopes there are.
pub proof fn lemma_assign_keeps_depth<T>(s: Seq<Map<Seq<char>, T>>, name: Seq<char>, value: T)
    ensures
        assign(s, name, value).len() == s.len(),
    decreases s.len(),
{
    if s.len() > 0 && !(s.last().contains_key(name) || resolve(s.drop_last(), name) is None) {
        lemma_assign_keeps_depth(s.drop_last(), name, value);
    }
}

} // verus!
