//! The heap behind the language's opt-in pointers. Every `alloc` gets a
//! slot of its own at the end; `free` empties a slot and slots are never
//! reused, so a stale pointer is always caught as a use after free instead
//! of silently reading a newer allocation. `collect` is the teaching
//! garbage collector: it frees every live slot that no root reaches.

use vstd::prelude::*;
use crate::text::{decimal, push_str, usize_to_decimal};

verus! {

/// Why a pointer operation was refused.
#[derive(Debug, Clone, Copy, PartialEq, Eq, Structural)]
pub enum HeapFault {
    /// The pointer names no slot that was ever allocated.
    Invalid,
    /// The slot was freed before this read or write.
    UseAfterFree,
    /// The slot was freed before this `free`.
    DoubleFree,
}

/// The runtime message for `fault` on pointer number `ptr`.
pub open spec fn fault_text(fault: HeapFault, ptr: nat) -> Seq<char> {
    match fault {
        HeapFault::Invalid => "invalid pointer ptr#"@ + decimal(ptr),
        HeapFault::UseAfterFree => "use after free: pointer ptr#"@ + decimal(ptr) + " was already freed"@,
        HeapFault::DoubleFree => "double free: pointer ptr#"@ + decimal(ptr) + " was already freed"@,
    }
}

/// The message a runtime error carries for `fault` on pointer `ptr`.
pub fn fault_message(fault: HeapFault, ptr: usize) -> (r: String)
    ensures
        r@ == fault_text(fault, ptr as nat),
{
    let mut out = String::new();
    match fault {
        HeapFault::Invalid => push_str(&mut out, "invalid pointer ptr#"),
        HeapFault::UseAfterFree => push_str(&mut out, "use after free: pointer ptr#"),
        HeapFault::DoubleFree => push_str(&mut out, "double free: pointer ptr#"),
    }
    let n = usize_to_decimal(ptr);
    push_str(&mut out, n.as_str());
    match fault {
        HeapFault::Invalid => {},
        _ => push_str(&mut out, " was already freed"),
    }
    out
}

/// What reading or writing through `ptr` runs into, if anything.
pub open spec fn access_fault<T>(slots: Seq<Option<T>>, ptr: int) -> Option<HeapFault> {
    if ptr < 0 || ptr >= slots.len() {
        Some(HeapFault::Invalid)
    } else if slots[ptr] is None {
        Some(HeapFault::UseAfterFree)
    } else {
        None
    }
}

/// What freeing `ptr` runs into, if anything.
pub open spec fn free_fault<T>(slots: Seq<Option<T>>, ptr: int) -> Option<HeapFault> {
    if ptr < 0 || ptr >= slots.len() {
        Some(HeapFault::Invalid)
    } else if slots[ptr] is None {
        Some(HeapFault::DoubleFree)
    } else {
        None
    }
}

/// The allocation slots, in allocation order; a freed slot is `None`.
#[derive(Debug)]
pub struct Heap<T> {
    slots: Vec<Option<T>>,
}

impl<T> Heap<T> {
    /// Every slot ever allocated, `None` where freed.
    pub closed spec fn slots(&self) -> Seq<Option<T>> {
        self.slots@
    }

    /// A heap with no allocations.
    pub fn new() -> (r: Heap<T>)
        ensures
            r.slots() == Seq::<Option<T>>::empty(),
    {
        Heap { slots: Vec::new() }
    }

    /// How many slots were ever allocated.
    pub fn len(&self) -> (r: usize)
        ensures
            r == self.slots().len(),
    {
        self.slots.len()
    }

    /// Stores `value` in a fresh slot after all the others and returns its
    /// pointer; no existing slot changes.
    pub fn allocate(&mut self, value: T) -> (r: usize)
        ensures
            final(self).slots() == old(self).slots().push(Some(value)),
            r == old(self).slots().len(),
    {
        self.slots.push(Some(value));
        self.slots.len() - 1
    }

    /// The value `ptr` points to.
    pub fn read(&self, ptr: usize) -> (r: Result<&T, HeapFault>)
        ensures
            match access_fault(self.slots(), ptr as int) {
                Some(f) => r == Err::<&T, HeapFault>(f),
                None => r matches Ok(v) && self.slots()[ptr as int] == Some(*v),
            },
    {
        if ptr >= self.slots.len() {
            return Err(HeapFault::Invalid);
        }
        match &self.slots[ptr] {
            Some(v) => Ok(v),
            None => Err(HeapFault::UseAfterFree),
        }
    }

    /// Replaces the value `ptr` points to; on a fault nothing changes.
    pub fn write(&mut self, ptr: usize, value: T) -> (r: Result<(), HeapFault>)
        ensures
            match access_fault(old(self).slots(), ptr as int) {
                Some(f) => r == Err::<(), HeapFault>(f) && final(self).slots() == old(self).slots(),
                None => r is Ok && final(self).slots() == old(self).slots().update(ptr as int, Some(value)),
            },
    {
        if ptr >= self.slots.len() {
            return Err(HeapFault::Invalid);
        }
        if self.slots[ptr].is_none() {
            return Err(HeapFault::UseAfterFree);
        }
        self.slots.set(ptr, Some(value));
        Ok(())
    }

    /// Empties the slot `ptr` points to, for good; on a fault nothing changes.
    pub fn free(&mut self, ptr: usize) -> (r: Result<(), HeapFault>)
        ensures
            match free_fault(old(self).slots(), ptr as int) {
                Some(f) => r == Err::<(), HeapFault>(f) && final(self).slots() == old(self).slots(),
                None => r is Ok && final(self).slots() == old(self).slots().update(ptr as int, None),
            },
    {
        if ptr >= self.slots.len() {
            return Err(HeapFault::Invalid);
        }
        if self.slots[ptr].is_none() {
            return Err(HeapFault::DoubleFree);
        }
        self.slots.set(ptr, None);
        Ok(())
    }
}

/// The pointers each slot's value holds, one list per slot, as plain numbers.
pub open spec fn edges_view(edges: Seq<Vec<usize>>) -> Seq<Seq<usize>> {
    edges.map_values(|e: Vec<usize>| e@)
}

/// `p` is a chain of pointers that starts at a root and goes, at each step,
/// from a live slot to a pointer that slot's value holds.
pub open spec fn is_path<T>(slots: Seq<Option<T>>, edges: Seq<Seq<usize>>, roots: Seq<usize>, p: Seq<usize>) -> bool {
    &&& p.len() > 0
    &&& roots.contains(p[0])
    &&& forall|k: int| 0 <= k < p.len() - 1 ==> {
        &&& #[trigger] p[k] < slots.len()
        &&& slots[p[k] as int] is Some
        &&& edges[p[k] as int].contains(p[k + 1])
    }
}

/// Pointer `j` is reached from the roots, directly or through live slots.
pub open spec fn reachable<T>(slots: Seq<Option<T>>, edges: Seq<Seq<usize>>, roots: Seq<usize>, j: usize) -> bool {
    exists|p: Seq<usize>| #[trigger] is_path(slots, edges, roots, p) && p.last() == j
}

/// Slot `i` holds a value that nothing reaches: what `collect` frees.
pub open spec fn is_garbage<T>(slots: Seq<Option<T>>, edges: Seq<Seq<usize>>, roots: Seq<usize>, i: int) -> bool {
    0 <= i < slots.len() && slots[i] is Some && !reachable(slots, edges, roots, i as usize)
}

/// How many of the first `n` slots are garbage.
pub open spec fn garbage_count<T>(slots: Seq<Option<T>>, edges: Seq<Seq<usize>>, roots: Seq<usize>, n: int) -> nat
    decreases n,
{
    if n <= 0 {
        0
    } else {
        garbage_count(slots, edges, roots, n - 1) + if is_garbage(slots, edges, roots, n - 1) { 1nat } else { 0nat }
    }
}

/// The heap after a collection: garbage slots emptied, all others kept.
pub open spec fn collected<T>(slots: Seq<Option<T>>, edges: Seq<Seq<usize>>, roots: Seq<usize>) -> Seq<Option<T>> {
    Seq::new(slots.len(), |i: int| if is_garbage(slots, edges, roots, i) { None } else { slots[i] })
}

/// The number of `false` entries.
pub open spec fn count_false(s: Seq<bool>) -> nat
    decreases s.len(),
{
    if s.len() == 0 {
        0
    } else {
        count_false(s.drop_last()) + if s.last() { 0nat } else { 1nat }
    }
}

proof fn lemma_count_false_mark(s: Seq<bool>, i: int)
    requires
        0 <= i < s.len(),
        !s[i],
    ensures
        count_false(s.update(i, true)) + 1 == count_false(s),
    decreases s.len(),
{
    if i < s.len() - 1 {
        assert(s.update(i, true).drop_last() =~= s.drop_last().update(i, true));
        lemma_count_false_mark(s.drop_last(), i);
    } else {
        assert(s.update(i, true).drop_last() =~= s.drop_last());
    }
}

/// Extending a path by a pointer held by its live last slot.
proof fn lemma_path_push<T>(slots: Seq<Option<T>>, edges: Seq<Seq<usize>>, roots: Seq<usize>, p: Seq<usize>, t: usize)
    requires
        is_path(slots, edges, roots, p),
        p.last() < slots.len(),
        slots[p.last() as int] is Some,
        edges[p.last() as int].contains(t),
    ensures
        is_path(slots, edges, roots, p.push(t)),
        p.push(t).last() == t,
{
    let q = p.push(t);
    assert forall|k: int| 0 <= k < q.len() - 1 implies {
        &&& #[trigger] q[k] < slots.len()
        &&& slots[q[k] as int] is Some
        &&& edges[q[k] as int].contains(q[k + 1])
    } by {
        if k < p.len() - 1 {
            assert(q[k] == p[k] && q[k + 1] == p[k + 1]);
        } else {
            assert(q[k] == p.last() && q[k + 1] == t);
        }
    }
}

/// With every in-range root marked and every marked live slot's pointers
/// marked, every reachable slot is marked.
proof fn lemma_closed_marks_reachable<T>(
    slots: Seq<Option<T>>,
    edges: Seq<Seq<usize>>,
    roots: Seq<usize>,
    marked: Seq<bool>,
    p: Seq<usize>,
)
    requires
        marked.len() == slots.len(),
        forall|k: int| 0 <= k < roots.len() && roots[k] < slots.len() ==> marked[roots[k] as int],
        forall|i: int, t: usize| 0 <= i < slots.len() && marked[i] && slots[i] is Some
            && #[trigger] edges[i].contains(t) && t < slots.len() ==> marked[t as int],
        is_path(slots, edges, roots, p),
        p.last() < slots.len(),
    ensures
        marked[p.last() as int],
    decreases p.len(),
{
    if p.len() == 1 {
        let k = choose|k: int| 0 <= k < roots.len() && roots[k] == p[0];
        assert(roots[k] == p[0]);
    } else {
        let q = p.drop_last();
        assert forall|k: int| 0 <= k < q.len() - 1 implies {
            &&& #[trigger] q[k] < slots.len()
            &&& slots[q[k] as int] is Some
            &&& edges[q[k] as int].contains(q[k + 1])
        } by {
            assert(q[k] == p[k] && q[k + 1] == p[k + 1]);
        }
        assert(q[0] == p[0]);
        assert(p[p.len() - 2] < slots.len());
        lemma_closed_marks_reachable(slots, edges, roots, marked, q);
        assert(q.last() == p[p.len() - 2]);
        assert(edges[q.last() as int].contains(p.last()));
    }
}

/// Pushing `x` adds exactly `x` to what a sequence contains.
proof fn lemma_contains_push(s: Seq<usize>, x: usize)
    ensures
        forall|y: usize| #[trigger] s.push(x).contains(y) <==> (s.contains(y) || y == x),
{
    assert forall|y: usize| #[trigger] s.push(x).contains(y) <==> (s.contains(y) || y == x) by {
        if s.contains(y) {
            let i = choose|i: int| 0 <= i < s.len() && s[i] == y;
            assert(s.push(x)[i] == y);
        }
        if y == x {
            assert(s.push(x)[s.len() as int] == x);
        }
        if s.push(x).contains(y) && y != x {
            let i = choose|i: int| 0 <= i < s.push(x).len() && s.push(x)[i] == y;
            assert(s[i] == y);
        }
    }
}

impl<T> Heap<T> {
    /// The garbage collector: frees every live slot that no root reaches,
    /// where `roots` are the pointers held by live variables and `edges[i]`
    /// the pointers held by slot `i`'s value; returns how many it freed.
    pub fn collect(&mut self, roots: &Vec<usize>, edges: &Vec<Vec<usize>>) -> (r: usize)
        requires
            edges@.len() == old(self).slots().len(),
        ensures
            final(self).slots() == collected(old(self).slots(), edges_view(edges@), roots@),
            r == garbage_count(old(self).slots(), edges_view(edges@), roots@, old(self).slots().len() as int),
    {
        let n = self.slots.len();
        let ghost slots = self.slots@;
        let ghost es = edges_view(edges@);
        let ghost rs = roots@;
        let mut marked: Vec<bool> = Vec::new();
        let mut i: usize = 0;
        while i < n
            invariant
                i <= n,
                marked@.len() == i,
                forall|k: int| 0 <= k < i ==> !marked@[k],
            decreases n - i,
        {
            marked.push(false);
            i = i + 1;
        }
        let mut worklist: Vec<usize> = Vec::new();
        let ghost mut witness: Map<usize, Seq<usize>> = Map::empty();
        let mut k: usize = 0;
        while k < roots.len()
            invariant
                n == slots.len(),
                self.slots@ == slots,
                rs == roots@,
                es == edges_view(edges@),
                es.len() == n,
                marked@.len() == n,
                k <= roots@.len(),
                forall|j: int| 0 <= j < k && roots@[j] < n ==> marked@[roots@[j] as int],
                forall|j: int| 0 <= j < worklist@.len() ==> #[trigger] worklist@[j] < n && marked@[worklist@[j] as int],
                forall|j: usize| j < n && #[trigger] marked@[j as int] ==> witness.contains_key(j)
                    && is_path(slots, es, rs, witness[j]) && witness[j].last() == j,
                forall|j: int, t: usize| 0 <= j < n && marked@[j] && slots[j] is Some && !worklist@.contains(j as usize)
                    && #[trigger] es[j].contains(t) && t < n ==> marked@[t as int],
            decreases roots@.len() - k,
        {
            let root = roots[k];
            if root < n && !marked[root] {
                let ghost before = worklist@;
                marked.set(root, true);
                worklist.push(root);
                proof {
                    lemma_contains_push(before, root);
                    assert(rs[k as int] == root);
                    witness = witness.insert(root, seq![root]);
                    assert(is_path(slots, es, rs, seq![root]));
                }
            }
            k = k + 1;
        }
        while worklist.len() > 0
            invariant
                n == slots.len(),
                self.slots@ == slots,
                rs == roots@,
                es == edges_view(edges@),
                es.len() == n,
                edges@.len() == n,
                marked@.len() == n,
                forall|j: int| 0 <= j < rs.len() && rs[j] < n ==> marked@[rs[j] as int],
                forall|j: int| 0 <= j < worklist@.len() ==> #[trigger] worklist@[j] < n && marked@[worklist@[j] as int],
                forall|j: usize| j < n && #[trigger] marked@[j as int] ==> witness.contains_key(j)
                    && is_path(slots, es, rs, witness[j]) && witness[j].last() == j,
                forall|j: int, t: usize| 0 <= j < n && marked@[j] && slots[j] is Some && !worklist@.contains(j as usize)
                    && #[trigger] es[j].contains(t) && t < n ==> marked@[t as int],
            decreases count_false(marked@), worklist@.len(),
        {
            let ghost wl_before_pop = worklist@;
            let cur = worklist.pop().unwrap();
            let ghost wl_after_pop = worklist@;
            let ghost marked_before = marked@;
            proof {
                assert(wl_before_pop =~= wl_after_pop.push(cur));
                lemma_contains_push(wl_after_pop, cur);
                assert(wl_before_pop[wl_before_pop.len() - 1] == cur);
            }
            if self.slots[cur].is_some() {
                let out = &edges[cur];
                assert(es[cur as int] == out@);
                let mut e: usize = 0;
                while e < out.len()
                    invariant
                        n == slots.len(),
                        self.slots@ == slots,
                        rs == roots@,
                        es == edges_view(edges@),
                        es.len() == n,
                        es[cur as int] == out@,
                        cur < n,
                        slots[cur as int] is Some,
                        marked@[cur as int],
                        marked@.len() == n,
                        e <= out@.len(),
                        count_false(marked@) <= count_false(marked_before),
                        count_false(marked@) == count_false(marked_before) ==> worklist@ == wl_after_pop,
                        forall|y: usize| #[trigger] wl_after_pop.contains(y) ==> worklist@.contains(y),
                        forall|j: int| 0 <= j < rs.len() && rs[j] < n ==> marked@[rs[j] as int],
                        forall|j: int| 0 <= j < worklist@.len() ==> #[trigger] worklist@[j] < n && marked@[worklist@[j] as int],
                        forall|j: usize| j < n && #[trigger] marked@[j as int] ==> witness.contains_key(j)
                            && is_path(slots, es, rs, witness[j]) && witness[j].last() == j,
                        forall|j: int, t: usize| 0 <= j < n && j != cur && marked@[j] && slots[j] is Some
                            && !worklist@.contains(j as usize) && #[trigger] es[j].contains(t) && t < n ==> marked@[t as int],
                        forall|m: int| 0 <= m < e && out@[m] < n ==> marked@[out@[m] as int],
                    decreases out@.len() - e,
                {
                    let t = out[e];
                    if t < n && !marked[t] {
                        let ghost before = worklist@;
                        proof {
                            lemma_count_false_mark(marked@, t as int);
                            assert(es[cur as int].contains(t)) by {
                                assert(es[cur as int][e as int] == t);
                            }
                            lemma_path_push(slots, es, rs, witness[cur], t);
                            witness = witness.insert(t, witness[cur].push(t));
                        }
                        marked.set(t, true);
                        worklist.push(t);
                        proof {
                            lemma_contains_push(before, t);
                        }
                    }
                    e = e + 1;
                }
                proof {
                    assert forall|t: usize| #[trigger] es[cur as int].contains(t) && t < n implies marked@[t as int] by {
                        let m = choose|m: int| 0 <= m < out@.len() && out@[m] == t;
                    }
                }
            }
        }
        proof {
            assert forall|j: usize| j < n implies (marked@[j as int] <==> reachable(slots, es, rs, j)) by {
                if marked@[j as int] {
                    assert(is_path(slots, es, rs, witness[j]));
                }
                if reachable(slots, es, rs, j) {
                    let p = choose|p: Seq<usize>| #[trigger] is_path(slots, es, rs, p) && p.last() == j;
                    lemma_closed_marks_reachable(slots, es, rs, marked@, p);
                }
            }
        }
        let mut freed: usize = 0;
        let mut i: usize = 0;
        while i < n
            invariant
                n == slots.len(),
                i <= n,
                rs == roots@,
                es == edges_view(edges@),
                marked@.len() == n,
                forall|j: usize| j < n ==> (marked@[j as int] <==> reachable(slots, es, rs, j)),
                self.slots@.len() == n,
                forall|j: int| 0 <= j < i ==> self.slots@[j] == (if is_garbage(slots, es, rs, j) { None } else { slots[j] }),
                forall|j: int| i <= j < n ==> self.slots@[j] == slots[j],
                freed == garbage_count(slots, es, rs, i as int),
                freed <= i,
            decreases n - i,
        {
            if self.slots[i].is_some() && !marked[i] {
                self.slots.set(i, None);
                freed = freed + 1;
            }
            i = i + 1;
        }
        assert(self.slots@ =~= collected(slots, es, rs));
        freed
    }
}

/// Every prefix of a path is a path.
proof fn lemma_path_prefix<T>(slots: Seq<Option<T>>, edges: Seq<Seq<usize>>, roots: Seq<usize>, p: Seq<usize>, k: int)
    requires
        is_path(slots, edges, roots, p),
        0 <= k < p.len(),
    ensures
        is_path(slots, edges, roots, p.take(k + 1)),
        p.take(k + 1).last() == p[k],
{
    let q = p.take(k + 1);
    assert(q[0] == p[0]);
    assert forall|m: int| 0 <= m < q.len() - 1 implies {
        &&& #[trigger] q[m] < slots.len()
        &&& slots[q[m] as int] is Some
        &&& edges[q[m] as int].contains(q[m + 1])
    } by {
        assert(q[m] == p[m] && q[m + 1] == p[m + 1]);
    }
}

/// A heap with no garbage has a garbage count of zero.
proof fn lemma_no_garbage_count<T>(slots: Seq<Option<T>>, edges: Seq<Seq<usize>>, roots: Seq<usize>, n: int)
    requires
        forall|i: int| 0 <= i < n ==> !is_garbage(slots, edges, roots, i),
    ensures
        garbage_count(slots, edges, roots, n) == 0,
    decreases n,
{
    if n > 0 {
        lemma_no_garbage_count(slots, edges, roots, n - 1);
    }
}

/// Collecting leaves no garbage behind: everything reachable before is
/// still reachable, so a second collection with the same roots frees
/// nothing and changes nothing.
pub proof fn lemma_collect_idempotent<T>(slots: Seq<Option<T>>, edges: Seq<Seq<usize>>, roots: Seq<usize>)
    ensures
        ({
            let once = collected(slots, edges, roots);
            &&& forall|j: usize| reachable(slots, edges, roots, j) ==> #[trigger] reachable(once, edges, roots, j)
            &&& garbage_count(once, edges, roots, once.len() as int) == 0
            &&& collected(once, edges, roots) == once
        }),
{
    let once = collected(slots, edges, roots);
    assert forall|j: usize| reachable(slots, edges, roots, j) implies #[trigger] reachable(once, edges, roots, j) by {
        let p = choose|p: Seq<usize>| #[trigger] is_path(slots, edges, roots, p) && p.last() == j;
        assert forall|k: int| 0 <= k < p.len() - 1 implies {
            &&& #[trigger] p[k] < once.len()
            &&& once[p[k] as int] is Some
            &&& edges[p[k] as int].contains(p[k + 1])
        } by {
            lemma_path_prefix(slots, edges, roots, p, k);
            assert(reachable(slots, edges, roots, p[k]));
            assert(!is_garbage(slots, edges, roots, p[k] as int));
        }
        assert(is_path(once, edges, roots, p));
    }
    assert forall|i: int| 0 <= i < once.len() implies !is_garbage(once, edges, roots, i) by {
        if once[i] is Some {
            assert(!is_garbage(slots, edges, roots, i));
            assert(reachable(slots, edges, roots, i as usize));
            assert(reachable(once, edges, roots, i as usize));
        }
    }
    lemma_no_garbage_count(once, edges, roots, once.len() as int);
    assert(collected(once, edges, roots) =~= once);
}

/// A read through a pointer gives back what the last successful write
/// through it stored, and leaves every other slot as it was.
pub proof fn lemma_read_after_write<T>(slots: Seq<Option<T>>, ptr: int, value: T, other: int)
    requires
        access_fault(slots, ptr) is None,
        other != ptr,
    ensures
        access_fault(slots.update(ptr, Some(value)), ptr) is None,
        slots.update(ptr, Some(value))[ptr] == Some(value),
        access_fault(slots.update(ptr, Some(value)), other) == access_fault(slots, other),
        0 <= other < slots.len() ==> slots.update(ptr, Some(value))[other] == slots[other],
{
}

/// Once freed, a pointer stays unusable: reads and writes through it are
/// uses after free and freeing it again is a double free, however many
/// allocations follow.
pub proof fn lemma_freed_stays_freed<T>(slots: Seq<Option<T>>, ptr: int, later: Seq<T>)
    requires
        free_fault(slots, ptr) is None,
    ensures
        ({
            let after = slots.update(ptr, None) + later.map_values(|v: T| Some(v));
            &&& access_fault(after, ptr) == Some(HeapFault::UseAfterFree)
            &&& free_fault(after, ptr) == Some(HeapFault::DoubleFree)
        }),
{
}

/// An allocation never hands out a pointer that is already in use or was
/// freed: the new slot lies past every earlier one.
pub proof fn lemma_allocation_is_fresh<T>(slots: Seq<Option<T>>, value: T, ptr: int)
    requires
        0 <= ptr < slots.len(),
    ensures
        slots.push(Some(value))[ptr] == slots[ptr],
        access_fault(slots.push(Some(value)), slots.len() as int) is None,
        access_fault(slots, slots.len() as int) == Some(HeapFault::Invalid),
{
}

} // verus!
