//! The pointer heap: allocation, reads and writes, `free`, and the collector.

use yara::heap::{fault_message, Heap, HeapFault};

#[test]
fn allocate_read_write_roundtrip() {
    let mut heap: Heap<i64> = Heap::new();
    let p = heap.allocate(5);
    assert_eq!(p, 0);
    assert_eq!(heap.read(p), Ok(&5));
    assert_eq!(heap.write(p, 9), Ok(()));
    assert_eq!(heap.read(p), Ok(&9));
}

#[test]
fn allocations_get_fresh_slots() {
    let mut heap: Heap<i64> = Heap::new();
    let a = heap.allocate(1);
    let b = heap.allocate(2);
    assert_eq!((a, b), (0, 1));
    heap.free(a).unwrap();
    let c = heap.allocate(3);
    assert_eq!(c, 2);
    assert_eq!(heap.len(), 3);
    assert_eq!(heap.read(a), Err(HeapFault::UseAfterFree));
    assert_eq!(heap.read(b), Ok(&2));
}

#[test]
fn use_after_free_is_refused() {
    let mut heap: Heap<i64> = Heap::new();
    let p = heap.allocate(5);
    heap.free(p).unwrap();
    assert_eq!(heap.read(p), Err(HeapFault::UseAfterFree));
    assert_eq!(heap.write(p, 1), Err(HeapFault::UseAfterFree));
}

#[test]
fn double_free_is_refused() {
    let mut heap: Heap<i64> = Heap::new();
    let p = heap.allocate(5);
    assert_eq!(heap.free(p), Ok(()));
    assert_eq!(heap.free(p), Err(HeapFault::DoubleFree));
}

#[test]
fn pointer_past_the_heap_is_invalid() {
    let mut heap: Heap<i64> = Heap::new();
    assert_eq!(heap.read(0), Err(HeapFault::Invalid));
    heap.allocate(1);
    assert_eq!(heap.read(1), Err(HeapFault::Invalid));
    assert_eq!(heap.write(7, 1), Err(HeapFault::Invalid));
    assert_eq!(heap.free(7), Err(HeapFault::Invalid));
}

#[test]
fn fault_messages() {
    assert_eq!(fault_message(HeapFault::Invalid, 3), "invalid pointer ptr#3");
    assert_eq!(
        fault_message(HeapFault::UseAfterFree, 0),
        "use after free: pointer ptr#0 was already freed"
    );
    assert_eq!(
        fault_message(HeapFault::DoubleFree, 12),
        "double free: pointer ptr#12 was already freed"
    );
}

/// A slot whose pointer went out of scope is freed; one still bound is kept.
#[test]
fn collect_frees_unreachable_keeps_reachable() {
    let mut heap: Heap<i64> = Heap::new();
    let leaked = heap.allocate(1);
    let kept = heap.allocate(2);
    let n = heap.collect(&vec![kept], &vec![vec![], vec![]]);
    assert_eq!(n, 1);
    assert_eq!(heap.read(leaked), Err(HeapFault::UseAfterFree));
    assert_eq!(heap.read(kept), Ok(&2));
}

/// A slot reachable only through another slot's value stays alive.
#[test]
fn collect_cascades_through_heap_slots() {
    let mut heap: Heap<i64> = Heap::new();
    let inner = heap.allocate(9);
    let outer = heap.allocate(inner as i64);
    let fresh = heap.allocate(0);
    heap.free(fresh).unwrap();
    let edges = vec![vec![], vec![inner], vec![]];
    let n = heap.collect(&vec![outer, fresh], &edges);
    assert_eq!(n, 0);
    assert_eq!(heap.read(inner), Ok(&9));
    assert_eq!(heap.read(outer), Ok(&0));
}

#[test]
fn collect_frees_unreachable_cycle() {
    let mut heap: Heap<i64> = Heap::new();
    let a = heap.allocate(1);
    let b = heap.allocate(2);
    let c = heap.allocate(3);
    let edges = vec![vec![b], vec![a], vec![]];
    let n = heap.collect(&vec![c], &edges);
    assert_eq!(n, 2);
    assert_eq!(heap.read(a), Err(HeapFault::UseAfterFree));
    assert_eq!(heap.read(b), Err(HeapFault::UseAfterFree));
    assert_eq!(heap.read(c), Ok(&3));
}

#[test]
fn collect_ignores_out_of_range_pointers() {
    let mut heap: Heap<i64> = Heap::new();
    let a = heap.allocate(1);
    let n = heap.collect(&vec![40], &vec![vec![99]]);
    assert_eq!(n, 1);
    assert_eq!(heap.read(a), Err(HeapFault::UseAfterFree));
}

/// A second collection with the same roots frees nothing more.
#[test]
fn collect_twice_frees_nothing_more() {
    let mut heap: Heap<i64> = Heap::new();
    let a = heap.allocate(1);
    let b = heap.allocate(2);
    let c = heap.allocate(3);
    let roots = vec![a];
    let edges = vec![vec![c], vec![], vec![]];
    assert_eq!(heap.collect(&roots, &edges), 1);
    assert_eq!(heap.collect(&roots, &edges), 0);
    assert_eq!(heap.read(a), Ok(&1));
    assert_eq!(heap.read(b), Err(HeapFault::UseAfterFree));
    assert_eq!(heap.read(c), Ok(&3));
}
