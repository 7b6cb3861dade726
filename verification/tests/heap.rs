//! Tests of the indexed binary min-heap: ordering, and slot handles that
//! stay valid across sifts.

use futures_timer::heap::{Heap, HeapTimer};

fn entry(at: u64, gen: u64, node: usize) -> HeapTimer {
    HeapTimer { at, gen, node }
}

#[test]
fn pops_in_deadline_order() {
    let mut h = Heap::new();
    h.push(entry(50, 0, 0));
    h.push(entry(10, 0, 1));
    h.push(entry(40, 1, 2));
    h.push(entry(20, 0, 3));
    h.push(entry(30, 2, 4));
    let mut ats = Vec::new();
    while let Some((_slot, t)) = h.pop() {
        ats.push(t.at);
    }
    assert_eq!(ats, vec![10, 20, 30, 40, 50]);
}

#[test]
fn peek_is_min_and_nondestructive() {
    let mut h = Heap::new();
    assert!(h.peek().is_none());
    h.push(entry(7, 0, 0));
    h.push(entry(3, 0, 1));
    assert_eq!(h.peek().unwrap().at, 3);
    assert_eq!(h.peek().unwrap().at, 3);
    let (_s, t) = h.pop().unwrap();
    assert_eq!(t.at, 3);
    assert_eq!(h.peek().unwrap().at, 7);
}

#[test]
fn remove_by_slot_across_sifts() {
    let mut h = Heap::new();
    let s_a = h.push(entry(90, 0, 0));
    let _s_b = h.push(entry(20, 0, 1));
    let s_c = h.push(entry(60, 0, 2));
    let _s_d = h.push(entry(10, 0, 3));
    // the pushes have sifted entries around; the slots still name them
    let c = h.remove(s_c);
    assert_eq!((c.at, c.node), (60, 2));
    let a = h.remove(s_a);
    assert_eq!((a.at, a.node), (90, 0));
    let mut rest = Vec::new();
    while let Some((_s, t)) = h.pop() {
        rest.push(t.at);
    }
    assert_eq!(rest, vec![10, 20]);
}

#[test]
fn slots_are_reused_after_removal() {
    let mut h = Heap::new();
    let s0 = h.push(entry(5, 0, 0));
    let removed = h.remove(s0);
    assert_eq!(removed.at, 5);
    let s1 = h.push(entry(6, 0, 1));
    let (slot, t) = h.pop().unwrap();
    assert_eq!(slot, s1);
    assert_eq!(t.at, 6);
    assert!(h.pop().is_none());
}

#[test]
fn equal_deadlines_all_come_out() {
    let mut h = Heap::new();
    h.push(entry(10, 0, 0));
    h.push(entry(10, 0, 1));
    h.push(entry(10, 0, 2));
    let mut nodes = Vec::new();
    while let Some((_s, t)) = h.pop() {
        assert_eq!(t.at, 10);
        nodes.push(t.node);
    }
    nodes.sort();
    assert_eq!(nodes, vec![0, 1, 2]);
}
