//! Tests of the inbox list: the at-most-once guarantee of `push`, the
//! draining of detached chains, and the terminal seal.

use futures_timer::arc_list::{ArcList, Node};

fn store(n: usize) -> Vec<Node<u32>> {
    let mut v = Vec::new();
    for i in 0..n {
        v.push(Node::new(i as u32));
    }
    v
}

#[test]
fn push_is_deduplicated() {
    let mut s = store(3);
    let mut list: ArcList<u32> = ArcList::new();
    assert!(list.push(&mut s, 1).is_ok());
    assert!(list.push(&mut s, 1).is_ok()); // no-op: already enqueued
    assert!(list.push(&mut s, 2).is_ok());
    let mut chain = list.take();
    let mut popped = Vec::new();
    while let Some(id) = chain.pop(&mut s) {
        popped.push(id);
    }
    // node 1 sits in the chain exactly once
    assert_eq!(popped, vec![2, 1]);
}

#[test]
fn popped_node_can_be_pushed_again() {
    let mut s = store(2);
    let mut list: ArcList<u32> = ArcList::new();
    assert!(list.push(&mut s, 0).is_ok());
    let mut chain = list.take();
    assert_eq!(chain.pop(&mut s), Some(0));
    assert_eq!(chain.pop(&mut s), None);
    // the pop cleared the enqueued flag, so the node can come back
    assert!(list.push(&mut s, 0).is_ok());
    let mut chain = list.take();
    assert_eq!(chain.pop(&mut s), Some(0));
}

#[test]
fn sealed_list_refuses_pushes() {
    let mut s = store(2);
    let mut list: ArcList<u32> = ArcList::new();
    assert!(list.push(&mut s, 0).is_ok());
    let mut chain = list.take_and_seal();
    assert_eq!(chain.pop(&mut s), Some(0));
    assert_eq!(chain.pop(&mut s), None);
    // the seal is terminal: later pushes fail and the caller treats the
    // consumer as gone
    assert!(list.push(&mut s, 1).is_err());
}

#[test]
fn take_leaves_the_list_empty() {
    let mut s = store(2);
    let mut list: ArcList<u32> = ArcList::new();
    assert!(list.push(&mut s, 0).is_ok());
    let mut first = list.take();
    let mut second = list.take();
    assert_eq!(second.pop(&mut s), None);
    assert_eq!(first.pop(&mut s), Some(0));
}
