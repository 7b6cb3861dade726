//! The inbox: a many-producer, single-consumer list of pending updates.
//!
//! Every scheduled-timer record is wrapped in a [`Node`], which carries the
//! record together with an `enqueued` flag.  The flag makes `push` idempotent:
//! a record sits in the inbox at most once at a time.  The driver detaches the
//! whole chain with `take` (or `take_and_seal` during shutdown, after which
//! every later `push` fails) and then pops the detached chain node by node.
//!
//! Nodes live in a store owned by the driver and are addressed by index; the
//! list itself holds only the chain of indices and the seal flag.

use vstd::prelude::*;

verus! {

/// A store entry: one record plus its intrusive list state.
pub struct Node<T> {
    /// Whether the node currently sits in the inbox (or in a detached chain
    /// that has not been popped yet).
    pub enqueued: bool,
    /// The record itself.
    pub data: T,
}

impl<T> Node<T> {
    /// Wraps a record for use in a store, not yet enqueued anywhere.
    pub fn new(data: T) -> (n: Node<T>)
        ensures
            !n.enqueued,
            n.data == data,
    {
        Node { enqueued: false, data: data }
    }
}

/// The inbox list: a chain of node indices, newest first, plus a seal flag.
pub struct ArcList<T> {
    list: Vec<usize>,
    sealed: bool,
    _marker: core::marker::PhantomData<T>,
}

impl<T> ArcList<T> {
    /// The chain of node indices, newest push first.
    pub closed spec fn ids(&self) -> Seq<usize> {
        self.list@
    }

    /// Whether the list has been sealed; pushes onto a sealed list fail.
    pub closed spec fn is_sealed(&self) -> bool {
        self.sealed
    }

    /// An empty, unsealed list.
    pub fn new() -> (r: ArcList<T>)
        ensures
            r.ids() =~= Seq::<usize>::empty(),
            !r.is_sealed(),
    {
        ArcList { list: Vec::new(), sealed: false, _marker: core::marker::PhantomData }
    }

    /// Whether the chain is empty.
    pub fn is_empty(&self) -> (r: bool)
        ensures
            r == (self.ids().len() == 0),
    {
        self.list.len() == 0
    }

    /// Pushes the node at `id` unless it is already enqueued.
    ///
    /// When the node's `enqueued` flag is set the call is a no-op: the node
    /// is already in this list or in a chain the consumer is draining, and
    /// the consumer reads the record's current fields when it reaches it.
    /// Otherwise the flag is set and, unless the list is sealed, the node is
    /// chained in at the head.  On a sealed list the push fails and the
    /// caller treats the consumer as gone.
    pub fn push(&mut self, store: &mut Vec<Node<T>>, id: usize) -> (r: Result<(), ()>)
        requires
            id < old(store)@.len(),
        ensures
            final(store)@.len() == old(store)@.len(),
            forall|j: int|
                0 <= j < old(store)@.len() && j != id ==> final(store)@[j] == old(store)@[j],
            final(store)@[id as int].data == old(store)@[id as int].data,
            final(self).is_sealed() == old(self).is_sealed(),
            old(store)@[id as int].enqueued ==> {
                &&& r == Result::<(), ()>::Ok(())
                &&& final(store)@ == old(store)@
                &&& final(self).ids() == old(self).ids()
            },
            !old(store)@[id as int].enqueued ==> final(store)@[id as int].enqueued,
            !old(store)@[id as int].enqueued && old(self).is_sealed() ==> {
                &&& r == Result::<(), ()>::Err(())
                &&& final(self).ids() == old(self).ids()
            },
            !old(store)@[id as int].enqueued && !old(self).is_sealed() ==> {
                &&& r == Result::<(), ()>::Ok(())
                &&& final(self).ids() == seq![id] + old(self).ids()
            },
    {
        if store[id].enqueued {
            return Ok(());
        }
        store[id].enqueued = true;
        if self.sealed {
            return Err(());
        }
        self.list.insert(0, id);
        Ok(())
    }

    /// Atomically detaches the whole chain, returning it as an owned list
    /// that can be popped without further coordination.
    pub fn take(&mut self) -> (r: ArcList<T>)
        ensures
            r.ids() == old(self).ids(),
            !r.is_sealed(),
            final(self).ids() =~= Seq::<usize>::empty(),
            final(self).is_sealed() == old(self).is_sealed(),
    {
        let mut chain: Vec<usize> = Vec::new();
        core::mem::swap(&mut chain, &mut self.list);
        ArcList { list: chain, sealed: false, _marker: core::marker::PhantomData }
    }

    /// Detaches the chain and seals the list for good: every later `push`
    /// observes the seal and fails.  Used during driver shutdown.
    pub fn take_and_seal(&mut self) -> (r: ArcList<T>)
        ensures
            r.ids() == old(self).ids(),
            !r.is_sealed(),
            final(self).ids() =~= Seq::<usize>::empty(),
            final(self).is_sealed(),
    {
        self.sealed = true;
        let mut chain: Vec<usize> = Vec::new();
        core::mem::swap(&mut chain, &mut self.list);
        ArcList { list: chain, sealed: false, _marker: core::marker::PhantomData }
    }

    /// Pops the head of a detached chain, clearing its `enqueued` flag so the
    /// node can be enqueued again and later updates are seen.
    pub fn pop(&mut self, store: &mut Vec<Node<T>>) -> (r: Option<usize>)
        requires
            old(self).ids().len() > 0 ==> {
                &&& old(self).ids()[0] < old(store)@.len()
                &&& old(store)@[old(self).ids()[0] as int].enqueued
            },
        ensures
            final(self).is_sealed() == old(self).is_sealed(),
            final(store)@.len() == old(store)@.len(),
            old(self).ids().len() == 0 ==> {
                &&& r == Option::<usize>::None
                &&& final(store)@ == old(store)@
                &&& final(self).ids() == old(self).ids()
            },
            old(self).ids().len() > 0 ==> {
                &&& r == Option::Some(old(self).ids()[0])
                &&& final(self).ids() == old(self).ids().skip(1)
                &&& !final(store)@[old(self).ids()[0] as int].enqueued
                &&& final(store)@[old(self).ids()[0] as int].data == old(store)@[old(
                    self,
                ).ids()[0] as int].data
                &&& forall|j: int|
                    0 <= j < old(store)@.len() && j != old(self).ids()[0] ==> final(store)@[j]
                        == old(store)@[j]
            },
    {
        if self.list.len() == 0 {
            return None;
        }
        let head = self.list.remove(0);
        store[head].enqueued = false;
        Some(head)
    }
}

} // verus!
