//! The timer driver and the scheduled-timer records it owns.
//!
//! One [`Timer`] couples many delays to one consumer.  Each delay owns a
//! record in the driver's store; the record carries the requested fire
//! instant, the state word (generation plus the fired and invalidated flags),
//! the waiter's notifier token and the record's heap slot.  Delays talk to
//! the driver only by updating their record and pushing it onto the inbox;
//! the driver reconciles the heap against the records it pops, fires due
//! entries in `advance_to`, and invalidates everything on shutdown.
//!
//! The surrounding runtime supplies what the model leaves out: `now` values
//! read from a monotonic clock, notifier tokens standing for task wakers,
//! and the unparking of the driver after every push.

use vstd::prelude::*;

use crate::arc_list::ArcList;
use crate::arc_list::Node;
use crate::heap::Heap;
use crate::heap::HeapTimer;
use crate::state_word::MAX_GEN;
use crate::state_word::bump_gen;
use crate::state_word::lemma_clean;
use crate::state_word::mark_fired;
use crate::state_word::mark_invalidated;
use crate::state_word::next_gen;
use crate::state_word::read_fired;
use crate::state_word::read_gen;
use crate::state_word::read_invalidated;
use crate::state_word::w_fired;
use crate::state_word::w_gen;
use crate::state_word::w_invalidated;

verus! {

/// The shared state of one delay, as the driver's store holds it.
pub struct ScheduledTimer {
    /// The requested fire instant; `None` asks the driver to drop the entry.
    pub at: Option<u64>,
    /// The state word: fired bit, invalidated bit, generation.
    pub state: u64,
    /// The waiter's notifier token, registered by `poll` and consumed by a
    /// fire or by shutdown.
    pub waiter: Option<u64>,
    /// The record's heap slot; written only by the driver.
    pub slot: Option<usize>,
}

/// A record as the contracts see it: the stored fields decoded, plus the
/// heap entry currently standing for the record, if any.
pub struct RecordView {
    /// The requested fire instant, `None` after the delay was dropped.
    pub sched: Option<u64>,
    /// The generation counter of the state word.
    pub gen: u64,
    /// The fired flag of the state word.
    pub fired: bool,
    /// The invalidated flag of the state word.
    pub invalidated: bool,
    /// The registered notifier token, if any.
    pub waiter: Option<u64>,
    /// Whether the record sits in the inbox.
    pub enqueued: bool,
    /// Whether a heap entry stands for the record.
    pub in_heap: bool,
    /// The instant of that heap entry; zero when there is none.
    pub heap_at: u64,
    /// The generation captured in that heap entry; zero when there is none.
    pub heap_gen: u64,
}

/// The stored fields of two record views agree; only the heap entry may
/// differ.
pub open spec fn same_record(r0: RecordView, r1: RecordView) -> bool {
    &&& r1.sched == r0.sched
    &&& r1.gen == r0.gen
    &&& r1.fired == r0.fired
    &&& r1.invalidated == r0.invalidated
    &&& r1.waiter == r0.waiter
}

/// The heap entries of two record views agree.
pub open spec fn same_entry(r0: RecordView, r1: RecordView) -> bool {
    &&& r1.in_heap == r0.in_heap
    &&& r1.heap_at == r0.heap_at
    &&& r1.heap_gen == r0.heap_gen
}

/// The record's heap entry matches its `at` field: scheduled at the stored
/// instant with the current generation captured, or absent after a drop.
pub open spec fn reconciled(r0: RecordView, r1: RecordView) -> bool {
    match r0.sched {
        Option::Some(t) => r1.in_heap && r1.heap_at == t && r1.heap_gen == r0.gen,
        Option::None => !r1.in_heap,
    }
}

/// A due record: its entry fires at or before `now`, the generation
/// captured in the entry still matches the record's, and the record has
/// neither fired nor been invalidated.
pub open spec fn fires(r0: RecordView, now: u64) -> bool {
    &&& r0.in_heap
    &&& r0.heap_at <= now
    &&& r0.heap_gen == r0.gen
    &&& !r0.fired
    &&& !r0.invalidated
}

/// What `advance_to` does to one record: a due entry is popped, and the
/// record fires exactly when the entry's generation still matches; a record
/// without a due entry is untouched.
pub open spec fn advanced(r0: RecordView, r1: RecordView, now: u64) -> bool {
    if r0.in_heap && r0.heap_at <= now {
        if fires(r0, now) {
            r1 == (RecordView {
                fired: true,
                waiter: Option::None,
                in_heap: false,
                heap_at: 0,
                heap_gen: 0,
                ..r0
            })
        } else {
            r1 == (RecordView { in_heap: false, heap_at: 0, heap_gen: 0, ..r0 })
        }
    } else {
        r1 == r0
    }
}

/// What the driver thread does after a step: how it parks until the next
/// piece of work.
pub enum DriverPark {
    /// Nothing is scheduled: park until an explicit wake-up.
    Indefinite,
    /// Park until the given instant, or until an earlier explicit wake-up.
    Until(u64),
    /// A timer is already due: take another step without parking.
    Immediate,
}

/// The park decision of the driver loop, from the earliest scheduled
/// instant and the current time.
pub fn park_after_step(next: Option<u64>, now: u64) -> (r: DriverPark)
    ensures
        next is None ==> r == DriverPark::Indefinite,
        (next matches Option::Some(when) ==> (if now < when {
            r == DriverPark::Until(when)
        } else {
            r == DriverPark::Immediate
        })),
{
    match next {
        None => DriverPark::Indefinite,
        Some(when) => {
            if now < when {
                DriverPark::Until(when)
            } else {
                DriverPark::Immediate
            }
        },
    }
}

/// The timer driver: the record store, the inbox, the heap of scheduled
/// entries, and the shutdown flag.
pub struct Timer {
    records: Vec<Node<ScheduledTimer>>,
    inbox: ArcList<ScheduledTimer>,
    heap: Heap,
    shut: bool,
}

impl Timer {
    /// How many records the store holds.
    pub closed spec fn n_records(&self) -> nat {
        self.records@.len()
    }

    /// Whether the driver has shut down.
    pub closed spec fn is_shut(&self) -> bool {
        self.shut
    }

    /// The inbox chain, newest push first.
    pub closed spec fn inbox_ids(&self) -> Seq<usize> {
        self.inbox.ids()
    }

    /// The record at `id`, decoded.
    pub closed spec fn rec(&self, id: int) -> RecordView {
        let node = self.records@[id];
        let entry = if node.data.slot is Some && self.heap.slots().contains_key(
            node.data.slot.unwrap() as int,
        ) {
            self.heap.slots()[node.data.slot.unwrap() as int]
        } else {
            (HeapTimer { at: 0, gen: 0, node: 0 })
        };
        RecordView {
            sched: node.data.at,
            gen: w_gen(node.data.state),
            fired: w_fired(node.data.state),
            invalidated: w_invalidated(node.data.state),
            waiter: node.data.waiter,
            enqueued: node.enqueued,
            in_heap: node.data.slot is Some,
            heap_at: if node.data.slot is Some {
                entry.at
            } else {
                0
            },
            heap_gen: if node.data.slot is Some {
                entry.gen
            } else {
                0
            },
        }
    }

    /// Well-formedness against a given pending queue `q` (the inbox chain,
    /// or the chain being drained during a driver step).
    spec fn wf_core(&self, q: Seq<usize>) -> bool {
        let n = self.records@.len() as int;
        &&& self.heap.wf()
        &&& forall|i: int| 0 <= i < q.len() ==> (#[trigger] q[i]) < n
        &&& forall|i: int, j: int| 0 <= i < j < q.len() ==> q[i] != q[j]
        &&& forall|id: int|
            0 <= id < n ==> ((#[trigger] self.records@[id].enqueued) <==> q.contains(id as usize))
        &&& forall|id: int|
            0 <= id < n ==> match (#[trigger] self.records@[id]).data.slot {
                Option::Some(s) => self.heap.slots().contains_key(s as int)
                    && self.heap.slots()[s as int].node == id,
                Option::None => true,
            }
        &&& forall|s: int|
            #[trigger] self.heap.slots().contains_key(s) ==> {
                let e = self.heap.slots()[s];
                &&& (e.node as int) < n
                &&& match self.records@[e.node as int].data.slot {
                    Option::Some(s2) => s2 as int == s,
                    Option::None => false,
                }
                &&& e.gen <= MAX_GEN
                &&& e.gen == w_gen(self.records@[e.node as int].data.state) ==> (
                self.records@[e.node as int].data.at == Option::Some(e.at)
                    || self.records@[e.node as int].enqueued)
            }
        &&& self.inbox.is_sealed() == self.shut
        &&& self.shut ==> {
            &&& q.len() == 0
            &&& self.heap.size() == 0
            &&& forall|s: int| !self.heap.slots().contains_key(s)
        }
        &&& forall|id: int|
            0 <= id < n ==> (w_invalidated((#[trigger] self.records@[id]).data.state)
                ==> self.shut)
        &&& self.shut ==> forall|id: int|
            0 <= id < n ==> w_invalidated((#[trigger] self.records@[id]).data.state)
    }

    /// Well-formedness of the driver.
    pub closed spec fn wf(&self) -> bool {
        self.wf_core(self.inbox.ids())
    }

    /// A record index always fits the machine word that addresses the store.
    pub proof fn lemma_n_records_bound(&self)
        ensures
            self.n_records() <= usize::MAX,
    {
        assert(self.records.len() == self.records@.len());
    }

    /// A fresh driver: no records, an empty unsealed inbox, an empty heap.
    pub fn new() -> (t: Timer)
        ensures
            t.wf(),
            t.n_records() == 0,
            !t.is_shut(),
            t.inbox_ids().len() == 0,
    {
        Timer { records: Vec::new(), inbox: ArcList::new(), heap: Heap::new(), shut: false }
    }

    /// Allocates a record scheduled at `at`, pushes it onto the inbox and
    /// returns its index; yields `None` when the driver has already shut
    /// down, and the caller then builds an inert delay.
    pub fn schedule(&mut self, at: u64) -> (r: Option<usize>)
        requires
            old(self).wf(),
        ensures
            final(self).wf(),
            final(self).is_shut() == old(self).is_shut(),
            old(self).is_shut() ==> {
                &&& r is None
                &&& final(self).n_records() == old(self).n_records()
                &&& forall|id: int|
                    0 <= id < old(self).n_records() ==> final(self).rec(id) == old(self).rec(id)
            },
            !old(self).is_shut() ==> {
                &&& r == Option::Some(old(self).n_records() as usize)
                &&& final(self).n_records() == old(self).n_records() + 1
                &&& final(self).rec(old(self).n_records() as int) == (RecordView {
                    sched: Option::Some(at),
                    gen: 0,
                    fired: false,
                    invalidated: false,
                    waiter: Option::None,
                    enqueued: true,
                    in_heap: false,
                    heap_at: 0,
                    heap_gen: 0,
                })
                &&& forall|id: int|
                    0 <= id < old(self).n_records() ==> final(self).rec(id) == old(self).rec(id)
            },
    {
        if self.shut {
            return None;
        }
        let id = self.records.len();
        self.records.push(
            Node::new(
                ScheduledTimer { at: Some(at), state: 0, waiter: None, slot: None },
            ),
        );
        proof {
            lemma_clean(0);
            assert(0u64 << 2 == 0u64) by (bit_vector);
            assert(w_gen(0) == 0 && !w_fired(0) && !w_invalidated(0));
        }
        let pushed = self.inbox.push(&mut self.records, id);
        proof {
            assert(pushed is Ok);
            let q0 = old(self).inbox.ids();
            let q1 = self.inbox.ids();
            assert(q1 == seq![id] + q0);
            assert forall|i: int| 0 <= i < q1.len() implies (#[trigger] q1[i])
                < self.records@.len() by {
                if i > 0 {
                    assert(q1[i] == q0[i - 1]);
                }
            }
            assert forall|i: int, j: int| 0 <= i < j < q1.len() implies q1[i] != q1[j] by {
                if i == 0 {
                    assert(q1[j] == q0[j - 1] && (q0[j - 1] as int) < old(self).records@.len());
                } else {
                    assert(q1[i] == q0[i - 1] && q1[j] == q0[j - 1]);
                }
            }
            assert forall|id2: int|
                0 <= id2 < self.records@.len() implies ((
            #[trigger] self.records@[id2].enqueued) <==> q1.contains(id2 as usize)) by {
                if id2 == id as int {
                    assert(q1[0] == id);
                    assert(q1.contains(id));
                } else {
                    assert(self.records@[id2] == old(self).records@[id2]);
                    if q0.contains(id2 as usize) {
                        let w = choose|w: int| 0 <= w < q0.len() && q0[w] == id2 as usize;
                        assert(q1[w + 1] == id2 as usize);
                        assert(q1.contains(id2 as usize));
                    }
                    if q1.contains(id2 as usize) {
                        let w = choose|w: int| 0 <= w < q1.len() && q1[w] == id2 as usize;
                        assert(w != 0);
                        assert(q0[w - 1] == id2 as usize);
                        assert(q0.contains(id2 as usize));
                    }
                }
            }
            assert(self.wf());
            assert forall|id2: int| 0 <= id2 < old(self).n_records() implies final(self).rec(id2)
                == old(self).rec(id2) by {
                assert(self.records@[id2] == old(self).records@[id2]);
            }
        }
        Some(id)
    }

    /// A fresh head extends the pending queue: bounds, distinctness and
    /// membership carry over.
    proof fn lemma_queue_cons(q0: Seq<usize>, q1: Seq<usize>, id: usize, n: int)
        requires
            q1 == seq![id] + q0,
            forall|i: int| 0 <= i < q0.len() ==> (#[trigger] q0[i]) < n,
            forall|i: int, j: int| 0 <= i < j < q0.len() ==> q0[i] != q0[j],
            !q0.contains(id),
            (id as int) < n,
        ensures
            forall|i: int| 0 <= i < q1.len() ==> (#[trigger] q1[i]) < n,
            forall|i: int, j: int| 0 <= i < j < q1.len() ==> q1[i] != q1[j],
            forall|x: usize| q1.contains(x) <==> (x == id || q0.contains(x)),
    {
        assert forall|i: int| 0 <= i < q1.len() implies (#[trigger] q1[i]) < n by {
            if i > 0 {
                assert(q1[i] == q0[i - 1]);
            }
        }
        assert forall|i: int, j: int| 0 <= i < j < q1.len() implies q1[i] != q1[j] by {
            if i == 0 {
                assert(q1[j] == q0[j - 1]);
                assert(q0.contains(q0[j - 1]));
            } else {
                assert(q1[i] == q0[i - 1] && q1[j] == q0[j - 1]);
            }
        }
        assert forall|x: usize| q1.contains(x) implies (x == id || q0.contains(x)) by {
            let w = choose|w: int| 0 <= w < q1.len() && q1[w] == x;
            if w > 0 {
                assert(q0[w - 1] == x);
            }
        }
        assert forall|x: usize| (x == id || q0.contains(x)) implies q1.contains(x) by {
            if x == id {
                assert(q1[0] == x);
            } else {
                let w = choose|w: int| 0 <= w < q0.len() && q0[w] == x;
                assert(q1[w + 1] == x);
            }
        }
    }

    /// The atomic reset sequence: abort if the record is invalidated, else
    /// bump the generation with both flags cleared, store the new instant,
    /// and push the record onto the inbox.
    pub fn reset_record(&mut self, id: usize, at: u64) -> (r: Result<(), ()>)
        requires
            old(self).wf(),
            (id as int) < old(self).n_records(),
        ensures
            final(self).wf(),
            final(self).is_shut() == old(self).is_shut(),
            final(self).n_records() == old(self).n_records(),
            old(self).rec(id as int).invalidated ==> {
                &&& r is Err
                &&& forall|id2: int|
                    0 <= id2 < old(self).n_records() ==> final(self).rec(id2) == old(self).rec(id2)
            },
            !old(self).rec(id as int).invalidated ==> {
                &&& r is Ok
                &&& final(self).rec(id as int) == (RecordView {
                    sched: Option::Some(at),
                    gen: next_gen(old(self).rec(id as int).gen),
                    fired: false,
                    invalidated: false,
                    enqueued: true,
                    ..old(self).rec(id as int)
                })
                &&& forall|id2: int|
                    0 <= id2 < old(self).n_records() && id2 != id ==> final(self).rec(id2) == old(
                        self,
                    ).rec(id2)
            },
    {
        let w = self.records[id].data.state;
        if read_invalidated(w) {
            return Err(());
        }
        let w2 = bump_gen(w);
        self.records[id].data.state = w2;
        self.records[id].data.at = Some(at);
        let ghost mid = *self;
        let _ = self.inbox.push(&mut self.records, id);
        proof {
            self.lemma_enqueue_wf(mid, *old(self), id);
        }
        Ok(())
    }

    /// A record of a live driver was updated and pushed: well-formedness
    /// holds again, and only that record changed.
    ///
    /// `mid` is the state just before the push, `orig` the state before the
    /// update; the update may have touched only the record's `at`, `state`
    /// and `waiter` fields, must not have invalidated it, and the driver is
    /// not shut.
    proof fn lemma_enqueue_wf(&self, mid: Timer, orig: Timer, id: usize)
        requires
            orig.wf(),
            !orig.shut,
            (id as int) < orig.records@.len(),
            mid.records@.len() == orig.records@.len(),
            mid.inbox == orig.inbox,
            mid.heap == orig.heap,
            mid.shut == orig.shut,
            forall|id2: int|
                0 <= id2 < orig.records@.len() && id2 != id ==> mid.records@[id2]
                    == orig.records@[id2],
            mid.records@[id as int].enqueued == orig.records@[id as int].enqueued,
            mid.records@[id as int].data.slot == orig.records@[id as int].data.slot,
            !w_invalidated(mid.records@[id as int].data.state),
            self.records@.len() == mid.records@.len(),
            self.heap == mid.heap,
            self.shut == mid.shut,
            self.inbox.is_sealed() == mid.inbox.is_sealed(),
            forall|id2: int|
                0 <= id2 < mid.records@.len() && id2 != id ==> self.records@[id2]
                    == mid.records@[id2],
            self.records@[id as int].data == mid.records@[id as int].data,
            self.records@[id as int].enqueued,
            mid.records@[id as int].enqueued ==> self.inbox.ids() == mid.inbox.ids()
                && self.records@ == mid.records@,
            !mid.records@[id as int].enqueued ==> self.inbox.ids() == seq![id] + mid.inbox.ids(),
        ensures
            self.wf(),
    {
        let n = self.records@.len() as int;
        assert(self.records.len() == self.records@.len());
        let q0 = orig.inbox.ids();
        let q1 = self.inbox.ids();
        if !mid.records@[id as int].enqueued {
            assert(!q0.contains(id));
            Self::lemma_queue_cons(q0, q1, id, n);
        }
        assert forall|id2: int|
            0 <= id2 < n implies ((#[trigger] self.records@[id2].enqueued) <==> q1.contains(
            id2 as usize,
        )) by {
            if id2 == id as int {
                if mid.records@[id as int].enqueued {
                    assert(orig.records@[id as int].enqueued);
                    assert(q0.contains(id));
                } else {
                    assert(q1.contains(id));
                }
            } else {
                assert(self.records@[id2] == orig.records@[id2]);
                assert(orig.records@[id2].enqueued <==> q0.contains(id2 as usize));
                if !mid.records@[id as int].enqueued {
                    assert(q1.contains(id2 as usize) <==> (id2 as usize == id || q0.contains(
                        id2 as usize,
                    )));
                }
            }
        }
        assert forall|id2: int|
            0 <= id2 < n implies match (#[trigger] self.records@[id2]).data.slot {
            Option::Some(s) => self.heap.slots().contains_key(s as int)
                && self.heap.slots()[s as int].node == id2,
            Option::None => true,
        } by {
            if id2 != id {
                assert(self.records@[id2] == orig.records@[id2]);
            } else {
                assert(self.records@[id2].data.slot == orig.records@[id2].data.slot);
            }
        }
        assert forall|s: int| #[trigger] self.heap.slots().contains_key(s) implies {
            let e = self.heap.slots()[s];
            &&& (e.node as int) < n
            &&& match self.records@[e.node as int].data.slot {
                Option::Some(s2) => s2 as int == s,
                Option::None => false,
            }
            &&& e.gen <= MAX_GEN
            &&& e.gen == w_gen(self.records@[e.node as int].data.state) ==> (
            self.records@[e.node as int].data.at == Option::Some(e.at)
                || self.records@[e.node as int].enqueued)
        } by {
            let e = self.heap.slots()[s];
            if e.node as int != id {
                assert(self.records@[e.node as int] == orig.records@[e.node as int]);
            }
        }
    }

    /// The drop path of a delay: ask the driver to remove the record by
    /// storing `None`, clear the notifier register, and push.  A no-op once
    /// the driver has shut down.
    pub fn cancel_record(&mut self, id: usize)
        requires
            old(self).wf(),
            (id as int) < old(self).n_records(),
        ensures
            final(self).wf(),
            final(self).is_shut() == old(self).is_shut(),
            final(self).n_records() == old(self).n_records(),
            old(self).is_shut() ==> forall|id2: int|
                0 <= id2 < old(self).n_records() ==> final(self).rec(id2) == old(self).rec(id2),
            !old(self).is_shut() ==> {
                &&& final(self).rec(id as int) == (RecordView {
                    sched: Option::None,
                    waiter: Option::None,
                    enqueued: true,
                    ..old(self).rec(id as int)
                })
                &&& forall|id2: int|
                    0 <= id2 < old(self).n_records() && id2 != id ==> final(self).rec(id2) == old(
                        self,
                    ).rec(id2)
            },
    {
        if self.shut {
            return ;
        }
        self.records[id].data.at = None;
        self.records[id].data.waiter = None;
        let ghost mid = *self;
        let _ = self.inbox.push(&mut self.records, id);
        proof {
            self.lemma_enqueue_wf(mid, *old(self), id);
        }
    }

    /// Reads the fired flag of a record's state word.
    pub fn record_fired(&self, id: usize) -> (r: bool)
        requires
            (id as int) < self.n_records(),
        ensures
            r == self.rec(id as int).fired,
    {
        read_fired(self.records[id].data.state)
    }

    /// Reads the invalidated flag of a record's state word.
    pub fn record_invalidated(&self, id: usize) -> (r: bool)
        requires
            (id as int) < self.n_records(),
        ensures
            r == self.rec(id as int).invalidated,
    {
        read_invalidated(self.records[id].data.state)
    }

    /// Registers the waiter's notifier token on a record, replacing any
    /// earlier registration.
    pub fn register_waiter(&mut self, id: usize, token: u64)
        requires
            old(self).wf(),
            (id as int) < old(self).n_records(),
        ensures
            final(self).wf(),
            final(self).is_shut() == old(self).is_shut(),
            final(self).n_records() == old(self).n_records(),
            final(self).inbox_ids() == old(self).inbox_ids(),
            final(self).rec(id as int) == (RecordView {
                waiter: Option::Some(token),
                ..old(self).rec(id as int)
            }),
            forall|id2: int|
                0 <= id2 < old(self).n_records() && id2 != id ==> final(self).rec(id2) == old(
                    self,
                ).rec(id2),
    {
        self.records[id].data.waiter = Some(token);
        proof {
            assert forall|id2: int|
                0 <= id2 < self.records@.len() && id2 != id implies final(self).rec(id2) == old(
                self,
            ).rec(id2) by {
                assert(self.records@[id2] == old(self).records@[id2]);
            }
            assert(self.wf());
        }
    }

    /// Removing the head of a duplicate-free queue: what is left are exactly
    /// the other elements.
    proof fn lemma_queue_uncons(q: Seq<usize>, q1: Seq<usize>)
        requires
            q.len() > 0,
            q1 == q.skip(1),
            forall|i: int, j: int| 0 <= i < j < q.len() ==> q[i] != q[j],
        ensures
            forall|i: int, j: int| 0 <= i < j < q1.len() ==> q1[i] != q1[j],
            !q1.contains(q[0]),
            forall|x: usize| x != q[0] ==> (q1.contains(x) <==> q.contains(x)),
            forall|i: int| 0 <= i < q1.len() ==> q1[i] == q[i + 1],
    {
        assert forall|i: int| 0 <= i < q1.len() implies q1[i] == q[i + 1] by {}
        if q1.contains(q[0]) {
            let w = choose|w: int| 0 <= w < q1.len() && q1[w] == q[0];
            assert(q[w + 1] == q[0]);
            assert(false);
        }
        assert forall|x: usize| x != q[0] && q1.contains(x) implies q.contains(x) by {
            let w = choose|w: int| 0 <= w < q1.len() && q1[w] == x;
            assert(q[w + 1] == x);
        }
        assert forall|x: usize| x != q[0] && q.contains(x) implies q1.contains(x) by {
            let w = choose|w: int| 0 <= w < q.len() && q[w] == x;
            assert(w != 0);
            assert(q1[w - 1] == x);
        }
    }

    /// One driver step: detach the whole inbox and reconcile the heap
    /// against every record popped.  A record whose `at` is set is scheduled
    /// or rescheduled with its current generation captured in the entry; a
    /// record whose `at` is `None` is removed from the heap.  The driver
    /// never completes: after a step the caller parks until the next event
    /// or an explicit wake-up.
    #[verifier::rlimit(100)]
    pub fn drive(&mut self)
        requires
            old(self).wf(),
        ensures
            final(self).wf(),
            final(self).is_shut() == old(self).is_shut(),
            final(self).n_records() == old(self).n_records(),
            final(self).inbox_ids().len() == 0,
            forall|id: int|
                0 <= id < old(self).n_records() ==> {
                    &&& same_record(old(self).rec(id), #[trigger] final(self).rec(id))
                    &&& !final(self).rec(id).enqueued
                    &&& if old(self).rec(id).enqueued {
                        reconciled(old(self).rec(id), final(self).rec(id))
                    } else {
                        same_entry(old(self).rec(id), final(self).rec(id))
                    }
                },
    {
        let mut chain = self.inbox.take();
        proof {
            assert(self.wf_core(chain.ids()));
        }
        while !chain.is_empty()
            invariant
                self.inbox.ids().len() == 0,
                !chain.is_sealed(),
                self.wf_core(chain.ids()),
                self.shut == old(self).shut,
                self.inbox.is_sealed() == old(self).inbox.is_sealed(),
                self.records@.len() == old(self).records@.len(),
                forall|id: int|
                    0 <= id < old(self).records@.len() ==> {
                        &&& same_record(old(self).rec(id), #[trigger] self.rec(id))
                        &&& (self.rec(id).enqueued <==> chain.ids().contains(id as usize))
                        &&& if chain.ids().contains(id as usize) {
                            same_entry(old(self).rec(id), self.rec(id)) && old(self).rec(
                                id,
                            ).enqueued
                        } else if old(self).rec(id).enqueued {
                            reconciled(old(self).rec(id), self.rec(id))
                        } else {
                            same_entry(old(self).rec(id), self.rec(id))
                        }
                    },
            decreases chain.ids().len(),
        {
            let ghost pre = *self;
            let ghost qpre = chain.ids();
            let next = chain.pop(&mut self.records);
            proof {
                Self::lemma_queue_uncons(qpre, chain.ids());
            }
            match next {
                Some(id) => {
                    let at = self.records[id].data.at;
                    match at {
                        Some(t) => {
                            let g = read_gen(self.records[id].data.state);
                            match self.records[id].data.slot {
                                Some(s) => {
                                    proof {
                                        assert(pre.heap.slots().contains_key(s as int));
                                    }
                                    self.heap.remove(s);
                                },
                                None => {},
                            }
                            let slot = self.heap.push(HeapTimer { at: t, gen: g, node: id });
                            self.records[id].data.slot = Some(slot);
                            proof {
                                assert(chain.ids().insert(0, id) =~= qpre);
                                self.lemma_reconcile_wf(pre, chain.ids(), id);
                            }
                        },
                        None => {
                            match self.records[id].data.slot {
                                Some(s) => {
                                    proof {
                                        assert(pre.heap.slots().contains_key(s as int));
                                    }
                                    self.heap.remove(s);
                                    self.records[id].data.slot = None;
                                },
                                None => {},
                            }
                            proof {
                                assert(chain.ids().insert(0, id) =~= qpre);
                                self.lemma_reconcile_wf(pre, chain.ids(), id);
                            }
                        },
                    }
                },
                None => {},
            }
        }
        proof {
            assert(chain.ids().len() == 0);
            assert(self.inbox.ids() =~= chain.ids());
            assert(self.wf());
        }
    }

    /// After one record has been popped from the chain and its heap entry
    /// reconciled, well-formedness holds for the shortened chain, the other
    /// records are untouched, and the popped record carries the entry its
    /// `at` field asks for.
    ///
    /// `pre` is the state at the start of the iteration, whose chain was
    /// `q1` with the popped record `id` in front.
    proof fn lemma_reconcile_wf(&self, pre: Timer, q1: Seq<usize>, id: usize)
        requires
            pre.wf_core(q1.insert(0, id)),
            (id as int) < pre.records@.len(),
            self.records@.len() == pre.records@.len(),
            self.inbox == pre.inbox,
            self.shut == pre.shut,
            self.heap.wf(),
            forall|id2: int|
                0 <= id2 < pre.records@.len() && id2 != id ==> self.records@[id2]
                    == pre.records@[id2],
            !self.records@[id as int].enqueued,
            self.records@[id as int].data.at == pre.records@[id as int].data.at,
            self.records@[id as int].data.state == pre.records@[id as int].data.state,
            self.records@[id as int].data.waiter == pre.records@[id as int].data.waiter,
            match self.records@[id as int].data.at {
                Option::Some(t) => {
                    &&& self.records@[id as int].data.slot matches Option::Some(s2)
                    &&& !(match pre.records@[id as int].data.slot {
                        Option::Some(sold) => pre.heap.slots().remove(sold as int),
                        Option::None => pre.heap.slots(),
                    }).contains_key(s2 as int)
                    &&& self.heap.slots() == (match pre.records@[id as int].data.slot {
                        Option::Some(sold) => pre.heap.slots().remove(sold as int),
                        Option::None => pre.heap.slots(),
                    }).insert(
                        s2 as int,
                        (HeapTimer {
                            at: t,
                            gen: w_gen(self.records@[id as int].data.state),
                            node: id,
                        }),
                    )
                },
                Option::None => {
                    &&& self.records@[id as int].data.slot is None
                    &&& self.heap.slots() == (match pre.records@[id as int].data.slot {
                        Option::Some(sold) => pre.heap.slots().remove(sold as int),
                        Option::None => pre.heap.slots(),
                    })
                },
            },
        ensures
            self.wf_core(q1),
            forall|id2: int|
                0 <= id2 < pre.records@.len() && id2 != id ==> self.rec(id2) == pre.rec(id2),
            same_record(pre.rec(id as int), self.rec(id as int)),
            !self.rec(id as int).enqueued,
            reconciled(pre.rec(id as int), self.rec(id as int)),
    {
        let n = self.records@.len() as int;
        assert(self.records.len() == self.records@.len());
        let q = q1.insert(0, id);
        assert(q.len() > 0 && q[0] == id && q1 =~= q.skip(1));
        assert(!pre.shut);
        Self::lemma_queue_uncons(q, q1);
        let sold_entry = pre.records@[id as int].data.slot;
        if sold_entry is Some {
            assert(pre.heap.slots().contains_key(sold_entry.unwrap() as int));
            assert(pre.heap.slots()[sold_entry.unwrap() as int].node == id);
        }
        // entries standing for other records are the same in both heaps
        assert forall|s: int|
            #[trigger] pre.heap.slots().contains_key(s) && pre.heap.slots()[s].node != id implies (
        self.heap.slots().contains_key(s) && self.heap.slots()[s] == pre.heap.slots()[s]) by {
            assert(sold_entry is Some ==> s != sold_entry.unwrap() as int);
        }
        assert forall|s: int|
            #[trigger] self.heap.slots().contains_key(s) && self.heap.slots()[s].node != id implies (
        pre.heap.slots().contains_key(s) && self.heap.slots()[s] == pre.heap.slots()[s]) by {}
        // and the only entry for the popped record is the one its `at` asks for
        assert forall|s: int|
            #[trigger] self.heap.slots().contains_key(s) && self.heap.slots()[s].node == id implies (
        self.records@[id as int].data.at is Some && s == self.records@[id as int].data.slot.unwrap()
            as int) by {
            match self.records@[id as int].data.at {
                Option::Some(t) => {
                    let s2 = self.records@[id as int].data.slot.unwrap() as int;
                    if s != s2 {
                        assert(pre.heap.slots().contains_key(s) && pre.heap.slots()[s].node == id);
                        assert(pre.records@[id as int].data.slot matches Option::Some(so) && so
                            as int == s);
                        assert(!self.heap.slots().contains_key(s));
                    }
                },
                Option::None => {
                    assert(pre.heap.slots().contains_key(s) && pre.heap.slots()[s].node == id);
                    assert(pre.records@[id as int].data.slot matches Option::Some(so) && so as int
                        == s);
                    assert(!self.heap.slots().contains_key(s));
                },
            }
        }
        assert forall|i: int| 0 <= i < q1.len() implies (#[trigger] q1[i]) < n by {
            assert(q1[i] == q[i + 1]);
        }
        assert forall|id2: int|
            0 <= id2 < n implies ((#[trigger] self.records@[id2].enqueued) <==> q1.contains(
            id2 as usize,
        )) by {
            if id2 == id as int {
                assert(!q1.contains(id));
            } else {
                assert(self.records@[id2] == pre.records@[id2]);
                assert(pre.records@[id2].enqueued <==> q.contains(id2 as usize));
            }
        }
        assert forall|id2: int|
            0 <= id2 < n implies match (#[trigger] self.records@[id2]).data.slot {
            Option::Some(s) => self.heap.slots().contains_key(s as int)
                && self.heap.slots()[s as int].node == id2,
            Option::None => true,
        } by {
            if id2 != id {
                assert(self.records@[id2] == pre.records@[id2]);
                match pre.records@[id2].data.slot {
                    Option::Some(s) => {
                        assert(pre.heap.slots().contains_key(s as int));
                        assert(pre.heap.slots()[s as int].node == id2);
                    },
                    Option::None => {},
                }
            }
        }
        assert forall|s: int| #[trigger] self.heap.slots().contains_key(s) implies {
            let e = self.heap.slots()[s];
            &&& (e.node as int) < n
            &&& match self.records@[e.node as int].data.slot {
                Option::Some(s2) => s2 as int == s,
                Option::None => false,
            }
            &&& e.gen <= MAX_GEN
            &&& e.gen == w_gen(self.records@[e.node as int].data.state) ==> (
            self.records@[e.node as int].data.at == Option::Some(e.at)
                || self.records@[e.node as int].enqueued)
        } by {
            let e = self.heap.slots()[s];
            if e.node != id {
                assert(pre.heap.slots().contains_key(s) && pre.heap.slots()[s] == e);
                assert(self.records@[e.node as int] == pre.records@[e.node as int]);
                match pre.records@[e.node as int].data.slot {
                    Option::Some(s2) => {
                        assert(pre.heap.slots().contains_key(s2 as int));
                        assert(pre.heap.slots()[s2 as int].node == e.node);
                    },
                    Option::None => {},
                }
            } else {
                crate::state_word::lemma_gen_bounded(self.records@[id as int].data.state);
            }
        }
        assert(self.wf_core(q1));
        // the records that were not popped look exactly as before
        assert forall|id2: int|
            0 <= id2 < pre.records@.len() && id2 != id implies self.rec(id2) == pre.rec(id2) by {
            assert(self.records@[id2] == pre.records@[id2]);
            match pre.records@[id2].data.slot {
                Option::Some(s) => {
                    assert(pre.heap.slots().contains_key(s as int));
                    assert(pre.heap.slots()[s as int].node == id2);
                    assert(self.heap.slots().contains_key(s as int) && self.heap.slots()[s as int]
                        == pre.heap.slots()[s as int]);
                },
                Option::None => {},
            }
        }
    }

    /// A record's entry was popped and the record possibly fired:
    /// well-formedness holds again and every other record is untouched.
    ///
    /// `pre` is the state just before the pop; `s` the popped slot, standing
    /// for record `id`.  The record's slot is now clear; its word either
    /// gained the fired flag, with the waiter consumed, or is unchanged.
    proof fn lemma_pop_fire_wf(&self, pre: Timer, q: Seq<usize>, id: usize, s: int)
        requires
            pre.wf_core(q),
            pre.heap.slots().contains_key(s),
            pre.heap.slots()[s].node == id,
            self.records@.len() == pre.records@.len(),
            self.inbox == pre.inbox,
            self.shut == pre.shut,
            self.heap.wf(),
            self.heap.slots() == pre.heap.slots().remove(s),
            forall|id2: int|
                0 <= id2 < pre.records@.len() && id2 != id ==> self.records@[id2]
                    == pre.records@[id2],
            self.records@[id as int].enqueued == pre.records@[id as int].enqueued,
            self.records@[id as int].data.at == pre.records@[id as int].data.at,
            (self.records@[id as int].data.slot is None),
            ((self.records@[id as int].data.state == pre.records@[id as int].data.state
                && self.records@[id as int].data.waiter == pre.records@[id as int].data.waiter)
                || (w_fired(self.records@[id as int].data.state) && w_gen(
                self.records@[id as int].data.state,
            ) == w_gen(pre.records@[id as int].data.state) && w_invalidated(
                self.records@[id as int].data.state,
            ) == w_invalidated(pre.records@[id as int].data.state) && (self.records@[id
                as int].data.waiter is None))),
        ensures
            self.wf_core(q),
            forall|id2: int|
                0 <= id2 < pre.records@.len() && id2 != id ==> self.rec(id2) == pre.rec(id2),
    {
        let n = self.records@.len() as int;
        assert(!pre.shut);
        assert(pre.records@[id as int].data.slot matches Option::Some(so) && so as int == s);
        assert forall|id2: int|
            0 <= id2 < n implies ((#[trigger] self.records@[id2].enqueued) <==> q.contains(
            id2 as usize,
        )) by {
            if id2 != id {
                assert(self.records@[id2] == pre.records@[id2]);
            }
            assert(pre.records@[id2].enqueued <==> q.contains(id2 as usize));
        }
        assert forall|id2: int|
            0 <= id2 < n implies match (#[trigger] self.records@[id2]).data.slot {
            Option::Some(s2) => self.heap.slots().contains_key(s2 as int)
                && self.heap.slots()[s2 as int].node == id2,
            Option::None => true,
        } by {
            if id2 != id {
                assert(self.records@[id2] == pre.records@[id2]);
                match pre.records@[id2].data.slot {
                    Option::Some(s2) => {
                        assert(pre.heap.slots().contains_key(s2 as int));
                        assert(pre.heap.slots()[s2 as int].node == id2);
                        assert(s2 as int != s);
                    },
                    Option::None => {},
                }
            }
        }
        assert forall|s2: int| #[trigger] self.heap.slots().contains_key(s2) implies {
            let e = self.heap.slots()[s2];
            &&& (e.node as int) < n
            &&& match self.records@[e.node as int].data.slot {
                Option::Some(s3) => s3 as int == s2,
                Option::None => false,
            }
            &&& e.gen <= MAX_GEN
            &&& e.gen == w_gen(self.records@[e.node as int].data.state) ==> (
            self.records@[e.node as int].data.at == Option::Some(e.at)
                || self.records@[e.node as int].enqueued)
        } by {
            let e = self.heap.slots()[s2];
            assert(pre.heap.slots().contains_key(s2) && pre.heap.slots()[s2] == e);
            assert(e.node != id) by {
                if e.node == id {
                    assert(pre.records@[id as int].data.slot matches Option::Some(s3) && s3 as int
                        == s2);
                }
            }
            assert(self.records@[e.node as int] == pre.records@[e.node as int]);
        }
        assert forall|id2: int|
            0 <= id2 < n && id2 != id implies self.rec(id2) == pre.rec(id2) by {
            assert(self.records@[id2] == pre.records@[id2]);
            match pre.records@[id2].data.slot {
                Option::Some(s2) => {
                    assert(pre.heap.slots().contains_key(s2 as int));
                    assert(pre.heap.slots()[s2 as int].node == id2);
                    assert(s2 as int != s);
                },
                Option::None => {},
            }
        }
        assert forall|id2: int|
            0 <= id2 < n implies (w_invalidated((#[trigger] self.records@[id2]).data.state)
                ==> self.shut) by {
            if id2 != id {
                assert(self.records@[id2] == pre.records@[id2]);
            }
        }
    }

    /// Fires every due timer.  While the earliest heap entry is due at or
    /// before `now`: pop it, clear the record's heap slot, and — exactly
    /// when the entry's generation still matches the record's and neither
    /// flag is set — set the fired flag and consume the waiter's token.
    /// Entries left stale by a reset, an earlier fire or an invalidation
    /// are dropped silently; a later entry for the new generation will
    /// handle the record.
    ///
    /// The consumed tokens come back in fire order, earliest instant first,
    /// each record at most once; the caller invokes them with no lock held.
    #[verifier::rlimit(100)]
    pub fn advance_to(&mut self, now: u64) -> (wakes: Vec<(usize, u64)>)
        requires
            old(self).wf(),
        ensures
            final(self).wf(),
            final(self).is_shut() == old(self).is_shut(),
            final(self).n_records() == old(self).n_records(),
            final(self).inbox_ids() == old(self).inbox_ids(),
            forall|id: int|
                0 <= id < old(self).n_records() ==> advanced(
                    old(self).rec(id),
                    #[trigger] final(self).rec(id),
                    now,
                ),
            forall|k: int|
                0 <= k < wakes@.len() ==> {
                    &&& ((#[trigger] wakes@[k]).0 as int) < old(self).n_records()
                    &&& fires(old(self).rec(wakes@[k].0 as int), now)
                    &&& old(self).rec(wakes@[k].0 as int).waiter == Option::Some(wakes@[k].1)
                },
            forall|id: int|
                0 <= id < old(self).n_records() && fires(#[trigger] old(self).rec(id), now) && old(
                    self,
                ).rec(id).waiter is Some ==> wakes@.contains(
                    (id as usize, old(self).rec(id).waiter.unwrap()),
                ),
            forall|k1: int, k2: int|
                0 <= k1 < k2 < wakes@.len() ==> old(self).rec((#[trigger] wakes@[k1]).0 as int).heap_at
                    <= old(self).rec((#[trigger] wakes@[k2]).0 as int).heap_at,
            forall|k1: int, k2: int|
                0 <= k1 < k2 < wakes@.len() ==> (#[trigger] wakes@[k1]).0 != (
                #[trigger] wakes@[k2]).0,
    {
        let mut wakes: Vec<(usize, u64)> = Vec::new();
        let mut done = false;
        while !done
            invariant
                self.wf(),
                self.shut == old(self).shut,
                self.inbox == old(self).inbox,
                self.records@.len() == old(self).records@.len(),
                forall|id: int|
                    0 <= id < old(self).records@.len() ==> (advanced(
                        old(self).rec(id),
                        #[trigger] self.rec(id),
                        now,
                    ) || self.rec(id) == old(self).rec(id)),
                forall|k: int|
                    0 <= k < wakes@.len() ==> {
                        &&& ((#[trigger] wakes@[k]).0 as int) < old(self).records@.len()
                        &&& fires(old(self).rec(wakes@[k].0 as int), now)
                        &&& old(self).rec(wakes@[k].0 as int).waiter == Option::Some(wakes@[k].1)
                        &&& !self.rec(wakes@[k].0 as int).in_heap
                    },
                forall|id: int|
                    0 <= id < old(self).records@.len() && fires(#[trigger] old(self).rec(id), now)
                        && old(self).rec(id).waiter is Some && self.rec(id) != old(self).rec(id)
                        ==> wakes@.contains((id as usize, old(self).rec(id).waiter.unwrap())),
                forall|k: int, s: int|
                    0 <= k < wakes@.len() && #[trigger] self.heap.slots().contains_key(s) ==> old(
                        self,
                    ).rec((#[trigger] wakes@[k]).0 as int).heap_at <= self.heap.slots()[s].at,
                forall|k1: int, k2: int|
                    0 <= k1 < k2 < wakes@.len() ==> old(self).rec(
                        (#[trigger] wakes@[k1]).0 as int,
                    ).heap_at <= old(self).rec((#[trigger] wakes@[k2]).0 as int).heap_at,
                forall|k1: int, k2: int|
                    0 <= k1 < k2 < wakes@.len() ==> (#[trigger] wakes@[k1]).0 != (
                    #[trigger] wakes@[k2]).0,
                done ==> forall|s: int|
                    #[trigger] self.heap.slots().contains_key(s) ==> self.heap.slots()[s].at > now,
            decreases self.heap.size() + (if done {
                0int
            } else {
                1int
            }),
        {
            let top = self.heap.peek();
            match top {
                None => {
                    done = true;
                },
                Some(top) => {
                    if top.at > now {
                        proof {
                            assert forall|s: int|
                                #[trigger] self.heap.slots().contains_key(s) implies self.heap.slots()[
                            s].at > now by {
                                assert(top.at <= self.heap.slots()[s].at);
                            }
                        }
                        done = true;
                    } else {
                        let ghost pre = *self;
                        let popped = self.heap.pop().unwrap();
                        let (slot, t) = popped;
                        let id = t.node;
                        proof {
                            assert(pre.heap.slots().contains_key(slot as int));
                            assert(pre.heap.slots()[slot as int] == t);
                            assert((id as int) < self.records@.len());
                            assert(pre.records@[id as int].data.slot matches Option::Some(s2) && s2
                                as int == slot as int);
                            assert(pre.rec(id as int).in_heap && pre.rec(id as int).heap_at == t.at
                                && pre.rec(id as int).heap_gen == t.gen);
                            assert(pre.rec(id as int) == old(self).rec(id as int)) by {
                                assert(advanced(old(self).rec(id as int), pre.rec(id as int), now)
                                    || pre.rec(id as int) == old(self).rec(id as int));
                            }
                        }
                        self.records[id].data.slot = None;
                        let w = self.records[id].data.state;
                        let g = read_gen(w);
                        let mut fired_now = false;
                        let mut token: Option<u64> = None;
                        if g == t.gen && !read_fired(w) && !read_invalidated(w) {
                            self.records[id].data.state = mark_fired(w);
                            token = self.records[id].data.waiter;
                            self.records[id].data.waiter = None;
                            fired_now = true;
                        }
                        proof {
                            self.lemma_pop_fire_wf(pre, self.inbox.ids(), id, slot as int);
                            assert(self.wf());
                            assert(advanced(old(self).rec(id as int), self.rec(id as int), now));
                        }
                        match token {
                            Some(tok) => {
                                proof {
                                    assert(fires(old(self).rec(id as int), now));
                                    assert(old(self).rec(id as int).waiter == Option::Some(tok));
                                    assert forall|k: int| 0 <= k < wakes@.len() implies (
                                    #[trigger] wakes@[k]).0 != id by {
                                        assert(!pre.rec(wakes@[k].0 as int).in_heap);
                                    }
                                    assert forall|k: int| 0 <= k < wakes@.len() implies old(
                                        self,
                                    ).rec((#[trigger] wakes@[k]).0 as int).heap_at <= t.at by {
                                        assert(pre.heap.slots().contains_key(slot as int));
                                    }
                                }
                                let ghost prev_wakes = wakes@;
                                wakes.push((id, tok));
                                proof {
                                    assert forall|id2: int|
                                        0 <= id2 < old(self).records@.len() && fires(
                                            #[trigger] old(self).rec(id2),
                                            now,
                                        ) && old(self).rec(id2).waiter is Some && self.rec(id2)
                                            != old(self).rec(id2) implies wakes@.contains(
                                        (id2 as usize, old(self).rec(id2).waiter.unwrap()),
                                    ) by {
                                        if id2 == id as int {
                                            assert(wakes@[wakes@.len() - 1] == (
                                            id,
                                            tok,
                                            ));
                                        } else {
                                            let v = (
                                                id2 as usize,
                                                old(self).rec(id2).waiter.unwrap(),
                                            );
                                            assert(prev_wakes.contains(v));
                                            let k = choose|k: int|
                                                0 <= k < prev_wakes.len() && prev_wakes[k] == v;
                                            assert(wakes@[k] == v);
                                        }
                                    }
                                    assert forall|k: int, s: int|
                                        0 <= k < wakes@.len()
                                            && #[trigger] self.heap.slots().contains_key(s) implies old(
                                        self,
                                    ).rec((#[trigger] wakes@[k]).0 as int).heap_at
                                        <= self.heap.slots()[s].at by {
                                        assert(pre.heap.slots().contains_key(s));
                                        assert(t.at <= pre.heap.slots()[s].at);
                                        if k < wakes@.len() - 1 {
                                            assert(old(self).rec(wakes@[k].0 as int).heap_at
                                                <= pre.heap.slots()[s].at);
                                        }
                                    }
                                }
                            },
                            None => {
                                proof {
                                    assert forall|k: int, s: int|
                                        0 <= k < wakes@.len()
                                            && #[trigger] self.heap.slots().contains_key(s) implies old(
                                        self,
                                    ).rec((#[trigger] wakes@[k]).0 as int).heap_at
                                        <= self.heap.slots()[s].at by {
                                        assert(pre.heap.slots().contains_key(s));
                                    }
                                }
                            },
                        }
                    }
                },
            }
        }
        proof {
            assert forall|id: int| 0 <= id < old(self).records@.len() implies advanced(
                old(self).rec(id),
                #[trigger] final(self).rec(id),
                now,
            ) by {
                if self.rec(id) == old(self).rec(id) {
                    let r0 = old(self).rec(id);
                    if r0.in_heap && r0.heap_at <= now {
                        let s2 = self.records@[id].data.slot.unwrap() as int;
                        assert(self.heap.slots().contains_key(s2));
                        assert(self.heap.slots()[s2].at > now);
                        assert(false);
                    }
                }
            }
        }
        wakes
    }

    /// Shuts the driver down: seals the inbox so that every later push
    /// fails, drains the sealed chain and the heap, and invalidates every
    /// record, consuming registered waiter tokens so suspended waiters can
    /// be woken to observe the invalidation.  The caller invokes the
    /// returned tokens with no lock held.
    #[verifier::rlimit(100)]
    pub fn shutdown(&mut self) -> (wakes: Vec<(usize, u64)>)
        requires
            old(self).wf(),
        ensures
            final(self).wf(),
            final(self).is_shut(),
            final(self).n_records() == old(self).n_records(),
            forall|id: int|
                0 <= id < old(self).n_records() ==> #[trigger] final(self).rec(id) == (RecordView {
                    sched: old(self).rec(id).sched,
                    gen: old(self).rec(id).gen,
                    fired: old(self).rec(id).fired,
                    invalidated: true,
                    waiter: Option::None,
                    enqueued: false,
                    in_heap: false,
                    heap_at: 0,
                    heap_gen: 0,
                }),
            forall|id: int|
                0 <= id < old(self).n_records() && (#[trigger] old(self).rec(id)).waiter is Some
                    ==> wakes@.contains((id as usize, old(self).rec(id).waiter.unwrap())),
            forall|k: int|
                0 <= k < wakes@.len() ==> {
                    &&& ((#[trigger] wakes@[k]).0 as int) < old(self).n_records()
                    &&& old(self).rec(wakes@[k].0 as int).waiter == Option::Some(wakes@[k].1)
                },
    {
        let n = self.records.len();
        let mut chain = self.inbox.take_and_seal();
        while !chain.is_empty()
            invariant
                self.heap == old(self).heap,
                self.inbox.is_sealed(),
                self.inbox.ids().len() == 0,
                self.shut == old(self).shut,
                self.records@.len() == old(self).records@.len(),
                !chain.is_sealed(),
                forall|i: int|
                    0 <= i < chain.ids().len() ==> ((#[trigger] chain.ids()[i]) as int)
                        < self.records@.len(),
                forall|i: int, j: int|
                    0 <= i < j < chain.ids().len() ==> chain.ids()[i] != chain.ids()[j],
                forall|id: int|
                    0 <= id < self.records@.len() ==> ((#[trigger] self.records@[id].enqueued)
                        <==> chain.ids().contains(id as usize)),
                forall|id: int|
                    0 <= id < self.records@.len() ==> (#[trigger] self.records@[id]).data == old(
                        self,
                    ).records@[id].data,
            decreases chain.ids().len(),
        {
            let ghost qpre = chain.ids();
            let popped = chain.pop(&mut self.records);
            proof {
                Self::lemma_queue_uncons(qpre, chain.ids());
                assert(self.records.len() == self.records@.len());
                let hd = qpre[0];
                assert forall|id2: int|
                    0 <= id2 < self.records@.len() implies ((
                #[trigger] self.records@[id2].enqueued) <==> chain.ids().contains(id2 as usize)) by {
                    if id2 == hd as int {
                        assert(!chain.ids().contains(hd));
                    } else {
                        assert(chain.ids().contains(id2 as usize) <==> qpre.contains(id2 as usize));
                    }
                }
            }
        }
        let mut heap_done = false;
        while !heap_done
            invariant
                self.heap.wf(),
                self.inbox.is_sealed(),
                self.inbox.ids().len() == 0,
                self.shut == old(self).shut,
                self.records@.len() == old(self).records@.len(),
                forall|id: int|
                    0 <= id < self.records@.len() ==> !(#[trigger] self.records@[id]).enqueued,
                forall|id: int|
                    0 <= id < self.records@.len() ==> {
                        &&& (#[trigger] self.records@[id]).data.at == old(
                            self,
                        ).records@[id].data.at
                        &&& self.records@[id].data.state == old(self).records@[id].data.state
                        &&& self.records@[id].data.waiter == old(self).records@[id].data.waiter
                    },
                forall|id: int|
                    0 <= id < self.records@.len() ==> match (#[trigger] self.records@[id]).data.slot {
                        Option::Some(s) => self.heap.slots().contains_key(s as int)
                            && self.heap.slots()[s as int].node == id,
                        Option::None => true,
                    },
                forall|s: int|
                    #[trigger] self.heap.slots().contains_key(s) ==> {
                        &&& (self.heap.slots()[s].node as int) < self.records@.len()
                        &&& match self.records@[self.heap.slots()[s].node as int].data.slot {
                            Option::Some(s2) => s2 as int == s,
                            Option::None => false,
                        }
                    },
                heap_done ==> self.heap.size() == 0 && (forall|s: int|
                    !self.heap.slots().contains_key(s)),
            decreases self.heap.size() + (if heap_done {
                0int
            } else {
                1int
            }),
        {
            let ghost pre = *self;
            let popped = self.heap.pop();
            match popped {
                None => {
                    heap_done = true;
                },
                Some((slot, t)) => {
                    let id = t.node;
                    proof {
                        assert(pre.heap.slots().contains_key(slot as int));
                        assert(pre.records@[id as int].data.slot matches Option::Some(s2) && s2
                            as int == slot as int);
                    }
                    self.records[id].data.slot = None;
                    proof {
                        assert forall|id2: int|
                            0 <= id2 < self.records@.len() implies match (
                        #[trigger] self.records@[id2]).data.slot {
                            Option::Some(s) => self.heap.slots().contains_key(s as int)
                                && self.heap.slots()[s as int].node == id2,
                            Option::None => true,
                        } by {
                            if id2 != id {
                                assert(self.records@[id2] == pre.records@[id2]);
                                match pre.records@[id2].data.slot {
                                    Option::Some(s) => {
                                        assert(pre.heap.slots().contains_key(s as int));
                                        assert(pre.heap.slots()[s as int].node == id2);
                                        assert(s as int != slot as int);
                                    },
                                    Option::None => {},
                                }
                            }
                        }
                        assert forall|s: int|
                            #[trigger] self.heap.slots().contains_key(s) implies {
                            &&& (self.heap.slots()[s].node as int) < self.records@.len()
                            &&& match self.records@[self.heap.slots()[s].node as int].data.slot {
                                Option::Some(s2) => s2 as int == s,
                                Option::None => false,
                            }
                        } by {
                            assert(pre.heap.slots().contains_key(s));
                            let e = self.heap.slots()[s];
                            assert(e.node != id) by {
                                if e.node == id {
                                    assert(pre.records@[id as int].data.slot matches Option::Some(
                                        s3,
                                    ) && s3 as int == s);
                                }
                            }
                            assert(self.records@[e.node as int] == pre.records@[e.node as int]);
                        }
                    }
                },
            }
        }
        let mut wakes: Vec<(usize, u64)> = Vec::new();
        let mut i: usize = 0;
        while i < n
            invariant
                n == self.records@.len(),
                i <= n,
                self.heap.wf(),
                self.heap.size() == 0,
                forall|s: int| !self.heap.slots().contains_key(s),
                self.inbox.is_sealed(),
                self.inbox.ids().len() == 0,
                self.records@.len() == old(self).records@.len(),
                forall|id: int|
                    0 <= id < self.records@.len() ==> {
                        &&& !(#[trigger] self.records@[id]).enqueued
                        &&& self.records@[id].data.slot is None
                        &&& self.records@[id].data.at == old(self).records@[id].data.at
                    },
                forall|id: int|
                    i <= id < self.records@.len() ==> {
                        &&& (#[trigger] self.records@[id]).data.state == old(
                            self,
                        ).records@[id].data.state
                        &&& self.records@[id].data.waiter == old(self).records@[id].data.waiter
                    },
                forall|id: int|
                    0 <= id < i ==> {
                        &&& w_invalidated((#[trigger] self.records@[id]).data.state)
                        &&& w_gen(self.records@[id].data.state) == w_gen(
                            old(self).records@[id].data.state,
                        )
                        &&& w_fired(self.records@[id].data.state) == w_fired(
                            old(self).records@[id].data.state,
                        )
                        &&& self.records@[id].data.waiter is None
                    },
                forall|id: int|
                    0 <= id < i && old(self).records@[id].data.waiter is Some ==> wakes@.contains(
                        (id as usize, old(self).records@[id].data.waiter.unwrap()),
                    ),
                forall|k: int|
                    0 <= k < wakes@.len() ==> {
                        &&& ((#[trigger] wakes@[k]).0 as int) < old(self).n_records()
                        &&& old(self).rec(wakes@[k].0 as int).waiter == Option::Some(wakes@[k].1)
                    },
            decreases n - i,
        {
            let w = self.records[i].data.state;
            self.records[i].data.state = mark_invalidated(w);
            let waiter = self.records[i].data.waiter;
            self.records[i].data.waiter = None;
            match waiter {
                Some(tok) => {
                    let ghost prev_wakes = wakes@;
                    wakes.push((i, tok));
                    proof {
                        assert(old(self).rec(i as int).waiter == Option::Some(tok));
                        assert forall|id: int|
                            0 <= id < i + 1 && old(self).records@[id].data.waiter
                                is Some implies wakes@.contains(
                            (id as usize, old(self).records@[id].data.waiter.unwrap()),
                        ) by {
                            if id == i as int {
                                assert(wakes@[wakes@.len() - 1] == (i, tok));
                            } else {
                                let v = (
                                    id as usize,
                                    old(self).records@[id].data.waiter.unwrap(),
                                );
                                assert(prev_wakes.contains(v));
                                let k = choose|k: int|
                                    0 <= k < prev_wakes.len() && prev_wakes[k] == v;
                                assert(wakes@[k] == v);
                            }
                        }
                    }
                },
                None => {},
            }
            i += 1;
        }
        self.shut = true;
        proof {
            assert(self.wf());
            assert forall|id: int|
                0 <= id < old(self).n_records() && (#[trigger] old(self).rec(id)).waiter
                    is Some implies wakes@.contains(
                (id as usize, old(self).rec(id).waiter.unwrap()),
            ) by {
                assert(old(self).records@[id].data.waiter is Some);
                assert(self.records.len() == self.records@.len());
            }
            assert forall|id: int| 0 <= id < old(self).n_records() implies #[trigger] self.rec(id)
                == (RecordView {
                sched: old(self).rec(id).sched,
                gen: old(self).rec(id).gen,
                fired: old(self).rec(id).fired,
                invalidated: true,
                waiter: Option::None,
                enqueued: false,
                in_heap: false,
                heap_at: 0,
                heap_gen: 0,
            }) by {}
        }
        wakes
    }

    /// The inbox holds each record at most once at a time: the enqueued
    /// flag, set under compare-and-swap on push, dedups every later push.
    pub proof fn lemma_inbox_unique(&self)
        requires
            self.wf(),
        ensures
            forall|i: int, j: int|
                0 <= i < j < self.inbox_ids().len() ==> self.inbox_ids()[i] != self.inbox_ids()[j],
    {
    }

    /// Once the driver has shut down, every record is invalidated and stays
    /// so: no operation clears the flag, and a reset that observes it aborts
    /// into the inert path.
    pub proof fn lemma_shut_invalidates(&self, id: int)
        requires
            self.wf(),
            self.is_shut(),
            0 <= id < self.n_records(),
        ensures
            self.rec(id).invalidated,
    {
    }

    /// A record whose heap entry carries its current generation, and which
    /// has no update pending in the inbox, is scheduled exactly at its
    /// entry's instant: together with `advance_to`'s contract, a record
    /// reset to fire at `x` fires no earlier than `x`.
    pub proof fn lemma_entry_matches_schedule(&self, id: int)
        requires
            self.wf(),
            0 <= id < self.n_records(),
            self.rec(id).in_heap,
            self.rec(id).heap_gen == self.rec(id).gen,
            !self.rec(id).enqueued,
        ensures
            self.rec(id).sched == Option::Some(self.rec(id).heap_at),
    {
        let s = self.records@[id].data.slot.unwrap() as int;
        assert(self.heap.slots().contains_key(s));
    }

    /// The earliest scheduled instant in the heap, or `None` when nothing is
    /// scheduled and the driver may park indefinitely.
    pub fn next_event(&self) -> (r: Option<u64>)
        requires
            self.wf(),
        ensures
            match r {
                Option::None => forall|id: int|
                    0 <= id < self.n_records() ==> !(#[trigger] self.rec(id)).in_heap,
                Option::Some(t) => {
                    &&& exists|id: int|
                        0 <= id < self.n_records() && (#[trigger] self.rec(id)).in_heap && self.rec(
                            id,
                        ).heap_at == t
                    &&& forall|id: int|
                        0 <= id < self.n_records() && (#[trigger] self.rec(id)).in_heap ==> t
                            <= self.rec(id).heap_at
                },
            },
    {
        match self.heap.peek() {
            None => {
                proof {
                    assert forall|id: int| 0 <= id < self.n_records() implies !(
                    #[trigger] self.rec(id)).in_heap by {
                        if self.records@[id].data.slot is Some {
                            assert(self.heap.slots().contains_key(
                                self.records@[id].data.slot.unwrap() as int,
                            ));
                        }
                    }
                }
                None
            },
            Some(t) => {
                proof {
                    let s = choose|s: int|
                        self.heap.slots().contains_key(s) && self.heap.slots()[s] == t;
                    let id = self.heap.slots()[s].node as int;
                    assert(self.rec(id).in_heap && self.rec(id).heap_at == t.at);
                    assert forall|id2: int|
                        0 <= id2 < self.n_records() && (#[trigger] self.rec(id2)).in_heap implies t.at
                        <= self.rec(id2).heap_at by {
                        let s2 = self.records@[id2].data.slot.unwrap() as int;
                        assert(self.heap.slots().contains_key(s2));
                    }
                }
                Some(t.at)
            },
        }
    }
}

} // verus!
