//! The driver's priority queue: a binary min-heap keyed by fire time, with
//! stable slot identifiers.
//!
//! Every live entry is addressed by a slot, an index that stays valid across
//! sifts, so a specific entry can be removed in logarithmic time.  The heap
//! keeps a back table `pos_of` from slot to current position and updates it on
//! every swap.  The model of the heap is [`Heap::slots`], the map from live
//! slots to their entries; sifting reorders the backing vector but never
//! changes that map.

use vstd::prelude::*;

verus! {

/// One scheduled firing: the instant to fire at, the record generation
/// captured when the entry was enqueued, and the index of the record.
#[derive(Clone, Copy, PartialEq, Eq, Structural)]
pub struct HeapTimer {
    /// The instant the entry is due.
    pub at: u64,
    /// The record's generation when the driver enqueued the entry.
    pub gen: u64,
    /// The index of the record the entry belongs to.
    pub node: usize,
}

/// A stored entry: the timer plus the slot that addresses it.
#[derive(Clone, Copy)]
struct HeapEntry {
    timer: HeapTimer,
    slot: usize,
}

/// The position of a node's parent in the backing vector.
pub open spec fn parent_of(i: int) -> int {
    (i - 1) / 2
}

/// The binary-heap order: every node is due no earlier than its parent.
spec fn heap_ordered(items: Seq<HeapEntry>) -> bool {
    forall|i: int|
        1 <= i < items.len() ==> (#[trigger] items[i]).timer.at >= items[parent_of(i)].timer.at
}

/// The heap order everywhere except at the edge from `q` up to its parent.
spec fn ordered_except_up(items: Seq<HeapEntry>, q: int) -> bool {
    forall|i: int|
        1 <= i < items.len() && i != q ==> (#[trigger] items[i]).timer.at >= items[parent_of(
            i,
        )].timer.at
}

/// The heap order everywhere except at the edges from `q` down to its
/// children.
spec fn ordered_except_down(items: Seq<HeapEntry>, q: int) -> bool {
    forall|i: int|
        1 <= i < items.len() && parent_of(i) != q ==> (#[trigger] items[i]).timer.at
            >= items[parent_of(i)].timer.at
}

/// The children of `q` are due no earlier than `q`'s parent; the slack that
/// lets a sift move the element at `q` without breaking the order around it.
spec fn children_above_grandparent(items: Seq<HeapEntry>, q: int) -> bool {
    q > 0 ==> forall|c: int|
        1 <= c < items.len() && parent_of(c) == q ==> (#[trigger] items[c]).timer.at
            >= items[parent_of(q)].timer.at
}

/// Slot bookkeeping: `pos_of` and the `slot` fields are inverse to each
/// other, and `free` lists pairwise distinct unoccupied slots.
spec fn links_ok(items: Seq<HeapEntry>, pos_of: Seq<usize>, free: Seq<usize>) -> bool {
    &&& forall|p: int|
        0 <= p < items.len() ==> {
            &&& (#[trigger] items[p]).slot < pos_of.len()
            &&& pos_of[items[p].slot as int] == p
        }
    &&& forall|s: int|
        0 <= s < pos_of.len() && pos_of[s] != usize::MAX ==> {
            &&& (#[trigger] pos_of[s]) < items.len()
            &&& items[pos_of[s] as int].slot == s
        }
    &&& forall|i: int|
        0 <= i < free.len() ==> {
            &&& (#[trigger] free[i]) < pos_of.len()
            &&& pos_of[free[i] as int] == usize::MAX
        }
    &&& forall|i: int, j: int| 0 <= i < j < free.len() ==> free[i] != free[j]
}

/// The priority queue of scheduled timers.
pub struct Heap {
    items: Vec<HeapEntry>,
    pos_of: Vec<usize>,
    free: Vec<usize>,
}

impl Heap {
    /// The entries currently in the heap, keyed by their stable slots.
    pub closed spec fn slots(&self) -> Map<int, HeapTimer> {
        Map::new(
            |s: int| 0 <= s < self.pos_of@.len() && self.pos_of@[s] != usize::MAX,
            |s: int| self.items@[self.pos_of@[s] as int].timer,
        )
    }

    /// How many entries the heap holds.
    pub closed spec fn size(&self) -> nat {
        self.items@.len()
    }

    /// Well-formedness: the slot bookkeeping is consistent and the backing
    /// vector is heap-ordered.
    pub closed spec fn wf(&self) -> bool {
        &&& links_ok(self.items@, self.pos_of@, self.free@)
        &&& heap_ordered(self.items@)
    }

    /// An empty heap.
    pub fn new() -> (r: Heap)
        ensures
            r.wf(),
            r.slots() =~= Map::<int, HeapTimer>::empty(),
            r.size() == 0,
    {
        Heap { items: Vec::new(), pos_of: Vec::new(), free: Vec::new() }
    }

    /// In a heap-ordered vector the root is due no later than any node.
    proof fn lemma_root_min(&self, i: int)
        requires
            heap_ordered(self.items@),
            0 <= i < self.items@.len(),
        ensures
            self.items@[0].timer.at <= self.items@[i].timer.at,
        decreases i,
    {
        if i > 0 {
            assert(0 <= parent_of(i) < i);
            self.lemma_root_min(parent_of(i));
        }
    }

    /// Swaps the entries at two positions and fixes the slot table; the slot
    /// map is unchanged.
    fn swap_entries(&mut self, a: usize, b: usize)
        requires
            links_ok(old(self).items@, old(self).pos_of@, old(self).free@),
            a < old(self).items@.len(),
            b < old(self).items@.len(),
        ensures
            links_ok(final(self).items@, final(self).pos_of@, final(self).free@),
            final(self).items@ =~= old(self).items@.update(
                a as int,
                old(self).items@[b as int],
            ).update(b as int, old(self).items@[a as int]),
            final(self).slots() =~= old(self).slots(),
            final(self).free@ == old(self).free@,
            final(self).pos_of@.len() == old(self).pos_of@.len(),
            final(self).size() == old(self).size(),
    {
        let ea = self.items[a];
        let eb = self.items[b];
        self.items[a] = eb;
        self.items[b] = ea;
        self.pos_of[eb.slot] = a;
        self.pos_of[ea.slot] = b;
        proof {
            let ai = a as int;
            let bi = b as int;
            let sa = ea.slot as int;
            let sb = eb.slot as int;
            assert forall|p: int| 0 <= p < self.items@.len() implies {
                &&& (#[trigger] self.items@[p]).slot < self.pos_of@.len()
                &&& self.pos_of@[self.items@[p].slot as int] == p
            } by {
                if p != ai && p != bi {
                    assert(old(self).items@[p].slot != ea.slot && old(self).items@[p].slot
                        != eb.slot);
                }
            }
            assert forall|s: int|
                0 <= s < self.pos_of@.len() && self.pos_of@[s] != usize::MAX implies {
                &&& (#[trigger] self.pos_of@[s]) < self.items@.len()
                &&& self.items@[self.pos_of@[s] as int].slot == s
            } by {
                if s != sa && s != sb {
                    assert(self.pos_of@[s] == old(self).pos_of@[s]);
                }
            }
            assert forall|i: int| 0 <= i < self.free@.len() implies {
                &&& (#[trigger] self.free@[i]) < self.pos_of@.len()
                &&& self.pos_of@[self.free@[i] as int] == usize::MAX
            } by {
                assert(old(self).pos_of@[self.free@[i] as int] == usize::MAX);
                assert(old(self).pos_of@[sa] == a && old(self).pos_of@[sb] == b);
                assert(self.items.len() <= usize::MAX);
                assert(a != usize::MAX && b != usize::MAX);
                assert(self.free@[i] != ea.slot && self.free@[i] != eb.slot);
            }
            assert forall|s: int| #![auto] 0 <= s < self.pos_of@.len() implies {
                &&& (self.pos_of@[s] != usize::MAX) == (old(self).pos_of@[s] != usize::MAX)
                &&& (self.pos_of@[s] != usize::MAX ==> self.items@[self.pos_of@[s] as int].timer
                    == old(self).items@[old(self).pos_of@[s] as int].timer)
            } by {
                assert(old(self).pos_of@[sa] == a && old(self).pos_of@[sb] == b);
                assert(self.items.len() <= usize::MAX);
                assert(a != usize::MAX && b != usize::MAX);
                if s == sa {
                    assert(self.items@[bi].timer == old(self).items@[ai].timer);
                } else if s == sb {
                    assert(self.items@[ai].timer == old(self).items@[bi].timer);
                } else {
                    assert(self.pos_of@[s] == old(self).pos_of@[s]);
                    if old(self).pos_of@[s] != usize::MAX {
                        let p = old(self).pos_of@[s] as int;
                        assert(old(self).items@[p].slot == s);
                        assert(p != ai && p != bi);
                        assert(self.items@[p] == old(self).items@[p]);
                    }
                }
            }
            assert(self.slots() =~= old(self).slots());
            assert(self.slots() == old(self).slots());
        }
    }

    /// Moves the entry at `p` up until its parent is due no later than it.
    #[verifier::rlimit(100)]
    fn sift_up(&mut self, p: usize)
        requires
            links_ok(old(self).items@, old(self).pos_of@, old(self).free@),
            p < old(self).items@.len(),
            ordered_except_up(old(self).items@, p as int),
            children_above_grandparent(old(self).items@, p as int),
        ensures
            final(self).wf(),
            final(self).slots() =~= old(self).slots(),
            final(self).free@ == old(self).free@,
            final(self).pos_of@.len() == old(self).pos_of@.len(),
            final(self).size() == old(self).size(),
    {
        let mut q = p;
        let mut done = false;
        while !done
            invariant
                links_ok(self.items@, self.pos_of@, self.free@),
                q < self.items@.len(),
                ordered_except_up(self.items@, q as int),
                children_above_grandparent(self.items@, q as int),
                self.slots() =~= old(self).slots(),
                self.free@ == old(self).free@,
                self.pos_of@.len() == old(self).pos_of@.len(),
                self.items@.len() == old(self).items@.len(),
                done ==> (q == 0 || self.items@[q as int].timer.at >= self.items@[parent_of(
                    q as int,
                )].timer.at),
            decreases 2 * q + (if done {
                0int
            } else {
                1int
            }),
        {
            if q == 0 {
                done = true;
            } else {
                let par = (q - 1) / 2;
                if self.items[par].timer.at <= self.items[q].timer.at {
                    done = true;
                } else {
                    let ghost pre = self.items@;
                    self.swap_entries(par, q);
                    proof {
                        let qi = q as int;
                        let pi = par as int;
                        let post = self.items@;
                        assert forall|i: int|
                            1 <= i < post.len() && i != pi implies (#[trigger] post[i]).timer.at
                            >= post[parent_of(i)].timer.at by {
                            if i == qi {
                                assert(post[qi] == pre[pi]);
                            } else if parent_of(i) == qi {
                                assert(pre[i].timer.at >= pre[parent_of(qi)].timer.at);
                            } else if parent_of(i) == pi {
                                assert(pre[i].timer.at >= pre[pi].timer.at);
                            } else {
                                assert(pre[i].timer.at >= pre[parent_of(i)].timer.at);
                            }
                        }
                        assert(children_above_grandparent(post, pi)) by {
                            if pi > 0 {
                                assert forall|c: int|
                                    1 <= c < post.len() && parent_of(c) == pi implies (
                                    #[trigger] post[c]).timer.at >= post[parent_of(pi)].timer.at by {
                                    assert(pre[pi].timer.at >= pre[parent_of(pi)].timer.at);
                                    if c == qi {
                                        assert(post[c] == pre[pi]);
                                    } else {
                                        assert(pre[c].timer.at >= pre[pi].timer.at);
                                    }
                                }
                            }
                        }
                    }
                    q = par;
                }
            }
        }
        proof {
            assert forall|i: int|
                1 <= i < self.items@.len() implies (#[trigger] self.items@[i]).timer.at
                >= self.items@[parent_of(i)].timer.at by {
                if i != q as int {
                    assert(ordered_except_up(self.items@, q as int));
                }
            }
        }
    }

    /// Moves the entry at `p` down until no child is due earlier than it.
    #[verifier::rlimit(100)]
    fn sift_down(&mut self, p: usize)
        requires
            links_ok(old(self).items@, old(self).pos_of@, old(self).free@),
            p < old(self).items@.len(),
            ordered_except_down(old(self).items@, p as int),
            children_above_grandparent(old(self).items@, p as int),
        ensures
            final(self).wf(),
            final(self).slots() =~= old(self).slots(),
            final(self).free@ == old(self).free@,
            final(self).pos_of@.len() == old(self).pos_of@.len(),
            final(self).size() == old(self).size(),
    {
        let mut q = p;
        let mut done = false;
        while !done
            invariant
                links_ok(self.items@, self.pos_of@, self.free@),
                q < self.items@.len(),
                ordered_except_down(self.items@, q as int),
                children_above_grandparent(self.items@, q as int),
                self.slots() =~= old(self).slots(),
                self.free@ == old(self).free@,
                self.pos_of@.len() == old(self).pos_of@.len(),
                self.items@.len() == old(self).items@.len(),
                done ==> forall|c: int|
                    1 <= c < self.items@.len() && parent_of(c) == q as int ==> (
                    #[trigger] self.items@[c]).timer.at >= self.items@[q as int].timer.at,
            decreases self.items@.len() - q + (if done {
                0int
            } else {
                1int
            }),
        {
            let len = self.items.len();
            if q >= len / 2 {
                proof {
                    assert forall|c: int| 1 <= c < len && parent_of(c) == q as int implies (
                    #[trigger] self.items@[c]).timer.at >= self.items@[q as int].timer.at by {
                        assert(c >= 2 * (q as int) + 1);
                    }
                }
                done = true;
            } else {
                let c1 = 2 * q + 1;
                let c2 = 2 * q + 2;
                let c = if c2 < len && self.items[c2].timer.at < self.items[c1].timer.at {
                    c2
                } else {
                    c1
                };
                if self.items[q].timer.at <= self.items[c].timer.at {
                    proof {
                        assert forall|ch: int| 1 <= ch < len && parent_of(ch) == q as int implies (
                        #[trigger] self.items@[ch]).timer.at >= self.items@[q as int].timer.at by {
                            assert(ch == 2 * (q as int) + 1 || ch == 2 * (q as int) + 2);
                        }
                    }
                    done = true;
                } else {
                    let ghost pre = self.items@;
                    self.swap_entries(q, c);
                    proof {
                        let qi = q as int;
                        let ci = c as int;
                        let post = self.items@;
                        assert(parent_of(ci) == qi);
                        assert forall|i: int|
                            1 <= i < post.len() && parent_of(i) != ci implies (
                        #[trigger] post[i]).timer.at >= post[parent_of(i)].timer.at by {
                            if i == ci {
                                assert(post[ci] == pre[qi]);
                            } else if parent_of(i) == qi {
                                assert(pre[i].timer.at >= pre[ci].timer.at);
                            } else if i == qi {
                                assert(children_above_grandparent(pre, qi));
                                assert(pre[ci].timer.at >= pre[parent_of(qi)].timer.at);
                            } else {
                                assert(pre[i].timer.at >= pre[parent_of(i)].timer.at);
                            }
                        }
                        assert(children_above_grandparent(post, ci)) by {
                            assert forall|ch: int|
                                1 <= ch < post.len() && parent_of(ch) == ci implies (
                            #[trigger] post[ch]).timer.at >= post[parent_of(ci)].timer.at by {
                                assert(pre[ch].timer.at >= pre[ci].timer.at);
                            }
                        }
                    }
                    q = c;
                }
            }
        }
        proof {
            assert forall|i: int|
                1 <= i < self.items@.len() implies (#[trigger] self.items@[i]).timer.at
                >= self.items@[parent_of(i)].timer.at by {
                if parent_of(i) == q as int {
                    assert(self.items@[i].timer.at >= self.items@[q as int].timer.at);
                } else {
                    assert(ordered_except_down(self.items@, q as int));
                }
            }
        }
    }

    /// Inserts an entry and returns the fresh slot that addresses it.
    pub fn push(&mut self, t: HeapTimer) -> (slot: usize)
        requires
            old(self).wf(),
        ensures
            final(self).wf(),
            !old(self).slots().contains_key(slot as int),
            final(self).slots() =~= old(self).slots().insert(slot as int, t),
            final(self).size() == old(self).size() + 1,
    {
        let slot = match self.free.pop() {
            Some(s) => s,
            None => {
                let s = self.pos_of.len();
                self.pos_of.push(usize::MAX);
                s
            },
        };
        proof {
            assert(links_ok(self.items@, self.pos_of@, self.free@)) by {
                assert forall|s2: int|
                    0 <= s2 < self.pos_of@.len() && self.pos_of@[s2] != usize::MAX implies {
                    &&& (#[trigger] self.pos_of@[s2]) < self.items@.len()
                    &&& self.items@[self.pos_of@[s2] as int].slot == s2
                } by {
                    assert(old(self).pos_of@[s2] == self.pos_of@[s2]);
                }
            }
            assert(slot < self.pos_of@.len() && self.pos_of@[slot as int] == usize::MAX);
            assert(forall|i: int|
                0 <= i < self.free@.len() ==> #[trigger] self.free@[i] != slot);
            assert(self.slots() =~= old(self).slots());
            assert(self.slots() == old(self).slots());
            assert(!old(self).slots().contains_key(slot as int));
        }
        let ghost mid = *self;
        let pos = self.items.len();
        self.items.push(HeapEntry { timer: t, slot: slot });
        self.pos_of[slot] = pos;
        proof {
            let pi = pos as int;
            let si = slot as int;
            assert forall|p: int| 0 <= p < self.items@.len() implies {
                &&& (#[trigger] self.items@[p]).slot < self.pos_of@.len()
                &&& self.pos_of@[self.items@[p].slot as int] == p
            } by {
                if p != pi {
                    assert(mid.items@[p] == self.items@[p]);
                    assert(mid.pos_of@[mid.items@[p].slot as int] == p);
                    assert(self.items@[p].slot != slot);
                }
            }
            assert forall|s2: int|
                0 <= s2 < self.pos_of@.len() && self.pos_of@[s2] != usize::MAX implies {
                &&& (#[trigger] self.pos_of@[s2]) < self.items@.len()
                &&& self.items@[self.pos_of@[s2] as int].slot == s2
            } by {
                if s2 != si {
                    assert(self.pos_of@[s2] == mid.pos_of@[s2]);
                }
            }
            assert forall|i: int| 0 <= i < self.free@.len() implies {
                &&& (#[trigger] self.free@[i]) < self.pos_of@.len()
                &&& self.pos_of@[self.free@[i] as int] == usize::MAX
            } by {
                assert(mid.pos_of@[self.free@[i] as int] == usize::MAX);
                assert(self.free@[i] != slot);
            }
            assert(links_ok(self.items@, self.pos_of@, self.free@));
            assert forall|c: int| 1 <= c < self.items@.len() && parent_of(c) == pi implies (
            #[trigger] self.items@[c]).timer.at >= self.items@[parent_of(pi)].timer.at by {
                assert(c >= 2 * pi + 1);
            }
            assert(ordered_except_up(self.items@, pi));
            assert(self.items.len() <= usize::MAX);
            assert(pos != usize::MAX);
            assert forall|s2: int| #![auto]
                0 <= s2 < self.pos_of@.len() && self.pos_of@[s2] != usize::MAX && s2 != si implies {
                &&& mid.slots().contains_key(s2)
                &&& self.items@[self.pos_of@[s2] as int].timer == mid.slots()[s2]
            } by {
                assert(self.pos_of@[s2] == mid.pos_of@[s2]);
                assert(mid.pos_of@[s2] < mid.items@.len());
                assert(self.items@[self.pos_of@[s2] as int] == mid.items@[mid.pos_of@[
                    s2
                ] as int]);
            }
            assert(self.slots() =~= mid.slots().insert(si, t));
            assert(mid.slots() == old(self).slots());
            assert(self.slots() =~= old(self).slots().insert(si, t));
        }
        self.sift_up(pos);
        slot
    }

    /// The entry due earliest, if the heap is not empty.
    pub fn peek(&self) -> (r: Option<HeapTimer>)
        requires
            self.wf(),
        ensures
            match r {
                Option::None => self.size() == 0 && forall|s: int| !self.slots().contains_key(s),
                Option::Some(t) => {
                    &&& self.size() > 0
                    &&& exists|s: int| self.slots().contains_key(s) && self.slots()[s] == t
                    &&& forall|s: int|
                        self.slots().contains_key(s) ==> t.at <= (#[trigger] self.slots()[s]).at
                },
            },
    {
        if self.items.len() == 0 {
            None
        } else {
            let t = self.items[0].timer;
            proof {
                let s0 = self.items@[0].slot as int;
                assert(self.slots().contains_key(s0) && self.slots()[s0] == t);
                assert forall|s: int| self.slots().contains_key(s) implies t.at <= (
                #[trigger] self.slots()[s]).at by {
                    self.lemma_root_min(self.pos_of@[s] as int);
                }
            }
            Some(t)
        }
    }

    /// Removes and returns the entry due earliest, together with the slot
    /// that addressed it.
    pub fn pop(&mut self) -> (r: Option<(usize, HeapTimer)>)
        requires
            old(self).wf(),
        ensures
            final(self).wf(),
            match r {
                Option::None => {
                    &&& old(self).size() == 0
                    &&& forall|s: int| !old(self).slots().contains_key(s)
                    &&& final(self).slots() =~= old(self).slots()
                    &&& final(self).size() == old(self).size()
                },
                Option::Some((slot, t)) => {
                    &&& old(self).slots().contains_key(slot as int)
                    &&& old(self).slots()[slot as int] == t
                    &&& final(self).slots() =~= old(self).slots().remove(slot as int)
                    &&& final(self).size() == old(self).size() - 1
                    &&& forall|s: int|
                        old(self).slots().contains_key(s) ==> t.at <= (#[trigger] old(
                            self,
                        ).slots()[s]).at
                },
            },
    {
        let n = self.items.len();
        if n == 0 {
            return None;
        }
        let e0 = self.items[0];
        proof {
            assert(self.slots().contains_key(e0.slot as int));
            assert forall|s: int| self.slots().contains_key(s) implies e0.timer.at <= (
            #[trigger] self.slots()[s]).at by {
                self.lemma_root_min(self.pos_of@[s] as int);
            }
        }
        self.pos_of[e0.slot] = usize::MAX;
        self.free.push(e0.slot);
        if n == 1 {
            self.items.pop();
            return Some((e0.slot, e0.timer));
        }
        let last = self.items.pop().unwrap();
        self.items[0] = last;
        self.pos_of[last.slot] = 0;
        proof {
            assert(children_above_grandparent(self.items@, 0));
        }
        self.sift_down(0);
        Some((e0.slot, e0.timer))
    }

    /// Removes the entry addressed by `slot`, fixing the heap around the
    /// element that takes its position.
    #[verifier::rlimit(100)]
    pub fn remove(&mut self, slot: usize) -> (t: HeapTimer)
        requires
            old(self).wf(),
            old(self).slots().contains_key(slot as int),
        ensures
            final(self).wf(),
            t == old(self).slots()[slot as int],
            final(self).slots() =~= old(self).slots().remove(slot as int),
            final(self).size() == old(self).size() - 1,
    {
        let pos = self.pos_of[slot];
        let n = self.items.len();
        if pos < n - 1 {
            self.swap_entries(pos, n - 1);
        }
        let e = self.items.pop().unwrap();
        self.pos_of[slot] = usize::MAX;
        self.free.push(slot);
        proof {
            let si = slot as int;
            let ghost orig = *old(self);
            assert(e.slot == slot && e.timer == orig.slots()[si]);
            assert forall|p: int| 0 <= p < self.items@.len() implies {
                &&& (#[trigger] self.items@[p]).slot < self.pos_of@.len()
                &&& self.pos_of@[self.items@[p].slot as int] == p
            } by {
                assert(self.items@[p].slot != slot);
            }
            assert forall|s2: int|
                0 <= s2 < self.pos_of@.len() && self.pos_of@[s2] != usize::MAX implies {
                &&& (#[trigger] self.pos_of@[s2]) < self.items@.len()
                &&& self.items@[self.pos_of@[s2] as int].slot == s2
            } by {
                assert(s2 != si);
            }
            assert forall|i: int| 0 <= i < self.free@.len() implies {
                &&& (#[trigger] self.free@[i]) < self.pos_of@.len()
                &&& self.pos_of@[self.free@[i] as int] == usize::MAX
            } by {
                if i < self.free@.len() - 1 {
                    assert(self.free@[i] != slot);
                }
            }
            assert forall|i: int, j: int| 0 <= i < j < self.free@.len() implies self.free@[i]
                != self.free@[j] by {
                if j == self.free@.len() - 1 {
                    assert(self.free@[i] != slot);
                }
            }
            assert(links_ok(self.items@, self.pos_of@, self.free@));
            assert(self.slots() =~= old(self).slots().remove(si));
        }
        if pos < self.items.len() {
            proof {
                let p = pos as int;
                let items = self.items@;
                if p > 0 && items[p].timer.at < items[parent_of(p)].timer.at {
                    assert forall|i: int|
                        1 <= i < items.len() && i != p implies (#[trigger] items[i]).timer.at
                        >= items[parent_of(i)].timer.at by {
                        if parent_of(i) == p {
                            assert(old(self).items@[i].timer.at >= old(self).items@[p].timer.at);
                            assert(old(self).items@[p].timer.at >= old(self).items@[parent_of(
                                p,
                            )].timer.at);
                        }
                    }
                    assert(children_above_grandparent(items, p)) by {
                        assert forall|c: int| 1 <= c < items.len() && parent_of(c) == p implies (
                        #[trigger] items[c]).timer.at >= items[parent_of(p)].timer.at by {
                            assert(old(self).items@[c].timer.at >= old(self).items@[p].timer.at);
                            assert(old(self).items@[p].timer.at >= old(self).items@[parent_of(
                                p,
                            )].timer.at);
                        }
                    }
                } else {
                    assert forall|i: int|
                        1 <= i < items.len() && parent_of(i) != p implies (
                    #[trigger] items[i]).timer.at >= items[parent_of(i)].timer.at by {
                        if i != p {
                            assert(old(self).items@[i].timer.at >= old(self).items@[parent_of(
                                i,
                            )].timer.at);
                        }
                    }
                    assert(children_above_grandparent(items, p)) by {
                        if p > 0 {
                            assert forall|c: int|
                                1 <= c < items.len() && parent_of(c) == p implies (
                            #[trigger] items[c]).timer.at >= items[parent_of(p)].timer.at by {
                                assert(old(self).items@[c].timer.at >= old(self).items@[
                                    p
                                ].timer.at);
                                assert(old(self).items@[p].timer.at >= old(self).items@[parent_of(
                                    p,
                                )].timer.at);
                            }
                        }
                    }
                }
            }
            if pos > 0 && self.items[pos].timer.at < self.items[(pos - 1) / 2].timer.at {
                self.sift_up(pos);
            } else {
                self.sift_down(pos);
            }
        } else {
            proof {
                assert forall|i: int|
                    1 <= i < self.items@.len() implies (#[trigger] self.items@[i]).timer.at
                    >= self.items@[parent_of(i)].timer.at by {
                    assert(old(self).items@[i].timer.at >= old(self).items@[parent_of(
                        i,
                    )].timer.at);
                }
            }
        }
        e.timer
    }
}

} // verus!
