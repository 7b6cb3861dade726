//! The delay handle: a one-shot timer bound to a driver's record.
//!
//! A delay is created against a driver, polls its own record's state word,
//! can be reset to a new instant, and is cancelled by handing it back.  A
//! delay without a record — built after its driver shut down, or reset after
//! invalidation — is inert: every poll reports that the timer is gone.

use vstd::prelude::*;

use crate::error::Error;
use crate::timer::RecordView;
use crate::timer::Timer;
use crate::state_word::next_gen;

verus! {

/// What one poll of a delay observes.
pub enum DelayPoll {
    /// The delay has not fired yet; the waiter's notifier is registered.
    Pending,
    /// The delay fired, or can never fire because the driver is gone.
    Ready(Result<(), Error>),
}

/// A handle that becomes ready at or after a scheduled instant.
pub struct Delay {
    state: Option<usize>,
    when: u64,
}

impl Delay {
    /// An inert delay has no record; every poll reports the driver gone.
    pub closed spec fn is_inert(&self) -> bool {
        self.state is None
    }

    /// The index of the delay's record in its driver's store.
    pub closed spec fn rec_id(&self) -> int {
        self.state.unwrap() as int
    }

    /// The instant the delay is scheduled to fire at.
    pub closed spec fn spec_fires_at(&self) -> u64 {
        self.when
    }

    /// The delay belongs to this driver: it is inert or indexes a record.
    pub open spec fn valid(&self, timer: &Timer) -> bool {
        self.is_inert() || 0 <= self.rec_id() < timer.n_records()
    }

    /// Creates a delay that fires at `at`, bound to the given driver.
    ///
    /// When the driver has already shut down the delay is inert and will
    /// report the driver gone on every poll.
    pub fn new(timer: &mut Timer, at: u64) -> (d: Delay)
        requires
            old(timer).wf(),
        ensures
            final(timer).wf(),
            final(timer).is_shut() == old(timer).is_shut(),
            d.valid(final(timer)),
            d.spec_fires_at() == at,
            old(timer).is_shut() ==> {
                &&& d.is_inert()
                &&& final(timer).n_records() == old(timer).n_records()
                &&& forall|id: int|
                    0 <= id < old(timer).n_records() ==> final(timer).rec(id) == old(timer).rec(id)
            },
            !old(timer).is_shut() ==> {
                &&& !d.is_inert()
                &&& d.rec_id() == old(timer).n_records()
                &&& final(timer).n_records() == old(timer).n_records() + 1
                &&& final(timer).rec(d.rec_id()) == (RecordView {
                    sched: Option::Some(at),
                    gen: 0,
                    fired: false,
                    invalidated: false,
                    waiter: Option::None,
                    enqueued: true,
                    in_heap: false,
                    heap_at: 0,
                    heap_gen: 0,
                })
                &&& forall|id: int|
                    0 <= id < old(timer).n_records() ==> final(timer).rec(id) == old(timer).rec(id)
            },
    {
        proof {
            timer.lemma_n_records_bound();
        }
        let state = timer.schedule(at);
        Delay { state: state, when: at }
    }

    /// Polls the delay: ready once its record has fired, an error once the
    /// driver is gone, pending otherwise.
    ///
    /// On the pending path the waiter's notifier token is registered first
    /// and the state word is read again afterwards, closing the race between
    /// registration and a concurrent fire.
    pub fn poll(&self, timer: &mut Timer, token: u64) -> (r: DelayPoll)
        requires
            old(timer).wf(),
            self.valid(old(timer)),
        ensures
            final(timer).wf(),
            final(timer).is_shut() == old(timer).is_shut(),
            final(timer).n_records() == old(timer).n_records(),
            self.is_inert() ==> {
                &&& (r matches DelayPoll::Ready(res) && res matches Result::Err(e)
                    && e.is_timer_dropped())
                &&& forall|id: int|
                    0 <= id < old(timer).n_records() ==> final(timer).rec(id) == old(timer).rec(id)
            },
            !self.is_inert() && old(timer).rec(self.rec_id()).fired ==> {
                &&& r == DelayPoll::Ready(Result::<(), Error>::Ok(()))
                &&& forall|id: int|
                    0 <= id < old(timer).n_records() ==> final(timer).rec(id) == old(timer).rec(id)
            },
            !self.is_inert() && !old(timer).rec(self.rec_id()).fired ==> {
                &&& final(timer).rec(self.rec_id()) == (RecordView {
                    waiter: Option::Some(token),
                    ..old(timer).rec(self.rec_id())
                })
                &&& forall|id: int|
                    0 <= id < old(timer).n_records() && id != self.rec_id() ==> final(timer).rec(
                        id,
                    ) == old(timer).rec(id)
                &&& if old(timer).rec(self.rec_id()).invalidated {
                    (r matches DelayPoll::Ready(res) && res matches Result::Err(e)
                        && e.is_timer_dropped())
                } else {
                    r == DelayPoll::Pending
                }
            },
    {
        let id = match self.state {
            Some(id) => id,
            None => {
                return DelayPoll::Ready(Err(Error::new_timer_dropped()));
            },
        };
        if timer.record_fired(id) {
            return DelayPoll::Ready(Ok(()));
        }
        timer.register_waiter(id, token);
        if timer.record_fired(id) {
            DelayPoll::Ready(Ok(()))
        } else if timer.record_invalidated(id) {
            DelayPoll::Ready(Err(Error::new_timer_dropped()))
        } else {
            DelayPoll::Pending
        }
    }

    /// Resets the delay to fire at `at`, even if it has already fired: the
    /// record's generation is bumped with both flags cleared and the record
    /// is pushed back to the driver.  A reset that observes an invalidated
    /// record leaves the delay permanently inert.
    pub fn reset_at(&mut self, timer: &mut Timer, at: u64)
        requires
            old(timer).wf(),
            old(self).valid(old(timer)),
        ensures
            final(timer).wf(),
            final(timer).is_shut() == old(timer).is_shut(),
            final(timer).n_records() == old(timer).n_records(),
            final(self).valid(final(timer)),
            final(self).spec_fires_at() == at,
            old(self).is_inert() ==> {
                &&& final(self).is_inert()
                &&& forall|id: int|
                    0 <= id < old(timer).n_records() ==> final(timer).rec(id) == old(timer).rec(id)
            },
            !old(self).is_inert() && old(timer).rec(old(self).rec_id()).invalidated ==> {
                &&& final(self).is_inert()
                &&& forall|id: int|
                    0 <= id < old(timer).n_records() ==> final(timer).rec(id) == old(timer).rec(id)
            },
            !old(self).is_inert() && !old(timer).rec(old(self).rec_id()).invalidated ==> {
                &&& !final(self).is_inert()
                &&& final(self).rec_id() == old(self).rec_id()
                &&& final(timer).rec(old(self).rec_id()) == (RecordView {
                    sched: Option::Some(at),
                    gen: next_gen(old(timer).rec(old(self).rec_id()).gen),
                    fired: false,
                    invalidated: false,
                    enqueued: true,
                    ..old(timer).rec(old(self).rec_id())
                })
                &&& forall|id: int|
                    0 <= id < old(timer).n_records() && id != old(self).rec_id() ==> final(timer).rec(id) == old(timer).rec(id)
            },
    {
        self.when = at;
        let id = match self.state {
            Some(id) => id,
            None => {
                return ;
            },
        };
        match timer.reset_record(id, at) {
            Ok(()) => {},
            Err(()) => {
                self.state = None;
            },
        }
    }

    /// The drop path of a delay: hands the record back to the driver, which
    /// removes it from the heap; the notifier register is released so a
    /// fire that races with the drop wakes nobody.  A no-op once the driver
    /// has shut down.
    pub fn cancel(self, timer: &mut Timer)
        requires
            old(timer).wf(),
            self.valid(old(timer)),
        ensures
            final(timer).wf(),
            final(timer).is_shut() == old(timer).is_shut(),
            final(timer).n_records() == old(timer).n_records(),
            self.is_inert() || old(timer).is_shut() ==> forall|id: int|
                0 <= id < old(timer).n_records() ==> final(timer).rec(id) == old(timer).rec(id),
            !self.is_inert() && !old(timer).is_shut() ==> {
                &&& final(timer).rec(self.rec_id()) == (RecordView {
                    sched: Option::None,
                    waiter: Option::None,
                    enqueued: true,
                    ..old(timer).rec(self.rec_id())
                })
                &&& forall|id: int|
                    0 <= id < old(timer).n_records() && id != self.rec_id() ==> final(timer).rec(
                        id,
                    ) == old(timer).rec(id)
            },
    {
        let id = match self.state {
            Some(id) => id,
            None => {
                return ;
            },
        };
        timer.cancel_record(id);
    }
}

/// The instant a delay is scheduled to fire at, for combinators that reset
/// per item.
pub fn fires_at(delay: &Delay) -> (r: u64)
    ensures
        r == delay.spec_fires_at(),
{
    delay.when
}

} // verus!
