//! Repeating notifications built on one delay that is reset after every
//! fire.
//!
//! The arithmetic core is [`next_interval`]: given the previous deadline,
//! the current instant and the period, it yields the next deadline on the
//! period grid strictly after now — when whole periods went unobserved they
//! are skipped, not replayed.

use vstd::prelude::*;

use vstd::arithmetic::div_mod::lemma_fundamental_div_mod;
use vstd::arithmetic::div_mod::lemma_mod_bound;

use crate::delay::Delay;
use crate::delay::DelayPoll;
use crate::delay::fires_at;
use crate::error::Error;
use crate::ext::TaskPoll;
use crate::timer::Timer;
use crate::state_word::next_gen;
use crate::timer::RecordView;

verus! {

/// The deadline after `prev` on the grid `prev + k * interval` that lies
/// strictly after `now`: one period later when that is still in the
/// future, else the earliest grid point past `now`.
pub open spec fn next_interval_spec(prev: u64, now: u64, interval: u64) -> int {
    if prev + interval > now {
        prev + interval
    } else {
        prev + interval * (((now - prev) as int) / (interval as int) + 1)
    }
}

/// Computes the next deadline of a repeating timer: the first point of the
/// grid `prev + k * interval` strictly after `now`.
pub fn next_interval(prev: u64, now: u64, interval: u64) -> (r: u64)
    requires
        interval >= 1,
        prev + interval <= u64::MAX,
        now + interval <= u64::MAX,
    ensures
        r == next_interval_spec(prev, now, interval),
        r > now,
        (r - prev) % (interval as int) == 0,
{
    let new = prev + interval;
    if new > now {
        proof {
            assert((interval as int) % (interval as int) == 0) by (nonlinear_arith)
                requires
                    interval >= 1,
            ;
        }
        return new;
    }
    let spent = now - prev;
    proof {
        lemma_fundamental_div_mod(spent as int, interval as int);
        lemma_mod_bound(spent as int, interval as int);
        assert((interval as int) * ((spent as int) / (interval as int) + 1) == (interval as int) * (
        (spent as int) / (interval as int)) + interval) by (nonlinear_arith);
    }
    let mult = spent / interval + 1;
    let r = prev + interval * mult;
    proof {
        assert((r - prev) % (interval as int) == 0) by {
            let q = (spent as int) / (interval as int) + 1;
            assert(r - prev == (interval as int) * q);
            assert(((interval as int) * q) % (interval as int) == 0) by (nonlinear_arith)
                requires
                    interval >= 1,
            ;
        }
    }
    r
}

/// A stream of notifications at a fixed interval: one delay, reset to the
/// next grid point after every fire.
pub struct Interval {
    delay: Delay,
    interval: u64,
}

impl Interval {
    /// The underlying delay.
    pub closed spec fn spec_delay(&self) -> Delay {
        self.delay
    }

    /// The period between notifications.
    pub closed spec fn spec_interval(&self) -> u64 {
        self.interval
    }

    /// Creates an interval that first fires at `at` and then every `dur`
    /// after, bound to the given driver.
    pub fn new(timer: &mut Timer, at: u64, dur: u64) -> (r: Interval)
        requires
            old(timer).wf(),
        ensures
            final(timer).wf(),
            final(timer).is_shut() == old(timer).is_shut(),
            r.spec_interval() == dur,
            r.spec_delay().spec_fires_at() == at,
            r.spec_delay().valid(final(timer)),
            !old(timer).is_shut() ==> !r.spec_delay().is_inert(),
    {
        let delay = Delay::new(timer, at);
        Interval { delay: delay, interval: dur }
    }

    /// One poll of the interval stream: pending while the delay has not
    /// fired; after a fire the delay is reset to the next grid point after
    /// `now` and a notification is yielded; a delay whose driver is gone
    /// yields the error.
    pub fn poll_next(&mut self, timer: &mut Timer, now: u64, token: u64) -> (r: TaskPoll<
        Result<(), Error>,
    >)
        requires
            old(timer).wf(),
            old(self).spec_delay().valid(old(timer)),
            old(self).spec_interval() >= 1,
            old(self).spec_delay().spec_fires_at() + old(self).spec_interval() <= u64::MAX,
            now + old(self).spec_interval() <= u64::MAX,
        ensures
            final(timer).wf(),
            final(timer).is_shut() == old(timer).is_shut(),
            final(timer).n_records() == old(timer).n_records(),
            final(self).spec_interval() == old(self).spec_interval(),
            final(self).spec_delay().valid(final(timer)),
            old(self).spec_delay().is_inert() ==> (r matches TaskPoll::Ready(res) && res
                matches Result::Err(e) && e.is_timer_dropped()),
            !old(self).spec_delay().is_inert() ==> {
                let id = old(self).spec_delay().rec_id();
                let r0 = old(timer).rec(id);
                &&& (!r0.fired && !r0.invalidated ==> r is Pending)
                &&& (!r0.fired && r0.invalidated ==> (r matches TaskPoll::Ready(res) && res
                    matches Result::Err(e) && e.is_timer_dropped()))
                &&& (r0.fired ==> {
                    &&& r == TaskPoll::Ready(Result::<(), Error>::Ok(()))
                    &&& final(self).spec_delay().spec_fires_at() == next_interval_spec(
                        old(self).spec_delay().spec_fires_at(),
                        now,
                        old(self).spec_interval(),
                    )
                    &&& (!r0.invalidated ==> final(timer).rec(id) == (RecordView {
                        sched: Option::Some(final(self).spec_delay().spec_fires_at()),
                        gen: next_gen(r0.gen),
                        fired: false,
                        invalidated: false,
                        enqueued: true,
                        ..r0
                    }))
                })
            },
    {
        match self.delay.poll(timer, token) {
            DelayPoll::Pending => TaskPoll::Pending,
            DelayPoll::Ready(Err(e)) => TaskPoll::Ready(Err(e)),
            DelayPoll::Ready(Ok(())) => {
                let next = next_interval(fires_at(&self.delay), now, self.interval);
                self.delay.reset_at(timer, next);
                TaskPoll::Ready(Ok(()))
            },
        }
    }
}

} // verus!
