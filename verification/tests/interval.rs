//! Tests of the interval arithmetic and of interval-like driving of one
//! delay.  Instants are ticks on the model clock; the grid arithmetic is
//! unit-agnostic, so the offsets below read naturally as milliseconds past
//! an arbitrary base.

use futures_timer::delay::{fires_at, Delay, DelayPoll};
use futures_timer::ext::TaskPoll;
use futures_timer::interval::{next_interval, Interval};
use futures_timer::timer::Timer;

struct Timeline(u64);

impl Timeline {
    fn new() -> Timeline {
        Timeline(1_000_000)
    }

    fn at(&self, millis: u64) -> u64 {
        self.0 + millis
    }
}

fn dur(millis: u64) -> u64 {
    millis
}

#[test]
fn norm_next() {
    let tm = Timeline::new();
    assert_eq!(next_interval(tm.at(1), tm.at(2), dur(10)), tm.at(11));
    assert_eq!(next_interval(tm.at(7777), tm.at(7788), dur(100)), tm.at(7877));
    assert_eq!(next_interval(tm.at(1), tm.at(1000), dur(2100)), tm.at(2101));
}

#[test]
fn fast_forward() {
    let tm = Timeline::new();
    assert_eq!(next_interval(tm.at(1), tm.at(1000), dur(10)), tm.at(1001));
    assert_eq!(next_interval(tm.at(7777), tm.at(8888), dur(100)), tm.at(8977));
    assert_eq!(next_interval(tm.at(1), tm.at(10000), dur(2100)), tm.at(10501));
}

// Skipping far more than four billion whole periods stays exact.
#[test]
fn large_skip_is_exact() {
    // period 2, start 1, clock at 25_000_000_000: next grid point is one
    // past the clock.
    assert_eq!(next_interval(1, 25_000_000_000, 2), 25_000_000_001);
}

#[test]
fn single() {
    let mut t = Timer::new();
    let mut iv = Interval::new(&mut t, 10, dur(10));
    assert!(matches!(iv.poll_next(&mut t, 0, 1), TaskPoll::Pending));
    t.drive();
    t.advance_to(10);
    assert!(matches!(iv.poll_next(&mut t, 10, 1), TaskPoll::Ready(Ok(()))));
}

#[test]
fn two_times() {
    let mut t = Timer::new();
    let mut iv = Interval::new(&mut t, 10, dur(10));
    t.drive();
    t.advance_to(10);
    assert!(matches!(iv.poll_next(&mut t, 10, 1), TaskPoll::Ready(Ok(()))));
    t.drive();
    t.advance_to(20);
    assert!(matches!(iv.poll_next(&mut t, 20, 1), TaskPoll::Ready(Ok(()))));
}

// Interval-like usage on a bare delay: on each fire, reset to the previous
// deadline plus one period; one hundred fires span one hundred periods.
#[test]
fn hundred_fires_span_hundred_periods() {
    let mut t = Timer::new();
    let start: u64 = 0;
    let mut d = Delay::new(&mut t, start + 10);
    let mut fire_count: u64 = 0;
    let mut now: u64 = 0;
    while fire_count < 100 {
        t.drive();
        now = match t.next_event() {
            Some(at) => at,
            None => panic!("a delay is always scheduled"),
        };
        let wakes = t.advance_to(now);
        match d.poll(&mut t, 1) {
            DelayPoll::Ready(Ok(())) => {
                assert_eq!(wakes.len(), 0); // no waiter registered before the fire
                fire_count += 1;
                let next = fires_at(&d) + 10;
                d.reset_at(&mut t, next);
            }
            DelayPoll::Pending => {}
            DelayPoll::Ready(Err(_)) => panic!("driver is alive"),
        }
    }
    assert_eq!(fire_count, 100);
    assert!(now - start >= 1000);
}
