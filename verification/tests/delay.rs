//! Scenario tests for the delay lifecycle against a driver stepped by hand:
//! the test plays the roles of the clock and of the runtime, calling
//! `drive` and `advance_to` where the driver thread would.

use futures_timer::delay::{fires_at, Delay, DelayPoll};
use futures_timer::timer::Timer;

fn far_future() -> u64 {
    5_000_000_000_000
}

#[test]
fn works() {
    let mut t = Timer::new();
    let d = Delay::new(&mut t, 100);
    assert!(matches!(d.poll(&mut t, 1), DelayPoll::Pending));
    t.drive();
    let wakes = t.advance_to(99);
    assert!(wakes.is_empty());
    assert!(matches!(d.poll(&mut t, 1), DelayPoll::Pending));
    let wakes = t.advance_to(100);
    assert_eq!(wakes, vec![(0, 1)]);
    assert!(matches!(d.poll(&mut t, 1), DelayPoll::Ready(Ok(()))));
}

#[test]
fn error_after_inert() {
    let mut t = Timer::new();
    t.shutdown();
    let d = Delay::new(&mut t, far_future());
    assert!(matches!(d.poll(&mut t, 1), DelayPoll::Ready(Err(_))));
}

#[test]
fn drop_makes_inert() {
    let mut t = Timer::new();
    let d = Delay::new(&mut t, far_future());
    t.shutdown();
    assert!(matches!(d.poll(&mut t, 1), DelayPoll::Ready(Err(_))));
}

#[test]
fn reset() {
    let mut t = Timer::new();
    let mut d = Delay::new(&mut t, 100);
    assert!(matches!(d.poll(&mut t, 1), DelayPoll::Pending));
    t.drive();
    let wakes = t.advance_to(100);
    assert_eq!(wakes, vec![(0, 1)]);
    assert!(matches!(d.poll(&mut t, 1), DelayPoll::Ready(Ok(()))));

    d.reset_at(&mut t, 200);
    assert_eq!(fires_at(&d), 200);
    assert!(matches!(d.poll(&mut t, 2), DelayPoll::Pending));
    t.drive();
    assert!(t.advance_to(150).is_empty());
    assert!(matches!(d.poll(&mut t, 2), DelayPoll::Pending));
    let wakes = t.advance_to(200);
    assert_eq!(wakes, vec![(0, 2)]);
    assert!(matches!(d.poll(&mut t, 2), DelayPoll::Ready(Ok(()))));
}

#[test]
fn drop_timer_wakes() {
    let mut t = Timer::new();
    let d = Delay::new(&mut t, far_future());
    t.drive();
    assert!(matches!(d.poll(&mut t, 7), DelayPoll::Pending));
    let wakes = t.shutdown();
    assert_eq!(wakes, vec![(0, 7)]);
    match d.poll(&mut t, 7) {
        DelayPoll::Ready(Err(e)) => assert_eq!(e.message(), "timer was dropped"),
        _ => panic!("expected the driver-gone error"),
    }
}

// A delay reset while suspended: the old generation's entry must not fire.
#[test]
fn reset_discards_stale_entry() {
    let mut t = Timer::new();
    let mut d = Delay::new(&mut t, 100);
    t.drive();
    d.reset_at(&mut t, 300);
    // The heap still holds the generation-0 entry due at 100; advancing past
    // it discards it silently because the generation no longer matches.
    assert!(matches!(d.poll(&mut t, 3), DelayPoll::Pending));
    assert!(t.advance_to(200).is_empty());
    assert!(matches!(d.poll(&mut t, 3), DelayPoll::Pending));
    // After the driver has seen the reset, the new deadline fires.
    t.drive();
    assert!(t.advance_to(299).is_empty());
    let wakes = t.advance_to(300);
    assert_eq!(wakes, vec![(0, 3)]);
    assert!(matches!(d.poll(&mut t, 3), DelayPoll::Ready(Ok(()))));
}

// A record dropped before its deadline never fires its notifier, even
// though a waiter had been registered.
#[test]
fn dropped_delay_does_not_notify() {
    let mut t = Timer::new();
    let d = Delay::new(&mut t, 100);
    t.drive();
    assert!(matches!(d.poll(&mut t, 9), DelayPoll::Pending));
    d.cancel(&mut t);
    t.drive();
    let wakes = t.advance_to(1_000);
    assert!(wakes.is_empty());
}

// The fire of a cancelled record that the driver has not yet processed is
// harmless: the drop released the notifier register, so nobody is woken.
#[test]
fn cancel_race_wakes_nobody() {
    let mut t = Timer::new();
    let d = Delay::new(&mut t, 100);
    t.drive();
    assert!(matches!(d.poll(&mut t, 9), DelayPoll::Pending));
    d.cancel(&mut t);
    // advance before the driver processes the drop: the stale entry still
    // fires, but the register is empty.
    let wakes = t.advance_to(1_000);
    assert!(wakes.is_empty());
}

#[test]
fn two_delays_fire_in_deadline_order() {
    let mut t = Timer::new();
    let late = Delay::new(&mut t, 500);
    let early = Delay::new(&mut t, 100);
    t.drive();
    assert!(matches!(late.poll(&mut t, 20), DelayPoll::Pending));
    assert!(matches!(early.poll(&mut t, 10), DelayPoll::Pending));
    let wakes = t.advance_to(500);
    assert_eq!(wakes, vec![(1, 10), (0, 20)]);
}

#[test]
fn next_event_tracks_earliest_deadline() {
    let mut t = Timer::new();
    assert_eq!(t.next_event(), None);
    let _a = Delay::new(&mut t, 700);
    let _b = Delay::new(&mut t, 300);
    t.drive();
    assert_eq!(t.next_event(), Some(300));
    let wakes = t.advance_to(300);
    assert_eq!(wakes.len(), 0); // no waiter was registered
    assert_eq!(t.next_event(), Some(700));
}

#[test]
fn poll_after_fire_stays_ready() {
    let mut t = Timer::new();
    let d = Delay::new(&mut t, 10);
    t.drive();
    t.advance_to(10);
    for _ in 0..3 {
        assert!(matches!(d.poll(&mut t, 1), DelayPoll::Ready(Ok(()))));
    }
    // even after shutdown a fired delay stays ready
    t.shutdown();
    assert!(matches!(d.poll(&mut t, 1), DelayPoll::Ready(Ok(()))));
}

// Within one generation the fired bit is set at most once: a second sweep
// past the deadline wakes nobody, however often it is repeated.
#[test]
fn fires_at_most_once_per_generation() {
    let mut t = Timer::new();
    let d = Delay::new(&mut t, 100);
    assert!(matches!(d.poll(&mut t, 4), DelayPoll::Pending));
    t.drive();
    assert_eq!(t.advance_to(100), vec![(0, 4)]);
    assert!(matches!(d.poll(&mut t, 4), DelayPoll::Ready(Ok(()))));
    assert!(t.advance_to(200).is_empty());
    t.drive();
    assert!(t.advance_to(300).is_empty());
}

#[test]
fn smoke() {
    let mut t = Timer::new();
    let d = Delay::new(&mut t, 10);
    t.drive();
    t.advance_to(10);
    assert!(matches!(d.poll(&mut t, 1), DelayPoll::Ready(Ok(()))));
}

#[test]
fn two() {
    let mut t = Timer::new();
    for _ in 0..2 {
        let d = Delay::new(&mut t, 10);
        t.drive();
        t.advance_to(10);
        assert!(matches!(d.poll(&mut t, 1), DelayPoll::Ready(Ok(()))));
        d.cancel(&mut t);
    }
}

#[test]
fn stream() {
    let mut t = Timer::new();
    let first = Delay::new(&mut t, 10);
    let second = Delay::new(&mut t, 20);
    t.drive();
    t.advance_to(10);
    assert!(matches!(first.poll(&mut t, 1), DelayPoll::Ready(Ok(()))));
    assert!(matches!(second.poll(&mut t, 2), DelayPoll::Pending));
    t.advance_to(20);
    assert!(matches!(second.poll(&mut t, 2), DelayPoll::Ready(Ok(()))));
}
