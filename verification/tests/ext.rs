//! Tests of the timeout combinator decisions, including a simulated run of
//! a slow stream wrapped with a short per-item timeout.

use futures_timer::delay::{fires_at, Delay, DelayPoll};
use futures_timer::ext::{timeout_step, timeout_stream_step, TaskPoll, Waited};
use futures_timer::timer::Timer;

#[test]
fn future_timeout() {
    // The inner future never completes; once the delay fires the wrapped
    // future yields the timed-out error.
    let r: TaskPoll<Result<u8, Waited<&str>>> = timeout_step(TaskPoll::Pending, true);
    match r {
        TaskPoll::Ready(Err(Waited::TimedOut)) => {}
        _ => panic!("expected the timeout"),
    }
}

#[test]
fn future_doesnt_timeout() {
    let r: TaskPoll<Result<u8, Waited<&str>>> = timeout_step(TaskPoll::Ready(Ok(5)), false);
    assert!(matches!(r, TaskPoll::Ready(Ok(5))));
    // the inner result wins even when the delay is ready too
    let r: TaskPoll<Result<u8, Waited<&str>>> = timeout_step(TaskPoll::Ready(Ok(5)), true);
    assert!(matches!(r, TaskPoll::Ready(Ok(5))));
}

#[test]
fn future_inner_error() {
    let r: TaskPoll<Result<u8, Waited<&str>>> = timeout_step(TaskPoll::Ready(Err("boom")), false);
    match r {
        TaskPoll::Ready(Err(e)) => assert_eq!(e.into_inner(), Some("boom")),
        _ => panic!("expected the inner error"),
    }
}

#[test]
fn future_still_pending() {
    let r: TaskPoll<Result<u8, Waited<&str>>> = timeout_step(TaskPoll::Pending, false);
    assert!(matches!(r, TaskPoll::Pending));
}

#[test]
fn stream_item_resets_timeout() {
    let (r, reset) = timeout_stream_step::<u8, &str>(TaskPoll::Ready(Some(Ok(3))), false);
    assert!(matches!(r, TaskPoll::Ready(Some(Ok(3)))));
    assert!(reset);
    let (r, reset) = timeout_stream_step::<u8, &str>(TaskPoll::Ready(None), false);
    assert!(matches!(r, TaskPoll::Ready(None)));
    assert!(reset);
    let (r, reset) = timeout_stream_step::<u8, &str>(TaskPoll::Pending, true);
    assert!(matches!(r, TaskPoll::Ready(Some(Err(Waited::TimedOut)))));
    assert!(reset);
    let (r, reset) = timeout_stream_step::<u8, &str>(TaskPoll::Pending, false);
    assert!(matches!(r, TaskPoll::Pending));
    assert!(!reset);
}

// A producer sends one item per 100 ticks; the stream is wrapped with a
// 10-tick per-item timeout.  All ten items arrive, and the timeouts in
// between far outnumber them.
#[test]
fn stream_timeout() {
    let mut t = Timer::new();
    let mut delay = Delay::new(&mut t, 10);
    let mut ok: u32 = 0;
    let mut err: u32 = 0;
    let mut done = false;
    let mut now: u64 = 0;
    while !done {
        // the next item of the slow stream arrives at 100, 200, ..., 1000
        let inner: TaskPoll<Option<Result<u8, &str>>> = if now >= 1100 {
            TaskPoll::Ready(None)
        } else if now > 0 && now % 100 == 0 {
            TaskPoll::Ready(Some(Ok((now / 100) as u8)))
        } else {
            TaskPoll::Pending
        };
        t.drive();
        t.advance_to(now);
        let delay_ready = matches!(delay.poll(&mut t, 1), DelayPoll::Ready(Ok(())));
        let (item, reset) = timeout_stream_step(inner, delay_ready);
        if reset {
            delay.reset_at(&mut t, now + 10);
        }
        match item {
            TaskPoll::Ready(Some(Ok(_))) => ok += 1,
            TaskPoll::Ready(Some(Err(Waited::TimedOut))) => err += 1,
            TaskPoll::Ready(Some(Err(_))) => panic!("no inner errors in this run"),
            TaskPoll::Ready(None) => done = true,
            TaskPoll::Pending => {}
        }
        // the runtime would re-poll on the next wake-up; here time simply
        // moves to the next interesting instant
        let next_wake = match t.next_event() {
            Some(at) => at,
            None => fires_at(&delay),
        };
        let next_item = ((now / 100) + 1) * 100;
        now = next_wake.min(next_item).max(now + 1);
    }
    assert_eq!(ok, 10);
    assert!(err > ok * 5);
}

#[test]
fn stream_doesnt_timeout() {
    // items arrive every 100 ticks under a 200-tick timeout: no errors
    let mut t = Timer::new();
    let mut delay = Delay::new(&mut t, 200);
    let mut count: u32 = 0;
    let mut now: u64 = 0;
    while count < 10 {
        now += 100;
        t.drive();
        t.advance_to(now);
        let delay_ready = matches!(delay.poll(&mut t, 1), DelayPoll::Ready(Ok(())));
        let inner: TaskPoll<Option<Result<u8, &str>>> = TaskPoll::Ready(Some(Ok(1)));
        let (item, reset) = timeout_stream_step(inner, delay_ready);
        assert!(matches!(item, TaskPoll::Ready(Some(Ok(1)))));
        if reset {
            delay.reset_at(&mut t, now + 200);
        }
        count += 1;
    }
    assert_eq!(count, 10);
}
