//! Tests of the two error types and of every accessor on the timeout
//! error.

use futures_timer::error::{Error, TimeoutError};

#[test]
fn timer_dropped_message() {
    let e = Error::new_timer_dropped();
    assert_eq!(e.message(), "timer was dropped");
}

#[test]
fn inner_error_accessors() {
    let e: TimeoutError<&str> = TimeoutError::new_inner("boom");
    assert!(e.is_inner());
    assert!(!e.is_timer());
    assert!(!e.is_elapsed());
    assert_eq!(e.try_as_inner(), Some(&"boom"));
    assert!(e.try_as_timer().is_none());
    assert_eq!(e.try_into_inner(), Some("boom"));
    let e: TimeoutError<&str> = TimeoutError::new_inner("boom");
    assert!(e.try_into_timer().is_none());
}

#[test]
fn timer_error_accessors() {
    let e: TimeoutError<&str> = TimeoutError::new_timer(Error::new_timer_dropped());
    assert!(e.is_timer());
    assert!(!e.is_inner());
    assert!(!e.is_elapsed());
    assert!(e.try_as_inner().is_none());
    assert!(e.try_as_timer().is_some());
    assert!(e.try_into_inner().is_none());
    let e: TimeoutError<&str> = TimeoutError::new_timer(Error::new_timer_dropped());
    let timer_err = e.try_into_timer().unwrap();
    assert_eq!(timer_err.message(), "timer was dropped");
}

#[test]
fn elapsed_accessors() {
    let e: TimeoutError<&str> = TimeoutError::new_elapsed();
    assert!(e.is_elapsed());
    assert!(!e.is_inner());
    assert!(!e.is_timer());
    assert!(e.try_as_inner().is_none());
    assert!(e.try_as_timer().is_none());
    assert!(e.try_into_inner().is_none());
}
