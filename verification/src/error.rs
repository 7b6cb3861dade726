//! Errors that the timer facility surfaces.

use vstd::prelude::*;

verus! {

/// Errors that can occur from the timer implementation.
///
/// Currently there is only one: the driver the delay was bound to has been
/// dropped.
#[derive(Clone, Copy)]
pub struct Error(ErrorKind);

#[derive(Clone, Copy)]
enum ErrorKind {
    TimerDropped,
}

impl Error {
    /// Whether this error reports that the timer driver was dropped.
    pub closed spec fn is_timer_dropped(&self) -> bool {
        self.0 is TimerDropped
    }

    /// The error a delay reports once its driver is gone.
    pub fn new_timer_dropped() -> (e: Error)
        ensures
            e.is_timer_dropped(),
    {
        Error(ErrorKind::TimerDropped)
    }

    /// A human-readable description of the error.
    pub fn message(&self) -> (r: &'static str)
        ensures
            r@ == "timer was dropped"@,
    {
        "timer was dropped"
    }
}

/// Error returned by the timeout combinators: either the inner operation
/// failed, or the timer implementation failed, or the deadline elapsed.
pub struct TimeoutError<E>(TimeoutErrorKind<E>);

enum TimeoutErrorKind<E> {
    Inner(E),
    Timer(Error),
    Elapsed,
}

impl<E> TimeoutError<E> {
    /// Whether the inner operation completed with an error.
    pub closed spec fn spec_is_inner(&self) -> bool {
        self.0 is Inner
    }

    /// Whether the timer implementation reported an error.
    pub closed spec fn spec_is_timer(&self) -> bool {
        self.0 is Timer
    }

    /// Whether the deadline elapsed before the inner operation completed.
    pub closed spec fn spec_is_elapsed(&self) -> bool {
        self.0 is Elapsed
    }

    /// The inner operation's error, when that is what this error carries.
    pub closed spec fn spec_inner(&self) -> Option<E> {
        match self.0 {
            TimeoutErrorKind::Inner(e) => Option::Some(e),
            _ => Option::None,
        }
    }

    /// The timer's error, when that is what this error carries.
    pub closed spec fn spec_timer(&self) -> Option<Error> {
        match self.0 {
            TimeoutErrorKind::Timer(e) => Option::Some(e),
            _ => Option::None,
        }
    }

    /// Creates a `TimeoutError` representing that the inner operation
    /// completed with an error.
    pub fn new_inner(inner_err: E) -> (r: Self)
        ensures
            r.spec_is_inner(),
            !r.spec_is_timer(),
            !r.spec_is_elapsed(),
            r.spec_inner() == Option::Some(inner_err),
    {
        Self(TimeoutErrorKind::Inner(inner_err))
    }

    /// Returns `true` if this error was caused by the inner operation
    /// completing with an error.
    pub fn is_inner(&self) -> (r: bool)
        ensures
            r == self.spec_is_inner(),
    {
        match self.0 {
            TimeoutErrorKind::Inner(_) => true,
            _ => false,
        }
    }

    /// Attempts to view this error as the error of the inner operation.
    ///
    /// Returns `None` if the inner operation is not what failed.
    pub fn try_as_inner(&self) -> (r: Option<&E>)
        ensures
            match r {
                Option::Some(e) => self.spec_inner() == Option::Some(*e),
                Option::None => self.spec_inner() is None,
            },
    {
        match self.0 {
            TimeoutErrorKind::Inner(ref err) => Some(err),
            _ => None,
        }
    }

    /// Consumes this error, attempting to view it as the error of the inner
    /// operation.
    ///
    /// Returns `None` if the inner operation is not what failed.
    pub fn try_into_inner(self) -> (r: Option<E>)
        ensures
            r == self.spec_inner(),
    {
        match self.0 {
            TimeoutErrorKind::Inner(err) => Some(err),
            _ => None,
        }
    }

    /// Creates a `TimeoutError` representing that the timer implementation
    /// encountered an error.
    pub fn new_timer(timer_err: Error) -> (r: Self)
        ensures
            r.spec_is_timer(),
            !r.spec_is_inner(),
            !r.spec_is_elapsed(),
            r.spec_timer() == Option::Some(timer_err),
    {
        Self(TimeoutErrorKind::Timer(timer_err))
    }

    /// Returns `true` if this error was caused by the timer implementation.
    pub fn is_timer(&self) -> (r: bool)
        ensures
            r == self.spec_is_timer(),
    {
        match self.0 {
            TimeoutErrorKind::Timer(_) => true,
            _ => false,
        }
    }

    /// Attempts to view this error as the timer implementation's error.
    ///
    /// Returns `None` if the timer implementation is not what failed.
    pub fn try_as_timer(&self) -> (r: Option<&Error>)
        ensures
            match r {
                Option::Some(e) => self.spec_timer() == Option::Some(*e),
                Option::None => self.spec_timer() is None,
            },
    {
        match self.0 {
            TimeoutErrorKind::Timer(ref err) => Some(err),
            _ => None,
        }
    }

    /// Consumes this error, attempting to view it as the timer
    /// implementation's error.
    ///
    /// Returns `None` if the timer implementation is not what failed.
    pub fn try_into_timer(self) -> (r: Option<Error>)
        ensures
            r == self.spec_timer(),
    {
        match self.0 {
            TimeoutErrorKind::Timer(err) => Some(err),
            _ => None,
        }
    }

    /// Creates a `TimeoutError` representing that the deadline elapsed
    /// before the inner operation completed.
    pub fn new_elapsed() -> (r: Self)
        ensures
            r.spec_is_elapsed(),
            !r.spec_is_inner(),
            !r.spec_is_timer(),
    {
        Self(TimeoutErrorKind::Elapsed)
    }

    /// Returns `true` if the deadline elapsed before the inner operation
    /// completed.
    pub fn is_elapsed(&self) -> (r: bool)
        ensures
            r == self.spec_is_elapsed(),
    {
        match self.0 {
            TimeoutErrorKind::Elapsed => true,
            _ => false,
        }
    }
}

} // verus!
