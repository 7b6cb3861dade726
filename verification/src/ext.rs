//! The decision logic of the timeout combinators.
//!
//! A timeout combinator couples an inner operation with a delay.  The
//! polling protocol around them — pinning, wakers, the stream glue — lives
//! with the runtime; what is decided from the two poll results is settled
//! here: when the combinator yields the inner item, when it yields a
//! timeout, and when the delay is reset for the next item.

use vstd::prelude::*;

verus! {

/// A poll result of a wrapped operation, free of any runtime type.
pub enum TaskPoll<T> {
    /// The operation has not produced its result yet.
    Pending,
    /// The operation produced `T`.
    Ready(T),
}

/// Enum returned by an operation with a timeout.
pub enum Waited<E> {
    /// The deadline elapsed before the inner operation completed.
    TimedOut,
    /// The inner operation failed before the deadline (but did not time
    /// out).
    InnerError(E),
}

impl<E> Waited<E> {
    /// The inner error this outcome carries, if any.
    pub open spec fn spec_inner(&self) -> Option<E> {
        match *self {
            Waited::TimedOut => Option::None,
            Waited::InnerError(e) => Option::Some(e),
        }
    }

    /// Consumes the outcome and returns the inner error, if any.
    pub fn into_inner(self) -> (r: Option<E>)
        ensures
            r == self.spec_inner(),
    {
        match self {
            Waited::TimedOut => None,
            Waited::InnerError(e) => Some(e),
        }
    }
}

/// One poll of a future wrapped in a timeout: the inner result wins when it
/// is ready, a timed-out error is yielded when only the delay is ready,
/// and otherwise the wait goes on.
pub fn timeout_step<T, E>(inner: TaskPoll<Result<T, E>>, delay_ready: bool) -> (r: TaskPoll<
    Result<T, Waited<E>>,
>)
    ensures
        (inner matches TaskPoll::Ready(res) ==> (res matches Result::Ok(t) ==> r
            == TaskPoll::Ready(Result::<T, Waited<E>>::Ok(t)))),
        (inner matches TaskPoll::Ready(res) ==> (res matches Result::Err(e) ==> r
            == TaskPoll::Ready(Result::<T, Waited<E>>::Err(Waited::InnerError(e))))),
        (inner is Pending && delay_ready ==> r == TaskPoll::Ready(
            Result::<T, Waited<E>>::Err(Waited::TimedOut),
        )),
        (inner is Pending && !delay_ready ==> r is Pending),
{
    match inner {
        TaskPoll::Ready(Ok(t)) => TaskPoll::Ready(Ok(t)),
        TaskPoll::Ready(Err(e)) => TaskPoll::Ready(Err(Waited::InnerError(e))),
        TaskPoll::Pending => {
            if delay_ready {
                TaskPoll::Ready(Err(Waited::TimedOut))
            } else {
                TaskPoll::Pending
            }
        },
    }
}

/// One poll of a stream wrapped with a per-item timeout.  Returns the
/// item to yield and whether the delay must be reset for the next item:
/// every yielded item — a value, an error, the end of the stream, or a
/// timeout — restarts the per-item deadline, and only a pending wait
/// leaves the delay alone.
pub fn timeout_stream_step<T, E>(inner: TaskPoll<Option<Result<T, E>>>, delay_ready: bool) -> (r: (
    TaskPoll<Option<Result<T, Waited<E>>>>,
    bool,
))
    ensures
        (inner matches TaskPoll::Ready(item) ==> (item matches Option::Some(res) ==> (res
            matches Result::Ok(t) ==> r == (
        TaskPoll::Ready(Option::Some(Result::<T, Waited<E>>::Ok(t))),
        true,
        )))),
        (inner matches TaskPoll::Ready(item) ==> (item matches Option::Some(res) ==> (res
            matches Result::Err(e) ==> r == (
        TaskPoll::Ready(Option::Some(Result::<T, Waited<E>>::Err(Waited::InnerError(e)))),
        true,
        )))),
        (inner matches TaskPoll::Ready(item) ==> (item is None ==> r == (
        TaskPoll::Ready(Option::<Result<T, Waited<E>>>::None),
        true,
        ))),
        (inner is Pending && delay_ready ==> r == (
        TaskPoll::Ready(Option::Some(Result::<T, Waited<E>>::Err(Waited::TimedOut))),
        true,
        )),
        (inner is Pending && !delay_ready ==> r == (
        TaskPoll::<Option<Result<T, Waited<E>>>>::Pending,
        false,
        )),
{
    match inner {
        TaskPoll::Ready(Some(Ok(t))) => (TaskPoll::Ready(Some(Ok(t))), true),
        TaskPoll::Ready(Some(Err(e))) => (TaskPoll::Ready(Some(Err(Waited::InnerError(e)))), true),
        TaskPoll::Ready(None) => (TaskPoll::Ready(None), true),
        TaskPoll::Pending => {
            if delay_ready {
                (TaskPoll::Ready(Some(Err(Waited::TimedOut))), true)
            } else {
                (TaskPoll::Pending, false)
            }
        },
    }
}

} // verus!
