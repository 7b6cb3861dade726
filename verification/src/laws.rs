//! Lifecycle laws of a record, proved over traces of record views.
//!
//! Between two resets a record's observable state moves only along
//! fresh → fired and any → invalidated; a poll classifies the state as
//! ready (fired), gone (invalidated but not fired) or pending.  The lemmas
//! here show that along any such trace the sequence of poll results is a
//! prefix of pending* followed by one terminal answer, and that the fired
//! flag is set at most once — the at-most-one-fire-per-generation rule,
//! since the generation is constant along the trace and a reset starts a
//! new one with a clean word.

use vstd::prelude::*;

use crate::timer::RecordView;

verus! {

/// One step a record's state can take under the driver's operations other
/// than a reset: unchanged, fired (only from a clean state), or
/// invalidated.  These are exactly the changes `advance_to` and `shutdown`
/// make; `drive`, polling and cancellation leave the flags and the
/// generation alone.
pub open spec fn record_step(r0: RecordView, r1: RecordView) -> bool {
    ||| (r1.gen == r0.gen && r1.fired == r0.fired && r1.invalidated == r0.invalidated)
    ||| (!r0.fired && !r0.invalidated && r1.gen == r0.gen && r1.fired && !r1.invalidated)
    ||| (r1.gen == r0.gen && r1.fired == r0.fired && r1.invalidated)
}

/// A poll of this record reports ready.
pub open spec fn poll_ready(r: RecordView) -> bool {
    r.fired
}

/// A poll of this record reports that the driver is gone.
pub open spec fn poll_gone(r: RecordView) -> bool {
    !r.fired && r.invalidated
}

/// A poll of this record reports pending.
pub open spec fn poll_pending(r: RecordView) -> bool {
    !r.fired && !r.invalidated
}

/// A trace is a sequence of views of one record where consecutive views
/// are related by `record_step`.
pub open spec fn record_trace(trace: Seq<RecordView>) -> bool {
    forall|i: int| 0 <= i < trace.len() - 1 ==> record_step(#[trigger] trace[i], trace[i + 1])
}

/// What `advance_to` does to a record is a step of the lifecycle
/// relation: a fire happens only from the clean state and preserves the
/// generation.
pub proof fn lemma_advanced_is_step(r0: RecordView, r1: RecordView, now: u64)
    requires
        crate::timer::advanced(r0, r1, now),
    ensures
        record_step(r0, r1),
{
}

/// What `shutdown` does to a record is a step of the lifecycle relation:
/// an invalidation that preserves the generation and the fired flag.
pub proof fn lemma_shutdown_is_step(r0: RecordView, r1: RecordView)
    requires
        r1.gen == r0.gen,
        r1.fired == r0.fired,
        r1.invalidated,
    ensures
        record_step(r0, r1),
{
}

/// Along a trace the generation is constant and the flags are monotone:
/// once fired always fired, once invalidated always invalidated, and a
/// record that was invalidated before firing never fires.
pub proof fn lemma_trace_monotone(trace: Seq<RecordView>, i: int, j: int)
    requires
        record_trace(trace),
        0 <= i <= j < trace.len(),
    ensures
        trace[j].gen == trace[i].gen,
        trace[i].fired ==> trace[j].fired,
        trace[i].invalidated ==> trace[j].invalidated,
        trace[i].invalidated && !trace[i].fired ==> !trace[j].fired,
    decreases j - i,
{
    if i < j {
        lemma_trace_monotone(trace, i, j - 1);
        assert(record_step(trace[j - 1], trace[j]));
    }
}

/// The sequence of poll results along a trace is a prefix of pending*
/// followed by one terminal answer: a ready answer is never followed by
/// anything else, nor is a driver-gone answer.  After a reset the record
/// starts a new trace in the pending state.
pub proof fn lemma_poll_prefix(trace: Seq<RecordView>, i: int, j: int)
    requires
        record_trace(trace),
        0 <= i <= j < trace.len(),
    ensures
        poll_ready(trace[i]) ==> poll_ready(trace[j]),
        poll_gone(trace[i]) ==> poll_gone(trace[j]),
        poll_pending(trace[j]) ==> poll_pending(trace[i]),
{
    lemma_trace_monotone(trace, i, j);
}

/// The fired flag is set at most once per generation: two distinct steps
/// of one trace cannot both turn it on, and the generation does not change
/// within a trace.
pub proof fn lemma_fired_once(trace: Seq<RecordView>, i: int, j: int)
    requires
        record_trace(trace),
        0 <= i < j < trace.len() - 1,
        !trace[i].fired && trace[i + 1].fired,
    ensures
        !(!trace[j].fired && trace[j + 1].fired),
{
    lemma_trace_monotone(trace, i + 1, j);
}

} // verus!
