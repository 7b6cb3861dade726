//! A timer facility built around one-shot deferred wake-ups ("delays").
//!
//! The crate verifies the core of the facility: the inbox list that carries
//! pending updates from delays to the driver, the indexed binary min-heap of
//! scheduled timers, the per-record state word that coordinates resets,
//! firing and invalidation, and the driver logic that reconciles and fires
//! timers.  Time is modelled as a `u64` tick count on a monotonic clock;
//! the thread, clock and task-waking plumbing live outside the library.

pub mod arc_list;
pub mod delay;
pub mod error;
pub mod ext;
pub mod heap;
pub mod interval;
pub mod laws;
pub mod state_word;
pub mod timer;

pub use delay::Delay;
pub use delay::DelayPoll;
pub use error::Error;
pub use error::TimeoutError;
pub use timer::Timer;
