//! Retrying operations that may fail: the delay sequences that pace a retry run, and the
//! rules by which a run goes on or ends.
//!
//! * [`delay`] holds the delay sequences: [`delay::NoDelay`], [`delay::Fixed`],
//!   [`delay::Exponential`], [`delay::Fibonacci`] and [`delay::Range`], and the adaptors
//!   [`delay::Bounded`] and [`delay::Mapped`] that cut a sequence short or pass its delays
//!   through a function.
//! * [`pulls`] states what comes out of a sequence over several calls.
//! * [`engine`] decides, attempt by attempt, whether a run waits and tries again or ends,
//!   and with what result. Performing the attempts and the waits is left to the caller.
//! * [`duration`] is the span of time that all of these count in.

pub mod delay;
pub mod duration;
pub mod engine;
pub mod error;
pub mod opresult;
pub mod pulls;
mod random;

pub use duration::Duration;
pub use error::Error;
pub use opresult::OperationResult;
