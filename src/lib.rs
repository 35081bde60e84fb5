//! A count-based delay for polled sequences.
//!
//! The adapter holds back the `amt` most recent items of a source and hands
//! an item on only once `amt` newer items have arrived behind it. This crate
//! holds its decision logic: what to do with each answer that the source
//! gives to a poll.
use vstd::prelude::*;

pub mod outcome;
pub mod state;
pub mod laws;

pub use outcome::Outcome;
pub use state::AfterState;
