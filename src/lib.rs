//! Sequential composition of two polled computations.
//!
//! A [`Chain`] holds a first computation together with data that is needed once
//! it completes. When the first computation yields its output, the chain releases
//! it, runs a continuation on the output and the data to build the second
//! computation, and from then on forwards every poll to that second computation.
use vstd::prelude::*;

pub mod chain;

pub use chain::{Chain, ChainError};

verus! {

/// Makes `futures_core::task::Poll` (the readiness of a polled computation) known
/// to the verifier, with its two variants visible.
#[verifier::external_type_specification]
#[verifier::reject_recursive_types(T)]
pub struct ExPoll<T>(futures_core::task::Poll<T>);

} // verus!
