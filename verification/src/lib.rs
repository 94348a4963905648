//! A neuroevolution engine: feed-forward neural networks bred by a
//! generational genetic algorithm, driving agents in a 2D asteroid field.
//!
//! All numeric state is carried in signed 64-bit fixed-point values with a
//! scale of one million (see `fx`), so every arithmetic step has an exact,
//! machine-checked meaning.

pub mod asteroids;
pub mod codec;
pub mod fx;
pub mod nn;
pub mod player;
pub mod population;
pub mod rng;
pub mod world;

use vstd::prelude::*;

verus! {

/// Errors surfaced by the engine.
///
/// Degenerate roulette selection (a zero-fitness cohort) is not listed here:
/// it is recovered locally by a deterministic fallback to the top-ranked
/// individual and never surfaces as an error.
#[derive(Clone, Copy, Debug, PartialEq, Eq, Structural)]
pub enum EngineError {
    /// Crossover attempted between networks of differing topologies.
    ConfigMismatch,
    /// Inference called with an input vector of the wrong length.
    DimensionMismatch,
    /// A snapshot could not be decoded.
    IOError,
}

} // verus!
