//! Deterministic simulation engine of a two-player autobattler.
//!
//! Given a fixed set of placed units and a shared 256-bit seed, the engine
//! produces an identical sequence of combat ticks on every machine that runs
//! it, ending in a verifiable win/tie/loss outcome. All state transitions are
//! specified and proved: placement rules, per-tick combat resolution,
//! the deterministic random byte stream, and the win-condition evaluator.

pub mod state;

use vstd::prelude::*;

verus! {

/// Errors surfaced by game-state operations that reject their input.
#[derive(Debug, Clone, Copy, PartialEq, Eq, Structural)]
pub enum ErrorCode {
    /// A commitment reveal did not match the stored hash.
    RevealError,
    /// A timed phase was entered too early or too late.
    TimeError,
    /// A victory claim that the current win condition does not support.
    ClaimError,
    /// An argument outside the accepted domain, such as locking in a
    /// controller that is not one of the two players.
    InvalidArgument,
}

} // verus!
