//! The error taxonomy of the engine.
//!
//! Configuration errors are detected once, while a circuit is described or
//! finalized; witness errors end a resolution attempt; the single arithmetic
//! error reports an attempt to invert a non-invertible element.

use vstd::prelude::*;
use crate::target::Target;

verus! {

/// A structural error in the circuit description, detected at build time.
#[derive(Clone, Copy, Debug, PartialEq, Eq, Structural)]
pub enum CircuitError {
    /// A requested gate's constraint degree exceeds the configured bound.
    DegreeExceedsConfig,
    /// A requested gate needs more wires than a row of the grid holds.
    RowOverflow,
    /// A declared public input was never bound to a routed wire.
    UnboundPublicInput,
    /// A mutating call arrived after the layout was finalized.
    BuilderAlreadyFinalized,
    /// An attempt to bind a virtual target that is already bound.
    TargetAlreadyBound,
    /// No further target can be allocated.
    AllocationExhausted,
}

/// A fatal error during witness resolution.
#[derive(Clone, Copy, Debug, PartialEq, Eq, Structural)]
pub enum WitnessError {
    /// Two writes disagreed on the named target's value.
    WitnessConflict(Target),
    /// The named target was still unresolved when no generator could run.
    UnresolvedWitness(Target),
}

/// An arithmetic error in the field.
#[derive(Clone, Copy, Debug, PartialEq, Eq, Structural)]
pub enum FieldError {
    /// The operand of `inverse` has no multiplicative inverse.
    DivisionByZero,
}

} // verus!
