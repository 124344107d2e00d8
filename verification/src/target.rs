//! Stable identifiers for the field-valued cells of a circuit.
//!
//! A target is either routed — already placed at a concrete row and column
//! of a gate grid — or virtual: free-floating, tied to the grid only
//! through copy constraints or an explicit binding recorded by the builder.

use vstd::prelude::*;

verus! {

/// A handle for one field-element-valued cell of the eventual trace.
#[derive(Clone, Copy, Debug, PartialEq, Eq, Structural, Hash)]
pub enum Target {
    /// A routed target: a concrete wire of its gate grid.
    Wire { row: usize, column: usize },
    /// A virtual target, not yet placed on the grid.
    Virtual { index: usize },
}

/// True when `t` refers to a cell of a grid with `rows` rows of `num_wires`
/// wires each, or to one of `num_virtual` virtual slots.
pub open spec fn target_in(t: Target, rows: int, num_wires: int, num_virtual: int) -> bool {
    match t {
        Target::Wire { row, column } => row < rows && column < num_wires,
        Target::Virtual { index } => index < num_virtual,
    }
}

impl Target {
    /// The routed target for column `column` of row `row`.
    pub fn wire(row: usize, column: usize) -> (t: Target)
        ensures
            t == (Target::Wire { row, column }),
    {
        Target::Wire { row, column }
    }
}

/// A target whose value is promised to be 0 or 1.
///
/// The promise is the caller's: gadgets that accept a `BoolTarget` constrain
/// or assume boolean values as their documentation states.
#[derive(Clone, Copy, Debug, PartialEq, Eq, Structural, Hash)]
pub struct BoolTarget {
    pub target: Target,
}

impl BoolTarget {
    /// Wraps a target that is known to carry a boolean value.
    pub fn from_target(target: Target) -> (b: BoolTarget)
        ensures
            b.target == target,
    {
        BoolTarget { target }
    }
}

/// A target whose value is promised to fit in 32 bits.
#[derive(Clone, Copy, Debug, PartialEq, Eq, Structural, Hash)]
pub struct U32Target(pub Target);

} // verus!
