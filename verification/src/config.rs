//! Configuration of the circuit grid.
//!
//! The field itself is fixed at compile time (its order is
//! `crate::field::FIELD_ORDER`); the configuration chooses the shape of the
//! gate grid and the constraint-degree budget of the eventual proof system.

use vstd::prelude::*;

verus! {

/// Grid and degree bounds chosen once, before any gate is placed.
#[derive(Clone, Copy, Debug, PartialEq, Eq, Structural)]
pub struct CircuitConfig {
    /// Wires available in every row of the grid.
    pub num_wires: usize,
    /// The prefix of each row whose wires may appear in copy constraints.
    pub num_routed_wires: usize,
    /// The largest constraint degree the proving backend will accept.
    pub max_degree: usize,
    /// Whether zero-knowledge blinding rows are requested from the backend.
    pub zero_knowledge: bool,
}

impl CircuitConfig {
    /// A sane configuration: every wire count is positive, routed wires are
    /// a prefix of the row, and the counts are small enough that wire
    /// indices never overflow a machine word.
    pub open spec fn wf(self) -> bool {
        &&& 1 <= self.num_routed_wires <= self.num_wires
        &&& self.num_wires <= 0xFFFF
        &&& 1 <= self.max_degree <= 0x10000
    }

    /// The standard configuration used by the recursion benchmarks:
    /// 135 wires of which 80 are routed, with constraint degree up to 8.
    pub fn standard_recursion_config() -> (c: CircuitConfig)
        ensures
            c.wf(),
            c.num_wires == 135,
            c.num_routed_wires == 80,
            c.max_degree == 8,
            !c.zero_knowledge,
    {
        CircuitConfig { num_wires: 135, num_routed_wires: 80, max_degree: 8, zero_knowledge: false }
    }

    /// The standard configuration with zero-knowledge blinding requested.
    pub fn standard_recursion_zk_config() -> (c: CircuitConfig)
        ensures
            c.wf(),
            c.num_wires == 135,
            c.num_routed_wires == 80,
            c.max_degree == 8,
            c.zero_knowledge,
    {
        CircuitConfig { num_wires: 135, num_routed_wires: 80, max_degree: 8, zero_knowledge: true }
    }
}

} // verus!
