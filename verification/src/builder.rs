//! The mutable circuit builder.
//!
//! The builder is a two-state machine: while open it accepts gate
//! placements, wire allocations, and copy-constraint registrations; its
//! `finalize` produces the immutable layout and the generator list, after
//! which every mutating call fails with `BuilderAlreadyFinalized`.
//! Gadget methods pack several independent operations into shared rows
//! where a gate type declares that capacity.

use vstd::prelude::*;
use crate::config::CircuitConfig;
use crate::errors::CircuitError;
use crate::field::{FieldElem, FIELD_ORDER};
use crate::gates::{ArithmeticGate, BaseSumGate, GateKind, U32ArithmeticGate};
use crate::generator::Generator;
use crate::layout::{connected, edge_between, index_target_for, target_index_for, Layout,
    lemma_connected_edge, lemma_connected_refl, lemma_connected_sym, lemma_connected_trans,
    lemma_index_target_roundtrip};
use crate::scheduler::GeneratorSet;
use crate::target::{target_in, BoolTarget, Target, U32Target};

verus! {

/// The generators a gate contributes when placed at `row`.
pub open spec fn spec_gate_generators(kind: GateKind, row: usize) -> Seq<Generator> {
    match kind {
        GateKind::Arithmetic(g) => Seq::new(
            g.num_ops as nat,
            |i: int| Generator::ArithmeticOp { gate: g, row, i: i as usize },
        ),
        GateKind::U32Arithmetic(g) => Seq::new(
            g.num_ops as nat,
            |i: int| Generator::U32ArithmeticOp { gate: g, row, i: i as usize },
        ),
        GateKind::Comparison(g) => seq![Generator::Comparison { gate: g, row }],
        GateKind::BaseSum(g) => seq![Generator::BaseSplit { gate: g, row }],
    }
}

/// The first cached constant target for value `v`, if any.
pub open spec fn spec_const_lookup(cache: Seq<(u64, Target)>, v: u64) -> Option<Target>
    decreases cache.len(),
{
    if cache.len() == 0 {
        None::<Target>
    } else if cache[0].0 == v {
        Some(cache[0].1)
    } else {
        spec_const_lookup(cache.skip(1), v)
    }
}


/// Every recorded generator fits a grid of the given dimensions.
pub open spec fn generators_fit(
    generators: Seq<Generator>,
    rows: int,
    num_wires: int,
    num_virtual: int,
) -> bool {
    forall|k: int|
        0 <= k < generators.len() ==> (#[trigger] generators[k]).wf_for(
            rows,
            num_wires,
            num_virtual,
        )
}

/// Every cached constant target has a matching constant generator.
pub open spec fn constants_tied(constants: Seq<(u64, Target)>, generators: Seq<Generator>) -> bool {
    forall|k: int|
        0 <= k < constants.len() ==> exists|m: int|
            0 <= m < generators.len() && generators[m] == (Generator::Constant {
                target: (#[trigger] constants[k]).1,
                value: FieldElem { value: constants[k].0 },
            })
}

/// A longer generator list keeps every cached constant tied.
proof fn lemma_constants_tied_extend(
    constants: Seq<(u64, Target)>,
    gens1: Seq<Generator>,
    gens2: Seq<Generator>,
)
    requires
        constants_tied(constants, gens1),
        gens1.len() <= gens2.len(),
        forall|k: int| 0 <= k < gens1.len() ==> #[trigger] gens2[k] == gens1[k],
    ensures
        constants_tied(constants, gens2),
{
    assert forall|k: int| 0 <= k < constants.len() implies exists|m: int|
        0 <= m < gens2.len() && gens2[m] == (Generator::Constant {
            target: (#[trigger] constants[k]).1,
            value: FieldElem { value: constants[k].0 },
        }) by {
        let m = choose|m: int|
            0 <= m < gens1.len() && gens1[m] == (Generator::Constant {
                target: constants[k].1,
                value: FieldElem { value: constants[k].0 },
            });
        assert(gens2[m] == gens1[m]);
    }
}

/// A grown grid keeps every recorded generator fitting.
proof fn lemma_generators_fit_grow(
    generators: Seq<Generator>,
    rows1: int,
    rows2: int,
    num_wires: int,
    nv1: int,
    nv2: int,
)
    requires
        generators_fit(generators, rows1, num_wires, nv1),
        rows1 <= rows2,
        nv1 <= nv2,
    ensures
        generators_fit(generators, rows2, num_wires, nv2),
{
    assert forall|k: int| 0 <= k < generators.len() implies (#[trigger] generators[k]).wf_for(
        rows2,
        num_wires,
        nv2,
    ) by {
        generators[k].lemma_wf_for_monotone(rows1, rows2, num_wires, nv1, nv2);
    }
}

/// Appending generators that fit keeps the whole list fitting.
proof fn lemma_generators_fit_append(
    gens1: Seq<Generator>,
    gens2: Seq<Generator>,
    rows: int,
    num_wires: int,
    nv: int,
)
    requires
        generators_fit(gens1, rows, num_wires, nv),
        generators_fit(gens2, rows, num_wires, nv),
    ensures
        generators_fit(gens1 + gens2, rows, num_wires, nv),
{
    assert forall|k: int| 0 <= k < (gens1 + gens2).len() implies (#[trigger] (gens1
        + gens2)[k]).wf_for(rows, num_wires, nv) by {
        if k < gens1.len() {
            assert((gens1 + gens2)[k] == gens1[k]);
        } else {
            assert((gens1 + gens2)[k] == gens2[k - gens1.len()]);
        }
    }
}


/// A specification-level snapshot of everything the builder has recorded.
pub struct BuilderView {
    /// The grid configuration.
    pub config: CircuitConfig,
    /// The placed gates, one per row.
    pub gates: Seq<GateKind>,
    /// The recorded copy constraints.
    pub copy_constraints: Seq<(Target, Target)>,
    /// The attached generators.
    pub generators: Seq<Generator>,
    /// The declared public inputs.
    pub public_inputs: Seq<Target>,
    /// How many virtual targets exist.
    pub num_virtual: int,
    /// Whether the builder is finalized.
    pub finalized: bool,
}

/// The later state extends the earlier one: the configuration is the same,
/// and every recorded gate, copy constraint, and generator is still there
/// at its place.
pub open spec fn builder_extends(pre: BuilderView, cur: BuilderView) -> bool {
    &&& cur.config == pre.config
    &&& pre.gates.len() <= cur.gates.len()
    &&& forall|k: int| 0 <= k < pre.gates.len() ==> #[trigger] cur.gates[k] == pre.gates[k]
    &&& pre.copy_constraints.len() <= cur.copy_constraints.len()
    &&& forall|k: int|
        0 <= k < pre.copy_constraints.len() ==> #[trigger] cur.copy_constraints[k]
            == pre.copy_constraints[k]
    &&& pre.generators.len() <= cur.generators.len()
    &&& forall|k: int|
        0 <= k < pre.generators.len() ==> #[trigger] cur.generators[k] == pre.generators[k]
    &&& pre.num_virtual <= cur.num_virtual
}

/// Extension chains.
pub proof fn lemma_builder_extends_trans(a: BuilderView, b: BuilderView, c: BuilderView)
    requires
        builder_extends(a, b),
        builder_extends(b, c),
    ensures
        builder_extends(a, c),
{
    assert forall|k: int| 0 <= k < a.gates.len() implies #[trigger] c.gates[k] == a.gates[k] by {
        assert(b.gates[k] == a.gates[k]);
    }
    assert forall|k: int| 0 <= k < a.copy_constraints.len() implies #[trigger] c.copy_constraints[k]
        == a.copy_constraints[k] by {
        assert(b.copy_constraints[k] == a.copy_constraints[k]);
    }
    assert forall|k: int| 0 <= k < a.generators.len() implies #[trigger] c.generators[k]
        == a.generators[k] by {
        assert(b.generators[k] == a.generators[k]);
    }
}

/// True when the copy-constraint list records the equality of `a` and `b`,
/// in this order.
pub open spec fn has_edge(copies: Seq<(Target, Target)>, a: Target, b: Target) -> bool {
    exists|k: int| 0 <= k < copies.len() && copies[k] == (a, b)
}

/// True when a constant generator writing `value` to `t` is recorded: in a
/// resolved witness, `t` carries `value`.
pub open spec fn constant_recorded(v: BuilderView, value: u64, t: Target) -> bool {
    exists|k: int|
        0 <= k < v.generators.len() && v.generators[k] == (Generator::Constant {
            target: t,
            value: FieldElem { value },
        })
}

/// True when `out` is the output wire of a recorded packed arithmetic
/// operation whose three input wires are copy-constrained to `a`, `b`,
/// `c`: the operation's generator makes `out = a * b + c` in a resolved
/// witness, and its constraint enforces the same equation.
pub open spec fn mul_add_recorded(
    v: BuilderView,
    a: Target,
    b: Target,
    c: Target,
    out: Target,
) -> bool {
    out matches Target::Wire { row, column } && {
        &&& row < v.gates.len()
        &&& column >= 3
        &&& (column - 3) % 4 == 0
        &&& (v.gates[row as int] matches GateKind::Arithmetic(g) && (column - 3) / 4 < g.num_ops)
        &&& has_edge(v.copy_constraints, a, Target::Wire { row, column: (column - 3) as usize })
        &&& has_edge(v.copy_constraints, b, Target::Wire { row, column: (column - 2) as usize })
        &&& has_edge(v.copy_constraints, c, Target::Wire { row, column: (column - 1) as usize })
    }
}

/// True when `low` and `high` are the output wires of a recorded packed
/// u32 operation whose input wires are copy-constrained to `a`, `b`, `c`:
/// the operation's generator writes the 32-bit halves of `a * b + c`.
pub open spec fn u32_mul_add_recorded(
    v: BuilderView,
    a: Target,
    b: Target,
    c: Target,
    low: Target,
    high: Target,
) -> bool {
    low matches Target::Wire { row, column } && {
        &&& row < v.gates.len()
        &&& column >= 3
        &&& (column - 3) % 6 == 0
        &&& (v.gates[row as int] matches GateKind::U32Arithmetic(g) && (column - 3) / 6
            < g.num_ops)
        &&& high == (Target::Wire { row, column: (column + 1) as usize })
        &&& has_edge(v.copy_constraints, a, Target::Wire { row, column: (column - 3) as usize })
        &&& has_edge(v.copy_constraints, b, Target::Wire { row, column: (column - 2) as usize })
        &&& has_edge(v.copy_constraints, c, Target::Wire { row, column: (column - 1) as usize })
    }
}

/// True when row `row` holds a base-sum gate decomposing `x`: that row's
/// gate is placed, `x` is copy-constrained to the row's sum wire, and the
/// split generator is attached, so in a resolved witness the limb wires
/// hold the base digits of `x` and recombine to it.
pub open spec fn base_sum_split_recorded(
    v: BuilderView,
    base: usize,
    num_limbs: usize,
    x: Target,
    row: usize,
) -> bool {
    &&& row < v.gates.len()
    &&& v.gates[row as int] == GateKind::BaseSum(BaseSumGate { base, num_limbs })
    &&& has_edge(v.copy_constraints, x, Target::Wire { row, column: 0 })
    &&& exists|k: int|
        0 <= k < v.generators.len() && v.generators[k] == (Generator::BaseSplit {
            gate: BaseSumGate { base, num_limbs },
            row,
        })
}

/// Every recorded structure survives an extension of the builder's state.
pub proof fn lemma_recorded_extends(pre: BuilderView, cur: BuilderView)
    requires
        builder_extends(pre, cur),
    ensures
        forall|a: Target, b: Target|
            has_edge(pre.copy_constraints, a, b) ==> #[trigger] has_edge(
                cur.copy_constraints,
                a,
                b,
            ),
        forall|value: u64, t: Target|
            constant_recorded(pre, value, t) ==> #[trigger] constant_recorded(cur, value, t),
        forall|a: Target, b: Target, c: Target, out: Target|
            mul_add_recorded(pre, a, b, c, out) ==> #[trigger] mul_add_recorded(
                cur,
                a,
                b,
                c,
                out,
            ),
        forall|a: Target, b: Target, c: Target, low: Target, high: Target|
            u32_mul_add_recorded(pre, a, b, c, low, high) ==> #[trigger] u32_mul_add_recorded(
                cur,
                a,
                b,
                c,
                low,
                high,
            ),
        forall|base: usize, num_limbs: usize, x: Target, row: usize|
            base_sum_split_recorded(pre, base, num_limbs, x, row)
                ==> #[trigger] base_sum_split_recorded(cur, base, num_limbs, x, row),
{
    assert forall|a: Target, b: Target| has_edge(pre.copy_constraints, a, b)
        implies #[trigger] has_edge(cur.copy_constraints, a, b) by {
        let k = choose|k: int| 0 <= k < pre.copy_constraints.len() && pre.copy_constraints[k] == (
        a,
        b,
        );
        assert(cur.copy_constraints[k] == pre.copy_constraints[k]);
    }
    assert forall|value: u64, t: Target| constant_recorded(pre, value, t)
        implies #[trigger] constant_recorded(cur, value, t) by {
        let k = choose|k: int|
            0 <= k < pre.generators.len() && pre.generators[k] == (Generator::Constant {
                target: t,
                value: FieldElem { value },
            });
        assert(cur.generators[k] == pre.generators[k]);
    }
    assert forall|a: Target, b: Target, c: Target, out: Target| mul_add_recorded(
        pre,
        a,
        b,
        c,
        out,
    ) implies #[trigger] mul_add_recorded(cur, a, b, c, out) by {
        match out {
            Target::Wire { row, column } => {
                assert(cur.gates[row as int] == pre.gates[row as int]);
            },
            _ => {},
        }
    }
    assert forall|a: Target, b: Target, c: Target, low: Target, high: Target|
        u32_mul_add_recorded(pre, a, b, c, low, high) implies #[trigger] u32_mul_add_recorded(
        cur,
        a,
        b,
        c,
        low,
        high,
    ) by {
        match low {
            Target::Wire { row, column } => {
                assert(cur.gates[row as int] == pre.gates[row as int]);
            },
            _ => {},
        }
    }
    assert forall|base: usize, num_limbs: usize, x: Target, row: usize| base_sum_split_recorded(
        pre,
        base,
        num_limbs,
        x,
        row,
    ) implies #[trigger] base_sum_split_recorded(cur, base, num_limbs, x, row) by {
        assert(cur.gates[row as int] == pre.gates[row as int]);
        let k = choose|k: int|
            0 <= k < pre.generators.len() && pre.generators[k] == (Generator::BaseSplit {
                gate: BaseSumGate { base, num_limbs },
                row,
            });
        assert(cur.generators[k] == pre.generators[k]);
    }
}

/// The construction-time state of a circuit.
#[derive(Debug)]
pub struct CircuitBuilder {
    /// The grid configuration chosen at creation.
    pub config: CircuitConfig,
    /// Gate placements, one per row so far.
    pub gates: Vec<GateKind>,
    /// The declared target equalities.
    pub copy_constraints: Vec<(Target, Target)>,
    /// The declared public inputs.
    pub public_inputs: Vec<Target>,
    /// How many virtual targets have been allocated.
    pub num_virtual: usize,
    /// Whether each virtual target has been bound to a routed wire.
    pub bound: Vec<bool>,
    /// The generators attached so far.
    pub generators: Vec<Generator>,
    /// Whether `finalize` has run.
    pub finalized: bool,
    /// The arithmetic gate row still accepting packed operations, with the
    /// count of operations already used.
    pub arith_slot: Option<(usize, usize)>,
    /// The u32 arithmetic gate row still accepting packed operations.
    pub u32_slot: Option<(usize, usize)>,
    /// Already-allocated constant targets, by constant value.
    pub constants: Vec<(u64, Target)>,
}

impl CircuitBuilder {
    /// The recorded state, as one specification value.
    pub open spec fn view_of(self) -> BuilderView {
        BuilderView {
            config: self.config,
            gates: self.gates@,
            copy_constraints: self.copy_constraints@,
            generators: self.generators@,
            public_inputs: self.public_inputs@,
            num_virtual: self.num_virtual as int,
            finalized: self.finalized,
        }
    }

    /// True when `t` refers to a cell or virtual slot of the grid built so
    /// far.
    pub open spec fn target_in_grid(self, t: Target) -> bool {
        target_in(t, self.gates.len() as int, self.config.num_wires as int, self.num_virtual as int)
    }

    /// True when `t` may appear in a copy constraint: it is in the grid,
    /// and a routed wire if it is a wire at all.
    pub open spec fn connectable(self, t: Target) -> bool {
        &&& self.target_in_grid(t)
        &&& match t {
            Target::Wire { row, column } => column < self.config.num_routed_wires,
            Target::Virtual { index } => true,
        }
    }

    /// True when a packed arithmetic row still has a free operation, so
    /// `mul_add` needs no new gate.
    pub open spec fn arith_slot_free(self) -> bool {
        match self.arith_slot {
            Some((row, used)) => row < self.gates.len() && (self.gates[row as int] matches
                GateKind::Arithmetic(g) && used < g.num_ops),
            None => false,
        }
    }

    /// True when a packed u32 row still has a free operation.
    pub open spec fn u32_slot_free(self) -> bool {
        match self.u32_slot {
            Some((row, used)) => row < self.gates.len() && (self.gates[row as int] matches
                GateKind::U32Arithmetic(g) && used < g.num_ops),
            None => false,
        }
    }

    /// The builder's invariant, preserved by every method.
    pub open spec fn wf(self) -> bool {
        &&& self.config.wf()
        &&& self.gates.len() <= 0xFFFF
        &&& forall|r: int|
            0 <= r < self.gates.len() ==> (#[trigger] self.gates[r]).wf()
                && self.gates[r].spec_num_wires() <= self.config.num_wires
                && self.gates[r].spec_degree() <= self.config.max_degree
        &&& self.num_virtual <= 0x10000
        &&& self.bound.len() == self.num_virtual
        &&& forall|k: int|
            0 <= k < self.copy_constraints.len() ==> self.connectable(
                (#[trigger] self.copy_constraints[k]).0,
            ) && self.connectable(self.copy_constraints[k].1)
        &&& forall|k: int|
            0 <= k < self.public_inputs.len() ==> self.target_in_grid(
                #[trigger] self.public_inputs[k],
            )
        &&& generators_fit(
            self.generators@,
            self.gates.len() as int,
            self.config.num_wires as int,
            self.num_virtual as int,
        )
        &&& match self.arith_slot {
            Some((row, used)) => row < self.gates.len() && (self.gates[row as int] matches
                GateKind::Arithmetic(g) && used <= g.num_ops && g.num_ops
                == self.config.num_routed_wires as int / 4),
            None => true,
        }
        &&& match self.u32_slot {
            Some((row, used)) => row < self.gates.len() && (self.gates[row as int] matches
                GateKind::U32Arithmetic(g) && used <= g.num_ops && g.num_ops
                <= self.config.num_routed_wires as int / 6),
            None => true,
        }
        &&& forall|k: int|
            0 <= k < self.constants.len() ==> self.connectable(
                (#[trigger] self.constants[k]).1,
            ) && self.constants[k].0 < FIELD_ORDER
        &&& constants_tied(self.constants@, self.generators@)
    }

    /// A fresh, open builder under the given configuration.
    pub fn new(config: CircuitConfig) -> (b: CircuitBuilder)
        requires
            config.wf(),
        ensures
            b.wf(),
            !b.finalized,
            b.config == config,
            b.gates@.len() == 0,
            b.copy_constraints@.len() == 0,
            b.public_inputs@.len() == 0,
            b.num_virtual == 0,
            b.generators@.len() == 0,
    {
        CircuitBuilder {
            config,
            gates: Vec::new(),
            copy_constraints: Vec::new(),
            public_inputs: Vec::new(),
            num_virtual: 0,
            bound: Vec::new(),
            generators: Vec::new(),
            finalized: false,
            arith_slot: None,
            u32_slot: None,
            constants: Vec::new(),
        }
    }

    /// Allocates a fresh virtual target.
    ///
    /// Fails after finalization, or on allocation exhaustion.
    pub fn add_virtual_target(&mut self) -> (r: Result<Target, CircuitError>)
        requires
            old(self).wf(),
        ensures
            final(self).wf(),
            builder_extends(old(self).view_of(), final(self).view_of()),
            match r {
                Ok(t) => {
                    &&& !old(self).finalized
                    &&& old(self).num_virtual < 0x10000
                    &&& t == (Target::Virtual { index: old(self).num_virtual })
                    &&& *final(self) == (CircuitBuilder {
                        num_virtual: (old(self).num_virtual + 1) as usize,
                        bound: final(self).bound,
                        ..*old(self)
                    })
                    &&& final(self).bound@ == old(self).bound@.push(false)
                },
                Err(e) => {
                    &&& *final(self) == *old(self)
                    &&& (e == CircuitError::BuilderAlreadyFinalized && old(self).finalized || e
                        == CircuitError::AllocationExhausted && !old(self).finalized && old(
                        self,
                    ).num_virtual >= 0x10000)
                },
            },
    {
        if self.finalized {
            return Err(CircuitError::BuilderAlreadyFinalized);
        }
        if self.num_virtual >= 0x10000 {
            return Err(CircuitError::AllocationExhausted);
        }
        let t = Target::Virtual { index: self.num_virtual };
        self.num_virtual = self.num_virtual + 1;
        self.bound.push(false);
        proof {
            lemma_generators_fit_grow(
                self.generators@,
                old(self).gates@.len() as int,
                self.gates@.len() as int,
                self.config.num_wires as int,
                old(self).num_virtual as int,
                self.num_virtual as int,
            );
        }
        Ok(t)
    }

    /// Registers a copy constraint declaring two targets equal.
    pub fn connect(&mut self, a: Target, b: Target) -> (r: Result<(), CircuitError>)
        requires
            old(self).wf(),
            old(self).connectable(a),
            old(self).connectable(b),
        ensures
            final(self).wf(),
            builder_extends(old(self).view_of(), final(self).view_of()),
            match r {
                Ok(()) => {
                    &&& !old(self).finalized
                    &&& *final(self) == (CircuitBuilder {
                        copy_constraints: final(self).copy_constraints,
                        ..*old(self)
                    })
                    &&& final(self).copy_constraints@ == old(self).copy_constraints@.push((a, b))
                },
                Err(e) => *final(self) == *old(self) && e == CircuitError::BuilderAlreadyFinalized
                    && old(self).finalized,
            },
    {
        if self.finalized {
            return Err(CircuitError::BuilderAlreadyFinalized);
        }
        self.copy_constraints.push((a, b));
        proof {
            lemma_generators_fit_grow(
                self.generators@,
                old(self).gates@.len() as int,
                self.gates@.len() as int,
                self.config.num_wires as int,
                old(self).num_virtual as int,
                self.num_virtual as int,
            );
        }
        Ok(())
    }

    /// Declares a target a public input of the circuit.
    pub fn register_public_input(&mut self, t: Target) -> (r: Result<(), CircuitError>)
        requires
            old(self).wf(),
            old(self).target_in_grid(t),
        ensures
            final(self).wf(),
            builder_extends(old(self).view_of(), final(self).view_of()),
            match r {
                Ok(()) => {
                    &&& !old(self).finalized
                    &&& *final(self) == (CircuitBuilder {
                        public_inputs: final(self).public_inputs,
                        ..*old(self)
                    })
                    &&& final(self).public_inputs@ == old(self).public_inputs@.push(t)
                },
                Err(e) => *final(self) == *old(self) && e == CircuitError::BuilderAlreadyFinalized
                    && old(self).finalized,
            },
    {
        if self.finalized {
            return Err(CircuitError::BuilderAlreadyFinalized);
        }
        self.public_inputs.push(t);
        proof {
            lemma_generators_fit_grow(
                self.generators@,
                old(self).gates@.len() as int,
                self.gates@.len() as int,
                self.config.num_wires as int,
                old(self).num_virtual as int,
                self.num_virtual as int,
            );
        }
        Ok(())
    }

    /// Binds a virtual target to a routed wire: records the equality and
    /// marks the target bound.  A target, once bound, never rebinds.
    pub fn bind_virtual_target(&mut self, index: usize, row: usize, column: usize) -> (r: Result<
        (),
        CircuitError,
    >)
        requires
            old(self).wf(),
            index < old(self).num_virtual,
            row < old(self).gates@.len(),
            column < old(self).config.num_routed_wires,
        ensures
            final(self).wf(),
            match r {
                Ok(()) => {
                    &&& !old(self).finalized
                    &&& !old(self).bound@[index as int]
                    &&& *final(self) == (CircuitBuilder {
                        copy_constraints: final(self).copy_constraints,
                        bound: final(self).bound,
                        ..*old(self)
                    })
                    &&& final(self).copy_constraints@ == old(self).copy_constraints@.push(
                        (Target::Virtual { index }, Target::Wire { row, column }),
                    )
                    &&& final(self).bound@ == old(self).bound@.update(index as int, true)
                },
                Err(e) => {
                    &&& *final(self) == *old(self)
                    &&& (e == CircuitError::BuilderAlreadyFinalized && old(self).finalized || e
                        == CircuitError::TargetAlreadyBound && !old(self).finalized && old(
                        self,
                    ).bound@[index as int])
                },
            },
    {
        if self.finalized {
            return Err(CircuitError::BuilderAlreadyFinalized);
        }
        if self.bound[index] {
            return Err(CircuitError::TargetAlreadyBound);
        }
        self.copy_constraints.push((Target::Virtual { index }, Target::Wire { row, column }));
        self.bound.set(index, true);
        proof {
            lemma_generators_fit_grow(
                self.generators@,
                old(self).gates@.len() as int,
                self.gates@.len() as int,
                self.config.num_wires as int,
                old(self).num_virtual as int,
                self.num_virtual as int,
            );
        }
        Ok(())
    }

    /// Places a gate on the next free row and attaches its generators.
    ///
    /// Fails when a gate needs more wires than a row holds, when its
    /// constraint degree exceeds the configured bound, or after
    /// finalization.
    pub fn add_gate(&mut self, kind: GateKind) -> (r: Result<usize, CircuitError>)
        requires
            old(self).wf(),
            kind.wf(),
        ensures
            final(self).wf(),
            builder_extends(old(self).view_of(), final(self).view_of()),
            match r {
                Ok(row) => {
                    &&& !old(self).finalized
                    &&& row == old(self).gates@.len()
                    &&& kind.spec_num_wires() <= old(self).config.num_wires
                    &&& kind.spec_degree() <= old(self).config.max_degree
                    &&& *final(self) == (CircuitBuilder {
                        gates: final(self).gates,
                        generators: final(self).generators,
                        ..*old(self)
                    })
                    &&& final(self).gates@ == old(self).gates@.push(kind)
                    &&& final(self).generators@ == old(self).generators@ + spec_gate_generators(
                        kind,
                        row,
                    )
                },
                Err(e) => {
                    &&& *final(self) == *old(self)
                    &&& (e == CircuitError::BuilderAlreadyFinalized && old(self).finalized || e
                        == CircuitError::RowOverflow && !old(self).finalized && (kind.spec_num_wires()
                        > old(self).config.num_wires || old(self).gates@.len() >= 0xFFFF) || e
                        == CircuitError::DegreeExceedsConfig && !old(self).finalized
                        && kind.spec_num_wires() <= old(self).config.num_wires && old(
                        self,
                    ).gates@.len() < 0xFFFF && kind.spec_degree() > old(self).config.max_degree)
                },
            },
    {
        if self.finalized {
            return Err(CircuitError::BuilderAlreadyFinalized);
        }
        if self.gates.len() >= 0xFFFF || kind.num_wires() > self.config.num_wires {
            return Err(CircuitError::RowOverflow);
        }
        if kind.degree() > self.config.max_degree {
            return Err(CircuitError::DegreeExceedsConfig);
        }
        let row = self.gates.len();
        self.gates.push(kind);
        let ghost pre_gens = self.generators@;
        match kind {
            GateKind::Arithmetic(g) => {
                for i in 0..g.num_ops
                    invariant
                        old(self).wf(),
                        self.config == old(self).config,
                        self.gates@ == old(self).gates@.push(kind),
                        self.copy_constraints == old(self).copy_constraints,
                        self.public_inputs == old(self).public_inputs,
                        self.num_virtual == old(self).num_virtual,
                        self.bound == old(self).bound,
                        self.finalized == old(self).finalized,
                        !self.finalized,
                        self.arith_slot == old(self).arith_slot,
                        self.u32_slot == old(self).u32_slot,
                        self.constants == old(self).constants,
                        row == old(self).gates@.len(),
                        kind.wf(),
                        kind.spec_num_wires() <= self.config.num_wires,
                        kind.spec_degree() <= self.config.max_degree,
                        pre_gens == old(self).generators@,
                        kind == GateKind::Arithmetic(g),
                        self.generators@.len() == pre_gens.len() + i,
                        forall|m: int|
                            0 <= m < pre_gens.len() ==> #[trigger] self.generators@[m]
                                == pre_gens[m],
                        forall|m: int|
                            0 <= m < i ==> #[trigger] self.generators@[pre_gens.len() + m] == (
                            Generator::ArithmeticOp { gate: g, row, i: m as usize }),
                {
                    self.generators.push(Generator::ArithmeticOp { gate: g, row, i });
                }
            },
            GateKind::U32Arithmetic(g) => {
                for i in 0..g.num_ops
                    invariant
                        old(self).wf(),
                        self.config == old(self).config,
                        self.gates@ == old(self).gates@.push(kind),
                        self.copy_constraints == old(self).copy_constraints,
                        self.public_inputs == old(self).public_inputs,
                        self.num_virtual == old(self).num_virtual,
                        self.bound == old(self).bound,
                        self.finalized == old(self).finalized,
                        !self.finalized,
                        self.arith_slot == old(self).arith_slot,
                        self.u32_slot == old(self).u32_slot,
                        self.constants == old(self).constants,
                        row == old(self).gates@.len(),
                        kind.wf(),
                        kind.spec_num_wires() <= self.config.num_wires,
                        kind.spec_degree() <= self.config.max_degree,
                        pre_gens == old(self).generators@,
                        kind == GateKind::U32Arithmetic(g),
                        self.generators@.len() == pre_gens.len() + i,
                        forall|m: int|
                            0 <= m < pre_gens.len() ==> #[trigger] self.generators@[m]
                                == pre_gens[m],
                        forall|m: int|
                            0 <= m < i ==> #[trigger] self.generators@[pre_gens.len() + m] == (
                            Generator::U32ArithmeticOp { gate: g, row, i: m as usize }),
                {
                    self.generators.push(Generator::U32ArithmeticOp { gate: g, row, i });
                }
            },
            GateKind::Comparison(g) => {
                self.generators.push(Generator::Comparison { gate: g, row });
            },
            GateKind::BaseSum(g) => {
                self.generators.push(Generator::BaseSplit { gate: g, row });
            },
        }
        proof {
            let spec_gens = spec_gate_generators(kind, row);
            assert(self.generators@.len() == pre_gens.len() + spec_gens.len());
            assert forall|m: int| 0 <= m < spec_gens.len() implies self.generators@[pre_gens.len()
                + m] == spec_gens[m] by {
                match kind {
                    GateKind::Arithmetic(g) => {
                        assert(spec_gens[m] == (Generator::ArithmeticOp {
                            gate: g,
                            row,
                            i: m as usize,
                        }));
                    },
                    GateKind::U32Arithmetic(g) => {
                        assert(spec_gens[m] == (Generator::U32ArithmeticOp {
                            gate: g,
                            row,
                            i: m as usize,
                        }));
                    },
                    GateKind::Comparison(g) => {},
                    GateKind::BaseSum(g) => {},
                }
            }
            assert(self.generators@ =~= pre_gens + spec_gate_generators(kind, row));
            lemma_generators_fit_grow(
                pre_gens,
                old(self).gates@.len() as int,
                self.gates@.len() as int,
                self.config.num_wires as int,
                old(self).num_virtual as int,
                self.num_virtual as int,
            );
            lemma_gate_generators_fit(
                kind,
                row,
                self.gates@.len() as int,
                self.config.num_wires as int,
                self.num_virtual as int,
            );
            lemma_generators_fit_append(
                pre_gens,
                spec_gate_generators(kind, row),
                self.gates@.len() as int,
                self.config.num_wires as int,
                self.num_virtual as int,
            );
            lemma_constants_tied_extend(self.constants@, pre_gens, self.generators@);
        }
        Ok(row)
    }

    /// Attaches a free-standing generator, such as a recombination
    /// generator or an extra constant writer.
    pub fn add_simple_generator(&mut self, g: Generator) -> (r: Result<(), CircuitError>)
        requires
            old(self).wf(),
            g.wf_for(
                old(self).gates@.len() as int,
                old(self).config.num_wires as int,
                old(self).num_virtual as int,
            ),
        ensures
            final(self).wf(),
            builder_extends(old(self).view_of(), final(self).view_of()),
            match r {
                Ok(()) => {
                    &&& !old(self).finalized
                    &&& *final(self) == (CircuitBuilder {
                        generators: final(self).generators,
                        ..*old(self)
                    })
                    &&& final(self).generators@ == old(self).generators@.push(g)
                },
                Err(e) => *final(self) == *old(self) && e == CircuitError::BuilderAlreadyFinalized
                    && old(self).finalized,
            },
    {
        if self.finalized {
            return Err(CircuitError::BuilderAlreadyFinalized);
        }
        self.generators.push(g);
        proof {
            assert forall|k: int| 0 <= k < self.generators@.len() implies (
            #[trigger] self.generators@[k]).wf_for(
                self.gates@.len() as int,
                self.config.num_wires as int,
                self.num_virtual as int,
            ) by {
                if k < old(self).generators@.len() {
                    assert(self.generators@[k] == old(self).generators@[k]);
                }
            }
            lemma_constants_tied_extend(self.constants@, old(self).generators@, self.generators@);
        }
        Ok(())
    }

    /// The target of a constant value, allocated on first use and cached:
    /// a virtual target written by a constant generator.
    pub fn constant(&mut self, v: FieldElem) -> (r: Result<Target, CircuitError>)
        requires
            old(self).wf(),
            v.is_canonical(),
        ensures
            final(self).wf(),
            builder_extends(old(self).view_of(), final(self).view_of()),
            match r {
                Ok(t) => {
                    &&& !old(self).finalized
                    &&& final(self).target_in_grid(t)
                    &&& final(self).connectable(t)
                    &&& spec_const_lookup(final(self).constants@, v.value) == Some(t)
                    &&& exists|k: int|
                        0 <= k < final(self).generators@.len() && final(self).generators@[k] == (
                        Generator::Constant { target: t, value: v })
                    &&& final(self).gates == old(self).gates
                    &&& final(self).copy_constraints == old(self).copy_constraints
                    &&& final(self).public_inputs == old(self).public_inputs
                    &&& final(self).finalized == old(self).finalized
                    &&& final(self).config == old(self).config
                    &&& final(self).arith_slot == old(self).arith_slot
                    &&& final(self).u32_slot == old(self).u32_slot
                    &&& old(self).num_virtual <= final(self).num_virtual
                    &&& final(self).num_virtual <= old(self).num_virtual + 1
                    &&& old(self).generators@.is_prefix_of(final(self).generators@)
                },
                Err(e) => *final(self) == *old(self) && (e
                    == CircuitError::BuilderAlreadyFinalized && old(self).finalized || e
                    == CircuitError::AllocationExhausted && !old(self).finalized && (
                    spec_const_lookup(old(self).constants@, v.value) is None) && old(
                    self,
                ).num_virtual >= 0x10000),
            },
    {
        if self.finalized {
            return Err(CircuitError::BuilderAlreadyFinalized);
        }
        let n = self.constants.len();
        proof {
            assert(self.constants@.skip(0) =~= self.constants@);
        }
        for k in 0..n
            invariant
                old(self).wf(),
                !old(self).finalized,
                v.is_canonical(),
                n == self.constants@.len(),
                *self == *old(self),
                spec_const_lookup(self.constants@, v.value) == spec_const_lookup(
                    self.constants@.skip(k as int),
                    v.value,
                ),
        {
            let entry = self.constants[k];
            proof {
                assert(self.constants@.skip(k as int)[0] == self.constants@[k as int]);
                assert(self.constants@.skip(k as int).skip(1) =~= self.constants@.skip(
                    k as int + 1,
                ));
            }
            if entry.0 == v.value {
                proof {
                    assert(entry == self.constants@[k as int]);
                    assert(spec_const_lookup(self.constants@, v.value) == Some(entry.1));
                    assert(v == (FieldElem { value: v.value }));
                    assert(exists|m: int|
                        0 <= m < self.generators.len() && self.generators[m] == (
                        Generator::Constant {
                            target: entry.1,
                            value: FieldElem { value: entry.0 },
                        }));
                    assert(old(self).generators@.is_prefix_of(self.generators@)) by {
                        assert(old(self).generators@ =~= self.generators@.subrange(
                            0,
                            old(self).generators@.len() as int,
                        ));
                    }
                }
                return Ok(entry.1);
            }
        }
        let t = match self.add_virtual_target() {
            Ok(t) => t,
            Err(e) => {
                return Err(e);
            },
        };
        self.generators.push(Generator::Constant { target: t, value: v });
        self.constants.push((v.value, t));
        proof {
            lemma_const_lookup_push(old(self).constants@, v.value, t);
            assert(self.constants@ == old(self).constants@.push((v.value, t)));
            assert(self.generators@[self.generators@.len() - 1] == (Generator::Constant {
                target: t,
                value: v,
            }));
            assert forall|k: int| 0 <= k < self.generators@.len() implies (
            #[trigger] self.generators@[k]).wf_for(
                self.gates@.len() as int,
                self.config.num_wires as int,
                self.num_virtual as int,
            ) by {
                if k < old(self).generators@.len() {
                    assert(self.generators@[k] == old(self).generators@[k]);
                    old(self).generators@[k].lemma_wf_for_monotone(
                        old(self).gates@.len() as int,
                        self.gates@.len() as int,
                        self.config.num_wires as int,
                        old(self).num_virtual as int,
                        self.num_virtual as int,
                    );
                }
            }
            lemma_constants_tied_extend(
                old(self).constants@,
                old(self).generators@,
                self.generators@,
            );
            assert forall|k: int| 0 <= k < self.constants@.len() implies exists|m: int|
                0 <= m < self.generators@.len() && self.generators@[m] == (Generator::Constant {
                    target: (#[trigger] self.constants@[k]).1,
                    value: FieldElem { value: self.constants@[k].0 },
                }) by {
                if k < old(self).constants@.len() {
                    assert(self.constants@[k] == old(self).constants@[k]);
                } else {
                    assert(self.constants@[k] == (v.value, t));
                    assert(v == (FieldElem { value: v.value }));
                }
            }
            assert(constants_tied(self.constants@, self.generators@));
            assert(old(self).generators@.is_prefix_of(self.generators@)) by {
                assert(old(self).generators@ =~= self.generators@.subrange(
                    0,
                    old(self).generators@.len() as int,
                ));
            }
        }
        Ok(t)
    }

    /// The target computing `a * b + c`, packed into an arithmetic gate
    /// row: the inputs are copy-constrained to the operation's input wires,
    /// and the operation's generator computes the output wire.
    pub fn mul_add(&mut self, a: Target, b: Target, c: Target) -> (r: Result<Target, CircuitError>)
        requires
            old(self).wf(),
            old(self).connectable(a),
            old(self).connectable(b),
            old(self).connectable(c),
            old(self).config.num_routed_wires >= 4,
            old(self).config.max_degree >= 2,
        ensures
            final(self).wf(),
            builder_extends(old(self).view_of(), final(self).view_of()),
            final(self).config == old(self).config,
            final(self).public_inputs == old(self).public_inputs,
            final(self).finalized == old(self).finalized,
            final(self).num_virtual == old(self).num_virtual,
            old(self).gates@.len() <= final(self).gates@.len(),
            final(self).gates@.len() <= old(self).gates@.len() + 1,
            match r {
                Ok(t) => {
                    &&& !old(self).finalized
                    &&& final(self).connectable(t)
                    &&& (t matches Target::Wire { row, column } && {
                        &&& row < final(self).gates@.len()
                        &&& column >= 3
                        &&& (column - 3) % 4 == 0
                        &&& (final(self).gates@[row as int] matches GateKind::Arithmetic(g)
                            && (column - 3) / 4 < g.num_ops)
                        &&& final(self).copy_constraints@ == old(self).copy_constraints@ + seq![
                            (a, Target::Wire { row, column: (column - 3) as usize }),
                            (b, Target::Wire { row, column: (column - 2) as usize }),
                            (c, Target::Wire { row, column: (column - 1) as usize }),
                        ]
                    })
                    &&& mul_add_recorded(final(self).view_of(), a, b, c, t)
                },
                Err(e) => {
                    &&& *final(self) == *old(self)
                    &&& (e == CircuitError::BuilderAlreadyFinalized && old(self).finalized || e
                        == CircuitError::RowOverflow && !old(self).finalized && !old(
                        self,
                    ).arith_slot_free() && old(self).gates@.len() >= 0xFFFF)
                },
            },
    {
        if self.finalized {
            return Err(CircuitError::BuilderAlreadyFinalized);
        }
        let mut row: usize = 0;
        let mut op: usize = 0;
        let mut have_slot = false;
        match self.arith_slot {
            Some((r0, used)) => {
                if let GateKind::Arithmetic(g) = self.gates[r0] {
                    if used < g.num_ops {
                        row = r0;
                        op = used;
                        have_slot = true;
                    }
                } else {
                    proof {
                        assert(false);
                    }
                }
            },
            None => {},
        }
        if !have_slot {
            let g = ArithmeticGate::new_from_config(&self.config);
            proof {
                vstd::arithmetic::div_mod::lemma_fundamental_div_mod(
                    self.config.num_routed_wires as int,
                    4,
                );
                vstd::arithmetic::div_mod::lemma_mod_bound(self.config.num_routed_wires as int, 4);
            }
            let nr = match self.add_gate(GateKind::Arithmetic(g)) {
                Ok(nr) => nr,
                Err(e) => {
                    return Err(e);
                },
            };
            row = nr;
            op = 0;
        }
        let ghost mid = *self;
        let out_col = 4 * op + 3;
        if let Err(e) = self.connect(a, Target::Wire { row, column: 4 * op }) {
            proof {
                assert(false);
            }
            return Err(e);
        }
        if let Err(e) = self.connect(b, Target::Wire { row, column: 4 * op + 1 }) {
            proof {
                assert(false);
            }
            return Err(e);
        }
        if let Err(e) = self.connect(c, Target::Wire { row, column: 4 * op + 2 }) {
            proof {
                assert(false);
            }
            return Err(e);
        }
        self.arith_slot = Some((row, op + 1));
        proof {
            assert(self.copy_constraints@ =~= mid.copy_constraints@ + seq![
                (a, Target::Wire { row, column: (4 * op) as usize }),
                (b, Target::Wire { row, column: (4 * op + 1) as usize }),
                (c, Target::Wire { row, column: (4 * op + 2) as usize }),
            ]);
            let v = self.view_of();
            let base = mid.copy_constraints@.len() as int;
            assert(v.copy_constraints[base] == (a, Target::Wire {
                row,
                column: (4 * op) as usize,
            }));
            assert(v.copy_constraints[base + 1] == (b, Target::Wire {
                row,
                column: (4 * op + 1) as usize,
            }));
            assert(v.copy_constraints[base + 2] == (c, Target::Wire {
                row,
                column: (4 * op + 2) as usize,
            }));
            assert(has_edge(v.copy_constraints, a, Target::Wire {
                row,
                column: (4 * op) as usize,
            }));
            assert(has_edge(v.copy_constraints, b, Target::Wire {
                row,
                column: (4 * op + 1) as usize,
            }));
            assert(has_edge(v.copy_constraints, c, Target::Wire {
                row,
                column: (4 * op + 2) as usize,
            }));
        }
        Ok(Target::Wire { row, column: out_col })
    }

    /// The target computing `a + b`: the output of a packed multiply-add
    /// whose inputs are the constant one, `a`, and `b`.
    pub fn add(&mut self, a: Target, b: Target) -> (r: Result<Target, CircuitError>)
        requires
            old(self).wf(),
            old(self).connectable(a),
            old(self).connectable(b),
            old(self).config.num_routed_wires >= 4,
            old(self).config.max_degree >= 2,
        ensures
            final(self).wf(),
            builder_extends(old(self).view_of(), final(self).view_of()),
            final(self).config == old(self).config,
            match r {
                Ok(t) => !old(self).finalized && final(self).connectable(t) && exists|one_t: Target|
                    #![auto]
                    constant_recorded(final(self).view_of(), 1, one_t) && mul_add_recorded(
                        final(self).view_of(),
                        one_t,
                        a,
                        b,
                        t,
                    ),
                Err(e) => e == CircuitError::BuilderAlreadyFinalized && old(self).finalized || e
                    == CircuitError::AllocationExhausted && !old(self).finalized && (
                spec_const_lookup(old(self).constants@, 1) is None) && old(self).num_virtual
                    >= 0x10000 || e == CircuitError::RowOverflow && !old(self).finalized && !old(
                    self,
                ).arith_slot_free() && old(self).gates@.len() >= 0xFFFF,
            },
    {
        let ghost pre = *self;
        let o = match self.one() {
            Ok(o) => o,
            Err(e) => {
                return Err(e);
            },
        };
        let ghost mid = *self;
        let t = match self.mul_add(o, a, b) {
            Ok(t) => t,
            Err(e) => {
                return Err(e);
            },
        };
        proof {
            lemma_recorded_extends(mid.view_of(), self.view_of());
            lemma_builder_extends_trans(pre.view_of(), mid.view_of(), self.view_of());
            assert(constant_recorded(self.view_of(), 1, o));
        }
        Ok(t)
    }

    /// The target computing `a * b`: the output of a packed multiply-add
    /// whose inputs are `a`, `b`, and the constant zero.
    pub fn mul(&mut self, a: Target, b: Target) -> (r: Result<Target, CircuitError>)
        requires
            old(self).wf(),
            old(self).connectable(a),
            old(self).connectable(b),
            old(self).config.num_routed_wires >= 4,
            old(self).config.max_degree >= 2,
        ensures
            final(self).wf(),
            builder_extends(old(self).view_of(), final(self).view_of()),
            final(self).config == old(self).config,
            match r {
                Ok(t) => !old(self).finalized && final(self).connectable(t) && exists|
                    zero_t: Target,
                |
                    #![auto]
                    constant_recorded(final(self).view_of(), 0, zero_t) && mul_add_recorded(
                        final(self).view_of(),
                        a,
                        b,
                        zero_t,
                        t,
                    ),
                Err(e) => e == CircuitError::BuilderAlreadyFinalized && old(self).finalized || e
                    == CircuitError::AllocationExhausted && !old(self).finalized && (
                spec_const_lookup(old(self).constants@, 0) is None) && old(self).num_virtual
                    >= 0x10000 || e == CircuitError::RowOverflow && !old(self).finalized && !old(
                    self,
                ).arith_slot_free() && old(self).gates@.len() >= 0xFFFF,
            },
    {
        let ghost pre = *self;
        let z = match self.zero() {
            Ok(z) => z,
            Err(e) => {
                return Err(e);
            },
        };
        let ghost mid = *self;
        let t = match self.mul_add(a, b, z) {
            Ok(t) => t,
            Err(e) => {
                return Err(e);
            },
        };
        proof {
            lemma_recorded_extends(mid.view_of(), self.view_of());
            lemma_builder_extends_trans(pre.view_of(), mid.view_of(), self.view_of());
            assert(constant_recorded(self.view_of(), 0, z));
        }
        Ok(t)
    }

    /// The pair `(low, high)` of 32-bit halves of `a * b + c`, packed into
    /// a u32 arithmetic gate row.
    pub fn mul_add_u32(&mut self, a: U32Target, b: U32Target, c: U32Target) -> (r: Result<
        (U32Target, U32Target),
        CircuitError,
    >)
        requires
            old(self).wf(),
            old(self).connectable(a.0),
            old(self).connectable(b.0),
            old(self).connectable(c.0),
            old(self).config.num_routed_wires >= 6,
            old(self).config.num_wires >= 38,
            old(self).config.max_degree >= 4,
        ensures
            final(self).wf(),
            builder_extends(old(self).view_of(), final(self).view_of()),
            final(self).config == old(self).config,
            final(self).public_inputs == old(self).public_inputs,
            final(self).finalized == old(self).finalized,
            final(self).num_virtual == old(self).num_virtual,
            old(self).gates@.len() <= final(self).gates@.len(),
            final(self).gates@.len() <= old(self).gates@.len() + 1,
            match r {
                Ok(pair) => {
                    &&& !old(self).finalized
                    &&& final(self).connectable(pair.0.0)
                    &&& final(self).connectable(pair.1.0)
                    &&& (pair.0.0 matches Target::Wire { row, column } && {
                        &&& row < final(self).gates@.len()
                        &&& column >= 3
                        &&& (column - 3) % 6 == 0
                        &&& pair.1.0 == (Target::Wire { row, column: (column + 1) as usize })
                        &&& (final(self).gates@[row as int] matches GateKind::U32Arithmetic(g)
                            && (column - 3) / 6 < g.num_ops)
                        &&& final(self).copy_constraints@ == old(self).copy_constraints@ + seq![
                            (a.0, Target::Wire { row, column: (column - 3) as usize }),
                            (b.0, Target::Wire { row, column: (column - 2) as usize }),
                            (c.0, Target::Wire { row, column: (column - 1) as usize }),
                        ]
                    })
                    &&& u32_mul_add_recorded(final(self).view_of(), a.0, b.0, c.0, pair.0.0, pair.1.0)
                },
                Err(e) => {
                    &&& *final(self) == *old(self)
                    &&& (e == CircuitError::BuilderAlreadyFinalized && old(self).finalized || e
                        == CircuitError::RowOverflow && !old(self).finalized && !old(
                        self,
                    ).u32_slot_free() && old(self).gates@.len() >= 0xFFFF)
                },
            },
    {
        if self.finalized {
            return Err(CircuitError::BuilderAlreadyFinalized);
        }
        let mut row: usize = 0;
        let mut op: usize = 0;
        let mut have_slot = false;
        match self.u32_slot {
            Some((r0, used)) => {
                if let GateKind::U32Arithmetic(g) = self.gates[r0] {
                    if used < g.num_ops {
                        row = r0;
                        op = used;
                        have_slot = true;
                    }
                } else {
                    proof {
                        assert(false);
                    }
                }
            },
            None => {},
        }
        if !have_slot {
            let g = U32ArithmeticGate::new_from_config(&self.config);
            proof {
                vstd::arithmetic::div_mod::lemma_fundamental_div_mod(
                    self.config.num_wires as int,
                    38,
                );
                vstd::arithmetic::div_mod::lemma_mod_bound(self.config.num_wires as int, 38);
                vstd::arithmetic::div_mod::lemma_fundamental_div_mod(
                    self.config.num_routed_wires as int,
                    6,
                );
                vstd::arithmetic::div_mod::lemma_mod_bound(self.config.num_routed_wires as int, 6);
                if U32ArithmeticGate::spec_num_ops(self.config)
                    == self.config.num_wires as int / 38 {
                    vstd::arithmetic::mul::lemma_mul_inequality(
                        U32ArithmeticGate::spec_num_ops(self.config),
                        self.config.num_wires as int / 38,
                        38,
                    );
                } else {
                    vstd::arithmetic::mul::lemma_mul_inequality(
                        U32ArithmeticGate::spec_num_ops(self.config),
                        self.config.num_routed_wires as int / 6,
                        38,
                    );
                }
            }
            let nr = match self.add_gate(GateKind::U32Arithmetic(g)) {
                Ok(nr) => nr,
                Err(e) => {
                    return Err(e);
                },
            };
            row = nr;
            op = 0;
        }
        let ghost mid = *self;
        if let Err(e) = self.connect(a.0, Target::Wire { row, column: 6 * op }) {
            proof {
                assert(false);
            }
            return Err(e);
        }
        if let Err(e) = self.connect(b.0, Target::Wire { row, column: 6 * op + 1 }) {
            proof {
                assert(false);
            }
            return Err(e);
        }
        if let Err(e) = self.connect(c.0, Target::Wire { row, column: 6 * op + 2 }) {
            proof {
                assert(false);
            }
            return Err(e);
        }
        self.u32_slot = Some((row, op + 1));
        proof {
            assert(self.copy_constraints@ =~= mid.copy_constraints@ + seq![
                (a.0, Target::Wire { row, column: (6 * op) as usize }),
                (b.0, Target::Wire { row, column: (6 * op + 1) as usize }),
                (c.0, Target::Wire { row, column: (6 * op + 2) as usize }),
            ]);
            let v = self.view_of();
            let base = mid.copy_constraints@.len() as int;
            assert(v.copy_constraints[base] == (a.0, Target::Wire {
                row,
                column: (6 * op) as usize,
            }));
            assert(v.copy_constraints[base + 1] == (b.0, Target::Wire {
                row,
                column: (6 * op + 1) as usize,
            }));
            assert(v.copy_constraints[base + 2] == (c.0, Target::Wire {
                row,
                column: (6 * op + 2) as usize,
            }));
            assert(has_edge(v.copy_constraints, a.0, Target::Wire {
                row,
                column: (6 * op) as usize,
            }));
            assert(has_edge(v.copy_constraints, b.0, Target::Wire {
                row,
                column: (6 * op + 1) as usize,
            }));
            assert(has_edge(v.copy_constraints, c.0, Target::Wire {
                row,
                column: (6 * op + 2) as usize,
            }));
        }
        Ok(
            (
                U32Target(Target::Wire { row, column: 6 * op + 3 }),
                U32Target(Target::Wire { row, column: 6 * op + 4 }),
            ),
        )
    }

    /// The constant target for a 32-bit value.
    pub fn constant_u32(&mut self, v: u32) -> (r: Result<U32Target, CircuitError>)
        requires
            old(self).wf(),
        ensures
            final(self).wf(),
            builder_extends(old(self).view_of(), final(self).view_of()),
            final(self).config == old(self).config,
            final(self).gates == old(self).gates,
            final(self).copy_constraints == old(self).copy_constraints,
            final(self).public_inputs == old(self).public_inputs,
            final(self).finalized == old(self).finalized,
            final(self).arith_slot == old(self).arith_slot,
            final(self).u32_slot == old(self).u32_slot,
            old(self).num_virtual <= final(self).num_virtual,
            final(self).num_virtual <= old(self).num_virtual + 1,
            match r {
                Ok(t) => !old(self).finalized && final(self).connectable(t.0)
                    && constant_recorded(final(self).view_of(), v as u64, t.0)
                    && spec_const_lookup(final(self).constants@, v as u64) == Some(t.0),
                Err(e) => *final(self) == *old(self) && (e
                    == CircuitError::BuilderAlreadyFinalized && old(self).finalized || e
                    == CircuitError::AllocationExhausted && !old(self).finalized && (
                    spec_const_lookup(old(self).constants@, v as u64) is None) && old(
                    self,
                ).num_virtual >= 0x10000),
            },
    {
        match self.constant(FieldElem { value: v as u64 }) {
            Ok(t) => Ok(U32Target(t)),
            Err(e) => Err(e),
        }
    }

    /// The constant u32 target for zero.
    pub fn zero_u32(&mut self) -> (r: Result<U32Target, CircuitError>)
        requires
            old(self).wf(),
        ensures
            final(self).wf(),
            builder_extends(old(self).view_of(), final(self).view_of()),
            final(self).config == old(self).config,
            final(self).gates == old(self).gates,
            final(self).copy_constraints == old(self).copy_constraints,
            final(self).public_inputs == old(self).public_inputs,
            final(self).finalized == old(self).finalized,
            final(self).arith_slot == old(self).arith_slot,
            final(self).u32_slot == old(self).u32_slot,
            old(self).num_virtual <= final(self).num_virtual,
            final(self).num_virtual <= old(self).num_virtual + 1,
            match r {
                Ok(t) => !old(self).finalized && final(self).connectable(t.0)
                    && constant_recorded(final(self).view_of(), 0, t.0)
                    && spec_const_lookup(final(self).constants@, 0) == Some(t.0),
                Err(e) => *final(self) == *old(self) && (e
                    == CircuitError::BuilderAlreadyFinalized && old(self).finalized || e
                    == CircuitError::AllocationExhausted && !old(self).finalized && (
                    spec_const_lookup(old(self).constants@, 0) is None) && old(
                    self,
                ).num_virtual >= 0x10000),
            },
    {
        self.constant_u32(0)
    }

    /// Range-checks `x` to `n_bits` bits: a base-2 decomposition gate whose
    /// sum wire is copy-constrained to `x`.
    pub fn range_check(&mut self, x: Target, n_bits: usize) -> (r: Result<(), CircuitError>)
        requires
            old(self).wf(),
            old(self).connectable(x),
            1 <= n_bits <= 64,
            old(self).config.max_degree >= 2,
        ensures
            final(self).wf(),
            builder_extends(old(self).view_of(), final(self).view_of()),
            final(self).config == old(self).config,
            final(self).num_virtual == old(self).num_virtual,
            final(self).public_inputs == old(self).public_inputs,
            old(self).gates@.len() <= final(self).gates@.len(),
            match r {
                Ok(()) => {
                    &&& !old(self).finalized
                    &&& final(self).gates@ == old(self).gates@.push(
                        GateKind::BaseSum(BaseSumGate { base: 2, num_limbs: n_bits }),
                    )
                    &&& final(self).copy_constraints@ == old(self).copy_constraints@.push(
                        (x, Target::Wire { row: old(self).gates@.len() as usize, column: 0 }),
                    )
                    &&& final(self).generators@ == old(self).generators@ + spec_gate_generators(
                        GateKind::BaseSum(BaseSumGate { base: 2, num_limbs: n_bits }),
                        old(self).gates@.len() as usize,
                    )
                    &&& base_sum_split_recorded(
                        final(self).view_of(),
                        2,
                        n_bits,
                        x,
                        old(self).gates@.len() as usize,
                    )
                },
                Err(e) => {
                    &&& *final(self) == *old(self)
                    &&& (e == CircuitError::BuilderAlreadyFinalized && old(self).finalized || e
                        == CircuitError::RowOverflow && !old(self).finalized && (old(
                        self,
                    ).gates@.len() >= 0xFFFF || 1 + n_bits > old(self).config.num_wires))
                },
            },
    {
        let gate = BaseSumGate::new(2, n_bits);
        let row = match self.add_gate(GateKind::BaseSum(gate)) {
            Ok(row) => row,
            Err(e) => {
                return Err(e);
            },
        };
        match self.connect(x, Target::Wire { row, column: 0 }) {
            Ok(()) => {
                proof {
                    let v = self.view_of();
                    assert(v.copy_constraints[v.copy_constraints.len() - 1] == (
                        x,
                        Target::Wire { row, column: 0 },
                    ));
                    assert(has_edge(v.copy_constraints, x, Target::Wire { row, column: 0 }));
                    assert(v.gates[row as int] == GateKind::BaseSum(gate));
                    assert(v.generators[v.generators.len() - 1] == (Generator::BaseSplit {
                        gate,
                        row,
                    }));
                }
                Ok(())
            },
            Err(e) => {
                proof {
                    assert(false);
                }
                Err(e)
            },
        }
    }

    /// The constant target for zero.
    pub fn zero(&mut self) -> (r: Result<Target, CircuitError>)
        requires
            old(self).wf(),
        ensures
            final(self).wf(),
            builder_extends(old(self).view_of(), final(self).view_of()),
            final(self).config == old(self).config,
            final(self).gates == old(self).gates,
            final(self).copy_constraints == old(self).copy_constraints,
            final(self).public_inputs == old(self).public_inputs,
            final(self).finalized == old(self).finalized,
            final(self).arith_slot == old(self).arith_slot,
            final(self).u32_slot == old(self).u32_slot,
            old(self).num_virtual <= final(self).num_virtual,
            final(self).num_virtual <= old(self).num_virtual + 1,
            match r {
                Ok(t) => !old(self).finalized && final(self).connectable(t)
                    && constant_recorded(final(self).view_of(), 0, t)
                    && spec_const_lookup(final(self).constants@, 0) == Some(t),
                Err(e) => *final(self) == *old(self) && (e
                    == CircuitError::BuilderAlreadyFinalized && old(self).finalized || e
                    == CircuitError::AllocationExhausted && !old(self).finalized && (
                    spec_const_lookup(old(self).constants@, 0) is None) && old(
                    self,
                ).num_virtual >= 0x10000),
            },
    {
        self.constant(FieldElem::zero())
    }

    /// The constant target for one.
    pub fn one(&mut self) -> (r: Result<Target, CircuitError>)
        requires
            old(self).wf(),
        ensures
            final(self).wf(),
            builder_extends(old(self).view_of(), final(self).view_of()),
            final(self).config == old(self).config,
            final(self).gates == old(self).gates,
            final(self).copy_constraints == old(self).copy_constraints,
            final(self).public_inputs == old(self).public_inputs,
            final(self).finalized == old(self).finalized,
            final(self).arith_slot == old(self).arith_slot,
            final(self).u32_slot == old(self).u32_slot,
            old(self).num_virtual <= final(self).num_virtual,
            final(self).num_virtual <= old(self).num_virtual + 1,
            match r {
                Ok(t) => !old(self).finalized && final(self).connectable(t)
                    && constant_recorded(final(self).view_of(), 1, t)
                    && spec_const_lookup(final(self).constants@, 1) == Some(t),
                Err(e) => *final(self) == *old(self) && (e
                    == CircuitError::BuilderAlreadyFinalized && old(self).finalized || e
                    == CircuitError::AllocationExhausted && !old(self).finalized && (
                    spec_const_lookup(old(self).constants@, 1) is None) && old(
                    self,
                ).num_virtual >= 0x10000),
            },
    {
        self.constant(FieldElem::one())
    }

    /// The constant target for two.
    pub fn two(&mut self) -> (r: Result<Target, CircuitError>)
        requires
            old(self).wf(),
        ensures
            final(self).wf(),
            builder_extends(old(self).view_of(), final(self).view_of()),
            final(self).config == old(self).config,
            final(self).gates == old(self).gates,
            final(self).copy_constraints == old(self).copy_constraints,
            final(self).public_inputs == old(self).public_inputs,
            final(self).finalized == old(self).finalized,
            final(self).arith_slot == old(self).arith_slot,
            final(self).u32_slot == old(self).u32_slot,
            old(self).num_virtual <= final(self).num_virtual,
            final(self).num_virtual <= old(self).num_virtual + 1,
            match r {
                Ok(t) => !old(self).finalized && final(self).connectable(t)
                    && constant_recorded(final(self).view_of(), 2, t)
                    && spec_const_lookup(final(self).constants@, 2) == Some(t),
                Err(e) => *final(self) == *old(self) && (e
                    == CircuitError::BuilderAlreadyFinalized && old(self).finalized || e
                    == CircuitError::AllocationExhausted && !old(self).finalized && (
                    spec_const_lookup(old(self).constants@, 2) is None) && old(
                    self,
                ).num_virtual >= 0x10000),
            },
    {
        self.constant(FieldElem { value: 2 })
    }

    /// The boolean target that is always false.
    pub fn _false(&mut self) -> (r: Result<BoolTarget, CircuitError>)
        requires
            old(self).wf(),
        ensures
            final(self).wf(),
            builder_extends(old(self).view_of(), final(self).view_of()),
            final(self).config == old(self).config,
            final(self).gates == old(self).gates,
            final(self).copy_constraints == old(self).copy_constraints,
            final(self).public_inputs == old(self).public_inputs,
            final(self).finalized == old(self).finalized,
            final(self).arith_slot == old(self).arith_slot,
            final(self).u32_slot == old(self).u32_slot,
            old(self).num_virtual <= final(self).num_virtual,
            final(self).num_virtual <= old(self).num_virtual + 1,
            match r {
                Ok(t) => !old(self).finalized && final(self).connectable(t.target)
                    && constant_recorded(final(self).view_of(), 0, t.target)
                    && spec_const_lookup(final(self).constants@, 0) == Some(t.target),
                Err(e) => *final(self) == *old(self) && (e
                    == CircuitError::BuilderAlreadyFinalized && old(self).finalized || e
                    == CircuitError::AllocationExhausted && !old(self).finalized && (
                    spec_const_lookup(old(self).constants@, 0) is None) && old(
                    self,
                ).num_virtual >= 0x10000),
            },
    {
        match self.zero() {
            Ok(t) => Ok(BoolTarget::from_target(t)),
            Err(e) => Err(e),
        }
    }

    /// The boolean target that is always true.
    pub fn _true(&mut self) -> (r: Result<BoolTarget, CircuitError>)
        requires
            old(self).wf(),
        ensures
            final(self).wf(),
            builder_extends(old(self).view_of(), final(self).view_of()),
            final(self).config == old(self).config,
            final(self).gates == old(self).gates,
            final(self).copy_constraints == old(self).copy_constraints,
            final(self).public_inputs == old(self).public_inputs,
            final(self).finalized == old(self).finalized,
            final(self).arith_slot == old(self).arith_slot,
            final(self).u32_slot == old(self).u32_slot,
            old(self).num_virtual <= final(self).num_virtual,
            final(self).num_virtual <= old(self).num_virtual + 1,
            match r {
                Ok(t) => !old(self).finalized && final(self).connectable(t.target)
                    && constant_recorded(final(self).view_of(), 1, t.target)
                    && spec_const_lookup(final(self).constants@, 1) == Some(t.target),
                Err(e) => *final(self) == *old(self) && (e
                    == CircuitError::BuilderAlreadyFinalized && old(self).finalized || e
                    == CircuitError::AllocationExhausted && !old(self).finalized && (
                    spec_const_lookup(old(self).constants@, 1) is None) && old(
                    self,
                ).num_virtual >= 0x10000),
            },
    {
        match self.one() {
            Ok(t) => Ok(BoolTarget::from_target(t)),
            Err(e) => Err(e),
        }
    }

    /// The dense number of a target in the grid built so far.
    fn target_index(&self, t: Target) -> (r: usize)
        requires
            self.wf(),
            self.target_in_grid(t),
        ensures
            r == target_index_for(self.gates@.len() as int, self.config.num_wires as int, t),
            r < self.gates@.len() * self.config.num_wires + self.num_virtual,
    {
        proof {
            vstd::arithmetic::mul::lemma_mul_upper_bound(
                self.gates@.len() as int,
                0xFFFF,
                self.config.num_wires as int,
                0xFFFF,
            );
        }
        match t {
            Target::Wire { row, column } => {
                proof {
                    vstd::arithmetic::mul::lemma_mul_inequality(
                        row as int + 1,
                        self.gates@.len() as int,
                        self.config.num_wires as int,
                    );
                    vstd::arithmetic::mul::lemma_mul_is_distributive_add_other_way(
                        self.config.num_wires as int,
                        row as int,
                        1,
                    );
                    vstd::arithmetic::mul::lemma_mul_is_commutative(
                        row as int + 1,
                        self.config.num_wires as int,
                    );
                    vstd::arithmetic::mul::lemma_mul_is_commutative(
                        self.gates@.len() as int,
                        self.config.num_wires as int,
                    );
                    vstd::arithmetic::mul::lemma_mul_nonnegative(
                        row as int,
                        self.config.num_wires as int,
                    );
                }
                row * self.config.num_wires + column
            },
            Target::Virtual { index } => self.gates.len() * self.config.num_wires + index,
        }
    }

    /// Pads one partially used packed row: the unused operations' input
    /// wires receive constant-zero generators, so their outputs resolve to
    /// zero and the row's constraints hold.
    fn fill_row(&mut self, row: usize, used: usize, num_ops: usize, stride: usize) -> (r: Result<
        (),
        CircuitError,
    >)
        requires
            old(self).wf(),
            !old(self).finalized,
            row < old(self).gates@.len(),
            used <= num_ops,
            stride >= 3,
            stride * num_ops <= old(self).config.num_wires,
            num_ops <= 0x4000,
            stride <= 6,
        ensures
            final(self).wf(),
            r is Ok,
            !final(self).finalized,
            final(self).config == old(self).config,
            final(self).gates == old(self).gates,
            final(self).copy_constraints == old(self).copy_constraints,
            final(self).public_inputs == old(self).public_inputs,
            final(self).num_virtual == old(self).num_virtual,
            final(self).bound == old(self).bound,
            final(self).arith_slot == old(self).arith_slot,
            final(self).u32_slot == old(self).u32_slot,
            final(self).constants == old(self).constants,
            final(self).generators@.len() >= old(self).generators@.len(),
            forall|k: int|
                0 <= k < old(self).generators@.len() ==> #[trigger] final(self).generators@[k]
                    == old(self).generators@[k],
    {
        let z = FieldElem::zero();
        for j in used..num_ops
            invariant
                self.wf(),
                !self.finalized,
                row < self.gates@.len(),
                used <= num_ops,
                3 <= stride <= 6,
                stride * num_ops <= self.config.num_wires,
                num_ops <= 0x4000,
                self.config == old(self).config,
                self.gates == old(self).gates,
                self.copy_constraints == old(self).copy_constraints,
                self.public_inputs == old(self).public_inputs,
                self.num_virtual == old(self).num_virtual,
                self.bound == old(self).bound,
                self.arith_slot == old(self).arith_slot,
                self.u32_slot == old(self).u32_slot,
                self.constants == old(self).constants,
                self.generators@.len() >= old(self).generators@.len(),
                forall|k: int|
                    0 <= k < old(self).generators@.len() ==> #[trigger] self.generators@[k] == old(
                        self,
                    ).generators@[k],
                z == (FieldElem { value: 0 }),
        {
            proof {
                assert(stride * j + 2 < stride * num_ops) by (nonlinear_arith)
                    requires
                        3 <= stride,
                        j < num_ops;
            }
            let mut c: usize = 0;
            while c < 3
                invariant
                    c <= 3,
                    self.wf(),
                    !self.finalized,
                    row < self.gates@.len(),
                    used <= num_ops,
                    3 <= stride <= 6,
                    stride * num_ops <= self.config.num_wires,
                    num_ops <= 0x4000,
                    j < num_ops,
                    stride * j + 2 < self.config.num_wires,
                    self.config == old(self).config,
                    self.gates == old(self).gates,
                    self.copy_constraints == old(self).copy_constraints,
                    self.public_inputs == old(self).public_inputs,
                    self.num_virtual == old(self).num_virtual,
                    self.bound == old(self).bound,
                    self.arith_slot == old(self).arith_slot,
                    self.u32_slot == old(self).u32_slot,
                    self.constants == old(self).constants,
                    self.generators@.len() >= old(self).generators@.len(),
                    forall|k: int|
                        0 <= k < old(self).generators@.len() ==> #[trigger] self.generators@[k]
                            == old(self).generators@[k],
                    z == (FieldElem { value: 0 }),
                decreases 3 - c,
            {
                let g = Generator::Constant {
                    target: Target::Wire { row, column: stride * j + c },
                    value: z,
                };
                match self.add_simple_generator(g) {
                    Ok(()) => {},
                    Err(_) => {
                        proof {
                            assert(false);
                        }
                    },
                }
                c = c + 1;
            }
        }
        Ok(())
    }

    /// Finalizes the circuit description.
    ///
    /// Validates that every declared public input is bound, pads the
    /// partially used packed rows with zero constants, computes the copy
    /// class of every target, and returns the immutable layout together
    /// with the generator set the scheduler needs.  Afterwards the builder
    /// accepts no further mutation.
    ///
    /// In the returned layout, the two ends of every copy constraint share
    /// one representative slot, and every target is copy-connected to its
    /// representative's target.
    pub fn finalize(&mut self) -> (r: Result<(Layout, GeneratorSet), CircuitError>)
        requires
            old(self).wf(),
        ensures
            final(self).wf(),
            match r {
                Ok(pair) => {
                    &&& !old(self).finalized
                    &&& final(self).finalized
                    &&& pair.0.wf()
                    &&& pair.1.wf(pair.0)
                    &&& pair.0.config == old(self).config
                    &&& pair.0.gates@ == old(self).gates@
                    &&& pair.0.copy_constraints@ == old(self).copy_constraints@
                    &&& pair.0.public_inputs@ == old(self).public_inputs@
                    &&& pair.0.num_virtual == old(self).num_virtual
                    &&& pair.1.generators@.len() >= old(self).generators@.len()
                    &&& forall|k: int|
                        0 <= k < old(self).generators@.len() ==> #[trigger] pair.1.generators@[k]
                            == old(self).generators@[k]
                    &&& forall|i: int|
                        0 <= i < pair.0.spec_num_targets() ==> connected(
                            pair.0.copy_constraints@,
                            pair.0.spec_index_target(i),
                            #[trigger] pair.0.spec_index_target(pair.0.rep@[i] as int),
                        )
                },
                Err(e) => {
                    &&& *final(self) == *old(self)
                    &&& (e == CircuitError::BuilderAlreadyFinalized && old(self).finalized || e
                        == CircuitError::UnboundPublicInput && !old(self).finalized && exists|k: int|
                        0 <= k < old(self).public_inputs@.len() && ((#[trigger] old(
                            self,
                        ).public_inputs@[k]) matches Target::Virtual { index } && !old(
                            self,
                        ).bound@[index as int]))
                },
            },
    {
        if self.finalized {
            return Err(CircuitError::BuilderAlreadyFinalized);
        }
        let np = self.public_inputs.len();
        for k in 0..np
            invariant
                old(self).wf(),
                !old(self).finalized,
                *self == *old(self),
                np == self.public_inputs@.len(),
                forall|m: int|
                    0 <= m < k ==> !((#[trigger] self.public_inputs@[m]) matches Target::Virtual {
                        index,
                    } && !self.bound@[index as int]),
        {
            let t = self.public_inputs[k];
            match t {
                Target::Virtual { index } => {
                    if !self.bound[index] {
                        return Err(CircuitError::UnboundPublicInput);
                    }
                },
                _ => {},
            }
        }
        match self.arith_slot {
            Some((row, used)) => {
                if let GateKind::Arithmetic(g) = self.gates[row] {
                    let res = self.fill_row(row, used, g.num_ops, 4);
                    proof {
                        assert(res is Ok);
                    }
                } else {
                    proof {
                        assert(false);
                    }
                }
            },
            None => {},
        }
        match self.u32_slot {
            Some((row, used)) => {
                if let GateKind::U32Arithmetic(g) = self.gates[row] {
                    proof {
                        assert(6 * g.num_ops <= 38 * g.num_ops) by (nonlinear_arith)
                            requires
                                g.num_ops >= 0;
                    }
                    let res = self.fill_row(row, used, g.num_ops, 6);
                    proof {
                        assert(res is Ok);
                    }
                } else {
                    proof {
                        assert(false);
                    }
                }
            },
            None => {},
        }
        self.arith_slot = None;
        self.u32_slot = None;
        let num_wires = self.config.num_wires;
        let rows = self.gates.len();
        let ghost rows_i = rows as int;
        let ghost w_i = num_wires as int;
        let ghost nv_i = self.num_virtual as int;
        let ghost edges = self.copy_constraints@;
        proof {
            vstd::arithmetic::mul::lemma_mul_upper_bound(rows_i, 0xFFFF, w_i, 0xFFFF);
            vstd::arithmetic::mul::lemma_mul_nonnegative(rows_i, w_i);
        }
        let total = rows * num_wires + self.num_virtual;
        let ne = self.copy_constraints.len();
        let mut idx_edges: Vec<(usize, usize)> = Vec::new();
        for k in 0..ne
            invariant
                self.wf(),
                ne == self.copy_constraints@.len(),
                rows == self.gates@.len(),
                num_wires == self.config.num_wires,
                rows_i == rows as int,
                w_i == num_wires as int,
                nv_i == self.num_virtual as int,
                edges == self.copy_constraints@,
                total == rows_i * w_i + nv_i,
                idx_edges@.len() == k,
                forall|m: int|
                    0 <= m < k ==> (#[trigger] idx_edges@[m]).0 as int == target_index_for(
                        rows_i,
                        w_i,
                        edges[m].0,
                    ) && idx_edges@[m].1 as int == target_index_for(rows_i, w_i, edges[m].1),
                forall|m: int|
                    0 <= m < k ==> (#[trigger] idx_edges@[m]).0 < total && idx_edges@[m].1 < total,
        {
            let e = self.copy_constraints[k];
            let ia = self.target_index(e.0);
            let ib = self.target_index(e.1);
            idx_edges.push((ia, ib));
        }
        let mut rep: Vec<usize> = Vec::new();
        for i in 0..total
            invariant
                rep@.len() == i,
                forall|m: int| 0 <= m < i ==> (#[trigger] rep@[m]) == m,
        {
            rep.push(i);
        }
        proof {
            assert forall|i: int| 0 <= i < total implies connected(
                edges,
                index_target_for(rows_i, w_i, i),
                index_target_for(rows_i, w_i, rep@[i] as int),
            ) by {
                lemma_connected_refl(edges, index_target_for(rows_i, w_i, i));
            }
            lemma_seq_usize_sum_nonneg(rep@);
        }
        loop
            invariant_except_break
                self.wf(),
                ne == self.copy_constraints@.len(),
                ne == idx_edges@.len(),
                rows == self.gates@.len(),
                num_wires == self.config.num_wires,
                rows_i == rows as int,
                w_i == num_wires as int,
                nv_i == self.num_virtual as int,
                edges == self.copy_constraints@,
                total == rows_i * w_i + nv_i,
                forall|m: int|
                    0 <= m < ne ==> (#[trigger] idx_edges@[m]).0 as int == target_index_for(
                        rows_i,
                        w_i,
                        edges[m].0,
                    ) && idx_edges@[m].1 as int == target_index_for(rows_i, w_i, edges[m].1),
                forall|m: int|
                    0 <= m < ne ==> (#[trigger] idx_edges@[m]).0 < total && idx_edges@[m].1
                        < total,
                rep@.len() == total,
                forall|m: int| 0 <= m < total ==> (#[trigger] rep@[m]) < total,
                forall|i: int|
                    0 <= i < total ==> connected(
                        edges,
                        index_target_for(rows_i, w_i, i),
                        index_target_for(rows_i, w_i, (#[trigger] rep@[i]) as int),
                    ),
            ensures
                rep@.len() == total,
                forall|m: int| 0 <= m < total ==> (#[trigger] rep@[m]) < total,
                forall|i: int|
                    0 <= i < total ==> connected(
                        edges,
                        index_target_for(rows_i, w_i, i),
                        index_target_for(rows_i, w_i, (#[trigger] rep@[i]) as int),
                    ),
                forall|m: int|
                    0 <= m < ne ==> rep@[(#[trigger] idx_edges@[m]).0 as int] == rep@[idx_edges@[m].1 as int],
                self.wf(),
                edges == self.copy_constraints@,
                rows == self.gates@.len(),
                num_wires == self.config.num_wires,
                nv_i == self.num_virtual as int,
            decreases seq_usize_sum(rep@),
        {
            let mut changed = false;
            let ghost rep_enter = rep@;
            for k in 0..ne
                invariant
                    self.wf(),
                    ne == self.copy_constraints@.len(),
                    ne == idx_edges@.len(),
                    rows == self.gates@.len(),
                    num_wires == self.config.num_wires,
                    rows_i == rows as int,
                    w_i == num_wires as int,
                    nv_i == self.num_virtual as int,
                    edges == self.copy_constraints@,
                    total == rows_i * w_i + nv_i,
                    forall|m: int|
                        0 <= m < ne ==> (#[trigger] idx_edges@[m]).0 as int == target_index_for(
                            rows_i,
                            w_i,
                            edges[m].0,
                        ) && idx_edges@[m].1 as int == target_index_for(rows_i, w_i, edges[m].1),
                    forall|m: int|
                        0 <= m < ne ==> (#[trigger] idx_edges@[m]).0 < total && idx_edges@[m].1
                            < total,
                    rep@.len() == total,
                    forall|m: int| 0 <= m < total ==> (#[trigger] rep@[m]) < total,
                    forall|i: int|
                        0 <= i < total ==> connected(
                            edges,
                            index_target_for(rows_i, w_i, i),
                            index_target_for(rows_i, w_i, (#[trigger] rep@[i]) as int),
                        ),
                    seq_usize_sum(rep@) <= seq_usize_sum(rep_enter),
                    changed ==> seq_usize_sum(rep@) < seq_usize_sum(rep_enter),
                    !changed ==> rep@ == rep_enter,
                    !changed ==> forall|m: int|
                        0 <= m < k ==> rep@[(#[trigger] idx_edges@[m]).0 as int]
                            == rep@[idx_edges@[m].1 as int],
            {
                let pair = idx_edges[k];
                let ia = pair.0;
                let ib = pair.1;
                let ra = rep[ia];
                let rb = rep[ib];
                if ra < rb || rb < ra {
                    let ghost e0 = edges[k as int].0;
                    let ghost e1 = edges[k as int].1;
                    proof {
                        assert(self.connectable(e0) && self.connectable(e1));
                        lemma_index_target_roundtrip(rows_i, w_i, nv_i, e0);
                        lemma_index_target_roundtrip(rows_i, w_i, nv_i, e1);
                        assert(edge_between(edges, e0, e1)) by {
                            assert((edges[k as int].0 == e0 && edges[k as int].1 == e1));
                        }
                        lemma_connected_edge(edges, e0, e1);
                        lemma_connected_sym(edges, e0, e1);
                    }
                    if ra < rb {
                        proof {
                            lemma_seq_usize_sum_update(rep@, ib as int, ra);
                            lemma_connected_trans(
                                edges,
                                e1,
                                e0,
                                index_target_for(rows_i, w_i, ra as int),
                            );
                        }
                        rep.set(ib, ra);
                        changed = true;
                        proof {
                            assert forall|i: int| 0 <= i < total implies connected(
                                edges,
                                index_target_for(rows_i, w_i, i),
                                index_target_for(rows_i, w_i, (#[trigger] rep@[i]) as int),
                            ) by {
                                if i != ib {
                                    assert(rep@[i] == rep_enter.update(ib as int, ra)[i]
                                        || true);
                                }
                            }
                        }
                    } else {
                        proof {
                            lemma_seq_usize_sum_update(rep@, ia as int, rb);
                            lemma_connected_trans(
                                edges,
                                e0,
                                e1,
                                index_target_for(rows_i, w_i, rb as int),
                            );
                        }
                        rep.set(ia, rb);
                        changed = true;
                    }
                }
            }
            if !changed {
                break ;
            }
            proof {
                lemma_seq_usize_sum_nonneg(rep@);
            }
        }
        let mut copies: Vec<(Target, Target)> = Vec::new();
        for k in 0..ne
            invariant
                ne == self.copy_constraints@.len(),
                copies@.len() == k,
                forall|m: int| 0 <= m < k ==> #[trigger] copies@[m] == self.copy_constraints@[m],
        {
            copies.push(self.copy_constraints[k]);
        }
        proof {
            assert(copies@ =~= self.copy_constraints@);
        }
        let layout = Layout {
            config: self.config,
            gates: self.gates.clone(),
            copy_constraints: copies,
            public_inputs: self.public_inputs.clone(),
            num_virtual: self.num_virtual,
            rep,
        };
        proof {
            assert(layout.gates@ =~= self.gates@);
            assert(layout.public_inputs@ =~= self.public_inputs@);
            assert(layout.wf()) by {
                assert forall|k: int| 0 <= k < layout.copy_constraints.len() implies layout.spec_rep_of(
                    (#[trigger] layout.copy_constraints@[k]).0,
                ) == layout.spec_rep_of(layout.copy_constraints@[k].1) by {
                    assert(idx_edges@[k].0 as int == target_index_for(rows_i, w_i, edges[k].0));
                    assert(idx_edges@[k].1 as int == target_index_for(rows_i, w_i, edges[k].1));
                    assert(layout.rep@[idx_edges@[k].0 as int] == layout.rep@[idx_edges@[k].1 as int]);
                }
            }
        }
        let mut gens_taken: Vec<Generator> = Vec::new();
        core::mem::swap(&mut self.generators, &mut gens_taken);
        let mut consts_taken: Vec<(u64, Target)> = Vec::new();
        core::mem::swap(&mut self.constants, &mut consts_taken);
        self.finalized = true;
        let gen_set = GeneratorSet { generators: gens_taken };
        proof {
            assert(self.wf()) by {
                assert(generators_fit(
                    self.generators@,
                    self.gates.len() as int,
                    self.config.num_wires as int,
                    self.num_virtual as int,
                ));
                assert(constants_tied(self.constants@, self.generators@));
            }
            assert(gen_set.wf(layout)) by {
                assert forall|k: int| 0 <= k < gen_set.generators.len() implies (
                #[trigger] gen_set.generators[k as int]).wf(layout) by {
                    assert(gen_set.generators@[k].wf_for(rows_i, w_i, nv_i));
                }
            }
        }
        Ok((layout, gen_set))
    }
}




/// The generators a gate contributes when placed fit the grid that holds
/// its row.
proof fn lemma_gate_generators_fit(kind: GateKind, row: usize, rows: int, num_wires: int, nv: int)
    requires
        kind.wf(),
        row < rows,
        kind.spec_num_wires() <= num_wires,
    ensures
        generators_fit(spec_gate_generators(kind, row), rows, num_wires, nv),
{
    assert forall|k: int| 0 <= k < spec_gate_generators(kind, row).len() implies (
    #[trigger] spec_gate_generators(kind, row)[k]).wf_for(rows, num_wires, nv) by {
        match kind {
            GateKind::Arithmetic(g) => {
                assert(spec_gate_generators(kind, row)[k] == (Generator::ArithmeticOp {
                    gate: g,
                    row,
                    i: k as usize,
                }));
            },
            GateKind::U32Arithmetic(g) => {
                assert(spec_gate_generators(kind, row)[k] == (Generator::U32ArithmeticOp {
                    gate: g,
                    row,
                    i: k as usize,
                }));
            },
            GateKind::Comparison(g) => {},
            GateKind::BaseSum(g) => {},
        }
    }
}


/// The sum of a sequence of machine words.
pub open spec fn seq_usize_sum(s: Seq<usize>) -> int
    decreases s.len(),
{
    if s.len() == 0 {
        0
    } else {
        s[0] + seq_usize_sum(s.skip(1))
    }
}

/// The sum of machine words is never negative.
proof fn lemma_seq_usize_sum_nonneg(s: Seq<usize>)
    ensures
        seq_usize_sum(s) >= 0,
    decreases s.len(),
{
    if s.len() > 0 {
        lemma_seq_usize_sum_nonneg(s.skip(1));
    }
}

/// Updating one entry changes the sum by the difference at that entry.
proof fn lemma_seq_usize_sum_update(s: Seq<usize>, i: int, v: usize)
    requires
        0 <= i < s.len(),
    ensures
        seq_usize_sum(s.update(i, v)) == seq_usize_sum(s) - s[i] + v,
    decreases s.len(),
{
    if i == 0 {
        assert(s.update(0, v).skip(1) =~= s.skip(1));
    } else {
        assert(s.update(i, v).skip(1) =~= s.skip(1).update(i - 1, v));
        lemma_seq_usize_sum_update(s.skip(1), i - 1, v);
    }
}

/// Appending a value to a cache that lacks it makes lookup find it.
proof fn lemma_const_lookup_push(cache: Seq<(u64, Target)>, v: u64, t: Target)
    requires
        spec_const_lookup(cache, v) is None,
    ensures
        spec_const_lookup(cache.push((v, t)), v) == Some(t),
    decreases cache.len(),
{
    if cache.len() == 0 {
        assert(cache.push((v, t))[0] == (v, t));
    } else {
        assert(cache.push((v, t)).skip(1) =~= cache.skip(1).push((v, t)));
        lemma_const_lookup_push(cache.skip(1), v, t);
    }
}

} // verus!
