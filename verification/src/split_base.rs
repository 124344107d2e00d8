//! Base decomposition gadgets over the circuit builder.
//!
//! These methods mirror the splitting helpers used by hash circuits: a
//! target is split into base-`B` limbs through a base-sum gate, or a list
//! of boolean targets is recombined into their little-endian weighted sum.
//! Every method pins the structure it records — the placed gate, the copy
//! constraints, and the attached generators — so the witness semantics of
//! the returned targets follows from the generator specifications.

use vstd::prelude::*;
use crate::builder::{
    base_sum_split_recorded, builder_extends, constant_recorded, has_edge, lemma_builder_extends_trans,
    lemma_recorded_extends, mul_add_recorded, BuilderView, CircuitBuilder,
};
use crate::errors::CircuitError;
use crate::gates::{BaseSumGate, GateKind};
use crate::generator::Generator;
use crate::target::{BoolTarget, Target};

verus! {

/// The structure `le_sum` records for a non-empty bit list that fits the
/// packed arithmetic path: a fold by `out = 2 * acc + bit` through
/// multiply-add operations, starting from the most significant bit, ending
/// in the returned target.
pub open spec fn le_sum_chain_recorded(v: BuilderView, bits: Seq<BoolTarget>, t: Target) -> bool {
    exists|chain: Seq<Target>, two_t: Target|
        #![auto]
        {
            &&& constant_recorded(v, 2, two_t)
            &&& chain.len() == bits.len()
            &&& bits.len() >= 1
            &&& chain[0] == bits[bits.len() - 1].target
            &&& forall|k: int|
                0 <= k < chain.len() - 1 ==> mul_add_recorded(
                    v,
                    two_t,
                    chain[k],
                    bits[bits.len() - 2 - k].target,
                    #[trigger] chain[k + 1],
                )
            &&& t == chain[chain.len() - 1]
        }
}

/// The structure `le_sum` records for a long bit list: one base-2 sum gate
/// row whose limb wires are copy-constrained to the bits (and to a
/// constant zero above them), with a recombination generator writing the
/// sum wire, which is the returned target.
pub open spec fn le_sum_gate_recorded(
    v: BuilderView,
    bits: Seq<BoolTarget>,
    row: usize,
    nl: usize,
    t: Target,
) -> bool {
    &&& row < v.gates.len()
    &&& bits.len() <= nl
    &&& v.gates[row as int] == GateKind::BaseSum(BaseSumGate { base: 2, num_limbs: nl })
    &&& forall|i: int|
        0 <= i < bits.len() ==> has_edge(
            v.copy_constraints,
            (#[trigger] bits[i]).target,
            Target::Wire { row, column: (1 + i) as usize },
        )
    &&& exists|zero_t: Target|
        #![auto]
        constant_recorded(v, 0, zero_t) && forall|l: int|
            bits.len() <= l < nl ==> #[trigger] has_edge(
                v.copy_constraints,
                zero_t,
                Target::Wire { row, column: (1 + l) as usize },
            )
    &&& exists|k: int|
        0 <= k < v.generators.len() && ((#[trigger] v.generators[k]) matches Generator::BaseSum {
            row: r2,
            limbs,
        } && r2 == row && limbs@ == bits)
    &&& t == (Target::Wire { row, column: 0 })
}

/// Builder gadgets for base decomposition and recombination.
pub trait CircuitBuilderSplit {
    /// The builder invariant that every gadget call requires and preserves.
    spec fn gadget_wf(&self) -> bool;

    /// True when the builder accepts copy constraints on `t`.
    spec fn gadget_connectable(&self, t: Target) -> bool;

    /// The recorded state, as one specification value.
    spec fn gadget_state(&self) -> BuilderView;

    /// Packed base arithmetic operations per gate row.
    spec fn spec_base_ops_per_gate(&self) -> int;

    /// Packed extension arithmetic operations per gate row.
    spec fn spec_ext_ops_per_gate(&self) -> int;

    /// Splits `x` into `num_limbs` base-`base` limb targets, little-endian:
    /// places one base-sum gate row, copy-constrains `x` to its sum wire,
    /// and returns the row's limb wires.  The row's split generator makes
    /// the limbs the base digits of `x` in a resolved witness, and the
    /// row's constraints enforce the recombination and range checks.
    fn split_le_base(&mut self, base: usize, x: Target, num_limbs: usize) -> (r: Result<
        Vec<Target>,
        CircuitError,
    >)
        requires
            old(self).gadget_wf(),
            old(self).gadget_connectable(x),
            2 <= base <= 0x100,
            1 <= num_limbs <= 64,
        ensures
            final(self).gadget_wf(),
            builder_extends(old(self).gadget_state(), final(self).gadget_state()),
            match r {
                Ok(limbs) => {
                    &&& !old(self).gadget_state().finalized
                    &&& !final(self).gadget_state().finalized
                    &&& final(self).gadget_state().num_virtual == old(
                        self,
                    ).gadget_state().num_virtual
                    &&& final(self).gadget_state().gates == old(self).gadget_state().gates.push(
                        GateKind::BaseSum(BaseSumGate { base, num_limbs }),
                    )
                    &&& base_sum_split_recorded(
                        final(self).gadget_state(),
                        base,
                        num_limbs,
                        x,
                        old(self).gadget_state().gates.len() as usize,
                    )
                    &&& limbs@.len() == num_limbs
                    &&& forall|k: int|
                        0 <= k < num_limbs ==> #[trigger] limbs@[k] == (Target::Wire {
                            row: old(self).gadget_state().gates.len() as usize,
                            column: (1 + k) as usize,
                        })
                    &&& forall|k: int|
                        0 <= k < limbs@.len() ==> final(self).gadget_connectable(
                            #[trigger] limbs@[k],
                        )
                },
                Err(e) => {
                    &&& final(self).gadget_state() == old(self).gadget_state()
                    &&& (e == CircuitError::BuilderAlreadyFinalized && old(
                        self,
                    ).gadget_state().finalized || e == CircuitError::RowOverflow && !old(
                        self,
                    ).gadget_state().finalized && (num_limbs + 1 > old(
                        self,
                    ).gadget_state().config.num_routed_wires || old(self).gadget_state().gates.len()
                        >= 0xFFFF) || e == CircuitError::DegreeExceedsConfig && !old(
                        self,
                    ).gadget_state().finalized && base > old(self).gadget_state().config.max_degree)
                },
            },
    ;

    /// Asserts that the big-endian bit representation of `x` has at least
    /// `leading_zeros` leading zeros, by placing a base-2 decomposition
    /// gate over the remaining bits with `x` copy-constrained to its sum
    /// wire.
    fn assert_leading_zeros(&mut self, x: Target, leading_zeros: u32) -> (r: Result<
        (),
        CircuitError,
    >)
        requires
            old(self).gadget_wf(),
            old(self).gadget_connectable(x),
            1 <= leading_zeros <= 63,
        ensures
            final(self).gadget_wf(),
            builder_extends(old(self).gadget_state(), final(self).gadget_state()),
            match r {
                Ok(()) => {
                    &&& !old(self).gadget_state().finalized
                    &&& base_sum_split_recorded(
                        final(self).gadget_state(),
                        2,
                        (64 - leading_zeros) as usize,
                        x,
                        old(self).gadget_state().gates.len() as usize,
                    )
                },
                Err(e) => {
                    &&& final(self).gadget_state() == old(self).gadget_state()
                    &&& (e == CircuitError::BuilderAlreadyFinalized && old(
                        self,
                    ).gadget_state().finalized || e == CircuitError::DegreeExceedsConfig && old(
                        self,
                    ).gadget_state().config.max_degree < 2 || e == CircuitError::RowOverflow
                        && !old(self).gadget_state().finalized && (old(
                        self,
                    ).gadget_state().gates.len() >= 0xFFFF || 65 - leading_zeros > old(
                        self,
                    ).gadget_state().config.num_wires))
                },
            },
    ;

    /// Packed extension arithmetic operations per gate row.
    fn num_ext_arithmetic_ops_per_gate(&self) -> (r: usize)
        requires
            self.gadget_wf(),
        ensures
            r == self.spec_ext_ops_per_gate(),
    ;

    /// Packed base arithmetic operations per gate row.
    fn num_base_arithmetic_ops_per_gate(&self) -> (r: usize)
        requires
            self.gadget_wf(),
        ensures
            r == self.spec_base_ops_per_gate(),
    ;

    /// The target carrying the little-endian weighted sum of the boolean
    /// targets `bits`.
    ///
    /// An empty list returns the constant-zero target without placing a
    /// gate.  A short list folds `out = 2 * acc + bit` through packed
    /// multiply-add operations from the most significant bit.  A longer
    /// list goes through one base-2 sum gate whose limb wires are
    /// copy-constrained to the bits, with a recombination generator
    /// writing the sum wire.
    fn le_sum(&mut self, bits: &Vec<BoolTarget>) -> (r: Result<Target, CircuitError>)
        requires
            old(self).gadget_wf(),
            bits@.len() <= 63,
            forall|k: int|
                0 <= k < bits@.len() ==> old(self).gadget_connectable(
                    (#[trigger] bits@[k]).target,
                ),
        ensures
            final(self).gadget_wf(),
            builder_extends(old(self).gadget_state(), final(self).gadget_state()),
            match r {
                Ok(t) => {
                    &&& !old(self).gadget_state().finalized
                    &&& final(self).gadget_connectable(t)
                    &&& if bits@.len() == 0 {
                        constant_recorded(final(self).gadget_state(), 0, t)
                            && final(self).gadget_state().gates
                            == old(self).gadget_state().gates
                    } else if bits@.len() - 1 <= old(self).spec_base_ops_per_gate() {
                        le_sum_chain_recorded(final(self).gadget_state(), bits@, t)
                    } else {
                        le_sum_gate_recorded(
                            final(self).gadget_state(),
                            bits@,
                            old(self).gadget_state().gates.len() as usize,
                            (if old(self).gadget_state().config.num_routed_wires - 1 < 63 {
                                old(self).gadget_state().config.num_routed_wires - 1
                            } else {
                                63int
                            }) as usize,
                            t,
                        )
                    }
                },
                Err(e) => e == CircuitError::BuilderAlreadyFinalized && old(
                    self,
                ).gadget_state().finalized || !old(self).gadget_state().finalized && (e
                    == CircuitError::DegreeExceedsConfig && (old(
                    self,
                ).gadget_state().config.num_routed_wires < 4 || old(
                    self,
                ).gadget_state().config.max_degree < 2) || e == CircuitError::AllocationExhausted
                    && old(self).gadget_state().num_virtual >= 0x10000 || e
                    == CircuitError::RowOverflow && (bits@.len() + 1 > old(
                    self,
                ).gadget_state().config.num_routed_wires || old(
                    self,
                ).gadget_state().config.num_routed_wires < 3 || old(self).gadget_state().gates.len()
                    + bits@.len() + 1 > 0xFFFF)),
            },
    ;
}

impl CircuitBuilderSplit for CircuitBuilder {
    open spec fn gadget_wf(&self) -> bool {
        self.wf()
    }

    open spec fn gadget_connectable(&self, t: Target) -> bool {
        self.connectable(t)
    }

    open spec fn gadget_state(&self) -> BuilderView {
        self.view_of()
    }

    open spec fn spec_base_ops_per_gate(&self) -> int {
        self.config.num_routed_wires as int / 4
    }

    open spec fn spec_ext_ops_per_gate(&self) -> int {
        self.config.num_routed_wires as int / 8
    }

    fn split_le_base(&mut self, base: usize, x: Target, num_limbs: usize) -> (r: Result<
        Vec<Target>,
        CircuitError,
    >) {
        if self.finalized {
            return Err(CircuitError::BuilderAlreadyFinalized);
        }
        if num_limbs + 1 > self.config.num_routed_wires {
            return Err(CircuitError::RowOverflow);
        }
        let gate = BaseSumGate::new(base, num_limbs);
        let row = match self.add_gate(GateKind::BaseSum(gate)) {
            Ok(row) => row,
            Err(e) => {
                return Err(e);
            },
        };
        match self.connect(x, Target::Wire { row, column: 0 }) {
            Ok(()) => {},
            Err(e) => {
                proof {
                    assert(false);
                }
                return Err(e);
            },
        }
        proof {
            let v = self.view_of();
            assert(v.copy_constraints[v.copy_constraints.len() - 1] == (
                x,
                Target::Wire { row, column: 0 },
            ));
            assert(has_edge(v.copy_constraints, x, Target::Wire { row, column: 0 }));
            assert(v.gates[row as int] == GateKind::BaseSum(gate));
            assert(v.generators[v.generators.len() - 1] == (Generator::BaseSplit { gate, row }));
        }
        let mut limbs: Vec<Target> = Vec::new();
        for i in 0..num_limbs
            invariant
                self.wf(),
                row < self.gates@.len(),
                num_limbs + 1 <= self.config.num_routed_wires,
                limbs@.len() == i,
                forall|k: int|
                    0 <= k < i ==> #[trigger] limbs@[k] == (Target::Wire {
                        row,
                        column: (1 + k) as usize,
                    }),
                forall|k: int| 0 <= k < i ==> self.connectable(#[trigger] limbs@[k]),
        {
            limbs.push(Target::Wire { row, column: 1 + i });
        }
        Ok(limbs)
    }

    fn assert_leading_zeros(&mut self, x: Target, leading_zeros: u32) -> (r: Result<
        (),
        CircuitError,
    >) {
        if self.config.max_degree < 2 {
            return Err(CircuitError::DegreeExceedsConfig);
        }
        self.range_check(x, 64 - (leading_zeros as usize))
    }

    fn num_ext_arithmetic_ops_per_gate(&self) -> (r: usize) {
        self.config.num_routed_wires / 8
    }

    fn num_base_arithmetic_ops_per_gate(&self) -> (r: usize) {
        self.config.num_routed_wires / 4
    }

    fn le_sum(&mut self, bits: &Vec<BoolTarget>) -> (r: Result<Target, CircuitError>) {
        let num_bits = bits.len();
        if num_bits == 0 {
            return self.zero();
        }
        if self.finalized {
            return Err(CircuitError::BuilderAlreadyFinalized);
        }
        if self.config.num_routed_wires < 4 || self.config.max_degree < 2 {
            return Err(CircuitError::DegreeExceedsConfig);
        }
        let arithmetic_ops = num_bits - 1;
        if arithmetic_ops <= self.num_base_arithmetic_ops_per_gate() {
            let ghost pre = *self;
            let two = match self.two() {
                Ok(t) => t,
                Err(e) => {
                    return Err(e);
                },
            };
            let mut sum = bits[num_bits - 1].target;
            let ghost mut chain: Seq<Target> = seq![sum];
            let mut k = num_bits - 1;
            while k > 0
                invariant
                    self.wf(),
                    !self.finalized,
                    !old(self).finalized,
                    pre.view_of() == old(self).view_of(),
                    builder_extends(pre.view_of(), self.view_of()),
                    self.config == old(self).config,
                    k <= bits@.len() - 1,
                    1 <= bits@.len() <= 63,
                    self.config.num_routed_wires >= 4,
                    self.config.max_degree >= 2,
                    self.gates@.len() <= pre.gates@.len() + (bits@.len() - 1 - k),
                    forall|m: int|
                        0 <= m < bits@.len() ==> self.connectable((#[trigger] bits@[m]).target),
                    self.connectable(two),
                    self.connectable(sum),
                    constant_recorded(self.view_of(), 2, two),
                    chain.len() == bits@.len() - k,
                    chain[0] == bits@[bits@.len() - 1].target,
                    sum == chain[chain.len() - 1],
                    forall|m: int|
                        0 <= m < chain.len() - 1 ==> mul_add_recorded(
                            self.view_of(),
                            two,
                            chain[m],
                            bits@[bits@.len() - 2 - m].target,
                            #[trigger] chain[m + 1],
                        ),
                decreases k,
            {
                k = k - 1;
                let ghost step_pre = *self;
                let next = match self.mul_add(two, sum, bits[k].target) {
                    Ok(t) => t,
                    Err(e) => {
                        proof {
                            assert(!step_pre.finalized);
                            assert(e == CircuitError::RowOverflow);
                            assert(step_pre.gates@.len() >= 0xFFFF);
                            assert(step_pre.gates@.len() <= pre.gates@.len() + bits@.len() - 2 - k);
                            assert(old(self).gadget_state().gates.len() + bits@.len() + 1
                                > 0xFFFF);
                        }
                        return Err(e);
                    },
                };
                proof {
                    lemma_recorded_extends(step_pre.view_of(), self.view_of());
                    lemma_builder_extends_trans(
                        pre.view_of(),
                        step_pre.view_of(),
                        self.view_of(),
                    );
                    assert forall|m: int| 0 <= m < bits@.len() implies self.connectable(
                        (#[trigger] bits@[m]).target,
                    ) by {
                        assert(step_pre.connectable(bits@[m].target));
                    }
                    assert(self.connectable(two)) by {
                        assert(step_pre.connectable(two));
                    }
                    assert forall|m: int| 0 <= m < chain.len() - 1 implies mul_add_recorded(
                        self.view_of(),
                        two,
                        chain[m],
                        bits@[bits@.len() - 2 - m].target,
                        #[trigger] chain[m + 1],
                    ) by {
                        assert(mul_add_recorded(
                            step_pre.view_of(),
                            two,
                            chain[m],
                            bits@[bits@.len() - 2 - m].target,
                            chain[m + 1],
                        ));
                    }
                    chain = chain.push(next);
                    assert(chain[chain.len() - 2] == sum);
                    assert(mul_add_recorded(
                        self.view_of(),
                        two,
                        chain[chain.len() - 2],
                        bits@[bits@.len() - 2 - (chain.len() - 2)].target,
                        chain[chain.len() - 1],
                    ));
                }
                sum = next;
            }
            proof {
                assert(le_sum_chain_recorded(self.view_of(), bits@, sum));
            }
            return Ok(sum);
        }
        if self.config.num_routed_wires < 3 || num_bits + 1 > self.config.num_routed_wires {
            return Err(CircuitError::RowOverflow);
        }
        let gate = BaseSumGate::new_from_config(&self.config);
        if num_bits > gate.num_limbs {
            proof {
                assert(false);
            }
            return Err(CircuitError::RowOverflow);
        }
        let ghost pre = *self;
        let row = match self.add_gate(GateKind::BaseSum(gate)) {
            Ok(row) => row,
            Err(e) => {
                return Err(e);
            },
        };
        for k in 0..num_bits
            invariant
                self.wf(),
                !self.finalized,
                pre.view_of() == old(self).view_of(),
                builder_extends(pre.view_of(), self.view_of()),
                num_bits == bits@.len(),
                num_bits + 1 <= self.config.num_routed_wires,
                num_bits <= gate.num_limbs,
                gate.wf(),
                gate.base == 2,
                gate.num_limbs < self.config.num_routed_wires,
                row < self.gates@.len(),
                self.gates@[row as int] == GateKind::BaseSum(gate),
                self.num_virtual == old(self).num_virtual,
                self.num_virtual <= 0x10000,
                forall|m: int|
                    0 <= m < bits@.len() ==> self.connectable((#[trigger] bits@[m]).target),
                forall|m: int|
                    0 <= m < k ==> has_edge(
                        self.view_of().copy_constraints,
                        (#[trigger] bits@[m]).target,
                        Target::Wire { row, column: (1 + m) as usize },
                    ),
        {
            let ghost step_pre = *self;
            match self.connect(bits[k].target, Target::Wire { row, column: 1 + k }) {
                Ok(()) => {},
                Err(e) => {
                    proof {
                        assert(false);
                    }
                    return Err(e);
                },
            }
            proof {
                lemma_recorded_extends(step_pre.view_of(), self.view_of());
                lemma_builder_extends_trans(pre.view_of(), step_pre.view_of(), self.view_of());
                assert forall|m: int| 0 <= m < bits@.len() implies self.connectable(
                    (#[trigger] bits@[m]).target,
                ) by {
                    assert(step_pre.connectable(bits@[m].target));
                }
                let v = self.view_of();
                assert(v.copy_constraints[v.copy_constraints.len() - 1] == (
                    bits@[k as int].target,
                    Target::Wire { row, column: (1 + k) as usize },
                ));
                assert(has_edge(v.copy_constraints, bits@[k as int].target, Target::Wire {
                    row,
                    column: (1 + k) as usize,
                }));
            }
        }
        let ghost before_zero = *self;
        let zero_t = match self.zero() {
            Ok(t) => t,
            Err(e) => {
                return Err(e);
            },
        };
        proof {
            lemma_recorded_extends(before_zero.view_of(), self.view_of());
            lemma_builder_extends_trans(pre.view_of(), before_zero.view_of(), self.view_of());
        }
        let mut l = num_bits;
        while l < gate.num_limbs
            invariant
                self.wf(),
                !self.finalized,
                pre.view_of() == old(self).view_of(),
                builder_extends(pre.view_of(), self.view_of()),
                num_bits <= l <= gate.num_limbs,
                num_bits == bits@.len(),
                gate.wf(),
                gate.base == 2,
                gate.num_limbs < self.config.num_routed_wires,
                row < self.gates@.len(),
                self.gates@[row as int] == GateKind::BaseSum(gate),
                self.connectable(zero_t),
                constant_recorded(self.view_of(), 0, zero_t),
                forall|m: int|
                    0 <= m < bits@.len() ==> self.connectable((#[trigger] bits@[m]).target),
                forall|m: int|
                    0 <= m < num_bits ==> has_edge(
                        self.view_of().copy_constraints,
                        (#[trigger] bits@[m]).target,
                        Target::Wire { row, column: (1 + m) as usize },
                    ),
                forall|m: int|
                    num_bits <= m < l ==> #[trigger] has_edge(
                        self.view_of().copy_constraints,
                        zero_t,
                        Target::Wire { row, column: (1 + m) as usize },
                    ),
            decreases gate.num_limbs - l,
        {
            let ghost step_pre = *self;
            match self.connect(zero_t, Target::Wire { row, column: 1 + l }) {
                Ok(()) => {},
                Err(e) => {
                    proof {
                        assert(false);
                    }
                    return Err(e);
                },
            }
            proof {
                lemma_recorded_extends(step_pre.view_of(), self.view_of());
                lemma_builder_extends_trans(pre.view_of(), step_pre.view_of(), self.view_of());
                assert(self.connectable(zero_t)) by {
                    assert(step_pre.connectable(zero_t));
                }
                assert forall|m: int| 0 <= m < bits@.len() implies self.connectable(
                    (#[trigger] bits@[m]).target,
                ) by {
                    assert(step_pre.connectable(bits@[m].target));
                }
                let v = self.view_of();
                assert(v.copy_constraints[v.copy_constraints.len() - 1] == (
                    zero_t,
                    Target::Wire { row, column: (1 + l) as usize },
                ));
                assert(has_edge(v.copy_constraints, zero_t, Target::Wire {
                    row,
                    column: (1 + l) as usize,
                }));
            }
            l = l + 1;
        }
        let mut limb_bits: Vec<BoolTarget> = Vec::new();
        for k in 0..num_bits
            invariant
                num_bits == bits@.len(),
                limb_bits@.len() == k,
                forall|m: int| 0 <= m < k ==> #[trigger] limb_bits@[m] == bits@[m],
        {
            limb_bits.push(bits[k]);
        }
        proof {
            assert(limb_bits@ =~= bits@);
        }
        let gen = Generator::BaseSum { row, limbs: limb_bits };
        proof {
            assert forall|m: int| 0 <= m < gen->BaseSum_limbs@.len() implies crate::target::target_in(
                (#[trigger] gen->BaseSum_limbs@[m]).target,
                self.gates@.len() as int,
                self.config.num_wires as int,
                self.num_virtual as int,
            ) by {
                assert(self.connectable(bits@[m].target));
            }
        }
        let ghost before_gen = *self;
        match self.add_simple_generator(gen) {
            Ok(()) => {},
            Err(e) => {
                proof {
                    assert(false);
                }
                return Err(e);
            },
        }
        proof {
            lemma_recorded_extends(before_gen.view_of(), self.view_of());
            lemma_builder_extends_trans(pre.view_of(), before_gen.view_of(), self.view_of());
            let v = self.view_of();
            assert(v.generators[v.generators.len() - 1] matches Generator::BaseSum {
                row: r2,
                limbs,
            } && r2 == row && limbs@ == bits@);
            assert(v.gates[row as int] == GateKind::BaseSum(BaseSumGate {
                base: 2,
                num_limbs: gate.num_limbs,
            }));
            assert forall|i: int| 0 <= i < bits@.len() implies has_edge(
                v.copy_constraints,
                (#[trigger] bits@[i]).target,
                Target::Wire { row, column: (1 + i) as usize },
            ) by {
                assert(has_edge(
                    before_gen.view_of().copy_constraints,
                    bits@[i].target,
                    Target::Wire { row, column: (1 + i) as usize },
                ));
            }
            assert(constant_recorded(v, 0, zero_t));
            assert forall|l2: int| bits@.len() <= l2 < gate.num_limbs implies #[trigger] has_edge(
                v.copy_constraints,
                zero_t,
                Target::Wire { row, column: (1 + l2) as usize },
            ) by {
                assert(has_edge(
                    before_gen.view_of().copy_constraints,
                    zero_t,
                    Target::Wire { row, column: (1 + l2) as usize },
                ));
            }
            assert(le_sum_gate_recorded(v, bits@, row, gate.num_limbs, Target::Wire {
                row,
                column: 0,
            }));
        }
        Ok(Target::Wire { row, column: 0 })
    }
}

} // verus!
