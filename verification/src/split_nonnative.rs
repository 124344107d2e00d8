//! Splitting and recombining multi-limb values.
//!
//! A non-native value — one wider than a single field element can carry —
//! is held as a list of 32-bit limb targets.  These gadgets split such a
//! value into smaller fixed-width limbs and recombine limb lists back into
//! 32-bit limbs through packed u32 multiply-add operations.  Every method
//! pins the structure it records, so the witness semantics of the returned
//! targets follows from the generator specifications.

use vstd::prelude::*;
use crate::builder::{
    base_sum_split_recorded, builder_extends, constant_recorded, lemma_builder_extends_trans,
    lemma_recorded_extends, mul_add_recorded, u32_mul_add_recorded, BuilderView, CircuitBuilder,
};
use crate::errors::CircuitError;
use crate::split_base::CircuitBuilderSplit as CircuitBuilderSplitBase;
use crate::target::{Target, U32Target};

verus! {

/// A value held as little-endian 32-bit limb targets.
#[derive(Debug)]
pub struct BigUintTarget {
    /// The limb targets, least significant first.
    pub limbs: Vec<U32Target>,
}

/// A value of a foreign field, carried by a multi-limb target.
#[derive(Debug)]
pub struct NonNativeTarget {
    /// The underlying multi-limb value.
    pub value: BigUintTarget,
}

/// The structure recorded when one 32-bit target is split into eight 4-bit
/// limbs: a base-4 decomposition row for `src` at `row`, and for each pair
/// of adjacent 2-bit limb wires a multiply-add `outs[i] = high * 4 + low`
/// against a constant-four target.
pub open spec fn u32_split_4bit_recorded(
    v: BuilderView,
    src: Target,
    outs: Seq<Target>,
    row: usize,
) -> bool {
    &&& outs.len() == 8
    &&& base_sum_split_recorded(v, 4, 16, src, row)
    &&& exists|four_t: Target|
        #![auto]
        constant_recorded(v, 4, four_t) && forall|i: int|
            0 <= i < 8 ==> mul_add_recorded(
                v,
                Target::Wire { row, column: (2 * i + 2) as usize },
                four_t,
                Target::Wire { row, column: (2 * i + 1) as usize },
                #[trigger] outs[i],
            )
}

/// The structure recorded when fixed-width limbs are folded into one
/// 32-bit limb: a chain of packed u32 multiply-adds
/// `next = acc * base + limb`, starting from a constant zero at the most
/// significant limb and ending in `out`.
pub open spec fn u32_fold_chain_recorded(
    v: BuilderView,
    base_t: Target,
    limbs: Seq<Target>,
    out: Target,
) -> bool {
    exists|chain: Seq<Target>, zero_t: Target, highs: Seq<Target>|
        #![auto]
        {
            &&& constant_recorded(v, 0, zero_t)
            &&& chain.len() == limbs.len() + 1
            &&& chain[0] == zero_t
            &&& highs.len() == limbs.len()
            &&& forall|j: int|
                0 <= j < limbs.len() ==> u32_mul_add_recorded(
                    v,
                    chain[j],
                    base_t,
                    limbs[limbs.len() - 1 - j],
                    #[trigger] chain[j + 1],
                    highs[j],
                )
            &&& out == chain[chain.len() - 1]
        }
}


/// The 4-bit split structure, at some row of the grid.
pub open spec fn u32_split_4bit_recorded_somewhere(
    v: BuilderView,
    src: Target,
    outs: Seq<Target>,
) -> bool {
    exists|row: usize| u32_split_4bit_recorded(v, src, outs, row)
}

/// The whole recombination structure: one shared base constant, and one
/// fold chain per chunk of `per` input limbs ending in the matching output
/// limb.
pub open spec fn recombine_recorded(
    v: BuilderView,
    base_value: u64,
    limbs: Seq<Target>,
    per: int,
    outs: Seq<U32Target>,
) -> bool {
    exists|base_t: Target|
        #![trigger constant_recorded(v, base_value, base_t)]
        constant_recorded(v, base_value, base_t) && forall|c: int|
            0 <= c < outs.len() ==> u32_fold_chain_recorded(
                v,
                base_t,
                limbs.subrange(per * c, per * c + per),
                (#[trigger] outs[c]).0,
            )
}

/// Builder gadgets for splitting and recombining multi-limb values.
pub trait CircuitBuilderSplit {
    /// The builder invariant that every gadget call requires and preserves.
    spec fn split_wf(&self) -> bool;

    /// True when the builder accepts copy constraints on `t`.
    spec fn split_connectable(&self, t: Target) -> bool;

    /// The recorded state, as one specification value.
    spec fn split_state(&self) -> BuilderView;

    /// Splits a 32-bit target into eight 4-bit limb targets: a base-4
    /// decomposition row plus one multiply-add per adjacent limb pair.
    fn split_u32_to_4_bit_limbs(&mut self, val: U32Target) -> (r: Result<Vec<Target>, CircuitError>)
        requires
            old(self).split_wf(),
            old(self).split_connectable(val.0),
        ensures
            final(self).split_wf(),
            builder_extends(old(self).split_state(), final(self).split_state()),
            final(self).split_state().gates.len() <= old(self).split_state().gates.len() + 9,
            final(self).split_state().num_virtual <= old(self).split_state().num_virtual + 1,
            final(self).split_state().finalized == old(self).split_state().finalized,
            match r {
                Ok(limbs) => {
                    &&& !old(self).split_state().finalized
                    &&& u32_split_4bit_recorded(
                        final(self).split_state(),
                        val.0,
                        limbs@,
                        old(self).split_state().gates.len() as usize,
                    )
                    &&& forall|k: int|
                        0 <= k < limbs@.len() ==> final(self).split_connectable(
                            #[trigger] limbs@[k],
                        )
                },
                Err(e) => e == CircuitError::BuilderAlreadyFinalized && old(
                    self,
                ).split_state().finalized || !old(self).split_state().finalized && (e
                    == CircuitError::DegreeExceedsConfig && (old(
                    self,
                ).split_state().config.num_routed_wires < 17 || old(
                    self,
                ).split_state().config.max_degree < 4) || e == CircuitError::RowOverflow && old(
                    self,
                ).split_state().gates.len() + 10 > 0xFFFF || e == CircuitError::AllocationExhausted
                    && old(self).split_state().num_virtual >= 0x10000),
            },
    ;

    /// Splits a non-native value into 4-bit limb targets, eight per 32-bit
    /// limb, each limb through its own decomposition row and multiply-add
    /// pairs.
    fn split_nonnative_to_4_bit_limbs(&mut self, val: &NonNativeTarget) -> (r: Result<
        Vec<Target>,
        CircuitError,
    >)
        requires
            old(self).split_wf(),
            val.value.limbs@.len() <= 0x1000,
            forall|k: int|
                0 <= k < val.value.limbs@.len() ==> old(self).split_connectable(
                    (#[trigger] val.value.limbs@[k]).0,
                ),
        ensures
            final(self).split_wf(),
            builder_extends(old(self).split_state(), final(self).split_state()),
            match r {
                Ok(limbs) => {
                    &&& limbs@.len() == 8 * val.value.limbs@.len()
                    &&& forall|k: int|
                        #![trigger limbs@.subrange(8 * k, 8 * k + 8)]
                        0 <= k < val.value.limbs@.len() ==> u32_split_4bit_recorded_somewhere(
                            final(self).split_state(),
                            (val.value.limbs@[k]).0,
                            limbs@.subrange(8 * k, 8 * k + 8),
                        )
                    &&& forall|k: int|
                        0 <= k < limbs@.len() ==> final(self).split_connectable(
                            #[trigger] limbs@[k],
                        )
                },
                Err(e) => !(!old(self).split_state().finalized && old(
                    self,
                ).split_state().config.num_routed_wires >= 17 && old(
                    self,
                ).split_state().config.max_degree >= 4 && old(self).split_state().gates.len() + 9
                    * val.value.limbs@.len() + 1 <= 0xFFFF && old(self).split_state().num_virtual
                    + val.value.limbs@.len() + 1 <= 0x10000),
            },
    ;

    /// Splits a non-native value into 2-bit limb targets, sixteen per
    /// 32-bit limb, each limb through its own base-4 decomposition row.
    fn split_nonnative_to_2_bit_limbs(&mut self, val: &NonNativeTarget) -> (r: Result<
        Vec<Target>,
        CircuitError,
    >)
        requires
            old(self).split_wf(),
            val.value.limbs@.len() <= 0x1000,
            forall|k: int|
                0 <= k < val.value.limbs@.len() ==> old(self).split_connectable(
                    (#[trigger] val.value.limbs@[k]).0,
                ),
        ensures
            final(self).split_wf(),
            builder_extends(old(self).split_state(), final(self).split_state()),
            match r {
                Ok(limbs) => {
                    &&& limbs@.len() == 16 * val.value.limbs@.len()
                    &&& forall|k: int|
                        0 <= k < val.value.limbs@.len() ==> #[trigger] base_sum_split_recorded(
                            final(self).split_state(),
                            4,
                            16,
                            (val.value.limbs@[k]).0,
                            (old(self).split_state().gates.len() + k) as usize,
                        )
                    &&& forall|k: int, j: int|
                        0 <= k < val.value.limbs@.len() && 0 <= j < 16
                            ==> #[trigger] limbs@[16 * k + j] == (Target::Wire {
                            row: (old(self).split_state().gates.len() + k) as usize,
                            column: (1 + j) as usize,
                        })
                    &&& forall|k: int|
                        0 <= k < limbs@.len() ==> final(self).split_connectable(
                            #[trigger] limbs@[k],
                        )
                },
                Err(e) => !(!old(self).split_state().finalized && old(
                    self,
                ).split_state().config.num_routed_wires >= 17 && old(
                    self,
                ).split_state().config.max_degree >= 4 && old(self).split_state().gates.len()
                    + val.value.limbs@.len() + 1 <= 0xFFFF),
            },
    ;

    /// Splits a non-native value into single-bit limb targets, thirty-two
    /// per 32-bit limb, each limb through its own base-2 decomposition row.
    fn split_nonnative_to_1_bit_limbs(&mut self, val: &NonNativeTarget) -> (r: Result<
        Vec<Target>,
        CircuitError,
    >)
        requires
            old(self).split_wf(),
            val.value.limbs@.len() <= 0x1000,
            forall|k: int|
                0 <= k < val.value.limbs@.len() ==> old(self).split_connectable(
                    (#[trigger] val.value.limbs@[k]).0,
                ),
        ensures
            final(self).split_wf(),
            builder_extends(old(self).split_state(), final(self).split_state()),
            match r {
                Ok(limbs) => {
                    &&& limbs@.len() == 32 * val.value.limbs@.len()
                    &&& forall|k: int|
                        0 <= k < val.value.limbs@.len() ==> #[trigger] base_sum_split_recorded(
                            final(self).split_state(),
                            2,
                            32,
                            (val.value.limbs@[k]).0,
                            (old(self).split_state().gates.len() + k) as usize,
                        )
                    &&& forall|k: int, j: int|
                        0 <= k < val.value.limbs@.len() && 0 <= j < 32
                            ==> #[trigger] limbs@[32 * k + j] == (Target::Wire {
                            row: (old(self).split_state().gates.len() + k) as usize,
                            column: (1 + j) as usize,
                        })
                    &&& forall|k: int|
                        0 <= k < limbs@.len() ==> final(self).split_connectable(
                            #[trigger] limbs@[k],
                        )
                },
                Err(e) => !(!old(self).split_state().finalized && old(
                    self,
                ).split_state().config.num_routed_wires >= 33 && old(
                    self,
                ).split_state().config.max_degree >= 2 && old(self).split_state().gates.len()
                    + val.value.limbs@.len() + 1 <= 0xFFFF),
            },
    ;

    /// Recombines 4-bit limbs, eight per 32-bit limb: each chunk is folded
    /// most-significant-first through packed u32 multiply-adds against a
    /// constant sixteen, whose low halves carry the running value, so each
    /// output limb is `sum_k chunk[k] * 16^k` when the inputs are 4-bit
    /// (wider inputs lose their high halves, which the caller must rule
    /// out).
    fn recombine_nonnative_4_bit_limbs(&mut self, limbs: Vec<Target>) -> (r: Result<
        NonNativeTarget,
        CircuitError,
    >)
        requires
            old(self).split_wf(),
            limbs@.len() as int % 8 == 0,
            limbs@.len() <= 0x8000,
            forall|k: int|
                0 <= k < limbs@.len() ==> old(self).split_connectable(#[trigger] limbs@[k]),
        ensures
            final(self).split_wf(),
            builder_extends(old(self).split_state(), final(self).split_state()),
            match r {
                Ok(out) => {
                    &&& out.value.limbs@.len() == limbs@.len() as int / 8
                    &&& recombine_recorded(
                        final(self).split_state(),
                        16,
                        limbs@,
                        8,
                        out.value.limbs@,
                    )
                    &&& forall|k: int|
                        0 <= k < out.value.limbs@.len() ==> final(self).split_connectable(
                            (#[trigger] out.value.limbs@[k]).0,
                        )
                },
                Err(e) => !(!old(self).split_state().finalized && old(
                    self,
                ).split_state().config.num_routed_wires >= 6 && old(
                    self,
                ).split_state().config.num_wires >= 38 && old(self).split_state().config.max_degree
                    >= 4 && old(self).split_state().gates.len() + limbs@.len() + 1 <= 0xFFFF && old(
                    self,
                ).split_state().num_virtual + 3 <= 0x10000),
            },
    ;

    /// Recombines single-bit limbs, thirty-two per 32-bit limb, folding
    /// each chunk against a constant two, so each output limb is
    /// `sum_k chunk[k] * 2^k` when the inputs are boolean.
    fn recombine_nonnative_bits(&mut self, limbs: &Vec<Target>) -> (r: Result<
        NonNativeTarget,
        CircuitError,
    >)
        requires
            old(self).split_wf(),
            limbs@.len() as int % 32 == 0,
            limbs@.len() <= 0x8000,
            forall|k: int|
                0 <= k < limbs@.len() ==> old(self).split_connectable(#[trigger] limbs@[k]),
        ensures
            final(self).split_wf(),
            builder_extends(old(self).split_state(), final(self).split_state()),
            match r {
                Ok(out) => {
                    &&& out.value.limbs@.len() == limbs@.len() as int / 32
                    &&& recombine_recorded(
                        final(self).split_state(),
                        2,
                        limbs@,
                        32,
                        out.value.limbs@,
                    )
                    &&& forall|k: int|
                        0 <= k < out.value.limbs@.len() ==> final(self).split_connectable(
                            (#[trigger] out.value.limbs@[k]).0,
                        )
                },
                Err(e) => !(!old(self).split_state().finalized && old(
                    self,
                ).split_state().config.num_routed_wires >= 6 && old(
                    self,
                ).split_state().config.num_wires >= 38 && old(self).split_state().config.max_degree
                    >= 4 && old(self).split_state().gates.len() + limbs@.len() + 1 <= 0xFFFF && old(
                    self,
                ).split_state().num_virtual + 3 <= 0x10000),
            },
    ;
}

impl CircuitBuilderSplit for CircuitBuilder {
    open spec fn split_wf(&self) -> bool {
        self.wf()
    }

    open spec fn split_connectable(&self, t: Target) -> bool {
        self.connectable(t)
    }

    open spec fn split_state(&self) -> BuilderView {
        self.view_of()
    }

    fn split_u32_to_4_bit_limbs(&mut self, val: U32Target) -> (r: Result<
        Vec<Target>,
        CircuitError,
    >) {
        if self.finalized {
            return Err(CircuitError::BuilderAlreadyFinalized);
        }
        if self.config.num_routed_wires < 17 || self.config.max_degree < 4 {
            return Err(CircuitError::DegreeExceedsConfig);
        }
        let ghost start = *self;
        let two_bit_limbs = match self.split_le_base(4, val.0, 16) {
            Ok(l) => l,
            Err(e) => {
                return Err(e);
            },
        };
        let ghost row = start.gates@.len() as usize;
        let ghost after_split = *self;
        let four = match self.constant(crate::field::FieldElem { value: 4 }) {
            Ok(t) => t,
            Err(e) => {
                proof {
                    assert(after_split.num_virtual == start.num_virtual);
                }
                return Err(e);
            },
        };
        proof {
            lemma_recorded_extends(after_split.view_of(), self.view_of());
            lemma_builder_extends_trans(start.view_of(), after_split.view_of(), self.view_of());
        }
        let mut combined: Vec<Target> = Vec::new();
        for i in 0..8usize
            invariant
                self.wf(),
                !self.finalized,
                start.view_of() == old(self).view_of(),
                !old(self).finalized,
                builder_extends(start.view_of(), self.view_of()),
                self.config == old(self).config,
                self.config.num_routed_wires >= 17,
                self.config.max_degree >= 4,
                self.gates@.len() <= start.gates@.len() + 1 + i,
                self.num_virtual <= start.num_virtual + 1,
                self.finalized == start.finalized,
                row == start.gates@.len() as usize,
                base_sum_split_recorded(self.view_of(), 4, 16, val.0, row),
                two_bit_limbs@.len() == 16,
                forall|m: int|
                    0 <= m < 16 ==> #[trigger] two_bit_limbs@[m] == (Target::Wire {
                        row,
                        column: (1 + m) as usize,
                    }),
                forall|m: int|
                    0 <= m < two_bit_limbs@.len() ==> self.connectable(
                        #[trigger] two_bit_limbs@[m],
                    ),
                self.connectable(four),
                constant_recorded(self.view_of(), 4, four),
                combined@.len() == i,
                forall|m: int| 0 <= m < i ==> self.connectable(#[trigger] combined@[m]),
                forall|m: int|
                    0 <= m < i ==> mul_add_recorded(
                        self.view_of(),
                        Target::Wire { row, column: (2 * m + 2) as usize },
                        four,
                        Target::Wire { row, column: (2 * m + 1) as usize },
                        #[trigger] combined@[m],
                    ),
        {
            let ghost step_pre = *self;
            let t = match self.mul_add(two_bit_limbs[2 * i + 1], four, two_bit_limbs[2 * i]) {
                Ok(t) => t,
                Err(e) => {
                    proof {
                        assert(!step_pre.finalized);
                        assert(e == CircuitError::RowOverflow);
                        assert(step_pre.gates@.len() >= 0xFFFF);
                    }
                    return Err(e);
                },
            };
            proof {
                lemma_recorded_extends(step_pre.view_of(), self.view_of());
                lemma_builder_extends_trans(start.view_of(), step_pre.view_of(), self.view_of());
                assert forall|m: int| 0 <= m < two_bit_limbs@.len() implies self.connectable(
                    #[trigger] two_bit_limbs@[m],
                ) by {
                    assert(step_pre.connectable(two_bit_limbs@[m]));
                }
                assert(self.connectable(four)) by {
                    assert(step_pre.connectable(four));
                }
                assert forall|m: int| 0 <= m < combined@.len() implies self.connectable(
                    #[trigger] combined@[m],
                ) by {
                    assert(step_pre.connectable(combined@[m]));
                }
                assert forall|m: int| 0 <= m < combined@.len() implies mul_add_recorded(
                    self.view_of(),
                    Target::Wire { row, column: (2 * m + 2) as usize },
                    four,
                    Target::Wire { row, column: (2 * m + 1) as usize },
                    #[trigger] combined@[m],
                ) by {
                    assert(mul_add_recorded(
                        step_pre.view_of(),
                        Target::Wire { row, column: (2 * m + 2) as usize },
                        four,
                        Target::Wire { row, column: (2 * m + 1) as usize },
                        combined@[m],
                    ));
                }
                assert(mul_add_recorded(self.view_of(), two_bit_limbs@[2 * i + 1], four,
                    two_bit_limbs@[2 * i], t));
            }
            combined.push(t);
        }
        proof {
            assert(u32_split_4bit_recorded(self.view_of(), val.0, combined@, row));
        }
        Ok(combined)
    }

    fn split_nonnative_to_4_bit_limbs(&mut self, val: &NonNativeTarget) -> (r: Result<
        Vec<Target>,
        CircuitError,
    >) {
        let mut out: Vec<Target> = Vec::new();
        let ghost start = *self;
        let ghost mut rows: Seq<usize> = Seq::empty();
        let n = val.value.limbs.len();
        for k in 0..n
            invariant
                self.wf(),
                start.view_of() == old(self).view_of(),
                builder_extends(start.view_of(), self.view_of()),
                self.finalized == old(self).finalized,
                self.gates@.len() <= start.gates@.len() + 9 * k,
                self.num_virtual <= start.num_virtual + k,
                n == val.value.limbs@.len(),
                forall|m: int|
                    0 <= m < val.value.limbs@.len() ==> self.connectable(
                        (#[trigger] val.value.limbs@[m]).0,
                    ),
                out@.len() == 8 * k,
                forall|m: int| 0 <= m < out@.len() ==> self.connectable(#[trigger] out@[m]),
                rows.len() == k,
                forall|m: int|
                    0 <= m < k ==> u32_split_4bit_recorded(
                        self.view_of(),
                        (val.value.limbs@[m]).0,
                        out@.subrange(8 * m, 8 * m + 8),
                        #[trigger] rows[m],
                    ),
        {
            let ghost step_pre = *self;
            let ghost out_pre = out@;
            let part = match self.split_u32_to_4_bit_limbs(val.value.limbs[k]) {
                Ok(p) => p,
                Err(e) => {
                    proof {
                        if !old(self).finalized {
                            assert(!step_pre.finalized);
                            assert(step_pre.config == old(self).config);
                            assert(step_pre.gates@.len() <= start.gates@.len() + 9 * (k as int));
                            assert(step_pre.num_virtual <= start.num_virtual + k);
                        }
                    }
                    return Err(e);
                },
            };
            let ghost part_row = step_pre.gates@.len() as usize;
            proof {
                lemma_builder_extends_trans(start.view_of(), step_pre.view_of(), self.view_of());
                assert forall|m: int| 0 <= m < val.value.limbs@.len() implies self.connectable(
                    (#[trigger] val.value.limbs@[m]).0,
                ) by {
                    assert(step_pre.connectable(val.value.limbs@[m].0));
                }
                assert forall|m: int| 0 <= m < out@.len() implies self.connectable(
                    #[trigger] out@[m],
                ) by {
                    assert(step_pre.connectable(out@[m]));
                }
            }
            let mut j: usize = 0;
            while j < 8
                invariant
                    j <= 8,
                    part@.len() == 8,
                    out@.len() == out_pre.len() + j,
                    out_pre.len() == 8 * k,
                    forall|m: int| 0 <= m < out_pre.len() ==> #[trigger] out@[m] == out_pre[m],
                    forall|m: int| 0 <= m < j ==> #[trigger] out@[out_pre.len() + m] == part@[m],
                decreases 8 - j,
            {
                out.push(part[j]);
                j = j + 1;
            }
            proof {
                assert forall|m2: int| 0 <= m2 < 8 implies out@.subrange(
                    8 * (k as int),
                    8 * (k as int) + 8,
                )[m2] == part@[m2] by {
                    assert(out@[out_pre.len() + m2] == part@[m2]);
                }
                assert(out@.subrange(8 * (k as int), 8 * (k as int) + 8) =~= part@);
                assert forall|m2: int| 0 <= m2 < out@.len() implies self.connectable(
                    #[trigger] out@[m2],
                ) by {
                    if m2 < out_pre.len() {
                        assert(self.connectable(out_pre[m2]));
                    } else {
                        assert(out@[out_pre.len() + (m2 - out_pre.len())] == part@[m2
                            - out_pre.len()]);
                        assert(out@[m2] == part@[m2 - out_pre.len()]);
                        assert(self.connectable(part@[m2 - out_pre.len()]));
                    }
                }
                assert(u32_split_4bit_recorded(
                    self.view_of(),
                    val.value.limbs@[k as int].0,
                    out@.subrange(8 * (k as int), 8 * (k as int) + 8),
                    part_row,
                ));
                rows = rows.push(part_row);
                assert forall|m: int| 0 <= m < k + 1 implies u32_split_4bit_recorded(
                    self.view_of(),
                    (val.value.limbs@[m]).0,
                    out@.subrange(8 * m, 8 * m + 8),
                    #[trigger] rows[m],
                ) by {
                    if m < k {
                        assert(out@.subrange(8 * m, 8 * m + 8) =~= out_pre.subrange(
                            8 * m,
                            8 * m + 8,
                        ));
                        lemma_u32_split_extends(
                            step_pre.view_of(),
                            self.view_of(),
                            val.value.limbs@[m].0,
                            out_pre.subrange(8 * m, 8 * m + 8),
                            rows[m],
                        );
                    }
                }
            }
        }
        proof {
            assert forall|k2: int|
                #![trigger out@.subrange(8 * k2, 8 * k2 + 8)]
                0 <= k2 < val.value.limbs@.len() implies u32_split_4bit_recorded_somewhere(
                self.split_state(),
                (val.value.limbs@[k2]).0,
                out@.subrange(8 * k2, 8 * k2 + 8),
            ) by {
                assert(u32_split_4bit_recorded(
                    self.split_state(),
                    (val.value.limbs@[k2]).0,
                    out@.subrange(8 * k2, 8 * k2 + 8),
                    rows[k2],
                ));
            }
        }
        Ok(out)
    }

    fn split_nonnative_to_2_bit_limbs(&mut self, val: &NonNativeTarget) -> (r: Result<
        Vec<Target>,
        CircuitError,
    >) {
        let mut out: Vec<Target> = Vec::new();
        let ghost start = *self;
        let ghost mut rows: Seq<usize> = Seq::empty();
        let n = val.value.limbs.len();
        for k in 0..n
            invariant
                self.wf(),
                start.view_of() == old(self).view_of(),
                builder_extends(start.view_of(), self.view_of()),
                !old(self).finalized ==> !self.finalized,
                n == val.value.limbs@.len(),
                forall|m: int|
                    0 <= m < val.value.limbs@.len() ==> self.connectable(
                        (#[trigger] val.value.limbs@[m]).0,
                    ),
                out@.len() == 16 * k,
                forall|m: int| 0 <= m < out@.len() ==> self.connectable(#[trigger] out@[m]),
                self.gates@.len() == start.gates@.len() + k,
                rows.len() == k,
                forall|m: int| 0 <= m < k ==> #[trigger] rows[m] == (start.gates@.len() + m) as usize,
                forall|m: int|
                    0 <= m < k ==> base_sum_split_recorded(
                        self.view_of(),
                        4,
                        16,
                        (val.value.limbs@[m]).0,
                        #[trigger] rows[m],
                    ),
                forall|m: int, j: int|
                    0 <= m < k && 0 <= j < 16 ==> #[trigger] out@[16 * m + j] == (
                    Target::Wire { row: rows[m], column: (1 + j) as usize }),
        {
            let ghost step_pre = *self;
            let ghost out_pre = out@;
            let part = match self.split_le_base(4, val.value.limbs[k].0, 16) {
                Ok(p) => p,
                Err(e) => {
                    proof {
                        if !old(self).finalized {
                            assert(!step_pre.finalized);
                            assert(step_pre.config == old(self).config);
                            assert(step_pre.gates@.len() == start.gates@.len() + k);
                        }
                    }
                    return Err(e);
                },
            };
            let ghost part_row = step_pre.gates@.len() as usize;
            proof {
                lemma_recorded_extends(step_pre.view_of(), self.view_of());
                lemma_builder_extends_trans(start.view_of(), step_pre.view_of(), self.view_of());
                assert forall|m: int| 0 <= m < val.value.limbs@.len() implies self.connectable(
                    (#[trigger] val.value.limbs@[m]).0,
                ) by {
                    assert(step_pre.connectable(val.value.limbs@[m].0));
                }
                assert forall|m: int| 0 <= m < out@.len() implies self.connectable(
                    #[trigger] out@[m],
                ) by {
                    assert(step_pre.connectable(out@[m]));
                }
            }
            let mut j: usize = 0;
            while j < 16
                invariant
                    j <= 16,
                    part@.len() == 16,
                    out@.len() == out_pre.len() + j,
                    out_pre.len() == 16 * k,
                    forall|m: int| 0 <= m < out_pre.len() ==> #[trigger] out@[m] == out_pre[m],
                    forall|m: int| 0 <= m < j ==> #[trigger] out@[out_pre.len() + m] == part@[m],
                decreases 16 - j,
            {
                out.push(part[j]);
                j = j + 1;
            }
            proof {
                assert forall|m2: int| 0 <= m2 < out@.len() implies self.connectable(
                    #[trigger] out@[m2],
                ) by {
                    if m2 < out_pre.len() {
                        assert(self.connectable(out_pre[m2]));
                    } else {
                        assert(out@[out_pre.len() + (m2 - out_pre.len())] == part@[m2
                            - out_pre.len()]);
                        assert(out@[m2] == part@[m2 - out_pre.len()]);
                        assert(self.connectable(part@[m2 - out_pre.len()]));
                    }
                }
                rows = rows.push(part_row);
                assert forall|m: int| 0 <= m < k + 1 implies base_sum_split_recorded(
                    self.view_of(),
                    4,
                    16,
                    (val.value.limbs@[m]).0,
                    #[trigger] rows[m],
                ) by {
                    if m < k {
                        assert(base_sum_split_recorded(
                            step_pre.view_of(),
                            4,
                            16,
                            val.value.limbs@[m].0,
                            rows[m],
                        ));
                    }
                }
                assert forall|m: int, j2: int| 0 <= m < k + 1 && 0 <= j2 < 16
                    implies #[trigger] out@[16 * m + j2] == (Target::Wire {
                    row: rows[m],
                    column: (1 + j2) as usize,
                }) by {
                    if m < k {
                        assert(out@[16 * m + j2] == out_pre[16 * m + j2]);
                    } else {
                        assert(out@[out_pre.len() + j2] == part@[j2]);
                    }
                }
            }
        }
        proof {
            assert forall|k2: int| 0 <= k2 < val.value.limbs@.len()
                implies #[trigger] base_sum_split_recorded(
                self.split_state(),
                4,
                16,
                (val.value.limbs@[k2]).0,
                (start.gates@.len() + k2) as usize,
            ) by {
                assert(rows[k2] == (start.gates@.len() + k2) as usize);
                assert(base_sum_split_recorded(
                    self.view_of(),
                    4,
                    16,
                    (val.value.limbs@[k2]).0,
                    rows[k2],
                ));
            }
            assert forall|k2: int, j: int|
                0 <= k2 < val.value.limbs@.len() && 0 <= j < 16
                implies #[trigger] out@[16 * k2 + j] == (Target::Wire {
                row: (start.gates@.len() + k2) as usize,
                column: (1 + j) as usize,
            }) by {
                assert(rows[k2] == (start.gates@.len() + k2) as usize);
            }
        }
        Ok(out)
    }

    fn split_nonnative_to_1_bit_limbs(&mut self, val: &NonNativeTarget) -> (r: Result<
        Vec<Target>,
        CircuitError,
    >) {
        let mut out: Vec<Target> = Vec::new();
        let ghost start = *self;
        let ghost mut rows: Seq<usize> = Seq::empty();
        let n = val.value.limbs.len();
        for k in 0..n
            invariant
                self.wf(),
                start.view_of() == old(self).view_of(),
                builder_extends(start.view_of(), self.view_of()),
                !old(self).finalized ==> !self.finalized,
                n == val.value.limbs@.len(),
                forall|m: int|
                    0 <= m < val.value.limbs@.len() ==> self.connectable(
                        (#[trigger] val.value.limbs@[m]).0,
                    ),
                out@.len() == 32 * k,
                forall|m: int| 0 <= m < out@.len() ==> self.connectable(#[trigger] out@[m]),
                self.gates@.len() == start.gates@.len() + k,
                rows.len() == k,
                forall|m: int| 0 <= m < k ==> #[trigger] rows[m] == (start.gates@.len() + m) as usize,
                forall|m: int|
                    0 <= m < k ==> base_sum_split_recorded(
                        self.view_of(),
                        2,
                        32,
                        (val.value.limbs@[m]).0,
                        #[trigger] rows[m],
                    ),
                forall|m: int, j: int|
                    0 <= m < k && 0 <= j < 32 ==> #[trigger] out@[32 * m + j] == (
                    Target::Wire { row: rows[m], column: (1 + j) as usize }),
        {
            let ghost step_pre = *self;
            let ghost out_pre = out@;
            let part = match self.split_le_base(2, val.value.limbs[k].0, 32) {
                Ok(p) => p,
                Err(e) => {
                    proof {
                        if !old(self).finalized {
                            assert(!step_pre.finalized);
                            assert(step_pre.config == old(self).config);
                            assert(step_pre.gates@.len() == start.gates@.len() + k);
                        }
                    }
                    return Err(e);
                },
            };
            let ghost part_row = step_pre.gates@.len() as usize;
            proof {
                lemma_recorded_extends(step_pre.view_of(), self.view_of());
                lemma_builder_extends_trans(start.view_of(), step_pre.view_of(), self.view_of());
                assert forall|m: int| 0 <= m < val.value.limbs@.len() implies self.connectable(
                    (#[trigger] val.value.limbs@[m]).0,
                ) by {
                    assert(step_pre.connectable(val.value.limbs@[m].0));
                }
                assert forall|m: int| 0 <= m < out@.len() implies self.connectable(
                    #[trigger] out@[m],
                ) by {
                    assert(step_pre.connectable(out@[m]));
                }
            }
            let mut j: usize = 0;
            while j < 32
                invariant
                    j <= 32,
                    part@.len() == 32,
                    out@.len() == out_pre.len() + j,
                    out_pre.len() == 32 * k,
                    forall|m: int| 0 <= m < out_pre.len() ==> #[trigger] out@[m] == out_pre[m],
                    forall|m: int| 0 <= m < j ==> #[trigger] out@[out_pre.len() + m] == part@[m],
                decreases 32 - j,
            {
                out.push(part[j]);
                j = j + 1;
            }
            proof {
                assert forall|m2: int| 0 <= m2 < out@.len() implies self.connectable(
                    #[trigger] out@[m2],
                ) by {
                    if m2 < out_pre.len() {
                        assert(self.connectable(out_pre[m2]));
                    } else {
                        assert(out@[out_pre.len() + (m2 - out_pre.len())] == part@[m2
                            - out_pre.len()]);
                        assert(out@[m2] == part@[m2 - out_pre.len()]);
                        assert(self.connectable(part@[m2 - out_pre.len()]));
                    }
                }
                rows = rows.push(part_row);
                assert forall|m: int| 0 <= m < k + 1 implies base_sum_split_recorded(
                    self.view_of(),
                    2,
                    32,
                    (val.value.limbs@[m]).0,
                    #[trigger] rows[m],
                ) by {
                    if m < k {
                        assert(base_sum_split_recorded(
                            step_pre.view_of(),
                            2,
                            32,
                            val.value.limbs@[m].0,
                            rows[m],
                        ));
                    }
                }
                assert forall|m: int, j2: int| 0 <= m < k + 1 && 0 <= j2 < 32
                    implies #[trigger] out@[32 * m + j2] == (Target::Wire {
                    row: rows[m],
                    column: (1 + j2) as usize,
                }) by {
                    if m < k {
                        assert(out@[32 * m + j2] == out_pre[32 * m + j2]);
                    } else {
                        assert(out@[out_pre.len() + j2] == part@[j2]);
                    }
                }
            }
        }
        proof {
            assert forall|k2: int| 0 <= k2 < val.value.limbs@.len()
                implies #[trigger] base_sum_split_recorded(
                self.split_state(),
                2,
                32,
                (val.value.limbs@[k2]).0,
                (start.gates@.len() + k2) as usize,
            ) by {
                assert(rows[k2] == (start.gates@.len() + k2) as usize);
                assert(base_sum_split_recorded(
                    self.view_of(),
                    2,
                    32,
                    (val.value.limbs@[k2]).0,
                    rows[k2],
                ));
            }
            assert forall|k2: int, j: int|
                0 <= k2 < val.value.limbs@.len() && 0 <= j < 32
                implies #[trigger] out@[32 * k2 + j] == (Target::Wire {
                row: (start.gates@.len() + k2) as usize,
                column: (1 + j) as usize,
            }) by {
                assert(rows[k2] == (start.gates@.len() + k2) as usize);
            }
        }
        Ok(out)
    }

    fn recombine_nonnative_4_bit_limbs(&mut self, limbs: Vec<Target>) -> (r: Result<
        NonNativeTarget,
        CircuitError,
    >) {
        recombine_chunks(self, &limbs, 8, 16)
    }

    fn recombine_nonnative_bits(&mut self, limbs: &Vec<Target>) -> (r: Result<
        NonNativeTarget,
        CircuitError,
    >) {
        recombine_chunks(self, limbs, 32, 2)
    }
}

/// Recombines fixed-width limbs, `per_chunk` at a time, into 32-bit limbs:
/// each chunk is folded most-significant-first through packed u32
/// multiply-add operations with the chunk base.
fn recombine_chunks(
    builder: &mut CircuitBuilder,
    limbs: &Vec<Target>,
    per_chunk: usize,
    base: u32,
) -> (r: Result<NonNativeTarget, CircuitError>)
    requires
        old(builder).wf(),
        per_chunk >= 1,
        limbs@.len() as int % per_chunk as int == 0,
        limbs@.len() <= 0x8000,
        forall|k: int| 0 <= k < limbs@.len() ==> old(builder).connectable(#[trigger] limbs@[k]),
    ensures
        final(builder).wf(),
        builder_extends(old(builder).view_of(), final(builder).view_of()),
        match r {
            Ok(out) => {
                &&& out.value.limbs@.len() == limbs@.len() as int / per_chunk as int
                &&& recombine_recorded(
                    final(builder).view_of(),
                    base as u64,
                    limbs@,
                    per_chunk as int,
                    out.value.limbs@,
                )
                &&& forall|k: int|
                    0 <= k < out.value.limbs@.len() ==> final(builder).connectable(
                        (#[trigger] out.value.limbs@[k]).0,
                    )
            },
            Err(e) => !(!old(builder).finalized && old(builder).config.num_routed_wires >= 6 && old(
                builder,
            ).config.num_wires >= 38 && old(builder).config.max_degree >= 4 && old(
                builder,
            ).gates@.len() + limbs@.len() + 1 <= 0xFFFF && old(builder).num_virtual + 3
                <= 0x10000),
        },
{
    if builder.finalized {
        return Err(CircuitError::BuilderAlreadyFinalized);
    }
    if builder.config.num_routed_wires < 6 || builder.config.num_wires < 38
        || builder.config.max_degree < 4 {
        return Err(CircuitError::DegreeExceedsConfig);
    }
    let ghost start = *builder;
    let base_t = match builder.constant_u32(base) {
        Ok(t) => t,
        Err(e) => {
            return Err(e);
        },
    };
    let ghost after_base = *builder;
    let zero32 = match builder.zero_u32() {
        Ok(z) => z,
        Err(e) => {
            return Err(e);
        },
    };
    proof {
        lemma_recorded_extends(after_base.view_of(), builder.view_of());
        lemma_builder_extends_trans(start.view_of(), after_base.view_of(), builder.view_of());
    }
    let num_chunks = limbs.len() / per_chunk;
    proof {
        vstd::arithmetic::div_mod::lemma_fundamental_div_mod(
            limbs@.len() as int,
            per_chunk as int,
        );
        vstd::arithmetic::div_mod::lemma_mod_bound(limbs@.len() as int, per_chunk as int);
        vstd::arithmetic::mul::lemma_mul_is_commutative(per_chunk as int, num_chunks as int);
    }
    let mut out_limbs: Vec<U32Target> = Vec::new();
    for c in 0..num_chunks
        invariant
            builder.wf(),
            !builder.finalized,
            !old(builder).finalized,
            start.view_of() == old(builder).view_of(),
            builder_extends(start.view_of(), builder.view_of()),
            builder.config == old(builder).config,
            builder.config.num_routed_wires >= 6,
            builder.config.num_wires >= 38,
            builder.config.max_degree >= 4,
            per_chunk >= 1,
            num_chunks == limbs@.len() as int / per_chunk as int,
            num_chunks * per_chunk <= limbs@.len(),
            builder.gates@.len() <= start.gates@.len() + c * per_chunk,
            builder.num_virtual <= start.num_virtual + 2,
            forall|k: int| 0 <= k < limbs@.len() ==> builder.connectable(#[trigger] limbs@[k]),
            builder.connectable(base_t.0),
            builder.connectable(zero32.0),
            constant_recorded(builder.view_of(), base as u64, base_t.0),
            constant_recorded(builder.view_of(), 0, zero32.0),
            out_limbs@.len() == c,
            forall|k: int|
                0 <= k < out_limbs@.len() ==> builder.connectable((#[trigger] out_limbs@[k]).0),
            forall|k: int|
                0 <= k < c ==> u32_fold_chain_recorded(
                    builder.view_of(),
                    base_t.0,
                    limbs@.subrange(
                        per_chunk as int * k,
                        per_chunk as int * k + per_chunk as int,
                    ),
                    (#[trigger] out_limbs@[k]).0,
                ),
    {
        let mut combined = zero32;
        proof {
            vstd::arithmetic::mul::lemma_mul_nonnegative(c as int, per_chunk as int);
            vstd::arithmetic::mul::lemma_mul_inequality(
                c as int + 1,
                num_chunks as int,
                per_chunk as int,
            );
            vstd::arithmetic::mul::lemma_mul_is_distributive_add_other_way(
                per_chunk as int,
                c as int,
                1,
            );
            vstd::arithmetic::mul::lemma_mul_is_commutative(c as int + 1, per_chunk as int);
            vstd::arithmetic::mul::lemma_mul_is_commutative(num_chunks as int, per_chunk as int);
            vstd::arithmetic::mul::lemma_mul_is_commutative(per_chunk as int, c as int);
            assert(0 <= per_chunk as int * c);
            assert(per_chunk as int * c + per_chunk as int <= limbs@.len());
        }
        let ghost zero_t = zero32.0;
        let ghost chunk = limbs@.subrange(
            per_chunk as int * c,
            per_chunk as int * c + per_chunk as int,
        );
        let ghost mut chain: Seq<Target> = seq![combined.0];
        let ghost mut highs: Seq<Target> = Seq::empty();
        let mut idx = per_chunk;
        while idx > 0
            invariant
                builder.wf(),
                !builder.finalized,
                start.view_of() == old(builder).view_of(),
                builder_extends(start.view_of(), builder.view_of()),
                builder.config == old(builder).config,
                builder.config.num_routed_wires >= 6,
                builder.config.num_wires >= 38,
                builder.config.max_degree >= 4,
                idx <= per_chunk,
                c < num_chunks,
                !old(builder).finalized,
                c * per_chunk >= 0,
                c * per_chunk + per_chunk <= limbs@.len(),
                num_chunks * per_chunk <= limbs@.len(),
                builder.gates@.len() <= start.gates@.len() + c * per_chunk + (per_chunk - idx),
                builder.num_virtual <= start.num_virtual + 2,
                chunk == limbs@.subrange(
                    per_chunk as int * c,
                    per_chunk as int * c + per_chunk as int,
                ),
                chunk.len() == per_chunk,
                forall|k: int| 0 <= k < limbs@.len() ==> builder.connectable(#[trigger] limbs@[k]),
                builder.connectable(base_t.0),
                builder.connectable(combined.0),
                constant_recorded(builder.view_of(), base as u64, base_t.0),
                constant_recorded(builder.view_of(), 0, zero_t),
                forall|k: int|
                    0 <= k < out_limbs@.len() ==> builder.connectable(
                        (#[trigger] out_limbs@[k]).0,
                    ),
                forall|k: int|
                    0 <= k < out_limbs@.len() ==> u32_fold_chain_recorded(
                        builder.view_of(),
                        base_t.0,
                        limbs@.subrange(
                            per_chunk as int * k,
                            per_chunk as int * k + per_chunk as int,
                        ),
                        (#[trigger] out_limbs@[k]).0,
                    ),
                chain.len() == per_chunk - idx + 1,
                chain[0] == zero_t,
                combined.0 == chain[chain.len() - 1],
                highs.len() == per_chunk - idx,
                forall|j: int|
                    0 <= j < chain.len() - 1 ==> u32_mul_add_recorded(
                        builder.view_of(),
                        chain[j],
                        base_t.0,
                        chunk[chunk.len() - 1 - j],
                        #[trigger] chain[j + 1],
                        highs[j],
                    ),
            decreases idx,
        {
            idx = idx - 1;
            proof {
                assert(c * per_chunk >= 0) by (nonlinear_arith)
                    requires
                        c >= 0,
                        per_chunk >= 0;
                vstd::std_specs::vec::axiom_spec_len(limbs);
                assert(c * per_chunk + idx < limbs@.len());
            }
            let limb_idx = c * per_chunk + idx;
            let ghost step_pre = *builder;
            let pair = match builder.mul_add_u32(combined, base_t, U32Target(limbs[limb_idx])) {
                Ok(p) => p,
                Err(e) => {
                    return Err(e);
                },
            };
            proof {
                lemma_recorded_extends(step_pre.view_of(), builder.view_of());
                lemma_builder_extends_trans(
                    start.view_of(),
                    step_pre.view_of(),
                    builder.view_of(),
                );
                assert forall|k: int| 0 <= k < limbs@.len() implies builder.connectable(
                    #[trigger] limbs@[k],
                ) by {
                    assert(step_pre.connectable(limbs@[k]));
                }
                assert(builder.connectable(base_t.0)) by {
                    assert(step_pre.connectable(base_t.0));
                }
                assert forall|k: int| 0 <= k < out_limbs@.len() implies builder.connectable(
                    (#[trigger] out_limbs@[k]).0,
                ) by {
                    assert(step_pre.connectable(out_limbs@[k].0));
                }
                assert forall|k: int| 0 <= k < out_limbs@.len() implies u32_fold_chain_recorded(
                    builder.view_of(),
                    base_t.0,
                    limbs@.subrange(
                        per_chunk as int * k,
                        per_chunk as int * k + per_chunk as int,
                    ),
                    (#[trigger] out_limbs@[k]).0,
                ) by {
                    lemma_fold_chain_extends(
                        step_pre.view_of(),
                        builder.view_of(),
                        base_t.0,
                        limbs@.subrange(
                            per_chunk as int * k,
                            per_chunk as int * k + per_chunk as int,
                        ),
                        out_limbs@[k].0,
                    );
                }
                assert forall|j: int| 0 <= j < chain.len() - 1 implies u32_mul_add_recorded(
                    builder.view_of(),
                    chain[j],
                    base_t.0,
                    chunk[chunk.len() - 1 - j],
                    #[trigger] chain[j + 1],
                    highs[j],
                ) by {
                    assert(u32_mul_add_recorded(
                        step_pre.view_of(),
                        chain[j],
                        base_t.0,
                        chunk[chunk.len() - 1 - j],
                        chain[j + 1],
                        highs[j],
                    ));
                }
                assert(chunk[per_chunk - 1 - (chain.len() - 1)] == limbs@[limb_idx as int]);
                chain = chain.push(pair.0.0);
                highs = highs.push(pair.1.0);
                assert(u32_mul_add_recorded(
                    builder.view_of(),
                    chain[chain.len() - 2],
                    base_t.0,
                    chunk[chunk.len() - 1 - (chain.len() - 2)],
                    chain[chain.len() - 1],
                    highs[highs.len() - 1],
                ));
            }
            combined = pair.0;
        }
        proof {
            assert(u32_fold_chain_recorded(builder.view_of(), base_t.0, chunk, combined.0));
        }
        out_limbs.push(combined);
    }
    proof {
        assert(constant_recorded(builder.view_of(), base as u64, base_t.0));
        assert forall|c: int| 0 <= c < out_limbs@.len() implies u32_fold_chain_recorded(
            builder.view_of(),
            base_t.0,
            limbs@.subrange(per_chunk as int * c, per_chunk as int * c + per_chunk as int),
            (#[trigger] out_limbs@[c]).0,
        ) by {}
        assert(recombine_recorded(
            builder.view_of(),
            base as u64,
            limbs@,
            per_chunk as int,
            out_limbs@,
        ));
    }
    Ok(NonNativeTarget { value: BigUintTarget { limbs: out_limbs } })
}

/// A recorded 4-bit split survives an extension of the builder's state.
proof fn lemma_u32_split_extends(
    pre: BuilderView,
    cur: BuilderView,
    src: Target,
    outs: Seq<Target>,
    row: usize,
)
    requires
        builder_extends(pre, cur),
        u32_split_4bit_recorded(pre, src, outs, row),
    ensures
        u32_split_4bit_recorded(cur, src, outs, row),
{
    lemma_recorded_extends(pre, cur);
    let four_t = choose|four_t: Target|
        #![auto]
        constant_recorded(pre, 4, four_t) && forall|i: int|
            0 <= i < 8 ==> mul_add_recorded(
                pre,
                Target::Wire { row, column: (2 * i + 2) as usize },
                four_t,
                Target::Wire { row, column: (2 * i + 1) as usize },
                #[trigger] outs[i],
            );
    assert forall|i: int| 0 <= i < 8 implies mul_add_recorded(
        cur,
        Target::Wire { row, column: (2 * i + 2) as usize },
        four_t,
        Target::Wire { row, column: (2 * i + 1) as usize },
        #[trigger] outs[i],
    ) by {
        assert(mul_add_recorded(
            pre,
            Target::Wire { row, column: (2 * i + 2) as usize },
            four_t,
            Target::Wire { row, column: (2 * i + 1) as usize },
            outs[i],
        ));
    }
    assert(constant_recorded(cur, 4, four_t));
    assert(base_sum_split_recorded(cur, 4, 16, src, row));
}

/// A recorded fold chain survives an extension of the builder's state.
proof fn lemma_fold_chain_extends(
    pre: BuilderView,
    cur: BuilderView,
    base_t: Target,
    limbs: Seq<Target>,
    out: Target,
)
    requires
        builder_extends(pre, cur),
        u32_fold_chain_recorded(pre, base_t, limbs, out),
    ensures
        u32_fold_chain_recorded(cur, base_t, limbs, out),
{
    let (chain, zero_t, highs) = choose|chain: Seq<Target>, zero_t: Target, highs: Seq<Target>|
        #![auto]
        {
            &&& constant_recorded(pre, 0, zero_t)
            &&& chain.len() == limbs.len() + 1
            &&& chain[0] == zero_t
            &&& highs.len() == limbs.len()
            &&& forall|j: int|
                0 <= j < limbs.len() ==> u32_mul_add_recorded(
                    pre,
                    chain[j],
                    base_t,
                    limbs[limbs.len() - 1 - j],
                    #[trigger] chain[j + 1],
                    highs[j],
                )
            &&& out == chain[chain.len() - 1]
        };
    lemma_recorded_extends(pre, cur);
    assert forall|j: int| 0 <= j < limbs.len() implies u32_mul_add_recorded(
        cur,
        chain[j],
        base_t,
        limbs[limbs.len() - 1 - j],
        #[trigger] chain[j + 1],
        highs[j],
    ) by {
        assert(u32_mul_add_recorded(
            pre,
            chain[j],
            base_t,
            limbs[limbs.len() - 1 - j],
            chain[j + 1],
            highs[j],
        ));
    }
    assert(constant_recorded(cur, 0, zero_t));
}

} // verus!
