//! A catalog of gates: constraint templates that can be placed on rows of the
//! grid.
//!
//! Each gate type knows how many wires of its row it consumes, the degree of
//! its constraint polynomials, how many constraints it contributes, and where
//! each of its named wires sits inside the row.  The constraint polynomials
//! themselves are evaluated in `crate::eval`, and each gate's deterministic
//! output computation lives in `crate::generator`.

use vstd::prelude::*;
use crate::config::CircuitConfig;

verus! {

/// The ceiling of `a / b`.
pub fn ceil_div_usize(a: usize, b: usize) -> (r: usize)
    requires
        b > 0,
        a + b <= usize::MAX,
    ensures
        r == (a + b - 1) as int / b as int,
{
    (a + b - 1) / b
}

/// The ceiling of `a / b`, as a mathematical integer.
pub open spec fn spec_ceil_div(a: int, b: int) -> int {
    (a + b - 1) / b
}

// ---------------------------------------------------------------------------
// Arithmetic gate
// ---------------------------------------------------------------------------

/// A gate computing `out = a * b + c`, with several independent operations
/// packed into one row.  Addition alone is the special case `b = 1`.
#[derive(Clone, Copy, Debug, PartialEq, Eq, Structural)]
pub struct ArithmeticGate {
    /// How many independent operations this row packs.
    pub num_ops: usize,
}

impl ArithmeticGate {
    /// Parameter bounds under which every wire index fits comfortably in a
    /// machine word.
    pub open spec fn wf(self) -> bool {
        1 <= self.num_ops <= 0x4000
    }

    /// Packs as many operations per row as the configured wire counts allow;
    /// all four wires of an operation are routed.
    pub fn new_from_config(config: &CircuitConfig) -> (g: ArithmeticGate)
        requires
            config.wf(),
            config.num_routed_wires >= 4,
        ensures
            g.wf(),
            g.num_ops == config.num_routed_wires as int / 4,
    {
        ArithmeticGate { num_ops: config.num_routed_wires / 4 }
    }

    /// The wire holding the first multiplicand of operation `i`.
    pub open spec fn spec_wire_ith_multiplicand_0(self, i: int) -> int {
        4 * i
    }

    /// The wire holding the second multiplicand of operation `i`.
    pub open spec fn spec_wire_ith_multiplicand_1(self, i: int) -> int {
        4 * i + 1
    }

    /// The wire holding the addend of operation `i`.
    pub open spec fn spec_wire_ith_addend(self, i: int) -> int {
        4 * i + 2
    }

    /// The wire holding the output of operation `i`.
    pub open spec fn spec_wire_ith_output(self, i: int) -> int {
        4 * i + 3
    }

    /// The wire holding the first multiplicand of operation `i`.
    pub fn wire_ith_multiplicand_0(&self, i: usize) -> (w: usize)
        requires
            self.wf(),
            i < self.num_ops,
        ensures
            w == self.spec_wire_ith_multiplicand_0(i as int),
    {
        4 * i
    }

    /// The wire holding the second multiplicand of operation `i`.
    pub fn wire_ith_multiplicand_1(&self, i: usize) -> (w: usize)
        requires
            self.wf(),
            i < self.num_ops,
        ensures
            w == self.spec_wire_ith_multiplicand_1(i as int),
    {
        4 * i + 1
    }

    /// The wire holding the addend of operation `i`.
    pub fn wire_ith_addend(&self, i: usize) -> (w: usize)
        requires
            self.wf(),
            i < self.num_ops,
        ensures
            w == self.spec_wire_ith_addend(i as int),
    {
        4 * i + 2
    }

    /// The wire holding the output of operation `i`.
    pub fn wire_ith_output(&self, i: usize) -> (w: usize)
        requires
            self.wf(),
            i < self.num_ops,
        ensures
            w == self.spec_wire_ith_output(i as int),
    {
        4 * i + 3
    }
}

// ---------------------------------------------------------------------------
// Comparison gate
// ---------------------------------------------------------------------------

/// A gate checking that one value is less than or equal to another.
///
/// Both inputs are split into `num_chunks` chunks of `chunk_bits` bits each,
/// every chunk is range-checked by a zero product, and the most significant
/// differing chunk decides the result; equal inputs count as less-or-equal.
#[derive(Clone, Copy, Debug, PartialEq, Eq, Structural)]
pub struct ComparisonGate {
    /// How many bits of each input take part in the comparison.
    pub num_bits: usize,
    /// Into how many equal chunks each input is split.
    pub num_chunks: usize,
}

impl ComparisonGate {
    /// Parameter bounds: the inputs fit in a word below the field order,
    /// the chunk count fits that word, and each chunk is at most 8 bits.
    /// The chunk-width cap is a machine limit of this implementation: the
    /// zero-product range check has degree `2^chunk_bits` and is evaluated
    /// by a loop of that many factors, so one-byte chunks keep both the
    /// constraint degree and the evaluation cost within reason; narrower
    /// grids reach the same inputs by raising `num_chunks`.
    pub open spec fn wf(self) -> bool {
        &&& 1 <= self.num_bits < 64
        &&& 1 <= self.num_chunks <= 64
        &&& spec_ceil_div(self.num_bits as int, self.num_chunks as int) <= 8
    }

    /// A comparison gate over `num_bits`-bit values split into `num_chunks`
    /// chunks.
    pub fn new(num_bits: usize, num_chunks: usize) -> (g: ComparisonGate)
        requires
            1 <= num_bits < 64,
            1 <= num_chunks <= 64,
            spec_ceil_div(num_bits as int, num_chunks as int) <= 8,
        ensures
            g.wf(),
            g.num_bits == num_bits,
            g.num_chunks == num_chunks,
    {
        ComparisonGate { num_bits, num_chunks }
    }

    /// The width of one chunk, in bits.
    pub open spec fn spec_chunk_bits(self) -> int {
        spec_ceil_div(self.num_bits as int, self.num_chunks as int)
    }

    /// The width of one chunk, in bits.
    pub fn chunk_bits(&self) -> (r: usize)
        requires
            self.wf(),
        ensures
            r == self.spec_chunk_bits(),
            1 <= r <= 8,
    {
        proof {
            vstd::arithmetic::div_mod::lemma_div_pos_is_pos(
                self.num_bits as int + self.num_chunks as int - 1,
                self.num_chunks as int,
            );
            if self.spec_chunk_bits() < 1 {
                vstd::arithmetic::div_mod::lemma_div_non_zero(
                    self.num_bits as int + self.num_chunks as int - 1,
                    self.num_chunks as int,
                );
            }
        }
        ceil_div_usize(self.num_bits, self.num_chunks)
    }

    /// The wire holding the first input.
    pub open spec fn spec_wire_first_input(self) -> int {
        0
    }

    /// The wire holding the second input.
    pub open spec fn spec_wire_second_input(self) -> int {
        1
    }

    /// The wire holding the boolean result.
    pub open spec fn spec_wire_result_bool(self) -> int {
        2
    }

    /// The wire holding the most significant chunk difference.
    pub open spec fn spec_wire_most_significant_diff(self) -> int {
        3
    }

    /// The wire holding chunk `chunk` of the first input.
    pub open spec fn spec_wire_first_chunk_val(self, chunk: int) -> int {
        4 + chunk
    }

    /// The wire holding chunk `chunk` of the second input.
    pub open spec fn spec_wire_second_chunk_val(self, chunk: int) -> int {
        4 + self.num_chunks + chunk
    }

    /// The auxiliary wire witnessing whether chunk `chunk` of the inputs
    /// differ: it holds the inverse of their difference when they do.
    pub open spec fn spec_wire_equality_dummy(self, chunk: int) -> int {
        4 + 2 * self.num_chunks + chunk
    }

    /// The boolean wire recording whether chunk `chunk` of the inputs agree.
    pub open spec fn spec_wire_chunks_equal(self, chunk: int) -> int {
        4 + 3 * self.num_chunks + chunk
    }

    /// The wire carrying the running most-significant-difference value after
    /// chunk `chunk`.
    pub open spec fn spec_wire_intermediate_value(self, chunk: int) -> int {
        4 + 4 * self.num_chunks + chunk
    }

    /// The wire holding bit `bit_index` of `2^chunk_bits` plus the most
    /// significant chunk difference.
    pub open spec fn spec_wire_most_significant_diff_bit(self, bit_index: int) -> int {
        4 + 5 * self.num_chunks + bit_index
    }

    /// The wire holding the first input.
    pub fn wire_first_input(&self) -> (w: usize)
        ensures
            w == self.spec_wire_first_input(),
    {
        0
    }

    /// The wire holding the second input.
    pub fn wire_second_input(&self) -> (w: usize)
        ensures
            w == self.spec_wire_second_input(),
    {
        1
    }

    /// The wire holding the boolean result.
    pub fn wire_result_bool(&self) -> (w: usize)
        ensures
            w == self.spec_wire_result_bool(),
    {
        2
    }

    /// The wire holding the most significant chunk difference.
    pub fn wire_most_significant_diff(&self) -> (w: usize)
        ensures
            w == self.spec_wire_most_significant_diff(),
    {
        3
    }

    /// The wire holding chunk `chunk` of the first input.
    pub fn wire_first_chunk_val(&self, chunk: usize) -> (w: usize)
        requires
            self.wf(),
            chunk < self.num_chunks,
        ensures
            w == self.spec_wire_first_chunk_val(chunk as int),
    {
        4 + chunk
    }

    /// The wire holding chunk `chunk` of the second input.
    pub fn wire_second_chunk_val(&self, chunk: usize) -> (w: usize)
        requires
            self.wf(),
            chunk < self.num_chunks,
        ensures
            w == self.spec_wire_second_chunk_val(chunk as int),
    {
        4 + self.num_chunks + chunk
    }

    /// The auxiliary inverse-of-difference wire for chunk `chunk`.
    pub fn wire_equality_dummy(&self, chunk: usize) -> (w: usize)
        requires
            self.wf(),
            chunk < self.num_chunks,
        ensures
            w == self.spec_wire_equality_dummy(chunk as int),
    {
        4 + 2 * self.num_chunks + chunk
    }

    /// The boolean wire recording whether chunk `chunk` of the inputs agree.
    pub fn wire_chunks_equal(&self, chunk: usize) -> (w: usize)
        requires
            self.wf(),
            chunk < self.num_chunks,
        ensures
            w == self.spec_wire_chunks_equal(chunk as int),
    {
        4 + 3 * self.num_chunks + chunk
    }

    /// The running most-significant-difference wire after chunk `chunk`.
    pub fn wire_intermediate_value(&self, chunk: usize) -> (w: usize)
        requires
            self.wf(),
            chunk < self.num_chunks,
        ensures
            w == self.spec_wire_intermediate_value(chunk as int),
    {
        4 + 4 * self.num_chunks + chunk
    }

    /// The wire holding bit `bit_index` of `2^chunk_bits` plus the most
    /// significant chunk difference.
    pub fn wire_most_significant_diff_bit(&self, bit_index: usize) -> (w: usize)
        requires
            self.wf(),
            bit_index <= self.spec_chunk_bits(),
        ensures
            w == self.spec_wire_most_significant_diff_bit(bit_index as int),
    {
        4 + 5 * self.num_chunks + bit_index
    }

    /// Wires this gate consumes.
    pub open spec fn spec_num_wires(self) -> int {
        4 + 5 * self.num_chunks + self.spec_chunk_bits() + 1
    }

    /// Constraints this gate contributes.
    pub open spec fn spec_num_constraints(self) -> int {
        6 + 5 * self.num_chunks + self.spec_chunk_bits()
    }

    /// The largest degree among this gate's constraints: the zero-product
    /// range check over one chunk.
    pub open spec fn spec_degree(self) -> int {
        vstd::arithmetic::power2::pow2(self.spec_chunk_bits() as nat) as int
    }
}

// ---------------------------------------------------------------------------
// Base-sum gate
// ---------------------------------------------------------------------------

/// A gate decomposing a value into `num_limbs` base-`base` limbs.
///
/// Wire 0 holds the sum; wires `1 ..= num_limbs` hold the limbs in
/// little-endian order.  Each limb is range-checked by the zero product over
/// `[0, base)`, and the weighted limb sum is constrained to equal wire 0.
#[derive(Clone, Copy, Debug, PartialEq, Eq, Structural)]
pub struct BaseSumGate {
    /// The base of the decomposition.
    pub base: usize,
    /// How many limbs the decomposition produces.
    pub num_limbs: usize,
}

/// The wire of a base-sum gate holding the recombined sum.
pub const BASE_SUM_WIRE_SUM: usize = 0;

/// The first limb wire of a base-sum gate.
pub const BASE_SUM_START_LIMBS: usize = 1;

impl BaseSumGate {
    /// Parameter bounds: a meaningful base and a limb count that keeps every
    /// limb weight computable.
    pub open spec fn wf(self) -> bool {
        &&& 2 <= self.base <= 0x100
        &&& 1 <= self.num_limbs <= 64
    }

    /// A base-sum gate over `num_limbs` base-`base` limbs.
    pub fn new(base: usize, num_limbs: usize) -> (g: BaseSumGate)
        requires
            2 <= base <= 0x100,
            1 <= num_limbs <= 64,
        ensures
            g.wf(),
            g.base == base,
            g.num_limbs == num_limbs,
    {
        BaseSumGate { base, num_limbs }
    }

    /// A base-2 gate with as many limbs as the routed wires allow, capped at
    /// the 63 bits that keep the sum below the field order.
    pub fn new_from_config(config: &CircuitConfig) -> (g: BaseSumGate)
        requires
            config.wf(),
            config.num_routed_wires >= 3,
        ensures
            g.wf(),
            g.base == 2,
            g.num_limbs == if config.num_routed_wires - 1 < 63 {
                config.num_routed_wires - 1
            } else {
                63int
            },
    {
        let limbs = if config.num_routed_wires - 1 < 63 { config.num_routed_wires - 1 } else { 63 };
        BaseSumGate { base: 2, num_limbs: limbs }
    }

    /// The wire holding limb `i`.
    pub open spec fn spec_wire_ith_limb(self, i: int) -> int {
        1 + i
    }

    /// The wire holding limb `i`.
    pub fn wire_ith_limb(&self, i: usize) -> (w: usize)
        requires
            self.wf(),
            i < self.num_limbs,
        ensures
            w == self.spec_wire_ith_limb(i as int),
    {
        1 + i
    }

    /// Wires this gate consumes.
    pub open spec fn spec_num_wires(self) -> int {
        1 + self.num_limbs
    }

    /// Constraints this gate contributes: the sum constraint and one range
    /// check per limb.
    pub open spec fn spec_num_constraints(self) -> int {
        1 + self.num_limbs
    }

    /// The largest degree among this gate's constraints: the zero product
    /// over `[0, base)`.
    pub open spec fn spec_degree(self) -> int {
        self.base as int
    }
}

// ---------------------------------------------------------------------------
// U32 arithmetic gate
// ---------------------------------------------------------------------------

/// A gate performing `out = a * b + c` on 32-bit-bounded values, returning
/// the 64-bit result split into 32-bit halves.
///
/// The halves are decomposed into 2-bit limbs for range checking, and an
/// auxiliary inverse wire proves the combination `high * 2^32 + low` is the
/// canonical representation: the high half being `u32::MAX` forces the low
/// half to zero, so the value never reaches the field order.
#[derive(Clone, Copy, Debug, PartialEq, Eq, Structural)]
pub struct U32ArithmeticGate {
    /// How many independent operations this row packs.
    pub num_ops: usize,
}

impl U32ArithmeticGate {
    /// Parameter bounds under which every wire index fits comfortably in a
    /// machine word.
    pub open spec fn wf(self) -> bool {
        1 <= self.num_ops <= 0x1000
    }

    /// Packs as many operations per row as the configured wire counts
    /// allow.  A row must hold at least one whole operation — 38 wires —
    /// so the degenerate zero-operation gate never arises here.
    pub fn new_from_config(config: &CircuitConfig) -> (g: U32ArithmeticGate)
        requires
            config.wf(),
            config.num_wires >= 38,
            config.num_routed_wires >= 6,
        ensures
            g.wf(),
            g.num_ops == Self::spec_num_ops(*config),
    {
        let wires_per_op = Self::routed_wires_per_op() + Self::num_limbs();
        let a = config.num_wires / wires_per_op;
        let b = config.num_routed_wires / Self::routed_wires_per_op();
        U32ArithmeticGate { num_ops: if a < b { a } else { b } }
    }

    /// How many operations `new_from_config` packs for a configuration.
    pub open spec fn spec_num_ops(config: CircuitConfig) -> int {
        let a = config.num_wires as int / 38;
        let b = config.num_routed_wires as int / 6;
        if a < b {
            a
        } else {
            b
        }
    }

    /// Bits per range-check limb.
    pub fn limb_bits() -> (r: usize)
        ensures
            r == 2,
    {
        2
    }

    /// Limbs per 64-bit output.
    pub fn num_limbs() -> (r: usize)
        ensures
            r == 32,
    {
        64 / 2
    }

    /// Routed wires per packed operation.
    pub fn routed_wires_per_op() -> (r: usize)
        ensures
            r == 6,
    {
        6
    }

    /// The wire holding the first multiplicand of operation `i`.
    pub open spec fn spec_wire_ith_multiplicand_0(self, i: int) -> int {
        6 * i
    }

    /// The wire holding the second multiplicand of operation `i`.
    pub open spec fn spec_wire_ith_multiplicand_1(self, i: int) -> int {
        6 * i + 1
    }

    /// The wire holding the addend of operation `i`.
    pub open spec fn spec_wire_ith_addend(self, i: int) -> int {
        6 * i + 2
    }

    /// The wire holding the low 32 bits of operation `i`'s output.
    pub open spec fn spec_wire_ith_output_low_half(self, i: int) -> int {
        6 * i + 3
    }

    /// The wire holding the high 32 bits of operation `i`'s output.
    pub open spec fn spec_wire_ith_output_high_half(self, i: int) -> int {
        6 * i + 4
    }

    /// The auxiliary wire holding the inverse of `u32::MAX` minus the high
    /// half, or zero when that difference is zero.
    pub open spec fn spec_wire_ith_inverse(self, i: int) -> int {
        6 * i + 5
    }

    /// The wire holding 2-bit limb `j` of operation `i`'s output.
    pub open spec fn spec_wire_ith_output_jth_limb(self, i: int, j: int) -> int {
        6 * self.num_ops + 32 * i + j
    }

    /// The wire holding the first multiplicand of operation `i`.
    pub fn wire_ith_multiplicand_0(&self, i: usize) -> (w: usize)
        requires
            self.wf(),
            i < self.num_ops,
        ensures
            w == self.spec_wire_ith_multiplicand_0(i as int),
    {
        6 * i
    }

    /// The wire holding the second multiplicand of operation `i`.
    pub fn wire_ith_multiplicand_1(&self, i: usize) -> (w: usize)
        requires
            self.wf(),
            i < self.num_ops,
        ensures
            w == self.spec_wire_ith_multiplicand_1(i as int),
    {
        6 * i + 1
    }

    /// The wire holding the addend of operation `i`.
    pub fn wire_ith_addend(&self, i: usize) -> (w: usize)
        requires
            self.wf(),
            i < self.num_ops,
        ensures
            w == self.spec_wire_ith_addend(i as int),
    {
        6 * i + 2
    }

    /// The wire holding the low 32 bits of operation `i`'s output.
    pub fn wire_ith_output_low_half(&self, i: usize) -> (w: usize)
        requires
            self.wf(),
            i < self.num_ops,
        ensures
            w == self.spec_wire_ith_output_low_half(i as int),
    {
        6 * i + 3
    }

    /// The wire holding the high 32 bits of operation `i`'s output.
    pub fn wire_ith_output_high_half(&self, i: usize) -> (w: usize)
        requires
            self.wf(),
            i < self.num_ops,
        ensures
            w == self.spec_wire_ith_output_high_half(i as int),
    {
        6 * i + 4
    }

    /// The auxiliary not-max inverse wire of operation `i`.
    pub fn wire_ith_inverse(&self, i: usize) -> (w: usize)
        requires
            self.wf(),
            i < self.num_ops,
        ensures
            w == self.spec_wire_ith_inverse(i as int),
    {
        6 * i + 5
    }

    /// The wire holding 2-bit limb `j` of operation `i`'s output.
    pub fn wire_ith_output_jth_limb(&self, i: usize, j: usize) -> (w: usize)
        requires
            self.wf(),
            i < self.num_ops,
            j < 32,
        ensures
            w == self.spec_wire_ith_output_jth_limb(i as int, j as int),
    {
        6 * self.num_ops + 32 * i + j
    }
}

// ---------------------------------------------------------------------------
// The catalog
// ---------------------------------------------------------------------------

/// One entry of this catalog of gates, carrying its parameters.
#[derive(Clone, Copy, Debug, PartialEq, Eq, Structural)]
pub enum GateKind {
    /// `out = a * b + c` over packed operations.
    Arithmetic(ArithmeticGate),
    /// Less-or-equal comparison of two chunked values.
    Comparison(ComparisonGate),
    /// Base-`B` decomposition with recombination.
    BaseSum(BaseSumGate),
    /// Multiply-add over 32-bit-bounded values.
    U32Arithmetic(U32ArithmeticGate),
}

impl GateKind {
    /// The parameter bounds of the wrapped gate.
    pub open spec fn wf(self) -> bool {
        match self {
            GateKind::Arithmetic(g) => g.wf(),
            GateKind::Comparison(g) => g.wf(),
            GateKind::BaseSum(g) => g.wf(),
            GateKind::U32Arithmetic(g) => g.wf(),
        }
    }

    /// Wires this gate consumes at its row.
    pub open spec fn spec_num_wires(self) -> int {
        match self {
            GateKind::Arithmetic(g) => 4 * g.num_ops,
            GateKind::Comparison(g) => g.spec_num_wires(),
            GateKind::BaseSum(g) => g.spec_num_wires(),
            GateKind::U32Arithmetic(g) => 38 * g.num_ops,
        }
    }

    /// Wires this gate consumes at its row.
    pub fn num_wires(&self) -> (r: usize)
        requires
            self.wf(),
        ensures
            r == self.spec_num_wires(),
    {
        match self {
            GateKind::Arithmetic(g) => 4 * g.num_ops,
            GateKind::Comparison(g) => {
                let cb = g.chunk_bits();
                4 + 5 * g.num_chunks + cb + 1
            },
            GateKind::BaseSum(g) => 1 + g.num_limbs,
            GateKind::U32Arithmetic(g) => 38 * g.num_ops,
        }
    }

    /// The maximum total degree of this gate's constraint polynomials.
    pub open spec fn spec_degree(self) -> int {
        match self {
            GateKind::Arithmetic(_) => 2,
            GateKind::Comparison(g) => g.spec_degree(),
            GateKind::BaseSum(g) => g.spec_degree(),
            GateKind::U32Arithmetic(_) => 4,
        }
    }

    /// The maximum total degree of this gate's constraint polynomials.
    pub fn degree(&self) -> (r: usize)
        requires
            self.wf(),
        ensures
            r == self.spec_degree(),
    {
        match self {
            GateKind::Arithmetic(_) => 2,
            GateKind::Comparison(g) => {
                let cb = g.chunk_bits();
                proof {
                    lemma_small_pow2(cb as nat);
                }
                1usize << cb
            },
            GateKind::BaseSum(g) => g.base,
            GateKind::U32Arithmetic(_) => 4,
        }
    }

    /// How many constraints this gate contributes.
    pub open spec fn spec_num_constraints(self) -> int {
        match self {
            GateKind::Arithmetic(g) => g.num_ops as int,
            GateKind::Comparison(g) => g.spec_num_constraints(),
            GateKind::BaseSum(g) => g.spec_num_constraints(),
            GateKind::U32Arithmetic(g) => 36 * g.num_ops,
        }
    }

    /// How many constraints this gate contributes.
    pub fn num_constraints(&self) -> (r: usize)
        requires
            self.wf(),
        ensures
            r == self.spec_num_constraints(),
    {
        match self {
            GateKind::Arithmetic(g) => g.num_ops,
            GateKind::Comparison(g) => {
                let cb = g.chunk_bits();
                6 + 5 * g.num_chunks + cb
            },
            GateKind::BaseSum(g) => 1 + g.num_limbs,
            GateKind::U32Arithmetic(g) => 36 * g.num_ops,
        }
    }
}

/// A left shift of 1 by at most 8 bits computes the matching power of two.
proof fn lemma_small_pow2(e: nat)
    requires
        e <= 8,
    ensures
        (1usize << (e as usize)) == vstd::arithmetic::power2::pow2(e),
        vstd::arithmetic::power2::pow2(e) <= 256,
{
    vstd::arithmetic::power2::lemma2_to64();
    if e < 8 {
        vstd::arithmetic::power2::lemma_pow2_strictly_increases(e, 8);
    }
    vstd::bits::lemma_usize_shl_is_mul(1, e as usize);
}

} // verus!
