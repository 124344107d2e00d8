//! Witness generators: the deterministic computation attached to each gate.
//!
//! A generator declares the targets it reads and, once all of them carry
//! values, computes the targets it writes.  Every run is a pure function of
//! the dependency values, so resolution as a whole is deterministic; the
//! spec functions here pin each generator's exact output list.

use vstd::prelude::*;
use crate::field::{FieldElem, fadd_spec, fmul_spec, fsub_spec, finv_spec, invertible, FIELD_ORDER};
use crate::gates::{ArithmeticGate, BaseSumGate, ComparisonGate, U32ArithmeticGate};
use crate::layout::Layout;
use crate::target::{target_in, BoolTarget, Target};

verus! {

/// A unit of deterministic computation producing wire values.
#[derive(Debug)]
#[verifier::ext_equal]
pub enum Generator {
    /// Writes a fixed value to one target.
    Constant { target: Target, value: FieldElem },
    /// One packed operation of an arithmetic gate row: `out = a * b + c`.
    ArithmeticOp { gate: ArithmeticGate, row: usize, i: usize },
    /// One packed operation of a u32 arithmetic gate row.
    U32ArithmeticOp { gate: U32ArithmeticGate, row: usize, i: usize },
    /// The single generator of a comparison gate row.
    Comparison { gate: ComparisonGate, row: usize },
    /// Splits a base-sum row's sum wire into its limbs.
    BaseSplit { gate: BaseSumGate, row: usize },
    /// Recombines boolean limbs into a base-sum row's sum wire.
    BaseSum { row: usize, limbs: Vec<BoolTarget> },
}

/// Digit `j` of `v` written in base `base`, little-endian.
pub open spec fn spec_digit(v: int, base: int, j: int) -> int {
    (v / vstd::arithmetic::power::pow(base, j as nat)) % base
}

/// The little-endian weighted sum of `vals` in base `base`, reduced modulo
/// the field order.
pub open spec fn spec_weighted_sum(vals: Seq<FieldElem>, base: int) -> int
    decreases vals.len(),
{
    if vals.len() == 0 {
        0
    } else {
        fadd_spec(vals[0].value as int, fmul_spec(base, spec_weighted_sum(vals.skip(1), base)))
    }
}

impl Generator {
    /// Validity against a grid of `rows` rows of `num_wires` wires each,
    /// with `num_virtual` virtual targets: every named row, wire, and
    /// target exists in that grid, and its gate parameters are in bounds.
    pub open spec fn wf_for(self, rows: int, num_wires: int, num_virtual: int) -> bool {
        match self {
            Generator::Constant { target, value } => target_in(target, rows, num_wires, num_virtual)
                && value.is_canonical(),
            Generator::ArithmeticOp { gate, row, i } => gate.wf() && i < gate.num_ops && row < rows
                && 4 * gate.num_ops <= num_wires,
            Generator::U32ArithmeticOp { gate, row, i } => gate.wf() && i < gate.num_ops && row
                < rows && 38 * gate.num_ops <= num_wires,
            Generator::Comparison { gate, row } => gate.wf() && row < rows && gate.spec_num_wires()
                <= num_wires,
            Generator::BaseSplit { gate, row } => gate.wf() && row < rows && gate.spec_num_wires()
                <= num_wires,
            Generator::BaseSum { row, limbs } => row < rows && limbs.len() <= 64 && num_wires >= 1
                && forall|k: int|
                0 <= k < limbs.len() ==> target_in(
                    (#[trigger] limbs[k]).target,
                    rows,
                    num_wires,
                    num_virtual,
                ),
        }
    }

    /// Validity against a layout's grid.
    pub open spec fn wf(self, layout: Layout) -> bool {
        self.wf_for(
            layout.gates.len() as int,
            layout.config.num_wires as int,
            layout.num_virtual as int,
        )
    }

    /// Growing the grid keeps a generator valid.
    pub proof fn lemma_wf_for_monotone(
        self,
        rows1: int,
        rows2: int,
        num_wires: int,
        nv1: int,
        nv2: int,
    )
        requires
            self.wf_for(rows1, num_wires, nv1),
            rows1 <= rows2,
            nv1 <= nv2,
        ensures
            self.wf_for(rows2, num_wires, nv2),
    {
    }

    /// The targets this generator reads, in order.
    pub open spec fn spec_deps(self) -> Seq<Target> {
        match self {
            Generator::Constant { .. } => Seq::empty(),
            Generator::ArithmeticOp { gate, row, i } => seq![
                Target::Wire { row, column: (4 * i) as usize },
                Target::Wire { row, column: (4 * i + 1) as usize },
                Target::Wire { row, column: (4 * i + 2) as usize },
            ],
            Generator::U32ArithmeticOp { gate, row, i } => seq![
                Target::Wire { row, column: (6 * i) as usize },
                Target::Wire { row, column: (6 * i + 1) as usize },
                Target::Wire { row, column: (6 * i + 2) as usize },
            ],
            Generator::Comparison { gate, row } => seq![
                Target::Wire { row, column: 0 },
                Target::Wire { row, column: 1 },
            ],
            Generator::BaseSplit { gate, row } => seq![Target::Wire { row, column: 0 }],
            Generator::BaseSum { row, limbs } => limbs@.map(|k: int, b: BoolTarget| b.target),
        }
    }

    /// The targets this generator reads, in order.
    pub fn dependencies(&self, layout: &Layout) -> (r: Vec<Target>)
        requires
            self.wf(*layout),
        ensures
            r@ == self.spec_deps(),
    {
        match self {
            Generator::Constant { .. } => Vec::new(),
            Generator::ArithmeticOp { gate, row, i } => {
                let mut v: Vec<Target> = Vec::new();
                v.push(Target::Wire { row: *row, column: 4 * i });
                v.push(Target::Wire { row: *row, column: 4 * i + 1 });
                v.push(Target::Wire { row: *row, column: 4 * i + 2 });
                proof {
                    assert(v@ =~= self.spec_deps());
                }
                v
            },
            Generator::U32ArithmeticOp { gate, row, i } => {
                let mut v: Vec<Target> = Vec::new();
                v.push(Target::Wire { row: *row, column: 6 * i });
                v.push(Target::Wire { row: *row, column: 6 * i + 1 });
                v.push(Target::Wire { row: *row, column: 6 * i + 2 });
                proof {
                    assert(v@ =~= self.spec_deps());
                }
                v
            },
            Generator::Comparison { gate, row } => {
                let mut v: Vec<Target> = Vec::new();
                v.push(Target::Wire { row: *row, column: 0 });
                v.push(Target::Wire { row: *row, column: 1 });
                proof {
                    assert(v@ =~= self.spec_deps());
                }
                v
            },
            Generator::BaseSplit { gate, row } => {
                let mut v: Vec<Target> = Vec::new();
                v.push(Target::Wire { row: *row, column: 0 });
                proof {
                    assert(v@ =~= self.spec_deps());
                }
                v
            },
            Generator::BaseSum { row, limbs } => {
                let mut v: Vec<Target> = Vec::new();
                let n = limbs.len();
                for k in 0..n
                    invariant
                        n == limbs.len(),
                        v@.len() == k,
                        forall|m: int| 0 <= m < k ==> v@[m] == limbs@[m].target,
                {
                    v.push(limbs[k].target);
                }
                proof {
                    assert(v@ =~= self.spec_deps());
                }
                v
            },
        }
    }
}

/// The chunk size of a comparison gate: two to the chunk width.
pub open spec fn cmp_chunk_size(g: ComparisonGate) -> int {
    vstd::arithmetic::power2::pow2(g.spec_chunk_bits() as nat) as int
}

/// The running most-significant chunk difference after the first `i` chunks,
/// walking from the least significant chunk.
pub open spec fn cmp_msd(first: int, second: int, cs: int, i: int) -> int
    decreases i,
{
    if i <= 0 {
        0
    } else {
        let fc = spec_digit(first, cs, i - 1);
        let sc = spec_digit(second, cs, i - 1);
        if fc == sc {
            cmp_msd(first, second, cs, i - 1)
        } else {
            fsub_spec(sc, fc)
        }
    }
}

/// The running most-significant difference stays canonical.
pub proof fn lemma_cmp_msd_canonical(first: int, second: int, cs: int, i: int)
    ensures
        0 <= cmp_msd(first, second, cs, i) < FIELD_ORDER,
    decreases i,
{
    if i <= 0 {
    } else {
        let fc = spec_digit(first, cs, i - 1);
        let sc = spec_digit(second, cs, i - 1);
        if fc == sc {
            lemma_cmp_msd_canonical(first, second, cs, i - 1);
        } else {
            vstd::arithmetic::div_mod::lemma_mod_bound(sc - fc, FIELD_ORDER as int);
        }
    }
}

/// The five wire values the comparison generator writes for chunk `i`.
pub open spec fn cmp_chunk_pairs(
    g: ComparisonGate,
    row: usize,
    first: int,
    second: int,
    i: int,
) -> Seq<(Target, FieldElem)> {
    let cs = cmp_chunk_size(g);
    let fc = spec_digit(first, cs, i);
    let sc = spec_digit(second, cs, i);
    seq![
        (Target::Wire { row, column: (4 + i) as usize }, FieldElem { value: fc as u64 }),
        (
            Target::Wire { row, column: (4 + g.num_chunks + i) as usize },
            FieldElem { value: sc as u64 },
        ),
        (
            Target::Wire { row, column: (4 + 2 * g.num_chunks + i) as usize },
            FieldElem {
                value: (if fc == sc {
                    1int
                } else {
                    finv_spec(fsub_spec(sc, fc))
                }) as u64,
            },
        ),
        (
            Target::Wire { row, column: (4 + 3 * g.num_chunks + i) as usize },
            FieldElem {
                value: (if fc == sc {
                    1int
                } else {
                    0int
                }) as u64,
            },
        ),
        (
            Target::Wire { row, column: (4 + 4 * g.num_chunks + i) as usize },
            FieldElem {
                value: (if fc == sc {
                    cmp_msd(first, second, cs, i)
                } else {
                    0int
                }) as u64,
            },
        ),
    ]
}

/// The concatenated chunk wire values for the first `i` chunks.
pub open spec fn cmp_chunks_upto(
    g: ComparisonGate,
    row: usize,
    first: int,
    second: int,
    i: int,
) -> Seq<(Target, FieldElem)>
    decreases i,
{
    if i <= 0 {
        Seq::empty()
    } else {
        cmp_chunks_upto(g, row, first, second, i - 1) + cmp_chunk_pairs(
            g,
            row,
            first,
            second,
            i - 1,
        )
    }
}

/// The bit wires of `2^chunk_bits` plus the most significant difference.
pub open spec fn cmp_bit_pairs(g: ComparisonGate, row: usize, v: int) -> Seq<(Target, FieldElem)> {
    Seq::new(
        (g.spec_chunk_bits() + 1) as nat,
        |j: int|
            (
                Target::Wire { row, column: (4 + 5 * g.num_chunks + j) as usize },
                FieldElem { value: spec_digit(v, 2, j) as u64 },
            ),
    )
}

/// Everything the comparison generator writes, in write order.
pub open spec fn cmp_outputs(g: ComparisonGate, row: usize, first: int, second: int) -> Seq<
    (Target, FieldElem),
> {
    let cs = cmp_chunk_size(g);
    let msd = cmp_msd(first, second, cs, g.num_chunks as int);
    let vbits = fadd_spec(cs, msd);
    seq![
        (
            Target::Wire { row, column: 2 },
            FieldElem {
                value: (if first <= second {
                    1int
                } else {
                    0int
                }) as u64,
            },
        ),
        (Target::Wire { row, column: 3 }, FieldElem { value: msd as u64 }),
    ] + cmp_chunks_upto(g, row, first, second, g.num_chunks as int) + cmp_bit_pairs(g, row, vbits)
}

/// Everything one u32 arithmetic operation's generator writes, in write
/// order.
pub open spec fn u32_outputs(
    g: U32ArithmeticGate,
    row: usize,
    i: int,
    m0: int,
    m1: int,
    addend: int,
) -> Seq<(Target, FieldElem)> {
    let out = fadd_spec(fmul_spec(m0, m1), addend);
    let high = out / 0x1_0000_0000;
    let low = out % 0x1_0000_0000;
    let diff = 0xFFFF_FFFF - high;
    let inv = if diff == 0 {
        0int
    } else {
        finv_spec(diff)
    };
    seq![
        (Target::Wire { row, column: (6 * i + 4) as usize }, FieldElem { value: high as u64 }),
        (Target::Wire { row, column: (6 * i + 3) as usize }, FieldElem { value: low as u64 }),
        (Target::Wire { row, column: (6 * i + 5) as usize }, FieldElem { value: inv as u64 }),
    ] + Seq::new(
        32,
        |j: int|
            (
                Target::Wire { row, column: (6 * g.num_ops + 32 * i + j) as usize },
                FieldElem { value: spec_digit(out, 4, j) as u64 },
            ),
    )
}

/// Everything the base-split generator writes: the limbs of the sum.
pub open spec fn base_split_outputs(g: BaseSumGate, row: usize, v: int) -> Seq<
    (Target, FieldElem),
> {
    Seq::new(
        g.num_limbs as nat,
        |i: int|
            (
                Target::Wire { row, column: (1 + i) as usize },
                FieldElem { value: spec_digit(v, g.base as int, i) as u64 },
            ),
    )
}

impl Generator {
    /// Parameter bounds alone, independent of any layout: what `run` needs
    /// to compute wire positions without overflow.
    pub open spec fn shape_wf(self) -> bool {
        match self {
            Generator::Constant { target, value } => value.is_canonical(),
            Generator::ArithmeticOp { gate, row, i } => gate.wf() && i < gate.num_ops,
            Generator::U32ArithmeticOp { gate, row, i } => gate.wf() && i < gate.num_ops,
            Generator::Comparison { gate, row } => gate.wf(),
            Generator::BaseSplit { gate, row } => gate.wf(),
            Generator::BaseSum { row, limbs } => limbs.len() <= 64,
        }
    }

    /// A generator valid for a layout satisfies the parameter bounds.
    pub proof fn lemma_wf_shape(self, layout: Layout)
        requires
            self.wf(layout),
        ensures
            self.shape_wf(),
    {
    }

    /// The pairs this generator writes, as a function of its dependency
    /// values `vals` (in the order of `spec_deps`).
    pub open spec fn spec_outputs(self, vals: Seq<FieldElem>) -> Seq<(Target, FieldElem)> {
        match self {
            Generator::Constant { target, value } => seq![(target, value)],
            Generator::ArithmeticOp { gate, row, i } => seq![
                (
                    Target::Wire { row, column: (4 * i + 3) as usize },
                    FieldElem {
                        value: fadd_spec(
                            fmul_spec(vals[0].value as int, vals[1].value as int),
                            vals[2].value as int,
                        ) as u64,
                    },
                ),
            ],
            Generator::U32ArithmeticOp { gate, row, i } => u32_outputs(
                gate,
                row,
                i as int,
                vals[0].value as int,
                vals[1].value as int,
                vals[2].value as int,
            ),
            Generator::Comparison { gate, row } => cmp_outputs(
                gate,
                row,
                vals[0].value as int,
                vals[1].value as int,
            ),
            Generator::BaseSplit { gate, row } => base_split_outputs(
                gate,
                row,
                vals[0].value as int,
            ),
            Generator::BaseSum { row, limbs } => seq![
                (
                    Target::Wire { row, column: 0 },
                    FieldElem { value: spec_weighted_sum(vals, 2) as u64 },
                ),
            ],
        }
    }
}

/// The first `count` base-`base` digits of `v`, as canonical field elements.
pub open spec fn spec_digit_elems(v: int, base: int, count: int) -> Seq<FieldElem>
    decreases count,
{
    if count <= 0 {
        Seq::empty()
    } else {
        spec_digit_elems(v, base, count - 1).push(
            FieldElem { value: spec_digit(v, base, count - 1) as u64 },
        )
    }
}

/// Splits `v` into its first `count` base-`base` digits, little-endian.
pub fn digits_base(v: u64, base: u64, count: usize) -> (r: Vec<FieldElem>)
    requires
        2 <= base <= 0x100,
        count <= 64,
    ensures
        r@ =~= spec_digit_elems(v as int, base as int, count as int),
        r@.len() == count,
        forall|j: int| 0 <= j < count ==> (#[trigger] r@[j]).value < base,
        forall|j: int|
            0 <= j < count ==> (#[trigger] r@[j]).value == spec_digit(v as int, base as int, j),
{
    let mut r: Vec<FieldElem> = Vec::new();
    let mut acc: u64 = v;
    proof {
        vstd::arithmetic::power::lemma_pow0(base as int);
    }
    for j in 0..count
        invariant
            2 <= base <= 0x100,
            r@ =~= spec_digit_elems(v as int, base as int, j as int),
            r@.len() == j,
            forall|m: int| 0 <= m < j ==> (#[trigger] r@[m]).value < base,
            forall|m: int|
                0 <= m < j ==> (#[trigger] r@[m]).value == spec_digit(v as int, base as int, m),
            acc == v as int / vstd::arithmetic::power::pow(base as int, j as nat),
    {
        let d: u64 = acc % base;
        proof {
            let b = base as int;
            let pj = vstd::arithmetic::power::pow(b, j as nat);
            vstd::arithmetic::power::lemma_pow_positive(b, j as nat);
            assert(d == spec_digit(v as int, b, j as int));
            vstd::arithmetic::div_mod::lemma_div_denominator(v as int, pj, b);
            assert(vstd::arithmetic::power::pow(b, (j + 1) as nat) == b * pj) by {
                vstd::arithmetic::power::lemma_pow_adds(b, 1, j as nat);
                vstd::arithmetic::power::lemma_pow1(b);
            }
            vstd::arithmetic::mul::lemma_mul_is_commutative(b, pj);
            assert(acc as int / b == v as int / vstd::arithmetic::power::pow(
                b,
                (j + 1) as nat,
            ));
        }
        r.push(FieldElem { value: d });
        acc = acc / base;
    }
    r
}

/// The inverse-or-zero value is always canonical.
pub proof fn lemma_finv_canonical(a: int)
    ensures
        0 <= finv_spec(a) < FIELD_ORDER,
{
    if invertible(a) {
        let x = choose|x: int| 0 <= x < FIELD_ORDER && fmul_spec(a, x) == 1;
    }
}

/// Splitting `v` into base-`base` digits never leaves the canonical range.
pub proof fn lemma_digit_canonical(v: int, base: int, j: int)
    requires
        0 <= v,
        2 <= base <= 0x100,
    ensures
        0 <= spec_digit(v, base, j) < base,
{
    vstd::arithmetic::power::lemma_pow_positive(base, j as nat);
    vstd::arithmetic::div_mod::lemma_div_pos_is_pos(
        v,
        vstd::arithmetic::power::pow(base, j as nat),
    );
    vstd::arithmetic::div_mod::lemma_mod_bound(
        v / vstd::arithmetic::power::pow(base, j as nat),
        base,
    );
}

/// The chunk size of a well-formed comparison gate lies in `[2, 256]`, and
/// a 64-bit shift of one by the chunk width computes it.
pub proof fn lemma_chunk_size_range(g: ComparisonGate)
    requires
        g.wf(),
    ensures
        2 <= cmp_chunk_size(g) <= 0x100,
        1 <= g.spec_chunk_bits() <= 8,
        (1u64 << (g.spec_chunk_bits() as u64)) == cmp_chunk_size(g),
{
    vstd::arithmetic::div_mod::lemma_div_non_zero(
        g.num_bits as int + g.num_chunks as int - 1,
        g.num_chunks as int,
    );
    lemma_u64_pow2_small(g.spec_chunk_bits() as nat);
}

/// A power of two with a small exponent, as a shift of a 64-bit word.
proof fn lemma_u64_pow2_small(e: nat)
    requires
        e <= 8,
    ensures
        (1u64 << (e as u64)) == vstd::arithmetic::power2::pow2(e),
        1 <= vstd::arithmetic::power2::pow2(e) <= 256,
        e >= 1 ==> vstd::arithmetic::power2::pow2(e) >= 2,
{
    vstd::arithmetic::power2::lemma2_to64();
    if e < 8 {
        vstd::arithmetic::power2::lemma_pow2_strictly_increases(e, 8);
    }
    if e >= 1 {
        vstd::arithmetic::power2::lemma_pow2_strictly_increases(0, e);
    }
    vstd::bits::lemma_u64_shl_is_mul(1, e as u64);
}

/// Every entry of the chunk pairs up to `i` lies on a chunk wire of the
/// gate's row and carries a canonical value.
proof fn lemma_cmp_chunks_upto_wf(g: ComparisonGate, row: usize, first: int, second: int, i: int)
    requires
        g.wf(),
        0 <= first,
        0 <= second,
        0 <= i <= g.num_chunks,
    ensures
        cmp_chunks_upto(g, row, first, second, i).len() == 5 * i,
        forall|k: int|
            0 <= k < 5 * i ==> {
                let pr = #[trigger] cmp_chunks_upto(g, row, first, second, i)[k];
                &&& pr.0 matches Target::Wire { row: r2, column } && r2 == row && 4 <= column < 4
                    + 5 * g.num_chunks
                &&& pr.1.value < FIELD_ORDER
            },
    decreases i,
{
    let cs = cmp_chunk_size(g);
    vstd::arithmetic::power2::lemma2_to64();
    if g.spec_chunk_bits() < 8 {
        vstd::arithmetic::power2::lemma_pow2_strictly_increases(g.spec_chunk_bits() as nat, 8);
    }
    vstd::arithmetic::div_mod::lemma_div_non_zero(
        g.num_bits as int + g.num_chunks as int - 1,
        g.num_chunks as int,
    );
    vstd::arithmetic::power2::lemma_pow2_strictly_increases(0, g.spec_chunk_bits() as nat);
    if i > 0 {
        lemma_cmp_chunks_upto_wf(g, row, first, second, i - 1);
        lemma_digit_canonical(first, cs, i - 1);
        lemma_digit_canonical(second, cs, i - 1);
        lemma_finv_canonical(
            fsub_spec(spec_digit(second, cs, i - 1), spec_digit(first, cs, i - 1)),
        );
        lemma_cmp_msd_canonical(first, second, cs, i - 1);
        let whole = cmp_chunks_upto(g, row, first, second, i);
        let prev = cmp_chunks_upto(g, row, first, second, i - 1);
        let last = cmp_chunk_pairs(g, row, first, second, i - 1);
        assert forall|k: int| 0 <= k < 5 * i implies {
            let pr = #[trigger] whole[k];
            &&& pr.0 matches Target::Wire { row: r2, column } && r2 == row && 4 <= column < 4 + 5
                * g.num_chunks
            &&& pr.1.value < FIELD_ORDER
        } by {
            if k < 5 * (i - 1) {
                assert(whole[k] == prev[k]);
            } else {
                assert(whole[k] == last[k - 5 * (i - 1)]);
            }
        }
    }
}

impl Generator {
    /// Every pair a well-formed generator writes names a target of the grid
    /// and carries a canonical value.
    pub proof fn lemma_outputs_wf(self, layout: Layout, vals: Seq<FieldElem>)
        requires
            self.wf(layout),
            vals.len() == self.spec_deps().len(),
            forall|k: int| 0 <= k < vals.len() ==> (#[trigger] vals[k]).is_canonical(),
        ensures
            forall|k: int|
                0 <= k < self.spec_outputs(vals).len() ==> layout.target_in_grid(
                    (#[trigger] self.spec_outputs(vals)[k]).0,
                ) && self.spec_outputs(vals)[k].1.is_canonical(),
    {
        let outs = self.spec_outputs(vals);
        match self {
            Generator::Constant { target, value } => {},
            Generator::ArithmeticOp { gate, row, i } => {},
            Generator::U32ArithmeticOp { gate, row, i } => {
                let m0 = vals[0].value as int;
                let m1 = vals[1].value as int;
                let addend = vals[2].value as int;
                let out = fadd_spec(fmul_spec(m0, m1), addend);
                let high = out / 0x1_0000_0000;
                let diff = 0xFFFF_FFFF - high;
                lemma_finv_canonical(diff);
                assert(0 <= high) by {
                    vstd::arithmetic::div_mod::lemma_div_pos_is_pos(out, 0x1_0000_0000);
                }
                assert forall|k: int| 0 <= k < outs.len() implies layout.target_in_grid(
                    (#[trigger] outs[k]).0,
                ) && outs[k].1.is_canonical() by {
                    if k >= 3 {
                        let j = k - 3;
                        assert(outs[k] == (
                            Target::Wire {
                                row,
                                column: (6 * gate.num_ops + 32 * (i as int) + j) as usize,
                            },
                            FieldElem { value: spec_digit(out, 4, j) as u64 },
                        ));
                        lemma_digit_canonical(out, 4, j);
                    }
                }
            },
            Generator::Comparison { gate, row } => {
                let first = vals[0].value as int;
                let second = vals[1].value as int;
                let cs = cmp_chunk_size(gate);
                let msd = cmp_msd(first, second, cs, gate.num_chunks as int);
                let vbits = fadd_spec(cs, msd);
                lemma_cmp_msd_canonical(first, second, cs, gate.num_chunks as int);
                lemma_cmp_chunks_upto_wf(gate, row, first, second, gate.num_chunks as int);
                assert forall|k: int| 0 <= k < outs.len() implies layout.target_in_grid(
                    (#[trigger] outs[k]).0,
                ) && outs[k].1.is_canonical() by {
                    let head = seq![
                        (
                            Target::Wire { row, column: 2 },
                            FieldElem {
                                value: (if first <= second {
                                    1int
                                } else {
                                    0int
                                }) as u64,
                            },
                        ),
                        (Target::Wire { row, column: 3 }, FieldElem { value: msd as u64 }),
                    ];
                    let chunks = cmp_chunks_upto(gate, row, first, second, gate.num_chunks as int);
                    let bits = cmp_bit_pairs(gate, row, vbits);
                    if k < 2 {
                        assert(outs[k] == head[k]);
                    } else if k < 2 + 5 * gate.num_chunks {
                        assert(outs[k] == chunks[k - 2]);
                    } else {
                        assert(outs[k] == bits[k - 2 - 5 * gate.num_chunks]);
                        lemma_digit_canonical(vbits, 2, k - 2 - 5 * gate.num_chunks);
                    }
                }
            },
            Generator::BaseSplit { gate, row } => {
                let v = vals[0].value as int;
                assert forall|k: int| 0 <= k < outs.len() implies layout.target_in_grid(
                    (#[trigger] outs[k]).0,
                ) && outs[k].1.is_canonical() by {
                    lemma_digit_canonical(v, gate.base as int, k);
                }
            },
            Generator::BaseSum { row, limbs } => {},
        }
    }

    /// Every dependency of a well-formed generator names a target of the
    /// grid.
    pub proof fn lemma_deps_in_grid(self, layout: Layout)
        requires
            self.wf(layout),
        ensures
            forall|k: int|
                0 <= k < self.spec_deps().len() ==> layout.target_in_grid(
                    #[trigger] self.spec_deps()[k],
                ),
    {
    }

    /// Runs the generator on its dependency values (in the order of
    /// `spec_deps`) and returns the pairs it writes, in write order.
    pub fn run(&self, deps: &Vec<FieldElem>) -> (outs: Vec<(Target, FieldElem)>)
        requires
            self.shape_wf(),
            deps@.len() == self.spec_deps().len(),
            forall|k: int| 0 <= k < deps@.len() ==> (#[trigger] deps@[k]).is_canonical(),
        ensures
            outs@ == self.spec_outputs(deps@),
    {
        match self {
            Generator::Constant { target, value } => {
                let mut outs: Vec<(Target, FieldElem)> = Vec::new();
                outs.push((*target, *value));
                proof {
                    assert(outs@ =~= self.spec_outputs(deps@));
                }
                outs
            },
            Generator::ArithmeticOp { gate, row, i } => {
                let out = deps[0].mul(deps[1]).add(deps[2]);
                let mut outs: Vec<(Target, FieldElem)> = Vec::new();
                outs.push((Target::Wire { row: *row, column: 4 * i + 3 }, out));
                proof {
                    assert(outs@ =~= self.spec_outputs(deps@));
                }
                outs
            },
            Generator::U32ArithmeticOp { gate, row, i } => {
                let outs = run_u32(*gate, *row, *i, deps[0], deps[1], deps[2]);
                proof {
                    assert(outs@ =~= self.spec_outputs(deps@));
                }
                outs
            },
            Generator::Comparison { gate, row } => {
                let outs = run_cmp(*gate, *row, deps[0], deps[1]);
                proof {
                    assert(outs@ =~= self.spec_outputs(deps@));
                }
                outs
            },
            Generator::BaseSplit { gate, row } => {
                let outs = run_base_split(*gate, *row, deps[0]);
                proof {
                    assert(outs@ =~= self.spec_outputs(deps@));
                }
                outs
            },
            Generator::BaseSum { row, limbs } => {
                let outs = run_base_sum(*row, deps);
                proof {
                    assert(outs@ =~= self.spec_outputs(deps@));
                }
                outs
            },
        }
    }
}

/// Runs one u32 multiply-add operation's generator.
fn run_u32(
    gate: U32ArithmeticGate,
    row: usize,
    i: usize,
    m0: FieldElem,
    m1: FieldElem,
    addend: FieldElem,
) -> (outs: Vec<(Target, FieldElem)>)
    requires
        gate.wf(),
        i < gate.num_ops,
        m0.is_canonical(),
        m1.is_canonical(),
        addend.is_canonical(),
    ensures
        outs@ == u32_outputs(gate, row, i as int, m0.value as int, m1.value as int, addend.value as int),
{
    let ghost target_seq = u32_outputs(
        gate,
        row,
        i as int,
        m0.value as int,
        m1.value as int,
        addend.value as int,
    );
    let out = m0.mul(m1).add(addend);
    let out_u: u64 = out.value;
    let high: u64 = out_u / 0x1_0000_0000;
    let low: u64 = out_u % 0x1_0000_0000;
    proof {
        vstd::arithmetic::div_mod::lemma_div_is_ordered(
            out_u as int,
            0xFFFF_FFFF_0000_0000,
            0x1_0000_0000,
        );
        assert(0xFFFF_FFFF_0000_0000 == 0x1_0000_0000 * 0xFFFF_FFFFint);
        vstd::arithmetic::div_mod::lemma_div_multiples_vanish(0xFFFF_FFFF, 0x1_0000_0000);
    }
    let diff: u64 = 0xFFFF_FFFF - high;
    let inv: FieldElem = if diff == 0 {
        FieldElem::zero()
    } else {
        match (FieldElem { value: diff }).inverse() {
            Ok(v) => v,
            Err(_) => FieldElem::zero(),
        }
    };
    let mut outs: Vec<(Target, FieldElem)> = Vec::new();
    outs.push((Target::Wire { row, column: 6 * i + 4 }, FieldElem { value: high }));
    outs.push((Target::Wire { row, column: 6 * i + 3 }, FieldElem { value: low }));
    outs.push((Target::Wire { row, column: 6 * i + 5 }, inv));
    proof {
        assert(outs@[0] == target_seq[0]);
        assert(outs@[1] == target_seq[1]);
        assert(outs@[2] == target_seq[2]);
    }
    let limbs = digits_base(out_u, 4, 32);
    for j in 0..32usize
        invariant
            gate.wf(),
            i < gate.num_ops,
            outs@.len() == 3 + j,
            limbs@.len() == 32,
            forall|m: int|
                0 <= m < 32 ==> (#[trigger] limbs@[m]).value == spec_digit(out.value as int, 4, m),
            target_seq == u32_outputs(
                gate,
                row,
                i as int,
                m0.value as int,
                m1.value as int,
                addend.value as int,
            ),
            out.value as int == fadd_spec(
                fmul_spec(m0.value as int, m1.value as int),
                addend.value as int,
            ),
            target_seq.len() == 35,
            forall|m: int| 0 <= m < 3 + j ==> #[trigger] outs@[m] == target_seq[m],
    {
        outs.push((Target::Wire { row, column: 6 * gate.num_ops + 32 * i + j }, limbs[j]));
        proof {
            let k = 3 + j;
            assert(target_seq[k as int] == (
                Target::Wire { row, column: (6 * gate.num_ops + 32 * (i as int) + (j as int)) as usize },
                FieldElem { value: spec_digit(out.value as int, 4, j as int) as u64 },
            ));
        }
    }
    proof {
        assert(outs@ =~= target_seq);
    }
    outs
}

/// Runs the comparison gate's generator.
fn run_cmp(gate: ComparisonGate, row: usize, first: FieldElem, second: FieldElem) -> (outs: Vec<
    (Target, FieldElem),
>)
    requires
        gate.wf(),
        first.is_canonical(),
        second.is_canonical(),
    ensures
        outs@ == cmp_outputs(gate, row, first.value as int, second.value as int),
{
    let ghost fv = first.value as int;
    let ghost sv = second.value as int;
    let cb = gate.chunk_bits();
    let nc = gate.num_chunks;
    proof {
        lemma_u64_pow2_small(cb as nat);
    }
    let cs: u64 = 1u64 << (cb as u64);
    proof {
        assert(cs as int == cmp_chunk_size(gate));
    }
    let fcs = digits_base(first.value, cs, nc);
    let scs = digits_base(second.value, cs, nc);
    let mut msd = FieldElem::zero();
    for idx in 0..nc
        invariant
            gate.wf(),
            nc == gate.num_chunks,
            2 <= cs <= 0x100,
            cs as int == cmp_chunk_size(gate),
            fv == first.value as int,
            sv == second.value as int,
            fcs@.len() == nc,
            scs@.len() == nc,
            forall|m: int| 0 <= m < nc ==> (#[trigger] fcs@[m]).value == spec_digit(fv, cs as int, m),
            forall|m: int| 0 <= m < nc ==> (#[trigger] scs@[m]).value == spec_digit(sv, cs as int, m),
            msd.is_canonical(),
            msd.value as int == cmp_msd(fv, sv, cs as int, idx as int),
    {
        if fcs[idx].value != scs[idx].value {
            msd = scs[idx].sub(fcs[idx]);
        }
    }
    let result = if first.value <= second.value {
        FieldElem::one()
    } else {
        FieldElem::zero()
    };
    let mut outs: Vec<(Target, FieldElem)> = Vec::new();
    outs.push((Target::Wire { row, column: 2 }, result));
    outs.push((Target::Wire { row, column: 3 }, msd));
    let ghost head = outs@;
    let mut msd2 = FieldElem::zero();
    for idx in 0..nc
        invariant
            gate.wf(),
            nc == gate.num_chunks,
            2 <= cs <= 0x100,
            cs as int == cmp_chunk_size(gate),
            fv == first.value as int,
            sv == second.value as int,
            fcs@.len() == nc,
            scs@.len() == nc,
            forall|m: int| 0 <= m < nc ==> (#[trigger] fcs@[m]).value == spec_digit(fv, cs as int, m),
            forall|m: int| 0 <= m < nc ==> (#[trigger] scs@[m]).value == spec_digit(sv, cs as int, m),
            msd2.is_canonical(),
            msd2.value as int == cmp_msd(fv, sv, cs as int, idx as int),
            head.len() == 2,
            head[0] == (Target::Wire { row, column: 2 }, result),
            head[1] == (Target::Wire { row, column: 3 }, msd),
            outs@ =~= head + cmp_chunks_upto(gate, row, fv, sv, idx as int),
    {
        let fc = fcs[idx];
        let sc = scs[idx];
        let eq = fc.value == sc.value;
        let eq_elem = if eq {
            FieldElem::one()
        } else {
            FieldElem::zero()
        };
        let dummy = if eq {
            FieldElem::one()
        } else {
            match sc.sub(fc).inverse() {
                Ok(v) => v,
                Err(_) => FieldElem::zero(),
            }
        };
        let inter = if eq {
            msd2
        } else {
            FieldElem::zero()
        };
        outs.push((Target::Wire { row, column: 4 + idx }, fc));
        outs.push((Target::Wire { row, column: 4 + nc + idx }, sc));
        outs.push((Target::Wire { row, column: 4 + 2 * nc + idx }, dummy));
        outs.push((Target::Wire { row, column: 4 + 3 * nc + idx }, eq_elem));
        outs.push((Target::Wire { row, column: 4 + 4 * nc + idx }, inter));
        if !eq {
            msd2 = sc.sub(fc);
        }
        proof {
            assert(cmp_chunks_upto(gate, row, fv, sv, idx + 1 as int) == cmp_chunks_upto(
                gate,
                row,
                fv,
                sv,
                idx as int,
            ) + cmp_chunk_pairs(gate, row, fv, sv, idx as int));
            assert(outs@ =~= head + cmp_chunks_upto(gate, row, fv, sv, idx + 1 as int));
        }
    }
    proof {
        lemma_cmp_chunks_upto_wf(gate, row, fv, sv, nc as int);
    }
    let vb = (FieldElem { value: cs }).add(msd);
    let ghost vbits = fadd_spec(cs as int, cmp_msd(fv, sv, cs as int, nc as int));
    let bits = digits_base(vb.value, 2, cb + 1);
    let ghost before_bits = outs@;
    for j in 0..(cb + 1)
        invariant
            gate.wf(),
            nc == gate.num_chunks,
            cb == gate.spec_chunk_bits(),
            fv == first.value as int,
            sv == second.value as int,
            vbits == fadd_spec(cs as int, cmp_msd(fv, sv, cs as int, nc as int)),
            vb.value as int == vbits,
            bits@.len() == cb + 1,
            forall|m: int| 0 <= m < cb + 1 ==> (#[trigger] bits@[m]).value == spec_digit(vbits, 2, m),
            before_bits.len() == 2 + 5 * nc,
            outs@.len() == before_bits.len() + j,
            forall|m: int| 0 <= m < before_bits.len() ==> #[trigger] outs@[m] == before_bits[m],
            forall|m: int|
                0 <= m < j ==> #[trigger] outs@[before_bits.len() + m] == (
                    Target::Wire { row, column: (4 + 5 * gate.num_chunks + m) as usize },
                    FieldElem { value: spec_digit(vbits, 2, m) as u64 },
                ),
            before_bits =~= head + cmp_chunks_upto(gate, row, fv, sv, nc as int),
            head.len() == 2,
            head[0] == (Target::Wire { row, column: 2 }, result),
            head[1] == (Target::Wire { row, column: 3 }, msd),
            result == (FieldElem {
                value: (if fv <= sv {
                    1int
                } else {
                    0int
                }) as u64,
            }),
            msd.value as int == cmp_msd(fv, sv, cs as int, nc as int),
    {
        outs.push((Target::Wire { row, column: 4 + 5 * nc + j }, bits[j]));
    }
    proof {
        let spec = cmp_outputs(gate, row, fv, sv);
        let chunks = cmp_chunks_upto(gate, row, fv, sv, nc as int);
        let bitsq = cmp_bit_pairs(gate, row, vbits);
        lemma_cmp_chunks_upto_wf(gate, row, fv, sv, nc as int);
        lemma_cmp_msd_canonical(fv, sv, cs as int, nc as int);
        assert(spec.len() == 2 + 5 * nc + (cb + 1));
        assert(outs@.len() == spec.len());
        assert forall|k: int| 0 <= k < outs@.len() implies outs@[k] == spec[k] by {
            if k < 2 {
                assert(outs@[k] == before_bits[k]);
                assert(before_bits[k] == head[k]);
                if k == 0 {
                    assert(spec[k] == (
                        Target::Wire { row, column: 2 },
                        FieldElem {
                            value: (if fv <= sv {
                                1int
                            } else {
                                0int
                            }) as u64,
                        },
                    ));
                } else {
                    assert(spec[k] == (
                        Target::Wire { row, column: 3 },
                        FieldElem { value: cmp_msd(fv, sv, cs as int, nc as int) as u64 },
                    ));
                }
            } else if k < 2 + 5 * nc {
                assert(outs@[k] == before_bits[k]);
                assert(before_bits[k] == (head + chunks)[k]);
                assert(spec[k] == chunks[k - 2]);
            } else {
                let m = k - (2 + 5 * nc);
                assert(outs@[before_bits.len() + m] == (
                    Target::Wire { row, column: (4 + 5 * gate.num_chunks + m) as usize },
                    FieldElem { value: spec_digit(vbits, 2, m) as u64 },
                ));
                assert(spec[k] == bitsq[m]);
            }
        }
        assert(outs@ =~= spec);
    }
    outs
}

/// Runs the base-split generator: sum wire to limbs.
fn run_base_split(gate: BaseSumGate, row: usize, sum: FieldElem) -> (outs: Vec<(Target, FieldElem)>)
    requires
        gate.wf(),
        sum.is_canonical(),
    ensures
        outs@ == base_split_outputs(gate, row, sum.value as int),
{
    let limbs = digits_base(sum.value, gate.base as u64, gate.num_limbs);
    let mut outs: Vec<(Target, FieldElem)> = Vec::new();
    for idx in 0..gate.num_limbs
        invariant
            gate.wf(),
            limbs@.len() == gate.num_limbs,
            forall|m: int|
                0 <= m < gate.num_limbs ==> (#[trigger] limbs@[m]).value == spec_digit(
                    sum.value as int,
                    gate.base as int,
                    m,
                ),
            outs@.len() == idx,
            forall|m: int|
                0 <= m < idx ==> #[trigger] outs@[m] == (
                    Target::Wire { row, column: (1 + m) as usize },
                    FieldElem { value: spec_digit(sum.value as int, gate.base as int, m) as u64 },
                ),
    {
        outs.push((Target::Wire { row, column: 1 + idx }, limbs[idx]));
    }
    proof {
        assert(outs@ =~= base_split_outputs(gate, row, sum.value as int));
    }
    outs
}

/// Runs the base-sum generator: boolean limbs to the sum wire.
fn run_base_sum(row: usize, deps: &Vec<FieldElem>) -> (outs: Vec<(Target, FieldElem)>)
    requires
        forall|k: int| 0 <= k < deps@.len() ==> (#[trigger] deps@[k]).is_canonical(),
    ensures
        outs@ == seq![
            (
                Target::Wire { row, column: 0 },
                FieldElem { value: spec_weighted_sum(deps@, 2) as u64 },
            ),
        ],
{
    let two = FieldElem { value: 2 };
    let mut acc = FieldElem::zero();
    let mut k = deps.len();
    while k > 0
        invariant
            k <= deps@.len(),
            forall|m: int| 0 <= m < deps@.len() ==> (#[trigger] deps@[m]).is_canonical(),
            acc.is_canonical(),
            acc.value as int == spec_weighted_sum(deps@.skip(k as int), 2),
            two == (FieldElem { value: 2 }),
        decreases k,
    {
        k = k - 1;
        let next = deps[k].add(two.mul(acc));
        proof {
            assert(deps@.skip(k as int).skip(1) =~= deps@.skip(k as int + 1));
            assert(deps@.skip(k as int)[0] == deps@[k as int]);
            assert(deps@.skip(k as int).len() == deps@.len() - k);
        }
        acc = next;
    }
    proof {
        assert(deps@.skip(0) =~= deps@);
    }
    let mut outs: Vec<(Target, FieldElem)> = Vec::new();
    outs.push((Target::Wire { row, column: 0 }, acc));
    proof {
        assert(outs@ =~= seq![
            (
                Target::Wire { row, column: 0 },
                FieldElem { value: spec_weighted_sum(deps@, 2) as u64 },
            ),
        ]);
    }
    outs
}



} // verus!
