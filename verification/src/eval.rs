//! Constraint evaluation.
//!
//! Each gate contributes polynomial constraints over the wires of its row;
//! a witness satisfies the circuit when every constraint of every row
//! evaluates to the additive identity.  The exec evaluator is pinned to the
//! spec functions here, so "the constraints hold" is a statement about the
//! witness alone.

use vstd::prelude::*;
use crate::field::{FieldElem, fadd_spec, fmul_spec, fsub_spec, FIELD_ORDER};
use crate::gates::{ArithmeticGate, BaseSumGate, ComparisonGate, GateKind, U32ArithmeticGate};
use crate::generator::{cmp_chunk_size, spec_weighted_sum};
use crate::layout::Layout;
use crate::target::Target;
use crate::witness::FullWitness;

verus! {

/// The running zero product `(v - 0) * (v - 1) * ... * (v - (bound - 1))`,
/// reduced modulo the field order.
pub open spec fn spec_zero_product(v: int, bound: int) -> int
    decreases bound,
{
    if bound <= 0 {
        1
    } else {
        fmul_spec(spec_zero_product(v, bound - 1), fsub_spec(v, bound - 1))
    }
}

/// The accumulator of a most-significant-first fold of the top `k` entries
/// of `vals` in base `base`.
pub open spec fn spec_fold_desc(vals: Seq<FieldElem>, base: int, k: int) -> int
    decreases k,
{
    if k <= 0 {
        0
    } else {
        fadd_spec(
            fmul_spec(base, spec_fold_desc(vals, base, k - 1)),
            vals[vals.len() - k].value as int,
        )
    }
}

/// The constraint values of one packed arithmetic operation:
/// `out - (a * b + c)`.
pub open spec fn arith_op_constraint(vals: Seq<FieldElem>, i: int) -> int {
    fsub_spec(
        vals[4 * i + 3].value as int,
        fadd_spec(
            fmul_spec(vals[4 * i].value as int, vals[4 * i + 1].value as int),
            vals[4 * i + 2].value as int,
        ),
    )
}

/// The constraints of an arithmetic gate row, one per packed operation.
pub open spec fn arith_constraints(g: ArithmeticGate, vals: Seq<FieldElem>) -> Seq<FieldElem> {
    Seq::new(g.num_ops as nat, |i: int| FieldElem { value: arith_op_constraint(vals, i) as u64 })
}

/// The constraints of a base-sum gate row: the recombined limbs minus the
/// sum wire, then one zero-product range check per limb.
pub open spec fn base_sum_constraints(g: BaseSumGate, vals: Seq<FieldElem>) -> Seq<FieldElem> {
    seq![
        FieldElem {
            value: fsub_spec(
                spec_weighted_sum(vals.subrange(1, 1 + g.num_limbs as int), g.base as int),
                vals[0].value as int,
            ) as u64,
        },
    ] + Seq::new(
        g.num_limbs as nat,
        |i: int|
            FieldElem { value: spec_zero_product(vals[1 + i].value as int, g.base as int) as u64 },
    )
}

/// The running most-significant-difference after the first `i` chunks of a
/// comparison row, as the constraints define it from the wire values.
pub open spec fn cmp_eval_msd(g: ComparisonGate, vals: Seq<FieldElem>, i: int) -> int
    decreases i,
{
    if i <= 0 {
        0
    } else {
        let eq = vals[4 + 3 * g.num_chunks + (i - 1)].value as int;
        let inter = vals[4 + 4 * g.num_chunks + (i - 1)].value as int;
        let diff = fsub_spec(
            vals[4 + g.num_chunks + (i - 1)].value as int,
            vals[4 + (i - 1)].value as int,
        );
        fadd_spec(inter, fmul_spec(fsub_spec(1, eq), diff))
    }
}

/// The five constraints of chunk `i` of a comparison row.
pub open spec fn cmp_chunk_constraints(g: ComparisonGate, vals: Seq<FieldElem>, i: int) -> Seq<
    FieldElem,
> {
    let cs = cmp_chunk_size(g);
    let fc = vals[4 + i].value as int;
    let sc = vals[4 + g.num_chunks + i].value as int;
    let dummy = vals[4 + 2 * g.num_chunks + i].value as int;
    let eq = vals[4 + 3 * g.num_chunks + i].value as int;
    let inter = vals[4 + 4 * g.num_chunks + i].value as int;
    let diff = fsub_spec(sc, fc);
    seq![
        FieldElem { value: spec_zero_product(fc, cs) as u64 },
        FieldElem { value: spec_zero_product(sc, cs) as u64 },
        FieldElem { value: fsub_spec(fmul_spec(diff, dummy), fsub_spec(1, eq)) as u64 },
        FieldElem { value: fmul_spec(eq, diff) as u64 },
        FieldElem {
            value: fsub_spec(inter, fmul_spec(eq, cmp_eval_msd(g, vals, i))) as u64,
        },
    ]
}

/// The chunk constraints of the first `i` chunks, concatenated.
pub open spec fn cmp_chunks_constraints_upto(g: ComparisonGate, vals: Seq<FieldElem>, i: int) -> Seq<
    FieldElem,
>
    decreases i,
{
    if i <= 0 {
        Seq::empty()
    } else {
        cmp_chunks_constraints_upto(g, vals, i - 1) + cmp_chunk_constraints(g, vals, i - 1)
    }
}

/// The constraints of a comparison gate row, in evaluation order.
pub open spec fn cmp_constraints(g: ComparisonGate, vals: Seq<FieldElem>) -> Seq<FieldElem> {
    let cs = cmp_chunk_size(g);
    let nc = g.num_chunks as int;
    let cb = g.spec_chunk_bits();
    let first_combined = spec_weighted_sum(vals.subrange(4, 4 + nc), cs);
    let second_combined = spec_weighted_sum(vals.subrange(4 + nc, 4 + 2 * nc), cs);
    let bits = vals.subrange(4 + 5 * nc, 4 + 5 * nc + cb + 1);
    let bits_combined = spec_weighted_sum(bits, 2);
    seq![
        FieldElem { value: fsub_spec(first_combined, vals[0].value as int) as u64 },
        FieldElem { value: fsub_spec(second_combined, vals[1].value as int) as u64 },
    ] + cmp_chunks_constraints_upto(g, vals, nc) + seq![
        FieldElem { value: fsub_spec(vals[3].value as int, cmp_eval_msd(g, vals, nc)) as u64 },
    ] + Seq::new(
        (cb + 1) as nat,
        |j: int|
            FieldElem {
                value: fmul_spec(
                    vals[4 + 5 * nc + j].value as int,
                    fsub_spec(1, vals[4 + 5 * nc + j].value as int),
                ) as u64,
            },
    ) + seq![
        FieldElem {
            value: fsub_spec(fadd_spec(cs, vals[3].value as int), bits_combined) as u64,
        },
        FieldElem { value: fsub_spec(vals[2].value as int, vals[4 + 5 * nc + cb].value as int) as u64 },
    ]
}

/// The constraints of one packed u32 operation, in evaluation order.
pub open spec fn u32_op_constraints(g: U32ArithmeticGate, vals: Seq<FieldElem>, i: int) -> Seq<
    FieldElem,
> {
    let m0 = vals[6 * i].value as int;
    let m1 = vals[6 * i + 1].value as int;
    let addend = vals[6 * i + 2].value as int;
    let low = vals[6 * i + 3].value as int;
    let high = vals[6 * i + 4].value as int;
    let inv = vals[6 * i + 5].value as int;
    let computed = fadd_spec(fmul_spec(m0, m1), addend);
    let combined = fadd_spec(fmul_spec(high, 0x1_0000_0000), low);
    let hi_not_max = fsub_spec(fmul_spec(inv, fsub_spec(0xFFFF_FFFF, high)), 1);
    let limbs = vals.subrange(
        6 * g.num_ops + 32 * i,
        6 * g.num_ops + 32 * i + 32,
    );
    seq![
        FieldElem { value: fmul_spec(hi_not_max, low) as u64 },
        FieldElem { value: fsub_spec(combined, computed) as u64 },
    ] + Seq::new(
        32,
        |j: int| FieldElem { value: spec_zero_product(limbs[31 - j].value as int, 4) as u64 },
    ) + seq![
        FieldElem { value: fsub_spec(spec_fold_desc(limbs.subrange(0, 16), 4, 16), low) as u64 },
        FieldElem {
            value: fsub_spec(spec_fold_desc(limbs.subrange(16, 32), 4, 16), high) as u64,
        },
    ]
}

/// The concatenated constraints of the first `i` u32 operations.
pub open spec fn u32_constraints_upto(g: U32ArithmeticGate, vals: Seq<FieldElem>, i: int) -> Seq<
    FieldElem,
>
    decreases i,
{
    if i <= 0 {
        Seq::empty()
    } else {
        u32_constraints_upto(g, vals, i - 1) + u32_op_constraints(g, vals, i - 1)
    }
}

/// The constraint values of a gate over its row's wire values.
pub open spec fn gate_constraints(kind: GateKind, vals: Seq<FieldElem>) -> Seq<FieldElem> {
    match kind {
        GateKind::Arithmetic(g) => arith_constraints(g, vals),
        GateKind::BaseSum(g) => base_sum_constraints(g, vals),
        GateKind::Comparison(g) => cmp_constraints(g, vals),
        GateKind::U32Arithmetic(g) => u32_constraints_upto(g, vals, g.num_ops as int),
    }
}

/// The value a witness state assigns to a cell of the grid, with zero for
/// an unresolved slot.
pub open spec fn spec_cell_val(layout: Layout, st: Seq<Option<FieldElem>>, r: int, c: int) -> FieldElem {
    match st[layout.spec_rep_of(Target::Wire { row: r as usize, column: c as usize })] {
        Some(v) => v,
        None => FieldElem { value: 0 },
    }
}

/// The wire values of row `r` under a witness state.
pub open spec fn spec_row_vals(layout: Layout, st: Seq<Option<FieldElem>>, r: int) -> Seq<
    FieldElem,
> {
    Seq::new(layout.config.num_wires as nat, |c: int| spec_cell_val(layout, st, r, c))
}

/// True when every constraint of every row evaluates to zero under the
/// witness state.
pub open spec fn spec_constraints_ok(layout: Layout, st: Seq<Option<FieldElem>>) -> bool {
    forall|r: int, k: int|
        0 <= r < layout.gates.len() && 0 <= k < gate_constraints(
            layout.gates[r],
            spec_row_vals(layout, st, r),
        ).len() ==> (#[trigger] gate_constraints(layout.gates[r], spec_row_vals(layout, st, r))[k]).value
            == 0
}

/// Evaluates the zero product of `v` over `[0, bound)`.
fn eval_zero_product(v: FieldElem, bound: usize) -> (r: FieldElem)
    requires
        v.is_canonical(),
        bound <= 0x100,
    ensures
        r.is_canonical(),
        r.value == spec_zero_product(v.value as int, bound as int),
{
    let mut p = FieldElem::one();
    for x in 0..bound
        invariant
            v.is_canonical(),
            bound <= 0x100,
            p.is_canonical(),
            p.value == spec_zero_product(v.value as int, x as int),
    {
        p = p.mul(v.sub(FieldElem { value: x as u64 }));
    }
    p
}

/// Evaluates the little-endian weighted sum of `vals[from..to]` in `base`.
fn eval_weighted_sum(vals: &Vec<FieldElem>, from: usize, to: usize, base: u64) -> (r: FieldElem)
    requires
        from <= to <= vals@.len(),
        2 <= base <= 0x100,
        forall|k: int| 0 <= k < vals@.len() ==> (#[trigger] vals@[k]).is_canonical(),
    ensures
        r.is_canonical(),
        r.value == spec_weighted_sum(vals@.subrange(from as int, to as int), base as int),
{
    let b = FieldElem { value: base };
    let mut acc = FieldElem::zero();
    let mut k = to;
    while k > from
        invariant
            from <= k <= to <= vals@.len(),
            2 <= base <= 0x100,
            b == (FieldElem { value: base }),
            forall|m: int| 0 <= m < vals@.len() ==> (#[trigger] vals@[m]).is_canonical(),
            acc.is_canonical(),
            acc.value == spec_weighted_sum(vals@.subrange(k as int, to as int), base as int),
        decreases k,
    {
        k = k - 1;
        let next = vals[k].add(b.mul(acc));
        proof {
            let s = vals@.subrange(k as int, to as int);
            assert(s[0] == vals@[k as int]);
            assert(s.skip(1) =~= vals@.subrange(k as int + 1, to as int));
        }
        acc = next;
    }
    acc
}

/// Evaluates the most-significant-first fold of `vals[from..to]` in `base`.
fn eval_fold_desc(vals: &Vec<FieldElem>, from: usize, to: usize, base: u64) -> (r: FieldElem)
    requires
        from <= to <= vals@.len(),
        2 <= base <= 0x100,
        forall|k: int| 0 <= k < vals@.len() ==> (#[trigger] vals@[k]).is_canonical(),
    ensures
        r.is_canonical(),
        r.value == spec_fold_desc(
            vals@.subrange(from as int, to as int),
            base as int,
            to - from,
        ),
{
    let b = FieldElem { value: base };
    let n = to - from;
    let mut acc = FieldElem::zero();
    for idx in 0..n
        invariant
            from + n == to,
            to <= vals@.len(),
            2 <= base <= 0x100,
            b == (FieldElem { value: base }),
            forall|m: int| 0 <= m < vals@.len() ==> (#[trigger] vals@[m]).is_canonical(),
            acc.is_canonical(),
            acc.value == spec_fold_desc(
                vals@.subrange(from as int, to as int),
                base as int,
                idx as int,
            ),
    {
        let j = to - 1 - idx;
        let next = b.mul(acc).add(vals[j]);
        proof {
            let s = vals@.subrange(from as int, to as int);
            assert(s[s.len() - (idx + 1)] == vals@[j as int]);
        }
        acc = next;
    }
    acc
}

/// Evaluates every constraint of a gate over its row's wire values.
pub fn eval_gate(kind: &GateKind, vals: &Vec<FieldElem>) -> (r: Vec<FieldElem>)
    requires
        kind.wf(),
        vals@.len() >= kind.spec_num_wires(),
        forall|k: int| 0 <= k < vals@.len() ==> (#[trigger] vals@[k]).is_canonical(),
    ensures
        r@ == gate_constraints(*kind, vals@),
{
    match kind {
        GateKind::Arithmetic(g) => {
            let mut out: Vec<FieldElem> = Vec::new();
            for i in 0..g.num_ops
                invariant
                    g.wf(),
                    vals@.len() >= 4 * g.num_ops,
                    forall|k: int| 0 <= k < vals@.len() ==> (#[trigger] vals@[k]).is_canonical(),
                    out@.len() == i,
                    forall|m: int|
                        0 <= m < i ==> #[trigger] out@[m] == (FieldElem {
                            value: arith_op_constraint(vals@, m) as u64,
                        }),
            {
                let computed = vals[4 * i].mul(vals[4 * i + 1]).add(vals[4 * i + 2]);
                out.push(vals[4 * i + 3].sub(computed));
            }
            proof {
                assert(out@ =~= gate_constraints(*kind, vals@));
            }
            out
        },
        GateKind::BaseSum(g) => {
            let mut out: Vec<FieldElem> = Vec::new();
            let combined = eval_weighted_sum(vals, 1, 1 + g.num_limbs, g.base as u64);
            out.push(combined.sub(vals[0]));
            for i in 0..g.num_limbs
                invariant
                    g.wf(),
                    vals@.len() >= 1 + g.num_limbs,
                    forall|k: int| 0 <= k < vals@.len() ==> (#[trigger] vals@[k]).is_canonical(),
                    out@.len() == 1 + i,
                    out@[0] == (FieldElem {
                        value: fsub_spec(
                            spec_weighted_sum(
                                vals@.subrange(1, 1 + g.num_limbs as int),
                                g.base as int,
                            ),
                            vals@[0].value as int,
                        ) as u64,
                    }),
                    forall|m: int|
                        0 <= m < i ==> #[trigger] out@[1 + m] == (FieldElem {
                            value: spec_zero_product(
                                vals@[1 + m].value as int,
                                g.base as int,
                            ) as u64,
                        }),
            {
                out.push(eval_zero_product(vals[1 + i], g.base));
            }
            proof {
                assert(out@ =~= gate_constraints(*kind, vals@));
            }
            out
        },
        GateKind::Comparison(g) => {
            let out = eval_cmp(*g, vals);
            proof {
                assert(out@ == gate_constraints(*kind, vals@));
            }
            out
        },
        GateKind::U32Arithmetic(g) => {
            let mut out: Vec<FieldElem> = Vec::new();
            for i in 0..g.num_ops
                invariant
                    g.wf(),
                    vals@.len() >= 38 * g.num_ops,
                    forall|k: int| 0 <= k < vals@.len() ==> (#[trigger] vals@[k]).is_canonical(),
                    out@ =~= u32_constraints_upto(*g, vals@, i as int),
            {
                let ops = eval_u32_op(*g, vals, i);
                let mut m: usize = 0;
                let ghost pre = out@;
                while m < ops.len()
                    invariant
                        m <= ops@.len(),
                        out@ =~= pre + ops@.subrange(0, m as int),
                    decreases ops@.len() - m,
                {
                    out.push(ops[m]);
                    m = m + 1;
                }
                proof {
                    assert(ops@.subrange(0, ops@.len() as int) =~= ops@);
                    assert(out@ =~= pre + ops@);
                    assert(u32_constraints_upto(*g, vals@, i + 1 as int) == u32_constraints_upto(
                        *g,
                        vals@,
                        i as int,
                    ) + u32_op_constraints(*g, vals@, i as int));
                }
            }
            proof {
                assert(out@ =~= gate_constraints(*kind, vals@));
            }
            out
        },
    }
}

/// Evaluates the constraints of one packed u32 operation.
fn eval_u32_op(g: U32ArithmeticGate, vals: &Vec<FieldElem>, i: usize) -> (r: Vec<FieldElem>)
    requires
        g.wf(),
        i < g.num_ops,
        vals@.len() >= 38 * g.num_ops,
        forall|k: int| 0 <= k < vals@.len() ==> (#[trigger] vals@[k]).is_canonical(),
    ensures
        r@ == u32_op_constraints(g, vals@, i as int),
{
    let m0 = vals[6 * i];
    let m1 = vals[6 * i + 1];
    let addend = vals[6 * i + 2];
    let low = vals[6 * i + 3];
    let high = vals[6 * i + 4];
    let inv = vals[6 * i + 5];
    let computed = m0.mul(m1).add(addend);
    let base32 = FieldElem { value: 0x1_0000_0000 };
    let combined = high.mul(base32).add(low);
    let u32max = FieldElem { value: 0xFFFF_FFFF };
    let hi_not_max = inv.mul(u32max.sub(high)).sub(FieldElem::one());
    let mut out: Vec<FieldElem> = Vec::new();
    out.push(hi_not_max.mul(low));
    out.push(combined.sub(computed));
    let limb_start = 6 * g.num_ops + 32 * i;
    let ghost limbs = vals@.subrange(limb_start as int, limb_start + 32);
    for j in 0..32usize
        invariant
            g.wf(),
            i < g.num_ops,
            vals@.len() >= 38 * g.num_ops,
            limb_start == 6 * g.num_ops + 32 * i,
            forall|k: int| 0 <= k < vals@.len() ==> (#[trigger] vals@[k]).is_canonical(),
            limbs == vals@.subrange(limb_start as int, limb_start + 32),
            out@.len() == 2 + j,
            forall|m: int| 0 <= m < 2 + j ==> #[trigger] out@[m] == u32_op_constraints(g, vals@, i as int)[m],
    {
        proof {
            assert(limbs[31 - (j as int)] == vals@[limb_start + 31 - (j as int)]);
            assert(u32_op_constraints(g, vals@, i as int)[2 + j] == (FieldElem {
                value: spec_zero_product(limbs[31 - (j as int)].value as int, 4) as u64,
            }));
        }
        out.push(eval_zero_product(vals[limb_start + 31 - j], 4));
    }
    let low_fold = eval_fold_desc(vals, limb_start, limb_start + 16, 4);
    let high_fold = eval_fold_desc(vals, limb_start + 16, limb_start + 32, 4);
    proof {
        assert(vals@.subrange(limb_start as int, limb_start + 16) =~= limbs.subrange(0, 16));
        assert(vals@.subrange(limb_start + 16, limb_start + 32) =~= limbs.subrange(16, 32));
    }
    out.push(low_fold.sub(low));
    out.push(high_fold.sub(high));
    proof {
        assert(out@ =~= u32_op_constraints(g, vals@, i as int));
    }
    out
}

/// Evaluates the chunk constraints of a comparison gate row.
#[verifier::spinoff_prover]
fn eval_cmp_chunks(g: ComparisonGate, vals: &Vec<FieldElem>) -> (r: Vec<FieldElem>)
    requires
        g.wf(),
        vals@.len() >= g.spec_num_wires(),
        forall|k: int| 0 <= k < vals@.len() ==> (#[trigger] vals@[k]).is_canonical(),
    ensures
        r@ == cmp_chunks_constraints_upto(g, vals@, g.num_chunks as int),
{
    let nc = g.num_chunks;
    proof {
        crate::generator::lemma_chunk_size_range(g);
    }
    let cb = g.chunk_bits();
    let cs_u: u64 = 1u64 << (cb as u64);
    let one = FieldElem::one();
    let mut out: Vec<FieldElem> = Vec::new();
    let mut msd = FieldElem::zero();
    for i in 0..nc
        invariant
            g.wf(),
            nc == g.num_chunks,
            cs_u as int == cmp_chunk_size(g),
            2 <= cs_u <= 0x100,
            vals@.len() >= g.spec_num_wires(),
            forall|k: int| 0 <= k < vals@.len() ==> (#[trigger] vals@[k]).is_canonical(),
            one == (FieldElem { value: 1 }),
            msd.is_canonical(),
            msd.value == cmp_eval_msd(g, vals@, i as int),
            out@ =~= cmp_chunks_constraints_upto(g, vals@, i as int),
    {
        let fc = vals[4 + i];
        let sc = vals[4 + nc + i];
        let dummy = vals[4 + 2 * nc + i];
        let eq = vals[4 + 3 * nc + i];
        let inter = vals[4 + 4 * nc + i];
        let diff = sc.sub(fc);
        out.push(eval_zero_product(fc, cs_u as usize));
        out.push(eval_zero_product(sc, cs_u as usize));
        out.push(diff.mul(dummy).sub(one.sub(eq)));
        out.push(eq.mul(diff));
        out.push(inter.sub(eq.mul(msd)));
        msd = inter.add(one.sub(eq).mul(diff));
        proof {
            assert(cmp_chunks_constraints_upto(g, vals@, i + 1 as int)
                == cmp_chunks_constraints_upto(g, vals@, i as int) + cmp_chunk_constraints(
                g,
                vals@,
                i as int,
            ));
            assert(out@ =~= cmp_chunks_constraints_upto(g, vals@, i + 1 as int));
        }
    }
    out
}

/// Evaluates the constraints of a comparison gate row.
#[verifier::rlimit(100)]
#[verifier::spinoff_prover]
fn eval_cmp(g: ComparisonGate, vals: &Vec<FieldElem>) -> (r: Vec<FieldElem>)
    requires
        g.wf(),
        vals@.len() >= g.spec_num_wires(),
        forall|k: int| 0 <= k < vals@.len() ==> (#[trigger] vals@[k]).is_canonical(),
    ensures
        r@ == cmp_constraints(g, vals@),
{
    let cb = g.chunk_bits();
    let nc = g.num_chunks;
    proof {
        crate::generator::lemma_chunk_size_range(g);
    }
    let cs_u: u64 = 1u64 << (cb as u64);
    let one = FieldElem::one();
    let first_combined = eval_weighted_sum(vals, 4, 4 + nc, cs_u);
    let second_combined = eval_weighted_sum(vals, 4 + nc, 4 + 2 * nc, cs_u);
    let chunk_cons = eval_cmp_chunks(g, vals);
    let ghost final_msd = cmp_eval_msd(g, vals@, nc as int);
    let msd_elem = eval_cmp_final_msd(g, vals);
    let mut out: Vec<FieldElem> = Vec::new();
    out.push(first_combined.sub(vals[0]));
    out.push(second_combined.sub(vals[1]));
    let ghost head = out@;
    let mut m: usize = 0;
    let ncons = chunk_cons.len();
    proof {
        lemma_cmp_chunks_constraints_len(g, vals@, nc as int);
    }
    while m < ncons
        invariant
            m <= ncons,
            ncons == chunk_cons@.len(),
            out@ =~= head + chunk_cons@.subrange(0, m as int),
        decreases ncons - m,
    {
        out.push(chunk_cons[m]);
        m = m + 1;
    }
    proof {
        assert(chunk_cons@.subrange(0, ncons as int) =~= chunk_cons@);
    }
    out.push(msd_elem);
    let ghost before_bits = out@;
    for j in 0..(cb + 1)
        invariant
            g.wf(),
            nc == g.num_chunks,
            cb == g.spec_chunk_bits(),
            vals@.len() >= g.spec_num_wires(),
            forall|k: int| 0 <= k < vals@.len() ==> (#[trigger] vals@[k]).is_canonical(),
            one == (FieldElem { value: 1 }),
            before_bits.len() == 3 + 5 * nc,
            out@.len() == before_bits.len() + j,
            forall|m2: int| 0 <= m2 < before_bits.len() ==> #[trigger] out@[m2] == before_bits[m2],
            forall|m2: int|
                0 <= m2 < j ==> #[trigger] out@[before_bits.len() + m2] == (FieldElem {
                    value: fmul_spec(
                        vals@[4 + 5 * nc + m2].value as int,
                        fsub_spec(1, vals@[4 + 5 * nc + m2].value as int),
                    ) as u64,
                }),
    {
        let bit = vals[4 + 5 * nc + j];
        out.push(bit.mul(one.sub(bit)));
    }
    let bits_combined = eval_weighted_sum(vals, 4 + 5 * nc, 4 + 5 * nc + cb + 1, 2);
    out.push((FieldElem { value: cs_u }).add(vals[3]).sub(bits_combined));
    out.push(vals[2].sub(vals[4 + 5 * nc + cb]));
    proof {
        let spec = cmp_constraints(g, vals@);
        let chunks = cmp_chunks_constraints_upto(g, vals@, nc as int);
        assert(spec.len() == 2 + 5 * nc + 1 + (cb + 1) + 2);
        assert(out@.len() == spec.len());
        assert forall|k: int| 0 <= k < out@.len() implies out@[k] == spec[k] by {
            if k < 2 {
                assert(out@[k] == before_bits[k]);
                assert(before_bits[k] == head[k]);
            } else if k < 2 + 5 * nc {
                assert(out@[k] == before_bits[k]);
                assert(before_bits[k] == (head + chunks)[k]);
                assert(spec[k] == chunks[k - 2]);
            } else if k == 2 + 5 * nc {
                assert(out@[k] == before_bits[k]);
            } else if k < 3 + 5 * nc + (cb + 1) {
                let m2 = k - (3 + 5 * nc);
                assert(out@[before_bits.len() + m2] == (FieldElem {
                    value: fmul_spec(
                        vals@[4 + 5 * nc + m2].value as int,
                        fsub_spec(1, vals@[4 + 5 * nc + m2].value as int),
                    ) as u64,
                }));
            } else {
            }
        }
        assert(out@ =~= spec);
    }
    out
}

/// Evaluates the constraint value `msd_wire - msd_so_far` of a comparison
/// row.
fn eval_cmp_final_msd(g: ComparisonGate, vals: &Vec<FieldElem>) -> (r: FieldElem)
    requires
        g.wf(),
        vals@.len() >= g.spec_num_wires(),
        forall|k: int| 0 <= k < vals@.len() ==> (#[trigger] vals@[k]).is_canonical(),
    ensures
        r == (FieldElem {
            value: fsub_spec(
                vals@[3].value as int,
                cmp_eval_msd(g, vals@, g.num_chunks as int),
            ) as u64,
        }),
{
    let nc = g.num_chunks;
    let one = FieldElem::one();
    let mut msd = FieldElem::zero();
    for i in 0..nc
        invariant
            g.wf(),
            nc == g.num_chunks,
            vals@.len() >= g.spec_num_wires(),
            forall|k: int| 0 <= k < vals@.len() ==> (#[trigger] vals@[k]).is_canonical(),
            one == (FieldElem { value: 1 }),
            msd.is_canonical(),
            msd.value == cmp_eval_msd(g, vals@, i as int),
    {
        let fc = vals[4 + i];
        let sc = vals[4 + nc + i];
        let eq = vals[4 + 3 * nc + i];
        let inter = vals[4 + 4 * nc + i];
        let diff = sc.sub(fc);
        msd = inter.add(one.sub(eq).mul(diff));
    }
    vals[3].sub(msd)
}

/// Lengths of the concatenated chunk constraints.
pub proof fn lemma_cmp_chunks_constraints_len_pub(g: ComparisonGate, vals: Seq<FieldElem>, i: int)
    requires
        0 <= i,
    ensures
        cmp_chunks_constraints_upto(g, vals, i).len() == 5 * i,
{
    lemma_cmp_chunks_constraints_len(g, vals, i);
}

/// Lengths of the concatenated chunk constraints.
proof fn lemma_cmp_chunks_constraints_len(g: ComparisonGate, vals: Seq<FieldElem>, i: int)
    requires
        0 <= i,
    ensures
        cmp_chunks_constraints_upto(g, vals, i).len() == 5 * i,
    decreases i,
{
    if i > 0 {
        lemma_cmp_chunks_constraints_len(g, vals, i - 1);
    }
}

/// Checks every constraint of every row of the layout under a witness.
pub fn check_constraints(layout: &Layout, witness: &FullWitness) -> (r: bool)
    requires
        layout.wf(),
        witness.slots@.len() == layout.spec_num_targets(),
        forall|i: int|
            0 <= i < witness.slots@.len() && witness.slots@[i] is Some ==> (
            #[trigger] witness.slots@[i]).unwrap().is_canonical(),
    ensures
        r == spec_constraints_ok(*layout, witness.slots@),
{
    let rows = layout.gates.len();
    let nw = layout.config.num_wires;
    for rr in 0..rows
        invariant
            layout.wf(),
            rows == layout.gates@.len(),
            nw == layout.config.num_wires,
            witness.slots@.len() == layout.spec_num_targets(),
            forall|i: int|
                0 <= i < witness.slots@.len() && witness.slots@[i] is Some ==> (
                #[trigger] witness.slots@[i]).unwrap().is_canonical(),
            forall|r2: int, k: int|
                0 <= r2 < rr && 0 <= k < gate_constraints(
                    layout.gates@[r2],
                    spec_row_vals(*layout, witness.slots@, r2),
                ).len() ==> (#[trigger] gate_constraints(
                    layout.gates@[r2],
                    spec_row_vals(*layout, witness.slots@, r2),
                )[k]).value == 0,
    {
        let mut vals: Vec<FieldElem> = Vec::new();
        for c in 0..nw
            invariant
                layout.wf(),
                rr < layout.gates@.len(),
                nw == layout.config.num_wires,
                witness.slots@.len() == layout.spec_num_targets(),
                forall|i: int|
                    0 <= i < witness.slots@.len() && witness.slots@[i] is Some ==> (
                    #[trigger] witness.slots@[i]).unwrap().is_canonical(),
                vals@.len() == c,
                forall|m: int|
                    0 <= m < c ==> #[trigger] vals@[m] == spec_cell_val(
                        *layout,
                        witness.slots@,
                        rr as int,
                        m,
                    ),
                forall|m: int| 0 <= m < c ==> (#[trigger] vals@[m]).is_canonical(),
        {
            let t = Target::Wire { row: rr, column: c };
            let slot = layout.rep_of(t);
            match witness.slots[slot] {
                Some(v) => vals.push(v),
                None => vals.push(FieldElem { value: 0 }),
            }
        }
        proof {
            assert(vals@ =~= spec_row_vals(*layout, witness.slots@, rr as int));
        }
        let cons = eval_gate(&layout.gates[rr], &vals);
        let ncons = cons.len();
        for k in 0..ncons
            invariant
                layout.wf(),
                rr < layout.gates@.len(),
                ncons == cons@.len(),
                cons@ == gate_constraints(
                    layout.gates@[rr as int],
                    spec_row_vals(*layout, witness.slots@, rr as int),
                ),
                forall|m: int| 0 <= m < k ==> (#[trigger] cons@[m]).value == 0,
        {
            if cons[k].value != 0 {
                proof {
                    assert(!spec_constraints_ok(*layout, witness.slots@));
                }
                return false;
            }
        }
    }
    true
}

} // verus!
