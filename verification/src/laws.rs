//! The laws of the engine, stated once and proved from the public
//! contracts.
//!
//! Each proof function here is a statement the library stands behind: field
//! closure, soundness of the generator-computed outputs against the
//! constraint polynomials, the comparison gate's boolean result, the range
//! check accepting every in-range value, determinism of witness
//! resolution, and copy constraints holding in every resolved witness.

use vstd::prelude::*;
use crate::errors::WitnessError;
use crate::eval::{arith_constraints, arith_op_constraint, base_sum_constraints, cmp_chunk_constraints, cmp_chunks_constraints_upto, cmp_constraints, cmp_eval_msd, spec_fold_desc, spec_zero_product, u32_op_constraints};
use crate::field::{
    fadd_spec, finv_spec, fmul_spec, fneg_spec, fsub_spec, invertible, FieldElem, FIELD_ORDER,
};
use crate::gates::{ArithmeticGate, BaseSumGate, ComparisonGate, U32ArithmeticGate};
use crate::generator::{cmp_chunk_size, cmp_msd, cmp_outputs, spec_digit, spec_digit_elems, spec_weighted_sum, Generator};
use crate::layout::Layout;
use crate::scheduler::{grid_unresolved, model_finish, model_resolve_from, pub_unresolved, spec_resolve, SlotState};
use crate::target::Target;

verus! {

/// Field closure: the sum, difference, product, and negation of canonical
/// elements stay in the canonical range.
pub proof fn lemma_field_closure(a: int, b: int)
    requires
        0 <= a < FIELD_ORDER,
        0 <= b < FIELD_ORDER,
    ensures
        0 <= fadd_spec(a, b) < FIELD_ORDER,
        0 <= fsub_spec(a, b) < FIELD_ORDER,
        0 <= fmul_spec(a, b) < FIELD_ORDER,
        0 <= fneg_spec(a) < FIELD_ORDER,
{
    let p = FIELD_ORDER as int;
    vstd::arithmetic::div_mod::lemma_mod_bound(a + b, p);
    vstd::arithmetic::div_mod::lemma_mod_bound(a - b, p);
    vstd::arithmetic::div_mod::lemma_mod_bound(a * b, p);
    vstd::arithmetic::div_mod::lemma_mod_bound(p - a, p);
}

/// An invertible element multiplied by its inverse gives the
/// multiplicative identity; the additive identity has no inverse, so
/// inverting it fails.
pub proof fn lemma_inverse_identity(a: int)
    requires
        0 <= a < FIELD_ORDER,
    ensures
        invertible(a) ==> fmul_spec(a, finv_spec(a)) == 1,
        !invertible(0),
{
    crate::field::lemma_zero_not_invertible();
    if invertible(a) {
        let x = choose|x: int| 0 <= x < FIELD_ORDER && fmul_spec(a, x) == 1;
    }
}

/// Arithmetic gate soundness: the generator-computed output is exactly
/// `a * b + c` reduced into the field, and that gate's constraint
/// polynomial vanishes on it.
pub proof fn lemma_arithmetic_generator_sound(a: int, b: int, c: int)
    requires
        0 <= a < FIELD_ORDER,
        0 <= b < FIELD_ORDER,
        0 <= c < FIELD_ORDER,
    ensures
        fadd_spec(fmul_spec(a, b), c) == (a * b + c) % (FIELD_ORDER as int),
        fsub_spec(fadd_spec(fmul_spec(a, b), c), fadd_spec(fmul_spec(a, b), c)) == 0,
{
    let p = FIELD_ORDER as int;
    vstd::arithmetic::div_mod::lemma_add_mod_noop(a * b, c, p);
    vstd::arithmetic::div_mod::lemma_mod_bound(c, p);
    vstd::arithmetic::div_mod::lemma_small_mod(c as nat, p as nat);
    vstd::arithmetic::div_mod::lemma_small_mod(0, p as nat);
}

/// Arithmetic gate soundness at the row level: wherever the output wire of
/// an operation holds the generator's value, that operation's constraint
/// evaluates to zero.
pub proof fn lemma_arith_constraint_zero(vals: Seq<FieldElem>, i: int)
    requires
        0 <= i,
        4 * i + 3 < vals.len(),
        vals[4 * i + 3].value == fadd_spec(
            fmul_spec(vals[4 * i].value as int, vals[4 * i + 1].value as int),
            vals[4 * i + 2].value as int,
        ),
    ensures
        arith_op_constraint(vals, i) == 0,
{
    vstd::arithmetic::div_mod::lemma_small_mod(0, FIELD_ORDER as nat);
}

/// Comparison gate correctness: the generator's boolean result wire is 1
/// exactly when the first input is less than or equal to the second, and
/// equal inputs count as less-or-equal.
pub proof fn lemma_comparison_result(g: ComparisonGate, row: usize, first: int, second: int)
    requires
        g.wf(),
        0 <= first < FIELD_ORDER,
        0 <= second < FIELD_ORDER,
    ensures
        cmp_outputs(g, row, first, second)[0].0 == (Target::Wire { row, column: 2 }),
        cmp_outputs(g, row, first, second)[0].1.value == 1 <==> first <= second,
        cmp_outputs(g, row, first, second)[0].1.value == 1 || cmp_outputs(
            g,
            row,
            first,
            second,
        )[0].1.value == 0,
        first == second ==> cmp_outputs(g, row, first, second)[0].1.value == 1,
{
}

/// Range-check completeness: a value within the declared range always
/// passes the zero-product check.
pub proof fn lemma_range_check_passes(v: int, bound: int)
    requires
        0 <= v < bound,
        bound < FIELD_ORDER,
    ensures
        spec_zero_product(v, bound) == 0,
    decreases bound,
{
    let p = FIELD_ORDER as int;
    vstd::arithmetic::div_mod::lemma_small_mod(0, p as nat);
    if v == bound - 1 {
        assert(fsub_spec(v, bound - 1) == 0);
        assert(spec_zero_product(v, bound - 1) * 0 == 0);
    } else {
        lemma_range_check_passes(v, bound - 1);
        assert(0 * fsub_spec(v, bound - 1) == 0);
    }
}


/// Range-check completeness, recombination half: splitting a value within
/// the declared width into base digits and recombining them by the
/// weighted sum reproduces the value, so the sum constraint of its
/// base-sum decomposition vanishes; `lemma_range_check_passes` covers the
/// per-limb zero products.
pub proof fn lemma_digits_recombine(v: int, base: int, n: int)
    requires
        2 <= base <= 0x100,
        0 <= n,
        0 <= v < vstd::arithmetic::power::pow(base, n as nat),
        v < FIELD_ORDER,
    ensures
        spec_weighted_sum(spec_digit_elems(v, base, n), base) == v,
    decreases n,
{
    let p = FIELD_ORDER as int;
    let elems = spec_digit_elems(v, base, n);
    if n == 0 {
        assert(vstd::arithmetic::power::pow(base, 0) == 1) by {
            vstd::arithmetic::power::lemma_pow0(base);
        }
        assert(elems =~= Seq::<FieldElem>::empty());
    } else {
        vstd::arithmetic::power::lemma_pow_positive(base, (n - 1) as nat);
        assert(vstd::arithmetic::power::pow(base, n as nat) == base
            * vstd::arithmetic::power::pow(base, (n - 1) as nat)) by {
            vstd::arithmetic::power::lemma_pow_adds(base, 1, (n - 1) as nat);
            vstd::arithmetic::power::lemma_pow1(base);
        }
        vstd::arithmetic::div_mod::lemma_multiply_divide_lt(
            v,
            base,
            vstd::arithmetic::power::pow(base, (n - 1) as nat) as int,
        );
        vstd::arithmetic::div_mod::lemma_div_pos_is_pos(v, base);
        lemma_digits_recombine(v / base, base, n - 1);
        lemma_digit_elems_index(v, base, n);
        assert(elems[0] == (FieldElem { value: spec_digit(v, base, 0) as u64 }));
        assert(spec_digit(v, base, 0) == v % base) by {
            vstd::arithmetic::power::lemma_pow0(base);
        }
        assert(elems.skip(1) =~= spec_digit_elems(v / base, base, n - 1)) by {
            lemma_digit_elems_index(v / base, base, n - 1);
            assert forall|i: int| 0 <= i < n - 1 implies elems.skip(1)[i] == spec_digit_elems(
                v / base,
                base,
                n - 1,
            )[i] by {
                lemma_digit_shift(v, base, i);
            }
        }
        let rest = spec_weighted_sum(spec_digit_elems(v / base, base, n - 1), base);
        assert(rest == v / base);
        assert(fmul_spec(base, v / base) == base * (v / base)) by {
            assert(base * (v / base) <= v) by {
                vstd::arithmetic::div_mod::lemma_fundamental_div_mod(v, base);
                vstd::arithmetic::div_mod::lemma_mod_bound(v, base);
            }
            assert(base * (v / base) >= 0) by {
                vstd::arithmetic::mul::lemma_mul_nonnegative(base, v / base);
            }
            vstd::arithmetic::div_mod::lemma_small_mod((base * (v / base)) as nat, p as nat);
        }
        assert(fadd_spec(v % base, base * (v / base)) == v) by {
            vstd::arithmetic::div_mod::lemma_fundamental_div_mod(v, base);
            vstd::arithmetic::div_mod::lemma_small_mod(v as nat, p as nat);
        }
    }
}

/// Digit list indexing: entry `i` of the digit list is digit `i`.
proof fn lemma_digit_elems_index(v: int, base: int, n: int)
    ensures
        spec_digit_elems(v, base, n).len() == if n >= 0 {
            n
        } else {
            0
        },
        forall|i: int|
            0 <= i < n ==> spec_digit_elems(v, base, n)[i] == (FieldElem {
                value: spec_digit(v, base, i) as u64,
            }),
    decreases n,
{
    if n > 0 {
        lemma_digit_elems_index(v, base, n - 1);
    }
}

/// Shifting out the lowest digit: digit `i + 1` of `v` is digit `i` of
/// `v / base`.
proof fn lemma_digit_shift(v: int, base: int, i: int)
    requires
        0 <= v,
        2 <= base,
        0 <= i,
    ensures
        spec_digit(v, base, i + 1) == spec_digit(v / base, base, i),
{
    let pi = vstd::arithmetic::power::pow(base, i as nat);
    vstd::arithmetic::power::lemma_pow_positive(base, i as nat);
    assert(vstd::arithmetic::power::pow(base, (i + 1) as nat) == base * pi) by {
        vstd::arithmetic::power::lemma_pow_adds(base, 1, i as nat);
        vstd::arithmetic::power::lemma_pow1(base);
    }
    vstd::arithmetic::div_mod::lemma_div_denominator(v, base as int, pi as int);
    assert(v / (base * pi as int) == (v / base) / pi as int);
}


/// Range-check completeness at a whole base-sum row: when the sum wire
/// holds a value within the declared width and the limb wires hold its
/// base digits — exactly what that row's generator writes — every
/// constraint of the row vanishes.
pub proof fn lemma_base_sum_generator_passes(g: BaseSumGate, vals: Seq<FieldElem>)
    requires
        g.wf(),
        vals.len() >= g.spec_num_wires(),
        vals[0].is_canonical(),
        vals[0].value < vstd::arithmetic::power::pow(g.base as int, g.num_limbs as nat),
        forall|i: int|
            0 <= i < g.num_limbs ==> (#[trigger] vals[1 + i]).value == spec_digit(
                vals[0].value as int,
                g.base as int,
                i,
            ),
    ensures
        forall|k: int|
            0 <= k < base_sum_constraints(g, vals).len() ==> (#[trigger] base_sum_constraints(
                g,
                vals,
            )[k]).value == 0,
{
    let v = vals[0].value as int;
    let base = g.base as int;
    let n = g.num_limbs as int;
    let cons = base_sum_constraints(g, vals);
    lemma_digit_elems_index(v, base, n);
    assert(vals.subrange(1, 1 + n) =~= spec_digit_elems(v, base, n)) by {
        assert forall|i: int| 0 <= i < n implies vals.subrange(1, 1 + n)[i] == spec_digit_elems(
            v,
            base,
            n,
        )[i] by {
            assert(vals.subrange(1, 1 + n)[i] == vals[1 + i]);
            crate::generator::lemma_digit_canonical(v, base, i);
            assert(vals[1 + i] == (FieldElem { value: spec_digit(v, base, i) as u64 }));
        }
    }
    lemma_digits_recombine(v, base, n);
    vstd::arithmetic::div_mod::lemma_small_mod(0, FIELD_ORDER as nat);
    assert(cons[0].value == 0);
    assert forall|k: int| 0 <= k < cons.len() implies (#[trigger] cons[k]).value == 0 by {
        if k >= 1 {
            let i = k - 1;
            crate::generator::lemma_digit_canonical(v, base, i);
            lemma_range_check_passes(vals[1 + i].value as int, base);
            assert(cons[k] == (FieldElem {
                value: spec_zero_product(vals[1 + i].value as int, base) as u64,
            }));
        }
    }
}


/// Indexing into the concatenated chunk constraints.
proof fn lemma_cmp_chunk_constraints_index(g: ComparisonGate, vals: Seq<FieldElem>, i: int, off: int)
    requires
        0 <= i,
        0 <= off < 5,
    ensures
        forall|n2: int|
            i < n2 ==> cmp_chunks_constraints_upto(g, vals, n2)[5 * i + off]
                == cmp_chunk_constraints(g, vals, i)[off],
{
    assert forall|n2: int| i < n2 implies cmp_chunks_constraints_upto(g, vals, n2)[5 * i + off]
        == cmp_chunk_constraints(g, vals, i)[off] by {
        lemma_cmp_chunk_constraints_index_one(g, vals, i, off, n2);
    }
}

/// One instance of the concatenated-chunk indexing fact.
proof fn lemma_cmp_chunk_constraints_index_one(
    g: ComparisonGate,
    vals: Seq<FieldElem>,
    i: int,
    off: int,
    n2: int,
)
    requires
        0 <= i < n2,
        0 <= off < 5,
    ensures
        cmp_chunks_constraints_upto(g, vals, n2)[5 * i + off] == cmp_chunk_constraints(
            g,
            vals,
            i,
        )[off],
    decreases n2,
{
    crate::eval::lemma_cmp_chunks_constraints_len_pub(g, vals, n2 - 1);
    if i == n2 - 1 {
    } else {
        lemma_cmp_chunk_constraints_index_one(g, vals, i, off, n2 - 1);
    }
}


/// One level of digit decomposition: a value splits into its part above
/// digit `k`, digit `k` itself, and its remainder below digit `k`.
proof fn lemma_digit_decompose(v: int, base: int, k: int)
    requires
        0 <= v,
        2 <= base,
        0 <= k,
    ensures
        v == vstd::arithmetic::power::pow(base, (k + 1) as nat) * (v
            / vstd::arithmetic::power::pow(base, (k + 1) as nat) as int) + spec_digit(v, base, k)
            * vstd::arithmetic::power::pow(base, k as nat) + (v % vstd::arithmetic::power::pow(
            base,
            k as nat,
        ) as int),
{
    let pk = vstd::arithmetic::power::pow(base, k as nat) as int;
    let pk1 = vstd::arithmetic::power::pow(base, (k + 1) as nat) as int;
    vstd::arithmetic::power::lemma_pow_positive(base, k as nat);
    vstd::arithmetic::power::lemma_pow_positive(base, (k + 1) as nat);
    assert(pk1 == base * pk) by {
        vstd::arithmetic::power::lemma_pow_adds(base, 1, k as nat);
        vstd::arithmetic::power::lemma_pow1(base);
    }
    let q = v / pk;
    vstd::arithmetic::div_mod::lemma_fundamental_div_mod(v, pk);
    vstd::arithmetic::div_mod::lemma_fundamental_div_mod(q, base);
    vstd::arithmetic::div_mod::lemma_div_denominator(v, pk, base);
    vstd::arithmetic::mul::lemma_mul_is_commutative(pk, base);
    assert(q == base * (v / pk1) + spec_digit(v, base, k));
    assert(pk * q == pk * (base * (v / pk1)) + pk * spec_digit(v, base, k)) by {
        vstd::arithmetic::mul::lemma_mul_is_distributive_add(
            pk,
            base * (v / pk1),
            spec_digit(v, base, k),
        );
    }
    assert(pk * (base * (v / pk1)) == pk1 * (v / pk1)) by {
        vstd::arithmetic::mul::lemma_mul_is_associative(pk, base, v / pk1);
    }
    vstd::arithmetic::mul::lemma_mul_is_commutative(pk, spec_digit(v, base, k));
}

/// Two values below `base^n` with equal digits at and above position `k`
/// have equal quotients by `base^k`.
proof fn lemma_high_digits_equal_div(x: int, y: int, base: int, k: int, n: int)
    requires
        2 <= base,
        0 <= k <= n,
        0 <= x < vstd::arithmetic::power::pow(base, n as nat),
        0 <= y < vstd::arithmetic::power::pow(base, n as nat),
        forall|j: int| k <= j < n ==> spec_digit(x, base, j) == spec_digit(y, base, j),
    ensures
        x / vstd::arithmetic::power::pow(base, k as nat) as int == y
            / vstd::arithmetic::power::pow(base, k as nat) as int,
    decreases n - k,
{
    let pk = vstd::arithmetic::power::pow(base, k as nat) as int;
    vstd::arithmetic::power::lemma_pow_positive(base, k as nat);
    if k == n {
        vstd::arithmetic::div_mod::lemma_basic_div(x, pk);
        vstd::arithmetic::div_mod::lemma_basic_div(y, pk);
    } else {
        lemma_high_digits_equal_div(x, y, base, k + 1, n);
        let pk1 = vstd::arithmetic::power::pow(base, (k + 1) as nat) as int;
        vstd::arithmetic::power::lemma_pow_positive(base, (k + 1) as nat);
        assert(pk1 == base * pk) by {
            vstd::arithmetic::power::lemma_pow_adds(base, 1, k as nat);
            vstd::arithmetic::power::lemma_pow1(base);
        }
        // v / base^k == base * (v / base^(k+1)) + digit_k(v) for both values.
        vstd::arithmetic::div_mod::lemma_fundamental_div_mod(x / pk, base);
        vstd::arithmetic::div_mod::lemma_fundamental_div_mod(y / pk, base);
        vstd::arithmetic::div_mod::lemma_div_denominator(x, pk, base);
        vstd::arithmetic::div_mod::lemma_div_denominator(y, pk, base);
        vstd::arithmetic::div_mod::lemma_div_pos_is_pos(x, pk);
        vstd::arithmetic::div_mod::lemma_div_pos_is_pos(y, pk);
        assert(spec_digit(x, base, k) == (x / pk) % base);
        assert(spec_digit(y, base, k) == (y / pk) % base);
        assert(spec_digit(x, base, k) == spec_digit(y, base, k));
        assert(x / pk == base * (x / pk1) + spec_digit(x, base, k));
        assert(y / pk == base * (y / pk1) + spec_digit(y, base, k));
    }
}

/// Lexicographic comparison: when the most significant differing digit of
/// two equally wide values is at position `jj`, the order of the values is
/// the order of those digits.
proof fn lemma_lex_compare(x: int, y: int, base: int, jj: int, n: int)
    requires
        2 <= base <= 0x100,
        0 <= jj < n,
        0 <= x < vstd::arithmetic::power::pow(base, n as nat),
        0 <= y < vstd::arithmetic::power::pow(base, n as nat),
        spec_digit(x, base, jj) != spec_digit(y, base, jj),
        forall|j: int| jj < j < n ==> spec_digit(x, base, j) == spec_digit(y, base, j),
    ensures
        x <= y <==> spec_digit(x, base, jj) < spec_digit(y, base, jj),
{
    let pj = vstd::arithmetic::power::pow(base, jj as nat) as int;
    let pj1 = vstd::arithmetic::power::pow(base, (jj + 1) as nat) as int;
    vstd::arithmetic::power::lemma_pow_positive(base, jj as nat);
    vstd::arithmetic::power::lemma_pow_positive(base, (jj + 1) as nat);
    let dx = spec_digit(x, base, jj);
    let dy = spec_digit(y, base, jj);
    crate::generator::lemma_digit_canonical(x, base, jj);
    crate::generator::lemma_digit_canonical(y, base, jj);
    lemma_digit_decompose(x, base, jj);
    lemma_digit_decompose(y, base, jj);
    lemma_high_digits_equal_div(x, y, base, jj + 1, n);
    let hi = x / pj1;
    vstd::arithmetic::div_mod::lemma_mod_bound(x, pj);
    vstd::arithmetic::div_mod::lemma_mod_bound(y, pj);
    let lox = x % pj;
    let loy = y % pj;
    assert(x - y == (dx - dy) * pj + (lox - loy)) by {
        vstd::arithmetic::mul::lemma_mul_is_distributive_sub_other_way(pj, dx, dy);
        vstd::arithmetic::mul::lemma_mul_is_commutative(dx, pj);
        vstd::arithmetic::mul::lemma_mul_is_commutative(dy, pj);
        vstd::arithmetic::mul::lemma_mul_is_commutative(dx - dy, pj);
    }
    if dx < dy {
        assert((dx - dy) * pj <= -1 * pj) by {
            vstd::arithmetic::mul::lemma_mul_inequality(dx - dy, -1, pj);
        }
        assert(x < y);
    } else {
        assert(1 * pj <= (dx - dy) * pj) by {
            vstd::arithmetic::mul::lemma_mul_inequality(1, dx - dy, pj);
        }
        assert(y < x);
    }
}


/// The shape of the generator's running difference: zero with all digits
/// so far equal, or the field difference of the digits at the most
/// significant differing position so far.
proof fn lemma_cmp_msd_form(x: int, y: int, cs: int, i: int)
    requires
        0 <= x,
        0 <= y,
        2 <= cs,
    ensures
        (cmp_msd(x, y, cs, i) == 0 && forall|j: int|
            0 <= j < i ==> spec_digit(x, cs, j) == spec_digit(y, cs, j)) || exists|j: int|
            #![trigger spec_digit(x, cs, j)]
            {
                &&& 0 <= j < i
                &&& spec_digit(x, cs, j) != spec_digit(y, cs, j)
                &&& cmp_msd(x, y, cs, i) == fsub_spec(spec_digit(y, cs, j), spec_digit(x, cs, j))
                &&& forall|j2: int| j < j2 < i ==> spec_digit(x, cs, j2) == spec_digit(y, cs, j2)
            },
    decreases i,
{
    if i <= 0 {
    } else {
        let dx = spec_digit(x, cs, i - 1);
        let dy = spec_digit(y, cs, i - 1);
        if dx == dy {
            lemma_cmp_msd_form(x, y, cs, i - 1);
        } else {
            assert({
                &&& 0 <= i - 1 < i
                &&& spec_digit(x, cs, i - 1) != spec_digit(y, cs, i - 1)
                &&& cmp_msd(x, y, cs, i) == fsub_spec(
                    spec_digit(y, cs, i - 1),
                    spec_digit(x, cs, i - 1),
                )
                &&& forall|j2: int| i - 1 < j2 < i ==> spec_digit(x, cs, j2) == spec_digit(
                    y,
                    cs,
                    j2,
                )
            });
        }
    }
}

/// When the chunk wires hold the generator's outputs, the running
/// difference the constraints compute equals the one the generator
/// computes.
proof fn lemma_cmp_eval_msd_matches(
    g: ComparisonGate,
    vals: Seq<FieldElem>,
    x: int,
    y: int,
    i: int,
)
    requires
        g.wf(),
        vals.len() >= g.spec_num_wires(),
        0 <= i <= g.num_chunks,
        0 <= x < FIELD_ORDER,
        0 <= y < FIELD_ORDER,
        forall|m: int|
            0 <= m < g.num_chunks ==> (#[trigger] vals[4 + m]).value == spec_digit(
                x,
                cmp_chunk_size(g),
                m,
            ),
        forall|m: int|
            0 <= m < g.num_chunks ==> (#[trigger] vals[4 + g.num_chunks + m]).value == spec_digit(
                y,
                cmp_chunk_size(g),
                m,
            ),
        forall|m: int|
            0 <= m < g.num_chunks ==> (#[trigger] vals[4 + 3 * g.num_chunks + m]).value == (
            if spec_digit(x, cmp_chunk_size(g), m) == spec_digit(y, cmp_chunk_size(g), m) {
                1int
            } else {
                0int
            }),
        forall|m: int|
            0 <= m < g.num_chunks ==> (#[trigger] vals[4 + 4 * g.num_chunks + m]).value == (
            if spec_digit(x, cmp_chunk_size(g), m) == spec_digit(y, cmp_chunk_size(g), m) {
                cmp_msd(x, y, cmp_chunk_size(g), m)
            } else {
                0int
            }),
    ensures
        cmp_eval_msd(g, vals, i) == cmp_msd(x, y, cmp_chunk_size(g), i),
    decreases i,
{
    let p = FIELD_ORDER as int;
    let cs = cmp_chunk_size(g);
    crate::generator::lemma_chunk_size_range(g);
    vstd::arithmetic::div_mod::lemma_small_mod(0, p as nat);
    if i > 0 {
        lemma_cmp_eval_msd_matches(g, vals, x, y, i - 1);
        let dx = spec_digit(x, cs, i - 1);
        let dy = spec_digit(y, cs, i - 1);
        crate::generator::lemma_digit_canonical(x, cs, i - 1);
        crate::generator::lemma_digit_canonical(y, cs, i - 1);
        crate::generator::lemma_cmp_msd_canonical(x, y, cs, i - 1);
        let diff = fsub_spec(dy, dx);
        if dx == dy {
            assert(diff == 0);
            assert(fsub_spec(1, 1) == 0);
            assert(fmul_spec(0, 0) == 0) by {
                assert(0 * 0 == 0);
            }
            assert(cmp_eval_msd(g, vals, i) == fadd_spec(cmp_msd(x, y, cs, i - 1), 0));
            vstd::arithmetic::div_mod::lemma_small_mod(
                cmp_msd(x, y, cs, i - 1) as nat,
                p as nat,
            );
        } else {
            assert(fsub_spec(1, 0) == 1);
            vstd::arithmetic::div_mod::lemma_mod_bound(dy - dx, p);
            assert(fmul_spec(1, diff) == diff) by {
                assert(1 * diff == diff);
                vstd::arithmetic::div_mod::lemma_small_mod(diff as nat, p as nat);
            }
            assert(cmp_eval_msd(g, vals, i) == fadd_spec(0, diff));
            vstd::arithmetic::div_mod::lemma_small_mod(diff as nat, p as nat);
        }
    }
}


/// The bit of `v` at position `cb` for `v` below twice `2^cb`: set exactly
/// when `v` reaches `2^cb`.
proof fn lemma_bit_at(v: int, cb: int)
    requires
        0 <= cb,
        0 <= v < 2 * vstd::arithmetic::power::pow(2, cb as nat),
    ensures
        spec_digit(v, 2, cb) == (if v >= vstd::arithmetic::power::pow(2, cb as nat) {
            1int
        } else {
            0int
        }),
{
    let c = vstd::arithmetic::power::pow(2, cb as nat) as int;
    vstd::arithmetic::power::lemma_pow_positive(2, cb as nat);
    if v >= c {
        vstd::arithmetic::div_mod::lemma_fundamental_div_mod_converse(v, c, 1, v - c);
        vstd::arithmetic::div_mod::lemma_small_mod(1, 2);
    } else {
        vstd::arithmetic::div_mod::lemma_basic_div(v, c);
    }
}

/// General comparison-gate completeness: when the wires hold exactly what
/// the generator writes for representable inputs, and the field difference
/// of every differing chunk pair is invertible, every constraint of the
/// comparison row vanishes.
///
/// The invertibility premise holds of every nonzero element of a prime
/// field; it is stated as a premise because this development does not
/// derive the primality of the field order.
#[verifier::rlimit(100)]
#[verifier::spinoff_prover]
pub proof fn lemma_comparison_generator_passes(
    g: ComparisonGate,
    vals: Seq<FieldElem>,
    x: int,
    y: int,
)
    requires
        g.wf(),
        vals.len() >= g.spec_num_wires(),
        0 <= x < vstd::arithmetic::power::pow(cmp_chunk_size(g), g.num_chunks as nat),
        0 <= y < vstd::arithmetic::power::pow(cmp_chunk_size(g), g.num_chunks as nat),
        x < FIELD_ORDER,
        y < FIELD_ORDER,
        vals[0].value == x,
        vals[1].value == y,
        vals[2].value == (if x <= y {
            1int
        } else {
            0int
        }),
        vals[3].value == cmp_msd(x, y, cmp_chunk_size(g), g.num_chunks as int),
        forall|m: int|
            0 <= m < g.num_chunks ==> (#[trigger] vals[4 + m]).value == spec_digit(
                x,
                cmp_chunk_size(g),
                m,
            ),
        forall|m: int|
            0 <= m < g.num_chunks ==> (#[trigger] vals[4 + g.num_chunks + m]).value == spec_digit(
                y,
                cmp_chunk_size(g),
                m,
            ),
        forall|m: int|
            0 <= m < g.num_chunks ==> (#[trigger] vals[4 + 2 * g.num_chunks + m]).value == (
            if spec_digit(x, cmp_chunk_size(g), m) == spec_digit(y, cmp_chunk_size(g), m) {
                1int
            } else {
                finv_spec(
                    fsub_spec(
                        spec_digit(y, cmp_chunk_size(g), m),
                        spec_digit(x, cmp_chunk_size(g), m),
                    ),
                )
            }),
        forall|m: int|
            0 <= m < g.num_chunks ==> (#[trigger] vals[4 + 3 * g.num_chunks + m]).value == (
            if spec_digit(x, cmp_chunk_size(g), m) == spec_digit(y, cmp_chunk_size(g), m) {
                1int
            } else {
                0int
            }),
        forall|m: int|
            0 <= m < g.num_chunks ==> (#[trigger] vals[4 + 4 * g.num_chunks + m]).value == (
            if spec_digit(x, cmp_chunk_size(g), m) == spec_digit(y, cmp_chunk_size(g), m) {
                cmp_msd(x, y, cmp_chunk_size(g), m)
            } else {
                0int
            }),
        forall|j: int|
            0 <= j < g.spec_chunk_bits() + 1 ==> (#[trigger] vals[4 + 5 * g.num_chunks
                + j]).value == spec_digit(
                fadd_spec(
                    cmp_chunk_size(g),
                    cmp_msd(x, y, cmp_chunk_size(g), g.num_chunks as int),
                ),
                2,
                j,
            ),
        forall|m: int|
            0 <= m < g.num_chunks && spec_digit(x, cmp_chunk_size(g), m) != spec_digit(
                y,
                cmp_chunk_size(g),
                m,
            ) ==> invertible(
                #[trigger] fsub_spec(
                    spec_digit(y, cmp_chunk_size(g), m),
                    spec_digit(x, cmp_chunk_size(g), m),
                ),
            ),
    ensures
        forall|k: int|
            0 <= k < cmp_constraints(g, vals).len() ==> (#[trigger] cmp_constraints(
                g,
                vals,
            )[k]).value == 0,
{
    let p = FIELD_ORDER as int;
    let cs = cmp_chunk_size(g);
    let nc = g.num_chunks as int;
    let cb = g.spec_chunk_bits();
    let cons = cmp_constraints(g, vals);
    let msd = cmp_msd(x, y, cs, nc);
    let vbits = fadd_spec(cs, msd);
    crate::generator::lemma_chunk_size_range(g);
    vstd::arithmetic::div_mod::lemma_small_mod(0, p as nat);
    vstd::arithmetic::div_mod::lemma_small_mod(1, p as nat);
    assert(cs == vstd::arithmetic::power::pow(2, cb as nat)) by {
        vstd::arithmetic::power2::lemma_pow2(cb as nat);
    }
    // Chunk recombination for both inputs.
    lemma_digit_elems_index(x, cs, nc);
    lemma_digit_elems_index(y, cs, nc);
    assert(vals.subrange(4, 4 + nc) =~= spec_digit_elems(x, cs, nc)) by {
        assert forall|i: int| 0 <= i < nc implies #[trigger] vals.subrange(4, 4 + nc)[i]
            == spec_digit_elems(x, cs, nc)[i] by {
            crate::generator::lemma_digit_canonical(x, cs, i);
            assert(vals.subrange(4, 4 + nc)[i] == vals[4 + i]);
        }
    }
    assert(vals.subrange(4 + nc, 4 + 2 * nc) =~= spec_digit_elems(y, cs, nc)) by {
        assert forall|i: int| 0 <= i < nc implies #[trigger] vals.subrange(
            4 + nc,
            4 + 2 * nc,
        )[i] == spec_digit_elems(y, cs, nc)[i] by {
            crate::generator::lemma_digit_canonical(y, cs, i);
            assert(vals.subrange(4 + nc, 4 + 2 * nc)[i] == vals[4 + nc + i]);
        }
    }
    lemma_digits_recombine(x, cs, nc);
    lemma_digits_recombine(y, cs, nc);
    // The eval-side running difference agrees with the generator's.
    assert forall|i: int| 0 <= i <= nc implies cmp_eval_msd(g, vals, i) == cmp_msd(
        x,
        y,
        cs,
        i,
    ) by {
        lemma_cmp_eval_msd_matches(g, vals, x, y, i);
    }
    // The canonical value the bit wires decompose, by the three cases of
    // the running difference.
    crate::generator::lemma_cmp_msd_canonical(x, y, cs, nc);
    lemma_cmp_msd_form(x, y, cs, nc);
    if msd == 0 && (forall|j: int| 0 <= j < nc ==> spec_digit(x, cs, j) == spec_digit(
        y,
        cs,
        j,
    )) {
        assert(spec_digit_elems(x, cs, nc) =~= spec_digit_elems(y, cs, nc));
        assert(x == y);
        assert(vbits == cs) by {
            vstd::arithmetic::div_mod::lemma_small_mod(cs as nat, p as nat);
        }
    } else {
        let jj = choose|j: int|
            #![trigger spec_digit(x, cs, j)]
            {
                &&& 0 <= j < nc
                &&& spec_digit(x, cs, j) != spec_digit(y, cs, j)
                &&& cmp_msd(x, y, cs, nc) == fsub_spec(spec_digit(y, cs, j), spec_digit(x, cs, j))
                &&& forall|j2: int| j < j2 < nc ==> spec_digit(x, cs, j2) == spec_digit(
                    y,
                    cs,
                    j2,
                )
            };
        let dx = spec_digit(x, cs, jj);
        let dy = spec_digit(y, cs, jj);
        crate::generator::lemma_digit_canonical(x, cs, jj);
        crate::generator::lemma_digit_canonical(y, cs, jj);
        lemma_lex_compare(x, y, cs, jj, nc);
        if dx < dy {
            assert(msd == dy - dx) by {
                vstd::arithmetic::div_mod::lemma_small_mod((dy - dx) as nat, p as nat);
            }
            assert(vbits == cs + dy - dx) by {
                vstd::arithmetic::div_mod::lemma_small_mod((cs + dy - dx) as nat, p as nat);
            }
            assert(x <= y);
            lemma_bit_at(vbits, cb);
            assert(spec_digit(vbits, 2, cb) == 1);
        } else {
            assert(msd == dy - dx + p) by {
                vstd::arithmetic::div_mod::lemma_mod_add_multiples_vanish(dy - dx, p);
                vstd::arithmetic::div_mod::lemma_small_mod((dy - dx + p) as nat, p as nat);
            }
            assert(vbits == cs + dy - dx) by {
                vstd::arithmetic::div_mod::lemma_mod_add_multiples_vanish(cs + dy - dx, p);
                vstd::arithmetic::div_mod::lemma_small_mod((cs + dy - dx) as nat, p as nat);
            }
            assert(!(x <= y));
            lemma_bit_at(vbits, cb);
            assert(spec_digit(vbits, 2, cb) == 0);
        }
    }
    assert(0 < vbits < 2 * cs);
    // The bit wires recombine to that value.
    assert(vstd::arithmetic::power::pow(2, (cb + 1) as nat) == 2 * cs) by {
        vstd::arithmetic::power::lemma_pow_adds(2, 1, cb as nat);
        vstd::arithmetic::power::lemma_pow1(2);
    }
    lemma_digit_elems_index(vbits, 2, cb + 1);
    assert(vals.subrange(4 + 5 * nc, 4 + 5 * nc + cb + 1) =~= spec_digit_elems(vbits, 2, cb + 1))
        by {
        assert forall|j: int| 0 <= j < cb + 1 implies #[trigger] vals.subrange(
            4 + 5 * nc,
            4 + 5 * nc + cb + 1,
        )[j] == spec_digit_elems(vbits, 2, cb + 1)[j] by {
            crate::generator::lemma_digit_canonical(vbits, 2, j);
            assert(vals.subrange(4 + 5 * nc, 4 + 5 * nc + cb + 1)[j] == vals[4 + 5 * nc + j]);
        }
    }
    lemma_digits_recombine(vbits, 2, cb + 1);
    let chunks = cmp_chunks_constraints_upto(g, vals, nc);
    crate::eval::lemma_cmp_chunks_constraints_len_pub(g, vals, nc);
    assert forall|k: int| 0 <= k < cons.len() implies (#[trigger] cons[k]).value == 0 by {
        if k < 2 {
            assert(fsub_spec(x, x) == 0);
            assert(fsub_spec(y, y) == 0);
        } else if k < 2 + 5 * nc {
            let i = (k - 2) / 5;
            let off = (k - 2) % 5;
            vstd::arithmetic::div_mod::lemma_fundamental_div_mod(k - 2, 5);
            vstd::arithmetic::div_mod::lemma_mod_bound(k - 2, 5);
            vstd::arithmetic::div_mod::lemma_div_pos_is_pos(k - 2, 5);
            assert(i < nc) by {
                vstd::arithmetic::div_mod::lemma_multiply_divide_lt(k - 2, 5, nc);
            }
            assert(cons[k] == chunks[k - 2]);
            lemma_cmp_chunk_constraints_index(g, vals, i, off);
            assert(chunks[5 * i + off] == cmp_chunk_constraints(g, vals, i)[off]);
            lemma_comparison_general_chunk(g, vals, x, y, i);
        } else if k == 2 + 5 * nc {
            assert(cons[k].value == fsub_spec(msd, cmp_eval_msd(g, vals, nc)) as u64);
            assert(fsub_spec(msd, msd) == 0);
        } else if k < 3 + 5 * nc + (cb + 1) {
            let j = k - (3 + 5 * nc);
            crate::generator::lemma_digit_canonical(vbits, 2, j);
            let b = vals[4 + 5 * nc + j].value as int;
            assert(b == 0 || b == 1);
            assert(fmul_spec(b, fsub_spec(1, b)) == 0) by {
                if b == 0 {
                    assert(0 * fsub_spec(1, 0) == 0);
                } else {
                    assert(fsub_spec(1, 1) == 0);
                    assert(1 * 0 == 0);
                }
            }
        } else if k == 3 + 5 * nc + (cb + 1) {
            assert(cons[k].value == fsub_spec(
                fadd_spec(cs, vals[3].value as int),
                spec_weighted_sum(vals.subrange(4 + 5 * nc, 4 + 5 * nc + cb + 1), 2),
            ) as u64);
            assert(fsub_spec(vbits, vbits) == 0);
        } else {
            assert(cons[k].value == fsub_spec(
                vals[2].value as int,
                vals[4 + 5 * nc + cb].value as int,
            ) as u64);
            crate::generator::lemma_digit_canonical(vbits, 2, cb);
            lemma_bit_at(vbits, cb);
            if x <= y {
                assert(vbits >= cs);
                assert(fsub_spec(1, 1) == 0);
            } else {
                assert(vbits < cs);
                assert(fsub_spec(0, 0) == 0);
            }
        }
    }
}

/// All five constraints of one chunk vanish on the generator's outputs,
/// with the differing-chunk case resting on the invertibility of the digit
/// difference.
proof fn lemma_comparison_general_chunk(
    g: ComparisonGate,
    vals: Seq<FieldElem>,
    x: int,
    y: int,
    i: int,
)
    requires
        g.wf(),
        vals.len() >= g.spec_num_wires(),
        0 <= i < g.num_chunks,
        0 <= x < FIELD_ORDER,
        0 <= y < FIELD_ORDER,
        forall|m: int|
            0 <= m < g.num_chunks ==> (#[trigger] vals[4 + m]).value == spec_digit(
                x,
                cmp_chunk_size(g),
                m,
            ),
        forall|m: int|
            0 <= m < g.num_chunks ==> (#[trigger] vals[4 + g.num_chunks + m]).value == spec_digit(
                y,
                cmp_chunk_size(g),
                m,
            ),
        forall|m: int|
            0 <= m < g.num_chunks ==> (#[trigger] vals[4 + 2 * g.num_chunks + m]).value == (
            if spec_digit(x, cmp_chunk_size(g), m) == spec_digit(y, cmp_chunk_size(g), m) {
                1int
            } else {
                finv_spec(
                    fsub_spec(
                        spec_digit(y, cmp_chunk_size(g), m),
                        spec_digit(x, cmp_chunk_size(g), m),
                    ),
                )
            }),
        forall|m: int|
            0 <= m < g.num_chunks ==> (#[trigger] vals[4 + 3 * g.num_chunks + m]).value == (
            if spec_digit(x, cmp_chunk_size(g), m) == spec_digit(y, cmp_chunk_size(g), m) {
                1int
            } else {
                0int
            }),
        forall|m: int|
            0 <= m < g.num_chunks ==> (#[trigger] vals[4 + 4 * g.num_chunks + m]).value == (
            if spec_digit(x, cmp_chunk_size(g), m) == spec_digit(y, cmp_chunk_size(g), m) {
                cmp_msd(x, y, cmp_chunk_size(g), m)
            } else {
                0int
            }),
        forall|m: int|
            0 <= m < g.num_chunks && spec_digit(x, cmp_chunk_size(g), m) != spec_digit(
                y,
                cmp_chunk_size(g),
                m,
            ) ==> invertible(
                #[trigger] fsub_spec(
                    spec_digit(y, cmp_chunk_size(g), m),
                    spec_digit(x, cmp_chunk_size(g), m),
                ),
            ),
    ensures
        forall|off: int|
            0 <= off < 5 ==> (#[trigger] cmp_chunk_constraints(g, vals, i)[off]).value == 0,
{
    let p = FIELD_ORDER as int;
    let cs = cmp_chunk_size(g);
    crate::generator::lemma_chunk_size_range(g);
    crate::generator::lemma_digit_canonical(x, cs, i);
    crate::generator::lemma_digit_canonical(y, cs, i);
    crate::generator::lemma_cmp_msd_canonical(x, y, cs, i);
    vstd::arithmetic::div_mod::lemma_small_mod(0, p as nat);
    vstd::arithmetic::div_mod::lemma_small_mod(1, p as nat);
    lemma_cmp_eval_msd_matches(g, vals, x, y, i);
    let dx = spec_digit(x, cs, i);
    let dy = spec_digit(y, cs, i);
    let diff = fsub_spec(dy, dx);
    lemma_range_check_passes(dx, cs);
    lemma_range_check_passes(dy, cs);
    if dx == dy {
        assert(diff == 0);
        assert(fmul_spec(0, 1) == 0) by {
            assert(0 * 1 == 0);
        }
        assert(fsub_spec(1, 1) == 0);
        assert(fmul_spec(1, 0) == 0) by {
            assert(1 * 0 == 0);
        }
        let m = cmp_msd(x, y, cs, i);
        assert(fmul_spec(1, m) == m) by {
            assert(1 * m == m);
            vstd::arithmetic::div_mod::lemma_small_mod(m as nat, p as nat);
        }
        assert(fsub_spec(m, m) == 0);
    } else {
        assert(invertible(diff));
        assert(fmul_spec(diff, finv_spec(diff)) == 1) by {
            let w = choose|w: int| 0 <= w < FIELD_ORDER && fmul_spec(diff, w) == 1;
        }
        assert(fsub_spec(1, 0) == 1);
        assert(fsub_spec(fmul_spec(diff, finv_spec(diff)), fsub_spec(1, 0)) == 0) by {
            assert(fsub_spec(1, 1) == 0);
        }
        vstd::arithmetic::div_mod::lemma_mod_bound(dy - dx, p);
        assert(fmul_spec(0, diff) == 0) by {
            assert(0 * diff == 0);
        }
        assert(fsub_spec(0, fmul_spec(0, cmp_eval_msd(g, vals, i))) == 0) by {
            assert(0 * cmp_eval_msd(g, vals, i) == 0);
        }
    }
}


/// The most-significant-first fold computes the little-endian weighted sum
/// of the processed suffix.
proof fn lemma_fold_is_weighted_sum(vals: Seq<FieldElem>, base: int, k: int)
    requires
        0 <= k <= vals.len(),
    ensures
        spec_fold_desc(vals, base, k) == spec_weighted_sum(
            vals.skip(vals.len() - k),
            base,
        ),
    decreases k,
{
    if k == 0 {
        assert(vals.skip(vals.len() as int).len() == 0);
    } else {
        lemma_fold_is_weighted_sum(vals, base, k - 1);
        let s = vals.skip(vals.len() - k);
        assert(s[0] == vals[vals.len() - k]);
        assert(s.skip(1) =~= vals.skip(vals.len() - (k - 1)));
    }
}

/// Digits below position `n` ignore everything at or above position `n`.
proof fn lemma_digit_truncate(v: int, base: int, j: int, n: int)
    requires
        0 <= v,
        2 <= base,
        0 <= j < n,
    ensures
        spec_digit(v % vstd::arithmetic::power::pow(base, n as nat) as int, base, j)
            == spec_digit(v, base, j),
{
    let pn = vstd::arithmetic::power::pow(base, n as nat) as int;
    let pj = vstd::arithmetic::power::pow(base, j as nat) as int;
    let ph = vstd::arithmetic::power::pow(base, (n - j) as nat) as int;
    vstd::arithmetic::power::lemma_pow_positive(base, n as nat);
    vstd::arithmetic::power::lemma_pow_positive(base, j as nat);
    vstd::arithmetic::power::lemma_pow_positive(base, (n - j) as nat);
    assert(pn == pj * ph) by {
        vstd::arithmetic::power::lemma_pow_adds(base, j as nat, (n - j) as nat);
    }
    let q = v / pn;
    let w = v % pn;
    vstd::arithmetic::div_mod::lemma_fundamental_div_mod(v, pn);
    vstd::arithmetic::div_mod::lemma_fundamental_div_mod(w, pj);
    vstd::arithmetic::div_mod::lemma_mod_bound(v, pn);
    vstd::arithmetic::div_mod::lemma_mod_bound(w, pj);
    vstd::arithmetic::div_mod::lemma_div_pos_is_pos(v, pn);
    vstd::arithmetic::div_mod::lemma_div_pos_is_pos(w, pj);
    assert(v == pj * (ph * q + w / pj) + (w % pj)) by {
        assert(pj * (ph * q + w / pj) == pj * (ph * q) + pj * (w / pj)) by {
            vstd::arithmetic::mul::lemma_mul_is_distributive_add(pj, ph * q, w / pj);
        }
        assert(pj * (ph * q) == pn * q) by {
            vstd::arithmetic::mul::lemma_mul_is_associative(pj, ph, q);
        }
    }
    assert(ph * q >= 0) by {
        vstd::arithmetic::mul::lemma_mul_nonnegative(ph, q);
    }
    vstd::arithmetic::div_mod::lemma_fundamental_div_mod_converse(
        v,
        pj,
        ph * q + w / pj,
        w % pj,
    );
    assert(v / pj == ph * q + w / pj);
    // The part above position j is a multiple of the base.
    let phm = vstd::arithmetic::power::pow(base, (n - j - 1) as nat) as int;
    assert(ph == base * phm) by {
        vstd::arithmetic::power::lemma_pow_adds(base, 1, (n - j - 1) as nat);
        vstd::arithmetic::power::lemma_pow1(base);
    }
    assert(ph * q == base * (phm * q)) by {
        vstd::arithmetic::mul::lemma_mul_is_associative(base, phm, q);
    }
    vstd::arithmetic::div_mod::lemma_mod_multiples_vanish(phm * q, w / pj, base);
}

/// Shifting out the lowest `k` digits: digit `k + j` of `v` is digit `j`
/// of `v` divided by the `k`th power of the base.
proof fn lemma_digit_shift_many(v: int, base: int, k: int, j: int)
    requires
        0 <= v,
        2 <= base,
        0 <= k,
        0 <= j,
    ensures
        spec_digit(v, base, k + j) == spec_digit(
            v / vstd::arithmetic::power::pow(base, k as nat) as int,
            base,
            j,
        ),
    decreases k,
{
    vstd::arithmetic::power::lemma_pow_positive(base, k as nat);
    if k == 0 {
        vstd::arithmetic::power::lemma_pow0(base);
        vstd::arithmetic::div_mod::lemma_div_basics(v);
    } else {
        lemma_digit_shift(v, base, k + j - 1);
        lemma_digit_shift_many(v / base, base, k - 1, j);
        vstd::arithmetic::div_mod::lemma_div_pos_is_pos(v, base);
        let pk1 = vstd::arithmetic::power::pow(base, (k - 1) as nat) as int;
        vstd::arithmetic::power::lemma_pow_positive(base, (k - 1) as nat);
        assert((v / base) / pk1 == v / vstd::arithmetic::power::pow(base, k as nat) as int) by {
            vstd::arithmetic::div_mod::lemma_div_denominator(v, base, pk1);
            assert(base * pk1 == vstd::arithmetic::power::pow(base, k as nat)) by {
                vstd::arithmetic::power::lemma_pow_adds(base, 1, (k - 1) as nat);
                vstd::arithmetic::power::lemma_pow1(base);
            }
        }
    }
}


/// The field value one packed u32 operation computes from its input wires.
pub open spec fn u32_out_val(vals: Seq<FieldElem>, i: int) -> int {
    fadd_spec(
        fmul_spec(vals[6 * i].value as int, vals[6 * i + 1].value as int),
        vals[6 * i + 2].value as int,
    )
}

/// U32 multiply-add completeness: when the wires of one packed operation
/// hold exactly what its generator writes — the 32-bit halves and the
/// 2-bit limbs of the computed value, and the inverse of the not-max
/// difference — and that difference, when nonzero, is invertible, every
/// constraint of the operation vanishes.
///
/// The invertibility premise holds of every nonzero element of a prime
/// field; it is stated as a premise because this development does not
/// derive the primality of the field order.
#[verifier::rlimit(100)]
#[verifier::spinoff_prover]
pub proof fn lemma_u32_generator_passes(g: U32ArithmeticGate, vals: Seq<FieldElem>, i: int)
    requires
        g.wf(),
        0 <= i < g.num_ops,
        vals.len() >= 38 * g.num_ops,
        vals[6 * i].is_canonical(),
        vals[6 * i + 1].is_canonical(),
        vals[6 * i + 2].is_canonical(),
        vals[6 * i + 3].value == u32_out_val(vals, i) % 0x1_0000_0000,
        vals[6 * i + 4].value == u32_out_val(vals, i) / 0x1_0000_0000,
        vals[6 * i + 5].value == (if u32_out_val(vals, i) / 0x1_0000_0000 == 0xFFFF_FFFF {
            0int
        } else {
            finv_spec(0xFFFF_FFFF - u32_out_val(vals, i) / 0x1_0000_0000)
        }),
        forall|j: int|
            0 <= j < 32 ==> (#[trigger] vals[6 * g.num_ops + 32 * i + j]).value == spec_digit(
                u32_out_val(vals, i),
                4,
                j,
            ),
        u32_out_val(vals, i) / 0x1_0000_0000 != 0xFFFF_FFFF ==> invertible(
            0xFFFF_FFFF - u32_out_val(vals, i) / 0x1_0000_0000,
        ),
    ensures
        forall|k: int|
            0 <= k < u32_op_constraints(g, vals, i).len() ==> (#[trigger] u32_op_constraints(
                g,
                vals,
                i,
            )[k]).value == 0,
{
    let p = FIELD_ORDER as int;
    let cons = u32_op_constraints(g, vals, i);
    let out = u32_out_val(vals, i);
    let b32 = 0x1_0000_0000int;
    vstd::arithmetic::div_mod::lemma_mod_bound(
        fmul_spec(vals[6 * i].value as int, vals[6 * i + 1].value as int) + vals[6 * i
            + 2].value as int,
        p,
    );
    assert(0 <= out < p);
    let low = out % b32;
    let high = out / b32;
    vstd::arithmetic::div_mod::lemma_fundamental_div_mod(out, b32);
    vstd::arithmetic::div_mod::lemma_mod_bound(out, b32);
    vstd::arithmetic::div_mod::lemma_div_pos_is_pos(out, b32);
    assert(high <= 0xFFFF_FFFF) by {
        assert(0xFFFF_FFFF_0000_0000 == 0x1_0000_0000 * 0xFFFF_FFFFint);
        vstd::arithmetic::div_mod::lemma_div_multiples_vanish(0xFFFF_FFFF, 0x1_0000_0000);
        vstd::arithmetic::div_mod::lemma_div_is_ordered(out, 0xFFFF_FFFF_0000_0000, b32);
    }
    vstd::arithmetic::div_mod::lemma_small_mod(0, p as nat);
    vstd::arithmetic::div_mod::lemma_small_mod(1, p as nat);
    let diff = 0xFFFF_FFFF - high;
    // Positions and values of the limb wires.
    let ls = 6 * g.num_ops + 32 * i;
    let limbs = vals.subrange(ls, ls + 32);
    assert(vstd::arithmetic::power::pow(4, 16) == b32) by {
        vstd::arithmetic::power::lemma_pow_multiplies(2, 2, 16);
        vstd::arithmetic::power2::lemma_pow2(32);
        vstd::arithmetic::power2::lemma_pow2(2);
        vstd::arithmetic::power2::lemma2_to64();
        vstd::arithmetic::power2::lemma2_to64_rest();
        assert(vstd::arithmetic::power::pow(2, 2) == 4) by {
            vstd::arithmetic::power::lemma_pow1(2);
            vstd::arithmetic::power::lemma_pow_adds(2, 1, 1);
        }
    }
    // The low half recombines from the low sixteen limbs.
    lemma_digit_elems_index(low, 4, 16);
    assert(limbs.subrange(0, 16) =~= spec_digit_elems(low, 4, 16)) by {
        assert forall|j: int| 0 <= j < 16 implies #[trigger] limbs.subrange(0, 16)[j]
            == spec_digit_elems(low, 4, 16)[j] by {
            assert(limbs.subrange(0, 16)[j] == vals[ls + j]);
            lemma_digit_truncate(out, 4, j, 16);
            crate::generator::lemma_digit_canonical(low, 4, j);
        }
    }
    lemma_fold_is_weighted_sum(limbs.subrange(0, 16), 4, 16);
    assert(limbs.subrange(0, 16).skip(0) =~= limbs.subrange(0, 16));
    lemma_digits_recombine(low, 4, 16);
    // The high half recombines from the high sixteen limbs.
    lemma_digit_elems_index(high, 4, 16);
    assert(limbs.subrange(16, 32) =~= spec_digit_elems(high, 4, 16)) by {
        assert forall|j: int| 0 <= j < 16 implies #[trigger] limbs.subrange(16, 32)[j]
            == spec_digit_elems(high, 4, 16)[j] by {
            assert(limbs.subrange(16, 32)[j] == vals[ls + 16 + j]);
            assert(vals[6 * g.num_ops + 32 * i + (16 + j)].value == spec_digit(out, 4, 16 + j));
            lemma_digit_shift_many(out, 4, 16, j);
            assert(out / vstd::arithmetic::power::pow(4, 16) == high);
            assert(spec_digit(out, 4, 16 + j) == spec_digit(high, 4, j));
            crate::generator::lemma_digit_canonical(high, 4, j);
        }
    }
    lemma_fold_is_weighted_sum(limbs.subrange(16, 32), 4, 16);
    assert(limbs.subrange(16, 32).skip(0) =~= limbs.subrange(16, 32));
    lemma_digits_recombine(high, 4, 16);
    assert(cons.len() == 36);
    assert forall|k: int| 0 <= k < cons.len() implies (#[trigger] cons[k]).value == 0 by {
        if k == 0 {
            assert(cons[k] == (FieldElem {
                value: fmul_spec(
                    fsub_spec(
                        fmul_spec(
                            vals[6 * i + 5].value as int,
                            fsub_spec(0xFFFF_FFFF, vals[6 * i + 4].value as int),
                        ),
                        1,
                    ),
                    vals[6 * i + 3].value as int,
                ) as u64,
            }));
            if high == 0xFFFF_FFFF {
                // The output fills the field order less one, so the low
                // half must be zero.
                assert(b32 * high == 0xFFFF_FFFF_0000_0000) by {
                    assert(0x1_0000_0000 * 0xFFFF_FFFFint == 0xFFFF_FFFF_0000_0000);
                }
                assert(low == 0);
                assert(fmul_spec(0, 0) == 0) by {
                    assert(0 * 0 == 0);
                }
                assert(fsub_spec(0, 1) == p - 1) by {
                    vstd::arithmetic::div_mod::lemma_mod_add_multiples_vanish(-1, p);
                    vstd::arithmetic::div_mod::lemma_small_mod((p - 1) as nat, p as nat);
                }
                assert(fmul_spec(p - 1, 0) == 0) by {
                    assert((p - 1) * 0 == 0);
                }
            } else {
                assert(fsub_spec(0xFFFF_FFFF, high) == diff) by {
                    vstd::arithmetic::div_mod::lemma_small_mod(diff as nat, p as nat);
                }
                assert(fmul_spec(diff, finv_spec(diff)) == 1) by {
                    let w = choose|w: int| 0 <= w < FIELD_ORDER && fmul_spec(diff, w) == 1;
                }
                assert(fmul_spec(vals[6 * i + 5].value as int, diff) == 1) by {
                    vstd::arithmetic::mul::lemma_mul_is_commutative(
                        vals[6 * i + 5].value as int,
                        diff,
                    );
                }
                assert(fsub_spec(1, 1) == 0);
                assert(fmul_spec(0, vals[6 * i + 3].value as int) == 0) by {
                    assert(0 * vals[6 * i + 3].value as int == 0);
                }
            }
            assert(cons[k].value == 0);
        } else if k == 1 {
            assert(cons[k] == (FieldElem {
                value: fsub_spec(
                    fadd_spec(
                        fmul_spec(vals[6 * i + 4].value as int, 0x1_0000_0000),
                        vals[6 * i + 3].value as int,
                    ),
                    fadd_spec(
                        fmul_spec(vals[6 * i].value as int, vals[6 * i + 1].value as int),
                        vals[6 * i + 2].value as int,
                    ),
                ) as u64,
            }));
            assert(fmul_spec(high, b32) == high * b32) by {
                assert(high * b32 <= 0xFFFF_FFFF * b32) by {
                    vstd::arithmetic::mul::lemma_mul_inequality(high, 0xFFFF_FFFF, b32);
                }
                assert(0xFFFF_FFFFint * 0x1_0000_0000 == 0xFFFF_FFFF_0000_0000);
                assert(high * b32 >= 0) by {
                    vstd::arithmetic::mul::lemma_mul_nonnegative(high, b32);
                }
                vstd::arithmetic::div_mod::lemma_small_mod((high * b32) as nat, p as nat);
            }
            assert(b32 * high == high * b32) by {
                vstd::arithmetic::mul::lemma_mul_is_commutative(b32, high);
            }
            assert(fadd_spec(high * b32, low) == out) by {
                vstd::arithmetic::div_mod::lemma_small_mod(out as nat, p as nat);
            }
            assert(fmul_spec(vals[6 * i + 4].value as int, 0x1_0000_0000) == high * b32);
            assert(fadd_spec(
                fmul_spec(vals[6 * i + 4].value as int, 0x1_0000_0000),
                vals[6 * i + 3].value as int,
            ) == out);
            assert(fadd_spec(
                fmul_spec(vals[6 * i].value as int, vals[6 * i + 1].value as int),
                vals[6 * i + 2].value as int,
            ) == out);
            assert(fsub_spec(out, out) == 0);
            assert(fsub_spec(
                fadd_spec(
                    fmul_spec(vals[6 * i + 4].value as int, 0x1_0000_0000),
                    vals[6 * i + 3].value as int,
                ),
                fadd_spec(
                    fmul_spec(vals[6 * i].value as int, vals[6 * i + 1].value as int),
                    vals[6 * i + 2].value as int,
                ),
            ) == 0);
            assert(cons[k].value == 0);
        } else if k < 34 {
            let j = k - 2;
            assert(cons[k] == (FieldElem {
                value: spec_zero_product(limbs[31 - j].value as int, 4) as u64,
            }));
            assert(limbs[31 - j] == vals[ls + 31 - j]);
            assert(vals[6 * g.num_ops + 32 * i + (31 - j)].value == spec_digit(out, 4, 31 - j));
            assert(limbs[31 - j].value as int == spec_digit(out, 4, 31 - j));
            crate::generator::lemma_digit_canonical(out, 4, 31 - j);
            lemma_range_check_passes(spec_digit(out, 4, 31 - j), 4);
            assert(spec_zero_product(limbs[31 - j].value as int, 4) == 0);
            assert(cons[k].value == 0);
        } else if k == 34 {
            assert(cons[k].value == fsub_spec(
                spec_fold_desc(limbs.subrange(0, 16), 4, 16),
                vals[6 * i + 3].value as int,
            ) as u64);
            assert(fsub_spec(low, low) == 0);
            assert(cons[k].value == 0);
        } else {
            assert(cons[k].value == fsub_spec(
                spec_fold_desc(limbs.subrange(16, 32), 4, 16),
                vals[6 * i + 4].value as int,
            ) as u64);
            assert(fsub_spec(high, high) == 0);
            assert(cons[k].value == 0);
        }
    }
}


/// Arithmetic gate completeness at a whole row: when every packed
/// operation's output wire holds the generator's value, every constraint
/// of the row vanishes.
pub proof fn lemma_arithmetic_gate_passes(g: ArithmeticGate, vals: Seq<FieldElem>)
    requires
        g.wf(),
        vals.len() >= 4 * g.num_ops,
        forall|i: int|
            0 <= i < g.num_ops ==> (#[trigger] vals[4 * i + 3]).value == fadd_spec(
                fmul_spec(vals[4 * i].value as int, vals[4 * i + 1].value as int),
                vals[4 * i + 2].value as int,
            ),
    ensures
        forall|k: int|
            0 <= k < arith_constraints(g, vals).len() ==> (#[trigger] arith_constraints(
                g,
                vals,
            )[k]).value == 0,
{
    assert forall|k: int| 0 <= k < arith_constraints(g, vals).len() implies (
    #[trigger] arith_constraints(g, vals)[k]).value == 0 by {
        lemma_arith_constraint_zero(vals, k);
    }
}

/// Witness scheduler determinism: two resolutions of the same layout,
/// generator list, and supplied values return the same result — the same
/// full witness, or the same error.
pub proof fn lemma_resolution_deterministic(
    layout: Layout,
    gens: Seq<Generator>,
    pairs: Seq<(Target, FieldElem)>,
    r1: Result<SlotState, WitnessError>,
    r2: Result<SlotState, WitnessError>,
)
    requires
        r1 == spec_resolve(layout, gens, pairs),
        r2 == spec_resolve(layout, gens, pairs),
    ensures
        r1 == r2,
{
}


/// A successful resolution leaves no required target unresolved: every
/// wire a gate consumes and every public input has a populated slot in the
/// full witness.
pub proof fn lemma_full_witness_complete(
    layout: Layout,
    gens: Seq<Generator>,
    pairs: Seq<(Target, FieldElem)>,
    st: SlotState,
)
    requires
        layout.wf(),
        spec_resolve(layout, gens, pairs) == Ok::<SlotState, crate::errors::WitnessError>(st),
    ensures
        forall|r: int, c: int|
            0 <= r < layout.gates.len() && 0 <= c < layout.gates[r].spec_num_wires() && (
            #[trigger] (r * layout.config.num_wires + c)) < layout.spec_num_cells()
                ==> st[layout.spec_rep_of(
                Target::Wire { row: r as usize, column: c as usize },
            )] is Some,
        forall|k: int|
            0 <= k < layout.public_inputs.len() ==> st[layout.spec_rep_of(
                #[trigger] layout.public_inputs[k],
            )] is Some,
{
    let loaded = crate::scheduler::model_write(
        layout,
        pairs,
        crate::scheduler::empty_state(layout),
        0,
    );
    lemma_resolve_ok_finish(
        layout,
        gens,
        loaded.0,
        Seq::new(gens.len(), |k: int| false),
        (gens.len() + 1) as nat,
        st,
    );
    assert forall|r: int, c: int|
        0 <= r < layout.gates.len() && 0 <= c < layout.gates[r].spec_num_wires() && (
        #[trigger] (r * layout.config.num_wires + c)) < layout.spec_num_cells()
            implies st[layout.spec_rep_of(
        Target::Wire { row: r as usize, column: c as usize },
    )] is Some by {
        assert(layout.gates[r].spec_num_wires() <= layout.config.num_wires);
        vstd::arithmetic::div_mod::lemma_fundamental_div_mod_converse(
            r * layout.config.num_wires + c,
            layout.config.num_wires as int,
            r,
            c,
        );
        lemma_grid_resolved_at(layout, st, 0, r * layout.config.num_wires + c);
    }
    lemma_pub_resolved(layout, st, 0);
}

/// A resolution that ends in success ends in a finish whose state it
/// returns, so both completeness scans come back empty.
proof fn lemma_resolve_ok_finish(
    layout: Layout,
    gens: Seq<Generator>,
    st0: SlotState,
    ran: Seq<bool>,
    fuel: nat,
    st: SlotState,
)
    requires
        model_resolve_from(layout, gens, st0, ran, fuel) == Ok::<
            SlotState,
            crate::errors::WitnessError,
        >(st),
    ensures
        (grid_unresolved(layout, st, 0) is None),
        (pub_unresolved(layout, st, 0) is None),
    decreases fuel,
{
    let passed = crate::scheduler::model_pass(layout, gens, st0, ran, 0, false);
    if passed.3 is Some {
    } else if !passed.2 || fuel == 0 {
        assert(model_finish(layout, passed.0) == Ok::<
            SlotState,
            crate::errors::WitnessError,
        >(st));
    } else {
        lemma_resolve_ok_finish(layout, gens, passed.0, passed.1, (fuel - 1) as nat, st);
    }
}

/// An empty completeness scan from `i` on means every required cell at or
/// beyond `i` is resolved.
proof fn lemma_grid_resolved_at(layout: Layout, st: SlotState, i: int, cell: int)
    requires
        (grid_unresolved(layout, st, i) is None),
        0 <= i <= cell < layout.spec_num_cells(),
        0 <= cell / (layout.config.num_wires as int),
        cell / (layout.config.num_wires as int) < layout.gates.len(),
        cell % (layout.config.num_wires as int) < layout.gates[cell / (
        layout.config.num_wires as int)].spec_num_wires(),
    ensures
        (st[layout.spec_rep_of(
            Target::Wire {
                row: (cell / layout.config.num_wires as int) as usize,
                column: (cell % layout.config.num_wires as int) as usize,
            },
        )] is Some),
    decreases cell - i,
{
    if i < cell {
        lemma_grid_resolved_at(layout, st, i + 1, cell);
    }
}

/// An empty public-input scan from `k` on means every later public input
/// is resolved.
proof fn lemma_pub_resolved(layout: Layout, st: SlotState, k: int)
    requires
        (pub_unresolved(layout, st, k) is None),
        0 <= k,
    ensures
        forall|m: int|
            k <= m < layout.public_inputs.len() ==> st[layout.spec_rep_of(
                #[trigger] layout.public_inputs[m],
            )] is Some,
    decreases layout.public_inputs.len() - k,
{
    if k < layout.public_inputs.len() {
        lemma_pub_resolved(layout, st, k + 1);
    }
}

/// Copy constraint invariant: the two ends of every copy constraint of a
/// well-formed layout share one slot, so they hold bit-identical values in
/// every witness state.
pub proof fn lemma_copy_constraints_hold(layout: Layout, st: SlotState, k: int)
    requires
        layout.wf(),
        0 <= k < layout.copy_constraints@.len(),
    ensures
        layout.spec_rep_of(layout.copy_constraints@[k].0) == layout.spec_rep_of(
            layout.copy_constraints@[k].1,
        ),
        st[layout.spec_rep_of(layout.copy_constraints@[k].0)] == st[layout.spec_rep_of(
            layout.copy_constraints@[k].1,
        )],
{
}

} // verus!
