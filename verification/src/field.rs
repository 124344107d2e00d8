//! Arithmetic over a fixed prime field.
//!
//! Every element is held in canonical reduced form, as an integer in
//! `[0, FIELD_ORDER)`.  All operations return canonical values; the
//! multiplicative inverse is the one fallible operation.

use vstd::prelude::*;
use crate::errors::FieldError;

verus! {

/// The order of the field: 2^64 - 2^32 + 1.
pub const FIELD_ORDER: u64 = 0xFFFF_FFFF_0000_0001;

/// A field element in canonical reduced form.
#[derive(Clone, Copy, Debug, PartialEq, Eq, Structural, Hash)]
pub struct FieldElem {
    pub value: u64,
}

/// What `add` returns, as a mathematical integer.
pub open spec fn fadd_spec(a: int, b: int) -> int {
    (a + b) % (FIELD_ORDER as int)
}

/// What `sub` returns, as a mathematical integer.
pub open spec fn fsub_spec(a: int, b: int) -> int {
    (a - b) % (FIELD_ORDER as int)
}

/// What `mul` returns, as a mathematical integer.
pub open spec fn fmul_spec(a: int, b: int) -> int {
    (a * b) % (FIELD_ORDER as int)
}

/// What `neg` returns, as a mathematical integer.
pub open spec fn fneg_spec(a: int) -> int {
    (FIELD_ORDER - a) % (FIELD_ORDER as int)
}

impl FieldElem {
    /// The invariant of every field element: the held integer is reduced.
    pub open spec fn is_canonical(self) -> bool {
        self.value < FIELD_ORDER
    }

    /// Constructs a field element from an arbitrary unsigned integer by
    /// reduction modulo the field order.
    pub fn new(v: u64) -> (r: FieldElem)
        ensures
            r.is_canonical(),
            r.value == v as int % FIELD_ORDER as int,
    {
        FieldElem { value: v % FIELD_ORDER }
    }

    /// The additive identity.
    pub fn zero() -> (r: FieldElem)
        ensures
            r.is_canonical(),
            r.value == 0,
    {
        FieldElem { value: 0 }
    }

    /// The multiplicative identity.
    pub fn one() -> (r: FieldElem)
        ensures
            r.is_canonical(),
            r.value == 1,
    {
        FieldElem { value: 1 }
    }

    /// The canonical integer representation of this element.
    pub fn to_canonical_u64(self) -> (r: u64)
        ensures
            r == self.value,
    {
        self.value
    }

    /// Embeds a boolean as 0 or 1.
    pub fn from_bool(b: bool) -> (r: FieldElem)
        ensures
            r.is_canonical(),
            r.value == (if b { 1int } else { 0int }),
    {
        FieldElem { value: if b { 1 } else { 0 } }
    }

    /// Field addition.
    pub fn add(self, rhs: FieldElem) -> (r: FieldElem)
        requires
            self.is_canonical(),
            rhs.is_canonical(),
        ensures
            r.is_canonical(),
            r.value == fadd_spec(self.value as int, rhs.value as int),
    {
        let s: u128 = self.value as u128 + rhs.value as u128;
        let p: u128 = FIELD_ORDER as u128;
        let v: u128 = if s >= p { s - p } else { s };
        proof {
            lemma_reduce_once(self.value as int + rhs.value as int);
        }
        FieldElem { value: v as u64 }
    }

    /// Field subtraction.
    pub fn sub(self, rhs: FieldElem) -> (r: FieldElem)
        requires
            self.is_canonical(),
            rhs.is_canonical(),
        ensures
            r.is_canonical(),
            r.value == fsub_spec(self.value as int, rhs.value as int),
    {
        let v: u64 = if self.value >= rhs.value {
            self.value - rhs.value
        } else {
            self.value + (FIELD_ORDER - rhs.value)
        };
        proof {
            let p = FIELD_ORDER as int;
            let d = self.value as int - rhs.value as int;
            if self.value >= rhs.value {
                vstd::arithmetic::div_mod::lemma_small_mod(d as nat, p as nat);
            } else {
                vstd::arithmetic::div_mod::lemma_mod_add_multiples_vanish(d, p);
                vstd::arithmetic::div_mod::lemma_small_mod((d + p) as nat, p as nat);
            }
        }
        FieldElem { value: v }
    }

    /// Field negation.
    pub fn neg(self) -> (r: FieldElem)
        requires
            self.is_canonical(),
        ensures
            r.is_canonical(),
            r.value == fneg_spec(self.value as int),
    {
        let v: u64 = if self.value == 0 { 0 } else { FIELD_ORDER - self.value };
        proof {
            let p = FIELD_ORDER as int;
            if self.value == 0 {
                vstd::arithmetic::div_mod::lemma_mod_self_0(p);
            } else {
                vstd::arithmetic::div_mod::lemma_small_mod((p - self.value) as nat, p as nat);
            }
        }
        FieldElem { value: v }
    }

    /// Field multiplication.
    pub fn mul(self, rhs: FieldElem) -> (r: FieldElem)
        requires
            self.is_canonical(),
            rhs.is_canonical(),
        ensures
            r.is_canonical(),
            r.value == fmul_spec(self.value as int, rhs.value as int),
    {
        proof {
            assert(self.value as int * rhs.value as int <= u64::MAX as int * (u64::MAX as int))
                by (nonlinear_arith)
                requires
                    self.value <= u64::MAX,
                    rhs.value <= u64::MAX;
        }
        let prod: u128 = (self.value as u128) * (rhs.value as u128);
        let v: u128 = prod % (FIELD_ORDER as u128);
        FieldElem { value: v as u64 }
    }
}

/// True when `a` has a multiplicative inverse modulo the field order.
pub open spec fn invertible(a: int) -> bool {
    exists|x: int| 0 <= x < FIELD_ORDER && fmul_spec(a, x) == 1
}

/// The multiplicative inverse of `a` when one exists, and 0 otherwise.
/// The inverse is unique, so this pins one value for every argument.
pub open spec fn finv_spec(a: int) -> int {
    if invertible(a) {
        choose|x: int| 0 <= x < FIELD_ORDER && fmul_spec(a, x) == 1
    } else {
        0
    }
}

/// The greatest common divisor, by the Euclidean recurrence.
pub open spec fn spec_gcd(a: nat, b: nat) -> nat
    decreases b,
{
    if b == 0 {
        a
    } else {
        spec_gcd(b, a % b)
    }
}

impl FieldElem {
    /// The multiplicative inverse.
    ///
    /// Fails exactly on the elements that have no inverse modulo the field
    /// order; the additive identity is always among them.
    pub fn inverse(self) -> (r: Result<FieldElem, FieldError>)
        requires
            self.is_canonical(),
        ensures
            match r {
                Ok(inv) => {
                    &&& inv.is_canonical()
                    &&& fmul_spec(self.value as int, inv.value as int) == 1
                    &&& invertible(self.value as int)
                    &&& inv.value == finv_spec(self.value as int)
                },
                Err(e) => e == FieldError::DivisionByZero && !invertible(self.value as int),
            },
    {
        let a = self.value;
        if a == 0 {
            proof {
                lemma_zero_not_invertible();
            }
            return Err(FieldError::DivisionByZero);
        }
        let mut r0: u64 = FIELD_ORDER;
        let mut r1: u64 = a;
        let mut s0: u64 = 0;
        let mut s1: u64 = 1;
        proof {
            vstd::arithmetic::div_mod::lemma_mod_self_0(FIELD_ORDER as int);
            vstd::arithmetic::div_mod::lemma_small_mod(a as nat, FIELD_ORDER as nat);
        }
        while r1 != 0
            invariant
                0 < a < FIELD_ORDER,
                0 < r0 <= FIELD_ORDER,
                r1 < r0,
                s0 < FIELD_ORDER,
                s1 < FIELD_ORDER,
                (a as int * s0 as int) % (FIELD_ORDER as int) == r0 as int % (FIELD_ORDER as int),
                (a as int * s1 as int) % (FIELD_ORDER as int) == r1 as int % (FIELD_ORDER as int),
                spec_gcd(r0 as nat, r1 as nat) == spec_gcd(FIELD_ORDER as nat, a as nat),
            decreases r1,
        {
            let q: u64 = r0 / r1;
            let r2: u64 = r0 % r1;
            let qs1: u64 = mul_mod(q, s1);
            let s2: u64 = (FieldElem { value: s0 }).sub(FieldElem { value: qs1 }).value;
            proof {
                vstd::arithmetic::div_mod::lemma_fundamental_div_mod(r0 as int, r1 as int);
                lemma_euclid_step(
                    a as int,
                    s0 as int,
                    s1 as int,
                    s2 as int,
                    q as int,
                    r0 as int,
                    r1 as int,
                    r2 as int,
                );
            }
            r0 = r1;
            r1 = r2;
            s0 = s1;
            s1 = s2;
        }
        if r0 == 1 {
            proof {
                vstd::arithmetic::div_mod::lemma_small_mod(1, FIELD_ORDER as nat);
                assert(fmul_spec(a as int, s0 as int) == 1);
                assert(invertible(a as int));
                let w = choose|x: int| 0 <= x < FIELD_ORDER && fmul_spec(a as int, x) == 1;
                lemma_inverse_unique(a as int, w, s0 as int);
            }
            Ok(FieldElem { value: s0 })
        } else {
            proof {
                lemma_gcd_divides(FIELD_ORDER as nat, a as nat);
                lemma_common_divisor_not_invertible(a as int, r0 as int);
            }
            Err(FieldError::DivisionByZero)
        }
    }
}

/// What `pow` returns, as a mathematical integer.
pub open spec fn fpow_spec(a: int, e: nat) -> int {
    vstd::arithmetic::power::pow(a, e) % (FIELD_ORDER as int)
}

impl FieldElem {
    /// Field exponentiation, by binary exponentiation.
    pub fn pow(self, e: u64) -> (r: FieldElem)
        requires
            self.is_canonical(),
        ensures
            r.is_canonical(),
            r.value == fpow_spec(self.value as int, e as nat),
    {
        let mut base = self;
        let mut acc = FieldElem::one();
        let mut exp: u64 = e;
        proof {
            vstd::arithmetic::div_mod::lemma_small_mod(self.value as nat, FIELD_ORDER as nat);
            vstd::arithmetic::power::lemma_pow0(self.value as int);
        }
        while exp > 0
            invariant
                base.is_canonical(),
                acc.is_canonical(),
                (acc.value as int * vstd::arithmetic::power::pow(base.value as int, exp as nat))
                    % (FIELD_ORDER as int) == fpow_spec(self.value as int, e as nat),
            decreases exp,
        {
            let ghost b = base.value as int;
            let ghost c = acc.value as int;
            let ghost k = exp as nat;
            if exp % 2 == 1 {
                let acc2 = acc.mul(base);
                proof {
                    lemma_pow_step_odd(c, b, k);
                }
                acc = acc2;
            } else {
                proof {
                    lemma_pow_step_even(c, b, k);
                }
            }
            base = base.mul(base);
            exp = exp / 2;
        }
        proof {
            vstd::arithmetic::power::lemma_pow0(base.value as int);
            vstd::arithmetic::div_mod::lemma_small_mod(acc.value as nat, FIELD_ORDER as nat);
        }
        acc
    }
}

/// Squaring the base and halving an even exponent preserves the running
/// product of binary exponentiation, modulo the field order.
proof fn lemma_pow_step_even(c: int, b: int, k: nat)
    requires
        0 <= c,
        0 <= b,
        k % 2 == 0,
    ensures
        (c * vstd::arithmetic::power::pow(fmul_spec(b, b), (k / 2) as nat))
            % (FIELD_ORDER as int) == (c * vstd::arithmetic::power::pow(b, k))
            % (FIELD_ORDER as int),
{
    let p = FIELD_ORDER as int;
    let bb = fmul_spec(b, b);
    let half = (k / 2) as nat;
    vstd::arithmetic::power::lemma_pow_mod_noop(b * b, half, p);
    vstd::arithmetic::power::lemma_square_is_pow2(b);
    vstd::arithmetic::power::lemma_pow_multiplies(b, 2, half);
    assert(vstd::arithmetic::power::pow(bb, half) % p
        == vstd::arithmetic::power::pow(b, (2 * half) as nat) % p);
    assert(2 * half == k);
    lemma_mul_cong_right(c, vstd::arithmetic::power::pow(bb, half),
        vstd::arithmetic::power::pow(b, k));
}

/// One odd step of binary exponentiation folds the low bit into the
/// accumulator and squares the base, preserving the running product.
proof fn lemma_pow_step_odd(c: int, b: int, k: nat)
    requires
        0 <= c,
        0 <= b,
        k % 2 == 1,
    ensures
        (fmul_spec(c, b) * vstd::arithmetic::power::pow(fmul_spec(b, b), (k / 2) as nat))
            % (FIELD_ORDER as int) == (c * vstd::arithmetic::power::pow(b, k))
            % (FIELD_ORDER as int),
{
    let p = FIELD_ORDER as int;
    let bb = fmul_spec(b, b);
    let half = (k / 2) as nat;
    let pw = vstd::arithmetic::power::pow(b, (2 * half) as nat);
    vstd::arithmetic::power::lemma_pow_mod_noop(b * b, half, p);
    vstd::arithmetic::power::lemma_square_is_pow2(b);
    vstd::arithmetic::power::lemma_pow_multiplies(b, 2, half);
    assert(vstd::arithmetic::power::pow(bb, half) % p == pw % p);
    // fold the reduced factors together: (c*b mod p) * X ≡ c*b*X (mod p)
    vstd::arithmetic::div_mod::lemma_mul_mod_noop_left(c * b,
        vstd::arithmetic::power::pow(bb, half), p);
    lemma_mul_cong_right(c * b, vstd::arithmetic::power::pow(bb, half), pw);
    // pow(b, k) == b * pow(b, 2*(k/2))
    assert(k == 2 * half + 1);
    vstd::arithmetic::power::lemma_pow_adds(b, 1, (2 * half) as nat);
    vstd::arithmetic::power::lemma_pow1(b);
    assert(vstd::arithmetic::power::pow(b, k) == b * pw);
    assert((c * b) * pw == c * (b * pw)) by (nonlinear_arith);
    lemma_mul_cong_right(c, b * pw, vstd::arithmetic::power::pow(b, k));
}

/// The product of two unsigned words, reduced modulo the field order.
fn mul_mod(x: u64, y: u64) -> (r: u64)
    ensures
        r < FIELD_ORDER,
        r as int == (x as int * y as int) % (FIELD_ORDER as int),
{
    proof {
        assert(x as int * y as int <= u64::MAX as int * (u64::MAX as int)) by (nonlinear_arith)
            requires
                x <= u64::MAX,
                y <= u64::MAX;
    }
    let prod: u128 = (x as u128) * (y as u128);
    (prod % (FIELD_ORDER as u128)) as u64
}

/// Multiplying both sides of a congruence by the same factor preserves it.
proof fn lemma_mul_cong_right(x: int, y1: int, y2: int)
    requires
        y1 % (FIELD_ORDER as int) == y2 % (FIELD_ORDER as int),
    ensures
        (x * y1) % (FIELD_ORDER as int) == (x * y2) % (FIELD_ORDER as int),
{
    let p = FIELD_ORDER as int;
    vstd::arithmetic::div_mod::lemma_mul_mod_noop_right(x, y1, p);
    vstd::arithmetic::div_mod::lemma_mul_mod_noop_right(x, y2, p);
}

/// One step of the extended Euclidean algorithm preserves the congruence
/// between the tracked coefficient and the remainder.
proof fn lemma_euclid_step(a: int, s0: int, s1: int, s2: int, q: int, r0: int, r1: int, r2: int)
    requires
        0 <= a,
        0 <= s0,
        0 <= s1,
        0 <= q,
        r0 == q * r1 + r2,
        (a * s0) % (FIELD_ORDER as int) == r0 % (FIELD_ORDER as int),
        (a * s1) % (FIELD_ORDER as int) == r1 % (FIELD_ORDER as int),
        s2 == (s0 - (q * s1) % (FIELD_ORDER as int)) % (FIELD_ORDER as int),
    ensures
        (a * s2) % (FIELD_ORDER as int) == r2 % (FIELD_ORDER as int),
{
    let p = FIELD_ORDER as int;
    let t = (q * s1) % p;
    vstd::arithmetic::div_mod::lemma_mul_mod_noop_right(a, s0 - t, p);
    assert((a * s2) % p == (a * (s0 - t)) % p);
    vstd::arithmetic::mul::lemma_mul_is_distributive_sub(a, s0, t);
    assert(a * (s0 - t) == a * s0 - a * t);
    vstd::arithmetic::div_mod::lemma_sub_mod_noop(a * s0, a * t, p);
    vstd::arithmetic::div_mod::lemma_mul_mod_noop_right(a, q * s1, p);
    assert((a * t) % p == (a * (q * s1)) % p);
    assert(a * (q * s1) == q * (a * s1)) by (nonlinear_arith);
    lemma_mul_cong_right(q, a * s1, r1);
    assert((a * t) % p == (q * r1) % p);
    vstd::arithmetic::div_mod::lemma_sub_mod_noop(r0, q * r1, p);
    assert(((a * s0) % p - (a * t) % p) % p == ((r0 % p) - ((q * r1) % p)) % p);
    assert((a * s0 - a * t) % p == (r0 - q * r1) % p);
    assert(r0 - q * r1 == r2);
}

/// The additive identity is not invertible.
pub proof fn lemma_zero_not_invertible()
    ensures
        !invertible(0),
{
    let p = FIELD_ORDER as int;
    assert forall|x: int| 0 <= x < FIELD_ORDER implies fmul_spec(0, x) != 1 by {
        assert(0 * x == 0) by (nonlinear_arith);
        vstd::arithmetic::div_mod::lemma_small_mod(0, p as nat);
    }
}

/// An element has at most one inverse.
proof fn lemma_inverse_unique(a: int, x: int, y: int)
    requires
        0 <= a,
        0 <= x < FIELD_ORDER,
        0 <= y < FIELD_ORDER,
        fmul_spec(a, x) == 1,
        fmul_spec(a, y) == 1,
    ensures
        x == y,
{
    let p = FIELD_ORDER as int;
    vstd::arithmetic::div_mod::lemma_mul_mod_noop_right(x, a * y, p);
    assert((x * ((a * y) % p)) % p == (x * (a * y)) % p);
    assert(x * 1 == x);
    assert(x % p == (x * (a * y)) % p);
    assert(x * (a * y) == (a * x) * y) by (nonlinear_arith);
    vstd::arithmetic::div_mod::lemma_mul_mod_noop_left(a * x, y, p);
    assert((((a * x) % p) * y) % p == ((a * x) * y) % p);
    assert(1 * y == y);
    assert(y % p == ((a * x) * y) % p);
    vstd::arithmetic::div_mod::lemma_small_mod(x as nat, p as nat);
    vstd::arithmetic::div_mod::lemma_small_mod(y as nat, p as nat);
}

/// A multiple of a divisor of `y` is a multiple of that divisor.
proof fn lemma_divides_mul(k: int, y: int, d: int)
    requires
        d > 0,
        0 <= k,
        y % d == 0,
    ensures
        (k * y) % d == 0,
{
    vstd::arithmetic::div_mod::lemma_mul_mod_noop_right(k, y, d);
    assert(k * 0 == 0) by (nonlinear_arith);
    vstd::arithmetic::div_mod::lemma_small_mod(0, d as nat);
}

/// The gcd of a positive `a` with any `b` is positive and divides both.
proof fn lemma_gcd_divides(a: nat, b: nat)
    requires
        a > 0,
    ensures
        spec_gcd(a, b) > 0,
        a % spec_gcd(a, b) == 0,
        b % spec_gcd(a, b) == 0,
    decreases b,
{
    let g = spec_gcd(a, b);
    if b == 0 {
        vstd::arithmetic::div_mod::lemma_mod_self_0(a as int);
        vstd::arithmetic::div_mod::lemma_small_mod(0, a);
    } else {
        lemma_gcd_divides(b, a % b);
        vstd::arithmetic::div_mod::lemma_fundamental_div_mod(a as int, b as int);
        assert(a as int == b as int * (a as int / b as int) + a as int % b as int);
        lemma_divides_mul(a as int / b as int, b as int, g as int);
        vstd::arithmetic::div_mod::lemma_add_mod_noop(
            (a as int / b as int) * (b as int),
            a as int % b as int,
            g as int,
        );
        assert(b as int * (a as int / b as int) == (a as int / b as int) * (b as int))
            by (nonlinear_arith);
        vstd::arithmetic::div_mod::lemma_small_mod(0, g);
    }
}

/// A common divisor of `a` and the field order greater than 1 rules out an
/// inverse for `a`.
proof fn lemma_common_divisor_not_invertible(a: int, d: int)
    requires
        2 <= d,
        0 <= a,
        a % d == 0,
        (FIELD_ORDER as int) % d == 0,
    ensures
        !invertible(a),
{
    let p = FIELD_ORDER as int;
    assert forall|x: int| 0 <= x < FIELD_ORDER implies fmul_spec(a, x) != 1 by {
        if (a * x) % p == 1 {
            let k = (a * x) / p;
            vstd::arithmetic::div_mod::lemma_fundamental_div_mod(a * x, p);
            assert(a * x == p * k + 1);
            assert(x * a == a * x) by (nonlinear_arith);
            lemma_divides_mul(x, a, d);
            assert(0 <= k) by {
                assert(0 <= a * x) by (nonlinear_arith)
                    requires
                        0 <= a,
                        0 <= x;
                vstd::arithmetic::div_mod::lemma_div_pos_is_pos(a * x, p);
            }
            lemma_divides_mul(k, p, d);
            assert(k * p == p * k) by (nonlinear_arith);
            vstd::arithmetic::div_mod::lemma_sub_mod_noop(a * x, p * k, d);
            vstd::arithmetic::div_mod::lemma_small_mod(0, d as nat);
            assert((a * x - p * k) % d == 0);
            vstd::arithmetic::div_mod::lemma_small_mod(1, d as nat);
            assert(false);
        }
    }
}

/// Reducing a sum of two canonical values by at most one subtraction of the
/// order yields the remainder.
proof fn lemma_reduce_once(s: int)
    requires
        0 <= s < 2 * FIELD_ORDER,
    ensures
        s % (FIELD_ORDER as int) == if s >= FIELD_ORDER { s - FIELD_ORDER } else { s },
{
    let p = FIELD_ORDER as int;
    if s >= p {
        vstd::arithmetic::div_mod::lemma_mod_sub_multiples_vanish(s, p);
        vstd::arithmetic::div_mod::lemma_small_mod((s - p) as nat, p as nat);
    } else {
        vstd::arithmetic::div_mod::lemma_small_mod(s as nat, p as nat);
    }
}

} // verus!
