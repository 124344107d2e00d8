use circuit_engine::errors::FieldError;
use circuit_engine::field::{FieldElem, FIELD_ORDER};
use circuit_engine::gates::ceil_div_usize;

#[test]
fn field_add_wraps_to_canonical() {
    let a = FieldElem { value: FIELD_ORDER - 1 };
    let b = FieldElem { value: 5 };
    assert_eq!(a.add(b).value, 4);
    assert!(a.add(b).value < FIELD_ORDER);
}

#[test]
fn field_sub_wraps_to_canonical() {
    let a = FieldElem { value: 3 };
    let b = FieldElem { value: 5 };
    assert_eq!(a.sub(b).value, FIELD_ORDER - 2);
}

#[test]
fn field_mul_exact_value() {
    let a = FieldElem { value: 1 << 32 };
    let b = FieldElem { value: 1 << 32 };
    // 2^64 mod (2^64 - 2^32 + 1) = 2^32 - 1.
    assert_eq!(a.mul(b).value, (1u64 << 32) - 1);
}

#[test]
fn field_new_reduces() {
    assert_eq!(FieldElem::new(FIELD_ORDER).value, 0);
    assert_eq!(FieldElem::new(FIELD_ORDER - 1).value, FIELD_ORDER - 1);
}

#[test]
fn field_neg_and_zero() {
    let a = FieldElem { value: 7 };
    assert_eq!(a.neg().add(a).value, 0);
    assert_eq!(FieldElem::zero().neg().value, 0);
}

#[test]
fn field_inverse_times_value_is_one() {
    for v in [1u64, 2, 3, 123456789, FIELD_ORDER - 1] {
        let a = FieldElem { value: v };
        let inv = a.inverse().expect("nonzero elements are invertible");
        assert_eq!(a.mul(inv).value, 1);
        assert!(inv.value < FIELD_ORDER);
    }
}

#[test]
fn field_inverse_of_zero_fails() {
    let r = FieldElem::zero().inverse();
    assert_eq!(r, Err(FieldError::DivisionByZero));
}

#[test]
fn field_pow_exact_values() {
    let three = FieldElem { value: 3 };
    assert_eq!(three.pow(0).value, 1);
    assert_eq!(three.pow(5).value, 243);
    let two = FieldElem { value: 2 };
    // 2^64 mod (2^64 - 2^32 + 1) = 2^32 - 1.
    assert_eq!(two.pow(64).value, (1u64 << 32) - 1);
}

#[test]
fn ceil_div_rounds_up() {
    assert_eq!(ceil_div_usize(7, 2), 4);
    assert_eq!(ceil_div_usize(8, 2), 4);
    assert_eq!(ceil_div_usize(1, 64), 1);
    assert_eq!(ceil_div_usize(32, 16), 2);
}
