use circuit_engine::builder::CircuitBuilder;
use circuit_engine::config::CircuitConfig;
use circuit_engine::eval::check_constraints;
use circuit_engine::field::FieldElem;
use circuit_engine::range_check::range_check_u32_circuit;
use circuit_engine::scheduler::resolve_witness;
use circuit_engine::split_base::CircuitBuilderSplit;
use circuit_engine::split_nonnative::CircuitBuilderSplit as CircuitBuilderSplitNonNative;
use circuit_engine::split_nonnative::{BigUintTarget, NonNativeTarget};
use circuit_engine::witness::PartialWitness;

#[test]
fn test_split_base() {
    // 416 = 0b110100000 = 1532 in base 6: limbs 2, 3, 5, 1 little-endian.
    let config = CircuitConfig::standard_recursion_config();
    let pw = PartialWitness::new();
    let mut builder = CircuitBuilder::new(config);
    let x = FieldElem { value: 0b110100000 };
    let xt = builder.constant(x).unwrap();
    let limbs = builder.split_le_base(6, xt, 24).unwrap();
    let one = builder.one().unwrap();
    let two = builder.two().unwrap();
    let three = builder.constant(FieldElem { value: 3 }).unwrap();
    let five = builder.constant(FieldElem { value: 5 }).unwrap();
    builder.connect(limbs[0], two).unwrap();
    builder.connect(limbs[1], three).unwrap();
    builder.connect(limbs[2], five).unwrap();
    builder.connect(limbs[3], one).unwrap();

    builder.assert_leading_zeros(xt, 64 - 9).unwrap();
    let (layout, gens) = builder.finalize().unwrap();

    let fw = resolve_witness(&layout, &gens, &pw).unwrap();
    assert_eq!(fw.try_get_target(&layout, limbs[0]).unwrap().value, 2);
    assert_eq!(fw.try_get_target(&layout, limbs[1]).unwrap().value, 3);
    assert_eq!(fw.try_get_target(&layout, limbs[2]).unwrap().value, 5);
    assert_eq!(fw.try_get_target(&layout, limbs[3]).unwrap().value, 1);
    assert!(check_constraints(&layout, &fw));
}

#[test]
fn test_base_sum() {
    let config = CircuitConfig::standard_recursion_config();
    let pw = PartialWitness::new();
    let mut builder = CircuitBuilder::new(config);

    let n: u64 = 0b10_1101_0110_1111_0000_1010_1100_1101;  // a 30-bit value
    let x = builder.constant(FieldElem { value: n }).unwrap();

    let zero = builder._false().unwrap();
    let one = builder._true().unwrap();

    let mut bits = Vec::new();
    let mut acc = n;
    for _ in 0..30 {
        bits.push(if acc % 2 == 1 { one } else { zero });
        acc /= 2;
    }
    let y = builder.le_sum(&bits).unwrap();

    builder.connect(x, y).unwrap();

    let (layout, gens) = builder.finalize().unwrap();
    let fw = resolve_witness(&layout, &gens, &pw).unwrap();
    assert_eq!(fw.try_get_target(&layout, y).unwrap().value, n);
    assert!(check_constraints(&layout, &fw));
}

#[test]
fn le_sum_short_list_uses_packed_operations() {
    // 0b10110 = 22 over five bits resolves through multiply-add packing.
    let mut builder = CircuitBuilder::new(CircuitConfig::standard_recursion_config());
    let f = builder._false().unwrap();
    let t = builder._true().unwrap();
    let bits = vec![f, t, t, f, t];
    let y = builder.le_sum(&bits).unwrap();
    let (layout, gens) = builder.finalize().unwrap();
    let fw = resolve_witness(&layout, &gens, &PartialWitness::new()).unwrap();
    assert_eq!(fw.try_get_target(&layout, y).unwrap().value, 22);
    assert!(check_constraints(&layout, &fw));
}

#[test]
fn le_sum_empty_is_zero() {
    let mut builder = CircuitBuilder::new(CircuitConfig::standard_recursion_config());
    let bits: Vec<circuit_engine::target::BoolTarget> = Vec::new();
    let y = builder.le_sum(&bits).unwrap();
    let (layout, gens) = builder.finalize().unwrap();
    let fw = resolve_witness(&layout, &gens, &PartialWitness::new()).unwrap();
    assert_eq!(fw.try_get_target(&layout, y).unwrap().value, 0);
}

#[test]
fn test_split_nonnative() {
    // A fixed 128-bit value held as four 32-bit limbs: splitting it into
    // 4-bit limbs and recombining must reproduce the original limbs.
    let config = CircuitConfig::standard_recursion_config();
    let pw = PartialWitness::new();
    let mut builder = CircuitBuilder::new(config);

    let limb_values: [u32; 4] = [0xDEAD_BEEF, 0x0123_4567, 0x89AB_CDEF, 0x0F1E_2D3C];
    let mut limbs = Vec::new();
    for &v in limb_values.iter() {
        limbs.push(builder.constant_u32(v).unwrap());
    }
    let x_target = NonNativeTarget { value: BigUintTarget { limbs } };
    let split = builder.split_nonnative_to_4_bit_limbs(&x_target).unwrap();
    assert_eq!(split.len(), 32);
    let combined = builder.recombine_nonnative_4_bit_limbs(split).unwrap();
    assert_eq!(combined.value.limbs.len(), 4);
    for k in 0..4 {
        builder.connect(x_target.value.limbs[k].0, combined.value.limbs[k].0).unwrap();
    }

    let (layout, gens) = builder.finalize().unwrap();
    let fw = resolve_witness(&layout, &gens, &pw).unwrap();
    for k in 0..4 {
        assert_eq!(
            fw.try_get_target(&layout, combined.value.limbs[k].0).unwrap().value,
            limb_values[k] as u64,
        );
    }
    assert!(check_constraints(&layout, &fw));
}

#[test]
fn split_u32_limbs_have_expected_values() {
    let mut builder = CircuitBuilder::new(CircuitConfig::standard_recursion_config());
    let v = builder.constant_u32(0xA5).unwrap();
    let limbs = builder.split_u32_to_4_bit_limbs(v).unwrap();
    assert_eq!(limbs.len(), 8);
    let (layout, gens) = builder.finalize().unwrap();
    let fw = resolve_witness(&layout, &gens, &PartialWitness::new()).unwrap();
    // 0xA5 = 0b1010_0101: 4-bit limbs 0x5, 0xA, then zeros.
    assert_eq!(fw.try_get_target(&layout, limbs[0]).unwrap().value, 0x5);
    assert_eq!(fw.try_get_target(&layout, limbs[1]).unwrap().value, 0xA);
    for k in 2..8 {
        assert_eq!(fw.try_get_target(&layout, limbs[k]).unwrap().value, 0);
    }
    assert!(check_constraints(&layout, &fw));
}

#[test]
fn range_check_u32_values() {
    let mut builder = CircuitBuilder::new(CircuitConfig::standard_recursion_config());
    let a = builder.constant_u32(0).unwrap();
    let b = builder.constant_u32(u32::MAX).unwrap();
    range_check_u32_circuit(&mut builder, vec![a, b]).unwrap();
    let (layout, gens) = builder.finalize().unwrap();
    let fw = resolve_witness(&layout, &gens, &PartialWitness::new()).unwrap();
    assert!(check_constraints(&layout, &fw));
}

#[test]
fn split_nonnative_to_bits_round_trip() {
    let mut builder = CircuitBuilder::new(CircuitConfig::standard_recursion_config());
    let v = builder.constant_u32(0x1234_5678).unwrap();
    let x_target = NonNativeTarget { value: BigUintTarget { limbs: vec![v] } };
    let bits = builder.split_nonnative_to_1_bit_limbs(&x_target).unwrap();
    assert_eq!(bits.len(), 32);
    let combined = builder.recombine_nonnative_bits(&bits).unwrap();
    assert_eq!(combined.value.limbs.len(), 1);
    let (layout, gens) = builder.finalize().unwrap();
    let fw = resolve_witness(&layout, &gens, &PartialWitness::new()).unwrap();
    assert_eq!(
        fw.try_get_target(&layout, combined.value.limbs[0].0).unwrap().value,
        0x1234_5678,
    );
    assert!(check_constraints(&layout, &fw));
}
