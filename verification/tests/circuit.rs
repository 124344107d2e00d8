use circuit_engine::builder::CircuitBuilder;
use circuit_engine::config::CircuitConfig;
use circuit_engine::errors::{CircuitError, WitnessError};
use circuit_engine::eval::{check_constraints, eval_gate};
use circuit_engine::field::FieldElem;
use circuit_engine::gates::{BaseSumGate, ComparisonGate, GateKind};
use circuit_engine::generator::Generator;
use circuit_engine::scheduler::resolve_witness;
use circuit_engine::target::Target;
use circuit_engine::witness::PartialWitness;

#[test]
fn round_trip_mul_add() {
    // One arithmetic operation computing out = a * b + c with a = 123,
    // b = 456, c = 0 supplied externally; the resolved output must be
    // 56088 and every constraint must hold on the resolved witness.
    let mut builder = CircuitBuilder::new(CircuitConfig::standard_recursion_config());
    let a = builder.add_virtual_target().unwrap();
    let b = builder.add_virtual_target().unwrap();
    let c = builder.add_virtual_target().unwrap();
    let out = builder.mul_add(a, b, c).unwrap();
    let (layout, gens) = builder.finalize().unwrap();

    let mut pw = PartialWitness::new();
    pw.set_target(a, FieldElem { value: 123 });
    pw.set_target(b, FieldElem { value: 456 });
    pw.set_target(c, FieldElem { value: 0 });
    let fw = resolve_witness(&layout, &gens, &pw).unwrap();
    assert_eq!(fw.try_get_target(&layout, out).unwrap().value, 56088);
    assert!(check_constraints(&layout, &fw));
}

#[test]
fn witness_conflict_detected() {
    // Two generators both claim the same target with different values:
    // resolution must fail with a conflict, not return either value.
    let mut builder = CircuitBuilder::new(CircuitConfig::standard_recursion_config());
    let t = builder.add_virtual_target().unwrap();
    builder
        .add_simple_generator(Generator::Constant { target: t, value: FieldElem { value: 5 } })
        .unwrap();
    builder
        .add_simple_generator(Generator::Constant { target: t, value: FieldElem { value: 7 } })
        .unwrap();
    let (layout, gens) = builder.finalize().unwrap();
    let r = resolve_witness(&layout, &gens, &PartialWitness::new());
    assert_eq!(r.unwrap_err(), WitnessError::WitnessConflict(t));
}

#[test]
fn unresolved_witness_names_target() {
    // Omitting the external input for a target with no generator must fail
    // with that target named, not hang or partially return.
    let mut builder = CircuitBuilder::new(CircuitConfig::standard_recursion_config());
    let a = builder.add_virtual_target().unwrap();
    let b = builder.add_virtual_target().unwrap();
    let c = builder.add_virtual_target().unwrap();
    let _out = builder.mul_add(a, b, c).unwrap();
    let (layout, gens) = builder.finalize().unwrap();

    let mut pw = PartialWitness::new();
    pw.set_target(a, FieldElem { value: 1 });
    pw.set_target(b, FieldElem { value: 2 });
    let r = resolve_witness(&layout, &gens, &pw);
    // The addend wire of the first packed operation stays unresolved.
    assert_eq!(r.unwrap_err(), WitnessError::UnresolvedWitness(Target::Wire { row: 0, column: 2 }));
}

#[test]
fn resolution_is_deterministic() {
    let mut builder = CircuitBuilder::new(CircuitConfig::standard_recursion_config());
    let a = builder.add_virtual_target().unwrap();
    let b = builder.add_virtual_target().unwrap();
    let s = builder.add(a, b).unwrap();
    let p = builder.mul(a, s).unwrap();
    let _ = p;
    let (layout, gens) = builder.finalize().unwrap();

    let mut pw = PartialWitness::new();
    pw.set_target(a, FieldElem { value: 11 });
    pw.set_target(b, FieldElem { value: 31 });
    let fw1 = resolve_witness(&layout, &gens, &pw).unwrap();
    let fw2 = resolve_witness(&layout, &gens, &pw).unwrap();
    assert_eq!(fw1.slots, fw2.slots);
}

#[test]
fn comparison_gate_less_equal_and_greater() {
    for (x, y, expected) in [(100u64, 200u64, 1u64), (200, 100, 0), (4_000_000_000, 4_000_000_001, 1)] {
        let mut builder = CircuitBuilder::new(CircuitConfig::standard_recursion_config());
        let gate = ComparisonGate::new(32, 16);
        let row = builder.add_gate(GateKind::Comparison(gate)).unwrap();
        let (layout, gens) = builder.finalize().unwrap();

        let mut pw = PartialWitness::new();
        pw.set_target(Target::Wire { row, column: 0 }, FieldElem { value: x });
        pw.set_target(Target::Wire { row, column: 1 }, FieldElem { value: y });
        let fw = resolve_witness(&layout, &gens, &pw).unwrap();
        let result = fw.try_get_target(&layout, Target::Wire { row, column: 2 }).unwrap();
        assert_eq!(result.value, expected);
        assert!(check_constraints(&layout, &fw));
    }
}

#[test]
fn comparison_gate_tie_counts_as_less_equal() {
    // The boundary case x == y must yield result 1.
    let mut builder = CircuitBuilder::new(CircuitConfig::standard_recursion_config());
    let gate = ComparisonGate::new(32, 16);
    let row = builder.add_gate(GateKind::Comparison(gate)).unwrap();
    let (layout, gens) = builder.finalize().unwrap();

    let mut pw = PartialWitness::new();
    pw.set_target(Target::Wire { row, column: 0 }, FieldElem { value: 77777 });
    pw.set_target(Target::Wire { row, column: 1 }, FieldElem { value: 77777 });
    let fw = resolve_witness(&layout, &gens, &pw).unwrap();
    let result = fw.try_get_target(&layout, Target::Wire { row, column: 2 }).unwrap();
    assert_eq!(result.value, 1);
    assert!(check_constraints(&layout, &fw));
}

#[test]
fn range_check_in_range_passes() {
    let mut builder = CircuitBuilder::new(CircuitConfig::standard_recursion_config());
    let t = builder.constant(FieldElem { value: 100 }).unwrap();
    builder.range_check(t, 7).unwrap();
    let (layout, gens) = builder.finalize().unwrap();
    let fw = resolve_witness(&layout, &gens, &PartialWitness::new()).unwrap();
    assert!(check_constraints(&layout, &fw));
}

#[test]
fn range_check_out_of_range_fails() {
    // 300 has a bit above width 8, so the 8-limb base-2 decomposition
    // cannot recombine to it and the constraints fail.
    let mut builder = CircuitBuilder::new(CircuitConfig::standard_recursion_config());
    let t = builder.constant(FieldElem { value: 300 }).unwrap();
    builder.range_check(t, 8).unwrap();
    let (layout, gens) = builder.finalize().unwrap();
    let fw = resolve_witness(&layout, &gens, &PartialWitness::new()).unwrap();
    assert!(!check_constraints(&layout, &fw));
}

#[test]
fn zero_product_nonzero_outside_range() {
    // A limb outside [0, base) leaves the zero product nonzero: with the
    // limb 5 and base 4 the product is 5 * 4 * 3 * 2 = 120.
    let gate = BaseSumGate::new(4, 1);
    let vals = vec![
        FieldElem { value: 5 },  // sum wire
        FieldElem { value: 5 },  // limb wire, out of range for base 4
    ];
    let cons = eval_gate(&GateKind::BaseSum(gate), &vals);
    assert_eq!(cons[1].value, 120);
    // In range, the same product vanishes.
    let vals2 = vec![FieldElem { value: 3 }, FieldElem { value: 3 }];
    let cons2 = eval_gate(&GateKind::BaseSum(gate), &vals2);
    assert_eq!(cons2[1].value, 0);
}

#[test]
fn mul_add_u32_splits_halves() {
    // 65536 * 65536 + 5 = 2^32 + 5: the low half is 5, the high half 1.
    let mut builder = CircuitBuilder::new(CircuitConfig::standard_recursion_config());
    let a = builder.constant_u32(65536).unwrap();
    let b = builder.constant_u32(65536).unwrap();
    let c = builder.constant_u32(5).unwrap();
    let (low, high) = builder.mul_add_u32(a, b, c).unwrap();
    let (layout, gens) = builder.finalize().unwrap();
    let fw = resolve_witness(&layout, &gens, &PartialWitness::new()).unwrap();
    assert_eq!(fw.try_get_target(&layout, low.0).unwrap().value, 5);
    assert_eq!(fw.try_get_target(&layout, high.0).unwrap().value, 1);
    assert!(check_constraints(&layout, &fw));
}

#[test]
fn builder_rejects_mutation_after_finalize() {
    let mut builder = CircuitBuilder::new(CircuitConfig::standard_recursion_config());
    let t = builder.add_virtual_target().unwrap();
    let _ = t;
    builder.finalize().unwrap();
    assert_eq!(builder.add_virtual_target().unwrap_err(), CircuitError::BuilderAlreadyFinalized);
    assert_eq!(builder.finalize().unwrap_err(), CircuitError::BuilderAlreadyFinalized);
}

#[test]
fn builder_rejects_excessive_degree() {
    let config = CircuitConfig {
        num_wires: 135,
        num_routed_wires: 80,
        max_degree: 2,
        zero_knowledge: false,
    };
    let mut builder = CircuitBuilder::new(config);
    // A comparison gate with 2-bit chunks has degree 4.
    let gate = ComparisonGate::new(32, 16);
    let r = builder.add_gate(GateKind::Comparison(gate));
    assert_eq!(r.unwrap_err(), CircuitError::DegreeExceedsConfig);
}

#[test]
fn builder_rejects_row_overflow() {
    let config =
        CircuitConfig { num_wires: 10, num_routed_wires: 8, max_degree: 8, zero_knowledge: false };
    let mut builder = CircuitBuilder::new(config);
    // A base-sum gate with 64 limbs needs 65 wires.
    let gate = BaseSumGate::new(2, 64);
    let r = builder.add_gate(GateKind::BaseSum(gate));
    assert_eq!(r.unwrap_err(), CircuitError::RowOverflow);
}

#[test]
fn builder_rejects_rebinding() {
    let mut builder = CircuitBuilder::new(CircuitConfig::standard_recursion_config());
    let a = builder.add_virtual_target().unwrap();
    let b = builder.add_virtual_target().unwrap();
    let _ = builder.mul_add(a, b, b).unwrap();
    builder.bind_virtual_target(0, 0, 0).unwrap();
    assert_eq!(builder.bind_virtual_target(0, 0, 1).unwrap_err(), CircuitError::TargetAlreadyBound);
}

#[test]
fn finalize_rejects_unbound_public_input() {
    let mut builder = CircuitBuilder::new(CircuitConfig::standard_recursion_config());
    let t = builder.add_virtual_target().unwrap();
    builder.register_public_input(t).unwrap();
    assert_eq!(builder.finalize().unwrap_err(), CircuitError::UnboundPublicInput);
}

#[test]
fn bound_public_input_resolves_through_copy() {
    let mut builder = CircuitBuilder::new(CircuitConfig::standard_recursion_config());
    let a = builder.add_virtual_target().unwrap();
    let b = builder.add_virtual_target().unwrap();
    let pub_out = builder.add_virtual_target().unwrap();
    let out = builder.mul_add(a, b, b).unwrap();
    builder.connect(pub_out, out).unwrap();
    match out {
        Target::Wire { row, column } => {
            match pub_out {
                Target::Virtual { index } => builder.bind_virtual_target(index, row, column).unwrap(),
                _ => unreachable!(),
            }
        },
        _ => unreachable!(),
    }
    builder.register_public_input(pub_out).unwrap();
    let (layout, gens) = builder.finalize().unwrap();

    let mut pw = PartialWitness::new();
    pw.set_target(a, FieldElem { value: 6 });
    pw.set_target(b, FieldElem { value: 7 });
    let fw = resolve_witness(&layout, &gens, &pw).unwrap();
    // out = 6 * 7 + 7 = 49, visible through the bound public input.
    assert_eq!(fw.try_get_target(&layout, pub_out).unwrap().value, 49);
    assert!(check_constraints(&layout, &fw));
}

#[test]
fn copy_constraint_values_agree() {
    let mut builder = CircuitBuilder::new(CircuitConfig::standard_recursion_config());
    let a = builder.add_virtual_target().unwrap();
    let b = builder.add_virtual_target().unwrap();
    let out = builder.mul_add(a, b, b).unwrap();
    let alias = builder.add_virtual_target().unwrap();
    builder.connect(alias, out).unwrap();
    let (layout, gens) = builder.finalize().unwrap();

    let mut pw = PartialWitness::new();
    pw.set_target(a, FieldElem { value: 3 });
    pw.set_target(b, FieldElem { value: 4 });
    let fw = resolve_witness(&layout, &gens, &pw).unwrap();
    assert_eq!(
        fw.try_get_target(&layout, alias).unwrap(),
        fw.try_get_target(&layout, out).unwrap(),
    );
}
