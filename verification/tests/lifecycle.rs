use circuit_proof::builder::{CsBuilder, GateConfiguration, Geometry};
use circuit_proof::error::CsError;
use circuit_proof::field::{FieldValue, MODULUS};
use circuit_proof::frozen::FrozenSystem;
use circuit_proof::gate::{GateKind, PlacementStrategy};
use circuit_proof::proving::{
    BackendArtifacts, BackendError, Proof, ProofConfig, ProverAdapter, VerificationKey,
};
use circuit_proof::sample::{
    build_circuit, build_verifier, configure, derive_constant, geometry, proof_config,
    MAX_TRACE_LEN, MAX_VARIABLES,
};
use circuit_proof::verification::{same_configuration, same_values, VerifierAdapter};

fn f(v: u64) -> FieldValue {
    FieldValue::from_u64(v)
}

/// A stand-in for the proving backend: the proof lists the public inputs,
/// the key the trace length.
fn toy_prove(system: &FrozenSystem) -> BackendArtifacts {
    let mut proof = Vec::new();
    for v in system.public_inputs() {
        proof.extend_from_slice(&v.as_u64().to_le_bytes());
    }
    let verification_key = (system.trace().len() as u64).to_le_bytes().to_vec();
    BackendArtifacts { proof, verification_key }
}

fn toy_verify(key: &VerificationKey, proof: &Proof) -> bool {
    let mut expected = Vec::new();
    for v in &proof.public_inputs {
        expected.extend_from_slice(&v.as_u64().to_le_bytes());
    }
    proof.payload == expected && key.payload == (key.trace_len as u64).to_le_bytes().to_vec()
}

fn prove(x: u64, y: u64) -> (Proof, VerificationKey) {
    let mut circuit = build_circuit(x, y).unwrap();
    circuit.system.pad_and_shrink().unwrap();
    let frozen = circuit.system.into_frozen_form().unwrap();
    let adapter = ProverAdapter::new(frozen, proof_config(), 1);
    let artifacts = toy_prove(adapter.system());
    adapter.complete(Ok(artifacts)).unwrap()
}

fn check(verifier: &VerifierAdapter, key: &VerificationKey, proof: &Proof, inputs: &Vec<FieldValue>) -> Result<bool, CsError> {
    match verifier.precheck(key, proof, inputs) {
        Ok(true) => verifier.verify(key, proof, inputs, toy_verify(key, proof)),
        other => other,
    }
}

#[test]
fn sample_limits_are_those_of_the_program() {
    assert_eq!(MAX_VARIABLES, 512);
    assert_eq!(MAX_TRACE_LEN, 128);
    assert_eq!(
        geometry(),
        Geometry {
            num_columns_under_copy_permutation: 8,
            num_witness_columns: 1,
            num_constant_columns: 2,
            max_allowed_constraint_degree: 8,
        }
    );
    assert_eq!(proof_config(), ProofConfig { fri_lde_factor: 32, pow_bits: 0 });
}

#[test]
fn constant_is_the_second_input_plus_one() {
    assert_eq!(derive_constant(4), 5);
    assert_eq!(derive_constant(0), 1);
    assert_eq!(derive_constant(u64::MAX), 0);
}

#[test]
fn sample_configuration_enables_the_four_gates() {
    let cs = configure(CsBuilder::new(geometry(), 128))
        .build(circuit_proof::builder::ResolverOptions { max_variables: 4 })
        .unwrap();
    let general = PlacementStrategy::UseGeneralPurposeColumns;
    assert_eq!(cs.strategy_of(GateKind::ConstantAllocation), Some(general));
    assert_eq!(cs.strategy_of(GateKind::FusedMultiplyAdd), Some(general));
    assert_eq!(cs.strategy_of(GateKind::Nop), Some(general));
    assert_eq!(cs.strategy_of(GateKind::PublicInput), Some(general));
}

#[test]
fn sample_circuit_computes_two_for_three_and_four() {
    let circuit = build_circuit(3, 4).unwrap();
    let cs = &circuit.system;
    assert_eq!(cs.get_value(circuit.x), Ok(f(3)));
    assert_eq!(cs.get_value(circuit.y), Ok(f(4)));
    assert_eq!(cs.get_value(circuit.result), Ok(f(2)));
    assert_eq!(cs.public_inputs(), &vec![circuit.x, circuit.y, circuit.result]);
    assert!(!cs.is_frozen());
}

#[test]
fn sample_circuit_intermediate_values() {
    let circuit = build_circuit(3, 4).unwrap();
    let table = circuit.system.evaluate().unwrap();
    let values: Vec<u64> = (0..circuit.system.num_places())
        .map(|i| table.resolve(circuit_proof::place::Place::new(i)).unwrap().as_u64())
        .collect();
    // x, y, z = 5, 0, a = 9, b = 12, -1, c = -3, 1, result = 2
    assert_eq!(values, vec![3, 4, 5, 0, 9, 12, MODULUS - 1, MODULUS - 3, 1, 2]);
}

#[test]
fn sample_circuit_value_for_other_inputs() {
    for (x, y) in [(0u64, 0u64), (1, 1), (7, 2), (2, 7), (u64::MAX, u64::MAX), (1 << 40, 12345)] {
        let circuit = build_circuit(x, y).unwrap();
        let p = MODULUS as i128;
        let xv = (x % MODULUS) as i128;
        let yv = (y % MODULUS) as i128;
        let z = (y.wrapping_add(1) % MODULUS) as i128;
        let a = xv * xv % p;
        let b = xv * yv % p;
        let expected = (((a - b) % p + p) % p + z) % p;
        assert_eq!(circuit.system.get_value(circuit.result), Ok(f(expected as u64)));
    }
}

#[test]
fn sample_circuit_shares_coinciding_constants() {
    // y + 1 is zero, the constant of the products
    let circuit = build_circuit(5, u64::MAX).unwrap();
    assert_eq!(circuit.system.num_places(), 9);
    // y + 1 is one, the constant of the sum
    let circuit = build_circuit(5, 0).unwrap();
    assert_eq!(circuit.system.num_places(), 9);
    let circuit = build_circuit(5, 9).unwrap();
    assert_eq!(circuit.system.num_places(), 10);
}

#[test]
fn end_to_end_three_and_four() {
    let (proof, key) = prove(3, 4);
    assert_eq!(proof.public_inputs, vec![f(3), f(4), f(2)]);
    assert_eq!(key.trace_len, 16);
    assert_eq!(key.geometry, geometry());
    let verifier = build_verifier().unwrap();
    assert_eq!(check(&verifier, &key, &proof, &vec![f(3), f(4), f(2)]), Ok(true));
    assert_eq!(check(&verifier, &key, &proof, &vec![f(3), f(4), f(3)]), Ok(false));
}

#[test]
fn other_public_inputs_are_rejected_whatever_the_backend_says() {
    let (proof, key) = prove(3, 4);
    let verifier = build_verifier().unwrap();
    for inputs in [
        vec![f(3), f(4), f(3)],
        vec![f(4), f(3), f(2)],
        vec![f(3), f(4)],
        vec![f(3), f(4), f(2), f(2)],
        vec![],
    ] {
        assert_eq!(verifier.precheck(&key, &proof, &inputs), Ok(false));
        assert_eq!(verifier.verify(&key, &proof, &inputs, true), Ok(false));
        assert_eq!(verifier.verify(&key, &proof, &inputs, false), Ok(false));
    }
}

#[test]
fn matching_public_inputs_get_the_answer_of_the_backend() {
    let (proof, key) = prove(10, 20);
    let verifier = build_verifier().unwrap();
    let inputs = proof.public_inputs.clone();
    assert_eq!(verifier.precheck(&key, &proof, &inputs), Ok(true));
    assert_eq!(verifier.verify(&key, &proof, &inputs, true), Ok(true));
    assert_eq!(verifier.verify(&key, &proof, &inputs, false), Ok(false));
}

#[test]
fn mutated_proof_fails_the_toy_backend() {
    let (mut proof, key) = prove(3, 4);
    let verifier = build_verifier().unwrap();
    let inputs = vec![f(3), f(4), f(2)];
    for i in 0..proof.payload.len() {
        proof.payload[i] ^= 1;
        assert_eq!(check(&verifier, &key, &proof, &inputs), Ok(false));
        proof.payload[i] ^= 1;
    }
    assert_eq!(check(&verifier, &key, &proof, &inputs), Ok(true));
}

#[test]
fn verifier_of_another_configuration_is_a_mismatch() {
    let (proof, key) = prove(3, 4);
    let inputs = vec![f(3), f(4), f(2)];
    let general = PlacementStrategy::UseGeneralPurposeColumns;
    // another gate set
    let other = CsBuilder::new(geometry(), 128)
        .configure(GateKind::FusedMultiplyAdd, general)
        .configure(GateKind::ConstantAllocation, general)
        .configure(GateKind::Nop, general)
        .configure(GateKind::PublicInput, general)
        .build_verifier()
        .unwrap();
    assert_eq!(other.precheck(&key, &proof, &inputs), Err(CsError::ConfigurationMismatch));
    assert_eq!(other.verify(&key, &proof, &inputs, true), Err(CsError::ConfigurationMismatch));
    // another geometry
    let mut g = geometry();
    g.num_witness_columns = 2;
    let other = configure(CsBuilder::new(g, 128)).build_verifier().unwrap();
    assert_eq!(other.verify(&key, &proof, &inputs, true), Err(CsError::ConfigurationMismatch));
    // another strategy
    let other = CsBuilder::new(geometry(), 128)
        .configure(GateKind::ConstantAllocation, general)
        .configure(GateKind::FusedMultiplyAdd, general)
        .configure(
            GateKind::Nop,
            PlacementStrategy::UseSpecializedColumns { num_repetitions: 1, share_constants: false },
        )
        .configure(GateKind::PublicInput, general)
        .build_verifier()
        .unwrap();
    assert_eq!(other.verify(&key, &proof, &inputs, true), Err(CsError::ConfigurationMismatch));
}

#[test]
fn verifier_is_built_without_the_prover() {
    let a = build_verifier().unwrap();
    let b = configure(CsBuilder::new(geometry(), 1)).build_verifier().unwrap();
    let (proof, key) = prove(1, 2);
    let inputs = proof.public_inputs.clone();
    assert_eq!(a.verify(&key, &proof, &inputs, true), Ok(true));
    assert_eq!(b.verify(&key, &proof, &inputs, true), Ok(true));
}

#[test]
fn backend_failure_is_passed_on_unchanged() {
    let mut circuit = build_circuit(3, 4).unwrap();
    let frozen = circuit.system.into_frozen_form().unwrap();
    let adapter = ProverAdapter::new(frozen, proof_config(), 4);
    assert_eq!(adapter.num_workers(), 4);
    assert_eq!(adapter.config(), proof_config());
    assert_eq!(adapter.system().public_inputs(), &vec![f(3), f(4), f(2)]);
    let outcome = adapter.complete(Err(BackendError { message: String::from("lde factor too small") }));
    match outcome {
        Err(e) => assert_eq!(e.message, "lde factor too small"),
        Ok(_) => panic!("a failure of the backend was turned into a proof"),
    }
}

#[test]
fn artifacts_become_proof_and_key() {
    let mut circuit = build_circuit(6, 1).unwrap();
    let frozen = circuit.system.into_frozen_form().unwrap();
    let adapter = ProverAdapter::new(frozen, proof_config(), 1);
    let artifacts = BackendArtifacts { proof: vec![1, 2, 3], verification_key: vec![9, 8] };
    let (proof, key) = adapter.complete(Ok(artifacts)).unwrap();
    assert_eq!(proof.payload, vec![1, 2, 3]);
    // 36 - 6 + 2
    assert_eq!(proof.public_inputs, vec![f(6), f(1), f(32)]);
    assert_eq!(key.payload, vec![9, 8]);
    assert_eq!(key.geometry, geometry());
    assert_eq!(key.trace_len, 16);
    let general = PlacementStrategy::UseGeneralPurposeColumns;
    assert_eq!(
        key.configuration,
        vec![
            GateConfiguration { kind: GateKind::ConstantAllocation, strategy: general },
            GateConfiguration { kind: GateKind::FusedMultiplyAdd, strategy: general },
            GateConfiguration { kind: GateKind::Nop, strategy: general },
            GateConfiguration { kind: GateKind::PublicInput, strategy: general },
        ]
    );
}

#[test]
fn comparisons_of_sequences() {
    let general = PlacementStrategy::UseGeneralPurposeColumns;
    let nop = GateConfiguration { kind: GateKind::Nop, strategy: general };
    let fma = GateConfiguration { kind: GateKind::FusedMultiplyAdd, strategy: general };
    assert!(same_configuration(&vec![], &vec![]));
    assert!(same_configuration(&vec![nop, fma], &vec![nop, fma]));
    assert!(!same_configuration(&vec![nop, fma], &vec![fma, nop]));
    assert!(!same_configuration(&vec![nop], &vec![nop, fma]));
    assert!(same_values(&vec![f(1), f(2)], &vec![f(1), f(2)]));
    assert!(same_values(&vec![f(0)], &vec![f(MODULUS)]));
    assert!(!same_values(&vec![f(1), f(2)], &vec![f(2), f(1)]));
    assert!(!same_values(&vec![f(1)], &vec![]));
}
