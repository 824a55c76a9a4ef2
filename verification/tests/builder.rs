use circuit_proof::builder::{
    check_configuration, check_geometry, find_conflict, lookup_strategy, CsBuilder,
    GateConfiguration, Geometry, ResolverOptions,
};
use circuit_proof::error::CsError;
use circuit_proof::gate::{GateKind, PlacementStrategy};
use circuit_proof::padding::{is_power_of_two, next_power_of_two};

fn wide() -> Geometry {
    Geometry {
        num_columns_under_copy_permutation: 8,
        num_witness_columns: 1,
        num_constant_columns: 2,
        max_allowed_constraint_degree: 8,
    }
}

fn general() -> PlacementStrategy {
    PlacementStrategy::UseGeneralPurposeColumns
}

fn special(n: usize) -> PlacementStrategy {
    PlacementStrategy::UseSpecializedColumns { num_repetitions: n, share_constants: false }
}

fn options() -> ResolverOptions {
    ResolverOptions { max_variables: 16 }
}

#[test]
fn gate_catalog_declares_arity_degree_and_constants() {
    assert_eq!(GateKind::ConstantAllocation.arity(), 1);
    assert_eq!(GateKind::FusedMultiplyAdd.arity(), 4);
    assert_eq!(GateKind::Nop.arity(), 0);
    assert_eq!(GateKind::PublicInput.arity(), 1);
    assert_eq!(GateKind::ConstantAllocation.required_degree(), 1);
    assert_eq!(GateKind::FusedMultiplyAdd.required_degree(), 2);
    assert_eq!(GateKind::Nop.required_degree(), 0);
    assert_eq!(GateKind::PublicInput.required_degree(), 0);
    assert!(GateKind::ConstantAllocation.needs_constants());
    assert!(!GateKind::FusedMultiplyAdd.needs_constants());
    assert!(!GateKind::Nop.needs_constants());
    assert!(!GateKind::PublicInput.needs_constants());
}

#[test]
fn strategies_need_a_repetition() {
    assert!(general().is_valid());
    assert!(special(1).is_valid());
    assert!(!special(0).is_valid());
}

#[test]
fn empty_builder_builds() {
    let cs = CsBuilder::new(wide(), 8).build(options()).unwrap();
    assert_eq!(cs.num_places(), 0);
    assert_eq!(cs.trace_len(), 0);
    assert_eq!(cs.max_trace_len(), 8);
    assert_eq!(cs.capacity(), 16);
    assert!(!cs.is_frozen());
    assert_eq!(cs.geometry(), wide());
}

#[test]
fn builder_keeps_geometry_and_trace_length() {
    let builder = CsBuilder::new(wide(), 64).configure(GateKind::Nop, general());
    assert_eq!(builder.geometry(), wide());
    assert_eq!(builder.max_trace_len(), 64);
    assert_eq!(builder.check(), Ok(()));
}

#[test]
fn configuring_twice_alike_is_configuring_once() {
    let once = CsBuilder::new(wide(), 8).configure(GateKind::FusedMultiplyAdd, general());
    let twice = CsBuilder::new(wide(), 8)
        .configure(GateKind::FusedMultiplyAdd, general())
        .configure(GateKind::FusedMultiplyAdd, general());
    assert_eq!(twice.check(), Ok(()));
    let a = once.build(options()).unwrap();
    let b = twice.build(options()).unwrap();
    assert_eq!(a.strategy_of(GateKind::FusedMultiplyAdd), Some(general()));
    assert_eq!(b.strategy_of(GateKind::FusedMultiplyAdd), Some(general()));
}

#[test]
fn conflicting_strategies_fail_the_build() {
    let builder = CsBuilder::new(wide(), 8)
        .configure(GateKind::FusedMultiplyAdd, general())
        .configure(GateKind::Nop, general())
        .configure(GateKind::FusedMultiplyAdd, special(2));
    assert_eq!(builder.check(), Err(CsError::DuplicateGateConfiguration));
    assert_eq!(
        builder.build(options()).map(|_| ()),
        Err(CsError::DuplicateGateConfiguration)
    );
}

#[test]
fn conflicting_strategies_fail_the_verifier_too() {
    let builder = CsBuilder::new(wide(), 8)
        .configure(GateKind::Nop, special(1))
        .configure(GateKind::Nop, special(2));
    assert_eq!(
        builder.build_verifier().map(|_| ()),
        Err(CsError::DuplicateGateConfiguration)
    );
}

#[test]
fn a_conflict_is_reported_before_the_geometry() {
    let mut narrow = wide();
    narrow.num_columns_under_copy_permutation = 0;
    let builder = CsBuilder::new(narrow, 8)
        .configure(GateKind::Nop, general())
        .configure(GateKind::Nop, special(1));
    assert_eq!(builder.check(), Err(CsError::DuplicateGateConfiguration));
}

#[test]
fn zero_columns_are_an_invalid_geometry() {
    let mut g = wide();
    g.num_columns_under_copy_permutation = 0;
    let builder = CsBuilder::new(g, 8);
    assert_eq!(builder.build(options()).map(|_| ()), Err(CsError::InvalidGeometry));
}

#[test]
fn degree_below_gate_minimum_fails_at_build_time() {
    let mut g = wide();
    g.max_allowed_constraint_degree = 1;
    let builder = CsBuilder::new(g, 8)
        .configure(GateKind::ConstantAllocation, general())
        .configure(GateKind::FusedMultiplyAdd, general());
    assert_eq!(builder.build(options()).map(|_| ()), Err(CsError::InvalidGeometry));
    // the same budget carries the gates of lower degree
    let builder = CsBuilder::new(g, 8)
        .configure(GateKind::ConstantAllocation, general())
        .configure(GateKind::PublicInput, general());
    assert!(builder.build(options()).is_ok());
}

#[test]
fn degree_at_gate_minimum_builds() {
    let mut g = wide();
    g.max_allowed_constraint_degree = 2;
    let builder = CsBuilder::new(g, 8).configure(GateKind::FusedMultiplyAdd, general());
    assert!(builder.build(options()).is_ok());
}

#[test]
fn constant_gate_needs_a_constant_column() {
    let mut g = wide();
    g.num_constant_columns = 0;
    let builder = CsBuilder::new(g, 8).configure(GateKind::ConstantAllocation, general());
    assert_eq!(builder.build(options()).map(|_| ()), Err(CsError::InvalidGeometry));
    let builder = CsBuilder::new(g, 8).configure(GateKind::FusedMultiplyAdd, general());
    assert!(builder.build(options()).is_ok());
}

#[test]
fn gate_wider_than_the_columns_is_an_invalid_geometry() {
    let mut g = wide();
    g.num_columns_under_copy_permutation = 3;
    let builder = CsBuilder::new(g, 8).configure(GateKind::FusedMultiplyAdd, general());
    assert_eq!(builder.build(options()).map(|_| ()), Err(CsError::InvalidGeometry));
    g.num_columns_under_copy_permutation = 4;
    let builder = CsBuilder::new(g, 8).configure(GateKind::FusedMultiplyAdd, general());
    assert!(builder.build(options()).is_ok());
}

#[test]
fn specialized_columns_without_repetition_are_an_invalid_geometry() {
    let builder = CsBuilder::new(wide(), 8).configure(GateKind::Nop, special(0));
    assert_eq!(builder.build(options()).map(|_| ()), Err(CsError::InvalidGeometry));
}

#[test]
fn trace_length_must_be_a_power_of_two() {
    for len in [0usize, 3, 6, 100, 127] {
        let builder = CsBuilder::new(wide(), len).configure(GateKind::Nop, general());
        assert_eq!(builder.build(options()).map(|_| ()), Err(CsError::InvalidGeometry));
    }
    for len in [1usize, 2, 4, 128, 1 << 20] {
        let builder = CsBuilder::new(wide(), len).configure(GateKind::Nop, general());
        assert!(builder.build(options()).is_ok());
    }
}

#[test]
fn verifier_ignores_the_trace_length() {
    let builder = CsBuilder::new(wide(), 100).configure(GateKind::Nop, general());
    assert!(builder.build_verifier().is_ok());
}

#[test]
fn lookup_finds_the_configured_strategy() {
    let config = vec![
        GateConfiguration { kind: GateKind::Nop, strategy: special(3) },
        GateConfiguration { kind: GateKind::PublicInput, strategy: general() },
    ];
    assert_eq!(lookup_strategy(&config, GateKind::Nop), Some(special(3)));
    assert_eq!(lookup_strategy(&config, GateKind::PublicInput), Some(general()));
    assert_eq!(lookup_strategy(&config, GateKind::FusedMultiplyAdd), None);
}

#[test]
fn conflicts_are_found_wherever_they_stand() {
    let nop = |s| GateConfiguration { kind: GateKind::Nop, strategy: s };
    let fma = |s| GateConfiguration { kind: GateKind::FusedMultiplyAdd, strategy: s };
    assert!(!find_conflict(&vec![]));
    assert!(!find_conflict(&vec![nop(general()), fma(general())]));
    assert!(!find_conflict(&vec![nop(general()), nop(general())]));
    assert!(find_conflict(&vec![nop(general()), nop(special(1))]));
    assert!(find_conflict(&vec![nop(general()), fma(general()), nop(special(1))]));
    assert!(find_conflict(&vec![fma(special(1)), nop(general()), fma(special(2))]));
}

#[test]
fn geometry_and_configuration_checks_agree_with_the_build() {
    let config = vec![GateConfiguration { kind: GateKind::FusedMultiplyAdd, strategy: general() }];
    assert!(check_geometry(&wide(), &config));
    assert_eq!(check_configuration(&wide(), &config), Ok(()));
    let mut g = wide();
    g.max_allowed_constraint_degree = 0;
    assert!(!check_geometry(&g, &config));
    assert_eq!(check_configuration(&g, &config), Err(CsError::InvalidGeometry));
    assert!(check_geometry(&g, &vec![]));
}

#[test]
fn powers_of_two_are_recognised() {
    assert!(!is_power_of_two(0));
    assert!(is_power_of_two(1));
    assert!(is_power_of_two(2));
    assert!(!is_power_of_two(3));
    assert!(is_power_of_two(4));
    assert!(!is_power_of_two(12));
    assert!(is_power_of_two(1 << 31));
    assert!(!is_power_of_two((1 << 31) + 1));
    assert!(is_power_of_two(1usize << (usize::BITS - 1)));
    assert!(!is_power_of_two(usize::MAX));
    for n in 0usize..2000 {
        assert_eq!(is_power_of_two(n), n.is_power_of_two());
    }
}

#[test]
fn next_power_of_two_is_the_least_one_that_holds() {
    assert_eq!(next_power_of_two(0), 1);
    assert_eq!(next_power_of_two(1), 1);
    assert_eq!(next_power_of_two(2), 2);
    assert_eq!(next_power_of_two(3), 4);
    assert_eq!(next_power_of_two(12), 16);
    assert_eq!(next_power_of_two(65), 128);
    assert_eq!(next_power_of_two(128), 128);
    for n in 1usize..=1024 {
        assert_eq!(next_power_of_two(n), n.next_power_of_two());
    }
}
