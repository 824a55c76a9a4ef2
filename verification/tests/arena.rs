use circuit_proof::arena::{Arena, SlotKind};
use circuit_proof::error::CsError;
use circuit_proof::field::FieldValue;
use circuit_proof::place::Place;

#[test]
fn new_arena_is_empty() {
    let arena = Arena::new(4);
    assert_eq!(arena.len(), 0);
    assert_eq!(arena.capacity(), 4);
    assert!(!arena.contains(Place::new(0)));
}

#[test]
fn places_are_issued_in_order_and_never_reused() {
    let mut arena = Arena::new(8);
    let a = arena.allocate_variable(Some(FieldValue::from_u64(7))).unwrap();
    let b = arena.allocate_variable(None).unwrap();
    let c = arena.allocate_constant(FieldValue::from_u64(9)).unwrap();
    assert_eq!(a.index(), 0);
    assert_eq!(b.index(), 1);
    assert_eq!(c.index(), 2);
    assert_ne!(a, b);
    assert_ne!(b, c);
    assert_eq!(arena.len(), 3);
    assert_eq!(arena.kind(a), Some(SlotKind::Variable));
    assert_eq!(arena.kind(c), Some(SlotKind::Constant));
    assert_eq!(arena.kind(Place::new(3)), None);
}

#[test]
fn same_constant_is_issued_the_same_place() {
    let mut arena = Arena::new(8);
    let five = arena.allocate_constant(FieldValue::from_u64(5)).unwrap();
    let again = arena.allocate_constant(FieldValue::from_u64(5)).unwrap();
    assert_eq!(five, again);
    assert_eq!(arena.len(), 1);
}

#[test]
fn different_constants_are_issued_different_places() {
    let mut arena = Arena::new(8);
    let five = arena.allocate_constant(FieldValue::from_u64(5)).unwrap();
    let six = arena.allocate_constant(FieldValue::from_u64(6)).unwrap();
    assert_ne!(five, six);
    assert_eq!(arena.len(), 2);
    assert_eq!(arena.find_constant(FieldValue::from_u64(5)), Some(five));
    assert_eq!(arena.find_constant(FieldValue::from_u64(6)), Some(six));
    assert_eq!(arena.find_constant(FieldValue::from_u64(7)), None);
}

#[test]
fn a_variable_is_no_constant_of_its_value() {
    let mut arena = Arena::new(8);
    let v = arena.allocate_variable(Some(FieldValue::from_u64(5))).unwrap();
    let c = arena.allocate_constant(FieldValue::from_u64(5)).unwrap();
    assert_ne!(v, c);
    assert_eq!(arena.len(), 2);
}

#[test]
fn constants_are_deduplicated_by_reduced_value() {
    let mut arena = Arena::new(8);
    let zero = arena.allocate_constant(FieldValue::zero()).unwrap();
    let wrapped = arena
        .allocate_constant(FieldValue::from_u64(0xFFFF_FFFF_0000_0001))
        .unwrap();
    assert_eq!(zero, wrapped);
}

#[test]
fn full_arena_refuses_allocation() {
    let mut arena = Arena::new(2);
    arena.allocate_variable(None).unwrap();
    arena.allocate_constant(FieldValue::one()).unwrap();
    assert_eq!(arena.allocate_variable(None), Err(CsError::CapacityExceeded));
    assert_eq!(
        arena.allocate_constant(FieldValue::from_u64(2)),
        Err(CsError::CapacityExceeded)
    );
    // a constant that is there already needs no room
    assert_eq!(arena.allocate_constant(FieldValue::one()), Ok(Place::new(1)));
    assert_eq!(arena.len(), 2);
}

#[test]
fn arena_of_no_capacity_refuses_everything() {
    let mut arena = Arena::new(0);
    assert_eq!(arena.allocate_variable(None), Err(CsError::CapacityExceeded));
}

#[test]
fn resolve_reads_values_and_reports_what_is_missing() {
    let mut arena = Arena::new(4);
    let a = arena.allocate_variable(Some(FieldValue::from_u64(11))).unwrap();
    let b = arena.allocate_variable(None).unwrap();
    let c = arena.allocate_constant(FieldValue::from_u64(13)).unwrap();
    assert_eq!(arena.resolve(a), Ok(FieldValue::from_u64(11)));
    assert_eq!(arena.resolve(b), Err(CsError::UnresolvedValue));
    assert_eq!(arena.resolve(c), Ok(FieldValue::from_u64(13)));
    assert_eq!(arena.resolve(Place::new(3)), Err(CsError::UnknownPlace));
}

#[test]
fn duplicate_copies_every_slot() {
    let mut arena = Arena::new(4);
    let a = arena.allocate_variable(Some(FieldValue::from_u64(11))).unwrap();
    let b = arena.allocate_variable(None).unwrap();
    let copy = arena.duplicate();
    assert_eq!(copy.len(), 2);
    assert_eq!(copy.capacity(), 4);
    assert_eq!(copy.resolve(a), Ok(FieldValue::from_u64(11)));
    assert_eq!(copy.resolve(b), Err(CsError::UnresolvedValue));
}
