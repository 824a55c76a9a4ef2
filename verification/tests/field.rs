use circuit_proof::field::{FieldValue, MODULUS};

#[test]
fn from_u64_keeps_small_values() {
    assert_eq!(FieldValue::from_u64(0).as_u64(), 0);
    assert_eq!(FieldValue::from_u64(3).as_u64(), 3);
    assert_eq!(FieldValue::from_u64(MODULUS - 1).as_u64(), MODULUS - 1);
}

#[test]
fn from_u64_reduces_modulo_the_prime() {
    assert_eq!(FieldValue::from_u64(MODULUS).as_u64(), 0);
    assert_eq!(FieldValue::from_u64(MODULUS + 5).as_u64(), 5);
    assert_eq!(FieldValue::from_u64(u64::MAX).as_u64(), 0xFFFF_FFFE);
    assert_eq!(FieldValue::from_u64(MODULUS), FieldValue::zero());
}

#[test]
fn constants_of_the_field() {
    assert_eq!(FieldValue::zero().as_u64(), 0);
    assert_eq!(FieldValue::one().as_u64(), 1);
    assert_eq!(FieldValue::minus_one().as_u64(), 0xFFFF_FFFF_0000_0000);
}

#[test]
fn addition_wraps_at_the_prime() {
    let a = FieldValue::from_u64(MODULUS - 1);
    let b = FieldValue::from_u64(1);
    assert_eq!(a.add(&b).as_u64(), 0);
    assert_eq!(a.add(&a).as_u64(), MODULUS - 2);
    assert_eq!(FieldValue::from_u64(7).add(&FieldValue::from_u64(8)).as_u64(), 15);
}

#[test]
fn subtraction_wraps_below_zero() {
    let nine = FieldValue::from_u64(9);
    let twelve = FieldValue::from_u64(12);
    assert_eq!(nine.sub(&twelve).as_u64(), MODULUS - 3);
    assert_eq!(twelve.sub(&nine).as_u64(), 3);
    assert_eq!(nine.sub(&nine).as_u64(), 0);
}

#[test]
fn multiplication_reduces_the_product() {
    let m1 = FieldValue::minus_one();
    assert_eq!(m1.mul(&m1).as_u64(), 1);
    assert_eq!(FieldValue::from_u64(3).mul(&FieldValue::from_u64(4)).as_u64(), 12);
    let big = FieldValue::from_u64(1 << 32);
    // 2^64 = 2^32 - 1 modulo the prime
    assert_eq!(big.mul(&big).as_u64(), 0xFFFF_FFFF);
    let expected = ((0x1234_5678_9abc_def0u128 * 0x0fed_cba9_8765_4321u128) % (MODULUS as u128)) as u64;
    assert_eq!(
        FieldValue::from_u64(0x1234_5678_9abc_def0)
            .mul(&FieldValue::from_u64(0x0fed_cba9_8765_4321))
            .as_u64(),
        expected
    );
}

#[test]
fn mul_add_is_the_fused_relation() {
    let a = FieldValue::from_u64(3);
    let b = FieldValue::from_u64(4);
    let c = FieldValue::from_u64(5);
    assert_eq!(a.mul_add(&b, &c).as_u64(), 17);
    let m1 = FieldValue::minus_one();
    // -1 * 12 + 9 = -3
    assert_eq!(
        m1.mul_add(&FieldValue::from_u64(12), &FieldValue::from_u64(9)).as_u64(),
        MODULUS - 3
    );
}
