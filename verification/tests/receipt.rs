use circuit_proof::receipt::{
    extract_serialized_data, image_id_bytes_of, multiply, prefixed_hex_of,
};

#[test]
fn guest_multiplies_its_inputs() {
    assert_eq!(multiply(3, 4), Some(12));
    assert_eq!(multiply(0, 0), Some(0));
    assert_eq!(multiply(0, 7), Some(0));
    assert_eq!(multiply(2, 2), Some(4));
    assert_eq!(
        multiply(u64::MAX, u64::MAX),
        Some(u64::MAX as u128 * u64::MAX as u128)
    );
    assert_eq!(multiply(1 << 63, 2), Some(1u128 << 64));
}

#[test]
fn guest_refuses_trivial_factors() {
    assert_eq!(multiply(1, 4), None);
    assert_eq!(multiply(4, 1), None);
    assert_eq!(multiply(1, 1), None);
    assert_eq!(multiply(1, 0), None);
}

#[test]
fn bytes_are_written_in_lower_case_hexadecimal() {
    assert_eq!(prefixed_hex_of(&[]), "0x");
    assert_eq!(prefixed_hex_of(&[1, 2, 3, 15, 16]), "0x0102030f10");
    assert_eq!(prefixed_hex_of(&[0xab, 0xcd, 0xef, 0x00, 0xff]), "0xabcdef00ff");
    assert_eq!(prefixed_hex_of(b"Hello world!"), "0x48656c6c6f20776f726c6421");
}

#[test]
fn image_id_is_written_word_by_word_lowest_byte_first() {
    assert_eq!(image_id_bytes_of(&[]), Vec::<u8>::new());
    assert_eq!(image_id_bytes_of(&[0x0403_0201]), vec![1, 2, 3, 4]);
    assert_eq!(
        image_id_bytes_of(&[0x0403_0201, 0xffee_ddcc, 0]),
        vec![1, 2, 3, 4, 0xcc, 0xdd, 0xee, 0xff, 0, 0, 0, 0]
    );
    let id: [u32; 8] = [
        0x1234_5678, 0x9abc_def0, 0, u32::MAX, 1, 0x8000_0000, 0x00ff_00ff, 0xdead_beef,
    ];
    let mut expected = Vec::new();
    for w in id {
        expected.extend_from_slice(&w.to_le_bytes());
    }
    assert_eq!(image_id_bytes_of(&id), expected);
}

#[test]
fn serialized_receipt_has_three_prefixed_fields() {
    let id: [u32; 8] = [
        0x1234_5678, 0x9abc_def0, 0, u32::MAX, 1, 0x8000_0000, 0x00ff_00ff, 0xdead_beef,
    ];
    let data = extract_serialized_data(&[0xde, 0xad], &[12, 0, 0, 0], &id);
    assert_eq!(data.proof, "0xdead");
    assert_eq!(data.outputs, "0x0c000000");
    assert_eq!(
        data.image_id,
        "0x78563412f0debc9a00000000ffffffff010000000000008 0ff00ff00efbeadde".replace(' ', "")
    );
    let words: String = id.iter().map(|w| format!("{:08x}", w.swap_bytes())).collect();
    assert_eq!(data.image_id, format!("0x{}", words));
}
