//! The execution-trace variant: the guest's computation and the text form
//! of a receipt's parts.

use vstd::prelude::*;
use vstd::string::*;

verus! {

/// The character of the hexadecimal digit `d`, in lower case.
pub open spec fn hex_char(d: int) -> char {
    if d == 0 {
        '0'
    } else if d == 1 {
        '1'
    } else if d == 2 {
        '2'
    } else if d == 3 {
        '3'
    } else if d == 4 {
        '4'
    } else if d == 5 {
        '5'
    } else if d == 6 {
        '6'
    } else if d == 7 {
        '7'
    } else if d == 8 {
        '8'
    } else if d == 9 {
        '9'
    } else if d == 10 {
        'a'
    } else if d == 11 {
        'b'
    } else if d == 12 {
        'c'
    } else if d == 13 {
        'd'
    } else if d == 14 {
        'e'
    } else {
        'f'
    }
}

/// The bytes written in hexadecimal: two lower-case digits for every byte,
/// the higher digit first.
pub open spec fn hex_encoded(bytes: Seq<u8>) -> Seq<char> {
    Seq::new(
        2 * bytes.len(),
        |i: int|
            hex_char(
                if i % 2 == 0 {
                    bytes[i / 2] as int / 16
                } else {
                    bytes[i / 2] as int % 16
                },
            ),
    )
}

/// The bytes written in hexadecimal behind `0x`.
pub open spec fn prefixed_hex(bytes: Seq<u8>) -> Seq<char> {
    "0x"@ + hex_encoded(bytes)
}

/// The four bytes of a word, the lowest first.
pub open spec fn word_bytes(word: u32) -> Seq<u8> {
    seq![
        (word % 256) as u8,
        (word / 256 % 256) as u8,
        (word / 65536 % 256) as u8,
        (word / 16777216) as u8,
    ]
}

/// The bytes of an image identifier: the bytes of its words, word after
/// word, each word's lowest byte first.
pub open spec fn image_id_bytes(words: Seq<u32>) -> Seq<u8> {
    Seq::new(4 * words.len(), |i: int| word_bytes(words[i / 4])[i % 4])
}

/// The guest's result: the product of the two factors, and none where a
/// factor is the trivial one.
pub open spec fn product(a: u64, b: u64) -> Option<int> {
    if a == 1 || b == 1 {
        None
    } else {
        Some(a * b)
    }
}

/// The guest's computation: the product that the guest commits to, or
/// `None` for the factors that it refuses.
pub fn multiply(a: u64, b: u64) -> (r: Option<u128>)
    ensures
        match r {
            Some(p) => product(a, b) == Some(p as int),
            None => product(a, b) is None,
        },
{
    if a == 1 || b == 1 {
        return None;
    }
    assert(0 <= a * b <= 0xFFFF_FFFF_FFFF_FFFF * 0xFFFF_FFFF_FFFF_FFFF) by (nonlinear_arith)
        requires
            0 <= a <= 0xFFFF_FFFF_FFFF_FFFF,
            0 <= b <= 0xFFFF_FFFF_FFFF_FFFF,
    ;
    Some(a as u128 * b as u128)
}

/// `hex::encode`: two lower-case hexadecimal digits for every byte, the
/// higher digit first.
#[verifier::external_body]
fn hex_encode(bytes: &[u8]) -> (text: String)
    ensures
        text@ == hex_encoded(bytes@),
{
    hex::encode(bytes)
}

/// The bytes written in hexadecimal behind `0x`.
pub fn prefixed_hex_of(bytes: &[u8]) -> (text: String)
    ensures
        text@ == prefixed_hex(bytes@),
{
    let mut text = String::from_str("0x");
    let digits = hex_encode(bytes);
    text.append(digits.as_str());
    text
}

/// The bytes of an image identifier.
pub fn image_id_bytes_of(words: &[u32]) -> (bytes: Vec<u8>)
    requires
        4 * words@.len() <= usize::MAX,
    ensures
        bytes@ == image_id_bytes(words@),
{
    let mut bytes: Vec<u8> = Vec::new();
    let mut k: usize = 0;
    while k < words.len()
        invariant
            k <= words@.len(),
            bytes@.len() == 4 * k,
            forall|i: int| 0 <= i < 4 * k ==> bytes@[i] == word_bytes(words@[i / 4])[i % 4],
        decreases words@.len() - k,
    {
        let word = words[k];
        bytes.push((word % 256) as u8);
        bytes.push((word / 256 % 256) as u8);
        bytes.push((word / 65536 % 256) as u8);
        bytes.push((word / 16777216) as u8);
        k += 1;
    }
    assert(bytes@ =~= image_id_bytes(words@));
    bytes
}

/// The text form of the parts of a receipt.
#[derive(Debug)]
pub struct SerializedReceipt {
    pub proof: String,
    pub outputs: String,
    pub image_id: String,
}

/// The text form of a receipt: the serialized seal and the serialized
/// journal, and the image identifier by its bytes, each in hexadecimal
/// behind `0x`.
pub fn extract_serialized_data(inner: &[u8], journal: &[u8], image_id: &[u32]) -> (data:
    SerializedReceipt)
    requires
        4 * image_id@.len() <= usize::MAX,
    ensures
        data.proof@ == prefixed_hex(inner@),
        data.outputs@ == prefixed_hex(journal@),
        data.image_id@ == prefixed_hex(image_id_bytes(image_id@)),
{
    let id_bytes = image_id_bytes_of(image_id);
    SerializedReceipt {
        proof: prefixed_hex_of(inner),
        outputs: prefixed_hex_of(journal),
        image_id: prefixed_hex_of(id_bytes.as_slice()),
    }
}

} // verus!
