//! Program inputs: a 64-bit number written in decimal, or in hexadecimal
//! behind `0x`.

use vstd::prelude::*;
use vstd::slice::slice_subrange;
use vstd::string::*;

verus! {

#[verifier::external_type_specification]
#[verifier::external_body]
pub struct ExFromHexError(hex::FromHexError);

/// Why a text is no program input.
#[derive(Clone, Copy, Debug, PartialEq, Eq, Structural)]
pub enum InputError {
    /// The text behind `0x` is empty or holds a byte that is no
    /// hexadecimal digit.
    InvalidHexString,
    /// The hexadecimal number does not fit 64 bits.
    HexOutOfRange,
    /// The text is no decimal number that fits 64 bits.
    InvalidInteger,
}

/// The byte is one of `0`..`9`, `a`..`f`, `A`..`F`.
pub open spec fn is_hex_digit(c: u8) -> bool {
    (0x30 <= c <= 0x39) || (0x61 <= c <= 0x66) || (0x41 <= c <= 0x46)
}

/// The number that a hexadecimal digit stands for.
pub open spec fn hex_digit_value(c: u8) -> int {
    if 0x30 <= c <= 0x39 {
        c - 0x30
    } else if 0x61 <= c <= 0x66 {
        c - 0x61 + 10
    } else {
        c - 0x41 + 10
    }
}

/// The text is an even number of hexadecimal digits.
pub open spec fn is_hex_text(text: Seq<u8>) -> bool {
    &&& text.len() % 2 == 0
    &&& forall|i: int| 0 <= i < text.len() ==> is_hex_digit(#[trigger] text[i])
}

/// The bytes that a hexadecimal text stands for: one byte for every two
/// digits, the higher digit first.
pub open spec fn hex_decoded(text: Seq<u8>) -> Seq<u8> {
    Seq::new(
        text.len() / 2,
        |i: int| (16 * hex_digit_value(text[2 * i]) + hex_digit_value(text[2 * i + 1])) as u8,
    )
}

/// The number that a sequence of hexadecimal digits stands for, the most
/// significant digit first.
pub open spec fn hex_digits_value(digits: Seq<u8>) -> nat
    decreases digits.len(),
{
    if digits.len() == 0 {
        0
    } else {
        hex_digits_value(digits.drop_last()) * 16 + hex_digit_value(digits.last()) as nat
    }
}

/// The text is at least one hexadecimal digit and nothing else.
pub open spec fn is_hex_numeral(text: Seq<u8>) -> bool {
    &&& text.len() > 0
    &&& forall|i: int| 0 <= i < text.len() ==> is_hex_digit(#[trigger] text[i])
}

/// The number that a hexadecimal text stands for: the value of all its
/// digits, where that fits 64 bits.
pub open spec fn hex_word(text: Seq<u8>) -> Result<u64, InputError> {
    if !is_hex_numeral(text) {
        Err(InputError::InvalidHexString)
    } else if hex_digits_value(text) > u64::MAX {
        Err(InputError::HexOutOfRange)
    } else {
        Ok(hex_digits_value(text) as u64)
    }
}

/// The byte is one of `0`..`9`.
pub open spec fn is_decimal_digit(c: u8) -> bool {
    0x30 <= c <= 0x39
}

/// The number that a sequence of decimal digits stands for.
pub open spec fn digits_value(digits: Seq<u8>) -> nat
    decreases digits.len(),
{
    if digits.len() == 0 {
        0
    } else {
        digits_value(digits.drop_last()) * 10 + (digits.last() - 0x30) as nat
    }
}

/// The digits of a decimal text: the text without the `+` it may start
/// with.
pub open spec fn decimal_digits(text: Seq<u8>) -> Seq<u8> {
    if text.len() > 0 && text[0] == 0x2b {
        text.skip(1)
    } else {
        text
    }
}

/// The number that a decimal text stands for: at least one digit, nothing
/// but digits behind an optional `+`, and a value that fits 64 bits.
pub open spec fn decimal_value(text: Seq<u8>) -> Result<u64, InputError> {
    let digits = decimal_digits(text);
    if digits.len() > 0 && (forall|i: int|
        0 <= i < digits.len() ==> is_decimal_digit(#[trigger] digits[i])) && digits_value(digits)
        <= u64::MAX {
        Ok(digits_value(digits) as u64)
    } else {
        Err(InputError::InvalidInteger)
    }
}

/// The text starts with `0x`.
pub open spec fn has_hex_prefix(text: Seq<u8>) -> bool {
    text.len() >= 2 && text[0] == 0x30 && text[1] == 0x78
}

/// The number that an input text stands for: hexadecimal behind `0x`,
/// decimal otherwise.
pub open spec fn input_value(text: Seq<u8>) -> Result<u64, InputError> {
    if has_hex_prefix(text) {
        hex_word(text.skip(2))
    } else {
        decimal_value(text)
    }
}

/// The value of a prefix of digits is at most the value of all of them.
pub proof fn lemma_digits_value_prefix(digits: Seq<u8>, k: int)
    requires
        0 <= k <= digits.len(),
    ensures
        digits_value(digits.take(k)) <= digits_value(digits),
    decreases digits.len(),
{
    if k == digits.len() {
        assert(digits.take(k) == digits);
    } else {
        lemma_digits_value_prefix(digits.drop_last(), k);
        assert(digits.drop_last().take(k) == digits.take(k));
    }
}

/// The value of a prefix of hexadecimal digits is at most the value of
/// all of them.
pub proof fn lemma_hex_digits_value_prefix(digits: Seq<u8>, k: int)
    requires
        0 <= k <= digits.len(),
        forall|i: int| 0 <= i < digits.len() ==> is_hex_digit(#[trigger] digits[i]),
    ensures
        hex_digits_value(digits.take(k)) <= hex_digits_value(digits),
    decreases digits.len(),
{
    if k == digits.len() {
        assert(digits.take(k) == digits);
    } else {
        let front = digits.drop_last();
        assert forall|i: int| 0 <= i < front.len() implies is_hex_digit(#[trigger] front[i]) by {
            assert(front[i] == digits[i]);
        }
        lemma_hex_digits_value_prefix(front, k);
        assert(front.take(k) == digits.take(k));
        assert(is_hex_digit(digits[digits.len() - 1]));
    }
}

/// A zero in front of a number does not change its value.
pub proof fn lemma_hex_leading_zero(digits: Seq<u8>)
    ensures
        hex_digits_value(seq![0x30u8] + digits) == hex_digits_value(digits),
    decreases digits.len(),
{
    let longer = seq![0x30u8] + digits;
    if digits.len() == 0 {
        assert(longer.drop_last() == Seq::<u8>::empty());
        assert(hex_digits_value(longer.drop_last()) == 0);
    } else {
        assert(longer.drop_last() == seq![0x30u8] + digits.drop_last());
        assert(longer.last() == digits.last());
        lemma_hex_leading_zero(digits.drop_last());
    }
}

/// `hex::decode`: succeeds exactly on an even number of hexadecimal digits
/// and then returns one byte for every two digits, the higher digit
/// first.
#[verifier::external_body]
fn hex_decode(text: &[u8]) -> (r: Result<Vec<u8>, hex::FromHexError>)
    ensures
        r is Ok <==> is_hex_text(text@),
        r matches Ok(bytes) ==> bytes@ == hex_decoded(text@),
{
    hex::decode(text)
}

/// The digits of `text` in an even number: with a zero in front where
/// `text` has an odd number of them.
fn evened(text: &[u8]) -> (digits: Vec<u8>)
    ensures
        digits@.len() % 2 == 0,
        digits@ == if text@.len() % 2 == 1 {
            seq![0x30u8] + text@
        } else {
            text@
        },
{
    let mut digits: Vec<u8> = Vec::new();
    if text.len() % 2 == 1 {
        digits.push(0x30);
    }
    let ghost front = digits@;
    let mut i: usize = 0;
    while i < text.len()
        invariant
            i <= text@.len(),
            digits@ == front + text@.take(i as int),
        decreases text@.len() - i,
    {
        digits.push(text[i]);
        assert(digits@ == front + text@.take(i + 1));
        i += 1;
    }
    assert(text@.take(i as int) == text@);
    assert(Seq::<u8>::empty() + text@ == text@);
    digits
}

/// The number that the hexadecimal text `text` stands for.
pub fn hex_word_of(text: &[u8]) -> (r: Result<u64, InputError>)
    ensures
        r == hex_word(text@),
{
    if text.len() == 0 {
        return Err(InputError::InvalidHexString);
    }
    let digits = evened(text);
    proof {
        if text@.len() % 2 == 1 {
            lemma_hex_leading_zero(text@);
        }
        if is_hex_numeral(text@) {
            assert forall|i: int| 0 <= i < digits@.len() implies is_hex_digit(
                #[trigger] digits@[i],
            ) by {
                if text@.len() % 2 == 1 && i > 0 {
                    assert(digits@[i] == text@[i - 1]);
                }
            }
        }
        if is_hex_text(digits@) {
            assert forall|i: int| 0 <= i < text@.len() implies is_hex_digit(
                #[trigger] text@[i],
            ) by {
                if text@.len() % 2 == 1 {
                    assert(text@[i] == digits@[i + 1]);
                } else {
                    assert(text@[i] == digits@[i]);
                }
            }
        }
    }
    let bytes = match hex_decode(digits.as_slice()) {
        Err(_) => {
            return Err(InputError::InvalidHexString);
        },
        Ok(bytes) => bytes,
    };
    let mut value: u64 = 0;
    let mut i: usize = 0;
    while i < bytes.len()
        invariant
            i <= bytes@.len(),
            bytes@ == hex_decoded(digits@),
            is_hex_text(digits@),
            is_hex_numeral(text@),
            hex_digits_value(digits@) == hex_digits_value(text@),
            value == hex_digits_value(digits@.take(2 * i)),
        decreases bytes@.len() - i,
    {
        let byte = bytes[i];
        proof {
            let two = digits@.take(2 * i + 2);
            let one = digits@.take(2 * i + 1);
            assert(two.drop_last() == one);
            assert(one.drop_last() == digits@.take(2 * i));
            assert(is_hex_digit(digits@[2 * i]));
            assert(is_hex_digit(digits@[2 * i + 1]));
            assert(one.last() == digits@[2 * i]);
            assert(two.last() == digits@[2 * i + 1]);
            let high = hex_digit_value(digits@[2 * i]);
            let low = hex_digit_value(digits@[2 * i + 1]);
            assert(0 <= high < 16 && 0 <= low < 16);
            assert(byte == hex_decoded(digits@)[i as int]);
            assert(byte == 16 * high + low);
            assert(hex_digits_value(one) == value * 16 + high);
            assert(hex_digits_value(two) == hex_digits_value(one) * 16 + low);
            assert(hex_digits_value(two) == value * 256 + byte);
            lemma_hex_digits_value_prefix(digits@, 2 * i + 2);
        }
        if value > (u64::MAX - byte as u64) / 256 {
            return Err(InputError::HexOutOfRange);
        }
        value = value * 256 + byte as u64;
        i += 1;
    }
    assert(digits@.take(2 * i) == digits@);
    Ok(value)
}

/// The number that the decimal text `text` stands for.
pub fn decimal_value_of(text: &[u8]) -> (r: Result<u64, InputError>)
    ensures
        r == decimal_value(text@),
{
    let start: usize = if text.len() > 0 && text[0] == 0x2b {
        1
    } else {
        0
    };
    let ghost digits = decimal_digits(text@);
    assert(digits == text@.skip(start as int));
    if start == text.len() {
        return Err(InputError::InvalidInteger);
    }
    let mut value: u64 = 0;
    let mut i: usize = start;
    while i < text.len()
        invariant
            start <= i <= text@.len(),
            digits == text@.skip(start as int),
            digits == decimal_digits(text@),
            digits.len() > 0,
            value == digits_value(digits.take(i - start)),
            forall|j: int| 0 <= j < i - start ==> is_decimal_digit(#[trigger] digits[j]),
        decreases text@.len() - i,
    {
        let c = text[i];
        assert(digits[i - start] == c);
        if c < 0x30 || c > 0x39 {
            assert(!is_decimal_digit(digits[i - start]));
            return Err(InputError::InvalidInteger);
        }
        proof {
            let longer = digits.take(i - start + 1);
            assert(longer.drop_last() == digits.take(i - start));
            assert(longer.last() == c);
            lemma_digits_value_prefix(digits, i - start + 1);
        }
        let digit: u64 = (c - 0x30) as u64;
        if value > (u64::MAX - digit) / 10 {
            return Err(InputError::InvalidInteger);
        }
        value = value * 10 + digit;
        i += 1;
    }
    assert(digits.take(i - start) == digits);
    Ok(value)
}

/// The number that the input bytes `text` stand for.
pub fn input_value_of(text: &[u8]) -> (r: Result<u64, InputError>)
    ensures
        r == input_value(text@),
{
    if text.len() >= 2 && text[0] == 0x30 && text[1] == 0x78 {
        let digits = slice_subrange(text, 2, text.len());
        hex_word_of(digits)
    } else {
        decimal_value_of(text)
    }
}

/// The number that a hexadecimal text stands for, or why it stands for
/// none.
pub fn try_hex_to_u64(hex: &str) -> (r: Result<u64, InputError>)
    ensures
        r == hex_word(hex.spec_bytes()),
{
    hex_word_of(hex.as_bytes())
}

/// The number that a hexadecimal text stands for.
pub fn hex_to_u64(hex: &str) -> (value: u64)
    requires
        hex_word(hex.spec_bytes()) is Ok,
    ensures
        hex_word(hex.spec_bytes()) == Ok::<u64, InputError>(value),
{
    match try_hex_to_u64(hex) {
        Ok(value) => value,
        Err(_) => vstd::pervasive::unreached(),
    }
}

/// The number that an input text stands for, or why it stands for none.
pub fn try_parse_input(input: &str) -> (r: Result<u64, InputError>)
    ensures
        r == input_value(input.spec_bytes()),
{
    input_value_of(input.as_bytes())
}

/// The number that an input text stands for.
pub fn parse_input(input: &str) -> (value: u64)
    requires
        input_value(input.spec_bytes()) is Ok,
    ensures
        input_value(input.spec_bytes()) == Ok::<u64, InputError>(value),
{
    match try_parse_input(input) {
        Ok(value) => value,
        Err(_) => vstd::pervasive::unreached(),
    }
}

} // verus!
