//! Hexadecimal text: which bytes are digits, what a digit string decodes to,
//! and how bytes are written as digits.
//!
//! Encoding and decoding are done by the `hex` crate. The functions here say
//! what those calls return, and the lemmas relate the two directions.

use vstd::prelude::*;
use vstd::utf8::*;

verus! {

/// Whether `b` is an ASCII hexadecimal digit: `0`-`9`, `A`-`F` or `a`-`f`.
pub open spec fn is_hex_digit(b: u8) -> bool {
    ||| 0x30 <= b <= 0x39
    ||| 0x41 <= b <= 0x46
    ||| 0x61 <= b <= 0x66
}

/// The value, from 0 to 15, of the hexadecimal digit `b`.
pub open spec fn digit_value(b: u8) -> int
    recommends
        is_hex_digit(b),
{
    if 0x30 <= b <= 0x39 {
        b - 0x30
    } else if 0x41 <= b <= 0x46 {
        b - 0x41 + 10
    } else {
        b - 0x61 + 10
    }
}

/// The lower-case digit that stands for `value`, which is from 0 to 15.
pub open spec fn digit_char(value: int) -> char
    recommends
        0 <= value < 16,
{
    seq!['0', '1', '2', '3', '4', '5', '6', '7', '8', '9', 'a', 'b', 'c', 'd', 'e', 'f'][value]
}

/// Whether `data` is a hexadecimal string: an even number of bytes, each of
/// them a hexadecimal digit.
pub open spec fn is_hex(data: Seq<u8>) -> bool {
    &&& data.len() % 2 == 0
    &&& forall|i: int| 0 <= i < data.len() ==> is_hex_digit(#[trigger] data[i])
}

/// Whether `c` is a hexadecimal digit: `0`-`9`, `A`-`F` or `a`-`f`.
pub open spec fn is_hex_char(c: char) -> bool {
    ||| '0' <= c <= '9'
    ||| 'A' <= c <= 'F'
    ||| 'a' <= c <= 'f'
}

/// Whether `text` is a hexadecimal string: an even number of characters,
/// each of them a hexadecimal digit.
pub open spec fn is_hex_text(text: Seq<char>) -> bool {
    &&& text.len() % 2 == 0
    &&& forall|i: int| 0 <= i < text.len() ==> is_hex_char(#[trigger] text[i])
}

/// Whether `text` holds lower-case hexadecimal digits only: `0`-`9` and
/// `a`-`f`.
pub open spec fn is_lower_case(text: Seq<char>) -> bool {
    forall|i: int|
        0 <= i < text.len() ==> {
            ||| '0' <= #[trigger] text[i] <= '9'
            ||| 'a' <= text[i] <= 'f'
        }
}

/// The bytes that the hexadecimal string `data` stands for: each pair of
/// digits gives one byte, the first digit its high half.
pub open spec fn decoded(data: Seq<u8>) -> Seq<u8>
    recommends
        is_hex(data),
{
    Seq::new(
        data.len() / 2,
        |i: int| (16 * digit_value(data[2 * i]) + digit_value(data[2 * i + 1])) as u8,
    )
}

/// The hexadecimal text for `data`: two lower-case digits for each byte, the
/// high half first.
pub open spec fn encoded(data: Seq<u8>) -> Seq<char> {
    Seq::new(
        2 * data.len(),
        |i: int|
            if i % 2 == 0 {
                digit_char(data[i / 2] as int / 16)
            } else {
                digit_char(data[i / 2] as int % 16)
            },
    )
}

/// `hex::FromHexError`, the error of `hex::decode`. It is carried as it
/// comes: nothing is known here of what it holds.
#[verifier::external_type_specification]
#[verifier::external_body]
pub struct ExFromHexError(hex::FromHexError);

/// Calls `hex::encode` on `data`.
///
/// Trusted: the result is [`encoded`] of the input. `hex::encode` writes, for
/// each byte in turn, the digit of its high four bits and then the digit of
/// its low four bits, from the table `0123456789abcdef`.
#[verifier::external_body]
pub(crate) fn hex_encode(data: &[u8]) -> (text: String)
    ensures
        text@ == encoded(data@),
{
    hex::encode(data)
}

/// Calls `hex::decode` on `data`.
///
/// Trusted: the call succeeds exactly on a hexadecimal string, and then
/// returns [`decoded`] of it. `hex::decode` refuses an odd length, then reads
/// the bytes in pairs, refuses a byte outside `0`-`9`, `A`-`F`, `a`-`f`, and
/// joins the two values of a pair as high and low half of one byte. Nothing
/// is said here of which error comes back.
#[verifier::external_body]
pub(crate) fn hex_decode(data: &[u8]) -> (res: Result<Vec<u8>, hex::FromHexError>)
    ensures
        res is Ok <==> is_hex(data@),
        res matches Ok(bytes) ==> bytes@ == decoded(data@),
{
    hex::decode(data)
}

/// A string that is no hexadecimal string, where one was needed.
#[derive(Debug, Clone, Copy, PartialEq)]
pub struct DecodeError {
    /// What `hex` found wrong with the string: an odd length, or the first
    /// byte that is no digit. It is there to be reported; no contract speaks
    /// of it.
    pub cause: hex::FromHexError,
}

/// The bytes that `text` stands for, if it is a hexadecimal string. Digits
/// of either case are read.
pub fn decode(text: &str) -> (res: Result<Vec<u8>, DecodeError>)
    ensures
        res is Ok <==> is_hex(encode_utf8(text@)),
        res matches Ok(bytes) ==> bytes@ == decoded(encode_utf8(text@)),
{
    match hex_decode(text.as_bytes()) {
        Ok(bytes) => Ok(bytes),
        Err(cause) => Err(DecodeError { cause }),
    }
}

/// A text whose UTF-8 bytes are all below 128 holds ASCII characters only.
proof fn lemma_ascii_bytes(text: Seq<char>)
    requires
        forall|i: int| 0 <= i < encode_utf8(text).len() ==> #[trigger] encode_utf8(text)[i] < 0x80,
    ensures
        is_ascii_chars(text),
    decreases text.len(),
{
    if text.len() > 0 {
        char_is_scalar(text[0]);
        let first = text[0] as u32;
        let rest = text.drop_first();
        let bytes = encode_utf8(text);
        assert(bytes[0] == encode_scalar(first)[0]);
        assert(has_width_1_encoding(first)) by {
            assert(0xC0u8 | ((first >> 6) & 0x1F) as u8 >= 0x80) by (bit_vector);
            assert(0xE0u8 | ((first >> 12) & 0x0F) as u8 >= 0x80) by (bit_vector);
            assert(0xF0u8 | ((first >> 18) & 0x7) as u8 >= 0x80) by (bit_vector);
        }
        assert forall|i: int| 0 <= i < encode_utf8(rest).len() implies #[trigger] encode_utf8(
            rest,
        )[i] < 0x80 by {
            assert(encode_utf8(rest)[i] == bytes[i + 1]);
        }
        lemma_ascii_bytes(rest);
        assert forall|i: int| 0 <= i < text.len() implies '\0' <= #[trigger] text[i]
            <= '\u{7f}' by {
            if i > 0 {
                assert(text[i] == rest[i - 1]);
            } else {
                char_u32_cast(text[0], first);
                assert(first as char == text[0]);
                assert(text[0] <= '\u{7f}');
            }
        }
    }
}

/// A text is a hexadecimal string by its characters exactly if it is one by
/// the bytes of its UTF-8 form, which are what is decoded.
pub proof fn lemma_hex_text(text: Seq<char>)
    ensures
        is_hex_text(text) <==> is_hex(encode_utf8(text)),
{
    let bytes = encode_utf8(text);
    if is_hex_text(text) {
        assert forall|i: int| 0 <= i < text.len() implies '\0' <= #[trigger] text[i]
            <= '\u{7f}' by {
            assert(is_hex_char(text[i]));
        }
        is_ascii_chars_encode_utf8(text);
        assert forall|i: int| 0 <= i < bytes.len() implies is_hex_digit(#[trigger] bytes[i]) by {
            assert(is_hex_char(text[i]));
            assert(bytes[i] == text[i] as u8);
        }
    }
    if is_hex(bytes) {
        lemma_ascii_bytes(text);
        is_ascii_chars_encode_utf8(text);
        assert forall|i: int| 0 <= i < text.len() implies is_hex_char(#[trigger] text[i]) by {
            assert(is_hex_digit(bytes[i]));
            assert(bytes[i] == text[i] as u8);
        }
    }
}

/// Each digit that an encoding is written with is an ASCII character and a
/// hexadecimal digit, and stands for the value that it was written for.
pub proof fn lemma_digit_char(value: int)
    requires
        0 <= value < 16,
    ensures
        '\0' <= digit_char(value) <= '\u{7f}',
        is_hex_digit(digit_char(value) as u8),
        digit_value(digit_char(value) as u8) == value,
{
}

/// Decoding undoes encoding: the text written for `data` is a hexadecimal
/// string, and it stands for `data`.
pub proof fn lemma_decode_encoded(data: Seq<u8>)
    ensures
        is_hex(encode_utf8(encoded(data))),
        decoded(encode_utf8(encoded(data))) == data,
{
    let text = encoded(data);
    assert forall|i: int| 0 <= i < text.len() implies '\0' <= #[trigger] text[i] <= '\u{7f}' by {
        lemma_digit_char(data[i / 2] as int / 16);
        lemma_digit_char(data[i / 2] as int % 16);
    }
    is_ascii_chars_encode_utf8(text);
    let bytes = encode_utf8(text);
    assert forall|i: int| 0 <= i < bytes.len() implies is_hex_digit(#[trigger] bytes[i]) by {
        lemma_digit_char(data[i / 2] as int / 16);
        lemma_digit_char(data[i / 2] as int % 16);
        assert(bytes[i] == text[i] as u8);
    }
    assert forall|k: int| 0 <= k < data.len() implies decoded(bytes)[k] == data[k] by {
        lemma_digit_char(data[k] as int / 16);
        lemma_digit_char(data[k] as int % 16);
        assert(bytes[2 * k] == text[2 * k] as u8);
        assert(bytes[2 * k + 1] == text[2 * k + 1] as u8);
    }
    assert(decoded(bytes) =~= data);
}

/// The text written for `data` is a hexadecimal string of two digits for
/// each byte, in lower case.
pub proof fn lemma_encoded_is_hex(data: Seq<u8>)
    ensures
        encoded(data).len() == 2 * data.len(),
        is_hex_text(encoded(data)),
        is_lower_case(encoded(data)),
{
    lemma_decode_encoded(data);
    lemma_hex_text(encoded(data));
}

/// Two byte strings with the same encoding are the same.
pub proof fn lemma_encoded_injective(first: Seq<u8>, second: Seq<u8>)
    requires
        encoded(first) == encoded(second),
    ensures
        first == second,
{
    lemma_decode_encoded(first);
    lemma_decode_encoded(second);
}

} // verus!
