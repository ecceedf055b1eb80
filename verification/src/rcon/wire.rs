//! Primitive encodings shared by the codecs: little-endian 32-bit fields and
//! ASCII text.

use byteorder::{ByteOrder, LittleEndian};
use vstd::prelude::*;
use vstd::utf8::*;

verus! {

/// The four bytes of `n`, least significant first.
#[verifier::opaque]
pub open spec fn u32_le(n: u32) -> Seq<u8> {
    seq![
        (n % 256) as u8,
        ((n / 256) % 256) as u8,
        ((n / 65536) % 256) as u8,
        (n / 16777216) as u8,
    ]
}

/// The number whose little-endian encoding is the first four bytes of `bytes`.
#[verifier::opaque]
pub open spec fn le_u32(bytes: Seq<u8>) -> u32
    recommends
        bytes.len() >= 4,
{
    (bytes[0] + bytes[1] * 256 + bytes[2] * 65536 + bytes[3] * 16777216) as u32
}

/// Every byte is below 128.
pub open spec fn is_ascii_bytes(bytes: Seq<u8>) -> bool {
    forall|i: int| 0 <= i < bytes.len() ==> #[trigger] bytes[i] < 128
}

/// Every character is below 128.
pub open spec fn is_ascii_text(text: Seq<char>) -> bool {
    is_ascii_chars(text)
}

/// The bytes of an ASCII text, one per character.
pub open spec fn ascii_bytes(text: Seq<char>) -> Seq<u8> {
    Seq::new(text.len(), |i: int| text[i] as u8)
}

/// The text spelled by ASCII bytes, one character per byte.
pub open spec fn ascii_text(bytes: Seq<u8>) -> Seq<char> {
    Seq::new(bytes.len(), |i: int| bytes[i] as char)
}

/// A number below 2^32 written to base 256 has the digits it was built from.
proof fn lemma_base_256_digits(b0: u32, b1: u32, b2: u32, b3: u32)
    by (bit_vector)
    requires
        b0 < 256,
        b1 < 256,
        b2 < 256,
        b3 < 256,
    ensures
        b0 + b1 * 256 + b2 * 65536 + b3 * 16777216 < 0x1_0000_0000,
        (b0 + b1 * 256 + b2 * 65536 + b3 * 16777216) % 256 == b0,
        ((b0 + b1 * 256 + b2 * 65536 + b3 * 16777216) / 256) % 256 == b1,
        ((b0 + b1 * 256 + b2 * 65536 + b3 * 16777216) / 65536) % 256 == b2,
        (b0 + b1 * 256 + b2 * 65536 + b3 * 16777216) / 16777216 == b3,
{
}

/// The base-256 digits of a 32-bit number add up to it.
proof fn lemma_base_256_sum(n: u32)
    by (bit_vector)
    ensures
        n % 256 + ((n / 256) % 256) * 256 + ((n / 65536) % 256) * 65536 + (n / 16777216)
            * 16777216 == n,
        n / 16777216 < 256,
{
}

/// Decoding the encoding of `n` gives `n` back, and an encoding is four bytes.
pub proof fn lemma_u32_le_round_trip(n: u32)
    ensures
        u32_le(n).len() == 4,
        le_u32(u32_le(n)) == n,
{
    reveal(u32_le);
    reveal(le_u32);
    lemma_base_256_sum(n);
}

/// Encoding the number read from four bytes gives those bytes back.
pub proof fn lemma_le_u32_round_trip(bytes: Seq<u8>)
    requires
        bytes.len() == 4,
    ensures
        u32_le(le_u32(bytes)) == bytes,
{
    reveal(u32_le);
    reveal(le_u32);
    lemma_base_256_digits(bytes[0] as u32, bytes[1] as u32, bytes[2] as u32, bytes[3] as u32);
    assert(u32_le(le_u32(bytes)) =~= bytes);
}

/// Text and bytes of ASCII content determine each other.
pub proof fn lemma_ascii_round_trip(text: Seq<char>)
    requires
        is_ascii_text(text),
    ensures
        is_ascii_bytes(ascii_bytes(text)),
        ascii_text(ascii_bytes(text)) == text,
        ascii_bytes(text) == encode_utf8(text),
{
    is_ascii_chars_encode_utf8(text);
    assert(ascii_text(ascii_bytes(text)) =~= text);
    assert(ascii_bytes(text) =~= encode_utf8(text));
}

/// Bytes and text of ASCII content determine each other.
pub proof fn lemma_ascii_bytes_round_trip(bytes: Seq<u8>)
    requires
        is_ascii_bytes(bytes),
    ensures
        is_ascii_text(ascii_text(bytes)),
        ascii_bytes(ascii_text(bytes)) == bytes,
{
    assert(ascii_bytes(ascii_text(bytes)) =~= bytes);
}

/// Calls `byteorder::LittleEndian::write_u32` on a fresh four-byte buffer.
/// The contract claims that the buffer then holds the bytes of `n`, least
/// significant first.
#[verifier::external_body]
pub(crate) fn encode_u32(n: u32) -> (field: [u8; 4])
    ensures
        field@ == u32_le(n),
{
    let mut field = [0u8; 4];
    LittleEndian::write_u32(&mut field, n);
    field
}

/// Appends the little-endian bytes of `n` to `out`.
pub(crate) fn put_u32(out: &mut Vec<u8>, n: u32)
    ensures
        final(out)@ == old(out)@ + u32_le(n),
{
    let field = encode_u32(n);
    proof {
        lemma_u32_le_round_trip(n);
    }
    out.push(field[0]);
    out.push(field[1]);
    out.push(field[2]);
    out.push(field[3]);
    assert(out@ =~= old(out)@ + u32_le(n));
}

/// Calls `byteorder::LittleEndian::read_u32`, which panics on fewer than four
/// bytes. The contract claims that the result is the number whose bytes,
/// least significant first, are the first four of `bytes`.
#[verifier::external_body]
pub(crate) fn decode_u32(bytes: &[u8]) -> (n: u32)
    requires
        bytes@.len() >= 4,
    ensures
        n == le_u32(bytes@),
{
    LittleEndian::read_u32(bytes)
}

/// Calls `String::from_utf8`. The contract claims that a string comes back
/// exactly when the bytes are valid UTF-8, and that its UTF-8 encoding is
/// then those bytes.
#[verifier::external_body]
pub(crate) fn string_from_utf8(bytes: Vec<u8>) -> (out: Option<String>)
    ensures
        out is Some <==> valid_utf8(bytes@),
        out matches Some(text) ==> encode_utf8(text@) == bytes@,
{
    String::from_utf8(bytes).ok()
}

/// The string spelled by ASCII bytes.
pub(crate) fn ascii_string(bytes: Vec<u8>) -> (text: String)
    requires
        is_ascii_bytes(bytes@),
    ensures
        text@ == ascii_text(bytes@),
{
    let ghost content = bytes@;
    proof {
        lemma_ascii_bytes_round_trip(content);
        lemma_ascii_round_trip(ascii_text(content));
        encode_utf8_valid_utf8(ascii_text(content));
    }
    match string_from_utf8(bytes) {
        Some(text) => {
            proof {
                encode_utf8_decode_utf8(text@);
                encode_utf8_decode_utf8(ascii_text(content));
            }
            text
        },
        None => String::new(),
    }
}

} // verus!
