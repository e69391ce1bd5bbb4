//! Unambiguous byte encodings and SHA-256 digests of them.

use sha2::Digest;
use vstd::prelude::*;
use vstd::utf8::{encode_utf8, is_ascii_chars, is_ascii_chars_encode_utf8};

use crate::provider_validation::charge::checked_u32_len;
use crate::provider_validation::scalar::{is_digest, is_lower_hex};
use crate::provider_validation::wire_json::append_bytes;
use crate::provider_validation::{ValidationError, ValidationResult};

verus! {

/// The SHA-256 hash of a byte string.
pub uninterp spec fn sha256(data: Seq<u8>) -> Seq<u8>;

/// Calls `sha2::Sha256::digest`, the one-shot hash of the `sha2` crate: the
/// result is the SHA-256 hash of the data, which has 32 bytes.
#[verifier::external_body]
pub(crate) fn sha256_digest(data: &[u8]) -> (digest: Vec<u8>)
    ensures
        digest@ == sha256(data@),
        digest@.len() == 32,
{
    sha2::Sha256::digest(data).to_vec()
}

/// `std::string::String::push`: appends one character.
pub assume_specification[ std::string::String::push ](
    text: &mut std::string::String,
    character: char,
)
    ensures
        final(text)@ == old(text)@.push(character),
;

/// `std::string::String::push_str`: appends a text.
pub assume_specification[ std::string::String::push_str ](
    text: &mut std::string::String,
    suffix: &str,
)
    ensures
        final(text)@ == old(text)@ + suffix@,
;

/// A 32-bit number in big-endian order.
pub open spec fn be32(value: u32) -> Seq<u8> {
    seq![
        (value / 16_777_216) as u8,
        (value / 65_536 % 256) as u8,
        (value / 256 % 256) as u8,
        (value % 256) as u8,
    ]
}

/// A 64-bit number in big-endian order.
pub open spec fn be64(value: u64) -> Seq<u8> {
    be32((value / 4_294_967_296) as u32) + be32((value % 4_294_967_296) as u32)
}

/// A byte string after its length.
pub open spec fn sized(bytes: Seq<u8>) -> Seq<u8> {
    be32(bytes.len() as u32) + bytes
}

/// A text after its byte length.
pub open spec fn sized_text(text: Seq<char>) -> Seq<u8> {
    sized(encode_utf8(text))
}

/// Appending piece after piece appends the concatenation of the pieces.
pub proof fn lemma_append(base: Seq<u8>, done: Seq<u8>, piece: Seq<u8>)
    ensures
        base + done + piece == base + (done + piece),
{
    assert(base + done + piece =~= base + (done + piece));
}

/// The concatenated pieces of a list.
pub open spec fn joined<T>(items: Seq<T>, piece: spec_fn(T) -> Seq<u8>) -> Seq<u8>
    decreases items.len(),
{
    if items.len() == 0 {
        Seq::empty()
    } else {
        joined(items.drop_last(), piece) + piece(items.last())
    }
}

/// The pieces of a list after their number.
pub open spec fn counted<T>(items: Seq<T>, piece: spec_fn(T) -> Seq<u8>) -> Seq<u8> {
    be32(items.len() as u32) + joined(items, piece)
}

/// One more piece of a list.
pub proof fn lemma_joined_step<T>(items: Seq<T>, piece: spec_fn(T) -> Seq<u8>, i: int)
    requires
        0 <= i < items.len(),
    ensures
        joined(items.take(i + 1), piece) == joined(items.take(i), piece) + piece(items[i]),
{
    assert(items.take(i + 1).drop_last() =~= items.take(i));
}

/// Appends a 32-bit number in big-endian order.
pub fn push_be32(value: u32, output: &mut Vec<u8>)
    ensures
        final(output)@ == old(output)@ + be32(value),
{
    output.push((value / 16_777_216) as u8);
    output.push((value / 65_536 % 256) as u8);
    output.push((value / 256 % 256) as u8);
    output.push((value % 256) as u8);
    assert(output@ =~= old(output)@ + be32(value));
}

/// Appends a 64-bit number in big-endian order.
pub fn push_be64(value: u64, output: &mut Vec<u8>)
    ensures
        final(output)@ == old(output)@ + be64(value),
{
    push_be32((value / 4_294_967_296) as u32, output);
    push_be32((value % 4_294_967_296) as u32, output);
    assert(output@ =~= old(output)@ + be64(value));
}

/// Appends a byte string after its length; `Limit` when the length does not
/// fit into 32 bits.
pub fn push_sized(bytes: &[u8], output: &mut Vec<u8>) -> (result: ValidationResult)
    ensures
        bytes@.len() <= u32::MAX ==> result == ValidationResult::<()>::Ok(()) && final(output)@
            == old(output)@ + sized(bytes@),
        bytes@.len() > u32::MAX ==> result == ValidationResult::<()>::Err(ValidationError::Limit)
            && final(output)@ == old(output)@,
{
    let length: u32 = checked_u32_len(bytes.len())?;
    push_be32(length, output);
    append_bytes(bytes, output);
    assert(output@ =~= old(output)@ + sized(bytes@));
    Ok(())
}

/// A hexadecimal digit in lower case.
pub open spec fn hex_digit(value: int) -> char {
    if value < 10 {
        (48 + value) as char
    } else {
        (87 + value) as char
    }
}

/// The hexadecimal text of a byte string.
pub open spec fn hex_text(bytes: Seq<u8>) -> Seq<char>
    decreases bytes.len(),
{
    if bytes.len() == 0 {
        Seq::empty()
    } else {
        hex_text(bytes.drop_last()).push(hex_digit(bytes.last() as int / 16)).push(
            hex_digit(bytes.last() as int % 16),
        )
    }
}

/// The text form of a digest: `sha256:` and its hexadecimal digits.
pub open spec fn digest_chars(bytes: Seq<u8>) -> Seq<char> {
    "sha256:"@ + hex_text(bytes)
}

fn hex_char(value: u8) -> (digit: char)
    requires
        value < 16,
    ensures
        digit == hex_digit(value as int),
{
    if value < 10 {
        (48 + value) as char
    } else {
        (87 + value) as char
    }
}

/// The text form of a digest.
pub fn digest_text(bytes: &[u8]) -> (text: String)
    ensures
        text@ == digest_chars(bytes@),
{
    let mut result = String::new();
    result.push_str("sha256:");
    let mut i: usize = 0;
    assert(bytes@.take(0) =~= Seq::empty());
    assert(result@ =~= "sha256:"@ + hex_text(bytes@.take(0)));
    while i < bytes.len()
        invariant
            i <= bytes@.len(),
            result@ == "sha256:"@ + hex_text(bytes@.take(i as int)),
        decreases bytes.len() - i,
    {
        let byte: u8 = bytes[i];
        assert(bytes@.take(i as int + 1).drop_last() =~= bytes@.take(i as int));
        result.push(hex_char(byte / 16));
        result.push(hex_char(byte % 16));
        assert(result@ =~= "sha256:"@ + hex_text(bytes@.take(i as int + 1)));
        i += 1;
    }
    assert(bytes@.take(i as int) =~= bytes@);
    result
}

proof fn lemma_hex_text(bytes: Seq<u8>)
    ensures
        hex_text(bytes).len() == 2 * bytes.len(),
        forall|i: int|
            0 <= i < hex_text(bytes).len() ==> '\0' <= #[trigger] hex_text(bytes)[i] <= '\u{7f}'
                && is_lower_hex(hex_text(bytes)[i] as u8),
    decreases bytes.len(),
{
    if bytes.len() > 0 {
        lemma_hex_text(bytes.drop_last());
    }
}

/// The text form of a 32-byte hash is a well-formed digest.
pub proof fn lemma_digest_text_is_well_formed(bytes: Seq<u8>)
    requires
        bytes.len() == 32,
    ensures
        is_digest(digest_chars(bytes)),
{
    lemma_hex_text(bytes);
    reveal_strlit("sha256:");
    let text = digest_chars(bytes);
    assert(is_ascii_chars("sha256:"@));
    assert forall|i: int| 0 <= i < text.len() implies '\0' <= #[trigger] text[i] <= '\u{7f}' by {
        if i >= 7 {
            assert(text[i] == hex_text(bytes)[i - 7]);
        } else {
            assert(text[i] == "sha256:"@[i]);
        }
    }
    assert(is_ascii_chars(text));
    is_ascii_chars_encode_utf8(text);
    is_ascii_chars_encode_utf8("sha256:"@);
    assert(encode_utf8(text).take(7) =~= encode_utf8("sha256:"@));
    assert forall|i: int| 7 <= i < encode_utf8(text).len() implies is_lower_hex(
        #[trigger] encode_utf8(text)[i],
    ) by {
        assert(text[i] == hex_text(bytes)[i - 7]);
    }
}

} // verus!
