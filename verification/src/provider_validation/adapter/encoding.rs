//! Base64 texts and data URIs.

use base64::engine::general_purpose::{STANDARD, STANDARD_NO_PAD};
use base64::Engine;
use vstd::prelude::*;
use vstd::utf8::{is_ascii_chars, is_ascii_chars_encode_utf8};

use crate::provider_api::{ImageMediaType, ImageView};
use crate::provider_validation::adapter::json::{AdapterJson, JsonTree};
use crate::provider_validation::adapter::types::{
    AdapterTransform, AdapterValidationError, AdapterValidationResult,
};
use crate::provider_validation::scalar::MAX_LOGICAL_CHARGE;
use crate::text::{byte_len, lemma_encode_concat};

verus! {

// ---------------------------------------------------------------------------
// Base64
// ---------------------------------------------------------------------------

/// The standard base64 digit of a six-bit number.
pub open spec fn base64_digit(value: int) -> char {
    if value < 26 {
        (65 + value) as char
    } else if value < 52 {
        (71 + value) as char
    } else if value < 62 {
        (value - 4) as char
    } else if value == 62 {
        '+'
    } else {
        '/'
    }
}

/// Byte `i` of a byte string, or zero past its end.
pub open spec fn byte_at(data: Seq<u8>, i: int) -> int {
    if i < data.len() {
        data[i] as int
    } else {
        0
    }
}

/// The `i`-th group of six bits of a byte string.
pub open spec fn sextet(data: Seq<u8>, i: int) -> int {
    let first = i / 4 * 3;
    let bits = byte_at(data, first) * 65_536 + byte_at(data, first + 1) * 256 + byte_at(
        data,
        first + 2,
    );
    if i % 4 == 0 {
        bits / 262_144
    } else if i % 4 == 1 {
        bits / 4_096 % 64
    } else if i % 4 == 2 {
        bits / 64 % 64
    } else {
        bits % 64
    }
}

/// The number of base64 digits of `length` bytes.
pub open spec fn base64_digits(length: int) -> int {
    (4 * length + 2) / 3
}

/// The number of characters of the padded base64 text of `length` bytes.
pub open spec fn base64_padded_length(length: int) -> int {
    (length + 2) / 3 * 4
}

/// The standard base64 text of a byte string, without padding.
pub open spec fn base64_unpadded(data: Seq<u8>) -> Seq<char> {
    Seq::new(base64_digits(data.len() as int) as nat, |i: int| base64_digit(sextet(data, i)))
}

/// The standard base64 text of a byte string, padded to whole groups of four.
pub open spec fn base64_padded(data: Seq<u8>) -> Seq<char> {
    Seq::new(
        base64_padded_length(data.len() as int) as nat,
        |i: int|
            if i < base64_digits(data.len() as int) {
                base64_digit(sextet(data, i))
            } else {
                '='
            },
    )
}

/// The most bytes that are encoded at once. The base64 crate refuses to encode
/// what it cannot measure in a `usize`.
pub const MAX_ENCODED_BYTES: usize = 1_073_741_824;

/// Calls `encode` on the `STANDARD` engine of the base64 crate: the padded
/// standard base64 text of the bytes.
#[verifier::external_body]
pub(crate) fn encode_padded(bytes: &[u8]) -> (text: String)
    requires
        bytes@.len() <= MAX_ENCODED_BYTES,
    ensures
        text@ == base64_padded(bytes@),
{
    STANDARD.encode(bytes)
}

/// Calls `encode` on the `STANDARD_NO_PAD` engine of the base64 crate: the
/// standard base64 text of the bytes, without padding.
#[verifier::external_body]
pub(crate) fn encode_unpadded(bytes: &[u8]) -> (text: String)
    requires
        bytes@.len() <= MAX_ENCODED_BYTES,
    ensures
        text@ == base64_unpadded(bytes@),
{
    STANDARD_NO_PAD.encode(bytes)
}

/// Calls `encode_string` on the `STANDARD` engine of the base64 crate: appends
/// the padded standard base64 text of the bytes.
#[verifier::external_body]
pub(crate) fn append_padded(bytes: &[u8], output: &mut String)
    requires
        bytes@.len() <= MAX_ENCODED_BYTES,
    ensures
        final(output)@ == old(output)@ + base64_padded(bytes@),
{
    STANDARD.encode_string(bytes, output)
}

proof fn lemma_sextet(data: Seq<u8>, i: int)
    requires
        0 <= i,
    ensures
        0 <= sextet(data, i) < 64,
        '\0' <= base64_digit(sextet(data, i)) <= '\u{7f}',
{
    let first = i / 4 * 3;
    let bits = byte_at(data, first) * 65_536 + byte_at(data, first + 1) * 256 + byte_at(
        data,
        first + 2,
    );
    assert(0 <= bits < 16_777_216);
}

/// A base64 text takes one byte for every character.
pub proof fn lemma_base64_bytes(data: Seq<u8>)
    ensures
        byte_len(base64_padded(data)) == base64_padded_length(data.len() as int),
        byte_len(base64_unpadded(data)) == base64_digits(data.len() as int),
{
    let padded = base64_padded(data);
    assert forall|i: int| 0 <= i < padded.len() implies '\0' <= #[trigger] padded[i]
        <= '\u{7f}' by {
        lemma_sextet(data, i);
    }
    assert(is_ascii_chars(padded));
    is_ascii_chars_encode_utf8(padded);
    let unpadded = base64_unpadded(data);
    assert forall|i: int| 0 <= i < unpadded.len() implies '\0' <= #[trigger] unpadded[i]
        <= '\u{7f}' by {
        lemma_sextet(data, i);
    }
    assert(is_ascii_chars(unpadded));
    is_ascii_chars_encode_utf8(unpadded);
}

/// The base64 text of a byte string under a transform, which is at most as
/// long as the largest charge.
pub open spec fn encoding_verdict(transform: AdapterTransform, bytes: Seq<u8>) ->
    AdapterValidationResult<JsonTree> {
    let text = match transform {
        AdapterTransform::Base64StandardPadded => Some(base64_padded(bytes)),
        AdapterTransform::Base64StandardUnpadded => Some(base64_unpadded(bytes)),
        _ => None,
    };
    match text {
        None => Err(AdapterValidationError::InvalidContract),
        Some(text) => if text.len() > MAX_LOGICAL_CHARGE {
            Err(AdapterValidationError::Limit)
        } else {
            Ok(JsonTree::Text { value: text, derived: true })
        },
    }
}

/// Whether a step has given the expected value.
pub open spec fn gives(
    expected: AdapterValidationResult<JsonTree>,
    result: AdapterValidationResult<AdapterJson>,
) -> bool {
    match result {
        Ok(json) => expected == AdapterValidationResult::<JsonTree>::Ok(json.tree()),
        Err(error) => expected == AdapterValidationResult::<JsonTree>::Err(error),
    }
}

/// The number of characters of the padded base64 text of `length` bytes, or
/// `Limit` when it leaves 64 bits.
pub fn padded_length(length: u64) -> (result: AdapterValidationResult<u64>)
    ensures
        match result {
            Ok(encoded) => encoded == base64_padded_length(length as int),
            Err(error) => error == AdapterValidationError::Limit && base64_padded_length(
                length as int,
            ) > MAX_LOGICAL_CHARGE,
        },
{
    match length.checked_add(2) {
        Some(sum) => match (sum / 3).checked_mul(4) {
            Some(encoded) => Ok(encoded),
            None => Err(AdapterValidationError::Limit),
        },
        None => Err(AdapterValidationError::Limit),
    }
}

/// The base64 text of a byte string under a transform.
pub fn encode_bytes(transform: &AdapterTransform, bytes: &[u8]) -> (result: AdapterValidationResult<
    AdapterJson,
>)
    ensures
        gives(encoding_verdict(*transform, bytes@), result),
{
    let length: u64 = bytes.len() as u64;
    match transform {
        AdapterTransform::Base64StandardPadded => {
            let encoded: u64 = padded_length(length)?;
            if encoded > MAX_LOGICAL_CHARGE {
                return Err(AdapterValidationError::Limit);
            }
            let text = encode_padded(bytes);
            Ok(AdapterJson::derived_string(text.as_str()))
        },
        AdapterTransform::Base64StandardUnpadded => {
            let groups: u64 = length / 3;
            let remainder: u64 = length % 3;
            let tail: u64 = if remainder == 0 {
                0
            } else if remainder == 1 {
                2
            } else {
                3
            };
            let whole: u64 = match groups.checked_mul(4) {
                Some(whole) => whole,
                None => {
                    return Err(AdapterValidationError::Limit);
                },
            };
            let encoded: u64 = match whole.checked_add(tail) {
                Some(encoded) => encoded,
                None => {
                    return Err(AdapterValidationError::Limit);
                },
            };
            if encoded > MAX_LOGICAL_CHARGE {
                return Err(AdapterValidationError::Limit);
            }
            let text = encode_unpadded(bytes);
            Ok(AdapterJson::derived_string(text.as_str()))
        },
        _ => Err(AdapterValidationError::InvalidContract),
    }
}

// ---------------------------------------------------------------------------
// Data URIs
// ---------------------------------------------------------------------------

/// The media type of an image.
pub open spec fn mime_text(value: ImageMediaType) -> Seq<char> {
    match value {
        ImageMediaType::Png => "image/png"@,
        ImageMediaType::Jpeg => "image/jpeg"@,
        ImageMediaType::Gif => "image/gif"@,
        ImageMediaType::Webp => "image/webp"@,
        ImageMediaType::Tiff => "image/tiff"@,
    }
}

/// The media type of an image.
pub fn media_mime(value: &ImageMediaType) -> (mime: &'static str)
    ensures
        mime@ == mime_text(*value),
{
    match value {
        ImageMediaType::Png => "image/png",
        ImageMediaType::Jpeg => "image/jpeg",
        ImageMediaType::Gif => "image/gif",
        ImageMediaType::Webp => "image/webp",
        ImageMediaType::Tiff => "image/tiff",
    }
}

/// The number of a media type.
pub open spec fn media_number(value: ImageMediaType) -> u8 {
    match value {
        ImageMediaType::Png => 0,
        ImageMediaType::Jpeg => 1,
        ImageMediaType::Gif => 2,
        ImageMediaType::Webp => 3,
        ImageMediaType::Tiff => 4,
    }
}

/// The number of a media type.
pub fn media_ordinal(value: &ImageMediaType) -> (ordinal: u8)
    ensures
        ordinal == media_number(*value),
{
    match value {
        ImageMediaType::Png => 0,
        ImageMediaType::Jpeg => 1,
        ImageMediaType::Gif => 2,
        ImageMediaType::Webp => 3,
        ImageMediaType::Tiff => 4,
    }
}

/// An image as a data URI.
pub open spec fn data_uri_text(image: ImageView) -> Seq<char> {
    "data:"@ + mime_text(image.media_type) + ";base64,"@ + base64_padded(image.bytes@)
}

/// The data URI of an image, which is at most as long as the largest charge.
pub open spec fn data_uri_verdict(image: ImageView) -> AdapterValidationResult<Seq<char>> {
    if byte_len(data_uri_text(image)) > MAX_LOGICAL_CHARGE {
        Err(AdapterValidationError::Limit)
    } else {
        Ok(data_uri_text(image))
    }
}

proof fn lemma_literal_lengths()
    ensures
        byte_len("data:"@) == 5,
        byte_len(";base64,"@) == 8,
        byte_len("image/png"@) == 9,
        byte_len("image/jpeg"@) == 10,
        byte_len("image/gif"@) == 9,
        byte_len("image/webp"@) == 10,
        byte_len("image/tiff"@) == 10,
{
    reveal_strlit("data:");
    reveal_strlit(";base64,");
    reveal_strlit("image/png");
    reveal_strlit("image/jpeg");
    reveal_strlit("image/gif");
    reveal_strlit("image/webp");
    reveal_strlit("image/tiff");
    is_ascii_chars_encode_utf8("data:"@);
    is_ascii_chars_encode_utf8(";base64,"@);
    is_ascii_chars_encode_utf8("image/png"@);
    is_ascii_chars_encode_utf8("image/jpeg"@);
    is_ascii_chars_encode_utf8("image/gif"@);
    is_ascii_chars_encode_utf8("image/webp"@);
    is_ascii_chars_encode_utf8("image/tiff"@);
}

/// The byte length of a data URI is that of its parts.
pub proof fn lemma_data_uri_length(image: ImageView)
    ensures
        byte_len(data_uri_text(image)) == 13 + byte_len(mime_text(image.media_type))
            + base64_padded_length(image.bytes@.len() as int),
        byte_len(mime_text(image.media_type)) <= 10,
{
    let mime = mime_text(image.media_type);
    lemma_literal_lengths();
    lemma_base64_bytes(image.bytes@);
    lemma_encode_concat("data:"@, mime);
    lemma_encode_concat("data:"@ + mime, ";base64,"@);
    lemma_encode_concat("data:"@ + mime + ";base64,"@, base64_padded(image.bytes@));
}

/// The byte length of the data URI of an image.
pub fn data_uri_length(image: &ImageView) -> (result: AdapterValidationResult<u64>)
    ensures
        match result {
            Ok(length) => length == byte_len(data_uri_text(*image)) && length <= MAX_LOGICAL_CHARGE,
            Err(error) => error == AdapterValidationError::Limit && byte_len(data_uri_text(*image))
                > MAX_LOGICAL_CHARGE,
        },
{
    proof {
        lemma_data_uri_length(*image);
    }
    let encoded: u64 = padded_length(image.bytes.len() as u64)?;
    let prefix: u64 = 13 + media_mime(&image.media_type).as_bytes().len() as u64;
    let total: u64 = match prefix.checked_add(encoded) {
        Some(total) => total,
        None => {
            return Err(AdapterValidationError::Limit);
        },
    };
    if total > MAX_LOGICAL_CHARGE {
        return Err(AdapterValidationError::Limit);
    }
    Ok(total)
}

/// The data URI of an image.
pub fn data_uri(image: &ImageView) -> (result: AdapterValidationResult<String>)
    ensures
        match result {
            Ok(uri) => data_uri_verdict(*image) == AdapterValidationResult::<Seq<char>>::Ok(uri@),
            Err(error) => data_uri_verdict(*image) == AdapterValidationResult::<Seq<char>>::Err(
                error,
            ),
        },
{
    let capacity: usize = data_uri_length(image)? as usize;
    proof {
        lemma_data_uri_length(*image);
    }
    let mut output = String::new();
    output.push_str("data:");
    output.push_str(media_mime(&image.media_type));
    output.push_str(";base64,");
    append_padded(image.bytes.as_slice(), &mut output);
    assert(output@ =~= data_uri_text(*image));
    if output.as_str().as_bytes().len() != capacity {
        return Err(AdapterValidationError::SourceMismatch);
    }
    Ok(output)
}

} // verus!
