//! Scalar and bounded text validation.

use vstd::prelude::*;
use vstd::utf8::encode_utf8;

use crate::provider_api::IdText;
use crate::provider_validation::{verdict, ValidationError, ValidationResult};
use crate::text::{byte_len, starts_with};

verus! {

/// Largest logical charge of one DTO: eight mebibytes.
pub const MAX_LOGICAL_CHARGE: u64 = 8_388_608;

/// Largest ordinary text: 64 kibibytes.
pub const MAX_SAFE_TEXT_BYTES: usize = 65_536;

/// Largest tracking identifier.
pub const MAX_TRACKING_BYTES: usize = 128;

/// The verdict on an identifier: that of its parser.
pub open spec fn identifier_verdict(value: IdText) -> ValidationResult {
    verdict(value.canonical, ValidationError::InvalidArgument)
}

/// Refuses a provider identifier that its parser refused.
pub fn provider_id(value: &IdText) -> (result: ValidationResult)
    ensures
        result == identifier_verdict(*value),
{
    if value.canonical {
        Ok(())
    } else {
        Err(ValidationError::InvalidArgument)
    }
}

/// Refuses a route identifier that its parser refused.
pub fn route_id(value: &IdText) -> (result: ValidationResult)
    ensures
        result == identifier_verdict(*value),
{
    if value.canonical {
        Ok(())
    } else {
        Err(ValidationError::InvalidArgument)
    }
}

/// Refuses a model identifier that its parser refused.
pub fn model_id(value: &IdText) -> (result: ValidationResult)
    ensures
        result == identifier_verdict(*value),
{
    if value.canonical {
        Ok(())
    } else {
        Err(ValidationError::InvalidArgument)
    }
}

/// Refuses a model alias that its parser refused.
pub fn model_alias(value: &IdText) -> (result: ValidationResult)
    ensures
        result == identifier_verdict(*value),
{
    if value.canonical {
        Ok(())
    } else {
        Err(ValidationError::InvalidArgument)
    }
}

/// Refuses an operation identifier that its parser refused.
pub fn operation_id(value: &IdText) -> (result: ValidationResult)
    ensures
        result == identifier_verdict(*value),
{
    if value.canonical {
        Ok(())
    } else {
        Err(ValidationError::InvalidArgument)
    }
}

/// Refuses a request identifier that its parser refused.
pub fn request_id(value: &IdText) -> (result: ValidationResult)
    ensures
        result == identifier_verdict(*value),
{
    if value.canonical {
        Ok(())
    } else {
        Err(ValidationError::InvalidArgument)
    }
}

/// Refuses a turn identifier that its parser refused.
pub fn turn_id(value: &IdText) -> (result: ValidationResult)
    ensures
        result == identifier_verdict(*value),
{
    if value.canonical {
        Ok(())
    } else {
        Err(ValidationError::InvalidArgument)
    }
}

/// An ASCII letter or digit.
pub open spec fn is_alphanumeric(byte: u8) -> bool {
    (48 <= byte <= 57) || (65 <= byte <= 90) || (97 <= byte <= 122)
}

/// A byte of a tracking identifier: a letter, a digit, `.`, `_`, `:` or `-`.
pub open spec fn is_tracking_byte(byte: u8) -> bool {
    is_alphanumeric(byte) || byte == 46 || byte == 95 || byte == 58 || byte == 45
}

/// One to 128 tracking bytes that begin and end with a letter or digit.
pub open spec fn is_tracking_id(bytes: Seq<u8>) -> bool {
    &&& 1 <= bytes.len() <= MAX_TRACKING_BYTES
    &&& is_alphanumeric(bytes.first())
    &&& is_alphanumeric(bytes.last())
    &&& forall|i: int| 0 <= i < bytes.len() ==> is_tracking_byte(#[trigger] bytes[i])
}

/// The verdict on a tracking identifier.
pub open spec fn tracking_verdict(value: Seq<char>) -> ValidationResult {
    verdict(is_tracking_id(encode_utf8(value)), ValidationError::InvalidArgument)
}

/// Whether a byte is an ASCII letter or digit.
pub fn alphanumeric(byte: u8) -> (found: bool)
    ensures
        found == is_alphanumeric(byte),
{
    (byte >= 48 && byte <= 57) || (byte >= 65 && byte <= 90) || (byte >= 97 && byte <= 122)
}

/// Checks the grammar of a tracking identifier.
pub fn tracking_id(value: &str) -> (result: ValidationResult)
    ensures
        result == tracking_verdict(value@),
{
    let bytes = value.as_bytes();
    if bytes.len() < 1 || bytes.len() > MAX_TRACKING_BYTES {
        return Err(ValidationError::InvalidArgument);
    }
    if !alphanumeric(bytes[0]) || !alphanumeric(bytes[bytes.len() - 1]) {
        return Err(ValidationError::InvalidArgument);
    }
    let mut i: usize = 0;
    while i < bytes.len()
        invariant
            i <= bytes.len(),
            bytes@ == encode_utf8(value@),
            forall|j: int| 0 <= j < i ==> is_tracking_byte(#[trigger] bytes@[j]),
        decreases bytes.len() - i,
    {
        let byte: u8 = bytes[i];
        if !alphanumeric(byte) && byte != 46 && byte != 95 && byte != 58 && byte != 45 {
            assert(!is_tracking_byte(bytes@[i as int]));
            return Err(ValidationError::InvalidArgument);
        }
        i += 1;
    }
    Ok(())
}

/// A lowercase hexadecimal digit.
pub open spec fn is_lower_hex(byte: u8) -> bool {
    (48 <= byte <= 57) || (97 <= byte <= 102)
}

/// `prefix` followed by exactly `count` lowercase hexadecimal digits.
pub open spec fn is_prefixed_hex(bytes: Seq<u8>, prefix: Seq<u8>, count: int) -> bool {
    &&& prefix.is_prefix_of(bytes)
    &&& bytes.len() == prefix.len() + count
    &&& forall|i: int| prefix.len() <= i < bytes.len() ==> is_lower_hex(#[trigger] bytes[i])
}

/// Whether `bytes` is `prefix` followed by exactly `count` lowercase
/// hexadecimal digits.
pub fn prefixed_hex(bytes: &[u8], prefix: &[u8], count: usize) -> (found: bool)
    ensures
        found == is_prefixed_hex(bytes@, prefix@, count as int),
{
    if !starts_with(bytes, prefix) {
        return false;
    }
    if bytes.len() - prefix.len() != count {
        return false;
    }
    let mut i: usize = prefix.len();
    while i < bytes.len()
        invariant
            prefix@.len() <= i <= bytes.len(),
            forall|j: int| prefix@.len() <= j < i ==> is_lower_hex(#[trigger] bytes@[j]),
        decreases bytes.len() - i,
    {
        let byte: u8 = bytes[i];
        if !((byte >= 48 && byte <= 57) || (byte >= 97 && byte <= 102)) {
            assert(!is_lower_hex(bytes@[i as int]));
            return false;
        }
        i += 1;
    }
    true
}

/// A digest: `sha256:` and 64 lowercase hexadecimal digits.
pub open spec fn is_digest(value: Seq<char>) -> bool {
    is_prefixed_hex(encode_utf8(value), encode_utf8("sha256:"@), 64)
}

/// The verdict on a digest.
pub open spec fn digest_verdict(value: Seq<char>) -> ValidationResult {
    verdict(is_digest(value), ValidationError::InvalidArgument)
}

/// Checks the text form of a SHA-256 digest.
pub fn digest(value: &str) -> (result: ValidationResult)
    ensures
        result == digest_verdict(value@),
{
    if prefixed_hex(value.as_bytes(), "sha256:".as_bytes(), 64) {
        Ok(())
    } else {
        Err(ValidationError::InvalidArgument)
    }
}

/// The verdict on visible ASCII text of at most `maximum` bytes.
pub open spec fn visible_ascii_verdict(value: Seq<char>, maximum: int) -> ValidationResult {
    if byte_len(value) > maximum {
        Err(ValidationError::Limit)
    } else {
        verdict(
            value.len() > 0 && forall|i: int|
                0 <= i < encode_utf8(value).len() ==> 33 <= #[trigger] encode_utf8(value)[i] <= 126,
            ValidationError::InvalidArgument,
        )
    }
}

/// Checks for nonempty text of visible ASCII characters.
#[verifier::loop_isolation(false)]
pub fn visible_ascii(value: &str, maximum: usize) -> (result: ValidationResult)
    ensures
        result == visible_ascii_verdict(value@, maximum as int),
{
    let bytes = value.as_bytes();
    if bytes.len() > maximum {
        return Err(ValidationError::Limit);
    }
    if value.is_empty() {
        return Err(ValidationError::InvalidArgument);
    }
    let mut i: usize = 0;
    while i < bytes.len()
        invariant
            i <= bytes.len(),
            bytes@ == encode_utf8(value@),
            forall|j: int| 0 <= j < i ==> 33 <= #[trigger] encode_utf8(value@)[j] <= 126,
        decreases bytes.len() - i,
    {
        let byte: u8 = bytes[i];
        if byte < 33 || byte > 126 {
            assert(!(33 <= encode_utf8(value@)[i as int] <= 126));
            return Err(ValidationError::InvalidArgument);
        }
        i += 1;
    }
    Ok(())
}

/// A control character other than tab and line feed, or a bidirectional
/// formatting character.
pub open spec fn is_unsafe(character: char) -> bool {
    let value = character as u32;
    ||| value <= 0x08
    ||| 0x0b <= value <= 0x1f
    ||| 0x7f <= value <= 0x9f
    ||| value == 0x061c
    ||| value == 0x200e
    ||| value == 0x200f
    ||| 0x202a <= value <= 0x202e
    ||| 0x2066 <= value <= 0x2069
}

/// No character of the text is unsafe.
pub open spec fn is_safe_text(value: Seq<char>) -> bool {
    forall|i: int| 0 <= i < value.len() ==> !is_unsafe(#[trigger] value[i])
}

/// The verdict on safe text of at most `maximum` bytes.
pub open spec fn safe_verdict(value: Seq<char>, maximum: int, nonempty: bool) -> ValidationResult {
    if byte_len(value) > maximum {
        Err(ValidationError::Limit)
    } else {
        verdict(
            (nonempty ==> value.len() > 0) && is_safe_text(value),
            ValidationError::InvalidArgument,
        )
    }
}

/// Checks for text of safe characters.
#[verifier::loop_isolation(false)]
pub fn safe(value: &str, maximum: usize, nonempty: bool) -> (result: ValidationResult)
    ensures
        result == safe_verdict(value@, maximum as int, nonempty),
{
    if value.as_bytes().len() > maximum {
        return Err(ValidationError::Limit);
    }
    if nonempty && value.is_empty() {
        return Err(ValidationError::InvalidArgument);
    }
    for character in iter: value.chars()
        invariant
            iter.seq() == value@,
            forall|j: int| 0 <= j < iter.index() ==> !is_unsafe(#[trigger] value@[j]),
    {
        if is_unsafe_char(character) {
            assert(is_unsafe(value@[iter.index() as int]));
            return Err(ValidationError::InvalidArgument);
        }
    }
    Ok(())
}

/// The text holds no tab and no line feed.
pub open spec fn is_single_line(value: Seq<char>) -> bool {
    forall|i: int| 0 <= i < value.len() ==> #[trigger] value[i] != '\t' && value[i] != '\n'
}

/// The verdict on a one-line label of at most `maximum` bytes.
pub open spec fn label_verdict(value: Seq<char>, maximum: int) -> ValidationResult {
    crate::provider_validation::also(
        safe_verdict(value, maximum, true),
        verdict(is_single_line(value), ValidationError::InvalidArgument),
    )
}

/// Checks for nonempty safe text without tabs and line feeds.
#[verifier::loop_isolation(false)]
pub fn label(value: &str, maximum: usize) -> (result: ValidationResult)
    ensures
        result == label_verdict(value@, maximum as int),
{
    safe(value, maximum, true)?;
    for character in iter: value.chars()
        invariant
            iter.seq() == value@,
            forall|j: int|
                0 <= j < iter.index() ==> #[trigger] value@[j] != '\t' && value@[j] != '\n',
    {
        if character == '\t' || character == '\n' {
            assert(value@[iter.index() as int] == character);
            return Err(ValidationError::InvalidArgument);
        }
    }
    Ok(())
}

/// The verdict on a stamp: `prefix` and 32 lowercase hexadecimal digits.
pub open spec fn stamp_verdict(value: Seq<char>, prefix: Seq<char>) -> ValidationResult {
    verdict(
        is_prefixed_hex(encode_utf8(value), encode_utf8(prefix), 32),
        ValidationError::InvalidArgument,
    )
}

/// Checks the form of a stamp.
pub fn stamp(value: &str, prefix: &str) -> (result: ValidationResult)
    ensures
        result == stamp_verdict(value@, prefix@),
{
    if prefixed_hex(value.as_bytes(), prefix.as_bytes(), 32) {
        Ok(())
    } else {
        Err(ValidationError::InvalidArgument)
    }
}

/// Whether a character is a refused control or formatting character.
pub fn is_unsafe_char(character: char) -> (found: bool)
    ensures
        found == is_unsafe(character),
{
    let value: u32 = character as u32;
    value <= 0x08 || (value >= 0x0b && value <= 0x1f) || (value >= 0x7f && value <= 0x9f) || value
        == 0x061c || value == 0x200e || value == 0x200f || (value >= 0x202a && value <= 0x202e) || (
    value >= 0x2066 && value <= 0x2069)
}

} // verus!
