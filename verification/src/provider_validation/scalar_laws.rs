//! Which texts are accepted, character by character.

use vstd::prelude::*;
use vstd::utf8::encode_utf8;

use crate::provider_validation::charge_laws::judges;
use crate::provider_validation::scalar::{
    digest_verdict, is_prefixed_hex, is_unsafe, label_verdict, safe_verdict, stamp_verdict,
    tracking_verdict, visible_ascii_verdict,
};
use crate::text::{bytes_before, differ_at, lemma_byte_order};

verus! {

/// A character of ordinary text: a tab, a line feed, or any other character that
/// neither controls a device nor turns the direction of text.
pub open spec fn is_ordinary(character: char) -> bool {
    let point = character as u32;
    ||| character == '\t'
    ||| character == '\n'
    ||| 0x20 <= point < 0x7f
    ||| 0xa0 <= point < 0x61c
    ||| 0x61c < point < 0x200e
    ||| 0x200f < point < 0x202a
    ||| 0x202e < point < 0x2066
    ||| 0x2069 < point
}

/// Text of ordinary characters.
pub open spec fn is_ordinary_text(text: Seq<char>) -> bool {
    forall|i: int| 0 <= i < text.len() ==> is_ordinary(#[trigger] text[i])
}

/// Nonempty ordinary text on one line.
pub open spec fn is_line(text: Seq<char>) -> bool {
    &&& text.len() > 0
    &&& is_ordinary_text(text)
    &&& !text.contains('\t')
    &&& !text.contains('\n')
}

/// A byte is a Latin letter or a decimal digit.
pub open spec fn is_letter_or_digit(byte: u8) -> bool {
    ||| 'a' as u8 <= byte <= 'z' as u8
    ||| 'A' as u8 <= byte <= 'Z' as u8
    ||| '0' as u8 <= byte <= '9' as u8
}

/// An identifier of a call: at most 128 letters, digits, points, underscores,
/// colons and hyphens, with a letter or digit at either end.
pub open spec fn is_call_id(text: Seq<char>) -> bool {
    let bytes = encode_utf8(text);
    &&& 0 < bytes.len() <= 128
    &&& is_letter_or_digit(bytes[0])
    &&& is_letter_or_digit(bytes[bytes.len() - 1])
    &&& forall|i: int|
        0 <= i < bytes.len() ==> {
            ||| is_letter_or_digit(#[trigger] bytes[i])
            ||| bytes[i] == '.' as u8
            ||| bytes[i] == '_' as u8
            ||| bytes[i] == ':' as u8
            ||| bytes[i] == '-' as u8
        }
}

/// A text that begins with `prefix` and goes on with `count` hexadecimal digits
/// without capitals.
pub open spec fn is_marked_hex(text: Seq<char>, prefix: Seq<char>, count: int) -> bool {
    let bytes = encode_utf8(text);
    let start = encode_utf8(prefix).len() as int;
    &&& bytes.len() == start + count
    &&& bytes.take(start) == encode_utf8(prefix)
    &&& forall|i: int|
        start <= i < bytes.len() ==> {
            ||| '0' as u8 <= #[trigger] bytes[i] <= '9' as u8
            ||| 'a' as u8 <= bytes[i] <= 'f' as u8
        }
}

/// A character is unsafe exactly when it is not ordinary.
pub proof fn lemma_ordinary(character: char)
    ensures
        is_ordinary(character) == !is_unsafe(character),
{
}

/// Text is accepted exactly when its characters are ordinary, so also with tabs
/// and line feeds, it has one where it must, and its bytes are within the bound.
pub proof fn lemma_safe_text(text: Seq<char>, maximum: int, nonempty: bool)
    ensures
        judges(
            safe_verdict(text, maximum, nonempty),
            is_ordinary_text(text) && (nonempty ==> text.len() > 0),
            encode_utf8(text).len() <= maximum,
        ),
{
    assert forall|i: int| 0 <= i < text.len() implies is_ordinary(#[trigger] text[i]) == !is_unsafe(
        text[i],
    ) by {
        lemma_ordinary(text[i]);
    }
}

/// A label is accepted exactly when it is one line within its bound.
pub proof fn lemma_label(text: Seq<char>, maximum: int)
    ensures
        judges(label_verdict(text, maximum), is_line(text), encode_utf8(text).len() <= maximum),
{
    lemma_safe_text(text, maximum, true);
    assert(is_line(text) ==> forall|i: int|
        0 <= i < text.len() ==> #[trigger] text[i] != '\t' && text[i] != '\n');
}

/// An identifier of a call is accepted exactly when it has its form.
pub proof fn lemma_call_id(text: Seq<char>)
    ensures
        judges(tracking_verdict(text), is_call_id(text), true),
{
}

/// A stamp is accepted exactly when it is its prefix and 32 digits.
pub proof fn lemma_stamp(text: Seq<char>, prefix: Seq<char>)
    ensures
        judges(stamp_verdict(text, prefix), is_marked_hex(text, prefix, 32), true),
{
    lemma_marked_hex(text, prefix, 32);
}

/// A digest is accepted exactly when it is `sha256:` and 64 digits.
pub proof fn lemma_digest(text: Seq<char>)
    ensures
        judges(digest_verdict(text), is_marked_hex(text, "sha256:"@, 64), true),
{
    lemma_marked_hex(text, "sha256:"@, 64);
}

proof fn lemma_marked_hex(text: Seq<char>, prefix: Seq<char>, count: int)
    requires
        count >= 0,
    ensures
        is_prefixed_hex(
            encode_utf8(text),
            encode_utf8(prefix),
            count,
        ) == is_marked_hex(text, prefix, count),
{
    let bytes = encode_utf8(text);
    let start = encode_utf8(prefix);
    if bytes.len() == start.len() + count {
        assert(start.is_prefix_of(bytes) == (bytes.take(start.len() as int) == start)) by {
            assert(bytes.take(start.len() as int) =~= bytes.subrange(0, start.len() as int));
        }
    }
}

/// Visible text is accepted exactly when it is not empty, every byte is a visible
/// ASCII character, and there are not too many.
pub proof fn lemma_visible_ascii(text: Seq<char>, maximum: int)
    ensures
        judges(
            visible_ascii_verdict(text, maximum),
            text.len() > 0 && forall|i: int|
                0 <= i < encode_utf8(text).len() ==> '!' as u8 <= #[trigger] encode_utf8(text)[i]
                    <= '~' as u8,
            encode_utf8(text).len() <= maximum,
        ),
{
}

/// Bytes are ordered by the first one that differs, and a beginning comes before
/// what it begins.
pub proof fn lemma_byte_order_is_lexicographic(
    start: Seq<u8>,
    left: u8,
    right: u8,
    left_rest: Seq<u8>,
    right_rest: Seq<u8>,
)
    ensures
        bytes_before(start, start + seq![right] + right_rest),
        !bytes_before(start + seq![right] + right_rest, start),
        left < right ==> bytes_before(
            start + seq![left] + left_rest,
            start + seq![right] + right_rest,
        ) && !bytes_before(start + seq![right] + right_rest, start + seq![left] + left_rest),
{
    let k = start.len() as int;
    let longer = start + seq![right] + right_rest;
    let other = start + seq![left] + left_rest;
    assert(differ_at(start, longer, k));
    lemma_byte_order(start, longer, start);
    if left < right {
        assert(differ_at(other, longer, k));
        lemma_byte_order(other, longer, other);
    }
}

} // verus!
