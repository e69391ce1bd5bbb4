//! The text of a Mistral tool result: joined, trimmed, marked and measured
//! before it is built.

use vstd::prelude::*;
use vstd::utf8::{encode_scalar, encode_utf8, is_ascii_chars, is_ascii_chars_encode_utf8};

use crate::provider_validation::adapter::json::checked_add;
use crate::provider_validation::adapter::types::{
    demand, AdapterValidationError, AdapterValidationResult,
};
use crate::provider_validation::prepare::texts_of;
use crate::provider_validation::scalar::MAX_LOGICAL_CHARGE;
use crate::provider_validation::wire_json::{escaped, string_json};
use crate::text::{byte_len, lemma_encode_concat, lemma_encode_one, lemma_encode_scalar};

verus! {

// ---------------------------------------------------------------------------
// Widths
// ---------------------------------------------------------------------------

/// The number of UTF-8 bytes of a character.
pub open spec fn width(character: char) -> nat {
    encode_scalar(character as u32).len()
}

/// The number of UTF-8 bytes of a character.
pub fn char_width(character: char) -> (bytes: u64)
    ensures
        bytes == width(character),
        1 <= bytes <= 4,
{
    proof {
        vstd::utf8::char_is_scalar(character);
    }
    let code = character as u32;
    if code <= 0x7f {
        1
    } else if code <= 0x7ff {
        2
    } else if code <= 0xffff {
        3
    } else {
        4
    }
}

proof fn lemma_byte_len_push(text: Seq<char>, character: char)
    ensures
        byte_len(text.push(character)) == byte_len(text) + width(character),
        encode_utf8(text.push(character)) == encode_utf8(text) + encode_scalar(character as u32),
        width(character) >= 1,
{
    lemma_encode_concat(text, seq![character]);
    lemma_encode_one(character);
    lemma_encode_scalar(character);
    assert(text.push(character) =~= text + seq![character]);
}

proof fn lemma_byte_len_front(text: Seq<char>)
    requires
        text.len() > 0,
    ensures
        byte_len(text) == width(text[0]) + byte_len(text.drop_first()),
        width(text[0]) >= 1,
{
    lemma_encode_concat(seq![text[0]], text.drop_first());
    lemma_encode_one(text[0]);
    lemma_encode_scalar(text[0]);
    assert(text =~= seq![text[0]] + text.drop_first());
}

// ---------------------------------------------------------------------------
// Joining and trimming
// ---------------------------------------------------------------------------

/// The first `n` texts, joined by line feeds.
pub open spec fn joined_to(texts: Seq<Seq<char>>, n: int) -> Seq<char>
    decreases n,
{
    if n <= 0 {
        Seq::empty()
    } else if n == 1 {
        texts[0]
    } else {
        joined_to(texts, n - 1) + seq!['\n'] + texts[n - 1]
    }
}

/// The texts, joined by line feeds.
pub open spec fn joined_text(texts: Seq<Seq<char>>) -> Seq<char> {
    joined_to(texts, texts.len() as int)
}

/// Whether a character is trimmed.
pub open spec fn is_trimmed(value: char) -> bool {
    ||| value == '\u{0009}'
    ||| value == '\u{000a}'
    ||| value == '\u{0020}'
    ||| value == '\u{00a0}'
    ||| value == '\u{1680}'
    ||| '\u{2000}' <= value <= '\u{200a}'
    ||| value == '\u{2028}'
    ||| value == '\u{2029}'
    ||| value == '\u{202f}'
    ||| value == '\u{205f}'
    ||| value == '\u{3000}'
    ||| value == '\u{feff}'
}

/// Whether a character is trimmed.
pub fn is_mistral_trim(value: char) -> (found: bool)
    ensures
        found == is_trimmed(value),
{
    value == '\u{0009}' || value == '\u{000a}' || value == '\u{0020}' || value == '\u{00a0}'
        || value == '\u{1680}' || ('\u{2000}' <= value && value <= '\u{200a}') || value
        == '\u{2028}' || value == '\u{2029}' || value == '\u{202f}' || value == '\u{205f}' || value
        == '\u{3000}' || value == '\u{feff}'
}

/// The number of trimmed characters at the start of a text.
pub open spec fn leading_count(text: Seq<char>) -> nat
    decreases text.len(),
{
    if text.len() == 0 || !is_trimmed(text[0]) {
        0
    } else {
        1 + leading_count(text.drop_first())
    }
}

/// The number of trimmed characters at the end of a text.
pub open spec fn trailing_count(text: Seq<char>) -> nat
    decreases text.len(),
{
    if text.len() == 0 || !is_trimmed(text.last()) {
        0
    } else {
        1 + trailing_count(text.drop_last())
    }
}

/// A text without the trimmed characters at its start and its end.
pub open spec fn trimmed(text: Seq<char>) -> Seq<char> {
    if leading_count(text) == text.len() {
        Seq::empty()
    } else {
        text.subrange(leading_count(text) as int, text.len() - trailing_count(text))
    }
}

/// How many characters are trimmed at the start of a text.
pub proof fn lemma_leading_count(text: Seq<char>)
    ensures
        leading_count(text) <= text.len(),
        forall|i: int| 0 <= i < leading_count(text) ==> is_trimmed(#[trigger] text[i]),
        leading_count(text) < text.len() ==> !is_trimmed(text[leading_count(text) as int]),
    decreases text.len(),
{
    if text.len() > 0 && is_trimmed(text[0]) {
        let rest = text.drop_first();
        lemma_leading_count(rest);
        assert forall|i: int| 0 <= i < leading_count(text) implies is_trimmed(#[trigger] text[i]) by {
            if i > 0 {
                assert(rest[i - 1] == text[i]);
            }
        }
    }
}

proof fn lemma_leading_push(text: Seq<char>, character: char)
    ensures
        leading_count(text.push(character)) == if leading_count(text) == text.len() && is_trimmed(
            character,
        ) {
            text.len() + 1
        } else {
            leading_count(text)
        },
{
    let longer = text.push(character);
    lemma_leading_count(text);
    lemma_leading_count(longer);
    let before = leading_count(text) as int;
    let after = leading_count(longer) as int;
    if before < text.len() {
        assert(longer[before] == text[before]);
    } else {
        assert(longer[before] == character);
    }
    if after < before {
        assert(text[after] == longer[after]);
    } else if before < after {
        assert(is_trimmed(longer[before]));
    }
}

/// How many characters are trimmed at the end of a text.
pub proof fn lemma_trailing_count(text: Seq<char>)
    ensures
        trailing_count(text) <= text.len(),
        forall|i: int|
            text.len() - trailing_count(text) <= i < text.len() ==> is_trimmed(#[trigger] text[i]),
        trailing_count(text) < text.len() ==> !is_trimmed(text[text.len() - trailing_count(text) - 1]),
    decreases text.len(),
{
    if text.len() > 0 && is_trimmed(text.last()) {
        lemma_trailing_count(text.drop_last());
        assert forall|i: int| text.len() - trailing_count(text) <= i < text.len() implies is_trimmed(
            #[trigger] text[i],
        ) by {
            if i < text.len() - 1 {
                assert(text.drop_last()[i] == text[i]);
            }
        }
    }
}

/// A text that is not all trimmed keeps its first and last remaining
/// characters, and both are not trimmed.
pub proof fn lemma_trimmed(text: Seq<char>)
    ensures
        leading_count(text) <= text.len(),
        leading_count(text) == text.len() ==> forall|i: int|
            0 <= i < text.len() ==> is_trimmed(#[trigger] text[i]),
        leading_count(text) < text.len() ==> {
            &&& leading_count(text) < text.len() - trailing_count(text)
            &&& trimmed(text).len() > 0
            &&& !is_trimmed(trimmed(text)[0])
            &&& !is_trimmed(trimmed(text).last())
        },
{
    lemma_leading_count(text);
    lemma_trailing_count(text);
    let lead = leading_count(text) as int;
    if lead < text.len() {
        if text.len() - trailing_count(text) <= lead {
            assert(is_trimmed(text[lead]));
        }
        assert(trailing_count(text) < text.len());
    }
}

// ---------------------------------------------------------------------------
// The text
// ---------------------------------------------------------------------------

/// What stands before the text of a failed tool.
pub open spec fn error_prefix(is_error: bool) -> Seq<char> {
    if is_error {
        "[tool error] "@
    } else {
        ""@
    }
}

/// What stands in for an empty text.
pub open spec fn placeholder_text(has_images: bool) -> Seq<char> {
    if has_images {
        "(see attached image)"@
    } else {
        "(no tool output)"@
    }
}

/// The text of a tool result: its texts joined and trimmed, or a placeholder
/// where nothing is left, after a mark where the tool failed.
pub open spec fn result_text(texts: Seq<Seq<char>>, has_images: bool, is_error: bool) -> Seq<char> {
    let body = trimmed(joined_text(texts));
    error_prefix(is_error) + if body.len() == 0 {
        placeholder_text(has_images)
    } else {
        body
    }
}

/// The text of a tool result, which is built from and itself at most as long
/// as the largest charge.
pub open spec fn result_text_verdict(
    texts: Seq<Seq<char>>,
    has_images: bool,
    is_error: bool,
) -> AdapterValidationResult<Seq<char>> {
    let text = result_text(texts, has_images, is_error);
    if byte_len(joined_text(texts)) > MAX_LOGICAL_CHARGE || byte_len(text) > MAX_LOGICAL_CHARGE {
        Err(AdapterValidationError::Limit)
    } else {
        Ok(text)
    }
}

// ---------------------------------------------------------------------------
// Ranges
// ---------------------------------------------------------------------------

/// The characters of a text at byte `offset` that begin within a byte range.
pub open spec fn chars_between(text: Seq<char>, offset: int, start: int, end: int) -> Seq<char>
    decreases text.len(),
{
    if text.len() == 0 {
        Seq::empty()
    } else {
        let last = offset + byte_len(text.drop_last());
        let before = chars_between(text.drop_last(), offset, start, end);
        if start <= last < end {
            before.push(text.last())
        } else {
            before
        }
    }
}

proof fn lemma_chars_between_push(text: Seq<char>, character: char, offset: int, start: int, end: int)
    ensures
        chars_between(text.push(character), offset, start, end) == if start <= offset + byte_len(text)
            < end {
            chars_between(text, offset, start, end).push(character)
        } else {
            chars_between(text, offset, start, end)
        },
{
    assert(text.push(character).drop_last() =~= text);
}

proof fn lemma_chars_between_concat(
    left: Seq<char>,
    right: Seq<char>,
    offset: int,
    start: int,
    end: int,
)
    ensures
        chars_between(left + right, offset, start, end) == chars_between(left, offset, start, end)
            + chars_between(right, offset + byte_len(left), start, end),
    decreases right.len(),
{
    if right.len() == 0 {
        assert(left + right =~= left);
        assert(chars_between(left, offset, start, end) + chars_between(
            right,
            offset + byte_len(left),
            start,
            end,
        ) =~= chars_between(left, offset, start, end));
    } else {
        lemma_chars_between_concat(left, right.drop_last(), offset, start, end);
        lemma_encode_concat(left, right.drop_last());
        assert((left + right).drop_last() =~= left + right.drop_last());
        assert(chars_between(left + right, offset, start, end) =~= chars_between(
            left,
            offset,
            start,
            end,
        ) + chars_between(right, offset + byte_len(left), start, end));
    }
}

proof fn lemma_chars_outside(text: Seq<char>, offset: int, start: int, end: int)
    requires
        offset + byte_len(text) <= start || end <= offset,
    ensures
        chars_between(text, offset, start, end) == Seq::<char>::empty(),
    decreases text.len(),
{
    if text.len() > 0 {
        lemma_byte_len_push(text.drop_last(), text.last());
        assert(text.drop_last().push(text.last()) =~= text);
        lemma_chars_outside(text.drop_last(), offset, start, end);
    }
}

proof fn lemma_chars_inside(text: Seq<char>, offset: int, start: int, end: int)
    requires
        start <= offset,
        offset + byte_len(text) <= end,
    ensures
        chars_between(text, offset, start, end) == text,
    decreases text.len(),
{
    if text.len() > 0 {
        lemma_byte_len_push(text.drop_last(), text.last());
        assert(text.drop_last().push(text.last()) =~= text);
        lemma_chars_inside(text.drop_last(), offset, start, end);
    }
}

proof fn lemma_chars_subrange(text: Seq<char>, from: int, to: int)
    requires
        0 <= from <= to <= text.len(),
    ensures
        chars_between(text, 0, byte_len(text.take(from)) as int, byte_len(text.take(to)) as int)
            == text.subrange(from, to),
        byte_len(text.take(to)) == byte_len(text.take(from)) + byte_len(text.subrange(from, to)),
        byte_len(text) == byte_len(text.take(to)) + byte_len(text.skip(to)),
        encode_utf8(text).subrange(
            byte_len(text.take(from)) as int,
            byte_len(text.take(to)) as int,
        ) == encode_utf8(text.subrange(from, to)),
{
    let head = text.take(from);
    let middle = text.subrange(from, to);
    let tail = text.skip(to);
    let start = byte_len(text.take(from)) as int;
    let end = byte_len(text.take(to)) as int;
    assert(text.take(to) =~= head + middle);
    assert(text =~= (head + middle) + tail);
    lemma_encode_concat(head, middle);
    lemma_encode_concat(head + middle, tail);
    lemma_chars_between_concat(head + middle, tail, 0, start, end);
    lemma_chars_between_concat(head, middle, 0, start, end);
    lemma_chars_outside(head, 0, start, end);
    lemma_chars_inside(middle, start, start, end);
    lemma_chars_outside(tail, end, start, end);
    assert(chars_between(text, 0, start, end) =~= middle);
    assert(encode_utf8(text).subrange(start, end) =~= encode_utf8(middle));
}

/// Whether a byte is escaped in a JSON string.
pub open spec fn is_escaped(byte: u8) -> bool {
    byte == 34 || byte == 92 || byte == 9 || byte == 10
}

/// The number of bytes of a text at byte `offset` that lie within a byte range
/// and are escaped in a JSON string.
pub open spec fn escapes_between(bytes: Seq<u8>, offset: int, start: int, end: int) -> nat
    decreases bytes.len(),
{
    if bytes.len() == 0 {
        0
    } else {
        escapes_between(bytes.drop_last(), offset, start, end) + if start <= offset + bytes.len()
            - 1 < end && is_escaped(bytes.last()) {
            1nat
        } else {
            0
        }
    }
}

proof fn lemma_escapes_between_concat(
    left: Seq<u8>,
    right: Seq<u8>,
    offset: int,
    start: int,
    end: int,
)
    ensures
        escapes_between(left + right, offset, start, end) == escapes_between(
            left,
            offset,
            start,
            end,
        ) + escapes_between(right, offset + left.len(), start, end),
    decreases right.len(),
{
    if right.len() == 0 {
        assert(left + right =~= left);
    } else {
        lemma_escapes_between_concat(left, right.drop_last(), offset, start, end);
        assert((left + right).drop_last() =~= left + right.drop_last());
    }
}

proof fn lemma_escapes_outside(bytes: Seq<u8>, offset: int, start: int, end: int)
    requires
        offset + bytes.len() <= start || end <= offset,
    ensures
        escapes_between(bytes, offset, start, end) == 0,
    decreases bytes.len(),
{
    if bytes.len() > 0 {
        lemma_escapes_outside(bytes.drop_last(), offset, start, end);
    }
}

proof fn lemma_escapes_inside(bytes: Seq<u8>, offset: int, start: int, end: int)
    requires
        start <= offset,
        offset + bytes.len() <= end,
    ensures
        escaped(bytes).len() == bytes.len() + escapes_between(bytes, offset, start, end),
    decreases bytes.len(),
{
    if bytes.len() > 0 {
        lemma_escapes_inside(bytes.drop_last(), offset, start, end);
    }
}

proof fn lemma_escapes_bound(bytes: Seq<u8>, offset: int, start: int, end: int)
    ensures
        escapes_between(bytes, offset, start, end) <= bytes.len(),
    decreases bytes.len(),
{
    if bytes.len() > 0 {
        lemma_escapes_bound(bytes.drop_last(), offset, start, end);
    }
}

proof fn lemma_escapes_subrange(bytes: Seq<u8>, start: int, end: int)
    requires
        0 <= start <= end <= bytes.len(),
    ensures
        escaped(bytes.subrange(start, end)).len() == (end - start) + escapes_between(
            bytes,
            0,
            start,
            end,
        ),
{
    let head = bytes.take(start);
    let middle = bytes.subrange(start, end);
    let tail = bytes.skip(end);
    assert(bytes =~= (head + middle) + tail);
    lemma_escapes_between_concat(head + middle, tail, 0, start, end);
    lemma_escapes_between_concat(head, middle, 0, start, end);
    lemma_escapes_outside(head, 0, start, end);
    lemma_escapes_outside(tail, end, start, end);
    lemma_escapes_inside(middle, start, start, end);
}

// ---------------------------------------------------------------------------
// Measuring
// ---------------------------------------------------------------------------

/// One more joined text.
pub proof fn lemma_joined_step(texts: Seq<Seq<char>>, i: int)
    requires
        0 <= i < texts.len(),
    ensures
        i == 0 ==> joined_to(texts, 1) == texts[0],
        i > 0 ==> joined_to(texts, i + 1) == joined_to(texts, i).push('\n') + texts[i],
        byte_len(joined_to(texts, i + 1)) == byte_len(joined_to(texts, i)) + byte_len(texts[i]) + (
        if i > 0 {
            1int
        } else {
            0
        }),
{
    if i > 0 {
        assert(joined_to(texts, i).push('\n') =~= joined_to(texts, i) + seq!['\n']);
        lemma_line_feed();
        lemma_encode_concat(joined_to(texts, i), seq!['\n']);
        lemma_encode_concat(joined_to(texts, i) + seq!['\n'], texts[i]);
    } else {
        assert(byte_len(Seq::<char>::empty()) == 0);
    }
}

/// A joined text is at least as long as what it begins with.
pub proof fn lemma_joined_grows(texts: Seq<Seq<char>>, i: int)
    requires
        0 <= i <= texts.len(),
    ensures
        byte_len(joined_to(texts, i)) <= byte_len(joined_text(texts)),
    decreases texts.len() - i,
{
    if i < texts.len() {
        lemma_joined_step(texts, i);
        lemma_joined_grows(texts, i + 1);
    }
}

proof fn lemma_prefix_is_shorter(text: Seq<char>, n: int)
    requires
        0 <= n <= text.len(),
    ensures
        byte_len(text.take(n)) <= byte_len(text),
{
    lemma_encode_concat(text.take(n), text.skip(n));
    assert(text =~= text.take(n) + text.skip(n));
}

/// What a plan has measured of a text: its length, its leading and its
/// trailing trimmed bytes, and whether it is all trimmed.
spec fn measured(
    text: Seq<char>,
    total: u64,
    leading: u64,
    leading_open: bool,
    trailing: u64,
) -> bool {
    &&& total == byte_len(text)
    &&& leading == byte_len(text.take(leading_count(text) as int))
    &&& leading_open == (leading_count(text) == text.len())
    &&& trailing == byte_len(text.skip(text.len() - trailing_count(text)))
}

/// Accounts for one more character of a text and its leading trimmed part.
pub fn account_trim_char(
    character: char,
    total: &mut u64,
    leading: &mut u64,
    leading_open: &mut bool,
) -> (result: AdapterValidationResult<()>)
    requires
        *old(leading) <= *old(total),
    ensures
        match result {
            Ok(_) => {
                let trims = *old(leading_open) && is_trimmed(character);
                &&& *final(total) == *old(total) + width(character)
                &&& *final(leading) == *old(leading) + (if trims {
                    width(character)
                } else {
                    0
                })
                &&& *final(leading_open) == trims
            },
            Err(error) => error == AdapterValidationError::Limit && *old(total) + width(character)
                > u64::MAX,
        },
{
    let length: u64 = char_width(character);
    match total.checked_add(length) {
        Some(sum) => {
            *total = sum;
        },
        None => {
            return Err(AdapterValidationError::Limit);
        },
    }
    if *leading_open {
        if is_mistral_trim(character) {
            *leading = *leading + length;
        } else {
            *leading_open = false;
        }
    }
    Ok(())
}

/// Accounts for one more character of the trailing trimmed part of a text.
pub fn account_trailing(character: char, trailing: &mut u64) -> (result: AdapterValidationResult<()>)
    ensures
        match result {
            Ok(_) => *final(trailing) == if is_trimmed(character) {
                *old(trailing) + width(character)
            } else {
                0
            },
            Err(error) => error == AdapterValidationError::Limit && *old(trailing) + width(
                character,
            ) > u64::MAX,
        },
{
    if is_mistral_trim(character) {
        match trailing.checked_add(char_width(character)) {
            Some(sum) => {
                *trailing = sum;
            },
            None => {
                return Err(AdapterValidationError::Limit);
            },
        }
    } else {
        *trailing = 0;
    }
    Ok(())
}

proof fn lemma_measured_step(
    text: Seq<char>,
    character: char,
    total: u64,
    leading: u64,
    leading_open: bool,
    trailing: u64,
)
    requires
        measured(text, total, leading, leading_open, trailing),
    ensures
        leading <= total,
        trailing <= total,
        ({
            let longer = text.push(character);
            let trims = leading_open && is_trimmed(character);
            &&& byte_len(longer) == total + width(character)
            &&& byte_len(longer.take(leading_count(longer) as int)) == leading + (if trims {
                width(character)
            } else {
                0
            })
            &&& (leading_count(longer) == longer.len()) == trims
            &&& byte_len(longer.skip(longer.len() - trailing_count(longer))) == if is_trimmed(
                character,
            ) {
                trailing + width(character)
            } else {
                0
            }
        }),
{
    let longer = text.push(character);
    let lead = leading_count(text) as int;
    let trail = trailing_count(text) as int;
    lemma_leading_count(text);
    lemma_trailing_count(text);
    lemma_leading_push(text, character);
    lemma_byte_len_push(text, character);
    lemma_prefix_is_shorter(text, lead);
    lemma_encode_concat(text.take(text.len() - trail), text.skip(text.len() - trail));
    assert(text =~= text.take(text.len() - trail) + text.skip(text.len() - trail));
    if leading_open && is_trimmed(character) {
        assert(text.take(lead) =~= text);
        assert(longer.take(longer.len() as int) =~= longer);
    } else {
        assert(longer.take(lead) =~= text.take(lead));
    }
    assert(longer.drop_last() =~= text);
    if is_trimmed(character) {
        assert(longer.skip(longer.len() - (trail + 1)) =~= text.skip(text.len() - trail).push(
            character,
        ));
        lemma_byte_len_push(text.skip(text.len() - trail), character);
    } else {
        assert(longer.skip(longer.len() as int) =~= Seq::empty());
    }
}

/// The lengths of a joined text: all of it, and its leading and trailing
/// trimmed parts.
#[verifier::loop_isolation(false)]
fn measure(text: &[&str]) -> (result: AdapterValidationResult<(u64, u64, u64)>)
    ensures
        match result {
            Ok((total, leading, trailing)) => {
                let joined = joined_text(texts_of(text@));
                &&& total == byte_len(joined) <= MAX_LOGICAL_CHARGE
                &&& leading == byte_len(joined.take(leading_count(joined) as int))
                &&& trailing == byte_len(joined.skip(joined.len() - trailing_count(joined)))
            },
            Err(error) => error == AdapterValidationError::Limit && byte_len(
                joined_text(texts_of(text@)),
            ) > MAX_LOGICAL_CHARGE,
        },
{
    let ghost texts = texts_of(text@);
    let mut total: u64 = 0;
    let mut leading: u64 = 0;
    let mut leading_open = true;
    let mut trailing: u64 = 0;
    let mut i: usize = 0;
    proof {
        let none = Seq::<char>::empty();
        assert(none.take(0) =~= none);
        assert(none.skip(0) =~= none);
        assert(byte_len(none) == 0);
        assert(measured(joined_to(texts, 0), total, leading, leading_open, trailing));
    }
    while i < text.len()
        invariant
            i <= text@.len(),
            measured(joined_to(texts, i as int), total, leading, leading_open, trailing),
        decreases text.len() - i,
    {
        let ghost mut done = joined_to(texts, i as int);
        assert(texts[i as int] == text@[i as int]@);
        proof {
            lemma_joined_step(texts, i as int);
            lemma_joined_grows(texts, i as int + 1);
        }
        if i != 0 {
            proof {
                lemma_measured_step(done, '\n', total, leading, leading_open, trailing);
                lemma_encode_concat(done.push('\n'), texts[i as int]);
            }
            account_trim_char('\n', &mut total, &mut leading, &mut leading_open)?;
            account_trailing('\n', &mut trailing)?;
            proof {
                done = done.push('\n');
            }
        }
        let ghost head = done;
        assert(joined_to(texts, i as int + 1) =~= head + texts[i as int]);
        let value: &str = text[i];
        assert(head + value@.take(0) =~= head);
        for character in iter: value.chars()
            invariant
                iter.seq() == value@,
                measured(
                    head + value@.take(iter.index() as int),
                    total,
                    leading,
                    leading_open,
                    trailing,
                ),
        {
            let ghost k = iter.index() as int;
            let ghost before = head + value@.take(k);
            proof {
                lemma_measured_step(before, character, total, leading, leading_open, trailing);
                assert(before.push(character) =~= head + value@.take(k + 1));
                assert(before.push(character) =~= joined_to(texts, i as int + 1).take(
                    head.len() + k + 1,
                ));
                lemma_prefix_is_shorter(joined_to(texts, i as int + 1), head.len() + k + 1);
            }
            account_trim_char(character, &mut total, &mut leading, &mut leading_open)?;
            account_trailing(character, &mut trailing)?;
        }
        assert(value@.take(value@.len() as int) =~= value@);
        i += 1;
    }
    if total > MAX_LOGICAL_CHARGE {
        return Err(AdapterValidationError::Limit);
    }
    Ok((total, leading, trailing))
}

/// Counts the escaped bytes of a segment within a byte range, and moves past
/// the segment.
#[verifier::loop_isolation(false)]
pub fn count_segment_escapes(
    segment: &str,
    start: u64,
    end: u64,
    offset: &mut u64,
    escapes: &mut u64,
) -> (result: AdapterValidationResult<()>)
    requires
        *old(escapes) <= *old(offset),
    ensures
        match result {
            Ok(_) => {
                &&& *final(offset) == *old(offset) + byte_len(segment@)
                &&& *final(escapes) == *old(escapes) + escapes_between(
                    encode_utf8(segment@),
                    *old(offset) as int,
                    start as int,
                    end as int,
                )
                &&& *final(escapes) <= *final(offset)
            },
            Err(error) => error == AdapterValidationError::Limit && *old(offset) + byte_len(
                segment@,
            ) > u64::MAX,
        },
{
    let bytes = segment.as_bytes();
    let ghost from = *offset as int;
    let ghost counted = *escapes as int;
    let mut i: usize = 0;
    assert(bytes@.take(0) =~= Seq::empty());
    while i < bytes.len()
        invariant
            i <= bytes@.len(),
            *offset == from + i,
            *escapes == counted + escapes_between(
                bytes@.take(i as int),
                from,
                start as int,
                end as int,
            ),
            *escapes <= *offset,
        decreases bytes.len() - i,
    {
        let byte: u8 = bytes[i];
        assert(bytes@.take(i as int + 1).drop_last() =~= bytes@.take(i as int));
        let found = start <= *offset && *offset < end && (byte == 34 || byte == 92 || byte == 9
            || byte == 10);
        if *offset == u64::MAX {
            return Err(AdapterValidationError::Limit);
        }
        if found {
            *escapes = *escapes + 1;
        }
        *offset = *offset + 1;
        i += 1;
    }
    assert(bytes@.take(i as int) =~= bytes@);
    Ok(())
}

proof fn lemma_line_feed()
    ensures
        "\n"@ == seq!['\n'],
        byte_len("\n"@) == 1,
{
    reveal_strlit("\n");
    assert("\n"@ =~= seq!['\n']);
    is_ascii_chars_encode_utf8("\n"@);
}

/// The number of escaped bytes of a joined text within a byte range.
#[verifier::loop_isolation(false)]
pub fn joined_escape_count(text: &[&str], start: u64, end: u64) -> (result: AdapterValidationResult<
    u64,
>)
    ensures
        match result {
            Ok(escapes) => escapes == escapes_between(
                encode_utf8(joined_text(texts_of(text@))),
                0,
                start as int,
                end as int,
            ),
            Err(error) => error == AdapterValidationError::Limit && byte_len(
                joined_text(texts_of(text@)),
            ) > u64::MAX,
        },
{
    let ghost texts = texts_of(text@);
    let mut offset: u64 = 0;
    let mut escapes: u64 = 0;
    let mut i: usize = 0;
    assert(byte_len(Seq::<char>::empty()) == 0);
    while i < text.len()
        invariant
            i <= text@.len(),
            offset == byte_len(joined_to(texts, i as int)),
            escapes <= offset,
            escapes == escapes_between(
                encode_utf8(joined_to(texts, i as int)),
                0,
                start as int,
                end as int,
            ),
        decreases text.len() - i,
    {
        let ghost done = joined_to(texts, i as int);
        assert(texts[i as int] == text@[i as int]@);
        proof {
            lemma_line_feed();
            lemma_joined_step(texts, i as int);
            lemma_joined_grows(texts, i as int + 1);
            lemma_encode_concat(done, "\n"@);
            lemma_encode_concat(done + "\n"@, texts[i as int]);
            lemma_escapes_between_concat(
                encode_utf8(done),
                encode_utf8("\n"@),
                0,
                start as int,
                end as int,
            );
            lemma_escapes_between_concat(
                encode_utf8(done + "\n"@),
                encode_utf8(texts[i as int]),
                0,
                start as int,
                end as int,
            );
            assert(done.push('\n') =~= done + "\n"@);
        }
        if i != 0 {
            count_segment_escapes("\n", start, end, &mut offset, &mut escapes)?;
        }
        count_segment_escapes(text[i], start, end, &mut offset, &mut escapes)?;
        i += 1;
    }
    Ok(escapes)
}

// ---------------------------------------------------------------------------
// Building
// ---------------------------------------------------------------------------

/// Appends the characters of a segment that begin within a byte range, and
/// moves past the segment.
#[verifier::loop_isolation(false)]
pub fn append_segment(
    segment: &str,
    start: u64,
    end: u64,
    offset: &mut u64,
    output: &mut String,
) -> (result: AdapterValidationResult<()>)
    ensures
        match result {
            Ok(_) => {
                &&& *final(offset) == *old(offset) + byte_len(segment@)
                &&& final(output)@ == old(output)@ + chars_between(
                    segment@,
                    *old(offset) as int,
                    start as int,
                    end as int,
                )
            },
            Err(error) => error == AdapterValidationError::Limit && *old(offset) + byte_len(
                segment@,
            ) > u64::MAX,
        },
{
    let ghost from = *offset as int;
    let ghost written = output@;
    assert(segment@.take(0) =~= Seq::empty());
    assert(byte_len(segment@.take(0)) == 0);
    assert(written + chars_between(segment@.take(0), from, start as int, end as int) =~= written);
    for character in iter: segment.chars()
        invariant
            iter.seq() == segment@,
            *offset == from + byte_len(segment@.take(iter.index() as int)),
            output@ == written + chars_between(
                segment@.take(iter.index() as int),
                from,
                start as int,
                end as int,
            ),
    {
        let ghost done = segment@.take(iter.index() as int);
        proof {
            assert(done.push(character) =~= segment@.take(iter.index() as int + 1));
            lemma_byte_len_push(done, character);
            lemma_chars_between_push(done, character, from, start as int, end as int);
            lemma_prefix_is_shorter(segment@, iter.index() as int + 1);
        }
        if start <= *offset && *offset < end {
            output.push(character);
        }
        match offset.checked_add(char_width(character)) {
            Some(next) => {
                *offset = next;
            },
            None => {
                return Err(AdapterValidationError::Limit);
            },
        }
        assert(output@ =~= written + chars_between(
            done.push(character),
            from,
            start as int,
            end as int,
        ));
    }
    assert(segment@.take(segment@.len() as int) =~= segment@);
    Ok(())
}

/// Appends the characters of a joined text that begin within a byte range.
#[verifier::loop_isolation(false)]
pub fn append_joined_range(text: &[&str], start: u64, end: u64, output: &mut String) -> (result:
    AdapterValidationResult<()>)
    ensures
        match result {
            Ok(_) => byte_len(joined_text(texts_of(text@))) <= u64::MAX && final(output)@ == old(
                output,
            )@ + chars_between(joined_text(texts_of(text@)), 0, start as int, end as int),
            Err(error) => error == AdapterValidationError::Limit && byte_len(
                joined_text(texts_of(text@)),
            ) > u64::MAX,
        },
{
    let ghost texts = texts_of(text@);
    let ghost written = output@;
    let mut offset: u64 = 0;
    let mut i: usize = 0;
    assert(byte_len(Seq::<char>::empty()) == 0);
    assert(written + chars_between(joined_to(texts, 0), 0, start as int, end as int) =~= written);
    while i < text.len()
        invariant
            i <= text@.len(),
            offset == byte_len(joined_to(texts, i as int)),
            output@ == written + chars_between(
                joined_to(texts, i as int),
                0,
                start as int,
                end as int,
            ),
        decreases text.len() - i,
    {
        let ghost done = joined_to(texts, i as int);
        assert(texts[i as int] == text@[i as int]@);
        proof {
            lemma_line_feed();
            lemma_joined_step(texts, i as int);
            lemma_joined_grows(texts, i as int + 1);
            lemma_encode_concat(done, "\n"@);
            lemma_encode_concat(done + "\n"@, texts[i as int]);
            lemma_chars_between_concat(done, "\n"@, 0, start as int, end as int);
            lemma_chars_between_concat(
                done + "\n"@,
                texts[i as int],
                0,
                start as int,
                end as int,
            );
            assert(done.push('\n') =~= done + "\n"@);
        }
        if i != 0 {
            append_segment("\n", start, end, &mut offset, output)?;
            assert(output@ =~= written + chars_between(
                done + "\n"@,
                0,
                start as int,
                end as int,
            ));
        }
        append_segment(text[i], start, end, &mut offset, output)?;
        assert(output@ =~= written + chars_between(
            joined_to(texts, i as int + 1),
            0,
            start as int,
            end as int,
        ));
        i += 1;
    }
    Ok(())
}

/// How the text of a tool result is built, and how long it will be.
#[derive(Debug)]
pub struct MistralTextPlan {
    pub start: u64,
    pub end: u64,
    pub prefix: &'static str,
    pub placeholder: Option<&'static str>,
    pub result_length: u64,
    pub serialized_length: u64,
}

impl MistralTextPlan {
    /// The text that the plan makes of the given texts.
    pub open spec fn product(self, texts: Seq<Seq<char>>) -> Seq<char> {
        self.prefix@ + match self.placeholder {
            Some(placeholder) => placeholder@,
            None => chars_between(joined_text(texts), 0, self.start as int, self.end as int),
        }
    }

    /// Plans the text of a tool result.
    pub fn new(text: &[&str], has_images: bool, is_error: bool) -> (result: AdapterValidationResult<
        MistralTextPlan,
    >)
        ensures
            match result {
                Ok(plan) => {
                    let expected = result_text(texts_of(text@), has_images, is_error);
                    &&& result_text_verdict(texts_of(text@), has_images, is_error) is Ok
                    &&& plan.product(texts_of(text@)) == expected
                    &&& plan.result_length == byte_len(expected)
                    &&& plan.serialized_length == string_json(expected).len()
                },
                Err(error) => result_text_verdict(texts_of(text@), has_images, is_error)
                    == AdapterValidationResult::<Seq<char>>::Err(error),
            },
    {
        let ghost texts = texts_of(text@);
        let ghost joined = joined_text(texts);
        let (total, leading, trailing): (u64, u64, u64) = measure(text)?;
        proof {
            lemma_plan_range(joined);
            lemma_plan_literals(has_images, is_error);
        }
        let all_trimmed = leading == total;
        let end: u64 = if all_trimmed {
            total
        } else {
            total - trailing
        };
        let prefix: &'static str = if is_error {
            "[tool error] "
        } else {
            ""
        };
        let placeholder: Option<&'static str> = if leading < end {
            None
        } else if has_images {
            Some("(see attached image)")
        } else {
            Some("(no tool output)")
        };
        let body_length: u64 = match placeholder {
            Some(value) => value.as_bytes().len() as u64,
            None => end - leading,
        };
        let result_length: u64 = checked_add(prefix.as_bytes().len() as u64, body_length)?;
        let escapes: u64 = match placeholder {
            Some(_) => 0,
            None => joined_escape_count(text, leading, end)?,
        };
        proof {
            lemma_escapes_bound(encode_utf8(joined), 0, leading as int, end as int);
            if placeholder is None {
                lemma_planned_body(joined, prefix@, leading as int, end as int);
            } else {
                lemma_planned_placeholder(prefix@, placeholder->Some_0@);
            }
        }
        let serialized_length: u64 = checked_add(checked_add(2, result_length)?, escapes)?;
        if result_length > MAX_LOGICAL_CHARGE {
            return Err(AdapterValidationError::Limit);
        }
        Ok(
            MistralTextPlan {
                start: leading,
                end,
                prefix,
                placeholder,
                result_length,
                serialized_length,
            },
        )
    }

    /// Builds the planned text.
    pub fn build(self, text: &[&str]) -> (result: AdapterValidationResult<String>)
        ensures
            match result {
                Ok(built) => built@ == self.product(texts_of(text@)) && byte_len(built@)
                    == self.result_length,
                Err(AdapterValidationError::Limit) => self.placeholder is None && byte_len(
                    joined_text(texts_of(text@)),
                ) > u64::MAX,
                Err(error) => error == AdapterValidationError::SourceMismatch && byte_len(
                    self.product(texts_of(text@)),
                ) != self.result_length,
            },
    {
        let mut output = String::new();
        output.push_str(self.prefix);
        match self.placeholder {
            Some(placeholder) => output.push_str(placeholder),
            None => append_joined_range(text, self.start, self.end, &mut output)?,
        }
        assert(output@ =~= self.product(texts_of(text@)));
        if output.as_str().as_bytes().len() as u64 != self.result_length {
            return Err(AdapterValidationError::SourceMismatch);
        }
        Ok(output)
    }
}

/// What the leading and trailing trimmed parts leave of a text.
proof fn lemma_plan_range(text: Seq<char>)
    ensures
        ({
            let lead = leading_count(text) as int;
            let rest = text.len() - trailing_count(text);
            let leading = byte_len(text.take(lead));
            let trailing = byte_len(text.skip(rest));
            &&& (leading == byte_len(text)) == (trimmed(text).len() == 0)
            &&& trimmed(text).len() > 0 ==> {
                &&& trailing <= byte_len(text)
                &&& byte_len(text) - trailing == byte_len(text.take(rest))
                &&& leading < byte_len(text.take(rest))
                &&& chars_between(
                    text,
                    0,
                    leading as int,
                    byte_len(text.take(rest)) as int,
                ) == trimmed(text)
                &&& byte_len(trimmed(text)) == byte_len(text.take(rest)) - leading
                &&& encode_utf8(text).subrange(leading as int, byte_len(text.take(rest)) as int)
                    == encode_utf8(trimmed(text))
            }
            &&& leading <= byte_len(text)
        }),
{
    let lead = leading_count(text) as int;
    let rest = text.len() - trailing_count(text);
    lemma_trimmed(text);
    lemma_trailing_count(text);
    lemma_prefix_is_shorter(text, lead);
    if lead == text.len() {
        assert(text.take(lead) =~= text);
    } else {
        lemma_chars_subrange(text, lead, rest);
        lemma_encode_concat(text.take(lead), text.skip(lead));
        assert(text =~= text.take(lead) + text.skip(lead));
        lemma_byte_len_front(text.skip(lead));
        lemma_byte_len_front(text.subrange(lead, rest));
    }
}

proof fn lemma_plan_literals(has_images: bool, is_error: bool)
    ensures
        byte_len(error_prefix(is_error)) <= 13,
        escaped(encode_utf8(error_prefix(is_error))).len() == byte_len(error_prefix(is_error)),
        byte_len(placeholder_text(has_images)) <= 20,
        escaped(encode_utf8(placeholder_text(has_images))).len() == byte_len(
            placeholder_text(has_images),
        ),
{
    reveal_strlit("[tool error] ");
    reveal_strlit("");
    reveal_strlit("(see attached image)");
    reveal_strlit("(no tool output)");
    lemma_plain_text(error_prefix(is_error));
    lemma_plain_text(placeholder_text(has_images));
}

/// A text of ASCII characters that are not escaped.
proof fn lemma_plain_text(text: Seq<char>)
    requires
        is_ascii_chars(text),
        forall|i: int| 0 <= i < text.len() ==> !is_escaped(#[trigger] text[i] as u8),
    ensures
        byte_len(text) == text.len(),
        escaped(encode_utf8(text)).len() == byte_len(text),
{
    is_ascii_chars_encode_utf8(text);
    lemma_plain_bytes(encode_utf8(text));
}

proof fn lemma_plain_bytes(bytes: Seq<u8>)
    requires
        forall|i: int| 0 <= i < bytes.len() ==> !is_escaped(#[trigger] bytes[i]),
    ensures
        escaped(bytes).len() == bytes.len(),
    decreases bytes.len(),
{
    if bytes.len() > 0 {
        lemma_plain_bytes(bytes.drop_last());
    }
}

proof fn lemma_escaped_length_adds(left: Seq<u8>, right: Seq<u8>)
    ensures
        escaped(left + right).len() == escaped(left).len() + escaped(right).len(),
    decreases right.len(),
{
    if right.len() == 0 {
        assert(left + right =~= left);
    } else {
        lemma_escaped_length_adds(left, right.drop_last());
        assert((left + right).drop_last() =~= left + right.drop_last());
    }
}

proof fn lemma_planned_body(text: Seq<char>, prefix: Seq<char>, start: int, end: int)
    requires
        0 <= start <= end <= byte_len(text),
        escaped(encode_utf8(prefix)).len() == byte_len(prefix),
        encode_utf8(text).subrange(start, end) == encode_utf8(trimmed(text)),
    ensures
        byte_len(prefix + trimmed(text)) == byte_len(prefix) + (end - start),
        string_json(prefix + trimmed(text)).len() == 2 + byte_len(prefix) + (end - start)
            + escapes_between(encode_utf8(text), 0, start, end),
{
    lemma_encode_concat(prefix, trimmed(text));
    lemma_escaped_length_adds(encode_utf8(prefix), encode_utf8(trimmed(text)));
    lemma_escapes_subrange(encode_utf8(text), start, end);
}

proof fn lemma_planned_placeholder(prefix: Seq<char>, placeholder: Seq<char>)
    requires
        escaped(encode_utf8(prefix)).len() == byte_len(prefix),
        escaped(encode_utf8(placeholder)).len() == byte_len(placeholder),
    ensures
        byte_len(prefix + placeholder) == byte_len(prefix) + byte_len(placeholder),
        string_json(prefix + placeholder).len() == 2 + byte_len(prefix) + byte_len(placeholder),
{
    lemma_encode_concat(prefix, placeholder);
    lemma_escaped_length_adds(encode_utf8(prefix), encode_utf8(placeholder));
}

/// The text of a tool result.
pub fn mistral_text(text: &[&str], has_images: bool, is_error: bool) -> (result:
    AdapterValidationResult<String>)
    ensures
        match result {
            Ok(built) => result_text_verdict(texts_of(text@), has_images, is_error)
                == AdapterValidationResult::<Seq<char>>::Ok(built@),
            Err(error) => result_text_verdict(texts_of(text@), has_images, is_error)
                == AdapterValidationResult::<Seq<char>>::Err(error),
        },
{
    let plan = MistralTextPlan::new(text, has_images, is_error)?;
    plan.build(text)
}

// ---------------------------------------------------------------------------
// Text and images together
// ---------------------------------------------------------------------------

/// The sum of the first `n` lengths, each with an addition.
pub open spec fn sum_to(lengths: Seq<u64>, n: int, addition: int) -> int
    decreases n,
{
    if n <= 0 {
        0
    } else {
        sum_to(lengths, n - 1, addition) + lengths[n - 1] + addition
    }
}

/// Whether the text and the images of a tool result fit together: as texts, on
/// the wire and as a charge.
pub open spec fn is_bounded_aggregate(text: int, serialized: int, images: Seq<u64>) -> bool {
    let n = images.len() as int;
    &&& text + sum_to(images, n, 0) <= MAX_LOGICAL_CHARGE
    &&& 25 + serialized + sum_to(images, n, 36) <= MAX_LOGICAL_CHARGE
    &&& 64 + text + sum_to(images, n, 66) <= MAX_LOGICAL_CHARGE
}

proof fn lemma_sum_grows(lengths: Seq<u64>, n: int, addition: int)
    requires
        0 <= n <= lengths.len(),
        addition >= 0,
    ensures
        0 <= sum_to(lengths, n, addition) <= sum_to(lengths, lengths.len() as int, addition),
        n < lengths.len() ==> sum_to(lengths, n, addition) + lengths[n] + addition <= sum_to(
            lengths,
            lengths.len() as int,
            addition,
        ),
    decreases lengths.len() - n,
{
    lemma_sum_is_positive(lengths, n, addition);
    if n < lengths.len() {
        lemma_sum_grows(lengths, n + 1, addition);
    }
}

proof fn lemma_sum_is_positive(lengths: Seq<u64>, n: int, addition: int)
    requires
        n <= lengths.len(),
        addition >= 0,
    ensures
        sum_to(lengths, n, addition) >= 0,
    decreases n,
{
    if n > 0 {
        lemma_sum_is_positive(lengths, n - 1, addition);
    }
}

/// Checks that the text and the images of a tool result fit together.
#[verifier::loop_isolation(false)]
pub fn validate_mistral_aggregate(
    text_length: u64,
    text_serialized_length: u64,
    image_lengths: &[u64],
) -> (result: AdapterValidationResult<()>)
    ensures
        result == demand(
            is_bounded_aggregate(
                text_length as int,
                text_serialized_length as int,
                image_lengths@,
            ),
            AdapterValidationError::Limit,
        ),
{
    let ghost images = image_lengths@;
    proof {
        lemma_sum_grows(images, 0, 0);
        lemma_sum_grows(images, 0, 36);
        lemma_sum_grows(images, 0, 66);
    }
    let mut retained: u64 = text_length;
    let mut wire: u64 = checked_add(25, text_serialized_length)?;
    let mut logical: u64 = checked_add(64, text_length)?;
    let mut i: usize = 0;
    while i < image_lengths.len()
        invariant
            i <= images.len(),
            retained == text_length + sum_to(images, i as int, 0),
            wire == 25 + text_serialized_length + sum_to(images, i as int, 36),
            logical == 64 + text_length + sum_to(images, i as int, 66),
        decreases image_lengths.len() - i,
    {
        proof {
            lemma_sum_grows(images, i as int, 0);
            lemma_sum_grows(images, i as int, 36);
            lemma_sum_grows(images, i as int, 66);
        }
        let length: u64 = image_lengths[i];
        retained = checked_add(retained, length)?;
        wire = checked_add(wire, checked_add(36, length)?)?;
        logical = checked_add(logical, checked_add(66, length)?)?;
        i += 1;
    }
    if retained > MAX_LOGICAL_CHARGE || wire > MAX_LOGICAL_CHARGE || logical > MAX_LOGICAL_CHARGE {
        return Err(AdapterValidationError::Limit);
    }
    Ok(())
}

} // verus!
