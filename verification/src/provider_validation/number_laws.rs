//! Which numbers are canonical.

use vstd::prelude::*;

use crate::provider_validation::wire_json::{
    digits_end, fraction_end, integer_start, is_digit, is_exponent, is_number_token,
};

verus! {

/// A decimal digit.
pub open spec fn is_decimal(byte: u8) -> bool {
    '0' as u8 <= byte <= '9' as u8
}

/// Whether bytes are decimal digits from one position to another.
pub open spec fn are_decimals(bytes: Seq<u8>, from: int, to: int) -> bool {
    forall|i: int| from <= i < to ==> is_decimal(#[trigger] bytes[i])
}

/// Whether the rest of a number is its exponent: an `e`, perhaps a minus sign, and
/// digits that do not begin with zero.
pub open spec fn is_power(bytes: Seq<u8>, from: int) -> bool {
    let first = if from + 1 < bytes.len() && bytes[from + 1] == '-' as u8 {
        from + 2
    } else {
        from + 1
    };
    &&& bytes[from] == 'e' as u8
    &&& first < bytes.len()
    &&& bytes[first] != '0' as u8
    &&& are_decimals(bytes, first, bytes.len() as int)
}

/// Whether a number has its whole part up to one position and its fraction up to
/// another. A whole part begins with zero only when it is zero, and has a fraction
/// when it is zero. A fraction does not end with zero.
pub open spec fn is_parted(bytes: Seq<u8>, whole: int, fraction: int) -> bool {
    let first = if bytes[0] == '-' as u8 {
        1int
    } else {
        0int
    };
    &&& first < whole <= fraction <= bytes.len()
    &&& are_decimals(bytes, first, whole)
    &&& bytes[first] == '0' as u8 ==> whole == first + 1 && whole < fraction
    &&& whole < fraction ==> {
        &&& bytes[whole] == '.' as u8
        &&& whole + 1 < fraction
        &&& are_decimals(bytes, whole + 1, fraction)
        &&& bytes[fraction - 1] != '0' as u8
    }
    &&& fraction < bytes.len() ==> is_power(bytes, fraction)
}

proof fn lemma_digits(bytes: Seq<u8>, from: int)
    requires
        0 <= from <= bytes.len(),
    ensures
        from <= digits_end(bytes, from) <= bytes.len(),
        are_decimals(bytes, from, digits_end(bytes, from)),
        digits_end(bytes, from) < bytes.len() ==> !is_decimal(bytes[digits_end(bytes, from)]),
    decreases bytes.len() - from,
{
    if from < bytes.len() && is_digit(bytes[from]) {
        lemma_digits(bytes, from + 1);
    }
}

proof fn lemma_digits_stop(bytes: Seq<u8>, from: int, to: int)
    requires
        0 <= from <= to <= bytes.len(),
        are_decimals(bytes, from, to),
        to < bytes.len() ==> !is_decimal(bytes[to]),
    ensures
        digits_end(bytes, from) == to,
    decreases to - from,
{
    if from < to {
        assert(is_decimal(bytes[from]));
        lemma_digits_stop(bytes, from + 1, to);
    }
}

/// A number is canonical exactly when it is zero, or has a whole part, perhaps a
/// fraction and perhaps an exponent, in at most 128 bytes.
pub proof fn lemma_numbers(bytes: Seq<u8>)
    ensures
        is_number_token(bytes) <==> 0 < bytes.len() <= 128 && (bytes == seq!['0' as u8] || exists|
            whole: int,
            fraction: int,
        | is_parted(bytes, whole, fraction)),
{
    if bytes.len() > 0 {
        let start = integer_start(bytes);
        let whole = digits_end(bytes, start);
        let end = fraction_end(bytes, whole);
        lemma_digits(bytes, start);
        if whole < bytes.len() {
            lemma_digits(bytes, whole + 1);
        }
        if end < bytes.len() {
            lemma_digits(bytes, end + 1);
            if end + 1 < bytes.len() {
                lemma_digits(bytes, end + 2);
            }
        }
        if is_number_token(bytes) && bytes != seq!['0' as u8] {
            assert(is_parted(bytes, whole, end));
        }
        if exists|w: int, f: int| is_parted(bytes, w, f) {
            let (w, f) = choose|w: int, f: int| is_parted(bytes, w, f);
            lemma_digits_stop(bytes, start, w);
            if w < f {
                lemma_digits_stop(bytes, w + 1, f);
            }
            assert(fraction_end(bytes, w) == f);
            if f < bytes.len() {
                let first = if f + 1 < bytes.len() && bytes[f + 1] == '-' as u8 {
                    f + 2
                } else {
                    f + 1
                };
                lemma_digits_stop(bytes, first, bytes.len() as int);
                assert(is_decimal(bytes[first]));
                assert(is_exponent(bytes, f));
            }
        }
    }
}

} // verus!
