//! Byte-level views of text: lengths, equality, prefixes and ordering.

use vstd::prelude::*;
use vstd::utf8::{encode_scalar, encode_utf8, encode_utf8_decode_utf8, valid_utf8};

verus! {

/// Number of UTF-8 bytes of a text.
pub open spec fn byte_len(text: Seq<char>) -> nat {
    encode_utf8(text).len()
}

/// Lexicographic order of byte strings: a proper prefix comes first, else the
/// first differing byte decides.
pub open spec fn bytes_before(left: Seq<u8>, right: Seq<u8>) -> bool {
    exists|k: int| #[trigger] differ_at(left, right, k)
}

/// The two byte strings agree on their first `k` bytes, and `left` then ends
/// or continues with a smaller byte.
pub open spec fn differ_at(left: Seq<u8>, right: Seq<u8>, k: int) -> bool {
    &&& 0 <= k <= left.len()
    &&& k < right.len()
    &&& forall|i: int| 0 <= i < k ==> left[i] == right[i]
    &&& k == left.len() || left[k] < right[k]
}

/// Distinct texts have distinct encodings.
pub proof fn lemma_encoding_is_injective(left: Seq<char>, right: Seq<char>)
    ensures
        (encode_utf8(left) == encode_utf8(right)) == (left == right),
{
    encode_utf8_decode_utf8(left);
    encode_utf8_decode_utf8(right);
}

/// The encoding of a concatenation is the concatenation of the encodings.
pub proof fn lemma_encode_concat(left: Seq<char>, right: Seq<char>)
    ensures
        encode_utf8(left + right) == encode_utf8(left) + encode_utf8(right),
    decreases left.len(),
{
    if left.len() == 0 {
        assert(left + right =~= right);
        assert(encode_utf8(left) + encode_utf8(right) =~= encode_utf8(right));
    } else {
        lemma_encode_concat(left.drop_first(), right);
        assert((left + right).drop_first() =~= left.drop_first() + right);
        assert(encode_utf8(left + right) =~= encode_utf8(left) + encode_utf8(right));
    }
}

/// The encoding of one character.
pub proof fn lemma_encode_one(character: char)
    ensures
        encode_utf8(seq![character]) == encode_scalar(character as u32),
{
    let text = seq![character];
    assert(text.drop_first() =~= Seq::empty());
    assert(encode_utf8(text) =~= encode_scalar(character as u32) + encode_utf8(Seq::empty()));
    assert(encode_utf8(text) =~= encode_scalar(character as u32));
}

/// An ASCII character is its own byte; every byte of another character is
/// outside ASCII.
pub proof fn lemma_encode_scalar(character: char)
    ensures
        character as u32 <= 127 ==> encode_scalar(character as u32) == seq![character as u8],
        character as u32 > 127 ==> forall|i: int|
            0 <= i < encode_scalar(character as u32).len() ==> #[trigger] encode_scalar(
                character as u32,
            )[i] >= 128,
        1 <= encode_scalar(character as u32).len() <= 4,
{
    let scalar = character as u32;
    vstd::utf8::char_is_scalar(character);
    assert(scalar <= 127 ==> (scalar & 0x7f) as u8 == scalar as u8) by (bit_vector);
    assert(0xc0u8 | ((scalar >> 6) & 0x1f) as u8 >= 128) by (bit_vector);
    assert(0xe0u8 | ((scalar >> 12) & 0x0f) as u8 >= 128) by (bit_vector);
    assert(0xf0u8 | ((scalar >> 18) & 0x07) as u8 >= 128) by (bit_vector);
    assert(0x80u8 | (scalar & 0x3f) as u8 >= 128) by (bit_vector);
    assert(0x80u8 | ((scalar >> 6) & 0x3f) as u8 >= 128) by (bit_vector);
    assert(0x80u8 | ((scalar >> 12) & 0x3f) as u8 >= 128) by (bit_vector);
}

/// `String::from_utf8` of the standard library: the text with the given bytes,
/// if they are valid UTF-8.
#[verifier::external_body]
pub(crate) fn text_from_utf8(bytes: Vec<u8>) -> (text: Option<String>)
    ensures
        match text {
            Some(text) => encode_utf8(text@) == bytes@,
            None => !valid_utf8(bytes@),
        },
{
    String::from_utf8(bytes).ok()
}

/// Whether two byte strings are equal.
pub fn same_bytes(left: &[u8], right: &[u8]) -> (equal: bool)
    ensures
        equal == (left@ == right@),
{
    if left.len() != right.len() {
        return false;
    }
    let mut i: usize = 0;
    while i < left.len()
        invariant
            i <= left.len(),
            left.len() == right.len(),
            forall|j: int| 0 <= j < i ==> left[j] == right[j],
        decreases left.len() - i,
    {
        if left[i] != right[i] {
            return false;
        }
        i += 1;
    }
    assert(left@ =~= right@);
    true
}

/// Whether two texts are equal.
pub fn same_text(left: &str, right: &str) -> (equal: bool)
    ensures
        equal == (left@ == right@),
{
    proof {
        lemma_encoding_is_injective(left@, right@);
    }
    same_bytes(left.as_bytes(), right.as_bytes())
}

/// Whether `bytes` begins with `prefix`.
pub fn starts_with(bytes: &[u8], prefix: &[u8]) -> (found: bool)
    ensures
        found == prefix@.is_prefix_of(bytes@),
{
    if prefix.len() > bytes.len() {
        return false;
    }
    let mut i: usize = 0;
    while i < prefix.len()
        invariant
            i <= prefix.len() <= bytes.len(),
            forall|j: int| 0 <= j < i ==> prefix[j] == bytes[j],
        decreases prefix.len() - i,
    {
        if prefix[i] != bytes[i] {
            assert(bytes@.subrange(0, prefix@.len() as int)[i as int] != prefix@[i as int]);
            return false;
        }
        i += 1;
    }
    assert(prefix@ =~= bytes@.subrange(0, prefix@.len() as int));
    true
}

/// Whether `left` comes strictly before `right` in lexicographic byte order.
pub fn is_before(left: &[u8], right: &[u8]) -> (before: bool)
    ensures
        before == bytes_before(left@, right@),
{
    let mut i: usize = 0;
    while i < left.len() && i < right.len() && left[i] == right[i]
        invariant
            i <= left.len(),
            i <= right.len(),
            forall|j: int| 0 <= j < i ==> left[j] == right[j],
        decreases left.len() - i,
    {
        i += 1;
    }
    let before = i < right.len() && (i == left.len() || left[i] < right[i]);
    proof {
        if before {
            assert(differ_at(left@, right@, i as int));
        } else if bytes_before(left@, right@) {
            let k = choose|k: int| #[trigger] differ_at(left@, right@, k);
            if k < i {
                assert(left[k] == right[k]);
            } else if i < k {
                assert(left[i as int] == right[i as int]);
            }
            assert(false);
        }
    }
    before
}

/// The byte order is irreflexive, transitive and total.
pub proof fn lemma_byte_order(a: Seq<u8>, b: Seq<u8>, c: Seq<u8>)
    ensures
        !bytes_before(a, a),
        bytes_before(a, b) && bytes_before(b, c) ==> bytes_before(a, c),
        a != b ==> bytes_before(a, b) != bytes_before(b, a),
{
    if bytes_before(a, a) {
        let k = choose|k: int| differ_at(a, a, k);
        assert(false);
    }
    if bytes_before(a, b) && bytes_before(b, c) {
        let j = choose|j: int| differ_at(a, b, j);
        let k = choose|k: int| differ_at(b, c, k);
        if j <= k {
            assert(differ_at(a, c, j));
        } else {
            assert(differ_at(a, c, k));
        }
    }
    if bytes_before(a, b) && bytes_before(b, a) {
        let j = choose|j: int| differ_at(a, b, j);
        let k = choose|k: int| differ_at(b, a, k);
        assert(false);
    }
    if a != b && !bytes_before(a, b) && !bytes_before(b, a) {
        lemma_first_difference(a, b, 0);
    }
}

proof fn lemma_first_difference(a: Seq<u8>, b: Seq<u8>, k: int)
    requires
        a != b,
        0 <= k <= a.len(),
        k <= b.len(),
        forall|i: int| 0 <= i < k ==> a[i] == b[i],
    ensures
        bytes_before(a, b) || bytes_before(b, a),
    decreases a.len() - k,
{
    if k < a.len() && k < b.len() && a[k] == b[k] {
        lemma_first_difference(a, b, k + 1);
    } else if k == a.len() && k == b.len() {
        assert(a =~= b);
    } else if differ_at(a, b, k) {
    } else {
        assert(differ_at(b, a, k));
    }
}

} // verus!
