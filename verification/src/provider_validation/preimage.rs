//! The bytes that digests are taken of are equal exactly when what they encode
//! is the same.

use vstd::prelude::*;
use vstd::utf8::encode_utf8;

use crate::provider_api::{CatalogEntry, InputModality, OrdinaryHeader};
use crate::provider_validation::adapter::digest::{
    body_bytes, body_domain, body_fits, case_piece, collection_number, constant_bytes,
    constant_fits, contract_bytes, contract_domain, contract_fits, entry_piece, enum_source_number,
    flag, header_bytes, header_domain, header_piece, headers_fit, index_piece, model_source_number,
    node_bytes, node_fits, node_piece, optional_tag_bytes, optional_u32_bytes, presence_number,
    presence_tag, rule_bytes, rule_fits, rule_piece, scalar_source_number, segment_bytes,
    segment_fits, table_bytes, table_fits, table_piece, text_fits, text_piece, transform_bytes,
    variant_source_number, wire_body_bytes,
};
use crate::provider_validation::adapter::types::{
    AdapterContractV1, AdapterScalarSource, AdapterTransform, AdapterVariantSource, ContractArray,
    ContractCase, ContractConstant, ContractNode, ContractNodeBody, ContractObject, ContractSwitch,
    ContractValue, EnumTokenEntry, EnumTokenTable, OrdinaryHeaderRule, PathSegment,
    TypedJsonConstant,
};
use crate::provider_validation::catalog::{
    capability_number, catalog_domain, catalog_preimage, entries_bytes, entry_bytes, entry_fits,
    modality_bytes, modality_number, optional_number_bytes, optional_text_bytes,
    reasoning_capability_bytes, selection_bytes, selection_tag, selection_text,
    tool_capability_bytes,
};
use crate::provider_validation::context_counter::{
    be16, component_preimage, counter_bytes, counter_domain, is_counter_ref,
    lemma_reference_lengths, ReferenceText,
};
use crate::provider_validation::hashing::{
    be32, be64, counted, joined, lemma_append, sized, sized_text,
};
use crate::text::lemma_encoding_is_injective;

verus! {

// ---------------------------------------------------------------------------
// Pieces
// ---------------------------------------------------------------------------

/// Beginnings of the same length are equal when the wholes are, and so are the
/// rests.
proof fn lemma_split(a: Seq<u8>, b: Seq<u8>, x: Seq<u8>, y: Seq<u8>)
    requires
        a.len() == b.len(),
        a + x == b + y,
    ensures
        a == b,
        x == y,
{
    assert((a + x).take(a.len() as int) =~= a);
    assert((b + y).take(b.len() as int) =~= b);
    assert((a + x).skip(a.len() as int) =~= x);
    assert((b + y).skip(b.len() as int) =~= y);
}

proof fn lemma_byte(a: u8, b: u8, x: Seq<u8>, y: Seq<u8>)
    requires
        seq![a] + x == seq![b] + y,
    ensures
        a == b,
        x == y,
{
    lemma_split(seq![a], seq![b], x, y);
    assert(seq![a][0] == seq![b][0]);
}

proof fn lemma_be16(a: u16, b: u16, x: Seq<u8>, y: Seq<u8>)
    requires
        be16(a) + x == be16(b) + y,
    ensures
        a == b,
        x == y,
{
    lemma_split(be16(a), be16(b), x, y);
    assert(be16(a)[0] == be16(b)[0]);
    assert(be16(a)[1] == be16(b)[1]);
}

proof fn lemma_be32_values(a: u32, b: u32)
    requires
        be32(a) == be32(b),
    ensures
        a == b,
{
    assert(be32(a)[0] == be32(b)[0]);
    assert(be32(a)[1] == be32(b)[1]);
    assert(be32(a)[2] == be32(b)[2]);
    assert(be32(a)[3] == be32(b)[3]);
    assert(a / 16_777_216 == b / 16_777_216);
    assert(a / 65_536 % 256 == b / 65_536 % 256);
    assert(a / 65_536 == a / 16_777_216 * 256 + a / 65_536 % 256);
    assert(b / 65_536 == b / 16_777_216 * 256 + b / 65_536 % 256);
    assert(a / 256 == a / 65_536 * 256 + a / 256 % 256);
    assert(b / 256 == b / 65_536 * 256 + b / 256 % 256);
}

proof fn lemma_be32(a: u32, b: u32, x: Seq<u8>, y: Seq<u8>)
    requires
        be32(a) + x == be32(b) + y,
    ensures
        a == b,
        x == y,
{
    lemma_split(be32(a), be32(b), x, y);
    lemma_be32_values(a, b);
}

proof fn lemma_be64(a: u64, b: u64, x: Seq<u8>, y: Seq<u8>)
    requires
        be64(a) + x == be64(b) + y,
    ensures
        a == b,
        x == y,
{
    lemma_split(be64(a), be64(b), x, y);
    lemma_split(
        be32((a / 4_294_967_296) as u32),
        be32((b / 4_294_967_296) as u32),
        be32((a % 4_294_967_296) as u32),
        be32((b % 4_294_967_296) as u32),
    );
    lemma_be32_values((a / 4_294_967_296) as u32, (b / 4_294_967_296) as u32);
    lemma_be32_values((a % 4_294_967_296) as u32, (b % 4_294_967_296) as u32);
}

proof fn lemma_sized(a: Seq<u8>, b: Seq<u8>, x: Seq<u8>, y: Seq<u8>)
    requires
        a.len() <= u32::MAX,
        b.len() <= u32::MAX,
        sized(a) + x == sized(b) + y,
    ensures
        a == b,
        x == y,
{
    assert(sized(a) + x =~= be32(a.len() as u32) + (a + x));
    assert(sized(b) + y =~= be32(b.len() as u32) + (b + y));
    lemma_be32(a.len() as u32, b.len() as u32, a + x, b + y);
    lemma_split(a, b, x, y);
}

proof fn lemma_sized_text(a: Seq<char>, b: Seq<char>, x: Seq<u8>, y: Seq<u8>)
    requires
        text_fits(a),
        text_fits(b),
        sized_text(a) + x == sized_text(b) + y,
    ensures
        a == b,
        x == y,
{
    lemma_sized(encode_utf8(a), encode_utf8(b), x, y);
    lemma_encoding_is_injective(a, b);
}

// ---------------------------------------------------------------------------
// Lists
// ---------------------------------------------------------------------------

/// Whether the encodings of things that fit determine where they end and what
/// they encode.
pub open spec fn delimits<T>(
    piece: spec_fn(T) -> Seq<u8>,
    fits: spec_fn(T) -> bool,
    same: spec_fn(T, T) -> bool,
) -> bool {
    forall|a: T, b: T, x: Seq<u8>, y: Seq<u8>|
        fits(a) && fits(b) && #[trigger] (piece(a) + x) == #[trigger] (piece(b) + y) ==> same(a, b)
            && x == y
}

proof fn lemma_joined_first<T>(items: Seq<T>, piece: spec_fn(T) -> Seq<u8>)
    requires
        items.len() > 0,
    ensures
        joined(items, piece) == piece(items[0]) + joined(items.drop_first(), piece),
    decreases items.len(),
{
    let rest = items.drop_first();
    if items.len() == 1 {
        assert(items.drop_last() =~= Seq::empty());
        assert(rest =~= Seq::empty());
        assert(joined(items, piece) =~= piece(items[0]) + joined(rest, piece));
    } else {
        lemma_joined_first(items.drop_last(), piece);
        assert(items.drop_last().drop_first() =~= rest.drop_last());
        assert(joined(items, piece) =~= piece(items[0]) + joined(rest, piece));
    }
}

proof fn lemma_joined<T>(
    a: Seq<T>,
    b: Seq<T>,
    piece: spec_fn(T) -> Seq<u8>,
    fits: spec_fn(T) -> bool,
    same: spec_fn(T, T) -> bool,
    x: Seq<u8>,
    y: Seq<u8>,
)
    requires
        delimits(piece, fits, same),
        a.len() == b.len(),
        forall|i: int| 0 <= i < a.len() ==> fits(#[trigger] a[i]),
        forall|i: int| 0 <= i < b.len() ==> fits(#[trigger] b[i]),
        joined(a, piece) + x == joined(b, piece) + y,
    ensures
        forall|i: int| 0 <= i < a.len() ==> same(#[trigger] a[i], b[i]),
        x == y,
    decreases a.len(),
{
    if a.len() == 0 {
        assert(joined(a, piece) + x =~= x);
        assert(joined(b, piece) + y =~= y);
    } else {
        lemma_joined_first(a, piece);
        lemma_joined_first(b, piece);
        let rest_a = a.drop_first();
        let rest_b = b.drop_first();
        let more_x = joined(rest_a, piece) + x;
        let more_y = joined(rest_b, piece) + y;
        assert(joined(a, piece) + x =~= piece(a[0]) + more_x);
        assert(joined(b, piece) + y =~= piece(b[0]) + more_y);
        assert(same(a[0], b[0]) && more_x == more_y);
        lemma_joined(rest_a, rest_b, piece, fits, same, x, y);
        assert forall|i: int| 0 <= i < a.len() implies same(#[trigger] a[i], b[i]) by {
            if i > 0 {
                assert(same(rest_a[i - 1], rest_b[i - 1]));
            }
        }
    }
}

proof fn lemma_counted<T>(
    a: Seq<T>,
    b: Seq<T>,
    piece: spec_fn(T) -> Seq<u8>,
    fits: spec_fn(T) -> bool,
    same: spec_fn(T, T) -> bool,
    x: Seq<u8>,
    y: Seq<u8>,
)
    requires
        delimits(piece, fits, same),
        a.len() <= u32::MAX,
        b.len() <= u32::MAX,
        forall|i: int| 0 <= i < a.len() ==> fits(#[trigger] a[i]),
        forall|i: int| 0 <= i < b.len() ==> fits(#[trigger] b[i]),
        counted(a, piece) + x == counted(b, piece) + y,
    ensures
        a.len() == b.len(),
        forall|i: int| 0 <= i < a.len() ==> same(#[trigger] a[i], b[i]),
        x == y,
{
    assert(counted(a, piece) + x =~= be32(a.len() as u32) + (joined(a, piece) + x));
    assert(counted(b, piece) + y =~= be32(b.len() as u32) + (joined(b, piece) + y));
    lemma_be32(
        a.len() as u32,
        b.len() as u32,
        joined(a, piece) + x,
        joined(b, piece) + y,
    );
    lemma_joined(a, b, piece, fits, same, x, y);
}

/// Lists whose encodings are equal one by one have the same encoding.
proof fn lemma_same_joined<T>(a: Seq<T>, b: Seq<T>, piece: spec_fn(T) -> Seq<u8>)
    requires
        a.len() == b.len(),
        forall|i: int| 0 <= i < a.len() ==> piece(#[trigger] a[i]) == piece(b[i]),
    ensures
        joined(a, piece) == joined(b, piece),
        counted(a, piece) == counted(b, piece),
    decreases a.len(),
{
    if a.len() > 0 {
        let last = a.len() - 1;
        assert(piece(a[last]) == piece(b[last]));
        assert forall|i: int| 0 <= i < last implies piece(#[trigger] a.drop_last()[i]) == piece(
            b.drop_last()[i],
        ) by {
            assert(piece(a[i]) == piece(b[i]));
        }
        lemma_same_joined(a.drop_last(), b.drop_last(), piece);
    }
}

// ---------------------------------------------------------------------------
// Bodies and headers
// ---------------------------------------------------------------------------

/// The preimages of body digests are equal exactly when the bodies are.
pub proof fn lemma_body_preimage(a: Seq<u8>, b: Seq<u8>)
    requires
        a.len() <= u64::MAX,
        b.len() <= u64::MAX,
    ensures
        wire_body_bytes(a) == wire_body_bytes(b) <==> a == b,
{
    if wire_body_bytes(a) == wire_body_bytes(b) {
        let domain = body_domain();
        assert(wire_body_bytes(a) =~= domain + (be64(a.len() as u64) + a));
        assert(wire_body_bytes(b) =~= domain + (be64(b.len() as u64) + b));
        lemma_split(domain, domain, be64(a.len() as u64) + a, be64(b.len() as u64) + b);
        lemma_be64(a.len() as u64, b.len() as u64, a, b);
    }
}

/// Whether two headers hold the same.
pub open spec fn same_header(a: OrdinaryHeader, b: OrdinaryHeader) -> bool {
    a.name@ == b.name@ && a.value@ == b.value@
}

/// Whether two lists hold the same headers in the same order.
pub open spec fn same_headers(a: Seq<OrdinaryHeader>, b: Seq<OrdinaryHeader>) -> bool {
    &&& a.len() == b.len()
    &&& forall|i: int| 0 <= i < a.len() ==> same_header(#[trigger] a[i], b[i])
}

/// Whether the lengths of a header fit into 32 bits.
pub open spec fn header_fits(header: OrdinaryHeader) -> bool {
    text_fits(header.name@) && text_fits(header.value@)
}

proof fn lemma_header_piece(a: OrdinaryHeader, b: OrdinaryHeader, x: Seq<u8>, y: Seq<u8>)
    requires
        header_fits(a),
        header_fits(b),
        header_piece()(a) + x == header_piece()(b) + y,
    ensures
        same_header(a, b),
        x == y,
{
    let rest_a = sized_text(a.value@) + x;
    let rest_b = sized_text(b.value@) + y;
    assert(header_piece()(a) + x =~= sized_text(a.name@) + rest_a);
    assert(header_piece()(b) + y =~= sized_text(b.name@) + rest_b);
    lemma_sized_text(a.name@, b.name@, rest_a, rest_b);
    lemma_sized_text(a.value@, b.value@, x, y);
}

/// The preimages of header digests are equal exactly when the headers and their
/// order are the same.
pub proof fn lemma_header_preimage(a: Seq<OrdinaryHeader>, b: Seq<OrdinaryHeader>)
    requires
        headers_fit(a),
        headers_fit(b),
    ensures
        header_bytes(a) == header_bytes(b) <==> same_headers(a, b),
{
    if header_bytes(a) == header_bytes(b) {
        lemma_headers(a, b);
    }
    if same_headers(a, b) {
        assert forall|i: int| 0 <= i < a.len() implies header_piece()(#[trigger] a[i])
            == header_piece()(b[i]) by {
            assert(same_header(a[i], b[i]));
        }
        lemma_same_joined(a, b, header_piece());
    }
}

proof fn lemma_headers(a: Seq<OrdinaryHeader>, b: Seq<OrdinaryHeader>)
    requires
        headers_fit(a),
        headers_fit(b),
        header_bytes(a) == header_bytes(b),
    ensures
        same_headers(a, b),
{
    let domain = header_domain();
    lemma_split(domain, domain, counted(a, header_piece()), counted(b, header_piece()));
    let fits = |header: OrdinaryHeader| header_fits(header);
    let same = |a: OrdinaryHeader, b: OrdinaryHeader| same_header(a, b);
    assert(delimits(header_piece(), fits, same)) by {
        assert forall|a: OrdinaryHeader, b: OrdinaryHeader, x: Seq<u8>, y: Seq<u8>|
            fits(a) && fits(b) && #[trigger] (header_piece()(a) + x) == #[trigger] (header_piece()(b)
                + y) implies same(a, b) && x == y by {
            lemma_header_piece(a, b, x, y);
        }
    }
    assert forall|i: int| 0 <= i < a.len() implies fits(#[trigger] a[i]) by {}
    assert forall|i: int| 0 <= i < b.len() implies fits(#[trigger] b[i]) by {}
    assert(counted(a, header_piece()) + Seq::<u8>::empty() =~= counted(a, header_piece()));
    assert(counted(b, header_piece()) + Seq::<u8>::empty() =~= counted(b, header_piece()));
    lemma_counted(a, b, header_piece(), fits, same, Seq::empty(), Seq::empty());
    assert forall|i: int| 0 <= i < a.len() implies same_header(#[trigger] a[i], b[i]) by {
        assert(same(a[i], b[i]));
    }
}

/// A sum of pieces, nested to the right.
proof fn lemma_right_twelve(
    d: Seq<u8>,
    s1: Seq<u8>,
    s2: Seq<u8>,
    s3: Seq<u8>,
    s4: Seq<u8>,
    s5: Seq<u8>,
    s6: Seq<u8>,
    s7: Seq<u8>,
    s8: Seq<u8>,
    s9: Seq<u8>,
    s10: Seq<u8>,
    s11: Seq<u8>,
    s12: Seq<u8>,
)
    ensures
        d + s1 + s2 + s3 + s4 + s5 + s6 + s7 + s8 + s9 + s10 + s11 + s12
            == d + (s1 + (s2 + (s3 + (s4 + (s5 + (s6 + (s7 + (s8 + (s9 + (s10 + (s11 + (s12)))))))))))),
{
    let p0 = d;
    let p1 = p0 + s1;
    let p2 = p1 + s2;
    let p3 = p2 + s3;
    let p4 = p3 + s4;
    let p5 = p4 + s5;
    let p6 = p5 + s6;
    let p7 = p6 + s7;
    let p8 = p7 + s8;
    let p9 = p8 + s9;
    let p10 = p9 + s10;
    let r12 = s12;
    let r11 = s11 + r12;
    let r10 = s10 + r11;
    let r9 = s9 + r10;
    let r8 = s8 + r9;
    let r7 = s7 + r8;
    let r6 = s6 + r7;
    let r5 = s5 + r6;
    let r4 = s4 + r5;
    let r3 = s3 + r4;
    let r2 = s2 + r3;
    let r1 = s1 + r2;
    lemma_append(p10, s11, r12);
    lemma_append(p9, s10, r11);
    lemma_append(p8, s9, r10);
    lemma_append(p7, s8, r9);
    lemma_append(p6, s7, r8);
    lemma_append(p5, s6, r7);
    lemma_append(p4, s5, r6);
    lemma_append(p3, s4, r5);
    lemma_append(p2, s3, r4);
    lemma_append(p1, s2, r3);
    lemma_append(p0, s1, r2);
}

/// A sum of pieces, nested to the right.
proof fn lemma_right_eleven(
    d: Seq<u8>,
    s1: Seq<u8>,
    s2: Seq<u8>,
    s3: Seq<u8>,
    s4: Seq<u8>,
    s5: Seq<u8>,
    s6: Seq<u8>,
    s7: Seq<u8>,
    s8: Seq<u8>,
    s9: Seq<u8>,
    s10: Seq<u8>,
    s11: Seq<u8>,
)
    ensures
        d + s1 + s2 + s3 + s4 + s5 + s6 + s7 + s8 + s9 + s10 + s11
            == d + (s1 + (s2 + (s3 + (s4 + (s5 + (s6 + (s7 + (s8 + (s9 + (s10 + (s11))))))))))),
{
    let p0 = d;
    let p1 = p0 + s1;
    let p2 = p1 + s2;
    let p3 = p2 + s3;
    let p4 = p3 + s4;
    let p5 = p4 + s5;
    let p6 = p5 + s6;
    let p7 = p6 + s7;
    let p8 = p7 + s8;
    let p9 = p8 + s9;
    let r11 = s11;
    let r10 = s10 + r11;
    let r9 = s9 + r10;
    let r8 = s8 + r9;
    let r7 = s7 + r8;
    let r6 = s6 + r7;
    let r5 = s5 + r6;
    let r4 = s4 + r5;
    let r3 = s3 + r4;
    let r2 = s2 + r3;
    let r1 = s1 + r2;
    lemma_append(p9, s10, r11);
    lemma_append(p8, s9, r10);
    lemma_append(p7, s8, r9);
    lemma_append(p6, s7, r8);
    lemma_append(p5, s6, r7);
    lemma_append(p4, s5, r6);
    lemma_append(p3, s4, r5);
    lemma_append(p2, s3, r4);
    lemma_append(p1, s2, r3);
    lemma_append(p0, s1, r2);
}

// ---------------------------------------------------------------------------
// Context counters
// ---------------------------------------------------------------------------

/// The preimages of counter digests are equal exactly when the references are.
pub proof fn lemma_counter_preimage(a: ReferenceText, b: ReferenceText)
    requires
        is_counter_ref(a),
        is_counter_ref(b),
    ensures
        counter_bytes(a) == counter_bytes(b) <==> a == b,
{
    if counter_bytes(a) == counter_bytes(b) {
        lemma_counter(a, b);
    }
}

proof fn lemma_counter(a: ReferenceText, b: ReferenceText)
    requires
        is_counter_ref(a),
        is_counter_ref(b),
        counter_bytes(a) == counter_bytes(b),
    ensures
        a == b,
{
    lemma_reference_lengths(a);
    lemma_reference_lengths(b);
    let a12 = sized_text(a.output_reservation_digest);
    let b12 = sized_text(b.output_reservation_digest);
    let a11 = be16(a.output_reservation_version) + a12;
    let b11 = be16(b.output_reservation_version) + b12;
    let a10 = sized_text(a.output_reservation_id) + a11;
    let b10 = sized_text(b.output_reservation_id) + b11;
    let a9 = sized_text(a.wire_framing_digest) + a10;
    let b9 = sized_text(b.wire_framing_digest) + b10;
    let a8 = be16(a.wire_framing_version) + a9;
    let b8 = be16(b.wire_framing_version) + b9;
    let a7 = sized_text(a.wire_framing_id) + a8;
    let b7 = sized_text(b.wire_framing_id) + b8;
    let a6 = sized_text(a.vocabulary_digest) + a7;
    let b6 = sized_text(b.vocabulary_digest) + b7;
    let a5 = sized_text(a.algorithm_digest) + a6;
    let b5 = sized_text(b.algorithm_digest) + b6;
    let a4 = be16(a.algorithm_version) + a5;
    let b4 = be16(b.algorithm_version) + b5;
    let a3 = sized_text(a.algorithm_id) + a4;
    let b3 = sized_text(b.algorithm_id) + b4;
    let a2 = be16(a.registry_version) + a3;
    let b2 = be16(b.registry_version) + b3;
    let a1 = sized_text(a.registry_id) + a2;
    let b1 = sized_text(b.registry_id) + b2;
    lemma_right_twelve(
        counter_domain(),
        sized_text(a.registry_id),
        be16(a.registry_version),
        sized_text(a.algorithm_id),
        be16(a.algorithm_version),
        sized_text(a.algorithm_digest),
        sized_text(a.vocabulary_digest),
        sized_text(a.wire_framing_id),
        be16(a.wire_framing_version),
        sized_text(a.wire_framing_digest),
        sized_text(a.output_reservation_id),
        be16(a.output_reservation_version),
        a12,
    );
    lemma_right_twelve(
        counter_domain(),
        sized_text(b.registry_id),
        be16(b.registry_version),
        sized_text(b.algorithm_id),
        be16(b.algorithm_version),
        sized_text(b.algorithm_digest),
        sized_text(b.vocabulary_digest),
        sized_text(b.wire_framing_id),
        be16(b.wire_framing_version),
        sized_text(b.wire_framing_digest),
        sized_text(b.output_reservation_id),
        be16(b.output_reservation_version),
        b12,
    );
    lemma_split(counter_domain(), counter_domain(), a1, b1);
    lemma_sized_text(a.registry_id, b.registry_id, a2, b2);
    lemma_be16(a.registry_version, b.registry_version, a3, b3);
    lemma_sized_text(a.algorithm_id, b.algorithm_id, a4, b4);
    lemma_be16(a.algorithm_version, b.algorithm_version, a5, b5);
    lemma_sized_text(a.algorithm_digest, b.algorithm_digest, a6, b6);
    lemma_sized_text(a.vocabulary_digest, b.vocabulary_digest, a7, b7);
    lemma_sized_text(a.wire_framing_id, b.wire_framing_id, a8, b8);
    lemma_be16(a.wire_framing_version, b.wire_framing_version, a9, b9);
    lemma_sized_text(a.wire_framing_digest, b.wire_framing_digest, a10, b10);
    lemma_sized_text(a.output_reservation_id, b.output_reservation_id, a11, b11);
    lemma_be16(a.output_reservation_version, b.output_reservation_version, a12, b12);
    assert(a12 + Seq::<u8>::empty() =~= a12);
    assert(b12 + Seq::<u8>::empty() =~= b12);
    lemma_sized_text(
        a.output_reservation_digest,
        b.output_reservation_digest,
        Seq::empty(),
        Seq::empty(),
    );
}

/// The preimages of component digests are equal exactly when the versions and
/// the bytes are.
pub proof fn lemma_component_preimage(
    domain: Seq<u8>,
    registry_a: u16,
    version_a: u16,
    a: Seq<u8>,
    registry_b: u16,
    version_b: u16,
    b: Seq<u8>,
)
    requires
        a.len() <= u64::MAX,
        b.len() <= u64::MAX,
    ensures
        component_preimage(domain, registry_a, version_a, a) == component_preimage(
            domain,
            registry_b,
            version_b,
            b,
        ) <==> registry_a == registry_b && version_a == version_b && a == b,
{
    let a3 = be64(a.len() as u64) + a;
    let b3 = be64(b.len() as u64) + b;
    let a2 = be16(version_a) + a3;
    let b2 = be16(version_b) + b3;
    let a1 = be16(registry_a) + a2;
    let b1 = be16(registry_b) + b2;
    assert(component_preimage(domain, registry_a, version_a, a) =~= domain + a1);
    assert(component_preimage(domain, registry_b, version_b, b) =~= domain + b1);
    if domain + a1 == domain + b1 {
        lemma_split(domain, domain, a1, b1);
        lemma_be16(registry_a, registry_b, a2, b2);
        lemma_be16(version_a, version_b, a3, b3);
        lemma_be64(a.len() as u64, b.len() as u64, a, b);
    }
}

// ---------------------------------------------------------------------------
// Catalogs
// ---------------------------------------------------------------------------

/// Whether two optional texts are the same.
pub open spec fn same_optional_text(a: Option<String>, b: Option<String>) -> bool {
    match (a, b) {
        (None, None) => true,
        (Some(a), Some(b)) => a@ == b@,
        _ => false,
    }
}

/// Whether two catalog entries have the same texts, capabilities and limits.
pub open spec fn same_catalog_entry(a: CatalogEntry, b: CatalogEntry) -> bool {
    &&& selection_tag(a.selection) == selection_tag(b.selection)
    &&& selection_text(a.selection) == selection_text(b.selection)
    &&& a.current_model.text@ == b.current_model.text@
    &&& same_optional_text(a.display_name, b.display_name)
    &&& a.input_modalities@ == b.input_modalities@
    &&& a.tool_capability == b.tool_capability
    &&& a.reasoning_capability == b.reasoning_capability
    &&& a.context_tokens == b.context_tokens
    &&& a.max_output_tokens == b.max_output_tokens
    &&& a.completion_operation.text@ == b.completion_operation.text@
}

/// Whether two lists hold the same catalog entries in the same order.
pub open spec fn same_catalog_entries(a: Seq<CatalogEntry>, b: Seq<CatalogEntry>) -> bool {
    &&& a.len() == b.len()
    &&& forall|i: int| 0 <= i < a.len() ==> same_catalog_entry(#[trigger] a[i], b[i])
}

proof fn lemma_optional_text(a: Option<String>, b: Option<String>, x: Seq<u8>, y: Seq<u8>)
    requires
        a matches Some(text) ==> text_fits(text@),
        b matches Some(text) ==> text_fits(text@),
        optional_text_bytes(a) + x == optional_text_bytes(b) + y,
    ensures
        same_optional_text(a, b),
        x == y,
{
    let rest_a = match a {
        None => x,
        Some(text) => sized_text(text@) + x,
    };
    let rest_b = match b {
        None => y,
        Some(text) => sized_text(text@) + y,
    };
    let tag_a: u8 = if a is Some {
        1
    } else {
        0
    };
    let tag_b: u8 = if b is Some {
        1
    } else {
        0
    };
    assert(optional_text_bytes(a) + x =~= seq![tag_a] + rest_a);
    assert(optional_text_bytes(b) + y =~= seq![tag_b] + rest_b);
    lemma_byte(tag_a, tag_b, rest_a, rest_b);
    if a is Some {
        lemma_sized_text(a->Some_0@, b->Some_0@, x, y);
    }
}

proof fn lemma_optional_number(a: Option<u64>, b: Option<u64>, x: Seq<u8>, y: Seq<u8>)
    requires
        optional_number_bytes(a) + x == optional_number_bytes(b) + y,
    ensures
        a == b,
        x == y,
{
    let rest_a = match a {
        None => x,
        Some(value) => be64(value) + x,
    };
    let rest_b = match b {
        None => y,
        Some(value) => be64(value) + y,
    };
    let tag_a: u8 = if a is Some {
        1
    } else {
        0
    };
    let tag_b: u8 = if b is Some {
        1
    } else {
        0
    };
    assert(optional_number_bytes(a) + x =~= seq![tag_a] + rest_a);
    assert(optional_number_bytes(b) + y =~= seq![tag_b] + rest_b);
    lemma_byte(tag_a, tag_b, rest_a, rest_b);
    if a is Some {
        lemma_be64(a->Some_0, b->Some_0, x, y);
    }
}

proof fn lemma_modalities(
    a: Seq<InputModality>,
    b: Seq<InputModality>,
    x: Seq<u8>,
    y: Seq<u8>,
)
    requires
        a.len() <= u32::MAX,
        b.len() <= u32::MAX,
        be32(a.len() as u32) + (modality_bytes(a) + x) == be32(b.len() as u32) + (modality_bytes(b)
            + y),
    ensures
        a == b,
        x == y,
{
    lemma_be32(a.len() as u32, b.len() as u32, modality_bytes(a) + x, modality_bytes(b) + y);
    lemma_split(modality_bytes(a), modality_bytes(b), x, y);
    assert forall|i: int| 0 <= i < a.len() implies a[i] == b[i] by {
        assert(modality_bytes(a)[i] == modality_bytes(b)[i]);
        assert(modality_number(a[i]) == modality_number(b[i]));
    }
    assert(a =~= b);
}

proof fn lemma_catalog_entry(a: CatalogEntry, b: CatalogEntry, x: Seq<u8>, y: Seq<u8>)
    requires
        entry_fits(a),
        entry_fits(b),
        entry_bytes(a) + x == entry_bytes(b) + y,
    ensures
        same_catalog_entry(a, b),
        x == y,
{
    let a10 = sized_text(a.completion_operation.text@) + x;
    let b10 = sized_text(b.completion_operation.text@) + y;
    let a9 = optional_number_bytes(a.max_output_tokens) + a10;
    let b9 = optional_number_bytes(b.max_output_tokens) + b10;
    let a8 = optional_number_bytes(a.context_tokens) + a9;
    let b8 = optional_number_bytes(b.context_tokens) + b9;
    let a7 = reasoning_capability_bytes(a.reasoning_capability) + a8;
    let b7 = reasoning_capability_bytes(b.reasoning_capability) + b8;
    let a6 = tool_capability_bytes(a.tool_capability) + a7;
    let b6 = tool_capability_bytes(b.tool_capability) + b7;
    let a5 = be32(a.input_modalities@.len() as u32) + (modality_bytes(a.input_modalities@) + a6);
    let b5 = be32(b.input_modalities@.len() as u32) + (modality_bytes(b.input_modalities@) + b6);
    let a4 = optional_text_bytes(a.display_name) + a5;
    let b4 = optional_text_bytes(b.display_name) + b5;
    let a3 = sized_text(a.current_model.text@) + a4;
    let b3 = sized_text(b.current_model.text@) + b4;
    let a2 = sized(selection_bytes(a.selection)) + a3;
    let b2 = sized(selection_bytes(b.selection)) + b3;
    lemma_right_eleven(
        seq![selection_tag(a.selection)],
        sized(selection_bytes(a.selection)),
        sized_text(a.current_model.text@),
        optional_text_bytes(a.display_name),
        be32(a.input_modalities@.len() as u32),
        modality_bytes(a.input_modalities@),
        tool_capability_bytes(a.tool_capability),
        reasoning_capability_bytes(a.reasoning_capability),
        optional_number_bytes(a.context_tokens),
        optional_number_bytes(a.max_output_tokens),
        sized_text(a.completion_operation.text@),
        x,
    );
    lemma_right_eleven(
        seq![selection_tag(b.selection)],
        sized(selection_bytes(b.selection)),
        sized_text(b.current_model.text@),
        optional_text_bytes(b.display_name),
        be32(b.input_modalities@.len() as u32),
        modality_bytes(b.input_modalities@),
        tool_capability_bytes(b.tool_capability),
        reasoning_capability_bytes(b.reasoning_capability),
        optional_number_bytes(b.context_tokens),
        optional_number_bytes(b.max_output_tokens),
        sized_text(b.completion_operation.text@),
        y,
    );
    lemma_byte(selection_tag(a.selection), selection_tag(b.selection), a2, b2);
    lemma_sized(selection_bytes(a.selection), selection_bytes(b.selection), a3, b3);
    lemma_encoding_is_injective(selection_text(a.selection), selection_text(b.selection));
    lemma_sized_text(a.current_model.text@, b.current_model.text@, a4, b4);
    lemma_optional_text(a.display_name, b.display_name, a5, b5);
    lemma_modalities(a.input_modalities@, b.input_modalities@, a6, b6);
    let tools_a = tool_capability_bytes(a.tool_capability);
    let tools_b = tool_capability_bytes(b.tool_capability);
    lemma_split(tools_a, tools_b, a7, b7);
    assert(tools_a[0] == tools_b[0] && tools_a[1] == tools_b[1] && tools_a[2] == tools_b[2]
        && tools_a[3] == tools_b[3]);
    lemma_capability(a.tool_capability.tools, b.tool_capability.tools);
    lemma_capability(a.tool_capability.auto_choice, b.tool_capability.auto_choice);
    lemma_capability(a.tool_capability.none_choice, b.tool_capability.none_choice);
    lemma_capability(a.tool_capability.specific_choice, b.tool_capability.specific_choice);
    let reasoning_a = reasoning_capability_bytes(a.reasoning_capability);
    let reasoning_b = reasoning_capability_bytes(b.reasoning_capability);
    lemma_split(reasoning_a, reasoning_b, a8, b8);
    assert(reasoning_a[0] == reasoning_b[0] && reasoning_a[1] == reasoning_b[1] && reasoning_a[2]
        == reasoning_b[2] && reasoning_a[3] == reasoning_b[3]);
    lemma_capability(a.reasoning_capability.reasoning, b.reasoning_capability.reasoning);
    lemma_capability(a.reasoning_capability.effort, b.reasoning_capability.effort);
    lemma_capability(a.reasoning_capability.budget, b.reasoning_capability.budget);
    lemma_capability(a.reasoning_capability.proof, b.reasoning_capability.proof);
    lemma_optional_number(a.context_tokens, b.context_tokens, a9, b9);
    lemma_optional_number(a.max_output_tokens, b.max_output_tokens, a10, b10);
    lemma_sized_text(a.completion_operation.text@, b.completion_operation.text@, x, y);
}

proof fn lemma_capability(
    a: crate::provider_api::CapabilitySupport,
    b: crate::provider_api::CapabilitySupport,
)
    requires
        capability_number(a) == capability_number(b),
    ensures
        a == b,
{
}

/// The encodings of catalog entries.
pub open spec fn catalog_entry_piece() -> spec_fn(CatalogEntry) -> Seq<u8> {
    |entry: CatalogEntry| entry_bytes(entry)
}

proof fn lemma_entries_joined(entries: Seq<CatalogEntry>, n: int)
    requires
        0 <= n <= entries.len(),
    ensures
        entries_bytes(entries, n) == joined(entries.take(n), catalog_entry_piece()),
    decreases n,
{
    if n > 0 {
        lemma_entries_joined(entries, n - 1);
        assert(entries.take(n).drop_last() =~= entries.take(n - 1));
        assert(entries.take(n).last() == entries[n - 1]);
    } else {
        assert(entries.take(0) =~= Seq::empty());
    }
}

proof fn lemma_catalog_nesting(provider: Seq<char>, route: Seq<char>, entries: Seq<CatalogEntry>)
    ensures
        catalog_preimage(provider, route, entries) == catalog_domain() + (sized_text(provider) + (
        sized_text(route) + (counted(entries, catalog_entry_piece()) + Seq::<u8>::empty()))),
{
    lemma_entries_joined(entries, entries.len() as int);
    assert(entries.take(entries.len() as int) =~= entries);
    let pieces = joined(entries, catalog_entry_piece());
    let count = be32(entries.len() as u32);
    assert(count + pieces + Seq::<u8>::empty() =~= count + pieces);
    lemma_append(catalog_domain() + sized_text(provider) + sized_text(route), count, pieces);
    lemma_append(catalog_domain() + sized_text(provider), sized_text(route), count + pieces);
    lemma_append(catalog_domain(), sized_text(provider), sized_text(route) + (count + pieces));
}

/// The preimages of catalog digests are equal exactly when the provider, the
/// route, and the entries with their order are the same.
pub proof fn lemma_catalog_preimage(
    provider_a: Seq<char>,
    route_a: Seq<char>,
    a: Seq<CatalogEntry>,
    provider_b: Seq<char>,
    route_b: Seq<char>,
    b: Seq<CatalogEntry>,
)
    requires
        text_fits(provider_a),
        text_fits(route_a),
        text_fits(provider_b),
        text_fits(route_b),
        a.len() <= u32::MAX,
        b.len() <= u32::MAX,
        forall|i: int| 0 <= i < a.len() ==> entry_fits(#[trigger] a[i]),
        forall|i: int| 0 <= i < b.len() ==> entry_fits(#[trigger] b[i]),
    ensures
        catalog_preimage(provider_a, route_a, a) == catalog_preimage(provider_b, route_b, b) <==>
            provider_a == provider_b && route_a == route_b && same_catalog_entries(a, b),
{
    let piece = catalog_entry_piece();
    let a2 = counted(a, piece) + Seq::<u8>::empty();
    let b2 = counted(b, piece) + Seq::<u8>::empty();
    let a1 = sized_text(route_a) + a2;
    let b1 = sized_text(route_b) + b2;
    let domain = catalog_domain();
    lemma_catalog_nesting(provider_a, route_a, a);
    lemma_catalog_nesting(provider_b, route_b, b);
    if catalog_preimage(provider_a, route_a, a) == catalog_preimage(provider_b, route_b, b) {
        lemma_split(domain, domain, sized_text(provider_a) + a1, sized_text(provider_b) + b1);
        lemma_sized_text(provider_a, provider_b, a1, b1);
        lemma_sized_text(route_a, route_b, a2, b2);
        lemma_catalog_entries(a, b);
    }
    if same_catalog_entries(a, b) {
        assert forall|i: int| 0 <= i < a.len() implies piece(#[trigger] a[i]) == piece(b[i]) by {
            lemma_same_catalog_entry(a[i], b[i]);
        }
        lemma_same_joined(a, b, piece);
    }
}

proof fn lemma_same_catalog_entry(a: CatalogEntry, b: CatalogEntry)
    requires
        same_catalog_entry(a, b),
    ensures
        entry_bytes(a) == entry_bytes(b),
{
    assert(optional_text_bytes(a.display_name) == optional_text_bytes(b.display_name));
}

proof fn lemma_catalog_entries(a: Seq<CatalogEntry>, b: Seq<CatalogEntry>)
    requires
        a.len() <= u32::MAX,
        b.len() <= u32::MAX,
        forall|i: int| 0 <= i < a.len() ==> entry_fits(#[trigger] a[i]),
        forall|i: int| 0 <= i < b.len() ==> entry_fits(#[trigger] b[i]),
        counted(a, catalog_entry_piece()) + Seq::<u8>::empty() == counted(b, catalog_entry_piece())
            + Seq::<u8>::empty(),
    ensures
        same_catalog_entries(a, b),
{
    let piece = catalog_entry_piece();
    let fits = |entry: CatalogEntry| entry_fits(entry);
    let same = |a: CatalogEntry, b: CatalogEntry| same_catalog_entry(a, b);
    assert(delimits(piece, fits, same)) by {
        assert forall|a: CatalogEntry, b: CatalogEntry, x: Seq<u8>, y: Seq<u8>|
            fits(a) && fits(b) && #[trigger] (piece(a) + x) == #[trigger] (piece(b)
                + y) implies same(a, b) && x == y by {
            lemma_catalog_entry(a, b, x, y);
        }
    }
    assert forall|i: int| 0 <= i < a.len() implies fits(#[trigger] a[i]) by {}
    assert forall|i: int| 0 <= i < b.len() implies fits(#[trigger] b[i]) by {}
    lemma_counted(a, b, piece, fits, same, Seq::empty(), Seq::empty());
    assert forall|i: int| 0 <= i < a.len() implies same_catalog_entry(#[trigger] a[i], b[i]) by {
        assert(same(a[i], b[i]));
    }
}

// ---------------------------------------------------------------------------
// Contracts
// ---------------------------------------------------------------------------

/// Whether two path segments are the same.
pub open spec fn same_segment(a: Option<PathSegment>, b: Option<PathSegment>) -> bool {
    match (a, b) {
        (None, None) => true,
        (Some(PathSegment::Key(a)), Some(PathSegment::Key(b))) => a@ == b@,
        (Some(PathSegment::ArrayItem), Some(PathSegment::ArrayItem)) => true,
        _ => false,
    }
}

/// Whether two fixed scalars are the same.
pub open spec fn same_constant(a: TypedJsonConstant, b: TypedJsonConstant) -> bool {
    match (a, b) {
        (TypedJsonConstant::Null, TypedJsonConstant::Null) => true,
        (TypedJsonConstant::Boolean(a), TypedJsonConstant::Boolean(b)) => a == b,
        (TypedJsonConstant::Number(a), TypedJsonConstant::Number(b)) => a@ == b@,
        (TypedJsonConstant::String(a), TypedJsonConstant::String(b)) => a@ == b@,
        _ => false,
    }
}

/// Whether two nodes stand for the same.
pub open spec fn same_node_body(a: ContractNodeBody, b: ContractNodeBody) -> bool {
    match (a, b) {
        (ContractNodeBody::Object(a), ContractNodeBody::Object(b)) => a.children@ == b.children@,
        (ContractNodeBody::Array(a), ContractNodeBody::Array(b)) => a == b,
        (ContractNodeBody::Switch(a), ContractNodeBody::Switch(b)) => a.source == b.source
            && a.cases@ == b.cases@,
        (ContractNodeBody::Value(a), ContractNodeBody::Value(b)) => a == b,
        (ContractNodeBody::Constant(a), ContractNodeBody::Constant(b)) => same_constant(
            a.value,
            b.value,
        ),
        _ => false,
    }
}

/// Whether two nodes are the same.
pub open spec fn same_node(a: ContractNode, b: ContractNode) -> bool {
    &&& a.parent == b.parent
    &&& same_segment(a.segment, b.segment)
    &&& a.presence == b.presence
    &&& a.presence_source == b.presence_source
    &&& same_node_body(a.body, b.body)
}

/// Whether two token entries are the same.
pub open spec fn same_token(a: EnumTokenEntry, b: EnumTokenEntry) -> bool {
    a.variant_ordinal == b.variant_ordinal && a.token@ == b.token@
}

/// Whether two token tables are the same.
pub open spec fn same_table(a: EnumTokenTable, b: EnumTokenTable) -> bool {
    &&& a.source == b.source
    &&& a.entries@.len() == b.entries@.len()
    &&& forall|i: int| 0 <= i < a.entries@.len() ==> same_token(#[trigger] a.entries@[i], b.entries@[i])
}

/// Whether two lists of texts are the same.
pub open spec fn same_texts(a: Seq<String>, b: Seq<String>) -> bool {
    &&& a.len() == b.len()
    &&& forall|i: int| 0 <= i < a.len() ==> (#[trigger] a[i])@ == b[i]@
}

/// Whether two header rules are the same.
pub open spec fn same_rule(a: OrdinaryHeaderRule, b: OrdinaryHeaderRule) -> bool {
    match (a, b) {
        (OrdinaryHeaderRule::Fixed(a), OrdinaryHeaderRule::Fixed(b)) => a.name@ == b.name@
            && a.value@ == b.value@,
        (OrdinaryHeaderRule::OneOf(a), OrdinaryHeaderRule::OneOf(b)) => a.name@ == b.name@
            && same_texts(a.values@, b.values@) && a.required == b.required,
        _ => false,
    }
}

/// Whether two contracts are the same.
pub open spec fn same_contract(a: AdapterContractV1, b: AdapterContractV1) -> bool {
    &&& a.version == b.version
    &&& a.wire_id == b.wire_id
    &&& a.model_source == b.model_source
    &&& a.tree.root == b.tree.root
    &&& a.tree.nodes@.len() == b.tree.nodes@.len()
    &&& forall|i: int|
        0 <= i < a.tree.nodes@.len() ==> same_node(#[trigger] a.tree.nodes@[i], b.tree.nodes@[i])
    &&& a.tree.tables@.len() == b.tree.tables@.len()
    &&& forall|i: int|
        0 <= i < a.tree.tables@.len() ==> same_table(
            #[trigger] a.tree.tables@[i],
            b.tree.tables@[i],
        )
    &&& a.ordinary_header_rules@.len() == b.ordinary_header_rules@.len()
    &&& forall|i: int|
        0 <= i < a.ordinary_header_rules@.len() ==> same_rule(
            #[trigger] a.ordinary_header_rules@[i],
            b.ordinary_header_rules@[i],
        )
    &&& a.decoder_kind == b.decoder_kind
}

/// Two bytes in front.
proof fn lemma_two_bytes(a0: u8, a1: u8, b0: u8, b1: u8, x: Seq<u8>, y: Seq<u8>)
    requires
        seq![a0, a1] + x == seq![b0, b1] + y,
    ensures
        a0 == b0,
        a1 == b1,
        x == y,
{
    lemma_split(seq![a0, a1], seq![b0, b1], x, y);
    assert(seq![a0, a1][0] == seq![b0, b1][0]);
    assert(seq![a0, a1][1] == seq![b0, b1][1]);
}

/// The first byte of a sum whose beginning is not empty.
proof fn lemma_first(a: Seq<u8>, b: Seq<u8>, x: Seq<u8>, y: Seq<u8>)
    requires
        a.len() > 0,
        b.len() > 0,
        a + x == b + y,
    ensures
        a[0] == b[0],
{
    assert((a + x)[0] == a[0]);
    assert((b + y)[0] == b[0]);
}

proof fn lemma_optional_u32(a: Option<u32>, b: Option<u32>, x: Seq<u8>, y: Seq<u8>)
    requires
        optional_u32_bytes(a) + x == optional_u32_bytes(b) + y,
    ensures
        a == b,
        x == y,
{
    lemma_first(optional_u32_bytes(a), optional_u32_bytes(b), x, y);
    lemma_split(optional_u32_bytes(a), optional_u32_bytes(b), x, y);
    match (a, b) {
        (Some(left), Some(right)) => {
            lemma_byte(1, 1, be32(left), be32(right));
            lemma_be32_values(left, right);
        },
        _ => {},
    }
}

proof fn lemma_optional_tag(a: Option<u8>, b: Option<u8>, x: Seq<u8>, y: Seq<u8>)
    requires
        optional_tag_bytes(a) + x == optional_tag_bytes(b) + y,
    ensures
        a == b,
        x == y,
{
    lemma_first(optional_tag_bytes(a), optional_tag_bytes(b), x, y);
    lemma_split(optional_tag_bytes(a), optional_tag_bytes(b), x, y);
    match (a, b) {
        (Some(left), Some(right)) => {
            assert(optional_tag_bytes(a)[1] == optional_tag_bytes(b)[1]);
        },
        _ => {},
    }
}

proof fn lemma_segment(a: Option<PathSegment>, b: Option<PathSegment>, x: Seq<u8>, y: Seq<u8>)
    requires
        segment_fits(a),
        segment_fits(b),
        segment_bytes(a) + x == segment_bytes(b) + y,
    ensures
        same_segment(a, b),
        x == y,
{
    lemma_first(segment_bytes(a), segment_bytes(b), x, y);
    if a is Some && b is Some {
        assert((segment_bytes(a) + x)[1] == segment_bytes(a)[1]);
        assert((segment_bytes(b) + y)[1] == segment_bytes(b)[1]);
    }
    match (a, b) {
        (Some(PathSegment::Key(left)), Some(PathSegment::Key(right))) => {
            lemma_append(seq![1u8, 0u8], sized_text(left@), x);
            lemma_append(seq![1u8, 0u8], sized_text(right@), y);
            lemma_two_bytes(1, 0, 1, 0, sized_text(left@) + x, sized_text(right@) + y);
            lemma_sized_text(left@, right@, x, y);
        },
        _ => {
            lemma_split(segment_bytes(a), segment_bytes(b), x, y);
        },
    }
}

proof fn lemma_transform(a: AdapterTransform, b: AdapterTransform, x: Seq<u8>, y: Seq<u8>)
    requires
        transform_bytes(a) + x == transform_bytes(b) + y,
    ensures
        a == b,
        x == y,
{
    lemma_first(transform_bytes(a), transform_bytes(b), x, y);
    lemma_split(transform_bytes(a), transform_bytes(b), x, y);
    match (a, b) {
        (AdapterTransform::EnumToken(left), AdapterTransform::EnumToken(right)) => {
            assert(transform_bytes(a)[1] == transform_bytes(b)[1]);
            assert(transform_bytes(a)[2] == transform_bytes(b)[2]);
            assert(left / 256 == right / 256);
            assert(left % 256 == right % 256);
        },
        _ => {},
    }
}

proof fn lemma_constant(a: TypedJsonConstant, b: TypedJsonConstant, x: Seq<u8>, y: Seq<u8>)
    requires
        constant_fits(a),
        constant_fits(b),
        constant_bytes(a) + x == constant_bytes(b) + y,
    ensures
        same_constant(a, b),
        x == y,
{
    lemma_first(constant_bytes(a), constant_bytes(b), x, y);
    match (a, b) {
        (TypedJsonConstant::Number(left), TypedJsonConstant::Number(right)) => {
            lemma_append(seq![2u8], sized_text(left@), x);
            lemma_append(seq![2u8], sized_text(right@), y);
            lemma_byte(2, 2, sized_text(left@) + x, sized_text(right@) + y);
            lemma_sized_text(left@, right@, x, y);
        },
        (TypedJsonConstant::String(left), TypedJsonConstant::String(right)) => {
            lemma_append(seq![3u8], sized_text(left@), x);
            lemma_append(seq![3u8], sized_text(right@), y);
            lemma_byte(3, 3, sized_text(left@) + x, sized_text(right@) + y);
            lemma_sized_text(left@, right@, x, y);
        },
        _ => {
            lemma_split(constant_bytes(a), constant_bytes(b), x, y);
            if a is Boolean {
                assert(constant_bytes(a)[1] == constant_bytes(b)[1]);
            }
        },
    }
}

proof fn lemma_indexes(a: Seq<u32>, b: Seq<u32>, x: Seq<u8>, y: Seq<u8>)
    requires
        a.len() <= u32::MAX,
        b.len() <= u32::MAX,
        counted(a, index_piece()) + x == counted(b, index_piece()) + y,
    ensures
        a == b,
        x == y,
{
    let fits = |index: u32| true;
    let same = |a: u32, b: u32| a == b;
    assert(delimits(index_piece(), fits, same)) by {
        assert forall|a: u32, b: u32, x: Seq<u8>, y: Seq<u8>|
            fits(a) && fits(b) && #[trigger] (index_piece()(a) + x) == #[trigger] (index_piece()(b)
                + y) implies same(a, b) && x == y by {
            lemma_be32(a, b, x, y);
        }
    }
    lemma_counted(a, b, index_piece(), fits, same, x, y);
    assert forall|i: int| 0 <= i < a.len() implies a[i] == b[i] by {
        assert(same(a[i], b[i]));
    }
    assert(a =~= b);
}

proof fn lemma_cases(a: Seq<ContractCase>, b: Seq<ContractCase>, x: Seq<u8>, y: Seq<u8>)
    requires
        a.len() <= u32::MAX,
        b.len() <= u32::MAX,
        counted(a, case_piece()) + x == counted(b, case_piece()) + y,
    ensures
        a == b,
        x == y,
{
    let fits = |case: ContractCase| true;
    let same = |a: ContractCase, b: ContractCase| a == b;
    assert(delimits(case_piece(), fits, same)) by {
        assert forall|a: ContractCase, b: ContractCase, x: Seq<u8>, y: Seq<u8>|
            fits(a) && fits(b) && #[trigger] (case_piece()(a) + x) == #[trigger] (case_piece()(b)
                + y) implies same(a, b) && x == y by {
            lemma_append(seq![a.variant_ordinal], be32(a.node), x);
            lemma_append(seq![b.variant_ordinal], be32(b.node), y);
            lemma_byte(a.variant_ordinal, b.variant_ordinal, be32(a.node) + x, be32(b.node) + y);
            lemma_be32(a.node, b.node, x, y);
        }
    }
    lemma_counted(a, b, case_piece(), fits, same, x, y);
    assert forall|i: int| 0 <= i < a.len() implies a[i] == b[i] by {
        assert(same(a[i], b[i]));
    }
    assert(a =~= b);
}

proof fn lemma_array(left: ContractArray, right: ContractArray, x: Seq<u8>, y: Seq<u8>)
    requires
        body_bytes(ContractNodeBody::Array(left)) + x == body_bytes(ContractNodeBody::Array(right))
            + y,
    ensures
        left == right,
        x == y,
{
    let whole_a = body_bytes(ContractNodeBody::Array(left));
    let whole_b = body_bytes(ContractNodeBody::Array(right));
    lemma_split(whole_a, whole_b, x, y);
    let a2 = be32(left.min) + be32(left.max);
    let b2 = be32(right.min) + be32(right.max);
    let front_a = seq![1u8, collection_number(left.collection)];
    let front_b = seq![1u8, collection_number(right.collection)];
    lemma_append(front_a + be32(left.item), be32(left.min), be32(left.max));
    lemma_append(front_b + be32(right.item), be32(right.min), be32(right.max));
    lemma_append(front_a, be32(left.item), a2);
    lemma_append(front_b, be32(right.item), b2);
    lemma_two_bytes(
        1,
        collection_number(left.collection),
        1,
        collection_number(right.collection),
        be32(left.item) + a2,
        be32(right.item) + b2,
    );
    lemma_be32(left.item, right.item, a2, b2);
    lemma_be32(left.min, right.min, be32(left.max), be32(right.max));
    lemma_be32_values(left.max, right.max);
}

proof fn lemma_scalar_sources(a: AdapterScalarSource, b: AdapterScalarSource)
    requires
        scalar_source_number(a) == scalar_source_number(b),
    ensures
        a == b,
{
}

proof fn lemma_variant_sources(a: AdapterVariantSource, b: AdapterVariantSource)
    requires
        variant_source_number(a) == variant_source_number(b),
    ensures
        a == b,
{
}

proof fn lemma_object_body(left: ContractObject, right: ContractObject, x: Seq<u8>, y: Seq<u8>)
    requires
        body_fits(ContractNodeBody::Object(left)),
        body_fits(ContractNodeBody::Object(right)),
        body_bytes(ContractNodeBody::Object(left)) + x == body_bytes(ContractNodeBody::Object(right)) + y,
    ensures
        same_node_body(ContractNodeBody::Object(left), ContractNodeBody::Object(right)),
        x == y,
{
    let pieces_a = counted(left.children@, index_piece());
    let pieces_b = counted(right.children@, index_piece());
    lemma_append(seq![0u8], pieces_a, x);
    lemma_append(seq![0u8], pieces_b, y);
    lemma_byte(0, 0, pieces_a + x, pieces_b + y);
    lemma_indexes(left.children@, right.children@, x, y);
}

proof fn lemma_switch_body(left: ContractSwitch, right: ContractSwitch, x: Seq<u8>, y: Seq<u8>)
    requires
        body_fits(ContractNodeBody::Switch(left)),
        body_fits(ContractNodeBody::Switch(right)),
        body_bytes(ContractNodeBody::Switch(left)) + x == body_bytes(ContractNodeBody::Switch(right)) + y,
    ensures
        same_node_body(ContractNodeBody::Switch(left), ContractNodeBody::Switch(right)),
        x == y,
{
    let pieces_a = counted(left.cases@, case_piece());
    let pieces_b = counted(right.cases@, case_piece());
    let front_a = seq![2u8, variant_source_number(left.source)];
    let front_b = seq![2u8, variant_source_number(right.source)];
    lemma_append(front_a, pieces_a, x);
    lemma_append(front_b, pieces_b, y);
    lemma_two_bytes(
        2,
        variant_source_number(left.source),
        2,
        variant_source_number(right.source),
        pieces_a + x,
        pieces_b + y,
    );
    lemma_variant_sources(left.source, right.source);
    lemma_cases(left.cases@, right.cases@, x, y);
}

proof fn lemma_value_body(left: ContractValue, right: ContractValue, x: Seq<u8>, y: Seq<u8>)
    requires
        body_fits(ContractNodeBody::Value(left)),
        body_fits(ContractNodeBody::Value(right)),
        body_bytes(ContractNodeBody::Value(left)) + x == body_bytes(ContractNodeBody::Value(right)) + y,
    ensures
        same_node_body(ContractNodeBody::Value(left), ContractNodeBody::Value(right)),
        x == y,
{
    let front_a = seq![3u8, scalar_source_number(left.source)];
    let front_b = seq![3u8, scalar_source_number(right.source)];
    lemma_append(front_a, transform_bytes(left.transform), x);
    lemma_append(front_b, transform_bytes(right.transform), y);
    lemma_two_bytes(
        3,
        scalar_source_number(left.source),
        3,
        scalar_source_number(right.source),
        transform_bytes(left.transform) + x,
        transform_bytes(right.transform) + y,
    );
    lemma_scalar_sources(left.source, right.source);
    lemma_transform(left.transform, right.transform, x, y);
}

proof fn lemma_constant_body(left: ContractConstant, right: ContractConstant, x: Seq<u8>, y: Seq<u8>)
    requires
        body_fits(ContractNodeBody::Constant(left)),
        body_fits(ContractNodeBody::Constant(right)),
        body_bytes(ContractNodeBody::Constant(left)) + x == body_bytes(ContractNodeBody::Constant(right)) + y,
    ensures
        same_node_body(ContractNodeBody::Constant(left), ContractNodeBody::Constant(right)),
        x == y,
{
    lemma_append(seq![4u8], constant_bytes(left.value), x);
    lemma_append(seq![4u8], constant_bytes(right.value), y);
    lemma_byte(4, 4, constant_bytes(left.value) + x, constant_bytes(right.value) + y);
    lemma_constant(left.value, right.value, x, y);
}

/// The number of the form of a node.
spec fn form_number(body: ContractNodeBody) -> u8 {
    match body {
        ContractNodeBody::Object(_) => 0,
        ContractNodeBody::Array(_) => 1,
        ContractNodeBody::Switch(_) => 2,
        ContractNodeBody::Value(_) => 3,
        ContractNodeBody::Constant(_) => 4,
    }
}

proof fn lemma_form_number(body: ContractNodeBody)
    ensures
        body_bytes(body).len() > 0,
        body_bytes(body)[0] == form_number(body),
{
}

proof fn lemma_same_form(a: ContractNodeBody, b: ContractNodeBody, x: Seq<u8>, y: Seq<u8>)
    requires
        body_bytes(a) + x == body_bytes(b) + y,
    ensures
        form_number(a) == form_number(b),
{
    lemma_form_number(a);
    lemma_form_number(b);
    lemma_first(body_bytes(a), body_bytes(b), x, y);
}

#[verifier::rlimit(40)]
#[verifier::spinoff_prover]
proof fn lemma_node_body(a: ContractNodeBody, b: ContractNodeBody, x: Seq<u8>, y: Seq<u8>)
    requires
        body_fits(a),
        body_fits(b),
        body_bytes(a) + x == body_bytes(b) + y,
    ensures
        same_node_body(a, b),
        x == y,
{
    lemma_same_form(a, b, x, y);
    match (a, b) {
        (ContractNodeBody::Object(left), ContractNodeBody::Object(right)) => {
            lemma_object_body(left, right, x, y);
        },
        (ContractNodeBody::Array(left), ContractNodeBody::Array(right)) => {
            lemma_array(left, right, x, y);
        },
        (ContractNodeBody::Switch(left), ContractNodeBody::Switch(right)) => {
            lemma_switch_body(left, right, x, y);
        },
        (ContractNodeBody::Value(left), ContractNodeBody::Value(right)) => {
            lemma_value_body(left, right, x, y);
        },
        (ContractNodeBody::Constant(left), ContractNodeBody::Constant(right)) => {
            lemma_constant_body(left, right, x, y);
        },
        _ => {},
    }
}

proof fn lemma_node(a: ContractNode, b: ContractNode, x: Seq<u8>, y: Seq<u8>)
    requires
        node_fits(a),
        node_fits(b),
        node_bytes(a) + x == node_bytes(b) + y,
    ensures
        same_node(a, b),
        x == y,
{
    let a4 = body_bytes(a.body) + x;
    let b4 = body_bytes(b.body) + y;
    let a3 = optional_tag_bytes(presence_tag(a.presence_source)) + a4;
    let b3 = optional_tag_bytes(presence_tag(b.presence_source)) + b4;
    let a2 = seq![presence_number(a.presence)] + a3;
    let b2 = seq![presence_number(b.presence)] + b3;
    let a1 = segment_bytes(a.segment) + a2;
    let b1 = segment_bytes(b.segment) + b2;
    lemma_node_nesting(a, x);
    lemma_node_nesting(b, y);
    lemma_optional_u32(a.parent, b.parent, a1, b1);
    lemma_segment(a.segment, b.segment, a2, b2);
    lemma_byte(presence_number(a.presence), presence_number(b.presence), a3, b3);
    lemma_optional_tag(
        presence_tag(a.presence_source),
        presence_tag(b.presence_source),
        a4,
        b4,
    );
    lemma_node_body(a.body, b.body, x, y);
}

proof fn lemma_node_nesting(node: ContractNode, x: Seq<u8>)
    ensures
        node_bytes(node) + x == optional_u32_bytes(node.parent) + (segment_bytes(node.segment) + (
        seq![presence_number(node.presence)] + (optional_tag_bytes(
            presence_tag(node.presence_source),
        ) + (body_bytes(node.body) + x)))),
{
    let parent = optional_u32_bytes(node.parent);
    let segment = segment_bytes(node.segment);
    let presence = seq![presence_number(node.presence)];
    let tag = optional_tag_bytes(presence_tag(node.presence_source));
    let body = body_bytes(node.body);
    lemma_append(parent + segment + presence + tag, body, x);
    lemma_append(parent + segment + presence, tag, body + x);
    lemma_append(parent + segment, presence, tag + (body + x));
    lemma_append(parent, segment, presence + (tag + (body + x)));
}

proof fn lemma_tokens(a: Seq<EnumTokenEntry>, b: Seq<EnumTokenEntry>, x: Seq<u8>, y: Seq<u8>)
    requires
        a.len() <= u32::MAX,
        b.len() <= u32::MAX,
        forall|i: int| 0 <= i < a.len() ==> text_fits((#[trigger] a[i]).token@),
        forall|i: int| 0 <= i < b.len() ==> text_fits((#[trigger] b[i]).token@),
        counted(a, entry_piece()) + x == counted(b, entry_piece()) + y,
    ensures
        a.len() == b.len(),
        forall|i: int| 0 <= i < a.len() ==> same_token(#[trigger] a[i], b[i]),
        x == y,
{
    let fits = |entry: EnumTokenEntry| text_fits(entry.token@);
    let same = |a: EnumTokenEntry, b: EnumTokenEntry| same_token(a, b);
    assert(delimits(entry_piece(), fits, same)) by {
        assert forall|a: EnumTokenEntry, b: EnumTokenEntry, x: Seq<u8>, y: Seq<u8>|
            fits(a) && fits(b) && #[trigger] (entry_piece()(a) + x) == #[trigger] (entry_piece()(b)
                + y) implies same(a, b) && x == y by {
            let text_a = sized_text(a.token@);
            let text_b = sized_text(b.token@);
            lemma_append(seq![a.variant_ordinal], text_a, x);
            lemma_append(seq![b.variant_ordinal], text_b, y);
            lemma_byte(a.variant_ordinal, b.variant_ordinal, text_a + x, text_b + y);
            lemma_sized_text(a.token@, b.token@, x, y);
        }
    }
    assert forall|i: int| 0 <= i < a.len() implies fits(#[trigger] a[i]) by {}
    assert forall|i: int| 0 <= i < b.len() implies fits(#[trigger] b[i]) by {}
    lemma_counted(a, b, entry_piece(), fits, same, x, y);
    assert forall|i: int| 0 <= i < a.len() implies same_token(#[trigger] a[i], b[i]) by {
        assert(same(a[i], b[i]));
    }
}

proof fn lemma_table(a: EnumTokenTable, b: EnumTokenTable, x: Seq<u8>, y: Seq<u8>)
    requires
        table_fits(a),
        table_fits(b),
        table_bytes(a) + x == table_bytes(b) + y,
    ensures
        same_table(a, b),
        x == y,
{
    let source_a = enum_source_number(a.source);
    let source_b = enum_source_number(b.source);
    let pieces_a = counted(a.entries@, entry_piece());
    let pieces_b = counted(b.entries@, entry_piece());
    lemma_append(seq![source_a], pieces_a, x);
    lemma_append(seq![source_b], pieces_b, y);
    lemma_byte(source_a, source_b, pieces_a + x, pieces_b + y);
    lemma_tokens(a.entries@, b.entries@, x, y);
}

proof fn lemma_texts(a: Seq<String>, b: Seq<String>, x: Seq<u8>, y: Seq<u8>)
    requires
        a.len() <= u32::MAX,
        b.len() <= u32::MAX,
        forall|i: int| 0 <= i < a.len() ==> text_fits((#[trigger] a[i])@),
        forall|i: int| 0 <= i < b.len() ==> text_fits((#[trigger] b[i])@),
        counted(a, text_piece()) + x == counted(b, text_piece()) + y,
    ensures
        same_texts(a, b),
        x == y,
{
    let fits = |text: String| text_fits(text@);
    let same = |a: String, b: String| a@ == b@;
    assert(delimits(text_piece(), fits, same)) by {
        assert forall|a: String, b: String, x: Seq<u8>, y: Seq<u8>|
            fits(a) && fits(b) && #[trigger] (text_piece()(a) + x) == #[trigger] (text_piece()(b)
                + y) implies same(a, b) && x == y by {
            lemma_sized_text(a@, b@, x, y);
        }
    }
    assert forall|i: int| 0 <= i < a.len() implies fits(#[trigger] a[i]) by {}
    assert forall|i: int| 0 <= i < b.len() implies fits(#[trigger] b[i]) by {}
    lemma_counted(a, b, text_piece(), fits, same, x, y);
    assert forall|i: int| 0 <= i < a.len() implies (#[trigger] a[i])@ == b[i]@ by {
        assert(same(a[i], b[i]));
    }
}

proof fn lemma_rule(a: OrdinaryHeaderRule, b: OrdinaryHeaderRule, x: Seq<u8>, y: Seq<u8>)
    requires
        rule_fits(a),
        rule_fits(b),
        rule_bytes(a) + x == rule_bytes(b) + y,
    ensures
        same_rule(a, b),
        x == y,
{
    lemma_first(rule_bytes(a), rule_bytes(b), x, y);
    match (a, b) {
        (OrdinaryHeaderRule::Fixed(left), OrdinaryHeaderRule::Fixed(right)) => {
            let name_a = sized_text(left.name@);
            let name_b = sized_text(right.name@);
            let value_a = sized_text(left.value@);
            let value_b = sized_text(right.value@);
            lemma_append(seq![0u8] + name_a, value_a, x);
            lemma_append(seq![0u8] + name_b, value_b, y);
            lemma_append(seq![0u8], name_a, value_a + x);
            lemma_append(seq![0u8], name_b, value_b + y);
            lemma_byte(0, 0, name_a + (value_a + x), name_b + (value_b + y));
            lemma_sized_text(left.name@, right.name@, value_a + x, value_b + y);
            lemma_sized_text(left.value@, right.value@, x, y);
        },
        (OrdinaryHeaderRule::OneOf(left), OrdinaryHeaderRule::OneOf(right)) => {
            let name_a = sized_text(left.name@);
            let name_b = sized_text(right.name@);
            let values_a = counted(left.values@, text_piece());
            let values_b = counted(right.values@, text_piece());
            let flag_a = seq![flag(left.required)];
            let flag_b = seq![flag(right.required)];
            lemma_append(seq![1u8] + name_a + values_a, flag_a, x);
            lemma_append(seq![1u8] + name_b + values_b, flag_b, y);
            lemma_append(seq![1u8] + name_a, values_a, flag_a + x);
            lemma_append(seq![1u8] + name_b, values_b, flag_b + y);
            lemma_append(seq![1u8], name_a, values_a + (flag_a + x));
            lemma_append(seq![1u8], name_b, values_b + (flag_b + y));
            lemma_byte(
                1,
                1,
                name_a + (values_a + (flag_a + x)),
                name_b + (values_b + (flag_b + y)),
            );
            lemma_sized_text(
                left.name@,
                right.name@,
                values_a + (flag_a + x),
                values_b + (flag_b + y),
            );
            lemma_texts(left.values@, right.values@, flag_a + x, flag_b + y);
            lemma_byte(flag(left.required), flag(right.required), x, y);
        },
        _ => {},
    }
}

proof fn lemma_nodes(a: Seq<ContractNode>, b: Seq<ContractNode>, x: Seq<u8>, y: Seq<u8>)
    requires
        a.len() <= u32::MAX,
        b.len() <= u32::MAX,
        forall|i: int| 0 <= i < a.len() ==> node_fits(#[trigger] a[i]),
        forall|i: int| 0 <= i < b.len() ==> node_fits(#[trigger] b[i]),
        counted(a, node_piece()) + x == counted(b, node_piece()) + y,
    ensures
        a.len() == b.len(),
        forall|i: int| 0 <= i < a.len() ==> same_node(#[trigger] a[i], b[i]),
        x == y,
{
    let fits = |node: ContractNode| node_fits(node);
    let same = |a: ContractNode, b: ContractNode| same_node(a, b);
    assert(delimits(node_piece(), fits, same)) by {
        assert forall|a: ContractNode, b: ContractNode, x: Seq<u8>, y: Seq<u8>|
            fits(a) && fits(b) && #[trigger] (node_piece()(a) + x) == #[trigger] (node_piece()(b)
                + y) implies same(a, b) && x == y by {
            lemma_node(a, b, x, y);
        }
    }
    assert forall|i: int| 0 <= i < a.len() implies fits(#[trigger] a[i]) by {}
    assert forall|i: int| 0 <= i < b.len() implies fits(#[trigger] b[i]) by {}
    lemma_counted(a, b, node_piece(), fits, same, x, y);
    assert forall|i: int| 0 <= i < a.len() implies same_node(#[trigger] a[i], b[i]) by {
        assert(same(a[i], b[i]));
    }
}

proof fn lemma_tables(a: Seq<EnumTokenTable>, b: Seq<EnumTokenTable>, x: Seq<u8>, y: Seq<u8>)
    requires
        a.len() <= u32::MAX,
        b.len() <= u32::MAX,
        forall|i: int| 0 <= i < a.len() ==> table_fits(#[trigger] a[i]),
        forall|i: int| 0 <= i < b.len() ==> table_fits(#[trigger] b[i]),
        counted(a, table_piece()) + x == counted(b, table_piece()) + y,
    ensures
        a.len() == b.len(),
        forall|i: int| 0 <= i < a.len() ==> same_table(#[trigger] a[i], b[i]),
        x == y,
{
    let fits = |table: EnumTokenTable| table_fits(table);
    let same = |a: EnumTokenTable, b: EnumTokenTable| same_table(a, b);
    assert(delimits(table_piece(), fits, same)) by {
        assert forall|a: EnumTokenTable, b: EnumTokenTable, x: Seq<u8>, y: Seq<u8>|
            fits(a) && fits(b) && #[trigger] (table_piece()(a) + x) == #[trigger] (table_piece()(b)
                + y) implies same(a, b) && x == y by {
            lemma_table(a, b, x, y);
        }
    }
    assert forall|i: int| 0 <= i < a.len() implies fits(#[trigger] a[i]) by {}
    assert forall|i: int| 0 <= i < b.len() implies fits(#[trigger] b[i]) by {}
    lemma_counted(a, b, table_piece(), fits, same, x, y);
    assert forall|i: int| 0 <= i < a.len() implies same_table(#[trigger] a[i], b[i]) by {
        assert(same(a[i], b[i]));
    }
}

proof fn lemma_rules(
    a: Seq<OrdinaryHeaderRule>,
    b: Seq<OrdinaryHeaderRule>,
    x: Seq<u8>,
    y: Seq<u8>,
)
    requires
        a.len() <= u32::MAX,
        b.len() <= u32::MAX,
        forall|i: int| 0 <= i < a.len() ==> rule_fits(#[trigger] a[i]),
        forall|i: int| 0 <= i < b.len() ==> rule_fits(#[trigger] b[i]),
        counted(a, rule_piece()) + x == counted(b, rule_piece()) + y,
    ensures
        a.len() == b.len(),
        forall|i: int| 0 <= i < a.len() ==> same_rule(#[trigger] a[i], b[i]),
        x == y,
{
    let fits = |rule: OrdinaryHeaderRule| rule_fits(rule);
    let same = |a: OrdinaryHeaderRule, b: OrdinaryHeaderRule| same_rule(a, b);
    assert(delimits(rule_piece(), fits, same)) by {
        assert forall|a: OrdinaryHeaderRule, b: OrdinaryHeaderRule, x: Seq<u8>, y: Seq<u8>|
            fits(a) && fits(b) && #[trigger] (rule_piece()(a) + x) == #[trigger] (rule_piece()(b)
                + y) implies same(a, b) && x == y by {
            lemma_rule(a, b, x, y);
        }
    }
    assert forall|i: int| 0 <= i < a.len() implies fits(#[trigger] a[i]) by {}
    assert forall|i: int| 0 <= i < b.len() implies fits(#[trigger] b[i]) by {}
    lemma_counted(a, b, rule_piece(), fits, same, x, y);
    assert forall|i: int| 0 <= i < a.len() implies same_rule(#[trigger] a[i], b[i]) by {
        assert(same(a[i], b[i]));
    }
}

proof fn lemma_contract_nesting(contract: AdapterContractV1)
    ensures
        contract_bytes(contract) == contract_domain() + (seq![
            contract.version,
            contract.wire_id.number(),
            model_source_number(contract.model_source),
        ] + (be32(contract.tree.root) + (counted(contract.tree.nodes@, node_piece()) + (counted(
            contract.tree.tables@,
            table_piece(),
        ) + (counted(contract.ordinary_header_rules@, rule_piece()) + seq![
            contract.decoder_kind.number(),
        ]))))),
{
    let domain = contract_domain();
    let front = seq![
        contract.version,
        contract.wire_id.number(),
        model_source_number(contract.model_source),
    ];
    let root = be32(contract.tree.root);
    let nodes = counted(contract.tree.nodes@, node_piece());
    let tables = counted(contract.tree.tables@, table_piece());
    let rules = counted(contract.ordinary_header_rules@, rule_piece());
    let decoder = seq![contract.decoder_kind.number()];
    lemma_append(domain + front + root + nodes + tables, rules, decoder);
    lemma_append(domain + front + root + nodes, tables, rules + decoder);
    lemma_append(domain + front + root, nodes, tables + (rules + decoder));
    lemma_append(domain + front, root, nodes + (tables + (rules + decoder)));
    lemma_append(domain, front, root + (nodes + (tables + (rules + decoder))));
}

proof fn lemma_same_segment(a: Option<PathSegment>, b: Option<PathSegment>)
    requires
        same_segment(a, b),
    ensures
        segment_bytes(a) == segment_bytes(b),
{
}

proof fn lemma_same_node(a: ContractNode, b: ContractNode)
    requires
        same_node(a, b),
    ensures
        node_bytes(a) == node_bytes(b),
{
    lemma_same_segment(a.segment, b.segment);
    match (a.body, b.body) {
        (ContractNodeBody::Constant(left), ContractNodeBody::Constant(right)) => {
            assert(constant_bytes(left.value) == constant_bytes(right.value));
        },
        _ => {},
    }
    assert(body_bytes(a.body) == body_bytes(b.body));
}

proof fn lemma_same_table(a: EnumTokenTable, b: EnumTokenTable)
    requires
        same_table(a, b),
    ensures
        table_bytes(a) == table_bytes(b),
{
    assert forall|i: int| 0 <= i < a.entries@.len() implies entry_piece()(#[trigger] a.entries@[i])
        == entry_piece()(b.entries@[i]) by {
        assert(same_token(a.entries@[i], b.entries@[i]));
    }
    lemma_same_joined(a.entries@, b.entries@, entry_piece());
}

proof fn lemma_same_rule(a: OrdinaryHeaderRule, b: OrdinaryHeaderRule)
    requires
        same_rule(a, b),
    ensures
        rule_bytes(a) == rule_bytes(b),
{
    match (a, b) {
        (OrdinaryHeaderRule::OneOf(left), OrdinaryHeaderRule::OneOf(right)) => {
            lemma_same_joined(left.values@, right.values@, text_piece());
        },
        _ => {},
    }
}

proof fn lemma_same_contract(a: AdapterContractV1, b: AdapterContractV1)
    requires
        same_contract(a, b),
    ensures
        contract_bytes(a) == contract_bytes(b),
{
    assert forall|i: int| 0 <= i < a.tree.nodes@.len() implies node_piece()(
        #[trigger] a.tree.nodes@[i],
    ) == node_piece()(b.tree.nodes@[i]) by {
        lemma_same_node(a.tree.nodes@[i], b.tree.nodes@[i]);
    }
    lemma_same_joined(a.tree.nodes@, b.tree.nodes@, node_piece());
    assert forall|i: int| 0 <= i < a.tree.tables@.len() implies table_piece()(
        #[trigger] a.tree.tables@[i],
    ) == table_piece()(b.tree.tables@[i]) by {
        lemma_same_table(a.tree.tables@[i], b.tree.tables@[i]);
    }
    lemma_same_joined(a.tree.tables@, b.tree.tables@, table_piece());
    assert forall|i: int| 0 <= i < a.ordinary_header_rules@.len() implies rule_piece()(
        #[trigger] a.ordinary_header_rules@[i],
    ) == rule_piece()(b.ordinary_header_rules@[i]) by {
        lemma_same_rule(a.ordinary_header_rules@[i], b.ordinary_header_rules@[i]);
    }
    lemma_same_joined(a.ordinary_header_rules@, b.ordinary_header_rules@, rule_piece());
}

/// The preimages of contract digests are equal exactly when the contracts are
/// the same, down to every node, token and header rule.
pub proof fn lemma_contract_preimage(a: AdapterContractV1, b: AdapterContractV1)
    requires
        contract_fits(a),
        contract_fits(b),
    ensures
        contract_bytes(a) == contract_bytes(b) <==> same_contract(a, b),
{
    if contract_bytes(a) == contract_bytes(b) {
        lemma_contract(a, b);
    }
    if same_contract(a, b) {
        lemma_same_contract(a, b);
    }
}

proof fn lemma_contract(a: AdapterContractV1, b: AdapterContractV1)
    requires
        contract_fits(a),
        contract_fits(b),
        contract_bytes(a) == contract_bytes(b),
    ensures
        same_contract(a, b),
{
    lemma_contract_nesting(a);
    lemma_contract_nesting(b);
    let domain = contract_domain();
    let front_a = seq![a.version, a.wire_id.number(), model_source_number(a.model_source)];
    let front_b = seq![b.version, b.wire_id.number(), model_source_number(b.model_source)];
    let a5 = seq![a.decoder_kind.number()];
    let b5 = seq![b.decoder_kind.number()];
    let a4 = counted(a.ordinary_header_rules@, rule_piece()) + a5;
    let b4 = counted(b.ordinary_header_rules@, rule_piece()) + b5;
    let a3 = counted(a.tree.tables@, table_piece()) + a4;
    let b3 = counted(b.tree.tables@, table_piece()) + b4;
    let a2 = counted(a.tree.nodes@, node_piece()) + a3;
    let b2 = counted(b.tree.nodes@, node_piece()) + b3;
    let a1 = be32(a.tree.root) + a2;
    let b1 = be32(b.tree.root) + b2;
    lemma_split(domain, domain, front_a + a1, front_b + b1);
    lemma_split(front_a, front_b, a1, b1);
    assert(front_a[0] == front_b[0] && front_a[1] == front_b[1] && front_a[2] == front_b[2]);
    lemma_be32(a.tree.root, b.tree.root, a2, b2);
    lemma_nodes(a.tree.nodes@, b.tree.nodes@, a3, b3);
    lemma_tables(a.tree.tables@, b.tree.tables@, a4, b4);
    lemma_rules(a.ordinary_header_rules@, b.ordinary_header_rules@, a5, b5);
    assert(a5[0] == b5[0]);
}

} // verus!
