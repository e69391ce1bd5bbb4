//! Digests of different kinds are taken of different bytes.

use vstd::prelude::*;
use vstd::utf8::{encode_utf8, is_ascii_chars, is_ascii_chars_encode_utf8};

use crate::provider_validation::adapter::digest::{body_domain, contract_domain, header_domain};
use crate::provider_validation::catalog::catalog_domain;
use crate::provider_validation::context_counter::{
    algorithm_domain, counter_domain, output_reservation_domain, vocabulary_domain,
    wire_framing_domain,
};

verus! {

/// The domains of all digests.
pub open spec fn domains() -> Seq<Seq<u8>> {
    seq![
        contract_domain(),
        body_domain(),
        header_domain(),
        catalog_domain(),
        counter_domain(),
        algorithm_domain(),
        vocabulary_domain(),
        wire_framing_domain(),
        output_reservation_domain(),
    ]
}

/// Three bytes of a domain, behind what all domains begin with.
spec fn mark(bytes: Seq<u8>) -> (u8, u8, u8) {
    (bytes[15], bytes[16], bytes[23])
}

proof fn lemma_mark(text: Seq<char>)
    requires
        is_ascii_chars(text),
        text.len() >= 24,
    ensures
        encode_utf8(text).len() >= 24,
        mark(encode_utf8(text)) == (text[15] as u8, text[16] as u8, text[23] as u8),
{
    is_ascii_chars_encode_utf8(text);
}

proof fn lemma_adapter_marks()
    ensures
        contract_domain().len() >= 24,
        body_domain().len() >= 24,
        header_domain().len() >= 24,
        catalog_domain().len() >= 24,
        mark(contract_domain()).0 == 97,
        mark(body_domain()).0 == 119,
        mark(header_domain()).0 == 111,
        mark(catalog_domain()).0 == 99,
        mark(catalog_domain()).1 == 97,
{
    reveal_strlit("mcode-provider-adapter-contract-v1\0");
    reveal_strlit("mcode-provider-wire-body-v1\0");
    reveal_strlit("mcode-provider-ordinary-headers-v1\0");
    reveal_strlit("mcode-provider-catalog-v1\0");
    lemma_mark("mcode-provider-adapter-contract-v1\0"@);
    lemma_mark("mcode-provider-wire-body-v1\0"@);
    lemma_mark("mcode-provider-ordinary-headers-v1\0"@);
    lemma_mark("mcode-provider-catalog-v1\0"@);
}

proof fn lemma_counter_marks()
    ensures
        counter_domain().len() >= 24,
        algorithm_domain().len() >= 24,
        vocabulary_domain().len() >= 24,
        wire_framing_domain().len() >= 24,
        output_reservation_domain().len() >= 24,
        mark(counter_domain()) == (99u8, 111u8, 99u8),
        mark(algorithm_domain()) == (99u8, 111u8, 97u8),
        mark(vocabulary_domain()) == (99u8, 111u8, 118u8),
        mark(wire_framing_domain()) == (99u8, 111u8, 119u8),
        mark(output_reservation_domain()) == (99u8, 111u8, 111u8),
{
    reveal_strlit("mcode-provider-context-counter-ref-v1\0");
    reveal_strlit("mcode-provider-context-algorithm-v1\0");
    reveal_strlit("mcode-provider-context-vocabulary-v1\0");
    reveal_strlit("mcode-provider-context-wire-framing-v1\0");
    reveal_strlit("mcode-provider-context-output-reservation-v1\0");
    lemma_mark("mcode-provider-context-counter-ref-v1\0"@);
    lemma_mark("mcode-provider-context-algorithm-v1\0"@);
    lemma_mark("mcode-provider-context-vocabulary-v1\0"@);
    lemma_mark("mcode-provider-context-wire-framing-v1\0"@);
    lemma_mark("mcode-provider-context-output-reservation-v1\0"@);
}

/// No bytes begin with two domains, so that digests of different kinds are
/// never taken of the same bytes.
pub proof fn lemma_domains_are_separate(i: int, j: int, x: Seq<u8>, y: Seq<u8>)
    requires
        0 <= i < j < domains().len(),
    ensures
        domains()[i] + x != domains()[j] + y,
{
    lemma_adapter_marks();
    lemma_counter_marks();
    let left = domains()[i] + x;
    let right = domains()[j] + y;
    assert(mark(left) == mark(domains()[i]));
    assert(mark(right) == mark(domains()[j]));
    assert(mark(left) != mark(right));
}

} // verus!
