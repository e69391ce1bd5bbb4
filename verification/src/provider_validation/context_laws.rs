//! How many tokens a request needs, and which counters measure it.

use vstd::prelude::*;

use crate::provider_api::PrepareInput;
use crate::provider_validation::adapter::digest::{digest_of, wire_body_bytes};
use crate::provider_validation::context_counter::{
    compiled_of, context_verdict, counter_bytes, has_components, has_profile_names,
    is_counter_ref, is_local_id, is_only_match, is_profile, lemma_magic_lengths,
    lemma_tokens_round_up, measured, registered, spelled, tokens_for, word64, CompiledCounter,
    ComponentsModel, EntryModel, MeasurementFacts, ProfileField, ProfileValue, ReferenceText,
};
use crate::provider_validation::charge_laws::text_size;
use crate::provider_validation::prepare::{prepare_verdict, SelectedCatalogView};
use crate::provider_validation::request_laws::{lemma_requests, request_cost};
use crate::provider_validation::scalar_laws::{is_marked_hex, lemma_digest};
use crate::provider_validation::{ValidationError, ValidationResult};
use crate::resources_laws::is_local;

verus! {

/// What is measured of a body and a request: each of its bytes and each unit of its
/// charge, with their weights.
pub open spec fn load_of(compiled: CompiledCounter, facts: MeasurementFacts) -> int {
    facts.body_bytes * compiled.body_byte_weight + facts.prepare_logical_charge
        * compiled.prepare_charge_weight
}

/// The tokens that are added to those of the load: the framing, and the output that
/// is asked for or else the usual one.
pub open spec fn added_tokens(compiled: CompiledCounter, facts: MeasurementFacts) -> int {
    compiled.framing_tokens + match facts.requested_output_tokens {
        Some(tokens) => tokens as int,
        None => compiled.default_output_tokens as int,
    }
}

/// A measurement counts the fewest tokens that hold the load, and those that are
/// added. It fails for its argument only when a token holds nothing, and for its
/// size only when a sum leaves 64 bits.
pub proof fn lemma_measurements(compiled: CompiledCounter, facts: MeasurementFacts)
    ensures
        match measured(compiled, facts) {
            Ok(required) => {
                let tokens = required - added_tokens(compiled, facts);
                &&& compiled.bytes_per_token > 0
                &&& tokens * compiled.bytes_per_token >= load_of(compiled, facts)
                &&& (tokens - 1) * compiled.bytes_per_token < load_of(compiled, facts)
            },
            Err(ValidationError::InvalidArgument) => compiled.bytes_per_token == 0,
            Err(ValidationError::Limit) => {
                ||| load_of(compiled, facts) + compiled.bytes_per_token > 0xffff_ffff_ffff_ffff
                ||| tokens_for(load_of(compiled, facts), compiled.bytes_per_token as int)
                    + added_tokens(compiled, facts) > 0xffff_ffff_ffff_ffff
            },
        },
{
    let load = load_of(compiled, facts);
    assert(0 <= load) by (nonlinear_arith)
        requires
            load == facts.body_bytes * compiled.body_byte_weight + facts.prepare_logical_charge
                * compiled.prepare_charge_weight,
    ;
    if compiled.bytes_per_token > 0 {
        lemma_tokens_round_up(load, compiled.bytes_per_token as int);
    }
}

/// A counter is found exactly when there is one entry with its reference, and only
/// one.
pub proof fn lemma_lookups(entries: Seq<EntryModel>, reference: ReferenceText, entry: EntryModel)
    ensures
        registered(entries, reference) == Some(entry) <==> exists|i: int|
            0 <= i < entries.len() && #[trigger] entries[i] == entry && entry.reference == reference
                && forall|j: int|
                0 <= j < entries.len() && j != i ==> (#[trigger] entries[j]).reference != reference,
{
    if exists|i: int|
        0 <= i < entries.len() && #[trigger] entries[i] == entry && entry.reference == reference
            && forall|j: int|
            0 <= j < entries.len() && j != i ==> (#[trigger] entries[j]).reference != reference {
        let i = choose|i: int|
            0 <= i < entries.len() && #[trigger] entries[i] == entry && entry.reference == reference
                && forall|j: int|
                0 <= j < entries.len() && j != i ==> (#[trigger] entries[j]).reference != reference;
        assert(is_only_match(entries, reference, i));
        let k = choose|k: int| is_only_match(entries, reference, k);
        assert(k == i);
    }
    if registered(entries, reference) == Some(entry) {
        let k = choose|k: int| is_only_match(entries, reference, k);
        assert(entries[k] == entry);
    }
}

/// A request is measured exactly when the digests are those of the body and of the
/// counter, the request is accepted, the counter is registered under that digest, and
/// the tokens are within the context of the model. The measurement is over the bytes
/// of the body, the cost of the request and the output that it asks for.
pub proof fn lemma_contexts(
    entries: Seq<EntryModel>,
    selected: SelectedCatalogView<'_>,
    original: PrepareInput,
    body: Seq<u8>,
    body_digest: Seq<char>,
    reference: ReferenceText,
    counter_digest: Seq<char>,
    required: u64,
)
    ensures
        context_verdict(
            entries,
            selected,
            original,
            body,
            body_digest,
            reference,
            counter_digest,
        ) == ValidationResult::<u64>::Ok(required) <==> {
            &&& is_marked_hex(body_digest, "sha256:"@, 64)
            &&& is_marked_hex(counter_digest, "sha256:"@, 64)
            &&& is_counter_ref(reference)
            &&& digest_of(wire_body_bytes(body)) == body_digest
            &&& digest_of(counter_bytes(reference)) == counter_digest
            &&& prepare_verdict(original, selected) is Ok
            &&& registered(entries, reference) matches Some(entry) && {
                &&& entry.counter_digest == counter_digest
                &&& entry.components.algorithm.len() > 0
                &&& entry.components.vocabulary.len() > 0
                &&& entry.components.wire_framing.len() > 0
                &&& entry.components.output_reservation.len() > 0
                &&& measured(
                    entry.compiled,
                    MeasurementFacts {
                        body_bytes: body.len() as u64,
                        prepare_logical_charge: request_cost(original) as u64,
                        requested_output_tokens: original.max_output_tokens,
                    },
                ) == ValidationResult::<u64>::Ok(required)
            }
            &&& selected.entry.context_tokens matches Some(limit) ==> required <= limit
        },
{
    lemma_digest(body_digest);
    lemma_digest(counter_digest);
    lemma_requests(original, selected);
}

/// An identifier of a counter is a local name of at most 64 bytes.
pub proof fn lemma_counter_ids(text: Seq<char>)
    ensures
        is_local_id(text) <==> is_local(text) && text_size(text) <= 64,
{
}

/// A reference is well formed exactly when its four identifiers are, its four
/// versions are positive and its four digests have their form.
pub proof fn lemma_counter_refs(reference: ReferenceText)
    ensures
        is_counter_ref(reference) <==> {
            &&& is_local(reference.registry_id) && text_size(reference.registry_id) <= 64
            &&& is_local(reference.algorithm_id) && text_size(reference.algorithm_id) <= 64
            &&& is_local(reference.wire_framing_id) && text_size(reference.wire_framing_id) <= 64
            &&& is_local(reference.output_reservation_id) && text_size(
                reference.output_reservation_id,
            ) <= 64
            &&& reference.registry_version >= 1
            &&& reference.algorithm_version >= 1
            &&& reference.wire_framing_version >= 1
            &&& reference.output_reservation_version >= 1
            &&& is_marked_hex(reference.algorithm_digest, "sha256:"@, 64)
            &&& is_marked_hex(reference.vocabulary_digest, "sha256:"@, 64)
            &&& is_marked_hex(reference.wire_framing_digest, "sha256:"@, 64)
            &&& is_marked_hex(reference.output_reservation_digest, "sha256:"@, 64)
        },
{
    lemma_counter_ids(reference.registry_id);
    lemma_counter_ids(reference.algorithm_id);
    lemma_counter_ids(reference.wire_framing_id);
    lemma_counter_ids(reference.output_reservation_id);
    lemma_digest(reference.algorithm_digest);
    lemma_digest(reference.vocabulary_digest);
    lemma_digest(reference.wire_framing_digest);
    lemma_digest(reference.output_reservation_digest);
}

/// The numbers of a counter stand right behind the names of its parts: the weights of
/// bytes and of the charge in the algorithm, the size of a token in the vocabulary, and
/// the framing and the usual output in their own parts.
pub proof fn lemma_compiled_numbers(components: ComponentsModel)
    requires
        has_components(components),
    ensures
        ({
            let compiled = compiled_of(components);
            &&& components.algorithm.len() == 41
            &&& components.vocabulary.len() == 34
            &&& components.wire_framing.len() == 36
            &&& components.output_reservation.len() == 42
            &&& compiled.body_byte_weight == word64(components.algorithm, 25)
            &&& compiled.prepare_charge_weight == word64(components.algorithm, 33)
            &&& compiled.bytes_per_token == word64(components.vocabulary, 26)
            &&& compiled.framing_tokens == word64(components.wire_framing, 28)
            &&& compiled.default_output_tokens == word64(components.output_reservation, 34)
        }),
{
    lemma_magic_lengths();
}

/// Whether a field of a profile gives a text under a name.
pub open spec fn gives_text(field: ProfileField<'_>, name: Seq<char>, text: Seq<char>) -> bool {
    field.name@ == name && (field.value matches ProfileValue::String(value) && value@ == text)
}

/// Whether a field of a profile gives a version under a name.
pub open spec fn gives_version(field: ProfileField<'_>, name: Seq<char>, version: u16) -> bool {
    field.name@ == name && (field.value matches ProfileValue::Unsigned(value) && 1 <= value
        && value == version)
}

/// A profile spells a reference out exactly when it gives each part of it, in twelve
/// fields in order, and the reference is well formed.
pub proof fn lemma_profiles(fields: Seq<ProfileField<'_>>, reference: ReferenceText)
    ensures
        is_profile(fields) && spelled(fields) == reference <==> {
            &&& fields.len() == 12
            &&& gives_text(fields[0], "registry-id"@, reference.registry_id)
            &&& gives_version(fields[1], "registry-version"@, reference.registry_version)
            &&& gives_text(fields[2], "algorithm-id"@, reference.algorithm_id)
            &&& gives_version(fields[3], "algorithm-version"@, reference.algorithm_version)
            &&& gives_text(fields[4], "algorithm-digest"@, reference.algorithm_digest)
            &&& gives_text(fields[5], "vocabulary-digest"@, reference.vocabulary_digest)
            &&& gives_text(fields[6], "wire-framing-id"@, reference.wire_framing_id)
            &&& gives_version(fields[7], "wire-framing-version"@, reference.wire_framing_version)
            &&& gives_text(fields[8], "wire-framing-digest"@, reference.wire_framing_digest)
            &&& gives_text(fields[9], "output-reservation-id"@, reference.output_reservation_id)
            &&& gives_version(
                fields[10],
                "output-reservation-version"@,
                reference.output_reservation_version,
            )
            &&& gives_text(
                fields[11],
                "output-reservation-digest"@,
                reference.output_reservation_digest,
            )
            &&& is_counter_ref(reference)
        },
{
    if fields.len() == 12 {
        assert(has_profile_names(fields) <==> {
            &&& fields[0].name@ == "registry-id"@
            &&& fields[1].name@ == "registry-version"@
            &&& fields[2].name@ == "algorithm-id"@
            &&& fields[3].name@ == "algorithm-version"@
            &&& fields[4].name@ == "algorithm-digest"@
            &&& fields[5].name@ == "vocabulary-digest"@
            &&& fields[6].name@ == "wire-framing-id"@
            &&& fields[7].name@ == "wire-framing-version"@
            &&& fields[8].name@ == "wire-framing-digest"@
            &&& fields[9].name@ == "output-reservation-id"@
            &&& fields[10].name@ == "output-reservation-version"@
            &&& fields[11].name@ == "output-reservation-digest"@
        });
    }
}

} // verus!
