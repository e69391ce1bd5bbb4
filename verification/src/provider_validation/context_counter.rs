//! Closed dummy context-counter registry and pure measurement.
//!
//! There is no store, guest callback, credential, network or mutable global
//! state here. The only compiled entry is a dummy.

use vstd::prelude::*;
use vstd::utf8::{encode_utf8, is_ascii_chars_encode_utf8};

use crate::provider_api::{CatalogEntry, ModelSelection, PrepareInput};
use crate::provider_validation::adapter::digest::{digest_of, wire_body_bytes};
use crate::provider_validation::copies::{
    copy_bytes, copy_entry, copy_request, copy_selection, same_entry, same_request,
};
use crate::provider_validation::hashing::{
    be32, be64, digest_text, joined, lemma_append, lemma_digest_text_is_well_formed,
    lemma_joined_step, push_be64, push_sized, sha256_digest, sized_text,
};
use crate::provider_validation::prepare::{
    prepare_verdict, validate_prepare_input, SelectedCatalogView,
};
use crate::provider_validation::scalar::{is_digest, prefixed_hex};
use crate::provider_validation::wire_json::append_bytes;
use crate::provider_validation::{verdict, ValidationError, ValidationResult};
use crate::text::{byte_len, same_text, starts_with};

verus! {

/// The largest byte length of a local identifier.
pub const MAX_LOCAL_ID_BYTES: usize = 64;

/// The number of fields of a profile.
pub const PROFILE_FIELD_COUNT: usize = 12;

// ---------------------------------------------------------------------------
// References
// ---------------------------------------------------------------------------

/// Names a counter and binds the parts that it is made of.
#[derive(Debug, Clone, PartialEq, Eq)]
pub struct ContextCounterRefV1 {
    pub registry_id: String,
    pub registry_version: u16,
    pub algorithm_id: String,
    pub algorithm_version: u16,
    pub algorithm_digest: String,
    pub vocabulary_digest: String,
    pub wire_framing_id: String,
    pub wire_framing_version: u16,
    pub wire_framing_digest: String,
    pub output_reservation_id: String,
    pub output_reservation_version: u16,
    pub output_reservation_digest: String,
}

/// What a reference holds, over texts.
pub struct ReferenceText {
    pub registry_id: Seq<char>,
    pub registry_version: u16,
    pub algorithm_id: Seq<char>,
    pub algorithm_version: u16,
    pub algorithm_digest: Seq<char>,
    pub vocabulary_digest: Seq<char>,
    pub wire_framing_id: Seq<char>,
    pub wire_framing_version: u16,
    pub wire_framing_digest: Seq<char>,
    pub output_reservation_id: Seq<char>,
    pub output_reservation_version: u16,
    pub output_reservation_digest: Seq<char>,
}

impl View for ContextCounterRefV1 {
    type V = ReferenceText;

    open spec fn view(&self) -> ReferenceText {
        ReferenceText {
            registry_id: self.registry_id@,
            registry_version: self.registry_version,
            algorithm_id: self.algorithm_id@,
            algorithm_version: self.algorithm_version,
            algorithm_digest: self.algorithm_digest@,
            vocabulary_digest: self.vocabulary_digest@,
            wire_framing_id: self.wire_framing_id@,
            wire_framing_version: self.wire_framing_version,
            wire_framing_digest: self.wire_framing_digest@,
            output_reservation_id: self.output_reservation_id@,
            output_reservation_version: self.output_reservation_version,
            output_reservation_digest: self.output_reservation_digest@,
        }
    }
}

impl ContextCounterRefV1 {
    /// A copy of the reference.
    pub fn duplicate(&self) -> (copy: ContextCounterRefV1)
        ensures
            copy == *self,
    {
        ContextCounterRefV1 {
            registry_id: self.registry_id.clone(),
            registry_version: self.registry_version,
            algorithm_id: self.algorithm_id.clone(),
            algorithm_version: self.algorithm_version,
            algorithm_digest: self.algorithm_digest.clone(),
            vocabulary_digest: self.vocabulary_digest.clone(),
            wire_framing_id: self.wire_framing_id.clone(),
            wire_framing_version: self.wire_framing_version,
            wire_framing_digest: self.wire_framing_digest.clone(),
            output_reservation_id: self.output_reservation_id.clone(),
            output_reservation_version: self.output_reservation_version,
            output_reservation_digest: self.output_reservation_digest.clone(),
        }
    }

    /// Whether two references hold the same.
    pub fn same(&self, other: &ContextCounterRefV1) -> (equal: bool)
        ensures
            equal == (self@ == other@),
    {
        same_text(self.registry_id.as_str(), other.registry_id.as_str()) && self.registry_version
            == other.registry_version && same_text(
            self.algorithm_id.as_str(),
            other.algorithm_id.as_str(),
        ) && self.algorithm_version == other.algorithm_version && same_text(
            self.algorithm_digest.as_str(),
            other.algorithm_digest.as_str(),
        ) && same_text(self.vocabulary_digest.as_str(), other.vocabulary_digest.as_str())
            && same_text(self.wire_framing_id.as_str(), other.wire_framing_id.as_str())
            && self.wire_framing_version == other.wire_framing_version && same_text(
            self.wire_framing_digest.as_str(),
            other.wire_framing_digest.as_str(),
        ) && same_text(self.output_reservation_id.as_str(), other.output_reservation_id.as_str())
            && self.output_reservation_version == other.output_reservation_version && same_text(
            self.output_reservation_digest.as_str(),
            other.output_reservation_digest.as_str(),
        )
    }
}

/// A lowercase ASCII letter.
pub open spec fn is_lowercase(byte: u8) -> bool {
    97 <= byte <= 122
}

/// A byte of a local identifier after its first.
pub open spec fn is_local_byte(byte: u8) -> bool {
    is_lowercase(byte) || 48 <= byte <= 57 || byte == 45
}

/// A local identifier: a lowercase letter, then letters, digits and hyphens.
pub open spec fn is_local_id(value: Seq<char>) -> bool {
    let bytes = encode_utf8(value);
    &&& 0 < bytes.len() <= MAX_LOCAL_ID_BYTES
    &&& is_lowercase(bytes[0])
    &&& forall|i: int| 1 <= i < bytes.len() ==> is_local_byte(#[trigger] bytes[i])
}

/// Whether a reference is well formed.
pub open spec fn is_counter_ref(reference: ReferenceText) -> bool {
    &&& is_local_id(reference.registry_id)
    &&& is_local_id(reference.algorithm_id)
    &&& is_local_id(reference.wire_framing_id)
    &&& is_local_id(reference.output_reservation_id)
    &&& reference.registry_version > 0
    &&& reference.algorithm_version > 0
    &&& reference.wire_framing_version > 0
    &&& reference.output_reservation_version > 0
    &&& is_digest(reference.algorithm_digest)
    &&& is_digest(reference.vocabulary_digest)
    &&& is_digest(reference.wire_framing_digest)
    &&& is_digest(reference.output_reservation_digest)
}

/// The outcome of a test on an argument.
pub open spec fn argument(holds: bool) -> ValidationResult {
    verdict(holds, ValidationError::InvalidArgument)
}

/// Checks a local identifier.
pub fn validate_local_id(value: &str) -> (result: ValidationResult)
    ensures
        result == argument(is_local_id(value@)),
{
    let bytes = value.as_bytes();
    if bytes.len() == 0 || bytes.len() > MAX_LOCAL_ID_BYTES || bytes[0] < 97 || bytes[0] > 122 {
        return Err(ValidationError::InvalidArgument);
    }
    let mut i: usize = 1;
    while i < bytes.len()
        invariant
            1 <= i <= bytes@.len(),
            bytes@ == encode_utf8(value@),
            forall|j: int| 1 <= j < i ==> is_local_byte(#[trigger] bytes@[j]),
        decreases bytes.len() - i,
    {
        let byte: u8 = bytes[i];
        let local = (97 <= byte && byte <= 122) || (48 <= byte && byte <= 57) || byte == 45;
        if !local {
            assert(!is_local_byte(bytes@[i as int]));
            return Err(ValidationError::InvalidArgument);
        }
        i += 1;
    }
    Ok(())
}

/// Checks a digest.
pub fn validate_digest(value: &str) -> (result: ValidationResult)
    ensures
        result == argument(is_digest(value@)),
{
    if prefixed_hex(value.as_bytes(), "sha256:".as_bytes(), 64) {
        Ok(())
    } else {
        Err(ValidationError::InvalidArgument)
    }
}

/// Checks a reference.
pub fn validate_counter_ref(reference: &ContextCounterRefV1) -> (result: ValidationResult)
    ensures
        result == argument(is_counter_ref(reference@)),
{
    validate_local_id(reference.registry_id.as_str())?;
    validate_local_id(reference.algorithm_id.as_str())?;
    validate_local_id(reference.wire_framing_id.as_str())?;
    validate_local_id(reference.output_reservation_id.as_str())?;
    if reference.registry_version == 0 || reference.algorithm_version == 0
        || reference.wire_framing_version == 0 || reference.output_reservation_version == 0 {
        return Err(ValidationError::InvalidArgument);
    }
    validate_digest(reference.algorithm_digest.as_str())?;
    validate_digest(reference.vocabulary_digest.as_str())?;
    validate_digest(reference.wire_framing_digest.as_str())?;
    validate_digest(reference.output_reservation_digest.as_str())
}

// ---------------------------------------------------------------------------
// Profiles
// ---------------------------------------------------------------------------

/// A value of a profile field.
#[derive(Debug, Clone, Copy)]
pub enum ProfileValue<'a> {
    String(&'a str),
    Unsigned(u64),
    Boolean(bool),
    Null,
}

/// A field of a profile.
#[derive(Debug, Clone, Copy)]
pub struct ProfileField<'a> {
    pub name: &'a str,
    pub value: ProfileValue<'a>,
}

/// The name of profile field `i`.
pub open spec fn profile_name(i: int) -> Seq<char> {
    if i == 0 {
        "registry-id"@
    } else if i == 1 {
        "registry-version"@
    } else if i == 2 {
        "algorithm-id"@
    } else if i == 3 {
        "algorithm-version"@
    } else if i == 4 {
        "algorithm-digest"@
    } else if i == 5 {
        "vocabulary-digest"@
    } else if i == 6 {
        "wire-framing-id"@
    } else if i == 7 {
        "wire-framing-version"@
    } else if i == 8 {
        "wire-framing-digest"@
    } else if i == 9 {
        "output-reservation-id"@
    } else if i == 10 {
        "output-reservation-version"@
    } else {
        "output-reservation-digest"@
    }
}

/// The name of profile field `i`.
pub fn profile_field_name(i: usize) -> (name: &'static str)
    ensures
        name@ == profile_name(i as int),
{
    if i == 0 {
        "registry-id"
    } else if i == 1 {
        "registry-version"
    } else if i == 2 {
        "algorithm-id"
    } else if i == 3 {
        "algorithm-version"
    } else if i == 4 {
        "algorithm-digest"
    } else if i == 5 {
        "vocabulary-digest"
    } else if i == 6 {
        "wire-framing-id"
    } else if i == 7 {
        "wire-framing-version"
    } else if i == 8 {
        "wire-framing-digest"
    } else if i == 9 {
        "output-reservation-id"
    } else if i == 10 {
        "output-reservation-version"
    } else {
        "output-reservation-digest"
    }
}

/// Whether a profile has exactly its fields, in order.
pub open spec fn has_profile_names(fields: Seq<ProfileField<'_>>) -> bool {
    &&& fields.len() == PROFILE_FIELD_COUNT
    &&& forall|i: int| 0 <= i < fields.len() ==> (#[trigger] fields[i]).name@ == profile_name(i)
}

/// The text of a profile value.
pub open spec fn string_of(value: ProfileValue<'_>) -> Option<Seq<char>> {
    match value {
        ProfileValue::String(text) => Some(text@),
        _ => None,
    }
}

/// The version of a profile value.
pub open spec fn version_of(value: ProfileValue<'_>) -> Option<u16> {
    match value {
        ProfileValue::Unsigned(number) => if 0 < number <= u16::MAX {
            Some(number as u16)
        } else {
            None
        },
        _ => None,
    }
}

/// Whether every field of a profile has a value of its kind.
pub open spec fn has_profile_kinds(fields: Seq<ProfileField<'_>>) -> bool {
    &&& string_of(fields[0].value) is Some
    &&& version_of(fields[1].value) is Some
    &&& string_of(fields[2].value) is Some
    &&& version_of(fields[3].value) is Some
    &&& string_of(fields[4].value) is Some
    &&& string_of(fields[5].value) is Some
    &&& string_of(fields[6].value) is Some
    &&& version_of(fields[7].value) is Some
    &&& string_of(fields[8].value) is Some
    &&& string_of(fields[9].value) is Some
    &&& version_of(fields[10].value) is Some
    &&& string_of(fields[11].value) is Some
}

/// The reference that a profile spells out.
pub open spec fn spelled(fields: Seq<ProfileField<'_>>) -> ReferenceText {
    ReferenceText {
        registry_id: string_of(fields[0].value)->Some_0,
        registry_version: version_of(fields[1].value)->Some_0,
        algorithm_id: string_of(fields[2].value)->Some_0,
        algorithm_version: version_of(fields[3].value)->Some_0,
        algorithm_digest: string_of(fields[4].value)->Some_0,
        vocabulary_digest: string_of(fields[5].value)->Some_0,
        wire_framing_id: string_of(fields[6].value)->Some_0,
        wire_framing_version: version_of(fields[7].value)->Some_0,
        wire_framing_digest: string_of(fields[8].value)->Some_0,
        output_reservation_id: string_of(fields[9].value)->Some_0,
        output_reservation_version: version_of(fields[10].value)->Some_0,
        output_reservation_digest: string_of(fields[11].value)->Some_0,
    }
}

/// Whether a profile spells out a well-formed reference.
pub open spec fn is_profile(fields: Seq<ProfileField<'_>>) -> bool {
    &&& has_profile_names(fields)
    &&& has_profile_kinds(fields)
    &&& is_counter_ref(spelled(fields))
}

/// The text of a profile value.
pub fn profile_string<'a>(value: ProfileValue<'a>) -> (result: ValidationResult<&'a str>)
    ensures
        match result {
            Ok(text) => string_of(value) == Some(text@),
            Err(error) => error == ValidationError::InvalidArgument && string_of(value) is None,
        },
{
    match value {
        ProfileValue::String(text) => Ok(text),
        ProfileValue::Unsigned(_)
        | ProfileValue::Boolean(_)
        | ProfileValue::Null => Err(ValidationError::InvalidArgument),
    }
}

/// The version of a profile value.
pub fn profile_version(value: ProfileValue<'_>) -> (result: ValidationResult<u16>)
    ensures
        match result {
            Ok(version) => version_of(value) == Some(version),
            Err(error) => error == ValidationError::InvalidArgument && version_of(value) is None,
        },
{
    match value {
        ProfileValue::Unsigned(number) => {
            if number == 0 || number > u16::MAX as u64 {
                return Err(ValidationError::InvalidArgument);
            }
            Ok(number as u16)
        },
        _ => Err(ValidationError::InvalidArgument),
    }
}

/// Whether a profile has exactly its fields, in order.
pub fn names_profile(fields: &[ProfileField<'_>]) -> (found: bool)
    ensures
        found == has_profile_names(fields@),
{
    if fields.len() != PROFILE_FIELD_COUNT {
        return false;
    }
    let mut i: usize = 0;
    while i < fields.len()
        invariant
            i <= fields@.len() == PROFILE_FIELD_COUNT,
            forall|j: int| 0 <= j < i ==> (#[trigger] fields@[j]).name@ == profile_name(j),
        decreases fields.len() - i,
    {
        if !same_text(fields[i].name, profile_field_name(i)) {
            assert(fields@[i as int].name@ != profile_name(i as int));
            return false;
        }
        i += 1;
    }
    true
}

/// Reads a reference from a profile.
pub fn parse_context_counter_ref(fields: &[ProfileField<'_>]) -> (result: ValidationResult<
    ContextCounterRefV1,
>)
    ensures
        match result {
            Ok(reference) => is_profile(fields@) && reference@ == spelled(fields@),
            Err(error) => error == ValidationError::InvalidArgument && !is_profile(fields@),
        },
{
    if !names_profile(fields) {
        return Err(ValidationError::InvalidArgument);
    }
    let parsed = ContextCounterRefV1 {
        registry_id: profile_string(fields[0].value)?.to_owned(),
        registry_version: profile_version(fields[1].value)?,
        algorithm_id: profile_string(fields[2].value)?.to_owned(),
        algorithm_version: profile_version(fields[3].value)?,
        algorithm_digest: profile_string(fields[4].value)?.to_owned(),
        vocabulary_digest: profile_string(fields[5].value)?.to_owned(),
        wire_framing_id: profile_string(fields[6].value)?.to_owned(),
        wire_framing_version: profile_version(fields[7].value)?,
        wire_framing_digest: profile_string(fields[8].value)?.to_owned(),
        output_reservation_id: profile_string(fields[9].value)?.to_owned(),
        output_reservation_version: profile_version(fields[10].value)?,
        output_reservation_digest: profile_string(fields[11].value)?.to_owned(),
    };
    validate_counter_ref(&parsed)?;
    Ok(parsed)
}

// ---------------------------------------------------------------------------
// Digests
// ---------------------------------------------------------------------------

/// A 16-bit number in big-endian order.
pub open spec fn be16(value: u16) -> Seq<u8> {
    seq![(value / 256) as u8, (value % 256) as u8]
}

/// Appends a 16-bit number in big-endian order.
pub fn push_be16(value: u16, output: &mut Vec<u8>)
    ensures
        final(output)@ == old(output)@ + be16(value),
{
    output.push((value / 256) as u8);
    output.push((value % 256) as u8);
    assert(output@ =~= old(output)@ + be16(value));
}

/// The domain of counter digests, with its closing zero byte.
pub open spec fn counter_domain() -> Seq<u8> {
    encode_utf8("mcode-provider-context-counter-ref-v1\0"@)
}

/// The preimage of the digest of a reference.
pub open spec fn counter_bytes(reference: ReferenceText) -> Seq<u8> {
    counter_domain() + sized_text(reference.registry_id) + be16(reference.registry_version)
        + sized_text(reference.algorithm_id) + be16(reference.algorithm_version) + sized_text(
        reference.algorithm_digest,
    ) + sized_text(reference.vocabulary_digest) + sized_text(reference.wire_framing_id) + be16(
        reference.wire_framing_version,
    ) + sized_text(reference.wire_framing_digest) + sized_text(reference.output_reservation_id)
        + be16(reference.output_reservation_version) + sized_text(
        reference.output_reservation_digest,
    )
}

/// Appends a text after its length.
pub fn hash_string(hash: &mut Vec<u8>, value: &str) -> (result: ValidationResult)
    ensures
        byte_len(value@) <= u32::MAX ==> result is Ok && final(hash)@ == old(hash)@ + sized_text(
            value@,
        ),
        byte_len(value@) > u32::MAX ==> result == ValidationResult::<()>::Err(
            ValidationError::Limit,
        ) && final(hash)@ == old(hash)@,
{
    push_sized(value.as_bytes(), hash)
}

/// The texts of a well-formed reference are short.
pub proof fn lemma_reference_lengths(reference: ReferenceText)
    requires
        is_counter_ref(reference),
    ensures
        byte_len(reference.registry_id) <= u32::MAX,
        byte_len(reference.algorithm_id) <= u32::MAX,
        byte_len(reference.wire_framing_id) <= u32::MAX,
        byte_len(reference.output_reservation_id) <= u32::MAX,
        byte_len(reference.algorithm_digest) <= u32::MAX,
        byte_len(reference.vocabulary_digest) <= u32::MAX,
        byte_len(reference.wire_framing_digest) <= u32::MAX,
        byte_len(reference.output_reservation_digest) <= u32::MAX,
{
    reveal_strlit("sha256:");
    is_ascii_chars_encode_utf8("sha256:"@);
}

/// The digest of a reference.
pub fn counter_digest(reference: &ContextCounterRefV1) -> (result: ValidationResult<String>)
    ensures
        match result {
            Ok(digest) => is_counter_ref(reference@) && digest@ == digest_of(
                counter_bytes(reference@),
            ) && is_digest(digest@),
            Err(error) => error == ValidationError::InvalidArgument && !is_counter_ref(reference@),
        },
{
    validate_counter_ref(reference)?;
    proof {
        lemma_reference_lengths(reference@);
    }
    let mut hash: Vec<u8> = Vec::new();
    append_bytes("mcode-provider-context-counter-ref-v1\0".as_bytes(), &mut hash);
    hash_string(&mut hash, reference.registry_id.as_str())?;
    push_be16(reference.registry_version, &mut hash);
    hash_string(&mut hash, reference.algorithm_id.as_str())?;
    push_be16(reference.algorithm_version, &mut hash);
    hash_string(&mut hash, reference.algorithm_digest.as_str())?;
    hash_string(&mut hash, reference.vocabulary_digest.as_str())?;
    hash_string(&mut hash, reference.wire_framing_id.as_str())?;
    push_be16(reference.wire_framing_version, &mut hash);
    hash_string(&mut hash, reference.wire_framing_digest.as_str())?;
    hash_string(&mut hash, reference.output_reservation_id.as_str())?;
    push_be16(reference.output_reservation_version, &mut hash);
    hash_string(&mut hash, reference.output_reservation_digest.as_str())?;
    assert(hash@ =~= counter_bytes(reference@));
    let digest = sha256_digest(hash.as_slice());
    proof {
        lemma_digest_text_is_well_formed(digest@);
    }
    Ok(digest_text(digest.as_slice()))
}

/// The digest of a canonical body.
pub fn body_digest(body: &[u8]) -> (result: ValidationResult<String>)
    ensures
        result matches Ok(digest) && digest@ == digest_of(wire_body_bytes(body@)) && is_digest(
            digest@,
        ),
{
    let mut hash: Vec<u8> = Vec::new();
    append_bytes("mcode-provider-wire-body-v1\0".as_bytes(), &mut hash);
    push_be64(body.len() as u64, &mut hash);
    append_bytes(body, &mut hash);
    assert(hash@ =~= wire_body_bytes(body@));
    let digest = sha256_digest(hash.as_slice());
    proof {
        lemma_digest_text_is_well_formed(digest@);
    }
    Ok(digest_text(digest.as_slice()))
}

// ---------------------------------------------------------------------------
// Components
// ---------------------------------------------------------------------------

/// The bytes that bind the parts of a counter.
#[derive(Debug, Clone, Copy)]
pub struct ComponentBytes<'a> {
    pub algorithm: &'a [u8],
    pub vocabulary: &'a [u8],
    pub wire_framing: &'a [u8],
    pub output_reservation: &'a [u8],
}

/// The bytes of the parts of a counter, over sequences.
pub struct ComponentsModel {
    pub algorithm: Seq<u8>,
    pub vocabulary: Seq<u8>,
    pub wire_framing: Seq<u8>,
    pub output_reservation: Seq<u8>,
}

impl<'a> View for ComponentBytes<'a> {
    type V = ComponentsModel;

    open spec fn view(&self) -> ComponentsModel {
        ComponentsModel {
            algorithm: self.algorithm@,
            vocabulary: self.vocabulary@,
            wire_framing: self.wire_framing@,
            output_reservation: self.output_reservation@,
        }
    }
}

/// The magic bytes of an algorithm.
pub open spec fn algorithm_magic() -> Seq<u8> {
    encode_utf8("mcode-dummy-algorithm-v1\0"@)
}

/// The magic bytes of a vocabulary.
pub open spec fn vocabulary_magic() -> Seq<u8> {
    encode_utf8("mcode-dummy-vocabulary-v1\0"@)
}

/// The magic bytes of a wire framing.
pub open spec fn wire_framing_magic() -> Seq<u8> {
    encode_utf8("mcode-dummy-wire-framing-v1\0"@)
}

/// The magic bytes of an output reservation.
pub open spec fn output_reservation_magic() -> Seq<u8> {
    encode_utf8("mcode-dummy-output-reservation-v1\0"@)
}

/// The 32-bit number that four bytes spell in big-endian order.
pub open spec fn word32(bytes: Seq<u8>, at: int) -> int {
    bytes[at] * 16_777_216 + bytes[at + 1] * 65_536 + bytes[at + 2] * 256 + bytes[at + 3]
}

/// The 64-bit number that eight bytes spell in big-endian order.
#[verifier::opaque]
pub open spec fn word64(bytes: Seq<u8>, at: int) -> u64 {
    (word32(bytes, at) * 4_294_967_296 + word32(bytes, at + 4)) as u64
}

/// The encoding of a number.
pub open spec fn be64_piece() -> spec_fn(u64) -> Seq<u8> {
    |value: u64| be64(value)
}

/// A component: its magic bytes, then its numbers.
pub open spec fn component_bytes(magic: Seq<u8>, values: Seq<u64>) -> Seq<u8> {
    magic + joined(values, be64_piece())
}

/// Whether bytes are a component with `count` numbers.
pub open spec fn is_component(bytes: Seq<u8>, magic: Seq<u8>, count: nat) -> bool {
    &&& bytes.len() == magic.len() + 8 * count
    &&& magic.is_prefix_of(bytes)
}

/// Number `i` of a component.
pub open spec fn component_value(bytes: Seq<u8>, magic: Seq<u8>, i: int) -> u64 {
    word64(bytes, magic.len() + 8 * i)
}

/// Four bytes are the big-endian spelling of the number that they spell.
proof fn lemma_word32(bytes: Seq<u8>, at: int)
    requires
        0 <= at,
        at + 4 <= bytes.len(),
    ensures
        0 <= word32(bytes, at) <= u32::MAX,
        be32(word32(bytes, at) as u32) == bytes.subrange(at, at + 4),
{
    let value = word32(bytes, at) as u32;
    assert(value == bytes[at] * 16_777_216 + bytes[at + 1] * 65_536 + bytes[at + 2] * 256 + bytes[at
        + 3]);
    assert(value / 16_777_216 == bytes[at]);
    assert(value / 65_536 == bytes[at] * 256 + bytes[at + 1]);
    assert(value / 256 == bytes[at] * 65_536 + bytes[at + 1] * 256 + bytes[at + 2]);
    assert(be32(value) =~= bytes.subrange(at, at + 4));
}

/// Eight bytes are the big-endian spelling of the number that they spell.
pub proof fn lemma_word64(bytes: Seq<u8>, at: int)
    requires
        0 <= at,
        at + 8 <= bytes.len(),
    ensures
        be64(word64(bytes, at)) == bytes.subrange(at, at + 8),
{
    reveal(word64);
    lemma_word32(bytes, at);
    lemma_word32(bytes, at + 4);
    let high = word32(bytes, at);
    let low = word32(bytes, at + 4);
    let value = word64(bytes, at);
    assert(value == high * 4_294_967_296 + low);
    assert(value / 4_294_967_296 == high);
    assert(value % 4_294_967_296 == low);
    assert(be64(value) =~= bytes.subrange(at, at + 8));
}

/// The 64-bit number that eight bytes spell in big-endian order.
pub fn read_be64(bytes: &[u8], at: usize) -> (value: u64)
    requires
        at + 8 <= bytes@.len(),
    ensures
        value == word64(bytes@, at as int),
{
    proof {
        reveal(word64);
    }
    let high: u64 = bytes[at] as u64 * 16_777_216 + bytes[at + 1] as u64 * 65_536 + bytes[at
        + 2] as u64 * 256 + bytes[at + 3] as u64;
    let low: u64 = bytes[at + 4] as u64 * 16_777_216 + bytes[at + 5] as u64 * 65_536 + bytes[at
        + 6] as u64 * 256 + bytes[at + 7] as u64;
    high * 4_294_967_296 + low
}

/// One more number of a component.
proof fn lemma_component_step(bytes: Seq<u8>, magic: Seq<u8>, values: Seq<u64>)
    requires
        magic.len() + 8 * values.len() + 8 <= bytes.len(),
        component_bytes(magic, values) == bytes.take((magic.len() + 8 * values.len()) as int),
    ensures
        component_bytes(magic, values.push(component_value(bytes, magic, values.len() as int)))
            == bytes.take((magic.len() + 8 * values.len() + 8) as int),
{
    let at = (magic.len() + 8 * values.len()) as int;
    let value = word64(bytes, at);
    let more = values.push(value);
    lemma_word64(bytes, at);
    lemma_joined_step(more, be64_piece(), values.len() as int);
    assert(more.take(values.len() as int) =~= values);
    assert(more.take(values.len() as int + 1) =~= more);
    lemma_append(magic, joined(values, be64_piece()), be64(value));
    assert(bytes.take(at) + bytes.subrange(at, at + 8) =~= bytes.take(at + 8));
}

/// Reads the numbers of a component.
pub fn compile_component(bytes: &[u8], magic: &[u8], value_count: usize) -> (result:
    ValidationResult<Vec<u64>>)
    ensures
        match result {
            Ok(values) => {
                &&& is_component(bytes@, magic@, value_count as nat)
                &&& values@.len() == value_count
                &&& forall|i: int|
                    0 <= i < value_count ==> #[trigger] values@[i] == component_value(
                        bytes@,
                        magic@,
                        i,
                    )
                &&& bytes@ == component_bytes(magic@, values@)
            },
            Err(ValidationError::Limit) => magic@.len() + 8 * value_count > usize::MAX,
            Err(ValidationError::InvalidArgument) => magic@.len() + 8 * value_count <= usize::MAX
                && !is_component(bytes@, magic@, value_count as nat),
        },
{
    let values_bytes: usize = match value_count.checked_mul(8) {
        Some(length) => length,
        None => return Err(ValidationError::Limit),
    };
    let expected_length: usize = match magic.len().checked_add(values_bytes) {
        Some(length) => length,
        None => return Err(ValidationError::Limit),
    };
    if bytes.len() != expected_length || !starts_with(bytes, magic) {
        return Err(ValidationError::InvalidArgument);
    }
    let mut values: Vec<u64> = Vec::new();
    let mut at: usize = magic.len();
    assert(component_bytes(magic@, values@) =~= bytes@.take(at as int));
    while values.len() < value_count
        invariant
            values@.len() <= value_count,
            at == magic@.len() + 8 * values@.len(),
            bytes@.len() == expected_length == magic@.len() + 8 * value_count,
            forall|i: int|
                0 <= i < values@.len() ==> #[trigger] values@[i] == component_value(
                    bytes@,
                    magic@,
                    i,
                ),
            component_bytes(magic@, values@) == bytes@.take(at as int),
        decreases value_count - values.len(),
    {
        let ghost before = values@;
        let value: u64 = read_be64(bytes, at);
        values.push(value);
        proof {
            lemma_component_step(bytes@, magic@, before);
        }
        at += 8;
    }
    assert(bytes@.take(at as int) =~= bytes@);
    Ok(values)
}

/// The preimage of the digest of a component.
pub open spec fn component_preimage(
    domain: Seq<u8>,
    registry_version: u16,
    component_version: u16,
    bytes: Seq<u8>,
) -> Seq<u8> {
    domain + be16(registry_version) + be16(component_version) + be64(bytes.len() as u64) + bytes
}

/// The digest of a component.
pub fn component_digest(
    domain: &[u8],
    registry_version: u16,
    component_version: u16,
    bytes: &[u8],
) -> (result: ValidationResult<String>)
    ensures
        result matches Ok(digest) && digest@ == digest_of(
            component_preimage(domain@, registry_version, component_version, bytes@),
        ) && is_digest(digest@),
{
    let mut hash: Vec<u8> = Vec::new();
    append_bytes(domain, &mut hash);
    push_be16(registry_version, &mut hash);
    push_be16(component_version, &mut hash);
    push_be64(bytes.len() as u64, &mut hash);
    append_bytes(bytes, &mut hash);
    assert(hash@ =~= component_preimage(domain@, registry_version, component_version, bytes@));
    let digest = sha256_digest(hash.as_slice());
    proof {
        lemma_digest_text_is_well_formed(digest@);
    }
    Ok(digest_text(digest.as_slice()))
}

// ---------------------------------------------------------------------------
// Registry entries
// ---------------------------------------------------------------------------

/// A reference with the bytes that it binds.
#[derive(Debug, Clone)]
pub struct RegistryEntrySpec<'a> {
    pub reference: ContextCounterRefV1,
    pub components: ComponentBytes<'a>,
}

/// A reference with the bytes that it binds, over texts and sequences.
pub struct SpecModel {
    pub reference: ReferenceText,
    pub components: ComponentsModel,
}

impl<'a> View for RegistryEntrySpec<'a> {
    type V = SpecModel;

    open spec fn view(&self) -> SpecModel {
        SpecModel { reference: self.reference@, components: self.components@ }
    }
}

/// What a list of entries to register holds.
pub open spec fn spec_models(specs: Seq<RegistryEntrySpec<'_>>) -> Seq<SpecModel> {
    specs.map_values(|spec: RegistryEntrySpec<'_>| spec@)
}

/// The numbers of a counter.
#[derive(Debug, Clone, Copy)]
pub struct CompiledCounter {
    pub body_byte_weight: u64,
    pub prepare_charge_weight: u64,
    pub bytes_per_token: u64,
    pub framing_tokens: u64,
    pub default_output_tokens: u64,
}

/// An entry whose reference binds its bytes.
#[derive(Debug, Clone)]
pub struct ValidatedRegistryEntry<'a> {
    pub reference: ContextCounterRefV1,
    pub counter_digest: String,
    pub components: ComponentBytes<'a>,
    pub compiled: CompiledCounter,
}

/// What a registered entry holds, over texts and sequences.
pub struct EntryModel {
    pub reference: ReferenceText,
    pub counter_digest: Seq<char>,
    pub components: ComponentsModel,
    pub compiled: CompiledCounter,
}

impl<'a> View for ValidatedRegistryEntry<'a> {
    type V = EntryModel;

    open spec fn view(&self) -> EntryModel {
        EntryModel {
            reference: self.reference@,
            counter_digest: self.counter_digest@,
            components: self.components@,
            compiled: self.compiled,
        }
    }
}

/// The domain of algorithm digests, with its closing zero byte.
pub open spec fn algorithm_domain() -> Seq<u8> {
    encode_utf8("mcode-provider-context-algorithm-v1\0"@)
}

/// The domain of vocabulary digests, with its closing zero byte.
pub open spec fn vocabulary_domain() -> Seq<u8> {
    encode_utf8("mcode-provider-context-vocabulary-v1\0"@)
}

/// The domain of wire framing digests, with its closing zero byte.
pub open spec fn wire_framing_domain() -> Seq<u8> {
    encode_utf8("mcode-provider-context-wire-framing-v1\0"@)
}

/// The domain of output reservation digests, with its closing zero byte.
pub open spec fn output_reservation_domain() -> Seq<u8> {
    encode_utf8("mcode-provider-context-output-reservation-v1\0"@)
}

/// Whether the bytes of every part have their form.
pub open spec fn has_components(components: ComponentsModel) -> bool {
    &&& is_component(components.algorithm, algorithm_magic(), 2)
    &&& is_component(components.vocabulary, vocabulary_magic(), 1)
    &&& is_component(components.wire_framing, wire_framing_magic(), 1)
    &&& is_component(components.output_reservation, output_reservation_magic(), 1)
}

/// The numbers that the bytes of the parts hold.
pub open spec fn compiled_of(components: ComponentsModel) -> CompiledCounter {
    CompiledCounter {
        body_byte_weight: component_value(components.algorithm, algorithm_magic(), 0),
        prepare_charge_weight: component_value(components.algorithm, algorithm_magic(), 1),
        bytes_per_token: component_value(components.vocabulary, vocabulary_magic(), 0),
        framing_tokens: component_value(components.wire_framing, wire_framing_magic(), 0),
        default_output_tokens: component_value(
            components.output_reservation,
            output_reservation_magic(),
            0,
        ),
    }
}

/// Whether weights and the token size are positive.
pub open spec fn has_positive_numbers(compiled: CompiledCounter) -> bool {
    &&& compiled.body_byte_weight > 0
    &&& compiled.prepare_charge_weight > 0
    &&& compiled.bytes_per_token > 0
}

/// Whether a reference binds the bytes of every part by their digests.
pub open spec fn binds_components(spec: SpecModel) -> bool {
    let reference = spec.reference;
    let version = reference.registry_version;
    &&& reference.algorithm_digest == digest_of(
        component_preimage(
            algorithm_domain(),
            version,
            reference.algorithm_version,
            spec.components.algorithm,
        ),
    )
    &&& reference.vocabulary_digest == digest_of(
        component_preimage(
            vocabulary_domain(),
            version,
            reference.algorithm_version,
            spec.components.vocabulary,
        ),
    )
    &&& reference.wire_framing_digest == digest_of(
        component_preimage(
            wire_framing_domain(),
            version,
            reference.wire_framing_version,
            spec.components.wire_framing,
        ),
    )
    &&& reference.output_reservation_digest == digest_of(
        component_preimage(
            output_reservation_domain(),
            version,
            reference.output_reservation_version,
            spec.components.output_reservation,
        ),
    )
}

/// Whether an entry can be registered.
pub open spec fn is_entry(spec: SpecModel) -> bool {
    &&& is_counter_ref(spec.reference)
    &&& has_components(spec.components)
    &&& has_positive_numbers(compiled_of(spec.components))
    &&& binds_components(spec)
}

/// The entry that is registered.
pub open spec fn entry_of(spec: SpecModel) -> EntryModel {
    EntryModel {
        reference: spec.reference,
        counter_digest: digest_of(counter_bytes(spec.reference)),
        components: spec.components,
        compiled: compiled_of(spec.components),
    }
}

/// The lengths of the magic bytes.
pub proof fn lemma_magic_lengths()
    ensures
        algorithm_magic().len() == 25,
        vocabulary_magic().len() == 26,
        wire_framing_magic().len() == 28,
        output_reservation_magic().len() == 34,
{
    reveal_strlit("mcode-dummy-algorithm-v1\0");
    reveal_strlit("mcode-dummy-vocabulary-v1\0");
    reveal_strlit("mcode-dummy-wire-framing-v1\0");
    reveal_strlit("mcode-dummy-output-reservation-v1\0");
    is_ascii_chars_encode_utf8("mcode-dummy-algorithm-v1\0"@);
    is_ascii_chars_encode_utf8("mcode-dummy-vocabulary-v1\0"@);
    is_ascii_chars_encode_utf8("mcode-dummy-wire-framing-v1\0"@);
    is_ascii_chars_encode_utf8("mcode-dummy-output-reservation-v1\0"@);
}

/// Whether a component has the digest that a reference gives.
pub fn has_component_digest(
    domain: &[u8],
    registry_version: u16,
    component_version: u16,
    bytes: &[u8],
    expected: &str,
) -> (result: ValidationResult<bool>)
    ensures
        result == ValidationResult::<bool>::Ok(
            expected@ == digest_of(
                component_preimage(domain@, registry_version, component_version, bytes@),
            ),
        ),
{
    let digest = component_digest(domain, registry_version, component_version, bytes)?;
    Ok(same_text(digest.as_str(), expected))
}

/// Checks an entry and compiles its numbers.
pub fn validate_registry_entry<'a>(spec: &RegistryEntrySpec<'a>) -> (result: ValidationResult<
    ValidatedRegistryEntry<'a>,
>)
    ensures
        match result {
            Ok(entry) => is_entry(spec@) && entry@ == entry_of(spec@),
            Err(error) => error == ValidationError::InvalidArgument && !is_entry(spec@),
        },
{
    proof {
        lemma_magic_lengths();
    }
    validate_counter_ref(&spec.reference)?;
    let algorithm = compile_component(
        spec.components.algorithm,
        "mcode-dummy-algorithm-v1\0".as_bytes(),
        2,
    )?;
    let vocabulary = compile_component(
        spec.components.vocabulary,
        "mcode-dummy-vocabulary-v1\0".as_bytes(),
        1,
    )?;
    let wire_framing = compile_component(
        spec.components.wire_framing,
        "mcode-dummy-wire-framing-v1\0".as_bytes(),
        1,
    )?;
    let output_reservation = compile_component(
        spec.components.output_reservation,
        "mcode-dummy-output-reservation-v1\0".as_bytes(),
        1,
    )?;
    let compiled = CompiledCounter {
        body_byte_weight: algorithm[0],
        prepare_charge_weight: algorithm[1],
        bytes_per_token: vocabulary[0],
        framing_tokens: wire_framing[0],
        default_output_tokens: output_reservation[0],
    };
    assert(compiled == compiled_of(spec.components@));
    if compiled.body_byte_weight == 0 || compiled.prepare_charge_weight == 0
        || compiled.bytes_per_token == 0 {
        return Err(ValidationError::InvalidArgument);
    }
    let version: u16 = spec.reference.registry_version;
    if !has_component_digest(
        "mcode-provider-context-algorithm-v1\0".as_bytes(),
        version,
        spec.reference.algorithm_version,
        spec.components.algorithm,
        spec.reference.algorithm_digest.as_str(),
    )? || !has_component_digest(
        "mcode-provider-context-vocabulary-v1\0".as_bytes(),
        version,
        spec.reference.algorithm_version,
        spec.components.vocabulary,
        spec.reference.vocabulary_digest.as_str(),
    )? || !has_component_digest(
        "mcode-provider-context-wire-framing-v1\0".as_bytes(),
        version,
        spec.reference.wire_framing_version,
        spec.components.wire_framing,
        spec.reference.wire_framing_digest.as_str(),
    )? || !has_component_digest(
        "mcode-provider-context-output-reservation-v1\0".as_bytes(),
        version,
        spec.reference.output_reservation_version,
        spec.components.output_reservation,
        spec.reference.output_reservation_digest.as_str(),
    )? {
        return Err(ValidationError::InvalidArgument);
    }
    let counter_digest = counter_digest(&spec.reference)?;
    Ok(
        ValidatedRegistryEntry {
            reference: spec.reference.duplicate(),
            counter_digest,
            components: spec.components,
            compiled,
        },
    )
}

// ---------------------------------------------------------------------------
// The registry
// ---------------------------------------------------------------------------

/// Registered counters.
#[derive(Debug, Clone)]
pub struct CounterRegistry<'a> {
    entries: Vec<ValidatedRegistryEntry<'a>>,
}

impl<'a> View for CounterRegistry<'a> {
    type V = Seq<EntryModel>;

    closed spec fn view(&self) -> Seq<EntryModel> {
        self.entries@.map_values(|entry: ValidatedRegistryEntry<'a>| entry@)
    }
}

/// Whether entry `i` is the only one with a reference.
pub open spec fn is_only_match(
    entries: Seq<EntryModel>,
    reference: ReferenceText,
    i: int,
) -> bool {
    &&& 0 <= i < entries.len()
    &&& entries[i].reference == reference
    &&& forall|j: int|
        0 <= j < entries.len() && (#[trigger] entries[j]).reference == reference ==> j == i
}

/// The one entry with a reference.
pub open spec fn registered(entries: Seq<EntryModel>, reference: ReferenceText) -> Option<
    EntryModel,
> {
    if exists|i: int| is_only_match(entries, reference, i) {
        Some(entries[choose|i: int| is_only_match(entries, reference, i)])
    } else {
        None
    }
}

impl<'a> CounterRegistry<'a> {
    /// The one entry with a reference.
    pub fn lookup(&self, reference: &ContextCounterRefV1) -> (result: ValidationResult<
        &ValidatedRegistryEntry<'a>,
    >)
        ensures
            match result {
                Ok(entry) => registered(self@, reference@) == Some(entry@),
                Err(error) => error == ValidationError::InvalidArgument && registered(
                    self@,
                    reference@,
                ) is None,
            },
    {
        let mut found: Option<usize> = None;
        let mut i: usize = 0;
        while i < self.entries.len()
            invariant
                i <= self.entries@.len(),
                self@.len() == self.entries@.len(),
                forall|j: int| 0 <= j < self@.len() ==> #[trigger] self@[j] == self.entries@[j]@,
                match found {
                    Some(at) => at < i && self@[at as int].reference == reference@ && forall|j: int|
                        0 <= j < i && (#[trigger] self@[j]).reference == reference@ ==> j == at,
                    None => forall|j: int|
                        0 <= j < i ==> (#[trigger] self@[j]).reference != reference@,
                },
            decreases self.entries.len() - i,
        {
            if self.entries[i].reference.same(reference) {
                assert(self@[i as int].reference == reference@);
                match found {
                    Some(at) => {
                        assert(self@[at as int].reference == reference@);
                        return Err(ValidationError::InvalidArgument);
                    },
                    None => {},
                }
                found = Some(i);
            }
            i += 1;
        }
        match found {
            Some(at) => {
                assert(is_only_match(self@, reference@, at as int));
                Ok(&self.entries[at])
            },
            None => Err(ValidationError::InvalidArgument),
        }
    }
}

/// Whether entries can be registered together.
pub open spec fn is_registry(specs: Seq<SpecModel>) -> bool {
    &&& specs.len() > 0
    &&& forall|i: int| 0 <= i < specs.len() ==> is_entry(#[trigger] specs[i])
    &&& forall|i: int, j: int|
        0 <= i < j < specs.len() ==> (#[trigger] specs[i]).reference != (
        #[trigger] specs[j]).reference
}

/// The entries that are registered.
pub open spec fn entries_of(specs: Seq<SpecModel>) -> Seq<EntryModel> {
    specs.map_values(|spec: SpecModel| entry_of(spec))
}

/// Registers entries.
pub fn construct_registry<'a>(specs: &[RegistryEntrySpec<'a>]) -> (result: ValidationResult<
    CounterRegistry<'a>,
>)
    ensures
        match result {
            Ok(registry) => is_registry(spec_models(specs@)) && registry@ == entries_of(
                spec_models(specs@),
            ),
            Err(error) => error == ValidationError::InvalidArgument && !is_registry(
                spec_models(specs@),
            ),
        },
{
    if specs.len() == 0 {
        return Err(ValidationError::InvalidArgument);
    }
    let ghost models = spec_models(specs@);
    let mut entries: Vec<ValidatedRegistryEntry<'a>> = Vec::new();
    let mut i: usize = 0;
    while i < specs.len()
        invariant
            i <= specs@.len(),
            models == spec_models(specs@),
            entries@.len() == i,
            forall|j: int| 0 <= j < i ==> is_entry(#[trigger] models[j]),
            forall|j: int| 0 <= j < i ==> (#[trigger] entries@[j])@ == entry_of(models[j]),
            forall|j: int, k: int|
                0 <= j < k < i ==> (#[trigger] models[j]).reference != (
                #[trigger] models[k]).reference,
        decreases specs.len() - i,
    {
        assert(models[i as int] == specs@[i as int]@);
        let mut j: usize = 0;
        while j < entries.len()
            invariant
                i < specs@.len(),
                j <= entries@.len() == i,
                models == spec_models(specs@),
                models[i as int] == specs@[i as int]@,
                forall|k: int| 0 <= k < i ==> (#[trigger] entries@[k])@ == entry_of(models[k]),
                forall|k: int|
                    0 <= k < j ==> (#[trigger] models[k]).reference != models[i as int].reference,
            decreases entries.len() - j,
        {
            if entries[j].reference.same(&specs[i].reference) {
                assert(entries@[j as int]@ == entry_of(models[j as int]));
                assert(models[j as int].reference == models[i as int].reference);
                return Err(ValidationError::InvalidArgument);
            }
            assert(entries@[j as int]@ == entry_of(models[j as int]));
            j += 1;
        }
        entries.push(validate_registry_entry(&specs[i])?);
        i += 1;
    }
    let registry = CounterRegistry { entries };
    assert(registry@ =~= entries_of(models));
    Ok(registry)
}

/// Registers entries.
pub fn registry_for_test<'a>(specs: &[RegistryEntrySpec<'a>]) -> (result: ValidationResult<
    CounterRegistry<'a>,
>)
    ensures
        match result {
            Ok(registry) => is_registry(spec_models(specs@)) && registry@ == entries_of(
                spec_models(specs@),
            ),
            Err(error) => error == ValidationError::InvalidArgument && !is_registry(
                spec_models(specs@),
            ),
        },
{
    construct_registry(specs)
}

/// Every entry of a registry is found by its own reference, and only it.
pub proof fn lemma_registered_entries_are_found(specs: Seq<SpecModel>, i: int)
    requires
        is_registry(specs),
        0 <= i < specs.len(),
    ensures
        registered(entries_of(specs), specs[i].reference) == Some(entry_of(specs[i])),
{
    let entries = entries_of(specs);
    assert forall|j: int|
        0 <= j < entries.len() && (#[trigger] entries[j]).reference
            == specs[i].reference implies j == i by {
        assert(entries[j].reference == specs[j].reference);
        if j < i {
            assert(specs[j].reference != specs[i].reference);
        } else if i < j {
            assert(specs[i].reference != specs[j].reference);
        }
    }
    assert(entries[i].reference == specs[i].reference);
    assert(is_only_match(entries, specs[i].reference, i));
}

/// What a registry finds under a reference has that reference, its digest, and
/// positive weights and token size.
pub proof fn lemma_registered_entries_are_bound(specs: Seq<SpecModel>, reference: ReferenceText)
    requires
        is_registry(specs),
    ensures
        match registered(entries_of(specs), reference) {
            Some(entry) => {
                &&& entry.reference == reference
                &&& entry.counter_digest == digest_of(counter_bytes(reference))
                &&& has_positive_numbers(entry.compiled)
                &&& has_components(entry.components)
            },
            None => forall|i: int| 0 <= i < specs.len() ==> (#[trigger] specs[i]).reference
                != reference,
        },
{
    let entries = entries_of(specs);
    if exists|i: int| is_only_match(entries, reference, i) {
        let i = choose|i: int| is_only_match(entries, reference, i);
        assert(entries[i] == entry_of(specs[i]));
        assert(is_entry(specs[i]));
    } else {
        assert forall|i: int| 0 <= i < specs.len() implies (#[trigger] specs[i]).reference
            != reference by {
            if specs[i].reference == reference {
                lemma_registered_entries_are_found(specs, i);
            }
        }
    }
}

// ---------------------------------------------------------------------------
// The trusted registry
// ---------------------------------------------------------------------------

/// The reference of the dummy counter.
pub open spec fn dummy_reference() -> ReferenceText {
    ReferenceText {
        registry_id: "t7-dummy-context"@,
        registry_version: 1,
        algorithm_id: "dummy-byte-charge"@,
        algorithm_version: 1,
        algorithm_digest:
            "sha256:bcc7a3c85a0e50b4bdb889040974603c1fdfefe1ad465768517773b3bc22ff83"@,
        vocabulary_digest:
            "sha256:bf90d47c54bbdb50a402f44abc0dbd71a7dc2cdc3a032391c1d8985f0ca9be21"@,
        wire_framing_id: "dummy-fixed-framing"@,
        wire_framing_version: 1,
        wire_framing_digest:
            "sha256:32a504d4d1dafe4eb3e5bbeb7364269ec913f7ba68d482a3d0e3406a16794092"@,
        output_reservation_id: "dummy-output-reservation"@,
        output_reservation_version: 1,
        output_reservation_digest:
            "sha256:f7f2f70c3dc81c3064f66dfc218df302234d981a960ac141730ab368ce3c01a2"@,
    }
}

/// The digest of the dummy counter.
pub open spec fn dummy_digest() -> Seq<char> {
    "sha256:da58bfe417ee5a4759d3a287b1af86fba7da1e6522e87c10b64a1e90232062b6"@
}

/// The bytes of the parts of the dummy counter.
pub open spec fn dummy_components() -> ComponentsModel {
    ComponentsModel {
        algorithm: encode_utf8(
            "mcode-dummy-algorithm-v1\0\x00\x00\x00\x00\x00\x00\x00\x02\x00\x00\x00\x00\x00\x00\x00\x01"@,
        ),
        vocabulary: encode_utf8(
            "mcode-dummy-vocabulary-v1\0\x00\x00\x00\x00\x00\x00\x00\x04"@,
        ),
        wire_framing: encode_utf8(
            "mcode-dummy-wire-framing-v1\0\x00\x00\x00\x00\x00\x00\x00\x03"@,
        ),
        output_reservation: encode_utf8(
            "mcode-dummy-output-reservation-v1\0\x00\x00\x00\x00\x00\x00\x00\x0e"@,
        ),
    }
}

/// The dummy counter.
pub open spec fn dummy_spec() -> SpecModel {
    SpecModel { reference: dummy_reference(), components: dummy_components() }
}

/// Whether the dummy counter binds its bytes and has its digest.
pub open spec fn dummy_is_trusted() -> bool {
    &&& is_entry(dummy_spec())
    &&& digest_of(counter_bytes(dummy_reference())) == dummy_digest()
}

/// The reference of the dummy counter.
pub fn trusted_dummy_counter_ref() -> (reference: ContextCounterRefV1)
    ensures
        reference@ == dummy_reference(),
{
    ContextCounterRefV1 {
        registry_id: "t7-dummy-context".to_owned(),
        registry_version: 1,
        algorithm_id: "dummy-byte-charge".to_owned(),
        algorithm_version: 1,
        algorithm_digest:
            "sha256:bcc7a3c85a0e50b4bdb889040974603c1fdfefe1ad465768517773b3bc22ff83".to_owned(),
        vocabulary_digest:
            "sha256:bf90d47c54bbdb50a402f44abc0dbd71a7dc2cdc3a032391c1d8985f0ca9be21".to_owned(),
        wire_framing_id: "dummy-fixed-framing".to_owned(),
        wire_framing_version: 1,
        wire_framing_digest:
            "sha256:32a504d4d1dafe4eb3e5bbeb7364269ec913f7ba68d482a3d0e3406a16794092".to_owned(),
        output_reservation_id: "dummy-output-reservation".to_owned(),
        output_reservation_version: 1,
        output_reservation_digest:
            "sha256:f7f2f70c3dc81c3064f66dfc218df302234d981a960ac141730ab368ce3c01a2".to_owned(),
    }
}

/// The digest of the dummy counter.
pub fn trusted_dummy_counter_digest() -> (digest: &'static str)
    ensures
        digest@ == dummy_digest(),
{
    "sha256:da58bfe417ee5a4759d3a287b1af86fba7da1e6522e87c10b64a1e90232062b6"
}

/// Builds the registry that holds the dummy counter alone.
pub fn build_trusted_registry() -> (result: ValidationResult<CounterRegistry<'static>>)
    ensures
        match result {
            Ok(registry) => dummy_is_trusted() && registry@ == seq![entry_of(dummy_spec())],
            Err(error) => error == ValidationError::InvalidArgument && !dummy_is_trusted(),
        },
{
    let spec = RegistryEntrySpec {
        reference: trusted_dummy_counter_ref(),
        components: ComponentBytes {
            algorithm:
                "mcode-dummy-algorithm-v1\0\x00\x00\x00\x00\x00\x00\x00\x02\x00\x00\x00\x00\x00\x00\x00\x01".as_bytes(),
            vocabulary:
                "mcode-dummy-vocabulary-v1\0\x00\x00\x00\x00\x00\x00\x00\x04".as_bytes(),
            wire_framing:
                "mcode-dummy-wire-framing-v1\0\x00\x00\x00\x00\x00\x00\x00\x03".as_bytes(),
            output_reservation:
                "mcode-dummy-output-reservation-v1\0\x00\x00\x00\x00\x00\x00\x00\x0e".as_bytes(),
        },
    };
    assert(spec@ == dummy_spec());
    let specs = vec![spec];
    assert(spec_models(specs@) =~= seq![dummy_spec()]);
    assert(is_entry(seq![dummy_spec()][0]) == is_entry(dummy_spec()));
    let registry = construct_registry(specs.as_slice())?;
    assert(registry@ =~= seq![entry_of(dummy_spec())]);
    assert(registry.entries@[0]@ == registry@[0]);
    if registry.entries.len() != 1 || !same_text(
        registry.entries[0].counter_digest.as_str(),
        trusted_dummy_counter_digest(),
    ) {
        return Err(ValidationError::InvalidArgument);
    }
    Ok(registry)
}

/// The registry that holds the dummy counter alone.
pub fn trusted_registry() -> (result: ValidationResult<CounterRegistry<'static>>)
    ensures
        match result {
            Ok(registry) => dummy_is_trusted() && registry@ == seq![entry_of(dummy_spec())],
            Err(error) => error == ValidationError::InvalidArgument && !dummy_is_trusted(),
        },
{
    build_trusted_registry()
}

/// The bytes of the dummy counter have their form and hold two bytes of
/// weight per body byte, one per unit of charge, four bytes per token, three
/// tokens of framing and fourteen of output.
pub proof fn lemma_dummy_numbers()
    ensures
        has_components(dummy_components()),
        compiled_of(dummy_components()) == (CompiledCounter {
            body_byte_weight: 2,
            prepare_charge_weight: 1,
            bytes_per_token: 4,
            framing_tokens: 3,
            default_output_tokens: 14,
        }),
{
    reveal(word64);
    lemma_magic_lengths();
    lemma_dummy_algorithm();
    lemma_dummy_vocabulary();
    lemma_dummy_wire_framing();
    lemma_dummy_output_reservation();
}

proof fn lemma_dummy_algorithm()
    ensures
        is_component(dummy_components().algorithm, algorithm_magic(), 2),
        component_value(dummy_components().algorithm, algorithm_magic(), 0) == 2,
        component_value(dummy_components().algorithm, algorithm_magic(), 1) == 1,
{
    reveal(word64);
    reveal_strlit("mcode-dummy-algorithm-v1\0");
    reveal_strlit(
        "mcode-dummy-algorithm-v1\0\x00\x00\x00\x00\x00\x00\x00\x02\x00\x00\x00\x00\x00\x00\x00\x01",
    );
    is_ascii_chars_encode_utf8("mcode-dummy-algorithm-v1\0"@);
    is_ascii_chars_encode_utf8(
        "mcode-dummy-algorithm-v1\0\x00\x00\x00\x00\x00\x00\x00\x02\x00\x00\x00\x00\x00\x00\x00\x01"@,
    );
}

proof fn lemma_dummy_vocabulary()
    ensures
        is_component(dummy_components().vocabulary, vocabulary_magic(), 1),
        component_value(dummy_components().vocabulary, vocabulary_magic(), 0) == 4,
{
    reveal(word64);
    reveal_strlit("mcode-dummy-vocabulary-v1\0");
    reveal_strlit("mcode-dummy-vocabulary-v1\0\x00\x00\x00\x00\x00\x00\x00\x04");
    is_ascii_chars_encode_utf8("mcode-dummy-vocabulary-v1\0"@);
    is_ascii_chars_encode_utf8("mcode-dummy-vocabulary-v1\0\x00\x00\x00\x00\x00\x00\x00\x04"@);
}

proof fn lemma_dummy_wire_framing()
    ensures
        is_component(dummy_components().wire_framing, wire_framing_magic(), 1),
        component_value(dummy_components().wire_framing, wire_framing_magic(), 0) == 3,
{
    reveal(word64);
    reveal_strlit("mcode-dummy-wire-framing-v1\0");
    reveal_strlit("mcode-dummy-wire-framing-v1\0\x00\x00\x00\x00\x00\x00\x00\x03");
    is_ascii_chars_encode_utf8("mcode-dummy-wire-framing-v1\0"@);
    is_ascii_chars_encode_utf8("mcode-dummy-wire-framing-v1\0\x00\x00\x00\x00\x00\x00\x00\x03"@);
}

proof fn lemma_dummy_output_reservation()
    ensures
        is_component(dummy_components().output_reservation, output_reservation_magic(), 1),
        component_value(dummy_components().output_reservation, output_reservation_magic(), 0) == 14,
{
    reveal(word64);
    reveal_strlit("mcode-dummy-output-reservation-v1\0");
    reveal_strlit("mcode-dummy-output-reservation-v1\0\x00\x00\x00\x00\x00\x00\x00\x0e");
    is_ascii_chars_encode_utf8("mcode-dummy-output-reservation-v1\0"@);
    is_ascii_chars_encode_utf8(
        "mcode-dummy-output-reservation-v1\0\x00\x00\x00\x00\x00\x00\x00\x0e"@,
    );
}

// ---------------------------------------------------------------------------
// Measurement
// ---------------------------------------------------------------------------

/// What a measurement is made of.
#[derive(Debug, Clone, Copy)]
pub struct MeasurementFacts {
    pub body_bytes: u64,
    pub prepare_logical_charge: u64,
    pub requested_output_tokens: Option<u64>,
}

/// The weighted charge of a body and a request.
pub open spec fn weighted_charge(compiled: CompiledCounter, facts: MeasurementFacts) -> int {
    facts.body_bytes * compiled.body_byte_weight + facts.prepare_logical_charge
        * compiled.prepare_charge_weight
}

/// The output tokens that are reserved.
pub open spec fn reserved_output(compiled: CompiledCounter, facts: MeasurementFacts) -> u64 {
    match facts.requested_output_tokens {
        Some(tokens) => tokens,
        None => compiled.default_output_tokens,
    }
}

/// The smallest number of tokens that hold a charge.
pub open spec fn tokens_for(charge: int, bytes_per_token: int) -> int {
    (charge + bytes_per_token - 1) / bytes_per_token
}

/// The context tokens that a request needs.
pub open spec fn needed_tokens(compiled: CompiledCounter, facts: MeasurementFacts) -> int {
    tokens_for(weighted_charge(compiled, facts), compiled.bytes_per_token as int)
        + compiled.framing_tokens + reserved_output(compiled, facts)
}

/// The outcome of a measurement.
pub open spec fn measured(compiled: CompiledCounter, facts: MeasurementFacts) -> ValidationResult<
    u64,
> {
    let charge = weighted_charge(compiled, facts);
    if charge > u64::MAX {
        Err(ValidationError::Limit)
    } else if compiled.bytes_per_token == 0 {
        Err(ValidationError::InvalidArgument)
    } else if charge + compiled.bytes_per_token - 1 > u64::MAX {
        Err(ValidationError::Limit)
    } else if needed_tokens(compiled, facts) > u64::MAX {
        Err(ValidationError::Limit)
    } else {
        Ok(needed_tokens(compiled, facts) as u64)
    }
}

/// Measures the context tokens that a request needs.
pub fn measure_facts(compiled: CompiledCounter, facts: MeasurementFacts) -> (result:
    ValidationResult<u64>)
    ensures
        result == measured(compiled, facts),
{
    proof {
        let body = facts.body_bytes;
        let body_weight = compiled.body_byte_weight;
        let prepare = facts.prepare_logical_charge;
        let prepare_weight = compiled.prepare_charge_weight;
        assert(body * body_weight >= 0) by (nonlinear_arith)
            requires
                body >= 0,
                body_weight >= 0,
        ;
        assert(prepare * prepare_weight >= 0) by (nonlinear_arith)
            requires
                prepare >= 0,
                prepare_weight >= 0,
        ;
    }
    let body_charge: u64 = match facts.body_bytes.checked_mul(compiled.body_byte_weight) {
        Some(charge) => charge,
        None => return Err(ValidationError::Limit),
    };
    let prepare_charge: u64 = match facts.prepare_logical_charge.checked_mul(
        compiled.prepare_charge_weight,
    ) {
        Some(charge) => charge,
        None => return Err(ValidationError::Limit),
    };
    let algorithm_charge: u64 = match body_charge.checked_add(prepare_charge) {
        Some(charge) => charge,
        None => return Err(ValidationError::Limit),
    };
    let rounding: u64 = match compiled.bytes_per_token.checked_sub(1) {
        Some(rounding) => rounding,
        None => return Err(ValidationError::InvalidArgument),
    };
    let rounded: u64 = match algorithm_charge.checked_add(rounding) {
        Some(rounded) => rounded,
        None => return Err(ValidationError::Limit),
    };
    let vocabulary_tokens: u64 = rounded / compiled.bytes_per_token;
    let framed: u64 = match vocabulary_tokens.checked_add(compiled.framing_tokens) {
        Some(framed) => framed,
        None => return Err(ValidationError::Limit),
    };
    let output: u64 = match facts.requested_output_tokens {
        Some(tokens) => tokens,
        None => compiled.default_output_tokens,
    };
    match framed.checked_add(output) {
        Some(required) => Ok(required),
        None => Err(ValidationError::Limit),
    }
}

/// The tokens for a charge hold it, and one token fewer does not.
pub proof fn lemma_tokens_round_up(charge: int, bytes_per_token: int)
    requires
        0 <= charge,
        0 < bytes_per_token,
    ensures
        tokens_for(charge, bytes_per_token) * bytes_per_token >= charge,
        (tokens_for(charge, bytes_per_token) - 1) * bytes_per_token < charge,
{
    let tokens = tokens_for(charge, bytes_per_token);
    let rounded = charge + bytes_per_token - 1;
    vstd::arithmetic::div_mod::lemma_fundamental_div_mod(rounded, bytes_per_token);
    vstd::arithmetic::div_mod::lemma_mod_bound(rounded, bytes_per_token);
    assert(tokens * bytes_per_token == bytes_per_token * tokens) by (nonlinear_arith);
    assert((tokens - 1) * bytes_per_token == tokens * bytes_per_token - bytes_per_token)
        by (nonlinear_arith);
}

/// A larger body, charge or output request never needs fewer tokens.
pub proof fn lemma_measure_is_monotone(
    compiled: CompiledCounter,
    smaller: MeasurementFacts,
    larger: MeasurementFacts,
)
    requires
        smaller.body_bytes <= larger.body_bytes,
        smaller.prepare_logical_charge <= larger.prepare_logical_charge,
        reserved_output(compiled, smaller) <= reserved_output(compiled, larger),
    ensures
        measured(compiled, larger) matches Ok(more) ==> (measured(compiled, smaller) matches Ok(
            less,
        ) && less <= more),
{
    if measured(compiled, larger) is Ok {
        let body_weight = compiled.body_byte_weight as int;
        let prepare_weight = compiled.prepare_charge_weight as int;
        vstd::arithmetic::mul::lemma_mul_inequality(
            smaller.body_bytes as int,
            larger.body_bytes as int,
            body_weight,
        );
        vstd::arithmetic::mul::lemma_mul_inequality(
            smaller.prepare_logical_charge as int,
            larger.prepare_logical_charge as int,
            prepare_weight,
        );
        let bytes_per_token = compiled.bytes_per_token as int;
        vstd::arithmetic::div_mod::lemma_div_is_ordered(
            weighted_charge(compiled, smaller) + bytes_per_token - 1,
            weighted_charge(compiled, larger) + bytes_per_token - 1,
            bytes_per_token,
        );
        vstd::arithmetic::mul::lemma_mul_nonnegative(smaller.body_bytes as int, body_weight);
        vstd::arithmetic::mul::lemma_mul_nonnegative(
            smaller.prepare_logical_charge as int,
            prepare_weight,
        );
        vstd::arithmetic::div_mod::lemma_div_pos_is_pos(
            weighted_charge(compiled, smaller) + bytes_per_token - 1,
            bytes_per_token,
        );
    }
}

/// The verdict on two measurements of the same: their number, or a refusal
/// when they differ.
pub open spec fn agreement(first: u64, second: u64) -> ValidationResult<u64> {
    if first == second {
        Ok(first)
    } else {
        Err(ValidationError::InvalidArgument)
    }
}

/// Compares two measurements of the same.
pub fn agreed(first: u64, second: u64) -> (result: ValidationResult<u64>)
    ensures
        result == agreement(first, second),
{
    if first != second {
        return Err(ValidationError::InvalidArgument);
    }
    Ok(first)
}

/// Measures twice and refuses two outcomes that differ. A failed measurement is
/// the outcome. A measurement may change from call to call, so all that is said
/// of its outcomes is that it can have them; `agreed` says what follows from each
/// pair of numbers.
pub fn confirm_deterministic<F: FnMut() -> ValidationResult<u64>>(measure: F) -> (result:
    ValidationResult<u64>)
    requires
        call_requires(measure, ()),
    ensures
        ({
            ||| exists|error: ValidationError|
                result == ValidationResult::<u64>::Err(error) && #[trigger] call_ensures(
                    measure,
                    (),
                    ValidationResult::<u64>::Err(error),
                )
            ||| exists|first: u64, second: u64|
                result == agreement(first, second) && #[trigger] call_ensures(
                    measure,
                    (),
                    ValidationResult::<u64>::Ok(first),
                ) && #[trigger] call_ensures(measure, (), ValidationResult::<u64>::Ok(second))
        }),
{
    let mut measure = measure;
    let first: u64 = measure()?;
    let second: u64 = measure()?;
    agreed(first, second)
}

/// A measurement with everything that it was made of.
#[derive(Debug, Clone)]
pub struct SealedContextMeasurement {
    pub provider_id: String,
    pub route_id: String,
    pub catalog_digest: String,
    pub selection: ModelSelection,
    pub current_model: String,
    pub completion_operation: String,
    pub selected_entry: CatalogEntry,
    pub original: PrepareInput,
    pub body_digest: String,
    pub canonical_body: Vec<u8>,
    pub counter_ref: ContextCounterRefV1,
    pub counter_digest: String,
    pub required_context_tokens: u64,
}

/// Whether the bytes of every part are there.
pub open spec fn has_component_bytes(components: ComponentsModel) -> bool {
    &&& components.algorithm.len() > 0
    &&& components.vocabulary.len() > 0
    &&& components.wire_framing.len() > 0
    &&& components.output_reservation.len() > 0
}

/// Whether a body and a reference have the digests that were announced.
pub open spec fn has_announced_digests(
    body: Seq<u8>,
    body_digest: Seq<char>,
    reference: ReferenceText,
    counter_digest: Seq<char>,
) -> bool {
    &&& is_digest(body_digest)
    &&& is_digest(counter_digest)
    &&& is_counter_ref(reference)
    &&& digest_of(wire_body_bytes(body)) == body_digest
    &&& digest_of(counter_bytes(reference)) == counter_digest
}

/// The outcome of a measurement of a request with a registered counter.
pub open spec fn entry_context_verdict(
    entry: EntryModel,
    selected: SelectedCatalogView<'_>,
    original: PrepareInput,
    body: Seq<u8>,
    logical_charge: u64,
) -> ValidationResult<u64> {
    let facts = MeasurementFacts {
        body_bytes: body.len() as u64,
        prepare_logical_charge: logical_charge,
        requested_output_tokens: original.max_output_tokens,
    };
    match measured(entry.compiled, facts) {
        Err(error) => Err(error),
        Ok(required) => if selected.entry.context_tokens matches Some(limit) && required > limit {
            Err(ValidationError::Limit)
        } else if !has_component_bytes(entry.components) {
            Err(ValidationError::InvalidArgument)
        } else {
            Ok(required)
        },
    }
}

/// The outcome of a measurement of a request.
pub open spec fn context_verdict(
    entries: Seq<EntryModel>,
    selected: SelectedCatalogView<'_>,
    original: PrepareInput,
    body: Seq<u8>,
    body_digest: Seq<char>,
    reference: ReferenceText,
    counter_digest: Seq<char>,
) -> ValidationResult<u64> {
    if !has_announced_digests(body, body_digest, reference, counter_digest) {
        Err(ValidationError::InvalidArgument)
    } else {
        match prepare_verdict(original, selected) {
            Err(error) => Err(error),
            Ok((logical_charge, _)) => match registered(entries, reference) {
                None => Err(ValidationError::InvalidArgument),
                Some(entry) => if entry.counter_digest != counter_digest {
                    Err(ValidationError::InvalidArgument)
                } else {
                    entry_context_verdict(entry, selected, original, body, logical_charge)
                },
            },
        }
    }
}

/// Whether a sealed measurement holds everything that it was made of.
pub open spec fn seals(
    sealed: SealedContextMeasurement,
    selected: SelectedCatalogView<'_>,
    original: PrepareInput,
    body: Seq<u8>,
    body_digest: Seq<char>,
    reference: ReferenceText,
    counter_digest: Seq<char>,
) -> bool {
    &&& sealed.provider_id@ == selected.provider_id.text@
    &&& sealed.route_id@ == selected.route_id.text@
    &&& sealed.catalog_digest@ == selected.catalog_digest@
    &&& sealed.selection == selected.entry.selection
    &&& sealed.current_model@ == selected.entry.current_model.text@
    &&& sealed.completion_operation@ == selected.entry.completion_operation.text@
    &&& same_entry(sealed.selected_entry, *selected.entry)
    &&& same_request(sealed.original, original)
    &&& sealed.body_digest@ == body_digest
    &&& sealed.canonical_body@ == body
    &&& sealed.counter_ref@ == reference
    &&& sealed.counter_digest@ == counter_digest
}

/// Measures a request with a registered counter.
pub fn measure_context_with_registry(
    registry: &CounterRegistry<'_>,
    selected: SelectedCatalogView<'_>,
    original: &PrepareInput,
    canonical_body: &[u8],
    expected_body_digest: &str,
    reference: &ContextCounterRefV1,
    expected_counter_digest: &str,
) -> (result: ValidationResult<SealedContextMeasurement>)
    ensures
        context_verdict(
            registry@,
            selected,
            *original,
            canonical_body@,
            expected_body_digest@,
            reference@,
            expected_counter_digest@,
        ) == (match result {
            Ok(sealed) => ValidationResult::<u64>::Ok(sealed.required_context_tokens),
            Err(error) => Err(error),
        }),
        result matches Ok(sealed) ==> seals(
            sealed,
            selected,
            *original,
            canonical_body@,
            expected_body_digest@,
            reference@,
            expected_counter_digest@,
        ),
{
    validate_digest(expected_body_digest)?;
    validate_digest(expected_counter_digest)?;
    let actual_body_digest = body_digest(canonical_body)?;
    let actual_counter_digest = counter_digest(reference)?;
    if !same_text(actual_body_digest.as_str(), expected_body_digest) || !same_text(
        actual_counter_digest.as_str(),
        expected_counter_digest,
    ) {
        return Err(ValidationError::InvalidArgument);
    }
    let validated = validate_prepare_input(original, selected)?;
    let entry = registry.lookup(reference)?;
    if !same_text(entry.counter_digest.as_str(), expected_counter_digest) {
        return Err(ValidationError::InvalidArgument);
    }
    let facts = MeasurementFacts {
        body_bytes: canonical_body.len() as u64,
        prepare_logical_charge: validated.logical_charge,
        requested_output_tokens: original.max_output_tokens,
    };
    let compiled = entry.compiled;
    let measure = || -> (outcome: ValidationResult<u64>)
        ensures
            outcome == measured(compiled, facts),
        { measure_facts(compiled, facts) };
    let required_context_tokens: u64 = confirm_deterministic(measure)?;
    match selected.entry.context_tokens {
        Some(limit) => {
            if required_context_tokens > limit {
                return Err(ValidationError::Limit);
            }
        },
        None => {},
    }
    if entry.components.algorithm.len() == 0 || entry.components.vocabulary.len() == 0
        || entry.components.wire_framing.len() == 0 || entry.components.output_reservation.len()
        == 0 {
        return Err(ValidationError::InvalidArgument);
    }
    Ok(
        SealedContextMeasurement {
            provider_id: selected.provider_id.text.clone(),
            route_id: selected.route_id.text.clone(),
            catalog_digest: selected.catalog_digest.to_owned(),
            selection: copy_selection(&selected.entry.selection),
            current_model: selected.entry.current_model.text.clone(),
            completion_operation: selected.entry.completion_operation.text.clone(),
            selected_entry: copy_entry(selected.entry),
            original: copy_request(original),
            body_digest: actual_body_digest,
            canonical_body: copy_bytes(canonical_body),
            counter_ref: reference.duplicate(),
            counter_digest: actual_counter_digest,
            required_context_tokens,
        },
    )
}

/// Measures a request with the trusted registry.
pub fn measure_context(
    selected: SelectedCatalogView<'_>,
    original: &PrepareInput,
    canonical_body: &[u8],
    expected_body_digest: &str,
    reference: &ContextCounterRefV1,
    expected_counter_digest: &str,
) -> (result: ValidationResult<SealedContextMeasurement>)
    ensures
        (if dummy_is_trusted() {
            context_verdict(
                seq![entry_of(dummy_spec())],
                selected,
                *original,
                canonical_body@,
                expected_body_digest@,
                reference@,
                expected_counter_digest@,
            )
        } else {
            ValidationResult::<u64>::Err(ValidationError::InvalidArgument)
        }) == (match result {
            Ok(sealed) => ValidationResult::<u64>::Ok(sealed.required_context_tokens),
            Err(error) => Err(error),
        }),
        result matches Ok(sealed) ==> seals(
            sealed,
            selected,
            *original,
            canonical_body@,
            expected_body_digest@,
            reference@,
            expected_counter_digest@,
        ),
{
    let registry = trusted_registry()?;
    measure_context_with_registry(
        &registry,
        selected,
        original,
        canonical_body,
        expected_body_digest,
        reference,
        expected_counter_digest,
    )
}

} // verus!
