//! Domain-separated adapter contract, body, and ordinary-header digests.

use vstd::prelude::*;
use vstd::utf8::encode_utf8;

use crate::provider_api::OrdinaryHeader;
use crate::provider_validation::adapter::types::{
    AdapterCollection, AdapterContractV1, AdapterEnumSource, AdapterModelSource, AdapterPresence,
    AdapterPresenceSource, AdapterScalarSource, AdapterTransform, AdapterValidationError,
    AdapterValidationResult, AdapterVariantSource, ContractCase, ContractNode, ContractNodeBody,
    EnumTokenEntry, EnumTokenTable, OrdinaryHeaderRule, PathSegment, TypedJsonConstant,
};
use crate::provider_validation::charge::checked_u32_len;
use crate::provider_validation::hashing::{
    be32, be64, counted, digest_chars, digest_text, joined, lemma_digest_text_is_well_formed,
    lemma_joined_step, push_be32, push_be64, sha256, sha256_digest, sized_text,
};
use crate::provider_validation::scalar::is_digest;
use crate::provider_validation::wire_json::append_bytes;
use crate::text::byte_len;

verus! {

// ---------------------------------------------------------------------------
// Numbers of the vocabulary
// ---------------------------------------------------------------------------

/// The number of a model source.
pub open spec fn model_source_number(value: AdapterModelSource) -> u8 {
    match value {
        AdapterModelSource::RequestedSelection => 0,
        AdapterModelSource::CurrentModel => 1,
    }
}

/// The number of a model source.
pub fn model_source_ordinal(value: AdapterModelSource) -> (ordinal: u8)
    ensures
        ordinal == model_source_number(value),
{
    match value {
        AdapterModelSource::RequestedSelection => 0,
        AdapterModelSource::CurrentModel => 1,
    }
}

/// The number of a collection.
pub open spec fn collection_number(value: AdapterCollection) -> u8 {
    match value {
        AdapterCollection::System => 0,
        AdapterCollection::Messages => 1,
        AdapterCollection::SystemMessages => 2,
        AdapterCollection::Blocks => 3,
        AdapterCollection::Tools => 4,
    }
}

/// The number of a collection.
pub fn collection_ordinal(value: AdapterCollection) -> (ordinal: u8)
    ensures
        ordinal == collection_number(value),
{
    match value {
        AdapterCollection::System => 0,
        AdapterCollection::Messages => 1,
        AdapterCollection::SystemMessages => 2,
        AdapterCollection::Blocks => 3,
        AdapterCollection::Tools => 4,
    }
}

/// The number of a choice.
pub open spec fn variant_source_number(value: AdapterVariantSource) -> u8 {
    match value {
        AdapterVariantSource::ModelSelection => 0,
        AdapterVariantSource::SystemMessageEntry => 1,
        AdapterVariantSource::Message => 2,
        AdapterVariantSource::UserBlock => 3,
        AdapterVariantSource::AssistantBlock => 4,
        AdapterVariantSource::ToolResultBlock => 5,
        AdapterVariantSource::ToolResultStatus => 6,
        AdapterVariantSource::ToolChoice => 7,
        AdapterVariantSource::Reasoning => 8,
        AdapterVariantSource::CacheRetention => 9,
    }
}

/// The number of a choice.
pub fn variant_source_ordinal(value: AdapterVariantSource) -> (ordinal: u8)
    ensures
        ordinal == variant_source_number(value),
{
    match value {
        AdapterVariantSource::ModelSelection => 0,
        AdapterVariantSource::SystemMessageEntry => 1,
        AdapterVariantSource::Message => 2,
        AdapterVariantSource::UserBlock => 3,
        AdapterVariantSource::AssistantBlock => 4,
        AdapterVariantSource::ToolResultBlock => 5,
        AdapterVariantSource::ToolResultStatus => 6,
        AdapterVariantSource::ToolChoice => 7,
        AdapterVariantSource::Reasoning => 8,
        AdapterVariantSource::CacheRetention => 9,
    }
}

/// The number of a scalar source.
pub open spec fn scalar_source_number(value: AdapterScalarSource) -> u8 {
    match value {
        AdapterScalarSource::SelectedModel => 0,
        AdapterScalarSource::SelectionKind => 1,
        AdapterScalarSource::SystemItem => 2,
        AdapterScalarSource::SystemJoined => 3,
        AdapterScalarSource::MessageRole => 4,
        AdapterScalarSource::BlockKind => 5,
        AdapterScalarSource::BlockText => 6,
        AdapterScalarSource::ToolResultCallId => 7,
        AdapterScalarSource::ToolResultIsError => 8,
        AdapterScalarSource::ToolResultStatus => 9,
        AdapterScalarSource::ToolResultName => 10,
        AdapterScalarSource::MistralToolResultContent => 11,
        AdapterScalarSource::ToolCallId => 12,
        AdapterScalarSource::ToolCallName => 13,
        AdapterScalarSource::ToolCallArguments => 14,
        AdapterScalarSource::ToolName => 15,
        AdapterScalarSource::ToolDescription => 16,
        AdapterScalarSource::ToolSchema => 17,
        AdapterScalarSource::ReasoningKind => 18,
        AdapterScalarSource::Proof => 19,
        AdapterScalarSource::ImageBytes => 20,
        AdapterScalarSource::ImageMediaType => 21,
        AdapterScalarSource::ImageWidth => 22,
        AdapterScalarSource::ImageHeight => 23,
        AdapterScalarSource::ImageFrames => 24,
        AdapterScalarSource::ImageDataUri => 25,
        AdapterScalarSource::ToolChoiceKind => 26,
        AdapterScalarSource::ToolChoiceName => 27,
        AdapterScalarSource::ReasoningMode => 28,
        AdapterScalarSource::ReasoningEffort => 29,
        AdapterScalarSource::ReasoningBudget => 30,
        AdapterScalarSource::CacheRetention => 31,
        AdapterScalarSource::MaxOutput => 32,
    }
}

/// The number of a scalar source.
pub fn scalar_source_ordinal(value: AdapterScalarSource) -> (ordinal: u8)
    ensures
        ordinal == scalar_source_number(value),
{
    match value {
        AdapterScalarSource::SelectedModel => 0,
        AdapterScalarSource::SelectionKind => 1,
        AdapterScalarSource::SystemItem => 2,
        AdapterScalarSource::SystemJoined => 3,
        AdapterScalarSource::MessageRole => 4,
        AdapterScalarSource::BlockKind => 5,
        AdapterScalarSource::BlockText => 6,
        AdapterScalarSource::ToolResultCallId => 7,
        AdapterScalarSource::ToolResultIsError => 8,
        AdapterScalarSource::ToolResultStatus => 9,
        AdapterScalarSource::ToolResultName => 10,
        AdapterScalarSource::MistralToolResultContent => 11,
        AdapterScalarSource::ToolCallId => 12,
        AdapterScalarSource::ToolCallName => 13,
        AdapterScalarSource::ToolCallArguments => 14,
        AdapterScalarSource::ToolName => 15,
        AdapterScalarSource::ToolDescription => 16,
        AdapterScalarSource::ToolSchema => 17,
        AdapterScalarSource::ReasoningKind => 18,
        AdapterScalarSource::Proof => 19,
        AdapterScalarSource::ImageBytes => 20,
        AdapterScalarSource::ImageMediaType => 21,
        AdapterScalarSource::ImageWidth => 22,
        AdapterScalarSource::ImageHeight => 23,
        AdapterScalarSource::ImageFrames => 24,
        AdapterScalarSource::ImageDataUri => 25,
        AdapterScalarSource::ToolChoiceKind => 26,
        AdapterScalarSource::ToolChoiceName => 27,
        AdapterScalarSource::ReasoningMode => 28,
        AdapterScalarSource::ReasoningEffort => 29,
        AdapterScalarSource::ReasoningBudget => 30,
        AdapterScalarSource::CacheRetention => 31,
        AdapterScalarSource::MaxOutput => 32,
    }
}

/// The number of a presence rule.
pub open spec fn presence_number(value: AdapterPresence) -> u8 {
    match value {
        AdapterPresence::Required => 0,
        AdapterPresence::OmitIfNone => 1,
        AdapterPresence::OmitForUnset => 2,
    }
}

/// The number of a presence rule.
pub fn presence_ordinal(value: AdapterPresence) -> (ordinal: u8)
    ensures
        ordinal == presence_number(value),
{
    match value {
        AdapterPresence::Required => 0,
        AdapterPresence::OmitIfNone => 1,
        AdapterPresence::OmitForUnset => 2,
    }
}

/// The number of a presence source.
pub open spec fn presence_source_number(value: AdapterPresenceSource) -> u8 {
    match value {
        AdapterPresenceSource::ReasoningProof => 0,
        AdapterPresenceSource::ReasoningEffort => 1,
        AdapterPresenceSource::ReasoningBudget => 2,
        AdapterPresenceSource::MaxOutput => 3,
        AdapterPresenceSource::ToolChoice => 4,
        AdapterPresenceSource::Reasoning => 5,
        AdapterPresenceSource::CacheRetention => 6,
    }
}

/// The number of a presence source.
pub fn presence_source_ordinal(value: AdapterPresenceSource) -> (ordinal: u8)
    ensures
        ordinal == presence_source_number(value),
{
    match value {
        AdapterPresenceSource::ReasoningProof => 0,
        AdapterPresenceSource::ReasoningEffort => 1,
        AdapterPresenceSource::ReasoningBudget => 2,
        AdapterPresenceSource::MaxOutput => 3,
        AdapterPresenceSource::ToolChoice => 4,
        AdapterPresenceSource::Reasoning => 5,
        AdapterPresenceSource::CacheRetention => 6,
    }
}

/// The number of an enumeration.
pub open spec fn enum_source_number(value: AdapterEnumSource) -> u8 {
    match value {
        AdapterEnumSource::SelectionKind => 0,
        AdapterEnumSource::MessageKind => 1,
        AdapterEnumSource::UserBlockKind => 2,
        AdapterEnumSource::AssistantBlockKind => 3,
        AdapterEnumSource::ToolResultBlockKind => 4,
        AdapterEnumSource::ToolResultStatus => 5,
        AdapterEnumSource::ReasoningKind => 6,
        AdapterEnumSource::ImageMediaType => 7,
        AdapterEnumSource::ToolChoice => 8,
        AdapterEnumSource::ReasoningMode => 9,
        AdapterEnumSource::ReasoningEffort => 10,
        AdapterEnumSource::CacheRetention => 11,
    }
}

/// The number of an enumeration.
pub fn enum_source_ordinal(value: AdapterEnumSource) -> (ordinal: u8)
    ensures
        ordinal == enum_source_number(value),
{
    match value {
        AdapterEnumSource::SelectionKind => 0,
        AdapterEnumSource::MessageKind => 1,
        AdapterEnumSource::UserBlockKind => 2,
        AdapterEnumSource::AssistantBlockKind => 3,
        AdapterEnumSource::ToolResultBlockKind => 4,
        AdapterEnumSource::ToolResultStatus => 5,
        AdapterEnumSource::ReasoningKind => 6,
        AdapterEnumSource::ImageMediaType => 7,
        AdapterEnumSource::ToolChoice => 8,
        AdapterEnumSource::ReasoningMode => 9,
        AdapterEnumSource::ReasoningEffort => 10,
        AdapterEnumSource::CacheRetention => 11,
    }
}

// ---------------------------------------------------------------------------
// Encodings
// ---------------------------------------------------------------------------

/// The domain of contract digests, with its closing zero byte.
pub open spec fn contract_domain() -> Seq<u8> {
    encode_utf8("mcode-provider-adapter-contract-v1\0"@)
}

/// The domain of body digests, with its closing zero byte.
pub open spec fn body_domain() -> Seq<u8> {
    encode_utf8("mcode-provider-wire-body-v1\0"@)
}

/// The domain of header digests, with its closing zero byte.
pub open spec fn header_domain() -> Seq<u8> {
    encode_utf8("mcode-provider-ordinary-headers-v1\0"@)
}

/// Whether a number of things fits into 32 bits.
pub open spec fn count_fits(count: nat) -> bool {
    count <= u32::MAX
}

/// Whether the length of a text fits into 32 bits.
pub open spec fn text_fits(text: Seq<char>) -> bool {
    count_fits(byte_len(text))
}

/// An optional number: a zero byte, or a one byte and the number.
pub open spec fn optional_u32_bytes(value: Option<u32>) -> Seq<u8> {
    match value {
        None => seq![0u8],
        Some(value) => seq![1u8] + be32(value),
    }
}

/// An optional tag: a zero byte, or a one byte and the tag.
pub open spec fn optional_tag_bytes(value: Option<u8>) -> Seq<u8> {
    match value {
        None => seq![0u8],
        Some(value) => seq![1u8, value],
    }
}

/// A flag as a byte.
pub open spec fn flag(value: bool) -> u8 {
    if value {
        1
    } else {
        0
    }
}

/// The encoding of a path segment.
pub open spec fn segment_bytes(segment: Option<PathSegment>) -> Seq<u8> {
    match segment {
        None => seq![0u8],
        Some(PathSegment::Key(key)) => seq![1u8, 0u8] + sized_text(key@),
        Some(PathSegment::ArrayItem) => seq![1u8, 1u8],
    }
}

/// Whether a path segment can be encoded.
pub open spec fn segment_fits(segment: Option<PathSegment>) -> bool {
    match segment {
        Some(PathSegment::Key(key)) => text_fits(key@),
        _ => true,
    }
}

/// The encoding of a transform.
pub open spec fn transform_bytes(transform: AdapterTransform) -> Seq<u8> {
    match transform {
        AdapterTransform::Identity => seq![0u8],
        AdapterTransform::CheckedU32 => seq![1u8],
        AdapterTransform::CheckedU64 => seq![2u8],
        AdapterTransform::JsonSubtree => seq![3u8],
        AdapterTransform::CanonicalJsonString => seq![4u8],
        AdapterTransform::MistralToolResultContent => seq![5u8],
        AdapterTransform::JoinLf => seq![6u8],
        AdapterTransform::Base64StandardPadded => seq![7u8],
        AdapterTransform::Base64StandardUnpadded => seq![8u8],
        AdapterTransform::DataUri => seq![9u8],
        AdapterTransform::EnumToken(index) => seq![10u8, (index / 256) as u8, (index % 256) as u8],
    }
}

/// The encoding of a fixed scalar.
pub open spec fn constant_bytes(value: TypedJsonConstant) -> Seq<u8> {
    match value {
        TypedJsonConstant::Null => seq![0u8],
        TypedJsonConstant::Boolean(value) => seq![1u8, flag(value)],
        TypedJsonConstant::Number(value) => seq![2u8] + sized_text(value@),
        TypedJsonConstant::String(value) => seq![3u8] + sized_text(value@),
    }
}

/// Whether a fixed scalar can be encoded.
pub open spec fn constant_fits(value: TypedJsonConstant) -> bool {
    match value {
        TypedJsonConstant::Number(value) => text_fits(value@),
        TypedJsonConstant::String(value) => text_fits(value@),
        _ => true,
    }
}

/// The encodings of node indexes.
pub open spec fn index_piece() -> spec_fn(u32) -> Seq<u8> {
    |index: u32| be32(index)
}

/// The encodings of switch cases.
pub open spec fn case_piece() -> spec_fn(ContractCase) -> Seq<u8> {
    |case: ContractCase| seq![case.variant_ordinal] + be32(case.node)
}

/// The encoding of what a node stands for.
pub open spec fn body_bytes(body: ContractNodeBody) -> Seq<u8> {
    match body {
        ContractNodeBody::Object(object) => seq![0u8] + counted(object.children@, index_piece()),
        ContractNodeBody::Array(array) => seq![1u8, collection_number(array.collection)] + be32(
            array.item,
        ) + be32(array.min) + be32(array.max),
        ContractNodeBody::Switch(switch) => seq![2u8, variant_source_number(switch.source)]
            + counted(switch.cases@, case_piece()),
        ContractNodeBody::Value(value) => seq![3u8, scalar_source_number(value.source)]
            + transform_bytes(value.transform),
        ContractNodeBody::Constant(constant) => seq![4u8] + constant_bytes(constant.value),
    }
}

/// Whether what a node stands for can be encoded.
pub open spec fn body_fits(body: ContractNodeBody) -> bool {
    match body {
        ContractNodeBody::Object(object) => count_fits(object.children@.len()),
        ContractNodeBody::Switch(switch) => count_fits(switch.cases@.len()),
        ContractNodeBody::Constant(constant) => constant_fits(constant.value),
        _ => true,
    }
}

/// The number of an optional presence source.
pub open spec fn presence_tag(source: Option<AdapterPresenceSource>) -> Option<u8> {
    match source {
        None => None,
        Some(source) => Some(presence_source_number(source)),
    }
}

/// The encoding of a node.
pub open spec fn node_bytes(node: ContractNode) -> Seq<u8> {
    optional_u32_bytes(node.parent) + segment_bytes(node.segment) + seq![
        presence_number(node.presence),
    ] + optional_tag_bytes(presence_tag(node.presence_source)) + body_bytes(node.body)
}

/// Whether a node can be encoded.
pub open spec fn node_fits(node: ContractNode) -> bool {
    segment_fits(node.segment) && body_fits(node.body)
}

/// The encodings of nodes.
pub open spec fn node_piece() -> spec_fn(ContractNode) -> Seq<u8> {
    |node: ContractNode| node_bytes(node)
}

/// The encodings of token entries.
pub open spec fn entry_piece() -> spec_fn(EnumTokenEntry) -> Seq<u8> {
    |entry: EnumTokenEntry| seq![entry.variant_ordinal] + sized_text(entry.token@)
}

/// The encoding of a token table.
pub open spec fn table_bytes(table: EnumTokenTable) -> Seq<u8> {
    seq![enum_source_number(table.source)] + counted(table.entries@, entry_piece())
}

/// Whether a token table can be encoded.
pub open spec fn table_fits(table: EnumTokenTable) -> bool {
    &&& count_fits(table.entries@.len())
    &&& forall|i: int| 0 <= i < table.entries@.len() ==> text_fits((#[trigger] table.entries@[i]).token@)
}

/// The encodings of token tables.
pub open spec fn table_piece() -> spec_fn(EnumTokenTable) -> Seq<u8> {
    |table: EnumTokenTable| table_bytes(table)
}

/// The encodings of texts.
pub open spec fn text_piece() -> spec_fn(String) -> Seq<u8> {
    |text: String| sized_text(text@)
}

/// The encoding of a header rule.
pub open spec fn rule_bytes(rule: OrdinaryHeaderRule) -> Seq<u8> {
    match rule {
        OrdinaryHeaderRule::Fixed(rule) => seq![0u8] + sized_text(rule.name@) + sized_text(
            rule.value@,
        ),
        OrdinaryHeaderRule::OneOf(rule) => seq![1u8] + sized_text(rule.name@) + counted(
            rule.values@,
            text_piece(),
        ) + seq![flag(rule.required)],
    }
}

/// Whether a header rule can be encoded.
pub open spec fn rule_fits(rule: OrdinaryHeaderRule) -> bool {
    match rule {
        OrdinaryHeaderRule::Fixed(rule) => text_fits(rule.name@) && text_fits(rule.value@),
        OrdinaryHeaderRule::OneOf(rule) => {
            &&& text_fits(rule.name@)
            &&& count_fits(rule.values@.len())
            &&& forall|i: int|
                0 <= i < rule.values@.len() ==> text_fits((#[trigger] rule.values@[i])@)
        },
    }
}

/// The encodings of header rules.
pub open spec fn rule_piece() -> spec_fn(OrdinaryHeaderRule) -> Seq<u8> {
    |rule: OrdinaryHeaderRule| rule_bytes(rule)
}

/// The encodings of headers.
pub open spec fn header_piece() -> spec_fn(OrdinaryHeader) -> Seq<u8> {
    |header: OrdinaryHeader| sized_text(header.name@) + sized_text(header.value@)
}

/// The preimage of the digest of a contract.
pub open spec fn contract_bytes(contract: AdapterContractV1) -> Seq<u8> {
    contract_domain() + seq![
        contract.version,
        contract.wire_id.number(),
        model_source_number(contract.model_source),
    ] + be32(contract.tree.root) + counted(contract.tree.nodes@, node_piece()) + counted(
        contract.tree.tables@,
        table_piece(),
    ) + counted(contract.ordinary_header_rules@, rule_piece()) + seq![
        contract.decoder_kind.number(),
    ]
}

/// Whether every count and length of a contract fits into 32 bits.
pub open spec fn contract_fits(contract: AdapterContractV1) -> bool {
    &&& count_fits(contract.tree.nodes@.len())
    &&& forall|i: int| 0 <= i < contract.tree.nodes@.len() ==> node_fits(#[trigger] contract.tree.nodes@[i])
    &&& count_fits(contract.tree.tables@.len())
    &&& forall|i: int|
        0 <= i < contract.tree.tables@.len() ==> table_fits(#[trigger] contract.tree.tables@[i])
    &&& count_fits(contract.ordinary_header_rules@.len())
    &&& forall|i: int|
        0 <= i < contract.ordinary_header_rules@.len() ==> rule_fits(
            #[trigger] contract.ordinary_header_rules@[i],
        )
}

/// The preimage of the digest of a body.
pub open spec fn wire_body_bytes(body: Seq<u8>) -> Seq<u8> {
    body_domain() + be64(body.len() as u64) + body
}

/// The preimage of the digest of headers.
pub open spec fn header_bytes(headers: Seq<OrdinaryHeader>) -> Seq<u8> {
    header_domain() + counted(headers, header_piece())
}

/// Whether every count and length of a list of headers fits into 32 bits.
pub open spec fn headers_fit(headers: Seq<OrdinaryHeader>) -> bool {
    &&& count_fits(headers.len())
    &&& forall|i: int|
        0 <= i < headers.len() ==> text_fits((#[trigger] headers[i]).name@) && text_fits(
            headers[i].value@,
        )
}

/// The text form of the SHA-256 hash of a byte string.
pub open spec fn digest_of(bytes: Seq<u8>) -> Seq<char> {
    digest_chars(sha256(bytes))
}

/// Whether a step has appended a piece that fits, or has found that it does
/// not.
pub open spec fn appended(
    before: Seq<u8>,
    piece: Seq<u8>,
    fits: bool,
    result: AdapterValidationResult<()>,
    after: Seq<u8>,
) -> bool {
    match result {
        Ok(_) => fits && after == before + piece,
        Err(error) => !fits && error == AdapterValidationError::Limit,
    }
}

/// Appends a count.
pub fn hash_count(hash: &mut Vec<u8>, length: usize) -> (result: AdapterValidationResult<()>)
    ensures
        appended(
            old(hash)@,
            be32(length as u32),
            count_fits(length as nat),
            result,
            final(hash)@,
        ),
{
    match checked_u32_len(length) {
        Ok(count) => {
            push_be32(count, hash);
            Ok(())
        },
        Err(_) => Err(AdapterValidationError::Limit),
    }
}

/// Appends a text after its length.
pub fn hash_string(hash: &mut Vec<u8>, value: &str) -> (result: AdapterValidationResult<()>)
    ensures
        appended(old(hash)@, sized_text(value@), text_fits(value@), result, final(hash)@),
{
    let bytes = value.as_bytes();
    hash_count(hash, bytes.len())?;
    append_bytes(bytes, hash);
    assert(hash@ =~= old(hash)@ + sized_text(value@));
    Ok(())
}

/// Appends an optional number.
pub fn hash_option_u32(hash: &mut Vec<u8>, value: Option<u32>)
    ensures
        final(hash)@ == old(hash)@ + optional_u32_bytes(value),
{
    match value {
        None => hash.push(0),
        Some(value) => {
            hash.push(1);
            push_be32(value, hash);
        },
    }
    assert(hash@ =~= old(hash)@ + optional_u32_bytes(value));
}

/// Appends an optional tag.
pub fn hash_option_tag(hash: &mut Vec<u8>, value: Option<u8>)
    ensures
        final(hash)@ == old(hash)@ + optional_tag_bytes(value),
{
    match value {
        None => hash.push(0),
        Some(value) => {
            hash.push(1);
            hash.push(value);
        },
    }
    assert(hash@ =~= old(hash)@ + optional_tag_bytes(value));
}

/// Appends a flag.
pub fn hash_flag(hash: &mut Vec<u8>, value: bool)
    ensures
        final(hash)@ == old(hash)@ + seq![flag(value)],
{
    if value {
        hash.push(1);
    } else {
        hash.push(0);
    }
    assert(hash@ =~= old(hash)@ + seq![flag(value)]);
}

/// Appends a transform.
pub fn hash_transform(hash: &mut Vec<u8>, transform: &AdapterTransform)
    ensures
        final(hash)@ == old(hash)@ + transform_bytes(*transform),
{
    let tag: u8 = match transform {
        AdapterTransform::Identity => 0,
        AdapterTransform::CheckedU32 => 1,
        AdapterTransform::CheckedU64 => 2,
        AdapterTransform::JsonSubtree => 3,
        AdapterTransform::CanonicalJsonString => 4,
        AdapterTransform::MistralToolResultContent => 5,
        AdapterTransform::JoinLf => 6,
        AdapterTransform::Base64StandardPadded => 7,
        AdapterTransform::Base64StandardUnpadded => 8,
        AdapterTransform::DataUri => 9,
        AdapterTransform::EnumToken(_) => 10,
    };
    hash.push(tag);
    if let AdapterTransform::EnumToken(index) = transform {
        hash.push((*index / 256) as u8);
        hash.push((*index % 256) as u8);
    }
    assert(hash@ =~= old(hash)@ + transform_bytes(*transform));
}

/// Appends a path segment.
pub fn hash_segment(hash: &mut Vec<u8>, segment: &Option<PathSegment>) -> (result:
    AdapterValidationResult<()>)
    ensures
        appended(
            old(hash)@,
            segment_bytes(*segment),
            segment_fits(*segment),
            result,
            final(hash)@,
        ),
{
    match segment {
        None => hash.push(0),
        Some(PathSegment::Key(key)) => {
            hash.push(1);
            hash.push(0);
            hash_string(hash, key.as_str())?;
        },
        Some(PathSegment::ArrayItem) => {
            hash.push(1);
            hash.push(1);
        },
    }
    assert(hash@ =~= old(hash)@ + segment_bytes(*segment));
    Ok(())
}

/// Appends a fixed scalar.
pub fn hash_constant(hash: &mut Vec<u8>, value: &TypedJsonConstant) -> (result:
    AdapterValidationResult<()>)
    ensures
        appended(old(hash)@, constant_bytes(*value), constant_fits(*value), result, final(hash)@),
{
    match value {
        TypedJsonConstant::Null => hash.push(0),
        TypedJsonConstant::Boolean(value) => {
            hash.push(1);
            hash_flag(hash, *value);
        },
        TypedJsonConstant::Number(value) => {
            hash.push(2);
            hash_string(hash, value.as_str())?;
        },
        TypedJsonConstant::String(value) => {
            hash.push(3);
            hash_string(hash, value.as_str())?;
        },
    }
    assert(hash@ =~= old(hash)@ + constant_bytes(*value));
    Ok(())
}

/// Appends the member nodes of an object.
pub fn hash_children(hash: &mut Vec<u8>, children: &Vec<u32>) -> (result: AdapterValidationResult<
    (),
>)
    ensures
        appended(
            old(hash)@,
            counted(children@, index_piece()),
            count_fits(children@.len()),
            result,
            final(hash)@,
        ),
{
    hash_count(hash, children.len())?;
    let ghost head = hash@;
    let mut i: usize = 0;
    assert(head + joined(children@.take(0), index_piece()) =~= head);
    while i < children.len()
        invariant
            i <= children@.len(),
            hash@ == head + joined(children@.take(i as int), index_piece()),
        decreases children.len() - i,
    {
        proof {
            lemma_joined_step(children@, index_piece(), i as int);
        }
        push_be32(children[i], hash);
        assert(hash@ =~= head + joined(children@.take(i as int + 1), index_piece()));
        i += 1;
    }
    assert(children@.take(i as int) =~= children@);
    assert(hash@ =~= old(hash)@ + counted(children@, index_piece()));
    Ok(())
}

/// Appends the cases of a switch.
pub fn hash_cases(hash: &mut Vec<u8>, cases: &Vec<ContractCase>) -> (result:
    AdapterValidationResult<()>)
    ensures
        appended(
            old(hash)@,
            counted(cases@, case_piece()),
            count_fits(cases@.len()),
            result,
            final(hash)@,
        ),
{
    hash_count(hash, cases.len())?;
    let ghost head = hash@;
    let mut i: usize = 0;
    assert(head + joined(cases@.take(0), case_piece()) =~= head);
    while i < cases.len()
        invariant
            i <= cases@.len(),
            hash@ == head + joined(cases@.take(i as int), case_piece()),
        decreases cases.len() - i,
    {
        proof {
            lemma_joined_step(cases@, case_piece(), i as int);
        }
        let case = &cases[i];
        hash.push(case.variant_ordinal);
        push_be32(case.node, hash);
        assert(hash@ =~= head + joined(cases@.take(i as int + 1), case_piece()));
        i += 1;
    }
    assert(cases@.take(i as int) =~= cases@);
    assert(hash@ =~= old(hash)@ + counted(cases@, case_piece()));
    Ok(())
}

/// Appends what a node stands for.
pub fn hash_node_body(hash: &mut Vec<u8>, body: &ContractNodeBody) -> (result:
    AdapterValidationResult<()>)
    ensures
        appended(old(hash)@, body_bytes(*body), body_fits(*body), result, final(hash)@),
{
    match body {
        ContractNodeBody::Object(object) => {
            hash.push(0);
            hash_children(hash, &object.children)?;
        },
        ContractNodeBody::Array(array) => {
            hash.push(1);
            hash.push(collection_ordinal(array.collection));
            push_be32(array.item, hash);
            push_be32(array.min, hash);
            push_be32(array.max, hash);
        },
        ContractNodeBody::Switch(switch) => {
            hash.push(2);
            hash.push(variant_source_ordinal(switch.source));
            hash_cases(hash, &switch.cases)?;
        },
        ContractNodeBody::Value(value) => {
            hash.push(3);
            hash.push(scalar_source_ordinal(value.source));
            hash_transform(hash, &value.transform);
        },
        ContractNodeBody::Constant(constant) => {
            hash.push(4);
            hash_constant(hash, &constant.value)?;
        },
    }
    assert(hash@ =~= old(hash)@ + body_bytes(*body));
    Ok(())
}

/// Appends a node.
pub fn hash_node(hash: &mut Vec<u8>, node: &ContractNode) -> (result: AdapterValidationResult<()>)
    ensures
        appended(old(hash)@, node_bytes(*node), node_fits(*node), result, final(hash)@),
{
    hash_option_u32(hash, node.parent);
    hash_segment(hash, &node.segment)?;
    hash.push(presence_ordinal(node.presence));
    let tag: Option<u8> = match node.presence_source {
        None => None,
        Some(source) => Some(presence_source_ordinal(source)),
    };
    hash_option_tag(hash, tag);
    hash_node_body(hash, &node.body)?;
    assert(hash@ =~= old(hash)@ + node_bytes(*node));
    Ok(())
}

/// Appends a token table.
pub fn hash_table(hash: &mut Vec<u8>, table: &EnumTokenTable) -> (result: AdapterValidationResult<
    (),
>)
    ensures
        appended(old(hash)@, table_bytes(*table), table_fits(*table), result, final(hash)@),
{
    let entries = &table.entries;
    hash.push(enum_source_ordinal(table.source));
    hash_count(hash, entries.len())?;
    let ghost head = hash@;
    let mut i: usize = 0;
    assert(head + joined(entries@.take(0), entry_piece()) =~= head);
    while i < entries.len()
        invariant
            i <= entries@.len(),
            *entries == table.entries,
            hash@ == head + joined(entries@.take(i as int), entry_piece()),
            forall|j: int| 0 <= j < i ==> text_fits((#[trigger] entries@[j]).token@),
        decreases entries.len() - i,
    {
        proof {
            lemma_joined_step(entries@, entry_piece(), i as int);
        }
        let entry = &entries[i];
        hash.push(entry.variant_ordinal);
        hash_string(hash, entry.token.as_str())?;
        assert(hash@ =~= head + joined(entries@.take(i as int + 1), entry_piece()));
        i += 1;
    }
    assert(entries@.take(i as int) =~= entries@);
    assert(hash@ =~= old(hash)@ + table_bytes(*table));
    Ok(())
}

/// Appends a header rule.
pub fn hash_rule(hash: &mut Vec<u8>, rule: &OrdinaryHeaderRule) -> (result: AdapterValidationResult<
    (),
>)
    ensures
        appended(old(hash)@, rule_bytes(*rule), rule_fits(*rule), result, final(hash)@),
{
    match rule {
        OrdinaryHeaderRule::Fixed(fixed) => {
            hash.push(0);
            hash_string(hash, fixed.name.as_str())?;
            hash_string(hash, fixed.value.as_str())?;
        },
        OrdinaryHeaderRule::OneOf(choice) => {
            let values = &choice.values;
            hash.push(1);
            hash_string(hash, choice.name.as_str())?;
            hash_count(hash, values.len())?;
            let ghost head = hash@;
            let mut i: usize = 0;
            assert(head + joined(values@.take(0), text_piece()) =~= head);
            while i < values.len()
                invariant
                    i <= values@.len(),
                    *values == choice.values,
                    *rule == OrdinaryHeaderRule::OneOf(*choice),
                    hash@ == head + joined(values@.take(i as int), text_piece()),
                    forall|j: int| 0 <= j < i ==> text_fits((#[trigger] values@[j])@),
                decreases values.len() - i,
            {
                proof {
                    lemma_joined_step(values@, text_piece(), i as int);
                }
                hash_string(hash, values[i].as_str())?;
                assert(hash@ =~= head + joined(values@.take(i as int + 1), text_piece()));
                i += 1;
            }
            assert(values@.take(i as int) =~= values@);
            hash_flag(hash, choice.required);
        },
    }
    assert(hash@ =~= old(hash)@ + rule_bytes(*rule));
    Ok(())
}

/// Appends the nodes of a contract.
pub fn hash_nodes(hash: &mut Vec<u8>, nodes: &Vec<ContractNode>) -> (result: AdapterValidationResult<
    (),
>)
    ensures
        appended(
            old(hash)@,
            counted(nodes@, node_piece()),
            count_fits(nodes@.len()) && forall|i: int|
                0 <= i < nodes@.len() ==> node_fits(#[trigger] nodes@[i]),
            result,
            final(hash)@,
        ),
{
    hash_count(hash, nodes.len())?;
    let ghost head = hash@;
    let mut i: usize = 0;
    assert(head + joined(nodes@.take(0), node_piece()) =~= head);
    while i < nodes.len()
        invariant
            i <= nodes@.len(),
            hash@ == head + joined(nodes@.take(i as int), node_piece()),
            forall|j: int| 0 <= j < i ==> node_fits(#[trigger] nodes@[j]),
        decreases nodes.len() - i,
    {
        proof {
            lemma_joined_step(nodes@, node_piece(), i as int);
        }
        hash_node(hash, &nodes[i])?;
        assert(hash@ =~= head + joined(nodes@.take(i as int + 1), node_piece()));
        i += 1;
    }
    assert(nodes@.take(i as int) =~= nodes@);
    assert(hash@ =~= old(hash)@ + counted(nodes@, node_piece()));
    Ok(())
}

/// Appends the token tables of a contract.
pub fn hash_tables(hash: &mut Vec<u8>, tables: &Vec<EnumTokenTable>) -> (result:
    AdapterValidationResult<()>)
    ensures
        appended(
            old(hash)@,
            counted(tables@, table_piece()),
            count_fits(tables@.len()) && forall|i: int|
                0 <= i < tables@.len() ==> table_fits(#[trigger] tables@[i]),
            result,
            final(hash)@,
        ),
{
    hash_count(hash, tables.len())?;
    let ghost head = hash@;
    let mut i: usize = 0;
    assert(head + joined(tables@.take(0), table_piece()) =~= head);
    while i < tables.len()
        invariant
            i <= tables@.len(),
            hash@ == head + joined(tables@.take(i as int), table_piece()),
            forall|j: int| 0 <= j < i ==> table_fits(#[trigger] tables@[j]),
        decreases tables.len() - i,
    {
        proof {
            lemma_joined_step(tables@, table_piece(), i as int);
        }
        hash_table(hash, &tables[i])?;
        assert(hash@ =~= head + joined(tables@.take(i as int + 1), table_piece()));
        i += 1;
    }
    assert(tables@.take(i as int) =~= tables@);
    assert(hash@ =~= old(hash)@ + counted(tables@, table_piece()));
    Ok(())
}

/// Appends the header rules of a contract.
pub fn hash_rules(hash: &mut Vec<u8>, rules: &Vec<OrdinaryHeaderRule>) -> (result:
    AdapterValidationResult<()>)
    ensures
        appended(
            old(hash)@,
            counted(rules@, rule_piece()),
            count_fits(rules@.len()) && forall|i: int|
                0 <= i < rules@.len() ==> rule_fits(#[trigger] rules@[i]),
            result,
            final(hash)@,
        ),
{
    hash_count(hash, rules.len())?;
    let ghost head = hash@;
    let mut i: usize = 0;
    assert(head + joined(rules@.take(0), rule_piece()) =~= head);
    while i < rules.len()
        invariant
            i <= rules@.len(),
            hash@ == head + joined(rules@.take(i as int), rule_piece()),
            forall|j: int| 0 <= j < i ==> rule_fits(#[trigger] rules@[j]),
        decreases rules.len() - i,
    {
        proof {
            lemma_joined_step(rules@, rule_piece(), i as int);
        }
        hash_rule(hash, &rules[i])?;
        assert(hash@ =~= head + joined(rules@.take(i as int + 1), rule_piece()));
        i += 1;
    }
    assert(rules@.take(i as int) =~= rules@);
    assert(hash@ =~= old(hash)@ + counted(rules@, rule_piece()));
    Ok(())
}

/// The digest of a contract.
pub fn contract_digest(contract: &AdapterContractV1) -> (result: AdapterValidationResult<String>)
    ensures
        match result {
            Ok(digest) => contract_fits(*contract) && digest@ == digest_of(contract_bytes(*contract))
                && is_digest(digest@),
            Err(error) => !contract_fits(*contract) && error == AdapterValidationError::Limit,
        },
{
    let mut hash: Vec<u8> = Vec::new();
    append_bytes("mcode-provider-adapter-contract-v1\0".as_bytes(), &mut hash);
    hash.push(contract.version);
    hash.push(contract.wire_id.ordinal());
    hash.push(model_source_ordinal(contract.model_source));
    push_be32(contract.tree.root, &mut hash);
    hash_nodes(&mut hash, &contract.tree.nodes)?;
    hash_tables(&mut hash, &contract.tree.tables)?;
    hash_rules(&mut hash, &contract.ordinary_header_rules)?;
    hash.push(contract.decoder_kind.ordinal());
    assert(hash@ =~= contract_bytes(*contract));
    let digest = sha256_digest(hash.as_slice());
    proof {
        lemma_digest_text_is_well_formed(digest@);
    }
    Ok(digest_text(digest.as_slice()))
}

/// The digest of a canonical body.
pub fn body_digest(body: &[u8]) -> (result: AdapterValidationResult<String>)
    ensures
        result matches Ok(digest) && digest@ == digest_of(wire_body_bytes(body@)) && is_digest(
            digest@,
        ),
{
    let mut hash: Vec<u8> = Vec::new();
    append_bytes("mcode-provider-wire-body-v1\0".as_bytes(), &mut hash);
    push_be64(body.len() as u64, &mut hash);
    append_bytes(body, &mut hash);
    assert(hash@ =~= wire_body_bytes(body@));
    let digest = sha256_digest(hash.as_slice());
    proof {
        lemma_digest_text_is_well_formed(digest@);
    }
    Ok(digest_text(digest.as_slice()))
}

/// The digest of a list of headers.
pub fn ordinary_header_digest(headers: &[OrdinaryHeader]) -> (result: AdapterValidationResult<
    String,
>)
    ensures
        match result {
            Ok(digest) => headers_fit(headers@) && digest@ == digest_of(header_bytes(headers@))
                && is_digest(digest@),
            Err(error) => !headers_fit(headers@) && error == AdapterValidationError::Limit,
        },
{
    let mut hash: Vec<u8> = Vec::new();
    append_bytes("mcode-provider-ordinary-headers-v1\0".as_bytes(), &mut hash);
    assert(hash@ =~= header_domain());
    hash_count(&mut hash, headers.len())?;
    let ghost head = hash@;
    let mut i: usize = 0;
    assert(head + joined(headers@.take(0), header_piece()) =~= head);
    while i < headers.len()
        invariant
            i <= headers@.len(),
            hash@ == head + joined(headers@.take(i as int), header_piece()),
            forall|j: int|
                0 <= j < i ==> text_fits((#[trigger] headers@[j]).name@) && text_fits(
                    headers@[j].value@,
                ),
        decreases headers.len() - i,
    {
        proof {
            lemma_joined_step(headers@, header_piece(), i as int);
        }
        let header = &headers[i];
        hash_string(&mut hash, header.name.as_str())?;
        hash_string(&mut hash, header.value.as_str())?;
        assert(hash@ =~= head + joined(headers@.take(i as int + 1), header_piece()));
        i += 1;
    }
    assert(headers@.take(i as int) =~= headers@);
    assert(hash@ =~= header_bytes(headers@));
    let digest = sha256_digest(hash.as_slice());
    proof {
        lemma_digest_text_is_well_formed(digest@);
    }
    Ok(digest_text(digest.as_slice()))
}

} // verus!
