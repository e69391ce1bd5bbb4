//! Structural validation for closed adapter contracts.

use vstd::prelude::*;
use vstd::utf8::encode_utf8;

use crate::provider_validation::adapter::header::rule_name;
use crate::provider_validation::adapter::json::{add_charge, add_text_charge, charged, zeros};
use crate::provider_validation::adapter::semantics::{
    is_ordered, references_of, semantics_verdict, validate_semantics,
};
use crate::provider_validation::adapter::types::{
    both, demand, legal, AdapterCollection, AdapterContractV1, AdapterEnumSource, AdapterPresence,
    AdapterPresenceSource, AdapterScalarSource, AdapterTransform, AdapterValidationError,
    AdapterValidationResult, AdapterVariantSource, AdapterWireId, ContractArray, ContractNode,
    ContractNodeBody, ContractObject, ContractSwitch, EnumTokenEntry, EnumTokenTable,
    OrdinaryHeaderRule, PathSegment, TypedJsonConstant,
};
use crate::provider_validation::charge::LogicalCharge;
use crate::provider_validation::prepare::{
    denied_header, header_name_verdict, header_value_verdict, is_denied_header, texts_of,
    validate_header_name, validate_header_value,
};
use crate::provider_validation::scalar;
use crate::provider_validation::scalar::{safe_verdict, visible_ascii_verdict, MAX_SAFE_TEXT_BYTES};
use crate::provider_validation::wire_json::{is_canonical_number, is_number_token};
use crate::provider_validation::{ValidationError, ValidationResult};
use crate::text::{byte_len, bytes_before, is_before, lemma_byte_order, same_text};

verus! {

/// The largest number of nodes of a contract.
pub const MAX_CONTRACT_NODES: usize = 4_096;

/// The largest depth of a contract.
pub const MAX_CONTRACT_DEPTH: u8 = 32;

/// The largest number of keys and items on the way to a node.
pub const MAX_PATH_DEPTH: u8 = 16;

/// The largest number of token tables of a contract.
pub const MAX_TABLES: usize = 64;

/// The largest number of header rules of a contract.
pub const MAX_HEADER_RULES: usize = 32;

/// The largest number of items of an array.
pub const MAX_ARRAY_ITEMS: u32 = 262_144;

/// The largest number of entries of a token table.
pub const MAX_TABLE_ENTRIES: usize = 16;

/// The largest number of values of a header rule.
pub const MAX_RULE_VALUES: usize = 16;

/// The largest byte length of a key or token.
pub const MAX_TOKEN_BYTES: usize = 128;

/// The largest charge of a contract tree.
pub const MAX_TREE_CHARGE: u64 = 1_048_576;

/// A refused value of a contract.
pub open spec fn contract_error(error: ValidationError) -> AdapterValidationError {
    match error {
        ValidationError::InvalidArgument => AdapterValidationError::InvalidContract,
        ValidationError::Limit => AdapterValidationError::Limit,
    }
}

/// The verdict on a value of a contract.
pub open spec fn contract_verdict(outcome: ValidationResult) -> AdapterValidationResult<()> {
    match outcome {
        Ok(_) => Ok(()),
        Err(error) => Err(contract_error(error)),
    }
}

/// Maps a refused value of a contract.
pub fn map_contract_error(error: ValidationError) -> (mapped: AdapterValidationError)
    ensures
        mapped == contract_error(error),
{
    match error {
        ValidationError::InvalidArgument => AdapterValidationError::InvalidContract,
        ValidationError::Limit => AdapterValidationError::Limit,
    }
}

/// Maps the outcome of a check on a value of a contract.
pub fn map_contract_result(outcome: ValidationResult) -> (result: AdapterValidationResult<()>)
    ensures
        result == contract_verdict(outcome),
{
    match outcome {
        Ok(_) => Ok(()),
        Err(error) => Err(map_contract_error(error)),
    }
}

/// The outcome of a test on a contract.
pub fn require(holds: bool) -> (result: AdapterValidationResult<()>)
    ensures
        result == legal(holds),
{
    if holds {
        Ok(())
    } else {
        Err(AdapterValidationError::InvalidContract)
    }
}

// ---------------------------------------------------------------------------
// Presence, transforms and constants
// ---------------------------------------------------------------------------

/// Whether a presence rule goes with what decides on it.
pub open spec fn is_legal_presence(
    presence: AdapterPresence,
    source: Option<AdapterPresenceSource>,
) -> bool {
    presence == match source {
        None => AdapterPresence::Required,
        Some(AdapterPresenceSource::ReasoningProof) => AdapterPresence::OmitIfNone,
        Some(AdapterPresenceSource::ReasoningEffort) => AdapterPresence::OmitIfNone,
        Some(AdapterPresenceSource::ReasoningBudget) => AdapterPresence::OmitIfNone,
        Some(AdapterPresenceSource::MaxOutput) => AdapterPresence::OmitIfNone,
        Some(AdapterPresenceSource::ToolChoice) => AdapterPresence::OmitForUnset,
        Some(AdapterPresenceSource::Reasoning) => AdapterPresence::OmitForUnset,
        Some(AdapterPresenceSource::CacheRetention) => AdapterPresence::OmitForUnset,
    }
}

/// Checks that a presence rule goes with what decides on it.
pub fn validate_presence(presence: AdapterPresence, source: Option<AdapterPresenceSource>) -> (result:
    AdapterValidationResult<()>)
    ensures
        result == legal(is_legal_presence(presence, source)),
{
    let expected = match source {
        None => AdapterPresence::Required,
        Some(AdapterPresenceSource::ReasoningProof)
        | Some(AdapterPresenceSource::ReasoningEffort)
        | Some(AdapterPresenceSource::ReasoningBudget)
        | Some(AdapterPresenceSource::MaxOutput) => AdapterPresence::OmitIfNone,
        Some(AdapterPresenceSource::ToolChoice)
        | Some(AdapterPresenceSource::Reasoning)
        | Some(AdapterPresenceSource::CacheRetention) => AdapterPresence::OmitForUnset,
    };
    require(presence == expected)
}

/// The enumeration of a scalar. The kind of a block has several.
pub open spec fn enum_of(source: AdapterScalarSource) -> Option<AdapterEnumSource> {
    match source {
        AdapterScalarSource::SelectionKind => Some(AdapterEnumSource::SelectionKind),
        AdapterScalarSource::MessageRole => Some(AdapterEnumSource::MessageKind),
        AdapterScalarSource::ToolResultStatus => Some(AdapterEnumSource::ToolResultStatus),
        AdapterScalarSource::ReasoningKind => Some(AdapterEnumSource::ReasoningKind),
        AdapterScalarSource::ImageMediaType => Some(AdapterEnumSource::ImageMediaType),
        AdapterScalarSource::ToolChoiceKind => Some(AdapterEnumSource::ToolChoice),
        AdapterScalarSource::ReasoningMode => Some(AdapterEnumSource::ReasoningMode),
        AdapterScalarSource::ReasoningEffort => Some(AdapterEnumSource::ReasoningEffort),
        AdapterScalarSource::CacheRetention => Some(AdapterEnumSource::CacheRetention),
        _ => None,
    }
}

/// The enumeration of a scalar. The kind of a block has several.
pub fn enum_source(source: AdapterScalarSource) -> (found: Option<AdapterEnumSource>)
    ensures
        found == enum_of(source),
{
    match source {
        AdapterScalarSource::SelectionKind => Some(AdapterEnumSource::SelectionKind),
        AdapterScalarSource::MessageRole => Some(AdapterEnumSource::MessageKind),
        AdapterScalarSource::ToolResultStatus => Some(AdapterEnumSource::ToolResultStatus),
        AdapterScalarSource::ReasoningKind => Some(AdapterEnumSource::ReasoningKind),
        AdapterScalarSource::ImageMediaType => Some(AdapterEnumSource::ImageMediaType),
        AdapterScalarSource::ToolChoiceKind => Some(AdapterEnumSource::ToolChoice),
        AdapterScalarSource::ReasoningMode => Some(AdapterEnumSource::ReasoningMode),
        AdapterScalarSource::ReasoningEffort => Some(AdapterEnumSource::ReasoningEffort),
        AdapterScalarSource::CacheRetention => Some(AdapterEnumSource::CacheRetention),
        _ => None,
    }
}

/// Whether a table of an enumeration serves a scalar.
pub open spec fn table_serves(source: AdapterScalarSource, table: AdapterEnumSource) -> bool {
    if source == AdapterScalarSource::BlockKind {
        table == AdapterEnumSource::UserBlockKind || table == AdapterEnumSource::AssistantBlockKind
            || table == AdapterEnumSource::ToolResultBlockKind
    } else {
        enum_of(source) == Some(table)
    }
}

/// Whether a table of an enumeration serves a scalar.
pub fn serves(source: AdapterScalarSource, table: AdapterEnumSource) -> (found: bool)
    ensures
        found == table_serves(source, table),
{
    if source == AdapterScalarSource::BlockKind {
        table == AdapterEnumSource::UserBlockKind || table == AdapterEnumSource::AssistantBlockKind
            || table == AdapterEnumSource::ToolResultBlockKind
    } else {
        match enum_source(source) {
            Some(found) => found == table,
            None => false,
        }
    }
}

/// Whether a transform names a table that serves a scalar.
pub open spec fn names_serving_table(
    contract: AdapterContractV1,
    source: AdapterScalarSource,
    transform: AdapterTransform,
) -> bool {
    &&& transform matches AdapterTransform::EnumToken(index)
    &&& index < contract.tree.tables@.len()
    &&& table_serves(source, contract.tree.tables@[index as int].source)
}

/// Whether a transform names a table that serves a scalar.
pub fn enum_transform_matches(
    contract: &AdapterContractV1,
    source: AdapterScalarSource,
    transform: &AdapterTransform,
) -> (found: bool)
    ensures
        found == names_serving_table(*contract, source, *transform),
{
    match transform {
        AdapterTransform::EnumToken(index) => {
            let index = *index as usize;
            index < contract.tree.tables.len() && serves(source, contract.tree.tables[index].source)
        },
        _ => false,
    }
}

/// Whether a protocol carries tool arguments as canonical text.
pub open spec fn takes_argument_text(wire: AdapterWireId) -> bool {
    wire == AdapterWireId::OpenAiCompletions || wire == AdapterWireId::OpenAiResponses || wire
        == AdapterWireId::OpenAiCodexResponses || wire == AdapterWireId::AzureOpenAiResponses
        || wire == AdapterWireId::MistralConversations
}

/// Whether a protocol carries tool arguments as canonical text.
pub fn supports_canonical_arguments(wire: AdapterWireId) -> (found: bool)
    ensures
        found == takes_argument_text(wire),
{
    wire == AdapterWireId::OpenAiCompletions || wire == AdapterWireId::OpenAiResponses || wire
        == AdapterWireId::OpenAiCodexResponses || wire == AdapterWireId::AzureOpenAiResponses
        || wire == AdapterWireId::MistralConversations
}

/// Whether a scalar may go through a transform.
pub open spec fn is_legal_transform(
    contract: AdapterContractV1,
    source: AdapterScalarSource,
    transform: AdapterTransform,
) -> bool {
    match source {
        AdapterScalarSource::SelectedModel
        | AdapterScalarSource::SystemItem
        | AdapterScalarSource::BlockText
        | AdapterScalarSource::ToolResultCallId
        | AdapterScalarSource::ToolResultName
        | AdapterScalarSource::ToolResultIsError
        | AdapterScalarSource::ToolCallId
        | AdapterScalarSource::ToolCallName
        | AdapterScalarSource::ToolName
        | AdapterScalarSource::ToolDescription
        | AdapterScalarSource::ToolChoiceName => transform is Identity,
        AdapterScalarSource::SelectionKind
        | AdapterScalarSource::MessageRole
        | AdapterScalarSource::BlockKind
        | AdapterScalarSource::ToolResultStatus
        | AdapterScalarSource::ReasoningKind
        | AdapterScalarSource::ImageMediaType
        | AdapterScalarSource::ToolChoiceKind
        | AdapterScalarSource::ReasoningMode
        | AdapterScalarSource::ReasoningEffort
        | AdapterScalarSource::CacheRetention => names_serving_table(contract, source, transform),
        AdapterScalarSource::ImageWidth
        | AdapterScalarSource::ImageHeight
        | AdapterScalarSource::ImageFrames => transform is CheckedU32,
        AdapterScalarSource::ReasoningBudget
        | AdapterScalarSource::MaxOutput => transform is CheckedU64,
        AdapterScalarSource::ToolCallArguments => transform is JsonSubtree || (
        transform is CanonicalJsonString && takes_argument_text(contract.wire_id)),
        AdapterScalarSource::ToolSchema => transform is JsonSubtree,
        AdapterScalarSource::Proof
        | AdapterScalarSource::ImageBytes => transform is Base64StandardPadded
            || transform is Base64StandardUnpadded,
        AdapterScalarSource::SystemJoined => transform is JoinLf,
        AdapterScalarSource::ImageDataUri => transform is DataUri,
        AdapterScalarSource::MistralToolResultContent => transform is MistralToolResultContent
            && contract.wire_id == AdapterWireId::MistralConversations,
    }
}

/// Checks that a scalar may go through a transform.
pub fn validate_transform(
    contract: &AdapterContractV1,
    source: AdapterScalarSource,
    transform: &AdapterTransform,
) -> (result: AdapterValidationResult<()>)
    ensures
        result == legal(is_legal_transform(*contract, source, *transform)),
{
    let valid = match source {
        AdapterScalarSource::SelectedModel
        | AdapterScalarSource::SystemItem
        | AdapterScalarSource::BlockText
        | AdapterScalarSource::ToolResultCallId
        | AdapterScalarSource::ToolResultName
        | AdapterScalarSource::ToolResultIsError
        | AdapterScalarSource::ToolCallId
        | AdapterScalarSource::ToolCallName
        | AdapterScalarSource::ToolName
        | AdapterScalarSource::ToolDescription
        | AdapterScalarSource::ToolChoiceName => match transform {
            AdapterTransform::Identity => true,
            _ => false,
        },
        AdapterScalarSource::SelectionKind
        | AdapterScalarSource::MessageRole
        | AdapterScalarSource::BlockKind
        | AdapterScalarSource::ToolResultStatus
        | AdapterScalarSource::ReasoningKind
        | AdapterScalarSource::ImageMediaType
        | AdapterScalarSource::ToolChoiceKind
        | AdapterScalarSource::ReasoningMode
        | AdapterScalarSource::ReasoningEffort
        | AdapterScalarSource::CacheRetention => enum_transform_matches(
            contract,
            source,
            transform,
        ),
        AdapterScalarSource::ImageWidth
        | AdapterScalarSource::ImageHeight
        | AdapterScalarSource::ImageFrames => match transform {
            AdapterTransform::CheckedU32 => true,
            _ => false,
        },
        AdapterScalarSource::ReasoningBudget | AdapterScalarSource::MaxOutput => match transform {
            AdapterTransform::CheckedU64 => true,
            _ => false,
        },
        AdapterScalarSource::ToolCallArguments => match transform {
            AdapterTransform::JsonSubtree => true,
            AdapterTransform::CanonicalJsonString => supports_canonical_arguments(
                contract.wire_id,
            ),
            _ => false,
        },
        AdapterScalarSource::ToolSchema => match transform {
            AdapterTransform::JsonSubtree => true,
            _ => false,
        },
        AdapterScalarSource::Proof | AdapterScalarSource::ImageBytes => match transform {
            AdapterTransform::Base64StandardPadded => true,
            AdapterTransform::Base64StandardUnpadded => true,
            _ => false,
        },
        AdapterScalarSource::SystemJoined => match transform {
            AdapterTransform::JoinLf => true,
            _ => false,
        },
        AdapterScalarSource::ImageDataUri => match transform {
            AdapterTransform::DataUri => true,
            _ => false,
        },
        AdapterScalarSource::MistralToolResultContent => match transform {
            AdapterTransform::MistralToolResultContent => contract.wire_id
                == AdapterWireId::MistralConversations,
            _ => false,
        },
    };
    require(valid)
}

/// The verdict on a fixed scalar.
pub open spec fn constant_verdict(value: TypedJsonConstant) -> AdapterValidationResult<()> {
    match value {
        TypedJsonConstant::Null => Ok(()),
        TypedJsonConstant::Boolean(_) => Ok(()),
        TypedJsonConstant::Number(value) => legal(is_number_token(encode_utf8(value@))),
        TypedJsonConstant::String(value) => contract_verdict(
            safe_verdict(value@, MAX_SAFE_TEXT_BYTES as int, false),
        ),
    }
}

/// Checks a fixed scalar.
pub fn validate_constant(value: &TypedJsonConstant) -> (result: AdapterValidationResult<()>)
    ensures
        result == constant_verdict(*value),
{
    match value {
        TypedJsonConstant::Null | TypedJsonConstant::Boolean(_) => Ok(()),
        TypedJsonConstant::Number(value) => require(is_canonical_number(value.as_str())),
        TypedJsonConstant::String(value) => map_contract_result(
            scalar::safe(value.as_str(), MAX_SAFE_TEXT_BYTES, false),
        ),
    }
}

// ---------------------------------------------------------------------------
// Token tables
// ---------------------------------------------------------------------------

/// The table that a node draws its token from.
pub open spec fn table_of(node: ContractNode) -> Option<u16> {
    match node.body {
        ContractNodeBody::Value(value) => match value.transform {
            AdapterTransform::EnumToken(index) => Some(index),
            _ => None,
        },
        _ => None,
    }
}

/// Whether the table that a node draws its token from exists and serves it.
pub open spec fn uses_table_well(contract: AdapterContractV1, node: ContractNode) -> bool {
    table_of(node) matches Some(index) ==> index < MAX_TABLES && names_serving_table(
        contract,
        node.body->Value_0.source,
        node.body->Value_0.transform,
    )
}

/// Whether one of the first `n` nodes draws its token from table `index`.
pub open spec fn is_used(nodes: Seq<ContractNode>, n: int, index: int) -> bool {
    exists|i: int|
        0 <= i < n && (table_of(#[trigger] nodes[i]) matches Some(used) && used as int == index)
}

/// Whether a token stands among the first `n` entries.
pub open spec fn has_token(entries: Seq<EnumTokenEntry>, n: int, token: Seq<char>) -> bool {
    exists|i: int| 0 <= i < n && (#[trigger] entries[i]).token@ == token
}

/// The verdict on the entries of a table from entry `i` on.
pub open spec fn entries_verdict(entries: Seq<EnumTokenEntry>, i: int) -> AdapterValidationResult<()>
    decreases entries.len() - i,
{
    if i >= entries.len() {
        Ok(())
    } else {
        both(
            legal(entries[i].variant_ordinal == i),
            both(
                contract_verdict(visible_ascii_verdict(entries[i].token@, MAX_TOKEN_BYTES as int)),
                both(
                    legal(!has_token(entries, i, entries[i].token@)),
                    entries_verdict(entries, i + 1),
                ),
            ),
        )
    }
}

/// The verdict on a table: one distinct visible token for every variant, in
/// order.
pub open spec fn table_verdict(table: EnumTokenTable) -> AdapterValidationResult<()> {
    both(
        legal(
            table.entries@.len() == table.source.variants() && table.entries@.len()
                <= MAX_TABLE_ENTRIES,
        ),
        entries_verdict(table.entries@, 0),
    )
}

/// The verdict on the tables from table `i` on.
pub open spec fn tables_verdict_from(tables: Seq<EnumTokenTable>, i: int) -> AdapterValidationResult<
    (),
>
    decreases tables.len() - i,
{
    if i >= tables.len() {
        Ok(())
    } else {
        both(table_verdict(tables[i]), tables_verdict_from(tables, i + 1))
    }
}

/// The verdict on the tables of a contract: every use is fitting, every table
/// is used, and every table is well formed.
pub open spec fn tables_verdict(contract: AdapterContractV1) -> AdapterValidationResult<()> {
    let nodes = contract.tree.nodes@;
    both(
        legal(
            {
                &&& forall|i: int|
                    0 <= i < nodes.len() ==> uses_table_well(contract, #[trigger] nodes[i])
                &&& forall|k: int|
                    0 <= k < contract.tree.tables@.len() ==> #[trigger] is_used(
                        nodes,
                        nodes.len() as int,
                        k,
                    )
            },
        ),
        tables_verdict_from(contract.tree.tables@, 0),
    )
}

/// Whether a token stands among the first `n` entries.
pub fn token_before(entries: &Vec<EnumTokenEntry>, n: usize, token: &str) -> (found: bool)
    requires
        n <= entries@.len(),
    ensures
        found == has_token(entries@, n as int, token@),
{
    let mut i: usize = 0;
    while i < n
        invariant
            i <= n <= entries@.len(),
            forall|j: int| 0 <= j < i ==> (#[trigger] entries@[j]).token@ != token@,
        decreases n - i,
    {
        if same_text(entries[i].token.as_str(), token) {
            assert(entries@[i as int].token@ == token@);
            return true;
        }
        i += 1;
    }
    false
}

/// Checks a table.
pub fn validate_table(table: &EnumTokenTable) -> (result: AdapterValidationResult<()>)
    ensures
        result == table_verdict(*table),
{
    let entries = &table.entries;
    if entries.len() != table.source.variant_count() as usize || entries.len() > MAX_TABLE_ENTRIES {
        return Err(AdapterValidationError::InvalidContract);
    }
    let mut i: usize = 0;
    while i < entries.len()
        invariant
            i <= entries@.len(),
            *entries == table.entries,
            table_verdict(*table) == entries_verdict(entries@, i as int),
        decreases entries.len() - i,
    {
        let entry = &entries[i];
        if entry.variant_ordinal as usize != i {
            return Err(AdapterValidationError::InvalidContract);
        }
        map_contract_result(scalar::visible_ascii(entry.token.as_str(), MAX_TOKEN_BYTES))?;
        if token_before(entries, i, entry.token.as_str()) {
            return Err(AdapterValidationError::InvalidContract);
        }
        i += 1;
    }
    Ok(())
}

/// `count` flags, all down.
pub fn lowered(count: usize) -> (flags: Vec<bool>)
    ensures
        flags@.len() == count,
        forall|i: int| 0 <= i < count ==> !#[trigger] flags@[i],
{
    let mut flags: Vec<bool> = Vec::with_capacity(count);
    let mut i: usize = 0;
    while i < count
        invariant
            i <= count,
            flags@.len() == i,
            forall|j: int| 0 <= j < i ==> !#[trigger] flags@[j],
        decreases count - i,
    {
        flags.push(false);
        i += 1;
    }
    flags
}

/// Checks the tables of a contract.
#[verifier::loop_isolation(false)]
pub fn validate_tables(contract: &AdapterContractV1) -> (result: AdapterValidationResult<()>)
    ensures
        result == tables_verdict(*contract),
{
    let ghost nodes = contract.tree.nodes@;
    let count: usize = contract.tree.tables.len();
    let mut used = lowered(count);
    let mut i: usize = 0;
    while i < contract.tree.nodes.len()
        invariant
            i <= nodes.len(),
            used@.len() == count,
            forall|j: int| 0 <= j < i ==> uses_table_well(*contract, #[trigger] nodes[j]),
            forall|k: int|
                0 <= k < count ==> #[trigger] used@[k] == is_used(nodes, i as int, k),
        decreases contract.tree.nodes.len() - i,
    {
        let ghost before = used@;
        if let ContractNodeBody::Value(value) = &contract.tree.nodes[i].body {
            if let AdapterTransform::EnumToken(index) = &value.transform {
                let index = *index as usize;
                if index >= MAX_TABLES || !enum_transform_matches(
                    contract,
                    value.source,
                    &value.transform,
                ) {
                    assert(!uses_table_well(*contract, nodes[i as int]));
                    return Err(AdapterValidationError::InvalidContract);
                }
                used[index] = true;
            }
        }
        assert forall|k: int| 0 <= k < count implies #[trigger] used@[k] == is_used(
            nodes,
            i as int + 1,
            k,
        ) by {
            assert(before[k] == is_used(nodes, i as int, k));
            if table_of(nodes[i as int]) == Some(k as u16) && k <= u16::MAX {
                assert(is_used(nodes, i as int + 1, k));
            } else if is_used(nodes, i as int, k) {
                let j = choose|j: int|
                    0 <= j < i && (table_of(#[trigger] nodes[j]) matches Some(used) && used as int
                        == k);
                assert(is_used(nodes, i as int + 1, k));
            } else if is_used(nodes, i as int + 1, k) {
                let j = choose|j: int|
                    0 <= j < i + 1 && (table_of(#[trigger] nodes[j]) matches Some(used)
                        && used as int == k);
                assert(j == i);
            }
        }
        i += 1;
    }
    let mut k: usize = 0;
    while k < count
        invariant
            k <= count,
            forall|j: int| 0 <= j < k ==> #[trigger] is_used(nodes, nodes.len() as int, j),
        decreases count - k,
    {
        if !used[k] {
            assert(!is_used(nodes, nodes.len() as int, k as int));
            return Err(AdapterValidationError::InvalidContract);
        }
        assert(used@[k as int]);
        k += 1;
    }
    let mut t: usize = 0;
    while t < count
        invariant
            t <= count,
            tables_verdict(*contract) == tables_verdict_from(contract.tree.tables@, t as int),
        decreases count - t,
    {
        validate_table(&contract.tree.tables[t])?;
        t += 1;
    }
    Ok(())
}

// ---------------------------------------------------------------------------
// References between nodes
// ---------------------------------------------------------------------------

/// How often each node has been referenced, and by which node.
#[verifier::ext_equal]
pub struct Links {
    pub references: Seq<u8>,
    pub parents: Seq<Option<usize>>,
}

/// The links after `parent` has referenced `child`. A child stands before its
/// parent and has no other.
pub open spec fn linked(parent: int, child: u32, links: Links) -> AdapterValidationResult<Links> {
    if child >= parent || child >= links.references.len() {
        Err(AdapterValidationError::InvalidContract)
    } else if links.references[child as int] == u8::MAX {
        Err(AdapterValidationError::Limit)
    } else if links.references[child as int] != 0 {
        Err(AdapterValidationError::InvalidContract)
    } else {
        Ok(
            Links {
                references: links.references.update(child as int, 1),
                parents: links.parents.update(child as int, Some(parent as usize)),
            },
        )
    }
}

/// The links of the two lists of a walk.
pub open spec fn links_of(references: Seq<u8>, parents: Seq<Option<usize>>) -> Links {
    Links { references, parents }
}

/// References `child` from `parent`.
pub fn add_reference(
    parent: usize,
    child: u32,
    references: &mut Vec<u8>,
    expected_parent: &mut Vec<Option<usize>>,
) -> (result: AdapterValidationResult<usize>)
    requires
        old(references)@.len() == old(expected_parent)@.len(),
    ensures
        final(references)@.len() == old(references)@.len(),
        final(expected_parent)@.len() == old(expected_parent)@.len(),
        match result {
            Ok(index) => index == child && linked(
                parent as int,
                child,
                links_of(old(references)@, old(expected_parent)@),
            ) == AdapterValidationResult::<Links>::Ok(
                links_of(final(references)@, final(expected_parent)@),
            ),
            Err(error) => linked(
                parent as int,
                child,
                links_of(old(references)@, old(expected_parent)@),
            ) == AdapterValidationResult::<Links>::Err(error),
        },
{
    let child = child as usize;
    if child >= parent || child >= references.len() {
        return Err(AdapterValidationError::InvalidContract);
    }
    let count: u8 = references[child];
    if count == u8::MAX {
        return Err(AdapterValidationError::Limit);
    }
    references[child] = count + 1;
    if count != 0 {
        return Err(AdapterValidationError::InvalidContract);
    }
    expected_parent[child] = Some(parent);
    Ok(child)
}

// ---------------------------------------------------------------------------
// Bodies
// ---------------------------------------------------------------------------

/// The first `n` nodes stand after their children.
pub open spec fn is_ordered_to(nodes: Seq<ContractNode>, n: int) -> bool {
    forall|index: int, k: int|
        0 <= index < n && 0 <= k < references_of(nodes[index].body).len()
            ==> #[trigger] references_of(nodes[index].body)[k] < index
}

/// How often a scalar stands at or under node `index`.
pub open spec fn scalar_count(nodes: Seq<ContractNode>, index: int, source: AdapterScalarSource) -> nat
    decreases index, references_of(nodes[index].body).len() + 1,
{
    match nodes[index].body {
        ContractNodeBody::Value(value) => if value.source == source {
            1
        } else {
            0
        },
        _ => scalar_count_to(
            nodes,
            index,
            references_of(nodes[index].body).len() as int,
            source,
        ),
    }
}

/// How often a scalar stands under the first `n` children of node `index`.
pub open spec fn scalar_count_to(
    nodes: Seq<ContractNode>,
    index: int,
    n: int,
    source: AdapterScalarSource,
) -> nat
    decreases index, n,
{
    let children = references_of(nodes[index].body);
    if n <= 0 || n > children.len() {
        0
    } else {
        scalar_count_to(nodes, index, n - 1, source) + if 0 <= children[n - 1] < index {
            scalar_count(nodes, children[n - 1] as int, source)
        } else {
            0
        }
    }
}

/// A count, or the largest one where it lies above that.
pub open spec fn capped(count: nat) -> usize {
    if count <= usize::MAX {
        count as usize
    } else {
        usize::MAX
    }
}

/// How often a scalar stands at or under node `node`, up to the largest count.
#[verifier::loop_isolation(false)]
pub fn count_scalar_source(
    contract: &AdapterContractV1,
    node: usize,
    source: AdapterScalarSource,
) -> (count: usize)
    requires
        node < contract.tree.nodes@.len(),
        is_ordered_to(contract.tree.nodes@, node as int + 1),
    ensures
        count == capped(scalar_count(contract.tree.nodes@, node as int, source)),
    decreases node,
{
    let ghost nodes = contract.tree.nodes@;
    let ghost children = references_of(nodes[node as int].body);
    match &contract.tree.nodes[node].body {
        ContractNodeBody::Object(object) => {
            let mut total: usize = 0;
            let mut i: usize = 0;
            while i < object.children.len()
                invariant
                    i <= object.children@.len(),
                    total == capped(scalar_count_to(nodes, node as int, i as int, source)),
                decreases object.children.len() - i,
            {
                assert(references_of(nodes[node as int].body)[i as int] < node);
                let part: usize = count_scalar_source(contract, object.children[i] as usize, source);
                total = total.saturating_add(part);
                i += 1;
            }
            total
        },
        ContractNodeBody::Array(array) => {
            assert(references_of(nodes[node as int].body)[0] < node);
            assert(scalar_count_to(nodes, node as int, 0, source) == 0);
            assert(scalar_count_to(nodes, node as int, 1, source) == scalar_count(
                nodes,
                array.item as int,
                source,
            ));
            count_scalar_source(contract, array.item as usize, source)
        },
        ContractNodeBody::Switch(switch) => {
            let mut total: usize = 0;
            let mut i: usize = 0;
            while i < switch.cases.len()
                invariant
                    i <= switch.cases@.len(),
                    total == capped(scalar_count_to(nodes, node as int, i as int, source)),
                decreases switch.cases.len() - i,
            {
                assert(references_of(nodes[node as int].body)[i as int] < node);
                let part: usize = count_scalar_source(contract, switch.cases[i].node as usize, source);
                total = total.saturating_add(part);
                i += 1;
            }
            total
        },
        ContractNodeBody::Value(value) => {
            if value.source == source {
                1
            } else {
                0
            }
        },
        ContractNodeBody::Constant(_) => 0,
    }
}

/// Whether a node is a switch on a source.
pub open spec fn is_switch_on(body: ContractNodeBody, source: AdapterVariantSource) -> bool {
    body matches ContractNodeBody::Switch(switch) && switch.source == source
}

/// Whether a node fits as the item of an array over a collection.
pub open spec fn is_legal_item(
    nodes: Seq<ContractNode>,
    collection: AdapterCollection,
    item: int,
) -> bool {
    let body = nodes[item].body;
    match collection {
        AdapterCollection::System => scalar_count(nodes, item, AdapterScalarSource::SystemItem) == 1,
        AdapterCollection::Messages => is_switch_on(body, AdapterVariantSource::Message),
        AdapterCollection::SystemMessages => is_switch_on(
            body,
            AdapterVariantSource::SystemMessageEntry,
        ),
        AdapterCollection::Blocks => is_switch_on(body, AdapterVariantSource::UserBlock)
            || is_switch_on(body, AdapterVariantSource::AssistantBlock) || is_switch_on(
            body,
            AdapterVariantSource::ToolResultBlock,
        ),
        AdapterCollection::Tools => {
            &&& scalar_count(nodes, item, AdapterScalarSource::ToolName) == 1
            &&& scalar_count(nodes, item, AdapterScalarSource::ToolDescription) == 1
            &&& scalar_count(nodes, item, AdapterScalarSource::ToolSchema) == 1
        },
    }
}

/// Whether a node is a switch on a source.
pub fn switches_on(body: &ContractNodeBody, source: AdapterVariantSource) -> (found: bool)
    ensures
        found == is_switch_on(*body, source),
{
    match body {
        ContractNodeBody::Switch(switch) => switch.source == source,
        _ => false,
    }
}

/// Checks that a node fits as the item of an array over a collection.
pub fn validate_array_item_shape(
    contract: &AdapterContractV1,
    collection: AdapterCollection,
    item: usize,
) -> (result: AdapterValidationResult<()>)
    requires
        item < contract.tree.nodes@.len(),
        is_ordered_to(contract.tree.nodes@, item as int + 1),
    ensures
        result == legal(is_legal_item(contract.tree.nodes@, collection, item as int)),
{
    let body = &contract.tree.nodes[item].body;
    let valid = match collection {
        AdapterCollection::System => count_scalar_source(
            contract,
            item,
            AdapterScalarSource::SystemItem,
        ) == 1,
        AdapterCollection::Messages => switches_on(body, AdapterVariantSource::Message),
        AdapterCollection::SystemMessages => switches_on(
            body,
            AdapterVariantSource::SystemMessageEntry,
        ),
        AdapterCollection::Blocks => switches_on(body, AdapterVariantSource::UserBlock)
            || switches_on(body, AdapterVariantSource::AssistantBlock) || switches_on(
            body,
            AdapterVariantSource::ToolResultBlock,
        ),
        AdapterCollection::Tools => count_scalar_source(
            contract,
            item,
            AdapterScalarSource::ToolName,
        ) == 1 && count_scalar_source(contract, item, AdapterScalarSource::ToolDescription) == 1
            && count_scalar_source(contract, item, AdapterScalarSource::ToolSchema) == 1,
    };
    require(valid)
}

/// The largest number of members of a collection.
pub open spec fn bound_of(collection: AdapterCollection) -> u32 {
    match collection {
        AdapterCollection::System => 1_024,
        AdapterCollection::Tools => 1_024,
        AdapterCollection::Messages => 4_096,
        AdapterCollection::Blocks => 4_096,
        AdapterCollection::SystemMessages => 5_120,
    }
}

/// The largest number of members of a collection.
pub fn collection_bound(collection: AdapterCollection) -> (bound: u32)
    ensures
        bound == bound_of(collection),
{
    match collection {
        AdapterCollection::System | AdapterCollection::Tools => 1_024,
        AdapterCollection::Messages | AdapterCollection::Blocks => 4_096,
        AdapterCollection::SystemMessages => 5_120,
    }
}

/// The key by which a node is reached from its parent.
pub open spec fn key_of(node: ContractNode) -> Option<Seq<char>> {
    match node.segment {
        Some(PathSegment::Key(key)) => Some(key@),
        _ => None,
    }
}

/// The verdict on the key of member `i` of an object: a safe text above the
/// key before it.
pub open spec fn member_verdict(nodes: Seq<ContractNode>, children: Seq<u32>, i: int) ->
    AdapterValidationResult<()> {
    match key_of(nodes[children[i] as int]) {
        None => Err(AdapterValidationError::InvalidContract),
        Some(key) => both(
            contract_verdict(safe_verdict(key, MAX_TOKEN_BYTES as int, true)),
            legal(
                i > 0 ==> (key_of(nodes[children[i - 1] as int]) matches Some(previous)
                    && bytes_before(encode_utf8(previous), encode_utf8(key))),
            ),
        ),
    }
}

/// The links after the members of an object from member `i` on.
pub open spec fn object_links(
    nodes: Seq<ContractNode>,
    index: int,
    children: Seq<u32>,
    i: int,
    links: Links,
) -> AdapterValidationResult<Links>
    decreases children.len() - i,
{
    if i >= children.len() {
        Ok(links)
    } else {
        match linked(index, children[i], links) {
            Err(error) => Err(error),
            Ok(reached) => match member_verdict(nodes, children, i) {
                Err(error) => Err(error),
                Ok(_) => object_links(nodes, index, children, i + 1, reached),
            },
        }
    }
}

/// Whether the bounds of an array are in order and within those of its
/// collection.
pub open spec fn has_legal_bounds(array: ContractArray) -> bool {
    &&& array.min <= array.max
    &&& array.max <= MAX_ARRAY_ITEMS
    &&& array.max <= bound_of(array.collection)
    &&& array.collection == AdapterCollection::Blocks ==> array.min > 0
}

/// The links after an array.
pub open spec fn array_links(
    nodes: Seq<ContractNode>,
    index: int,
    array: ContractArray,
    links: Links,
) -> AdapterValidationResult<Links> {
    if !has_legal_bounds(array) {
        Err(AdapterValidationError::InvalidContract)
    } else {
        match linked(index, array.item, links) {
            Err(error) => Err(error),
            Ok(reached) => if nodes[array.item as int].segment == Some(PathSegment::ArrayItem)
                && is_legal_item(nodes, array.collection, array.item as int) {
                Ok(reached)
            } else {
                Err(AdapterValidationError::InvalidContract)
            },
        }
    }
}

/// The links after the cases of a switch from case `i` on.
pub open spec fn switch_links(
    nodes: Seq<ContractNode>,
    index: int,
    switch: ContractSwitch,
    i: int,
    links: Links,
) -> AdapterValidationResult<Links>
    decreases switch.cases@.len() - i,
{
    if i >= switch.cases@.len() {
        Ok(links)
    } else if switch.cases@[i].variant_ordinal != i {
        Err(AdapterValidationError::InvalidContract)
    } else {
        match linked(index, switch.cases@[i].node, links) {
            Err(error) => Err(error),
            Ok(reached) => if nodes[switch.cases@[i].node as int].segment is Some {
                Err(AdapterValidationError::InvalidContract)
            } else {
                switch_links(nodes, index, switch, i + 1, reached)
            },
        }
    }
}

/// The links after node `index`.
pub open spec fn body_links(contract: AdapterContractV1, index: int, links: Links) ->
    AdapterValidationResult<Links> {
    let nodes = contract.tree.nodes@;
    match nodes[index].body {
        ContractNodeBody::Object(object) => object_links(nodes, index, object.children@, 0, links),
        ContractNodeBody::Array(array) => array_links(nodes, index, array, links),
        ContractNodeBody::Switch(switch) => if switch.cases@.len() != switch.source.variants() {
            Err(AdapterValidationError::InvalidContract)
        } else {
            switch_links(nodes, index, switch, 0, links)
        },
        ContractNodeBody::Value(value) => if is_legal_transform(
            contract,
            value.source,
            value.transform,
        ) {
            Ok(links)
        } else {
            Err(AdapterValidationError::InvalidContract)
        },
        ContractNodeBody::Constant(constant) => match constant_verdict(constant.value) {
            Ok(_) => Ok(links),
            Err(error) => Err(error),
        },
    }
}

/// Whether a step has led to the given links.
pub open spec fn links_reached(
    outcome: AdapterValidationResult<Links>,
    result: AdapterValidationResult<()>,
    references: Seq<u8>,
    parents: Seq<Option<usize>>,
) -> bool {
    match result {
        Ok(_) => outcome == AdapterValidationResult::<Links>::Ok(links_of(references, parents)),
        Err(error) => outcome == AdapterValidationResult::<Links>::Err(error),
    }
}

/// Checks the members of an object.
#[verifier::loop_isolation(false)]
pub fn validate_object(
    contract: &AdapterContractV1,
    index: usize,
    object: &ContractObject,
    references: &mut Vec<u8>,
    expected_parent: &mut Vec<Option<usize>>,
) -> (result: AdapterValidationResult<()>)
    requires
        old(references)@.len() == contract.tree.nodes@.len(),
        old(expected_parent)@.len() == contract.tree.nodes@.len(),
    ensures
        final(references)@.len() == old(references)@.len(),
        final(expected_parent)@.len() == old(expected_parent)@.len(),
        links_reached(
            object_links(
                contract.tree.nodes@,
                index as int,
                object.children@,
                0,
                links_of(old(references)@, old(expected_parent)@),
            ),
            result,
            final(references)@,
            final(expected_parent)@,
        ),
{
    let ghost nodes = contract.tree.nodes@;
    let ghost children = object.children@;
    let ghost start = links_of(references@, expected_parent@);
    let mut i: usize = 0;
    while i < object.children.len()
        invariant
            i <= children.len(),
            references@.len() == nodes.len(),
            expected_parent@.len() == nodes.len(),
            i > 0 ==> children[i - 1] < nodes.len(),
            object_links(nodes, index as int, children, 0, start) == object_links(
                nodes,
                index as int,
                children,
                i as int,
                links_of(references@, expected_parent@),
            ),
        decreases object.children.len() - i,
    {
        let child: usize = add_reference(index, object.children[i], references, expected_parent)?;
        let key = match &contract.tree.nodes[child].segment {
            Some(PathSegment::Key(key)) => key,
            _ => {
                return Err(AdapterValidationError::InvalidContract);
            },
        };
        map_contract_result(scalar::safe(key.as_str(), MAX_TOKEN_BYTES, true))?;
        if i > 0 {
            let previous: usize = object.children[i - 1] as usize;
            let ordered = match &contract.tree.nodes[previous].segment {
                Some(PathSegment::Key(old)) => is_before(
                    old.as_str().as_bytes(),
                    key.as_str().as_bytes(),
                ),
                _ => false,
            };
            if !ordered {
                return Err(AdapterValidationError::InvalidContract);
            }
        }
        i += 1;
    }
    Ok(())
}

/// Checks the cases of a switch.
#[verifier::loop_isolation(false)]
pub fn validate_cases(
    contract: &AdapterContractV1,
    index: usize,
    switch: &ContractSwitch,
    references: &mut Vec<u8>,
    expected_parent: &mut Vec<Option<usize>>,
) -> (result: AdapterValidationResult<()>)
    requires
        old(references)@.len() == contract.tree.nodes@.len(),
        old(expected_parent)@.len() == contract.tree.nodes@.len(),
    ensures
        final(references)@.len() == old(references)@.len(),
        final(expected_parent)@.len() == old(expected_parent)@.len(),
        links_reached(
            switch_links(
                contract.tree.nodes@,
                index as int,
                *switch,
                0,
                links_of(old(references)@, old(expected_parent)@),
            ),
            result,
            final(references)@,
            final(expected_parent)@,
        ),
{
    let ghost nodes = contract.tree.nodes@;
    let ghost start = links_of(references@, expected_parent@);
    let mut i: usize = 0;
    while i < switch.cases.len()
        invariant
            i <= switch.cases@.len(),
            references@.len() == nodes.len(),
            expected_parent@.len() == nodes.len(),
            switch_links(nodes, index as int, *switch, 0, start) == switch_links(
                nodes,
                index as int,
                *switch,
                i as int,
                links_of(references@, expected_parent@),
            ),
        decreases switch.cases.len() - i,
    {
        let case = &switch.cases[i];
        if case.variant_ordinal as usize != i {
            return Err(AdapterValidationError::InvalidContract);
        }
        let child: usize = add_reference(index, case.node, references, expected_parent)?;
        if contract.tree.nodes[child].segment.is_some() {
            return Err(AdapterValidationError::InvalidContract);
        }
        i += 1;
    }
    Ok(())
}

/// Checks what node `index` stands for.
pub fn validate_body(
    contract: &AdapterContractV1,
    index: usize,
    body: &ContractNodeBody,
    references: &mut Vec<u8>,
    expected_parent: &mut Vec<Option<usize>>,
) -> (result: AdapterValidationResult<()>)
    requires
        index < contract.tree.nodes@.len(),
        contract.tree.nodes@[index as int].body == *body,
        is_ordered_to(contract.tree.nodes@, index as int),
        old(references)@.len() == contract.tree.nodes@.len(),
        old(expected_parent)@.len() == contract.tree.nodes@.len(),
    ensures
        final(references)@.len() == old(references)@.len(),
        final(expected_parent)@.len() == old(expected_parent)@.len(),
        links_reached(
            body_links(
                *contract,
                index as int,
                links_of(old(references)@, old(expected_parent)@),
            ),
            result,
            final(references)@,
            final(expected_parent)@,
        ),
{
    match body {
        ContractNodeBody::Object(object) => validate_object(
            contract,
            index,
            object,
            references,
            expected_parent,
        ),
        ContractNodeBody::Array(array) => {
            if array.min > array.max || array.max > MAX_ARRAY_ITEMS || array.max > collection_bound(
                array.collection,
            ) || (array.collection == AdapterCollection::Blocks && array.min == 0) {
                return Err(AdapterValidationError::InvalidContract);
            }
            let child: usize = add_reference(index, array.item, references, expected_parent)?;
            match &contract.tree.nodes[child].segment {
                Some(PathSegment::ArrayItem) => {},
                _ => {
                    return Err(AdapterValidationError::InvalidContract);
                },
            }
            validate_array_item_shape(contract, array.collection, child)?;
            Ok(())
        },
        ContractNodeBody::Switch(switch) => {
            if switch.cases.len() != switch.source.variant_count() as usize {
                return Err(AdapterValidationError::InvalidContract);
            }
            validate_cases(contract, index, switch, references, expected_parent)
        },
        ContractNodeBody::Value(value) => {
            validate_transform(contract, value.source, &value.transform)?;
            Ok(())
        },
        ContractNodeBody::Constant(constant) => {
            validate_constant(&constant.value)?;
            Ok(())
        },
    }
}

// ---------------------------------------------------------------------------
// Depths
// ---------------------------------------------------------------------------

/// The largest depth of the first `n` of the given nodes.
pub open spec fn deepest_of(children: Seq<u32>, n: int, depths: Seq<u8>) -> u8
    decreases n,
{
    if n <= 0 {
        0
    } else {
        let before = deepest_of(children, n - 1, depths);
        let depth = depths[children[n - 1] as int];
        if before < depth {
            depth
        } else {
            before
        }
    }
}

/// The depth of a node over children of the given depths.
pub open spec fn depth_verdict(body: ContractNodeBody, depths: Seq<u8>) -> AdapterValidationResult<
    u8,
> {
    let children = references_of(body);
    let deepest = deepest_of(children, children.len() as int, depths);
    if deepest == u8::MAX {
        Err(AdapterValidationError::Limit)
    } else {
        Ok((deepest + 1) as u8)
    }
}

/// The depth of a node over children of the given depths.
#[verifier::loop_isolation(false)]
pub fn node_depth(body: &ContractNodeBody, depths: &Vec<u8>) -> (result: AdapterValidationResult<u8>)
    requires
        forall|k: int|
            0 <= k < references_of(*body).len() ==> #[trigger] references_of(*body)[k]
                < depths@.len(),
    ensures
        result == depth_verdict(*body, depths@),
{
    let ghost children = references_of(*body);
    let mut deepest: u8 = 0;
    match body {
        ContractNodeBody::Object(object) => {
            let mut i: usize = 0;
            while i < object.children.len()
                invariant
                    i <= children.len(),
                    deepest == deepest_of(children, i as int, depths@),
                decreases object.children.len() - i,
            {
                assert(references_of(*body)[i as int] < depths@.len());
                let depth: u8 = depths[object.children[i] as usize];
                if deepest < depth {
                    deepest = depth;
                }
                i += 1;
            }
        },
        ContractNodeBody::Array(array) => {
            assert(references_of(*body)[0] < depths@.len());
            reveal_with_fuel(deepest_of, 2);
            deepest = depths[array.item as usize];
        },
        ContractNodeBody::Switch(switch) => {
            let mut i: usize = 0;
            while i < switch.cases.len()
                invariant
                    i <= children.len(),
                    deepest == deepest_of(children, i as int, depths@),
                decreases switch.cases.len() - i,
            {
                assert(references_of(*body)[i as int] < depths@.len());
                let depth: u8 = depths[switch.cases[i].node as usize];
                if deepest < depth {
                    deepest = depth;
                }
                i += 1;
            }
        },
        ContractNodeBody::Value(_) | ContractNodeBody::Constant(_) => {},
    }
    if deepest == u8::MAX {
        return Err(AdapterValidationError::Limit);
    }
    Ok(deepest + 1)
}

// ---------------------------------------------------------------------------
// Charge
// ---------------------------------------------------------------------------

/// The charge of what a node stands for.
pub open spec fn body_charge(body: ContractNodeBody) -> nat {
    match body {
        ContractNodeBody::Object(object) => 4 + 4 * object.children@.len(),
        ContractNodeBody::Array(_) => 16,
        ContractNodeBody::Switch(switch) => 8 + 5 * switch.cases@.len(),
        ContractNodeBody::Value(value) => if value.transform is EnumToken {
            10
        } else {
            8
        },
        ContractNodeBody::Constant(constant) => match constant.value {
            TypedJsonConstant::Null => 4,
            TypedJsonConstant::Boolean(_) => 5,
            TypedJsonConstant::Number(value) => 8 + byte_len(value@),
            TypedJsonConstant::String(value) => 8 + byte_len(value@),
        },
    }
}

/// The charge of the way to a node.
pub open spec fn segment_charge(segment: Option<PathSegment>) -> nat {
    match segment {
        None => 0,
        Some(PathSegment::Key(key)) => 8 + byte_len(key@),
        Some(PathSegment::ArrayItem) => 4,
    }
}

/// The charge of a node.
pub open spec fn node_charge(node: ContractNode) -> nat {
    20 + (if node.parent is Some {
        4nat
    } else {
        0
    }) + segment_charge(node.segment) + (if node.presence_source is Some {
        4nat
    } else {
        0
    }) + body_charge(node.body)
}

/// The charge of the first `n` nodes.
pub open spec fn nodes_charge(nodes: Seq<ContractNode>, n: int) -> nat
    decreases n,
{
    if n <= 0 {
        0
    } else {
        nodes_charge(nodes, n - 1) + node_charge(nodes[n - 1])
    }
}

/// The charge of the first `n` entries of a table.
pub open spec fn entries_charge(entries: Seq<EnumTokenEntry>, n: int) -> nat
    decreases n,
{
    if n <= 0 {
        0
    } else {
        entries_charge(entries, n - 1) + 5 + byte_len(entries[n - 1].token@)
    }
}

/// The charge of the first `n` tables.
pub open spec fn tables_charge(tables: Seq<EnumTokenTable>, n: int) -> nat
    decreases n,
{
    if n <= 0 {
        0
    } else {
        tables_charge(tables, n - 1) + 8 + entries_charge(
            tables[n - 1].entries@,
            tables[n - 1].entries@.len() as int,
        )
    }
}

/// The charge of the tree of a contract.
pub open spec fn contract_charge(contract: AdapterContractV1) -> nat {
    12 + nodes_charge(contract.tree.nodes@, contract.tree.nodes@.len() as int) + tables_charge(
        contract.tree.tables@,
        contract.tree.tables@.len() as int,
    )
}

proof fn lemma_nodes_charge_grows(nodes: Seq<ContractNode>, n: int)
    requires
        0 <= n <= nodes.len(),
    ensures
        nodes_charge(nodes, n) <= nodes_charge(nodes, nodes.len() as int),
        n < nodes.len() ==> nodes_charge(nodes, n) + node_charge(nodes[n]) <= nodes_charge(
            nodes,
            nodes.len() as int,
        ),
    decreases nodes.len() - n,
{
    if n < nodes.len() {
        lemma_nodes_charge_grows(nodes, n + 1);
    }
}

proof fn lemma_entries_charge_grows(entries: Seq<EnumTokenEntry>, n: int)
    requires
        0 <= n <= entries.len(),
    ensures
        entries_charge(entries, n) <= entries_charge(entries, entries.len() as int),
        n < entries.len() ==> entries_charge(entries, n) + 5 + byte_len(entries[n].token@)
            <= entries_charge(entries, entries.len() as int),
    decreases entries.len() - n,
{
    if n < entries.len() {
        lemma_entries_charge_grows(entries, n + 1);
    }
}

proof fn lemma_tables_charge_grows(tables: Seq<EnumTokenTable>, n: int)
    requires
        0 <= n <= tables.len(),
    ensures
        tables_charge(tables, n) <= tables_charge(tables, tables.len() as int),
        n < tables.len() ==> tables_charge(tables, n) + 8 + entries_charge(
            tables[n].entries@,
            tables[n].entries@.len() as int,
        ) <= tables_charge(tables, tables.len() as int),
    decreases tables.len() - n,
{
    if n < tables.len() {
        lemma_tables_charge_grows(tables, n + 1);
    }
}

/// Adds the charge of an optional reference.
pub fn charge_option_ref(charge: &mut LogicalCharge, value: Option<u32>) -> (result:
    AdapterValidationResult<()>)
    ensures
        charged(
            *old(charge),
            if value is Some {
                8
            } else {
                4
            },
            result,
            *final(charge),
        ),
{
    add_charge(charge, 4)?;
    if value.is_some() {
        add_charge(charge, 4)?;
    }
    Ok(())
}

/// Adds the charge of a list of references.
pub fn charge_refs(charge: &mut LogicalCharge, refs: &Vec<u32>) -> (result: AdapterValidationResult<
    (),
>)
    ensures
        charged(*old(charge), 4 + 4 * refs@.len() as int, result, *final(charge)),
{
    add_charge(charge, 4)?;
    let count: u64 = refs.len() as u64;
    match count.checked_mul(4) {
        Some(amount) => add_charge(charge, amount),
        None => Err(AdapterValidationError::Limit),
    }
}

/// Adds the charge of what a node stands for.
#[verifier::loop_isolation(false)]
pub fn charge_body(charge: &mut LogicalCharge, body: &ContractNodeBody) -> (result:
    AdapterValidationResult<()>)
    ensures
        charged(*old(charge), body_charge(*body) as int, result, *final(charge)),
{
    let ghost start = *charge;
    match body {
        ContractNodeBody::Object(object) => charge_refs(charge, &object.children),
        ContractNodeBody::Array(_) => add_charge(charge, 16),
        ContractNodeBody::Switch(switch) => {
            add_charge(charge, 4)?;
            add_charge(charge, 4)?;
            let mut i: usize = 0;
            while i < switch.cases.len()
                invariant
                    i <= switch.cases@.len(),
                    charge.limit == start.limit,
                    charge.value == start.value + 8 + 5 * i,
                    charge.value <= charge.limit,
                decreases switch.cases.len() - i,
            {
                add_charge(charge, 5)?;
                i += 1;
            }
            Ok(())
        },
        ContractNodeBody::Value(value) => {
            add_charge(charge, 4)?;
            add_charge(charge, 4)?;
            if let AdapterTransform::EnumToken(_) = &value.transform {
                add_charge(charge, 2)?;
            }
            Ok(())
        },
        ContractNodeBody::Constant(constant) => {
            add_charge(charge, 4)?;
            match &constant.value {
                TypedJsonConstant::Null => Ok(()),
                TypedJsonConstant::Boolean(_) => add_charge(charge, 1),
                TypedJsonConstant::Number(value) => add_text_charge(charge, value.as_str()),
                TypedJsonConstant::String(value) => add_text_charge(charge, value.as_str()),
            }
        },
    }
}

/// Adds the charge of a node.
pub fn charge_node(charge: &mut LogicalCharge, node: &ContractNode) -> (result:
    AdapterValidationResult<()>)
    ensures
        charged(*old(charge), node_charge(*node) as int, result, *final(charge)),
{
    charge_option_ref(charge, node.parent)?;
    add_charge(charge, 4)?;
    if let Some(segment) = &node.segment {
        add_charge(charge, 4)?;
        if let PathSegment::Key(key) = segment {
            add_text_charge(charge, key.as_str())?;
        }
    }
    add_charge(charge, 4)?;
    add_charge(charge, 4)?;
    if node.presence_source.is_some() {
        add_charge(charge, 4)?;
    }
    add_charge(charge, 4)?;
    charge_body(charge, &node.body)
}

/// Adds the charge of a table.
#[verifier::loop_isolation(false)]
pub fn charge_table(charge: &mut LogicalCharge, table: &EnumTokenTable) -> (result:
    AdapterValidationResult<()>)
    ensures
        charged(
            *old(charge),
            8 + entries_charge(table.entries@, table.entries@.len() as int) as int,
            result,
            *final(charge),
        ),
{
    let ghost start = *charge;
    proof {
        lemma_entries_charge_grows(table.entries@, 0);
    }
    add_charge(charge, 4)?;
    add_charge(charge, 4)?;
    let mut i: usize = 0;
    while i < table.entries.len()
        invariant
            i <= table.entries@.len(),
            charge.limit == start.limit,
            charge.value == start.value + 8 + entries_charge(table.entries@, i as int),
            charge.value <= charge.limit,
        decreases table.entries.len() - i,
    {
        proof {
            lemma_entries_charge_grows(table.entries@, i as int);
        }
        add_charge(charge, 1)?;
        add_text_charge(charge, table.entries[i].token.as_str())?;
        i += 1;
    }
    Ok(())
}

/// Checks that the tree of a contract stays within its charge.
#[verifier::loop_isolation(false)]
pub fn charge_tree(contract: &AdapterContractV1) -> (result: AdapterValidationResult<()>)
    ensures
        result == demand(
            contract_charge(*contract) <= MAX_TREE_CHARGE,
            AdapterValidationError::Limit,
        ),
{
    let nodes = &contract.tree.nodes;
    let tables = &contract.tree.tables;
    let mut charge = LogicalCharge::new(MAX_TREE_CHARGE);
    proof {
        lemma_nodes_charge_grows(nodes@, 0);
        lemma_tables_charge_grows(tables@, 0);
    }
    add_charge(&mut charge, 4)?;
    add_charge(&mut charge, 4)?;
    let mut i: usize = 0;
    while i < nodes.len()
        invariant
            i <= nodes@.len(),
            charge.limit == MAX_TREE_CHARGE,
            charge.value == 8 + nodes_charge(nodes@, i as int),
            charge.value <= charge.limit,
        decreases nodes.len() - i,
    {
        proof {
            lemma_nodes_charge_grows(nodes@, i as int);
        }
        charge_node(&mut charge, &nodes[i])?;
        i += 1;
    }
    add_charge(&mut charge, 4)?;
    let mut t: usize = 0;
    while t < tables.len()
        invariant
            t <= tables@.len(),
            charge.limit == MAX_TREE_CHARGE,
            charge.value == 12 + nodes_charge(nodes@, nodes@.len() as int) + tables_charge(
                tables@,
                t as int,
            ),
            charge.value <= charge.limit,
        decreases tables.len() - t,
    {
        proof {
            lemma_tables_charge_grows(tables@, t as int);
        }
        charge_table(&mut charge, &tables[t])?;
        t += 1;
    }
    Ok(())
}

// ---------------------------------------------------------------------------
// Header rules
// ---------------------------------------------------------------------------

/// The verdict on the values of a header rule from value `i` on.
pub open spec fn values_verdict(values: Seq<String>, i: int) -> AdapterValidationResult<()>
    decreases values.len() - i,
{
    if i >= values.len() {
        Ok(())
    } else {
        both(
            contract_verdict(header_value_verdict(values[i]@)),
            both(
                legal(i > 0 ==> bytes_before(encode_utf8(values[i - 1]@), encode_utf8(values[i]@))),
                values_verdict(values, i + 1),
            ),
        )
    }
}

/// The verdict on what a header rule asks for.
pub open spec fn rule_verdict(rule: OrdinaryHeaderRule) -> AdapterValidationResult<()> {
    match rule {
        OrdinaryHeaderRule::Fixed(rule) => contract_verdict(header_value_verdict(rule.value@)),
        OrdinaryHeaderRule::OneOf(rule) => both(
            legal(0 < rule.values@.len() <= MAX_RULE_VALUES),
            values_verdict(rule.values@, 0),
        ),
    }
}

/// The verdict on the header rules from rule `i` on: allowed names in strict
/// order.
pub open spec fn rules_verdict_from(rules: Seq<OrdinaryHeaderRule>, i: int) -> AdapterValidationResult<
    (),
>
    decreases rules.len() - i,
{
    if i >= rules.len() {
        Ok(())
    } else {
        both(
            rule_verdict(rules[i]),
            both(
                contract_verdict(header_name_verdict(rule_name(rules[i]))),
                both(
                    legal(
                        !is_denied_header(rule_name(rules[i]), Seq::empty()) && (i > 0
                            ==> bytes_before(
                            encode_utf8(rule_name(rules[i - 1])),
                            encode_utf8(rule_name(rules[i])),
                        )),
                    ),
                    rules_verdict_from(rules, i + 1),
                ),
            ),
        )
    }
}

/// The verdict on the header rules of a contract.
pub open spec fn rules_verdict(rules: Seq<OrdinaryHeaderRule>) -> AdapterValidationResult<()> {
    both(
        demand(rules.len() <= MAX_HEADER_RULES, AdapterValidationError::Limit),
        rules_verdict_from(rules, 0),
    )
}

/// The name that a rule is about.
pub fn name_of_rule(rule: &OrdinaryHeaderRule) -> (name: &str)
    ensures
        name@ == rule_name(*rule),
{
    match rule {
        OrdinaryHeaderRule::Fixed(rule) => rule.name.as_str(),
        OrdinaryHeaderRule::OneOf(rule) => rule.name.as_str(),
    }
}

/// Checks what a header rule asks for.
pub fn validate_rule(rule: &OrdinaryHeaderRule) -> (result: AdapterValidationResult<()>)
    ensures
        result == rule_verdict(*rule),
{
    match rule {
        OrdinaryHeaderRule::Fixed(rule) => map_contract_result(
            validate_header_value(rule.value.as_str()),
        ),
        OrdinaryHeaderRule::OneOf(choice) => {
            let values = &choice.values;
            if values.len() == 0 || values.len() > MAX_RULE_VALUES {
                return Err(AdapterValidationError::InvalidContract);
            }
            let mut i: usize = 0;
            while i < values.len()
                invariant
                    i <= values@.len(),
                    rule_verdict(*rule) == values_verdict(values@, i as int),
                decreases values.len() - i,
            {
                map_contract_result(validate_header_value(values[i].as_str()))?;
                if i > 0 && !is_before(
                    values[i - 1].as_str().as_bytes(),
                    values[i].as_str().as_bytes(),
                ) {
                    return Err(AdapterValidationError::InvalidContract);
                }
                i += 1;
            }
            Ok(())
        },
    }
}

/// Checks the header rules of a contract.
pub fn validate_header_rules(rules: &Vec<OrdinaryHeaderRule>) -> (result: AdapterValidationResult<()>)
    ensures
        result == rules_verdict(rules@),
{
    if rules.len() > MAX_HEADER_RULES {
        return Err(AdapterValidationError::Limit);
    }
    let reserved: Vec<&str> = Vec::new();
    assert(texts_of(reserved@) =~= Seq::empty());
    let mut i: usize = 0;
    while i < rules.len()
        invariant
            i <= rules@.len(),
            texts_of(reserved@) == Seq::<Seq<char>>::empty(),
            rules_verdict(rules@) == rules_verdict_from(rules@, i as int),
        decreases rules.len() - i,
    {
        validate_rule(&rules[i])?;
        let name = name_of_rule(&rules[i]);
        map_contract_result(validate_header_name(name))?;
        if denied_header(name, reserved.as_slice()) {
            return Err(AdapterValidationError::InvalidContract);
        }
        if i > 0 && !is_before(name_of_rule(&rules[i - 1]).as_bytes(), name.as_bytes()) {
            return Err(AdapterValidationError::InvalidContract);
        }
        i += 1;
    }
    Ok(())
}

// ---------------------------------------------------------------------------
// The tree
// ---------------------------------------------------------------------------

/// The links and depths after the nodes from node `i` on.
pub open spec fn survey(
    contract: AdapterContractV1,
    i: int,
    links: Links,
    depths: Seq<u8>,
) -> AdapterValidationResult<(Links, Seq<u8>)>
    decreases contract.tree.nodes@.len() - i,
{
    let nodes = contract.tree.nodes@;
    if i >= nodes.len() {
        Ok((links, depths))
    } else if !is_legal_presence(nodes[i].presence, nodes[i].presence_source) {
        Err(AdapterValidationError::InvalidContract)
    } else {
        match body_links(contract, i, links) {
            Err(error) => Err(error),
            Ok(reached) => match depth_verdict(nodes[i].body, depths) {
                Err(error) => Err(error),
                Ok(depth) => survey(contract, i + 1, reached, depths.push(depth)),
            },
        }
    }
}

/// The number of keys and items on the way to each of the first `n` nodes,
/// from the last of them down, where each names the parent that references it.
pub open spec fn path_survey(
    nodes: Seq<ContractNode>,
    parents: Seq<Option<usize>>,
    n: int,
    depths: Seq<u8>,
) -> AdapterValidationResult<Seq<u8>>
    decreases n,
{
    if n <= 0 {
        Ok(depths)
    } else {
        match nodes[n - 1].parent {
            None => Err(AdapterValidationError::InvalidContract),
            Some(parent) => if parent < n || parent >= nodes.len() || parents[n - 1] != Some(
                parent as usize,
            ) {
                Err(AdapterValidationError::InvalidContract)
            } else {
                let step: int = if nodes[n - 1].segment is Some {
                    1
                } else {
                    0
                };
                if depths[parent as int] + step > u8::MAX {
                    Err(AdapterValidationError::Limit)
                } else {
                    path_survey(
                        nodes,
                        parents,
                        n - 1,
                        depths.update(n - 1, (depths[parent as int] + step) as u8),
                    )
                }
            },
        }
    }
}

/// Whether a node can be the root of a contract.
pub open spec fn is_legal_root(node: ContractNode) -> bool {
    &&& node.parent is None
    &&& node.segment is None
    &&& node.presence == AdapterPresence::Required
    &&& node.presence_source is None
    &&& node.body is Object
}

/// Whether every node but the last is referenced once, no node lies too deep
/// and no path is empty or too long.
pub open spec fn is_legal_survey(references: Seq<u8>, depths: Seq<u8>, paths: Seq<u8>) -> bool {
    &&& references.last() == 0
    &&& forall|i: int| 0 <= i < references.len() - 1 ==> #[trigger] references[i] == 1
    &&& forall|i: int| 0 <= i < depths.len() ==> #[trigger] depths[i] <= MAX_CONTRACT_DEPTH
    &&& forall|i: int| 0 <= i < paths.len() - 1 ==> 1 <= #[trigger] paths[i] <= MAX_PATH_DEPTH
}

/// The links before the first node.
pub open spec fn no_links(count: nat) -> Links {
    Links {
        references: Seq::new(count, |i: int| 0u8),
        parents: Seq::new(count, |i: int| None::<usize>),
    }
}

/// The verdict on the shape of the tree of a contract.
pub open spec fn shape_verdict(contract: AdapterContractV1) -> AdapterValidationResult<()> {
    let nodes = contract.tree.nodes@;
    match survey(contract, 0, no_links(nodes.len()), Seq::empty()) {
        Err(error) => Err(error),
        Ok((links, depths)) => match path_survey(
            nodes,
            links.parents,
            nodes.len() - 1,
            Seq::new(nodes.len(), |i: int| 0u8),
        ) {
            Err(error) => Err(error),
            Ok(paths) => both(
                legal(is_legal_survey(links.references, depths, paths)),
                both(
                    demand(
                        contract_charge(contract) <= MAX_TREE_CHARGE,
                        AdapterValidationError::Limit,
                    ),
                    semantics_verdict(contract),
                ),
            ),
        },
    }
}

/// The verdict on the tree of a contract.
pub open spec fn tree_verdict(contract: AdapterContractV1) -> AdapterValidationResult<()> {
    let nodes = contract.tree.nodes@;
    both(
        demand(0 < nodes.len() <= MAX_CONTRACT_NODES, AdapterValidationError::Limit),
        both(
            legal(contract.tree.root == nodes.len() - 1 && is_legal_root(nodes.last())),
            both(
                demand(contract.tree.tables@.len() <= MAX_TABLES, AdapterValidationError::Limit),
                both(tables_verdict(contract), shape_verdict(contract)),
            ),
        ),
    )
}

/// The verdict on a contract.
pub open spec fn adapter_contract_verdict(contract: AdapterContractV1) -> AdapterValidationResult<()> {
    both(
        legal(
            contract.version == 1 && contract.wire_id.number() == contract.decoder_kind.number(),
        ),
        both(tree_verdict(contract), rules_verdict(contract.ordinary_header_rules@)),
    )
}

/// The links after `parent` has referenced all children from child `i` on.
pub open spec fn link_all(parent: int, children: Seq<u32>, i: int, links: Links) ->
    AdapterValidationResult<Links>
    decreases children.len() - i,
{
    if i >= children.len() {
        Ok(links)
    } else {
        match linked(parent, children[i], links) {
            Err(error) => Err(error),
            Ok(reached) => link_all(parent, children, i + 1, reached),
        }
    }
}

proof fn lemma_object_links(
    nodes: Seq<ContractNode>,
    index: int,
    children: Seq<u32>,
    i: int,
    links: Links,
)
    requires
        0 <= i <= children.len(),
    ensures
        object_links(nodes, index, children, i, links) matches Ok(reached) ==> link_all(
            index,
            children,
            i,
            links,
        ) == AdapterValidationResult::<Links>::Ok(reached),
    decreases children.len() - i,
{
    if i < children.len() {
        if let Ok(reached) = linked(index, children[i], links) {
            lemma_object_links(nodes, index, children, i + 1, reached);
        }
    }
}

proof fn lemma_switch_links(
    nodes: Seq<ContractNode>,
    index: int,
    switch: ContractSwitch,
    i: int,
    links: Links,
)
    requires
        0 <= i <= switch.cases@.len(),
    ensures
        switch_links(nodes, index, switch, i, links) matches Ok(reached) ==> link_all(
            index,
            references_of(ContractNodeBody::Switch(switch)),
            i,
            links,
        ) == AdapterValidationResult::<Links>::Ok(reached),
    decreases switch.cases@.len() - i,
{
    if i < switch.cases@.len() {
        if let Ok(reached) = linked(index, switch.cases@[i].node, links) {
            lemma_switch_links(nodes, index, switch, i + 1, reached);
        }
    }
}

proof fn lemma_body_links(contract: AdapterContractV1, index: int, links: Links)
    ensures
        body_links(contract, index, links) matches Ok(reached) ==> link_all(
            index,
            references_of(contract.tree.nodes@[index].body),
            0,
            links,
        ) == AdapterValidationResult::<Links>::Ok(reached),
{
    let nodes = contract.tree.nodes@;
    let children = references_of(nodes[index].body);
    match nodes[index].body {
        ContractNodeBody::Object(object) => {
            lemma_object_links(nodes, index, object.children@, 0, links);
        },
        ContractNodeBody::Array(array) => {
            reveal_with_fuel(link_all, 3);
        },
        ContractNodeBody::Switch(switch) => {
            lemma_switch_links(nodes, index, switch, 0, links);
        },
        _ => {},
    }
}

proof fn lemma_link_all(parent: int, children: Seq<u32>, i: int, links: Links)
    requires
        0 <= i <= children.len(),
        0 <= parent <= usize::MAX,
        links.references.len() == links.parents.len(),
    ensures
        link_all(parent, children, i, links) matches Ok(reached) ==> {
            &&& reached.references.len() == links.references.len()
            &&& reached.parents.len() == links.parents.len()
            &&& forall|k: int|
                i <= k < children.len() ==> {
                    &&& #[trigger] children[k] < parent
                    &&& children[k] < links.references.len()
                    &&& links.references[children[k] as int] == 0
                    &&& reached.references[children[k] as int] != 0
                    &&& reached.parents[children[k] as int] == Some(parent as usize)
                }
            &&& forall|j: int, k: int|
                i <= j < k < children.len() ==> #[trigger] children[j] != #[trigger] children[k]
            &&& forall|c: int|
                0 <= c < links.references.len() && links.references[c] != 0
                    ==> #[trigger] reached.references[c] == links.references[c]
                    && reached.parents[c] == links.parents[c]
            &&& forall|c: int|
                0 <= c < links.references.len() && #[trigger] reached.parents[c] != links.parents[c]
                    ==> reached.parents[c] == Some(parent as usize) && exists|k: int|
                    i <= k < children.len() && #[trigger] children[k] == c
        },
    decreases children.len() - i,
{
    if i < children.len() {
        if let Ok(next) = linked(parent, children[i], links) {
            lemma_link_all(parent, children, i + 1, next);
            if let Ok(reached) = link_all(parent, children, i + 1, next) {
                let first = children[i] as int;
                assert(next.references[first] != 0);
                assert(reached.references[first] == next.references[first]);
                assert forall|k: int| i <= k < children.len() implies {
                    &&& #[trigger] children[k] < parent
                    &&& children[k] < links.references.len()
                    &&& links.references[children[k] as int] == 0
                    &&& reached.references[children[k] as int] != 0
                    &&& reached.parents[children[k] as int] == Some(parent as usize)
                } by {
                    if k > i {
                        assert(children[k] < parent);
                        assert(next.references[children[k] as int] == 0);
                    }
                }
                assert forall|j: int, k: int| i <= j < k < children.len() implies #[trigger] children[j]
                    != #[trigger] children[k] by {
                    assert(next.references[children[k] as int] == 0);
                }
                assert forall|c: int|
                    0 <= c < links.references.len() && #[trigger] reached.parents[c]
                        != links.parents[c] implies reached.parents[c] == Some(parent as usize)
                    && exists|k: int| i <= k < children.len() && #[trigger] children[k] == c by {
                    if c == first {
                        assert(children[i] == c);
                    } else {
                        assert(next.parents[c] == links.parents[c]);
                        assert(reached.parents[c] != next.parents[c]);
                    }
                }
            }
        }
    }
}

/// What holds of the links after the first `n` nodes: every reference goes to
/// an earlier node, no node references another twice, and the recorded parent
/// of a node is the one node that references it.
pub open spec fn are_sound(nodes: Seq<ContractNode>, n: int, links: Links) -> bool {
    &&& links.references.len() == nodes.len()
    &&& links.parents.len() == nodes.len()
    &&& is_ordered_to(nodes, n)
    &&& forall|p: int| 0 <= p < n ==> references_of((#[trigger] nodes[p]).body).no_duplicates()
    &&& forall|p: int, k: int|
        0 <= p < n && 0 <= k < references_of(nodes[p].body).len() ==> {
            let c = #[trigger] references_of(nodes[p].body)[k] as int;
            links.references[c] != 0 && links.parents[c] == Some(p as usize)
        }
    &&& forall|c: int|
        0 <= c < nodes.len() ==> (#[trigger] links.parents[c] matches Some(p) ==> {
            &&& p < n
            &&& references_of(nodes[p as int].body).contains(c as u32)
        })
}

proof fn lemma_sound_step(contract: AdapterContractV1, index: int, links: Links)
    requires
        0 <= index < contract.tree.nodes@.len() <= MAX_CONTRACT_NODES,
        are_sound(contract.tree.nodes@, index, links),
        body_links(contract, index, links) is Ok,
    ensures
        are_sound(contract.tree.nodes@, index + 1, body_links(contract, index, links)->Ok_0),
{
    let nodes = contract.tree.nodes@;
    let children = references_of(nodes[index].body);
    let reached = body_links(contract, index, links)->Ok_0;
    lemma_body_links(contract, index, links);
    lemma_link_all(index, children, 0, links);
    assert(children.no_duplicates());
    assert forall|p: int, k: int|
        0 <= p < index + 1 && 0 <= k < references_of(nodes[p].body).len() implies {
        let c = #[trigger] references_of(nodes[p].body)[k] as int;
        reached.references[c] != 0 && reached.parents[c] == Some(p as usize)
    } by {
        let c = references_of(nodes[p].body)[k] as int;
        if p < index {
            assert(references_of(nodes[p].body)[k] < p);
            assert(links.references[c] != 0);
            assert(reached.references[c] == links.references[c]);
        } else {
            assert(children[k] < index);
        }
    }
    assert forall|p: int, k: int|
        0 <= p < index + 1 && 0 <= k < references_of(
            nodes[p].body,
        ).len() implies #[trigger] references_of(nodes[p].body)[k] < p by {
        if p == index {
            assert(children[k] < index);
        }
    }
    assert forall|c: int|
        0 <= c < nodes.len() implies (#[trigger] reached.parents[c] matches Some(p) ==> {
        &&& p < index + 1
        &&& references_of(nodes[p as int].body).contains(c as u32)
    }) by {
        if reached.parents[c] != links.parents[c] {
            let k = choose|k: int| 0 <= k < children.len() && #[trigger] children[k] == c;
            assert(children.contains(c as u32));
        } else {
            assert(links.parents[c] matches Some(p) ==> p < index);
        }
    }
}

/// Checks the shape of the tree of a contract.
#[verifier::loop_isolation(false)]
pub fn validate_shape(contract: &AdapterContractV1) -> (result: AdapterValidationResult<()>)
    requires
        0 < contract.tree.nodes@.len() <= MAX_CONTRACT_NODES,
        contract.tree.root == contract.tree.nodes@.len() - 1,
    ensures
        result == shape_verdict(*contract),
{
    let nodes = &contract.tree.nodes;
    let count: usize = nodes.len();
    let root: usize = count - 1;
    let mut references = zeros(count);
    let mut expected_parent: Vec<Option<usize>> = Vec::with_capacity(count);
    let mut filled: usize = 0;
    while filled < count
        invariant
            filled <= count,
            expected_parent@.len() == filled,
            forall|j: int| 0 <= j < filled ==> #[trigger] expected_parent@[j] is None,
        decreases count - filled,
    {
        expected_parent.push(None);
        filled += 1;
    }
    let mut depths: Vec<u8> = Vec::with_capacity(count);
    let ghost start = no_links(nodes@.len());
    assert(links_of(references@, expected_parent@) =~= start);
    assert(depths@ =~= Seq::empty());
    let mut i: usize = 0;
    while i < count
        invariant
            i <= count,
            references@.len() == count,
            expected_parent@.len() == count,
            depths@.len() == i,
            are_sound(nodes@, i as int, links_of(references@, expected_parent@)),
            survey(*contract, 0, start, Seq::empty()) == survey(
                *contract,
                i as int,
                links_of(references@, expected_parent@),
                depths@,
            ),
        decreases count - i,
    {
        let node = &nodes[i];
        let ghost links = links_of(references@, expected_parent@);
        validate_presence(node.presence, node.presence_source)?;
        validate_body(contract, i, &node.body, &mut references, &mut expected_parent)?;
        proof {
            lemma_sound_step(*contract, i as int, links);
            assert forall|k: int|
                0 <= k < references_of(node.body).len() implies #[trigger] references_of(
                node.body,
            )[k] < depths@.len() by {
                assert(references_of(nodes@[i as int].body)[k] < i);
            }
        }
        let depth: u8 = node_depth(&node.body, &depths)?;
        depths.push(depth);
        i += 1;
    }
    let ghost links = links_of(references@, expected_parent@);
    let mut path_depths = zeros(count);
    let ghost unset = path_depths@;
    let mut n: usize = root;
    while n > 0
        invariant
            n <= root,
            path_depths@.len() == count,
            path_survey(nodes@, links.parents, root as int, unset) == path_survey(
                nodes@,
                links.parents,
                n as int,
                path_depths@,
            ),
        decreases n,
    {
        let index: usize = n - 1;
        let node = &nodes[index];
        let parent: usize = match node.parent {
            Some(parent) => parent as usize,
            None => {
                return Err(AdapterValidationError::InvalidContract);
            },
        };
        let recorded = match expected_parent[index] {
            Some(recorded) => recorded == parent,
            None => false,
        };
        if parent <= index || parent >= count || !recorded {
            return Err(AdapterValidationError::InvalidContract);
        }
        let step: u8 = if node.segment.is_some() {
            1
        } else {
            0
        };
        match path_depths[parent].checked_add(step) {
            Some(depth) => {
                path_depths[index] = depth;
            },
            None => {
                return Err(AdapterValidationError::Limit);
            },
        }
        n = index;
    }
    if !legal_survey(&references, &depths, &path_depths) {
        return Err(AdapterValidationError::InvalidContract);
    }
    charge_tree(contract)?;
    validate_semantics(contract)
}

/// Whether every node but the last is referenced once, no node lies too deep
/// and no path is empty or too long.
pub fn legal_survey(references: &Vec<u8>, depths: &Vec<u8>, paths: &Vec<u8>) -> (found: bool)
    requires
        0 < references@.len(),
        paths@.len() == references@.len(),
    ensures
        found == is_legal_survey(references@, depths@, paths@),
{
    let root: usize = references.len() - 1;
    if references[root] != 0 {
        return false;
    }
    let mut i: usize = 0;
    while i < root
        invariant
            i <= root < references@.len(),
            paths@.len() == references@.len(),
            root == references@.len() - 1,
            forall|j: int| 0 <= j < i ==> #[trigger] references@[j] == 1,
            forall|j: int| 0 <= j < i ==> 1 <= #[trigger] paths@[j] <= MAX_PATH_DEPTH,
        decreases root - i,
    {
        if references[i] != 1 || paths[i] < 1 || paths[i] > MAX_PATH_DEPTH {
            return false;
        }
        i += 1;
    }
    let mut d: usize = 0;
    while d < depths.len()
        invariant
            d <= depths@.len(),
            forall|j: int| 0 <= j < d ==> #[trigger] depths@[j] <= MAX_CONTRACT_DEPTH,
        decreases depths.len() - d,
    {
        if depths[d] > MAX_CONTRACT_DEPTH {
            return false;
        }
        d += 1;
    }
    true
}

/// Checks the tree of a contract.
pub fn validate_tree(contract: &AdapterContractV1) -> (result: AdapterValidationResult<()>)
    ensures
        result == tree_verdict(*contract),
{
    let nodes = &contract.tree.nodes;
    if nodes.len() == 0 || nodes.len() > MAX_CONTRACT_NODES {
        return Err(AdapterValidationError::Limit);
    }
    let root: usize = contract.tree.root as usize;
    if root != nodes.len() - 1 {
        return Err(AdapterValidationError::InvalidContract);
    }
    let node = &nodes[root];
    let is_object = match &node.body {
        ContractNodeBody::Object(_) => true,
        _ => false,
    };
    if node.parent.is_some() || node.segment.is_some() || node.presence != AdapterPresence::Required
        || node.presence_source.is_some() || !is_object {
        return Err(AdapterValidationError::InvalidContract);
    }
    if contract.tree.tables.len() > MAX_TABLES {
        return Err(AdapterValidationError::Limit);
    }
    validate_tables(contract)?;
    validate_shape(contract)
}

/// Checks a contract.
pub fn validate_contract(contract: &AdapterContractV1) -> (result: AdapterValidationResult<()>)
    ensures
        result == adapter_contract_verdict(*contract),
{
    if contract.version != 1 || contract.wire_id.ordinal() != contract.decoder_kind.ordinal() {
        return Err(AdapterValidationError::InvalidContract);
    }
    validate_tree(contract)?;
    validate_header_rules(&contract.ordinary_header_rules)
}

// ---------------------------------------------------------------------------
// What holds of valid contracts
// ---------------------------------------------------------------------------

proof fn lemma_survey_is_sound(
    contract: AdapterContractV1,
    i: int,
    links: Links,
    depths: Seq<u8>,
)
    requires
        0 <= i <= contract.tree.nodes@.len() <= MAX_CONTRACT_NODES,
        are_sound(contract.tree.nodes@, i, links),
        survey(contract, i, links, depths) is Ok,
    ensures
        are_sound(
            contract.tree.nodes@,
            contract.tree.nodes@.len() as int,
            survey(contract, i, links, depths)->Ok_0.0,
        ),
    decreases contract.tree.nodes@.len() - i,
{
    if i < contract.tree.nodes@.len() {
        lemma_sound_step(contract, i, links);
        let reached = body_links(contract, i, links)->Ok_0;
        let depth = depth_verdict(contract.tree.nodes@[i].body, depths)->Ok_0;
        lemma_survey_is_sound(contract, i + 1, reached, depths.push(depth));
    }
}

/// Whether node `c` names its recorded parent.
spec fn names_recorded_parent(
    nodes: Seq<ContractNode>,
    parents: Seq<Option<usize>>,
    c: int,
) -> bool {
    nodes[c].parent matches Some(p) && c < p < nodes.len() && parents[c] == Some(p as usize)
}

proof fn lemma_paths_name_parents(
    nodes: Seq<ContractNode>,
    parents: Seq<Option<usize>>,
    n: int,
    depths: Seq<u8>,
)
    requires
        0 <= n <= nodes.len(),
        path_survey(nodes, parents, n, depths) is Ok,
    ensures
        forall|c: int| 0 <= c < n ==> #[trigger] names_recorded_parent(nodes, parents, c),
    decreases n,
{
    if n > 0 {
        let parent = nodes[n - 1].parent->Some_0;
        let step: int = if nodes[n - 1].segment is Some {
            1
        } else {
            0
        };
        lemma_paths_name_parents(
            nodes,
            parents,
            n - 1,
            depths.update(n - 1, (depths[parent as int] + step) as u8),
        );
    }
}

/// Whether node `c` names a later node that references it.
pub open spec fn has_parent(nodes: Seq<ContractNode>, c: int) -> bool {
    nodes[c].parent matches Some(p) && c < p < nodes.len() && references_of(
        nodes[p as int].body,
    ).contains(c as u32)
}

/// Whether the nodes form a tree under the last one: each other node names the
/// one node that references it, stands before it, and is referenced by it once.
pub open spec fn is_contract_tree(nodes: Seq<ContractNode>) -> bool {
    &&& nodes.len() > 0
    &&& is_ordered(nodes)
    &&& nodes.last().parent is None
    &&& forall|p: int|
        0 <= p < nodes.len() ==> references_of((#[trigger] nodes[p]).body).no_duplicates()
    &&& forall|c: int| 0 <= c < nodes.len() - 1 ==> #[trigger] has_parent(nodes, c)
    &&& forall|p: int, k: int|
        0 <= p < nodes.len() && 0 <= k < references_of(nodes[p].body).len() ==> nodes[(
        #[trigger] references_of(nodes[p].body)[k]) as int].parent == Some(p as u32)
}

proof fn lemma_sound_links_form_a_tree(nodes: Seq<ContractNode>, links: Links)
    requires
        0 < nodes.len() <= MAX_CONTRACT_NODES,
        nodes.last().parent is None,
        are_sound(nodes, nodes.len() as int, links),
        forall|c: int| 0 <= c < nodes.len() - 1 ==> #[trigger] names_recorded_parent(nodes, links.parents, c),
    ensures
        is_contract_tree(nodes),
{
    assert forall|c: int| 0 <= c < nodes.len() - 1 implies #[trigger] has_parent(nodes, c) by {
        assert(names_recorded_parent(nodes, links.parents, c));
        assert(links.parents[c] is Some);
    }
    assert forall|p: int, k: int|
        0 <= p < nodes.len() && 0 <= k < references_of(nodes[p].body).len() implies nodes[(
    #[trigger] references_of(nodes[p].body)[k]) as int].parent == Some(p as u32) by {
        let c = references_of(nodes[p].body)[k] as int;
        assert(references_of(nodes[p].body)[k] < p);
        assert(links.parents[c] == Some(p as usize));
        assert(names_recorded_parent(nodes, links.parents, c));
    }
}

/// The nodes of a contract with a valid tree form a tree under its root, which
/// is an object.
pub proof fn lemma_valid_contract_is_a_tree(contract: AdapterContractV1)
    requires
        tree_verdict(contract) is Ok,
    ensures
        is_contract_tree(contract.tree.nodes@),
        contract.tree.root == contract.tree.nodes@.len() - 1,
        contract.tree.nodes@.last().body is Object,
{
    let nodes = contract.tree.nodes@;
    let start = no_links(nodes.len());
    assert(are_sound(nodes, 0, start));
    lemma_survey_is_sound(contract, 0, start, Seq::empty());
    let links = survey(contract, 0, start, Seq::empty())->Ok_0.0;
    let unset = Seq::new(nodes.len(), |i: int| 0u8);
    lemma_paths_name_parents(nodes, links.parents, nodes.len() - 1, unset);
    lemma_sound_links_form_a_tree(nodes, links);
}

proof fn lemma_rules_ascend(rules: Seq<OrdinaryHeaderRule>, i: int)
    requires
        0 <= i <= rules.len(),
        rules_verdict_from(rules, i) is Ok,
    ensures
        forall|j: int|
            i <= j < rules.len() && j > 0 ==> bytes_before(
                encode_utf8(rule_name(rules[j - 1])),
                encode_utf8(rule_name(#[trigger] rules[j])),
            ),
    decreases rules.len() - i,
{
    if i < rules.len() {
        lemma_rules_ascend(rules, i + 1);
    }
}

/// The header rules of a valid contract come in strictly increasing order of
/// their names.
pub proof fn lemma_rules_order(rules: Seq<OrdinaryHeaderRule>, i: int, j: int)
    requires
        rules_verdict(rules) is Ok,
        0 <= i < j < rules.len(),
    ensures
        bytes_before(encode_utf8(rule_name(rules[i])), encode_utf8(rule_name(rules[j]))),
    decreases j - i,
{
    lemma_rules_ascend(rules, 0);
    assert(bytes_before(encode_utf8(rule_name(rules[j - 1])), encode_utf8(rule_name(rules[j]))));
    if i < j - 1 {
        lemma_rules_order(rules, i, j - 1);
        lemma_byte_order(
            encode_utf8(rule_name(rules[i])),
            encode_utf8(rule_name(rules[j - 1])),
            encode_utf8(rule_name(rules[j])),
        );
    }
}

/// The header rules of a valid contract are about distinct names.
pub proof fn lemma_valid_rules_are_distinct(rules: Seq<OrdinaryHeaderRule>)
    requires
        rules_verdict(rules) is Ok,
    ensures
        forall|i: int, j: int|
            0 <= i < j < rules.len() ==> rule_name(#[trigger] rules[i]) != rule_name(
                #[trigger] rules[j],
            ),
{
    assert forall|i: int, j: int| 0 <= i < j < rules.len() implies rule_name(#[trigger] rules[i])
        != rule_name(#[trigger] rules[j]) by {
        lemma_rules_order(rules, i, j);
        let name = encode_utf8(rule_name(rules[i]));
        lemma_byte_order(name, name, name);
    }
}

} // verus!
