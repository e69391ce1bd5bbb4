//! Which parts of a contract are legal.

use vstd::prelude::*;
use vstd::utf8::encode_utf8;

use crate::provider_validation::adapter::digest::{
    collection_number, enum_source_number, model_source_number, presence_number,
    presence_source_number, variant_source_number,
};
use crate::provider_validation::adapter::structure::{
    adapter_contract_verdict, constant_verdict, entries_verdict, has_legal_bounds, has_token,
    is_legal_presence, is_legal_transform, node_charge, rule_verdict, rules_verdict,
    rules_verdict_from, table_verdict, tree_verdict, values_verdict,
};
use crate::provider_validation::adapter::types::{
    AdapterCollection, AdapterContractV1, AdapterEnumSource, AdapterModelSource, AdapterPresence,
    AdapterPresenceSource, AdapterScalarSource, AdapterTransform, AdapterValidationError,
    AdapterValidationResult, AdapterVariantSource, AdapterWireId, ContractArray, ContractNode,
    ContractNodeBody, EnumTokenEntry, EnumTokenTable, OrdinaryHeaderRule, PathSegment,
    TypedJsonConstant,
};
use crate::provider_validation::charge_laws::text_size;
use crate::provider_validation::header_laws::{is_name, is_value, lemma_names, lemma_values};
use crate::provider_validation::number_laws::{is_parted, lemma_numbers};
use crate::provider_validation::prepare::is_denied_header;
use crate::provider_validation::scalar_laws::{
    is_ordinary_text, lemma_safe_text, lemma_visible_ascii,
};
use crate::text::bytes_before;

verus! {

/// Whether a verdict is the right one on a part of a contract: accepted when it is sound
/// and small, refused as a contract only when it is not sound, and refused for its size
/// only when it is not small.
pub open spec fn judges(outcome: AdapterValidationResult<()>, sound: bool, small: bool) -> bool {
    match outcome {
        Ok(()) => sound && small,
        Err(AdapterValidationError::InvalidContract) => !sound,
        Err(AdapterValidationError::Limit) => !small,
        Err(_) => false,
    }
}

/// A contract is accepted exactly when it is of the first version, its decoder is that of
/// its protocol, and its tree and its header rules are accepted.
pub proof fn lemma_contracts(contract: AdapterContractV1)
    ensures
        adapter_contract_verdict(contract) is Ok <==> {
            &&& contract.version == 1
            &&& match contract.wire_id {
                AdapterWireId::AnthropicMessages => contract.decoder_kind
                    is AnthropicMessages,
                AdapterWireId::OpenAiCompletions => contract.decoder_kind is OpenAiCompletions,
                AdapterWireId::OpenAiResponses => contract.decoder_kind is OpenAiResponses,
                AdapterWireId::OpenAiCodexResponses => contract.decoder_kind
                    is OpenAiCodexResponses,
                AdapterWireId::AzureOpenAiResponses => contract.decoder_kind
                    is AzureOpenAiResponses,
                AdapterWireId::GoogleGenerativeAi => contract.decoder_kind is GoogleGenerativeAi,
                AdapterWireId::GoogleVertex => contract.decoder_kind is GoogleVertex,
                AdapterWireId::MistralConversations => contract.decoder_kind
                    is MistralConversations,
                AdapterWireId::BedrockConverseStream => contract.decoder_kind
                    is BedrockConverseStream,
                AdapterWireId::PiMessages => contract.decoder_kind is PiMessages,
            }
            &&& tree_verdict(contract) is Ok
            &&& rules_verdict(contract.ordinary_header_rules@) is Ok
        },
{
}

/// A node that may be left out for want of a part names that part, one that may be left
/// out for a control that is not set names that control, and any other names nothing.
pub proof fn lemma_presences(presence: AdapterPresence, source: Option<AdapterPresenceSource>)
    ensures
        is_legal_presence(presence, source) <==> match presence {
            AdapterPresence::Required => source is None,
            AdapterPresence::OmitIfNone => source matches Some(part) && (part is ReasoningProof
                || part is ReasoningEffort || part is ReasoningBudget || part is MaxOutput),
            AdapterPresence::OmitForUnset => source matches Some(control) && (control is ToolChoice
                || control is Reasoning || control is CacheRetention),
        },
{
}

/// The number of choices of a source, which a switch on it has as its cases.
pub open spec fn choices_of(source: AdapterVariantSource) -> int {
    match source {
        AdapterVariantSource::ModelSelection => 2,
        AdapterVariantSource::SystemMessageEntry => 2,
        AdapterVariantSource::Message => 3,
        AdapterVariantSource::UserBlock => 2,
        AdapterVariantSource::AssistantBlock => 3,
        AdapterVariantSource::ToolResultBlock => 2,
        AdapterVariantSource::ToolResultStatus => 2,
        AdapterVariantSource::ToolChoice => 4,
        AdapterVariantSource::Reasoning => 3,
        AdapterVariantSource::CacheRetention => 4,
    }
}

/// The number of values of an enumeration, which a table of it has as its tokens.
pub open spec fn values_of(source: AdapterEnumSource) -> int {
    match source {
        AdapterEnumSource::SelectionKind => 2,
        AdapterEnumSource::MessageKind => 3,
        AdapterEnumSource::UserBlockKind => 2,
        AdapterEnumSource::AssistantBlockKind => 3,
        AdapterEnumSource::ToolResultBlockKind => 2,
        AdapterEnumSource::ToolResultStatus => 2,
        AdapterEnumSource::ReasoningKind => 2,
        AdapterEnumSource::ImageMediaType => 5,
        AdapterEnumSource::ToolChoice => 4,
        AdapterEnumSource::ReasoningMode => 3,
        AdapterEnumSource::ReasoningEffort => 4,
        AdapterEnumSource::CacheRetention => 4,
    }
}

/// Every choice and every enumeration has as many cases as it should.
pub proof fn lemma_sizes(variant: AdapterVariantSource, source: AdapterEnumSource)
    ensures
        variant.variants() == choices_of(variant),
        source.variants() == values_of(source),
{
}

/// Whether an entry of a table has its place, a visible token, and one that no entry
/// before it has.
pub open spec fn is_sound_token(entries: Seq<EnumTokenEntry>, k: int) -> bool {
    let bytes = encode_utf8(entries[k].token@);
    &&& entries[k].variant_ordinal == k
    &&& entries[k].token@.len() > 0
    &&& forall|i: int| 0 <= i < bytes.len() ==> '!' as u8 <= #[trigger] bytes[i] <= '~' as u8
    &&& forall|j: int| 0 <= j < k ==> (#[trigger] entries[j]).token@ != entries[k].token@
}

proof fn lemma_tokens(entries: Seq<EnumTokenEntry>, i: int)
    requires
        0 <= i <= entries.len(),
    ensures
        judges(
            entries_verdict(entries, i),
            forall|k: int| i <= k < entries.len() ==> #[trigger] is_sound_token(entries, k),
            forall|k: int| i <= k < entries.len() ==> text_size((#[trigger] entries[k]).token@) <= 128,
        ),
    decreases entries.len() - i,
{
    if i < entries.len() {
        lemma_visible_ascii(entries[i].token@, 128);
        lemma_tokens(entries, i + 1);
        assert(has_token(entries, i, entries[i].token@) == !(forall|j: int|
            0 <= j < i ==> (#[trigger] entries[j]).token@ != entries[i].token@));
        assert((forall|k: int| i <= k < entries.len() ==> #[trigger] is_sound_token(entries, k)) == (is_sound_token(
            entries,
            i,
        ) && forall|k: int| i + 1 <= k < entries.len() ==> #[trigger] is_sound_token(entries, k)));
    }
}

/// A table is accepted exactly when it has a token for every value of its enumeration, in
/// order, all visible and different, of at most 128 bytes.
pub proof fn lemma_tables(table: EnumTokenTable)
    ensures
        judges(
            table_verdict(table),
            table.entries@.len() == values_of(table.source) && forall|k: int|
                0 <= k < table.entries@.len() ==> #[trigger] is_sound_token(table.entries@, k),
            forall|k: int|
                0 <= k < table.entries@.len() ==> text_size((#[trigger] table.entries@[k]).token@)
                    <= 128,
        ),
{
    lemma_sizes(AdapterVariantSource::Message, table.source);
    lemma_tokens(table.entries@, 0);
}

/// Whether a transform names a table of an enumeration.
pub open spec fn is_from_table(
    contract: AdapterContractV1,
    transform: AdapterTransform,
    source: AdapterEnumSource,
) -> bool {
    &&& transform matches AdapterTransform::EnumToken(t)
    &&& t < contract.tree.tables@.len()
    &&& contract.tree.tables@[t as int].source == source
}

/// Each transform is for the scalars that it suits: texts stay as they are, choices become
/// tokens of their own enumeration, sizes and counts become numbers, documents become
/// values or, where the protocol wants it, texts, and bytes become base64.
pub proof fn lemma_transforms(
    contract: AdapterContractV1,
    source: AdapterScalarSource,
    transform: AdapterTransform,
)
    ensures
        is_legal_transform(contract, source, transform) <==> match transform {
            AdapterTransform::Identity => source is SelectedModel || source is SystemItem || source
                is BlockText || source is ToolResultCallId || source is ToolResultName || source
                is ToolResultIsError || source is ToolCallId || source is ToolCallName || source
                is ToolName || source is ToolDescription || source is ToolChoiceName,
            AdapterTransform::CheckedU32 => source is ImageWidth || source is ImageHeight || source
                is ImageFrames,
            AdapterTransform::CheckedU64 => source is ReasoningBudget || source is MaxOutput,
            AdapterTransform::JsonSubtree => source is ToolCallArguments || source is ToolSchema,
            AdapterTransform::CanonicalJsonString => source is ToolCallArguments && (
            contract.wire_id is OpenAiCompletions || contract.wire_id is OpenAiResponses
                || contract.wire_id is OpenAiCodexResponses || contract.wire_id
                is AzureOpenAiResponses || contract.wire_id is MistralConversations),
            AdapterTransform::MistralToolResultContent => source is MistralToolResultContent
                && contract.wire_id is MistralConversations,
            AdapterTransform::JoinLf => source is SystemJoined,
            AdapterTransform::Base64StandardPadded => source is Proof || source is ImageBytes,
            AdapterTransform::Base64StandardUnpadded => source is Proof || source is ImageBytes,
            AdapterTransform::DataUri => source is ImageDataUri,
            AdapterTransform::EnumToken(_) => match source {
                AdapterScalarSource::SelectionKind => is_from_table(
                    contract,
                    transform,
                    AdapterEnumSource::SelectionKind,
                ),
                AdapterScalarSource::MessageRole => is_from_table(
                    contract,
                    transform,
                    AdapterEnumSource::MessageKind,
                ),
                AdapterScalarSource::BlockKind => is_from_table(
                    contract,
                    transform,
                    AdapterEnumSource::UserBlockKind,
                ) || is_from_table(contract, transform, AdapterEnumSource::AssistantBlockKind)
                    || is_from_table(contract, transform, AdapterEnumSource::ToolResultBlockKind),
                AdapterScalarSource::ToolResultStatus => is_from_table(
                    contract,
                    transform,
                    AdapterEnumSource::ToolResultStatus,
                ),
                AdapterScalarSource::ReasoningKind => is_from_table(
                    contract,
                    transform,
                    AdapterEnumSource::ReasoningKind,
                ),
                AdapterScalarSource::ImageMediaType => is_from_table(
                    contract,
                    transform,
                    AdapterEnumSource::ImageMediaType,
                ),
                AdapterScalarSource::ToolChoiceKind => is_from_table(
                    contract,
                    transform,
                    AdapterEnumSource::ToolChoice,
                ),
                AdapterScalarSource::ReasoningMode => is_from_table(
                    contract,
                    transform,
                    AdapterEnumSource::ReasoningMode,
                ),
                AdapterScalarSource::ReasoningEffort => is_from_table(
                    contract,
                    transform,
                    AdapterEnumSource::ReasoningEffort,
                ),
                AdapterScalarSource::CacheRetention => is_from_table(
                    contract,
                    transform,
                    AdapterEnumSource::CacheRetention,
                ),
                _ => false,
            },
        },
{
}

/// An array has at least as many items as it must and at most as many as its collection may
/// have. A message has a block.
pub proof fn lemma_bounds(array: ContractArray)
    ensures
        has_legal_bounds(array) <==> array.min <= array.max && match array.collection {
            AdapterCollection::System => array.max <= 1_024,
            AdapterCollection::Messages => array.max <= 4_096,
            AdapterCollection::SystemMessages => array.max <= 5_120,
            AdapterCollection::Blocks => array.min >= 1 && array.max <= 4_096,
            AdapterCollection::Tools => array.max <= 1_024,
        },
{
}

/// A constant is accepted exactly when a number is canonical and a text is ordinary and at
/// most 65536 bytes long.
pub proof fn lemma_constants(value: TypedJsonConstant)
    ensures
        match value {
            TypedJsonConstant::Null => constant_verdict(value) is Ok,
            TypedJsonConstant::Boolean(_) => constant_verdict(value) is Ok,
            TypedJsonConstant::Number(number) => {
                let bytes = encode_utf8(number@);
                judges(
                    constant_verdict(value),
                    0 < bytes.len() <= 128 && (bytes == seq!['0' as u8] || exists|
                        whole: int,
                        fraction: int,
                    | is_parted(bytes, whole, fraction)),
                    true,
                )
            },
            TypedJsonConstant::String(text) => judges(
                constant_verdict(value),
                is_ordinary_text(text@),
                text_size(text@) <= 65_536,
            ),
        },
{
    match value {
        TypedJsonConstant::Number(number) => lemma_numbers(encode_utf8(number@)),
        TypedJsonConstant::String(text) => lemma_safe_text(text@, 65_536, false),
        _ => {},
    }
}

/// The charge of a node: twenty, four each for a parent and for what decides on its presence,
/// that of the way to it, and that of what it stands for.
pub proof fn lemma_node_charges(node: ContractNode)
    ensures
        node_charge(node) == 20 + (if node.parent is Some {
            4int
        } else {
            0
        }) + (if node.presence_source is Some {
            4int
        } else {
            0
        }) + (match node.segment {
            None => 0,
            Some(PathSegment::ArrayItem) => 4,
            Some(PathSegment::Key(key)) => 8 + text_size(key@),
        }) + (match node.body {
            ContractNodeBody::Object(object) => 4 + 4 * object.children@.len() as int,
            ContractNodeBody::Array(_) => 16,
            ContractNodeBody::Switch(switch) => 8 + 5 * switch.cases@.len() as int,
            ContractNodeBody::Value(leaf) => match leaf.transform {
                AdapterTransform::EnumToken(_) => 10,
                _ => 8,
            },
            ContractNodeBody::Constant(leaf) => match leaf.value {
                TypedJsonConstant::Null => 4,
                TypedJsonConstant::Boolean(_) => 5,
                TypedJsonConstant::Number(number) => 8 + text_size(number@),
                TypedJsonConstant::String(text) => 8 + text_size(text@),
            },
        }),
{
}

// ---------------------------------------------------------------------------
// Header rules
// ---------------------------------------------------------------------------

/// The name that a rule is about.
pub open spec fn name_of(rule: OrdinaryHeaderRule) -> Seq<char> {
    match rule {
        OrdinaryHeaderRule::Fixed(rule) => rule.name@,
        OrdinaryHeaderRule::OneOf(rule) => rule.name@,
    }
}

/// Whether a value of a rule is one, and comes behind the value before it.
pub open spec fn is_sound_value(values: Seq<String>, k: int) -> bool {
    &&& is_value(values[k]@)
    &&& k > 0 ==> bytes_before(encode_utf8(values[k - 1]@), encode_utf8(values[k]@))
}

/// Whether a rule is well formed: a fixed value, or one to sixteen values in strict order.
pub open spec fn is_sound_rule(rule: OrdinaryHeaderRule) -> bool {
    match rule {
        OrdinaryHeaderRule::Fixed(rule) => is_value(rule.value@),
        OrdinaryHeaderRule::OneOf(rule) => 1 <= rule.values@.len() <= 16 && forall|k: int|
            0 <= k < rule.values@.len() ==> #[trigger] is_sound_value(rule.values@, k),
    }
}

/// Whether the values of a rule are within their bounds.
pub open spec fn is_small_rule(rule: OrdinaryHeaderRule) -> bool {
    match rule {
        OrdinaryHeaderRule::Fixed(rule) => text_size(rule.value@) <= 4_096,
        OrdinaryHeaderRule::OneOf(rule) => forall|k: int|
            0 <= k < rule.values@.len() ==> text_size((#[trigger] rule.values@[k])@) <= 4_096,
    }
}

proof fn lemma_rule_values(values: Seq<String>, i: int)
    requires
        0 <= i <= values.len(),
    ensures
        judges(
            values_verdict(values, i),
            forall|k: int| i <= k < values.len() ==> #[trigger] is_sound_value(values, k),
            forall|k: int| i <= k < values.len() ==> text_size((#[trigger] values[k])@) <= 4_096,
        ),
    decreases values.len() - i,
{
    if i < values.len() {
        lemma_values(values[i]@);
        lemma_rule_values(values, i + 1);
        assert((forall|k: int| i <= k < values.len() ==> #[trigger] is_sound_value(values, k)) == (is_sound_value(
            values,
            i,
        ) && forall|k: int| i + 1 <= k < values.len() ==> #[trigger] is_sound_value(values, k)));
    }
}

proof fn lemma_rule(rule: OrdinaryHeaderRule)
    ensures
        judges(rule_verdict(rule), is_sound_rule(rule), is_small_rule(rule)),
{
    match rule {
        OrdinaryHeaderRule::Fixed(fixed) => lemma_values(fixed.value@),
        OrdinaryHeaderRule::OneOf(listed) => lemma_rule_values(listed.values@, 0),
    }
}

/// Whether a rule is well formed, is about a header that may be set, and comes behind the
/// rule before it by its name.
pub open spec fn is_next_rule(rules: Seq<OrdinaryHeaderRule>, k: int) -> bool {
    &&& is_sound_rule(rules[k])
    &&& is_name(name_of(rules[k]))
    &&& !is_denied_header(name_of(rules[k]), Seq::empty())
    &&& k > 0 ==> bytes_before(encode_utf8(name_of(rules[k - 1])), encode_utf8(name_of(rules[k])))
}

proof fn lemma_rules_from(rules: Seq<OrdinaryHeaderRule>, i: int)
    requires
        0 <= i <= rules.len(),
    ensures
        judges(
            rules_verdict_from(rules, i),
            forall|k: int| i <= k < rules.len() ==> #[trigger] is_next_rule(rules, k),
            forall|k: int|
                i <= k < rules.len() ==> is_small_rule(#[trigger] rules[k]) && text_size(
                    name_of(rules[k]),
                ) <= 64,
        ),
    decreases rules.len() - i,
{
    if i < rules.len() {
        lemma_rule(rules[i]);
        lemma_names(name_of(rules[i]));
        lemma_rules_from(rules, i + 1);
        assert((forall|k: int| i <= k < rules.len() ==> #[trigger] is_next_rule(rules, k)) == (is_next_rule(
            rules,
            i,
        ) && forall|k: int| i + 1 <= k < rules.len() ==> #[trigger] is_next_rule(rules, k)));
    }
}

/// The header rules of a contract are accepted exactly when each is well formed and about a
/// header that may be set, their names are strictly increasing, there are at most 32, and
/// names and values are within their bounds.
pub proof fn lemma_rules(rules: Seq<OrdinaryHeaderRule>)
    ensures
        judges(
            rules_verdict(rules),
            forall|k: int| 0 <= k < rules.len() ==> #[trigger] is_next_rule(rules, k),
            rules.len() <= 32 && forall|k: int|
                0 <= k < rules.len() ==> is_small_rule(#[trigger] rules[k]) && text_size(
                    name_of(rules[k]),
                ) <= 64,
        ),
{
    lemma_rules_from(rules, 0);
}

// ---------------------------------------------------------------------------
// Numbers of the vocabulary
// ---------------------------------------------------------------------------

/// Digests know collections, model sources and presences by these numbers.
pub proof fn lemma_small_numbers()
    ensures
        model_source_number(AdapterModelSource::RequestedSelection) == 0,
        model_source_number(AdapterModelSource::CurrentModel) == 1,
        collection_number(AdapterCollection::System) == 0,
        collection_number(AdapterCollection::Messages) == 1,
        collection_number(AdapterCollection::SystemMessages) == 2,
        collection_number(AdapterCollection::Blocks) == 3,
        collection_number(AdapterCollection::Tools) == 4,
        presence_number(AdapterPresence::Required) == 0,
        presence_number(AdapterPresence::OmitIfNone) == 1,
        presence_number(AdapterPresence::OmitForUnset) == 2,
        presence_source_number(AdapterPresenceSource::ReasoningProof) == 0,
        presence_source_number(AdapterPresenceSource::ReasoningEffort) == 1,
        presence_source_number(AdapterPresenceSource::ReasoningBudget) == 2,
        presence_source_number(AdapterPresenceSource::MaxOutput) == 3,
        presence_source_number(AdapterPresenceSource::ToolChoice) == 4,
        presence_source_number(AdapterPresenceSource::Reasoning) == 5,
        presence_source_number(AdapterPresenceSource::CacheRetention) == 6,
{
}

/// Digests know the sources of switches and of tables by these numbers.
pub proof fn lemma_source_numbers()
    ensures
        variant_source_number(AdapterVariantSource::ModelSelection) == 0,
        variant_source_number(AdapterVariantSource::SystemMessageEntry) == 1,
        variant_source_number(AdapterVariantSource::Message) == 2,
        variant_source_number(AdapterVariantSource::UserBlock) == 3,
        variant_source_number(AdapterVariantSource::AssistantBlock) == 4,
        variant_source_number(AdapterVariantSource::ToolResultBlock) == 5,
        variant_source_number(AdapterVariantSource::ToolResultStatus) == 6,
        variant_source_number(AdapterVariantSource::ToolChoice) == 7,
        variant_source_number(AdapterVariantSource::Reasoning) == 8,
        variant_source_number(AdapterVariantSource::CacheRetention) == 9,
        enum_source_number(AdapterEnumSource::SelectionKind) == 0,
        enum_source_number(AdapterEnumSource::MessageKind) == 1,
        enum_source_number(AdapterEnumSource::UserBlockKind) == 2,
        enum_source_number(AdapterEnumSource::AssistantBlockKind) == 3,
        enum_source_number(AdapterEnumSource::ToolResultBlockKind) == 4,
        enum_source_number(AdapterEnumSource::ToolResultStatus) == 5,
        enum_source_number(AdapterEnumSource::ReasoningKind) == 6,
        enum_source_number(AdapterEnumSource::ImageMediaType) == 7,
        enum_source_number(AdapterEnumSource::ToolChoice) == 8,
        enum_source_number(AdapterEnumSource::ReasoningMode) == 9,
        enum_source_number(AdapterEnumSource::ReasoningEffort) == 10,
        enum_source_number(AdapterEnumSource::CacheRetention) == 11,
{
}

} // verus!
