//! Closed adapter contract vocabulary.

use vstd::prelude::*;

use crate::provider_api::{
    IdText, InputModality, ModelSelection, ReasoningCapability, ToolCapability,
};

verus! {

/// The wire protocol that an adapter speaks.
#[derive(Debug, Clone, Copy, PartialEq, Eq, Structural)]
pub enum AdapterWireId {
    AnthropicMessages,
    OpenAiCompletions,
    OpenAiResponses,
    OpenAiCodexResponses,
    AzureOpenAiResponses,
    GoogleGenerativeAi,
    GoogleVertex,
    MistralConversations,
    BedrockConverseStream,
    PiMessages,
}

/// Which model name a request carries.
#[derive(Debug, Clone, Copy, PartialEq, Eq, Structural)]
pub enum AdapterModelSource {
    RequestedSelection,
    CurrentModel,
}

/// A closed contract between a request and the body that a provider sends.
#[derive(Debug, Clone, PartialEq, Eq)]
pub struct AdapterContractV1 {
    pub version: u8,
    pub wire_id: AdapterWireId,
    pub model_source: AdapterModelSource,
    pub tree: ContractTree,
    pub ordinary_header_rules: Vec<OrdinaryHeaderRule>,
    pub decoder_kind: AdapterDecoderKind,
}

/// The body of a contract as a flat list of nodes, children before parents.
#[derive(Debug, Clone, PartialEq, Eq)]
pub struct ContractTree {
    pub root: u32,
    pub nodes: Vec<ContractNode>,
    pub tables: Vec<EnumTokenTable>,
}

/// One node of a contract: where it stands, when it is present and what it
/// holds.
#[derive(Debug, Clone, PartialEq, Eq)]
pub struct ContractNode {
    pub parent: Option<u32>,
    pub segment: Option<PathSegment>,
    pub presence: AdapterPresence,
    pub presence_source: Option<AdapterPresenceSource>,
    pub body: ContractNodeBody,
}

/// What a contract node stands for.
#[derive(Debug, Clone, PartialEq, Eq)]
pub enum ContractNodeBody {
    Object(ContractObject),
    Array(ContractArray),
    Switch(ContractSwitch),
    Value(ContractValue),
    Constant(ContractConstant),
}

/// An object with the given member nodes.
#[derive(Debug, Clone, PartialEq, Eq)]
pub struct ContractObject {
    pub children: Vec<u32>,
}

/// An array with one item for every member of a collection.
#[derive(Debug, Clone, PartialEq, Eq)]
pub struct ContractArray {
    pub collection: AdapterCollection,
    pub item: u32,
    pub min: u32,
    pub max: u32,
}

/// A choice by the variant of a source.
#[derive(Debug, Clone, PartialEq, Eq)]
pub struct ContractSwitch {
    pub source: AdapterVariantSource,
    pub cases: Vec<ContractCase>,
}

/// A scalar of the request after a transform.
#[derive(Debug, Clone, PartialEq, Eq)]
pub struct ContractValue {
    pub source: AdapterScalarSource,
    pub transform: AdapterTransform,
}

/// A fixed value.
#[derive(Debug, Clone, PartialEq, Eq)]
pub struct ContractConstant {
    pub value: TypedJsonConstant,
}

/// One case of a switch.
#[derive(Debug, Clone, PartialEq, Eq)]
pub struct ContractCase {
    pub variant_ordinal: u8,
    pub node: u32,
}

/// How a node is reached from its parent.
#[derive(Debug, Clone, PartialEq, Eq)]
pub enum PathSegment {
    Key(String),
    ArrayItem,
}

/// A collection of the request.
#[derive(Debug, Clone, Copy, PartialEq, Eq, Structural)]
pub enum AdapterCollection {
    System,
    Messages,
    SystemMessages,
    Blocks,
    Tools,
}

/// A choice that the request makes.
#[derive(Debug, Clone, Copy, PartialEq, Eq, Structural)]
pub enum AdapterVariantSource {
    ModelSelection,
    SystemMessageEntry,
    Message,
    UserBlock,
    AssistantBlock,
    ToolResultBlock,
    ToolResultStatus,
    ToolChoice,
    Reasoning,
    CacheRetention,
}

/// A scalar of the request.
#[derive(Debug, Clone, Copy, PartialEq, Eq, Structural)]
pub enum AdapterScalarSource {
    SelectedModel,
    SelectionKind,
    SystemItem,
    SystemJoined,
    MessageRole,
    BlockKind,
    BlockText,
    ToolResultCallId,
    ToolResultIsError,
    ToolResultStatus,
    ToolResultName,
    MistralToolResultContent,
    ToolCallId,
    ToolCallName,
    ToolCallArguments,
    ToolName,
    ToolDescription,
    ToolSchema,
    ReasoningKind,
    Proof,
    ImageBytes,
    ImageMediaType,
    ImageWidth,
    ImageHeight,
    ImageFrames,
    ImageDataUri,
    ToolChoiceKind,
    ToolChoiceName,
    ReasoningMode,
    ReasoningEffort,
    ReasoningBudget,
    CacheRetention,
    MaxOutput,
}

/// How a scalar becomes a JSON value.
#[derive(Debug, Clone, PartialEq, Eq)]
pub enum AdapterTransform {
    Identity,
    CheckedU32,
    CheckedU64,
    JsonSubtree,
    CanonicalJsonString,
    MistralToolResultContent,
    JoinLf,
    Base64StandardPadded,
    Base64StandardUnpadded,
    DataUri,
    EnumToken(u16),
}

/// When a node is present.
#[derive(Debug, Clone, Copy, PartialEq, Eq, Structural)]
pub enum AdapterPresence {
    Required,
    OmitIfNone,
    OmitForUnset,
}

/// What decides on the presence of a node.
#[derive(Debug, Clone, Copy, PartialEq, Eq, Structural)]
pub enum AdapterPresenceSource {
    ReasoningProof,
    ReasoningEffort,
    ReasoningBudget,
    MaxOutput,
    ToolChoice,
    Reasoning,
    CacheRetention,
}

/// A fixed JSON scalar.
#[derive(Debug, Clone, PartialEq, Eq)]
pub enum TypedJsonConstant {
    Null,
    Boolean(bool),
    Number(String),
    String(String),
}

/// The tokens of an enumeration.
#[derive(Debug, Clone, PartialEq, Eq)]
pub struct EnumTokenTable {
    pub source: AdapterEnumSource,
    pub entries: Vec<EnumTokenEntry>,
}

/// The enumeration that a token table names.
#[derive(Debug, Clone, Copy, PartialEq, Eq, Structural)]
pub enum AdapterEnumSource {
    SelectionKind,
    MessageKind,
    UserBlockKind,
    AssistantBlockKind,
    ToolResultBlockKind,
    ToolResultStatus,
    ReasoningKind,
    ImageMediaType,
    ToolChoice,
    ReasoningMode,
    ReasoningEffort,
    CacheRetention,
}

/// The token of one variant.
#[derive(Debug, Clone, PartialEq, Eq)]
pub struct EnumTokenEntry {
    pub variant_ordinal: u8,
    pub token: String,
}

/// A rule on one ordinary header.
#[derive(Debug, Clone, PartialEq, Eq)]
pub enum OrdinaryHeaderRule {
    Fixed(FixedHeaderRule),
    OneOf(OneOfHeaderRule),
}

/// A header that the host sets itself.
#[derive(Debug, Clone, PartialEq, Eq)]
pub struct FixedHeaderRule {
    pub name: String,
    pub value: String,
}

/// A header that a provider sets to one of the given values.
#[derive(Debug, Clone, PartialEq, Eq)]
pub struct OneOfHeaderRule {
    pub name: String,
    pub values: Vec<String>,
    pub required: bool,
}

/// The decoder that belongs to a wire protocol.
#[derive(Debug, Clone, Copy, PartialEq, Eq, Structural)]
pub enum AdapterDecoderKind {
    AnthropicMessages,
    OpenAiCompletions,
    OpenAiResponses,
    OpenAiCodexResponses,
    AzureOpenAiResponses,
    GoogleGenerativeAi,
    GoogleVertex,
    MistralConversations,
    BedrockConverseStream,
    PiMessages,
}

/// The catalog entry that a contract is evaluated for.
#[derive(Debug, Clone, Copy)]
pub struct ValidatedCatalogEntryView<'a> {
    pub provider_id: &'a IdText,
    pub route_id: &'a IdText,
    pub catalog_digest: &'a str,
    pub selection: &'a ModelSelection,
    pub current_model: &'a IdText,
    pub input_modalities: &'a [InputModality],
    pub tool_capability: &'a ToolCapability,
    pub reasoning_capability: &'a ReasoningCapability,
    pub context_tokens: Option<u64>,
    pub max_output_tokens: Option<u64>,
    pub completion_operation: &'a IdText,
}

/// What is known of a prepared request that meets its contract.
#[derive(Debug, Clone, PartialEq, Eq)]
pub struct ValidatedAdapter {
    pub wire_id: AdapterWireId,
    pub decoder_kind: AdapterDecoderKind,
    pub contract_digest: String,
    pub body_digest: String,
    pub ordinary_header_digest: String,
}

/// Why a contract or a prepared request was refused.
#[derive(Debug, Clone, Copy, PartialEq, Eq, Structural)]
pub enum AdapterValidationError {
    InvalidContract,
    SourceMismatch,
    BodyMismatch,
    HeaderMismatch,
    CapabilityMismatch,
    Limit,
}

/// Outcome of an adapter step.
pub type AdapterValidationResult<T = ValidatedAdapter> = Result<T, AdapterValidationError>;

impl AdapterWireId {
    /// The number of a wire protocol.
    pub open spec fn number(self) -> u8 {
        match self {
            AdapterWireId::AnthropicMessages => 0,
            AdapterWireId::OpenAiCompletions => 1,
            AdapterWireId::OpenAiResponses => 2,
            AdapterWireId::OpenAiCodexResponses => 3,
            AdapterWireId::AzureOpenAiResponses => 4,
            AdapterWireId::GoogleGenerativeAi => 5,
            AdapterWireId::GoogleVertex => 6,
            AdapterWireId::MistralConversations => 7,
            AdapterWireId::BedrockConverseStream => 8,
            AdapterWireId::PiMessages => 9,
        }
    }

    /// The number of a wire protocol.
    pub fn ordinal(self) -> (ordinal: u8)
        ensures
            ordinal == self.number(),
    {
        match self {
            AdapterWireId::AnthropicMessages => 0,
            AdapterWireId::OpenAiCompletions => 1,
            AdapterWireId::OpenAiResponses => 2,
            AdapterWireId::OpenAiCodexResponses => 3,
            AdapterWireId::AzureOpenAiResponses => 4,
            AdapterWireId::GoogleGenerativeAi => 5,
            AdapterWireId::GoogleVertex => 6,
            AdapterWireId::MistralConversations => 7,
            AdapterWireId::BedrockConverseStream => 8,
            AdapterWireId::PiMessages => 9,
        }
    }
}

impl AdapterDecoderKind {
    /// The number of a decoder, which is that of its wire protocol.
    pub open spec fn number(self) -> u8 {
        match self {
            AdapterDecoderKind::AnthropicMessages => 0,
            AdapterDecoderKind::OpenAiCompletions => 1,
            AdapterDecoderKind::OpenAiResponses => 2,
            AdapterDecoderKind::OpenAiCodexResponses => 3,
            AdapterDecoderKind::AzureOpenAiResponses => 4,
            AdapterDecoderKind::GoogleGenerativeAi => 5,
            AdapterDecoderKind::GoogleVertex => 6,
            AdapterDecoderKind::MistralConversations => 7,
            AdapterDecoderKind::BedrockConverseStream => 8,
            AdapterDecoderKind::PiMessages => 9,
        }
    }

    /// The number of a decoder, which is that of its wire protocol.
    pub fn ordinal(self) -> (ordinal: u8)
        ensures
            ordinal == self.number(),
    {
        match self {
            AdapterDecoderKind::AnthropicMessages => 0,
            AdapterDecoderKind::OpenAiCompletions => 1,
            AdapterDecoderKind::OpenAiResponses => 2,
            AdapterDecoderKind::OpenAiCodexResponses => 3,
            AdapterDecoderKind::AzureOpenAiResponses => 4,
            AdapterDecoderKind::GoogleGenerativeAi => 5,
            AdapterDecoderKind::GoogleVertex => 6,
            AdapterDecoderKind::MistralConversations => 7,
            AdapterDecoderKind::BedrockConverseStream => 8,
            AdapterDecoderKind::PiMessages => 9,
        }
    }
}

impl AdapterVariantSource {
    /// The number of variants of a choice.
    pub open spec fn variants(self) -> u8 {
        match self {
            AdapterVariantSource::ModelSelection
            | AdapterVariantSource::SystemMessageEntry
            | AdapterVariantSource::UserBlock
            | AdapterVariantSource::ToolResultBlock
            | AdapterVariantSource::ToolResultStatus => 2,
            AdapterVariantSource::Message
            | AdapterVariantSource::AssistantBlock
            | AdapterVariantSource::Reasoning => 3,
            AdapterVariantSource::ToolChoice
            | AdapterVariantSource::CacheRetention => 4,
        }
    }

    /// The number of variants of a choice.
    pub fn variant_count(self) -> (count: u8)
        ensures
            count == self.variants(),
    {
        match self {
            AdapterVariantSource::ModelSelection
            | AdapterVariantSource::SystemMessageEntry
            | AdapterVariantSource::UserBlock
            | AdapterVariantSource::ToolResultBlock
            | AdapterVariantSource::ToolResultStatus => 2,
            AdapterVariantSource::Message
            | AdapterVariantSource::AssistantBlock
            | AdapterVariantSource::Reasoning => 3,
            AdapterVariantSource::ToolChoice
            | AdapterVariantSource::CacheRetention => 4,
        }
    }
}

impl AdapterEnumSource {
    /// The number of variants of an enumeration.
    pub open spec fn variants(self) -> u8 {
        match self {
            AdapterEnumSource::SelectionKind
            | AdapterEnumSource::UserBlockKind
            | AdapterEnumSource::ToolResultBlockKind
            | AdapterEnumSource::ToolResultStatus
            | AdapterEnumSource::ReasoningKind => 2,
            AdapterEnumSource::MessageKind
            | AdapterEnumSource::AssistantBlockKind
            | AdapterEnumSource::ReasoningMode => 3,
            AdapterEnumSource::ToolChoice
            | AdapterEnumSource::ReasoningEffort
            | AdapterEnumSource::CacheRetention => 4,
            AdapterEnumSource::ImageMediaType => 5,
        }
    }

    /// The number of variants of an enumeration.
    pub fn variant_count(self) -> (count: u8)
        ensures
            count == self.variants(),
    {
        match self {
            AdapterEnumSource::SelectionKind
            | AdapterEnumSource::UserBlockKind
            | AdapterEnumSource::ToolResultBlockKind
            | AdapterEnumSource::ToolResultStatus
            | AdapterEnumSource::ReasoningKind => 2,
            AdapterEnumSource::MessageKind
            | AdapterEnumSource::AssistantBlockKind
            | AdapterEnumSource::ReasoningMode => 3,
            AdapterEnumSource::ToolChoice
            | AdapterEnumSource::ReasoningEffort
            | AdapterEnumSource::CacheRetention => 4,
            AdapterEnumSource::ImageMediaType => 5,
        }
    }
}

/// The outcome of two checks made in order: the first failure wins.
pub open spec fn both(
    first: AdapterValidationResult<()>,
    second: AdapterValidationResult<()>,
) -> AdapterValidationResult<()> {
    if first is Err {
        first
    } else {
        second
    }
}

/// The outcome of a single test that fails with `error`.
pub open spec fn demand(holds: bool, error: AdapterValidationError) -> AdapterValidationResult<()> {
    if holds {
        Ok(())
    } else {
        Err(error)
    }
}

/// A test on a contract.
pub open spec fn legal(holds: bool) -> AdapterValidationResult<()> {
    demand(holds, AdapterValidationError::InvalidContract)
}

} // verus!
