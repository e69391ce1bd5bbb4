//! Plain values exchanged with a provider component.
//!
//! The component interface itself is generated elsewhere; these types hold the
//! same data so that validation can speak about it.

use vstd::prelude::*;

verus! {

/// A text that was handed to the parser of its identifier kind where it
/// entered the library, with that parser's answer.
#[derive(Debug, Clone, PartialEq, Eq)]
pub struct IdText {
    /// The text as received.
    pub text: String,
    /// Whether the identifier parser accepted the text.
    pub canonical: bool,
}

/// A model chosen by exact identifier or by alias.
#[derive(Debug, Clone, PartialEq, Eq)]
pub enum ModelSelection {
    Exact(IdText),
    Alias(IdText),
}

#[derive(Debug, Clone, Copy, PartialEq, Eq, Structural)]
pub enum InputModality {
    Unknown,
    Text,
    Image,
}

#[derive(Debug, Clone, Copy, PartialEq, Eq, Structural)]
pub enum CapabilitySupport {
    Unknown,
    Unsupported,
    Supported,
}

#[derive(Debug, Clone, Copy, PartialEq, Eq, Structural)]
pub struct ToolCapability {
    pub tools: CapabilitySupport,
    pub auto_choice: CapabilitySupport,
    pub none_choice: CapabilitySupport,
    pub specific_choice: CapabilitySupport,
}

#[derive(Debug, Clone, Copy, PartialEq, Eq, Structural)]
pub struct ReasoningCapability {
    pub reasoning: CapabilitySupport,
    pub effort: CapabilitySupport,
    pub budget: CapabilitySupport,
    pub proof: CapabilitySupport,
}

/// One model of a provider's catalog.
#[derive(Debug, Clone, PartialEq, Eq)]
pub struct CatalogEntry {
    pub selection: ModelSelection,
    pub current_model: IdText,
    pub display_name: Option<String>,
    pub input_modalities: Vec<InputModality>,
    pub tool_capability: ToolCapability,
    pub reasoning_capability: ReasoningCapability,
    pub context_tokens: Option<u64>,
    pub max_output_tokens: Option<u64>,
    pub completion_operation: IdText,
}

/// One model of a verified metadata source.
#[derive(Debug, Clone, PartialEq, Eq)]
pub struct CatalogMetadataEntry {
    pub selection: ModelSelection,
    pub display_name: Option<String>,
    pub input_modalities: Vec<InputModality>,
    pub tool_capability: ToolCapability,
    pub reasoning_capability: ReasoningCapability,
    pub context_tokens: Option<u64>,
    pub max_output_tokens: Option<u64>,
}

#[derive(Debug, Clone, PartialEq, Eq)]
pub struct CatalogRevision {
    pub last_modified: u64,
    pub canonical_content_digest: String,
}

#[derive(Debug, Clone, PartialEq, Eq)]
pub struct CatalogMetadataView {
    pub revision: CatalogRevision,
    pub entries: Vec<CatalogMetadataEntry>,
}

/// Where a provider takes its catalog from.
#[derive(Debug, Clone, PartialEq, Eq)]
pub enum CatalogSourceView {
    Embedded,
    Verified(CatalogMetadataView),
}

#[derive(Debug, Clone, PartialEq, Eq)]
pub struct DescriptorRequest {
    pub provider_id: IdText,
    pub route_id: IdText,
    pub catalog_source: CatalogSourceView,
}

#[derive(Debug, Clone, PartialEq, Eq)]
pub struct ProviderDescriptor {
    pub provider_id: IdText,
    pub route_id: IdText,
    pub source_revision: Option<CatalogRevision>,
    pub catalog_digest: String,
    pub model_count: u32,
}

#[derive(Debug, Clone, PartialEq, Eq)]
pub struct CatalogRequest {
    pub provider_id: IdText,
    pub route_id: IdText,
    pub catalog_source: CatalogSourceView,
    pub catalog_digest: String,
    pub offset: u32,
    pub limit: u16,
}

#[derive(Debug, Clone, PartialEq, Eq)]
pub struct CatalogPage {
    pub provider_id: IdText,
    pub route_id: IdText,
    pub source_revision: Option<CatalogRevision>,
    pub catalog_digest: String,
    pub declared_count: u32,
    pub offset: u32,
    pub entries: Vec<CatalogEntry>,
    pub next_offset: Option<u32>,
}

#[derive(Debug, Clone, PartialEq, Eq)]
pub struct AuthInteractionRequest {
    pub provider_id: IdText,
    pub route_id: IdText,
}

#[derive(Debug, Clone, PartialEq, Eq)]
pub struct AuthInstructions {
    pub title: String,
    pub steps: Vec<String>,
}

/// What a provider shows for sign-in: instructions, or nothing to present.
#[derive(Debug, Clone, PartialEq, Eq)]
pub enum AuthInteractionResponse {
    NotPresented,
    Instructions(AuthInstructions),
}

/// A JSON document as a flat list of nodes, children before parents.
#[derive(Debug, Clone, PartialEq, Eq)]
pub struct WireJsonDocument {
    pub root: u32,
    pub nodes: Vec<WireJsonNode>,
}

#[derive(Debug, Clone, PartialEq, Eq)]
pub enum WireJsonNode {
    NullValue,
    BooleanValue(bool),
    NumberValue(String),
    StringValue(String),
    ArrayValue(WireJsonArray),
    ObjectValue(WireJsonObject),
}

#[derive(Debug, Clone, PartialEq, Eq)]
pub struct WireJsonArray {
    pub items: Vec<u32>,
}

#[derive(Debug, Clone, PartialEq, Eq)]
pub struct WireJsonObject {
    pub fields: Vec<WireJsonField>,
}

#[derive(Debug, Clone, PartialEq, Eq)]
pub struct WireJsonField {
    pub key: String,
    pub value: u32,
}

/// What a node holds, over texts.
pub enum JsonNode {
    Null,
    Boolean(bool),
    Number(Seq<char>),
    Text(Seq<char>),
    Array(Seq<u32>),
    Object(Seq<(Seq<char>, u32)>),
}

/// What a document holds, over texts.
pub struct JsonDocument {
    pub root: u32,
    pub nodes: Seq<JsonNode>,
}

/// What a list of fields holds.
pub open spec fn field_models(fields: Seq<WireJsonField>) -> Seq<(Seq<char>, u32)> {
    fields.map_values(|field: WireJsonField| field@)
}

/// What a list of nodes holds.
pub open spec fn node_models(nodes: Seq<WireJsonNode>) -> Seq<JsonNode> {
    nodes.map_values(|node: WireJsonNode| node@)
}

impl View for WireJsonField {
    type V = (Seq<char>, u32);

    open spec fn view(&self) -> (Seq<char>, u32) {
        (self.key@, self.value)
    }
}

impl View for WireJsonNode {
    type V = JsonNode;

    open spec fn view(&self) -> JsonNode {
        match *self {
            WireJsonNode::NullValue => JsonNode::Null,
            WireJsonNode::BooleanValue(value) => JsonNode::Boolean(value),
            WireJsonNode::NumberValue(value) => JsonNode::Number(value@),
            WireJsonNode::StringValue(value) => JsonNode::Text(value@),
            WireJsonNode::ArrayValue(array) => JsonNode::Array(array.items@),
            WireJsonNode::ObjectValue(object) => JsonNode::Object(field_models(object.fields@)),
        }
    }
}

impl View for WireJsonDocument {
    type V = JsonDocument;

    open spec fn view(&self) -> JsonDocument {
        JsonDocument { root: self.root, nodes: node_models(self.nodes@) }
    }
}

#[derive(Debug, Clone, PartialEq, Eq)]
pub struct TextBlock {
    pub text: String,
}

#[derive(Debug, Clone, Copy, PartialEq, Eq, Structural)]
pub enum ImageMediaType {
    Png,
    Jpeg,
    Gif,
    Webp,
    Tiff,
}

#[derive(Debug, Clone, Copy, PartialEq, Eq, Structural)]
pub struct ImageMetadata {
    pub width: u32,
    pub height: u32,
    pub frames: u32,
}

#[derive(Debug, Clone, PartialEq, Eq)]
pub struct ImageView {
    pub stamp: String,
    pub media_type: ImageMediaType,
    pub bytes: Vec<u8>,
    pub metadata: ImageMetadata,
}

#[derive(Debug, Clone, Copy, PartialEq, Eq, Structural)]
pub enum ReasoningKind {
    Thinking,
    Summary,
}

#[derive(Debug, Clone, PartialEq, Eq)]
pub struct ReasoningProofView {
    pub stamp: String,
    pub source_request_id: IdText,
    pub source_turn_id: IdText,
    pub source_content_index: u8,
    pub reasoning_kind: ReasoningKind,
    pub proof: Vec<u8>,
}

#[derive(Debug, Clone, PartialEq, Eq)]
pub struct ReasoningBlock {
    pub kind: ReasoningKind,
    pub text: String,
    pub proof: Option<ReasoningProofView>,
}

#[derive(Debug, Clone, PartialEq, Eq)]
pub struct ToolCallBlock {
    pub call_id: String,
    pub name: String,
    pub arguments: WireJsonDocument,
}

#[derive(Debug, Clone, PartialEq, Eq)]
pub enum UserBlock {
    Text(TextBlock),
    Image(ImageView),
}

#[derive(Debug, Clone, PartialEq, Eq)]
pub enum AssistantBlock {
    Text(TextBlock),
    Reasoning(ReasoningBlock),
    ToolCall(ToolCallBlock),
}

#[derive(Debug, Clone, PartialEq, Eq)]
pub enum ToolResultBlock {
    Text(TextBlock),
    Image(ImageView),
}

#[derive(Debug, Clone, PartialEq, Eq)]
pub struct UserMessage {
    pub blocks: Vec<UserBlock>,
}

#[derive(Debug, Clone, PartialEq, Eq)]
pub struct AssistantMessage {
    pub blocks: Vec<AssistantBlock>,
}

#[derive(Debug, Clone, PartialEq, Eq)]
pub struct ToolResultMessage {
    pub call_id: String,
    pub blocks: Vec<ToolResultBlock>,
    pub is_error: bool,
}

#[derive(Debug, Clone, PartialEq, Eq)]
pub enum Message {
    User(UserMessage),
    Assistant(AssistantMessage),
    ToolResult(ToolResultMessage),
}

#[derive(Debug, Clone, PartialEq, Eq)]
pub struct ToolDefinition {
    pub name: String,
    pub description: String,
    pub input_schema: WireJsonDocument,
}

#[derive(Debug, Clone, PartialEq, Eq)]
pub struct SpecificToolChoice {
    pub name: String,
}

#[derive(Debug, Clone, PartialEq, Eq)]
pub enum ToolChoice {
    Unset,
    Auto,
    Forbidden,
    Specific(SpecificToolChoice),
}

#[derive(Debug, Clone, Copy, PartialEq, Eq, Structural)]
pub enum ReasoningEffort {
    Minimal,
    Low,
    Medium,
    High,
}

#[derive(Debug, Clone, Copy, PartialEq, Eq)]
pub struct EnabledReasoning {
    pub effort: Option<ReasoningEffort>,
    pub budget_tokens: Option<u64>,
}

#[derive(Debug, Clone, Copy, PartialEq, Eq)]
pub enum Reasoning {
    Unset,
    Disabled,
    Enabled(EnabledReasoning),
}

#[derive(Debug, Clone, Copy, PartialEq, Eq, Structural)]
pub enum CacheRetention {
    Unset,
    Disabled,
    Request,
    Session,
}

/// The request of a caller, before a provider prepares it.
#[derive(Debug, Clone, PartialEq, Eq)]
pub struct PrepareInput {
    pub provider_id: IdText,
    pub route_id: IdText,
    pub catalog_digest: String,
    pub selection: ModelSelection,
    pub current_model: IdText,
    pub operation_id: IdText,
    pub request_id: IdText,
    pub turn_id: IdText,
    pub system: Vec<String>,
    pub messages: Vec<Message>,
    pub tools: Vec<ToolDefinition>,
    pub tool_choice: ToolChoice,
    pub reasoning: Reasoning,
    pub cache_retention: CacheRetention,
    pub max_output_tokens: Option<u64>,
}

#[derive(Debug, Clone, PartialEq, Eq)]
pub struct OrdinaryHeader {
    pub name: String,
    pub value: String,
}

/// A request body and its headers, as a provider prepared them.
#[derive(Debug, Clone, PartialEq, Eq)]
pub struct PreparedRequest {
    pub body: WireJsonDocument,
    pub ordinary_headers: Vec<OrdinaryHeader>,
}

#[derive(Debug, Clone, Copy, PartialEq, Eq, Structural)]
pub enum ResponseMedia {
    Json,
    EventStream,
}

#[derive(Debug, Clone, Copy, PartialEq, Eq, Structural)]
pub struct ResponseHead {
    pub status: u16,
    pub media: ResponseMedia,
}

/// One frame of a transport response.
#[derive(Debug, Clone, PartialEq, Eq)]
pub enum ResponseFrame {
    Head(ResponseHead),
    Data(Vec<u8>),
    End,
}

#[derive(Debug, Clone, Copy, PartialEq, Eq, Structural)]
pub enum FrameAcceptance {
    Accepted,
}

/// What a provider does not support. Flows other than the response media differ
/// only in the number by which the interface knows them.
#[derive(Debug, Clone, Copy, PartialEq, Eq, Structural)]
pub enum UnsupportedFlow {
    ResponseMedia,
    Other(u32),
}

/// Stable failure of a provider call.
#[derive(Debug, Clone, Copy, PartialEq, Eq, Structural)]
pub enum ProviderError {
    InvalidArgument,
    Limit,
    Unavailable,
    Cancelled,
    Failed,
    UnsupportedFlow(UnsupportedFlow),
}

#[derive(Debug, Clone, PartialEq, Eq)]
pub struct TextDelta {
    pub content_index: u8,
    pub text: String,
}

#[derive(Debug, Clone, PartialEq, Eq)]
pub struct ReasoningDelta {
    pub content_index: u8,
    pub kind: ReasoningKind,
    pub text: String,
}

#[derive(Debug, Clone, PartialEq, Eq)]
pub struct ReasoningProof {
    pub content_index: u8,
    pub kind: ReasoningKind,
    pub proof: Vec<u8>,
}

#[derive(Debug, Clone, PartialEq, Eq)]
pub struct ToolCallStart {
    pub content_index: u8,
    pub call_id: String,
    pub name: String,
}

#[derive(Debug, Clone, PartialEq, Eq)]
pub struct ToolArgumentsDelta {
    pub content_index: u8,
    pub call_id: String,
    pub delta: String,
}

#[derive(Debug, Clone, PartialEq, Eq)]
pub struct ToolCallEnd {
    pub content_index: u8,
    pub call_id: String,
}

/// Why a completion ended. Reasons other than these two differ only in the number
/// by which the interface knows them.
#[derive(Debug, Clone, Copy, PartialEq, Eq, Structural)]
pub enum CompletionReason {
    Stop,
    ToolUse,
    Other(u32),
}

#[derive(Debug, Clone, Copy, PartialEq, Eq)]
pub struct Usage {
    pub input_tokens: Option<u64>,
    pub output_tokens: Option<u64>,
    pub cache_read_tokens: Option<u64>,
    pub cache_write_tokens: Option<u64>,
}

#[derive(Debug, Clone, PartialEq, Eq)]
pub struct CompletionTerminal {
    pub reason: CompletionReason,
    pub reported_model: Option<IdText>,
    pub usage: Usage,
}

/// A decoded event in provider-neutral form.
#[derive(Debug, Clone, PartialEq, Eq)]
pub enum NormalizedEvent {
    TextDelta(TextDelta),
    ReasoningDelta(ReasoningDelta),
    ReasoningProof(ReasoningProof),
    ToolCallStart(ToolCallStart),
    ToolArgumentsDelta(ToolArgumentsDelta),
    ToolCallEnd(ToolCallEnd),
    Completed(CompletionTerminal),
    Failed(ProviderError),
}

/// The answer of a decoder to a pull.
#[derive(Debug, Clone, PartialEq, Eq)]
pub enum DecoderPull {
    NeedFrame,
    Events(Vec<NormalizedEvent>),
}

} // verus!
