//! Copies of request values that hold the same as what they were made of.

use vstd::prelude::*;

use crate::provider_api::{
    AssistantBlock, AssistantMessage, CatalogEntry, IdText, ImageView, InputModality,
    Message, ModelSelection, PrepareInput, ReasoningBlock, ReasoningProofView, SpecificToolChoice,
    TextBlock, ToolCallBlock, ToolChoice, ToolDefinition, ToolResultBlock, ToolResultMessage,
    UserBlock, UserMessage, WireJsonArray, WireJsonDocument, WireJsonField, WireJsonNode,
    WireJsonObject,
};
use crate::provider_api::{field_models, node_models};

verus! {

// ---------------------------------------------------------------------------
// Identifiers and bytes
// ---------------------------------------------------------------------------

/// A copy of an identifier.
pub fn copy_id(id: &IdText) -> (copy: IdText)
    ensures
        copy == *id,
{
    IdText { text: id.text.clone(), canonical: id.canonical }
}

/// A copy of a selection.
pub fn copy_selection(selection: &ModelSelection) -> (copy: ModelSelection)
    ensures
        copy == *selection,
{
    match selection {
        ModelSelection::Exact(id) => ModelSelection::Exact(copy_id(id)),
        ModelSelection::Alias(id) => ModelSelection::Alias(copy_id(id)),
    }
}

/// A copy of a byte string.
pub fn copy_bytes(bytes: &[u8]) -> (copy: Vec<u8>)
    ensures
        copy@ == bytes@,
{
    let mut copy: Vec<u8> = Vec::new();
    let mut i: usize = 0;
    while i < bytes.len()
        invariant
            i <= bytes@.len(),
            copy@ == bytes@.take(i as int),
        decreases bytes.len() - i,
    {
        copy.push(bytes[i]);
        assert(copy@ =~= bytes@.take(i as int + 1));
        i += 1;
    }
    assert(bytes@.take(i as int) =~= bytes@);
    copy
}

/// A copy of a list of indexes.
pub fn copy_indexes(indexes: &Vec<u32>) -> (copy: Vec<u32>)
    ensures
        copy@ == indexes@,
{
    let mut copy: Vec<u32> = Vec::new();
    let mut i: usize = 0;
    while i < indexes.len()
        invariant
            i <= indexes@.len(),
            copy@ == indexes@.take(i as int),
        decreases indexes.len() - i,
    {
        copy.push(indexes[i]);
        assert(copy@ =~= indexes@.take(i as int + 1));
        i += 1;
    }
    assert(indexes@.take(i as int) =~= indexes@);
    copy
}

/// A copy of a list of texts.
pub fn copy_texts(texts: &Vec<String>) -> (copy: Vec<String>)
    ensures
        copy@ == texts@,
{
    let mut copy: Vec<String> = Vec::new();
    let mut i: usize = 0;
    while i < texts.len()
        invariant
            i <= texts@.len(),
            copy@ == texts@.take(i as int),
        decreases texts.len() - i,
    {
        copy.push(texts[i].clone());
        assert(copy@ =~= texts@.take(i as int + 1));
        i += 1;
    }
    assert(texts@.take(i as int) =~= texts@);
    copy
}

/// A copy of a list of modalities.
pub fn copy_modalities(modalities: &[InputModality]) -> (copy: Vec<InputModality>)
    ensures
        copy@ == modalities@,
{
    let mut copy: Vec<InputModality> = Vec::new();
    let mut i: usize = 0;
    while i < modalities.len()
        invariant
            i <= modalities@.len(),
            copy@ == modalities@.take(i as int),
        decreases modalities.len() - i,
    {
        copy.push(modalities[i]);
        assert(copy@ =~= modalities@.take(i as int + 1));
        i += 1;
    }
    assert(modalities@.take(i as int) =~= modalities@);
    copy
}

// ---------------------------------------------------------------------------
// Documents
// ---------------------------------------------------------------------------

/// A copy of the fields of an object.
pub fn copy_fields(fields: &Vec<WireJsonField>) -> (copy: Vec<WireJsonField>)
    ensures
        field_models(copy@) == field_models(fields@),
{
    let mut copy: Vec<WireJsonField> = Vec::new();
    let mut i: usize = 0;
    while i < fields.len()
        invariant
            i <= fields@.len(),
            field_models(copy@) == field_models(fields@).take(i as int),
        decreases fields.len() - i,
    {
        let ghost before = field_models(copy@);
        let field = WireJsonField { key: fields[i].key.clone(), value: fields[i].value };
        copy.push(field);
        assert(field_models(copy@) =~= before.push(field@));
        assert(field_models(copy@) =~= field_models(fields@).take(i as int + 1));
        i += 1;
    }
    assert(field_models(fields@).take(i as int) =~= field_models(fields@));
    copy
}

/// A copy of a node.
pub fn copy_node(node: &WireJsonNode) -> (copy: WireJsonNode)
    ensures
        copy@ == node@,
{
    match node {
        WireJsonNode::NullValue => WireJsonNode::NullValue,
        WireJsonNode::BooleanValue(value) => WireJsonNode::BooleanValue(*value),
        WireJsonNode::NumberValue(value) => WireJsonNode::NumberValue(value.clone()),
        WireJsonNode::StringValue(value) => WireJsonNode::StringValue(value.clone()),
        WireJsonNode::ArrayValue(array) => WireJsonNode::ArrayValue(
            WireJsonArray { items: copy_indexes(&array.items) },
        ),
        WireJsonNode::ObjectValue(object) => WireJsonNode::ObjectValue(
            WireJsonObject { fields: copy_fields(&object.fields) },
        ),
    }
}

/// A copy of a document.
pub fn copy_document(document: &WireJsonDocument) -> (copy: WireJsonDocument)
    ensures
        copy@ == document@,
{
    let mut nodes: Vec<WireJsonNode> = Vec::new();
    let mut i: usize = 0;
    while i < document.nodes.len()
        invariant
            i <= document.nodes@.len(),
            node_models(nodes@) == node_models(document.nodes@).take(i as int),
        decreases document.nodes.len() - i,
    {
        let ghost before = node_models(nodes@);
        let node = copy_node(&document.nodes[i]);
        nodes.push(node);
        assert(node_models(nodes@) =~= before.push(node@));
        assert(node_models(nodes@) =~= node_models(document.nodes@).take(i as int + 1));
        i += 1;
    }
    assert(node_models(document.nodes@).take(i as int) =~= node_models(document.nodes@));
    WireJsonDocument { root: document.root, nodes }
}

// ---------------------------------------------------------------------------
// Blocks
// ---------------------------------------------------------------------------

/// Whether two images hold the same.
pub open spec fn same_image(left: ImageView, right: ImageView) -> bool {
    &&& left.stamp == right.stamp
    &&& left.media_type == right.media_type
    &&& left.bytes@ == right.bytes@
    &&& left.metadata == right.metadata
}

/// Whether two reasoning proofs hold the same.
pub open spec fn same_evidence(left: ReasoningProofView, right: ReasoningProofView) -> bool {
    &&& left.stamp == right.stamp
    &&& left.source_request_id == right.source_request_id
    &&& left.source_turn_id == right.source_turn_id
    &&& left.source_content_index == right.source_content_index
    &&& left.reasoning_kind == right.reasoning_kind
    &&& left.proof@ == right.proof@
}

/// Whether two reasoning blocks hold the same.
pub open spec fn same_reasoning(left: ReasoningBlock, right: ReasoningBlock) -> bool {
    &&& left.kind == right.kind
    &&& left.text == right.text
    &&& match (left.proof, right.proof) {
        (None, None) => true,
        (Some(left), Some(right)) => same_evidence(left, right),
        _ => false,
    }
}

/// Whether two tool calls hold the same.
pub open spec fn same_call(left: ToolCallBlock, right: ToolCallBlock) -> bool {
    &&& left.call_id == right.call_id
    &&& left.name == right.name
    &&& left.arguments@ == right.arguments@
}

/// Whether two user blocks hold the same.
pub open spec fn same_user_block(left: UserBlock, right: UserBlock) -> bool {
    match (left, right) {
        (UserBlock::Text(left), UserBlock::Text(right)) => left == right,
        (UserBlock::Image(left), UserBlock::Image(right)) => same_image(left, right),
        _ => false,
    }
}

/// Whether two assistant blocks hold the same.
pub open spec fn same_assistant_block(left: AssistantBlock, right: AssistantBlock) -> bool {
    match (left, right) {
        (AssistantBlock::Text(left), AssistantBlock::Text(right)) => left == right,
        (AssistantBlock::Reasoning(left), AssistantBlock::Reasoning(right)) => same_reasoning(
            left,
            right,
        ),
        (AssistantBlock::ToolCall(left), AssistantBlock::ToolCall(right)) => same_call(left, right),
        _ => false,
    }
}

/// Whether two tool result blocks hold the same.
pub open spec fn same_result_block(left: ToolResultBlock, right: ToolResultBlock) -> bool {
    match (left, right) {
        (ToolResultBlock::Text(left), ToolResultBlock::Text(right)) => left == right,
        (ToolResultBlock::Image(left), ToolResultBlock::Image(right)) => same_image(left, right),
        _ => false,
    }
}

/// A copy of a text block.
pub fn copy_text_block(block: &TextBlock) -> (copy: TextBlock)
    ensures
        copy == *block,
{
    TextBlock { text: block.text.clone() }
}

/// A copy of an image.
pub fn copy_image(image: &ImageView) -> (copy: ImageView)
    ensures
        same_image(copy, *image),
{
    ImageView {
        stamp: image.stamp.clone(),
        media_type: image.media_type,
        bytes: copy_bytes(image.bytes.as_slice()),
        metadata: image.metadata,
    }
}

/// A copy of a reasoning proof.
pub fn copy_evidence(evidence: &ReasoningProofView) -> (copy: ReasoningProofView)
    ensures
        same_evidence(copy, *evidence),
{
    ReasoningProofView {
        stamp: evidence.stamp.clone(),
        source_request_id: copy_id(&evidence.source_request_id),
        source_turn_id: copy_id(&evidence.source_turn_id),
        source_content_index: evidence.source_content_index,
        reasoning_kind: evidence.reasoning_kind,
        proof: copy_bytes(evidence.proof.as_slice()),
    }
}

/// A copy of a reasoning block.
pub fn copy_reasoning(block: &ReasoningBlock) -> (copy: ReasoningBlock)
    ensures
        same_reasoning(copy, *block),
{
    let evidence = match &block.proof {
        Some(evidence) => Some(copy_evidence(evidence)),
        None => None,
    };
    ReasoningBlock { kind: block.kind, text: block.text.clone(), proof: evidence }
}

/// A copy of a user block.
pub fn copy_user_block(block: &UserBlock) -> (copy: UserBlock)
    ensures
        same_user_block(copy, *block),
{
    match block {
        UserBlock::Text(block) => UserBlock::Text(copy_text_block(block)),
        UserBlock::Image(image) => UserBlock::Image(copy_image(image)),
    }
}

/// A copy of an assistant block.
pub fn copy_assistant_block(block: &AssistantBlock) -> (copy: AssistantBlock)
    ensures
        same_assistant_block(copy, *block),
{
    match block {
        AssistantBlock::Text(block) => AssistantBlock::Text(copy_text_block(block)),
        AssistantBlock::Reasoning(block) => AssistantBlock::Reasoning(copy_reasoning(block)),
        AssistantBlock::ToolCall(call) => AssistantBlock::ToolCall(
            ToolCallBlock {
                call_id: call.call_id.clone(),
                name: call.name.clone(),
                arguments: copy_document(&call.arguments),
            },
        ),
    }
}

/// A copy of a tool result block.
pub fn copy_result_block(block: &ToolResultBlock) -> (copy: ToolResultBlock)
    ensures
        same_result_block(copy, *block),
{
    match block {
        ToolResultBlock::Text(block) => ToolResultBlock::Text(copy_text_block(block)),
        ToolResultBlock::Image(image) => ToolResultBlock::Image(copy_image(image)),
    }
}

// ---------------------------------------------------------------------------
// Messages
// ---------------------------------------------------------------------------

/// Whether two lists of user blocks hold the same.
pub open spec fn same_user_blocks(left: Seq<UserBlock>, right: Seq<UserBlock>) -> bool {
    &&& left.len() == right.len()
    &&& forall|i: int| 0 <= i < right.len() ==> same_user_block(#[trigger] left[i], right[i])
}

/// Whether two lists of assistant blocks hold the same.
pub open spec fn same_assistant_blocks(left: Seq<AssistantBlock>, right: Seq<AssistantBlock>) -> bool {
    &&& left.len() == right.len()
    &&& forall|i: int| 0 <= i < right.len() ==> same_assistant_block(#[trigger] left[i], right[i])
}

/// Whether two lists of tool result blocks hold the same.
pub open spec fn same_result_blocks(left: Seq<ToolResultBlock>, right: Seq<ToolResultBlock>) -> bool {
    &&& left.len() == right.len()
    &&& forall|i: int| 0 <= i < right.len() ==> same_result_block(#[trigger] left[i], right[i])
}

/// Whether two messages hold the same.
pub open spec fn same_message(left: Message, right: Message) -> bool {
    match (left, right) {
        (Message::User(left), Message::User(right)) => same_user_blocks(left.blocks@, right.blocks@),
        (Message::Assistant(left), Message::Assistant(right)) => same_assistant_blocks(
            left.blocks@,
            right.blocks@,
        ),
        (Message::ToolResult(left), Message::ToolResult(right)) => {
            &&& left.call_id == right.call_id
            &&& same_result_blocks(left.blocks@, right.blocks@)
            &&& left.is_error == right.is_error
        },
        _ => false,
    }
}

/// Whether two lists of messages hold the same.
pub open spec fn same_messages(left: Seq<Message>, right: Seq<Message>) -> bool {
    &&& left.len() == right.len()
    &&& forall|i: int| 0 <= i < right.len() ==> same_message(#[trigger] left[i], right[i])
}

/// Whether two tool definitions hold the same.
pub open spec fn same_tool(left: ToolDefinition, right: ToolDefinition) -> bool {
    &&& left.name == right.name
    &&& left.description == right.description
    &&& left.input_schema@ == right.input_schema@
}

/// Whether two lists of tool definitions hold the same.
pub open spec fn same_tools(left: Seq<ToolDefinition>, right: Seq<ToolDefinition>) -> bool {
    &&& left.len() == right.len()
    &&& forall|i: int| 0 <= i < right.len() ==> same_tool(#[trigger] left[i], right[i])
}

/// A copy of a list of user blocks.
pub fn copy_user_blocks(values: &Vec<UserBlock>) -> (copy: Vec<UserBlock>)
    ensures
        same_user_blocks(copy@, values@),
{
    let mut copy: Vec<UserBlock> = Vec::new();
    let mut i: usize = 0;
    while i < values.len()
        invariant
            i <= values@.len(),
            copy@.len() == i,
            forall|j: int| 0 <= j < i ==> same_user_block(#[trigger] copy@[j], values@[j]),
        decreases values.len() - i,
    {
        copy.push(copy_user_block(&values[i]));
        i += 1;
    }
    copy
}

/// A copy of a list of assistant blocks.
pub fn copy_assistant_blocks(values: &Vec<AssistantBlock>) -> (copy: Vec<AssistantBlock>)
    ensures
        same_assistant_blocks(copy@, values@),
{
    let mut copy: Vec<AssistantBlock> = Vec::new();
    let mut i: usize = 0;
    while i < values.len()
        invariant
            i <= values@.len(),
            copy@.len() == i,
            forall|j: int| 0 <= j < i ==> same_assistant_block(#[trigger] copy@[j], values@[j]),
        decreases values.len() - i,
    {
        copy.push(copy_assistant_block(&values[i]));
        i += 1;
    }
    copy
}

/// A copy of a list of tool result blocks.
pub fn copy_result_blocks(values: &Vec<ToolResultBlock>) -> (copy: Vec<ToolResultBlock>)
    ensures
        same_result_blocks(copy@, values@),
{
    let mut copy: Vec<ToolResultBlock> = Vec::new();
    let mut i: usize = 0;
    while i < values.len()
        invariant
            i <= values@.len(),
            copy@.len() == i,
            forall|j: int| 0 <= j < i ==> same_result_block(#[trigger] copy@[j], values@[j]),
        decreases values.len() - i,
    {
        copy.push(copy_result_block(&values[i]));
        i += 1;
    }
    copy
}

/// A copy of a message.
pub fn copy_message(message: &Message) -> (copy: Message)
    ensures
        same_message(copy, *message),
{
    match message {
        Message::User(message) => Message::User(
            UserMessage { blocks: copy_user_blocks(&message.blocks) },
        ),
        Message::Assistant(message) => Message::Assistant(
            AssistantMessage { blocks: copy_assistant_blocks(&message.blocks) },
        ),
        Message::ToolResult(message) => Message::ToolResult(
            ToolResultMessage {
                call_id: message.call_id.clone(),
                blocks: copy_result_blocks(&message.blocks),
                is_error: message.is_error,
            },
        ),
    }
}

/// A copy of a list of messages.
pub fn copy_messages(values: &Vec<Message>) -> (copy: Vec<Message>)
    ensures
        same_messages(copy@, values@),
{
    let mut copy: Vec<Message> = Vec::new();
    let mut i: usize = 0;
    while i < values.len()
        invariant
            i <= values@.len(),
            copy@.len() == i,
            forall|j: int| 0 <= j < i ==> same_message(#[trigger] copy@[j], values@[j]),
        decreases values.len() - i,
    {
        copy.push(copy_message(&values[i]));
        i += 1;
    }
    copy
}

/// A copy of a tool definition.
pub fn copy_tool(tool: &ToolDefinition) -> (copy: ToolDefinition)
    ensures
        same_tool(copy, *tool),
{
    ToolDefinition {
        name: tool.name.clone(),
        description: tool.description.clone(),
        input_schema: copy_document(&tool.input_schema),
    }
}

/// A copy of a list of tool definitions.
pub fn copy_tools(values: &Vec<ToolDefinition>) -> (copy: Vec<ToolDefinition>)
    ensures
        same_tools(copy@, values@),
{
    let mut copy: Vec<ToolDefinition> = Vec::new();
    let mut i: usize = 0;
    while i < values.len()
        invariant
            i <= values@.len(),
            copy@.len() == i,
            forall|j: int| 0 <= j < i ==> same_tool(#[trigger] copy@[j], values@[j]),
        decreases values.len() - i,
    {
        copy.push(copy_tool(&values[i]));
        i += 1;
    }
    copy
}

// ---------------------------------------------------------------------------
// Requests and catalog entries
// ---------------------------------------------------------------------------

/// Whether two requests hold the same.
pub open spec fn same_request(left: PrepareInput, right: PrepareInput) -> bool {
    &&& left.provider_id == right.provider_id
    &&& left.route_id == right.route_id
    &&& left.catalog_digest == right.catalog_digest
    &&& left.selection == right.selection
    &&& left.current_model == right.current_model
    &&& left.operation_id == right.operation_id
    &&& left.request_id == right.request_id
    &&& left.turn_id == right.turn_id
    &&& left.system@ == right.system@
    &&& same_messages(left.messages@, right.messages@)
    &&& same_tools(left.tools@, right.tools@)
    &&& left.tool_choice == right.tool_choice
    &&& left.reasoning == right.reasoning
    &&& left.cache_retention == right.cache_retention
    &&& left.max_output_tokens == right.max_output_tokens
}

/// Whether two catalog entries hold the same.
pub open spec fn same_entry(left: CatalogEntry, right: CatalogEntry) -> bool {
    &&& left.selection == right.selection
    &&& left.current_model == right.current_model
    &&& left.display_name == right.display_name
    &&& left.input_modalities@ == right.input_modalities@
    &&& left.tool_capability == right.tool_capability
    &&& left.reasoning_capability == right.reasoning_capability
    &&& left.context_tokens == right.context_tokens
    &&& left.max_output_tokens == right.max_output_tokens
    &&& left.completion_operation == right.completion_operation
}

/// A copy of a tool choice.
pub fn copy_tool_choice(choice: &ToolChoice) -> (copy: ToolChoice)
    ensures
        copy == *choice,
{
    match choice {
        ToolChoice::Unset => ToolChoice::Unset,
        ToolChoice::Auto => ToolChoice::Auto,
        ToolChoice::Forbidden => ToolChoice::Forbidden,
        ToolChoice::Specific(choice) => ToolChoice::Specific(
            SpecificToolChoice { name: choice.name.clone() },
        ),
    }
}

/// A copy of a request.
pub fn copy_request(request: &PrepareInput) -> (copy: PrepareInput)
    ensures
        same_request(copy, *request),
{
    PrepareInput {
        provider_id: copy_id(&request.provider_id),
        route_id: copy_id(&request.route_id),
        catalog_digest: request.catalog_digest.clone(),
        selection: copy_selection(&request.selection),
        current_model: copy_id(&request.current_model),
        operation_id: copy_id(&request.operation_id),
        request_id: copy_id(&request.request_id),
        turn_id: copy_id(&request.turn_id),
        system: copy_texts(&request.system),
        messages: copy_messages(&request.messages),
        tools: copy_tools(&request.tools),
        tool_choice: copy_tool_choice(&request.tool_choice),
        reasoning: request.reasoning,
        cache_retention: request.cache_retention,
        max_output_tokens: request.max_output_tokens,
    }
}

/// A copy of a catalog entry.
pub fn copy_entry(entry: &CatalogEntry) -> (copy: CatalogEntry)
    ensures
        same_entry(copy, *entry),
{
    let display_name = match &entry.display_name {
        Some(name) => Some(name.clone()),
        None => None,
    };
    CatalogEntry {
        selection: copy_selection(&entry.selection),
        current_model: copy_id(&entry.current_model),
        display_name,
        input_modalities: copy_modalities(entry.input_modalities.as_slice()),
        tool_capability: entry.tool_capability,
        reasoning_capability: entry.reasoning_capability,
        context_tokens: entry.context_tokens,
        max_output_tokens: entry.max_output_tokens,
        completion_operation: copy_id(&entry.completion_operation),
    }
}

} // verus!
