//! Request policy, source debt, and per-wire projection rules.

use vstd::prelude::*;

use crate::provider_api::{
    AssistantBlock, CatalogEntry, InputModality, Message, PrepareInput,
    Reasoning, ToolChoice, ToolResultBlock, UserBlock,
};
use crate::provider_validation::adapter::debts::{Debt, DebtSet};
use crate::provider_validation::adapter::types::{
    demand, AdapterValidationError, AdapterValidationResult, AdapterWireId,
    ValidatedCatalogEntryView,
};
use crate::provider_validation::catalog::{
    entries_verdict, entry_selections, is_supported, same_selection, selections_agree, supported,
};
use crate::provider_validation::copies::{copy_id, copy_modalities, copy_selection};
use crate::provider_validation::prepare::{
    has_image_modality, prepare_verdict, MatchedText, SelectedCatalogView,
};
use crate::provider_validation::ValidationResult;
use crate::text::same_text;

verus! {

// ---------------------------------------------------------------------------
// Blocks
// ---------------------------------------------------------------------------

/// What a block of a message holds.
#[derive(Debug, Clone, Copy, PartialEq, Eq, Structural)]
pub enum BlockShape {
    Text,
    Image,
    Reasoning,
    ToolCall,
}

/// The number of blocks of a message.
pub open spec fn block_total(message: Message) -> nat {
    match message {
        Message::User(message) => message.blocks@.len(),
        Message::Assistant(message) => message.blocks@.len(),
        Message::ToolResult(message) => message.blocks@.len(),
    }
}

/// What block `b` of a message holds.
pub open spec fn shape_of(message: Message, b: int) -> BlockShape {
    match message {
        Message::User(message) => match message.blocks@[b] {
            UserBlock::Text(_) => BlockShape::Text,
            UserBlock::Image(_) => BlockShape::Image,
        },
        Message::Assistant(message) => match message.blocks@[b] {
            AssistantBlock::Text(_) => BlockShape::Text,
            AssistantBlock::Reasoning(_) => BlockShape::Reasoning,
            AssistantBlock::ToolCall(_) => BlockShape::ToolCall,
        },
        Message::ToolResult(message) => match message.blocks@[b] {
            ToolResultBlock::Text(_) => BlockShape::Text,
            ToolResultBlock::Image(_) => BlockShape::Image,
        },
    }
}

/// Whether block `b` of a message is reasoning with a proof.
pub open spec fn is_proven(message: Message, b: int) -> bool {
    message matches Message::Assistant(message)
        && (message.blocks@[b] matches AssistantBlock::Reasoning(block) && block.proof is Some)
}

/// The number of blocks of a message.
pub fn block_count(message: &Message) -> (count: usize)
    ensures
        count == block_total(*message),
{
    match message {
        Message::User(message) => message.blocks.len(),
        Message::Assistant(message) => message.blocks.len(),
        Message::ToolResult(message) => message.blocks.len(),
    }
}

/// What block `b` of a message holds.
pub fn block_shape(message: &Message, b: usize) -> (shape: BlockShape)
    requires
        b < block_total(*message),
    ensures
        shape == shape_of(*message, b as int),
{
    match message {
        Message::User(message) => match &message.blocks[b] {
            UserBlock::Text(_) => BlockShape::Text,
            UserBlock::Image(_) => BlockShape::Image,
        },
        Message::Assistant(message) => match &message.blocks[b] {
            AssistantBlock::Text(_) => BlockShape::Text,
            AssistantBlock::Reasoning(_) => BlockShape::Reasoning,
            AssistantBlock::ToolCall(_) => BlockShape::ToolCall,
        },
        Message::ToolResult(message) => match &message.blocks[b] {
            ToolResultBlock::Text(_) => BlockShape::Text,
            ToolResultBlock::Image(_) => BlockShape::Image,
        },
    }
}

/// Whether block `b` of a message is reasoning with a proof.
pub fn block_proven(message: &Message, b: usize) -> (found: bool)
    requires
        b < block_total(*message),
    ensures
        found == is_proven(*message, b as int),
{
    match message {
        Message::Assistant(message) => match &message.blocks[b] {
            AssistantBlock::Reasoning(block) => block.proof.is_some(),
            _ => false,
        },
        _ => false,
    }
}

/// Whether one of the first `n` blocks of a message has a shape.
pub open spec fn has_shape(message: Message, n: int, shape: BlockShape) -> bool {
    exists|b: int| 0 <= b < n && #[trigger] shape_of(message, b) == shape
}

/// Whether one of the first `n` messages has a block of a shape.
pub open spec fn carries(messages: Seq<Message>, n: int, shape: BlockShape) -> bool {
    exists|m: int|
        0 <= m < n && has_shape(#[trigger] messages[m], block_total(messages[m]) as int, shape)
}

/// Whether one of the first `n` blocks of a message is reasoning with a proof.
pub open spec fn has_proof(message: Message, n: int) -> bool {
    exists|b: int| 0 <= b < n && #[trigger] is_proven(message, b)
}

/// Whether one of the first `n` messages has reasoning with a proof.
pub open spec fn carries_proof(messages: Seq<Message>, n: int) -> bool {
    exists|m: int| 0 <= m < n && has_proof(#[trigger] messages[m], block_total(messages[m]) as int)
}

/// Whether a message has a block of a shape.
pub fn message_has(message: &Message, shape: BlockShape) -> (found: bool)
    ensures
        found == has_shape(*message, block_total(*message) as int, shape),
{
    let count: usize = block_count(message);
    let mut b: usize = 0;
    while b < count
        invariant
            b <= count == block_total(*message),
            forall|j: int| 0 <= j < b ==> #[trigger] shape_of(*message, j) != shape,
        decreases count - b,
    {
        if block_shape(message, b) == shape {
            assert(shape_of(*message, b as int) == shape);
            return true;
        }
        b += 1;
    }
    false
}

/// Whether a message has reasoning with a proof.
pub fn message_proven(message: &Message) -> (found: bool)
    ensures
        found == has_proof(*message, block_total(*message) as int),
{
    let count: usize = block_count(message);
    let mut b: usize = 0;
    while b < count
        invariant
            b <= count == block_total(*message),
            forall|j: int| 0 <= j < b ==> !#[trigger] is_proven(*message, j),
        decreases count - b,
    {
        if block_proven(message, b) {
            assert(is_proven(*message, b as int));
            return true;
        }
        b += 1;
    }
    false
}

/// Whether one of the messages has a block of a shape.
pub fn any_block(messages: &Vec<Message>, shape: BlockShape) -> (found: bool)
    ensures
        found == carries(messages@, messages@.len() as int, shape),
{
    let mut m: usize = 0;
    while m < messages.len()
        invariant
            m <= messages@.len(),
            forall|j: int|
                0 <= j < m ==> !has_shape(
                    #[trigger] messages@[j],
                    block_total(messages@[j]) as int,
                    shape,
                ),
        decreases messages.len() - m,
    {
        if message_has(&messages[m], shape) {
            assert(has_shape(messages@[m as int], block_total(messages@[m as int]) as int, shape));
            return true;
        }
        m += 1;
    }
    false
}

/// Whether one of the messages has reasoning with a proof.
pub fn any_proof(messages: &Vec<Message>) -> (found: bool)
    ensures
        found == carries_proof(messages@, messages@.len() as int),
{
    let mut m: usize = 0;
    while m < messages.len()
        invariant
            m <= messages@.len(),
            forall|j: int|
                0 <= j < m ==> !has_proof(
                    #[trigger] messages@[j],
                    block_total(messages@[j]) as int,
                ),
        decreases messages.len() - m,
    {
        if message_proven(&messages[m]) {
            assert(has_proof(messages@[m as int], block_total(messages@[m as int]) as int));
            return true;
        }
        m += 1;
    }
    false
}

// ---------------------------------------------------------------------------
// Identity and capabilities
// ---------------------------------------------------------------------------

/// Whether a request names the selected catalog entry.
pub open spec fn names_selected(
    selected: ValidatedCatalogEntryView<'_>,
    original: PrepareInput,
) -> bool {
    &&& original.provider_id.text@ == selected.provider_id.text@
    &&& original.route_id.text@ == selected.route_id.text@
    &&& original.catalog_digest@ == selected.catalog_digest@
    &&& selections_agree(original.selection, *selected.selection)
    &&& original.current_model.text@ == selected.current_model.text@
    &&& original.operation_id.text@ == selected.completion_operation.text@
}

/// Checks that a request names the selected catalog entry.
pub fn validate_identity(selected: ValidatedCatalogEntryView<'_>, original: &PrepareInput) -> (result:
    AdapterValidationResult<()>)
    ensures
        result == demand(
            names_selected(selected, *original),
            AdapterValidationError::SourceMismatch,
        ),
{
    if !same_text(original.provider_id.text.as_str(), selected.provider_id.text.as_str())
        || !same_text(original.route_id.text.as_str(), selected.route_id.text.as_str())
        || !same_text(original.catalog_digest.as_str(), selected.catalog_digest)
        || !same_selection(&original.selection, selected.selection) || !same_text(
        original.current_model.text.as_str(),
        selected.current_model.text.as_str(),
    ) || !same_text(
        original.operation_id.text.as_str(),
        selected.completion_operation.text.as_str(),
    ) {
        return Err(AdapterValidationError::SourceMismatch);
    }
    Ok(())
}

/// Whether the selected model can do what a request asks of it.
pub open spec fn is_capable(
    selected: ValidatedCatalogEntryView<'_>,
    original: PrepareInput,
) -> bool {
    let messages = original.messages@;
    let count = messages.len() as int;
    let tools = *selected.tool_capability;
    let reasoning = *selected.reasoning_capability;
    &&& (original.tools@.len() > 0 || carries(messages, count, BlockShape::ToolCall)) ==> supported(
        tools.tools,
    )
    &&& carries(messages, count, BlockShape::Image) ==> selected.input_modalities@.contains(
        InputModality::Image,
    )
    &&& (carries(messages, count, BlockShape::Reasoning) || original.reasoning !is Unset)
        ==> supported(reasoning.reasoning)
    &&& carries_proof(messages, count) ==> supported(reasoning.proof)
    &&& original.reasoning matches Reasoning::Enabled(enabled) ==> {
        &&& enabled.effort is Some ==> supported(reasoning.effort)
        &&& enabled.budget_tokens is Some ==> supported(reasoning.budget)
    }
    &&& match original.tool_choice {
        ToolChoice::Unset => true,
        ToolChoice::Auto => supported(tools.auto_choice),
        ToolChoice::Forbidden => supported(tools.none_choice),
        ToolChoice::Specific(_) => supported(tools.specific_choice),
    }
    &&& original.max_output_tokens matches Some(value) ==> value > 0
        && (selected.max_output_tokens matches Some(limit) && value <= limit)
}

/// Checks that the selected model can do what a request asks of it.
pub fn validate_capabilities(
    selected: ValidatedCatalogEntryView<'_>,
    original: &PrepareInput,
) -> (result: AdapterValidationResult<()>)
    ensures
        result == demand(
            is_capable(selected, *original),
            AdapterValidationError::CapabilityMismatch,
        ),
{
    let messages = &original.messages;
    let has_calls = any_block(messages, BlockShape::ToolCall);
    let has_images = any_block(messages, BlockShape::Image);
    let has_reasoning_blocks = any_block(messages, BlockShape::Reasoning);
    let has_proofs = any_proof(messages);
    if (original.tools.len() > 0 || has_calls) && !is_supported(&selected.tool_capability.tools) {
        return Err(AdapterValidationError::CapabilityMismatch);
    }
    if has_images && !has_image_modality(selected.input_modalities) {
        return Err(AdapterValidationError::CapabilityMismatch);
    }
    let asks_for_reasoning = match original.reasoning {
        Reasoning::Unset => false,
        _ => true,
    };
    if (has_reasoning_blocks || asks_for_reasoning) && !is_supported(
        &selected.reasoning_capability.reasoning,
    ) {
        return Err(AdapterValidationError::CapabilityMismatch);
    }
    if has_proofs && !is_supported(&selected.reasoning_capability.proof) {
        return Err(AdapterValidationError::CapabilityMismatch);
    }
    if let Reasoning::Enabled(enabled) = &original.reasoning {
        if enabled.effort.is_some() && !is_supported(&selected.reasoning_capability.effort) {
            return Err(AdapterValidationError::CapabilityMismatch);
        }
        if enabled.budget_tokens.is_some() && !is_supported(&selected.reasoning_capability.budget) {
            return Err(AdapterValidationError::CapabilityMismatch);
        }
    }
    let choice_is_supported = match &original.tool_choice {
        ToolChoice::Unset => true,
        ToolChoice::Auto => is_supported(&selected.tool_capability.auto_choice),
        ToolChoice::Forbidden => is_supported(&selected.tool_capability.none_choice),
        ToolChoice::Specific(_) => is_supported(&selected.tool_capability.specific_choice),
    };
    if !choice_is_supported {
        return Err(AdapterValidationError::CapabilityMismatch);
    }
    if let Some(value) = original.max_output_tokens {
        let fits = match selected.max_output_tokens {
            Some(limit) => value <= limit,
            None => false,
        };
        if value == 0 || !fits {
            return Err(AdapterValidationError::CapabilityMismatch);
        }
    }
    Ok(())
}

// ---------------------------------------------------------------------------
// The selected catalog entry
// ---------------------------------------------------------------------------

/// Whether a catalog entry holds what is known of the selected one, and no
/// display name.
pub open spec fn describes(entry: CatalogEntry, selected: ValidatedCatalogEntryView<'_>) -> bool {
    &&& entry.selection == *selected.selection
    &&& entry.current_model == *selected.current_model
    &&& entry.display_name is None
    &&& entry.input_modalities@ == selected.input_modalities@
    &&& entry.tool_capability == *selected.tool_capability
    &&& entry.reasoning_capability == *selected.reasoning_capability
    &&& entry.context_tokens == selected.context_tokens
    &&& entry.max_output_tokens == selected.max_output_tokens
    &&& entry.completion_operation == *selected.completion_operation
}

/// The view of a request's catalog entry.
pub open spec fn catalog_view<'a>(
    selected: ValidatedCatalogEntryView<'a>,
    entry: &'a CatalogEntry,
) -> SelectedCatalogView<'a> {
    SelectedCatalogView {
        provider_id: selected.provider_id,
        route_id: selected.route_id,
        catalog_digest: selected.catalog_digest,
        entry,
    }
}

/// The verdict on a request for the selected catalog entry.
pub open spec fn request_verdict(
    selected: ValidatedCatalogEntryView<'_>,
    original: PrepareInput,
) -> ValidationResult<(u64, Seq<MatchedText>)> {
    let entry = choose|entry: CatalogEntry| #[trigger] describes(entry, selected);
    prepare_verdict(original, catalog_view(selected, &entry))
}

/// The verdict on a request is the same for every catalog entry that holds
/// what is known of the selected one.
pub proof fn lemma_request_verdict(
    selected: ValidatedCatalogEntryView<'_>,
    original: PrepareInput,
    entry: CatalogEntry,
)
    requires
        describes(entry, selected),
    ensures
        request_verdict(selected, original) == prepare_verdict(
            original,
            catalog_view(selected, &entry),
        ),
{
    let chosen = choose|entry: CatalogEntry| #[trigger] describes(entry, selected);
    let left = seq![entry];
    let right = seq![chosen];
    assert(entry_selections(left) =~= entry_selections(right));
    reveal_with_fuel(crate::provider_validation::catalog::entries_verdict_from, 2);
    assert(entries_verdict(left) == entries_verdict(right));
}

/// The catalog entry that holds what is known of the selected one.
pub fn catalog_entry(selected: ValidatedCatalogEntryView<'_>) -> (entry: CatalogEntry)
    ensures
        describes(entry, selected),
{
    CatalogEntry {
        selection: copy_selection(selected.selection),
        current_model: copy_id(selected.current_model),
        display_name: None,
        input_modalities: copy_modalities(selected.input_modalities),
        tool_capability: *selected.tool_capability,
        reasoning_capability: *selected.reasoning_capability,
        context_tokens: selected.context_tokens,
        max_output_tokens: selected.max_output_tokens,
        completion_operation: copy_id(selected.completion_operation),
    }
}

// ---------------------------------------------------------------------------
// Projections of a wire protocol
// ---------------------------------------------------------------------------

/// How a protocol carries the status of a tool result.
#[derive(Debug, Clone, Copy, PartialEq, Eq, Structural)]
pub enum StatusProjection {
    Boolean,
    Absent,
    Scalar,
    Switch,
    Composite,
}

/// How a protocol carries the status of a tool result.
pub open spec fn projection_of(wire: AdapterWireId) -> StatusProjection {
    match wire {
        AdapterWireId::AnthropicMessages => StatusProjection::Boolean,
        AdapterWireId::PiMessages => StatusProjection::Boolean,
        AdapterWireId::BedrockConverseStream => StatusProjection::Scalar,
        AdapterWireId::GoogleGenerativeAi => StatusProjection::Switch,
        AdapterWireId::GoogleVertex => StatusProjection::Switch,
        AdapterWireId::MistralConversations => StatusProjection::Composite,
        AdapterWireId::OpenAiCompletions => StatusProjection::Absent,
        AdapterWireId::OpenAiResponses => StatusProjection::Absent,
        AdapterWireId::OpenAiCodexResponses => StatusProjection::Absent,
        AdapterWireId::AzureOpenAiResponses => StatusProjection::Absent,
    }
}

/// How a protocol carries the status of a tool result.
pub fn status_projection(wire: AdapterWireId) -> (projection: StatusProjection)
    ensures
        projection == projection_of(wire),
{
    match wire {
        AdapterWireId::AnthropicMessages | AdapterWireId::PiMessages => StatusProjection::Boolean,
        AdapterWireId::BedrockConverseStream => StatusProjection::Scalar,
        AdapterWireId::GoogleGenerativeAi | AdapterWireId::GoogleVertex => StatusProjection::Switch,
        AdapterWireId::MistralConversations => StatusProjection::Composite,
        AdapterWireId::OpenAiCompletions
        | AdapterWireId::OpenAiResponses
        | AdapterWireId::OpenAiCodexResponses
        | AdapterWireId::AzureOpenAiResponses => StatusProjection::Absent,
    }
}

/// Whether a protocol carries the name of the tool with its result.
pub open spec fn carries_result_name(wire: AdapterWireId) -> bool {
    wire == AdapterWireId::PiMessages || wire == AdapterWireId::GoogleGenerativeAi || wire
        == AdapterWireId::GoogleVertex || wire == AdapterWireId::MistralConversations
}

/// Whether a protocol carries the name of the tool with its result.
pub fn requires_result_name(wire: AdapterWireId) -> (required: bool)
    ensures
        required == carries_result_name(wire),
{
    wire == AdapterWireId::PiMessages || wire == AdapterWireId::GoogleGenerativeAi || wire
        == AdapterWireId::GoogleVertex || wire == AdapterWireId::MistralConversations
}

// ---------------------------------------------------------------------------
// What a body owes to a request
// ---------------------------------------------------------------------------

/// Whether a body owes a part to one of the first `blocks` blocks of message
/// `m`.
pub open spec fn owes_to_block(message: Message, m: int, blocks: int, debt: Debt) -> bool {
    match debt {
        Debt::BlockVariant(at, b) => at == m && b < blocks,
        Debt::BlockText(at, b) => at == m && b < blocks && (shape_of(message, b as int)
            == BlockShape::Text || shape_of(message, b as int) == BlockShape::Reasoning),
        Debt::BlockBytes(at, b) => at == m && b < blocks && shape_of(message, b as int)
            == BlockShape::Image,
        Debt::BlockMedia(at, b) => at == m && b < blocks && shape_of(message, b as int)
            == BlockShape::Image,
        Debt::BlockReasoningKind(at, b) => at == m && b < blocks && shape_of(message, b as int)
            == BlockShape::Reasoning,
        Debt::BlockProof(at, b) => at == m && b < blocks && shape_of(message, b as int)
            == BlockShape::Reasoning,
        Debt::BlockCallId(at, b) => at == m && b < blocks && shape_of(message, b as int)
            == BlockShape::ToolCall,
        Debt::BlockCallName(at, b) => at == m && b < blocks && shape_of(message, b as int)
            == BlockShape::ToolCall,
        Debt::BlockArguments(at, b) => at == m && b < blocks && shape_of(message, b as int)
            == BlockShape::ToolCall,
        _ => false,
    }
}

/// Whether a body owes a part to message `m` as a whole.
pub open spec fn owes_to_message(
    wire: AdapterWireId,
    message: Message,
    m: int,
    debt: Debt,
) -> bool {
    match debt {
        Debt::MessageVariant(at) => at == m,
        Debt::MessageBlocks(at) => at == m,
        Debt::MessageCallId(at) => at == m && message is ToolResult,
        Debt::MessageStatus(at) => at == m && message is ToolResult && projection_of(wire)
            != StatusProjection::Absent,
        Debt::MessageResultName(at) => at == m && message is ToolResult && carries_result_name(
            wire,
        ),
        _ => false,
    }
}

/// The message that a part belongs to.
pub open spec fn message_of(debt: Debt) -> Option<int> {
    match debt {
        Debt::MessageVariant(m) => Some(m as int),
        Debt::MessageBlocks(m) => Some(m as int),
        Debt::MessageCallId(m) => Some(m as int),
        Debt::MessageStatus(m) => Some(m as int),
        Debt::MessageResultName(m) => Some(m as int),
        Debt::BlockVariant(m, _) => Some(m as int),
        Debt::BlockText(m, _) => Some(m as int),
        Debt::BlockBytes(m, _) => Some(m as int),
        Debt::BlockMedia(m, _) => Some(m as int),
        Debt::BlockReasoningKind(m, _) => Some(m as int),
        Debt::BlockProof(m, _) => Some(m as int),
        Debt::BlockCallId(m, _) => Some(m as int),
        Debt::BlockCallName(m, _) => Some(m as int),
        Debt::BlockArguments(m, _) => Some(m as int),
        _ => None,
    }
}

/// Whether a body owes a part to the first `n` messages.
pub open spec fn owes_to_messages(
    wire: AdapterWireId,
    messages: Seq<Message>,
    n: int,
    debt: Debt,
) -> bool {
    message_of(debt) matches Some(m) && 0 <= m < n && (owes_to_message(wire, messages[m], m, debt)
        || owes_to_block(messages[m], m, block_total(messages[m]) as int, debt))
}

/// Whether a body owes a part to the rest of a request.
pub open spec fn owes_to_frame(systems: int, tools: int, debt: Debt) -> bool {
    match debt {
        Debt::SelectionVariant => true,
        Debt::SelectionPayload => true,
        Debt::SystemCollection => true,
        Debt::MessagesCollection => true,
        Debt::ToolsCollection => true,
        Debt::ToolChoiceVariant => true,
        Debt::ReasoningVariant => true,
        Debt::CacheVariant => true,
        Debt::MaxOutput => true,
        Debt::System(i) => i < systems,
        Debt::ToolName(i) => i < tools,
        Debt::ToolDescription(i) => i < tools,
        Debt::ToolSchema(i) => i < tools,
        _ => false,
    }
}

/// Whether a body owes a part to the controls of a request.
pub open spec fn owes_to_controls(original: PrepareInput, debt: Debt) -> bool {
    match debt {
        Debt::ToolChoiceName => original.tool_choice is Specific,
        Debt::ReasoningEffort => original.reasoning is Enabled,
        Debt::ReasoningBudget => original.reasoning is Enabled,
        _ => false,
    }
}

/// Whether a body owes a part to a request.
pub open spec fn owes(wire: AdapterWireId, original: PrepareInput, debt: Debt) -> bool {
    ||| owes_to_frame(original.system@.len() as int, original.tools@.len() as int, debt)
    ||| owes_to_messages(wire, original.messages@, original.messages@.len() as int, debt)
    ||| owes_to_controls(original, debt)
}

/// The parts that a body owes to a request.
pub open spec fn owed(wire: AdapterWireId, original: PrepareInput) -> Set<Debt> {
    Set::new(|debt: Debt| owes(wire, original, debt))
}

/// Adds the parts that a body owes to block `b` of message `m`.
pub fn add_block_debts(message: &Message, m: usize, b: usize, debts: &mut DebtSet)
    requires
        b < block_total(*message),
        old(debts).well_formed(),
    ensures
        final(debts).well_formed(),
        forall|debt: Debt| #[trigger]
            final(debts)@.contains(debt) == (old(debts)@.contains(debt) || (owes_to_block(
                *message,
                m as int,
                b + 1,
                debt,
            ) && !owes_to_block(*message, m as int, b as int, debt))),
{
    let _ = debts.insert(Debt::BlockVariant(m, b));
    match block_shape(message, b) {
        BlockShape::Text => {
            let _ = debts.insert(Debt::BlockText(m, b));
        },
        BlockShape::Image => {
            let _ = debts.insert(Debt::BlockBytes(m, b));
            let _ = debts.insert(Debt::BlockMedia(m, b));
        },
        BlockShape::Reasoning => {
            let _ = debts.insert(Debt::BlockText(m, b));
            let _ = debts.insert(Debt::BlockReasoningKind(m, b));
            let _ = debts.insert(Debt::BlockProof(m, b));
        },
        BlockShape::ToolCall => {
            let _ = debts.insert(Debt::BlockCallId(m, b));
            let _ = debts.insert(Debt::BlockCallName(m, b));
            let _ = debts.insert(Debt::BlockArguments(m, b));
        },
    }
}

/// Adds the parts that a body owes to message `m`.
#[verifier::loop_isolation(false)]
pub fn add_message_debts(wire: AdapterWireId, message: &Message, m: usize, debts: &mut DebtSet)
    requires
        old(debts).well_formed(),
    ensures
        final(debts).well_formed(),
        forall|debt: Debt| #[trigger]
            final(debts)@.contains(debt) == (old(debts)@.contains(debt) || owes_to_message(
                wire,
                *message,
                m as int,
                debt,
            ) || owes_to_block(*message, m as int, block_total(*message) as int, debt)),
{
    let ghost start = debts@;
    let _ = debts.insert(Debt::MessageVariant(m));
    let _ = debts.insert(Debt::MessageBlocks(m));
    if let Message::ToolResult(_) = message {
        let _ = debts.insert(Debt::MessageCallId(m));
        if status_projection(wire) != StatusProjection::Absent {
            let _ = debts.insert(Debt::MessageStatus(m));
        }
        if requires_result_name(wire) {
            let _ = debts.insert(Debt::MessageResultName(m));
        }
    }
    let count: usize = block_count(message);
    let mut b: usize = 0;
    while b < count
        invariant
            b <= count,
            debts.well_formed(),
            forall|debt: Debt| #[trigger]
                debts@.contains(debt) == (start.contains(debt) || owes_to_message(
                    wire,
                    *message,
                    m as int,
                    debt,
                ) || owes_to_block(*message, m as int, b as int, debt)),
        decreases count - b,
    {
        add_block_debts(message, m, b, debts);
        b += 1;
    }
}

/// The parts that a body owes to a request.
#[verifier::loop_isolation(false)]
pub fn expected_debts(wire: AdapterWireId, original: &PrepareInput) -> (debts: DebtSet)
    ensures
        debts.well_formed(),
        debts@ == owed(wire, *original),
{
    let mut debts = DebtSet::new();
    let _ = debts.insert(Debt::SelectionVariant);
    let _ = debts.insert(Debt::SelectionPayload);
    let _ = debts.insert(Debt::SystemCollection);
    let _ = debts.insert(Debt::MessagesCollection);
    let _ = debts.insert(Debt::ToolsCollection);
    let _ = debts.insert(Debt::ToolChoiceVariant);
    let _ = debts.insert(Debt::ReasoningVariant);
    let _ = debts.insert(Debt::CacheVariant);
    let _ = debts.insert(Debt::MaxOutput);
    let systems: usize = original.system.len();
    let mut i: usize = 0;
    while i < systems
        invariant
            i <= systems,
            debts.well_formed(),
            forall|debt: Debt| #[trigger]
                debts@.contains(debt) == owes_to_frame(i as int, 0, debt),
        decreases systems - i,
    {
        let _ = debts.insert(Debt::System(i));
        i += 1;
    }
    let tools: usize = original.tools.len();
    let mut t: usize = 0;
    while t < tools
        invariant
            t <= tools,
            debts.well_formed(),
            forall|debt: Debt| #[trigger]
                debts@.contains(debt) == owes_to_frame(systems as int, t as int, debt),
        decreases tools - t,
    {
        let _ = debts.insert(Debt::ToolName(t));
        let _ = debts.insert(Debt::ToolDescription(t));
        let _ = debts.insert(Debt::ToolSchema(t));
        t += 1;
    }
    let ghost frame = debts@;
    let messages: usize = original.messages.len();
    let mut m: usize = 0;
    while m < messages
        invariant
            m <= messages,
            debts.well_formed(),
            forall|debt: Debt| #[trigger]
                debts@.contains(debt) == (frame.contains(debt) || owes_to_messages(
                    wire,
                    original.messages@,
                    m as int,
                    debt,
                )),
        decreases messages - m,
    {
        let ghost before = debts@;
        add_message_debts(wire, &original.messages[m], m, &mut debts);
        assert forall|debt: Debt| #[trigger]
            debts@.contains(debt) == (frame.contains(debt) || owes_to_messages(
                wire,
                original.messages@,
                m as int + 1,
                debt,
            )) by {
            assert(before.contains(debt) == (frame.contains(debt) || owes_to_messages(
                wire,
                original.messages@,
                m as int,
                debt,
            )));
        }
        m += 1;
    }
    if let ToolChoice::Specific(_) = &original.tool_choice {
        let _ = debts.insert(Debt::ToolChoiceName);
    }
    if let Reasoning::Enabled(_) = &original.reasoning {
        let _ = debts.insert(Debt::ReasoningEffort);
        let _ = debts.insert(Debt::ReasoningBudget);
    }
    assert(debts@ =~= owed(wire, *original));
    debts
}

} // verus!
