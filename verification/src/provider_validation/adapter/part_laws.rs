//! What a body owes to a request, and what the request may ask of a model.

use vstd::prelude::*;

use crate::provider_api::{
    AssistantBlock, CapabilitySupport, InputModality, Message, ModelSelection, PrepareInput,
    Reasoning, ToolChoice,
};
use crate::provider_validation::adapter::debts::Debt;
use crate::provider_validation::adapter::evaluate::{
    empty_ledger, evaluated, expected_body, Inputs, Ledger, Scope,
};
use crate::provider_validation::adapter::json::JsonTree;
use crate::provider_validation::adapter::policy::{
    block_total, carries, carries_proof, has_proof, has_shape, is_capable, is_proven,
    names_selected, owed, request_verdict, shape_of, BlockShape,
};
use crate::provider_validation::adapter::types::{
    AdapterContractV1, AdapterValidationResult, AdapterWireId, ValidatedCatalogEntryView,
};

verus! {

// ---------------------------------------------------------------------------
// What a request asks of a model
// ---------------------------------------------------------------------------

/// Whether block `b` of a message is an image.
pub open spec fn is_image(message: Message, b: int) -> bool {
    match message {
        Message::User(user) => 0 <= b < user.blocks@.len() && user.blocks@[b] is Image,
        Message::Assistant(_) => false,
        Message::ToolResult(result) => 0 <= b < result.blocks@.len() && result.blocks@[b] is Image,
    }
}

/// Whether block `b` of a message is reasoning.
pub open spec fn is_reasoning(message: Message, b: int) -> bool {
    message matches Message::Assistant(assistant) && 0 <= b < assistant.blocks@.len()
        && assistant.blocks@[b] is Reasoning
}

/// Whether block `b` of a message is reasoning with a proof.
pub open spec fn is_proof(message: Message, b: int) -> bool {
    message matches Message::Assistant(assistant) && 0 <= b < assistant.blocks@.len() && (
    assistant.blocks@[b] matches AssistantBlock::Reasoning(reasoning) && reasoning.proof is Some)
}

/// Whether block `b` of a message is a call.
pub open spec fn is_call(message: Message, b: int) -> bool {
    message matches Message::Assistant(assistant) && 0 <= b < assistant.blocks@.len()
        && assistant.blocks@[b] is ToolCall
}

/// Whether a capability is there.
pub open spec fn can(value: CapabilitySupport) -> bool {
    value == CapabilitySupport::Supported
}

/// Whether a model can do what a request asks of it.
pub open spec fn can_serve(
    selected: ValidatedCatalogEntryView<'_>,
    original: PrepareInput,
) -> bool {
    let messages = original.messages@;
    &&& original.tools@.len() > 0 ==> can(selected.tool_capability.tools)
    &&& forall|m: int, b: int|
        0 <= m < messages.len() && #[trigger] is_call(messages[m], b) ==> can(
            selected.tool_capability.tools,
        )
    &&& forall|m: int, b: int|
        0 <= m < messages.len() && #[trigger] is_image(messages[m], b)
            ==> selected.input_modalities@.contains(InputModality::Image)
    &&& forall|m: int, b: int|
        0 <= m < messages.len() && #[trigger] is_reasoning(messages[m], b) ==> can(
            selected.reasoning_capability.reasoning,
        )
    &&& forall|m: int, b: int|
        0 <= m < messages.len() && #[trigger] is_proof(messages[m], b) ==> can(
            selected.reasoning_capability.proof,
        )
    &&& match original.reasoning {
        Reasoning::Unset => true,
        Reasoning::Disabled => can(selected.reasoning_capability.reasoning),
        Reasoning::Enabled(enabled) => {
            &&& can(selected.reasoning_capability.reasoning)
            &&& enabled.effort is None || can(selected.reasoning_capability.effort)
            &&& enabled.budget_tokens is None || can(selected.reasoning_capability.budget)
        },
    }
    &&& match original.tool_choice {
        ToolChoice::Unset => true,
        ToolChoice::Auto => can(selected.tool_capability.auto_choice),
        ToolChoice::Forbidden => can(selected.tool_capability.none_choice),
        ToolChoice::Specific(_) => can(selected.tool_capability.specific_choice),
    }
    &&& match original.max_output_tokens {
        None => true,
        Some(asked) => asked >= 1 && selected.max_output_tokens is Some && asked
            <= selected.max_output_tokens->Some_0,
    }
}

proof fn lemma_image(message: Message, b: int)
    ensures
        is_image(message, b) == (0 <= b < block_total(message) && shape_of(message, b)
            == BlockShape::Image),
        is_reasoning(message, b) == (0 <= b < block_total(message) && shape_of(message, b)
            == BlockShape::Reasoning),
        is_call(message, b) == (0 <= b < block_total(message) && shape_of(message, b)
            == BlockShape::ToolCall),
        is_proof(message, b) == (0 <= b < block_total(message) && is_proven(message, b)),
{
}

proof fn lemma_carries(messages: Seq<Message>)
    ensures
        carries(messages, messages.len() as int, BlockShape::Image) <==> exists|m: int, b: int|
            0 <= m < messages.len() && #[trigger] is_image(messages[m], b),
        carries(messages, messages.len() as int, BlockShape::Reasoning) <==> exists|m: int, b: int|
            0 <= m < messages.len() && #[trigger] is_reasoning(messages[m], b),
        carries(messages, messages.len() as int, BlockShape::ToolCall) <==> exists|m: int, b: int|
            0 <= m < messages.len() && #[trigger] is_call(messages[m], b),
        carries_proof(messages, messages.len() as int) <==> exists|m: int, b: int|
            0 <= m < messages.len() && #[trigger] is_proof(messages[m], b),
{
    let count = messages.len() as int;
    assert forall|m: int, b: int| 0 <= m < messages.len() implies {
        &&& #[trigger] is_image(messages[m], b) ==> has_shape(
            messages[m],
            block_total(messages[m]) as int,
            BlockShape::Image,
        )
    } by {
        lemma_image(messages[m], b);
    }
    assert forall|m: int, b: int| 0 <= m < messages.len() implies {
        &&& #[trigger] is_reasoning(messages[m], b) ==> has_shape(
            messages[m],
            block_total(messages[m]) as int,
            BlockShape::Reasoning,
        )
    } by {
        lemma_image(messages[m], b);
    }
    assert forall|m: int, b: int| 0 <= m < messages.len() implies {
        &&& #[trigger] is_call(messages[m], b) ==> has_shape(
            messages[m],
            block_total(messages[m]) as int,
            BlockShape::ToolCall,
        )
    } by {
        lemma_image(messages[m], b);
    }
    assert forall|m: int, b: int| 0 <= m < messages.len() implies {
        &&& #[trigger] is_proof(messages[m], b) ==> has_proof(
            messages[m],
            block_total(messages[m]) as int,
        )
    } by {
        lemma_image(messages[m], b);
    }
    if carries(messages, count, BlockShape::Image) {
        let (m, b) = lemma_found(messages, BlockShape::Image);
        lemma_image(messages[m], b);
    }
    if carries(messages, count, BlockShape::Reasoning) {
        let (m, b) = lemma_found(messages, BlockShape::Reasoning);
        lemma_image(messages[m], b);
    }
    if carries(messages, count, BlockShape::ToolCall) {
        let (m, b) = lemma_found(messages, BlockShape::ToolCall);
        lemma_image(messages[m], b);
    }
    if carries_proof(messages, count) {
        let m = choose|m: int|
            0 <= m < count && has_proof(#[trigger] messages[m], block_total(messages[m]) as int);
        let b = choose|b: int|
            0 <= b < block_total(messages[m]) && #[trigger] is_proven(messages[m], b);
        lemma_image(messages[m], b);
    }
}

proof fn lemma_found(messages: Seq<Message>, shape: BlockShape) -> (found: (int, int))
    requires
        carries(messages, messages.len() as int, shape),
    ensures
        0 <= found.0 < messages.len(),
        0 <= found.1 < block_total(messages[found.0]),
        shape_of(messages[found.0], found.1) == shape,
{
    let m = choose|m: int|
        0 <= m < messages.len() && has_shape(
            #[trigger] messages[m],
            block_total(messages[m]) as int,
            shape,
        );
    let b = choose|b: int|
        0 <= b < block_total(messages[m]) && #[trigger] shape_of(messages[m], b) == shape;
    (m, b)
}

/// A model is taken to be capable exactly when it has every capability that a part
/// of the request needs.
pub proof fn lemma_capabilities(selected: ValidatedCatalogEntryView<'_>, original: PrepareInput)
    ensures
        is_capable(selected, original) <==> can_serve(selected, original),
{
    lemma_carries(original.messages@);
}

/// Whether a request is for the selected entry.
pub open spec fn is_for(selected: ValidatedCatalogEntryView<'_>, original: PrepareInput) -> bool {
    &&& original.provider_id.text@ == selected.provider_id.text@
    &&& original.route_id.text@ == selected.route_id.text@
    &&& original.catalog_digest@ == selected.catalog_digest@
    &&& original.current_model.text@ == selected.current_model.text@
    &&& original.operation_id.text@ == selected.completion_operation.text@
    &&& match (original.selection, *selected.selection) {
        (ModelSelection::Exact(asked), ModelSelection::Exact(given)) => asked.text@ == given.text@,
        (ModelSelection::Alias(asked), ModelSelection::Alias(given)) => asked.text@ == given.text@,
        _ => false,
    }
}

// ---------------------------------------------------------------------------
// What a body owes
// ---------------------------------------------------------------------------

/// Whether block `b` of a message is text or reasoning.
pub open spec fn has_text(message: Message, b: int) -> bool {
    match message {
        Message::User(user) => 0 <= b < user.blocks@.len() && user.blocks@[b] is Text,
        Message::Assistant(assistant) => 0 <= b < assistant.blocks@.len()
            && !(assistant.blocks@[b] is ToolCall),
        Message::ToolResult(result) => 0 <= b < result.blocks@.len() && result.blocks@[b] is Text,
    }
}

/// The number of blocks of a message.
pub open spec fn size_of(message: Message) -> nat {
    match message {
        Message::User(user) => user.blocks@.len(),
        Message::Assistant(assistant) => assistant.blocks@.len(),
        Message::ToolResult(result) => result.blocks@.len(),
    }
}

/// Whether a protocol says of a tool result whether it is an error.
pub open spec fn tells_status(wire: AdapterWireId) -> bool {
    match wire {
        AdapterWireId::AnthropicMessages => true,
        AdapterWireId::OpenAiCompletions => false,
        AdapterWireId::OpenAiResponses => false,
        AdapterWireId::OpenAiCodexResponses => false,
        AdapterWireId::AzureOpenAiResponses => false,
        AdapterWireId::GoogleGenerativeAi => true,
        AdapterWireId::GoogleVertex => true,
        AdapterWireId::MistralConversations => true,
        AdapterWireId::BedrockConverseStream => true,
        AdapterWireId::PiMessages => true,
    }
}

/// Whether a protocol names the tool of a tool result.
pub open spec fn tells_name(wire: AdapterWireId) -> bool {
    match wire {
        AdapterWireId::AnthropicMessages => false,
        AdapterWireId::OpenAiCompletions => false,
        AdapterWireId::OpenAiResponses => false,
        AdapterWireId::OpenAiCodexResponses => false,
        AdapterWireId::AzureOpenAiResponses => false,
        AdapterWireId::GoogleGenerativeAi => true,
        AdapterWireId::GoogleVertex => true,
        AdapterWireId::MistralConversations => true,
        AdapterWireId::BedrockConverseStream => false,
        AdapterWireId::PiMessages => true,
    }
}

/// Whether a body owes a part to a request: every choice, every text, every image,
/// every call, every tool and every setting of it, and of a tool result what the
/// protocol tells.
pub open spec fn is_owed(wire: AdapterWireId, original: PrepareInput, debt: Debt) -> bool {
    let messages = original.messages@;
    match debt {
        Debt::SelectionVariant => true,
        Debt::SelectionPayload => true,
        Debt::SystemCollection => true,
        Debt::MessagesCollection => true,
        Debt::ToolsCollection => true,
        Debt::ToolChoiceVariant => true,
        Debt::ReasoningVariant => true,
        Debt::CacheVariant => true,
        Debt::MaxOutput => true,
        Debt::ToolChoiceName => original.tool_choice is Specific,
        Debt::ReasoningEffort => original.reasoning is Enabled,
        Debt::ReasoningBudget => original.reasoning is Enabled,
        Debt::System(i) => i < original.system@.len(),
        Debt::ToolName(i) => i < original.tools@.len(),
        Debt::ToolDescription(i) => i < original.tools@.len(),
        Debt::ToolSchema(i) => i < original.tools@.len(),
        Debt::MessageVariant(m) => m < messages.len(),
        Debt::MessageBlocks(m) => m < messages.len(),
        Debt::MessageCallId(m) => m < messages.len() && messages[m as int] is ToolResult,
        Debt::MessageStatus(m) => m < messages.len() && messages[m as int] is ToolResult
            && tells_status(wire),
        Debt::MessageResultName(m) => m < messages.len() && messages[m as int] is ToolResult
            && tells_name(wire),
        Debt::BlockVariant(m, b) => m < messages.len() && b < size_of(messages[m as int]),
        Debt::BlockText(m, b) => m < messages.len() && has_text(messages[m as int], b as int),
        Debt::BlockBytes(m, b) => m < messages.len() && is_image(messages[m as int], b as int),
        Debt::BlockMedia(m, b) => m < messages.len() && is_image(messages[m as int], b as int),
        Debt::BlockReasoningKind(m, b) => m < messages.len() && is_reasoning(
            messages[m as int],
            b as int,
        ),
        Debt::BlockProof(m, b) => m < messages.len() && is_reasoning(messages[m as int], b as int),
        Debt::BlockCallId(m, b) => m < messages.len() && is_call(messages[m as int], b as int),
        Debt::BlockCallName(m, b) => m < messages.len() && is_call(messages[m as int], b as int),
        Debt::BlockArguments(m, b) => m < messages.len() && is_call(messages[m as int], b as int),
        Debt::SelectionKind => false,
        Debt::MessageRole(_) => false,
        Debt::BlockKind(_, _) => false,
        Debt::BlockWidth(_, _) => false,
        Debt::BlockHeight(_, _) => false,
        Debt::BlockFrames(_, _) => false,
        Debt::ToolChoiceKind => false,
        Debt::ReasoningMode => false,
        Debt::CacheKind => false,
    }
}

/// A body owes exactly these parts.
pub proof fn lemma_owed_parts(wire: AdapterWireId, original: PrepareInput, debt: Debt)
    ensures
        owed(wire, original).contains(debt) <==> is_owed(wire, original, debt),
{
}

/// The body of a request is the value of the contract's root, and there is one
/// exactly when the request is for the selected entry, the model is capable, the
/// request is accepted, and the root carries exactly the parts that a body owes.
pub proof fn lemma_bodies(
    contract: AdapterContractV1,
    selected: ValidatedCatalogEntryView<'_>,
    original: PrepareInput,
    value: JsonTree,
)
    ensures
        expected_body(contract, selected, original) == AdapterValidationResult::<JsonTree>::Ok(
            value,
        ) <==> {
            &&& is_for(selected, original)
            &&& can_serve(selected, original)
            &&& request_verdict(selected, original) matches Ok((_, matched)) && (evaluated(
                Inputs { contract, original, matched },
                contract.tree.root as int,
                Scope::Root,
                Ledger { consumed: Set::empty(), optional: Set::empty() },
            ) matches Ok((Some(found), ledger)) && found == value && forall|debt: Debt| #[trigger]
                ledger.consumed.contains(debt) <==> is_owed(contract.wire_id, original, debt))
        },
{
    lemma_capabilities(selected, original);
    assert(names_selected(selected, original) == is_for(selected, original));
    if let Ok((_, matched)) = request_verdict(selected, original) {
        if let Ok((Some(found), ledger)) = evaluated(
            Inputs { contract, original, matched },
            contract.tree.root as int,
            Scope::Root,
            empty_ledger(),
        ) {
            assert forall|debt: Debt| owed(contract.wire_id, original).contains(debt)
                == #[trigger] is_owed(contract.wire_id, original, debt) by {
                lemma_owed_parts(contract.wire_id, original, debt);
            }
            if forall|debt: Debt| #[trigger]
                ledger.consumed.contains(debt) <==> is_owed(contract.wire_id, original, debt) {
                assert(ledger.consumed =~= owed(contract.wire_id, original));
            }
        }
    }
}

} // verus!
