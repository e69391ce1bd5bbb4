//! Lexical scalar sources and checked derived adapter transforms.

use vstd::prelude::*;

use crate::provider_api::{
    AssistantBlock, ImageView, JsonDocument, Message, ModelSelection, PrepareInput, Reasoning, ReasoningBlock,
    ReasoningEffort, ReasoningKind, ToolCallBlock, ToolChoice, ToolResultBlock, ToolResultMessage,
    UserBlock,
};
use crate::provider_validation::adapter::debts::Debt;
use crate::provider_validation::adapter::encoding::{
    data_uri, data_uri_length, data_uri_text, data_uri_verdict, encode_bytes, encoding_verdict,
    gives, media_number, media_ordinal,
};
use crate::provider_validation::adapter::evaluate::{
    block_number, block_ordinal, cache_number, cache_ordinal, enum_table, flag_number, flag_ordinal,
    invalid, matched_of, message_number, message_of_scope, message_ordinal, paid, reasoning_number,
    reasoning_ordinal, result_of_scope, scope_exists, scope_message, selection_number,
    selection_ordinal, token, tool_choice_number, tool_choice_ordinal, tool_result, Evaluator,
    Inputs, Ledger, Scope,
};
use crate::provider_validation::adapter::json::{
    canonical_wire_text, checked_add, from_wire, lemma_array_tree, lemma_object_tree, members_of, node_tree,
    source_error, trees_of, AdapterJson, JsonTree,
};
use crate::provider_validation::adapter::mistral::{
    is_bounded_aggregate, joined_text, joined_to, lemma_joined_grows, lemma_joined_step,
    result_text, result_text_verdict, validate_mistral_aggregate, MistralTextPlan,
};
use crate::provider_validation::adapter::policy::{
    block_shape, carries_result_name, projection_of, requires_result_name, shape_of,
    status_projection, StatusProjection,
};
use crate::provider_validation::adapter::types::{
    AdapterEnumSource, AdapterModelSource, AdapterScalarSource, AdapterTransform,
    AdapterValidationError, AdapterValidationResult,
};
use crate::provider_validation::catalog::selection_text;
use crate::provider_validation::prepare::{texts_of, ToolResultStatus};
use crate::provider_validation::scalar::MAX_LOGICAL_CHARGE;
use crate::provider_validation::wire_json::{embedding_verdict, string_json, wire_verdict};
use crate::provider_validation::wire_text::document_text;
use crate::text::{byte_len, same_text};

verus! {

// ---------------------------------------------------------------------------
// Values
// ---------------------------------------------------------------------------

/// A decimal digit.
pub open spec fn decimal_digit(value: int) -> char {
    (48 + value) as char
}

/// A number in decimal digits.
pub open spec fn decimal_text(value: nat) -> Seq<char>
    decreases value,
{
    if value < 10 {
        seq![decimal_digit(value as int)]
    } else {
        decimal_text(value / 10).push(decimal_digit(value as int % 10))
    }
}

/// Appends a number in decimal digits.
pub fn append_decimal(value: u64, output: &mut String)
    ensures
        final(output)@ == old(output)@ + decimal_text(value as nat),
    decreases value,
{
    if value >= 10 {
        append_decimal(value / 10, output);
    }
    let digit = (value % 10) as u8;
    output.push((48 + digit) as char);
    assert(output@ =~= old(output)@ + decimal_text(value as nat));
}

/// A number in decimal digits.
pub fn decimal(value: u64) -> (text: String)
    ensures
        text@ == decimal_text(value as nat),
{
    let mut text = String::new();
    append_decimal(value, &mut text);
    assert(text@ =~= decimal_text(value as nat));
    text
}

/// A number as a JSON value, where the transform asks for it.
pub open spec fn number_value(asked: bool, value: nat) -> AdapterValidationResult<JsonTree> {
    if asked {
        Ok(JsonTree::Number(decimal_text(value)))
    } else {
        invalid()
    }
}

/// A text as it is.
pub open spec fn identity_value(transform: AdapterTransform, text: Seq<char>) ->
    AdapterValidationResult<JsonTree> {
    if transform is Identity {
        Ok(JsonTree::Text { value: text, derived: false })
    } else {
        invalid()
    }
}

/// Whether a transform leaves a text as it is.
pub fn is_identity(transform: &AdapterTransform) -> (found: bool)
    ensures
        found == transform is Identity,
{
    match transform {
        AdapterTransform::Identity => true,
        _ => false,
    }
}

/// Checks that a transform leaves a text as it is.
pub fn require_identity(transform: &AdapterTransform) -> (result: AdapterValidationResult<()>)
    ensures
        result is Ok == transform is Identity,
        result matches Err(error) ==> error == AdapterValidationError::InvalidContract,
{
    if is_identity(transform) {
        Ok(())
    } else {
        Err(AdapterValidationError::InvalidContract)
    }
}

/// Checks that a transform gives a 32-bit number.
pub fn require_u32(transform: &AdapterTransform) -> (result: AdapterValidationResult<()>)
    ensures
        result is Ok == transform is CheckedU32,
        result matches Err(error) ==> error == AdapterValidationError::InvalidContract,
{
    match transform {
        AdapterTransform::CheckedU32 => Ok(()),
        _ => Err(AdapterValidationError::InvalidContract),
    }
}

/// A text as it is.
pub fn identity_string(transform: &AdapterTransform, value: &str) -> (result: AdapterValidationResult<
    AdapterJson,
>)
    ensures
        gives(identity_value(*transform, value@), result),
{
    require_identity(transform)?;
    Ok(AdapterJson::ordinary_string(value))
}

/// A 64-bit number.
pub fn checked_u64(transform: &AdapterTransform, value: u64) -> (result: AdapterValidationResult<
    AdapterJson,
>)
    ensures
        gives(number_value(transform is CheckedU64, value as nat), result),
{
    match transform {
        AdapterTransform::CheckedU64 => Ok(AdapterJson::Number(decimal(value))),
        _ => Err(AdapterValidationError::InvalidContract),
    }
}

/// Checks for the scope of the whole request.
pub fn require_root(scope: Scope) -> (result: AdapterValidationResult<()>)
    ensures
        result is Ok == (scope == Scope::Root),
        result matches Err(error) ==> error == AdapterValidationError::InvalidContract,
{
    if scope == Scope::Root {
        Ok(())
    } else {
        Err(AdapterValidationError::InvalidContract)
    }
}

/// The text of a selection.
pub fn selection_payload(value: &ModelSelection) -> (text: &str)
    ensures
        text@ == selection_text(*value),
{
    match value {
        ModelSelection::Exact(value) => value.text.as_str(),
        ModelSelection::Alias(value) => value.text.as_str(),
    }
}

/// The number of a reasoning effort.
pub open spec fn effort_number(value: ReasoningEffort) -> u8 {
    match value {
        ReasoningEffort::Minimal => 0,
        ReasoningEffort::Low => 1,
        ReasoningEffort::Medium => 2,
        ReasoningEffort::High => 3,
    }
}

/// The number of a reasoning effort.
pub fn effort_ordinal(value: &ReasoningEffort) -> (ordinal: u8)
    ensures
        ordinal == effort_number(*value),
{
    match value {
        ReasoningEffort::Minimal => 0,
        ReasoningEffort::Low => 1,
        ReasoningEffort::Medium => 2,
        ReasoningEffort::High => 3,
    }
}

/// The number of a reasoning kind.
pub open spec fn kind_number(value: ReasoningKind) -> u8 {
    match value {
        ReasoningKind::Thinking => 0,
        ReasoningKind::Summary => 1,
    }
}

/// The number of a reasoning kind.
pub fn kind_ordinal(value: &ReasoningKind) -> (ordinal: u8)
    ensures
        ordinal == kind_number(*value),
{
    match value {
        ReasoningKind::Thinking => 0,
        ReasoningKind::Summary => 1,
    }
}

// ---------------------------------------------------------------------------
// Blocks of a scope
// ---------------------------------------------------------------------------

/// The text block of a scope, with its position.
pub open spec fn text_of_scope(original: PrepareInput, scope: Scope) -> Option<
    (usize, usize, Seq<char>),
> {
    let messages = original.messages@;
    match scope {
        Scope::UserBlock(m, b) => match messages[m as int]->User_0.blocks@[b as int] {
            UserBlock::Text(block) => Some((m, b, block.text@)),
            _ => None,
        },
        Scope::AssistantBlock(m, b) => match messages[m as int]->Assistant_0.blocks@[b as int] {
            AssistantBlock::Text(block) => Some((m, b, block.text@)),
            AssistantBlock::Reasoning(block) => Some((m, b, block.text@)),
            _ => None,
        },
        Scope::ToolResultBlock(m, b) => match messages[m as int]->ToolResult_0.blocks@[b as int] {
            ToolResultBlock::Text(block) => Some((m, b, block.text@)),
            _ => None,
        },
        _ => None,
    }
}

/// The image block of a scope, with its position.
pub open spec fn image_of_scope(original: PrepareInput, scope: Scope) -> Option<
    (usize, usize, ImageView),
> {
    let messages = original.messages@;
    match scope {
        Scope::UserBlock(m, b) => match messages[m as int]->User_0.blocks@[b as int] {
            UserBlock::Image(image) => Some((m, b, image)),
            _ => None,
        },
        Scope::ToolResultBlock(m, b) => match messages[m as int]->ToolResult_0.blocks@[b as int] {
            ToolResultBlock::Image(image) => Some((m, b, image)),
            _ => None,
        },
        _ => None,
    }
}

/// The tool call of a scope, with its position.
pub open spec fn call_of_scope(original: PrepareInput, scope: Scope) -> Option<
    (usize, usize, ToolCallBlock),
> {
    match scope {
        Scope::AssistantBlock(m, b) => match original.messages@[m as int]->Assistant_0.blocks@[b as int] {
            AssistantBlock::ToolCall(call) => Some((m, b, call)),
            _ => None,
        },
        _ => None,
    }
}

/// The reasoning block of a scope, with its position.
pub open spec fn reasoning_of_scope(original: PrepareInput, scope: Scope) -> Option<
    (usize, usize, ReasoningBlock),
> {
    match scope {
        Scope::AssistantBlock(m, b) => match original.messages@[m as int]->Assistant_0.blocks@[b as int] {
            AssistantBlock::Reasoning(block) => Some((m, b, block)),
            _ => None,
        },
        _ => None,
    }
}

/// The enumeration and position of the kind of a scope's block.
pub open spec fn kind_of_scope(scope: Scope) -> Option<(usize, usize, AdapterEnumSource)> {
    match scope {
        Scope::UserBlock(m, b) => Some((m, b, AdapterEnumSource::UserBlockKind)),
        Scope::AssistantBlock(m, b) => Some((m, b, AdapterEnumSource::AssistantBlockKind)),
        Scope::ToolResultBlock(m, b) => Some((m, b, AdapterEnumSource::ToolResultBlockKind)),
        _ => None,
    }
}

/// The image block of a scope, with its position.
pub fn image<'a>(original: &'a PrepareInput, scope: Scope) -> (result: AdapterValidationResult<
    (usize, usize, &'a ImageView),
>)
    requires
        scope_exists(*original, scope),
    ensures
        match result {
            Ok((m, b, view)) => image_of_scope(*original, scope) == Some((m, b, *view)),
            Err(error) => error == AdapterValidationError::InvalidContract && image_of_scope(
                *original,
                scope,
            ) is None,
        },
{
    match scope {
        Scope::UserBlock(m, b) => {
            if let Message::User(message) = &original.messages[m] {
                if let UserBlock::Image(view) = &message.blocks[b] {
                    return Ok((m, b, view));
                }
            }
            Err(AdapterValidationError::InvalidContract)
        },
        Scope::ToolResultBlock(m, b) => {
            if let Message::ToolResult(message) = &original.messages[m] {
                if let ToolResultBlock::Image(view) = &message.blocks[b] {
                    return Ok((m, b, view));
                }
            }
            Err(AdapterValidationError::InvalidContract)
        },
        _ => Err(AdapterValidationError::InvalidContract),
    }
}

/// The text block of a scope, with its position.
pub fn scope_text<'a>(original: &'a PrepareInput, scope: Scope) -> (result: AdapterValidationResult<
    (usize, usize, &'a str),
>)
    requires
        scope_exists(*original, scope),
    ensures
        match result {
            Ok((m, b, text)) => text_of_scope(*original, scope) == Some((m, b, text@)),
            Err(error) => error == AdapterValidationError::InvalidContract && text_of_scope(
                *original,
                scope,
            ) is None,
        },
{
    match scope {
        Scope::UserBlock(m, b) => {
            if let Message::User(message) = &original.messages[m] {
                if let UserBlock::Text(block) = &message.blocks[b] {
                    return Ok((m, b, block.text.as_str()));
                }
            }
            Err(AdapterValidationError::InvalidContract)
        },
        Scope::AssistantBlock(m, b) => {
            if let Message::Assistant(message) = &original.messages[m] {
                match &message.blocks[b] {
                    AssistantBlock::Text(block) => {
                        return Ok((m, b, block.text.as_str()));
                    },
                    AssistantBlock::Reasoning(block) => {
                        return Ok((m, b, block.text.as_str()));
                    },
                    _ => {},
                }
            }
            Err(AdapterValidationError::InvalidContract)
        },
        Scope::ToolResultBlock(m, b) => {
            if let Message::ToolResult(message) = &original.messages[m] {
                if let ToolResultBlock::Text(block) = &message.blocks[b] {
                    return Ok((m, b, block.text.as_str()));
                }
            }
            Err(AdapterValidationError::InvalidContract)
        },
        _ => Err(AdapterValidationError::InvalidContract),
    }
}

/// The tool call of a scope, with its position.
pub fn scope_call<'a>(original: &'a PrepareInput, scope: Scope) -> (result: AdapterValidationResult<
    (usize, usize, &'a ToolCallBlock),
>)
    requires
        scope_exists(*original, scope),
    ensures
        match result {
            Ok((m, b, call)) => call_of_scope(*original, scope) == Some((m, b, *call)),
            Err(error) => error == AdapterValidationError::InvalidContract && call_of_scope(
                *original,
                scope,
            ) is None,
        },
{
    if let Scope::AssistantBlock(m, b) = scope {
        if let Message::Assistant(message) = &original.messages[m] {
            if let AssistantBlock::ToolCall(call) = &message.blocks[b] {
                return Ok((m, b, call));
            }
        }
    }
    Err(AdapterValidationError::InvalidContract)
}

/// The reasoning block of a scope, with its position.
pub fn scope_reasoning<'a>(original: &'a PrepareInput, scope: Scope) -> (result:
    AdapterValidationResult<(usize, usize, &'a ReasoningBlock)>)
    requires
        scope_exists(*original, scope),
    ensures
        match result {
            Ok((m, b, block)) => reasoning_of_scope(*original, scope) == Some((m, b, *block)),
            Err(error) => error == AdapterValidationError::InvalidContract && reasoning_of_scope(
                *original,
                scope,
            ) is None,
        },
{
    if let Scope::AssistantBlock(m, b) = scope {
        if let Message::Assistant(message) = &original.messages[m] {
            if let AssistantBlock::Reasoning(block) = &message.blocks[b] {
                return Ok((m, b, block));
            }
        }
    }
    Err(AdapterValidationError::InvalidContract)
}

// ---------------------------------------------------------------------------
// Scalars of blocks and tools
// ---------------------------------------------------------------------------

/// The kind of a block as a token.
pub open spec fn block_kind_value(
    inputs: Inputs,
    transform: AdapterTransform,
    scope: Scope,
    ledger: Ledger,
) -> AdapterValidationResult<(JsonTree, Ledger)> {
    match kind_of_scope(scope) {
        None => invalid(),
        Some((m, b, source)) => paid(
            ledger.note(Debt::BlockKind(m, b)),
            token(
                inputs.contract,
                transform,
                source,
                block_number(shape_of(inputs.original.messages@[m as int], b as int)),
            ),
        ),
    }
}

/// The text of a block.
pub open spec fn block_text_value(
    inputs: Inputs,
    transform: AdapterTransform,
    scope: Scope,
    ledger: Ledger,
) -> AdapterValidationResult<(JsonTree, Ledger)> {
    match text_of_scope(inputs.original, scope) {
        None => invalid(),
        Some((m, b, text)) => if transform is Identity {
            paid(ledger.pay(Debt::BlockText(m, b)), identity_value(transform, text))
        } else {
            invalid()
        },
    }
}

/// A document as a JSON value, or why it is refused.
pub open spec fn subtree_value(document: JsonDocument) -> AdapterValidationResult<JsonTree> {
    match wire_verdict(document, true) {
        Ok(_) => Ok(node_tree(document.nodes, document.root as int)),
        Err(error) => Err(source_error(error)),
    }
}

/// A document as its canonical text, or why it is refused.
pub open spec fn canonical_value(document: JsonDocument) -> AdapterValidationResult<JsonTree> {
    match embedding_verdict(document) {
        Ok(_) => Ok(JsonTree::Text { value: document_text(document), derived: true }),
        Err(error) => Err(source_error(error)),
    }
}

/// A scalar of a tool call.
pub open spec fn tool_call_scalar_value(
    inputs: Inputs,
    source: AdapterScalarSource,
    transform: AdapterTransform,
    scope: Scope,
    ledger: Ledger,
) -> AdapterValidationResult<(JsonTree, Ledger)> {
    match call_of_scope(inputs.original, scope) {
        None => invalid(),
        Some((m, b, call)) => match source {
            AdapterScalarSource::ToolCallId => if transform is Identity {
                paid(ledger.pay(Debt::BlockCallId(m, b)), identity_value(transform, call.call_id@))
            } else {
                invalid()
            },
            AdapterScalarSource::ToolCallName => if transform is Identity {
                paid(ledger.pay(Debt::BlockCallName(m, b)), identity_value(transform, call.name@))
            } else {
                invalid()
            },
            AdapterScalarSource::ToolCallArguments => paid(
                ledger.pay(Debt::BlockArguments(m, b)),
                match transform {
                    AdapterTransform::JsonSubtree => subtree_value(call.arguments@),
                    AdapterTransform::CanonicalJsonString => canonical_value(call.arguments@),
                    _ => invalid(),
                },
            ),
            _ => invalid(),
        },
    }
}

/// A scalar of a tool definition, which the request has to hold.
pub open spec fn tool_scalar_value(
    inputs: Inputs,
    source: AdapterScalarSource,
    transform: AdapterTransform,
    scope: Scope,
    ledger: Ledger,
) -> AdapterValidationResult<(JsonTree, Ledger)> {
    match scope {
        Scope::Tool(i) => if i >= inputs.original.tools@.len() {
            Err(AdapterValidationError::SourceMismatch)
        } else {
            let tool = inputs.original.tools@[i as int];
            match source {
                AdapterScalarSource::ToolName => if transform is Identity {
                    paid(ledger.pay(Debt::ToolName(i)), identity_value(transform, tool.name@))
                } else {
                    invalid()
                },
                AdapterScalarSource::ToolDescription => if transform is Identity {
                    paid(
                        ledger.pay(Debt::ToolDescription(i)),
                        identity_value(transform, tool.description@),
                    )
                } else {
                    invalid()
                },
                AdapterScalarSource::ToolSchema => if transform is JsonSubtree {
                    paid(ledger.pay(Debt::ToolSchema(i)), subtree_value(tool.input_schema@))
                } else {
                    invalid()
                },
                _ => invalid(),
            }
        },
        _ => invalid(),
    }
}

/// A scalar of a reasoning block.
pub open spec fn reasoning_scalar_value(
    inputs: Inputs,
    source: AdapterScalarSource,
    transform: AdapterTransform,
    scope: Scope,
    ledger: Ledger,
) -> AdapterValidationResult<(JsonTree, Ledger)> {
    match reasoning_of_scope(inputs.original, scope) {
        None => invalid(),
        Some((m, b, block)) => match source {
            AdapterScalarSource::ReasoningKind => paid(
                ledger.pay(Debt::BlockReasoningKind(m, b)),
                token(
                    inputs.contract,
                    transform,
                    AdapterEnumSource::ReasoningKind,
                    kind_number(block.kind),
                ),
            ),
            AdapterScalarSource::Proof => match block.proof {
                None => invalid(),
                Some(view) => paid(
                    ledger.pay(Debt::BlockProof(m, b)),
                    encoding_verdict(transform, view.proof@),
                ),
            },
            _ => invalid(),
        },
    }
}

/// A scalar of an image block.
pub open spec fn image_scalar_value(
    inputs: Inputs,
    source: AdapterScalarSource,
    transform: AdapterTransform,
    scope: Scope,
    ledger: Ledger,
) -> AdapterValidationResult<(JsonTree, Ledger)> {
    let asked = transform is CheckedU32;
    match image_of_scope(inputs.original, scope) {
        None => invalid(),
        Some((m, b, image)) => match source {
            AdapterScalarSource::ImageBytes => paid(
                ledger.pay(Debt::BlockBytes(m, b)),
                encoding_verdict(transform, image.bytes@),
            ),
            AdapterScalarSource::ImageMediaType => paid(
                ledger.pay(Debt::BlockMedia(m, b)),
                token(
                    inputs.contract,
                    transform,
                    AdapterEnumSource::ImageMediaType,
                    media_number(image.media_type),
                ),
            ),
            AdapterScalarSource::ImageWidth => paid(
                ledger.note(Debt::BlockWidth(m, b)),
                number_value(asked, image.metadata.width as nat),
            ),
            AdapterScalarSource::ImageHeight => paid(
                ledger.note(Debt::BlockHeight(m, b)),
                number_value(asked, image.metadata.height as nat),
            ),
            AdapterScalarSource::ImageFrames => paid(
                ledger.note(Debt::BlockFrames(m, b)),
                number_value(asked, image.metadata.frames as nat),
            ),
            AdapterScalarSource::ImageDataUri => if transform is DataUri {
                match ledger.pay(Debt::BlockBytes(m, b)) {
                    Err(error) => Err(error),
                    Ok(next) => paid(next.pay(Debt::BlockMedia(m, b)), data_uri_value(image)),
                }
            } else {
                invalid()
            },
            _ => invalid(),
        },
    }
}

/// The data URI of an image as a JSON value.
pub open spec fn data_uri_value(image: ImageView) -> AdapterValidationResult<JsonTree> {
    match data_uri_verdict(image) {
        Ok(text) => Ok(JsonTree::Text { value: text, derived: true }),
        Err(error) => Err(error),
    }
}

// ---------------------------------------------------------------------------
// Scalars of the controls
// ---------------------------------------------------------------------------

/// A scalar of the tool choice.
pub open spec fn tool_choice_scalar_value(
    inputs: Inputs,
    source: AdapterScalarSource,
    transform: AdapterTransform,
    scope: Scope,
    ledger: Ledger,
) -> AdapterValidationResult<(JsonTree, Ledger)> {
    if scope != Scope::Root {
        invalid()
    } else {
        match source {
            AdapterScalarSource::ToolChoiceKind => paid(
                ledger.note(Debt::ToolChoiceKind),
                token(
                    inputs.contract,
                    transform,
                    AdapterEnumSource::ToolChoice,
                    tool_choice_number(inputs.original.tool_choice),
                ),
            ),
            AdapterScalarSource::ToolChoiceName => match inputs.original.tool_choice {
                ToolChoice::Specific(choice) => if transform is Identity {
                    paid(ledger.pay(Debt::ToolChoiceName), identity_value(transform, choice.name@))
                } else {
                    invalid()
                },
                _ => invalid(),
            },
            _ => invalid(),
        }
    }
}

/// A scalar of the reasoning control.
pub open spec fn reasoning_control_scalar_value(
    inputs: Inputs,
    source: AdapterScalarSource,
    transform: AdapterTransform,
    scope: Scope,
    ledger: Ledger,
) -> AdapterValidationResult<(JsonTree, Ledger)> {
    let reasoning = inputs.original.reasoning;
    if scope != Scope::Root {
        invalid()
    } else {
        match source {
            AdapterScalarSource::ReasoningMode => paid(
                ledger.note(Debt::ReasoningMode),
                token(
                    inputs.contract,
                    transform,
                    AdapterEnumSource::ReasoningMode,
                    reasoning_number(reasoning),
                ),
            ),
            AdapterScalarSource::ReasoningEffort => match reasoning {
                Reasoning::Enabled(enabled) => match enabled.effort {
                    Some(effort) => paid(
                        ledger.pay(Debt::ReasoningEffort),
                        token(
                            inputs.contract,
                            transform,
                            AdapterEnumSource::ReasoningEffort,
                            effort_number(effort),
                        ),
                    ),
                    None => invalid(),
                },
                _ => invalid(),
            },
            AdapterScalarSource::ReasoningBudget => match reasoning {
                Reasoning::Enabled(enabled) => match enabled.budget_tokens {
                    Some(budget) => paid(
                        ledger.pay(Debt::ReasoningBudget),
                        number_value(transform is CheckedU64, budget as nat),
                    ),
                    None => invalid(),
                },
                _ => invalid(),
            },
            _ => invalid(),
        }
    }
}

impl<'a> Evaluator<'a> {
    /// The kind of a block as a token.
    pub fn block_kind(&mut self, transform: &AdapterTransform, scope: Scope) -> (result: AdapterValidationResult<AdapterJson>)
        requires
            old(self).well_formed(),
            scope_exists(*old(self).original, scope),
        ensures
            final(self).follows(*old(self)),
            final(self).has_given(
                block_kind_value(old(self).inputs(), *transform, scope, old(self).ledger()),
                result,
            ),
    {
        let (m, b, source): (usize, usize, AdapterEnumSource) = match scope {
            Scope::UserBlock(m, b) => (m, b, AdapterEnumSource::UserBlockKind),
            Scope::AssistantBlock(m, b) => (m, b, AdapterEnumSource::AssistantBlockKind),
            Scope::ToolResultBlock(m, b) => (m, b, AdapterEnumSource::ToolResultBlockKind),
            _ => {
                return Err(AdapterValidationError::InvalidContract);
            },
        };
        self.consume_optional(Debt::BlockKind(m, b))?;
        let ordinal: u8 = block_ordinal(block_shape(&self.original.messages[m], b));
        self.enum_token(transform, source, ordinal)
    }

    /// The text of a block.
    pub fn block_text(&mut self, transform: &AdapterTransform, scope: Scope) -> (result: AdapterValidationResult<AdapterJson>)
        requires
            old(self).well_formed(),
            scope_exists(*old(self).original, scope),
        ensures
            final(self).follows(*old(self)),
            final(self).has_given(
                block_text_value(old(self).inputs(), *transform, scope, old(self).ledger()),
                result,
            ),
    {
        let (m, b, text): (usize, usize, &str) = scope_text(self.original, scope)?;
        require_identity(transform)?;
        self.consume(Debt::BlockText(m, b))?;
        Ok(AdapterJson::ordinary_string(text))
    }

    /// A scalar of a tool call.
    pub fn tool_call_scalar(&mut self, source: AdapterScalarSource, transform: &AdapterTransform, scope: Scope) -> (result: AdapterValidationResult<AdapterJson>)
        requires
            old(self).well_formed(),
            scope_exists(*old(self).original, scope),
        ensures
            final(self).follows(*old(self)),
            final(self).has_given(
                tool_call_scalar_value(old(self).inputs(), source, *transform, scope, old(self).ledger()),
                result,
            ),
    {
        let (m, b, call): (usize, usize, &ToolCallBlock) = scope_call(self.original, scope)?;
        match source {
            AdapterScalarSource::ToolCallId => {
                require_identity(transform)?;
                self.consume(Debt::BlockCallId(m, b))?;
                Ok(AdapterJson::ordinary_string(call.call_id.as_str()))
            },
            AdapterScalarSource::ToolCallName => {
                require_identity(transform)?;
                self.consume(Debt::BlockCallName(m, b))?;
                Ok(AdapterJson::ordinary_string(call.name.as_str()))
            },
            AdapterScalarSource::ToolCallArguments => {
                self.consume(Debt::BlockArguments(m, b))?;
                match transform {
                    AdapterTransform::JsonSubtree => from_wire(&call.arguments),
                    AdapterTransform::CanonicalJsonString => {
                        let text = canonical_wire_text(&call.arguments)?;
                        Ok(AdapterJson::derived_string(text.as_str()))
                    },
                    _ => Err(AdapterValidationError::InvalidContract),
                }
            },
            _ => Err(AdapterValidationError::InvalidContract),
        }
    }

    /// A scalar of a tool definition.
    pub fn tool_scalar(&mut self, source: AdapterScalarSource, transform: &AdapterTransform, scope: Scope) -> (result: AdapterValidationResult<AdapterJson>)
        requires
            old(self).well_formed(),
            scope_exists(*old(self).original, scope),
        ensures
            final(self).follows(*old(self)),
            final(self).has_given(
                tool_scalar_value(old(self).inputs(), source, *transform, scope, old(self).ledger()),
                result,
            ),
    {
        let i: usize = match scope {
            Scope::Tool(i) => i,
            _ => {
                return Err(AdapterValidationError::InvalidContract);
            },
        };
        if i >= self.original.tools.len() {
            return Err(AdapterValidationError::SourceMismatch);
        }
        let tool = &self.original.tools[i];
        match source {
            AdapterScalarSource::ToolName => {
                require_identity(transform)?;
                self.consume(Debt::ToolName(i))?;
                Ok(AdapterJson::ordinary_string(tool.name.as_str()))
            },
            AdapterScalarSource::ToolDescription => {
                require_identity(transform)?;
                self.consume(Debt::ToolDescription(i))?;
                Ok(AdapterJson::ordinary_string(tool.description.as_str()))
            },
            AdapterScalarSource::ToolSchema => match transform {
                AdapterTransform::JsonSubtree => {
                    self.consume(Debt::ToolSchema(i))?;
                    from_wire(&tool.input_schema)
                },
                _ => Err(AdapterValidationError::InvalidContract),
            },
            _ => Err(AdapterValidationError::InvalidContract),
        }
    }

    /// A scalar of a reasoning block.
    pub fn reasoning_scalar(&mut self, source: AdapterScalarSource, transform: &AdapterTransform, scope: Scope) -> (result: AdapterValidationResult<AdapterJson>)
        requires
            old(self).well_formed(),
            scope_exists(*old(self).original, scope),
        ensures
            final(self).follows(*old(self)),
            final(self).has_given(
                reasoning_scalar_value(old(self).inputs(), source, *transform, scope, old(self).ledger()),
                result,
            ),
    {
        let (m, b, block): (usize, usize, &ReasoningBlock) = scope_reasoning(self.original, scope)?;
        match source {
            AdapterScalarSource::ReasoningKind => {
                self.consume(Debt::BlockReasoningKind(m, b))?;
                self.enum_token(
                    transform,
                    AdapterEnumSource::ReasoningKind,
                    kind_ordinal(&block.kind),
                )
            },
            AdapterScalarSource::Proof => match &block.proof {
                Some(view) => {
                    self.consume(Debt::BlockProof(m, b))?;
                    encode_bytes(transform, view.proof.as_slice())
                },
                None => Err(AdapterValidationError::InvalidContract),
            },
            _ => Err(AdapterValidationError::InvalidContract),
        }
    }

    /// A scalar of an image block.
    pub fn image_scalar(&mut self, source: AdapterScalarSource, transform: &AdapterTransform, scope: Scope) -> (result: AdapterValidationResult<AdapterJson>)
        requires
            old(self).well_formed(),
            scope_exists(*old(self).original, scope),
        ensures
            final(self).follows(*old(self)),
            final(self).has_given(
                image_scalar_value(old(self).inputs(), source, *transform, scope, old(self).ledger()),
                result,
            ),
    {
        let (m, b, view): (usize, usize, &ImageView) = image(self.original, scope)?;
        match source {
            AdapterScalarSource::ImageBytes => {
                self.consume(Debt::BlockBytes(m, b))?;
                encode_bytes(transform, view.bytes.as_slice())
            },
            AdapterScalarSource::ImageMediaType => {
                self.consume(Debt::BlockMedia(m, b))?;
                self.enum_token(
                    transform,
                    AdapterEnumSource::ImageMediaType,
                    media_ordinal(&view.media_type),
                )
            },
            AdapterScalarSource::ImageWidth => {
                require_u32(transform)?;
                self.consume_optional(Debt::BlockWidth(m, b))?;
                Ok(AdapterJson::Number(decimal(view.metadata.width as u64)))
            },
            AdapterScalarSource::ImageHeight => {
                require_u32(transform)?;
                self.consume_optional(Debt::BlockHeight(m, b))?;
                Ok(AdapterJson::Number(decimal(view.metadata.height as u64)))
            },
            AdapterScalarSource::ImageFrames => {
                require_u32(transform)?;
                self.consume_optional(Debt::BlockFrames(m, b))?;
                Ok(AdapterJson::Number(decimal(view.metadata.frames as u64)))
            },
            AdapterScalarSource::ImageDataUri => match transform {
                AdapterTransform::DataUri => {
                    self.consume(Debt::BlockBytes(m, b))?;
                    self.consume(Debt::BlockMedia(m, b))?;
                    let uri = data_uri(view)?;
                    Ok(AdapterJson::derived_string(uri.as_str()))
                },
                _ => Err(AdapterValidationError::InvalidContract),
            },
            _ => Err(AdapterValidationError::InvalidContract),
        }
    }

    /// A scalar of the tool choice.
    pub fn tool_choice_scalar(&mut self, source: AdapterScalarSource, transform: &AdapterTransform, scope: Scope) -> (result: AdapterValidationResult<AdapterJson>)
        requires
            old(self).well_formed(),
            scope_exists(*old(self).original, scope),
        ensures
            final(self).follows(*old(self)),
            final(self).has_given(
                tool_choice_scalar_value(old(self).inputs(), source, *transform, scope, old(self).ledger()),
                result,
            ),
    {
        require_root(scope)?;
        match source {
            AdapterScalarSource::ToolChoiceKind => {
                self.consume_optional(Debt::ToolChoiceKind)?;
                self.enum_token(
                    transform,
                    AdapterEnumSource::ToolChoice,
                    tool_choice_ordinal(&self.original.tool_choice),
                )
            },
            AdapterScalarSource::ToolChoiceName => {
                require_identity(transform)?;
                match &self.original.tool_choice {
                    ToolChoice::Specific(choice) => {
                        self.consume(Debt::ToolChoiceName)?;
                        Ok(AdapterJson::ordinary_string(choice.name.as_str()))
                    },
                    _ => Err(AdapterValidationError::InvalidContract),
                }
            },
            _ => Err(AdapterValidationError::InvalidContract),
        }
    }

    /// A scalar of the reasoning control.
    pub fn reasoning_control_scalar(&mut self, source: AdapterScalarSource, transform: &AdapterTransform, scope: Scope) -> (result: AdapterValidationResult<AdapterJson>)
        requires
            old(self).well_formed(),
            scope_exists(*old(self).original, scope),
        ensures
            final(self).follows(*old(self)),
            final(self).has_given(
                reasoning_control_scalar_value(old(self).inputs(), source, *transform, scope, old(self).ledger()),
                result,
            ),
    {
        require_root(scope)?;
        match source {
            AdapterScalarSource::ReasoningMode => {
                self.consume_optional(Debt::ReasoningMode)?;
                self.enum_token(
                    transform,
                    AdapterEnumSource::ReasoningMode,
                    reasoning_ordinal(&self.original.reasoning),
                )
            },
            AdapterScalarSource::ReasoningEffort => match &self.original.reasoning {
                Reasoning::Enabled(enabled) => match &enabled.effort {
                    Some(effort) => {
                        self.consume(Debt::ReasoningEffort)?;
                        self.enum_token(
                            transform,
                            AdapterEnumSource::ReasoningEffort,
                            effort_ordinal(effort),
                        )
                    },
                    None => Err(AdapterValidationError::InvalidContract),
                },
                _ => Err(AdapterValidationError::InvalidContract),
            },
            AdapterScalarSource::ReasoningBudget => match &self.original.reasoning {
                Reasoning::Enabled(enabled) => match enabled.budget_tokens {
                    Some(budget) => {
                        self.consume(Debt::ReasoningBudget)?;
                        checked_u64(transform, budget)
                    },
                    None => Err(AdapterValidationError::InvalidContract),
                },
                _ => Err(AdapterValidationError::InvalidContract),
            },
            _ => Err(AdapterValidationError::InvalidContract),
        }
    }
}

// ---------------------------------------------------------------------------
// The composite content of a Mistral tool result
// ---------------------------------------------------------------------------

/// The texts of the first `n` blocks.
pub open spec fn text_parts(blocks: Seq<ToolResultBlock>, n: int) -> Seq<Seq<char>>
    decreases n,
{
    if n <= 0 {
        Seq::empty()
    } else {
        match blocks[n - 1] {
            ToolResultBlock::Text(block) => text_parts(blocks, n - 1).push(block.text@),
            ToolResultBlock::Image(_) => text_parts(blocks, n - 1),
        }
    }
}

/// The images of the first `n` blocks.
pub open spec fn image_parts(blocks: Seq<ToolResultBlock>, n: int) -> Seq<ImageView>
    decreases n,
{
    if n <= 0 {
        Seq::empty()
    } else {
        match blocks[n - 1] {
            ToolResultBlock::Text(_) => image_parts(blocks, n - 1),
            ToolResultBlock::Image(image) => image_parts(blocks, n - 1).push(image),
        }
    }
}

/// The ledger after the blocks of message `m` from block `i` on.
pub open spec fn pay_blocks(ledger: Ledger, m: usize, blocks: Seq<ToolResultBlock>, i: int) ->
    AdapterValidationResult<Ledger>
    decreases blocks.len() - i,
{
    if i >= blocks.len() {
        Ok(ledger)
    } else {
        let b = i as usize;
        match ledger.pay(Debt::BlockVariant(m, b)) {
            Err(error) => Err(error),
            Ok(next) => match blocks[i] {
                ToolResultBlock::Text(_) => match next.pay(Debt::BlockText(m, b)) {
                    Err(error) => Err(error),
                    Ok(reached) => pay_blocks(reached, m, blocks, i + 1),
                },
                ToolResultBlock::Image(_) => match next.pay(Debt::BlockBytes(m, b)) {
                    Err(error) => Err(error),
                    Ok(reached) => match reached.pay(Debt::BlockMedia(m, b)) {
                        Err(error) => Err(error),
                        Ok(last) => pay_blocks(last, m, blocks, i + 1),
                    },
                },
            },
        }
    }
}

/// The text chunk of a composite.
pub open spec fn text_chunk(text: Seq<char>) -> JsonTree {
    JsonTree::Object(
        seq![
            ("text"@, JsonTree::Text { value: text, derived: true }),
            ("type"@, JsonTree::Text { value: "text"@, derived: false }),
        ],
    )
}

/// The chunk of an image in a composite.
pub open spec fn image_chunk(image: ImageView) -> JsonTree {
    JsonTree::Object(
        seq![
            ("image_url"@, JsonTree::Text { value: data_uri_text(image), derived: true }),
            ("type"@, JsonTree::Text { value: "image_url"@, derived: false }),
        ],
    )
}

/// The byte lengths of the data URIs of images.
pub open spec fn uri_lengths(images: Seq<ImageView>) -> Seq<u64> {
    Seq::new(images.len(), |i: int| byte_len(data_uri_text(images[i])) as u64)
}

/// Whether each data URI is at most as long as the largest charge.
pub open spec fn are_bounded(images: Seq<ImageView>) -> bool {
    forall|i: int|
        0 <= i < images.len() ==> byte_len(data_uri_text(#[trigger] images[i]))
            <= MAX_LOGICAL_CHARGE
}

/// The chunks of a composite: its text, then its images.
pub open spec fn composite_chunks(text: Seq<char>, images: Seq<ImageView>) -> Seq<JsonTree> {
    seq![text_chunk(text)] + Seq::new(images.len(), |i: int| image_chunk(images[i]))
}

/// The composite content of a tool result.
pub open spec fn composite_value(result: ToolResultMessage) -> AdapterValidationResult<JsonTree> {
    let count = result.blocks@.len() as int;
    let texts = text_parts(result.blocks@, count);
    let images = image_parts(result.blocks@, count);
    let text = result_text(texts, images.len() > 0, result.is_error);
    if result_text_verdict(texts, images.len() > 0, result.is_error) is Ok && are_bounded(images)
        && is_bounded_aggregate(
        byte_len(text) as int,
        string_json(text).len() as int,
        uri_lengths(images),
    ) {
        Ok(JsonTree::Array(composite_chunks(text, images)))
    } else {
        Err(AdapterValidationError::Limit)
    }
}

/// The composite content of the tool result of a scope.
pub open spec fn mistral_content_value(
    inputs: Inputs,
    transform: AdapterTransform,
    scope: Scope,
    ledger: Ledger,
) -> AdapterValidationResult<(JsonTree, Ledger)> {
    match result_of_scope(inputs.original, scope) {
        None => invalid(),
        Some((m, result)) => if transform !is MistralToolResultContent {
            invalid()
        } else {
            match ledger.pay(Debt::MessageBlocks(m)) {
                Err(error) => Err(error),
                Ok(opened) => match opened.pay(Debt::MessageStatus(m)) {
                    Err(error) => Err(error),
                    Ok(next) => match matched_of(inputs.matched, result.call_id@) {
                        None => Err(AdapterValidationError::SourceMismatch),
                        Some(found) => if (found.status == ToolResultStatus::Error)
                            != result.is_error {
                            Err(AdapterValidationError::SourceMismatch)
                        } else {
                            paid(
                                pay_blocks(next, m, result.blocks@, 0),
                                composite_value(result),
                            )
                        },
                    },
                },
            }
        },
    }
}

/// The images behind a list of references.
pub open spec fn images_of(images: Seq<&ImageView>) -> Seq<ImageView> {
    images.map_values(|image: &ImageView| *image)
}

/// A chunk with two members.
pub fn chunk(key: &str, value: AdapterJson, kind: &str) -> (json: AdapterJson)
    ensures
        json.tree() == JsonTree::Object(
            seq![
                (key@, value.tree()),
                ("type"@, JsonTree::Text { value: kind@, derived: false }),
            ],
        ),
{
    let mut members: Vec<(String, AdapterJson)> = Vec::new();
    members.push((key.to_owned(), value));
    members.push(("type".to_owned(), AdapterJson::ordinary_string(kind)));
    proof {
        lemma_object_tree(members);
        assert(members_of(members@) =~= seq![
            (key@, value.tree()),
            ("type"@, JsonTree::Text { value: kind@, derived: false }),
        ]);
    }
    AdapterJson::Object(members)
}

/// The composite content of a tool result from its texts and images.
#[verifier::loop_isolation(false)]
pub fn composite(text: &[&str], images: &[&ImageView], is_error: bool) -> (result:
    AdapterValidationResult<AdapterJson>)
    ensures
        ({
            let texts = texts_of(text@);
            let views = images_of(images@);
            let expected = result_text(texts, views.len() > 0, is_error);
            gives(
                if result_text_verdict(texts, views.len() > 0, is_error) is Ok && are_bounded(views)
                    && is_bounded_aggregate(
                    byte_len(expected) as int,
                    string_json(expected).len() as int,
                    uri_lengths(views),
                ) {
                    Ok(JsonTree::Array(composite_chunks(expected, views)))
                } else {
                    Err(AdapterValidationError::Limit)
                },
                result,
            )
        }),
{
    let ghost views = images_of(images@);
    let plan = MistralTextPlan::new(text, images.len() > 0, is_error)?;
    let mut lengths: Vec<u64> = Vec::new();
    let mut i: usize = 0;
    while i < images.len()
        invariant
            i <= images@.len(),
            lengths@ == uri_lengths(views).take(i as int),
            forall|j: int|
                0 <= j < i ==> byte_len(data_uri_text(#[trigger] views[j])) <= MAX_LOGICAL_CHARGE,
        decreases images.len() - i,
    {
        assert(views[i as int] == *images@[i as int]);
        let length: u64 = data_uri_length(images[i])?;
        lengths.push(length);
        assert(lengths@ =~= uri_lengths(views).take(i as int + 1));
        i += 1;
    }
    assert(lengths@ =~= uri_lengths(views));
    validate_mistral_aggregate(plan.result_length, plan.serialized_length, lengths.as_slice())?;
    let ghost expected = result_text(texts_of(text@), views.len() > 0, is_error);
    let built = plan.build(text)?;
    let mut chunks: Vec<AdapterJson> = Vec::new();
    chunks.push(chunk("text", AdapterJson::derived_string(built.as_str()), "text"));
    let ghost whole = composite_chunks(expected, views);
    assert(trees_of(chunks@) =~= whole.take(1));
    let mut k: usize = 0;
    while k < images.len()
        invariant
            k <= images@.len(),
            trees_of(chunks@) == whole.take(k as int + 1),
        decreases images.len() - k,
    {
        assert(views[k as int] == *images@[k as int]);
        let uri = data_uri(images[k])?;
        let next = chunk("image_url", AdapterJson::derived_string(uri.as_str()), "image_url");
        let ghost before = trees_of(chunks@);
        chunks.push(next);
        assert(trees_of(chunks@) =~= before.push(next.tree()));
        assert(trees_of(chunks@) =~= whole.take(k as int + 2));
        k += 1;
    }
    assert(whole.take(k as int + 1) =~= whole);
    proof {
        lemma_array_tree(chunks);
    }
    Ok(AdapterJson::Array(chunks))
}

impl<'a> Evaluator<'a> {
    /// The composite content of the tool result of a scope.
    #[verifier::loop_isolation(false)]
    pub fn mistral_content(&mut self, transform: &AdapterTransform, scope: Scope) -> (result:
        AdapterValidationResult<AdapterJson>)
        requires
            old(self).well_formed(),
            scope_exists(*old(self).original, scope),
        ensures
            final(self).follows(*old(self)),
            final(self).has_given(
                mistral_content_value(old(self).inputs(), *transform, scope, old(self).ledger()),
                result,
            ),
    {
        let asked = match transform {
            AdapterTransform::MistralToolResultContent => true,
            _ => false,
        };
        if !asked {
            return Err(AdapterValidationError::InvalidContract);
        }
        let ghost inputs = self.inputs();
        let (m, message): (usize, &ToolResultMessage) = tool_result(self.original, scope)?;
        self.consume(Debt::MessageBlocks(m))?;
        self.consume(Debt::MessageStatus(m))?;
        let found = self.matched_result(message.call_id.as_str())?;
        if (found.status == ToolResultStatus::Error) != message.is_error {
            return Err(AdapterValidationError::SourceMismatch);
        }
        let ghost blocks = message.blocks@;
        let ghost start = self.ledger();
        let mut text: Vec<&str> = Vec::new();
        let mut images: Vec<&ImageView> = Vec::new();
        assert(texts_of(text@) =~= text_parts(blocks, 0));
        assert(images_of(images@) =~= image_parts(blocks, 0));
        let mut b: usize = 0;
        while b < message.blocks.len()
            invariant
                b <= blocks.len(),
                self.well_formed(),
                self.inputs() == inputs,
                pay_blocks(start, m, blocks, 0) == pay_blocks(self.ledger(), m, blocks, b as int),
                texts_of(text@) == text_parts(blocks, b as int),
                images_of(images@) == image_parts(blocks, b as int),
            decreases message.blocks.len() - b,
        {
            let ghost texts_before = texts_of(text@);
            let ghost images_before = images_of(images@);
            self.consume(Debt::BlockVariant(m, b))?;
            match &message.blocks[b] {
                ToolResultBlock::Text(block) => {
                    self.consume(Debt::BlockText(m, b))?;
                    text.push(block.text.as_str());
                    assert(texts_of(text@) =~= texts_before.push(block.text@));
                },
                ToolResultBlock::Image(view) => {
                    self.consume(Debt::BlockBytes(m, b))?;
                    self.consume(Debt::BlockMedia(m, b))?;
                    images.push(view);
                    assert(images_of(images@) =~= images_before.push(*view));
                },
            }
            b += 1;
        }
        composite(text.as_slice(), images.as_slice(), message.is_error)
    }
}

// ---------------------------------------------------------------------------
// All scalars
// ---------------------------------------------------------------------------

/// The texts of a list of strings.
pub open spec fn string_texts(values: Seq<String>) -> Seq<Seq<char>> {
    values.map_values(|value: String| value@)
}

/// The ledger after the system texts from text `i` on.
pub open spec fn pay_systems(ledger: Ledger, count: int, i: int) -> AdapterValidationResult<Ledger>
    decreases count - i,
{
    if i >= count {
        Ok(ledger)
    } else {
        match ledger.pay(Debt::System(i as usize)) {
            Err(error) => Err(error),
            Ok(next) => pay_systems(next, count, i + 1),
        }
    }
}

/// The system texts, joined by line feeds.
pub open spec fn system_joined_value(
    inputs: Inputs,
    transform: AdapterTransform,
    scope: Scope,
    ledger: Ledger,
) -> AdapterValidationResult<(JsonTree, Ledger)> {
    let texts = string_texts(inputs.original.system@);
    let text = joined_text(texts);
    if scope != Scope::Root || transform !is JoinLf {
        invalid()
    } else {
        match ledger.pay(Debt::SystemCollection) {
            Err(error) => Err(error),
            Ok(next) => paid(
                pay_systems(next, texts.len() as int, 0),
                if byte_len(text) > MAX_LOGICAL_CHARGE {
                    Err(AdapterValidationError::Limit)
                } else {
                    Ok(JsonTree::Text { value: text, derived: true })
                },
            ),
        }
    }
}

/// A scalar of a tool result.
pub open spec fn result_scalar_value(
    inputs: Inputs,
    source: AdapterScalarSource,
    transform: AdapterTransform,
    scope: Scope,
    ledger: Ledger,
) -> AdapterValidationResult<(JsonTree, Ledger)> {
    let contract = inputs.contract;
    let projection = projection_of(contract.wire_id);
    match result_of_scope(inputs.original, scope) {
        None => invalid(),
        Some((m, result)) => match source {
            AdapterScalarSource::ToolResultCallId => paid(
                ledger.pay(Debt::MessageCallId(m)),
                identity_value(transform, result.call_id@),
            ),
            AdapterScalarSource::ToolResultIsError => if projection == StatusProjection::Boolean
                && transform is Identity {
                paid(ledger.pay(Debt::MessageStatus(m)), Ok(JsonTree::Boolean(result.is_error)))
            } else {
                invalid()
            },
            AdapterScalarSource::ToolResultStatus => if projection == StatusProjection::Scalar {
                paid(
                    ledger.pay(Debt::MessageStatus(m)),
                    status_value(inputs, transform, result.is_error),
                )
            } else {
                invalid()
            },
            AdapterScalarSource::ToolResultName => if carries_result_name(contract.wire_id) {
                paid(
                    ledger.pay(Debt::MessageResultName(m)),
                    match matched_of(inputs.matched, result.call_id@) {
                        Some(found) => identity_value(transform, found.name),
                        None => Err(AdapterValidationError::SourceMismatch),
                    },
                )
            } else {
                invalid()
            },
            _ => invalid(),
        },
    }
}

/// The status of a tool result as a token of a table with exactly the tokens
/// for success and error.
pub open spec fn status_value(inputs: Inputs, transform: AdapterTransform, is_error: bool) ->
    AdapterValidationResult<JsonTree> {
    match token(
        inputs.contract,
        transform,
        AdapterEnumSource::ToolResultStatus,
        flag_number(is_error),
    ) {
        Err(error) => Err(error),
        Ok(value) => {
            let entries = inputs.contract.tree.tables@[transform->EnumToken_0 as int].entries@;
            if entries.len() >= 2 && entries[0].token@ == "success"@ && entries[1].token@
                == "error"@ {
                Ok(value)
            } else {
                invalid()
            }
        },
    }
}

/// A scalar of the request under a transform.
pub open spec fn scalar_value(
    inputs: Inputs,
    source: AdapterScalarSource,
    transform: AdapterTransform,
    scope: Scope,
    ledger: Ledger,
) -> AdapterValidationResult<(JsonTree, Ledger)> {
    let contract = inputs.contract;
    let original = inputs.original;
    let at_root = scope == Scope::Root;
    match source {
        AdapterScalarSource::SelectedModel => if at_root {
            paid(
                ledger.pay(Debt::SelectionPayload),
                identity_value(
                    transform,
                    match contract.model_source {
                        AdapterModelSource::RequestedSelection => selection_text(
                            original.selection,
                        ),
                        AdapterModelSource::CurrentModel => original.current_model.text@,
                    },
                ),
            )
        } else {
            invalid()
        },
        AdapterScalarSource::SelectionKind => if at_root {
            paid(
                ledger.note(Debt::SelectionKind),
                token(
                    contract,
                    transform,
                    AdapterEnumSource::SelectionKind,
                    selection_number(original.selection),
                ),
            )
        } else {
            invalid()
        },
        AdapterScalarSource::SystemItem => match scope {
            Scope::System(i) => paid(
                ledger.pay(Debt::System(i)),
                identity_value(transform, original.system@[i as int]@),
            ),
            Scope::SystemEntry(i) => paid(
                ledger.pay(Debt::System(i)),
                identity_value(transform, original.system@[i as int]@),
            ),
            _ => invalid(),
        },
        AdapterScalarSource::SystemJoined => system_joined_value(inputs, transform, scope, ledger),
        AdapterScalarSource::MessageRole => match message_of_scope(scope) {
            Some(m) => paid(
                ledger.note(Debt::MessageRole(m)),
                token(
                    contract,
                    transform,
                    AdapterEnumSource::MessageKind,
                    message_number(original.messages@[m as int]),
                ),
            ),
            None => invalid(),
        },
        AdapterScalarSource::BlockKind => block_kind_value(inputs, transform, scope, ledger),
        AdapterScalarSource::BlockText => block_text_value(inputs, transform, scope, ledger),
        AdapterScalarSource::ToolResultCallId
        | AdapterScalarSource::ToolResultIsError
        | AdapterScalarSource::ToolResultStatus
        | AdapterScalarSource::ToolResultName => result_scalar_value(
            inputs,
            source,
            transform,
            scope,
            ledger,
        ),
        AdapterScalarSource::MistralToolResultContent => mistral_content_value(
            inputs,
            transform,
            scope,
            ledger,
        ),
        AdapterScalarSource::ToolCallId
        | AdapterScalarSource::ToolCallName
        | AdapterScalarSource::ToolCallArguments => tool_call_scalar_value(
            inputs,
            source,
            transform,
            scope,
            ledger,
        ),
        AdapterScalarSource::ToolName
        | AdapterScalarSource::ToolDescription
        | AdapterScalarSource::ToolSchema => tool_scalar_value(
            inputs,
            source,
            transform,
            scope,
            ledger,
        ),
        AdapterScalarSource::ReasoningKind | AdapterScalarSource::Proof => reasoning_scalar_value(
            inputs,
            source,
            transform,
            scope,
            ledger,
        ),
        AdapterScalarSource::ImageBytes
        | AdapterScalarSource::ImageMediaType
        | AdapterScalarSource::ImageWidth
        | AdapterScalarSource::ImageHeight
        | AdapterScalarSource::ImageFrames
        | AdapterScalarSource::ImageDataUri => image_scalar_value(
            inputs,
            source,
            transform,
            scope,
            ledger,
        ),
        AdapterScalarSource::ToolChoiceKind
        | AdapterScalarSource::ToolChoiceName => tool_choice_scalar_value(
            inputs,
            source,
            transform,
            scope,
            ledger,
        ),
        AdapterScalarSource::ReasoningMode
        | AdapterScalarSource::ReasoningEffort
        | AdapterScalarSource::ReasoningBudget => reasoning_control_scalar_value(
            inputs,
            source,
            transform,
            scope,
            ledger,
        ),
        AdapterScalarSource::CacheRetention => if at_root {
            paid(
                ledger.note(Debt::CacheKind),
                token(
                    contract,
                    transform,
                    AdapterEnumSource::CacheRetention,
                    cache_number(original.cache_retention),
                ),
            )
        } else {
            invalid()
        },
        AdapterScalarSource::MaxOutput => match original.max_output_tokens {
            Some(value) if at_root => paid(
                ledger.pay(Debt::MaxOutput),
                number_value(transform is CheckedU64, value as nat),
            ),
            _ => invalid(),
        },
    }
}

/// The strings, joined by line feeds.
#[verifier::loop_isolation(false)]
pub fn join_lines(values: &Vec<String>) -> (result: AdapterValidationResult<String>)
    ensures
        match result {
            Ok(text) => text@ == joined_text(string_texts(values@)) && byte_len(text@)
                <= MAX_LOGICAL_CHARGE,
            Err(error) => error == AdapterValidationError::Limit && byte_len(
                joined_text(string_texts(values@)),
            ) > MAX_LOGICAL_CHARGE,
        },
{
    let ghost texts = string_texts(values@);
    let mut length: u64 = 0;
    let mut i: usize = 0;
    assert(byte_len(Seq::<char>::empty()) == 0);
    while i < values.len()
        invariant
            i <= values@.len(),
            length == byte_len(joined_to(texts, i as int)),
        decreases values.len() - i,
    {
        assert(texts[i as int] == values@[i as int]@);
        proof {
            lemma_joined_step(texts, i as int);
            lemma_joined_grows(texts, i as int + 1);
        }
        length = checked_add(length, values[i].as_str().as_bytes().len() as u64)?;
        if i != 0 {
            length = checked_add(length, 1)?;
        }
        i += 1;
    }
    if length > MAX_LOGICAL_CHARGE {
        return Err(AdapterValidationError::Limit);
    }
    let capacity: usize = length as usize;
    let mut joined = String::new();
    let mut k: usize = 0;
    while k < values.len()
        invariant
            k <= values@.len(),
            joined@ == joined_to(texts, k as int),
        decreases values.len() - k,
    {
        assert(texts[k as int] == values@[k as int]@);
        proof {
            lemma_joined_step(texts, k as int);
        }
        if k != 0 {
            joined.push('\n');
        }
        joined.push_str(values[k].as_str());
        assert(joined@ =~= joined_to(texts, k as int + 1));
        k += 1;
    }
    if joined.as_str().as_bytes().len() != capacity {
        return Err(AdapterValidationError::SourceMismatch);
    }
    Ok(joined)
}

impl<'a> Evaluator<'a> {
    /// The system texts, joined by line feeds.
    #[verifier::loop_isolation(false)]
    pub fn system_joined(&mut self, transform: &AdapterTransform, scope: Scope) -> (result:
        AdapterValidationResult<AdapterJson>)
        requires
            old(self).well_formed(),
            scope_exists(*old(self).original, scope),
        ensures
            final(self).follows(*old(self)),
            final(self).has_given(
                system_joined_value(old(self).inputs(), *transform, scope, old(self).ledger()),
                result,
            ),
    {
        require_root(scope)?;
        let asked = match transform {
            AdapterTransform::JoinLf => true,
            _ => false,
        };
        if !asked {
            return Err(AdapterValidationError::InvalidContract);
        }
        let ghost inputs = self.inputs();
        self.consume(Debt::SystemCollection)?;
        let ghost start = self.ledger();
        let count: usize = self.original.system.len();
        let mut i: usize = 0;
        while i < count
            invariant
                i <= count,
                self.well_formed(),
                self.inputs() == inputs,
                pay_systems(start, count as int, 0) == pay_systems(
                    self.ledger(),
                    count as int,
                    i as int,
                ),
            decreases count - i,
        {
            self.consume(Debt::System(i))?;
            i += 1;
        }
        let joined = join_lines(&self.original.system)?;
        Ok(AdapterJson::derived_string(joined.as_str()))
    }

    /// A scalar of a tool result.
    pub fn result_scalar(
        &mut self,
        source: AdapterScalarSource,
        transform: &AdapterTransform,
        scope: Scope,
    ) -> (result: AdapterValidationResult<AdapterJson>)
        requires
            old(self).well_formed(),
            scope_exists(*old(self).original, scope),
        ensures
            final(self).follows(*old(self)),
            final(self).has_given(
                result_scalar_value(
                    old(self).inputs(),
                    source,
                    *transform,
                    scope,
                    old(self).ledger(),
                ),
                result,
            ),
    {
        let (m, message): (usize, &ToolResultMessage) = tool_result(self.original, scope)?;
        let wire = self.contract.wire_id;
        match source {
            AdapterScalarSource::ToolResultCallId => {
                self.consume(Debt::MessageCallId(m))?;
                identity_string(transform, message.call_id.as_str())
            },
            AdapterScalarSource::ToolResultIsError => {
                if status_projection(wire) != StatusProjection::Boolean || !is_identity(transform) {
                    return Err(AdapterValidationError::InvalidContract);
                }
                self.consume(Debt::MessageStatus(m))?;
                Ok(AdapterJson::Boolean(message.is_error))
            },
            AdapterScalarSource::ToolResultStatus => {
                if status_projection(wire) != StatusProjection::Scalar {
                    return Err(AdapterValidationError::InvalidContract);
                }
                self.consume(Debt::MessageStatus(m))?;
                let value = self.enum_token(
                    transform,
                    AdapterEnumSource::ToolResultStatus,
                    flag_ordinal(message.is_error),
                )?;
                let table = enum_table(self.contract, transform)?;
                if table.entries.len() < 2 || !same_text(table.entries[0].token.as_str(), "success")
                    || !same_text(table.entries[1].token.as_str(), "error") {
                    return Err(AdapterValidationError::InvalidContract);
                }
                Ok(value)
            },
            AdapterScalarSource::ToolResultName => {
                if !requires_result_name(wire) {
                    return Err(AdapterValidationError::InvalidContract);
                }
                self.consume(Debt::MessageResultName(m))?;
                let found = self.matched_result(message.call_id.as_str())?;
                identity_string(transform, found.name)
            },
            _ => Err(AdapterValidationError::InvalidContract),
        }
    }

    /// A scalar of the request under a transform.
    pub fn scalar(
        &mut self,
        source: AdapterScalarSource,
        transform: &AdapterTransform,
        scope: Scope,
    ) -> (result: AdapterValidationResult<AdapterJson>)
        requires
            old(self).well_formed(),
            scope_exists(*old(self).original, scope),
        ensures
            final(self).follows(*old(self)),
            final(self).has_given(
                scalar_value(old(self).inputs(), source, *transform, scope, old(self).ledger()),
                result,
            ),
    {
        match source {
            AdapterScalarSource::SelectedModel => {
                require_root(scope)?;
                self.consume(Debt::SelectionPayload)?;
                let value = match self.contract.model_source {
                    AdapterModelSource::RequestedSelection => selection_payload(
                        &self.original.selection,
                    ),
                    AdapterModelSource::CurrentModel => self.original.current_model.text.as_str(),
                };
                identity_string(transform, value)
            },
            AdapterScalarSource::SelectionKind => {
                require_root(scope)?;
                self.consume_optional(Debt::SelectionKind)?;
                self.enum_token(
                    transform,
                    AdapterEnumSource::SelectionKind,
                    selection_ordinal(&self.original.selection),
                )
            },
            AdapterScalarSource::SystemItem => {
                let i: usize = match scope {
                    Scope::System(i) => i,
                    Scope::SystemEntry(i) => i,
                    _ => {
                        return Err(AdapterValidationError::InvalidContract);
                    },
                };
                self.consume(Debt::System(i))?;
                identity_string(transform, self.original.system[i].as_str())
            },
            AdapterScalarSource::SystemJoined => self.system_joined(transform, scope),
            AdapterScalarSource::MessageRole => {
                let m: usize = scope_message(scope)?;
                self.consume_optional(Debt::MessageRole(m))?;
                self.enum_token(
                    transform,
                    AdapterEnumSource::MessageKind,
                    message_ordinal(&self.original.messages[m]),
                )
            },
            AdapterScalarSource::BlockKind => self.block_kind(transform, scope),
            AdapterScalarSource::BlockText => self.block_text(transform, scope),
            AdapterScalarSource::ToolResultCallId
            | AdapterScalarSource::ToolResultIsError
            | AdapterScalarSource::ToolResultStatus
            | AdapterScalarSource::ToolResultName => self.result_scalar(source, transform, scope),
            AdapterScalarSource::MistralToolResultContent => self.mistral_content(transform, scope),
            AdapterScalarSource::ToolCallId
            | AdapterScalarSource::ToolCallName
            | AdapterScalarSource::ToolCallArguments => self.tool_call_scalar(
                source,
                transform,
                scope,
            ),
            AdapterScalarSource::ToolName
            | AdapterScalarSource::ToolDescription
            | AdapterScalarSource::ToolSchema => self.tool_scalar(source, transform, scope),
            AdapterScalarSource::ReasoningKind
            | AdapterScalarSource::Proof => self.reasoning_scalar(source, transform, scope),
            AdapterScalarSource::ImageBytes
            | AdapterScalarSource::ImageMediaType
            | AdapterScalarSource::ImageWidth
            | AdapterScalarSource::ImageHeight
            | AdapterScalarSource::ImageFrames
            | AdapterScalarSource::ImageDataUri => self.image_scalar(source, transform, scope),
            AdapterScalarSource::ToolChoiceKind
            | AdapterScalarSource::ToolChoiceName => self.tool_choice_scalar(
                source,
                transform,
                scope,
            ),
            AdapterScalarSource::ReasoningMode
            | AdapterScalarSource::ReasoningEffort
            | AdapterScalarSource::ReasoningBudget => self.reasoning_control_scalar(
                source,
                transform,
                scope,
            ),
            AdapterScalarSource::CacheRetention => {
                require_root(scope)?;
                self.consume_optional(Debt::CacheKind)?;
                self.enum_token(
                    transform,
                    AdapterEnumSource::CacheRetention,
                    cache_ordinal(&self.original.cache_retention),
                )
            },
            AdapterScalarSource::MaxOutput => {
                require_root(scope)?;
                match self.original.max_output_tokens {
                    Some(value) => {
                        self.consume(Debt::MaxOutput)?;
                        checked_u64(transform, value)
                    },
                    None => Err(AdapterValidationError::InvalidContract),
                }
            },
        }
    }
}

} // verus!
