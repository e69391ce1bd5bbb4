//! What the nodes of a contract come to for a request.
//!
//! Positions of cases are counted in the order in which the choices are declared,
//! from zero, and what a node carries is stated over the request alone.

use vstd::prelude::*;

use crate::provider_api::{
    AssistantBlock, CacheRetention, ImageMediaType, ImageView, Message, ModelSelection, PrepareInput,
    Reasoning, ReasoningBlock, ReasoningEffort, ReasoningKind, ToolCallBlock, ToolChoice,
    ToolResultBlock, ToolResultMessage, UserBlock,
};
use crate::provider_validation::adapter::debts::Debt;
use crate::provider_validation::adapter::encoding::{base64_padded, base64_unpadded, mime_text};
use crate::provider_validation::adapter::evaluate::{
    chosen, entered, evaluated, matched_from, omission, scope_exists, Inputs, Ledger, Scope,
};
use crate::provider_validation::adapter::json::{node_tree, JsonTree};
use crate::provider_validation::adapter::mistral::{joined_text, joined_to};
use crate::provider_validation::adapter::source::{
    decimal_text, pay_systems, scalar_value, string_texts, system_joined_value,
};
use crate::provider_validation::adapter::types::{
    AdapterCollection, AdapterEnumSource, AdapterModelSource, AdapterPresence,
    AdapterPresenceSource, AdapterScalarSource, AdapterTransform, AdapterValidationResult,
    AdapterVariantSource, AdapterWireId,
};
use crate::provider_validation::charge_laws::text_size;
use crate::provider_validation::prepare::MatchedText;
use crate::provider_validation::wire_json::{embedding_verdict, wire_verdict};
use crate::provider_validation::wire_text::document_text;

verus! {

// ---------------------------------------------------------------------------
// Positions
// ---------------------------------------------------------------------------

/// The position of the form of a selection.
pub open spec fn selection_position(selection: ModelSelection) -> int {
    match selection {
        ModelSelection::Exact(_) => 0,
        ModelSelection::Alias(_) => 1,
    }
}

/// The position of the kind of a message.
pub open spec fn message_position(message: Message) -> int {
    match message {
        Message::User(_) => 0,
        Message::Assistant(_) => 1,
        Message::ToolResult(_) => 2,
    }
}

/// The position of the kind of a block.
pub open spec fn block_position(message: Message, b: int) -> int {
    match message {
        Message::User(user) => match user.blocks@[b] {
            UserBlock::Text(_) => 0,
            UserBlock::Image(_) => 1,
        },
        Message::Assistant(assistant) => match assistant.blocks@[b] {
            AssistantBlock::Text(_) => 0,
            AssistantBlock::Reasoning(_) => 1,
            AssistantBlock::ToolCall(_) => 2,
        },
        Message::ToolResult(result) => match result.blocks@[b] {
            ToolResultBlock::Text(_) => 0,
            ToolResultBlock::Image(_) => 1,
        },
    }
}

/// The position of the status of a tool result: success, error.
pub open spec fn status_position(result: ToolResultMessage) -> int {
    if result.is_error {
        1
    } else {
        0
    }
}

/// The position of a tool choice: unset, auto, forbidden, specific.
pub open spec fn tool_choice_position(choice: ToolChoice) -> int {
    match choice {
        ToolChoice::Unset => 0,
        ToolChoice::Auto => 1,
        ToolChoice::Forbidden => 2,
        ToolChoice::Specific(_) => 3,
    }
}

/// The position of a reasoning mode: unset, disabled, enabled.
pub open spec fn reasoning_position(reasoning: Reasoning) -> int {
    match reasoning {
        Reasoning::Unset => 0,
        Reasoning::Disabled => 1,
        Reasoning::Enabled(_) => 2,
    }
}

/// The position of a reasoning effort: minimal, low, medium, high.
pub open spec fn effort_position(effort: ReasoningEffort) -> int {
    match effort {
        ReasoningEffort::Minimal => 0,
        ReasoningEffort::Low => 1,
        ReasoningEffort::Medium => 2,
        ReasoningEffort::High => 3,
    }
}

/// The position of a reasoning kind: thinking, summary.
pub open spec fn kind_position(kind: ReasoningKind) -> int {
    match kind {
        ReasoningKind::Thinking => 0,
        ReasoningKind::Summary => 1,
    }
}

/// The position of a cache retention: unset, disabled, request, session.
pub open spec fn cache_position(retention: CacheRetention) -> int {
    match retention {
        CacheRetention::Unset => 0,
        CacheRetention::Disabled => 1,
        CacheRetention::Request => 2,
        CacheRetention::Session => 3,
    }
}

/// The position of a media type: PNG, JPEG, GIF, WebP, TIFF.
pub open spec fn media_position(media: ImageMediaType) -> int {
    match media {
        ImageMediaType::Png => 0,
        ImageMediaType::Jpeg => 1,
        ImageMediaType::Gif => 2,
        ImageMediaType::Webp => 3,
        ImageMediaType::Tiff => 4,
    }
}

// ---------------------------------------------------------------------------
// Parts of a request
// ---------------------------------------------------------------------------

/// The position of the message of a scope.
pub open spec fn message_at(scope: Scope) -> Option<usize> {
    match scope {
        Scope::Message(m) => Some(m),
        Scope::MessageEntry(m) => Some(m),
        _ => None,
    }
}

/// The position of the block of a scope.
pub open spec fn block_at(scope: Scope) -> Option<(usize, usize)> {
    match scope {
        Scope::UserBlock(m, b) => Some((m, b)),
        Scope::AssistantBlock(m, b) => Some((m, b)),
        Scope::ToolResultBlock(m, b) => Some((m, b)),
        _ => None,
    }
}

/// The tool result of a scope.
pub open spec fn result_at(original: PrepareInput, scope: Scope) -> Option<ToolResultMessage> {
    match message_at(scope) {
        Some(m) => match original.messages@[m as int] {
            Message::ToolResult(result) => Some(result),
            _ => None,
        },
        None => None,
    }
}

/// The image of a scope.
pub open spec fn image_at(original: PrepareInput, scope: Scope) -> Option<ImageView> {
    match block_at(scope) {
        Some((m, b)) => match original.messages@[m as int] {
            Message::User(user) => match user.blocks@[b as int] {
                UserBlock::Image(image) => Some(image),
                _ => None,
            },
            Message::ToolResult(result) => match result.blocks@[b as int] {
                ToolResultBlock::Image(image) => Some(image),
                _ => None,
            },
            _ => None,
        },
        None => None,
    }
}

/// The text of a scope: of a text block or of reasoning.
pub open spec fn text_at(original: PrepareInput, scope: Scope) -> Option<Seq<char>> {
    match block_at(scope) {
        Some((m, b)) => match original.messages@[m as int] {
            Message::User(user) => match user.blocks@[b as int] {
                UserBlock::Text(text) => Some(text.text@),
                _ => None,
            },
            Message::Assistant(assistant) => match assistant.blocks@[b as int] {
                AssistantBlock::Text(text) => Some(text.text@),
                AssistantBlock::Reasoning(reasoning) => Some(reasoning.text@),
                _ => None,
            },
            Message::ToolResult(result) => match result.blocks@[b as int] {
                ToolResultBlock::Text(text) => Some(text.text@),
                _ => None,
            },
        },
        None => None,
    }
}

/// The call of a scope.
pub open spec fn call_at(original: PrepareInput, scope: Scope) -> Option<ToolCallBlock> {
    match block_at(scope) {
        Some((m, b)) => match original.messages@[m as int] {
            Message::Assistant(assistant) => match assistant.blocks@[b as int] {
                AssistantBlock::ToolCall(call) => Some(call),
                _ => None,
            },
            _ => None,
        },
        None => None,
    }
}

/// The reasoning of a scope.
pub open spec fn reasoning_at(original: PrepareInput, scope: Scope) -> Option<ReasoningBlock> {
    match block_at(scope) {
        Some((m, b)) => match original.messages@[m as int] {
            Message::Assistant(assistant) => match assistant.blocks@[b as int] {
                AssistantBlock::Reasoning(reasoning) => Some(reasoning),
                _ => None,
            },
            _ => None,
        },
        None => None,
    }
}

// ---------------------------------------------------------------------------
// Switches
// ---------------------------------------------------------------------------

/// The position of the case that a request takes in a switch, and the part that the
/// switch carries. A switch on the entries of the joint list carries none.
pub open spec fn case_of(
    wire: AdapterWireId,
    original: PrepareInput,
    source: AdapterVariantSource,
    scope: Scope,
) -> Option<(int, Option<Debt>)> {
    let messages = original.messages@;
    match source {
        AdapterVariantSource::ModelSelection => if scope is Root {
            Some((selection_position(original.selection), Some(Debt::SelectionVariant)))
        } else {
            None
        },
        AdapterVariantSource::SystemMessageEntry => match scope {
            Scope::SystemEntry(_) => Some((0, None)),
            Scope::MessageEntry(_) => Some((1, None)),
            _ => None,
        },
        AdapterVariantSource::Message => match message_at(scope) {
            Some(m) => Some((message_position(messages[m as int]), Some(Debt::MessageVariant(m)))),
            None => None,
        },
        AdapterVariantSource::UserBlock => match scope {
            Scope::UserBlock(m, b) => Some(
                (block_position(messages[m as int], b as int), Some(Debt::BlockVariant(m, b))),
            ),
            _ => None,
        },
        AdapterVariantSource::AssistantBlock => match scope {
            Scope::AssistantBlock(m, b) => Some(
                (block_position(messages[m as int], b as int), Some(Debt::BlockVariant(m, b))),
            ),
            _ => None,
        },
        AdapterVariantSource::ToolResultBlock => match scope {
            Scope::ToolResultBlock(m, b) => Some(
                (block_position(messages[m as int], b as int), Some(Debt::BlockVariant(m, b))),
            ),
            _ => None,
        },
        AdapterVariantSource::ToolResultStatus => match (wire, message_at(scope)) {
            (AdapterWireId::GoogleGenerativeAi, Some(m))
            | (AdapterWireId::GoogleVertex, Some(m)) => match messages[m as int] {
                Message::ToolResult(result) => Some(
                    (status_position(result), Some(Debt::MessageStatus(m))),
                ),
                _ => None,
            },
            _ => None,
        },
        AdapterVariantSource::ToolChoice => if scope is Root {
            Some((tool_choice_position(original.tool_choice), Some(Debt::ToolChoiceVariant)))
        } else {
            None
        },
        AdapterVariantSource::Reasoning => if scope is Root {
            Some((reasoning_position(original.reasoning), Some(Debt::ReasoningVariant)))
        } else {
            None
        },
        AdapterVariantSource::CacheRetention => if scope is Root {
            Some((cache_position(original.cache_retention), Some(Debt::CacheVariant)))
        } else {
            None
        },
    }
}

/// Whether a part was not carried yet.
pub open spec fn is_new(ledger: Ledger, part: Option<Debt>) -> bool {
    part matches Some(debt) ==> !ledger.consumed.contains(debt)
}

/// The ledger when a part has been carried.
pub open spec fn with_part(ledger: Ledger, part: Option<Debt>) -> Ledger {
    match part {
        Some(debt) => Ledger { consumed: ledger.consumed.insert(debt), ..ledger },
        None => ledger,
    }
}

/// A switch takes the case at the position of the request's choice, and carries the
/// choice, exactly when that choice has not been carried yet.
pub proof fn lemma_choices(
    inputs: Inputs,
    source: AdapterVariantSource,
    scope: Scope,
    ledger: Ledger,
)
    requires
        scope_exists(inputs.original, scope),
    ensures
        match case_of(inputs.contract.wire_id, inputs.original, source, scope) {
            Some((position, part)) => if is_new(ledger, part) {
                chosen(inputs, source, scope, ledger) matches Ok((ordinal, after)) && ordinal
                    == position && after == with_part(ledger, part)
            } else {
                chosen(inputs, source, scope, ledger) is Err
            },
            None => chosen(inputs, source, scope, ledger) is Err,
        },
{
}

/// A node that is always there and switches on a choice of the request has the
/// value of its case at the position of that choice, for the same scope.
pub proof fn lemma_switches(inputs: Inputs, index: int, scope: Scope, ledger: Ledger)
    requires
        scope_exists(inputs.original, scope),
        0 <= index < inputs.contract.tree.nodes@.len(),
        inputs.contract.tree.nodes@[index].body is Switch,
        inputs.contract.tree.nodes@[index].presence is Required,
        inputs.contract.tree.nodes@[index].presence_source is None,
    ensures
        ({
            let switch = inputs.contract.tree.nodes@[index].body->Switch_0;
            let value = evaluated(inputs, index, scope, ledger);
            match case_of(inputs.contract.wire_id, inputs.original, switch.source, scope) {
                Some((position, part)) => if is_new(ledger, part) && position < switch.cases@.len()
                    && switch.cases@[position].node < index {
                    let case = evaluated(
                        inputs,
                        switch.cases@[position].node as int,
                        scope,
                        with_part(ledger, part),
                    );
                    &&& case matches Ok((Some(_), _)) ==> value == case
                    &&& !(case matches Ok((Some(_), _))) ==> value is Err
                } else {
                    value is Err
                },
                None => value is Err,
            }
        }),
{
    let switch = inputs.contract.tree.nodes@[index].body->Switch_0;
    lemma_choices(inputs, switch.source, scope, ledger);
}

// ---------------------------------------------------------------------------
// Presence
// ---------------------------------------------------------------------------

/// Whether the optional part of a scope is there, and the part itself.
pub open spec fn optional_part(
    original: PrepareInput,
    source: AdapterPresenceSource,
    scope: Scope,
) -> Option<(bool, Debt)> {
    match source {
        AdapterPresenceSource::ReasoningProof => match (reasoning_at(original, scope), scope) {
            (Some(reasoning), Scope::AssistantBlock(m, b)) => Some(
                (reasoning.proof is Some, Debt::BlockProof(m, b)),
            ),
            _ => None,
        },
        AdapterPresenceSource::ReasoningEffort => match original.reasoning {
            Reasoning::Enabled(enabled) => Some((enabled.effort is Some, Debt::ReasoningEffort)),
            _ => None,
        },
        AdapterPresenceSource::ReasoningBudget => match original.reasoning {
            Reasoning::Enabled(enabled) => Some(
                (enabled.budget_tokens is Some, Debt::ReasoningBudget),
            ),
            _ => None,
        },
        AdapterPresenceSource::MaxOutput => Some(
            (original.max_output_tokens is Some, Debt::MaxOutput),
        ),
        _ => None,
    }
}

/// Whether a control of the request is set, and the control itself.
pub open spec fn control(original: PrepareInput, source: AdapterPresenceSource, scope: Scope) ->
    Option<(bool, Debt)> {
    match (source, scope) {
        (AdapterPresenceSource::ToolChoice, Scope::Root) => Some(
            (tool_choice_position(original.tool_choice) > 0, Debt::ToolChoiceVariant),
        ),
        (AdapterPresenceSource::Reasoning, Scope::Root) => Some(
            (reasoning_position(original.reasoning) > 0, Debt::ReasoningVariant),
        ),
        (AdapterPresenceSource::CacheRetention, Scope::Root) => Some(
            (cache_position(original.cache_retention) > 0, Debt::CacheVariant),
        ),
        _ => None,
    }
}

/// A node is left out exactly when it stands for a part that the request does not
/// have, or for a control that the request does not set. That part or control
/// counts as carried. A node that is always there has no such source.
pub proof fn lemma_presence(
    inputs: Inputs,
    presence: AdapterPresence,
    source: Option<AdapterPresenceSource>,
    scope: Scope,
    ledger: Ledger,
)
    requires
        scope_exists(inputs.original, scope),
    ensures
        ({
            let outcome = omission(inputs, presence, source, scope, ledger);
            let part = match (presence, source) {
                (AdapterPresence::OmitIfNone, Some(source)) => optional_part(
                    inputs.original,
                    source,
                    scope,
                ),
                (AdapterPresence::OmitForUnset, Some(source)) => control(
                    inputs.original,
                    source,
                    scope,
                ),
                _ => None,
            };
            match part {
                Some((true, _)) => outcome == AdapterValidationResult::<(bool, Ledger)>::Ok(
                    (false, ledger),
                ),
                Some((false, debt)) => if ledger.consumed.contains(debt) {
                    outcome is Err
                } else {
                    outcome == AdapterValidationResult::<(bool, Ledger)>::Ok(
                        (true, with_part(ledger, Some(debt))),
                    )
                },
                None => if presence is Required && source is None {
                    outcome == AdapterValidationResult::<(bool, Ledger)>::Ok((false, ledger))
                } else {
                    outcome is Err
                },
            }
        }),
{
}

// ---------------------------------------------------------------------------
// Collections
// ---------------------------------------------------------------------------

/// The scopes of the members of a collection, in order, and the parts that the
/// collection carries.
pub open spec fn members_of(
    wire: AdapterWireId,
    original: PrepareInput,
    collection: AdapterCollection,
    scope: Scope,
) -> Option<(Seq<Scope>, Set<Debt>)> {
    let systems = original.system@.len();
    let messages = original.messages@.len();
    match (collection, scope) {
        (AdapterCollection::System, Scope::Root) => Some(
            (Seq::new(systems, |i: int| Scope::System(i as usize)), set![Debt::SystemCollection]),
        ),
        (AdapterCollection::Messages, Scope::Root) => Some(
            (
                Seq::new(messages, |i: int| Scope::Message(i as usize)),
                set![Debt::MessagesCollection],
            ),
        ),
        (AdapterCollection::Tools, Scope::Root) => Some(
            (
                Seq::new(original.tools@.len(), |i: int| Scope::Tool(i as usize)),
                set![Debt::ToolsCollection],
            ),
        ),
        (AdapterCollection::SystemMessages, Scope::Root) => match wire {
            AdapterWireId::OpenAiCompletions | AdapterWireId::MistralConversations => Some(
                (
                    Seq::new(
                        systems + messages,
                        |i: int|
                            if i < systems {
                                Scope::SystemEntry(i as usize)
                            } else {
                                Scope::MessageEntry((i - systems) as usize)
                            },
                    ),
                    set![Debt::SystemCollection, Debt::MessagesCollection],
                ),
            ),
            _ => None,
        },
        (AdapterCollection::Blocks, Scope::Message(m))
        | (AdapterCollection::Blocks, Scope::MessageEntry(m)) => Some(
            (
                match original.messages@[m as int] {
                    Message::User(user) => Seq::new(
                        user.blocks@.len(),
                        |b: int| Scope::UserBlock(m, b as usize),
                    ),
                    Message::Assistant(assistant) => Seq::new(
                        assistant.blocks@.len(),
                        |b: int| Scope::AssistantBlock(m, b as usize),
                    ),
                    Message::ToolResult(result) => Seq::new(
                        result.blocks@.len(),
                        |b: int| Scope::ToolResultBlock(m, b as usize),
                    ),
                },
                set![Debt::MessageBlocks(m)],
            ),
        ),
        _ => None,
    }
}

/// A collection has a scope for each of its members, in order, system parts before
/// messages, and is carried once.
pub proof fn lemma_collections(
    inputs: Inputs,
    collection: AdapterCollection,
    scope: Scope,
    ledger: Ledger,
)
    requires
        scope_exists(inputs.original, scope),
    ensures
        match members_of(inputs.contract.wire_id, inputs.original, collection, scope) {
            Some((scopes, parts)) => {
                let open = collection is SystemMessages ==> scopes.len() <= 5_120;
                entered(inputs, collection, scope, ledger) is Ok <==> {
                    &&& open
                    &&& forall|debt: Debt| #[trigger]
                        parts.contains(debt) ==> !ledger.consumed.contains(debt)
                }
            },
            None => entered(inputs, collection, scope, ledger) is Err,
        },
        entered(inputs, collection, scope, ledger) matches Ok((found, after)) ==> {
            let (scopes, parts) = members_of(
                inputs.contract.wire_id,
                inputs.original,
                collection,
                scope,
            )->Some_0;
            found == scopes && after.optional == ledger.optional && after.consumed
                == ledger.consumed.union(parts)
        },
{
    let original = inputs.original;
    if let Some((scopes, parts)) = members_of(
        inputs.contract.wire_id,
        original,
        collection,
        scope,
    ) {
        match collection {
            AdapterCollection::System => assert(parts.contains(Debt::SystemCollection)),
            AdapterCollection::Messages => assert(parts.contains(Debt::MessagesCollection)),
            AdapterCollection::Tools => assert(parts.contains(Debt::ToolsCollection)),
            AdapterCollection::SystemMessages => {
                assert(parts.contains(Debt::SystemCollection));
                assert(parts.contains(Debt::MessagesCollection));
            },
            AdapterCollection::Blocks => assert(parts.contains(
                Debt::MessageBlocks(message_at(scope)->Some_0),
            )),
        }
        if let Ok((found, after)) = entered(inputs, collection, scope, ledger) {
            assert(found =~= scopes);
            assert(after.consumed =~= ledger.consumed.union(parts));
        }
    }
}

// ---------------------------------------------------------------------------
// Tokens and scalars
// ---------------------------------------------------------------------------

/// A text of the request as it stands.
pub open spec fn plain(text: Seq<char>) -> JsonTree {
    JsonTree::Text { value: text, derived: false }
}

/// A text that is made from the request, within the largest charge.
pub open spec fn made(text: Seq<char>) -> Option<JsonTree> {
    if text_size(text) <= 8_388_608 {
        Some(JsonTree::Text { value: text, derived: true })
    } else {
        None
    }
}

/// The token at a position of the table that a transform names, which is a table
/// of the given enumeration.
pub open spec fn token_at(
    inputs: Inputs,
    transform: AdapterTransform,
    source: AdapterEnumSource,
    position: int,
) -> Option<JsonTree> {
    let tables = inputs.contract.tree.tables@;
    match transform {
        AdapterTransform::EnumToken(t) => if t < tables.len() && tables[t as int].source == source
            && position < tables[t as int].entries@.len() {
            Some(plain(tables[t as int].entries@[position].token@))
        } else {
            None
        },
        _ => None,
    }
}

/// Bytes in standard base64, padded or not as the transform says.
pub open spec fn encoded(transform: AdapterTransform, bytes: Seq<u8>) -> Option<JsonTree> {
    match transform {
        AdapterTransform::Base64StandardPadded => if base64_padded(bytes).len() <= 8_388_608 {
            Some(JsonTree::Text { value: base64_padded(bytes), derived: true })
        } else {
            None
        },
        AdapterTransform::Base64StandardUnpadded => if base64_unpadded(bytes).len() <= 8_388_608 {
            Some(JsonTree::Text { value: base64_unpadded(bytes), derived: true })
        } else {
            None
        },
        _ => None,
    }
}

/// The beginning of the data URI of an image.
pub open spec fn uri_start(media: ImageMediaType) -> Seq<char> {
    match media {
        ImageMediaType::Png => "data:image/png;base64,"@,
        ImageMediaType::Jpeg => "data:image/jpeg;base64,"@,
        ImageMediaType::Gif => "data:image/gif;base64,"@,
        ImageMediaType::Webp => "data:image/webp;base64,"@,
        ImageMediaType::Tiff => "data:image/tiff;base64,"@,
    }
}

/// A text where the transform leaves it as it is.
pub open spec fn as_it_is(transform: AdapterTransform, text: Seq<char>) -> Option<JsonTree> {
    if transform is Identity {
        Some(plain(text))
    } else {
        None
    }
}

/// The name of the first answer to a call.
pub open spec fn answer_name(matched: Seq<MatchedText>, id: Seq<char>) -> Option<Seq<char>>
    decreases matched.len(),
{
    if matched.len() == 0 {
        None
    } else if matched[0].call_id == id {
        Some(matched[0].name)
    } else {
        answer_name(matched.drop_first(), id)
    }
}

/// The enumeration of the kinds of a scope's blocks.
pub open spec fn kinds_at(scope: Scope) -> AdapterEnumSource {
    match scope {
        Scope::UserBlock(_, _) => AdapterEnumSource::UserBlockKind,
        Scope::AssistantBlock(_, _) => AdapterEnumSource::AssistantBlockKind,
        _ => AdapterEnumSource::ToolResultBlockKind,
    }
}

/// The value of a scalar of the request under a transform.
pub open spec fn value_of(
    inputs: Inputs,
    source: AdapterScalarSource,
    transform: AdapterTransform,
    scope: Scope,
) -> Option<JsonTree> {
    let original = inputs.original;
    let messages = original.messages@;
    let wire = inputs.contract.wire_id;
    match source {
        AdapterScalarSource::SelectedModel => if scope is Root {
            as_it_is(
                transform,
                match (inputs.contract.model_source, original.selection) {
                    (AdapterModelSource::CurrentModel, _) => original.current_model.text@,
                    (_, ModelSelection::Exact(id)) => id.text@,
                    (_, ModelSelection::Alias(id)) => id.text@,
                },
            )
        } else {
            None
        },
        AdapterScalarSource::SelectionKind => if scope is Root {
            token_at(
                inputs,
                transform,
                AdapterEnumSource::SelectionKind,
                selection_position(original.selection),
            )
        } else {
            None
        },
        AdapterScalarSource::SystemItem => match scope {
            Scope::System(i) | Scope::SystemEntry(i) => as_it_is(
                transform,
                original.system@[i as int]@,
            ),
            _ => None,
        },
        AdapterScalarSource::SystemJoined => if scope is Root && transform is JoinLf {
            made(joined_text(string_texts(original.system@)))
        } else {
            None
        },
        AdapterScalarSource::MessageRole => match message_at(scope) {
            Some(m) => token_at(
                inputs,
                transform,
                AdapterEnumSource::MessageKind,
                message_position(messages[m as int]),
            ),
            None => None,
        },
        AdapterScalarSource::BlockKind => match block_at(scope) {
            Some((m, b)) => token_at(
                inputs,
                transform,
                kinds_at(scope),
                block_position(messages[m as int], b as int),
            ),
            None => None,
        },
        AdapterScalarSource::BlockText => match text_at(original, scope) {
            Some(text) => as_it_is(transform, text),
            None => None,
        },
        AdapterScalarSource::ToolResultCallId => match result_at(original, scope) {
            Some(result) => as_it_is(transform, result.call_id@),
            None => None,
        },
        AdapterScalarSource::ToolResultIsError => match (result_at(original, scope), wire) {
            (Some(result), AdapterWireId::AnthropicMessages)
            | (Some(result), AdapterWireId::PiMessages) => if transform is Identity {
                Some(JsonTree::Boolean(result.is_error))
            } else {
                None
            },
            _ => None,
        },
        AdapterScalarSource::ToolResultStatus => match (result_at(original, scope), wire) {
            (Some(result), AdapterWireId::BedrockConverseStream) => {
                let first = token_at(inputs, transform, AdapterEnumSource::ToolResultStatus, 0);
                let second = token_at(inputs, transform, AdapterEnumSource::ToolResultStatus, 1);
                if first == Some(plain("success"@)) && second == Some(plain("error"@)) {
                    Some(
                        plain(
                            if result.is_error {
                                "error"@
                            } else {
                                "success"@
                            },
                        ),
                    )
                } else {
                    None
                }
            },
            _ => None,
        },
        AdapterScalarSource::ToolResultName => match (result_at(original, scope), wire) {
            (Some(result), AdapterWireId::PiMessages)
            | (Some(result), AdapterWireId::GoogleGenerativeAi)
            | (Some(result), AdapterWireId::GoogleVertex)
            | (Some(result), AdapterWireId::MistralConversations) => match answer_name(
                inputs.matched,
                result.call_id@,
            ) {
                Some(name) => as_it_is(transform, name),
                None => None,
            },
            _ => None,
        },
        AdapterScalarSource::MistralToolResultContent => None,
        AdapterScalarSource::ToolCallId => match call_at(original, scope) {
            Some(call) => as_it_is(transform, call.call_id@),
            None => None,
        },
        AdapterScalarSource::ToolCallName => match call_at(original, scope) {
            Some(call) => as_it_is(transform, call.name@),
            None => None,
        },
        AdapterScalarSource::ToolCallArguments => match (call_at(original, scope), transform) {
            (Some(call), AdapterTransform::JsonSubtree) => if wire_verdict(call.arguments@, true)
                is Ok {
                Some(node_tree(call.arguments@.nodes, call.arguments@.root as int))
            } else {
                None
            },
            (Some(call), AdapterTransform::CanonicalJsonString) => if embedding_verdict(
                call.arguments@,
            ) is Ok {
                Some(JsonTree::Text { value: document_text(call.arguments@), derived: true })
            } else {
                None
            },
            _ => None,
        },
        AdapterScalarSource::ToolName => match scope {
            Scope::Tool(i) => if i < original.tools@.len() {
                as_it_is(transform, original.tools@[i as int].name@)
            } else {
                None
            },
            _ => None,
        },
        AdapterScalarSource::ToolDescription => match scope {
            Scope::Tool(i) => if i < original.tools@.len() {
                as_it_is(transform, original.tools@[i as int].description@)
            } else {
                None
            },
            _ => None,
        },
        AdapterScalarSource::ToolSchema => match scope {
            Scope::Tool(i) => if i < original.tools@.len() && transform is JsonSubtree
                && wire_verdict(original.tools@[i as int].input_schema@, true) is Ok {
                let schema = original.tools@[i as int].input_schema@;
                Some(node_tree(schema.nodes, schema.root as int))
            } else {
                None
            },
            _ => None,
        },
        AdapterScalarSource::ReasoningKind => match reasoning_at(original, scope) {
            Some(reasoning) => token_at(
                inputs,
                transform,
                AdapterEnumSource::ReasoningKind,
                kind_position(reasoning.kind),
            ),
            None => None,
        },
        AdapterScalarSource::Proof => match reasoning_at(original, scope) {
            Some(reasoning) => match reasoning.proof {
                Some(proof) => encoded(transform, proof.proof@),
                None => None,
            },
            None => None,
        },
        AdapterScalarSource::ImageBytes => match image_at(original, scope) {
            Some(image) => encoded(transform, image.bytes@),
            None => None,
        },
        AdapterScalarSource::ImageMediaType => match image_at(original, scope) {
            Some(image) => token_at(
                inputs,
                transform,
                AdapterEnumSource::ImageMediaType,
                media_position(image.media_type),
            ),
            None => None,
        },
        AdapterScalarSource::ImageWidth => match (image_at(original, scope), transform) {
            (Some(image), AdapterTransform::CheckedU32) => Some(
                JsonTree::Number(decimal_text(image.metadata.width as nat)),
            ),
            _ => None,
        },
        AdapterScalarSource::ImageHeight => match (image_at(original, scope), transform) {
            (Some(image), AdapterTransform::CheckedU32) => Some(
                JsonTree::Number(decimal_text(image.metadata.height as nat)),
            ),
            _ => None,
        },
        AdapterScalarSource::ImageFrames => match (image_at(original, scope), transform) {
            (Some(image), AdapterTransform::CheckedU32) => Some(
                JsonTree::Number(decimal_text(image.metadata.frames as nat)),
            ),
            _ => None,
        },
        AdapterScalarSource::ImageDataUri => match (image_at(original, scope), transform) {
            (Some(image), AdapterTransform::DataUri) => made(
                uri_start(image.media_type) + base64_padded(image.bytes@),
            ),
            _ => None,
        },
        AdapterScalarSource::ToolChoiceKind => if scope is Root {
            token_at(
                inputs,
                transform,
                AdapterEnumSource::ToolChoice,
                tool_choice_position(original.tool_choice),
            )
        } else {
            None
        },
        AdapterScalarSource::ToolChoiceName => match (original.tool_choice, scope) {
            (ToolChoice::Specific(choice), Scope::Root) => as_it_is(transform, choice.name@),
            _ => None,
        },
        AdapterScalarSource::ReasoningMode => if scope is Root {
            token_at(
                inputs,
                transform,
                AdapterEnumSource::ReasoningMode,
                reasoning_position(original.reasoning),
            )
        } else {
            None
        },
        AdapterScalarSource::ReasoningEffort => match (original.reasoning, scope) {
            (Reasoning::Enabled(enabled), Scope::Root) => match enabled.effort {
                Some(effort) => token_at(
                    inputs,
                    transform,
                    AdapterEnumSource::ReasoningEffort,
                    effort_position(effort),
                ),
                None => None,
            },
            _ => None,
        },
        AdapterScalarSource::ReasoningBudget => match (original.reasoning, scope) {
            (Reasoning::Enabled(enabled), Scope::Root) => match enabled.budget_tokens {
                Some(budget) => if transform is CheckedU64 {
                    Some(JsonTree::Number(decimal_text(budget as nat)))
                } else {
                    None
                },
                None => None,
            },
            _ => None,
        },
        AdapterScalarSource::CacheRetention => if scope is Root {
            token_at(
                inputs,
                transform,
                AdapterEnumSource::CacheRetention,
                cache_position(original.cache_retention),
            )
        } else {
            None
        },
        AdapterScalarSource::MaxOutput => match (original.max_output_tokens, scope) {
            (Some(maximum), Scope::Root) => if transform is CheckedU64 {
                Some(JsonTree::Number(decimal_text(maximum as nat)))
            } else {
                None
            },
            _ => None,
        },
    }
}

/// The part that a scalar carries, and whether a body owes it. Two sources carry
/// more parts.
pub open spec fn part_of(source: AdapterScalarSource, scope: Scope) -> (bool, Debt) {
    let m = match scope {
        Scope::Message(m) => m,
        Scope::MessageEntry(m) => m,
        Scope::UserBlock(m, _) => m,
        Scope::AssistantBlock(m, _) => m,
        Scope::ToolResultBlock(m, _) => m,
        Scope::System(i) => i,
        Scope::SystemEntry(i) => i,
        Scope::Tool(i) => i,
        Scope::Root => 0,
    };
    let b = match block_at(scope) {
        Some((_, b)) => b,
        None => 0,
    };
    match source {
        AdapterScalarSource::SelectedModel => (true, Debt::SelectionPayload),
        AdapterScalarSource::SelectionKind => (false, Debt::SelectionKind),
        AdapterScalarSource::SystemItem => (true, Debt::System(m)),
        AdapterScalarSource::SystemJoined => (true, Debt::SystemCollection),
        AdapterScalarSource::MessageRole => (false, Debt::MessageRole(m)),
        AdapterScalarSource::BlockKind => (false, Debt::BlockKind(m, b)),
        AdapterScalarSource::BlockText => (true, Debt::BlockText(m, b)),
        AdapterScalarSource::ToolResultCallId => (true, Debt::MessageCallId(m)),
        AdapterScalarSource::ToolResultIsError => (true, Debt::MessageStatus(m)),
        AdapterScalarSource::ToolResultStatus => (true, Debt::MessageStatus(m)),
        AdapterScalarSource::ToolResultName => (true, Debt::MessageResultName(m)),
        AdapterScalarSource::MistralToolResultContent => (true, Debt::MessageBlocks(m)),
        AdapterScalarSource::ToolCallId => (true, Debt::BlockCallId(m, b)),
        AdapterScalarSource::ToolCallName => (true, Debt::BlockCallName(m, b)),
        AdapterScalarSource::ToolCallArguments => (true, Debt::BlockArguments(m, b)),
        AdapterScalarSource::ToolName => (true, Debt::ToolName(m)),
        AdapterScalarSource::ToolDescription => (true, Debt::ToolDescription(m)),
        AdapterScalarSource::ToolSchema => (true, Debt::ToolSchema(m)),
        AdapterScalarSource::ReasoningKind => (true, Debt::BlockReasoningKind(m, b)),
        AdapterScalarSource::Proof => (true, Debt::BlockProof(m, b)),
        AdapterScalarSource::ImageBytes => (true, Debt::BlockBytes(m, b)),
        AdapterScalarSource::ImageMediaType => (true, Debt::BlockMedia(m, b)),
        AdapterScalarSource::ImageWidth => (false, Debt::BlockWidth(m, b)),
        AdapterScalarSource::ImageHeight => (false, Debt::BlockHeight(m, b)),
        AdapterScalarSource::ImageFrames => (false, Debt::BlockFrames(m, b)),
        AdapterScalarSource::ImageDataUri => (true, Debt::BlockBytes(m, b)),
        AdapterScalarSource::ToolChoiceKind => (false, Debt::ToolChoiceKind),
        AdapterScalarSource::ToolChoiceName => (true, Debt::ToolChoiceName),
        AdapterScalarSource::ReasoningMode => (false, Debt::ReasoningMode),
        AdapterScalarSource::ReasoningEffort => (true, Debt::ReasoningEffort),
        AdapterScalarSource::ReasoningBudget => (true, Debt::ReasoningBudget),
        AdapterScalarSource::CacheRetention => (false, Debt::CacheKind),
        AdapterScalarSource::MaxOutput => (true, Debt::MaxOutput),
    }
}

/// The ledger when a part has been carried that a body owes or not, unless it was
/// carried before.
pub open spec fn with_scalar(ledger: Ledger, part: (bool, Debt)) -> Option<Ledger> {
    if part.0 {
        if ledger.consumed.contains(part.1) {
            None
        } else {
            Some(Ledger { consumed: ledger.consumed.insert(part.1), ..ledger })
        }
    } else if ledger.optional.contains(part.1) {
        None
    } else {
        Some(Ledger { optional: ledger.optional.insert(part.1), ..ledger })
    }
}

proof fn lemma_answer_name(matched: Seq<MatchedText>, id: Seq<char>, i: int)
    requires
        0 <= i <= matched.len(),
    ensures
        answer_name(matched.skip(i), id) == match matched_from(matched, id, i) {
            Some(found) => Some(found.name),
            None => None,
        },
    decreases matched.len() - i,
{
    if i < matched.len() {
        lemma_answer_name(matched, id, i + 1);
        assert(matched.skip(i)[0] == matched[i]);
        assert(matched.skip(i).drop_first() =~= matched.skip(i + 1));
    }
}

/// The data URI of an image begins with its media type.
pub proof fn lemma_uri_start(media: ImageMediaType)
    ensures
        uri_start(media) == "data:"@ + mime_text(
            media,
        ) + ";base64,"@,
{
    reveal_strlit("data:");
    reveal_strlit(";base64,");
    reveal_strlit("image/png");
    reveal_strlit("image/jpeg");
    reveal_strlit("image/gif");
    reveal_strlit("image/webp");
    reveal_strlit("image/tiff");
    reveal_strlit("data:image/png;base64,");
    reveal_strlit("data:image/jpeg;base64,");
    reveal_strlit("data:image/gif;base64,");
    reveal_strlit("data:image/webp;base64,");
    reveal_strlit("data:image/tiff;base64,");
    let whole = "data:"@ + mime_text(media)
        + ";base64,"@;
    assert(uri_start(media).len() == whole.len());
    assert(uri_start(media) =~= whole);
}

/// A scalar has the value that it should, and carries its part, exactly when it has
/// one in its scope and the part was not carried before. The tokens of choices
/// stand at the positions of the choices. An image as a data URI, the joined system
/// texts and the content of a tool result in chunks carry more parts and are apart.
pub proof fn lemma_scalars(
    inputs: Inputs,
    source: AdapterScalarSource,
    transform: AdapterTransform,
    scope: Scope,
    ledger: Ledger,
)
    requires
        scope_exists(inputs.original, scope),
        source !is SystemJoined,
        source !is MistralToolResultContent,
        source !is ImageDataUri,
    ensures
        match (
            value_of(inputs, source, transform, scope),
            with_scalar(ledger, part_of(source, scope)),
        ) {
            (Some(value), Some(after)) => scalar_value(inputs, source, transform, scope, ledger)
                == AdapterValidationResult::<(JsonTree, Ledger)>::Ok((value, after)),
            _ => scalar_value(inputs, source, transform, scope, ledger) is Err,
        },
{
    if let Some(result) = result_at(inputs.original, scope) {
        lemma_answer_name(inputs.matched, result.call_id@, 0);
        assert(inputs.matched.skip(0) =~= inputs.matched);
    }
}

/// The data URI of an image carries both its bytes and its media type.
pub proof fn lemma_data_uris(
    inputs: Inputs,
    transform: AdapterTransform,
    scope: Scope,
    ledger: Ledger,
)
    requires
        scope_exists(inputs.original, scope),
    ensures
        ({
            let source = AdapterScalarSource::ImageDataUri;
            let outcome = scalar_value(inputs, source, transform, scope, ledger);
            match (value_of(inputs, source, transform, scope), block_at(scope)) {
                (Some(value), Some((m, b))) => if ledger.consumed.contains(Debt::BlockBytes(m, b))
                    || ledger.consumed.contains(Debt::BlockMedia(m, b)) {
                    outcome is Err
                } else {
                    outcome == AdapterValidationResult::<(JsonTree, Ledger)>::Ok(
                        (
                            value,
                            Ledger {
                                consumed: ledger.consumed.insert(Debt::BlockBytes(m, b)).insert(
                                    Debt::BlockMedia(m, b),
                                ),
                                ..ledger
                            },
                        ),
                    )
                },
                _ => outcome is Err,
            }
        }),
{
    if let Some(image) = image_at(inputs.original, scope) {
        lemma_uri_start(image.media_type);
    }
}

/// Whether a part is one of the system texts from text `i` on.
pub open spec fn is_system_text(debt: Debt, count: int, i: int) -> bool {
    debt matches Debt::System(k) && i <= k < count
}

proof fn lemma_pay_systems(ledger: Ledger, count: int, i: int)
    requires
        0 <= i <= count <= usize::MAX,
    ensures
        pay_systems(ledger, count, i) is Ok <==> forall|debt: Debt| #[trigger]
            ledger.consumed.contains(debt) ==> !is_system_text(debt, count, i),
        pay_systems(ledger, count, i) matches Ok(after) ==> after.optional == ledger.optional
            && after.consumed == ledger.consumed.union(
            Set::new(|debt: Debt| is_system_text(debt, count, i)),
        ),
    decreases count - i,
{
    let here = Debt::System(i as usize);
    if i >= count {
        assert(ledger.consumed.union(Set::new(|debt: Debt| is_system_text(debt, count, i)))
            =~= ledger.consumed);
    } else if ledger.consumed.contains(here) {
        assert(is_system_text(here, count, i));
    } else {
        let next = Ledger { consumed: ledger.consumed.insert(here), ..ledger };
        lemma_pay_systems(next, count, i + 1);
        let all = forall|debt: Debt| #[trigger]
            ledger.consumed.contains(debt) ==> !is_system_text(debt, count, i);
        let rest = forall|debt: Debt| #[trigger]
            next.consumed.contains(debt) ==> !is_system_text(debt, count, i + 1);
        if rest {
            assert forall|debt: Debt| #[trigger] ledger.consumed.contains(debt) implies
                !is_system_text(debt, count, i) by {
                assert(next.consumed.contains(debt));
                if is_system_text(debt, count, i) {
                    assert(debt == here);
                }
            }
        }
        assert(all == rest);
        if let Ok(after) = pay_systems(ledger, count, i) {
            assert(after.consumed =~= ledger.consumed.union(
                Set::new(|debt: Debt| is_system_text(debt, count, i)),
            ));
        }
    }
}

/// Whether a part is the list of the system texts or one of the texts.
pub open spec fn is_system_part(debt: Debt, count: int) -> bool {
    debt is SystemCollection || is_system_text(debt, count, 0)
}

/// Whether no part of the system texts was carried.
pub open spec fn has_no_system_part(ledger: Ledger, count: int) -> bool {
    forall|debt: Debt| #[trigger]
        ledger.consumed.contains(debt) ==> !is_system_part(debt, count)
}

proof fn lemma_system_parts(ledger: Ledger, count: int)
    requires
        0 <= count <= usize::MAX,
    ensures
        ({
            let opened = Ledger {
                consumed: ledger.consumed.insert(Debt::SystemCollection),
                ..ledger
            };
            &&& has_no_system_part(ledger, count) <==> !ledger.consumed.contains(
                Debt::SystemCollection,
            ) && pay_systems(opened, count, 0) is Ok
            &&& pay_systems(opened, count, 0) matches Ok(after) ==> after.optional
                == ledger.optional && after.consumed == ledger.consumed.union(
                Set::new(|debt: Debt| is_system_part(debt, count)),
            )
        }),
{
    let opened = Ledger { consumed: ledger.consumed.insert(Debt::SystemCollection), ..ledger };
    lemma_pay_systems(opened, count, 0);
    if ledger.consumed.contains(Debt::SystemCollection) {
        assert(is_system_part(Debt::SystemCollection, count));
    } else if pay_systems(opened, count, 0) is Ok {
        assert forall|debt: Debt| #[trigger] ledger.consumed.contains(debt) implies
            !is_system_part(debt, count) by {
            assert(opened.consumed.contains(debt));
        }
    }
    if let Ok(after) = pay_systems(opened, count, 0) {
        assert(after.consumed =~= ledger.consumed.union(
            Set::new(|debt: Debt| is_system_part(debt, count)),
        ));
    }
}

/// The joined system texts carry the list and each of the texts.
pub proof fn lemma_joined_systems(
    inputs: Inputs,
    transform: AdapterTransform,
    scope: Scope,
    ledger: Ledger,
)
    ensures
        ({
            let count = inputs.original.system@.len() as int;
            let text = joined_text(string_texts(inputs.original.system@));
            let outcome = system_joined_value(inputs, transform, scope, ledger);
            &&& outcome is Ok <==> {
                &&& scope is Root
                &&& transform is JoinLf
                &&& text_size(text) <= 8_388_608
                &&& has_no_system_part(ledger, count)
            }
            &&& outcome matches Ok((value, after)) ==> {
                &&& value == JsonTree::Text { value: text, derived: true }
                &&& after.optional == ledger.optional
                &&& after.consumed == ledger.consumed.union(
                    Set::new(|debt: Debt| is_system_part(debt, count)),
                )
            }
        }),
        scalar_value(inputs, AdapterScalarSource::SystemJoined, transform, scope, ledger)
            == system_joined_value(inputs, transform, scope, ledger),
{
    let count = inputs.original.system@.len() as int;
    assert(string_texts(inputs.original.system@).len() == inputs.original.system.len());
    lemma_system_parts(ledger, count);
}

/// Texts are joined by line feeds: none gives the empty text, and one more text
/// comes after a line feed, unless it is the first.
pub proof fn lemma_joined_texts(texts: Seq<Seq<char>>, text: Seq<char>)
    ensures
        joined_text(Seq::empty()) == Seq::<char>::empty(),
        joined_text(texts.push(text)) == if texts.len() == 0 {
            text
        } else {
            joined_text(texts) + seq!['\n'] + text
        },
{
    let longer = texts.push(text);
    lemma_joined_prefix(texts, text, texts.len() as int);
    assert(longer[texts.len() as int] == text);
}

proof fn lemma_joined_prefix(texts: Seq<Seq<char>>, text: Seq<char>, n: int)
    requires
        0 <= n <= texts.len(),
    ensures
        joined_to(texts.push(text), n) == joined_to(texts, n),
    decreases n,
{
    if n > 0 {
        lemma_joined_prefix(texts, text, n - 1);
        assert(texts.push(text)[n - 1] == texts[n - 1]);
    }
}

/// A number is written in decimal digits, the first of which is zero only for
/// zero itself, and its digits have its value.
pub proof fn lemma_decimal(value: nat)
    ensures
        decimal_text(value).len() > 0,
        digits_value(decimal_text(value)) == value,
        forall|i: int|
            0 <= i < decimal_text(value).len() ==> '0' <= #[trigger] decimal_text(value)[i] <= '9',
        value > 0 ==> decimal_text(value)[0] != '0',
    decreases value,
{
    reveal_with_fuel(digits_value, 2);
    if value < 10 {
        assert(decimal_text(value).drop_last() =~= Seq::empty());
    } else {
        lemma_decimal(value / 10);
        assert(decimal_text(value).drop_last() =~= decimal_text(value / 10));
        assert(decimal_text(value)[0] == decimal_text(value / 10)[0]);
    }
}

/// The value of decimal digits.
pub open spec fn digits_value(text: Seq<char>) -> int
    decreases text.len(),
{
    if text.len() == 0 {
        0
    } else {
        digits_value(text.drop_last()) * 10 + (text.last() as int - '0' as int)
    }
}

} // verus!
