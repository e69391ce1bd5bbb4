//! Lexical and wire-policy rules for closed adapter contracts.

use vstd::prelude::*;

use crate::provider_validation::adapter::types::{
    legal, AdapterCollection, AdapterContractV1, AdapterEnumSource, AdapterPresence,
    AdapterPresenceSource, AdapterScalarSource, AdapterTransform, AdapterValidationError,
    AdapterValidationResult, AdapterVariantSource, AdapterWireId, ContractNode, ContractNodeBody,
    ContractSwitch,
};
use crate::text::same_text;

verus! {

/// What a contract node can see.
#[derive(Debug, Clone, Copy, PartialEq, Eq, Structural)]
pub enum LexicalScope {
    Root,
    System,
    SystemMessageEntry,
    Message,
    MessageEntry,
    UserBlock,
    AssistantBlock,
    ToolResultBlock,
    Tool,
}

/// A case of a switch that encloses a node.
#[derive(Debug, Clone, Copy, PartialEq, Eq, Structural)]
pub struct ActiveCase {
    pub source: AdapterVariantSource,
    pub ordinal: u8,
}

/// Which collections of the request the root has used so far.
#[derive(Debug, Clone, Copy, PartialEq, Eq, Structural)]
pub struct RootCollectionAccounting {
    pub system_messages: bool,
    pub system: bool,
    pub messages: bool,
    pub system_joined: bool,
}

/// How a Mistral tool result has been used so far: block by block, or as one
/// composite.
#[derive(Debug, Clone, Copy, PartialEq, Eq, Structural)]
pub struct MistralAccounting {
    pub normal_blocks: u8,
    pub composites: u8,
}

/// The state of a walk over a contract.
#[derive(Debug)]
pub struct Context {
    pub scope: LexicalScope,
    pub cases: Vec<ActiveCase>,
    pub wrappers: Vec<AdapterPresenceSource>,
    pub root_collections: RootCollectionAccounting,
}

/// What encloses a node: its scope, the cases of the switches above it and the
/// presence rules above it.
#[verifier::ext_equal]
pub struct Surroundings {
    pub scope: LexicalScope,
    pub cases: Seq<ActiveCase>,
    pub wrappers: Seq<AdapterPresenceSource>,
}

/// What a walk has counted.
#[verifier::ext_equal]
pub struct Accounts {
    pub root: RootCollectionAccounting,
    pub mistral: Seq<MistralAccounting>,
}

impl Context {
    /// What encloses the current node.
    pub open spec fn surroundings(self) -> Surroundings {
        Surroundings { scope: self.scope, cases: self.cases@, wrappers: self.wrappers@ }
    }
}

// ---------------------------------------------------------------------------
// Contract nodes
// ---------------------------------------------------------------------------

/// The child nodes of a node.
pub open spec fn references_of(body: ContractNodeBody) -> Seq<u32> {
    match body {
        ContractNodeBody::Object(object) => object.children@,
        ContractNodeBody::Array(array) => seq![array.item],
        ContractNodeBody::Switch(switch) => Seq::new(
            switch.cases@.len(),
            |i: int| switch.cases@[i].node,
        ),
        ContractNodeBody::Value(_) => Seq::empty(),
        ContractNodeBody::Constant(_) => Seq::empty(),
    }
}

/// Every node of a contract stands after its children.
pub open spec fn is_ordered(nodes: Seq<ContractNode>) -> bool {
    forall|index: int, k: int|
        0 <= index < nodes.len() && 0 <= k < references_of(nodes[index].body).len()
            ==> #[trigger] references_of(nodes[index].body)[k] < index
}

// ---------------------------------------------------------------------------
// Questions about the surroundings
// ---------------------------------------------------------------------------

/// The case of the innermost enclosing switch on a source.
pub open spec fn innermost_case(cases: Seq<ActiveCase>, source: AdapterVariantSource) -> Option<u8>
    decreases cases.len(),
{
    if cases.len() == 0 {
        None
    } else if cases.last().source == source {
        Some(cases.last().ordinal)
    } else {
        innermost_case(cases.drop_last(), source)
    }
}

/// The case of the innermost enclosing switch on a source.
pub fn active_ordinal(context: &Context, source: AdapterVariantSource) -> (ordinal: Option<u8>)
    ensures
        ordinal == innermost_case(context.cases@, source),
{
    let mut n: usize = context.cases.len();
    assert(context.cases@.take(n as int) =~= context.cases@);
    while n > 0
        invariant
            n <= context.cases@.len(),
            innermost_case(context.cases@, source) == innermost_case(
                context.cases@.take(n as int),
                source,
            ),
        decreases n,
    {
        assert(context.cases@.take(n as int).drop_last() =~= context.cases@.take(n as int - 1));
        let case: ActiveCase = context.cases[n - 1];
        if case.source == source {
            return Some(case.ordinal);
        }
        n -= 1;
    }
    None
}

/// Whether a switch on a source encloses the node.
pub fn in_switch(context: &Context, source: AdapterVariantSource) -> (found: bool)
    ensures
        found == innermost_case(context.cases@, source) is Some,
{
    active_ordinal(context, source).is_some()
}

/// Whether the innermost enclosing case of a switch on a source has a number.
pub fn is_active(context: &Context, source: AdapterVariantSource, ordinal: u8) -> (found: bool)
    ensures
        found == (innermost_case(context.cases@, source) == Some(ordinal)),
{
    match active_ordinal(context, source) {
        Some(active) => active == ordinal,
        None => false,
    }
}

/// Whether a presence rule on a source encloses the node.
pub fn has_wrapper(context: &Context, source: AdapterPresenceSource) -> (found: bool)
    ensures
        found == context.wrappers@.contains(source),
{
    let mut i: usize = 0;
    while i < context.wrappers.len()
        invariant
            i <= context.wrappers@.len(),
            forall|j: int| 0 <= j < i ==> #[trigger] context.wrappers@[j] != source,
        decreases context.wrappers.len() - i,
    {
        if context.wrappers[i] == source {
            assert(context.wrappers@[i as int] == source);
            return true;
        }
        i += 1;
    }
    false
}

/// Whether a scope is that of a message.
pub open spec fn is_message_scope(scope: LexicalScope) -> bool {
    scope == LexicalScope::Message || scope == LexicalScope::MessageEntry
}

/// Whether the node stands in a tool result message.
pub open spec fn in_tool_result(around: Surroundings) -> bool {
    is_message_scope(around.scope) && innermost_case(around.cases, AdapterVariantSource::Message)
        == Some(2u8)
}

/// Whether the node stands in a text block.
pub open spec fn in_text_block(around: Surroundings) -> bool {
    match around.scope {
        LexicalScope::UserBlock => innermost_case(around.cases, AdapterVariantSource::UserBlock)
            == Some(0u8),
        LexicalScope::AssistantBlock => {
            let active = innermost_case(around.cases, AdapterVariantSource::AssistantBlock);
            active == Some(0u8) || active == Some(1u8)
        },
        LexicalScope::ToolResultBlock => innermost_case(
            around.cases,
            AdapterVariantSource::ToolResultBlock,
        ) == Some(0u8),
        _ => false,
    }
}

/// Whether the node stands in an image block.
pub open spec fn in_image_block(around: Surroundings) -> bool {
    &&& around.scope == LexicalScope::UserBlock || around.scope == LexicalScope::ToolResultBlock
    &&& innermost_case(around.cases, AdapterVariantSource::UserBlock) == Some(1u8)
        || innermost_case(around.cases, AdapterVariantSource::ToolResultBlock) == Some(1u8)
}

/// Whether the node stands in a tool result message.
pub fn is_tool_result_message(context: &Context) -> (found: bool)
    ensures
        found == in_tool_result(context.surroundings()),
{
    (context.scope == LexicalScope::Message || context.scope == LexicalScope::MessageEntry)
        && is_active(context, AdapterVariantSource::Message, 2)
}

/// Whether the node stands in a text block.
pub fn is_text_block(context: &Context) -> (found: bool)
    ensures
        found == in_text_block(context.surroundings()),
{
    match context.scope {
        LexicalScope::UserBlock => is_active(context, AdapterVariantSource::UserBlock, 0),
        LexicalScope::AssistantBlock => is_active(context, AdapterVariantSource::AssistantBlock, 0)
            || is_active(context, AdapterVariantSource::AssistantBlock, 1),
        LexicalScope::ToolResultBlock => is_active(
            context,
            AdapterVariantSource::ToolResultBlock,
            0,
        ),
        _ => false,
    }
}

/// Whether the node stands in an image block.
pub fn is_image_block(context: &Context) -> (found: bool)
    ensures
        found == in_image_block(context.surroundings()),
{
    (context.scope == LexicalScope::UserBlock || context.scope == LexicalScope::ToolResultBlock) && (
    is_active(context, AdapterVariantSource::UserBlock, 1) || is_active(
        context,
        AdapterVariantSource::ToolResultBlock,
        1,
    ))
}

// ---------------------------------------------------------------------------
// Presence rules
// ---------------------------------------------------------------------------

/// Whether a presence rule may stand on a node.
pub open spec fn is_legal_wrapper(
    presence: AdapterPresence,
    source: Option<AdapterPresenceSource>,
    around: Surroundings,
) -> bool {
    let at_root = around.scope == LexicalScope::Root;
    match source {
        None => presence == AdapterPresence::Required,
        Some(source) => !around.wrappers.contains(source) && match source {
            AdapterPresenceSource::ReasoningProof => presence == AdapterPresence::OmitIfNone
                && around.scope == LexicalScope::AssistantBlock && innermost_case(
                around.cases,
                AdapterVariantSource::AssistantBlock,
            ) == Some(1u8),
            AdapterPresenceSource::ReasoningEffort
            | AdapterPresenceSource::ReasoningBudget => presence == AdapterPresence::OmitIfNone
                && at_root && innermost_case(around.cases, AdapterVariantSource::Reasoning) == Some(
                2u8,
            ),
            AdapterPresenceSource::MaxOutput => presence == AdapterPresence::OmitIfNone && at_root,
            AdapterPresenceSource::ToolChoice
            | AdapterPresenceSource::Reasoning
            | AdapterPresenceSource::CacheRetention => presence == AdapterPresence::OmitForUnset
                && at_root,
        },
    }
}

/// Checks that a presence rule may stand on a node.
pub fn validate_wrapper(
    presence: AdapterPresence,
    source: Option<AdapterPresenceSource>,
    context: &Context,
) -> (result: AdapterValidationResult<()>)
    ensures
        result == legal(is_legal_wrapper(presence, source, context.surroundings())),
{
    let at_root = context.scope == LexicalScope::Root;
    let valid = match source {
        None => presence == AdapterPresence::Required,
        Some(source) => !has_wrapper(context, source) && match source {
            AdapterPresenceSource::ReasoningProof => presence == AdapterPresence::OmitIfNone
                && context.scope == LexicalScope::AssistantBlock && is_active(
                context,
                AdapterVariantSource::AssistantBlock,
                1,
            ),
            AdapterPresenceSource::ReasoningEffort
            | AdapterPresenceSource::ReasoningBudget => presence == AdapterPresence::OmitIfNone
                && at_root && is_active(context, AdapterVariantSource::Reasoning, 2),
            AdapterPresenceSource::MaxOutput => presence == AdapterPresence::OmitIfNone && at_root,
            AdapterPresenceSource::ToolChoice
            | AdapterPresenceSource::Reasoning
            | AdapterPresenceSource::CacheRetention => presence == AdapterPresence::OmitForUnset
                && at_root,
        },
    };
    if valid {
        Ok(())
    } else {
        Err(AdapterValidationError::InvalidContract)
    }
}

// ---------------------------------------------------------------------------
// Switches
// ---------------------------------------------------------------------------

/// Whether a switch on a source may stand here.
pub open spec fn is_legal_switch(
    wire: AdapterWireId,
    source: AdapterVariantSource,
    around: Surroundings,
) -> bool {
    let at_root = around.scope == LexicalScope::Root;
    match source {
        AdapterVariantSource::ModelSelection => at_root,
        AdapterVariantSource::SystemMessageEntry => around.scope
            == LexicalScope::SystemMessageEntry,
        AdapterVariantSource::Message => is_message_scope(around.scope),
        AdapterVariantSource::UserBlock => around.scope == LexicalScope::UserBlock,
        AdapterVariantSource::AssistantBlock => around.scope == LexicalScope::AssistantBlock,
        AdapterVariantSource::ToolResultBlock => around.scope == LexicalScope::ToolResultBlock,
        AdapterVariantSource::ToolResultStatus => (wire == AdapterWireId::GoogleGenerativeAi || wire
            == AdapterWireId::GoogleVertex) && in_tool_result(around),
        AdapterVariantSource::ToolChoice => at_root && around.wrappers.contains(
            AdapterPresenceSource::ToolChoice,
        ),
        AdapterVariantSource::Reasoning => at_root && around.wrappers.contains(
            AdapterPresenceSource::Reasoning,
        ),
        AdapterVariantSource::CacheRetention => at_root && around.wrappers.contains(
            AdapterPresenceSource::CacheRetention,
        ),
    }
}

/// Checks that a switch on a source may stand here.
pub fn validate_switch(wire: AdapterWireId, source: AdapterVariantSource, context: &Context) -> (result:
    AdapterValidationResult<()>)
    ensures
        result == legal(is_legal_switch(wire, source, context.surroundings())),
{
    let at_root = context.scope == LexicalScope::Root;
    let valid = match source {
        AdapterVariantSource::ModelSelection => at_root,
        AdapterVariantSource::SystemMessageEntry => context.scope
            == LexicalScope::SystemMessageEntry,
        AdapterVariantSource::Message => context.scope == LexicalScope::Message || context.scope
            == LexicalScope::MessageEntry,
        AdapterVariantSource::UserBlock => context.scope == LexicalScope::UserBlock,
        AdapterVariantSource::AssistantBlock => context.scope == LexicalScope::AssistantBlock,
        AdapterVariantSource::ToolResultBlock => context.scope == LexicalScope::ToolResultBlock,
        AdapterVariantSource::ToolResultStatus => (wire == AdapterWireId::GoogleGenerativeAi || wire
            == AdapterWireId::GoogleVertex) && is_tool_result_message(context),
        AdapterVariantSource::ToolChoice => at_root && has_wrapper(
            context,
            AdapterPresenceSource::ToolChoice,
        ),
        AdapterVariantSource::Reasoning => at_root && has_wrapper(
            context,
            AdapterPresenceSource::Reasoning,
        ),
        AdapterVariantSource::CacheRetention => at_root && has_wrapper(
            context,
            AdapterPresenceSource::CacheRetention,
        ),
    };
    if valid {
        Ok(())
    } else {
        Err(AdapterValidationError::InvalidContract)
    }
}

// ---------------------------------------------------------------------------
// Collections
// ---------------------------------------------------------------------------

/// Whether the root may use a collection after those it has used.
pub open spec fn is_legal_collection(
    collection: AdapterCollection,
    scope: LexicalScope,
    root: RootCollectionAccounting,
) -> bool {
    scope == LexicalScope::Root ==> match collection {
        AdapterCollection::SystemMessages => !root.system_messages && !root.system && !root.messages
            && !root.system_joined,
        AdapterCollection::System => !root.system_messages,
        AdapterCollection::Messages => !root.system_messages,
        AdapterCollection::Blocks => true,
        AdapterCollection::Tools => true,
    }
}

/// What the root has used after one more collection.
pub open spec fn with_collection(
    collection: AdapterCollection,
    scope: LexicalScope,
    root: RootCollectionAccounting,
) -> RootCollectionAccounting {
    if scope != LexicalScope::Root {
        root
    } else {
        match collection {
            AdapterCollection::SystemMessages => RootCollectionAccounting {
                system_messages: true,
                ..root
            },
            AdapterCollection::System => RootCollectionAccounting { system: true, ..root },
            AdapterCollection::Messages => RootCollectionAccounting { messages: true, ..root },
            AdapterCollection::Blocks => root,
            AdapterCollection::Tools => root,
        }
    }
}

/// Checks and records the use of a collection by the root.
pub fn validate_root_collection(collection: AdapterCollection, context: &mut Context) -> (result:
    AdapterValidationResult<()>)
    ensures
        result == legal(
            is_legal_collection(collection, old(context).scope, old(context).root_collections),
        ),
        final(context).surroundings() == old(context).surroundings(),
        final(context).root_collections == with_collection(
            collection,
            old(context).scope,
            old(context).root_collections,
        ),
{
    if context.scope != LexicalScope::Root {
        return Ok(());
    }
    let valid = match collection {
        AdapterCollection::SystemMessages => {
            let valid = !context.root_collections.system_messages
                && !context.root_collections.system && !context.root_collections.messages
                && !context.root_collections.system_joined;
            context.root_collections.system_messages = true;
            valid
        },
        AdapterCollection::System => {
            context.root_collections.system = true;
            !context.root_collections.system_messages
        },
        AdapterCollection::Messages => {
            context.root_collections.messages = true;
            !context.root_collections.system_messages
        },
        AdapterCollection::Blocks | AdapterCollection::Tools => true,
    };
    if valid {
        Ok(())
    } else {
        Err(AdapterValidationError::InvalidContract)
    }
}

/// Whether the joined system text may stand here.
pub open spec fn is_legal_join(scope: LexicalScope, root: RootCollectionAccounting) -> bool {
    scope == LexicalScope::Root && !root.system_messages
}

/// Checks and records the use of the joined system text.
pub fn validate_system_joined(context: &mut Context) -> (result: AdapterValidationResult<()>)
    ensures
        result == legal(is_legal_join(old(context).scope, old(context).root_collections)),
        final(context).surroundings() == old(context).surroundings(),
        result is Ok ==> final(context).root_collections == (RootCollectionAccounting {
            system_joined: true,
            ..old(context).root_collections
        }),
{
    if context.scope != LexicalScope::Root || context.root_collections.system_messages {
        return Err(AdapterValidationError::InvalidContract);
    }
    context.root_collections.system_joined = true;
    Ok(())
}

/// The scope of the items of a collection.
pub open spec fn item_scope(collection: AdapterCollection, around: Surroundings) -> Option<
    LexicalScope,
> {
    let at_root = around.scope == LexicalScope::Root;
    match collection {
        AdapterCollection::System => if at_root {
            Some(LexicalScope::System)
        } else {
            None
        },
        AdapterCollection::Messages => if at_root {
            Some(LexicalScope::Message)
        } else {
            None
        },
        AdapterCollection::SystemMessages => if at_root {
            Some(LexicalScope::SystemMessageEntry)
        } else {
            None
        },
        AdapterCollection::Tools => if at_root {
            Some(LexicalScope::Tool)
        } else {
            None
        },
        AdapterCollection::Blocks => if !is_message_scope(around.scope) {
            None
        } else {
            match innermost_case(around.cases, AdapterVariantSource::Message) {
                Some(0u8) => Some(LexicalScope::UserBlock),
                Some(1u8) => Some(LexicalScope::AssistantBlock),
                Some(2u8) => Some(LexicalScope::ToolResultBlock),
                _ => None,
            }
        },
    }
}

/// The scope of the items of a collection.
pub fn collection_item_scope(collection: AdapterCollection, context: &Context) -> (result:
    AdapterValidationResult<LexicalScope>)
    ensures
        match item_scope(collection, context.surroundings()) {
            Some(scope) => result == AdapterValidationResult::<LexicalScope>::Ok(scope),
            None => result == AdapterValidationResult::<LexicalScope>::Err(
                AdapterValidationError::InvalidContract,
            ),
        },
{
    let at_root = context.scope == LexicalScope::Root;
    match collection {
        AdapterCollection::System => {
            if at_root {
                return Ok(LexicalScope::System);
            }
        },
        AdapterCollection::Messages => {
            if at_root {
                return Ok(LexicalScope::Message);
            }
        },
        AdapterCollection::SystemMessages => {
            if at_root {
                return Ok(LexicalScope::SystemMessageEntry);
            }
        },
        AdapterCollection::Tools => {
            if at_root {
                return Ok(LexicalScope::Tool);
            }
        },
        AdapterCollection::Blocks => {
            if context.scope == LexicalScope::Message || context.scope
                == LexicalScope::MessageEntry {
                match active_ordinal(context, AdapterVariantSource::Message) {
                    Some(0) => {
                        return Ok(LexicalScope::UserBlock);
                    },
                    Some(1) => {
                        return Ok(LexicalScope::AssistantBlock);
                    },
                    Some(2) => {
                        return Ok(LexicalScope::ToolResultBlock);
                    },
                    _ => {},
                }
            }
        },
    }
    Err(AdapterValidationError::InvalidContract)
}

// ---------------------------------------------------------------------------
// Scalars
// ---------------------------------------------------------------------------

/// Whether a transform names a table with exactly the Bedrock status tokens.
pub open spec fn names_bedrock_statuses(
    contract: AdapterContractV1,
    transform: AdapterTransform,
) -> bool {
    &&& transform matches AdapterTransform::EnumToken(index)
    &&& index < contract.tree.tables@.len()
    &&& {
        let table = contract.tree.tables@[index as int];
        &&& table.source == AdapterEnumSource::ToolResultStatus
        &&& table.entries@.len() == 2
        &&& table.entries@[0].variant_ordinal == 0
        &&& table.entries@[0].token@ == "success"@
        &&& table.entries@[1].variant_ordinal == 1
        &&& table.entries@[1].token@ == "error"@
    }
}

/// Whether a transform names a table with exactly the Bedrock status tokens.
pub fn is_exact_bedrock_status_table(contract: &AdapterContractV1, transform: &AdapterTransform) -> (found:
    bool)
    ensures
        found == names_bedrock_statuses(*contract, *transform),
{
    let index: usize = match transform {
        AdapterTransform::EnumToken(index) => *index as usize,
        _ => {
            return false;
        },
    };
    if index >= contract.tree.tables.len() {
        return false;
    }
    let table = &contract.tree.tables[index];
    table.source == AdapterEnumSource::ToolResultStatus && table.entries.len() == 2
        && table.entries[0].variant_ordinal == 0 && same_text(
        table.entries[0].token.as_str(),
        "success",
    ) && table.entries[1].variant_ordinal == 1 && same_text(
        table.entries[1].token.as_str(),
        "error",
    )
}

/// The choice and the token table that belong to the kind of a block.
pub open spec fn block_kind_sources(scope: LexicalScope) -> Option<
    (AdapterVariantSource, AdapterEnumSource),
> {
    match scope {
        LexicalScope::UserBlock => Some(
            (AdapterVariantSource::UserBlock, AdapterEnumSource::UserBlockKind),
        ),
        LexicalScope::AssistantBlock => Some(
            (AdapterVariantSource::AssistantBlock, AdapterEnumSource::AssistantBlockKind),
        ),
        LexicalScope::ToolResultBlock => Some(
            (AdapterVariantSource::ToolResultBlock, AdapterEnumSource::ToolResultBlockKind),
        ),
        _ => None,
    }
}

/// Whether the kind of a block may stand here under a transform.
pub open spec fn is_legal_block_kind(
    contract: AdapterContractV1,
    transform: AdapterTransform,
    around: Surroundings,
) -> bool {
    &&& block_kind_sources(around.scope) matches Some((variant, kind))
    &&& transform matches AdapterTransform::EnumToken(index)
    &&& innermost_case(around.cases, variant) is Some
    &&& index < contract.tree.tables@.len()
    &&& contract.tree.tables@[index as int].source == kind
}

/// Whether the kind of a block may stand here under a transform.
pub fn validate_block_kind(
    contract: &AdapterContractV1,
    transform: &AdapterTransform,
    context: &Context,
) -> (valid: bool)
    ensures
        valid == is_legal_block_kind(*contract, *transform, context.surroundings()),
{
    let (variant, kind): (AdapterVariantSource, AdapterEnumSource) = match context.scope {
        LexicalScope::UserBlock => (
            AdapterVariantSource::UserBlock,
            AdapterEnumSource::UserBlockKind,
        ),
        LexicalScope::AssistantBlock => (
            AdapterVariantSource::AssistantBlock,
            AdapterEnumSource::AssistantBlockKind,
        ),
        LexicalScope::ToolResultBlock => (
            AdapterVariantSource::ToolResultBlock,
            AdapterEnumSource::ToolResultBlockKind,
        ),
        _ => {
            return false;
        },
    };
    match transform {
        AdapterTransform::EnumToken(index) => in_switch(context, variant) && (*index as usize)
            < contract.tree.tables.len() && contract.tree.tables[*index as usize].source == kind,
        _ => false,
    }
}

/// Whether a scalar of the request may stand here under a transform.
pub open spec fn is_legal_scalar(
    contract: AdapterContractV1,
    source: AdapterScalarSource,
    transform: AdapterTransform,
    around: Surroundings,
) -> bool {
    let wire = contract.wire_id;
    let at_root = around.scope == LexicalScope::Root;
    let in_assistant = around.scope == LexicalScope::AssistantBlock;
    match source {
        AdapterScalarSource::SelectedModel | AdapterScalarSource::SystemJoined => at_root,
        AdapterScalarSource::SelectionKind => innermost_case(
            around.cases,
            AdapterVariantSource::ModelSelection,
        ) is Some,
        AdapterScalarSource::SystemItem => around.scope == LexicalScope::System,
        AdapterScalarSource::MessageRole => is_message_scope(around.scope) && innermost_case(
            around.cases,
            AdapterVariantSource::Message,
        ) is Some,
        AdapterScalarSource::BlockKind => is_legal_block_kind(contract, transform, around),
        AdapterScalarSource::BlockText => in_text_block(around),
        AdapterScalarSource::ToolResultCallId => in_tool_result(around),
        AdapterScalarSource::ToolResultIsError => (wire == AdapterWireId::AnthropicMessages || wire
            == AdapterWireId::PiMessages) && in_tool_result(around),
        AdapterScalarSource::ToolResultStatus => wire == AdapterWireId::BedrockConverseStream
            && in_tool_result(around) && names_bedrock_statuses(contract, transform),
        AdapterScalarSource::ToolResultName => (wire == AdapterWireId::PiMessages || wire
            == AdapterWireId::GoogleGenerativeAi || wire == AdapterWireId::GoogleVertex || wire
            == AdapterWireId::MistralConversations) && in_tool_result(around),
        AdapterScalarSource::MistralToolResultContent => wire
            == AdapterWireId::MistralConversations && in_tool_result(around),
        AdapterScalarSource::ToolCallId
        | AdapterScalarSource::ToolCallName
        | AdapterScalarSource::ToolCallArguments => in_assistant && innermost_case(
            around.cases,
            AdapterVariantSource::AssistantBlock,
        ) == Some(2u8),
        AdapterScalarSource::ToolName
        | AdapterScalarSource::ToolDescription
        | AdapterScalarSource::ToolSchema => around.scope == LexicalScope::Tool,
        AdapterScalarSource::ReasoningKind => in_assistant && innermost_case(
            around.cases,
            AdapterVariantSource::AssistantBlock,
        ) == Some(1u8),
        AdapterScalarSource::Proof => in_assistant && innermost_case(
            around.cases,
            AdapterVariantSource::AssistantBlock,
        ) == Some(1u8) && around.wrappers.contains(AdapterPresenceSource::ReasoningProof),
        AdapterScalarSource::ImageBytes
        | AdapterScalarSource::ImageMediaType
        | AdapterScalarSource::ImageWidth
        | AdapterScalarSource::ImageHeight
        | AdapterScalarSource::ImageFrames
        | AdapterScalarSource::ImageDataUri => in_image_block(around),
        AdapterScalarSource::ToolChoiceKind => innermost_case(
            around.cases,
            AdapterVariantSource::ToolChoice,
        ) is Some && around.wrappers.contains(AdapterPresenceSource::ToolChoice),
        AdapterScalarSource::ToolChoiceName => innermost_case(
            around.cases,
            AdapterVariantSource::ToolChoice,
        ) == Some(3u8) && around.wrappers.contains(AdapterPresenceSource::ToolChoice),
        AdapterScalarSource::ReasoningMode => innermost_case(
            around.cases,
            AdapterVariantSource::Reasoning,
        ) is Some && around.wrappers.contains(AdapterPresenceSource::Reasoning),
        AdapterScalarSource::ReasoningEffort => at_root && innermost_case(
            around.cases,
            AdapterVariantSource::Reasoning,
        ) == Some(2u8) && around.wrappers.contains(AdapterPresenceSource::ReasoningEffort),
        AdapterScalarSource::ReasoningBudget => at_root && innermost_case(
            around.cases,
            AdapterVariantSource::Reasoning,
        ) == Some(2u8) && around.wrappers.contains(AdapterPresenceSource::ReasoningBudget),
        AdapterScalarSource::CacheRetention => innermost_case(
            around.cases,
            AdapterVariantSource::CacheRetention,
        ) is Some && around.wrappers.contains(AdapterPresenceSource::CacheRetention),
        AdapterScalarSource::MaxOutput => at_root && around.wrappers.contains(
            AdapterPresenceSource::MaxOutput,
        ),
    }
}

/// Checks that a scalar of the request may stand here under a transform.
pub fn validate_scalar(
    contract: &AdapterContractV1,
    source: AdapterScalarSource,
    transform: &AdapterTransform,
    context: &Context,
) -> (result: AdapterValidationResult<()>)
    ensures
        result == legal(is_legal_scalar(*contract, source, *transform, context.surroundings())),
{
    let wire = contract.wire_id;
    let at_root = context.scope == LexicalScope::Root;
    let in_assistant = context.scope == LexicalScope::AssistantBlock;
    let valid = match source {
        AdapterScalarSource::SelectedModel | AdapterScalarSource::SystemJoined => at_root,
        AdapterScalarSource::SelectionKind => in_switch(
            context,
            AdapterVariantSource::ModelSelection,
        ),
        AdapterScalarSource::SystemItem => context.scope == LexicalScope::System,
        AdapterScalarSource::MessageRole => (context.scope == LexicalScope::Message || context.scope
            == LexicalScope::MessageEntry) && in_switch(context, AdapterVariantSource::Message),
        AdapterScalarSource::BlockKind => validate_block_kind(contract, transform, context),
        AdapterScalarSource::BlockText => is_text_block(context),
        AdapterScalarSource::ToolResultCallId => is_tool_result_message(context),
        AdapterScalarSource::ToolResultIsError => (wire == AdapterWireId::AnthropicMessages || wire
            == AdapterWireId::PiMessages) && is_tool_result_message(context),
        AdapterScalarSource::ToolResultStatus => wire == AdapterWireId::BedrockConverseStream
            && is_tool_result_message(context) && is_exact_bedrock_status_table(
            contract,
            transform,
        ),
        AdapterScalarSource::ToolResultName => (wire == AdapterWireId::PiMessages || wire
            == AdapterWireId::GoogleGenerativeAi || wire == AdapterWireId::GoogleVertex || wire
            == AdapterWireId::MistralConversations) && is_tool_result_message(context),
        AdapterScalarSource::MistralToolResultContent => wire
            == AdapterWireId::MistralConversations && is_tool_result_message(context),
        AdapterScalarSource::ToolCallId
        | AdapterScalarSource::ToolCallName
        | AdapterScalarSource::ToolCallArguments => in_assistant && is_active(
            context,
            AdapterVariantSource::AssistantBlock,
            2,
        ),
        AdapterScalarSource::ToolName
        | AdapterScalarSource::ToolDescription
        | AdapterScalarSource::ToolSchema => context.scope == LexicalScope::Tool,
        AdapterScalarSource::ReasoningKind => in_assistant && is_active(
            context,
            AdapterVariantSource::AssistantBlock,
            1,
        ),
        AdapterScalarSource::Proof => in_assistant && is_active(
            context,
            AdapterVariantSource::AssistantBlock,
            1,
        ) && has_wrapper(context, AdapterPresenceSource::ReasoningProof),
        AdapterScalarSource::ImageBytes
        | AdapterScalarSource::ImageMediaType
        | AdapterScalarSource::ImageWidth
        | AdapterScalarSource::ImageHeight
        | AdapterScalarSource::ImageFrames
        | AdapterScalarSource::ImageDataUri => is_image_block(context),
        AdapterScalarSource::ToolChoiceKind => in_switch(context, AdapterVariantSource::ToolChoice)
            && has_wrapper(context, AdapterPresenceSource::ToolChoice),
        AdapterScalarSource::ToolChoiceName => is_active(
            context,
            AdapterVariantSource::ToolChoice,
            3,
        ) && has_wrapper(context, AdapterPresenceSource::ToolChoice),
        AdapterScalarSource::ReasoningMode => in_switch(context, AdapterVariantSource::Reasoning)
            && has_wrapper(context, AdapterPresenceSource::Reasoning),
        AdapterScalarSource::ReasoningEffort => at_root && is_active(
            context,
            AdapterVariantSource::Reasoning,
            2,
        ) && has_wrapper(context, AdapterPresenceSource::ReasoningEffort),
        AdapterScalarSource::ReasoningBudget => at_root && is_active(
            context,
            AdapterVariantSource::Reasoning,
            2,
        ) && has_wrapper(context, AdapterPresenceSource::ReasoningBudget),
        AdapterScalarSource::CacheRetention => in_switch(
            context,
            AdapterVariantSource::CacheRetention,
        ) && has_wrapper(context, AdapterPresenceSource::CacheRetention),
        AdapterScalarSource::MaxOutput => at_root && has_wrapper(
            context,
            AdapterPresenceSource::MaxOutput,
        ),
    };
    if valid {
        Ok(())
    } else {
        Err(AdapterValidationError::InvalidContract)
    }
}

// ---------------------------------------------------------------------------
// The walk
// ---------------------------------------------------------------------------

/// What a walk has counted once it has met the blocks of a Mistral tool
/// result.
pub open spec fn with_normal_blocks(accounts: Accounts) -> AdapterValidationResult<Accounts> {
    let count = accounts.mistral.len();
    if count == 0 || accounts.mistral.last().normal_blocks == u8::MAX {
        Err(AdapterValidationError::InvalidContract)
    } else {
        let last = accounts.mistral.last();
        Ok(
            Accounts {
                mistral: accounts.mistral.update(
                    count - 1,
                    MistralAccounting {
                        normal_blocks: (last.normal_blocks + 1) as u8,
                        ..last
                    },
                ),
                ..accounts
            },
        )
    }
}

/// What a walk has counted once it has met the composite of a Mistral tool
/// result.
pub open spec fn with_composite(accounts: Accounts) -> AdapterValidationResult<Accounts> {
    let count = accounts.mistral.len();
    if count == 0 || accounts.mistral.last().composites == u8::MAX {
        Err(AdapterValidationError::InvalidContract)
    } else {
        let last = accounts.mistral.last();
        Ok(
            Accounts {
                mistral: accounts.mistral.update(
                    count - 1,
                    MistralAccounting { composites: (last.composites + 1) as u8, ..last },
                ),
                ..accounts
            },
        )
    }
}

/// What encloses the children of a node: its own presence rule too.
pub open spec fn inside_node(node: ContractNode, around: Surroundings) -> Surroundings {
    match node.presence_source {
        Some(source) if node.presence != AdapterPresence::Required => Surroundings {
            wrappers: around.wrappers.push(source),
            ..around
        },
        _ => around,
    }
}

/// What encloses the node of a case.
pub open spec fn inside_case(
    source: AdapterVariantSource,
    ordinal: u8,
    around: Surroundings,
) -> Surroundings {
    Surroundings {
        scope: if source != AdapterVariantSource::SystemMessageEntry {
            around.scope
        } else if ordinal == 0 {
            LexicalScope::System
        } else {
            LexicalScope::MessageEntry
        },
        cases: around.cases.push(ActiveCase { source, ordinal }),
        ..around
    }
}

/// Whether a case is that of a Mistral tool result.
pub open spec fn is_mistral_result(
    wire: AdapterWireId,
    source: AdapterVariantSource,
    ordinal: u8,
) -> bool {
    wire == AdapterWireId::MistralConversations && source == AdapterVariantSource::Message
        && ordinal == 2
}

/// The accounts with which the walk of a case begins.
pub open spec fn opened_case(
    wire: AdapterWireId,
    source: AdapterVariantSource,
    ordinal: u8,
    accounts: Accounts,
) -> Accounts {
    if is_mistral_result(wire, source, ordinal) {
        Accounts {
            mistral: accounts.mistral.push(
                MistralAccounting { normal_blocks: 0, composites: 0 },
            ),
            ..accounts
        }
    } else {
        accounts
    }
}

/// The accounts after the walk of a case: a Mistral tool result is used as
/// exactly one composite.
pub open spec fn closed_case(
    wire: AdapterWireId,
    source: AdapterVariantSource,
    ordinal: u8,
    accounts: Accounts,
) -> AdapterValidationResult<Accounts> {
    if !is_mistral_result(wire, source, ordinal) {
        Ok(accounts)
    } else if accounts.mistral.len() == 0 || accounts.mistral.last().normal_blocks != 0
        || accounts.mistral.last().composites != 1 {
        Err(AdapterValidationError::InvalidContract)
    } else {
        Ok(Accounts { mistral: accounts.mistral.drop_last(), ..accounts })
    }
}

/// The accounts after an array has been entered, and the scope of its items.
pub open spec fn entered_array(
    wire: AdapterWireId,
    collection: AdapterCollection,
    around: Surroundings,
    accounts: Accounts,
) -> AdapterValidationResult<(LexicalScope, Accounts)> {
    let counted = Accounts {
        root: with_collection(collection, around.scope, accounts.root),
        ..accounts
    };
    let noted = if collection == AdapterCollection::Blocks && wire
        == AdapterWireId::MistralConversations && in_tool_result(around) {
        with_normal_blocks(counted)
    } else {
        Ok(counted)
    };
    if !is_legal_collection(collection, around.scope, accounts.root) || (collection
        == AdapterCollection::SystemMessages && wire != AdapterWireId::OpenAiCompletions && wire
        != AdapterWireId::MistralConversations) {
        Err(AdapterValidationError::InvalidContract)
    } else {
        match (noted, item_scope(collection, around)) {
            (Ok(noted), Some(scope)) => Ok((scope, noted)),
            _ => Err(AdapterValidationError::InvalidContract),
        }
    }
}

/// The accounts after a scalar.
pub open spec fn after_scalar(
    contract: AdapterContractV1,
    source: AdapterScalarSource,
    transform: AdapterTransform,
    around: Surroundings,
    accounts: Accounts,
) -> AdapterValidationResult<Accounts> {
    let joined = source == AdapterScalarSource::SystemJoined;
    let counted = if joined {
        Accounts {
            root: RootCollectionAccounting { system_joined: true, ..accounts.root },
            ..accounts
        }
    } else {
        accounts
    };
    if (joined && !is_legal_join(around.scope, accounts.root)) || !is_legal_scalar(
        contract,
        source,
        transform,
        around,
    ) {
        Err(AdapterValidationError::InvalidContract)
    } else if source == AdapterScalarSource::MistralToolResultContent {
        with_composite(counted)
    } else {
        Ok(counted)
    }
}

/// The accounts after the walk of node `index`.
pub open spec fn walk(
    contract: AdapterContractV1,
    index: int,
    around: Surroundings,
    accounts: Accounts,
) -> AdapterValidationResult<Accounts>
    decreases index, 1int, 0int,
{
    let node = contract.tree.nodes@[index];
    let inside = inside_node(node, around);
    if !is_legal_wrapper(node.presence, node.presence_source, around) {
        Err(AdapterValidationError::InvalidContract)
    } else {
        match node.body {
            ContractNodeBody::Object(_) => walk_children(contract, index, 0, inside, accounts),
            ContractNodeBody::Array(array) => match entered_array(
                contract.wire_id,
                array.collection,
                inside,
                accounts,
            ) {
                Err(error) => Err(error),
                Ok((scope, entered)) => if array.item < index {
                    walk(
                        contract,
                        array.item as int,
                        Surroundings { scope, ..inside },
                        entered,
                    )
                } else {
                    Err(AdapterValidationError::InvalidContract)
                },
            },
            ContractNodeBody::Switch(switch) => if is_legal_switch(
                contract.wire_id,
                switch.source,
                inside,
            ) {
                walk_cases(contract, index, 0, inside, accounts)
            } else {
                Err(AdapterValidationError::InvalidContract)
            },
            ContractNodeBody::Value(value) => after_scalar(
                contract,
                value.source,
                value.transform,
                inside,
                accounts,
            ),
            ContractNodeBody::Constant(_) => Ok(accounts),
        }
    }
}

/// The accounts after the walk of the members of an object from member `i` on.
pub open spec fn walk_children(
    contract: AdapterContractV1,
    index: int,
    i: int,
    inside: Surroundings,
    accounts: Accounts,
) -> AdapterValidationResult<Accounts>
    decreases index, 0int, contract.tree.nodes@[index].body->Object_0.children@.len() - i,
{
    let children = contract.tree.nodes@[index].body->Object_0.children@;
    if !(0 <= i < children.len()) {
        Ok(accounts)
    } else if children[i] >= index {
        Err(AdapterValidationError::InvalidContract)
    } else {
        match walk(contract, children[i] as int, inside, accounts) {
            Err(error) => Err(error),
            Ok(reached) => walk_children(contract, index, i + 1, inside, reached),
        }
    }
}

/// The accounts after the walk of the cases of a switch from case `i` on.
pub open spec fn walk_cases(
    contract: AdapterContractV1,
    index: int,
    i: int,
    inside: Surroundings,
    accounts: Accounts,
) -> AdapterValidationResult<Accounts>
    decreases index, 0int, contract.tree.nodes@[index].body->Switch_0.cases@.len() - i,
{
    let switch = contract.tree.nodes@[index].body->Switch_0;
    if !(0 <= i < switch.cases@.len()) {
        Ok(accounts)
    } else {
        let case = switch.cases@[i];
        let opened = opened_case(contract.wire_id, switch.source, case.variant_ordinal, accounts);
        if case.node >= index {
            Err(AdapterValidationError::InvalidContract)
        } else {
            match walk(
                contract,
                case.node as int,
                inside_case(switch.source, case.variant_ordinal, inside),
                opened,
            ) {
                Err(error) => Err(error),
                Ok(reached) => match closed_case(
                    contract.wire_id,
                    switch.source,
                    case.variant_ordinal,
                    reached,
                ) {
                    Err(error) => Err(error),
                    Ok(closed) => walk_cases(contract, index, i + 1, inside, closed),
                },
            }
        }
    }
}

/// The verdict on where the nodes of a contract stand.
pub open spec fn semantics_verdict(contract: AdapterContractV1) -> AdapterValidationResult<()> {
    match walk(
        contract,
        contract.tree.root as int,
        Surroundings { scope: LexicalScope::Root, cases: Seq::empty(), wrappers: Seq::empty() },
        Accounts {
            root: RootCollectionAccounting {
                system_messages: false,
                system: false,
                messages: false,
                system_joined: false,
            },
            mistral: Seq::empty(),
        },
    ) {
        Ok(_) => Ok(()),
        Err(error) => Err(error),
    }
}

/// What a walk has counted.
pub open spec fn accounts_of(context: Context, mistral: Seq<MistralAccounting>) -> Accounts {
    Accounts { root: context.root_collections, mistral }
}

/// Whether a step of the walk has the given outcome, and leaves the
/// surroundings as they were.
pub open spec fn walked(
    outcome: AdapterValidationResult<Accounts>,
    before: Context,
    result: AdapterValidationResult<()>,
    after: Context,
    mistral: Seq<MistralAccounting>,
) -> bool {
    match result {
        Ok(_) => outcome == AdapterValidationResult::<Accounts>::Ok(accounts_of(after, mistral))
            && after.surroundings() == before.surroundings(),
        Err(error) => outcome == AdapterValidationResult::<Accounts>::Err(error),
    }
}

/// Walks the blocks or the item of an array.
pub fn enter_array(
    wire: AdapterWireId,
    collection: AdapterCollection,
    context: &mut Context,
    mistral: &mut Vec<MistralAccounting>,
) -> (result: AdapterValidationResult<LexicalScope>)
    ensures
        match result {
            Ok(scope) => entered_array(
                wire,
                collection,
                old(context).surroundings(),
                accounts_of(*old(context), old(mistral)@),
            ) == AdapterValidationResult::<(LexicalScope, Accounts)>::Ok(
                (scope, accounts_of(*final(context), final(mistral)@)),
            ) && final(context).surroundings() == old(context).surroundings(),
            Err(error) => entered_array(
                wire,
                collection,
                old(context).surroundings(),
                accounts_of(*old(context), old(mistral)@),
            ) == AdapterValidationResult::<(LexicalScope, Accounts)>::Err(error),
        },
{
    validate_root_collection(collection, context)?;
    if collection == AdapterCollection::SystemMessages && wire != AdapterWireId::OpenAiCompletions
        && wire != AdapterWireId::MistralConversations {
        return Err(AdapterValidationError::InvalidContract);
    }
    if collection == AdapterCollection::Blocks && wire == AdapterWireId::MistralConversations
        && is_tool_result_message(context) {
        let count: usize = mistral.len();
        if count == 0 {
            return Err(AdapterValidationError::InvalidContract);
        }
        let last: MistralAccounting = mistral[count - 1];
        if last.normal_blocks == u8::MAX {
            return Err(AdapterValidationError::InvalidContract);
        }
        mistral[count - 1] = MistralAccounting { normal_blocks: last.normal_blocks + 1, ..last };
    }
    collection_item_scope(collection, context)
}

/// Checks and counts a scalar.
pub fn enter_scalar(
    contract: &AdapterContractV1,
    source: AdapterScalarSource,
    transform: &AdapterTransform,
    context: &mut Context,
    mistral: &mut Vec<MistralAccounting>,
) -> (result: AdapterValidationResult<()>)
    ensures
        walked(
            after_scalar(
                *contract,
                source,
                *transform,
                old(context).surroundings(),
                accounts_of(*old(context), old(mistral)@),
            ),
            *old(context),
            result,
            *final(context),
            final(mistral)@,
        ),
{
    if source == AdapterScalarSource::SystemJoined {
        validate_system_joined(context)?;
    }
    validate_scalar(contract, source, transform, context)?;
    if source == AdapterScalarSource::MistralToolResultContent {
        let count: usize = mistral.len();
        if count == 0 {
            return Err(AdapterValidationError::InvalidContract);
        }
        let last: MistralAccounting = mistral[count - 1];
        if last.composites == u8::MAX {
            return Err(AdapterValidationError::InvalidContract);
        }
        mistral[count - 1] = MistralAccounting { composites: last.composites + 1, ..last };
    }
    Ok(())
}

/// Walks node `index` of a contract.
#[verifier::loop_isolation(false)]
pub fn walk_node(
    contract: &AdapterContractV1,
    index: usize,
    context: &mut Context,
    mistral: &mut Vec<MistralAccounting>,
) -> (result: AdapterValidationResult<()>)
    requires
        is_ordered(contract.tree.nodes@),
        index < contract.tree.nodes@.len(),
    ensures
        walked(
            walk(
                *contract,
                index as int,
                old(context).surroundings(),
                accounts_of(*old(context), old(mistral)@),
            ),
            *old(context),
            result,
            *final(context),
            final(mistral)@,
        ),
    decreases index, 1int,
{
    let ghost around = context.surroundings();
    let ghost start = accounts_of(*context, mistral@);
    let node = &contract.tree.nodes[index];
    let ghost inside = inside_node(*node, around);
    validate_wrapper(node.presence, node.presence_source, context)?;
    let mut pushed_wrapper = false;
    if node.presence != AdapterPresence::Required {
        match node.presence_source {
            Some(source) => {
                context.wrappers.push(source);
                pushed_wrapper = true;
            },
            None => {
                return Err(AdapterValidationError::InvalidContract);
            },
        }
    }
    assert(context.surroundings() =~= inside);
    match &node.body {
        ContractNodeBody::Object(object) => {
            let mut i: usize = 0;
            while i < object.children.len()
                invariant
                    i <= object.children@.len(),
                    context.surroundings() == inside,
                    walk_children(*contract, index as int, 0, inside, start) == walk_children(
                        *contract,
                        index as int,
                        i as int,
                        inside,
                        accounts_of(*context, mistral@),
                    ),
                decreases object.children.len() - i,
            {
                assert(references_of(node.body)[i as int] < index);
                walk_node(contract, object.children[i] as usize, context, mistral)?;
                i += 1;
            }
        },
        ContractNodeBody::Array(array) => {
            let scope = enter_array(contract.wire_id, array.collection, context, mistral)?;
            assert(references_of(node.body)[0] < index);
            let previous = context.scope;
            context.scope = scope;
            assert(context.surroundings() =~= Surroundings { scope, ..inside });
            walk_node(contract, array.item as usize, context, mistral)?;
            context.scope = previous;
            assert(context.surroundings() =~= inside);
        },
        ContractNodeBody::Switch(switch) => {
            walk_switch(contract, index, switch, context, mistral)?;
        },
        ContractNodeBody::Value(value) => {
            enter_scalar(contract, value.source, &value.transform, context, mistral)?;
        },
        ContractNodeBody::Constant(_) => {},
    }
    if pushed_wrapper {
        let _ = context.wrappers.pop();
        assert(inside.wrappers.drop_last() =~= around.wrappers);
    }
    assert(context.surroundings() =~= around);
    Ok(())
}

/// Walks the cases of the switch at node `index` of a contract.
#[verifier::loop_isolation(false)]
pub fn walk_switch(
    contract: &AdapterContractV1,
    index: usize,
    switch: &ContractSwitch,
    context: &mut Context,
    mistral: &mut Vec<MistralAccounting>,
) -> (result: AdapterValidationResult<()>)
    requires
        is_ordered(contract.tree.nodes@),
        index < contract.tree.nodes@.len(),
        contract.tree.nodes@[index as int].body == ContractNodeBody::Switch(*switch),
    ensures
        walked(
            if is_legal_switch(contract.wire_id, switch.source, old(context).surroundings()) {
                walk_cases(
                    *contract,
                    index as int,
                    0,
                    old(context).surroundings(),
                    accounts_of(*old(context), old(mistral)@),
                )
            } else {
                Err(AdapterValidationError::InvalidContract)
            },
            *old(context),
            result,
            *final(context),
            final(mistral)@,
        ),
    decreases index, 0int,
{
    let ghost inside = context.surroundings();
    let ghost start = accounts_of(*context, mistral@);
    let wire = contract.wire_id;
    validate_switch(wire, switch.source, context)?;
    let mut i: usize = 0;
    while i < switch.cases.len()
        invariant
            i <= switch.cases@.len(),
            context.surroundings() == inside,
            walk_cases(*contract, index as int, 0, inside, start) == walk_cases(
                *contract,
                index as int,
                i as int,
                inside,
                accounts_of(*context, mistral@),
            ),
        decreases switch.cases.len() - i,
    {
        let case = &switch.cases[i];
        let ordinal: u8 = case.variant_ordinal;
        let ghost before = accounts_of(*context, mistral@);
        assert(references_of(contract.tree.nodes@[index as int].body)[i as int] < index);
        let previous_scope = context.scope;
        if switch.source == AdapterVariantSource::SystemMessageEntry {
            context.scope = if ordinal == 0 {
                LexicalScope::System
            } else {
                LexicalScope::MessageEntry
            };
        }
        context.cases.push(ActiveCase { source: switch.source, ordinal });
        let track_mistral = wire == AdapterWireId::MistralConversations && switch.source
            == AdapterVariantSource::Message && ordinal == 2;
        if track_mistral {
            mistral.push(MistralAccounting { normal_blocks: 0, composites: 0 });
        }
        assert(context.surroundings() =~= inside_case(switch.source, ordinal, inside));
        assert(accounts_of(*context, mistral@) =~= opened_case(
            wire,
            switch.source,
            ordinal,
            before,
        ));
        walk_node(contract, case.node as usize, context, mistral)?;
        if track_mistral {
            match mistral.pop() {
                Some(accounting) => {
                    if accounting.normal_blocks != 0 || accounting.composites != 1 {
                        return Err(AdapterValidationError::InvalidContract);
                    }
                },
                None => {
                    return Err(AdapterValidationError::InvalidContract);
                },
            }
        }
        let _ = context.cases.pop();
        context.scope = previous_scope;
        assert(context.surroundings().cases =~= inside.cases);
        i += 1;
    }
    Ok(())
}

/// Checks where the nodes of a contract stand.
pub fn validate_semantics(contract: &AdapterContractV1) -> (result: AdapterValidationResult<()>)
    requires
        is_ordered(contract.tree.nodes@),
        contract.tree.root < contract.tree.nodes@.len(),
    ensures
        result == semantics_verdict(*contract),
{
    let mut context = Context {
        scope: LexicalScope::Root,
        cases: Vec::new(),
        wrappers: Vec::new(),
        root_collections: RootCollectionAccounting {
            system_messages: false,
            system: false,
            messages: false,
            system_joined: false,
        },
    };
    let mut mistral: Vec<MistralAccounting> = Vec::new();
    assert(context.cases@ =~= Seq::empty());
    assert(context.wrappers@ =~= Seq::empty());
    assert(mistral@ =~= Seq::empty());
    walk_node(contract, contract.tree.root as usize, &mut context, &mut mistral)?;
    Ok(())
}

} // verus!
