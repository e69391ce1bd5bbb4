//! Generic interpretation of a validated adapter contract.

use vstd::prelude::*;

use crate::provider_api::{
    AssistantBlock, CacheRetention, Message, ModelSelection, PrepareInput, Reasoning, ToolChoice,
    ToolResultMessage,
};
use crate::provider_validation::adapter::debts::{Debt, DebtSet};
use crate::provider_validation::adapter::encoding::gives;
use crate::provider_validation::adapter::json::{
    constant_tree, lemma_array_tree, lemma_object_tree, map_source_error, members_of, source_error,
    trees_of, AdapterJson, JsonTree,
};
use crate::provider_validation::adapter::policy::{
    block_count, block_shape, block_total, catalog_entry, expected_debts, is_capable,
    lemma_request_verdict, names_selected, owed, projection_of, request_verdict, shape_of,
    status_projection, validate_capabilities, validate_identity, BlockShape, StatusProjection,
};
use crate::provider_validation::adapter::semantics::{is_ordered, references_of};
use crate::provider_validation::adapter::source::scalar_value;
use crate::provider_validation::adapter::structure::{bound_of, collection_bound};
use crate::provider_validation::adapter::types::{
    AdapterCollection, AdapterContractV1, AdapterEnumSource, AdapterPresence,
    AdapterPresenceSource, AdapterTransform, AdapterValidationError, AdapterValidationResult,
    AdapterVariantSource, AdapterWireId, ContractNode, ContractNodeBody, EnumTokenTable,
    PathSegment, ValidatedCatalogEntryView,
};
use crate::provider_validation::prepare::{
    matched_texts, validate_prepare_input, MatchedText, MatchedToolResult, SelectedCatalogView,
    ValidatedPrepare,
};
use crate::text::same_text;

verus! {

// ---------------------------------------------------------------------------
// Scopes and ledgers
// ---------------------------------------------------------------------------

/// The part of a request that a contract node is evaluated for.
#[derive(Debug, Clone, Copy, PartialEq, Eq, Structural)]
pub enum Scope {
    Root,
    System(usize),
    SystemEntry(usize),
    Message(usize),
    MessageEntry(usize),
    UserBlock(usize, usize),
    AssistantBlock(usize, usize),
    ToolResultBlock(usize, usize),
    Tool(usize),
}

/// Whether a scope can be one of a request. A tool is looked up only when one of
/// its scalars is read.
pub open spec fn scope_exists(original: PrepareInput, scope: Scope) -> bool {
    let messages = original.messages@;
    match scope {
        Scope::Root => true,
        Scope::System(i) => i < original.system@.len(),
        Scope::SystemEntry(i) => i < original.system@.len(),
        Scope::Message(m) => m < messages.len(),
        Scope::MessageEntry(m) => m < messages.len(),
        Scope::UserBlock(m, b) => m < messages.len() && (messages[m as int] matches Message::User(
            message,
        ) && b < message.blocks@.len()),
        Scope::AssistantBlock(m, b) => m < messages.len()
            && (messages[m as int] matches Message::Assistant(message) && b
            < message.blocks@.len()),
        Scope::ToolResultBlock(m, b) => m < messages.len()
            && (messages[m as int] matches Message::ToolResult(message) && b
            < message.blocks@.len()),
        Scope::Tool(_) => true,
    }
}

/// What an evaluation reads.
pub struct Inputs {
    pub contract: AdapterContractV1,
    pub original: PrepareInput,
    pub matched: Seq<MatchedText>,
}

/// The parts of a request that a body has carried so far: those it owes, and
/// those it may carry.
#[verifier::ext_equal]
pub struct Ledger {
    pub consumed: Set<Debt>,
    pub optional: Set<Debt>,
}

impl Ledger {
    /// The ledger after a body has carried a part that it owes. No part is
    /// carried twice.
    pub open spec fn pay(self, debt: Debt) -> AdapterValidationResult<Ledger> {
        if self.consumed.contains(debt) {
            Err(AdapterValidationError::InvalidContract)
        } else {
            Ok(Ledger { consumed: self.consumed.insert(debt), ..self })
        }
    }

    /// The ledger after a body has carried a part that it may carry. No part
    /// is carried twice.
    pub open spec fn note(self, debt: Debt) -> AdapterValidationResult<Ledger> {
        if self.optional.contains(debt) {
            Err(AdapterValidationError::InvalidContract)
        } else {
            Ok(Ledger { optional: self.optional.insert(debt), ..self })
        }
    }
}

/// A value with the ledger after it, or the failure of the payment or of the
/// value, in this order.
pub open spec fn paid<T>(
    payment: AdapterValidationResult<Ledger>,
    value: AdapterValidationResult<T>,
) -> AdapterValidationResult<(T, Ledger)> {
    match payment {
        Err(error) => Err(error),
        Ok(ledger) => match value {
            Err(error) => Err(error),
            Ok(value) => Ok((value, ledger)),
        },
    }
}

/// A refused contract.
pub open spec fn invalid<T>() -> AdapterValidationResult<T> {
    Err(AdapterValidationError::InvalidContract)
}

/// An evaluation under way.
#[derive(Debug)]
pub struct Evaluator<'a> {
    pub contract: &'a AdapterContractV1,
    pub original: &'a PrepareInput,
    pub prepared: ValidatedPrepare<'a>,
    pub consumed: DebtSet,
    pub optional_consumed: DebtSet,
}

impl<'a> Evaluator<'a> {
    /// What the evaluation reads.
    pub open spec fn inputs(self) -> Inputs {
        Inputs {
            contract: *self.contract,
            original: *self.original,
            matched: matched_texts(self.prepared.matched_tool_results@),
        }
    }

    /// The parts carried so far.
    pub open spec fn ledger(self) -> Ledger {
        Ledger { consumed: self.consumed@, optional: self.optional_consumed@ }
    }

    /// The invariant of an evaluation.
    pub open spec fn well_formed(self) -> bool {
        &&& self.consumed.well_formed()
        &&& self.optional_consumed.well_formed()
    }

    /// Whether a step keeps the invariant and what the evaluation reads.
    pub open spec fn follows(self, before: Evaluator<'_>) -> bool {
        self.well_formed() && self.inputs() == before.inputs()
    }

    /// Whether a step has given the expected value and ledger.
    pub open spec fn has_given(
        self,
        expected: AdapterValidationResult<(JsonTree, Ledger)>,
        result: AdapterValidationResult<AdapterJson>,
    ) -> bool {
        match result {
            Ok(json) => expected == AdapterValidationResult::<(JsonTree, Ledger)>::Ok(
                (json.tree(), self.ledger()),
            ),
            Err(error) => expected == AdapterValidationResult::<(JsonTree, Ledger)>::Err(error),
        }
    }

    /// Carries a part that the body owes.
    pub fn consume(&mut self, debt: Debt) -> (result: AdapterValidationResult<()>)
        requires
            old(self).well_formed(),
        ensures
            final(self).follows(*old(self)),
            match result {
                Ok(_) => old(self).ledger().pay(debt) == AdapterValidationResult::<Ledger>::Ok(
                    final(self).ledger(),
                ),
                Err(error) => old(self).ledger().pay(debt) == AdapterValidationResult::<Ledger>::Err(
                    error,
                ),
            },
    {
        if self.consumed.insert(debt) {
            Ok(())
        } else {
            Err(AdapterValidationError::InvalidContract)
        }
    }

    /// Carries a part that the body may carry.
    pub fn consume_optional(&mut self, debt: Debt) -> (result: AdapterValidationResult<()>)
        requires
            old(self).well_formed(),
        ensures
            final(self).follows(*old(self)),
            match result {
                Ok(_) => old(self).ledger().note(debt) == AdapterValidationResult::<Ledger>::Ok(
                    final(self).ledger(),
                ),
                Err(error) => old(self).ledger().note(debt) == AdapterValidationResult::<
                    Ledger,
                >::Err(error),
            },
    {
        if self.optional_consumed.insert(debt) {
            Ok(())
        } else {
            Err(AdapterValidationError::InvalidContract)
        }
    }
}

// ---------------------------------------------------------------------------
// Numbers of the request's choices
// ---------------------------------------------------------------------------

/// The number of a selection's form.
pub open spec fn selection_number(value: ModelSelection) -> u8 {
    match value {
        ModelSelection::Exact(_) => 0,
        ModelSelection::Alias(_) => 1,
    }
}

/// The number of a selection's form.
pub fn selection_ordinal(value: &ModelSelection) -> (ordinal: u8)
    ensures
        ordinal == selection_number(*value),
{
    match value {
        ModelSelection::Exact(_) => 0,
        ModelSelection::Alias(_) => 1,
    }
}

/// The number of a message's kind.
pub open spec fn message_number(value: Message) -> u8 {
    match value {
        Message::User(_) => 0,
        Message::Assistant(_) => 1,
        Message::ToolResult(_) => 2,
    }
}

/// The number of a message's kind.
pub fn message_ordinal(value: &Message) -> (ordinal: u8)
    ensures
        ordinal == message_number(*value),
{
    match value {
        Message::User(_) => 0,
        Message::Assistant(_) => 1,
        Message::ToolResult(_) => 2,
    }
}

/// The number of a tool choice.
pub open spec fn tool_choice_number(value: ToolChoice) -> u8 {
    match value {
        ToolChoice::Unset => 0,
        ToolChoice::Auto => 1,
        ToolChoice::Forbidden => 2,
        ToolChoice::Specific(_) => 3,
    }
}

/// The number of a tool choice.
pub fn tool_choice_ordinal(value: &ToolChoice) -> (ordinal: u8)
    ensures
        ordinal == tool_choice_number(*value),
{
    match value {
        ToolChoice::Unset => 0,
        ToolChoice::Auto => 1,
        ToolChoice::Forbidden => 2,
        ToolChoice::Specific(_) => 3,
    }
}

/// The number of a reasoning mode.
pub open spec fn reasoning_number(value: Reasoning) -> u8 {
    match value {
        Reasoning::Unset => 0,
        Reasoning::Disabled => 1,
        Reasoning::Enabled(_) => 2,
    }
}

/// The number of a reasoning mode.
pub fn reasoning_ordinal(value: &Reasoning) -> (ordinal: u8)
    ensures
        ordinal == reasoning_number(*value),
{
    match value {
        Reasoning::Unset => 0,
        Reasoning::Disabled => 1,
        Reasoning::Enabled(_) => 2,
    }
}

/// The number of a cache retention.
pub open spec fn cache_number(value: CacheRetention) -> u8 {
    match value {
        CacheRetention::Unset => 0,
        CacheRetention::Disabled => 1,
        CacheRetention::Request => 2,
        CacheRetention::Session => 3,
    }
}

/// The number of a cache retention.
pub fn cache_ordinal(value: &CacheRetention) -> (ordinal: u8)
    ensures
        ordinal == cache_number(*value),
{
    match value {
        CacheRetention::Unset => 0,
        CacheRetention::Disabled => 1,
        CacheRetention::Request => 2,
        CacheRetention::Session => 3,
    }
}

/// The number of a block's kind: text, then image or reasoning, then a call.
pub open spec fn block_number(shape: BlockShape) -> u8 {
    match shape {
        BlockShape::Text => 0,
        BlockShape::Image => 1,
        BlockShape::Reasoning => 1,
        BlockShape::ToolCall => 2,
    }
}

/// The number of a block's kind: text, then image or reasoning, then a call.
pub fn block_ordinal(shape: BlockShape) -> (ordinal: u8)
    ensures
        ordinal == block_number(shape),
{
    match shape {
        BlockShape::Text => 0,
        BlockShape::Image => 1,
        BlockShape::Reasoning => 1,
        BlockShape::ToolCall => 2,
    }
}

/// The number of a flag.
pub open spec fn flag_number(value: bool) -> u8 {
    if value {
        1
    } else {
        0
    }
}

/// The number of a flag.
pub fn flag_ordinal(value: bool) -> (ordinal: u8)
    ensures
        ordinal == flag_number(value),
{
    if value {
        1
    } else {
        0
    }
}

/// The message of a scope.
pub open spec fn message_of_scope(scope: Scope) -> Option<usize> {
    match scope {
        Scope::Message(m) => Some(m),
        Scope::MessageEntry(m) => Some(m),
        _ => None,
    }
}

/// The message of a scope.
pub fn scope_message(scope: Scope) -> (result: AdapterValidationResult<usize>)
    ensures
        match message_of_scope(scope) {
            Some(m) => result == AdapterValidationResult::<usize>::Ok(m),
            None => result == AdapterValidationResult::<usize>::Err(
                AdapterValidationError::InvalidContract,
            ),
        },
{
    match scope {
        Scope::Message(m) => Ok(m),
        Scope::MessageEntry(m) => Ok(m),
        _ => Err(AdapterValidationError::InvalidContract),
    }
}

/// The tool result of a scope, with the number of its message.
pub open spec fn result_of_scope(original: PrepareInput, scope: Scope) -> Option<
    (usize, ToolResultMessage),
> {
    match message_of_scope(scope) {
        Some(m) => match original.messages@[m as int] {
            Message::ToolResult(result) => Some((m, result)),
            _ => None,
        },
        None => None,
    }
}

/// The tool result of a scope, with the number of its message.
pub fn tool_result<'a>(original: &'a PrepareInput, scope: Scope) -> (result: AdapterValidationResult<
    (usize, &'a ToolResultMessage),
>)
    requires
        scope_exists(*original, scope),
    ensures
        match result {
            Ok((m, message)) => result_of_scope(*original, scope) == Some((m, *message)) && m
                < original.messages@.len() && original.messages@[m as int] == Message::ToolResult(
                *message,
            ),
            Err(error) => error == AdapterValidationError::InvalidContract && result_of_scope(
                *original,
                scope,
            ) is None,
        },
{
    let m: usize = scope_message(scope)?;
    match &original.messages[m] {
        Message::ToolResult(message) => Ok((m, message)),
        _ => Err(AdapterValidationError::InvalidContract),
    }
}

// ---------------------------------------------------------------------------
// Presence
// ---------------------------------------------------------------------------

/// Whether the optional part behind a node is missing, and the part itself.
pub open spec fn option_state(
    original: PrepareInput,
    source: AdapterPresenceSource,
    scope: Scope,
) -> Option<(bool, Debt)> {
    match source {
        AdapterPresenceSource::ReasoningProof => match scope {
            Scope::AssistantBlock(m, b) => match original.messages@[m as int] {
                Message::Assistant(message) => match message.blocks@[b as int] {
                    AssistantBlock::Reasoning(block) => Some(
                        (block.proof is None, Debt::BlockProof(m, b)),
                    ),
                    _ => None,
                },
                _ => None,
            },
            _ => None,
        },
        AdapterPresenceSource::ReasoningEffort => match original.reasoning {
            Reasoning::Enabled(enabled) => Some((enabled.effort is None, Debt::ReasoningEffort)),
            _ => None,
        },
        AdapterPresenceSource::ReasoningBudget => match original.reasoning {
            Reasoning::Enabled(enabled) => Some(
                (enabled.budget_tokens is None, Debt::ReasoningBudget),
            ),
            _ => None,
        },
        AdapterPresenceSource::MaxOutput => Some(
            (original.max_output_tokens is None, Debt::MaxOutput),
        ),
        _ => None,
    }
}

/// Whether the control behind a node is unset, and the control itself.
pub open spec fn unset_state(
    original: PrepareInput,
    source: AdapterPresenceSource,
    scope: Scope,
) -> Option<(bool, Debt)> {
    if scope != Scope::Root {
        None
    } else {
        match source {
            AdapterPresenceSource::ToolChoice => Some(
                (original.tool_choice is Unset, Debt::ToolChoiceVariant),
            ),
            AdapterPresenceSource::Reasoning => Some(
                (original.reasoning is Unset, Debt::ReasoningVariant),
            ),
            AdapterPresenceSource::CacheRetention => Some(
                (original.cache_retention is Unset, Debt::CacheVariant),
            ),
            _ => None,
        }
    }
}

/// Whether a node is left out. A part that is left out counts as carried.
pub open spec fn omission(
    inputs: Inputs,
    presence: AdapterPresence,
    source: Option<AdapterPresenceSource>,
    scope: Scope,
    ledger: Ledger,
) -> AdapterValidationResult<(bool, Ledger)> {
    let state = match (presence, source) {
        (AdapterPresence::OmitIfNone, Some(source)) => option_state(
            inputs.original,
            source,
            scope,
        ),
        (AdapterPresence::OmitForUnset, Some(source)) => unset_state(
            inputs.original,
            source,
            scope,
        ),
        _ => None,
    };
    if presence == AdapterPresence::Required && source is None {
        Ok((false, ledger))
    } else {
        match state {
            None => invalid(),
            Some((absent, debt)) => if absent {
                paid(ledger.pay(debt), Ok(true))
            } else {
                Ok((false, ledger))
            },
        }
    }
}

/// Whether a lookup has found the given state.
pub open spec fn found_state(
    expected: Option<(bool, Debt)>,
    result: AdapterValidationResult<(bool, Debt)>,
) -> bool {
    match expected {
        Some(state) => result == AdapterValidationResult::<(bool, Debt)>::Ok(state),
        None => result == AdapterValidationResult::<(bool, Debt)>::Err(
            AdapterValidationError::InvalidContract,
        ),
    }
}

impl<'a> Evaluator<'a> {
    /// Whether the optional part behind a node is missing, and the part
    /// itself.
    pub fn option_presence(&self, source: AdapterPresenceSource, scope: Scope) -> (result:
        AdapterValidationResult<(bool, Debt)>)
        requires
            scope_exists(*self.original, scope),
        ensures
            found_state(option_state(*self.original, source, scope), result),
    {
        match source {
            AdapterPresenceSource::ReasoningProof => {
                if let Scope::AssistantBlock(m, b) = scope {
                    if let Message::Assistant(message) = &self.original.messages[m] {
                        if let AssistantBlock::Reasoning(block) = &message.blocks[b] {
                            return Ok((block.proof.is_none(), Debt::BlockProof(m, b)));
                        }
                    }
                }
                Err(AdapterValidationError::InvalidContract)
            },
            AdapterPresenceSource::ReasoningEffort => match &self.original.reasoning {
                Reasoning::Enabled(enabled) => Ok((enabled.effort.is_none(), Debt::ReasoningEffort)),
                _ => Err(AdapterValidationError::InvalidContract),
            },
            AdapterPresenceSource::ReasoningBudget => match &self.original.reasoning {
                Reasoning::Enabled(enabled) => Ok(
                    (enabled.budget_tokens.is_none(), Debt::ReasoningBudget),
                ),
                _ => Err(AdapterValidationError::InvalidContract),
            },
            AdapterPresenceSource::MaxOutput => Ok(
                (self.original.max_output_tokens.is_none(), Debt::MaxOutput),
            ),
            _ => Err(AdapterValidationError::InvalidContract),
        }
    }

    /// Whether the control behind a node is unset, and the control itself.
    pub fn unset_presence(&self, source: AdapterPresenceSource, scope: Scope) -> (result:
        AdapterValidationResult<(bool, Debt)>)
        ensures
            found_state(unset_state(*self.original, source, scope), result),
    {
        if scope != Scope::Root {
            return Err(AdapterValidationError::InvalidContract);
        }
        match source {
            AdapterPresenceSource::ToolChoice => Ok(
                (
                    match &self.original.tool_choice {
                        ToolChoice::Unset => true,
                        _ => false,
                    },
                    Debt::ToolChoiceVariant,
                ),
            ),
            AdapterPresenceSource::Reasoning => Ok(
                (
                    match &self.original.reasoning {
                        Reasoning::Unset => true,
                        _ => false,
                    },
                    Debt::ReasoningVariant,
                ),
            ),
            AdapterPresenceSource::CacheRetention => Ok(
                (
                    match &self.original.cache_retention {
                        CacheRetention::Unset => true,
                        _ => false,
                    },
                    Debt::CacheVariant,
                ),
            ),
            _ => Err(AdapterValidationError::InvalidContract),
        }
    }

    /// Whether a node is left out.
    pub fn omit(
        &mut self,
        presence: AdapterPresence,
        source: Option<AdapterPresenceSource>,
        scope: Scope,
    ) -> (result: AdapterValidationResult<bool>)
        requires
            old(self).well_formed(),
            scope_exists(*old(self).original, scope),
        ensures
            final(self).follows(*old(self)),
            match result {
                Ok(absent) => omission(
                    old(self).inputs(),
                    presence,
                    source,
                    scope,
                    old(self).ledger(),
                ) == AdapterValidationResult::<(bool, Ledger)>::Ok((absent, final(self).ledger())),
                Err(error) => omission(
                    old(self).inputs(),
                    presence,
                    source,
                    scope,
                    old(self).ledger(),
                ) == AdapterValidationResult::<(bool, Ledger)>::Err(error),
            },
    {
        let (absent, debt): (bool, Debt) = match (presence, source) {
            (AdapterPresence::Required, None) => {
                return Ok(false);
            },
            (AdapterPresence::OmitIfNone, Some(source)) => self.option_presence(source, scope)?,
            (AdapterPresence::OmitForUnset, Some(source)) => self.unset_presence(source, scope)?,
            _ => {
                return Err(AdapterValidationError::InvalidContract);
            },
        };
        if absent {
            self.consume(debt)?;
        }
        Ok(absent)
    }
}

// ---------------------------------------------------------------------------
// Collections
// ---------------------------------------------------------------------------

/// The scopes of the system texts.
pub open spec fn system_scopes(count: nat) -> Seq<Scope> {
    Seq::new(count, |i: int| Scope::System(i as usize))
}

/// The scopes of the system texts as entries of a joint list.
pub open spec fn system_entry_scopes(count: nat) -> Seq<Scope> {
    Seq::new(count, |i: int| Scope::SystemEntry(i as usize))
}

/// The scopes of the messages.
pub open spec fn message_scopes(count: nat) -> Seq<Scope> {
    Seq::new(count, |i: int| Scope::Message(i as usize))
}

/// The scopes of the messages as entries of a joint list.
pub open spec fn message_entry_scopes(count: nat) -> Seq<Scope> {
    Seq::new(count, |i: int| Scope::MessageEntry(i as usize))
}

/// The scopes of the tools.
pub open spec fn tool_scopes(count: nat) -> Seq<Scope> {
    Seq::new(count, |i: int| Scope::Tool(i as usize))
}

/// The scope of block `b` of message `m`.
pub open spec fn block_scope(message: Message, m: usize, b: usize) -> Scope {
    match message {
        Message::User(_) => Scope::UserBlock(m, b),
        Message::Assistant(_) => Scope::AssistantBlock(m, b),
        Message::ToolResult(_) => Scope::ToolResultBlock(m, b),
    }
}

/// The scopes of the blocks of message `m`.
pub open spec fn block_scopes(message: Message, m: usize) -> Seq<Scope> {
    Seq::new(block_total(message), |b: int| block_scope(message, m, b as usize))
}

/// The scopes of the members of a collection, which counts as carried.
pub open spec fn entered(
    inputs: Inputs,
    collection: AdapterCollection,
    scope: Scope,
    ledger: Ledger,
) -> AdapterValidationResult<(Seq<Scope>, Ledger)> {
    let original = inputs.original;
    let systems = original.system@.len();
    let messages = original.messages@.len();
    let wire = inputs.contract.wire_id;
    match collection {
        AdapterCollection::System => if scope == Scope::Root {
            paid(ledger.pay(Debt::SystemCollection), Ok(system_scopes(systems)))
        } else {
            invalid()
        },
        AdapterCollection::Messages => if scope == Scope::Root {
            paid(ledger.pay(Debt::MessagesCollection), Ok(message_scopes(messages)))
        } else {
            invalid()
        },
        AdapterCollection::Tools => if scope == Scope::Root {
            paid(ledger.pay(Debt::ToolsCollection), Ok(tool_scopes(original.tools@.len())))
        } else {
            invalid()
        },
        AdapterCollection::Blocks => match message_of_scope(scope) {
            Some(m) => paid(
                ledger.pay(Debt::MessageBlocks(m)),
                Ok(block_scopes(original.messages@[m as int], m)),
            ),
            None => invalid(),
        },
        AdapterCollection::SystemMessages => if scope == Scope::Root && (wire
            == AdapterWireId::OpenAiCompletions || wire == AdapterWireId::MistralConversations) {
            match ledger.pay(Debt::SystemCollection) {
                Err(error) => Err(error),
                Ok(next) => paid(
                    next.pay(Debt::MessagesCollection),
                    if systems + messages > bound_of(AdapterCollection::SystemMessages) {
                        Err(AdapterValidationError::Limit)
                    } else {
                        Ok(system_entry_scopes(systems) + message_entry_scopes(messages))
                    },
                ),
            }
        } else {
            invalid()
        },
    }
}

impl<'a> Evaluator<'a> {
    /// The scopes of the members of a collection.
    #[verifier::loop_isolation(false)]
    pub fn collection_scopes(&mut self, collection: AdapterCollection, scope: Scope) -> (result:
        AdapterValidationResult<Vec<Scope>>)
        requires
            old(self).well_formed(),
            scope_exists(*old(self).original, scope),
        ensures
            final(self).follows(*old(self)),
            match result {
                Ok(scopes) => entered(
                    old(self).inputs(),
                    collection,
                    scope,
                    old(self).ledger(),
                ) == AdapterValidationResult::<(Seq<Scope>, Ledger)>::Ok(
                    (scopes@, final(self).ledger()),
                ) && forall|i: int|
                    0 <= i < scopes@.len() ==> scope_exists(
                        *old(self).original,
                        #[trigger] scopes@[i],
                    ),
                Err(error) => entered(
                    old(self).inputs(),
                    collection,
                    scope,
                    old(self).ledger(),
                ) == AdapterValidationResult::<(Seq<Scope>, Ledger)>::Err(error),
            },
    {
        let mut scopes: Vec<Scope> = Vec::new();
        match (collection, scope) {
            (AdapterCollection::System, Scope::Root) => {
                self.consume(Debt::SystemCollection)?;
                let count: usize = self.original.system.len();
                let mut i: usize = 0;
                while i < count
                    invariant
                        i <= count,
                        scopes@ == system_scopes(i as nat),
                    decreases count - i,
                {
                    scopes.push(Scope::System(i));
                    i += 1;
                    assert(scopes@ =~= system_scopes(i as nat));
                }
                Ok(scopes)
            },
            (AdapterCollection::Messages, Scope::Root) => {
                self.consume(Debt::MessagesCollection)?;
                let count: usize = self.original.messages.len();
                let mut i: usize = 0;
                while i < count
                    invariant
                        i <= count,
                        scopes@ == message_scopes(i as nat),
                    decreases count - i,
                {
                    scopes.push(Scope::Message(i));
                    i += 1;
                    assert(scopes@ =~= message_scopes(i as nat));
                }
                Ok(scopes)
            },
            (AdapterCollection::Tools, Scope::Root) => {
                self.consume(Debt::ToolsCollection)?;
                let count: usize = self.original.tools.len();
                let mut i: usize = 0;
                while i < count
                    invariant
                        i <= count,
                        scopes@ == tool_scopes(i as nat),
                    decreases count - i,
                {
                    scopes.push(Scope::Tool(i));
                    i += 1;
                    assert(scopes@ =~= tool_scopes(i as nat));
                }
                Ok(scopes)
            },
            (AdapterCollection::Blocks, Scope::Message(m))
            | (AdapterCollection::Blocks, Scope::MessageEntry(m)) => {
                self.consume(Debt::MessageBlocks(m))?;
                let message = &self.original.messages[m];
                let count: usize = block_count(message);
                let mut b: usize = 0;
                while b < count
                    invariant
                        b <= count,
                        scopes@ == block_scopes(*message, m).take(b as int),
                    decreases count - b,
                {
                    let block = match message {
                        Message::User(_) => Scope::UserBlock(m, b),
                        Message::Assistant(_) => Scope::AssistantBlock(m, b),
                        Message::ToolResult(_) => Scope::ToolResultBlock(m, b),
                    };
                    scopes.push(block);
                    b += 1;
                    assert(scopes@ =~= block_scopes(*message, m).take(b as int));
                }
                assert(scopes@ =~= block_scopes(*message, m));
                Ok(scopes)
            },
            (AdapterCollection::SystemMessages, Scope::Root) => {
                if self.contract.wire_id != AdapterWireId::OpenAiCompletions && self.contract.wire_id
                    != AdapterWireId::MistralConversations {
                    return Err(AdapterValidationError::InvalidContract);
                }
                self.consume(Debt::SystemCollection)?;
                self.consume(Debt::MessagesCollection)?;
                let systems: usize = self.original.system.len();
                let messages: usize = self.original.messages.len();
                let bound: usize = collection_bound(AdapterCollection::SystemMessages) as usize;
                match systems.checked_add(messages) {
                    Some(length) => {
                        if length > bound {
                            return Err(AdapterValidationError::Limit);
                        }
                    },
                    None => {
                        return Err(AdapterValidationError::Limit);
                    },
                }
                let mut i: usize = 0;
                while i < systems
                    invariant
                        i <= systems,
                        scopes@ == system_entry_scopes(i as nat),
                    decreases systems - i,
                {
                    scopes.push(Scope::SystemEntry(i));
                    i += 1;
                    assert(scopes@ =~= system_entry_scopes(i as nat));
                }
                let mut m: usize = 0;
                assert(scopes@ =~= system_entry_scopes(systems as nat) + message_entry_scopes(0));
                while m < messages
                    invariant
                        m <= messages,
                        scopes@ == system_entry_scopes(systems as nat) + message_entry_scopes(
                            m as nat,
                        ),
                    decreases messages - m,
                {
                    scopes.push(Scope::MessageEntry(m));
                    m += 1;
                    assert(scopes@ =~= system_entry_scopes(systems as nat) + message_entry_scopes(
                        m as nat,
                    ));
                }
                Ok(scopes)
            },
            _ => Err(AdapterValidationError::InvalidContract),
        }
    }
}

// ---------------------------------------------------------------------------
// Choices
// ---------------------------------------------------------------------------

/// The case of a switch on a source, which counts as carried.
pub open spec fn chosen(
    inputs: Inputs,
    source: AdapterVariantSource,
    scope: Scope,
    ledger: Ledger,
) -> AdapterValidationResult<(u8, Ledger)> {
    let original = inputs.original;
    let messages = original.messages@;
    match (source, scope) {
        (AdapterVariantSource::ModelSelection, Scope::Root) => paid(
            ledger.pay(Debt::SelectionVariant),
            Ok(selection_number(original.selection)),
        ),
        (AdapterVariantSource::SystemMessageEntry, Scope::SystemEntry(_)) => Ok((0, ledger)),
        (AdapterVariantSource::SystemMessageEntry, Scope::MessageEntry(_)) => Ok((1, ledger)),
        (AdapterVariantSource::Message, Scope::Message(m)) => paid(
            ledger.pay(Debt::MessageVariant(m)),
            Ok(message_number(messages[m as int])),
        ),
        (AdapterVariantSource::Message, Scope::MessageEntry(m)) => paid(
            ledger.pay(Debt::MessageVariant(m)),
            Ok(message_number(messages[m as int])),
        ),
        (AdapterVariantSource::UserBlock, Scope::UserBlock(m, b)) => paid(
            ledger.pay(Debt::BlockVariant(m, b)),
            Ok(block_number(shape_of(messages[m as int], b as int))),
        ),
        (AdapterVariantSource::AssistantBlock, Scope::AssistantBlock(m, b)) => paid(
            ledger.pay(Debt::BlockVariant(m, b)),
            Ok(block_number(shape_of(messages[m as int], b as int))),
        ),
        (AdapterVariantSource::ToolResultBlock, Scope::ToolResultBlock(m, b)) => paid(
            ledger.pay(Debt::BlockVariant(m, b)),
            Ok(block_number(shape_of(messages[m as int], b as int))),
        ),
        (AdapterVariantSource::ToolResultStatus, _) => match result_of_scope(original, scope) {
            Some((m, result)) => if projection_of(inputs.contract.wire_id)
                == StatusProjection::Switch {
                paid(ledger.pay(Debt::MessageStatus(m)), Ok(flag_number(result.is_error)))
            } else {
                invalid()
            },
            None => invalid(),
        },
        (AdapterVariantSource::ToolChoice, Scope::Root) => paid(
            ledger.pay(Debt::ToolChoiceVariant),
            Ok(tool_choice_number(original.tool_choice)),
        ),
        (AdapterVariantSource::Reasoning, Scope::Root) => paid(
            ledger.pay(Debt::ReasoningVariant),
            Ok(reasoning_number(original.reasoning)),
        ),
        (AdapterVariantSource::CacheRetention, Scope::Root) => paid(
            ledger.pay(Debt::CacheVariant),
            Ok(cache_number(original.cache_retention)),
        ),
        _ => invalid(),
    }
}

impl<'a> Evaluator<'a> {
    /// The case of a switch on a source.
    pub fn variant_ordinal(&mut self, source: AdapterVariantSource, scope: Scope) -> (result:
        AdapterValidationResult<u8>)
        requires
            old(self).well_formed(),
            scope_exists(*old(self).original, scope),
        ensures
            final(self).follows(*old(self)),
            match result {
                Ok(ordinal) => chosen(
                    old(self).inputs(),
                    source,
                    scope,
                    old(self).ledger(),
                ) == AdapterValidationResult::<(u8, Ledger)>::Ok((ordinal, final(self).ledger())),
                Err(error) => chosen(
                    old(self).inputs(),
                    source,
                    scope,
                    old(self).ledger(),
                ) == AdapterValidationResult::<(u8, Ledger)>::Err(error),
            },
    {
        match (source, scope) {
            (AdapterVariantSource::ModelSelection, Scope::Root) => {
                self.consume(Debt::SelectionVariant)?;
                Ok(selection_ordinal(&self.original.selection))
            },
            (AdapterVariantSource::SystemMessageEntry, Scope::SystemEntry(_)) => Ok(0),
            (AdapterVariantSource::SystemMessageEntry, Scope::MessageEntry(_)) => Ok(1),
            (AdapterVariantSource::Message, Scope::Message(m))
            | (AdapterVariantSource::Message, Scope::MessageEntry(m)) => {
                self.consume(Debt::MessageVariant(m))?;
                Ok(message_ordinal(&self.original.messages[m]))
            },
            (AdapterVariantSource::UserBlock, Scope::UserBlock(m, b))
            | (AdapterVariantSource::AssistantBlock, Scope::AssistantBlock(m, b))
            | (AdapterVariantSource::ToolResultBlock, Scope::ToolResultBlock(m, b)) => {
                self.consume(Debt::BlockVariant(m, b))?;
                Ok(block_ordinal(block_shape(&self.original.messages[m], b)))
            },
            (AdapterVariantSource::ToolResultStatus, _) => {
                let (m, result): (usize, &ToolResultMessage) = tool_result(self.original, scope)?;
                if status_projection(self.contract.wire_id) != StatusProjection::Switch {
                    return Err(AdapterValidationError::InvalidContract);
                }
                self.consume(Debt::MessageStatus(m))?;
                Ok(flag_ordinal(result.is_error))
            },
            (AdapterVariantSource::ToolChoice, Scope::Root) => {
                self.consume(Debt::ToolChoiceVariant)?;
                Ok(tool_choice_ordinal(&self.original.tool_choice))
            },
            (AdapterVariantSource::Reasoning, Scope::Root) => {
                self.consume(Debt::ReasoningVariant)?;
                Ok(reasoning_ordinal(&self.original.reasoning))
            },
            (AdapterVariantSource::CacheRetention, Scope::Root) => {
                self.consume(Debt::CacheVariant)?;
                Ok(cache_ordinal(&self.original.cache_retention))
            },
            _ => Err(AdapterValidationError::InvalidContract),
        }
    }
}

// ---------------------------------------------------------------------------
// Tokens and matched tool results
// ---------------------------------------------------------------------------

/// The token of a variant under a transform.
pub open spec fn token(
    contract: AdapterContractV1,
    transform: AdapterTransform,
    source: AdapterEnumSource,
    ordinal: u8,
) -> AdapterValidationResult<JsonTree> {
    match transform {
        AdapterTransform::EnumToken(index) => if index < contract.tree.tables@.len() {
            let table = contract.tree.tables@[index as int];
            if table.source == source && ordinal < table.entries@.len() {
                Ok(
                    JsonTree::Text {
                        value: table.entries@[ordinal as int].token@,
                        derived: false,
                    },
                )
            } else {
                invalid()
            }
        } else {
            invalid()
        },
        _ => invalid(),
    }
}

/// The token table that a transform names.
pub fn enum_table<'a>(contract: &'a AdapterContractV1, transform: &AdapterTransform) -> (result:
    AdapterValidationResult<&'a EnumTokenTable>)
    ensures
        match result {
            Ok(table) => transform matches AdapterTransform::EnumToken(index) && index
                < contract.tree.tables@.len() && *table == contract.tree.tables@[index as int],
            Err(error) => error == AdapterValidationError::InvalidContract && (
            transform matches AdapterTransform::EnumToken(index) ==> index
                >= contract.tree.tables@.len()),
        },
{
    match transform {
        AdapterTransform::EnumToken(index) => {
            let index = *index as usize;
            if index < contract.tree.tables.len() {
                Ok(&contract.tree.tables[index])
            } else {
                Err(AdapterValidationError::InvalidContract)
            }
        },
        _ => Err(AdapterValidationError::InvalidContract),
    }
}

/// The matched tool result of a call, from position `i` on.
pub open spec fn matched_from(matched: Seq<MatchedText>, call_id: Seq<char>, i: int) -> Option<
    MatchedText,
>
    decreases matched.len() - i,
{
    if i >= matched.len() {
        None
    } else if matched[i].call_id == call_id {
        Some(matched[i])
    } else {
        matched_from(matched, call_id, i + 1)
    }
}

/// The matched tool result of a call.
pub open spec fn matched_of(matched: Seq<MatchedText>, call_id: Seq<char>) -> Option<MatchedText> {
    matched_from(matched, call_id, 0)
}

impl<'a> Evaluator<'a> {
    /// The token of a variant under a transform.
    pub fn enum_token(
        &self,
        transform: &AdapterTransform,
        source: AdapterEnumSource,
        ordinal: u8,
    ) -> (result: AdapterValidationResult<AdapterJson>)
        ensures
            gives(token(*self.contract, *transform, source, ordinal), result),
    {
        let table = enum_table(self.contract, transform)?;
        if table.source != source || ordinal as usize >= table.entries.len() {
            return Err(AdapterValidationError::InvalidContract);
        }
        Ok(AdapterJson::ordinary_string(table.entries[ordinal as usize].token.as_str()))
    }

    /// The matched tool result of a call.
    #[verifier::loop_isolation(false)]
    pub fn matched_result(&self, call_id: &str) -> (result: AdapterValidationResult<
        MatchedToolResult<'a>,
    >)
        ensures
            match result {
                Ok(found) => matched_of(self.inputs().matched, call_id@) == Some(found.texts()),
                Err(error) => error == AdapterValidationError::SourceMismatch && matched_of(
                    self.inputs().matched,
                    call_id@,
                ) is None,
            },
    {
        let results = &self.prepared.matched_tool_results;
        let ghost matched = self.inputs().matched;
        let mut i: usize = 0;
        while i < results.len()
            invariant
                i <= results@.len(),
                matched == matched_texts(results@),
                matched_of(matched, call_id@) == matched_from(matched, call_id@, i as int),
            decreases results.len() - i,
        {
            let found: MatchedToolResult<'a> = results[i];
            assert(matched[i as int] == found.texts());
            if same_text(found.call_id, call_id) {
                return Ok(found);
            }
            i += 1;
        }
        Err(AdapterValidationError::SourceMismatch)
    }
}

// ---------------------------------------------------------------------------
// Nodes
// ---------------------------------------------------------------------------

/// The value of node `index` for a scope, unless it is left out, and the parts
/// carried after it.
pub open spec fn evaluated(inputs: Inputs, index: int, scope: Scope, ledger: Ledger) ->
    AdapterValidationResult<(Option<JsonTree>, Ledger)>
    decreases index, 1int, 0int,
{
    let node = inputs.contract.tree.nodes@[index];
    match omission(inputs, node.presence, node.presence_source, scope, ledger) {
        Err(error) => Err(error),
        Ok((true, next)) => Ok((None, next)),
        Ok((false, next)) => match node.body {
            ContractNodeBody::Object(_) => present(
                evaluated_members(inputs, index, 0, scope, next, Seq::empty()),
            ),
            ContractNodeBody::Array(array) => match entered(
                inputs,
                array.collection,
                scope,
                next,
            ) {
                Err(error) => Err(error),
                Ok((scopes, opened)) => if scopes.len() > u32::MAX {
                    Err(AdapterValidationError::Limit)
                } else if scopes.len() < array.min || scopes.len() > array.max {
                    Err(AdapterValidationError::SourceMismatch)
                } else {
                    present(evaluated_items(inputs, index, scopes, 0, opened, Seq::empty()))
                },
            },
            ContractNodeBody::Switch(switch) => match chosen(inputs, switch.source, scope, next) {
                Err(error) => Err(error),
                Ok((ordinal, opened)) => if ordinal < switch.cases@.len()
                    && switch.cases@[ordinal as int].node < index {
                    match evaluated(
                        inputs,
                        switch.cases@[ordinal as int].node as int,
                        scope,
                        opened,
                    ) {
                        Ok((None, _)) => invalid(),
                        outcome => outcome,
                    }
                } else {
                    invalid()
                },
            },
            ContractNodeBody::Value(value) => present(
                scalar_value(inputs, value.source, value.transform, scope, next),
            ),
            ContractNodeBody::Constant(constant) => Ok(
                (Some(constant_tree(constant.value)), next),
            ),
        },
    }
}

/// A value that is not left out.
pub open spec fn present(outcome: AdapterValidationResult<(JsonTree, Ledger)>) ->
    AdapterValidationResult<(Option<JsonTree>, Ledger)> {
    match outcome {
        Ok((value, ledger)) => Ok((Some(value), ledger)),
        Err(error) => Err(error),
    }
}

/// The key by which a node is reached.
pub open spec fn member_key(node: ContractNode) -> Option<Seq<char>> {
    match node.segment {
        Some(PathSegment::Key(key)) => Some(key@),
        _ => None,
    }
}

/// The object at node `index`, whose members before member `i` are done.
pub open spec fn evaluated_members(
    inputs: Inputs,
    index: int,
    i: int,
    scope: Scope,
    ledger: Ledger,
    done: Seq<(Seq<char>, JsonTree)>,
) -> AdapterValidationResult<(JsonTree, Ledger)>
    decreases index, 0int, inputs.contract.tree.nodes@[index].body->Object_0.children@.len() - i,
{
    let nodes = inputs.contract.tree.nodes@;
    let children = nodes[index].body->Object_0.children@;
    if !(0 <= i < children.len()) {
        Ok((JsonTree::Object(done), ledger))
    } else if children[i] >= index {
        invalid()
    } else {
        match member_key(nodes[children[i] as int]) {
            None => invalid(),
            Some(key) => match evaluated(inputs, children[i] as int, scope, ledger) {
                Err(error) => Err(error),
                Ok((None, next)) => evaluated_members(inputs, index, i + 1, scope, next, done),
                Ok((Some(value), next)) => evaluated_members(
                    inputs,
                    index,
                    i + 1,
                    scope,
                    next,
                    done.push((key, value)),
                ),
            },
        }
    }
}

/// The array at node `index` over the given scopes, whose items before item
/// `i` are done.
pub open spec fn evaluated_items(
    inputs: Inputs,
    index: int,
    scopes: Seq<Scope>,
    i: int,
    ledger: Ledger,
    done: Seq<JsonTree>,
) -> AdapterValidationResult<(JsonTree, Ledger)>
    decreases index, 0int, scopes.len() - i,
{
    let item = inputs.contract.tree.nodes@[index].body->Array_0.item;
    if !(0 <= i < scopes.len()) {
        Ok((JsonTree::Array(done), ledger))
    } else if item >= index {
        invalid()
    } else {
        match evaluated(inputs, item as int, scopes[i], ledger) {
            Err(error) => Err(error),
            Ok((None, _)) => invalid(),
            Ok((Some(value), next)) => evaluated_items(
                inputs,
                index,
                scopes,
                i + 1,
                next,
                done.push(value),
            ),
        }
    }
}

/// The tree of a value that may be left out.
pub open spec fn optional_tree(value: Option<AdapterJson>) -> Option<JsonTree> {
    match value {
        Some(json) => Some(json.tree()),
        None => None,
    }
}

impl<'a> Evaluator<'a> {
    /// Evaluates the members of the object at node `index`.
    #[verifier::loop_isolation(false)]
    pub fn eval_object(&mut self, index: usize, scope: Scope) -> (result: AdapterValidationResult<
        AdapterJson,
    >)
        requires
            old(self).well_formed(),
            is_ordered(old(self).contract.tree.nodes@),
            index < old(self).contract.tree.nodes@.len(),
            old(self).contract.tree.nodes@[index as int].body is Object,
            scope_exists(*old(self).original, scope),
        ensures
            final(self).follows(*old(self)),
            final(self).has_given(
                evaluated_members(
                    old(self).inputs(),
                    index as int,
                    0,
                    scope,
                    old(self).ledger(),
                    Seq::empty(),
                ),
                result,
            ),
        decreases index, 0int,
    {
        let contract = self.contract;
        let ghost inputs = self.inputs();
        let ghost start = self.ledger();
        let mut fields: Vec<(String, AdapterJson)> = Vec::new();
        assert(members_of(fields@) =~= Seq::empty());
        if let ContractNodeBody::Object(object) = &contract.tree.nodes[index].body {
            let mut i: usize = 0;
            while i < object.children.len()
                invariant
                    i <= object.children@.len(),
                    self.well_formed(),
                    self.inputs() == inputs,
                    evaluated_members(inputs, index as int, 0, scope, start, Seq::empty())
                        == evaluated_members(
                        inputs,
                        index as int,
                        i as int,
                        scope,
                        self.ledger(),
                        members_of(fields@),
                    ),
                decreases object.children.len() - i,
            {
                assert(references_of(contract.tree.nodes@[index as int].body)[i as int] < index);
                let child: usize = object.children[i] as usize;
                let key = match &contract.tree.nodes[child].segment {
                    Some(PathSegment::Key(key)) => key.clone(),
                    _ => {
                        return Err(AdapterValidationError::InvalidContract);
                    },
                };
                let ghost before = members_of(fields@);
                if let Some(value) = self.eval_node(child, scope)? {
                    fields.push((key, value));
                    assert(members_of(fields@) =~= before.push((key@, value.tree())));
                }
                i += 1;
            }
        }
        proof {
            lemma_object_tree(fields);
        }
        Ok(AdapterJson::Object(fields))
    }

    /// Evaluates the item of the array at node `index` for every scope.
    #[verifier::loop_isolation(false)]
    pub fn eval_array(&mut self, index: usize, item: usize, scopes: &Vec<Scope>) -> (result:
        AdapterValidationResult<AdapterJson>)
        requires
            old(self).well_formed(),
            is_ordered(old(self).contract.tree.nodes@),
            index < old(self).contract.tree.nodes@.len(),
            old(self).contract.tree.nodes@[index as int].body is Array,
            old(self).contract.tree.nodes@[index as int].body->Array_0.item == item,
            forall|i: int|
                0 <= i < scopes@.len() ==> scope_exists(
                    *old(self).original,
                    #[trigger] scopes@[i],
                ),
        ensures
            final(self).follows(*old(self)),
            final(self).has_given(
                evaluated_items(
                    old(self).inputs(),
                    index as int,
                    scopes@,
                    0,
                    old(self).ledger(),
                    Seq::empty(),
                ),
                result,
            ),
        decreases index, 0int,
    {
        let ghost inputs = self.inputs();
        let ghost start = self.ledger();
        assert(references_of(self.contract.tree.nodes@[index as int].body)[0] < index);
        let mut items: Vec<AdapterJson> = Vec::new();
        assert(trees_of(items@) =~= Seq::empty());
        let mut i: usize = 0;
        while i < scopes.len()
            invariant
                i <= scopes@.len(),
                self.well_formed(),
                self.inputs() == inputs,
                evaluated_items(inputs, index as int, scopes@, 0, start, Seq::empty())
                    == evaluated_items(
                    inputs,
                    index as int,
                    scopes@,
                    i as int,
                    self.ledger(),
                    trees_of(items@),
                ),
            decreases scopes.len() - i,
        {
            let ghost before = trees_of(items@);
            match self.eval_node(item, scopes[i])? {
                Some(value) => {
                    items.push(value);
                    assert(trees_of(items@) =~= before.push(value.tree()));
                },
                None => {
                    return Err(AdapterValidationError::InvalidContract);
                },
            }
            i += 1;
        }
        proof {
            lemma_array_tree(items);
        }
        Ok(AdapterJson::Array(items))
    }

    /// Evaluates node `index` for a scope.
    pub fn eval_node(&mut self, index: usize, scope: Scope) -> (result: AdapterValidationResult<
        Option<AdapterJson>,
    >)
        requires
            old(self).well_formed(),
            is_ordered(old(self).contract.tree.nodes@),
            index < old(self).contract.tree.nodes@.len(),
            scope_exists(*old(self).original, scope),
        ensures
            final(self).follows(*old(self)),
            match result {
                Ok(value) => evaluated(
                    old(self).inputs(),
                    index as int,
                    scope,
                    old(self).ledger(),
                ) == AdapterValidationResult::<(Option<JsonTree>, Ledger)>::Ok(
                    (optional_tree(value), final(self).ledger()),
                ),
                Err(error) => evaluated(
                    old(self).inputs(),
                    index as int,
                    scope,
                    old(self).ledger(),
                ) == AdapterValidationResult::<(Option<JsonTree>, Ledger)>::Err(error),
            },
        decreases index, 1int,
    {
        let contract = self.contract;
        let node = &contract.tree.nodes[index];
        if self.omit(node.presence, node.presence_source, scope)? {
            return Ok(None);
        }
        match &node.body {
            ContractNodeBody::Object(_) => {
                let value = self.eval_object(index, scope)?;
                Ok(Some(value))
            },
            ContractNodeBody::Array(array) => {
                let scopes = self.collection_scopes(array.collection, scope)?;
                if scopes.len() > u32::MAX as usize {
                    return Err(AdapterValidationError::Limit);
                }
                let length = scopes.len() as u32;
                if length < array.min || length > array.max {
                    return Err(AdapterValidationError::SourceMismatch);
                }
                let value = self.eval_array(index, array.item as usize, &scopes)?;
                Ok(Some(value))
            },
            ContractNodeBody::Switch(switch) => {
                let ordinal: u8 = self.variant_ordinal(switch.source, scope)?;
                if ordinal as usize >= switch.cases.len() {
                    return Err(AdapterValidationError::InvalidContract);
                }
                assert(references_of(node.body)[ordinal as int] < index);
                match self.eval_node(switch.cases[ordinal as usize].node as usize, scope)? {
                    Some(value) => Ok(Some(value)),
                    None => Err(AdapterValidationError::InvalidContract),
                }
            },
            ContractNodeBody::Value(value) => {
                let value = self.scalar(value.source, &value.transform, scope)?;
                Ok(Some(value))
            },
            ContractNodeBody::Constant(constant) => Ok(
                Some(AdapterJson::from_constant(&constant.value)),
            ),
        }
    }
}

// ---------------------------------------------------------------------------
// Contracts
// ---------------------------------------------------------------------------

/// The ledger of an evaluation that has not begun.
pub open spec fn empty_ledger() -> Ledger {
    Ledger { consumed: Set::empty(), optional: Set::empty() }
}

/// The body that a contract asks for a request. It carries every part of the
/// request that it owes, and no other.
pub open spec fn expected_body(
    contract: AdapterContractV1,
    selected: ValidatedCatalogEntryView<'_>,
    original: PrepareInput,
) -> AdapterValidationResult<JsonTree> {
    if !names_selected(selected, original) {
        Err(AdapterValidationError::SourceMismatch)
    } else if !is_capable(selected, original) {
        Err(AdapterValidationError::CapabilityMismatch)
    } else {
        match request_verdict(selected, original) {
            Err(error) => Err(source_error(error)),
            Ok((_, matched)) => match evaluated(
                Inputs { contract, original, matched },
                contract.tree.root as int,
                Scope::Root,
                empty_ledger(),
            ) {
                Err(error) => Err(error),
                Ok((None, _)) => invalid(),
                Ok((Some(value), ledger)) => if ledger.consumed == owed(
                    contract.wire_id,
                    original,
                ) {
                    Ok(value)
                } else {
                    Err(AdapterValidationError::SourceMismatch)
                },
            },
        }
    }
}

/// The body that a contract asks for a request.
pub fn evaluate_contract(
    contract: &AdapterContractV1,
    selected: ValidatedCatalogEntryView<'_>,
    original: &PrepareInput,
) -> (result: AdapterValidationResult<AdapterJson>)
    requires
        is_ordered(contract.tree.nodes@),
        contract.tree.root < contract.tree.nodes@.len(),
    ensures
        gives(expected_body(*contract, selected, *original), result),
{
    validate_identity(selected, original)?;
    validate_capabilities(selected, original)?;
    let entry = catalog_entry(selected);
    proof {
        lemma_request_verdict(selected, *original, entry);
    }
    let prepared = match validate_prepare_input(
        original,
        SelectedCatalogView {
            provider_id: selected.provider_id,
            route_id: selected.route_id,
            catalog_digest: selected.catalog_digest,
            entry: &entry,
        },
    ) {
        Ok(prepared) => prepared,
        Err(error) => {
            return Err(map_source_error(error));
        },
    };
    let expected = expected_debts(contract.wire_id, original);
    let mut evaluator = Evaluator {
        contract,
        original,
        prepared,
        consumed: DebtSet::new(),
        optional_consumed: DebtSet::new(),
    };
    let value = match evaluator.eval_node(contract.tree.root as usize, Scope::Root)? {
        Some(value) => value,
        None => {
            return Err(AdapterValidationError::InvalidContract);
        },
    };
    if !evaluator.consumed.same(&expected) {
        return Err(AdapterValidationError::SourceMismatch);
    }
    Ok(value)
}

} // verus!
