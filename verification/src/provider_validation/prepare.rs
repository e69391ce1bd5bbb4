//! Prepare-input, message-reducer, image, proof and header validation.

use std::collections::VecDeque;

use vstd::prelude::*;
use vstd::utf8::encode_utf8;

use crate::provider_api::{
    AssistantBlock, AssistantMessage, CapabilitySupport, CatalogEntry, ImageView, InputModality,
    Message, ModelSelection, OrdinaryHeader, PrepareInput, PreparedRequest, Reasoning,
    ReasoningBlock, ReasoningCapability, ReasoningKind, ToolCallBlock, ToolCapability, ToolChoice,
    ToolDefinition, ToolResultBlock, ToolResultMessage, UserBlock, UserMessage,
};
use crate::provider_api::IdText;
use crate::provider_validation::catalog::{
    entries_verdict, is_supported, same_selection, selection_text, selection_verdict,
    selections_agree, supported,
};
use crate::provider_validation::charge::{checked_len, LogicalCharge, Tally};
use crate::provider_validation::scalar;
use crate::provider_validation::scalar::{
    digest_verdict, identifier_verdict, label_verdict, safe_verdict, stamp_verdict,
    tracking_verdict, MAX_LOGICAL_CHARGE, MAX_SAFE_TEXT_BYTES,
};
use crate::provider_validation::wire_json::{validate_wire_json, wire_verdict};
use crate::provider_validation::{also, verdict, ValidationError, ValidationResult};
use crate::text::{bytes_before, is_before, same_text, starts_with};

verus! {

/// Largest number of system parts.
pub const MAX_SYSTEM_PARTS: usize = 1_024;

/// Largest number of messages.
pub const MAX_MESSAGES: usize = 4_096;

/// Largest number of tools.
pub const MAX_TOOLS: usize = 1_024;

/// Largest number of blocks of one message.
pub const MAX_BLOCKS: usize = 4_096;

/// Largest image: eight mebibytes.
pub const MAX_IMAGE_BYTES: usize = 8_388_608;

/// Largest reasoning proof: 64 kibibytes.
pub const MAX_PROOF_BYTES: usize = 65_536;

/// Largest total of reasoning proofs: 256 kibibytes.
pub const MAX_PROOFS_BYTES: u64 = 262_144;

/// Largest image width and height.
pub const MAX_IMAGE_DIMENSION: u32 = 16_384;

/// Largest number of image frames.
pub const MAX_IMAGE_FRAMES: u32 = 64;

/// Largest number of ordinary headers.
pub const MAX_HEADERS: usize = 32;

/// Largest header name.
pub const MAX_HEADER_NAME_BYTES: usize = 64;

/// Largest header value.
pub const MAX_HEADER_VALUE_BYTES: usize = 4_096;

/// The catalog entry that a request is bound to.
#[derive(Debug, Clone, Copy)]
pub struct SelectedCatalogView<'a> {
    pub provider_id: &'a IdText,
    pub route_id: &'a IdText,
    pub catalog_digest: &'a str,
    pub entry: &'a CatalogEntry,
}

/// Whether a tool call succeeded.
#[derive(Debug, Clone, Copy, PartialEq, Eq, Structural)]
pub enum ToolResultStatus {
    Success,
    Error,
}

/// A tool result with the call that it answers.
#[derive(Debug, Clone, Copy, PartialEq, Eq)]
pub struct MatchedToolResult<'a> {
    pub call_id: &'a str,
    pub name: &'a str,
    pub status: ToolResultStatus,
}

/// What is known of a valid request: its charge and its tool results in order.
#[derive(Debug, Clone, PartialEq, Eq)]
pub struct ValidatedPrepare<'a> {
    pub logical_charge: u64,
    pub matched_tool_results: Vec<MatchedToolResult<'a>>,
}

/// The texts of a matched tool result.
pub struct MatchedText {
    pub call_id: Seq<char>,
    pub name: Seq<char>,
    pub status: ToolResultStatus,
}

impl<'a> MatchedToolResult<'a> {
    /// The texts of this result.
    pub open spec fn texts(self) -> MatchedText {
        MatchedText { call_id: self.call_id@, name: self.name@, status: self.status }
    }
}

/// The texts of a list of results.
pub open spec fn matched_texts(results: Seq<MatchedToolResult<'_>>) -> Seq<MatchedText> {
    results.map_values(|result: MatchedToolResult<'_>| result.texts())
}

/// The texts of a list of references.
pub open spec fn texts_of(values: Seq<&str>) -> Seq<Seq<char>> {
    values.map_values(|value: &str| value@)
}

/// The texts of a list of pairs of references.
pub open spec fn pairs_of(values: Seq<(&str, &str)>) -> Seq<(Seq<char>, Seq<char>)> {
    values.map_values(|value: (&str, &str)| (value.0@, value.1@))
}

/// Whether a list holds a text.
pub fn holds_text(values: &[&str], text: &str) -> (found: bool)
    ensures
        found == texts_of(values@).contains(text@),
{
    let mut i: usize = 0;
    while i < values.len()
        invariant
            i <= values@.len(),
            forall|j: int| 0 <= j < i ==> (#[trigger] texts_of(values@)[j]) != text@,
        decreases values.len() - i,
    {
        assert(texts_of(values@)[i as int] == values@[i as int]@);
        if same_text(values[i], text) {
            return true;
        }
        i += 1;
    }
    false
}

// ---------------------------------------------------------------------------
// Blocks
// ---------------------------------------------------------------------------

/// Charging a nonempty text block.
pub open spec fn text_tally(tally: Tally, text: Seq<char>) -> Tally {
    tally.check(safe_verdict(text, MAX_SAFE_TEXT_BYTES as int, true)).string(text)
}

/// Checks and charges a nonempty text.
pub fn validate_text(text: &str, charge: &mut LogicalCharge) -> (result: ValidationResult)
    ensures
        final(charge).after(result) == text_tally(old(charge).tally(), text@),
{
    scalar::safe(text, MAX_SAFE_TEXT_BYTES, true)?;
    charge.string(text)
}

/// Both kinds of reasoning are the same.
pub fn same_reasoning_kind(left: &ReasoningKind, right: &ReasoningKind) -> (equal: bool)
    ensures
        equal == (*left == *right),
{
    match (left, right) {
        (ReasoningKind::Thinking, ReasoningKind::Thinking) => true,
        (ReasoningKind::Summary, ReasoningKind::Summary) => true,
        _ => false,
    }
}

/// What the request rules ask of a catalog entry.
pub struct ModelFacts {
    pub input_modalities: Seq<InputModality>,
    pub tool_capability: ToolCapability,
    pub reasoning_capability: ReasoningCapability,
    pub max_output_tokens: Option<u64>,
}

/// What the request rules ask of a catalog entry.
pub open spec fn facts_of(entry: CatalogEntry) -> ModelFacts {
    ModelFacts {
        input_modalities: entry.input_modalities@,
        tool_capability: entry.tool_capability,
        reasoning_capability: entry.reasoning_capability,
        max_output_tokens: entry.max_output_tokens,
    }
}

/// The model of a catalog entry accepts images.
pub open spec fn accepts_images(entry: ModelFacts) -> bool {
    entry.input_modalities.contains(InputModality::Image)
}

/// Whether a list of modalities holds images.
pub fn has_image_modality(modalities: &[InputModality]) -> (found: bool)
    ensures
        found == modalities@.contains(InputModality::Image),
{
    let mut i: usize = 0;
    while i < modalities.len()
        invariant
            i <= modalities@.len(),
            forall|j: int| 0 <= j < i ==> #[trigger] modalities@[j] != InputModality::Image,
        decreases modalities.len() - i,
    {
        if matches!(modalities[i], InputModality::Image) {
            assert(modalities@[i as int] == InputModality::Image);
            return true;
        }
        i += 1;
    }
    false
}

/// The dimensions of an image are within bounds and the model accepts images.
pub open spec fn image_fits(image: ImageView, entry: ModelFacts) -> bool {
    &&& 1 <= image.metadata.width <= MAX_IMAGE_DIMENSION
    &&& 1 <= image.metadata.height <= MAX_IMAGE_DIMENSION
    &&& 1 <= image.metadata.frames <= MAX_IMAGE_FRAMES
    &&& accepts_images(entry)
}

/// Charging an image block.
pub open spec fn image_tally(tally: Tally, image: ImageView, entry: ModelFacts) -> Tally {
    tally.check(stamp_verdict(image.stamp@, "img1-"@)).ensure(
        image.bytes@.len() > 0,
        ValidationError::InvalidArgument,
    ).ensure(image.bytes@.len() <= MAX_IMAGE_BYTES, ValidationError::Limit).ensure(
        image_fits(image, entry),
        ValidationError::InvalidArgument,
    ).string(image.stamp@).charge(4).charge(4).charge(image.bytes@.len() as int).charge(12)
}

/// Checks and charges an image.
pub fn validate_image(
    image: &ImageView,
    selected: &CatalogEntry,
    charge: &mut LogicalCharge,
) -> (result: ValidationResult)
    ensures
        final(charge).after(result) == image_tally(old(charge).tally(), *image, facts_of(*selected)),
{
    scalar::stamp(image.stamp.as_str(), "img1-")?;
    if image.bytes.len() == 0 {
        return Err(ValidationError::InvalidArgument);
    }
    if image.bytes.len() > MAX_IMAGE_BYTES {
        return Err(ValidationError::Limit);
    }
    if image.metadata.width < 1 || image.metadata.width > MAX_IMAGE_DIMENSION
        || image.metadata.height < 1 || image.metadata.height > MAX_IMAGE_DIMENSION
        || image.metadata.frames < 1 || image.metadata.frames > MAX_IMAGE_FRAMES
        || !has_image_modality(selected.input_modalities.as_slice()) {
        return Err(ValidationError::InvalidArgument);
    }
    charge.string(image.stamp.as_str())?;
    charge.add(4)?;
    charge.add(4)?;
    charge.add(checked_len(image.bytes.len())?)?;
    charge.add(12)
}

/// The checks on a reasoning block up to the size of its proof.
pub open spec fn reasoning_prefix(tally: Tally, block: ReasoningBlock, entry: ModelFacts) -> Tally {
    let opened = text_tally(
        tally.ensure(
            entry.reasoning_capability.reasoning == CapabilitySupport::Supported,
            ValidationError::InvalidArgument,
        ).charge(4),
        block.text@,
    ).charge(4);
    match block.proof {
        None => opened,
        Some(proof) => opened.ensure(
            block.kind == proof.reasoning_kind && entry.reasoning_capability.proof
                == CapabilitySupport::Supported,
            ValidationError::InvalidArgument,
        ).check(stamp_verdict(proof.stamp@, "prf1-"@)).check(
            identifier_verdict(proof.source_request_id),
        ).check(identifier_verdict(proof.source_turn_id)).ensure(
            proof.source_content_index <= 63,
            ValidationError::InvalidArgument,
        ).ensure(proof.proof@.len() > 0, ValidationError::InvalidArgument).ensure(
            proof.proof@.len() <= MAX_PROOF_BYTES,
            ValidationError::Limit,
        ),
    }
}

/// The total of proof bytes after a reasoning block.
pub open spec fn proof_total(
    tally: Tally,
    block: ReasoningBlock,
    entry: ModelFacts,
    proof_bytes: int,
) -> int {
    match block.proof {
        Some(proof) if reasoning_prefix(tally, block, entry).verdict is Ok && proof_bytes
            + proof.proof@.len() <= u64::MAX => proof_bytes + proof.proof@.len(),
        _ => proof_bytes,
    }
}

/// Charging a reasoning block, after `proof_bytes` bytes of earlier proofs.
pub open spec fn reasoning_tally(
    tally: Tally,
    block: ReasoningBlock,
    entry: ModelFacts,
    proof_bytes: int,
) -> Tally {
    let opened = reasoning_prefix(tally, block, entry);
    match block.proof {
        None => opened,
        Some(proof) => opened.ensure(
            proof_bytes + proof.proof@.len() <= MAX_PROOFS_BYTES,
            ValidationError::Limit,
        ).string(proof.stamp@).string(proof.source_request_id.text@).string(
            proof.source_turn_id.text@,
        ).charge(1).charge(4).charge(4).charge(proof.proof@.len() as int),
    }
}

/// Checks and charges a reasoning block and its proof.
pub fn validate_reasoning_block(
    block: &ReasoningBlock,
    selected: &CatalogEntry,
    charge: &mut LogicalCharge,
    proof_bytes: &mut u64,
) -> (result: ValidationResult)
    ensures
        final(charge).after(result) == reasoning_tally(
            old(charge).tally(),
            *block,
            facts_of(*selected),
            *old(proof_bytes) as int,
        ),
        *final(proof_bytes) == proof_total(
            old(charge).tally(),
            *block,
            facts_of(*selected),
            *old(proof_bytes) as int,
        ),
{
    if !is_supported(&selected.reasoning_capability.reasoning) {
        return Err(ValidationError::InvalidArgument);
    }
    charge.add(4)?;
    validate_text(block.text.as_str(), charge)?;
    charge.add(4)?;
    let attached = &block.proof;
    let evidence = match attached {
        None => {
            return Ok(());
        },
        Some(evidence) => evidence,
    };
    if !same_reasoning_kind(&block.kind, &evidence.reasoning_kind) || !is_supported(
        &selected.reasoning_capability.proof,
    ) {
        return Err(ValidationError::InvalidArgument);
    }
    scalar::stamp(evidence.stamp.as_str(), "prf1-")?;
    scalar::request_id(&evidence.source_request_id)?;
    scalar::turn_id(&evidence.source_turn_id)?;
    if evidence.source_content_index > 63 {
        return Err(ValidationError::InvalidArgument);
    }
    if evidence.proof.len() == 0 {
        return Err(ValidationError::InvalidArgument);
    }
    if evidence.proof.len() > MAX_PROOF_BYTES {
        return Err(ValidationError::Limit);
    }
    match proof_bytes.checked_add(checked_len(evidence.proof.len())?) {
        Some(total) => {
            *proof_bytes = total;
        },
        None => {
            return Err(ValidationError::Limit);
        },
    }
    if *proof_bytes > MAX_PROOFS_BYTES {
        return Err(ValidationError::Limit);
    }
    charge.string(evidence.stamp.as_str())?;
    charge.string(evidence.source_request_id.text.as_str())?;
    charge.string(evidence.source_turn_id.text.as_str())?;
    charge.add(1)?;
    charge.add(4)?;
    charge.add(4)?;
    charge.add(checked_len(evidence.proof.len())?)
}

/// A list is not longer than its bound.
pub open spec fn list_verdict(length: int, maximum: int) -> ValidationResult {
    verdict(length <= maximum, ValidationError::Limit)
}

/// Refuses a list that is longer than its bound.
pub fn validate_list_max(length: usize, maximum: usize) -> (result: ValidationResult)
    ensures
        result == list_verdict(length as int, maximum as int),
{
    if length > maximum {
        return Err(ValidationError::Limit);
    }
    Ok(())
}

/// A block list is not empty and within its bound.
pub open spec fn blocks_verdict(length: int) -> ValidationResult {
    also(
        verdict(length != 0, ValidationError::InvalidArgument),
        list_verdict(length, MAX_BLOCKS as int),
    )
}

/// Refuses an empty or too long block list.
pub fn validate_nonempty_blocks(length: usize) -> (result: ValidationResult)
    ensures
        result == blocks_verdict(length as int),
{
    if length == 0 {
        return Err(ValidationError::InvalidArgument);
    }
    validate_list_max(length, MAX_BLOCKS)
}

// ---------------------------------------------------------------------------
// Messages
// ---------------------------------------------------------------------------

/// The state of the message reducer: the tally, the calls that wait for their
/// results, the call identifiers seen, the proof bytes, whether a call was
/// seen, and the matched results.
pub struct MessageState {
    pub tally: Tally,
    pub pending: Seq<(Seq<char>, Seq<char>)>,
    pub call_ids: Seq<Seq<char>>,
    pub proof_bytes: int,
    pub has_calls: bool,
    pub matched: Seq<MatchedText>,
}

/// Charging the blocks of a user message from position `i` on.
pub open spec fn user_blocks_tally(
    tally: Tally,
    blocks: Seq<UserBlock>,
    i: int,
    entry: ModelFacts,
) -> Tally
    decreases blocks.len() - i,
{
    if tally.verdict is Err || i >= blocks.len() {
        tally
    } else {
        user_blocks_tally(
            match blocks[i] {
                UserBlock::Text(text) => text_tally(tally.charge(4), text.text@),
                UserBlock::Image(image) => image_tally(tally.charge(4), image, entry),
            },
            blocks,
            i + 1,
            entry,
        )
    }
}

/// Charging the blocks of a tool result from position `i` on.
pub open spec fn result_blocks_tally(
    tally: Tally,
    blocks: Seq<ToolResultBlock>,
    i: int,
    entry: ModelFacts,
) -> Tally
    decreases blocks.len() - i,
{
    if tally.verdict is Err || i >= blocks.len() {
        tally
    } else {
        result_blocks_tally(
            match blocks[i] {
                ToolResultBlock::Text(text) => text_tally(tally.charge(4), text.text@),
                ToolResultBlock::Image(image) => image_tally(tally.charge(4), image, entry),
            },
            blocks,
            i + 1,
            entry,
        )
    }
}

/// A tool call: its identifier is new, its tool is defined, and its arguments
/// are a valid object. It then waits for its result.
pub open spec fn call_state(
    state: MessageState,
    call: ToolCallBlock,
    definitions: Seq<Seq<char>>,
) -> MessageState {
    let named = state.tally.check(tracking_verdict(call.call_id@)).check(
        label_verdict(call.name@, 128),
    ).ensure(
        !state.call_ids.contains(call.call_id@) && definitions.contains(call.name@),
        ValidationError::InvalidArgument,
    );
    let tally = match wire_verdict(call.arguments@, true) {
        Ok(stats) => named.string(call.call_id@).string(call.name@).charge(
            stats.logical_charge as int,
        ),
        Err(error) => named.check(Err(error)),
    };
    MessageState {
        tally,
        pending: state.pending.push((call.call_id@, call.name@)),
        call_ids: state.call_ids.push(call.call_id@),
        has_calls: true,
        ..state
    }
}

/// One block of an assistant message.
#[verifier::opaque]
pub open spec fn assistant_block_state(
    state: MessageState,
    block: AssistantBlock,
    definitions: Seq<Seq<char>>,
    entry: ModelFacts,
) -> MessageState {
    let charged = MessageState { tally: state.tally.charge(4), ..state };
    match block {
        AssistantBlock::Text(text) => MessageState {
            tally: text_tally(charged.tally, text.text@),
            ..charged
        },
        AssistantBlock::Reasoning(reasoning) => MessageState {
            tally: reasoning_tally(charged.tally, reasoning, entry, charged.proof_bytes),
            proof_bytes: proof_total(charged.tally, reasoning, entry, charged.proof_bytes),
            ..charged
        },
        AssistantBlock::ToolCall(call) => call_state(charged, call, definitions),
    }
}

/// The blocks of an assistant message from position `i` on.
pub open spec fn assistant_blocks_state(
    state: MessageState,
    blocks: Seq<AssistantBlock>,
    i: int,
    definitions: Seq<Seq<char>>,
    entry: ModelFacts,
) -> MessageState
    decreases blocks.len() - i,
{
    if state.tally.verdict is Err || i >= blocks.len() {
        state
    } else {
        assistant_blocks_state(
            assistant_block_state(state, blocks[i], definitions, entry),
            blocks,
            i + 1,
            definitions,
            entry,
        )
    }
}

/// Some matched result answers the call with the given identifier.
pub open spec fn is_matched(matched: Seq<MatchedText>, call_id: Seq<char>) -> bool {
    exists|i: int| 0 <= i < matched.len() && (#[trigger] matched[i]).call_id == call_id
}

/// A tool result: it answers the first waiting call.
pub open spec fn result_state(
    state: MessageState,
    result: ToolResultMessage,
    entry: ModelFacts,
) -> MessageState {
    let answered = state.tally.ensure(
        state.pending.len() > 0 && result.call_id@ == state.pending[0].0,
        ValidationError::InvalidArgument,
    ).check(tracking_verdict(result.call_id@)).check(
        blocks_verdict(result.blocks@.len() as int),
    ).string(result.call_id@).charge(4);
    let tally = result_blocks_tally(answered, result.blocks@, 0, entry).charge(1).ensure(
        !is_matched(state.matched, result.call_id@),
        ValidationError::InvalidArgument,
    );
    MessageState {
        tally,
        pending: state.pending.subrange(1, state.pending.len() as int),
        matched: state.matched.push(
            MatchedText {
                call_id: result.call_id@,
                name: state.pending[0].1,
                status: if result.is_error {
                    ToolResultStatus::Error
                } else {
                    ToolResultStatus::Success
                },
            },
        ),
        ..state
    }
}

/// One message. User and assistant messages come only when no call waits for
/// its result.
pub open spec fn message_state(
    state: MessageState,
    message: Message,
    definitions: Seq<Seq<char>>,
    entry: ModelFacts,
) -> MessageState {
    let tagged = MessageState { tally: state.tally.charge(4), ..state };
    match message {
        Message::User(user) => MessageState {
            tally: user_blocks_tally(
                tagged.tally.ensure(
                    tagged.pending.len() == 0,
                    ValidationError::InvalidArgument,
                ).check(blocks_verdict(user.blocks@.len() as int)).charge(4),
                user.blocks@,
                0,
                entry,
            ),
            ..tagged
        },
        Message::Assistant(assistant) => assistant_blocks_state(
            MessageState {
                tally: tagged.tally.ensure(
                    tagged.pending.len() == 0,
                    ValidationError::InvalidArgument,
                ).check(blocks_verdict(assistant.blocks@.len() as int)).charge(4),
                ..tagged
            },
            assistant.blocks@,
            0,
            definitions,
            entry,
        ),
        Message::ToolResult(result) => result_state(tagged, result, entry),
    }
}

/// The messages from position `i` on.
pub open spec fn messages_state_from(
    state: MessageState,
    messages: Seq<Message>,
    i: int,
    definitions: Seq<Seq<char>>,
    entry: ModelFacts,
) -> MessageState
    decreases messages.len() - i,
{
    if state.tally.verdict is Err || i >= messages.len() {
        state
    } else {
        messages_state_from(
            message_state(state, messages[i], definitions, entry),
            messages,
            i + 1,
            definitions,
            entry,
        )
    }
}

/// The reducer's state before the first message.
pub open spec fn initial_message_state(tally: Tally) -> MessageState {
    MessageState {
        tally,
        pending: Seq::empty(),
        call_ids: Seq::empty(),
        proof_bytes: 0,
        has_calls: false,
        matched: Seq::empty(),
    }
}

/// All messages; in the end no call may wait for its result.
#[verifier::opaque]
pub open spec fn messages_state(
    tally: Tally,
    messages: Seq<Message>,
    definitions: Seq<Seq<char>>,
    entry: ModelFacts,
) -> MessageState {
    let state = messages_state_from(
        initial_message_state(tally),
        messages,
        0,
        definitions,
        entry,
    );
    MessageState {
        tally: state.tally.ensure(state.pending.len() == 0, ValidationError::InvalidArgument),
        ..state
    }
}

/// The calls and results seen so far.
#[derive(Debug)]
pub struct MessageReducer<'a> {
    pub pending: VecDeque<(&'a str, &'a str)>,
    pub call_ids: Vec<&'a str>,
    pub proof_bytes: u64,
    pub has_calls: bool,
    pub matched_tool_results: Vec<MatchedToolResult<'a>>,
}

/// What is known of a valid message list.
#[derive(Debug)]
pub struct MessageFacts<'a> {
    pub has_calls: bool,
    pub matched_tool_results: Vec<MatchedToolResult<'a>>,
}

impl<'a> MessageReducer<'a> {
    /// The reducer's state together with a tally.
    pub open spec fn state(self, tally: Tally) -> MessageState {
        MessageState {
            tally,
            pending: pairs_of(self.pending@),
            call_ids: texts_of(self.call_ids@),
            proof_bytes: self.proof_bytes as int,
            has_calls: self.has_calls,
            matched: matched_texts(self.matched_tool_results@),
        }
    }

    /// The reducer and the charge reached `expected`; after a failure only the
    /// tally is compared.
    pub open spec fn reached(self, tally: Tally, expected: MessageState) -> bool {
        &&& tally == expected.tally
        &&& tally.verdict is Ok ==> self.state(tally) == expected
    }

    fn user_message(
        &mut self,
        user: &UserMessage,
        selected: &CatalogEntry,
        charge: &mut LogicalCharge,
    ) -> (result: ValidationResult)
        ensures
            *final(self) == *old(self),
            final(charge).after(result) == user_blocks_tally(
                old(charge).tally().ensure(
                    pairs_of(old(self).pending@).len() == 0,
                    ValidationError::InvalidArgument,
                ).check(blocks_verdict(user.blocks@.len() as int)).charge(4),
                user.blocks@,
                0,
                facts_of(*selected),
            ),
    {
        if self.pending.len() != 0 {
            return Err(ValidationError::InvalidArgument);
        }
        validate_nonempty_blocks(user.blocks.len())?;
        charge.add(4)?;
        let ghost start = charge.tally();
        let mut i: usize = 0;
        while i < user.blocks.len()
            invariant
                i <= user.blocks@.len(),
                *self == *old(self),
                user_blocks_tally(start, user.blocks@, 0, facts_of(*selected)) == user_blocks_tally(
                    charge.tally(),
                    user.blocks@,
                    i as int,
                    facts_of(*selected),
                ),
                user_blocks_tally(start, user.blocks@, 0, facts_of(*selected)) == user_blocks_tally(
                    old(charge).tally().ensure(
                        pairs_of(old(self).pending@).len() == 0,
                        ValidationError::InvalidArgument,
                    ).check(blocks_verdict(user.blocks@.len() as int)).charge(4),
                    user.blocks@,
                    0,
                    facts_of(*selected),
                ),
            decreases user.blocks.len() - i,
        {
            proof {
                reveal_with_fuel(user_blocks_tally, 2);
            }
            charge.add(4)?;
            match &user.blocks[i] {
                UserBlock::Text(text) => validate_text(text.text.as_str(), charge)?,
                UserBlock::Image(image) => validate_image(image, selected, charge)?,
            }
            i += 1;
        }
        Ok(())
    }

    fn tool_call(
        &mut self,
        call: &'a ToolCallBlock,
        definitions: &Vec<&str>,
        charge: &mut LogicalCharge,
    ) -> (result: ValidationResult)
        ensures
            final(self).reached(
                final(charge).after(result),
                call_state(
                    old(self).state(old(charge).tally()),
                    *call,
                    texts_of(definitions@),
                ),
            ),
    {
        scalar::tracking_id(call.call_id.as_str())?;
        scalar::label(call.name.as_str(), 128)?;
        if holds_text(self.call_ids.as_slice(), call.call_id.as_str()) || !holds_text(
            definitions.as_slice(),
            call.name.as_str(),
        ) {
            return Err(ValidationError::InvalidArgument);
        }
        self.call_ids.push(call.call_id.as_str());
        let statistics = validate_wire_json(&call.arguments, true)?;
        charge.string(call.call_id.as_str())?;
        charge.string(call.name.as_str())?;
        charge.add(statistics.logical_charge)?;
        self.pending.push_back((call.call_id.as_str(), call.name.as_str()));
        self.has_calls = true;
        proof {
            let expected = call_state(
                old(self).state(old(charge).tally()),
                *call,
                texts_of(definitions@),
            );
            assert(texts_of(self.call_ids@) =~= expected.call_ids);
            assert(pairs_of(self.pending@) =~= expected.pending);
        }
        Ok(())
    }

    #[verifier::loop_isolation(false)]
    fn assistant_message(
        &mut self,
        assistant: &'a AssistantMessage,
        definitions: &Vec<&str>,
        selected: &CatalogEntry,
        charge: &mut LogicalCharge,
    ) -> (result: ValidationResult)
        ensures
            final(self).reached(
                final(charge).after(result),
                assistant_blocks_state(
                    MessageState {
                        tally: old(charge).tally().ensure(
                            pairs_of(old(self).pending@).len() == 0,
                            ValidationError::InvalidArgument,
                        ).check(blocks_verdict(assistant.blocks@.len() as int)).charge(4),
                        ..old(self).state(old(charge).tally())
                    },
                    assistant.blocks@,
                    0,
                    texts_of(definitions@),
                    facts_of(*selected),
                ),
            ),
    {
        let ghost names = texts_of(definitions@);
        let ghost expected = assistant_blocks_state(
            MessageState {
                tally: old(charge).tally().ensure(
                    pairs_of(old(self).pending@).len() == 0,
                    ValidationError::InvalidArgument,
                ).check(blocks_verdict(assistant.blocks@.len() as int)).charge(4),
                ..old(self).state(old(charge).tally())
            },
            assistant.blocks@,
            0,
            names,
            facts_of(*selected),
        );
        if self.pending.len() != 0 {
            return Err(ValidationError::InvalidArgument);
        }
        validate_nonempty_blocks(assistant.blocks.len())?;
        charge.add(4)?;
        let mut i: usize = 0;
        while i < assistant.blocks.len()
            invariant
                i <= assistant.blocks@.len(),
                names == texts_of(definitions@),
                expected == assistant_blocks_state(
                    self.state(charge.tally()),
                    assistant.blocks@,
                    i as int,
                    names,
                    facts_of(*selected),
                ),
            decreases assistant.blocks.len() - i,
        {
            proof {
                reveal_with_fuel(assistant_blocks_state, 2);
            }
            self.assistant_block(&assistant.blocks[i], definitions, selected, charge)?;
            i += 1;
        }
        Ok(())
    }

    fn assistant_block(
        &mut self,
        block: &'a AssistantBlock,
        definitions: &Vec<&str>,
        selected: &CatalogEntry,
        charge: &mut LogicalCharge,
    ) -> (result: ValidationResult)
        ensures
            final(self).reached(
                final(charge).after(result),
                assistant_block_state(
                    old(self).state(old(charge).tally()),
                    *block,
                    texts_of(definitions@),
                    facts_of(*selected),
                ),
            ),
    {
        reveal(assistant_block_state);
        charge.add(4)?;
        match block {
            AssistantBlock::Text(text) => validate_text(text.text.as_str(), charge),
            AssistantBlock::Reasoning(reasoning) => validate_reasoning_block(
                reasoning,
                selected,
                charge,
                &mut self.proof_bytes,
            ),
            AssistantBlock::ToolCall(call) => self.tool_call(call, definitions, charge),
        }
    }

    fn result_message(
        &mut self,
        result: &'a ToolResultMessage,
        selected: &CatalogEntry,
        charge: &mut LogicalCharge,
    ) -> (outcome: ValidationResult)
        ensures
            final(self).reached(
                final(charge).after(outcome),
                result_state(old(self).state(old(charge).tally()), *result, facts_of(*selected)),
            ),
    {
        let ghost expected = result_state(
            old(self).state(old(charge).tally()),
            *result,
            facts_of(*selected),
        );
        let ghost waiting = pairs_of(self.pending@);
        let (call_id, name): (&'a str, &'a str) = match self.pending.pop_front() {
            Some(pair) => pair,
            None => {
                return Err(ValidationError::InvalidArgument);
            },
        };
        assert(waiting[0] == (call_id@, name@));
        if !same_text(result.call_id.as_str(), call_id) {
            return Err(ValidationError::InvalidArgument);
        }
        scalar::tracking_id(result.call_id.as_str())?;
        validate_nonempty_blocks(result.blocks.len())?;
        charge.string(result.call_id.as_str())?;
        charge.add(4)?;
        let ghost start = charge.tally();
        validate_result_blocks(result.blocks.as_slice(), selected, charge)?;
        charge.add(1)?;
        if has_result(self.matched_tool_results.as_slice(), call_id) {
            return Err(ValidationError::InvalidArgument);
        }
        self.matched_tool_results.push(
            MatchedToolResult {
                call_id,
                name,
                status: if result.is_error {
                    ToolResultStatus::Error
                } else {
                    ToolResultStatus::Success
                },
            },
        );
        assert(pairs_of(self.pending@) =~= expected.pending);
        assert(matched_texts(self.matched_tool_results@) =~= expected.matched);
        Ok(())
    }
}

fn has_result(results: &[MatchedToolResult<'_>], call_id: &str) -> (found: bool)
    ensures
        found == is_matched(matched_texts(results@), call_id@),
{
    let mut i: usize = 0;
    while i < results.len()
        invariant
            i <= results@.len(),
            forall|j: int|
                0 <= j < i ==> (#[trigger] matched_texts(results@)[j]).call_id != call_id@,
        decreases results.len() - i,
    {
        assert(matched_texts(results@)[i as int] == results@[i as int].texts());
        if same_text(results[i].call_id, call_id) {
            return true;
        }
        i += 1;
    }
    false
}

fn validate_result_blocks(
    blocks: &[ToolResultBlock],
    selected: &CatalogEntry,
    charge: &mut LogicalCharge,
) -> (result: ValidationResult)
    ensures
        final(charge).after(result) == result_blocks_tally(
            old(charge).tally(),
            blocks@,
            0,
            facts_of(*selected),
        ),
{
    let mut i: usize = 0;
    while i < blocks.len()
        invariant
            i <= blocks@.len(),
            result_blocks_tally(old(charge).tally(), blocks@, 0, facts_of(*selected)) == result_blocks_tally(
                charge.tally(),
                blocks@,
                i as int,
                facts_of(*selected),
            ),
        decreases blocks.len() - i,
    {
        proof {
            reveal_with_fuel(result_blocks_tally, 2);
        }
        charge.add(4)?;
        match &blocks[i] {
            ToolResultBlock::Text(text) => validate_text(text.text.as_str(), charge)?,
            ToolResultBlock::Image(image) => validate_image(image, selected, charge)?,
        }
        i += 1;
    }
    Ok(())
}

/// Checks and charges all messages and matches every tool call with its
/// result.
pub fn validate_messages<'a>(
    messages: &'a [Message],
    definitions: &Vec<&str>,
    selected: &CatalogEntry,
    charge: &mut LogicalCharge,
) -> (result: ValidationResult<MessageFacts<'a>>)
    ensures
        ({
            let state = messages_state(
                old(charge).tally(),
                messages@,
                texts_of(definitions@),
                facts_of(*selected),
            );
            &&& final(charge).after(result) == state.tally
            &&& result matches Ok(facts) ==> facts.has_calls == state.has_calls && matched_texts(
                facts.matched_tool_results@,
            ) == state.matched
        }),
{
    reveal(messages_state);
    let ghost names = texts_of(definitions@);
    let mut reducer = MessageReducer {
        pending: VecDeque::new(),
        call_ids: Vec::new(),
        proof_bytes: 0,
        has_calls: false,
        matched_tool_results: Vec::new(),
    };
    let ghost expected = messages_state_from(
        initial_message_state(charge.tally()),
        messages@,
        0,
        names,
        facts_of(*selected),
    );
    proof {
        let state = reducer.state(charge.tally());
        assert(state.pending =~= Seq::empty());
        assert(state.call_ids =~= Seq::empty());
        assert(state.matched =~= Seq::empty());
    }
    let mut i: usize = 0;
    while i < messages.len()
        invariant
            i <= messages@.len(),
            names == texts_of(definitions@),
            expected == messages_state_from(
                reducer.state(charge.tally()),
                messages@,
                i as int,
                names,
                facts_of(*selected),
            ),
            expected.tally.verdict is Err ==> messages_state(
                old(charge).tally(),
                messages@,
                names,
                facts_of(*selected),
            ).tally == expected.tally,
        decreases messages.len() - i,
    {
        proof {
            reveal_with_fuel(messages_state_from, 2);
        }
        charge.add(4)?;
        match &messages[i] {
            Message::User(user) => reducer.user_message(user, selected, charge)?,
            Message::Assistant(assistant) => reducer.assistant_message(
                assistant,
                definitions,
                selected,
                charge,
            )?,
            Message::ToolResult(result) => reducer.result_message(result, selected, charge)?,
        }
        i += 1;
    }
    if reducer.pending.len() != 0 {
        assert(pairs_of(reducer.pending@).len() != 0);
        return Err(ValidationError::InvalidArgument);
    }
    assert(pairs_of(reducer.pending@).len() == 0);
    Ok(
        MessageFacts {
            has_calls: reducer.has_calls,
            matched_tool_results: reducer.matched_tool_results,
        },
    )
}

// ---------------------------------------------------------------------------
// Prepare input
// ---------------------------------------------------------------------------

/// The names of a list of tools.
pub open spec fn tool_names(tools: Seq<ToolDefinition>) -> Seq<Seq<char>> {
    tools.map_values(|tool: ToolDefinition| tool.name@)
}

/// Charging the tools from position `i` on: each has a label, a safe
/// description, an object schema and a new name.
pub open spec fn tools_tally(tally: Tally, tools: Seq<ToolDefinition>, i: int) -> Tally
    decreases tools.len() - i,
{
    if tally.verdict is Err || i >= tools.len() {
        tally
    } else {
        let named = tally.check(label_verdict(tools[i].name@, 128)).check(
            safe_verdict(tools[i].description@, MAX_SAFE_TEXT_BYTES as int, false),
        );
        let charged = match wire_verdict(tools[i].input_schema@, true) {
            Err(error) => named.check(Err(error)),
            Ok(schema) => named.ensure(
                !tool_names(tools).take(i).contains(tools[i].name@),
                ValidationError::InvalidArgument,
            ).string(tools[i].name@).string(tools[i].description@).charge(
                schema.logical_charge as int,
            ),
        };
        tools_tally(charged, tools, i + 1)
    }
}

/// Checks and charges the tools and returns their names.
#[verifier::loop_isolation(false)]
pub fn validate_tools<'a>(tools: &'a [ToolDefinition], charge: &mut LogicalCharge) -> (result:
    ValidationResult<Vec<&'a str>>)
    ensures
        final(charge).after(result) == tools_tally(old(charge).tally(), tools@, 0),
        result matches Ok(definitions) ==> texts_of(definitions@) == tool_names(tools@),
{
    let mut definitions: Vec<&'a str> = Vec::new();
    let mut i: usize = 0;
    assert(texts_of(definitions@) =~= tool_names(tools@).take(0));
    while i < tools.len()
        invariant
            i <= tools@.len(),
            tools_tally(old(charge).tally(), tools@, 0) == tools_tally(
                charge.tally(),
                tools@,
                i as int,
            ),
            texts_of(definitions@) == tool_names(tools@).take(i as int),
        decreases tools.len() - i,
    {
        proof {
            reveal_with_fuel(tools_tally, 2);
        }
        let tool = &tools[i];
        scalar::label(tool.name.as_str(), 128)?;
        scalar::safe(tool.description.as_str(), MAX_SAFE_TEXT_BYTES, false)?;
        let schema = validate_wire_json(&tool.input_schema, true)?;
        if holds_text(definitions.as_slice(), tool.name.as_str()) {
            return Err(ValidationError::InvalidArgument);
        }
        definitions.push(tool.name.as_str());
        charge.string(tool.name.as_str())?;
        charge.string(tool.description.as_str())?;
        charge.add(schema.logical_charge)?;
        assert(texts_of(definitions@) =~= tool_names(tools@).take(i as int + 1));
        i += 1;
    }
    assert(tool_names(tools@).take(i as int) =~= tool_names(tools@));
    Ok(definitions)
}

/// Charging the tool choice.
pub open spec fn tool_choice_tally(tally: Tally, input: PrepareInput, entry: ModelFacts) -> Tally {
    let tagged = tally.charge(4);
    match input.tool_choice {
        ToolChoice::Unset => tagged,
        ToolChoice::Auto => tagged.ensure(
            input.tools@.len() > 0 && supported(entry.tool_capability.tools) && supported(
                entry.tool_capability.auto_choice,
            ),
            ValidationError::InvalidArgument,
        ),
        ToolChoice::Forbidden => tagged.ensure(
            supported(entry.tool_capability.none_choice),
            ValidationError::InvalidArgument,
        ),
        ToolChoice::Specific(choice) => tagged.string(choice.name@).check(
            label_verdict(choice.name@, 128),
        ).ensure(
            input.tools@.len() == 1 && input.tools@[0].name@ == choice.name@ && supported(
                entry.tool_capability.tools,
            ) && supported(entry.tool_capability.specific_choice),
            ValidationError::InvalidArgument,
        ),
    }
}

/// Checks and charges the tool choice.
pub fn validate_tool_choice(
    input: &PrepareInput,
    selected: &CatalogEntry,
    charge: &mut LogicalCharge,
) -> (result: ValidationResult)
    ensures
        final(charge).after(result) == tool_choice_tally(old(charge).tally(), *input, facts_of(*selected)),
{
    charge.add(4)?;
    match &input.tool_choice {
        ToolChoice::Unset => {},
        ToolChoice::Auto => {
            if input.tools.len() == 0 || !is_supported(&selected.tool_capability.tools)
                || !is_supported(&selected.tool_capability.auto_choice) {
                return Err(ValidationError::InvalidArgument);
            }
        },
        ToolChoice::Forbidden => {
            if !is_supported(&selected.tool_capability.none_choice) {
                return Err(ValidationError::InvalidArgument);
            }
        },
        ToolChoice::Specific(choice) => {
            charge.string(choice.name.as_str())?;
            scalar::label(choice.name.as_str(), 128)?;
            if input.tools.len() != 1 || input.tools[0].name != choice.name || !is_supported(
                &selected.tool_capability.tools,
            ) || !is_supported(&selected.tool_capability.specific_choice) {
                return Err(ValidationError::InvalidArgument);
            }
        },
    }
    Ok(())
}

/// Charging the reasoning control.
pub open spec fn reasoning_control_tally(
    tally: Tally,
    reasoning: Reasoning,
    entry: ModelFacts,
) -> Tally {
    let capability = entry.reasoning_capability;
    let tagged = tally.charge(4);
    match reasoning {
        Reasoning::Unset => tagged,
        Reasoning::Disabled => tagged.ensure(
            supported(capability.reasoning),
            ValidationError::InvalidArgument,
        ),
        Reasoning::Enabled(enabled) => {
            let opened = tagged.ensure(
                supported(capability.reasoning),
                ValidationError::InvalidArgument,
            ).charge(4);
            let effort = if enabled.effort is Some {
                opened.charge(4).ensure(
                    supported(capability.effort),
                    ValidationError::InvalidArgument,
                )
            } else {
                opened
            };
            match enabled.budget_tokens {
                None => effort.charge(4),
                Some(budget) => effort.charge(4).charge(8).ensure(
                    budget != 0 && supported(capability.budget),
                    ValidationError::InvalidArgument,
                ),
            }
        },
    }
}

/// Checks and charges the reasoning control.
pub fn validate_reasoning(
    reasoning: &Reasoning,
    selected: &CatalogEntry,
    charge: &mut LogicalCharge,
) -> (result: ValidationResult)
    ensures
        final(charge).after(result) == reasoning_control_tally(
            old(charge).tally(),
            *reasoning,
            facts_of(*selected),
        ),
{
    charge.add(4)?;
    match reasoning {
        Reasoning::Unset => Ok(()),
        Reasoning::Disabled => {
            if is_supported(&selected.reasoning_capability.reasoning) {
                Ok(())
            } else {
                Err(ValidationError::InvalidArgument)
            }
        },
        Reasoning::Enabled(enabled) => {
            if !is_supported(&selected.reasoning_capability.reasoning) {
                return Err(ValidationError::InvalidArgument);
            }
            charge.add(4)?;
            if enabled.effort.is_some() {
                charge.add(4)?;
                if !is_supported(&selected.reasoning_capability.effort) {
                    return Err(ValidationError::InvalidArgument);
                }
            }
            charge.add(4)?;
            if let Some(budget) = enabled.budget_tokens {
                charge.add(8)?;
                if budget == 0 || !is_supported(&selected.reasoning_capability.budget) {
                    return Err(ValidationError::InvalidArgument);
                }
            }
            Ok(())
        },
    }
}

/// Charging the selection.
pub open spec fn selection_tally(tally: Tally, selection: ModelSelection) -> Tally {
    tally.charge(4).check(selection_verdict(selection)).string(selection_text(selection))
}

/// Checks and charges the selection.
pub fn charge_selection(charge: &mut LogicalCharge, selection: &ModelSelection) -> (result:
    ValidationResult)
    ensures
        final(charge).after(result) == selection_tally(old(charge).tally(), *selection),
{
    charge.add(4)?;
    match selection {
        ModelSelection::Exact(value) => {
            scalar::model_id(value)?;
            charge.string(value.text.as_str())
        },
        ModelSelection::Alias(value) => {
            scalar::model_alias(value)?;
            charge.string(value.text.as_str())
        },
    }
}

/// The verdict on the binding of a request to the selected catalog entry.
pub open spec fn binding_verdict(
    input: PrepareInput,
    selected: SelectedCatalogView<'_>,
) -> ValidationResult {
    also(
        also(
            identifier_verdict(*selected.provider_id),
            also(
                identifier_verdict(*selected.route_id),
                digest_verdict(selected.catalog_digest@),
            ),
        ),
        verdict(
            {
                &&& input.provider_id.text@ == selected.provider_id.text@
                &&& input.route_id.text@ == selected.route_id.text@
                &&& input.catalog_digest@ == selected.catalog_digest@
                &&& selections_agree(input.selection, selected.entry.selection)
                &&& input.current_model.text@ == selected.entry.current_model.text@
                &&& input.operation_id.text@ == selected.entry.completion_operation.text@
            },
            ValidationError::InvalidArgument,
        ),
    )
}

/// Checks the binding of a request to the selected catalog entry.
pub fn validate_selected_binding(
    input: &PrepareInput,
    selected: SelectedCatalogView<'_>,
) -> (result: ValidationResult)
    ensures
        result == binding_verdict(*input, selected),
{
    scalar::provider_id(selected.provider_id)?;
    scalar::route_id(selected.route_id)?;
    scalar::digest(selected.catalog_digest)?;
    if input.provider_id.text != selected.provider_id.text || input.route_id.text
        != selected.route_id.text || !same_text(
        input.catalog_digest.as_str(),
        selected.catalog_digest,
    ) || !same_selection(&input.selection, &selected.entry.selection)
        || input.current_model.text != selected.entry.current_model.text
        || input.operation_id.text != selected.entry.completion_operation.text {
        return Err(ValidationError::InvalidArgument);
    }
    Ok(())
}

/// Charging the system parts from position `i` on.
pub open spec fn system_tally(tally: Tally, system: Seq<String>, i: int) -> Tally
    decreases system.len() - i,
{
    if tally.verdict is Err || i >= system.len() {
        tally
    } else {
        system_tally(
            tally.check(safe_verdict(system[i]@, MAX_SAFE_TEXT_BYTES as int, false)).string(
                system[i]@,
            ),
            system,
            i + 1,
        )
    }
}

fn validate_system(system: &[String], charge: &mut LogicalCharge) -> (result: ValidationResult)
    ensures
        final(charge).after(result) == system_tally(old(charge).tally(), system@, 0),
{
    let mut i: usize = 0;
    while i < system.len()
        invariant
            i <= system@.len(),
            system_tally(old(charge).tally(), system@, 0) == system_tally(
                charge.tally(),
                system@,
                i as int,
            ),
        decreases system.len() - i,
    {
        proof {
            reveal_with_fuel(system_tally, 2);
        }
        scalar::safe(system[i].as_str(), MAX_SAFE_TEXT_BYTES, false)?;
        charge.string(system[i].as_str())?;
        i += 1;
    }
    Ok(())
}

/// Charging the identity of a request, then checking its identifiers.
pub open spec fn identity_tally(input: PrepareInput) -> Tally {
    let start = Tally { value: 0, limit: MAX_LOGICAL_CHARGE as int, verdict: Ok(()) };
    selection_tally(
        start.string(input.provider_id.text@).string(input.route_id.text@).string(
            input.catalog_digest@,
        ),
        input.selection,
    ).string(input.current_model.text@).string(input.operation_id.text@).string(
        input.request_id.text@,
    ).string(input.turn_id.text@).check(identifier_verdict(input.provider_id)).check(
        identifier_verdict(input.route_id),
    ).check(digest_verdict(input.catalog_digest@)).check(
        identifier_verdict(input.current_model),
    ).check(identifier_verdict(input.operation_id)).check(
        identifier_verdict(input.request_id),
    ).check(identifier_verdict(input.turn_id))
}

fn charge_identity(input: &PrepareInput, charge: &mut LogicalCharge) -> (result: ValidationResult)
    requires
        old(charge).value == 0,
        old(charge).limit == MAX_LOGICAL_CHARGE,
    ensures
        final(charge).after(result) == identity_tally(*input),
{
    charge.string(input.provider_id.text.as_str())?;
    charge.string(input.route_id.text.as_str())?;
    charge.string(input.catalog_digest.as_str())?;
    charge_selection(charge, &input.selection)?;
    charge.string(input.current_model.text.as_str())?;
    charge.string(input.operation_id.text.as_str())?;
    charge.string(input.request_id.text.as_str())?;
    charge.string(input.turn_id.text.as_str())?;

    scalar::provider_id(&input.provider_id)?;
    scalar::route_id(&input.route_id)?;
    scalar::digest(input.catalog_digest.as_str())?;
    scalar::model_id(&input.current_model)?;
    scalar::operation_id(&input.operation_id)?;
    scalar::request_id(&input.request_id)?;
    scalar::turn_id(&input.turn_id)
}

/// Charging the identity, the system parts and the tools.
#[verifier::opaque]
pub open spec fn preamble_tally(input: PrepareInput) -> Tally {
    let system = system_tally(
        identity_tally(input).check(
            list_verdict(input.system@.len() as int, MAX_SYSTEM_PARTS as int),
        ).charge(4),
        input.system@,
        0,
    );
    tools_tally(
        system.check(list_verdict(input.tools@.len() as int, MAX_TOOLS as int)).charge(4),
        input.tools@,
        0,
    )
}

/// Charging everything up to and with the messages.
pub open spec fn prepare_messages(input: PrepareInput, entry: ModelFacts) -> MessageState {
    messages_state(
        preamble_tally(input).check(
            list_verdict(input.messages@.len() as int, MAX_MESSAGES as int),
        ).charge(4),
        input.messages@,
        tool_names(input.tools@),
        entry,
    )
}

/// A requested output bound is positive and within that of the model.
pub open spec fn output_tally(tally: Tally, requested: Option<u64>, limit: Option<u64>) -> Tally {
    match requested {
        None => tally.charge(4),
        Some(maximum) => tally.charge(4).charge(8).ensure(
            maximum != 0 && (limit matches Some(limit) && maximum <= limit),
            ValidationError::InvalidArgument,
        ),
    }
}

/// Charging the controls that follow the messages.
#[verifier::opaque]
pub open spec fn controls_tally(
    tally: Tally,
    input: PrepareInput,
    entry: ModelFacts,
    has_calls: bool,
) -> Tally {
    output_tally(
        reasoning_control_tally(
            tool_choice_tally(tally, input, entry),
            input.reasoning,
            entry,
        ).charge(4),
        input.max_output_tokens,
        entry.max_output_tokens,
    ).ensure(
        (input.tools@.len() > 0 || has_calls) ==> supported(entry.tool_capability.tools),
        ValidationError::InvalidArgument,
    )
}

/// The verdict on a request, with its charge and its matched tool results.
pub open spec fn prepare_verdict(
    input: PrepareInput,
    selected: SelectedCatalogView<'_>,
) -> ValidationResult<(u64, Seq<MatchedText>)> {
    let gate = also(
        binding_verdict(input, selected),
        entries_verdict(seq![*selected.entry]),
    );
    let state = prepare_messages(input, facts_of(*selected.entry));
    let tally = controls_tally(state.tally, input, facts_of(*selected.entry), state.has_calls);
    match gate {
        Err(error) => Err(error),
        Ok(()) => tally.finish((tally.value as u64, state.matched)),
    }
}

fn validate_entry(entry: &CatalogEntry) -> (result: ValidationResult)
    ensures
        result == entries_verdict(seq![*entry]),
{
    proof {
        reveal_with_fuel(crate::provider_validation::catalog::entries_verdict_from, 2);
        let entries = seq![*entry];
        assert(crate::provider_validation::catalog::follows(
            crate::provider_validation::catalog::entry_selections(entries),
            0,
        ));
    }
    crate::provider_validation::catalog::validate_catalog_entry(entry)
}

fn charge_preamble<'a>(input: &'a PrepareInput, charge: &mut LogicalCharge) -> (result:
    ValidationResult<Vec<&'a str>>)
    requires
        old(charge).value == 0,
        old(charge).limit == MAX_LOGICAL_CHARGE,
    ensures
        final(charge).after(result) == preamble_tally(*input),
        result matches Ok(definitions) ==> texts_of(definitions@) == tool_names(input.tools@),
{
    reveal(preamble_tally);
    charge_identity(input, charge)?;
    validate_list_max(input.system.len(), MAX_SYSTEM_PARTS)?;
    charge.add(4)?;
    validate_system(input.system.as_slice(), charge)?;
    validate_list_max(input.tools.len(), MAX_TOOLS)?;
    charge.add(4)?;
    validate_tools(input.tools.as_slice(), charge)
}

fn charge_controls(
    input: &PrepareInput,
    selected: &CatalogEntry,
    has_calls: bool,
    charge: &mut LogicalCharge,
) -> (result: ValidationResult)
    ensures
        final(charge).after(result) == controls_tally(
            old(charge).tally(),
            *input,
            facts_of(*selected),
            has_calls,
        ),
{
    reveal(controls_tally);
    validate_tool_choice(input, selected, charge)?;
    validate_reasoning(&input.reasoning, selected, charge)?;
    charge.add(4)?;
    charge.add(4)?;
    if let Some(maximum) = input.max_output_tokens {
        charge.add(8)?;
        let within = match selected.max_output_tokens {
            Some(limit) => maximum <= limit,
            None => false,
        };
        if maximum == 0 || !within {
            return Err(ValidationError::InvalidArgument);
        }
    }
    let uses_tools = input.tools.len() != 0 || has_calls;
    if uses_tools && !is_supported(&selected.tool_capability.tools) {
        return Err(ValidationError::InvalidArgument);
    }
    Ok(())
}

proof fn lemma_messages_stop(
    tally: Tally,
    messages: Seq<Message>,
    definitions: Seq<Seq<char>>,
    entry: ModelFacts,
)
    requires
        tally.verdict is Err,
    ensures
        messages_state(tally, messages, definitions, entry).tally == tally,
{
    reveal(messages_state);
}

proof fn lemma_controls_stop(tally: Tally, input: PrepareInput, entry: ModelFacts, has_calls: bool)
    requires
        tally.verdict is Err,
    ensures
        controls_tally(tally, input, entry, has_calls) == tally,
{
    reveal(controls_tally);
}

/// Checks a whole request against the catalog entry that it is bound to.
pub fn validate_prepare_input<'a>(
    input: &'a PrepareInput,
    selected: SelectedCatalogView<'_>,
) -> (result: ValidationResult<ValidatedPrepare<'a>>)
    ensures
        match result {
            Ok(validated) => prepare_verdict(*input, selected) == ValidationResult::<
                (u64, Seq<MatchedText>),
            >::Ok((validated.logical_charge, matched_texts(validated.matched_tool_results@))),
            Err(error) => prepare_verdict(*input, selected) == ValidationResult::<
                (u64, Seq<MatchedText>),
            >::Err(error),
        },
{
    validate_selected_binding(input, selected)?;
    validate_entry(selected.entry)?;

    proof {
        let tally = preamble_tally(*input).check(
            list_verdict(input.messages@.len() as int, MAX_MESSAGES as int),
        ).charge(4);
        let state = prepare_messages(*input, facts_of(*selected.entry));
        if tally.verdict is Err {
            lemma_messages_stop(
                tally,
                input.messages@,
                tool_names(input.tools@),
                facts_of(*selected.entry),
            );
        }
        if state.tally.verdict is Err {
            lemma_controls_stop(state.tally, *input, facts_of(*selected.entry), state.has_calls);
        }
    }
    let mut charge = LogicalCharge::new(MAX_LOGICAL_CHARGE);
    let definitions = charge_preamble(input, &mut charge)?;
    validate_list_max(input.messages.len(), MAX_MESSAGES)?;
    charge.add(4)?;
    let facts = validate_messages(
        input.messages.as_slice(),
        &definitions,
        selected.entry,
        &mut charge,
    )?;
    charge_controls(input, selected.entry, facts.has_calls, &mut charge)?;
    Ok(
        ValidatedPrepare {
            logical_charge: charge.value(),
            matched_tool_results: facts.matched_tool_results,
        },
    )
}

// ---------------------------------------------------------------------------
// Headers
// ---------------------------------------------------------------------------

/// A byte of a header name: a lowercase letter, a digit or one of the token
/// marks.
pub open spec fn is_header_name_byte(byte: u8) -> bool {
    ||| 97 <= byte <= 122
    ||| 48 <= byte <= 57
    ||| byte == 33
    ||| 35 <= byte <= 39
    ||| byte == 42
    ||| byte == 43
    ||| byte == 45
    ||| byte == 46
    ||| 94 <= byte <= 96
    ||| byte == 124
    ||| byte == 126
}

/// The verdict on a header name.
pub open spec fn header_name_verdict(name: Seq<char>) -> ValidationResult {
    let bytes = encode_utf8(name);
    if bytes.len() > MAX_HEADER_NAME_BYTES {
        Err(ValidationError::Limit)
    } else {
        verdict(
            bytes.len() > 0 && forall|i: int|
                0 <= i < bytes.len() ==> is_header_name_byte(#[trigger] bytes[i]),
            ValidationError::InvalidArgument,
        )
    }
}

/// Checks a header name.
#[verifier::loop_isolation(false)]
pub fn validate_header_name(name: &str) -> (result: ValidationResult)
    ensures
        result == header_name_verdict(name@),
{
    let bytes = name.as_bytes();
    if bytes.len() > MAX_HEADER_NAME_BYTES {
        return Err(ValidationError::Limit);
    }
    if bytes.len() == 0 {
        return Err(ValidationError::InvalidArgument);
    }
    let mut i: usize = 0;
    while i < bytes.len()
        invariant
            i <= bytes@.len(),
            forall|j: int| 0 <= j < i ==> is_header_name_byte(#[trigger] bytes@[j]),
        decreases bytes.len() - i,
    {
        let byte: u8 = bytes[i];
        let valid = (byte >= 97 && byte <= 122) || (byte >= 48 && byte <= 57) || byte == 33 || (byte
            >= 35 && byte <= 39) || byte == 42 || byte == 43 || byte == 45 || byte == 46 || (byte
            >= 94 && byte <= 96) || byte == 124 || byte == 126;
        if !valid {
            assert(!is_header_name_byte(bytes@[i as int]));
            return Err(ValidationError::InvalidArgument);
        }
        i += 1;
    }
    Ok(())
}

/// The verdict on a header value: printable ASCII and tabs, without blanks at
/// its ends.
pub open spec fn header_value_verdict(value: Seq<char>) -> ValidationResult {
    let bytes = encode_utf8(value);
    if bytes.len() > MAX_HEADER_VALUE_BYTES {
        Err(ValidationError::Limit)
    } else {
        verdict(
            {
                &&& bytes.len() > 0 ==> bytes.first() != 32 && bytes.first() != 9
                &&& bytes.len() > 0 ==> bytes.last() != 32 && bytes.last() != 9
                &&& forall|i: int|
                    0 <= i < bytes.len() ==> #[trigger] bytes[i] == 9 || 32 <= bytes[i] <= 126
            },
            ValidationError::InvalidArgument,
        )
    }
}

/// Checks a header value.
#[verifier::loop_isolation(false)]
pub fn validate_header_value(value: &str) -> (result: ValidationResult)
    ensures
        result == header_value_verdict(value@),
{
    let bytes = value.as_bytes();
    if bytes.len() > MAX_HEADER_VALUE_BYTES {
        return Err(ValidationError::Limit);
    }
    if bytes.len() > 0 {
        let first: u8 = bytes[0];
        let last: u8 = bytes[bytes.len() - 1];
        if first == 32 || first == 9 || last == 32 || last == 9 {
            return Err(ValidationError::InvalidArgument);
        }
    }
    let mut i: usize = 0;
    while i < bytes.len()
        invariant
            i <= bytes@.len(),
            forall|j: int| 0 <= j < i ==> #[trigger] bytes@[j] == 9 || 32 <= bytes@[j] <= 126,
        decreases bytes.len() - i,
    {
        let byte: u8 = bytes[i];
        if byte != 9 && (byte < 32 || byte > 126) {
            assert(!(bytes@[i as int] == 9 || 32 <= bytes@[i as int] <= 126));
            return Err(ValidationError::InvalidArgument);
        }
        i += 1;
    }
    Ok(())
}

/// The headers that a provider may never set: credentials, connection
/// management and request identity.
pub open spec fn is_permanently_denied(name: Seq<char>) -> bool {
    ||| name == "authorization"@
    ||| name == "proxy-authorization"@
    ||| name == "cookie"@
    ||| name == "set-cookie"@
    ||| name == "x-api-key"@
    ||| name == "api-key"@
    ||| name == "cf-aig-authorization"@
    ||| name == "host"@
    ||| name == "content-length"@
    ||| name == "connection"@
    ||| name == "proxy-connection"@
    ||| name == "keep-alive"@
    ||| name == "te"@
    ||| name == "trailer"@
    ||| name == "transfer-encoding"@
    ||| name == "upgrade"@
    ||| name == "expect"@
    ||| name == "user-agent"@
    ||| name == "origin"@
    ||| name == "referer"@
    ||| name == "forwarded"@
    ||| name == "via"@
    ||| name == "accept-encoding"@
    ||| name == "content-encoding"@
    ||| name == "x-http-method-override"@
    ||| name == "x-method-override"@
    ||| name == "x-original-url"@
    ||| name == "x-rewrite-url"@
}

fn permanently_denied(name: &str) -> (denied: bool)
    ensures
        denied == is_permanently_denied(name@),
{
    same_text(name, "authorization") || same_text(name, "proxy-authorization")
        || same_text(name, "cookie") || same_text(name, "set-cookie")
        || same_text(name, "x-api-key") || same_text(name, "api-key")
        || same_text(name, "cf-aig-authorization") || same_text(name, "host")
        || same_text(name, "content-length") || same_text(name, "connection")
        || same_text(name, "proxy-connection") || same_text(name, "keep-alive")
        || same_text(name, "te") || same_text(name, "trailer")
        || same_text(name, "transfer-encoding") || same_text(name, "upgrade")
        || same_text(name, "expect") || same_text(name, "user-agent") || same_text(name, "origin")
        || same_text(name, "referer") || same_text(name, "forwarded") || same_text(name, "via")
        || same_text(name, "accept-encoding") || same_text(name, "content-encoding")
        || same_text(name, "x-http-method-override") || same_text(name, "x-method-override")
        || same_text(name, "x-original-url") || same_text(name, "x-rewrite-url")
}

/// A header that a provider may not set: a permanently denied one, a forwarding
/// or signing header, or one that is reserved.
pub open spec fn is_denied_header(name: Seq<char>, reserved: Seq<Seq<char>>) -> bool {
    ||| is_permanently_denied(name)
    ||| encode_utf8("x-forwarded-"@).is_prefix_of(encode_utf8(name))
    ||| encode_utf8("x-amz-"@).is_prefix_of(encode_utf8(name))
    ||| reserved.contains(name)
}

/// Whether a provider may not set a header.
pub fn denied_header(name: &str, reserved_names: &[&str]) -> (denied: bool)
    ensures
        denied == is_denied_header(name@, texts_of(reserved_names@)),
{
    permanently_denied(name) || starts_with(name.as_bytes(), "x-forwarded-".as_bytes())
        || starts_with(name.as_bytes(), "x-amz-".as_bytes()) || holds_text(reserved_names, name)
}

/// Headers order by name, then by value.
pub open spec fn header_before(left: OrdinaryHeader, right: OrdinaryHeader) -> bool {
    ||| bytes_before(encode_utf8(left.name@), encode_utf8(right.name@))
    ||| left.name@ == right.name@ && bytes_before(
        encode_utf8(left.value@),
        encode_utf8(right.value@),
    )
}

/// Some of the first `n` headers has the given name.
pub open spec fn is_named_before(headers: Seq<OrdinaryHeader>, n: int, name: Seq<char>) -> bool {
    exists|i: int| 0 <= i < n && (#[trigger] headers[i]).name@ == name
}

/// The verdict on the headers from position `i` on.
pub open spec fn headers_verdict_from(
    headers: Seq<OrdinaryHeader>,
    reserved: Seq<Seq<char>>,
    i: int,
) -> ValidationResult
    decreases headers.len() - i,
{
    if i >= headers.len() {
        Ok(())
    } else {
        also(
            header_name_verdict(headers[i].name@),
            also(
                header_value_verdict(headers[i].value@),
                also(
                    verdict(
                        {
                            &&& !is_denied_header(headers[i].name@, reserved)
                            &&& !is_named_before(headers, i, headers[i].name@)
                            &&& i > 0 ==> header_before(headers[i - 1], headers[i])
                        },
                        ValidationError::InvalidArgument,
                    ),
                    headers_verdict_from(headers, reserved, i + 1),
                ),
            ),
        )
    }
}

/// The verdict on the headers of a prepared request.
pub open spec fn headers_verdict(
    headers: Seq<OrdinaryHeader>,
    reserved: Seq<Seq<char>>,
) -> ValidationResult {
    also(
        verdict(headers.len() <= MAX_HEADERS, ValidationError::Limit),
        headers_verdict_from(headers, reserved, 0),
    )
}

fn header_precedes(left: &OrdinaryHeader, right: &OrdinaryHeader) -> (before: bool)
    ensures
        before == header_before(*left, *right),
{
    is_before(left.name.as_str().as_bytes(), right.name.as_str().as_bytes()) || (left.name
        == right.name && is_before(
        left.value.as_str().as_bytes(),
        right.value.as_str().as_bytes(),
    ))
}

fn named_before(headers: &[OrdinaryHeader], n: usize, name: &String) -> (found: bool)
    requires
        n <= headers@.len(),
    ensures
        found == is_named_before(headers@, n as int, name@),
{
    let mut i: usize = 0;
    while i < n
        invariant
            i <= n <= headers@.len(),
            forall|j: int| 0 <= j < i ==> (#[trigger] headers@[j]).name@ != name@,
        decreases n - i,
    {
        if headers[i].name == *name {
            assert(headers@[i as int].name@ == name@);
            return true;
        }
        i += 1;
    }
    false
}

/// Checks the headers of a prepared request: bounded, well formed, allowed,
/// distinct and in strict order.
pub fn validate_ordinary_headers(headers: &[OrdinaryHeader], reserved_names: &[&str]) -> (result:
    ValidationResult)
    ensures
        result == headers_verdict(headers@, texts_of(reserved_names@)),
{
    if headers.len() > MAX_HEADERS {
        return Err(ValidationError::Limit);
    }
    let ghost reserved = texts_of(reserved_names@);
    let mut i: usize = 0;
    while i < headers.len()
        invariant
            i <= headers@.len() <= MAX_HEADERS,
            reserved == texts_of(reserved_names@),
            headers_verdict(headers@, reserved) == headers_verdict_from(
                headers@,
                reserved,
                i as int,
            ),
        decreases headers.len() - i,
    {
        let header = &headers[i];
        validate_header_name(header.name.as_str())?;
        validate_header_value(header.value.as_str())?;
        if denied_header(header.name.as_str(), reserved_names) || named_before(
            headers,
            i,
            &header.name,
        ) {
            return Err(ValidationError::InvalidArgument);
        }
        if i > 0 && !header_precedes(&headers[i - 1], header) {
            return Err(ValidationError::InvalidArgument);
        }
        i += 1;
    }
    Ok(())
}

/// The verdict on a prepared request.
pub open spec fn prepared_request_verdict(
    request: PreparedRequest,
    reserved: Seq<Seq<char>>,
) -> ValidationResult {
    match wire_verdict(request.body@, true) {
        Err(error) => Err(error),
        Ok(_) => headers_verdict(request.ordinary_headers@, reserved),
    }
}

/// Checks the body and the headers of a prepared request.
pub fn validate_prepared_request(request: &PreparedRequest, reserved_names: &[&str]) -> (result:
    ValidationResult)
    ensures
        result == prepared_request_verdict(*request, texts_of(reserved_names@)),
{
    validate_wire_json(&request.body, true)?;
    validate_ordinary_headers(request.ordinary_headers.as_slice(), reserved_names)
}

} // verus!
