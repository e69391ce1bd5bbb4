//! Which requests are accepted, and what they are charged.
//!
//! Soundness, size and cost are stated part by part over the request alone.

use vstd::prelude::*;

use crate::provider_api::{
    AssistantBlock, CapabilitySupport, ImageView, InputModality, JsonDocument, JsonNode, Message,
    ModelSelection, PrepareInput, Reasoning, ReasoningBlock, ToolCallBlock, ToolChoice,
    ToolDefinition, ToolResultBlock, ToolResultMessage, UserBlock, UserMessage,
};
use crate::provider_validation::catalog::entries_verdict;
use crate::provider_validation::catalog_laws::{
    are_small_entries, are_sound_entries, is_small_entry, is_sound_entry, lemma_catalog_entries,
    selected_id,
};
use crate::provider_validation::charge::Tally;
use crate::provider_validation::charge_laws::{
    has_room, is_step, judges, lemma_charge_step, lemma_steps, lemma_string_step, text_size,
};
use crate::provider_validation::prepare::{
    assistant_block_state, assistant_blocks_state, binding_verdict, blocks_verdict, call_state,
    controls_tally, facts_of, identity_tally, image_tally, initial_message_state, is_matched,
    list_verdict, message_state, messages_state, messages_state_from, preamble_tally,
    prepare_messages, prepare_verdict, proof_total, reasoning_control_tally, reasoning_tally,
    result_blocks_tally, selection_tally, system_tally, text_tally, tool_choice_tally, tool_names,
    tools_tally, user_blocks_tally, MatchedText, MessageState, ModelFacts, SelectedCatalogView,
    ToolResultStatus,
};
use crate::provider_validation::prepare_laws::{
    answered_calls, answers_stand_at, block_calls, calls_from, is_answer, is_answered_at_once,
    is_coherent, lemma_accepted_calls_are_answered, lemma_blocks_collect_calls,
    lemma_message_collects, lemma_message_keeps_coherence, message_calls,
};
use crate::provider_validation::scalar::{label_verdict, safe_verdict, tracking_verdict};
use crate::provider_validation::scalar_laws::{
    is_call_id, is_line, is_marked_hex, is_ordinary_text, lemma_call_id, lemma_digest, lemma_label,
    lemma_safe_text, lemma_stamp,
};
use crate::provider_validation::wire_json::wire_verdict;
use crate::provider_validation::wire_tree::{
    fields_charge, is_bounded_tree, lemma_accepted_documents_are_trees, nodes_charge,
};
use crate::provider_validation::{also, ValidationError};

verus! {

// ---------------------------------------------------------------------------
// Parts of messages
// ---------------------------------------------------------------------------

/// Whether a capability is there.
pub open spec fn can(value: CapabilitySupport) -> bool {
    value == CapabilitySupport::Supported
}

/// The cost of a text.
pub open spec fn text_cost(text: Seq<char>) -> int {
    4 + text_size(text)
}

/// Whether a text fits into a block.
pub open spec fn is_short(text: Seq<char>) -> bool {
    text_size(text) <= 65_536
}

/// Whether a document is not refused for its form.
pub open spec fn is_sound_document(document: JsonDocument) -> bool {
    wire_verdict(document, true) is Ok || wire_verdict(document, true)->Err_0
        != ValidationError::InvalidArgument
}

/// Whether a document is not refused for its size.
pub open spec fn is_small_document(document: JsonDocument) -> bool {
    wire_verdict(document, true) is Ok || wire_verdict(document, true)->Err_0
        != ValidationError::Limit
}

/// The cost of a document: that of each of its nodes, and eight more.
pub open spec fn document_cost(document: JsonDocument) -> int {
    if wire_verdict(document, true) is Ok {
        8 + nodes_charge(document.nodes, document.nodes.len() as int)
    } else {
        0
    }
}

/// Whether an image is well formed and the model takes images.
pub open spec fn is_sound_image(image: ImageView, entry: ModelFacts) -> bool {
    &&& is_marked_hex(image.stamp@, "img1-"@, 32)
    &&& image.bytes@.len() > 0
    &&& 1 <= image.metadata.width <= 16_384
    &&& 1 <= image.metadata.height <= 16_384
    &&& 1 <= image.metadata.frames <= 64
    &&& entry.input_modalities.contains(InputModality::Image)
}

/// Whether an image is at most eight mebibytes.
pub open spec fn is_small_image(image: ImageView) -> bool {
    image.bytes@.len() <= 8_388_608
}

/// The cost of an image without the tag of its block: its stamp, its bytes, and
/// twenty more.
pub open spec fn image_cost(image: ImageView) -> int {
    text_cost(image.stamp@) + image.bytes@.len() + 20
}

/// Whether a block of a user message is well formed.
pub open spec fn is_sound_user_block(block: UserBlock, entry: ModelFacts) -> bool {
    match block {
        UserBlock::Text(text) => text.text@.len() > 0 && is_ordinary_text(text.text@),
        UserBlock::Image(image) => is_sound_image(image, entry),
    }
}

/// Whether a block of a user message is within its bounds.
pub open spec fn is_small_user_block(block: UserBlock) -> bool {
    match block {
        UserBlock::Text(text) => is_short(text.text@),
        UserBlock::Image(image) => is_small_image(image),
    }
}

/// The cost of a block of a user message.
pub open spec fn user_block_cost(block: UserBlock) -> int {
    4 + match block {
        UserBlock::Text(text) => text_cost(text.text@),
        UserBlock::Image(image) => image_cost(image),
    }
}

/// Whether a block of a tool result is well formed.
pub open spec fn is_sound_result_block(block: ToolResultBlock, entry: ModelFacts) -> bool {
    match block {
        ToolResultBlock::Text(text) => text.text@.len() > 0 && is_ordinary_text(text.text@),
        ToolResultBlock::Image(image) => is_sound_image(image, entry),
    }
}

/// Whether a block of a tool result is within its bounds.
pub open spec fn is_small_result_block(block: ToolResultBlock) -> bool {
    match block {
        ToolResultBlock::Text(text) => is_short(text.text@),
        ToolResultBlock::Image(image) => is_small_image(image),
    }
}

/// The cost of a block of a tool result.
pub open spec fn result_block_cost(block: ToolResultBlock) -> int {
    4 + match block {
        ToolResultBlock::Text(text) => text_cost(text.text@),
        ToolResultBlock::Image(image) => image_cost(image),
    }
}

/// Whether a reasoning block is well formed: the model reasons, and a proof is of
/// the same kind, for a model that gives proofs.
pub open spec fn is_sound_reasoning(block: ReasoningBlock, entry: ModelFacts) -> bool {
    &&& can(entry.reasoning_capability.reasoning)
    &&& block.text@.len() > 0
    &&& is_ordinary_text(block.text@)
    &&& block.proof matches Some(proof) ==> {
        &&& block.kind == proof.reasoning_kind
        &&& can(entry.reasoning_capability.proof)
        &&& is_marked_hex(proof.stamp@, "prf1-"@, 32)
        &&& proof.source_request_id.canonical
        &&& proof.source_turn_id.canonical
        &&& proof.source_content_index < 64
        &&& proof.proof@.len() > 0
    }
}

/// Whether a reasoning block is within its bounds.
pub open spec fn is_small_reasoning(block: ReasoningBlock) -> bool {
    &&& is_short(block.text@)
    &&& block.proof matches Some(proof) ==> proof.proof@.len() <= 65_536
}

/// The number of bytes of the proof of a block.
pub open spec fn proof_size(block: AssistantBlock) -> int {
    match block {
        AssistantBlock::Reasoning(reasoning) => match reasoning.proof {
            Some(proof) => proof.proof@.len() as int,
            None => 0,
        },
        _ => 0,
    }
}

/// The cost of a reasoning block without the tag of its block.
pub open spec fn reasoning_cost(block: ReasoningBlock) -> int {
    text_cost(block.text@) + 8 + match block.proof {
        None => 0,
        Some(proof) => text_cost(proof.stamp@) + text_cost(proof.source_request_id.text@)
            + text_cost(proof.source_turn_id.text@) + proof.proof@.len() + 9,
    }
}

/// Whether a call is well formed, apart from its identifier being new: its tool
/// is one of the request, and its arguments are a JSON object.
pub open spec fn is_sound_call(call: ToolCallBlock, definitions: Seq<Seq<char>>) -> bool {
    &&& is_call_id(call.call_id@)
    &&& is_line(call.name@)
    &&& definitions.contains(call.name@)
    &&& is_sound_document(call.arguments@)
}

/// Whether a block of an assistant message is well formed, apart from the
/// identifier of a call being new.
pub open spec fn is_sound_assistant_block(
    block: AssistantBlock,
    definitions: Seq<Seq<char>>,
    entry: ModelFacts,
) -> bool {
    match block {
        AssistantBlock::Text(text) => text.text@.len() > 0 && is_ordinary_text(text.text@),
        AssistantBlock::Reasoning(reasoning) => is_sound_reasoning(reasoning, entry),
        AssistantBlock::ToolCall(call) => is_sound_call(call, definitions),
    }
}

/// Whether a block of an assistant message is within its bounds.
pub open spec fn is_small_assistant_block(block: AssistantBlock) -> bool {
    match block {
        AssistantBlock::Text(text) => is_short(text.text@),
        AssistantBlock::Reasoning(reasoning) => is_small_reasoning(reasoning),
        AssistantBlock::ToolCall(call) => text_size(call.name@) <= 128 && is_small_document(
            call.arguments@,
        ),
    }
}

/// The cost of a block of an assistant message.
pub open spec fn assistant_block_cost(block: AssistantBlock) -> int {
    4 + match block {
        AssistantBlock::Text(text) => text_cost(text.text@),
        AssistantBlock::Reasoning(reasoning) => reasoning_cost(reasoning),
        AssistantBlock::ToolCall(call) => text_cost(call.call_id@) + text_cost(call.name@)
            + document_cost(call.arguments@),
    }
}

// ---------------------------------------------------------------------------
// Steps over parts
// ---------------------------------------------------------------------------

proof fn lemma_nodes_cost(document: JsonDocument, n: int)
    ensures
        0 <= nodes_charge(document.nodes, n),
    decreases n,
{
    if n > 0 {
        lemma_nodes_cost(document, n - 1);
        if let JsonNode::Object(fields) = document.nodes[n - 1] {
            lemma_fields_cost(fields, fields.len() as int);
        }
    }
}

proof fn lemma_fields_cost(fields: Seq<(Seq<char>, u32)>, k: int)
    ensures
        0 <= fields_charge(fields, k),
    decreases k,
{
    if k > 0 {
        lemma_fields_cost(fields, k - 1);
    }
}

/// A document is well formed and within its bounds exactly when it is a tree of
/// JSON within them with an object at its root. It is then charged what its nodes
/// cost, and eight more.
pub proof fn lemma_document(document: JsonDocument)
    ensures
        is_sound_document(document) && is_small_document(document) <==> is_bounded_tree(
            document,
        ) && document.nodes.last() is Object,
        0 <= document_cost(document),
        wire_verdict(document, true) matches Ok(stats) ==> stats.logical_charge == document_cost(
            document,
        ),
{
    lemma_accepted_documents_are_trees(document, true);
    lemma_nodes_cost(document, document.nodes.len() as int);
}

proof fn lemma_text_step(tally: Tally, text: Seq<char>)
    ensures
        is_step(
            tally,
            text_tally(tally, text),
            text.len() > 0 && is_ordinary_text(text),
            is_short(text),
            text_cost(text),
        ),
{
    lemma_safe_text(text, 65_536, true);
    lemma_string_step(
        tally.check(safe_verdict(text, 65_536, true)),
        text,
    );
}

proof fn lemma_image_step(tally: Tally, image: ImageView, entry: ModelFacts)
    ensures
        is_step(
            tally,
            image_tally(tally, image, entry),
            is_sound_image(image, entry),
            is_small_image(image),
            image_cost(image),
        ),
{
    lemma_stamp(image.stamp@, "img1-"@);
}

proof fn lemma_reasoning_step(
    tally: Tally,
    block: ReasoningBlock,
    entry: ModelFacts,
    proof_bytes: int,
)
    requires
        0 <= proof_bytes <= 262_144,
    ensures
        is_step(
            tally,
            reasoning_tally(tally, block, entry, proof_bytes),
            is_sound_reasoning(block, entry),
            is_small_reasoning(block) && proof_bytes + proof_size(AssistantBlock::Reasoning(block))
                <= 262_144,
            reasoning_cost(block),
        ),
        reasoning_tally(tally, block, entry, proof_bytes).verdict is Ok ==> proof_total(
            tally,
            block,
            entry,
            proof_bytes,
        ) == proof_bytes + proof_size(AssistantBlock::Reasoning(block)),
{
    lemma_safe_text(block.text@, 65_536, true);
    if let Some(proof) = block.proof {
        lemma_stamp(proof.stamp@, "prf1-"@);
    }
}

proof fn lemma_call_step(state: MessageState, call: ToolCallBlock, definitions: Seq<Seq<char>>)
    ensures
        is_step(
            state.tally,
            call_state(state, call, definitions).tally,
            is_sound_call(call, definitions) && !state.call_ids.contains(call.call_id@),
            text_size(call.name@) <= 128 && is_small_document(call.arguments@),
            text_cost(call.call_id@) + text_cost(call.name@) + document_cost(call.arguments@),
        ),
{
    lemma_call_id(call.call_id@);
    lemma_label(call.name@, 128);
    lemma_document(call.arguments@);
}

/// A part that has failed fails any whole that asks for no less.
proof fn lemma_stop(
    before: Tally,
    after: Tally,
    sound: bool,
    small: bool,
    cost: int,
    whole_sound: bool,
    whole_small: bool,
    whole_cost: int,
)
    requires
        is_step(before, after, sound, small, cost),
        after.verdict is Err,
        whole_sound ==> sound,
        whole_small ==> small,
        cost <= whole_cost,
    ensures
        is_step(before, after, whole_sound, whole_small, whole_cost),
{
}

// ---------------------------------------------------------------------------
// Blocks
// ---------------------------------------------------------------------------

/// The cost of the blocks of a user message from block `i` on.
pub open spec fn user_blocks_cost(blocks: Seq<UserBlock>, i: int) -> int
    decreases blocks.len() - i,
{
    if i >= blocks.len() {
        0
    } else {
        user_block_cost(blocks[i]) + user_blocks_cost(blocks, i + 1)
    }
}

/// The cost of the blocks of a tool result from block `i` on.
pub open spec fn result_blocks_cost(blocks: Seq<ToolResultBlock>, i: int) -> int
    decreases blocks.len() - i,
{
    if i >= blocks.len() {
        0
    } else {
        result_block_cost(blocks[i]) + result_blocks_cost(blocks, i + 1)
    }
}

/// The cost of the blocks of an assistant message from block `i` on.
pub open spec fn assistant_blocks_cost(blocks: Seq<AssistantBlock>, i: int) -> int
    decreases blocks.len() - i,
{
    if i >= blocks.len() {
        0
    } else {
        assistant_block_cost(blocks[i]) + assistant_blocks_cost(blocks, i + 1)
    }
}

/// The bytes of the proofs of an assistant message from block `i` on.
pub open spec fn proofs_size(blocks: Seq<AssistantBlock>, i: int) -> int
    decreases blocks.len() - i,
{
    if i >= blocks.len() {
        0
    } else {
        proof_size(blocks[i]) + proofs_size(blocks, i + 1)
    }
}

/// The identifiers of calls.
pub open spec fn ids_of(calls: Seq<(Seq<char>, Seq<char>)>) -> Seq<Seq<char>> {
    calls.map_values(|call: (Seq<char>, Seq<char>)| call.0)
}

proof fn lemma_user_blocks(tally: Tally, blocks: Seq<UserBlock>, i: int, entry: ModelFacts)
    requires
        0 <= i <= blocks.len(),
    ensures
        is_step(
            tally,
            user_blocks_tally(tally, blocks, i, entry),
            forall|k: int| i <= k < blocks.len() ==> is_sound_user_block(#[trigger] blocks[k], entry),
            forall|k: int| i <= k < blocks.len() ==> is_small_user_block(#[trigger] blocks[k]),
            user_blocks_cost(blocks, i),
        ),
        0 <= user_blocks_cost(blocks, i),
    decreases blocks.len() - i,
{
    if i < blocks.len() {
        let tagged = tally.charge(4);
        let next = match blocks[i] {
            UserBlock::Text(text) => text_tally(tagged, text.text@),
            UserBlock::Image(image) => image_tally(tagged, image, entry),
        };
        lemma_charge_step(tally, 4);
        match blocks[i] {
            UserBlock::Text(text) => {
                lemma_text_step(tagged, text.text@);
            },
            UserBlock::Image(image) => {
                lemma_image_step(tagged, image, entry);
            },
        }
        let cost = user_block_cost(blocks[i]);
        let sound = is_sound_user_block(blocks[i], entry);
        let small = is_small_user_block(blocks[i]);
        lemma_steps(tally, tagged, next, true, true, 4, sound, small, cost - 4);
        lemma_user_blocks(next, blocks, i + 1, entry);
        lemma_steps(
            tally,
            next,
            user_blocks_tally(next, blocks, i + 1, entry),
            sound,
            small,
            cost,
            forall|k: int|
                i + 1 <= k < blocks.len() ==> is_sound_user_block(#[trigger] blocks[k], entry),
            forall|k: int| i + 1 <= k < blocks.len() ==> is_small_user_block(#[trigger] blocks[k]),
            user_blocks_cost(blocks, i + 1),
        );
        assert((forall|k: int|
            i <= k < blocks.len() ==> is_sound_user_block(#[trigger] blocks[k], entry)) == (sound
            && forall|k: int|
            i + 1 <= k < blocks.len() ==> is_sound_user_block(#[trigger] blocks[k], entry)));
        assert((forall|k: int| i <= k < blocks.len() ==> is_small_user_block(#[trigger] blocks[k]))
            == (small && forall|k: int|
            i + 1 <= k < blocks.len() ==> is_small_user_block(#[trigger] blocks[k])));
    }
}

proof fn lemma_result_blocks(tally: Tally, blocks: Seq<ToolResultBlock>, i: int, entry: ModelFacts)
    requires
        0 <= i <= blocks.len(),
    ensures
        is_step(
            tally,
            result_blocks_tally(tally, blocks, i, entry),
            forall|k: int|
                i <= k < blocks.len() ==> is_sound_result_block(#[trigger] blocks[k], entry),
            forall|k: int| i <= k < blocks.len() ==> is_small_result_block(#[trigger] blocks[k]),
            result_blocks_cost(blocks, i),
        ),
        0 <= result_blocks_cost(blocks, i),
    decreases blocks.len() - i,
{
    if i < blocks.len() {
        let tagged = tally.charge(4);
        let next = match blocks[i] {
            ToolResultBlock::Text(text) => text_tally(tagged, text.text@),
            ToolResultBlock::Image(image) => image_tally(tagged, image, entry),
        };
        lemma_charge_step(tally, 4);
        match blocks[i] {
            ToolResultBlock::Text(text) => {
                lemma_text_step(tagged, text.text@);
            },
            ToolResultBlock::Image(image) => {
                lemma_image_step(tagged, image, entry);
            },
        }
        let cost = result_block_cost(blocks[i]);
        let sound = is_sound_result_block(blocks[i], entry);
        let small = is_small_result_block(blocks[i]);
        lemma_steps(tally, tagged, next, true, true, 4, sound, small, cost - 4);
        lemma_result_blocks(next, blocks, i + 1, entry);
        lemma_steps(
            tally,
            next,
            result_blocks_tally(next, blocks, i + 1, entry),
            sound,
            small,
            cost,
            forall|k: int|
                i + 1 <= k < blocks.len() ==> is_sound_result_block(#[trigger] blocks[k], entry),
            forall|k: int| i + 1 <= k < blocks.len() ==> is_small_result_block(#[trigger] blocks[k]),
            result_blocks_cost(blocks, i + 1),
        );
        assert((forall|k: int|
            i <= k < blocks.len() ==> is_sound_result_block(#[trigger] blocks[k], entry)) == (sound
            && forall|k: int|
            i + 1 <= k < blocks.len() ==> is_sound_result_block(#[trigger] blocks[k], entry)));
        assert((forall|k: int|
            i <= k < blocks.len() ==> is_small_result_block(#[trigger] blocks[k])) == (small
            && forall|k: int|
            i + 1 <= k < blocks.len() ==> is_small_result_block(#[trigger] blocks[k])));
    }
}

/// Whether the blocks of an assistant message from block `i` on are well formed,
/// after calls with the given identifiers.
pub open spec fn are_sound_assistant_blocks(
    blocks: Seq<AssistantBlock>,
    i: int,
    ids: Seq<Seq<char>>,
    definitions: Seq<Seq<char>>,
    entry: ModelFacts,
) -> bool {
    &&& forall|k: int|
        i <= k < blocks.len() ==> is_sound_assistant_block(#[trigger] blocks[k], definitions, entry)
    &&& (ids + ids_of(block_calls(blocks, i))).no_duplicates()
}

/// Whether the blocks of an assistant message from block `i` on are within their
/// bounds, after proofs of the given size.
pub open spec fn are_small_assistant_blocks(
    blocks: Seq<AssistantBlock>,
    i: int,
    proof_bytes: int,
) -> bool {
    &&& forall|k: int| i <= k < blocks.len() ==> is_small_assistant_block(#[trigger] blocks[k])
    &&& proof_bytes + proofs_size(blocks, i) <= 262_144
}

proof fn lemma_assistant_costs(blocks: Seq<AssistantBlock>, i: int)
    requires
        0 <= i <= blocks.len(),
    ensures
        0 <= assistant_blocks_cost(blocks, i),
        0 <= proofs_size(blocks, i),
    decreases blocks.len() - i,
{
    if i < blocks.len() {
        lemma_assistant_costs(blocks, i + 1);
        if let AssistantBlock::ToolCall(call) = blocks[i] {
            lemma_document(call.arguments@);
        }
    }
}

proof fn lemma_assistant_block(
    state: MessageState,
    block: AssistantBlock,
    definitions: Seq<Seq<char>>,
    entry: ModelFacts,
)
    requires
        state.tally.verdict is Ok ==> 0 <= state.proof_bytes <= 262_144,
    ensures
        is_step(
            state.tally,
            assistant_block_state(state, block, definitions, entry).tally,
            is_sound_assistant_block(block, definitions, entry) && (
            block matches AssistantBlock::ToolCall(call) ==> !state.call_ids.contains(
                call.call_id@,
            )),
            is_small_assistant_block(block) && state.proof_bytes + proof_size(block) <= 262_144,
            assistant_block_cost(block),
        ),
        ({
            let next = assistant_block_state(state, block, definitions, entry);
            next.tally.verdict is Ok ==> {
                &&& next.proof_bytes == state.proof_bytes + proof_size(block)
                &&& next.call_ids == state.call_ids + (match block {
                    AssistantBlock::ToolCall(call) => seq![call.call_id@],
                    _ => Seq::empty(),
                })
            }
        }),
{
    reveal(assistant_block_state);
    let tagged = MessageState { tally: state.tally.charge(4), ..state };
    let next = assistant_block_state(state, block, definitions, entry);
    lemma_charge_step(state.tally, 4);
    match block {
        AssistantBlock::Text(text) => {
            lemma_text_step(tagged.tally, text.text@);
            assert(next.call_ids =~= state.call_ids + Seq::<Seq<char>>::empty());
        },
        AssistantBlock::Reasoning(reasoning) => {
            if state.tally.verdict is Ok {
                lemma_reasoning_step(tagged.tally, reasoning, entry, state.proof_bytes);
            }
            assert(next.call_ids =~= state.call_ids + Seq::<Seq<char>>::empty());
        },
        AssistantBlock::ToolCall(call) => {
            lemma_call_step(tagged, call, definitions);
            lemma_document(call.arguments@);
            assert(next.call_ids =~= state.call_ids + seq![call.call_id@]);
        },
    }
}

proof fn lemma_assistant_blocks(
    state: MessageState,
    blocks: Seq<AssistantBlock>,
    i: int,
    definitions: Seq<Seq<char>>,
    entry: ModelFacts,
)
    requires
        0 <= i <= blocks.len(),
        state.tally.verdict is Ok ==> 0 <= state.proof_bytes <= 262_144
            && state.call_ids.no_duplicates() && has_room(state.tally, 0),
    ensures
        is_step(
            state.tally,
            assistant_blocks_state(state, blocks, i, definitions, entry).tally,
            are_sound_assistant_blocks(blocks, i, state.call_ids, definitions, entry),
            are_small_assistant_blocks(blocks, i, state.proof_bytes),
            assistant_blocks_cost(blocks, i),
        ),
        ({
            let last = assistant_blocks_state(state, blocks, i, definitions, entry);
            last.tally.verdict is Ok ==> {
                &&& last.proof_bytes == state.proof_bytes + proofs_size(blocks, i)
                &&& last.call_ids == state.call_ids + ids_of(block_calls(blocks, i))
            }
        }),
    decreases blocks.len() - i,
{
    let last = assistant_blocks_state(state, blocks, i, definitions, entry);
    lemma_assistant_costs(blocks, i);
    if i >= blocks.len() {
        assert(state.call_ids + ids_of(block_calls(blocks, i)) =~= state.call_ids);
    } else if state.tally.verdict is Ok {
        let block = blocks[i];
        let next = assistant_block_state(state, block, definitions, entry);
        let own = match block {
            AssistantBlock::ToolCall(call) => seq![call.call_id@],
            _ => Seq::<Seq<char>>::empty(),
        };
        let sound = is_sound_assistant_block(block, definitions, entry) && (
        block matches AssistantBlock::ToolCall(call) ==> !state.call_ids.contains(call.call_id@));
        let small = is_small_assistant_block(block) && state.proof_bytes + proof_size(block)
            <= 262_144;
        let cost = assistant_block_cost(block);
        lemma_assistant_block(state, block, definitions, entry);
        lemma_assistant_costs(blocks, i + 1);
        if let AssistantBlock::ToolCall(call) = block {
            lemma_document(call.arguments@);
        }
        let rest = ids_of(block_calls(blocks, i + 1));
        assert(ids_of(block_calls(blocks, i)) =~= own + rest);
        assert(state.call_ids + ids_of(block_calls(blocks, i)) =~= (state.call_ids + own) + rest);
        let whole_sound = are_sound_assistant_blocks(
            blocks,
            i,
            state.call_ids,
            definitions,
            entry,
        );
        let whole_small = are_small_assistant_blocks(blocks, i, state.proof_bytes);
        if whole_sound {
            let all = (state.call_ids + own) + rest;
            if let AssistantBlock::ToolCall(call) = block {
                if state.call_ids.contains(call.call_id@) {
                    let at = state.call_ids.index_of(call.call_id@);
                    assert(all[at] == all[state.call_ids.len() as int]);
                }
            }
        }
        assert(whole_sound ==> sound);
        if next.tally.verdict is Err {
            reveal_with_fuel(assistant_blocks_state, 2);
            lemma_stop(
                state.tally,
                next.tally,
                sound,
                small,
                cost,
                whole_sound,
                whole_small,
                assistant_blocks_cost(blocks, i),
            );
        } else {
            assert(next.call_ids.no_duplicates()) by {
                if let AssistantBlock::ToolCall(call) = block {
                    assert(!state.call_ids.contains(call.call_id@));
                }
            }
            lemma_assistant_blocks(next, blocks, i + 1, definitions, entry);
            lemma_steps(
                state.tally,
                next.tally,
                last.tally,
                sound,
                small,
                cost,
                are_sound_assistant_blocks(blocks, i + 1, next.call_ids, definitions, entry),
                are_small_assistant_blocks(blocks, i + 1, next.proof_bytes),
                assistant_blocks_cost(blocks, i + 1),
            );
            assert(are_sound_assistant_blocks(
                blocks,
                i + 1,
                next.call_ids,
                definitions,
                entry,
            ) && sound ==> whole_sound);
        }
    }
}

// ---------------------------------------------------------------------------
// Messages
// ---------------------------------------------------------------------------

/// The number of blocks of a message.
pub open spec fn block_number(message: Message) -> int {
    match message {
        Message::User(user) => user.blocks@.len() as int,
        Message::Assistant(assistant) => assistant.blocks@.len() as int,
        Message::ToolResult(result) => result.blocks@.len() as int,
    }
}

/// Whether a message is well formed by itself.
pub open spec fn is_sound_message(
    message: Message,
    definitions: Seq<Seq<char>>,
    entry: ModelFacts,
) -> bool {
    &&& block_number(message) > 0
    &&& match message {
        Message::User(user) => forall|k: int|
            0 <= k < user.blocks@.len() ==> is_sound_user_block(#[trigger] user.blocks@[k], entry),
        Message::Assistant(assistant) => forall|k: int|
            0 <= k < assistant.blocks@.len() ==> is_sound_assistant_block(
                #[trigger] assistant.blocks@[k],
                definitions,
                entry,
            ),
        Message::ToolResult(result) => is_call_id(result.call_id@) && forall|k: int|
            0 <= k < result.blocks@.len() ==> is_sound_result_block(
                #[trigger] result.blocks@[k],
                entry,
            ),
    }
}

/// Whether a message is within its bounds by itself.
pub open spec fn is_small_message(message: Message) -> bool {
    &&& block_number(message) <= 4_096
    &&& match message {
        Message::User(user) => forall|k: int|
            0 <= k < user.blocks@.len() ==> is_small_user_block(#[trigger] user.blocks@[k]),
        Message::Assistant(assistant) => forall|k: int|
            0 <= k < assistant.blocks@.len() ==> is_small_assistant_block(
                #[trigger] assistant.blocks@[k],
            ),
        Message::ToolResult(result) => forall|k: int|
            0 <= k < result.blocks@.len() ==> is_small_result_block(#[trigger] result.blocks@[k]),
    }
}

/// The bytes of the proofs of a message.
pub open spec fn message_proofs(message: Message) -> int {
    match message {
        Message::Assistant(assistant) => proofs_size(assistant.blocks@, 0),
        _ => 0,
    }
}

/// The cost of a message.
pub open spec fn message_cost(message: Message) -> int {
    8 + match message {
        Message::User(user) => user_blocks_cost(user.blocks@, 0),
        Message::Assistant(assistant) => assistant_blocks_cost(assistant.blocks@, 0),
        Message::ToolResult(result) => text_cost(result.call_id@) + result_blocks_cost(
            result.blocks@,
            0,
        ) + 1,
    }
}

/// Whether a message follows the messages before it: a result answers the first
/// waiting call, any other message comes when no call waits, and its calls have
/// new identifiers.
pub open spec fn follows(state: MessageState, message: Message) -> bool {
    match message {
        Message::ToolResult(result) => state.pending.len() > 0 && result.call_id@
            == state.pending[0].0,
        _ => state.pending.len() == 0 && (state.call_ids + ids_of(
            message_calls(message),
        )).no_duplicates(),
    }
}

/// The status that a result reports.
pub open spec fn reported_status(result: ToolResultMessage) -> ToolResultStatus {
    if result.is_error {
        ToolResultStatus::Error
    } else {
        ToolResultStatus::Success
    }
}

/// The statuses that a message reports.
pub open spec fn message_reports(message: Message) -> Seq<ToolResultStatus> {
    match message {
        Message::ToolResult(result) => seq![reported_status(result)],
        _ => Seq::empty(),
    }
}

/// The statuses of answers.
pub open spec fn statuses_of(matched: Seq<MatchedText>) -> Seq<ToolResultStatus> {
    matched.map_values(|answer: MatchedText| answer.status)
}

proof fn lemma_opened_step(tally: Tally, count: int, holds: bool)
    requires
        0 <= count,
    ensures
        is_step(
            tally,
            tally.charge(4).ensure(holds, ValidationError::InvalidArgument).check(
                blocks_verdict(count),
            ).charge(4),
            holds && count > 0,
            count <= 4_096,
            8,
        ),
{
}

/// A message is accepted exactly when it is well formed, follows the messages
/// before it, and is within its bounds and the room of the charge. It adds its
/// cost, its proofs, its calls and its status to what came before.
pub proof fn lemma_message(
    state: MessageState,
    message: Message,
    definitions: Seq<Seq<char>>,
    entry: ModelFacts,
)
    requires
        state.tally.verdict is Ok,
        has_room(state.tally, 0),
        is_coherent(state, definitions),
    ensures
        is_step(
            state.tally,
            message_state(state, message, definitions, entry).tally,
            is_sound_message(message, definitions, entry) && follows(state, message),
            is_small_message(message) && state.proof_bytes + message_proofs(message) <= 262_144,
            message_cost(message),
        ),
        8 <= message_cost(message),
        0 <= message_proofs(message),
        ({
            let next = message_state(state, message, definitions, entry);
            next.tally.verdict is Ok ==> {
                &&& next.proof_bytes == state.proof_bytes + message_proofs(message)
                &&& next.call_ids == state.call_ids + ids_of(message_calls(message))
                &&& statuses_of(next.matched) == statuses_of(state.matched) + message_reports(
                    message,
                )
            }
        }),
{
    let next = message_state(state, message, definitions, entry);
    match message {
        Message::User(user) => {
            let opened = state.tally.charge(4).ensure(
                state.pending.len() == 0,
                ValidationError::InvalidArgument,
            ).check(blocks_verdict(user.blocks@.len() as int)).charge(4);
            lemma_opened_step(state.tally, user.blocks@.len() as int, state.pending.len() == 0);
            lemma_user_blocks(opened, user.blocks@, 0, entry);
            assert(state.call_ids + ids_of(message_calls(message)) =~= state.call_ids);
            assert(statuses_of(state.matched) + message_reports(message) =~= statuses_of(
                state.matched,
            ));
        },
        Message::Assistant(assistant) => {
            let opened = MessageState {
                tally: state.tally.charge(4).ensure(
                    state.pending.len() == 0,
                    ValidationError::InvalidArgument,
                ).check(blocks_verdict(assistant.blocks@.len() as int)).charge(4),
                ..state
            };
            lemma_opened_step(
                state.tally,
                assistant.blocks@.len() as int,
                state.pending.len() == 0,
            );
            lemma_assistant_costs(assistant.blocks@, 0);
            lemma_assistant_blocks(opened, assistant.blocks@, 0, definitions, entry);
            if next.tally.verdict is Ok {
                lemma_blocks_collect_calls(opened, assistant.blocks@, 0, definitions, entry);
            }
            assert(statuses_of(state.matched) + message_reports(message) =~= statuses_of(
                state.matched,
            ));
        },
        Message::ToolResult(result) => {
            lemma_call_id(result.call_id@);
            let answers = state.pending.len() > 0 && result.call_id@ == state.pending[0].0;
            let answered = state.tally.charge(4).ensure(
                answers,
                ValidationError::InvalidArgument,
            ).check(tracking_verdict(result.call_id@)).check(
                blocks_verdict(result.blocks@.len() as int),
            ).string(result.call_id@).charge(4);
            assert(is_step(
                state.tally,
                answered,
                answers && is_call_id(result.call_id@) && result.blocks@.len() > 0,
                result.blocks@.len() <= 4_096,
                8 + text_cost(result.call_id@),
            ));
            lemma_result_blocks(answered, result.blocks@, 0, entry);
            if answers {
                if is_matched(state.matched, result.call_id@) {
                    let at = choose|at: int|
                        0 <= at < state.matched.len() && (#[trigger] state.matched[at]).call_id
                            == result.call_id@;
                    assert(state.pending[0].0 == state.call_ids[state.matched.len() + 0int]);
                    assert(state.call_ids[at] == state.call_ids[state.matched.len() as int]);
                }
            }
            assert(state.call_ids + ids_of(message_calls(message)) =~= state.call_ids);
            assert(statuses_of(next.matched) =~= statuses_of(state.matched) + message_reports(
                message,
            ));
        },
    }
}

// ---------------------------------------------------------------------------
// Conversations
// ---------------------------------------------------------------------------

/// The cost of the messages from message `i` on.
pub open spec fn messages_cost(messages: Seq<Message>, i: int) -> int
    decreases messages.len() - i,
{
    if i >= messages.len() {
        0
    } else {
        message_cost(messages[i]) + messages_cost(messages, i + 1)
    }
}

/// The bytes of the proofs of the messages from message `i` on.
pub open spec fn messages_proofs(messages: Seq<Message>, i: int) -> int
    decreases messages.len() - i,
{
    if i >= messages.len() {
        0
    } else {
        message_proofs(messages[i]) + messages_proofs(messages, i + 1)
    }
}

/// The statuses that the messages from message `i` on report.
pub open spec fn reports_from(messages: Seq<Message>, i: int) -> Seq<ToolResultStatus>
    decreases messages.len() - i,
{
    if i >= messages.len() {
        Seq::empty()
    } else {
        message_reports(messages[i]) + reports_from(messages, i + 1)
    }
}

/// Whether the messages from message `i` on are well formed, after calls with the
/// given identifiers of which some wait for their results: the waiting calls are
/// answered first, every call is answered at once, and no identifier is used
/// twice.
pub open spec fn is_sound_conversation(
    messages: Seq<Message>,
    i: int,
    pending: Seq<(Seq<char>, Seq<char>)>,
    ids: Seq<Seq<char>>,
    definitions: Seq<Seq<char>>,
    entry: ModelFacts,
) -> bool {
    &&& answers_stand_at(messages, i, pending)
    &&& forall|m: int| i <= m < messages.len() ==> #[trigger] is_answered_at_once(messages, m)
    &&& forall|m: int|
        i <= m < messages.len() ==> is_sound_message(#[trigger] messages[m], definitions, entry)
    &&& (ids + ids_of(calls_from(messages, i))).no_duplicates()
}

/// Whether the messages from message `i` on are within their bounds, after proofs
/// of the given size.
pub open spec fn is_small_conversation(messages: Seq<Message>, i: int, proof_bytes: int) -> bool {
    &&& forall|m: int| i <= m < messages.len() ==> is_small_message(#[trigger] messages[m])
    &&& proof_bytes + messages_proofs(messages, i) <= 262_144
}

proof fn lemma_message_costs(messages: Seq<Message>, i: int)
    requires
        0 <= i <= messages.len(),
    ensures
        0 <= messages_cost(messages, i),
        0 <= messages_proofs(messages, i),
    decreases messages.len() - i,
{
    if i < messages.len() {
        lemma_message_costs(messages, i + 1);
        lemma_message_cost(messages[i]);
    }
}

proof fn lemma_message_cost(message: Message)
    ensures
        8 <= message_cost(message),
        0 <= message_proofs(message),
{
    match message {
        Message::User(user) => {
            lemma_user_costs(user.blocks@, 0);
        },
        Message::Assistant(assistant) => {
            lemma_assistant_costs(assistant.blocks@, 0);
        },
        Message::ToolResult(result) => {
            lemma_result_costs(result.blocks@, 0);
        },
    }
}

proof fn lemma_user_costs(blocks: Seq<UserBlock>, i: int)
    ensures
        0 <= user_blocks_cost(blocks, i),
    decreases blocks.len() - i,
{
    if i < blocks.len() {
        lemma_user_costs(blocks, i + 1);
    }
}

proof fn lemma_result_costs(blocks: Seq<ToolResultBlock>, i: int)
    ensures
        0 <= result_blocks_cost(blocks, i),
    decreases blocks.len() - i,
{
    if i < blocks.len() {
        lemma_result_costs(blocks, i + 1);
    }
}

/// What a conversation asks of its first message and of the rest.
proof fn lemma_conversation_splits(
    state: MessageState,
    messages: Seq<Message>,
    i: int,
    definitions: Seq<Seq<char>>,
    entry: ModelFacts,
)
    requires
        0 <= i < messages.len(),
        state.call_ids.no_duplicates(),
    ensures
        ({
            let message = messages[i];
            let pending = if message is ToolResult {
                state.pending.subrange(1, state.pending.len() as int)
            } else {
                message_calls(message)
            };
            let here = is_sound_message(message, definitions, entry) && follows(state, message);
            let there = is_sound_conversation(
                messages,
                i + 1,
                pending,
                state.call_ids + ids_of(message_calls(message)),
                definitions,
                entry,
            );
            is_sound_conversation(messages, i, state.pending, state.call_ids, definitions, entry)
                == (here && there)
        }),
{
    let message = messages[i];
    let whole = is_sound_conversation(
        messages,
        i,
        state.pending,
        state.call_ids,
        definitions,
        entry,
    );
    let own = ids_of(message_calls(message));
    let rest = ids_of(calls_from(messages, i + 1));
    let all = (state.call_ids + own) + rest;
    assert(ids_of(calls_from(messages, i)) =~= own + rest);
    assert(state.call_ids + ids_of(calls_from(messages, i)) =~= all);
    assert(all.no_duplicates() ==> (state.call_ids + own).no_duplicates()) by {
        if all.no_duplicates() {
            let part = state.call_ids + own;
            assert forall|a: int, b: int|
                0 <= a < part.len() && 0 <= b < part.len() && a != b implies part[a] != part[b] by {
                assert(all[a] == part[a] && all[b] == part[b]);
            }
        }
    }
    let waiting = state.pending;
    match message {
        Message::ToolResult(result) => {
            let later = waiting.subrange(1, waiting.len() as int);
            if answers_stand_at(messages, i, waiting) {
                assert(waiting.len() > 0);
                assert(is_answer(messages, i + 0, waiting[0].0));
                assert forall|k: int| 0 <= k < later.len() implies is_answer(
                    messages,
                    i + 1 + k,
                    (#[trigger] later[k]).0,
                ) by {
                    assert(later[k] == waiting[k + 1]);
                    assert(is_answer(messages, i + (k + 1), waiting[k + 1].0));
                }
                assert(answers_stand_at(messages, i + 1, later));
            }
            if waiting.len() > 0 && result.call_id@ == waiting[0].0 && answers_stand_at(
                messages,
                i + 1,
                later,
            ) {
                assert forall|k: int| 0 <= k < waiting.len() implies is_answer(
                    messages,
                    i + k,
                    (#[trigger] waiting[k]).0,
                ) by {
                    if k > 0 {
                        assert(later[k - 1] == waiting[k]);
                        assert(is_answer(messages, i + 1 + (k - 1), later[k - 1].0));
                    }
                }
                assert(answers_stand_at(messages, i, waiting));
            }
            assert(is_answered_at_once(messages, i));
        },
        _ => {
            assert(answers_stand_at(messages, i, waiting) == (waiting.len() == 0)) by {
                if waiting.len() > 0 && answers_stand_at(messages, i, waiting) {
                    assert(is_answer(messages, i + 0, waiting[0].0));
                }
            }
            assert(is_answered_at_once(messages, i) == answers_stand_at(
                messages,
                i + 1,
                message_calls(message),
            ));
        },
    }
    if whole {
        assert(is_answered_at_once(messages, i));
        assert(is_sound_message(messages[i], definitions, entry));
    }
}

proof fn lemma_conversation(
    state: MessageState,
    messages: Seq<Message>,
    i: int,
    definitions: Seq<Seq<char>>,
    entry: ModelFacts,
)
    requires
        0 <= i <= messages.len(),
        state.tally.verdict is Ok,
        has_room(state.tally, 0),
        is_coherent(state, definitions),
    ensures
        ({
            let last = messages_state_from(state, messages, i, definitions, entry);
            let tally = last.tally.ensure(
                last.pending.len() == 0,
                ValidationError::InvalidArgument,
            );
            &&& is_step(
                state.tally,
                tally,
                is_sound_conversation(
                    messages,
                    i,
                    state.pending,
                    state.call_ids,
                    definitions,
                    entry,
                ),
                is_small_conversation(messages, i, state.proof_bytes),
                messages_cost(messages, i),
            )
            &&& last.tally.verdict is Ok ==> statuses_of(last.matched) == statuses_of(state.matched)
                + reports_from(messages, i)
        }),
    decreases messages.len() - i,
{
    let last = messages_state_from(state, messages, i, definitions, entry);
    let tally = last.tally.ensure(last.pending.len() == 0, ValidationError::InvalidArgument);
    lemma_message_costs(messages, i);
    if i == messages.len() {
        assert(state.call_ids + ids_of(calls_from(messages, i)) =~= state.call_ids);
        assert(answers_stand_at(messages, i, state.pending) == (state.pending.len() == 0)) by {
            if state.pending.len() > 0 && answers_stand_at(messages, i, state.pending) {
                assert(is_answer(messages, i + 0, state.pending[0].0));
            }
        }
        assert(statuses_of(state.matched) + reports_from(messages, i) =~= statuses_of(
            state.matched,
        ));
    } else {
        let message = messages[i];
        let next = message_state(state, message, definitions, entry);
        let sound = is_sound_message(message, definitions, entry) && follows(state, message);
        let small = is_small_message(message) && state.proof_bytes + message_proofs(message)
            <= 262_144;
        let cost = message_cost(message);
        let whole_sound = is_sound_conversation(
            messages,
            i,
            state.pending,
            state.call_ids,
            definitions,
            entry,
        );
        let whole_small = is_small_conversation(messages, i, state.proof_bytes);
        lemma_message(state, message, definitions, entry);
        lemma_message_costs(messages, i + 1);
        lemma_conversation_splits(state, messages, i, definitions, entry);
        assert(whole_small ==> small);
        if next.tally.verdict is Err {
            reveal_with_fuel(messages_state_from, 2);
            lemma_stop(
                state.tally,
                next.tally,
                sound,
                small,
                cost,
                whole_sound,
                whole_small,
                messages_cost(messages, i),
            );
        } else {
            lemma_message_keeps_coherence(state, message, definitions, entry);
            lemma_message_collects(state, message, definitions, entry);
            lemma_conversation(next, messages, i + 1, definitions, entry);
            lemma_steps(
                state.tally,
                next.tally,
                tally,
                sound,
                small,
                cost,
                is_sound_conversation(
                    messages,
                    i + 1,
                    next.pending,
                    next.call_ids,
                    definitions,
                    entry,
                ),
                is_small_conversation(messages, i + 1, next.proof_bytes),
                messages_cost(messages, i + 1),
            );
            assert(whole_small == (small && is_small_conversation(
                messages,
                i + 1,
                next.proof_bytes,
            )));
            assert(statuses_of(state.matched) + reports_from(messages, i) =~= statuses_of(
                next.matched,
            ) + reports_from(messages, i + 1));
        }
    }
}

/// A list of messages is accepted exactly when every message is well formed, the
/// calls of a message are answered right after it and there are no other results,
/// no identifier is used twice, and every message and the proofs together are
/// within their bounds. It is charged what its messages cost.
pub proof fn lemma_conversations(
    tally: Tally,
    messages: Seq<Message>,
    definitions: Seq<Seq<char>>,
    entry: ModelFacts,
)
    requires
        tally.verdict is Ok ==> has_room(tally, 0),
    ensures
        is_step(
            tally,
            messages_state(tally, messages, definitions, entry).tally,
            is_sound_conversation(messages, 0, Seq::empty(), Seq::empty(), definitions, entry),
            is_small_conversation(messages, 0, 0),
            messages_cost(messages, 0),
        ),
        0 <= messages_cost(messages, 0),
        messages_state(tally, messages, definitions, entry).tally.verdict is Ok ==> {
            let state = messages_state(tally, messages, definitions, entry);
            &&& answered_calls(state.matched) == calls_from(messages, 0)
            &&& statuses_of(state.matched) == reports_from(messages, 0)
            &&& state.has_calls == (calls_from(messages, 0).len() > 0)
        },
{
    reveal(messages_state);
    let start = initial_message_state(tally);
    lemma_message_costs(messages, 0);
    if tally.verdict is Ok {
        lemma_conversation(start, messages, 0, definitions, entry);
        if messages_state(tally, messages, definitions, entry).tally.verdict is Ok {
            lemma_accepted_calls_are_answered(
                tally,
                messages,
                definitions,
                entry,
            );
            let state = messages_state(tally, messages, definitions, entry);
            assert(statuses_of(start.matched) + reports_from(messages, 0) =~= reports_from(
                messages,
                0,
            ));
            assert(answered_calls(state.matched).len() == state.matched.len());
        }
    }
}

/// A user message is accepted exactly when no call waits, it has between one and
/// 4096 blocks, each of its texts is nonempty, at most 65536 bytes long and
/// without unsafe characters, each of its images fits, and the charge has room.
/// Line feeds and tabs are not unsafe. It is charged eight, and for each block
/// four more and what the text or the image costs.
pub proof fn lemma_user_messages(
    state: MessageState,
    user: UserMessage,
    definitions: Seq<Seq<char>>,
    entry: ModelFacts,
)
    requires
        state.tally.verdict is Ok,
        has_room(state.tally, 0),
        is_coherent(state, definitions),
    ensures
        ({
            let next = message_state(state, Message::User(user), definitions, entry);
            &&& next.tally.verdict is Ok <==> {
                &&& state.pending.len() == 0
                &&& 1 <= user.blocks@.len() <= 4_096
                &&& forall|k: int|
                    0 <= k < user.blocks@.len() ==> match #[trigger] user.blocks@[k] {
                        UserBlock::Text(text) => 0 < text.text@.len() && is_ordinary_text(
                            text.text@,
                        ) && text_size(text.text@) <= 65_536,
                        UserBlock::Image(image) => is_sound_image(image, entry)
                            && image.bytes@.len() <= 8_388_608,
                    }
                &&& state.proof_bytes <= 262_144
                &&& has_room(state.tally, 8 + user_blocks_cost(user.blocks@, 0))
            }
            &&& next.tally.verdict is Ok ==> next.tally.value == state.tally.value + 8
                + user_blocks_cost(user.blocks@, 0)
        }),
{
    let message = Message::User(user);
    lemma_message(state, message, definitions, entry);
    assert(state.call_ids + ids_of(message_calls(message)) =~= state.call_ids);
    let next = message_state(state, message, definitions, entry);
    assert(is_sound_message(message, definitions, entry) && is_small_message(message) <==> {
        &&& 1 <= user.blocks@.len() <= 4_096
        &&& forall|k: int|
            0 <= k < user.blocks@.len() ==> is_sound_user_block(#[trigger] user.blocks@[k], entry)
                && is_small_user_block(user.blocks@[k])
    });
}

// ---------------------------------------------------------------------------
// The rest of a request
// ---------------------------------------------------------------------------

/// The cost of the system parts from part `i` on.
pub open spec fn system_cost(system: Seq<String>, i: int) -> int
    decreases system.len() - i,
{
    if i >= system.len() {
        0
    } else {
        text_cost(system[i]@) + system_cost(system, i + 1)
    }
}

/// Whether a tool is well formed, apart from its name being new.
pub open spec fn is_sound_tool(tool: ToolDefinition) -> bool {
    &&& is_line(tool.name@)
    &&& is_ordinary_text(tool.description@)
    &&& is_sound_document(tool.input_schema@)
}

/// Whether a tool is within its bounds.
pub open spec fn is_small_tool(tool: ToolDefinition) -> bool {
    &&& text_size(tool.name@) <= 128
    &&& is_short(tool.description@)
    &&& is_small_document(tool.input_schema@)
}

/// The cost of a tool.
pub open spec fn tool_cost(tool: ToolDefinition) -> int {
    text_cost(tool.name@) + text_cost(tool.description@) + document_cost(tool.input_schema@)
}

/// The cost of the tools from tool `i` on.
pub open spec fn tools_cost(tools: Seq<ToolDefinition>, i: int) -> int
    decreases tools.len() - i,
{
    if i >= tools.len() {
        0
    } else {
        tool_cost(tools[i]) + tools_cost(tools, i + 1)
    }
}

/// Whether no earlier tool has the name of tool `i`.
pub open spec fn has_new_name(tools: Seq<ToolDefinition>, i: int) -> bool {
    forall|k: int| 0 <= k < i ==> (#[trigger] tools[k]).name@ != tools[i].name@
}

proof fn lemma_system(tally: Tally, system: Seq<String>, i: int)
    requires
        0 <= i <= system.len(),
    ensures
        is_step(
            tally,
            system_tally(tally, system, i),
            forall|k: int| i <= k < system.len() ==> is_ordinary_text((#[trigger] system[k])@),
            forall|k: int| i <= k < system.len() ==> is_short((#[trigger] system[k])@),
            system_cost(system, i),
        ),
        0 <= system_cost(system, i),
    decreases system.len() - i,
{
    if i < system.len() {
        let text = system[i]@;
        let next = tally.check(
            safe_verdict(text, 65_536, false),
        ).string(text);
        lemma_safe_text(text, 65_536, false);
        assert(is_step(tally, next, is_ordinary_text(text), is_short(text), text_cost(text)));
        lemma_system(next, system, i + 1);
        lemma_steps(
            tally,
            next,
            system_tally(next, system, i + 1),
            is_ordinary_text(text),
            is_short(text),
            text_cost(text),
            forall|k: int| i + 1 <= k < system.len() ==> is_ordinary_text((#[trigger] system[k])@),
            forall|k: int| i + 1 <= k < system.len() ==> is_short((#[trigger] system[k])@),
            system_cost(system, i + 1),
        );
        assert((forall|k: int| i <= k < system.len() ==> is_ordinary_text((#[trigger] system[k])@))
            == (is_ordinary_text(text) && forall|k: int|
            i + 1 <= k < system.len() ==> is_ordinary_text((#[trigger] system[k])@)));
        assert((forall|k: int| i <= k < system.len() ==> is_short((#[trigger] system[k])@)) == (
        is_short(text) && forall|k: int|
            i + 1 <= k < system.len() ==> is_short((#[trigger] system[k])@)));
    }
}

proof fn lemma_new_name(tools: Seq<ToolDefinition>, i: int)
    requires
        0 <= i < tools.len(),
    ensures
        has_new_name(tools, i) == !tool_names(tools).take(i).contains(tools[i].name@),
{
    let names = tool_names(tools).take(i);
    if names.contains(tools[i].name@) {
        let k = names.index_of(tools[i].name@);
        assert(tools[k].name@ == tools[i].name@);
    }
    if !has_new_name(tools, i) {
        let k = choose|k: int| 0 <= k < i && (#[trigger] tools[k]).name@ == tools[i].name@;
        assert(names[k] == tools[i].name@);
    }
}

proof fn lemma_tools(tally: Tally, tools: Seq<ToolDefinition>, i: int)
    requires
        0 <= i <= tools.len(),
    ensures
        is_step(
            tally,
            tools_tally(tally, tools, i),
            forall|k: int|
                i <= k < tools.len() ==> is_sound_tool(#[trigger] tools[k]) && has_new_name(
                    tools,
                    k,
                ),
            forall|k: int| i <= k < tools.len() ==> is_small_tool(#[trigger] tools[k]),
            tools_cost(tools, i),
        ),
        0 <= tools_cost(tools, i),
    decreases tools.len() - i,
{
    if i < tools.len() {
        let tool = tools[i];
        lemma_label(tool.name@, 128);
        lemma_safe_text(tool.description@, 65_536, false);
        lemma_document(tool.input_schema@);
        lemma_new_name(tools, i);
        let named = tally.check(
            label_verdict(tool.name@, 128),
        ).check(safe_verdict(tool.description@, 65_536, false));
        let next = match wire_verdict(tool.input_schema@, true) {
            Err(error) => named.check(Err(error)),
            Ok(schema) => named.ensure(
                !tool_names(tools).take(i).contains(tool.name@),
                ValidationError::InvalidArgument,
            ).string(tool.name@).string(tool.description@).charge(schema.logical_charge as int),
        };
        let sound = is_sound_tool(tool) && has_new_name(tools, i);
        assert(is_step(tally, next, sound, is_small_tool(tool), tool_cost(tool)));
        lemma_tools(next, tools, i + 1);
        lemma_steps(
            tally,
            next,
            tools_tally(next, tools, i + 1),
            sound,
            is_small_tool(tool),
            tool_cost(tool),
            forall|k: int|
                i + 1 <= k < tools.len() ==> is_sound_tool(#[trigger] tools[k]) && has_new_name(
                    tools,
                    k,
                ),
            forall|k: int| i + 1 <= k < tools.len() ==> is_small_tool(#[trigger] tools[k]),
            tools_cost(tools, i + 1),
        );
        assert((forall|k: int|
            i <= k < tools.len() ==> is_sound_tool(#[trigger] tools[k]) && has_new_name(tools, k))
            == (sound && forall|k: int|
            i + 1 <= k < tools.len() ==> is_sound_tool(#[trigger] tools[k]) && has_new_name(
                tools,
                k,
            )));
        assert((forall|k: int| i <= k < tools.len() ==> is_small_tool(#[trigger] tools[k])) == (
        is_small_tool(tool) && forall|k: int|
            i + 1 <= k < tools.len() ==> is_small_tool(#[trigger] tools[k])));
    }
}

/// Whether the parsers took the identifiers of a request, and its digest has its
/// form.
pub open spec fn is_sound_identity(input: PrepareInput) -> bool {
    &&& input.provider_id.canonical
    &&& input.route_id.canonical
    &&& is_marked_hex(input.catalog_digest@, "sha256:"@, 64)
    &&& match input.selection {
        ModelSelection::Exact(id) => id.canonical,
        ModelSelection::Alias(id) => id.canonical,
    }
    &&& input.current_model.canonical
    &&& input.operation_id.canonical
    &&& input.request_id.canonical
    &&& input.turn_id.canonical
}

/// The cost of the identity of a request: its eight texts, and the form of the
/// selection.
pub open spec fn identity_cost(input: PrepareInput) -> int {
    text_cost(input.provider_id.text@) + text_cost(input.route_id.text@) + text_cost(
        input.catalog_digest@,
    ) + 4 + text_cost(
        match input.selection {
            ModelSelection::Exact(id) => id.text@,
            ModelSelection::Alias(id) => id.text@,
        },
    ) + text_cost(input.current_model.text@) + text_cost(input.operation_id.text@) + text_cost(
        input.request_id.text@,
    ) + text_cost(input.turn_id.text@)
}

/// Whether the tool choice of a request is one that its tools and its model
/// allow.
pub open spec fn is_sound_tool_choice(input: PrepareInput, entry: ModelFacts) -> bool {
    match input.tool_choice {
        ToolChoice::Unset => true,
        ToolChoice::Auto => input.tools@.len() > 0 && can(entry.tool_capability.tools) && can(
            entry.tool_capability.auto_choice,
        ),
        ToolChoice::Forbidden => can(entry.tool_capability.none_choice),
        ToolChoice::Specific(choice) => is_line(choice.name@) && input.tools@.len() == 1
            && input.tools@[0].name@ == choice.name@ && can(entry.tool_capability.tools) && can(
            entry.tool_capability.specific_choice,
        ),
    }
}

/// The cost of the tool choice.
pub open spec fn tool_choice_cost(choice: ToolChoice) -> int {
    match choice {
        ToolChoice::Specific(choice) => 4 + text_cost(choice.name@),
        _ => 4,
    }
}

/// Whether the reasoning control of a request is one that its model allows.
pub open spec fn is_sound_reasoning_control(reasoning: Reasoning, entry: ModelFacts) -> bool {
    match reasoning {
        Reasoning::Unset => true,
        Reasoning::Disabled => can(entry.reasoning_capability.reasoning),
        Reasoning::Enabled(enabled) => {
            &&& can(entry.reasoning_capability.reasoning)
            &&& enabled.effort is Some ==> can(entry.reasoning_capability.effort)
            &&& enabled.budget_tokens matches Some(budget) ==> budget > 0 && can(
                entry.reasoning_capability.budget,
            )
        },
    }
}

/// The cost of the reasoning control.
pub open spec fn reasoning_control_cost(reasoning: Reasoning) -> int {
    match reasoning {
        Reasoning::Enabled(enabled) => 12 + (if enabled.effort is Some {
            4int
        } else {
            0
        }) + (if enabled.budget_tokens is Some {
            8int
        } else {
            0
        }),
        _ => 4,
    }
}

/// Whether a requested output bound is positive and within that of the model.
pub open spec fn is_sound_output(requested: Option<u64>, limit: Option<u64>) -> bool {
    requested matches Some(requested) ==> requested > 0 && (limit matches Some(limit) && requested
        <= limit)
}

/// The cost of the controls.
pub open spec fn controls_cost(input: PrepareInput) -> int {
    tool_choice_cost(input.tool_choice) + reasoning_control_cost(input.reasoning) + 8 + (
    if input.max_output_tokens is Some {
        8int
    } else {
        0
    })
}

/// Whether the controls of a request are ones that its tools and its model allow.
pub open spec fn are_sound_controls(input: PrepareInput, entry: ModelFacts, has_calls: bool) -> bool {
    &&& is_sound_tool_choice(input, entry)
    &&& is_sound_reasoning_control(input.reasoning, entry)
    &&& is_sound_output(input.max_output_tokens, entry.max_output_tokens)
    &&& (input.tools@.len() > 0 || has_calls) ==> can(entry.tool_capability.tools)
}

/// Whether the controls of a request are within their bounds.
pub open spec fn are_small_controls(input: PrepareInput) -> bool {
    input.tool_choice matches ToolChoice::Specific(choice) ==> text_size(choice.name@) <= 128
}

/// Whether what stands before the messages of a request is well formed.
pub open spec fn is_sound_preamble(input: PrepareInput) -> bool {
    &&& is_sound_identity(input)
    &&& forall|k: int|
        0 <= k < input.system@.len() ==> is_ordinary_text((#[trigger] input.system@[k])@)
    &&& forall|k: int|
        0 <= k < input.tools@.len() ==> is_sound_tool(#[trigger] input.tools@[k]) && has_new_name(
            input.tools@,
            k,
        )
}

/// Whether what stands before the messages of a request is within its bounds.
pub open spec fn is_small_preamble(input: PrepareInput) -> bool {
    &&& input.system@.len() <= 1_024
    &&& forall|k: int| 0 <= k < input.system@.len() ==> is_short((#[trigger] input.system@[k])@)
    &&& input.tools@.len() <= 1_024
    &&& forall|k: int| 0 <= k < input.tools@.len() ==> is_small_tool(#[trigger] input.tools@[k])
}

/// The cost of what stands before the messages of a request.
pub open spec fn preamble_cost(input: PrepareInput) -> int {
    identity_cost(input) + system_cost(input.system@, 0) + tools_cost(input.tools@, 0) + 8
}

proof fn lemma_identity(input: PrepareInput)
    ensures
        is_step(
            (Tally { value: 0, limit: 8_388_608, verdict: Ok(()) }),
            identity_tally(input),
            is_sound_identity(input),
            true,
            identity_cost(input),
        ),
        0 <= identity_cost(input),
{
    lemma_digest(input.catalog_digest@);
    let start = Tally { value: 0, limit: 8_388_608, verdict: Ok(()) };
    let bound = start.string(input.provider_id.text@).string(input.route_id.text@).string(
        input.catalog_digest@,
    );
    let chosen = selection_tally(bound, input.selection);
    let text = match input.selection {
        ModelSelection::Exact(id) => id.text@,
        ModelSelection::Alias(id) => id.text@,
    };
    let canonical = match input.selection {
        ModelSelection::Exact(id) => id.canonical,
        ModelSelection::Alias(id) => id.canonical,
    };
    let first = text_cost(input.provider_id.text@) + text_cost(input.route_id.text@) + text_cost(
        input.catalog_digest@,
    );
    assert(is_step(start, bound, true, true, first));
    assert(is_step(bound, chosen, canonical, true, 4 + text_cost(text)));
    let named = chosen.string(input.current_model.text@).string(input.operation_id.text@).string(
        input.request_id.text@,
    ).string(input.turn_id.text@);
    let last = text_cost(input.current_model.text@) + text_cost(input.operation_id.text@)
        + text_cost(input.request_id.text@) + text_cost(input.turn_id.text@);
    assert(is_step(chosen, named, true, true, last));
    lemma_steps(start, bound, chosen, true, true, first, canonical, true, 4 + text_cost(text));
    lemma_steps(
        start,
        chosen,
        named,
        canonical,
        true,
        first + 4 + text_cost(text),
        true,
        true,
        last,
    );
}

proof fn lemma_controls(tally: Tally, input: PrepareInput, entry: ModelFacts, has_calls: bool)
    ensures
        is_step(
            tally,
            controls_tally(tally, input, entry, has_calls),
            are_sound_controls(input, entry, has_calls),
            are_small_controls(input),
            controls_cost(input),
        ),
        0 <= controls_cost(input),
{
    reveal(controls_tally);
    if let ToolChoice::Specific(choice) = input.tool_choice {
        lemma_label(choice.name@, 128);
    }
    let chosen = tool_choice_tally(tally, input, entry);
    let small = input.tool_choice matches ToolChoice::Specific(choice) ==> text_size(choice.name@)
        <= 128;
    assert(is_step(
        tally,
        chosen,
        is_sound_tool_choice(input, entry),
        small,
        tool_choice_cost(input.tool_choice),
    ));
    let controlled = reasoning_control_tally(chosen, input.reasoning, entry);
    assert(is_step(
        chosen,
        controlled,
        is_sound_reasoning_control(input.reasoning, entry),
        true,
        reasoning_control_cost(input.reasoning),
    ));
    lemma_steps(
        tally,
        chosen,
        controlled,
        is_sound_tool_choice(input, entry),
        small,
        tool_choice_cost(input.tool_choice),
        is_sound_reasoning_control(input.reasoning, entry),
        true,
        reasoning_control_cost(input.reasoning),
    );
}

// ---------------------------------------------------------------------------
// Requests
// ---------------------------------------------------------------------------

/// Whether a request is bound to the selected entry, which is well formed.
pub open spec fn is_sound_binding(input: PrepareInput, selected: SelectedCatalogView<'_>) -> bool {
    &&& selected.provider_id.canonical && selected.route_id.canonical
    &&& is_marked_hex(selected.catalog_digest@, "sha256:"@, 64)
    &&& input.provider_id.text@ == selected.provider_id.text@
    &&& input.route_id.text@ == selected.route_id.text@
    &&& input.catalog_digest@ == selected.catalog_digest@
    &&& input.selection is Exact == selected.entry.selection is Exact
    &&& selected_id(input.selection).0 == selected_id(selected.entry.selection).0
    &&& input.current_model.text@ == selected.entry.current_model.text@
    &&& input.operation_id.text@ == selected.entry.completion_operation.text@
    &&& is_sound_entry(*selected.entry)
}

/// Whether every part of a request is well formed and allowed for its model.
pub open spec fn is_sound_request(input: PrepareInput, selected: SelectedCatalogView<'_>) -> bool {
    let entry = facts_of(*selected.entry);
    &&& is_sound_binding(input, selected)
    &&& is_sound_preamble(input)
    &&& is_sound_conversation(
        input.messages@,
        0,
        Seq::empty(),
        Seq::empty(),
        tool_names(input.tools@),
        entry,
    )
    &&& are_sound_controls(input, entry, calls_from(input.messages@, 0).len() > 0)
}

/// Whether every part of a request is within its bounds.
pub open spec fn is_small_request(input: PrepareInput, selected: SelectedCatalogView<'_>) -> bool {
    &&& is_small_entry(*selected.entry)
    &&& is_small_preamble(input)
    &&& input.messages@.len() <= 4_096
    &&& is_small_conversation(input.messages@, 0, 0)
    &&& are_small_controls(input)
}

/// The cost of a request: that of each of its parts, and four for each of its
/// three lists.
pub open spec fn request_cost(input: PrepareInput) -> int {
    preamble_cost(input) + 4 + messages_cost(input.messages@, 0) + controls_cost(input)
}

proof fn lemma_preamble(input: PrepareInput)
    ensures
        is_step(
            (Tally { value: 0, limit: 8_388_608, verdict: Ok(()) }),
            preamble_tally(input),
            is_sound_preamble(input),
            is_small_preamble(input),
            preamble_cost(input),
        ),
        0 <= preamble_cost(input),
{
    reveal(preamble_tally);
    let start = Tally { value: 0, limit: 8_388_608, verdict: Ok(()) };
    let named = identity_tally(input);
    let listed = named.check(
        list_verdict(input.system@.len() as int, 1_024),
    ).charge(4);
    let spoken = system_tally(listed, input.system@, 0);
    let counted = spoken.check(
        list_verdict(input.tools@.len() as int, 1_024),
    ).charge(4);
    let last = tools_tally(counted, input.tools@, 0);
    let system_sound = forall|k: int|
        0 <= k < input.system@.len() ==> is_ordinary_text((#[trigger] input.system@[k])@);
    let system_small = forall|k: int|
        0 <= k < input.system@.len() ==> is_short((#[trigger] input.system@[k])@);
    let tools_sound = forall|k: int|
        0 <= k < input.tools@.len() ==> is_sound_tool(#[trigger] input.tools@[k]) && has_new_name(
            input.tools@,
            k,
        );
    let tools_small = forall|k: int|
        0 <= k < input.tools@.len() ==> is_small_tool(#[trigger] input.tools@[k]);
    let sound = is_sound_identity(input);
    let few = input.system@.len() <= 1_024;
    let few_tools = input.tools@.len() <= 1_024;
    let cost = identity_cost(input);
    lemma_identity(input);
    assert(is_step(named, listed, true, few, 4));
    lemma_steps(start, named, listed, sound, true, cost, true, few, 4);
    lemma_system(listed, input.system@, 0);
    let spoken_cost = system_cost(input.system@, 0);
    lemma_steps(
        start,
        listed,
        spoken,
        sound,
        few,
        cost + 4,
        system_sound,
        system_small,
        spoken_cost,
    );
    assert(is_step(spoken, counted, true, few_tools, 4));
    lemma_steps(
        start,
        spoken,
        counted,
        sound && system_sound,
        few && system_small,
        cost + 4 + spoken_cost,
        true,
        few_tools,
        4,
    );
    lemma_tools(counted, input.tools@, 0);
    lemma_steps(
        start,
        counted,
        last,
        sound && system_sound,
        few && system_small && few_tools,
        cost + 4 + spoken_cost + 4,
        tools_sound,
        tools_small,
        tools_cost(input.tools@, 0),
    );
}

proof fn lemma_gate(input: PrepareInput, selected: SelectedCatalogView<'_>)
    ensures
        judges(
            also(
                binding_verdict(input, selected),
                entries_verdict(seq![*selected.entry]),
            ),
            is_sound_binding(input, selected),
            is_small_entry(*selected.entry),
        ),
{
    lemma_digest(selected.catalog_digest@);
    lemma_catalog_entries(seq![*selected.entry]);
    let entries = seq![*selected.entry];
    assert(are_sound_entries(entries) == is_sound_entry(*selected.entry)) by {
        assert(entries[0] == *selected.entry);
    }
    assert(are_small_entries(entries) == is_small_entry(*selected.entry)) by {
        assert(entries[0] == *selected.entry);
    }
}

/// A request is accepted exactly when every part of it is well formed, allowed
/// for its model and within its bounds, and it costs at most eight mebibytes. It
/// is then charged what its parts cost, and the results that it gives back are
/// its calls in order with the statuses of their results. It is refused for its
/// argument only where a part is not well formed or not allowed, and for its size
/// only where a bound is exceeded.
pub proof fn lemma_requests(input: PrepareInput, selected: SelectedCatalogView<'_>)
    ensures
        match prepare_verdict(input, selected) {
            Ok((charge, matched)) => {
                &&& is_sound_request(input, selected)
                &&& is_small_request(input, selected)
                &&& charge == request_cost(input)
                &&& request_cost(input) <= 8_388_608
                &&& answered_calls(matched) == calls_from(input.messages@, 0)
                &&& statuses_of(matched) == reports_from(input.messages@, 0)
            },
            Err(ValidationError::InvalidArgument) => !is_sound_request(input, selected),
            Err(ValidationError::Limit) => !is_small_request(input, selected) || request_cost(input)
                > 8_388_608,
        },
{
    let entry = facts_of(*selected.entry);
    lemma_gate(input, selected);
    lemma_request_tail(input, entry);
}

proof fn lemma_request_tail(input: PrepareInput, entry: ModelFacts)
    ensures
        ({
            let messages = input.messages@;
            let state = prepare_messages(input, entry);
            let last = controls_tally(state.tally, input, entry, state.has_calls);
            let sound = is_sound_preamble(input) && is_sound_conversation(
                messages,
                0,
                Seq::empty(),
                Seq::empty(),
                tool_names(input.tools@),
                entry,
            ) && are_sound_controls(input, entry, calls_from(messages, 0).len() > 0);
            let small = is_small_preamble(input) && messages.len() <= 4_096
                && is_small_conversation(messages, 0, 0) && are_small_controls(input);
            &&& is_step(
                (Tally { value: 0, limit: 8_388_608, verdict: Ok(()) }),
                last,
                sound,
                small,
                request_cost(input),
            )
            &&& 0 <= request_cost(input)
            &&& last.verdict is Ok ==> answered_calls(state.matched) == calls_from(messages, 0)
                && statuses_of(state.matched) == reports_from(messages, 0)
        }),
{
    let messages = input.messages@;
    let definitions = tool_names(input.tools@);
    let start = Tally { value: 0, limit: 8_388_608, verdict: Ok(()) };
    let opened = preamble_tally(input);
    let listed = opened.check(
        list_verdict(messages.len() as int, 4_096),
    ).charge(4);
    let state = prepare_messages(input, entry);
    let last = controls_tally(state.tally, input, entry, state.has_calls);
    let preamble_sound = is_sound_preamble(input);
    let preamble_small = is_small_preamble(input);
    let cost = preamble_cost(input);
    lemma_preamble(input);
    assert(is_step(opened, listed, true, messages.len() <= 4_096, 4));
    lemma_steps(
        start,
        opened,
        listed,
        preamble_sound,
        preamble_small,
        cost,
        true,
        messages.len() <= 4_096,
        4,
    );
    lemma_conversations(listed, messages, definitions, entry);
    let spoken_sound = is_sound_conversation(
        messages,
        0,
        Seq::empty(),
        Seq::empty(),
        definitions,
        entry,
    );
    let spoken_small = is_small_conversation(messages, 0, 0);
    lemma_steps(
        start,
        listed,
        state.tally,
        preamble_sound,
        preamble_small && messages.len() <= 4_096,
        cost + 4,
        spoken_sound,
        spoken_small,
        messages_cost(messages, 0),
    );
    lemma_controls(state.tally, input, entry, state.has_calls);
    let ruled_sound = are_sound_controls(input, entry, state.has_calls);
    let ruled_small = are_small_controls(input);
    lemma_steps(
        start,
        state.tally,
        last,
        preamble_sound && spoken_sound,
        preamble_small && messages.len() <= 4_096 && spoken_small,
        cost + 4 + messages_cost(messages, 0),
        ruled_sound,
        ruled_small,
        controls_cost(input),
    );
}

// ---------------------------------------------------------------------------
// What a charge is at least
// ---------------------------------------------------------------------------

/// The bytes of text and image of the blocks of a user message from block `i` on.
pub open spec fn user_bytes(blocks: Seq<UserBlock>, i: int) -> int
    decreases blocks.len() - i,
{
    if i >= blocks.len() {
        0
    } else {
        (match blocks[i] {
            UserBlock::Text(text) => text_size(text.text@),
            UserBlock::Image(image) => image.bytes@.len() as int,
        }) + user_bytes(blocks, i + 1)
    }
}

/// The bytes of text and image of the blocks of a tool result from block `i` on.
pub open spec fn result_bytes(blocks: Seq<ToolResultBlock>, i: int) -> int
    decreases blocks.len() - i,
{
    if i >= blocks.len() {
        0
    } else {
        (match blocks[i] {
            ToolResultBlock::Text(text) => text_size(text.text@),
            ToolResultBlock::Image(image) => image.bytes@.len() as int,
        }) + result_bytes(blocks, i + 1)
    }
}

/// The bytes of text of the blocks of an assistant message from block `i` on.
pub open spec fn assistant_bytes(blocks: Seq<AssistantBlock>, i: int) -> int
    decreases blocks.len() - i,
{
    if i >= blocks.len() {
        0
    } else {
        (match blocks[i] {
            AssistantBlock::Text(text) => text_size(text.text@),
            AssistantBlock::Reasoning(reasoning) => text_size(reasoning.text@),
            AssistantBlock::ToolCall(call) => text_size(call.name@),
        }) + assistant_bytes(blocks, i + 1)
    }
}

/// The bytes of text and image of the messages from message `i` on.
pub open spec fn messages_bytes(messages: Seq<Message>, i: int) -> int
    decreases messages.len() - i,
{
    if i >= messages.len() {
        0
    } else {
        (match messages[i] {
            Message::User(user) => user_bytes(user.blocks@, 0),
            Message::Assistant(assistant) => assistant_bytes(assistant.blocks@, 0),
            Message::ToolResult(result) => result_bytes(result.blocks@, 0),
        }) + messages_bytes(messages, i + 1)
    }
}

/// The bytes of the system parts from part `i` on.
pub open spec fn system_bytes(system: Seq<String>, i: int) -> int
    decreases system.len() - i,
{
    if i >= system.len() {
        0
    } else {
        text_size(system[i]@) + system_bytes(system, i + 1)
    }
}

proof fn lemma_user_bytes(blocks: Seq<UserBlock>, i: int)
    requires
        0 <= i <= blocks.len(),
    ensures
        0 <= user_bytes(blocks, i) <= user_blocks_cost(blocks, i),
    decreases blocks.len() - i,
{
    if i < blocks.len() {
        lemma_user_bytes(blocks, i + 1);
    }
}

proof fn lemma_result_bytes(blocks: Seq<ToolResultBlock>, i: int)
    requires
        0 <= i <= blocks.len(),
    ensures
        0 <= result_bytes(blocks, i) <= result_blocks_cost(blocks, i),
    decreases blocks.len() - i,
{
    if i < blocks.len() {
        lemma_result_bytes(blocks, i + 1);
    }
}

proof fn lemma_assistant_bytes(blocks: Seq<AssistantBlock>, i: int)
    requires
        0 <= i <= blocks.len(),
    ensures
        0 <= assistant_bytes(blocks, i) <= assistant_blocks_cost(blocks, i),
    decreases blocks.len() - i,
{
    if i < blocks.len() {
        lemma_assistant_bytes(blocks, i + 1);
        if let AssistantBlock::ToolCall(call) = blocks[i] {
            lemma_document(call.arguments@);
        }
    }
}

proof fn lemma_messages_bytes(messages: Seq<Message>, i: int)
    requires
        0 <= i <= messages.len(),
    ensures
        0 <= messages_bytes(messages, i) <= messages_cost(messages, i),
    decreases messages.len() - i,
{
    if i < messages.len() {
        lemma_messages_bytes(messages, i + 1);
        match messages[i] {
            Message::User(user) => lemma_user_bytes(user.blocks@, 0),
            Message::Assistant(assistant) => lemma_assistant_bytes(assistant.blocks@, 0),
            Message::ToolResult(result) => lemma_result_bytes(result.blocks@, 0),
        }
    }
}

proof fn lemma_system_bytes(system: Seq<String>, i: int)
    requires
        0 <= i <= system.len(),
    ensures
        0 <= system_bytes(system, i) <= system_cost(system, i),
    decreases system.len() - i,
{
    if i < system.len() {
        lemma_system_bytes(system, i + 1);
    }
}

/// An accepted request is charged for every byte of text and image that its
/// system parts and its messages carry, so that these are at most eight mebibytes
/// together.
pub proof fn lemma_every_byte_is_charged(input: PrepareInput, selected: SelectedCatalogView<'_>)
    ensures
        prepare_verdict(input, selected) matches Ok((charge, matched)) ==> system_bytes(
            input.system@,
            0,
        ) + messages_bytes(input.messages@, 0) <= charge <= 8_388_608,
{
    lemma_requests(input, selected);
    lemma_messages_bytes(input.messages@, 0);
    lemma_system_bytes(input.system@, 0);
    lemma_tools(
        Tally { value: 0, limit: 8_388_608, verdict: Ok(()) },
        input.tools@,
        0,
    );
}

} // verus!
