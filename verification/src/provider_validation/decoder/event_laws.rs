//! Which events are accepted, what they are charged, and what they lead to.
//!
//! An event has a form, a place behind the events before it, and totals that it
//! must stay within. Each is stated over the event and the state before it.

use vstd::prelude::*;

use crate::provider_api::{
    CompletionReason, CompletionTerminal, NormalizedEvent, ReasoningKind, ResponseFrame,
};
use crate::provider_validation::charge::Tally;
use crate::provider_validation::charge_laws::{is_step, judges, lemma_steps, text_size};
use crate::provider_validation::decoder::events::{
    accepted_events, batch_step, batch_terminal, count_step, ends_stream, event_step, events_step,
    first_events, strings_of, EventState, ReasoningTag, Slot, SlotKind,
};
use crate::provider_validation::decoder::laws::is_consistent;
use crate::provider_validation::decoder::round_trip::{
    is_canonical_arguments, lemma_arguments_are_canonical_objects,
};
use crate::provider_validation::decoder::{
    batch_tally_from, batch_verdict, event_verdict, frame_verdict, terminal_tally,
    usage_value_tally, DecoderPolicy,
};
use crate::provider_validation::scalar::identifier_verdict;
use crate::provider_validation::scalar_laws::{
    is_call_id, is_line, is_ordinary_text, lemma_call_id, lemma_label, lemma_safe_text,
};
use crate::provider_validation::{ValidationError, ValidationResult};

verus! {

// ---------------------------------------------------------------------------
// One event by itself
// ---------------------------------------------------------------------------

/// The cost of a text.
pub open spec fn text_cost(text: Seq<char>) -> int {
    4 + text_size(text)
}

/// The cost of one usage number.
pub open spec fn number_cost(value: Option<u64>) -> int {
    if value is Some {
        12
    } else {
        4
    }
}

/// The cost of an event.
pub open spec fn event_cost(event: NormalizedEvent) -> int {
    match event {
        NormalizedEvent::TextDelta(delta) => 5 + text_cost(delta.text@),
        NormalizedEvent::ReasoningDelta(delta) => 9 + text_cost(delta.text@),
        NormalizedEvent::ReasoningProof(proof) => 13 + proof.proof@.len() as int,
        NormalizedEvent::ToolCallStart(start) => 5 + text_cost(start.call_id@) + text_cost(
            start.name@,
        ),
        NormalizedEvent::ToolArgumentsDelta(delta) => 5 + text_cost(delta.call_id@) + text_cost(
            delta.delta@,
        ),
        NormalizedEvent::ToolCallEnd(end) => 5 + text_cost(end.call_id@),
        NormalizedEvent::Completed(completed) => 12 + (match completed.reported_model {
            Some(model) => text_cost(model.text@),
            None => 0,
        }) + number_cost(completed.usage.input_tokens) + number_cost(completed.usage.output_tokens)
            + number_cost(completed.usage.cache_read_tokens) + number_cost(
            completed.usage.cache_write_tokens,
        ),
        NormalizedEvent::Failed(error) => if error is UnsupportedFlow {
            12
        } else {
            8
        },
    }
}

/// The content index of an event, if it has one.
pub open spec fn index_of(event: NormalizedEvent) -> Option<u8> {
    match event {
        NormalizedEvent::TextDelta(delta) => Some(delta.content_index),
        NormalizedEvent::ReasoningDelta(delta) => Some(delta.content_index),
        NormalizedEvent::ReasoningProof(proof) => Some(proof.content_index),
        NormalizedEvent::ToolCallStart(start) => Some(start.content_index),
        NormalizedEvent::ToolArgumentsDelta(delta) => Some(delta.content_index),
        NormalizedEvent::ToolCallEnd(end) => Some(end.content_index),
        NormalizedEvent::Completed(_) => None,
        NormalizedEvent::Failed(_) => None,
    }
}

/// Whether an event is well formed by itself.
pub open spec fn is_sound_event(event: NormalizedEvent) -> bool {
    &&& index_of(event) matches Some(index) ==> index < 64
    &&& match event {
        NormalizedEvent::TextDelta(delta) => delta.text@.len() > 0 && is_ordinary_text(delta.text@),
        NormalizedEvent::ReasoningDelta(delta) => delta.text@.len() > 0 && is_ordinary_text(
            delta.text@,
        ),
        NormalizedEvent::ReasoningProof(proof) => proof.proof@.len() > 0,
        NormalizedEvent::ToolCallStart(start) => is_call_id(start.call_id@) && is_line(start.name@),
        NormalizedEvent::ToolArgumentsDelta(delta) => is_call_id(delta.call_id@)
            && delta.delta@.len() > 0 && is_ordinary_text(delta.delta@),
        NormalizedEvent::ToolCallEnd(end) => is_call_id(end.call_id@),
        NormalizedEvent::Completed(completed) => completed.reported_model matches Some(model)
            ==> model.canonical,
        NormalizedEvent::Failed(_) => true,
    }
}

/// Whether an optional number is at most the largest signed number of 64 bits.
pub open spec fn is_small_number(value: Option<u64>) -> bool {
    value matches Some(number) ==> number <= 0x7fff_ffff_ffff_ffff
}

/// Whether an event is within its own bounds.
pub open spec fn is_small_event(event: NormalizedEvent) -> bool {
    &&& event_cost(event) <= 131_072
    &&& match event {
        NormalizedEvent::TextDelta(delta) => text_size(delta.text@) <= 65_536,
        NormalizedEvent::ReasoningDelta(delta) => text_size(delta.text@) <= 65_536,
        NormalizedEvent::ReasoningProof(proof) => proof.proof@.len() <= 65_536,
        NormalizedEvent::ToolCallStart(start) => text_size(start.name@) <= 128,
        NormalizedEvent::ToolArgumentsDelta(delta) => text_size(delta.delta@) <= 65_536,
        NormalizedEvent::ToolCallEnd(_) => true,
        NormalizedEvent::Completed(completed) => {
            &&& is_small_number(completed.usage.input_tokens)
            &&& is_small_number(completed.usage.output_tokens)
            &&& is_small_number(completed.usage.cache_read_tokens)
            &&& is_small_number(completed.usage.cache_write_tokens)
        },
        NormalizedEvent::Failed(_) => true,
    }
}

proof fn lemma_number(tally: Tally, value: Option<u64>)
    ensures
        is_step(
            tally,
            usage_value_tally(tally, value),
            true,
            is_small_number(value),
            number_cost(value),
        ),
{
}

proof fn lemma_completed(tally: Tally, completed: CompletionTerminal)
    ensures
        is_step(
            tally,
            terminal_tally(tally, completed),
            is_sound_event(NormalizedEvent::Completed(completed)),
            is_small_number(completed.usage.input_tokens) && is_small_number(
                completed.usage.output_tokens,
            ) && is_small_number(completed.usage.cache_read_tokens) && is_small_number(
                completed.usage.cache_write_tokens,
            ),
            event_cost(NormalizedEvent::Completed(completed)) - 4,
        ),
{
    let usage = completed.usage;
    let tagged = tally.charge(4).charge(4);
    let named = match completed.reported_model {
        None => tagged,
        Some(model) => tagged.check(
            identifier_verdict(model),
        ).string(model.text@),
    };
    let sound = is_sound_event(NormalizedEvent::Completed(completed));
    let cost = 8 + match completed.reported_model {
        Some(model) => text_cost(model.text@),
        None => 0,
    };
    assert(is_step(tally, named, sound, true, cost));
    let first = usage_value_tally(named, usage.input_tokens);
    let second = usage_value_tally(first, usage.output_tokens);
    let third = usage_value_tally(second, usage.cache_read_tokens);
    let fourth = usage_value_tally(third, usage.cache_write_tokens);
    lemma_number(named, usage.input_tokens);
    lemma_number(first, usage.output_tokens);
    lemma_number(second, usage.cache_read_tokens);
    lemma_number(third, usage.cache_write_tokens);
    let a = is_small_number(usage.input_tokens);
    let b = is_small_number(usage.output_tokens);
    let c = is_small_number(usage.cache_read_tokens);
    let d = is_small_number(usage.cache_write_tokens);
    let p = number_cost(usage.input_tokens);
    let q = number_cost(usage.output_tokens);
    let r = number_cost(usage.cache_read_tokens);
    let s = number_cost(usage.cache_write_tokens);
    lemma_steps(tally, named, first, sound, true, cost, true, a, p);
    lemma_steps(tally, first, second, sound, a, cost + p, true, b, q);
    lemma_steps(tally, second, third, sound, a && b, cost + p + q, true, c, r);
    lemma_steps(tally, third, fourth, sound, a && b && c, cost + p + q + r, true, d, s);
}

/// An event by itself is accepted exactly when it is well formed and within its
/// bounds, and is charged its cost.
pub proof fn lemma_single_events(event: NormalizedEvent)
    ensures
        match event_verdict(event) {
            Ok(charge) => is_sound_event(event) && is_small_event(event) && charge == event_cost(
                event,
            ),
            Err(ValidationError::InvalidArgument) => !is_sound_event(event),
            Err(ValidationError::Limit) => !is_small_event(event),
        },
        4 <= event_cost(event),
{
    let start = (Tally { value: 0, limit: 131_072, verdict: Ok(()) }).charge(4);
    match event {
        NormalizedEvent::TextDelta(delta) => lemma_safe_text(delta.text@, 65_536, true),
        NormalizedEvent::ReasoningDelta(delta) => lemma_safe_text(delta.text@, 65_536, true),
        NormalizedEvent::ReasoningProof(_) => {},
        NormalizedEvent::ToolCallStart(call) => {
            lemma_call_id(call.call_id@);
            lemma_label(call.name@, 128);
        },
        NormalizedEvent::ToolArgumentsDelta(delta) => {
            lemma_call_id(delta.call_id@);
            lemma_safe_text(delta.delta@, 65_536, true);
        },
        NormalizedEvent::ToolCallEnd(end) => lemma_call_id(end.call_id@),
        NormalizedEvent::Completed(completed) => lemma_completed(start, completed),
        NormalizedEvent::Failed(_) => {},
    }
}

/// The cost of the events from event `i` on.
pub open spec fn events_cost(events: Seq<NormalizedEvent>, i: int) -> int
    decreases events.len() - i,
{
    if i >= events.len() {
        0
    } else {
        event_cost(events[i]) + events_cost(events, i + 1)
    }
}

proof fn lemma_batch_from(tally: Tally, events: Seq<NormalizedEvent>, i: int)
    requires
        0 <= i <= events.len(),
    ensures
        is_step(
            tally,
            batch_tally_from(tally, events, i),
            forall|k: int| i <= k < events.len() ==> is_sound_event(#[trigger] events[k]),
            forall|k: int| i <= k < events.len() ==> is_small_event(#[trigger] events[k]),
            events_cost(events, i),
        ),
        0 <= events_cost(events, i),
    decreases events.len() - i,
{
    if i < events.len() {
        let event = events[i];
        lemma_single_events(event);
        let next = match event_verdict(event) {
            Ok(charge) => tally.charge(charge as int),
            Err(error) => tally.check(Err(error)),
        };
        let sound = is_sound_event(event);
        let small = is_small_event(event);
        assert(is_step(tally, next, sound, small, event_cost(event)));
        lemma_batch_from(next, events, i + 1);
        let rest_sound = forall|k: int|
            i + 1 <= k < events.len() ==> is_sound_event(#[trigger] events[k]);
        let rest_small = forall|k: int|
            i + 1 <= k < events.len() ==> is_small_event(#[trigger] events[k]);
        lemma_steps(
            tally,
            next,
            batch_tally_from(next, events, i + 1),
            sound,
            small,
            event_cost(event),
            rest_sound,
            rest_small,
            events_cost(events, i + 1),
        );
        assert((forall|k: int| i <= k < events.len() ==> is_sound_event(#[trigger] events[k])) == (
        sound && rest_sound));
        assert((forall|k: int| i <= k < events.len() ==> is_small_event(#[trigger] events[k])) == (
        small && rest_small));
    }
}

/// Whether every event of a batch is well formed by itself, and there is one.
pub open spec fn is_sound_batch(events: Seq<NormalizedEvent>) -> bool {
    &&& events.len() > 0
    &&& forall|k: int| 0 <= k < events.len() ==> is_sound_event(#[trigger] events[k])
}

/// Whether a batch is within its bounds: a limit of one to sixteen events, their
/// own bounds, and a mebibyte for all of them.
pub open spec fn is_small_batch(events: Seq<NormalizedEvent>, limit: int) -> bool {
    &&& 1 <= limit <= 16
    &&& events.len() <= limit
    &&& forall|k: int| 0 <= k < events.len() ==> is_small_event(#[trigger] events[k])
    &&& 4 + events_cost(events, 0) <= 1_048_576
}

/// A batch by itself is accepted exactly when its events are well formed and it is
/// within its bounds.
pub proof fn lemma_batches(events: Seq<NormalizedEvent>, limit: u8)
    ensures
        judges(
            batch_verdict(events, limit),
            is_sound_batch(events),
            is_small_batch(events, limit as int),
        ),
{
    let start = Tally { value: 0, limit: 1_048_576, verdict: Ok(()) };
    let opened = start.charge(4);
    assert(is_step(start, opened, true, true, 4));
    lemma_batch_from(opened, events, 0);
    lemma_steps(
        start,
        opened,
        batch_tally_from(opened, events, 0),
        true,
        true,
        4,
        forall|k: int| 0 <= k < events.len() ==> is_sound_event(#[trigger] events[k]),
        forall|k: int| 0 <= k < events.len() ==> is_small_event(#[trigger] events[k]),
        events_cost(events, 0),
    );
}

/// A frame is accepted exactly when its status is one of a final answer, or its
/// data are one to 65536 bytes.
pub proof fn lemma_frames(frame: ResponseFrame)
    ensures
        match frame {
            ResponseFrame::Head(head) => judges(
                frame_verdict(frame),
                200 <= head.status < 600,
                true,
            ),
            ResponseFrame::Data(data) => judges(
                frame_verdict(frame),
                data@.len() > 0,
                data@.len() <= 65_536,
            ),
            ResponseFrame::End => frame_verdict(frame) is Ok,
        },
{
}

// ---------------------------------------------------------------------------
// An event behind others
// ---------------------------------------------------------------------------

/// The index of the slot that comes next.
pub open spec fn next_index(state: EventState) -> int {
    match state.current {
        None => 0,
        Some(slot) => slot.index + 1,
    }
}

/// Whether no call is open: there is no slot yet, or it holds text, reasoning or a
/// complete call.
pub open spec fn is_free(state: EventState) -> bool {
    match state.current {
        None => true,
        Some(slot) => match slot.kind {
            SlotKind::Text => true,
            SlotKind::Reasoning { .. } => true,
            SlotKind::Sealed => true,
            SlotKind::Open { .. } => false,
        },
    }
}

/// Whether two kinds of reasoning are the same.
pub open spec fn is_same_reasoning(kind: ReasoningKind, tag: ReasoningTag) -> bool {
    match (kind, tag) {
        (ReasoningKind::Thinking, ReasoningTag::Thinking) => true,
        (ReasoningKind::Summary, ReasoningTag::Summary) => true,
        _ => false,
    }
}

/// Whether the current slot holds reasoning of a kind.
pub open spec fn holds_reasoning(state: EventState, index: u8, kind: ReasoningKind) -> bool {
    state.current matches Some(slot) && slot.index == index && (slot.kind matches
        SlotKind::Reasoning { kind: tag, .. } && is_same_reasoning(kind, tag))
}

/// Whether the current slot is an open call.
pub open spec fn holds_call(state: EventState, index: u8, id: Seq<char>) -> bool {
    state.current matches Some(slot) && slot.index == index && (slot.kind matches
        SlotKind::Open { call_id, .. } && call_id == id)
}

/// The arguments of the open call so far.
pub open spec fn arguments_so_far(state: EventState) -> Seq<char> {
    match state.current {
        Some(Slot { kind: SlotKind::Open { arguments, .. }, .. }) => arguments,
        _ => Seq::empty(),
    }
}

/// The number of deltas of the open call so far.
pub open spec fn deltas_so_far(state: EventState) -> int {
    match state.current {
        Some(Slot { kind: SlotKind::Open { delta_count, .. }, .. }) => delta_count,
        _ => 0,
    }
}

/// Whether an event is in its place.
///
/// Text and reasoning continue a slot of their kind or open the next one. A proof
/// belongs to a reasoning slot that has none. A call opens the next slot, for a
/// permitted tool and with an unused identifier. Its deltas and its end belong to
/// it, and it has a delta before its end. A completion or a failure comes when no
/// call is open, a completion for tool use exactly when there is a complete call.
pub open spec fn is_in_place(state: EventState, event: NormalizedEvent) -> bool {
    match event {
        NormalizedEvent::TextDelta(delta) => {
            ||| state.current == Some(Slot { index: delta.content_index, kind: SlotKind::Text })
            ||| delta.content_index == next_index(state) && is_free(state)
        },
        NormalizedEvent::ReasoningDelta(delta) => {
            ||| holds_reasoning(state, delta.content_index, delta.kind)
            ||| delta.content_index == next_index(state) && is_free(state)
        },
        NormalizedEvent::ReasoningProof(proof) => {
            &&& state.proof_supported
            &&& holds_reasoning(state, proof.content_index, proof.kind)
            &&& !(state.current->Some_0.kind->proof_seen)
        },
        NormalizedEvent::ToolCallStart(start) => {
            &&& state.tool_names.contains(start.name@)
            &&& !state.call_ids.contains(start.call_id@)
            &&& start.content_index == next_index(state)
            &&& is_free(state)
        },
        NormalizedEvent::ToolArgumentsDelta(delta) => holds_call(
            state,
            delta.content_index,
            delta.call_id@,
        ),
        NormalizedEvent::ToolCallEnd(end) => {
            &&& holds_call(state, end.content_index, end.call_id@)
            &&& deltas_so_far(state) > 0
            &&& exists|document| is_canonical_arguments(arguments_so_far(state), document)
        },
        NormalizedEvent::Completed(completed) => {
            &&& is_free(state)
            &&& match completed.reason {
                CompletionReason::ToolUse => state.complete_calls > 0,
                _ => state.complete_calls == 0,
            }
        },
        NormalizedEvent::Failed(_) => is_free(state),
    }
}

/// Whether an event has room in the totals.
pub open spec fn has_totals(state: EventState, event: NormalizedEvent) -> bool {
    &&& state.event_charge + event_cost(event) <= 8_388_608
    &&& match event {
        NormalizedEvent::ReasoningProof(proof) => state.proof_bytes + proof.proof@.len() <= 262_144,
        NormalizedEvent::ToolArgumentsDelta(delta) => {
            let size = text_size(delta.delta@);
            &&& deltas_so_far(state) < 16_384
            &&& text_size(arguments_so_far(state)) + size <= 1_048_576
            &&& state.tool_bytes + size <= 2_097_152
        },
        NormalizedEvent::ToolCallEnd(_) => state.complete_calls < 0xffff_ffff,
        _ => true,
    }
}

/// In a consistent state, an event is accepted exactly when it is well formed and
/// within its bounds, in its place, and has room in the totals.
pub proof fn lemma_accepted_events(state: EventState, event: NormalizedEvent)
    requires
        is_consistent(state),
    ensures
        event_step(state, event).1 is Ok <==> {
            &&& is_sound_event(event)
            &&& is_small_event(event)
            &&& is_in_place(state, event)
            &&& has_totals(state, event)
        },
        event_step(state, event).1 == ValidationResult::<()>::Err(ValidationError::InvalidArgument)
            ==> !is_sound_event(event) || !is_in_place(state, event),
        event_step(state, event).1 == ValidationResult::<()>::Err(ValidationError::Limit) ==> {
            ||| !is_small_event(event)
            ||| !has_totals(state, event)
            ||| event is ToolCallEnd && !is_in_place(state, event)
        },
{
    reveal(event_step);
    lemma_single_events(event);
    if event is ToolCallEnd {
        lemma_arguments_are_canonical_objects(arguments_so_far(state));
    }
}

/// In a consistent state with room in the totals, the start of a call that is
/// well formed is accepted exactly when its tool is permitted, its identifier was
/// not used, and its index is zero when there is no slot yet, or one more than that
/// of a slot with text, reasoning or a complete call. It is in an open call
/// without arguments then, and its identifier counts as used.
pub proof fn lemma_calls_start(state: EventState, event: NormalizedEvent)
    requires
        is_consistent(state),
        is_sound_event(event),
        is_small_event(event),
        state.event_charge + event_cost(event) <= 8_388_608,
        event is ToolCallStart,
    ensures
        ({
            let start = event->ToolCallStart_0;
            let next = event_step(state, event);
            &&& next.1 is Ok <==> {
                &&& state.tool_names.contains(start.name@)
                &&& !state.call_ids.contains(start.call_id@)
                &&& match state.current {
                    None => start.content_index == 0,
                    Some(slot) => start.content_index == slot.index + 1 && (slot.kind is Text
                        || slot.kind is Reasoning || slot.kind is Sealed),
                }
            }
            &&& next.1 is Ok ==> {
                &&& next.0.call_ids == state.call_ids.push(start.call_id@)
                &&& holds_call(next.0, start.content_index, start.call_id@)
                &&& arguments_so_far(next.0) == Seq::<char>::empty()
                &&& deltas_so_far(next.0) == 0
            }
        }),
{
    reveal(event_step);
    lemma_accepted_events(state, event);
}

/// Whether a state comes of an accepted event: which totals grow and by how much,
/// and which slot is current.
pub open spec fn is_state_after(
    before: EventState,
    event: NormalizedEvent,
    after: EventState,
) -> bool {
    let opens = index_of(event) matches Some(index) && index == next_index(before);
    &&& after.proof_supported == before.proof_supported
    &&& after.tool_names == before.tool_names
    &&& after.reported_models == before.reported_models
    &&& after.event_count == before.event_count
    &&& after.event_charge == before.event_charge + event_cost(event)
    &&& after.terminal_seen == (before.terminal_seen || event is Completed || event is Failed)
    &&& match event {
        NormalizedEvent::ReasoningProof(proof) => after.proof_bytes == before.proof_bytes
            + proof.proof@.len(),
        _ => after.proof_bytes == before.proof_bytes,
    }
    &&& match event {
        NormalizedEvent::ToolArgumentsDelta(delta) => after.tool_bytes == before.tool_bytes
            + text_size(delta.delta@),
        _ => after.tool_bytes == before.tool_bytes,
    }
    &&& match event {
        NormalizedEvent::ToolCallStart(start) => after.call_ids == before.call_ids.push(
            start.call_id@,
        ),
        _ => after.call_ids == before.call_ids,
    }
    &&& match event {
        NormalizedEvent::ToolCallEnd(_) => after.complete_calls == before.complete_calls + 1,
        _ => after.complete_calls == before.complete_calls,
    }
    &&& match event {
        NormalizedEvent::TextDelta(delta) => after.current == Some(
            Slot { index: delta.content_index, kind: SlotKind::Text },
        ),
        NormalizedEvent::ReasoningDelta(delta) => {
            &&& holds_reasoning(after, delta.content_index, delta.kind)
            &&& if opens {
                !(after.current->Some_0.kind->proof_seen)
            } else {
                after.current == before.current
            }
        },
        NormalizedEvent::ReasoningProof(proof) => {
            &&& holds_reasoning(after, proof.content_index, proof.kind)
            &&& after.current->Some_0.kind->proof_seen
        },
        NormalizedEvent::ToolCallStart(start) => after.current == Some(
            Slot {
                index: start.content_index,
                kind: SlotKind::Open {
                    call_id: start.call_id@,
                    delta_count: 0,
                    bytes: 0,
                    arguments: Seq::empty(),
                },
            },
        ),
        NormalizedEvent::ToolArgumentsDelta(delta) => {
            &&& holds_call(after, delta.content_index, delta.call_id@)
            &&& arguments_so_far(after) == arguments_so_far(before) + delta.delta@
            &&& deltas_so_far(after) == deltas_so_far(before) + 1
        },
        NormalizedEvent::ToolCallEnd(end) => after.current == Some(
            Slot { index: end.content_index, kind: SlotKind::Sealed },
        ),
        NormalizedEvent::Completed(_) => after.current == before.current,
        NormalizedEvent::Failed(_) => after.current == before.current,
    }
}

/// An accepted event leads to the state that it should.
pub proof fn lemma_state_after(state: EventState, event: NormalizedEvent)
    requires
        is_consistent(state),
        event_step(state, event).1 is Ok,
    ensures
        is_state_after(state, event, event_step(state, event).0),
{
    reveal(event_step);
    lemma_single_events(event);
}

// ---------------------------------------------------------------------------
// Batches behind others
// ---------------------------------------------------------------------------

/// The state after the first `n` events.
pub open spec fn state_after(state: EventState, events: Seq<NormalizedEvent>, n: int) -> EventState
    decreases n,
{
    if n <= 0 {
        state
    } else {
        event_step(state_after(state, events, n - 1), events[n - 1]).0
    }
}

/// Whether each event is accepted behind those before it.
pub open spec fn are_accepted(state: EventState, events: Seq<NormalizedEvent>) -> bool {
    forall|k: int|
        0 <= k < events.len() ==> event_step(
            state_after(state, events, k),
            #[trigger] events[k],
        ).1 is Ok
}

proof fn lemma_events_from(state: EventState, events: Seq<NormalizedEvent>, i: int)
    requires
        0 <= i <= events.len(),
        forall|k: int|
            0 <= k < i ==> event_step(state_after(state, events, k), #[trigger] events[k]).1 is Ok,
    ensures
        ({
            let last = events_step(state_after(state, events, i), events, i);
            &&& last.1 is Ok <==> are_accepted(state, events)
            &&& last.1 is Ok ==> last.0 == state_after(state, events, events.len() as int)
        }),
    decreases events.len() - i,
{
    if i < events.len() {
        let here = event_step(state_after(state, events, i), events[i]);
        assert(state_after(state, events, i + 1) == here.0);
        if here.1 is Ok {
            lemma_events_from(state, events, i + 1);
        }
    }
}

/// The state when events have been counted.
pub open spec fn with_count(state: EventState, count: int) -> EventState {
    EventState { event_count: state.event_count + count, ..state }
}

/// A batch is accepted exactly when it is within its bounds by itself, nothing was
/// terminal before it, only its last event is, after the end of the response, and
/// there are not too many events. Each event of a success is accepted behind those
/// before it. A response without success gives a single failure, after its end.
pub proof fn lemma_accepted_batches(
    state: EventState,
    events: Seq<NormalizedEvent>,
    limit: u8,
    after_end: bool,
    successful: bool,
)
    requires
        is_consistent(state),
    ensures
        ({
            let next = batch_step(state, events, limit, after_end, successful);
            let counted = with_count(state, events.len() as int);
            &&& next.1 is Ok <==> {
                &&& is_sound_batch(events)
                &&& is_small_batch(events, limit as int)
                &&& !state.terminal_seen
                &&& forall|k: int|
                    0 <= k < events.len() - 1 ==> !(#[trigger] events[k] is Completed
                        || events[k] is Failed)
                &&& (events.last() is Completed || events.last() is Failed) ==> after_end
                &&& state.event_count + events.len() <= 65_536
                &&& if successful {
                    are_accepted(counted, events)
                } else {
                    &&& after_end
                    &&& events.len() == 1
                    &&& events[0] is Failed
                    &&& state.event_charge + event_cost(events[0]) <= 8_388_608
                }
            }
            &&& next.1 is Ok && successful ==> next.0 == state_after(
                counted,
                events,
                events.len() as int,
            )
            &&& next.1 is Ok && !successful ==> next.0 == EventState {
                event_charge: state.event_charge + event_cost(events[0]),
                terminal_seen: true,
                ..counted
            }
        }),
{
    lemma_batches(events, limit);
    if events.len() > 0 {
        lemma_single_events(events[0]);
        let placed = !state.terminal_seen && forall|i: int|
            0 <= i < events.len() && ends_stream(#[trigger] events[i]) ==> after_end && i
                == events.len() - 1;
        let asked = {
            &&& !state.terminal_seen
            &&& forall|k: int|
                0 <= k < events.len() - 1 ==> !(#[trigger] events[k] is Completed
                    || events[k] is Failed)
            &&& (events.last() is Completed || events.last() is Failed) ==> after_end
        };
        if placed {
            assert forall|k: int| 0 <= k < events.len() - 1 implies !(#[trigger] events[k]
                is Completed || events[k] is Failed) by {
                assert(!ends_stream(events[k]));
            }
            assert(ends_stream(events.last()) ==> after_end);
            assert(asked);
        }
        if asked {
            assert(placed);
        }
        lemma_events_from(with_count(state, events.len() as int), events, 0);
        if events.len() <= limit {
            assert(count_step(state, events.len() as int).0 == with_count(
                state,
                events.len() as int,
            ));
        }
    }
}

/// The events of a batch are those that a consumer receives and the terminal one,
/// if there is one.
pub proof fn lemma_batches_are_split(events: Seq<NormalizedEvent>, models: Seq<Seq<char>>)
    requires
        events.len() > 0,
    ensures
        match events.last() {
            NormalizedEvent::Completed(completed) => {
                &&& accepted_events(events).push(events.last()) == events
                &&& batch_terminal(events, models) matches Some(NormalizedEvent::Completed(shown))
                    && {
                    &&& shown.reason == completed.reason
                    &&& shown.usage == completed.usage
                    &&& shown.reported_model == match completed.reported_model {
                        None => None,
                        Some(model) => if models.contains(model.text@) {
                            Some(model)
                        } else {
                            None
                        },
                    }
                }
            },
            NormalizedEvent::Failed(_) => {
                &&& accepted_events(events).push(events.last()) == events
                &&& batch_terminal(events, models) == Some(events.last())
            },
            _ => accepted_events(events) == events && batch_terminal(events, models) is None,
        },
{
    if ends_stream(events.last()) {
        assert(events.drop_last().push(events.last()) =~= events);
    }
}

/// Before the first event nothing is counted and no slot is there, and what may be
/// emitted is what the policy says.
pub proof fn lemma_first_state(policy: DecoderPolicy)
    ensures
        ({
            let first = first_events(policy);
            &&& is_consistent(first)
            &&& first.proof_supported == policy.proof_supported
            &&& first.tool_names == strings_of(policy.tool_names@)
            &&& first.reported_models == strings_of(policy.reported_models@)
            &&& first.call_ids.len() == 0
            &&& first.current is None
            &&& first.event_count == 0 && first.event_charge == 0
            &&& first.proof_bytes == 0 && first.tool_bytes == 0
            &&& first.complete_calls == 0
            &&& !first.terminal_seen
        }),
{
}

} // verus!
