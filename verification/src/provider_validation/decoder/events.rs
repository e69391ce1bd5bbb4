//! Stateful validation of normalized decoder events.

use vstd::prelude::*;

use crate::provider_api::{
    CompletionReason, CompletionTerminal, NormalizedEvent, ReasoningKind, ToolArgumentsDelta,
    ToolCallEnd, ToolCallStart,
};
use crate::provider_validation::decoder::tool_json::{arguments_verdict, validate_tool_arguments};
use crate::provider_validation::decoder::{
    batch_verdict, event_verdict, pull_limit_verdict, validate_event_batch,
    validate_normalized_event, validate_pull_limit, DecoderPolicy,
};
use crate::provider_validation::{also, verdict, ValidationError, ValidationResult};
use crate::text::byte_len;

verus! {

/// Largest number of events of one decoder.
pub const MAX_EVENTS: u64 = 65_536;

/// Largest charge of all events of one decoder: eight mebibytes.
pub const MAX_CUMULATIVE_EVENT_CHARGE: u64 = 8_388_608;

/// Largest total of proof bytes: 256 kibibytes.
pub const MAX_PROOF_BYTES: u64 = 262_144;

/// Largest number of argument deltas of one tool call.
pub const MAX_TOOL_DELTAS: u32 = 16_384;

/// Largest argument text of one tool call: one mebibyte.
pub const MAX_TOOL_BYTES: u64 = 1_048_576;

/// Largest argument text of all tool calls: two mebibytes.
pub const MAX_ALL_TOOL_BYTES: u64 = 2_097_152;

/// The kind of a reasoning slot.
#[derive(Debug, Clone, Copy, PartialEq, Eq, Structural)]
pub enum ReasoningTag {
    Thinking,
    Summary,
}

/// The class of a content delta.
#[derive(Debug, Clone, Copy, PartialEq, Eq, Structural)]
pub enum ContentClass {
    Text,
    Reasoning,
}

/// A tool call that is being received, or a complete one.
#[derive(Debug)]
pub enum ToolState {
    Open { call_id: String, delta_count: u32, bytes: u64, arguments: String },
    Sealed,
}

/// What a content slot holds.
#[derive(Debug)]
pub enum ContentKind {
    Text,
    Reasoning { kind: ReasoningTag, proof_seen: bool },
    Tool(ToolState),
}

/// The content slot that is being received.
#[derive(Debug)]
pub struct ContentSlot {
    pub index: u8,
    pub kind: ContentKind,
}

/// The accepted events of a batch and its terminal event.
#[derive(Debug)]
pub struct EventBatch {
    pub accepted: Vec<NormalizedEvent>,
    pub terminal: Option<NormalizedEvent>,
}

/// The reducer over all events of one decoder.
#[derive(Debug)]
pub struct EventReducer {
    pub proof_supported: bool,
    pub tool_names: Vec<String>,
    pub reported_models: Vec<String>,
    pub call_ids: Vec<String>,
    pub current: Option<ContentSlot>,
    pub event_count: u64,
    pub event_charge: u64,
    pub proof_bytes: u64,
    pub tool_bytes: u64,
    pub complete_calls: u32,
    pub terminal_seen: bool,
}

/// What a content slot holds, over texts.
pub enum SlotKind {
    Text,
    Reasoning { kind: ReasoningTag, proof_seen: bool },
    Open { call_id: Seq<char>, delta_count: int, bytes: int, arguments: Seq<char> },
    Sealed,
}

/// A content slot, over texts.
pub struct Slot {
    pub index: u8,
    pub kind: SlotKind,
}

/// The state of the event reducer, over texts.
pub struct EventState {
    pub proof_supported: bool,
    pub tool_names: Seq<Seq<char>>,
    pub reported_models: Seq<Seq<char>>,
    pub call_ids: Seq<Seq<char>>,
    pub current: Option<Slot>,
    pub event_count: int,
    pub event_charge: int,
    pub proof_bytes: int,
    pub tool_bytes: int,
    pub complete_calls: int,
    pub terminal_seen: bool,
}

/// The texts of a list of strings.
pub open spec fn strings_of(values: Seq<String>) -> Seq<Seq<char>> {
    values.map_values(|value: String| value@)
}

impl View for ContentKind {
    type V = SlotKind;

    open spec fn view(&self) -> SlotKind {
        match *self {
            ContentKind::Text => SlotKind::Text,
            ContentKind::Reasoning { kind, proof_seen } => SlotKind::Reasoning { kind, proof_seen },
            ContentKind::Tool(
                ToolState::Open { call_id, delta_count, bytes, arguments },
            ) => SlotKind::Open {
                call_id: call_id@,
                delta_count: delta_count as int,
                bytes: bytes as int,
                arguments: arguments@,
            },
            ContentKind::Tool(ToolState::Sealed) => SlotKind::Sealed,
        }
    }
}

impl View for ContentSlot {
    type V = Slot;

    open spec fn view(&self) -> Slot {
        Slot { index: self.index, kind: self.kind@ }
    }
}

impl View for EventReducer {
    type V = EventState;

    open spec fn view(&self) -> EventState {
        EventState {
            proof_supported: self.proof_supported,
            tool_names: strings_of(self.tool_names@),
            reported_models: strings_of(self.reported_models@),
            call_ids: strings_of(self.call_ids@),
            current: match self.current {
                None => None,
                Some(slot) => Some(slot@),
            },
            event_count: self.event_count as int,
            event_charge: self.event_charge as int,
            proof_bytes: self.proof_bytes as int,
            tool_bytes: self.tool_bytes as int,
            complete_calls: self.complete_calls as int,
            terminal_seen: self.terminal_seen,
        }
    }
}

/// Whether a list holds a text.
pub fn holds_string(values: &[String], text: &String) -> (found: bool)
    ensures
        found == strings_of(values@).contains(text@),
{
    let mut i: usize = 0;
    while i < values.len()
        invariant
            i <= values@.len(),
            forall|j: int| 0 <= j < i ==> (#[trigger] strings_of(values@)[j]) != text@,
        decreases values.len() - i,
    {
        assert(strings_of(values@)[i as int] == values@[i as int]@);
        if values[i] == *text {
            return true;
        }
        i += 1;
    }
    false
}

fn copy_strings(values: &[String]) -> (copy: Vec<String>)
    ensures
        strings_of(copy@) == strings_of(values@),
{
    let mut copy: Vec<String> = Vec::new();
    let mut i: usize = 0;
    while i < values.len()
        invariant
            i <= values@.len(),
            strings_of(copy@) == strings_of(values@).take(i as int),
        decreases values.len() - i,
    {
        let ghost before = strings_of(copy@);
        let text = values[i].clone();
        assert(text@ == strings_of(values@)[i as int]);
        copy.push(text);
        assert(strings_of(copy@) =~= before.push(text@));
        assert(strings_of(copy@) =~= strings_of(values@).take(i as int + 1));
        i += 1;
    }
    assert(strings_of(values@).take(i as int) =~= strings_of(values@));
    assert(strings_of(copy@) =~= strings_of(values@));
    copy
}

// ---------------------------------------------------------------------------
// Slots
// ---------------------------------------------------------------------------

/// The tag of a reasoning kind.
pub open spec fn tag_of(kind: ReasoningKind) -> ReasoningTag {
    match kind {
        ReasoningKind::Thinking => ReasoningTag::Thinking,
        ReasoningKind::Summary => ReasoningTag::Summary,
    }
}

/// The tag of a reasoning kind.
pub fn reasoning_tag(kind: &ReasoningKind) -> (tag: ReasoningTag)
    ensures
        tag == tag_of(*kind),
{
    match kind {
        ReasoningKind::Thinking => ReasoningTag::Thinking,
        ReasoningKind::Summary => ReasoningTag::Summary,
    }
}

/// An event that ends a stream.
pub open spec fn ends_stream(event: NormalizedEvent) -> bool {
    event is Completed || event is Failed
}

/// Whether an event ends a stream.
pub fn is_terminal(event: &NormalizedEvent) -> (terminal: bool)
    ensures
        terminal == ends_stream(*event),
{
    matches!(event, NormalizedEvent::Completed(_) | NormalizedEvent::Failed(_))
}

/// The kind of a new slot: text without a tag, or reasoning with one.
pub open spec fn new_kind(
    class: ContentClass,
    reasoning: Option<ReasoningTag>,
) -> ValidationResult<SlotKind> {
    match (class, reasoning) {
        (ContentClass::Text, None) => Ok(SlotKind::Text),
        (ContentClass::Reasoning, Some(kind)) => Ok(
            SlotKind::Reasoning { kind, proof_seen: false },
        ),
        _ => Err(ValidationError::InvalidArgument),
    }
}

/// The content of a new slot.
pub fn new_content_kind(class: ContentClass, reasoning: Option<ReasoningTag>) -> (result:
    ValidationResult<ContentKind>)
    ensures
        match result {
            Ok(kind) => new_kind(class, reasoning) == ValidationResult::<SlotKind>::Ok(kind@),
            Err(error) => new_kind(class, reasoning) == ValidationResult::<SlotKind>::Err(error),
        },
{
    match (class, reasoning) {
        (ContentClass::Text, None) => Ok(ContentKind::Text),
        (ContentClass::Reasoning, Some(kind)) => Ok(
            ContentKind::Reasoning { kind, proof_seen: false },
        ),
        _ => Err(ValidationError::InvalidArgument),
    }
}

/// The slot may be left for the next one: it is no open tool call.
pub open spec fn advance_verdict(slot: Slot) -> ValidationResult {
    verdict(!(slot.kind is Open), ValidationError::InvalidArgument)
}

/// Refuses to leave an open tool call.
pub fn ensure_slot_can_advance(slot: &ContentSlot) -> (result: ValidationResult)
    ensures
        result == advance_verdict(slot@),
{
    if matches!(slot.kind, ContentKind::Tool(ToolState::Open { .. })) {
        return Err(ValidationError::InvalidArgument);
    }
    Ok(())
}

/// A content delta continues the current slot of its class and tag, or opens
/// the next slot.
pub open spec fn content_step(
    state: EventState,
    index: u8,
    class: ContentClass,
    reasoning: Option<ReasoningTag>,
) -> (EventState, ValidationResult) {
    let opened = match new_kind(class, reasoning) {
        Ok(kind) => (EventState { current: Some(Slot { index, kind }), ..state }, Ok(())),
        Err(error) => (state, Err(error)),
    };
    let refused = (state, ValidationResult::<()>::Err(ValidationError::InvalidArgument));
    match state.current {
        None => if index == 0 {
            opened
        } else {
            refused
        },
        Some(slot) => if slot.index == index {
            match (slot.kind, class) {
                (SlotKind::Text, ContentClass::Text) => (state, Ok(())),
                (SlotKind::Reasoning { kind, .. }, ContentClass::Reasoning) => (
                    state,
                    verdict(Some(kind) == reasoning, ValidationError::InvalidArgument),
                ),
                _ => refused,
            }
        } else if slot.index + 1 == index && !(slot.kind is Open) {
            opened
        } else {
            refused
        },
    }
}

/// A proof belongs to the current reasoning slot, which has none yet. Its bytes
/// are counted before the total is held against its bound.
pub open spec fn proof_step(
    state: EventState,
    index: u8,
    kind: ReasoningTag,
    bytes: int,
) -> (EventState, ValidationResult) {
    let total = state.proof_bytes + bytes;
    match state.current {
        Some(Slot { index: current, kind: SlotKind::Reasoning { kind: tag, proof_seen } }) if state.proof_supported
            && current == index && tag == kind && !proof_seen => if total > u64::MAX {
            (state, Err(ValidationError::Limit))
        } else if total > MAX_PROOF_BYTES {
            (EventState { proof_bytes: total, ..state }, Err(ValidationError::Limit))
        } else {
            (
                EventState {
                    proof_bytes: total,
                    current: Some(
                        Slot { index, kind: SlotKind::Reasoning { kind: tag, proof_seen: true } },
                    ),
                    ..state
                },
                Ok(()),
            )
        },
        _ => (state, Err(ValidationError::InvalidArgument)),
    }
}

/// A tool call opens the next slot; its tool is permitted and its identifier
/// is new.
pub open spec fn start_step(state: EventState, start: ToolCallStart) -> (
    EventState,
    ValidationResult,
) {
    let next = match state.current {
        None => start.content_index == 0,
        Some(slot) => slot.index + 1 == start.content_index && !(slot.kind is Open),
    };
    if state.tool_names.contains(start.name@) && !state.call_ids.contains(start.call_id@) && next {
        (
            EventState {
                call_ids: state.call_ids.push(start.call_id@),
                current: Some(
                    Slot {
                        index: start.content_index,
                        kind: SlotKind::Open {
                            call_id: start.call_id@,
                            delta_count: 0,
                            bytes: 0,
                            arguments: Seq::empty(),
                        },
                    },
                ),
                ..state
            },
            Ok(()),
        )
    } else {
        (state, Err(ValidationError::InvalidArgument))
    }
}

/// An argument delta extends the open call of its index and identifier.
pub open spec fn delta_step(state: EventState, delta: ToolArgumentsDelta) -> (
    EventState,
    ValidationResult,
) {
    let size = byte_len(delta.delta@) as int;
    match state.current {
        Some(
            Slot { index, kind: SlotKind::Open { call_id, delta_count, bytes, arguments } },
        ) if index == delta.content_index && call_id == delta.call_id@ => if delta_count + 1
            > MAX_TOOL_DELTAS || bytes + size > MAX_TOOL_BYTES || state.tool_bytes + size
            > MAX_ALL_TOOL_BYTES {
            (state, Err(ValidationError::Limit))
        } else {
            (
                EventState {
                    tool_bytes: state.tool_bytes + size,
                    current: Some(
                        Slot {
                            index,
                            kind: SlotKind::Open {
                                call_id,
                                delta_count: delta_count + 1,
                                bytes: bytes + size,
                                arguments: arguments + delta.delta@,
                            },
                        },
                    ),
                    ..state
                },
                Ok(()),
            )
        },
        _ => (state, Err(ValidationError::InvalidArgument)),
    }
}

/// A call ends when it has arguments and they are valid. It is sealed before
/// it is counted.
pub open spec fn end_step(state: EventState, end: ToolCallEnd) -> (EventState, ValidationResult) {
    match state.current {
        Some(Slot { index, kind: SlotKind::Open { call_id, delta_count, arguments, .. } }) if index
            == end.content_index && call_id == end.call_id@ && delta_count > 0 => match arguments_verdict(
            arguments,
        ) {
            Err(error) => (state, Err(error)),
            Ok(()) => {
                let sealed = EventState {
                    current: Some(Slot { index, kind: SlotKind::Sealed }),
                    ..state
                };
                if state.complete_calls + 1 > u32::MAX {
                    (sealed, Err(ValidationError::Limit))
                } else {
                    (
                        EventState { complete_calls: state.complete_calls + 1, ..sealed },
                        Ok(()),
                    )
                }
            },
        },
        _ => (state, Err(ValidationError::InvalidArgument)),
    }
}

/// No tool call is open.
pub open spec fn no_open_tool(state: EventState) -> bool {
    state.current matches Some(slot) ==> !(slot.kind is Open)
}

/// A completion comes with no open call, and for tool use exactly when a call
/// is complete.
pub open spec fn completed_verdict(state: EventState, reason: CompletionReason) -> ValidationResult {
    verdict(
        no_open_tool(state) && (reason is ToolUse <==> state.complete_calls > 0),
        ValidationError::InvalidArgument,
    )
}

/// Adding to the total charge, which is then held against its bound.
pub open spec fn charge_step(state: EventState, charge: int) -> (EventState, ValidationResult) {
    let total = state.event_charge + charge;
    if total > u64::MAX {
        (state, Err(ValidationError::Limit))
    } else {
        (
            EventState { event_charge: total, ..state },
            verdict(total <= MAX_CUMULATIVE_EVENT_CHARGE, ValidationError::Limit),
        )
    }
}

/// Adding to the number of events, which is then held against its bound.
pub open spec fn count_step(state: EventState, count: int) -> (EventState, ValidationResult) {
    let total = state.event_count + count;
    if total > u64::MAX {
        (state, Err(ValidationError::Limit))
    } else {
        (
            EventState { event_count: total, ..state },
            verdict(total <= MAX_EVENTS, ValidationError::Limit),
        )
    }
}

/// A terminal event, if the verdict on it allows.
pub open spec fn terminal_step(state: EventState, allowed: ValidationResult) -> (
    EventState,
    ValidationResult,
) {
    match allowed {
        Ok(()) => (EventState { terminal_seen: true, ..state }, Ok(())),
        Err(error) => (state, Err(error)),
    }
}

/// What an event does once it is valid and charged.
pub open spec fn effect_step(state: EventState, event: NormalizedEvent) -> (
    EventState,
    ValidationResult,
) {
    match event {
        NormalizedEvent::TextDelta(delta) => content_step(
            state,
            delta.content_index,
            ContentClass::Text,
            None,
        ),
        NormalizedEvent::ReasoningDelta(delta) => content_step(
            state,
            delta.content_index,
            ContentClass::Reasoning,
            Some(tag_of(delta.kind)),
        ),
        NormalizedEvent::ReasoningProof(proof) => proof_step(
            state,
            proof.content_index,
            tag_of(proof.kind),
            proof.proof@.len() as int,
        ),
        NormalizedEvent::ToolCallStart(start) => start_step(state, start),
        NormalizedEvent::ToolArgumentsDelta(delta) => delta_step(state, delta),
        NormalizedEvent::ToolCallEnd(end) => end_step(state, end),
        NormalizedEvent::Completed(completed) => terminal_step(
            state,
            completed_verdict(state, completed.reason),
        ),
        NormalizedEvent::Failed(_) => terminal_step(
            state,
            verdict(no_open_tool(state), ValidationError::InvalidArgument),
        ),
    }
}

/// One event of a successful response.
#[verifier::opaque]
pub open spec fn event_step(state: EventState, event: NormalizedEvent) -> (
    EventState,
    ValidationResult,
) {
    match event_verdict(event) {
        Err(error) => (state, Err(error)),
        Ok(charge) => {
            let charged = charge_step(state, charge as int);
            if charged.1 is Err {
                charged
            } else {
                effect_step(charged.0, event)
            }
        },
    }
}

/// The events of a successful response from position `i` on, up to the first
/// that is refused.
pub open spec fn events_step(
    state: EventState,
    events: Seq<NormalizedEvent>,
    i: int,
) -> (EventState, ValidationResult)
    decreases events.len() - i,
{
    if i >= events.len() {
        (state, Ok(()))
    } else {
        let next = event_step(state, events[i]);
        if next.1 is Err {
            next
        } else {
            events_step(next.0, events, i + 1)
        }
    }
}

/// A terminal event is the last of its batch, comes after the end of the
/// response, and comes once.
pub open spec fn terminal_position_verdict(
    state: EventState,
    events: Seq<NormalizedEvent>,
    after_end: bool,
) -> ValidationResult {
    verdict(
        !state.terminal_seen && forall|i: int|
            0 <= i < events.len() && ends_stream(#[trigger] events[i]) ==> after_end && i
                == events.len() - 1,
        ValidationError::InvalidArgument,
    )
}

/// A batch of a response without success: exactly one failure, after the end.
pub open spec fn error_batch_step(
    state: EventState,
    events: Seq<NormalizedEvent>,
    after_end: bool,
) -> (EventState, ValidationResult) {
    if !after_end || events.len() != 1 || !(events[0] is Failed) {
        (state, Err(ValidationError::InvalidArgument))
    } else {
        let counted = count_step(state, 1);
        if counted.1 is Err {
            counted
        } else {
            match event_verdict(events[0]) {
                Err(error) => (counted.0, Err(error)),
                Ok(charge) => {
                    let charged = charge_step(counted.0, charge as int);
                    terminal_step(charged.0, charged.1)
                },
            }
        }
    }
}

/// The verdict on the number of events in the answer to a pull: a guest that
/// returns more than it was asked for breaks the protocol.
pub open spec fn shape_verdict(events: Seq<NormalizedEvent>, limit: u8) -> ValidationResult {
    also(
        pull_limit_verdict(limit),
        verdict(events.len() <= limit, ValidationError::InvalidArgument),
    )
}

/// A whole batch.
pub open spec fn batch_step(
    state: EventState,
    events: Seq<NormalizedEvent>,
    limit: u8,
    after_end: bool,
    successful: bool,
) -> (EventState, ValidationResult) {
    match also(
        shape_verdict(events, limit),
        also(batch_verdict(events, limit), terminal_position_verdict(state, events, after_end)),
    ) {
        Err(error) => (state, Err(error)),
        Ok(()) => if !successful {
            error_batch_step(state, events, after_end)
        } else {
            let counted = count_step(state, events.len() as int);
            if counted.1 is Err {
                counted
            } else {
                events_step(counted.0, events, 0)
            }
        },
    }
}

/// The events of a batch that a consumer receives: all but the terminal one.
pub open spec fn accepted_events(events: Seq<NormalizedEvent>) -> Seq<NormalizedEvent> {
    if events.len() > 0 && ends_stream(events.last()) {
        events.drop_last()
    } else {
        events
    }
}

/// The terminal event as it is published: a model that may not be reported is
/// left out.
pub open spec fn published(event: NormalizedEvent, models: Seq<Seq<char>>) -> NormalizedEvent {
    match event {
        NormalizedEvent::Completed(completed) => match completed.reported_model {
            Some(model) if !models.contains(model.text@) => NormalizedEvent::Completed(
                CompletionTerminal { reported_model: None, ..completed },
            ),
            _ => event,
        },
        _ => event,
    }
}

/// The terminal event of a batch, as it is published.
pub open spec fn batch_terminal(
    events: Seq<NormalizedEvent>,
    models: Seq<Seq<char>>,
) -> Option<NormalizedEvent> {
    if events.len() > 0 && ends_stream(events.last()) {
        Some(published(events.last(), models))
    } else {
        None
    }
}

/// The state before the first event.
pub open spec fn first_events(policy: DecoderPolicy) -> EventState {
    EventState {
        proof_supported: policy.proof_supported,
        tool_names: strings_of(policy.tool_names@),
        reported_models: strings_of(policy.reported_models@),
        call_ids: Seq::empty(),
        current: None,
        event_count: 0,
        event_charge: 0,
        proof_bytes: 0,
        tool_bytes: 0,
        complete_calls: 0,
        terminal_seen: false,
    }
}

impl EventReducer {
    /// A step had the given result and led to this state.
    pub open spec fn reached<T>(
        self,
        result: ValidationResult<T>,
        step: (EventState, ValidationResult),
    ) -> bool {
        &&& self@ == step.0
        &&& match result {
            Ok(_) => step.1 == ValidationResult::<()>::Ok(()),
            Err(error) => step.1 == ValidationResult::<()>::Err(error),
        }
    }

    /// A reducer before the first event.
    pub fn new(policy: &DecoderPolicy) -> (reducer: Self)
        ensures
            reducer@ == first_events(*policy),
    {
        let call_ids: Vec<String> = Vec::new();
        assert(strings_of(call_ids@) =~= Seq::empty());
        Self {
            proof_supported: policy.proof_supported,
            tool_names: copy_strings(policy.tool_names.as_slice()),
            reported_models: copy_strings(policy.reported_models.as_slice()),
            call_ids,
            current: None,
            event_count: 0,
            event_charge: 0,
            proof_bytes: 0,
            tool_bytes: 0,
            complete_calls: 0,
            terminal_seen: false,
        }
    }

    /// Seeds the cumulative counters.
    pub fn set_cumulative_usage_for_test(&mut self, event_count: u64, event_charge: u64)
        requires
            event_count <= MAX_EVENTS,
            event_charge <= MAX_CUMULATIVE_EVENT_CHARGE,
        ensures
            final(self)@ == (EventState {
                event_count: event_count as int,
                event_charge: event_charge as int,
                ..old(self)@
            }),
    {
        self.event_count = event_count;
        self.event_charge = event_charge;
    }

    /// Selects the slot of a content delta.
    pub fn select_content(
        &mut self,
        index: u8,
        class: ContentClass,
        reasoning: Option<ReasoningTag>,
    ) -> (result: ValidationResult)
        ensures
            final(self).reached(result, content_step(old(self)@, index, class, reasoning)),
    {
        let open_next = match &self.current {
            None => {
                if index != 0 {
                    return Err(ValidationError::InvalidArgument);
                }
                true
            },
            Some(current) => {
                if current.index == index {
                    match (&current.kind, class) {
                        (ContentKind::Text, ContentClass::Text) => {},
                        (ContentKind::Reasoning { kind, .. }, ContentClass::Reasoning) => {
                            let same = match reasoning {
                                Some(tag) => tag == *kind,
                                None => false,
                            };
                            if !same {
                                return Err(ValidationError::InvalidArgument);
                            }
                        },
                        _ => {
                            return Err(ValidationError::InvalidArgument);
                        },
                    }
                    false
                } else {
                    if current.index == 255 || current.index + 1 != index {
                        return Err(ValidationError::InvalidArgument);
                    }
                    ensure_slot_can_advance(current)?;
                    true
                }
            },
        };
        if open_next {
            let kind = new_content_kind(class, reasoning)?;
            self.current = Some(ContentSlot { index, kind });
        }
        Ok(())
    }

    /// Accepts a proof for the current reasoning slot.
    pub fn accept_proof(&mut self, index: u8, kind: ReasoningTag, bytes: usize) -> (result:
        ValidationResult)
        ensures
            final(self).reached(result, proof_step(old(self)@, index, kind, bytes as int)),
    {
        if !self.proof_supported {
            return Err(ValidationError::InvalidArgument);
        }
        match &self.current {
            Some(
                ContentSlot {
                    index: current_index,
                    kind: ContentKind::Reasoning { kind: current_kind, proof_seen },
                },
            ) => {
                if *current_index != index || *current_kind != kind || *proof_seen {
                    return Err(ValidationError::InvalidArgument);
                }
            },
            _ => {
                return Err(ValidationError::InvalidArgument);
            },
        }
        match self.proof_bytes.checked_add(bytes as u64) {
            Some(total) => {
                self.proof_bytes = total;
            },
            None => {
                return Err(ValidationError::Limit);
            },
        }
        if self.proof_bytes > MAX_PROOF_BYTES {
            return Err(ValidationError::Limit);
        }
        self.current = Some(
            ContentSlot { index, kind: ContentKind::Reasoning { kind, proof_seen: true } },
        );
        Ok(())
    }

    /// Opens a tool call.
    pub fn start_tool(&mut self, start: &ToolCallStart) -> (result: ValidationResult)
        ensures
            final(self).reached(result, start_step(old(self)@, *start)),
    {
        if !holds_string(self.tool_names.as_slice(), &start.name) || holds_string(
            self.call_ids.as_slice(),
            &start.call_id,
        ) {
            return Err(ValidationError::InvalidArgument);
        }
        let next = match &self.current {
            None => start.content_index == 0,
            Some(current) => current.index != 255 && current.index + 1 == start.content_index
                && ensure_slot_can_advance(current).is_ok(),
        };
        if !next {
            return Err(ValidationError::InvalidArgument);
        }
        let ghost before = self@;
        self.call_ids.push(start.call_id.clone());
        self.current = Some(
            ContentSlot {
                index: start.content_index,
                kind: ContentKind::Tool(
                    ToolState::Open {
                        call_id: start.call_id.clone(),
                        delta_count: 0,
                        bytes: 0,
                        arguments: String::new(),
                    },
                ),
            },
        );
        assert(strings_of(self.call_ids@) =~= before.call_ids.push(start.call_id@));
        Ok(())
    }

    /// Extends the open tool call.
    pub fn append_tool_delta(&mut self, delta: &ToolArgumentsDelta) -> (result: ValidationResult)
        ensures
            final(self).reached(result, delta_step(old(self)@, *delta)),
    {
        let size: u64 = delta.delta.as_str().as_bytes().len() as u64;
        let (count, own, total): (u32, u64, u64) = match &self.current {
            Some(
                ContentSlot {
                    index,
                    kind: ContentKind::Tool(ToolState::Open { call_id, delta_count, bytes, .. }),
                },
            ) => {
                if *index != delta.content_index || *call_id != delta.call_id {
                    return Err(ValidationError::InvalidArgument);
                }
                match (
                    delta_count.checked_add(1),
                    bytes.checked_add(size),
                    self.tool_bytes.checked_add(size),
                ) {
                    (Some(count), Some(own), Some(total)) => (count, own, total),
                    _ => {
                        return Err(ValidationError::Limit);
                    },
                }
            },
            _ => {
                return Err(ValidationError::InvalidArgument);
            },
        };
        if count > MAX_TOOL_DELTAS || own > MAX_TOOL_BYTES || total > MAX_ALL_TOOL_BYTES {
            return Err(ValidationError::Limit);
        }
        match self.current.take() {
            Some(
                ContentSlot {
                    index,
                    kind: ContentKind::Tool(ToolState::Open { call_id, arguments, .. }),
                },
            ) => {
                let mut arguments = arguments;
                arguments.push_str(delta.delta.as_str());
                self.current = Some(
                    ContentSlot {
                        index,
                        kind: ContentKind::Tool(
                            ToolState::Open { call_id, delta_count: count, bytes: own, arguments },
                        ),
                    },
                );
                self.tool_bytes = total;
                Ok(())
            },
            other => {
                self.current = other;
                Err(ValidationError::InvalidArgument)
            },
        }
    }

    /// Ends the open tool call.
    pub fn end_tool(&mut self, end: &ToolCallEnd) -> (result: ValidationResult)
        ensures
            final(self).reached(result, end_step(old(self)@, *end)),
    {
        let index: u8 = match &self.current {
            Some(
                ContentSlot {
                    index,
                    kind: ContentKind::Tool(
                        ToolState::Open { call_id, delta_count, arguments, .. },
                    ),
                },
            ) => {
                if *index != end.content_index || *call_id != end.call_id || *delta_count == 0 {
                    return Err(ValidationError::InvalidArgument);
                }
                validate_tool_arguments(arguments.as_str())?;
                *index
            },
            _ => {
                return Err(ValidationError::InvalidArgument);
            },
        };
        self.current = Some(ContentSlot { index, kind: ContentKind::Tool(ToolState::Sealed) });
        match self.complete_calls.checked_add(1) {
            Some(count) => {
                self.complete_calls = count;
                Ok(())
            },
            None => Err(ValidationError::Limit),
        }
    }

    /// Refuses to end the stream while a tool call is open.
    pub fn reject_open_tool(&self) -> (result: ValidationResult)
        ensures
            result == verdict(no_open_tool(self@), ValidationError::InvalidArgument),
    {
        match &self.current {
            Some(ContentSlot { index: _, kind: ContentKind::Tool(ToolState::Open { .. }) }) => Err(
                ValidationError::InvalidArgument,
            ),
            _ => Ok(()),
        }
    }

    /// Checks the reason of a completion.
    pub fn accept_completed(&self, reason: &CompletionReason) -> (result: ValidationResult)
        ensures
            result == completed_verdict(self@, *reason),
    {
        self.reject_open_tool()?;
        let tool_use = matches!(reason, CompletionReason::ToolUse);
        if tool_use != (self.complete_calls > 0) {
            return Err(ValidationError::InvalidArgument);
        }
        Ok(())
    }

    fn add_charge(&mut self, charge: u64) -> (result: ValidationResult)
        ensures
            final(self).reached(result, charge_step(old(self)@, charge as int)),
    {
        match self.event_charge.checked_add(charge) {
            Some(total) => {
                self.event_charge = total;
            },
            None => {
                return Err(ValidationError::Limit);
            },
        }
        if self.event_charge > MAX_CUMULATIVE_EVENT_CHARGE {
            return Err(ValidationError::Limit);
        }
        Ok(())
    }

    fn reduce_event(&mut self, event: &NormalizedEvent) -> (result: ValidationResult)
        ensures
            final(self).reached(result, event_step(old(self)@, *event)),
            final(self)@.reported_models == old(self)@.reported_models,
    {
        reveal(event_step);
        let charge: u64 = validate_normalized_event(event)?;
        self.add_charge(charge)?;
        match event {
            NormalizedEvent::TextDelta(delta) => self.select_content(
                delta.content_index,
                ContentClass::Text,
                None,
            ),
            NormalizedEvent::ReasoningDelta(delta) => self.select_content(
                delta.content_index,
                ContentClass::Reasoning,
                Some(reasoning_tag(&delta.kind)),
            ),
            NormalizedEvent::ReasoningProof(evidence) => self.accept_proof(
                evidence.content_index,
                reasoning_tag(&evidence.kind),
                evidence.proof.len(),
            ),
            NormalizedEvent::ToolCallStart(start) => self.start_tool(start),
            NormalizedEvent::ToolArgumentsDelta(delta) => self.append_tool_delta(delta),
            NormalizedEvent::ToolCallEnd(end) => self.end_tool(end),
            NormalizedEvent::Completed(completed) => {
                self.accept_completed(&completed.reason)?;
                self.terminal_seen = true;
                Ok(())
            },
            NormalizedEvent::Failed(_) => {
                self.reject_open_tool()?;
                self.terminal_seen = true;
                Ok(())
            },
        }
    }

    /// Checks where terminal events stand in a batch.
    pub fn validate_terminal_position(&self, events: &[NormalizedEvent], after_end: bool) -> (result:
        ValidationResult)
        ensures
            result == terminal_position_verdict(self@, events@, after_end),
    {
        if self.terminal_seen {
            return Err(ValidationError::InvalidArgument);
        }
        let mut i: usize = 0;
        while i < events.len()
            invariant
                i <= events@.len(),
                !self.terminal_seen,
                forall|j: int|
                    0 <= j < i && ends_stream(#[trigger] events@[j]) ==> after_end && j
                        == events@.len() - 1,
            decreases events.len() - i,
        {
            if is_terminal(&events[i]) && (!after_end || i != events.len() - 1) {
                assert(ends_stream(events@[i as int]));
                return Err(ValidationError::InvalidArgument);
            }
            i += 1;
        }
        Ok(())
    }

    /// Reduces a batch of a response without success.
    pub fn reduce_error_batch(&mut self, events: Vec<NormalizedEvent>, after_end: bool) -> (result:
        ValidationResult<EventBatch>)
        ensures
            final(self).reached(result, error_batch_step(old(self)@, events@, after_end)),
            result matches Ok(batch) ==> batch.accepted@ == Seq::<NormalizedEvent>::empty()
                && batch.terminal == Some(events@[0]),
    {
        let mut events = events;
        if !after_end || events.len() != 1 || !matches!(events[0], NormalizedEvent::Failed(_)) {
            return Err(ValidationError::InvalidArgument);
        }
        match self.event_count.checked_add(1) {
            Some(count) => {
                self.event_count = count;
            },
            None => {
                return Err(ValidationError::Limit);
            },
        }
        if self.event_count > MAX_EVENTS {
            return Err(ValidationError::Limit);
        }
        let charge: u64 = validate_normalized_event(&events[0])?;
        self.add_charge(charge)?;
        self.terminal_seen = true;
        Ok(EventBatch { accepted: Vec::new(), terminal: events.pop() })
    }

    fn publish(&self, event: NormalizedEvent) -> (terminal: NormalizedEvent)
        ensures
            terminal == published(event, self@.reported_models),
    {
        match event {
            NormalizedEvent::Completed(completed) => {
                let hidden = match &completed.reported_model {
                    Some(model) => !holds_string(self.reported_models.as_slice(), &model.text),
                    None => false,
                };
                if hidden {
                    NormalizedEvent::Completed(
                        CompletionTerminal {
                            reason: completed.reason,
                            reported_model: None,
                            usage: completed.usage,
                        },
                    )
                } else {
                    NormalizedEvent::Completed(completed)
                }
            },
            other => other,
        }
    }

    /// Reduces a batch of events. The batch is accepted as a whole or refused.
    pub fn reduce_batch(
        &mut self,
        events: Vec<NormalizedEvent>,
        limit: u8,
        after_end: bool,
        successful_status: bool,
    ) -> (result: ValidationResult<EventBatch>)
        ensures
            final(self).reached(
                result,
                batch_step(old(self)@, events@, limit, after_end, successful_status),
            ),
            result matches Ok(batch) ==> batch.accepted@ == accepted_events(events@)
                && batch.terminal == batch_terminal(events@, old(self)@.reported_models),
    {
        let ghost all = events@;
        let ghost start = self@;
        validate_pull_limit(limit)?;
        if events.len() > limit as usize {
            return Err(ValidationError::InvalidArgument);
        }
        validate_event_batch(events.as_slice(), limit)?;
        self.validate_terminal_position(events.as_slice(), after_end)?;
        if !successful_status {
            let result = self.reduce_error_batch(events, after_end);
            proof {
                if result is Ok {
                    assert(accepted_events(all) =~= Seq::empty());
                }
            }
            return result;
        }
        match self.event_count.checked_add(events.len() as u64) {
            Some(count) => {
                self.event_count = count;
            },
            None => {
                return Err(ValidationError::Limit);
            },
        }
        if self.event_count > MAX_EVENTS {
            return Err(ValidationError::Limit);
        }
        let ghost expected = batch_step(start, all, limit, after_end, successful_status);
        let mut i: usize = 0;
        while i < events.len()
            invariant
                i <= events@.len(),
                events@ == all,
                start == old(self)@,
                expected == batch_step(start, all, limit, after_end, successful_status),
                expected == events_step(self@, all, i as int),
                self@.reported_models == start.reported_models,
            decreases events.len() - i,
        {
            self.reduce_event(&events[i])?;
            i += 1;
        }
        let last: usize = events.len() - 1;
        let mut events = events;
        if is_terminal(&events[last]) {
            match events.pop() {
                Some(event) => {
                    assert(events@ =~= all.drop_last());
                    let terminal = self.publish(event);
                    Ok(EventBatch { accepted: events, terminal: Some(terminal) })
                },
                None => Ok(EventBatch { accepted: events, terminal: None }),
            }
        } else {
            Ok(EventBatch { accepted: events, terminal: None })
        }
    }
}

} // verus!
