//! What holds of a decoder over any sequence of answers.

use vstd::prelude::*;

use crate::provider_api::{DecoderPull, FrameAcceptance, NormalizedEvent, ProviderError};
use crate::provider_validation::decoder::events::{
    accepted_events, batch_step, batch_terminal, count_step, ends_stream,
    event_step, events_step, first_events, EventState, SlotKind, MAX_ALL_TOOL_BYTES,
    MAX_CUMULATIVE_EVENT_CHARGE, MAX_EVENTS, MAX_PROOF_BYTES, MAX_TOOL_BYTES, MAX_TOOL_DELTAS,
};
use crate::provider_validation::decoder::protocol::{
    consumer_step, external_step, first_protocol, is_reachable, is_success, next_action_step, published_step,
    pull_step, push_step, transport_step, DecoderState, ExternalClose,
    InFlight, ProtocolState, TransportReceipt,
};
use crate::provider_validation::decoder::DecoderPolicy;
use crate::text::{byte_len, lemma_encode_concat};

verus! {

// ---------------------------------------------------------------------------
// The protocol
// ---------------------------------------------------------------------------

/// What may happen to a decoder.
pub enum DecoderInput {
    NextAction,
    Pulled(Result<DecoderPull, ProviderError>),
    Received(TransportReceipt),
    Pushed(Result<FrameAcceptance, ProviderError>),
    Consumed(nat),
    Published,
    Closed(ExternalClose),
}

/// The states that an input leads to.
pub open spec fn input_step(
    state: ProtocolState,
    events: EventState,
    input: DecoderInput,
) -> (ProtocolState, EventState) {
    match input {
        DecoderInput::NextAction => (next_action_step(state).0, events),
        DecoderInput::Pulled(result) => {
            let step = pull_step(state, events, result);
            (step.0, step.2)
        },
        DecoderInput::Received(receipt) => (transport_step(state, receipt).0, events),
        DecoderInput::Pushed(result) => (push_step(state, result).0, events),
        DecoderInput::Consumed(count) => (consumer_step(state, count as int).0, events),
        DecoderInput::Published => (published_step(state).0, events),
        DecoderInput::Closed(cause) => (external_step(state, cause).0, events),
    }
}

/// The states after the first `n` inputs.
pub open spec fn after_inputs(policy: DecoderPolicy, inputs: Seq<DecoderInput>, n: int) -> (
    ProtocolState,
    EventState,
)
    decreases n,
{
    if n <= 0 {
        (first_protocol(), first_events(policy))
    } else {
        let before = after_inputs(policy, inputs, n - 1);
        input_step(before.0, before.1, inputs[n - 1])
    }
}

/// How often the terminal event was published during the first `n` inputs.
pub open spec fn publications(policy: DecoderPolicy, inputs: Seq<DecoderInput>, n: int) -> nat
    decreases n,
{
    if n <= 0 {
        0
    } else {
        let state = after_inputs(policy, inputs, n - 1).0;
        publications(policy, inputs, n - 1) + (if inputs[n - 1] is Published && published_step(
            state,
        ).1 is Ok {
            1nat
        } else {
            0nat
        })
    }
}

proof fn lemma_batch_fits(
    state: EventState,
    events: Seq<NormalizedEvent>,
    limit: u8,
    after_end: bool,
    successful: bool,
)
    requires
        batch_step(state, events, limit, after_end, successful).1 is Ok,
    ensures
        0 < events.len() <= limit,
        accepted_events(events).len() <= events.len(),
        !state.terminal_seen,
{
}

/// Every input leads from a reachable state to a reachable one: the queue, the
/// number of pulls, the data frames and the body stay within their bounds.
pub proof fn lemma_inputs_keep_bounds(
    state: ProtocolState,
    events: EventState,
    input: DecoderInput,
)
    requires
        is_reachable(state),
    ensures
        is_reachable(input_step(state, events, input).0),
{
    if let DecoderInput::Pulled(Ok(DecoderPull::Events(batch))) = input {
        if let Some(InFlight::Pull { limit }) = state.in_flight {
            let successful = is_success(state.status);
            if batch_step(events, batch@, limit, true, successful).1 is Ok {
                lemma_batch_fits(events, batch@, limit, true, successful);
            }
            if batch_step(events, batch@, limit, false, successful).1 is Ok {
                lemma_batch_fits(events, batch@, limit, false, successful);
            }
        }
    }
}

/// A closed decoder stays closed, with the same cause and terminal event, and
/// its queue only shrinks.
pub proof fn lemma_closed_is_final(state: ProtocolState, events: EventState, input: DecoderInput)
    requires
        state.state == DecoderState::Closed,
    ensures
        ({
            let next = input_step(state, events, input);
            &&& next.0.state == DecoderState::Closed
            &&& next.0.close == state.close
            &&& next.0.queue_len <= state.queue_len
            &&& next.0.pending_frame == state.pending_frame
            &&& state.terminal_published ==> next.0.terminal_published
            &&& next.1 == events
        }),
{
}

/// A closed decoder answers every receipt with its close, and accepts nothing.
pub proof fn lemma_closed_receipts_change_nothing(
    state: ProtocolState,
    events: EventState,
    pull: Result<DecoderPull, ProviderError>,
    receipt: TransportReceipt,
    push: Result<FrameAcceptance, ProviderError>,
    cause: ExternalClose,
)
    requires
        state.state == DecoderState::Closed,
    ensures
        pull_step(state, events, pull).0 == state,
        transport_step(state, receipt).0 == state,
        push_step(state, push).0 == state,
        external_step(state, cause).0 == state,
        ({
            let answer = external_step(state, cause).1;
            &&& pull_step(state, events, pull).1 == answer
            &&& transport_step(state, receipt).1 == answer
            &&& push_step(state, push).1 == answer
            &&& answer.close == state.close
            &&& !answer.transitioned
            &&& answer.accepted_events == Seq::<NormalizedEvent>::empty()
        }),
{
}

/// Every run of a decoder stays within its bounds.
pub proof fn lemma_runs_stay_bounded(policy: DecoderPolicy, inputs: Seq<DecoderInput>, n: int)
    requires
        0 <= n <= inputs.len(),
    ensures
        is_reachable(after_inputs(policy, inputs, n).0),
    decreases n,
{
    if n > 0 {
        lemma_runs_stay_bounded(policy, inputs, n - 1);
        let before = after_inputs(policy, inputs, n - 1);
        lemma_inputs_keep_bounds(before.0, before.1, inputs[n - 1]);
    }
}

/// Once a run is closed, its cause and terminal event are those of every later
/// moment.
pub proof fn lemma_runs_close_once(
    policy: DecoderPolicy,
    inputs: Seq<DecoderInput>,
    n: int,
    m: int,
)
    requires
        0 <= n <= m <= inputs.len(),
        after_inputs(policy, inputs, n).0.state == DecoderState::Closed,
    ensures
        after_inputs(policy, inputs, m).0.state == DecoderState::Closed,
        after_inputs(policy, inputs, m).0.close == after_inputs(policy, inputs, n).0.close,
    decreases m - n,
{
    if n < m {
        lemma_runs_close_once(policy, inputs, n, m - 1);
        let before = after_inputs(policy, inputs, m - 1);
        lemma_closed_is_final(before.0, before.1, inputs[m - 1]);
    }
}

/// The terminal event of a run is published at most once, and only a closed
/// decoder with an empty queue publishes it.
pub proof fn lemma_terminal_is_published_once(
    policy: DecoderPolicy,
    inputs: Seq<DecoderInput>,
    n: int,
)
    requires
        0 <= n <= inputs.len(),
    ensures
        publications(policy, inputs, n) == (if after_inputs(policy, inputs, n).0.terminal_published {
            1nat
        } else {
            0nat
        }),
        ({
            let state = after_inputs(policy, inputs, n).0;
            next_action_step(state).1 is PublishTerminal ==> {
                &&& state.queue_len == 0
                &&& !state.terminal_published
                &&& next_action_step(state).0.state == DecoderState::Closed
            }
        }),
    decreases n,
{
    lemma_runs_stay_bounded(policy, inputs, n);
    if n > 0 {
        lemma_terminal_is_published_once(policy, inputs, n - 1);
        lemma_runs_stay_bounded(policy, inputs, n - 1);
    }
}

// ---------------------------------------------------------------------------
// The events
// ---------------------------------------------------------------------------

/// What every accepted batch keeps: identifiers of calls are distinct, calls
/// that are complete were started, the totals are within their bounds, and an
/// open call knows the size of its arguments.
pub open spec fn is_consistent(state: EventState) -> bool {
    &&& state.call_ids.no_duplicates()
    &&& 0 <= state.complete_calls <= state.call_ids.len()
    &&& 0 <= state.event_count <= MAX_EVENTS
    &&& 0 <= state.event_charge <= MAX_CUMULATIVE_EVENT_CHARGE
    &&& 0 <= state.proof_bytes <= MAX_PROOF_BYTES
    &&& 0 <= state.tool_bytes <= MAX_ALL_TOOL_BYTES
    &&& state.current matches Some(slot) ==> {
        slot.kind matches SlotKind::Open { call_id, delta_count, bytes, arguments } ==> {
            &&& state.call_ids.len() > 0 && state.call_ids.last() == call_id
            &&& state.complete_calls < state.call_ids.len()
            &&& 0 <= delta_count <= MAX_TOOL_DELTAS
            &&& bytes == byte_len(arguments) && bytes <= MAX_TOOL_BYTES
        }
    }
}

/// An accepted event keeps a consistent state so. The content index stays or
/// advances by one, from zero.
pub proof fn lemma_events_keep_consistency(state: EventState, event: NormalizedEvent)
    requires
        is_consistent(state),
        event_step(state, event).1 is Ok,
        !state.terminal_seen,
    ensures
        ({
            let next = event_step(state, event).0;
            &&& is_consistent(next)
            &&& next.terminal_seen == ends_stream(event)
            &&& next.current matches Some(slot) ==> match state.current {
                None => slot.index == 0,
                Some(before) => slot.index == before.index || slot.index == before.index + 1,
            }
            &&& state.current is Some ==> next.current is Some
        }),
{
    reveal(event_step);
    if let NormalizedEvent::ToolArgumentsDelta(delta) = event {
        if let Some(slot) = state.current {
            if let SlotKind::Open { arguments, .. } = slot.kind {
                lemma_encode_concat(arguments, delta.delta@);
            }
        }
    }
}

proof fn lemma_event_runs(state: EventState, events: Seq<NormalizedEvent>, i: int)
    requires
        is_consistent(state),
        0 <= i <= events.len(),
        i < events.len() ==> !state.terminal_seen,
        forall|k: int| 0 <= k < events.len() - 1 ==> !ends_stream(#[trigger] events[k]),
        events_step(state, events, i).1 is Ok,
    ensures
        is_consistent(events_step(state, events, i).0),
        i < events.len() ==> events_step(state, events, i).0.terminal_seen == ends_stream(
            events.last(),
        ),
        i == events.len() ==> events_step(state, events, i).0 == state,
    decreases events.len() - i,
{
    if i < events.len() {
        lemma_events_keep_consistency(state, events[i]);
        lemma_event_runs(event_step(state, events[i]).0, events, i + 1);
    }
}

/// An accepted batch keeps a consistent state so. It has a terminal event
/// exactly when the stream has ended after it.
pub proof fn lemma_batches_keep_consistency(
    state: EventState,
    events: Seq<NormalizedEvent>,
    limit: u8,
    after_end: bool,
    successful: bool,
)
    requires
        is_consistent(state),
        batch_step(state, events, limit, after_end, successful).1 is Ok,
    ensures
        is_consistent(batch_step(state, events, limit, after_end, successful).0),
        batch_step(state, events, limit, after_end, successful).0.terminal_seen == (batch_terminal(
            events,
            state.reported_models,
        ) is Some),
{
    lemma_batch_fits(state, events, limit, after_end, successful);
    if successful {
        let counted = count_step(state, events.len() as int).0;
        assert forall|k: int| 0 <= k < events.len() - 1 implies !ends_stream(#[trigger] events[k]) by {
        }
        lemma_event_runs(counted, events, 0);
    }
}

/// As long as a run is open, its events are consistent and none was terminal.
pub proof fn lemma_open_runs_are_consistent(
    policy: DecoderPolicy,
    inputs: Seq<DecoderInput>,
    n: int,
)
    requires
        0 <= n <= inputs.len(),
        after_inputs(policy, inputs, n).0.state != DecoderState::Closed,
    ensures
        is_consistent(after_inputs(policy, inputs, n).1),
        !after_inputs(policy, inputs, n).1.terminal_seen,
    decreases n,
{
    if n > 0 {
        let before = after_inputs(policy, inputs, n - 1);
        if before.0.state == DecoderState::Closed {
            lemma_closed_is_final(before.0, before.1, inputs[n - 1]);
        }
        lemma_open_runs_are_consistent(policy, inputs, n - 1);
        if let DecoderInput::Pulled(Ok(DecoderPull::Events(batch))) = inputs[n - 1] {
            if let Some(InFlight::Pull { limit }) = before.0.in_flight {
                let successful = is_success(before.0.status);
                if batch_step(before.1, batch@, limit, true, successful).1 is Ok {
                    lemma_batches_keep_consistency(before.1, batch@, limit, true, successful);
                }
                if batch_step(before.1, batch@, limit, false, successful).1 is Ok {
                    lemma_batches_keep_consistency(before.1, batch@, limit, false, successful);
                }
            }
        }
    }
}

/// After a terminal event every batch is refused.
pub proof fn lemma_nothing_follows_a_terminal_event(
    state: EventState,
    events: Seq<NormalizedEvent>,
    limit: u8,
    after_end: bool,
    successful: bool,
)
    requires
        state.terminal_seen,
    ensures
        batch_step(state, events, limit, after_end, successful).1 is Err,
        batch_step(state, events, limit, after_end, successful).0 == state,
{
}

} // verus!
