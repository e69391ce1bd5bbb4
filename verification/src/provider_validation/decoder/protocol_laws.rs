//! What a decoder does next, and what each answer leads to.
//!
//! Nothing that the host may meet is left open: each law says when a step succeeds,
//! what it changes, and how the decoder is closed otherwise.

use vstd::prelude::*;

use crate::provider_api::{
    DecoderPull, FrameAcceptance, NormalizedEvent, ProviderError, ResponseFrame,
};
use crate::provider_validation::decoder::events::{
    accepted_events, batch_step, batch_terminal, EventState,
};
use crate::provider_validation::decoder::protocol::{
    consumer_step, external_step, first_protocol, is_reachable, next_action_step, published_step,
    pull_step, push_step, transport_step, ActionModel, CloseCause, CloseModel, DecoderState,
    EventModel, ExternalClose, FrameModel, InFlight, ProtocolState, ReceiptModel, TransportReceipt,
};
use crate::provider_validation::ValidationError;

verus! {

// ---------------------------------------------------------------------------
// Closing
// ---------------------------------------------------------------------------

/// Whether a step has closed a decoder, for the given cause, with the given terminal
/// event, and has told so. Nothing else of the state changes.
pub open spec fn has_closed(
    before: ProtocolState,
    after: ProtocolState,
    receipt: ReceiptModel,
    cause: CloseCause,
    terminal: Option<EventModel>,
) -> bool {
    &&& after == ProtocolState {
        state: DecoderState::Closed,
        in_flight: None,
        pending_frame: None,
        close: Some(CloseModel { cause, terminal }),
        ..before
    }
    &&& receipt.close == Some(CloseModel { cause, terminal })
    &&& receipt.transitioned
}

/// The failure that a host publishes.
pub open spec fn failure(error: ProviderError) -> Option<EventModel> {
    Some(EventModel::Other(NormalizedEvent::Failed(error)))
}

/// Whether a step has closed a decoder with a failure of the host.
pub open spec fn has_failed(
    before: ProtocolState,
    after: ProtocolState,
    receipt: ReceiptModel,
    cause: CloseCause,
    error: ProviderError,
) -> bool {
    &&& has_closed(before, after, receipt, cause, failure(error))
    &&& receipt.accepted_events.len() == 0
}

/// Whether a step has closed a decoder because something came out of order.
pub open spec fn has_broken(
    before: ProtocolState,
    after: ProtocolState,
    receipt: ReceiptModel,
) -> bool {
    has_failed(before, after, receipt, CloseCause::Protocol, ProviderError::InvalidArgument)
}

/// Whether a step has closed a decoder because a bound was exceeded.
pub open spec fn has_exceeded(
    before: ProtocolState,
    after: ProtocolState,
    receipt: ReceiptModel,
) -> bool {
    has_failed(before, after, receipt, CloseCause::Limit, ProviderError::Limit)
}

/// Whether a step has gone on without a close.
pub open spec fn has_moved(receipt: ReceiptModel) -> bool {
    receipt.transitioned && receipt.close is None
}

// ---------------------------------------------------------------------------
// Actions
// ---------------------------------------------------------------------------

/// Whether a decoder waits for nothing but its host.
pub open spec fn is_idle(state: ProtocolState) -> bool {
    &&& state.state != DecoderState::Closed
    &&& state.in_flight is None
    &&& !(state.awaiting_consumer && state.queue_len > 0)
}

/// Whether a decoder is at a point where it pulls events.
pub open spec fn is_pulling(state: ProtocolState) -> bool {
    &&& is_idle(state)
    &&& state.pending_frame is None
    &&& state.state != DecoderState::NeedHead
    &&& state.state != DecoderState::NeedBody
}

/// A pull comes at the start, after each frame and after the end, for as many events
/// as the queue of sixteen has room for, up to 65536 times. A frame is read where
/// one is needed and the queue is empty. A frame that was read is pushed as soon as
/// the queue has room.
pub proof fn lemma_next_actions(state: ProtocolState)
    requires
        is_reachable(state),
        state.state != DecoderState::Closed,
    ensures
        ({
            let (after, action) = next_action_step(state);
            &&& action is Pull <==> is_pulling(state) && state.queue_len < 16 && state.pulls
                < 65_536
            &&& action matches ActionModel::Pull { limit } ==> {
                &&& limit == 16 - state.queue_len
                &&& after == ProtocolState {
                    pulls: state.pulls + 1,
                    in_flight: Some(InFlight::Pull { limit }),
                    ..state
                }
            }
            &&& action is ReadFrame <==> {
                &&& is_idle(state)
                &&& state.pending_frame is None
                &&& state.state == DecoderState::NeedHead || state.state == DecoderState::NeedBody
                &&& state.queue_len == 0
            }
            &&& action is ReadFrame ==> after == ProtocolState {
                in_flight: Some(InFlight::ReadFrame),
                ..state
            }
            &&& action is PushFrame <==> is_idle(state) && state.pending_frame is Some
                && state.queue_len < 16
            &&& action matches ActionModel::PushFrame(frame) ==> {
                &&& state.pending_frame == Some(frame)
                &&& after == ProtocolState { in_flight: Some(InFlight::PushFrame), ..state }
            }
            &&& action is AwaitReceipt <==> state.in_flight is Some && !(state.awaiting_consumer
                && state.queue_len > 0)
            &&& action is AwaitReceipt ==> after == state
        }),
{
}

/// A decoder that would pull more than 65536 times is closed instead, and the
/// consumer drains the queue before the failure is published.
pub proof fn lemma_pulls_run_out(state: ProtocolState)
    requires
        is_reachable(state),
        is_pulling(state),
        state.queue_len < 16,
        state.pulls >= 65_536,
    ensures
        ({
            let (after, action) = next_action_step(state);
            &&& after.state == DecoderState::Closed
            &&& after.close == Some(
                CloseModel { cause: CloseCause::Limit, terminal: failure(ProviderError::Limit) },
            )
            &&& after.queue_len == state.queue_len
            &&& state.queue_len > 0 ==> action is WaitForConsumer && after.in_flight is None
            &&& state.queue_len == 0 ==> action == ActionModel::PublishTerminal(
                failure(ProviderError::Limit)->Some_0,
            ) && after.in_flight == Some(InFlight::PublishTerminal)
        }),
{
}

/// The consumer is waited for only while events wait for it.
pub proof fn lemma_consumers_are_waited_for(state: ProtocolState)
    requires
        is_reachable(state),
    ensures
        next_action_step(state).1 is WaitForConsumer ==> state.queue_len > 0,
        state.queue_len == 16 && state.in_flight is None ==> next_action_step(state).1
            is WaitForConsumer,
        state.awaiting_consumer && state.queue_len > 0 ==> next_action_step(state).1
            is WaitForConsumer && next_action_step(state).0 == state,
{
}

/// A closed decoder waits until the queue is empty, publishes its terminal event if
/// it has one, once, and has nothing more to do.
pub proof fn lemma_closed_actions(state: ProtocolState)
    requires
        is_reachable(state),
        state.state == DecoderState::Closed,
    ensures
        ({
            let (after, action) = next_action_step(state);
            let terminal = state.close->Some_0.terminal;
            if state.queue_len > 0 {
                action is WaitForConsumer && after == state
            } else if state.in_flight is Some {
                action is AwaitReceipt && after == state
            } else if state.terminal_published || terminal is None {
                action is Closed && after == state
            } else {
                action == ActionModel::PublishTerminal(terminal->Some_0) && after
                    == ProtocolState { in_flight: Some(InFlight::PublishTerminal), ..state }
            }
        }),
{
}

// ---------------------------------------------------------------------------
// Answers
// ---------------------------------------------------------------------------

/// A decoder that needs a frame says so at the start, which leads to the head, or
/// while it drains the body, which leads to more of it. An answer that no pull
/// waits for, events before the head, and the wish for a frame after the end break
/// the order. A failure of the component closes the decoder, and nothing is
/// published.
pub proof fn lemma_pull_answers(
    state: ProtocolState,
    events: EventState,
    answer: Result<DecoderPull, ProviderError>,
)
    requires
        is_reachable(state),
        state.state != DecoderState::Closed,
    ensures
        ({
            let (after, receipt, next) = pull_step(state, events, answer);
            let landed = ProtocolState { in_flight: None, ..state };
            match (state.in_flight, answer) {
                (Some(InFlight::Pull { .. }), Ok(DecoderPull::NeedFrame)) => {
                    &&& next == events
                    &&& match state.state {
                        DecoderState::InitialPull => has_moved(receipt) && after
                            == ProtocolState { state: DecoderState::NeedHead, ..landed },
                        DecoderState::DrainingBody => has_moved(receipt) && after
                            == ProtocolState { state: DecoderState::NeedBody, ..landed },
                        _ => has_broken(state, after, receipt),
                    }
                    &&& receipt.accepted_events.len() == 0
                },
                (Some(InFlight::Pull { .. }), Err(error)) => {
                    &&& next == events
                    &&& has_closed(state, after, receipt, CloseCause::GuestMethod(error), None)
                    &&& receipt.accepted_events.len() == 0
                },
                (Some(InFlight::Pull { .. }), Ok(DecoderPull::Events(_))) => (state.state
                    != DecoderState::DrainingBody && state.state != DecoderState::DrainingAfterEnd)
                    ==> has_broken(state, after, receipt) && next == events,
                _ => has_broken(state, after, receipt) && next == events,
            }
        }),
{
}

/// Events that come while the body is drained, or after its end, are queued for the
/// consumer, and the decoder waits for it. A terminal event closes the decoder as
/// its component says. Events that are refused close it with a failure.
pub proof fn lemma_pulled_events(
    state: ProtocolState,
    events: EventState,
    batch: Vec<NormalizedEvent>,
    limit: u8,
)
    requires
        is_reachable(state),
        state.in_flight == Some(InFlight::Pull { limit }),
        state.state == DecoderState::DrainingBody || state.state == DecoderState::DrainingAfterEnd,
    ensures
        ({
            let (after, receipt, next) = pull_step(
                state,
                events,
                Ok(DecoderPull::Events(batch)),
            );
            let ended = state.state == DecoderState::DrainingAfterEnd;
            let successful = state.status matches Some(status) && 200 <= status <= 299;
            let step = batch_step(events, batch@, limit, ended, successful);
            let queued = ProtocolState {
                in_flight: None,
                queue_len: state.queue_len + accepted_events(batch@).len(),
                awaiting_consumer: accepted_events(batch@).len() > 0,
                ..state
            };
            &&& next == step.0
            &&& match step.1 {
                Ok(()) => {
                    &&& receipt.accepted_events == accepted_events(batch@)
                    &&& match batch_terminal(batch@, events.reported_models) {
                        None => has_moved(receipt) && after == queued,
                        Some(terminal) => has_closed(
                            queued,
                            after,
                            receipt,
                            CloseCause::GuestTerminal,
                            Some(terminal@),
                        ),
                    }
                },
                Err(ValidationError::InvalidArgument) => has_broken(state, after, receipt),
                Err(ValidationError::Limit) => has_exceeded(state, after, receipt),
            }
        }),
{
}

/// Whether a frame comes in order: the head first, then data and the end.
pub open spec fn is_due(state: ProtocolState, frame: ResponseFrame) -> bool {
    match frame {
        ResponseFrame::Head(head) => state.state == DecoderState::NeedHead && 200 <= head.status
            <= 599,
        ResponseFrame::Data(data) => state.state == DecoderState::NeedBody && data@.len() > 0,
        ResponseFrame::End => state.state == DecoderState::NeedBody,
    }
}

/// Whether a frame is within the bounds: 65536 bytes of data in a frame, 1024 data
/// frames, and sixteen mebibytes of a success or 65536 bytes of another answer.
pub open spec fn has_room(state: ProtocolState, frame: ResponseFrame) -> bool {
    frame matches ResponseFrame::Data(data) ==> {
        &&& data@.len() <= 65_536
        &&& state.data_frames < 1_024
        &&& state.data_bytes + data@.len() <= if state.status matches Some(status) && 200 <= status
            <= 299 {
            16_777_216int
        } else {
            65_536int
        }
    }
}

/// A frame is taken exactly when a frame is being read, it comes in order and is
/// within the bounds, and waits until it is pushed. The end of the transport and a
/// cancelled read close the decoder.
pub proof fn lemma_transport_answers(state: ProtocolState, answer: TransportReceipt)
    requires
        is_reachable(state),
        state.state != DecoderState::Closed,
    ensures
        ({
            let (after, receipt) = transport_step(state, answer);
            let landed = ProtocolState { in_flight: None, ..state };
            &&& receipt.accepted_events.len() == 0
            &&& if state.in_flight != Some(InFlight::ReadFrame) {
                has_broken(state, after, receipt)
            } else {
                match answer {
                    TransportReceipt::Eof => has_failed(
                        state,
                        after,
                        receipt,
                        CloseCause::Eof,
                        ProviderError::Unavailable,
                    ),
                    TransportReceipt::Cancelled => has_failed(
                        state,
                        after,
                        receipt,
                        CloseCause::Cancelled,
                        ProviderError::Cancelled,
                    ),
                    TransportReceipt::Frame(frame) => if is_due(state, frame) && has_room(
                        state,
                        frame,
                    ) {
                        has_moved(receipt) && after == ProtocolState {
                            pending_frame: Some(
                                match frame {
                                    ResponseFrame::Head(head) => FrameModel::Head(head),
                                    ResponseFrame::Data(data) => FrameModel::Data(data@),
                                    ResponseFrame::End => FrameModel::End,
                                },
                            ),
                            ..landed
                        }
                    } else {
                        ||| has_broken(state, after, receipt) && !is_due(state, frame)
                        ||| has_exceeded(state, after, receipt) && !has_room(state, frame)
                    },
                }
            }
        }),
{
}

/// A pushed frame takes effect: the head gives the status, data are counted, both
/// lead on to draining the body, and the end to draining what is left.
pub proof fn lemma_push_answers(
    state: ProtocolState,
    answer: Result<FrameAcceptance, ProviderError>,
)
    requires
        is_reachable(state),
        state.state != DecoderState::Closed,
    ensures
        ({
            let (after, receipt) = push_step(state, answer);
            let pushed = ProtocolState { in_flight: None, pending_frame: None, ..state };
            &&& receipt.accepted_events.len() == 0
            &&& if state.in_flight != Some(InFlight::PushFrame) || state.pending_frame is None {
                has_broken(state, after, receipt)
            } else {
                match (answer, state.pending_frame->Some_0) {
                    (Err(error), _) => has_closed(
                        state,
                        after,
                        receipt,
                        CloseCause::GuestMethod(error),
                        None,
                    ),
                    (Ok(_), FrameModel::Head(head)) => if state.state == DecoderState::NeedHead {
                        has_moved(receipt) && after == ProtocolState {
                            status: Some(head.status),
                            state: DecoderState::DrainingBody,
                            ..pushed
                        }
                    } else {
                        has_broken(state, after, receipt)
                    },
                    (Ok(_), FrameModel::Data(data)) => if state.state == DecoderState::NeedBody {
                        has_moved(receipt) && after == ProtocolState {
                            data_frames: state.data_frames + 1,
                            data_bytes: state.data_bytes + data.len(),
                            state: DecoderState::DrainingBody,
                            ..pushed
                        }
                    } else {
                        has_broken(state, after, receipt)
                    },
                    (Ok(_), FrameModel::End) => if state.state == DecoderState::NeedBody {
                        has_moved(receipt) && after == ProtocolState {
                            state: DecoderState::DrainingAfterEnd,
                            ..pushed
                        }
                    } else {
                        has_broken(state, after, receipt)
                    },
                }
            }
        }),
{
}

/// The consumer takes at least one event and no more than wait, and only these leave
/// the queue.
pub proof fn lemma_consumption(state: ProtocolState, count: nat)
    ensures
        consumer_step(state, count as int).1 is Ok <==> 1 <= count <= state.queue_len,
        consumer_step(state, count as int).0 == if 1 <= count <= state.queue_len {
            ProtocolState {
                queue_len: state.queue_len - count,
                awaiting_consumer: false,
                ..state
            }
        } else {
            state
        },
{
}

/// A publication is accepted exactly when the decoder has asked for it.
pub proof fn lemma_publications(state: ProtocolState)
    requires
        is_reachable(state),
    ensures
        published_step(state).1 is Ok <==> {
            &&& state.state == DecoderState::Closed
            &&& state.close->Some_0.terminal is Some
            &&& state.queue_len == 0
            &&& state.in_flight == Some(InFlight::PublishTerminal)
            &&& !state.terminal_published
        },
        published_step(state).1 is Ok ==> published_step(state).0 == (ProtocolState {
            in_flight: None,
            terminal_published: true,
            ..state
        }),
{
}

/// The host closes a decoder with its own cause, and the failure that goes with it is
/// published: a passed deadline and a cancellation as cancelled, a trap and a
/// failure as failed, and an unavailable component as unavailable.
pub proof fn lemma_external_closes(state: ProtocolState, cause: ExternalClose)
    requires
        state.state != DecoderState::Closed,
    ensures
        ({
            let (after, receipt) = external_step(state, cause);
            match cause {
                ExternalClose::Cancelled => has_failed(
                    state,
                    after,
                    receipt,
                    CloseCause::Cancelled,
                    ProviderError::Cancelled,
                ),
                ExternalClose::Deadline => has_failed(
                    state,
                    after,
                    receipt,
                    CloseCause::Deadline,
                    ProviderError::Cancelled,
                ),
                ExternalClose::Trap => has_failed(
                    state,
                    after,
                    receipt,
                    CloseCause::Trap,
                    ProviderError::Failed,
                ),
                ExternalClose::Unavailable => has_failed(
                    state,
                    after,
                    receipt,
                    CloseCause::Unavailable,
                    ProviderError::Unavailable,
                ),
                ExternalClose::Failed => has_failed(
                    state,
                    after,
                    receipt,
                    CloseCause::Failed,
                    ProviderError::Failed,
                ),
            }
        }),
{
}

/// The first thing that a decoder asks for is a pull of sixteen events, before any
/// frame.
pub proof fn lemma_first_action()
    ensures
        is_reachable(first_protocol()),
        next_action_step(first_protocol()).1 == (ActionModel::Pull { limit: 16 }),
        first_protocol().status is None,
        first_protocol().close is None,
        first_protocol().queue_len == 0,
{
}

} // verus!
