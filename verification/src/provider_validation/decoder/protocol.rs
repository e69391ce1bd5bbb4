//! Pure decoder protocol, cumulative-limit and backpressure reducer.

use vstd::prelude::*;

use crate::provider_api::{
    CompletionTerminal, DecoderPull, FrameAcceptance, IdText, NormalizedEvent, ProviderError,
    ReasoningDelta, ReasoningKind, ReasoningProof, ResponseFrame, ResponseHead, TextDelta,
    ToolArgumentsDelta, ToolCallEnd, ToolCallStart,
};
use crate::provider_validation::decoder::events::{
    accepted_events, batch_step, batch_terminal, first_events, EventBatch, EventReducer, EventState,
};
use crate::provider_validation::decoder::{frame_verdict, validate_response_frame, DecoderPolicy};
use crate::provider_validation::{also, verdict, ValidationError, ValidationResult};

verus! {

/// Number of events that may wait for the consumer.
pub const QUEUE_CAPACITY: usize = 16;

/// Largest number of pulls of one decoder.
pub const MAX_PULLS: u64 = 65_536;

/// Largest number of data frames of one response.
pub const MAX_DATA_FRAMES: u64 = 1_024;

/// Largest body of a successful response: sixteen mebibytes.
pub const MAX_SUCCESS_BYTES: u64 = 16_777_216;

/// Largest body of any other response: 64 kibibytes.
pub const MAX_ERROR_BYTES: u64 = 65_536;

/// Where the decoder stands in its protocol.
#[derive(Debug, Clone, Copy, PartialEq, Eq, Structural)]
pub enum DecoderState {
    InitialPull,
    NeedHead,
    DrainingBody,
    NeedBody,
    DrainingAfterEnd,
    Closed,
}

/// What the host does next.
#[derive(Debug, Clone)]
pub enum DecoderAction {
    Pull { limit: u8 },
    ReadFrame,
    PushFrame(ResponseFrame),
    AwaitReceipt,
    WaitForConsumer,
    PublishTerminal(NormalizedEvent),
    Closed,
}

/// What the transport delivered.
#[derive(Debug, Clone)]
pub enum TransportReceipt {
    Frame(ResponseFrame),
    Eof,
    Cancelled,
}

/// Why the host closes the decoder.
#[derive(Debug, Clone, Copy, PartialEq, Eq, Structural)]
pub enum ExternalClose {
    Cancelled,
    Deadline,
    Trap,
    Unavailable,
    Failed,
}

/// Why the decoder closed.
#[derive(Debug, Clone, Copy, PartialEq, Eq, Structural)]
pub enum CloseCause {
    GuestMethod(ProviderError),
    GuestTerminal,
    Protocol,
    Limit,
    Eof,
    Cancelled,
    Deadline,
    Trap,
    Unavailable,
    Failed,
}

/// How the decoder closed, and the terminal event to publish.
#[derive(Debug, Clone)]
pub struct CloseReceipt {
    pub cause: CloseCause,
    pub terminal: Option<NormalizedEvent>,
}

/// What a receipt led to.
#[derive(Debug)]
pub struct DecoderReceipt {
    pub accepted_events: Vec<NormalizedEvent>,
    pub close: Option<CloseReceipt>,
    pub transitioned: bool,
}

/// The call that the host was asked to make.
#[derive(Debug, Clone, Copy, PartialEq, Eq, Structural)]
pub enum InFlight {
    Pull { limit: u8 },
    ReadFrame,
    PushFrame,
    PublishTerminal,
}

/// The protocol reducer of one decoder.
#[derive(Debug)]
pub struct DecoderReducer {
    pub state: DecoderState,
    pub events: EventReducer,
    pub in_flight: Option<InFlight>,
    pub pending_frame: Option<ResponseFrame>,
    pub close: Option<CloseReceipt>,
    pub queue_len: usize,
    pub awaiting_consumer: bool,
    pub terminal_published: bool,
    pub pulls: u64,
    pub data_frames: u64,
    pub data_bytes: u64,
    pub status: Option<u16>,
}

// ---------------------------------------------------------------------------
// Models
// ---------------------------------------------------------------------------

/// A response frame, over bytes.
pub enum FrameModel {
    Head(ResponseHead),
    Data(Seq<u8>),
    End,
}

/// An event, over the bytes of a proof.
pub enum EventModel {
    Proof { content_index: u8, kind: ReasoningKind, bytes: Seq<u8> },
    Other(NormalizedEvent),
}

/// A close receipt, over event models.
pub struct CloseModel {
    pub cause: CloseCause,
    pub terminal: Option<EventModel>,
}

/// A receipt, over models.
pub struct ReceiptModel {
    pub accepted_events: Seq<NormalizedEvent>,
    pub close: Option<CloseModel>,
    pub transitioned: bool,
}

/// An action, over models.
pub enum ActionModel {
    Pull { limit: u8 },
    ReadFrame,
    PushFrame(FrameModel),
    AwaitReceipt,
    WaitForConsumer,
    PublishTerminal(EventModel),
    Closed,
}

/// The protocol state, without the event reducer.
pub struct ProtocolState {
    pub state: DecoderState,
    pub in_flight: Option<InFlight>,
    pub pending_frame: Option<FrameModel>,
    pub close: Option<CloseModel>,
    pub queue_len: int,
    pub awaiting_consumer: bool,
    pub terminal_published: bool,
    pub pulls: int,
    pub data_frames: int,
    pub data_bytes: int,
    pub status: Option<u16>,
}

impl View for ResponseFrame {
    type V = FrameModel;

    open spec fn view(&self) -> FrameModel {
        match *self {
            ResponseFrame::Head(head) => FrameModel::Head(head),
            ResponseFrame::Data(data) => FrameModel::Data(data@),
            ResponseFrame::End => FrameModel::End,
        }
    }
}

impl View for NormalizedEvent {
    type V = EventModel;

    open spec fn view(&self) -> EventModel {
        match *self {
            NormalizedEvent::ReasoningProof(proof) => EventModel::Proof {
                content_index: proof.content_index,
                kind: proof.kind,
                bytes: proof.proof@,
            },
            other => EventModel::Other(other),
        }
    }
}

impl View for CloseReceipt {
    type V = CloseModel;

    open spec fn view(&self) -> CloseModel {
        CloseModel {
            cause: self.cause,
            terminal: match self.terminal {
                None => None,
                Some(event) => Some(event@),
            },
        }
    }
}

impl View for DecoderReceipt {
    type V = ReceiptModel;

    open spec fn view(&self) -> ReceiptModel {
        ReceiptModel {
            accepted_events: self.accepted_events@,
            close: match self.close {
                None => None,
                Some(close) => Some(close@),
            },
            transitioned: self.transitioned,
        }
    }
}

impl View for DecoderAction {
    type V = ActionModel;

    open spec fn view(&self) -> ActionModel {
        match *self {
            DecoderAction::Pull { limit } => ActionModel::Pull { limit },
            DecoderAction::ReadFrame => ActionModel::ReadFrame,
            DecoderAction::PushFrame(frame) => ActionModel::PushFrame(frame@),
            DecoderAction::AwaitReceipt => ActionModel::AwaitReceipt,
            DecoderAction::WaitForConsumer => ActionModel::WaitForConsumer,
            DecoderAction::PublishTerminal(event) => ActionModel::PublishTerminal(event@),
            DecoderAction::Closed => ActionModel::Closed,
        }
    }
}

impl View for DecoderReducer {
    type V = ProtocolState;

    open spec fn view(&self) -> ProtocolState {
        ProtocolState {
            state: self.state,
            in_flight: self.in_flight,
            pending_frame: match self.pending_frame {
                None => None,
                Some(frame) => Some(frame@),
            },
            close: match self.close {
                None => None,
                Some(close) => Some(close@),
            },
            queue_len: self.queue_len as int,
            awaiting_consumer: self.awaiting_consumer,
            terminal_published: self.terminal_published,
            pulls: self.pulls as int,
            data_frames: self.data_frames as int,
            data_bytes: self.data_bytes as int,
            status: self.status,
        }
    }
}

fn copy_bytes(bytes: &Vec<u8>) -> (copy: Vec<u8>)
    ensures
        copy@ == bytes@,
{
    let mut copy: Vec<u8> = Vec::new();
    crate::provider_validation::wire_json::append_bytes(bytes.as_slice(), &mut copy);
    assert(copy@ =~= bytes@);
    copy
}

fn copy_frame(frame: &ResponseFrame) -> (copy: ResponseFrame)
    ensures
        copy@ == frame@,
{
    match frame {
        ResponseFrame::Head(head) => ResponseFrame::Head(*head),
        ResponseFrame::Data(data) => ResponseFrame::Data(copy_bytes(data)),
        ResponseFrame::End => ResponseFrame::End,
    }
}

fn copy_model(model: &Option<IdText>) -> (copy: Option<IdText>)
    ensures
        copy == *model,
{
    match model {
        None => None,
        Some(model) => Some(IdText { text: model.text.clone(), canonical: model.canonical }),
    }
}

fn copy_event(event: &NormalizedEvent) -> (copy: NormalizedEvent)
    ensures
        copy@ == event@,
{
    match event {
        NormalizedEvent::TextDelta(delta) => NormalizedEvent::TextDelta(
            TextDelta { content_index: delta.content_index, text: delta.text.clone() },
        ),
        NormalizedEvent::ReasoningDelta(delta) => NormalizedEvent::ReasoningDelta(
            ReasoningDelta {
                content_index: delta.content_index,
                kind: delta.kind,
                text: delta.text.clone(),
            },
        ),
        NormalizedEvent::ReasoningProof(evidence) => NormalizedEvent::ReasoningProof(
            ReasoningProof {
                content_index: evidence.content_index,
                kind: evidence.kind,
                proof: copy_bytes(&evidence.proof),
            },
        ),
        NormalizedEvent::ToolCallStart(start) => NormalizedEvent::ToolCallStart(
            ToolCallStart {
                content_index: start.content_index,
                call_id: start.call_id.clone(),
                name: start.name.clone(),
            },
        ),
        NormalizedEvent::ToolArgumentsDelta(delta) => NormalizedEvent::ToolArgumentsDelta(
            ToolArgumentsDelta {
                content_index: delta.content_index,
                call_id: delta.call_id.clone(),
                delta: delta.delta.clone(),
            },
        ),
        NormalizedEvent::ToolCallEnd(end) => NormalizedEvent::ToolCallEnd(
            ToolCallEnd { content_index: end.content_index, call_id: end.call_id.clone() },
        ),
        NormalizedEvent::Completed(terminal) => NormalizedEvent::Completed(
            CompletionTerminal {
                reason: terminal.reason,
                reported_model: copy_model(&terminal.reported_model),
                usage: terminal.usage,
            },
        ),
        NormalizedEvent::Failed(error) => NormalizedEvent::Failed(*error),
    }
}

fn copy_close(receipt: &CloseReceipt) -> (copy: CloseReceipt)
    ensures
        copy@ == receipt@,
{
    CloseReceipt {
        cause: receipt.cause,
        terminal: match &receipt.terminal {
            None => None,
            Some(event) => Some(copy_event(event)),
        },
    }
}

// ---------------------------------------------------------------------------
// Transitions
// ---------------------------------------------------------------------------

/// The status of a response with success.
pub open spec fn is_success(status: Option<u16>) -> bool {
    status matches Some(status) && 200 <= status < 300
}

/// A receipt that moved the protocol on.
pub open spec fn moved() -> ReceiptModel {
    ReceiptModel { accepted_events: Seq::empty(), close: None, transitioned: true }
}

/// Closing with the given cause, terminal event and last accepted events.
pub open spec fn closing(
    state: ProtocolState,
    cause: CloseCause,
    terminal: Option<EventModel>,
    accepted_events: Seq<NormalizedEvent>,
) -> (ProtocolState, ReceiptModel) {
    let close = CloseModel { cause, terminal };
    (
        ProtocolState {
            state: DecoderState::Closed,
            in_flight: None,
            pending_frame: None,
            close: Some(close),
            ..state
        },
        ReceiptModel { accepted_events, close: Some(close), transitioned: true },
    )
}

/// Closing with a failure that the host publishes.
pub open spec fn synthesized(
    state: ProtocolState,
    cause: CloseCause,
    error: ProviderError,
) -> (ProtocolState, ReceiptModel) {
    closing(
        state,
        cause,
        Some(EventModel::Other(NormalizedEvent::Failed(error))),
        Seq::empty(),
    )
}

/// Closing after a refused value.
pub open spec fn refused(state: ProtocolState, error: ValidationError) -> (
    ProtocolState,
    ReceiptModel,
) {
    match error {
        ValidationError::InvalidArgument => synthesized(
            state,
            CloseCause::Protocol,
            ProviderError::InvalidArgument,
        ),
        ValidationError::Limit => synthesized(state, CloseCause::Limit, ProviderError::Limit),
    }
}

/// Closing after a protocol violation.
pub open spec fn violated(state: ProtocolState) -> (ProtocolState, ReceiptModel) {
    refused(state, ValidationError::InvalidArgument)
}

/// Closing after a failed call of the component; nothing is published.
pub open spec fn guest_failed(state: ProtocolState, error: ProviderError) -> (
    ProtocolState,
    ReceiptModel,
) {
    closing(state, CloseCause::GuestMethod(error), None, Seq::empty())
}

/// The receipt of a closed decoder: its close, and no transition.
pub open spec fn still_closed(state: ProtocolState) -> (ProtocolState, ReceiptModel) {
    (
        state,
        ReceiptModel { accepted_events: Seq::empty(), close: state.close, transitioned: false },
    )
}

/// The next action of a closed decoder: the consumer drains the queue, then
/// the terminal event is published once.
pub open spec fn closed_action_step(state: ProtocolState) -> (ProtocolState, ActionModel) {
    if state.queue_len != 0 {
        (state, ActionModel::WaitForConsumer)
    } else if state.in_flight is Some {
        (state, ActionModel::AwaitReceipt)
    } else {
        match state.close {
            Some(CloseModel { cause: _, terminal: Some(event) }) if !state.terminal_published => (
                ProtocolState { in_flight: Some(InFlight::PublishTerminal), ..state },
                ActionModel::PublishTerminal(event),
            ),
            _ => (state, ActionModel::Closed),
        }
    }
}

/// Starting a pull for as many events as the queue has room for.
pub open spec fn begin_pull_step(state: ProtocolState) -> (ProtocolState, ActionModel) {
    let free = QUEUE_CAPACITY - state.queue_len;
    if free == 0 {
        (state, ActionModel::WaitForConsumer)
    } else if state.pulls >= MAX_PULLS {
        closed_action_step(synthesized(state, CloseCause::Limit, ProviderError::Limit).0)
    } else {
        (
            ProtocolState {
                pulls: state.pulls + 1,
                in_flight: Some(InFlight::Pull { limit: free as u8 }),
                ..state
            },
            ActionModel::Pull { limit: free as u8 },
        )
    }
}

/// The next action.
pub open spec fn next_action_step(state: ProtocolState) -> (ProtocolState, ActionModel) {
    if state.state == DecoderState::Closed {
        closed_action_step(state)
    } else if state.awaiting_consumer && state.queue_len != 0 {
        (state, ActionModel::WaitForConsumer)
    } else if state.in_flight is Some {
        (state, ActionModel::AwaitReceipt)
    } else if state.pending_frame is Some {
        if state.queue_len == QUEUE_CAPACITY {
            (state, ActionModel::WaitForConsumer)
        } else {
            (
                ProtocolState { in_flight: Some(InFlight::PushFrame), ..state },
                ActionModel::PushFrame(state.pending_frame->0),
            )
        }
    } else {
        match state.state {
            DecoderState::InitialPull
            | DecoderState::DrainingBody
            | DecoderState::DrainingAfterEnd => begin_pull_step(state),
            _ => if state.queue_len != 0 {
                (state, ActionModel::WaitForConsumer)
            } else {
                (
                    ProtocolState { in_flight: Some(InFlight::ReadFrame), ..state },
                    ActionModel::ReadFrame,
                )
            },
        }
    }
}

/// Accepting the events of a pull: they are queued, and a terminal event
/// closes the decoder.
pub open spec fn accept_step(
    state: ProtocolState,
    events: EventState,
    batch: Seq<NormalizedEvent>,
    limit: u8,
    after_end: bool,
) -> (ProtocolState, ReceiptModel, EventState) {
    let step = batch_step(events, batch, limit, after_end, is_success(state.status));
    let next = step.0;
    match step.1 {
        Err(error) => {
            let closed = refused(state, error);
            (closed.0, closed.1, next)
        },
        Ok(()) => {
            let accepted = accepted_events(batch);
            let queued = ProtocolState {
                queue_len: state.queue_len + accepted.len(),
                awaiting_consumer: accepted.len() != 0,
                ..state
            };
            match batch_terminal(batch, events.reported_models) {
                Some(terminal) => {
                    let closed = closing(
                        queued,
                        CloseCause::GuestTerminal,
                        Some(terminal@),
                        accepted,
                    );
                    (closed.0, closed.1, next)
                },
                None => (
                    queued,
                    ReceiptModel { accepted_events: accepted, close: None, transitioned: true },
                    next,
                ),
            }
        },
    }
}

/// The answer to a pull.
pub open spec fn pull_step(
    state: ProtocolState,
    events: EventState,
    result: Result<DecoderPull, ProviderError>,
) -> (ProtocolState, ReceiptModel, EventState) {
    let landed = ProtocolState { in_flight: None, ..state };
    let outcome = if state.state == DecoderState::Closed {
        still_closed(state)
    } else {
        match (state.in_flight, result) {
            (Some(InFlight::Pull { limit }), Err(error)) => guest_failed(landed, error),
            (Some(InFlight::Pull { limit }), Ok(DecoderPull::NeedFrame)) => match state.state {
                DecoderState::InitialPull => (
                    ProtocolState { state: DecoderState::NeedHead, ..landed },
                    moved(),
                ),
                DecoderState::DrainingBody => (
                    ProtocolState { state: DecoderState::NeedBody, ..landed },
                    moved(),
                ),
                _ => violated(landed),
            },
            _ => violated(landed),
        }
    };
    match (state.state, state.in_flight, result) {
        (
            DecoderState::DrainingBody,
            Some(InFlight::Pull { limit }),
            Ok(DecoderPull::Events(batch)),
        ) => accept_step(landed, events, batch@, limit, false),
        (
            DecoderState::DrainingAfterEnd,
            Some(InFlight::Pull { limit }),
            Ok(DecoderPull::Events(batch)),
        ) => accept_step(landed, events, batch@, limit, true),
        _ => (outcome.0, outcome.1, events),
    }
}

/// The verdict on a frame in the current state: a head where one is needed,
/// data within the limits or the end where a body is needed.
pub open spec fn pending_verdict(state: ProtocolState, frame: ResponseFrame) -> ValidationResult {
    also(
        frame_verdict(frame),
        match (state.state, frame) {
            (DecoderState::NeedHead, ResponseFrame::Head(_)) => Ok(()),
            (DecoderState::NeedBody, ResponseFrame::End) => Ok(()),
            (DecoderState::NeedBody, ResponseFrame::Data(data)) => verdict(
                state.data_frames + 1 <= MAX_DATA_FRAMES && state.data_bytes + data@.len() <= (
                if is_success(state.status) {
                    MAX_SUCCESS_BYTES
                } else {
                    MAX_ERROR_BYTES
                }),
                ValidationError::Limit,
            ),
            _ => Err(ValidationError::InvalidArgument),
        },
    )
}

/// The answer of the transport.
pub open spec fn transport_step(state: ProtocolState, receipt: TransportReceipt) -> (
    ProtocolState,
    ReceiptModel,
) {
    let landed = ProtocolState { in_flight: None, ..state };
    if state.state == DecoderState::Closed {
        still_closed(state)
    } else if state.in_flight != Some(InFlight::ReadFrame) {
        violated(landed)
    } else {
        match receipt {
            TransportReceipt::Eof => synthesized(
                landed,
                CloseCause::Eof,
                ProviderError::Unavailable,
            ),
            TransportReceipt::Cancelled => synthesized(
                landed,
                CloseCause::Cancelled,
                ProviderError::Cancelled,
            ),
            TransportReceipt::Frame(frame) => match pending_verdict(landed, frame) {
                Err(error) => refused(landed, error),
                Ok(()) => (ProtocolState { pending_frame: Some(frame@), ..landed }, moved()),
            },
        }
    }
}

/// The answer to a pushed frame: the frame that was pending takes effect.
pub open spec fn push_step(
    state: ProtocolState,
    result: Result<FrameAcceptance, ProviderError>,
) -> (ProtocolState, ReceiptModel) {
    let landed = ProtocolState { in_flight: None, ..state };
    let pushed = ProtocolState { pending_frame: None, ..landed };
    if state.state == DecoderState::Closed {
        still_closed(state)
    } else if state.in_flight != Some(InFlight::PushFrame) {
        violated(landed)
    } else {
        match (state.pending_frame, result) {
            (None, _) => violated(pushed),
            (_, Err(error)) => guest_failed(pushed, error),
            (Some(frame), Ok(_)) => match (state.state, frame) {
                (DecoderState::NeedHead, FrameModel::Head(head)) => (
                    ProtocolState {
                        status: Some(head.status),
                        state: DecoderState::DrainingBody,
                        ..pushed
                    },
                    moved(),
                ),
                (DecoderState::NeedBody, FrameModel::Data(data)) => (
                    ProtocolState {
                        data_frames: state.data_frames + 1,
                        data_bytes: state.data_bytes + data.len(),
                        state: DecoderState::DrainingBody,
                        ..pushed
                    },
                    moved(),
                ),
                (DecoderState::NeedBody, FrameModel::End) => (
                    ProtocolState { state: DecoderState::DrainingAfterEnd, ..pushed },
                    moved(),
                ),
                _ => violated(pushed),
            },
        }
    }
}

/// The consumer took events out of the queue.
pub open spec fn consumer_step(state: ProtocolState, count: int) -> (
    ProtocolState,
    ValidationResult,
) {
    if count == 0 || count > state.queue_len {
        (state, Err(ValidationError::InvalidArgument))
    } else {
        (
            ProtocolState {
                queue_len: state.queue_len - count,
                awaiting_consumer: false,
                ..state
            },
            Ok(()),
        )
    }
}

/// The host published the terminal event.
pub open spec fn published_step(state: ProtocolState) -> (ProtocolState, ValidationResult) {
    let ready = state.state == DecoderState::Closed && state.queue_len == 0
        && !state.terminal_published && (state.close matches Some(close) && close.terminal is Some);
    if !ready {
        (state, Err(ValidationError::InvalidArgument))
    } else if state.in_flight == Some(InFlight::PublishTerminal) {
        (ProtocolState { in_flight: None, terminal_published: true, ..state }, Ok(()))
    } else {
        (
            ProtocolState { in_flight: None, ..state },
            Err(ValidationError::InvalidArgument),
        )
    }
}

/// The host closes the decoder.
pub open spec fn external_step(state: ProtocolState, cause: ExternalClose) -> (
    ProtocolState,
    ReceiptModel,
) {
    if state.state == DecoderState::Closed {
        still_closed(state)
    } else {
        match cause {
            ExternalClose::Cancelled => synthesized(
                state,
                CloseCause::Cancelled,
                ProviderError::Cancelled,
            ),
            ExternalClose::Deadline => synthesized(
                state,
                CloseCause::Deadline,
                ProviderError::Cancelled,
            ),
            ExternalClose::Trap => synthesized(state, CloseCause::Trap, ProviderError::Failed),
            ExternalClose::Unavailable => synthesized(
                state,
                CloseCause::Unavailable,
                ProviderError::Unavailable,
            ),
            ExternalClose::Failed => synthesized(state, CloseCause::Failed, ProviderError::Failed),
        }
    }
}

/// The state before the first pull.
pub open spec fn first_protocol() -> ProtocolState {
    ProtocolState {
        state: DecoderState::InitialPull,
        in_flight: None,
        pending_frame: None,
        close: None,
        queue_len: 0,
        awaiting_consumer: false,
        terminal_published: false,
        pulls: 0,
        data_frames: 0,
        data_bytes: 0,
        status: None,
    }
}

/// What every reachable state keeps: the queue and the counters are within
/// their bounds, a pull in flight fits into the queue, a pending frame fits
/// into the body, and a closed decoder has its close and holds no frame.
pub open spec fn is_reachable(state: ProtocolState) -> bool {
    &&& 0 <= state.queue_len <= QUEUE_CAPACITY
    &&& 0 <= state.pulls <= MAX_PULLS
    &&& 0 <= state.data_frames <= MAX_DATA_FRAMES
    &&& 0 <= state.data_bytes <= MAX_SUCCESS_BYTES
    &&& state.in_flight matches Some(InFlight::Pull { limit }) ==> 1 <= limit && limit
        + state.queue_len <= QUEUE_CAPACITY
    &&& state.pending_frame matches Some(FrameModel::Data(data)) ==> {
        &&& state.data_frames < MAX_DATA_FRAMES
        &&& state.data_bytes + data.len() <= MAX_SUCCESS_BYTES
    }
    &&& state.state == DecoderState::Closed <==> state.close is Some
    &&& state.state == DecoderState::Closed ==> state.pending_frame is None && (
    state.in_flight matches Some(call) ==> call == InFlight::PublishTerminal)
    &&& state.terminal_published ==> state.state == DecoderState::Closed && state.queue_len == 0
        && state.in_flight is None
}

impl DecoderReducer {
    /// The reducer is in a reachable state.
    pub open spec fn inv(self) -> bool {
        is_reachable(self@)
    }

    /// A decoder before its first pull.
    pub fn new(policy: DecoderPolicy) -> (reducer: Self)
        ensures
            reducer.inv(),
            reducer@ == first_protocol(),
            reducer.events@ == first_events(policy),
    {
        Self {
            state: DecoderState::InitialPull,
            events: EventReducer::new(&policy),
            in_flight: None,
            pending_frame: None,
            close: None,
            queue_len: 0,
            awaiting_consumer: false,
            terminal_published: false,
            pulls: 0,
            data_frames: 0,
            data_bytes: 0,
            status: None,
        }
    }

    /// Where the decoder stands.
    pub fn state(&self) -> (state: DecoderState)
        ensures
            state == self@.state,
    {
        self.state
    }

    /// The number of events that wait for the consumer.
    pub fn queue_len(&self) -> (length: usize)
        ensures
            length == self@.queue_len,
    {
        self.queue_len
    }

    /// The number of pulls so far.
    pub fn pull_count(&self) -> (pulls: u64)
        ensures
            pulls == self@.pulls,
    {
        self.pulls
    }

    /// The room that the queue has left.
    pub fn free_capacity(&self) -> (free: usize)
        requires
            self.inv(),
        ensures
            free == QUEUE_CAPACITY - self@.queue_len,
    {
        QUEUE_CAPACITY - self.queue_len
    }

    fn finish_close(
        &mut self,
        cause: CloseCause,
        terminal: Option<NormalizedEvent>,
        accepted_events: Vec<NormalizedEvent>,
    ) -> (receipt: DecoderReceipt)
        ensures
            ({
                let model = match terminal {
                    None => None,
                    Some(event) => Some(event@),
                };
                let closed = closing(old(self)@, cause, model, accepted_events@);
                &&& final(self)@ == closed.0
                &&& receipt@ == closed.1
            }),
            final(self).events == old(self).events,
    {
        let receipt = CloseReceipt { cause, terminal };
        self.state = DecoderState::Closed;
        self.in_flight = None;
        self.pending_frame = None;
        let copy = copy_close(&receipt);
        self.close = Some(receipt);
        DecoderReceipt { accepted_events, close: Some(copy), transitioned: true }
    }

    /// Closes with a failure that the host publishes.
    pub fn close_synthesized(&mut self, cause: CloseCause, error: ProviderError) -> (receipt:
        DecoderReceipt)
        requires
            old(self).inv(),
            !old(self).terminal_published,
        ensures
            final(self).inv(),
            final(self)@ == synthesized(old(self)@, cause, error).0,
            receipt@ == synthesized(old(self)@, cause, error).1,
            final(self).events == old(self).events,
    {
        self.finish_close(cause, Some(NormalizedEvent::Failed(error)), Vec::new())
    }

    /// Closes after a refused value.
    pub fn validation_close(&mut self, error: ValidationError) -> (receipt: DecoderReceipt)
        requires
            old(self).inv(),
            !old(self).terminal_published,
        ensures
            final(self).inv(),
            final(self)@ == refused(old(self)@, error).0,
            receipt@ == refused(old(self)@, error).1,
            final(self).events == old(self).events,
    {
        match error {
            ValidationError::InvalidArgument => self.close_synthesized(
                CloseCause::Protocol,
                ProviderError::InvalidArgument,
            ),
            ValidationError::Limit => self.close_synthesized(
                CloseCause::Limit,
                ProviderError::Limit,
            ),
        }
    }

    /// Closes after a protocol violation.
    pub fn protocol_close(&mut self) -> (receipt: DecoderReceipt)
        requires
            old(self).inv(),
            !old(self).terminal_published,
        ensures
            final(self).inv(),
            final(self)@ == violated(old(self)@).0,
            receipt@ == violated(old(self)@).1,
            final(self).events == old(self).events,
    {
        self.close_synthesized(CloseCause::Protocol, ProviderError::InvalidArgument)
    }

    /// Closes after a failed call of the component.
    pub fn guest_error_close(&mut self, error: ProviderError) -> (receipt: DecoderReceipt)
        requires
            old(self).inv(),
            !old(self).terminal_published,
        ensures
            final(self).inv(),
            final(self)@ == guest_failed(old(self)@, error).0,
            receipt@ == guest_failed(old(self)@, error).1,
            final(self).events == old(self).events,
    {
        self.finish_close(CloseCause::GuestMethod(error), None, Vec::new())
    }

    /// The receipt of a closed decoder.
    pub fn stable_closed_receipt(&self) -> (receipt: DecoderReceipt)
        ensures
            receipt@ == still_closed(self@).1,
    {
        DecoderReceipt {
            accepted_events: Vec::new(),
            close: match &self.close {
                None => None,
                Some(close) => Some(copy_close(close)),
            },
            transitioned: false,
        }
    }

    /// The next action of a closed decoder.
    pub fn closed_action(&mut self) -> (action: DecoderAction)
        requires
            old(self).inv(),
            old(self).state == DecoderState::Closed,
        ensures
            final(self).inv(),
            final(self)@ == closed_action_step(old(self)@).0,
            action@ == closed_action_step(old(self)@).1,
            final(self).events == old(self).events,
    {
        if self.queue_len != 0 {
            return DecoderAction::WaitForConsumer;
        }
        if self.in_flight.is_some() {
            return DecoderAction::AwaitReceipt;
        }
        if self.terminal_published {
            return DecoderAction::Closed;
        }
        let action = match &self.close {
            Some(CloseReceipt { cause: _, terminal: Some(terminal) }) => {
                DecoderAction::PublishTerminal(copy_event(terminal))
            },
            _ => {
                return DecoderAction::Closed;
            },
        };
        self.in_flight = Some(InFlight::PublishTerminal);
        action
    }

    /// Starts a pull.
    pub fn begin_pull(&mut self) -> (action: DecoderAction)
        requires
            old(self).inv(),
            old(self).state != DecoderState::Closed,
            old(self).in_flight is None,
        ensures
            final(self).inv(),
            final(self)@ == begin_pull_step(old(self)@).0,
            action@ == begin_pull_step(old(self)@).1,
            final(self).events == old(self).events,
    {
        let free: usize = self.free_capacity();
        if free == 0 {
            return DecoderAction::WaitForConsumer;
        }
        if self.pulls >= MAX_PULLS {
            self.close_synthesized(CloseCause::Limit, ProviderError::Limit);
            return self.closed_action();
        }
        let limit: u8 = free as u8;
        self.pulls = self.pulls + 1;
        self.in_flight = Some(InFlight::Pull { limit });
        DecoderAction::Pull { limit }
    }

    /// What the host does next.
    pub fn next_action(&mut self) -> (action: DecoderAction)
        requires
            old(self).inv(),
        ensures
            final(self).inv(),
            final(self)@ == next_action_step(old(self)@).0,
            action@ == next_action_step(old(self)@).1,
            final(self).events == old(self).events,
    {
        if self.state == DecoderState::Closed {
            return self.closed_action();
        }
        if self.awaiting_consumer && self.queue_len != 0 {
            return DecoderAction::WaitForConsumer;
        }
        if self.in_flight.is_some() {
            return DecoderAction::AwaitReceipt;
        }
        if let Some(frame) = &self.pending_frame {
            if self.free_capacity() == 0 {
                return DecoderAction::WaitForConsumer;
            }
            let frame = copy_frame(frame);
            self.in_flight = Some(InFlight::PushFrame);
            return DecoderAction::PushFrame(frame);
        }
        match self.state {
            DecoderState::InitialPull
            | DecoderState::DrainingBody
            | DecoderState::DrainingAfterEnd => self.begin_pull(),
            _ => {
                if self.queue_len != 0 || self.free_capacity() == 0 {
                    DecoderAction::WaitForConsumer
                } else {
                    self.in_flight = Some(InFlight::ReadFrame);
                    DecoderAction::ReadFrame
                }
            },
        }
    }

    /// Queues the events of a batch and closes after a terminal event.
    pub fn enqueue_and_maybe_close(&mut self, batch: EventBatch) -> (receipt: DecoderReceipt)
        requires
            old(self).inv(),
            old(self).state != DecoderState::Closed,
            old(self).in_flight is None,
            old(self).queue_len + batch.accepted@.len() <= QUEUE_CAPACITY,
        ensures
            final(self).inv(),
            ({
                let queued = ProtocolState {
                    queue_len: old(self)@.queue_len + batch.accepted@.len(),
                    awaiting_consumer: batch.accepted@.len() != 0,
                    ..old(self)@
                };
                let closed = closing(
                    queued,
                    CloseCause::GuestTerminal,
                    Some(batch.terminal->0@),
                    batch.accepted@,
                );
                match batch.terminal {
                    Some(_) => final(self)@ == closed.0 && receipt@ == closed.1,
                    None => final(self)@ == queued && receipt@ == (ReceiptModel {
                        accepted_events: batch.accepted@,
                        close: None,
                        transitioned: true,
                    }),
                }
            }),
            final(self).events == old(self).events,
    {
        self.queue_len = self.queue_len + batch.accepted.len();
        self.awaiting_consumer = batch.accepted.len() != 0;
        match batch.terminal {
            Some(terminal) => self.finish_close(
                CloseCause::GuestTerminal,
                Some(terminal),
                batch.accepted,
            ),
            None => DecoderReceipt {
                accepted_events: batch.accepted,
                close: None,
                transitioned: true,
            },
        }
    }

    /// Reduces and queues the events of a pull.
    pub fn accept_events(
        &mut self,
        events: Vec<NormalizedEvent>,
        limit: u8,
        after_end: bool,
    ) -> (receipt: DecoderReceipt)
        requires
            old(self).inv(),
            old(self).state != DecoderState::Closed,
            old(self).in_flight is None,
            limit + old(self).queue_len <= QUEUE_CAPACITY,
        ensures
            final(self).inv(),
            ({
                let step = accept_step(
                    old(self)@,
                    old(self).events@,
                    events@,
                    limit,
                    after_end,
                );
                &&& final(self)@ == step.0
                &&& receipt@ == step.1
                &&& final(self).events@ == step.2
            }),
    {
        let successful_status = match self.status {
            Some(status) => status >= 200 && status < 300,
            None => false,
        };
        let ghost before = self@;
        let ghost batch = events@;
        let result = self.events.reduce_batch(events, limit, after_end, successful_status);
        assert(self@ == before);
        match result {
            Ok(batch) => self.enqueue_and_maybe_close(batch),
            Err(error) => self.validation_close(error),
        }
    }

    /// Takes the answer to a pull.
    pub fn pull_receipt(&mut self, result: Result<DecoderPull, ProviderError>) -> (receipt:
        DecoderReceipt)
        requires
            old(self).inv(),
        ensures
            final(self).inv(),
            ({
                let step = pull_step(old(self)@, old(self).events@, result);
                &&& final(self)@ == step.0
                &&& receipt@ == step.1
                &&& final(self).events@ == step.2
            }),
    {
        if self.state == DecoderState::Closed {
            return self.stable_closed_receipt();
        }
        let limit: u8 = match self.in_flight.take() {
            Some(InFlight::Pull { limit }) => limit,
            _ => {
                return self.protocol_close();
            },
        };
        let pull = match result {
            Ok(pull) => pull,
            Err(error) => {
                return self.guest_error_close(error);
            },
        };
        match (self.state, pull) {
            (DecoderState::InitialPull, DecoderPull::NeedFrame) => {
                self.state = DecoderState::NeedHead;
                DecoderReceipt::transitioned()
            },
            (DecoderState::DrainingBody, DecoderPull::NeedFrame) => {
                self.state = DecoderState::NeedBody;
                DecoderReceipt::transitioned()
            },
            (DecoderState::DrainingBody, DecoderPull::Events(events)) => {
                self.accept_events(events, limit, false)
            },
            (DecoderState::DrainingAfterEnd, DecoderPull::Events(events)) => {
                self.accept_events(events, limit, true)
            },
            _ => self.protocol_close(),
        }
    }

    /// Checks a frame against the current state and the body limits.
    pub fn validate_pending_frame(&self, frame: &ResponseFrame) -> (result: ValidationResult)
        ensures
            result == pending_verdict(self@, *frame),
    {
        validate_response_frame(frame)?;
        match (self.state, frame) {
            (DecoderState::NeedHead, ResponseFrame::Head(_)) => Ok(()),
            (DecoderState::NeedBody, ResponseFrame::End) => Ok(()),
            (DecoderState::NeedBody, ResponseFrame::Data(data)) => {
                if self.data_frames >= MAX_DATA_FRAMES {
                    return Err(ValidationError::Limit);
                }
                let next_bytes: u64 = match self.data_bytes.checked_add(data.len() as u64) {
                    Some(next_bytes) => next_bytes,
                    None => {
                        return Err(ValidationError::Limit);
                    },
                };
                let success = match self.status {
                    Some(status) => status >= 200 && status < 300,
                    None => false,
                };
                let maximum: u64 = if success {
                    MAX_SUCCESS_BYTES
                } else {
                    MAX_ERROR_BYTES
                };
                if next_bytes > maximum {
                    return Err(ValidationError::Limit);
                }
                Ok(())
            },
            _ => Err(ValidationError::InvalidArgument),
        }
    }

    /// Takes the answer of the transport.
    pub fn transport_receipt(&mut self, receipt: TransportReceipt) -> (answer: DecoderReceipt)
        requires
            old(self).inv(),
        ensures
            final(self).inv(),
            final(self)@ == transport_step(old(self)@, receipt).0,
            answer@ == transport_step(old(self)@, receipt).1,
            final(self).events == old(self).events,
    {
        if self.state == DecoderState::Closed {
            return self.stable_closed_receipt();
        }
        match self.in_flight.take() {
            Some(InFlight::ReadFrame) => {},
            _ => {
                return self.protocol_close();
            },
        }
        match receipt {
            TransportReceipt::Eof => self.close_synthesized(
                CloseCause::Eof,
                ProviderError::Unavailable,
            ),
            TransportReceipt::Cancelled => self.close_synthesized(
                CloseCause::Cancelled,
                ProviderError::Cancelled,
            ),
            TransportReceipt::Frame(frame) => {
                match self.validate_pending_frame(&frame) {
                    Err(error) => self.validation_close(error),
                    Ok(()) => {
                        self.pending_frame = Some(frame);
                        DecoderReceipt::transitioned()
                    },
                }
            },
        }
    }

    /// Takes the answer to a pushed frame.
    pub fn push_receipt(&mut self, result: Result<FrameAcceptance, ProviderError>) -> (receipt:
        DecoderReceipt)
        requires
            old(self).inv(),
        ensures
            final(self).inv(),
            final(self)@ == push_step(old(self)@, result).0,
            receipt@ == push_step(old(self)@, result).1,
            final(self).events == old(self).events,
    {
        if self.state == DecoderState::Closed {
            return self.stable_closed_receipt();
        }
        match self.in_flight.take() {
            Some(InFlight::PushFrame) => {},
            _ => {
                return self.protocol_close();
            },
        }
        let frame = match self.pending_frame.take() {
            Some(frame) => frame,
            None => {
                return self.protocol_close();
            },
        };
        if let Err(error) = result {
            return self.guest_error_close(error);
        }
        match (self.state, frame) {
            (DecoderState::NeedHead, ResponseFrame::Head(head)) => {
                self.status = Some(head.status);
                self.state = DecoderState::DrainingBody;
            },
            (DecoderState::NeedBody, ResponseFrame::Data(data)) => {
                self.data_frames = self.data_frames + 1;
                self.data_bytes = self.data_bytes + data.len() as u64;
                self.state = DecoderState::DrainingBody;
            },
            (DecoderState::NeedBody, ResponseFrame::End) => {
                self.state = DecoderState::DrainingAfterEnd;
            },
            _ => {
                return self.protocol_close();
            },
        }
        DecoderReceipt::transitioned()
    }

    /// The consumer took events out of the queue.
    pub fn consumer_receipt(&mut self, count: usize) -> (result: ValidationResult)
        requires
            old(self).inv(),
        ensures
            final(self).inv(),
            final(self)@ == consumer_step(old(self)@, count as int).0,
            result == consumer_step(old(self)@, count as int).1,
            final(self).events == old(self).events,
    {
        if count == 0 || count > self.queue_len {
            return Err(ValidationError::InvalidArgument);
        }
        self.queue_len = self.queue_len - count;
        self.awaiting_consumer = false;
        Ok(())
    }

    /// The host published the terminal event.
    pub fn terminal_published(&mut self) -> (result: ValidationResult)
        requires
            old(self).inv(),
        ensures
            final(self).inv(),
            final(self)@ == published_step(old(self)@).0,
            result == published_step(old(self)@).1,
            final(self).events == old(self).events,
    {
        let has_terminal = match &self.close {
            Some(CloseReceipt { cause: _, terminal: Some(_) }) => true,
            _ => false,
        };
        if self.state != DecoderState::Closed || self.queue_len != 0 || self.terminal_published
            || !has_terminal {
            return Err(ValidationError::InvalidArgument);
        }
        match self.in_flight.take() {
            Some(InFlight::PublishTerminal) => {},
            _ => {
                return Err(ValidationError::InvalidArgument);
            },
        }
        self.terminal_published = true;
        Ok(())
    }

    /// The host closes the decoder.
    pub fn close_external(&mut self, cause: ExternalClose) -> (receipt: DecoderReceipt)
        requires
            old(self).inv(),
        ensures
            final(self).inv(),
            final(self)@ == external_step(old(self)@, cause).0,
            receipt@ == external_step(old(self)@, cause).1,
            final(self).events == old(self).events,
    {
        if self.state == DecoderState::Closed {
            return self.stable_closed_receipt();
        }
        match cause {
            ExternalClose::Cancelled => self.close_synthesized(
                CloseCause::Cancelled,
                ProviderError::Cancelled,
            ),
            ExternalClose::Deadline => self.close_synthesized(
                CloseCause::Deadline,
                ProviderError::Cancelled,
            ),
            ExternalClose::Trap => self.close_synthesized(CloseCause::Trap, ProviderError::Failed),
            ExternalClose::Unavailable => self.close_synthesized(
                CloseCause::Unavailable,
                ProviderError::Unavailable,
            ),
            ExternalClose::Failed => self.close_synthesized(
                CloseCause::Failed,
                ProviderError::Failed,
            ),
        }
    }
}

impl DecoderReceipt {
    /// A receipt that moved the protocol on.
    pub fn transitioned() -> (receipt: Self)
        ensures
            receipt@ == moved(),
    {
        Self { accepted_events: Vec::new(), close: None, transitioned: true }
    }
}

} // verus!
