//! Pure decoder validation, protocol, event and backpressure reducers.

use vstd::prelude::*;

use crate::provider_api::{
    CompletionTerminal, DecoderPull, NormalizedEvent, ProviderError, ResponseFrame, Usage,
};
use crate::provider_validation::charge::{checked_len, LogicalCharge, Tally};
use crate::provider_validation::scalar;
use crate::provider_validation::scalar::{
    identifier_verdict, label_verdict, safe_verdict, tracking_verdict,
};
use crate::provider_validation::{also, verdict, ValidationError, ValidationResult};

pub mod event_laws;
pub mod events;
pub mod laws;
pub mod protocol;
pub mod protocol_laws;
pub mod round_trip;
pub mod tool_json;

verus! {

/// What a decoder may emit: reasoning proofs, calls of the named tools, and
/// the model names that may be reported.
#[derive(Debug, Clone)]
pub struct DecoderPolicy {
    pub proof_supported: bool,
    pub tool_names: Vec<String>,
    pub reported_models: Vec<String>,
}

impl DecoderPolicy {
    /// A policy with the given permissions.
    pub fn new(
        proof_supported: bool,
        tool_names: Vec<String>,
        reported_models: Vec<String>,
    ) -> (policy: Self)
        ensures
            policy == (DecoderPolicy { proof_supported, tool_names, reported_models }),
    {
        Self { proof_supported, tool_names, reported_models }
    }

    /// A policy that permits none of these.
    pub fn empty() -> (policy: Self)
        ensures
            !policy.proof_supported,
            policy.tool_names@ == Seq::<String>::empty(),
            policy.reported_models@ == Seq::<String>::empty(),
    {
        Self::new(false, Vec::new(), Vec::new())
    }
}

/// Largest number of events of one pull.
pub const MAX_PULL_LIMIT: u8 = 16;

/// Largest data frame: 64 kibibytes.
pub const MAX_FRAME_DATA_BYTES: usize = 65_536;

/// Largest delta text: 64 kibibytes.
pub const MAX_DELTA_BYTES: usize = 65_536;

/// Largest charge of one event: 128 kibibytes.
pub const MAX_SINGLE_EVENT_CHARGE: u64 = 131_072;

/// Largest charge of one batch: one mebibyte.
pub const MAX_BATCH_CHARGE: u64 = 1_048_576;

/// Largest usage number: the largest signed 64-bit number.
pub const MAX_USAGE: u64 = 0x7fff_ffff_ffff_ffff;

/// The verdict on a pull limit.
pub open spec fn pull_limit_verdict(limit: u8) -> ValidationResult {
    verdict(1 <= limit <= MAX_PULL_LIMIT, ValidationError::Limit)
}

/// Checks a pull limit.
pub fn validate_pull_limit(limit: u8) -> (result: ValidationResult)
    ensures
        result == pull_limit_verdict(limit),
{
    if limit < 1 || limit > MAX_PULL_LIMIT {
        return Err(ValidationError::Limit);
    }
    Ok(())
}

/// The verdict on a response frame.
pub open spec fn frame_verdict(frame: ResponseFrame) -> ValidationResult {
    match frame {
        ResponseFrame::Head(head) => verdict(
            200 <= head.status <= 599,
            ValidationError::InvalidArgument,
        ),
        ResponseFrame::Data(data) => also(
            verdict(data@.len() > 0, ValidationError::InvalidArgument),
            verdict(data@.len() <= MAX_FRAME_DATA_BYTES, ValidationError::Limit),
        ),
        ResponseFrame::End => Ok(()),
    }
}

/// Checks a response frame.
pub fn validate_response_frame(frame: &ResponseFrame) -> (result: ValidationResult)
    ensures
        result == frame_verdict(*frame),
{
    match frame {
        ResponseFrame::Head(head) => {
            if head.status < 200 || head.status > 599 {
                return Err(ValidationError::InvalidArgument);
            }
            Ok(())
        },
        ResponseFrame::Data(data) => {
            if data.len() == 0 {
                return Err(ValidationError::InvalidArgument);
            }
            if data.len() > MAX_FRAME_DATA_BYTES {
                return Err(ValidationError::Limit);
            }
            Ok(())
        },
        ResponseFrame::End => Ok(()),
    }
}

/// A content index is below 64.
pub open spec fn content_index_verdict(index: u8) -> ValidationResult {
    verdict(index <= 63, ValidationError::InvalidArgument)
}

/// Checks a content index.
pub fn validate_content_index(index: u8) -> (result: ValidationResult)
    ensures
        result == content_index_verdict(index),
{
    if index > 63 {
        return Err(ValidationError::InvalidArgument);
    }
    Ok(())
}

/// Charging a nonempty delta text.
pub open spec fn delta_tally(tally: Tally, value: Seq<char>) -> Tally {
    tally.check(safe_verdict(value, MAX_DELTA_BYTES as int, true)).string(value)
}

/// Checks and charges a delta text.
pub fn validate_delta(value: &str, charge: &mut LogicalCharge) -> (result: ValidationResult)
    ensures
        final(charge).after(result) == delta_tally(old(charge).tally(), value@),
{
    scalar::safe(value, MAX_DELTA_BYTES, true)?;
    charge.string(value)
}

/// Charging one optional usage number.
pub open spec fn usage_value_tally(tally: Tally, value: Option<u64>) -> Tally {
    match value {
        None => tally.charge(4),
        Some(value) => tally.charge(4).ensure(value <= MAX_USAGE, ValidationError::Limit).charge(
            8,
        ),
    }
}

/// Checks and charges one optional usage number.
pub fn validate_usage_value(value: Option<u64>, charge: &mut LogicalCharge) -> (result:
    ValidationResult)
    ensures
        final(charge).after(result) == usage_value_tally(old(charge).tally(), value),
{
    charge.add(4)?;
    if let Some(value) = value {
        if value > MAX_USAGE {
            return Err(ValidationError::Limit);
        }
        charge.add(8)?;
    }
    Ok(())
}

/// Charging the four usage numbers.
pub open spec fn usage_tally(tally: Tally, usage: Usage) -> Tally {
    usage_value_tally(
        usage_value_tally(
            usage_value_tally(
                usage_value_tally(tally, usage.input_tokens),
                usage.output_tokens,
            ),
            usage.cache_read_tokens,
        ),
        usage.cache_write_tokens,
    )
}

/// Checks and charges the usage of a completion.
pub fn validate_usage(usage: &Usage, charge: &mut LogicalCharge) -> (result: ValidationResult)
    ensures
        final(charge).after(result) == usage_tally(old(charge).tally(), *usage),
{
    validate_usage_value(usage.input_tokens, charge)?;
    validate_usage_value(usage.output_tokens, charge)?;
    validate_usage_value(usage.cache_read_tokens, charge)?;
    validate_usage_value(usage.cache_write_tokens, charge)
}

/// Charging a completion.
pub open spec fn terminal_tally(tally: Tally, terminal: CompletionTerminal) -> Tally {
    let tagged = tally.charge(4).charge(4);
    usage_tally(
        match terminal.reported_model {
            None => tagged,
            Some(model) => tagged.check(identifier_verdict(model)).string(model.text@),
        },
        terminal.usage,
    )
}

/// Checks and charges a completion.
pub fn validate_terminal(terminal: &CompletionTerminal, charge: &mut LogicalCharge) -> (result:
    ValidationResult)
    ensures
        final(charge).after(result) == terminal_tally(old(charge).tally(), *terminal),
{
    charge.add(4)?;
    charge.add(4)?;
    if let Some(model) = &terminal.reported_model {
        scalar::model_id(model)?;
        charge.string(model.text.as_str())?;
    }
    validate_usage(&terminal.usage, charge)
}

/// Charging a stable error.
pub open spec fn stable_error_tally(tally: Tally, error: ProviderError) -> Tally {
    match error {
        ProviderError::UnsupportedFlow(_) => tally.charge(4).charge(4),
        _ => tally.charge(4),
    }
}

/// Charges a stable error.
pub fn validate_stable_error(error: &ProviderError, charge: &mut LogicalCharge) -> (result:
    ValidationResult)
    ensures
        final(charge).after(result) == stable_error_tally(old(charge).tally(), *error),
{
    charge.add(4)?;
    match error {
        ProviderError::UnsupportedFlow(_) => charge.add(4),
        _ => Ok(()),
    }
}

/// Charging one event.
pub open spec fn event_tally(event: NormalizedEvent) -> Tally {
    let start = (Tally { value: 0, limit: MAX_SINGLE_EVENT_CHARGE as int, verdict: Ok(()) }).charge(
        4,
    );
    match event {
        NormalizedEvent::TextDelta(delta) => delta_tally(
            start.check(content_index_verdict(delta.content_index)).charge(1),
            delta.text@,
        ),
        NormalizedEvent::ReasoningDelta(delta) => delta_tally(
            start.check(content_index_verdict(delta.content_index)).charge(1).charge(4),
            delta.text@,
        ),
        NormalizedEvent::ReasoningProof(proof) => start.check(
            content_index_verdict(proof.content_index),
        ).charge(1).charge(4).ensure(
            proof.proof@.len() > 0,
            ValidationError::InvalidArgument,
        ).ensure(proof.proof@.len() <= MAX_DELTA_BYTES, ValidationError::Limit).charge(4).charge(
            proof.proof@.len() as int,
        ),
        NormalizedEvent::ToolCallStart(call) => start.check(
            content_index_verdict(call.content_index),
        ).check(tracking_verdict(call.call_id@)).check(label_verdict(call.name@, 128)).charge(
            1,
        ).string(call.call_id@).string(call.name@),
        NormalizedEvent::ToolArgumentsDelta(delta) => delta_tally(
            start.check(content_index_verdict(delta.content_index)).check(
                tracking_verdict(delta.call_id@),
            ).charge(1).string(delta.call_id@),
            delta.delta@,
        ),
        NormalizedEvent::ToolCallEnd(call) => start.check(
            content_index_verdict(call.content_index),
        ).check(tracking_verdict(call.call_id@)).charge(1).string(call.call_id@),
        NormalizedEvent::Completed(terminal) => terminal_tally(start, terminal),
        NormalizedEvent::Failed(error) => stable_error_tally(start, error),
    }
}

/// The verdict on one event, with its charge.
pub open spec fn event_verdict(event: NormalizedEvent) -> ValidationResult<u64> {
    event_tally(event).finish(event_tally(event).value as u64)
}

/// Checks one event and returns its charge.
pub fn validate_normalized_event(event: &NormalizedEvent) -> (result: ValidationResult<u64>)
    ensures
        result == event_verdict(*event),
{
    let mut charge = LogicalCharge::new(MAX_SINGLE_EVENT_CHARGE);
    charge.add(4)?;
    match event {
        NormalizedEvent::TextDelta(delta) => {
            validate_content_index(delta.content_index)?;
            charge.add(1)?;
            validate_delta(delta.text.as_str(), &mut charge)?;
        },
        NormalizedEvent::ReasoningDelta(delta) => {
            validate_content_index(delta.content_index)?;
            charge.add(1)?;
            charge.add(4)?;
            validate_delta(delta.text.as_str(), &mut charge)?;
        },
        NormalizedEvent::ReasoningProof(evidence) => {
            validate_content_index(evidence.content_index)?;
            charge.add(1)?;
            charge.add(4)?;
            if evidence.proof.len() == 0 {
                return Err(ValidationError::InvalidArgument);
            }
            if evidence.proof.len() > MAX_DELTA_BYTES {
                return Err(ValidationError::Limit);
            }
            charge.add(4)?;
            charge.add(checked_len(evidence.proof.len())?)?;
        },
        NormalizedEvent::ToolCallStart(start) => {
            validate_content_index(start.content_index)?;
            scalar::tracking_id(start.call_id.as_str())?;
            scalar::label(start.name.as_str(), 128)?;
            charge.add(1)?;
            charge.string(start.call_id.as_str())?;
            charge.string(start.name.as_str())?;
        },
        NormalizedEvent::ToolArgumentsDelta(delta) => {
            validate_content_index(delta.content_index)?;
            scalar::tracking_id(delta.call_id.as_str())?;
            charge.add(1)?;
            charge.string(delta.call_id.as_str())?;
            validate_delta(delta.delta.as_str(), &mut charge)?;
        },
        NormalizedEvent::ToolCallEnd(end) => {
            validate_content_index(end.content_index)?;
            scalar::tracking_id(end.call_id.as_str())?;
            charge.add(1)?;
            charge.string(end.call_id.as_str())?;
        },
        NormalizedEvent::Completed(terminal) => validate_terminal(terminal, &mut charge)?,
        NormalizedEvent::Failed(error) => validate_stable_error(error, &mut charge)?,
    }
    Ok(charge.value())
}

/// Charging the events of a batch from position `i` on.
pub open spec fn batch_tally_from(tally: Tally, events: Seq<NormalizedEvent>, i: int) -> Tally
    decreases events.len() - i,
{
    if tally.verdict is Err || i >= events.len() {
        tally
    } else {
        batch_tally_from(
            match event_verdict(events[i]) {
                Ok(charge) => tally.charge(charge as int),
                Err(error) => tally.check(Err(error)),
            },
            events,
            i + 1,
        )
    }
}

/// The verdict on a batch of events: not empty, not longer than the pull
/// limit, every event valid, and within the batch charge.
pub open spec fn batch_verdict(events: Seq<NormalizedEvent>, limit: u8) -> ValidationResult {
    let start = Tally { value: 0, limit: MAX_BATCH_CHARGE as int, verdict: Ok(()) };
    also(
        pull_limit_verdict(limit),
        also(
            verdict(events.len() > 0, ValidationError::InvalidArgument),
            also(
                verdict(events.len() <= limit, ValidationError::Limit),
                batch_tally_from(start.charge(4), events, 0).verdict,
            ),
        ),
    )
}

/// Checks a batch of events.
pub fn validate_event_batch(events: &[NormalizedEvent], limit: u8) -> (result: ValidationResult)
    ensures
        result == batch_verdict(events@, limit),
{
    validate_pull_limit(limit)?;
    if events.len() == 0 {
        return Err(ValidationError::InvalidArgument);
    }
    if events.len() > limit as usize {
        return Err(ValidationError::Limit);
    }
    let mut batch = LogicalCharge::new(MAX_BATCH_CHARGE);
    batch.add(4)?;
    let mut i: usize = 0;
    while i < events.len()
        invariant
            i <= events@.len(),
            batch_verdict(events@, limit) == batch_tally_from(
                batch.tally(),
                events@,
                i as int,
            ).verdict,
        decreases events.len() - i,
    {
        proof {
            reveal_with_fuel(batch_tally_from, 2);
        }
        let charge: u64 = validate_normalized_event(&events[i])?;
        batch.add(charge)?;
        i += 1;
    }
    Ok(())
}

/// The verdict on the answer to a pull.
pub open spec fn pull_verdict(pull: DecoderPull, limit: u8) -> ValidationResult {
    match pull {
        DecoderPull::NeedFrame => pull_limit_verdict(limit),
        DecoderPull::Events(events) => batch_verdict(events@, limit),
    }
}

/// Checks the answer to a pull.
pub fn validate_decoder_pull(pull: &DecoderPull, limit: u8) -> (result: ValidationResult)
    ensures
        result == pull_verdict(*pull, limit),
{
    match pull {
        DecoderPull::NeedFrame => validate_pull_limit(limit),
        DecoderPull::Events(events) => validate_event_batch(events.as_slice(), limit),
    }
}

/// Reduces one failure of a response without success, after the given number
/// and charge of earlier events.
pub fn reduce_failed_batch_with_cumulative_usage_for_test(
    event_count: u64,
    event_charge: u64,
) -> (result: ValidationResult)
    requires
        event_count <= events::MAX_EVENTS,
        event_charge <= events::MAX_CUMULATIVE_EVENT_CHARGE,
    ensures
        result == verdict(
            event_count + 1 <= events::MAX_EVENTS && event_charge + 8
                <= events::MAX_CUMULATIVE_EVENT_CHARGE,
            ValidationError::Limit,
        ),
{
    let policy = DecoderPolicy::empty();
    let mut reducer = events::EventReducer::new(&policy);
    reducer.set_cumulative_usage_for_test(event_count, event_charge);
    let mut batch: Vec<NormalizedEvent> = Vec::new();
    batch.push(NormalizedEvent::Failed(ProviderError::Unavailable));
    proof {
        reveal_with_fuel(batch_tally_from, 3);
    }
    match reducer.reduce_batch(batch, 1, true, false) {
        Ok(_) => Ok(()),
        Err(error) => Err(error),
    }
}

} // verus!
