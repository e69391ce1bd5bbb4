//! What holds of accepted requests.

use vstd::prelude::*;
use vstd::utf8::encode_utf8;

use crate::provider_api::{AssistantBlock, Message, OrdinaryHeader};
use crate::provider_validation::charge::Tally;
use crate::provider_validation::prepare::{
    assistant_block_state, assistant_blocks_state, blocks_verdict, header_name_verdict, header_value_verdict,
    headers_verdict, headers_verdict_from, initial_message_state, is_denied_header,
    is_named_before, message_state, messages_state, messages_state_from,
    MatchedText, MessageState, ModelFacts, MAX_HEADERS, MAX_PROOFS_BYTES,
};
use crate::provider_validation::ValidationError;
use crate::text::{bytes_before, lemma_byte_order};

verus! {

// ---------------------------------------------------------------------------
// Headers
// ---------------------------------------------------------------------------

/// Whether a header of a provider is well formed and not denied.
pub open spec fn is_ordinary(header: OrdinaryHeader, reserved: Seq<Seq<char>>) -> bool {
    &&& header_name_verdict(header.name@) is Ok
    &&& header_value_verdict(header.value@) is Ok
    &&& !is_denied_header(header.name@, reserved)
}

/// Whether headers come in strictly increasing order of their names.
pub open spec fn are_sorted(headers: Seq<OrdinaryHeader>) -> bool {
    forall|i: int, j: int|
        0 <= i < j < headers.len() ==> bytes_before(
            encode_utf8((#[trigger] headers[i]).name@),
            encode_utf8((#[trigger] headers[j]).name@),
        )
}

proof fn lemma_sorted_prefix(headers: Seq<OrdinaryHeader>, reserved: Seq<Seq<char>>, n: int)
    requires
        0 <= n <= headers.len(),
        are_sorted(headers.take(n)),
        headers_verdict_from(headers, reserved, n) is Ok,
    ensures
        are_sorted(headers),
        forall|i: int| n <= i < headers.len() ==> is_ordinary(#[trigger] headers[i], reserved),
    decreases headers.len() - n,
{
    if n < headers.len() {
        let name = encode_utf8(headers[n].name@);
        assert forall|i: int, j: int| 0 <= i < j < n + 1 implies bytes_before(
            encode_utf8((#[trigger] headers.take(n + 1)[i]).name@),
            encode_utf8((#[trigger] headers.take(n + 1)[j]).name@),
        ) by {
            if j < n {
                assert(headers.take(n)[i] == headers[i]);
                assert(headers.take(n)[j] == headers[j]);
            } else {
                let last = encode_utf8(headers[n - 1].name@);
                assert(headers[n - 1].name@ != headers[n].name@) by {
                    assert(!is_named_before(headers, n, headers[n].name@));
                }
                assert(bytes_before(last, name));
                if i < n - 1 {
                    assert(headers.take(n)[i] == headers[i]);
                    assert(headers.take(n)[n - 1] == headers[n - 1]);
                    lemma_byte_order(encode_utf8(headers[i].name@), last, name);
                }
            }
        }
        lemma_sorted_prefix(headers, reserved, n + 1);
    } else {
        assert(headers.take(n) =~= headers);
    }
}

proof fn lemma_sorted_headers_pass(headers: Seq<OrdinaryHeader>, reserved: Seq<Seq<char>>, n: int)
    requires
        0 <= n <= headers.len(),
        are_sorted(headers),
        forall|i: int| 0 <= i < headers.len() ==> is_ordinary(#[trigger] headers[i], reserved),
    ensures
        headers_verdict_from(headers, reserved, n) is Ok,
    decreases headers.len() - n,
{
    if n < headers.len() {
        lemma_sorted_headers_pass(headers, reserved, n + 1);
        assert(is_ordinary(headers[n], reserved));
        if is_named_before(headers, n, headers[n].name@) {
            let i = choose|i: int| 0 <= i < n && (#[trigger] headers[i]).name@ == headers[n].name@;
            let name = encode_utf8(headers[n].name@);
            assert(bytes_before(encode_utf8(headers[i].name@), name));
            lemma_byte_order(name, name, name);
        }
        if n > 0 {
            assert(bytes_before(
                encode_utf8(headers[n - 1].name@),
                encode_utf8(headers[n].name@),
            ));
        }
    }
}

/// Headers are accepted exactly when there are not too many, each is well
/// formed and not denied, and they come in strictly increasing order of their
/// names, so that none occurs twice.
pub proof fn lemma_accepted_headers_are_sorted(
    headers: Seq<OrdinaryHeader>,
    reserved: Seq<Seq<char>>,
)
    ensures
        headers_verdict(headers, reserved) is Ok <==> {
            &&& headers.len() <= MAX_HEADERS
            &&& are_sorted(headers)
            &&& forall|i: int|
                0 <= i < headers.len() ==> is_ordinary(#[trigger] headers[i], reserved)
        },
{
    if headers_verdict(headers, reserved) is Ok {
        lemma_sorted_prefix(headers, reserved, 0);
    }
    if are_sorted(headers) && (forall|i: int|
        0 <= i < headers.len() ==> is_ordinary(#[trigger] headers[i], reserved)) {
        lemma_sorted_headers_pass(headers, reserved, 0);
    }
}

// ---------------------------------------------------------------------------
// Messages
// ---------------------------------------------------------------------------

/// What every accepted part of a conversation keeps: calls have distinct
/// identifiers and defined tools, the results answer the first calls in order,
/// and the other calls wait in order.
pub open spec fn is_coherent(state: MessageState, definitions: Seq<Seq<char>>) -> bool {
    &&& state.call_ids.no_duplicates()
    &&& state.call_ids.len() == state.matched.len() + state.pending.len()
    &&& forall|k: int|
        0 <= k < state.matched.len() ==> (#[trigger] state.matched[k]).call_id
            == state.call_ids[k] && definitions.contains(state.matched[k].name)
    &&& forall|k: int|
        0 <= k < state.pending.len() ==> (#[trigger] state.pending[k]).0
            == state.call_ids[state.matched.len() + k] && definitions.contains(
            state.pending[k].1,
        )
    &&& state.has_calls == (state.call_ids.len() > 0)
    &&& 0 <= state.proof_bytes <= MAX_PROOFS_BYTES
}

/// An accepted block of an assistant message keeps a coherent state so.
pub proof fn lemma_block_keeps_coherence(
    state: MessageState,
    block: AssistantBlock,
    definitions: Seq<Seq<char>>,
    entry: ModelFacts,
)
    requires
        is_coherent(state, definitions),
        assistant_block_state(state, block, definitions, entry).tally.verdict is Ok,
    ensures
        is_coherent(assistant_block_state(state, block, definitions, entry), definitions),
        assistant_block_state(state, block, definitions, entry).matched == state.matched,
        assistant_block_state(state, block, definitions, entry).call_ids.len()
            == state.call_ids.len() + (if block is ToolCall {
            1int
        } else {
            0
        }),
{
    reveal(assistant_block_state);
    let next = assistant_block_state(state, block, definitions, entry);
    if let AssistantBlock::ToolCall(call) = block {
        assert(!state.call_ids.contains(call.call_id@));
        assert forall|k: int| 0 <= k < next.matched.len() implies (
        #[trigger] next.matched[k]).call_id == next.call_ids[k] && definitions.contains(
            next.matched[k].name,
        ) by {
            assert(next.matched[k] == state.matched[k]);
        }
        assert forall|k: int| 0 <= k < next.pending.len() implies (#[trigger] next.pending[k]).0
            == next.call_ids[next.matched.len() + k] && definitions.contains(
            next.pending[k].1,
        ) by {
            if k < state.pending.len() {
                assert(next.pending[k] == state.pending[k]);
            }
        }
    }
}

/// The accepted blocks of an assistant message keep a coherent state so.
pub proof fn lemma_blocks_keep_coherence(
    state: MessageState,
    blocks: Seq<AssistantBlock>,
    i: int,
    definitions: Seq<Seq<char>>,
    entry: ModelFacts,
)
    requires
        0 <= i <= blocks.len(),
        is_coherent(state, definitions),
        assistant_blocks_state(state, blocks, i, definitions, entry).tally.verdict is Ok,
    ensures
        is_coherent(assistant_blocks_state(state, blocks, i, definitions, entry), definitions),
        assistant_blocks_state(state, blocks, i, definitions, entry).matched == state.matched,
    decreases blocks.len() - i,
{
    if i < blocks.len() {
        let next = assistant_block_state(state, blocks[i], definitions, entry);
        if next.tally.verdict is Err {
            reveal_with_fuel(assistant_blocks_state, 2);
        } else {
            lemma_block_keeps_coherence(state, blocks[i], definitions, entry);
            lemma_blocks_keep_coherence(next, blocks, i + 1, definitions, entry);
        }
    }
}

/// An accepted message keeps a coherent state so.
pub proof fn lemma_message_keeps_coherence(
    state: MessageState,
    message: Message,
    definitions: Seq<Seq<char>>,
    entry: ModelFacts,
)
    requires
        is_coherent(state, definitions),
        message_state(state, message, definitions, entry).tally.verdict is Ok,
    ensures
        is_coherent(message_state(state, message, definitions, entry), definitions),
        message_state(state, message, definitions, entry).matched.len() == state.matched.len() + (
        if message is ToolResult {
            1int
        } else {
            0
        }),
{
    let next = message_state(state, message, definitions, entry);
    match message {
        Message::User(_) => {},
        Message::Assistant(assistant) => {
            let tagged = MessageState { tally: state.tally.charge(4), ..state };
            let opened = MessageState {
                tally: tagged.tally.ensure(
                    tagged.pending.len() == 0,
                    ValidationError::InvalidArgument,
                ).check(blocks_verdict(assistant.blocks@.len() as int)).charge(4),
                ..tagged
            };
            lemma_blocks_keep_coherence(opened, assistant.blocks@, 0, definitions, entry);
        },
        Message::ToolResult(result) => {
            assert(state.pending.len() > 0 && result.call_id@ == state.pending[0].0);
            let done = state.matched.len() as int;
            assert forall|k: int| 0 <= k < next.matched.len() implies (
            #[trigger] next.matched[k]).call_id == next.call_ids[k] && definitions.contains(
                next.matched[k].name,
            ) by {
                if k < done {
                    assert(next.matched[k] == state.matched[k]);
                } else {
                    assert(state.pending[0].0 == state.call_ids[done + 0]);
                }
            }
            assert forall|k: int| 0 <= k < next.pending.len() implies (
            #[trigger] next.pending[k]).0 == next.call_ids[next.matched.len() + k]
                && definitions.contains(next.pending[k].1) by {
                assert(next.pending[k] == state.pending[k + 1]);
            }
        },
    }
}

/// The number of results among the messages from position `i` on.
pub open spec fn result_count(messages: Seq<Message>, i: int) -> int
    decreases messages.len() - i,
{
    if i >= messages.len() {
        0
    } else {
        result_count(messages, i + 1) + if messages[i] is ToolResult {
            1int
        } else {
            0
        }
    }
}

proof fn lemma_messages_keep_coherence(
    state: MessageState,
    messages: Seq<Message>,
    i: int,
    definitions: Seq<Seq<char>>,
    entry: ModelFacts,
)
    requires
        0 <= i <= messages.len(),
        is_coherent(state, definitions),
        messages_state_from(state, messages, i, definitions, entry).tally.verdict is Ok,
    ensures
        is_coherent(messages_state_from(state, messages, i, definitions, entry), definitions),
        messages_state_from(state, messages, i, definitions, entry).matched.len()
            == state.matched.len() + result_count(messages, i),
    decreases messages.len() - i,
{
    if i < messages.len() {
        let next = message_state(state, messages[i], definitions, entry);
        if next.tally.verdict is Err {
            reveal_with_fuel(messages_state_from, 2);
        } else {
            lemma_message_keeps_coherence(state, messages[i], definitions, entry);
            lemma_messages_keep_coherence(next, messages, i + 1, definitions, entry);
        }
    }
}

/// The calls among the blocks of an assistant message from position `i` on: the
/// identifier and the tool of each.
pub open spec fn block_calls(
    blocks: Seq<AssistantBlock>,
    i: int,
) -> Seq<(Seq<char>, Seq<char>)>
    decreases blocks.len() - i,
{
    if i >= blocks.len() {
        Seq::empty()
    } else {
        match blocks[i] {
            AssistantBlock::ToolCall(call) => seq![(call.call_id@, call.name@)] + block_calls(
                blocks,
                i + 1,
            ),
            _ => block_calls(blocks, i + 1),
        }
    }
}

/// The calls that a message makes.
pub open spec fn message_calls(message: Message) -> Seq<(Seq<char>, Seq<char>)> {
    match message {
        Message::Assistant(assistant) => block_calls(assistant.blocks@, 0),
        _ => Seq::empty(),
    }
}

/// The calls that the messages from position `i` on make.
pub open spec fn calls_from(messages: Seq<Message>, i: int) -> Seq<(Seq<char>, Seq<char>)>
    decreases messages.len() - i,
{
    if i >= messages.len() {
        Seq::empty()
    } else {
        message_calls(messages[i]) + calls_from(messages, i + 1)
    }
}

/// Whether message `at` is the result of the call with the given identifier.
pub open spec fn is_answer(messages: Seq<Message>, at: int, call_id: Seq<char>) -> bool {
    &&& 0 <= at < messages.len()
    &&& messages[at] matches Message::ToolResult(result) && result.call_id@ == call_id
}

/// Whether the messages from position `at` on begin with one result for each of
/// the calls, in the order of the calls, and no further result follows these.
pub open spec fn answers_stand_at(
    messages: Seq<Message>,
    at: int,
    calls: Seq<(Seq<char>, Seq<char>)>,
) -> bool {
    &&& forall|k: int|
        0 <= k < calls.len() ==> is_answer(messages, at + k, (#[trigger] calls[k]).0)
    &&& at + calls.len() < messages.len() ==> !(messages[at + calls.len()] is ToolResult)
}

/// Whether message `at`, unless it is a result itself, is followed at once by the
/// results of its calls, and by no other result.
pub open spec fn is_answered_at_once(messages: Seq<Message>, at: int) -> bool {
    messages[at] is ToolResult || answers_stand_at(
        messages,
        at + 1,
        message_calls(messages[at]),
    )
}

/// The calls that have been answered, with their tools.
pub open spec fn answered_calls(matched: Seq<MatchedText>) -> Seq<(Seq<char>, Seq<char>)> {
    matched.map_values(|answer: MatchedText| (answer.call_id, answer.name))
}

/// Accepted blocks add their calls to those that wait.
pub proof fn lemma_blocks_collect_calls(
    state: MessageState,
    blocks: Seq<AssistantBlock>,
    i: int,
    definitions: Seq<Seq<char>>,
    entry: ModelFacts,
)
    requires
        0 <= i <= blocks.len(),
        assistant_blocks_state(state, blocks, i, definitions, entry).tally.verdict is Ok,
    ensures
        assistant_blocks_state(state, blocks, i, definitions, entry).pending == state.pending
            + block_calls(blocks, i),
        assistant_blocks_state(state, blocks, i, definitions, entry).matched == state.matched,
    decreases blocks.len() - i,
{
    reveal(assistant_block_state);
    if i < blocks.len() {
        let next = assistant_block_state(state, blocks[i], definitions, entry);
        if next.tally.verdict is Err {
            reveal_with_fuel(assistant_blocks_state, 2);
        } else {
            lemma_blocks_collect_calls(next, blocks, i + 1, definitions, entry);
            assert(next.pending + block_calls(blocks, i + 1) =~= state.pending + block_calls(
                blocks,
                i,
            ));
        }
    } else {
        assert(state.pending + block_calls(blocks, i) =~= state.pending);
    }
}

proof fn lemma_answers_follow(
    state: MessageState,
    messages: Seq<Message>,
    i: int,
    definitions: Seq<Seq<char>>,
    entry: ModelFacts,
)
    requires
        0 <= i <= messages.len(),
        messages_state_from(state, messages, i, definitions, entry).tally.verdict is Ok,
        messages_state_from(state, messages, i, definitions, entry).pending.len() == 0,
    ensures
        answers_stand_at(messages, i, state.pending),
        forall|m: int| i <= m < messages.len() ==> #[trigger] is_answered_at_once(messages, m),
        answered_calls(
            messages_state_from(state, messages, i, definitions, entry).matched,
        ) == answered_calls(state.matched) + state.pending + calls_from(messages, i),
    decreases messages.len() - i,
{
    let last = messages_state_from(state, messages, i, definitions, entry);
    if i == messages.len() {
        assert(answered_calls(last.matched) =~= answered_calls(state.matched) + state.pending
            + calls_from(messages, i));
    } else {
        let next = message_state(state, messages[i], definitions, entry);
        if next.tally.verdict is Err {
            reveal_with_fuel(messages_state_from, 2);
        } else {
            lemma_answers_follow(next, messages, i + 1, definitions, entry);
            lemma_message_collects(state, messages[i], definitions, entry);
            if messages[i] is ToolResult {
                assert(answered_calls(next.matched) + next.pending =~= answered_calls(state.matched)
                    + state.pending);
                assert(calls_from(messages, i) =~= calls_from(messages, i + 1));
                assert forall|k: int| 0 <= k < state.pending.len() implies is_answer(
                    messages,
                    i + k,
                    (#[trigger] state.pending[k]).0,
                ) by {
                    if k > 0 {
                        assert(next.pending[k - 1] == state.pending[k]);
                        assert(is_answer(messages, i + 1 + (k - 1), next.pending[k - 1].0));
                    }
                }
                assert(i + 1 + next.pending.len() == i + state.pending.len());
            } else {
                assert(answered_calls(next.matched) + next.pending + calls_from(messages, i + 1)
                    =~= answered_calls(state.matched) + state.pending + calls_from(messages, i));
                assert(is_answered_at_once(messages, i));
            }
        }
    }
}

/// What an accepted message does to the waiting calls and their answers.
pub proof fn lemma_message_collects(
    state: MessageState,
    message: Message,
    definitions: Seq<Seq<char>>,
    entry: ModelFacts,
)
    requires
        message_state(state, message, definitions, entry).tally.verdict is Ok,
    ensures
        ({
            let next = message_state(state, message, definitions, entry);
            match message {
                Message::ToolResult(result) => {
                    &&& state.pending.len() > 0
                    &&& result.call_id@ == state.pending[0].0
                    &&& next.pending == state.pending.subrange(1, state.pending.len() as int)
                    &&& answered_calls(next.matched) == answered_calls(state.matched).push(
                        state.pending[0],
                    )
                },
                _ => {
                    &&& state.pending.len() == 0
                    &&& next.pending == message_calls(message)
                    &&& next.matched == state.matched
                },
            }
        }),
{
    let next = message_state(state, message, definitions, entry);
    match message {
        Message::User(_) => {
            assert(next.pending =~= message_calls(message));
        },
        Message::Assistant(assistant) => {
            let tagged = MessageState { tally: state.tally.charge(4), ..state };
            let opened = MessageState {
                tally: tagged.tally.ensure(
                    tagged.pending.len() == 0,
                    ValidationError::InvalidArgument,
                ).check(blocks_verdict(assistant.blocks@.len() as int)).charge(4),
                ..tagged
            };
            lemma_blocks_collect_calls(opened, assistant.blocks@, 0, definitions, entry);
            assert(next.pending =~= message_calls(message));
        },
        Message::ToolResult(_) => {
            assert(answered_calls(next.matched) =~= answered_calls(state.matched).push(
                state.pending[0],
            ));
        },
    }
}

/// In an accepted conversation every call has its own identifier and a defined
/// tool. The calls of an assistant message are answered at once: the messages
/// right after it are one result for each of its calls, in their order. There
/// are no other results.
pub proof fn lemma_accepted_calls_are_answered(
    tally: Tally,
    messages: Seq<Message>,
    definitions: Seq<Seq<char>>,
    entry: ModelFacts,
)
    requires
        messages_state(tally, messages, definitions, entry).tally.verdict is Ok,
    ensures
        forall|m: int| 0 <= m < messages.len() ==> #[trigger] is_answered_at_once(messages, m),
        messages.len() > 0 ==> !(messages[0] is ToolResult),
        ({
            let state = messages_state(tally, messages, definitions, entry);
            &&& answered_calls(state.matched) == calls_from(messages, 0)
            &&& state.call_ids.no_duplicates()
            &&& state.matched.len() == state.call_ids.len()
            &&& state.matched.len() == result_count(messages, 0)
            &&& forall|k: int|
                0 <= k < state.matched.len() ==> (#[trigger] state.matched[k]).call_id
                    == state.call_ids[k] && definitions.contains(state.matched[k].name)
            &&& state.has_calls == (state.call_ids.len() > 0)
            &&& state.proof_bytes <= MAX_PROOFS_BYTES
        }),
{
    reveal(messages_state);
    let start = initial_message_state(tally);
    lemma_messages_keep_coherence(start, messages, 0, definitions, entry);
    lemma_answers_follow(start, messages, 0, definitions, entry);
    assert(answered_calls(start.matched) + start.pending + calls_from(messages, 0) =~= calls_from(
        messages,
        0,
    ));
}

} // verus!
