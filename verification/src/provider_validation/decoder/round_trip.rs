//! Tool arguments are exactly the canonical texts of bounded objects.

use vstd::prelude::*;
use vstd::utf8::encode_utf8;

use crate::provider_api::{JsonDocument, JsonNode};
use crate::provider_validation::decoder::tool_json::{
    arguments_verdict, document_at, ends_number, escape, fields_at, has_key, holds, holds_word,
    items_at, number_end, skip_blanks, string_at, string_rest, value_at, MAX_TOOL_ARGUMENT_BYTES,
    MAX_TOOL_ARGUMENT_CHARGE, MAX_TOOL_ARGUMENT_DEPTH, MAX_TOOL_ARGUMENT_NODES,
};
use crate::provider_validation::scalar::{is_safe_text, is_unsafe, MAX_LOGICAL_CHARGE};
use crate::provider_validation::wire_json::children_of;
use crate::provider_validation::wire_text::{
    child_label, document_text, escaped_char, escaped_text, lemma_document_text, node_text,
    string_text,
};
use crate::provider_validation::wire_tree::{
    children_charge, children_depth, children_size, fields_charge, has_good_content, has_good_key,
    is_bounded_tree, is_fresh, is_good_node, is_named, lemma_accepted_documents_are_trees,
    lemma_trees_hold_every_node, names, node_charge, node_depth, nodes_charge, tree_charge,
    tree_size,
};
use crate::provider_validation::wire_value::{
    all_good, lemma_children_come_before, lemma_first_character, lemma_number_characters,
    lemma_rest_text, lemma_same_values_are_written_alike, rest_text, same_children, same_value,
};
use crate::provider_validation::ValidationResult;
use crate::text::{byte_len, bytes_before, lemma_byte_order, lemma_encoding_is_injective};

verus! {

// ---------------------------------------------------------------------------
// Positions
// ---------------------------------------------------------------------------

proof fn lemma_split(input: Seq<char>, at: int, first: Seq<char>, second: Seq<char>)
    requires
        0 <= at,
        holds_word(input, at, first + second),
    ensures
        holds_word(input, at, first),
        holds_word(input, at + first.len(), second),
{
    let whole = input.subrange(at, at + (first + second).len());
    assert(input.subrange(at, at + first.len()) =~= whole.take(first.len() as int));
    assert(whole.take(first.len() as int) =~= first);
    assert(input.subrange(at + first.len(), at + first.len() + second.len()) =~= whole.skip(
        first.len() as int,
    ));
    assert(whole.skip(first.len() as int) =~= second);
}

proof fn lemma_character(input: Seq<char>, at: int, word: Seq<char>, i: int)
    requires
        0 <= at,
        holds_word(input, at, word),
        0 <= i < word.len(),
    ensures
        at + i < input.len(),
        input[at + i] == word[i],
{
    assert(input.subrange(at, at + word.len())[i] == word[i]);
}

// ---------------------------------------------------------------------------
// Strings
// ---------------------------------------------------------------------------

proof fn lemma_read_escapes(input: Seq<char>, at: int, text: Seq<char>, read: Seq<char>)
    requires
        0 <= at,
        holds_word(input, at, escaped_text(text) + seq!['"']),
        is_safe_text(text),
    ensures
        string_rest(input, at, read) == ValidationResult::<(int, Seq<char>)>::Ok(
            (at + escaped_text(text).len() + 1, read + text),
        ),
    decreases text.len(),
{
    let whole = escaped_text(text) + seq!['"'];
    if text.len() == 0 {
        assert(whole =~= seq!['"']);
        lemma_character(input, at, whole, 0);
        assert(read + text =~= read);
    } else {
        let character = text[0];
        let rest = text.drop_first();
        let piece = escaped_char(character);
        assert(whole =~= piece + (escaped_text(rest) + seq!['"']));
        lemma_split(input, at, piece, escaped_text(rest) + seq!['"']);
        lemma_character(input, at, piece, 0);
        assert(!is_unsafe(text[0]));
        assert forall|i: int| 0 <= i < rest.len() implies !is_unsafe(#[trigger] rest[i]) by {
            assert(rest[i] == text[i + 1]);
        }
        lemma_read_escapes(input, at + piece.len(), rest, read.push(character));
        assert(read.push(character) + rest =~= read + text);
        if piece.len() == 2 {
            lemma_character(input, at, piece, 1);
            assert(escape(input, at + 1) == ValidationResult::<(int, char)>::Ok(
                (at + 2, character),
            ));
        } else {
            lemma_plain_character(character);
        }
    }
}

proof fn lemma_plain_character(character: char)
    requires
        !is_unsafe(character),
        character != '\t',
        character != '\n',
    ensures
        character as u32 > 0x1f,
{
}

/// A string is read back.
proof fn lemma_read_string(input: Seq<char>, at: int, text: Seq<char>)
    requires
        0 <= at,
        holds_word(input, at, string_text(text)),
        is_safe_text(text),
    ensures
        string_at(input, at) == ValidationResult::<(int, Seq<char>)>::Ok(
            (at + string_text(text).len(), text),
        ),
{
    lemma_character(input, at, string_text(text), 0);
    assert(string_text(text) =~= seq!['"'] + (escaped_text(text) + seq!['"']));
    lemma_split(input, at, seq!['"'], escaped_text(text) + seq!['"']);
    lemma_read_escapes(input, at + 1, text, Seq::empty());
    assert(Seq::<char>::empty() + text =~= text);
}

// ---------------------------------------------------------------------------
// Numbers
// ---------------------------------------------------------------------------

proof fn lemma_read_number(input: Seq<char>, at: int, value: Seq<char>, k: int)
    requires
        0 <= at,
        holds_word(input, at, value),
        0 <= k <= value.len(),
        forall|i: int| 0 <= i < value.len() ==> !ends_number(#[trigger] value[i]),
        at + value.len() == input.len() || ends_number(input[at + value.len()]),
    ensures
        number_end(input, at + k) == at + value.len(),
    decreases value.len() - k,
{
    if k < value.len() {
        lemma_character(input, at, value, k);
        assert(!ends_number(value[k]));
        lemma_read_number(input, at, value, k + 1);
    }
}

// ---------------------------------------------------------------------------
// Values in reading order
// ---------------------------------------------------------------------------

/// A node with other indexes for its children.
pub open spec fn with_children(node: JsonNode, children: Seq<u32>) -> JsonNode {
    match node {
        JsonNode::Array(_) => JsonNode::Array(children),
        JsonNode::Object(fields) => JsonNode::Object(
            Seq::new(children.len(), |k: int| (fields[k].0, children[k])),
        ),
        other => other,
    }
}

/// Nodes with those under a node behind them, in reading order.
pub open spec fn laid_out(nodes: Seq<JsonNode>, i: int, before: Seq<JsonNode>) -> Seq<JsonNode>
    decreases i, 1int, 0int,
{
    let children = children_laid_out(nodes, i, children_of(nodes[i]).len() as int, before);
    children.0.push(with_children(nodes[i], children.1))
}

/// Nodes with those under the first `n` children of a node behind them, and
/// the indexes of these children.
pub open spec fn children_laid_out(
    nodes: Seq<JsonNode>,
    i: int,
    n: int,
    before: Seq<JsonNode>,
) -> (Seq<JsonNode>, Seq<u32>)
    decreases i, 0int, n,
{
    if n <= 0 {
        (before, Seq::empty())
    } else {
        let child = children_of(nodes[i])[n - 1] as int;
        let rest = children_laid_out(nodes, i, n - 1, before);
        let next = if 0 <= child < i {
            laid_out(nodes, child, rest.0)
        } else {
            rest.0
        };
        (next, rest.1.push((next.len() - 1) as u32))
    }
}

proof fn lemma_sizes(nodes: Seq<JsonNode>, i: int, n: int, m: int)
    requires
        0 <= i,
        0 <= n <= m,
    ensures
        0 <= children_size(nodes, i, n) <= children_size(nodes, i, m),
    decreases i, m,
{
    if n < m {
        lemma_sizes(nodes, i, n, m - 1);
        let child = children_of(nodes[i])[m - 1] as int;
        if 0 <= child < i {
            lemma_sizes(nodes, child, 0, children_of(nodes[child]).len() as int);
            assert(tree_size(nodes, child) >= 1);
        }
    } else if n > 0 {
        lemma_sizes(nodes, i, n - 1, n - 1);
        let child = children_of(nodes[i])[n - 1] as int;
        if 0 <= child < i {
            lemma_sizes(nodes, child, 0, children_of(nodes[child]).len() as int);
            assert(tree_size(nodes, child) >= 1);
        }
    }
}

proof fn lemma_layout_size(nodes: Seq<JsonNode>, i: int, before: Seq<JsonNode>)
    requires
        all_good(nodes),
        0 <= i < nodes.len(),
    ensures
        laid_out(nodes, i, before).len() == before.len() + tree_size(nodes, i),
        tree_size(nodes, i) >= 1,
    decreases i, 1int, 0int,
{
    let count = children_of(nodes[i]).len() as int;
    lemma_children_layout_size(nodes, i, count, before);
    lemma_sizes(nodes, i, 0, count);
}

proof fn lemma_children_layout_size(
    nodes: Seq<JsonNode>,
    i: int,
    n: int,
    before: Seq<JsonNode>,
)
    requires
        all_good(nodes),
        0 <= i < nodes.len(),
        0 <= n <= children_of(nodes[i]).len(),
    ensures
        children_laid_out(nodes, i, n, before).0.len() == before.len() + children_size(
            nodes,
            i,
            n,
        ),
        children_laid_out(nodes, i, n, before).1.len() == n,
    decreases i, 0int, n,
{
    if n > 0 {
        lemma_children_layout_size(nodes, i, n - 1, before);
        lemma_children_come_before(nodes, i, n - 1);
        lemma_layout_size(
            nodes,
            children_of(nodes[i])[n - 1] as int,
            children_laid_out(nodes, i, n - 1, before).0,
        );
    }
}

proof fn lemma_child_depth(nodes: Seq<JsonNode>, i: int, k: int, n: int)
    requires
        all_good(nodes),
        0 <= i < nodes.len(),
        0 <= k < n <= children_of(nodes[i]).len(),
    ensures
        node_depth(nodes, children_of(nodes[i])[k] as int) <= children_depth(nodes, i, n),
    decreases n - k,
{
    lemma_children_come_before(nodes, i, k);
    if k < n - 1 {
        lemma_child_depth(nodes, i, k, n - 1);
    }
}

// ---------------------------------------------------------------------------
// Reading values
// ---------------------------------------------------------------------------

/// What may come after a value: nothing, or a character that ends a number.
pub open spec fn may_end(input: Seq<char>, end: int) -> bool {
    end == input.len() || (0 <= end < input.len() && ends_number(input[end]))
}

/// The outcome of reading a node behind others.
pub open spec fn read_as(nodes: Seq<JsonNode>, i: int, before: Seq<JsonNode>, end: int) -> (
    int,
    Seq<JsonNode>,
    u32,
) {
    let after = laid_out(nodes, i, before);
    (end, after, (after.len() - 1) as u32)
}

/// Whether a node can be read at a depth, behind other nodes.
pub open spec fn has_room(nodes: Seq<JsonNode>, i: int, depth: int, before: Seq<JsonNode>) -> bool {
    &&& 0 < depth
    &&& depth - 1 + node_depth(nodes, i) <= MAX_TOOL_ARGUMENT_DEPTH
    &&& before.len() + tree_size(nodes, i) <= MAX_TOOL_ARGUMENT_NODES
}

proof fn lemma_child_has_room(
    nodes: Seq<JsonNode>,
    i: int,
    k: int,
    depth: int,
    before: Seq<JsonNode>,
)
    requires
        all_good(nodes),
        0 <= i < nodes.len(),
        0 <= k < children_of(nodes[i]).len(),
        has_room(nodes, i, depth, before),
    ensures
        has_room(
            nodes,
            children_of(nodes[i])[k] as int,
            depth + 1,
            children_laid_out(nodes, i, k, before).0,
        ),
        children_laid_out(nodes, i, k, before).1.len() == k,
{
    let count = children_of(nodes[i]).len() as int;
    lemma_children_come_before(nodes, i, k);
    lemma_child_depth(nodes, i, k, count);
    lemma_children_layout_size(nodes, i, k, before);
    lemma_sizes(nodes, i, k + 1, count);
}

/// The word that is left of a container behind its child `k`.
pub open spec fn after_child(nodes: Seq<JsonNode>, i: int, k: int, close: char) -> Seq<char> {
    rest_text(nodes, i, k + 1) + seq![close]
}

proof fn lemma_after_child(
    nodes: Seq<JsonNode>,
    i: int,
    k: int,
    close: char,
    input: Seq<char>,
    at: int,
)
    requires
        all_good(nodes),
        0 <= i < nodes.len(),
        0 <= k < children_of(nodes[i]).len(),
        close == ']' || close == '}',
        0 <= at,
        holds_word(input, at, after_child(nodes, i, k, close)),
    ensures
        may_end(input, at),
        skip_blanks(input, at) == at,
        k + 1 == children_of(nodes[i]).len() ==> holds(input, at, close)
            && after_child(nodes, i, k, close).len() == 1,
        k + 1 < children_of(nodes[i]).len() ==> {
            let label = child_label(nodes[i], k + 1);
            let value = node_text(nodes, children_of(nodes[i])[k + 1] as int);
            let rest = after_child(nodes, i, k + 1, close);
            &&& holds(input, at, ',')
            &&& holds_word(input, at + 1, label + (value + rest))
            &&& after_child(nodes, i, k, close).len() == 1 + label.len() + value.len() + rest.len()
        },
{
    let word = after_child(nodes, i, k, close);
    if k + 1 == children_of(nodes[i]).len() {
        assert(word =~= seq![close]);
        lemma_character(input, at, word, 0);
    } else {
        let label = child_label(nodes[i], k + 1);
        let value = node_text(nodes, children_of(nodes[i])[k + 1] as int);
        let rest = after_child(nodes, i, k + 1, close);
        assert(word =~= seq![','] + (label + (value + rest)));
        lemma_split(input, at, seq![','], label + (value + rest));
        lemma_character(input, at, word, 0);
    }
}

/// A value is read back.
proof fn lemma_read_value(
    nodes: Seq<JsonNode>,
    i: int,
    input: Seq<char>,
    at: int,
    depth: int,
    before: Seq<JsonNode>,
)
    requires
        all_good(nodes),
        0 <= i < nodes.len(),
        0 <= at,
        holds_word(input, at, node_text(nodes, i)),
        may_end(input, at + node_text(nodes, i).len()),
        has_room(nodes, i, depth, before),
    ensures
        value_at(input, at, depth, before) == ValidationResult::<(int, Seq<JsonNode>, u32)>::Ok(
            read_as(nodes, i, before, at + node_text(nodes, i).len()),
        ),
    decreases i, 1int, 0int,
{
    let text = node_text(nodes, i);
    let count = children_of(nodes[i]).len() as int;
    assert(is_good_node(nodes, i));
    lemma_first_character(nodes, i);
    lemma_character(input, at, text, 0);
    assert(skip_blanks(input, at) == at);
    lemma_layout_size(nodes, i, before);
    lemma_sizes(nodes, i, 0, count);
    lemma_depth_is_positive(nodes, i, count);
    match nodes[i] {
        JsonNode::Null => {
            reveal_strlit("null");
            assert("null"@ =~= text);
        },
        JsonNode::Boolean(true) => {
            reveal_strlit("true");
            assert("true"@ =~= text);
        },
        JsonNode::Boolean(false) => {
            reveal_strlit("false");
            assert("false"@ =~= text);
        },
        JsonNode::Number(value) => {
            lemma_number_characters(value);
            assert forall|k: int| 0 <= k < value.len() implies !ends_number(#[trigger] value[k]) by {
            }
            lemma_read_number(input, at, value, 0);
        },
        JsonNode::Text(value) => {
            lemma_read_string(input, at, value);
        },
        JsonNode::Array(_) => {
            lemma_read_array(nodes, i, input, at, depth, before);
        },
        JsonNode::Object(_) => {
            lemma_read_object(nodes, i, input, at, depth, before);
        },
    }
}

proof fn lemma_depth_is_positive(nodes: Seq<JsonNode>, i: int, n: int)
    ensures
        0 <= children_depth(nodes, i, n),
    decreases n,
{
    if n > 0 {
        lemma_depth_is_positive(nodes, i, n - 1);
    }
}

proof fn lemma_container(
    nodes: Seq<JsonNode>,
    i: int,
    open: char,
    close: char,
    input: Seq<char>,
    at: int,
)
    requires
        all_good(nodes),
        0 <= i < nodes.len(),
        nodes[i] is Array && open == '[' && close == ']' || nodes[i] is Object && open == '{'
            && close == '}',
        0 <= at,
        holds_word(input, at, node_text(nodes, i)),
    ensures
        holds(input, at, open),
        skip_blanks(input, at + 1) == at + 1,
        children_of(nodes[i]).len() == 0 ==> holds(input, at + 1, close) && node_text(
            nodes,
            i,
        ).len() == 2,
        children_of(nodes[i]).len() > 0 ==> {
            let label = child_label(nodes[i], 0);
            let value = node_text(nodes, children_of(nodes[i])[0] as int);
            let rest = after_child(nodes, i, 0, close);
            &&& !holds(input, at + 1, close)
            &&& holds_word(input, at + 1, label + (value + rest))
            &&& node_text(nodes, i).len() == 1 + label.len() + value.len() + rest.len()
        },
{
    let text = node_text(nodes, i);
    let inner = rest_text(nodes, i, 0);
    lemma_rest_text(nodes, i, 0);
    assert(text =~= seq![open] + (inner + seq![close]));
    lemma_split(input, at, seq![open], inner + seq![close]);
    lemma_character(input, at, text, 0);
    lemma_character(input, at + 1, inner + seq![close], 0);
    if children_of(nodes[i]).len() > 0 {
        let label = child_label(nodes[i], 0);
        let child = children_of(nodes[i])[0] as int;
        let value = node_text(nodes, child);
        let rest = after_child(nodes, i, 0, close);
        assert(inner + seq![close] =~= label + (value + rest));
        lemma_children_come_before(nodes, i, 0);
        lemma_first_character(nodes, child);
        if nodes[i] is Object {
            assert(label[0] == '"');
        } else {
            assert(label =~= Seq::empty());
            assert((label + (value + rest))[0] == value[0]);
        }
    }
}

proof fn lemma_read_array(
    nodes: Seq<JsonNode>,
    i: int,
    input: Seq<char>,
    at: int,
    depth: int,
    before: Seq<JsonNode>,
)
    requires
        all_good(nodes),
        0 <= i < nodes.len(),
        nodes[i] is Array,
        0 <= at,
        holds_word(input, at, node_text(nodes, i)),
        has_room(nodes, i, depth, before),
    ensures
        value_at(input, at, depth, before) == ValidationResult::<(int, Seq<JsonNode>, u32)>::Ok(
            read_as(nodes, i, before, at + node_text(nodes, i).len()),
        ),
    decreases i, 0int, children_of(nodes[i]).len() + 1,
{
    let count = children_of(nodes[i]).len() as int;
    lemma_container(nodes, i, '[', ']', input, at);
    lemma_layout_size(nodes, i, before);
    lemma_depth_is_positive(nodes, i, count);
    if count == 0 {
        assert(children_laid_out(nodes, i, 0, before).1 =~= Seq::empty());
    } else {
        let child = children_of(nodes[i])[0] as int;
        let label = child_label(nodes[i], 0);
        let word = node_text(nodes, child) + after_child(nodes, i, 0, ']');
        assert(label + word =~= word);
        lemma_read_items(nodes, i, 0, input, at + 1, depth, before);
    }
}

proof fn lemma_read_items(
    nodes: Seq<JsonNode>,
    i: int,
    k: int,
    input: Seq<char>,
    at: int,
    depth: int,
    before: Seq<JsonNode>,
)
    requires
        all_good(nodes),
        0 <= i < nodes.len(),
        nodes[i] is Array,
        0 <= k < children_of(nodes[i]).len(),
        0 <= at,
        holds_word(
            input,
            at,
            node_text(nodes, children_of(nodes[i])[k] as int) + after_child(nodes, i, k, ']'),
        ),
        has_room(nodes, i, depth, before),
    ensures
        items_at(
            input,
            at,
            depth + 1,
            children_laid_out(nodes, i, k, before).0,
            children_laid_out(nodes, i, k, before).1,
        ) == ValidationResult::<(int, Seq<JsonNode>, u32)>::Ok(
            read_as(
                nodes,
                i,
                before,
                at + node_text(nodes, children_of(nodes[i])[k] as int).len() + after_child(
                    nodes,
                    i,
                    k,
                    ']',
                ).len(),
            ),
        ),
    decreases i, 0int, children_of(nodes[i]).len() - k,
{
    let count = children_of(nodes[i]).len() as int;
    let child = children_of(nodes[i])[k] as int;
    let value = node_text(nodes, child);
    let rest = after_child(nodes, i, k, ']');
    let so_far = children_laid_out(nodes, i, k, before);
    let next = children_laid_out(nodes, i, k + 1, before);
    let end = at + value.len();
    lemma_children_come_before(nodes, i, k);
    lemma_child_has_room(nodes, i, k, depth, before);
    lemma_split(input, at, value, rest);
    lemma_after_child(nodes, i, k, ']', input, end);
    lemma_read_value(nodes, child, input, at, depth + 1, so_far.0);
    assert(next.0 == laid_out(nodes, child, so_far.0));
    if k + 1 == count {
        lemma_layout_size(nodes, i, before);
    } else {
        let label = child_label(nodes[i], k + 1);
        let word = node_text(nodes, children_of(nodes[i])[k + 1] as int) + after_child(
            nodes,
            i,
            k + 1,
            ']',
        );
        assert(label + word =~= word);
        lemma_read_items(nodes, i, k + 1, input, end + 1, depth, before);
    }
}

proof fn lemma_read_object(
    nodes: Seq<JsonNode>,
    i: int,
    input: Seq<char>,
    at: int,
    depth: int,
    before: Seq<JsonNode>,
)
    requires
        all_good(nodes),
        0 <= i < nodes.len(),
        nodes[i] is Object,
        0 <= at,
        holds_word(input, at, node_text(nodes, i)),
        has_room(nodes, i, depth, before),
    ensures
        value_at(input, at, depth, before) == ValidationResult::<(int, Seq<JsonNode>, u32)>::Ok(
            read_as(nodes, i, before, at + node_text(nodes, i).len()),
        ),
    decreases i, 0int, children_of(nodes[i]).len() + 1,
{
    let count = children_of(nodes[i]).len() as int;
    let fields = nodes[i]->Object_0;
    lemma_container(nodes, i, '{', '}', input, at);
    lemma_layout_size(nodes, i, before);
    lemma_depth_is_positive(nodes, i, count);
    if count == 0 {
        assert(with_children(nodes[i], Seq::empty())->Object_0 =~= Seq::empty());
    } else {
        assert(keyed(fields, children_laid_out(nodes, i, 0, before).1) =~= Seq::empty());
        lemma_read_fields(nodes, i, 0, input, at + 1, depth, before);
    }
}

/// Fields with other indexes for their values.
pub open spec fn keyed(fields: Seq<(Seq<char>, u32)>, children: Seq<u32>) -> Seq<(Seq<char>, u32)> {
    Seq::new(children.len(), |k: int| (fields[k].0, children[k]))
}

proof fn lemma_keys_are_distinct(nodes: Seq<JsonNode>, i: int, k: int, l: int)
    requires
        all_good(nodes),
        0 <= i < nodes.len(),
        nodes[i] is Object,
        0 <= k < l < nodes[i]->Object_0.len(),
    ensures
        bytes_before(
            encode_utf8(nodes[i]->Object_0[k].0),
            encode_utf8(nodes[i]->Object_0[l].0),
        ),
        nodes[i]->Object_0[k].0 != nodes[i]->Object_0[l].0,
    decreases l - k,
{
    let fields = nodes[i]->Object_0;
    assert(is_good_node(nodes, i));
    assert(has_good_key(fields, l));
    let a = encode_utf8(fields[k].0);
    let b = encode_utf8(fields[l - 1].0);
    let c = encode_utf8(fields[l].0);
    if k < l - 1 {
        lemma_keys_are_distinct(nodes, i, k, l - 1);
    }
    lemma_byte_order(a, b, c);
    lemma_byte_order(a, a, c);
}

proof fn lemma_read_fields(
    nodes: Seq<JsonNode>,
    i: int,
    k: int,
    input: Seq<char>,
    at: int,
    depth: int,
    before: Seq<JsonNode>,
)
    requires
        all_good(nodes),
        0 <= i < nodes.len(),
        nodes[i] is Object,
        0 <= k < children_of(nodes[i]).len(),
        0 <= at,
        holds_word(
            input,
            at,
            child_label(nodes[i], k) + (node_text(nodes, children_of(nodes[i])[k] as int)
                + after_child(nodes, i, k, '}')),
        ),
        has_room(nodes, i, depth, before),
    ensures
        fields_at(
            input,
            at,
            depth + 1,
            children_laid_out(nodes, i, k, before).0,
            keyed(nodes[i]->Object_0, children_laid_out(nodes, i, k, before).1),
        ) == ValidationResult::<(int, Seq<JsonNode>, u32)>::Ok(
            read_as(
                nodes,
                i,
                before,
                at + child_label(nodes[i], k).len() + node_text(
                    nodes,
                    children_of(nodes[i])[k] as int,
                ).len() + after_child(nodes, i, k, '}').len(),
            ),
        ),
    decreases i, 0int, children_of(nodes[i]).len() - k,
{
    let count = children_of(nodes[i]).len() as int;
    let fields = nodes[i]->Object_0;
    let key = fields[k].0;
    let child = children_of(nodes[i])[k] as int;
    let value = node_text(nodes, child);
    let rest = after_child(nodes, i, k, '}');
    let so_far = children_laid_out(nodes, i, k, before);
    let next = children_laid_out(nodes, i, k + 1, before);
    let colon = at + string_text(key).len();
    let end = colon + 1 + value.len();
    assert(is_good_node(nodes, i));
    assert(has_good_key(fields, k));
    lemma_children_come_before(nodes, i, k);
    lemma_child_has_room(nodes, i, k, depth, before);
    lemma_split(input, at, child_label(nodes[i], k), value + rest);
    lemma_split(input, at, string_text(key), seq![':']);
    lemma_character(input, at, string_text(key), 0);
    lemma_character(input, colon, seq![':'], 0);
    lemma_read_string(input, at, key);
    lemma_split(input, colon + 1, value, rest);
    lemma_after_child(nodes, i, k, '}', input, end);
    lemma_read_value(nodes, child, input, colon + 1, depth + 1, so_far.0);
    assert(next.0 == laid_out(nodes, child, so_far.0));
    assert(!has_key(keyed(fields, so_far.1), key)) by {
        assert forall|l: int| 0 <= l < keyed(fields, so_far.1).len() implies (#[trigger] keyed(
            fields,
            so_far.1,
        )[l]).0 != key by {
            lemma_keys_are_distinct(nodes, i, l, k);
        }
    }
    assert(keyed(fields, so_far.1).push((key, next.1[k])) =~= keyed(fields, next.1));
    if k + 1 == count {
        lemma_layout_size(nodes, i, before);
    } else {
        lemma_read_fields(nodes, i, k + 1, input, end + 1, depth, before);
    }
}

// ---------------------------------------------------------------------------
// What is read
// ---------------------------------------------------------------------------

/// Whether nodes begin with others.
pub open spec fn extends(first: Seq<JsonNode>, whole: Seq<JsonNode>) -> bool {
    &&& first.len() <= whole.len()
    &&& forall|p: int| 0 <= p < first.len() ==> #[trigger] whole[p] == first[p]
}

proof fn lemma_extended_names(
    first: Seq<JsonNode>,
    whole: Seq<JsonNode>,
    i: int,
    k: int,
    child: int,
)
    requires
        extends(first, whole),
        0 <= i <= first.len(),
        k > 0 ==> i < first.len(),
    ensures
        is_named(first, i, k, child) == is_named(whole, i, k, child),
{
    if is_named(first, i, k, child) {
        let (p, q) = choose|p: int, q: int| #[trigger] names(first, i, k, p, q, child);
        assert(names(whole, i, k, p, q, child));
    }
    if is_named(whole, i, k, child) {
        let (p, q) = choose|p: int, q: int| #[trigger] names(whole, i, k, p, q, child);
        assert(names(first, i, k, p, q, child));
    }
}

proof fn lemma_extended_depth(first: Seq<JsonNode>, whole: Seq<JsonNode>, i: int, n: int)
    requires
        extends(first, whole),
        0 <= i < first.len(),
        0 <= n <= children_of(first[i]).len(),
    ensures
        children_depth(first, i, n) == children_depth(whole, i, n),
    decreases i, n,
{
    if n > 0 {
        lemma_extended_depth(first, whole, i, n - 1);
        let child = children_of(first[i])[n - 1] as int;
        if 0 <= child < i {
            lemma_extended_depth(first, whole, child, children_of(first[child]).len() as int);
            assert(node_depth(first, child) == node_depth(whole, child));
        }
    }
}

proof fn lemma_extended_good(first: Seq<JsonNode>, whole: Seq<JsonNode>, i: int)
    requires
        extends(first, whole),
        0 <= i < first.len(),
    ensures
        is_good_node(first, i) == is_good_node(whole, i),
{
    lemma_extended_depth(first, whole, i, children_of(first[i]).len() as int);
    assert forall|k: int| 0 <= k < children_of(first[i]).len() implies #[trigger] is_fresh(
        first,
        i,
        k,
    ) == is_fresh(whole, i, k) by {
        lemma_extended_names(first, whole, i, k, children_of(first[i])[k] as int);
    }
    if is_good_node(first, i) {
        assert forall|k: int| 0 <= k < children_of(whole[i]).len() implies #[trigger] is_fresh(
            whole,
            i,
            k,
        ) by {
            assert(is_fresh(first, i, k));
        }
    }
    if is_good_node(whole, i) {
        assert forall|k: int| 0 <= k < children_of(first[i]).len() implies #[trigger] is_fresh(
            first,
            i,
            k,
        ) by {
            assert(is_fresh(whole, i, k));
        }
    }
}

proof fn lemma_extended_value(
    a: Seq<JsonNode>,
    i: int,
    first: Seq<JsonNode>,
    whole: Seq<JsonNode>,
    j: int,
)
    requires
        extends(first, whole),
        0 <= i,
        0 <= j < first.len(),
    ensures
        same_value(a, i, first, j) == same_value(a, i, whole, j),
    decreases i, 1int, 0int,
{
    if children_of(a[i]).len() == children_of(first[j]).len() {
        lemma_extended_children(a, i, first, whole, j, children_of(a[i]).len() as int);
    }
}

proof fn lemma_extended_children(
    a: Seq<JsonNode>,
    i: int,
    first: Seq<JsonNode>,
    whole: Seq<JsonNode>,
    j: int,
    n: int,
)
    requires
        extends(first, whole),
        0 <= i,
        0 <= j < first.len(),
        n <= children_of(a[i]).len(),
        n <= children_of(first[j]).len(),
    ensures
        same_children(a, i, first, j, n) == same_children(a, i, whole, j, n),
    decreases i, 0int, n,
{
    if n > 0 {
        lemma_extended_children(a, i, first, whole, j, n - 1);
        let left = children_of(a[i])[n - 1] as int;
        let right = children_of(first[j])[n - 1] as int;
        if 0 <= left < i && 0 <= right < j {
            lemma_extended_value(a, left, first, whole, right);
        }
    }
}

proof fn lemma_extended_charge(first: Seq<JsonNode>, whole: Seq<JsonNode>, n: int)
    requires
        extends(first, whole),
        0 <= n <= first.len(),
    ensures
        nodes_charge(first, n) == nodes_charge(whole, n),
    decreases n,
{
    if n > 0 {
        lemma_extended_charge(first, whole, n - 1);
    }
}

proof fn lemma_same_depth(a: Seq<JsonNode>, i: int, b: Seq<JsonNode>, j: int)
    requires
        0 <= i,
        0 <= j,
        same_value(a, i, b, j),
    ensures
        node_depth(a, i) == node_depth(b, j),
    decreases i, 1int, 0int,
{
    let count = children_of(a[i]).len() as int;
    assert(children_of(b[j]).len() == count);
    match a[i] {
        JsonNode::Array(_) => {
            lemma_same_children_depth(a, i, b, j, count);
        },
        JsonNode::Object(_) => {
            lemma_same_children_depth(a, i, b, j, count);
        },
        _ => {},
    }
}

proof fn lemma_same_children_depth(a: Seq<JsonNode>, i: int, b: Seq<JsonNode>, j: int, n: int)
    requires
        0 <= i,
        0 <= j,
        same_children(a, i, b, j, n),
    ensures
        children_depth(a, i, n) == children_depth(b, j, n),
    decreases i, 0int, n,
{
    if n > 0 {
        lemma_same_children_depth(a, i, b, j, n - 1);
        lemma_same_depth(
            a,
            children_of(a[i])[n - 1] as int,
            b,
            children_of(b[j])[n - 1] as int,
        );
    }
}

/// Whether the nodes from `from` on name only each other, each once.
pub open spec fn is_closed_from(nodes: Seq<JsonNode>, from: int) -> bool {
    forall|p: int, q: int|
        from <= p < nodes.len() && 0 <= q < children_of(nodes[p]).len() ==> from <= (
        #[trigger] children_of(nodes[p])[q])
}

/// Whether the nodes from `from` on form trees with the given roots.
pub open spec fn is_forest(nodes: Seq<JsonNode>, from: int, roots: Seq<u32>) -> bool {
    &&& is_closed_from(nodes, from)
    &&& forall|k: int|
        0 <= k < roots.len() ==> from <= #[trigger] roots[k] < nodes.len() && !is_named(
            nodes,
            nodes.len() as int,
            0,
            roots[k] as int,
        )
    &&& forall|k: int, l: int|
        0 <= k < l < roots.len() ==> #[trigger] roots[k] < #[trigger] roots[l]
    &&& forall|c: int|
        from <= c < nodes.len() ==> #[trigger] is_named(nodes, nodes.len() as int, 0, c)
            || roots.contains(c as u32)
}

proof fn lemma_fields_charge(fields: Seq<(Seq<char>, u32)>, children: Seq<u32>, n: int)
    requires
        0 <= n <= fields.len(),
        children.len() == fields.len(),
    ensures
        fields_charge(keyed(fields, children), n) == fields_charge(fields, n),
    decreases n,
{
    if n > 0 {
        lemma_fields_charge(fields, children, n - 1);
    }
}

proof fn lemma_with_children(node: JsonNode, children: Seq<u32>)
    requires
        children.len() == children_of(node).len(),
        has_good_content(node),
    ensures
        children_of(with_children(node, children)) == children,
        has_good_content(with_children(node, children)),
        node_charge(with_children(node, children)) == node_charge(node),
        forall|k: int|
            0 <= k < children.len() ==> #[trigger] child_label(with_children(node, children), k)
                == child_label(node, k),
{
    assert(children_of(with_children(node, children)) =~= children);
    if let JsonNode::Object(fields) = node {
        lemma_fields_charge(fields, children, fields.len() as int);
        let others = keyed(fields, children);
        assert(with_children(node, children)->Object_0 =~= others);
        assert forall|k: int| 0 <= k < others.len() implies #[trigger] has_good_key(others, k) by {
            assert(has_good_key(fields, k));
        }
    }
}

proof fn lemma_join_forests(
    first: Seq<JsonNode>,
    whole: Seq<JsonNode>,
    from: int,
    roots: Seq<u32>,
)
    requires
        extends(first, whole),
        first.len() < whole.len() <= u32::MAX,
        0 <= from <= first.len(),
        all_good(whole),
        is_forest(first, from, roots),
        is_forest(whole, first.len() as int, seq![(whole.len() - 1) as u32]),
    ensures
        is_forest(whole, from, roots.push((whole.len() - 1) as u32)),
{
    let n = whole.len() as int;
    let m = first.len() as int;
    let all = roots.push((n - 1) as u32);
    assert forall|p: int, q: int|
        from <= p < n && 0 <= q < children_of(whole[p]).len() implies from <= (
    #[trigger] children_of(whole[p])[q]) by {
        if p < m {
            assert(whole[p] == first[p]);
        }
    }
    assert forall|k: int| 0 <= k < all.len() implies from <= #[trigger] all[k] < n && !is_named(
        whole,
        n,
        0,
        all[k] as int,
    ) by {
        let root = all[k] as int;
        if k < roots.len() {
            assert(all[k] == roots[k]);
            assert(!is_named(first, m, 0, root));
            lemma_extended_names(first, whole, m, 0, root);
        }
        if is_named(whole, n, 0, root) {
            let (p, q) = choose|p: int, q: int| #[trigger] names(whole, n, 0, p, q, root);
            lemma_children_come_before(whole, p, q);
            if k < roots.len() {
                if p < m {
                    assert(names(whole, m, 0, p, q, root));
                } else {
                    assert(m <= children_of(whole[p])[q]);
                }
            }
        }
    }
    assert forall|k: int, l: int| 0 <= k < l < all.len() implies #[trigger] all[k]
        < #[trigger] all[l] by {
        assert(all[k] == roots[k]);
        if l < roots.len() {
            assert(all[l] == roots[l]);
        }
    }
    assert forall|c: int| from <= c < n implies #[trigger] is_named(whole, n, 0, c)
        || all.contains(c as u32) by {
        if c < m {
            if is_named(first, m, 0, c) {
                let (p, q) = choose|p: int, q: int| #[trigger] names(first, m, 0, p, q, c);
                assert(names(whole, n, 0, p, q, c));
            } else {
                assert(roots.contains(c as u32));
                let k = choose|k: int| 0 <= k < roots.len() && roots[k] == c as u32;
                assert(all[k] == c as u32);
            }
        } else if !is_named(whole, n, 0, c) {
            let last = seq![(n - 1) as u32];
            assert(last.contains(c as u32));
            assert(all[roots.len() as int] == c as u32);
        }
    }
}

proof fn lemma_same_children_from_values(
    a: Seq<JsonNode>,
    i: int,
    b: Seq<JsonNode>,
    j: int,
    n: int,
)
    requires
        all_good(a),
        0 <= i < a.len(),
        0 <= j < b.len(),
        0 <= n <= children_of(a[i]).len(),
        children_of(b[j]).len() == children_of(a[i]).len(),
        forall|k: int|
            0 <= k < n ==> #[trigger] children_of(b[j])[k] < j && child_label(a[i], k)
                == child_label(b[j], k) && same_value(
                a,
                children_of(a[i])[k] as int,
                b,
                children_of(b[j])[k] as int,
            ),
    ensures
        same_children(a, i, b, j, n),
    decreases n,
{
    if n > 0 {
        lemma_same_children_from_values(a, i, b, j, n - 1);
        lemma_children_come_before(a, i, n - 1);
        assert(children_of(b[j])[n - 1] < j);
    }
}

proof fn lemma_layout(nodes: Seq<JsonNode>, i: int, before: Seq<JsonNode>)
    requires
        all_good(nodes),
        0 <= i < nodes.len(),
        all_good(before),
        before.len() + tree_size(nodes, i) <= MAX_TOOL_ARGUMENT_NODES,
    ensures
        ({
            let after = laid_out(nodes, i, before);
            &&& extends(before, after)
            &&& before.len() < after.len()
            &&& all_good(after)
            &&& same_value(nodes, i, after, after.len() - 1)
            &&& is_forest(after, before.len() as int, seq![(after.len() - 1) as u32])
            &&& nodes_charge(after, after.len() as int) == nodes_charge(before, before.len() as int)
                + tree_charge(nodes, i)
        }),
    decreases i, 1int, 0int,
{
    let count = children_of(nodes[i]).len() as int;
    lemma_layout_size(nodes, i, before);
    lemma_children_layout(nodes, i, count, before);
    lemma_children_layout_size(nodes, i, count, before);
    let (mid, roots) = children_laid_out(nodes, i, count, before);
    let node = with_children(nodes[i], roots);
    let after = laid_out(nodes, i, before);
    let m = before.len() as int;
    let r = mid.len() as int;
    assert(is_good_node(nodes, i));
    lemma_with_children(nodes[i], roots);
    assert(after[r] == node);
    assert(extends(mid, after));
    assert(extends(before, after));
    lemma_extended_charge(mid, after, r);
    // The new node names the roots, each for the first time.
    assert forall|k: int| 0 <= k < count implies #[trigger] is_fresh(after, r, k) by {
        let root = roots[k] as int;
        lemma_extended_names(mid, after, r, 0, root);
        assert(!is_named(mid, r, 0, root));
        if is_named(after, r, k, root) {
            let (p, q) = choose|p: int, q: int| #[trigger] names(after, r, k, p, q, root);
            if p < r {
                assert(names(after, r, 0, p, q, root));
            } else {
                assert(roots[q] < roots[k]);
            }
        }
    }
    assert forall|k: int| 0 <= k < count implies #[trigger] children_of(after[r])[k] < r
        && child_label(nodes[i], k) == child_label(after[r], k) && same_value(
        nodes,
        children_of(nodes[i])[k] as int,
        after,
        children_of(after[r])[k] as int,
    ) by {
        assert(child_label(node, k) == child_label(nodes[i], k));
        assert(roots[k] < r);
        assert(same_value(nodes, children_of(nodes[i])[k] as int, mid, roots[k] as int));
        lemma_children_come_before(nodes, i, k);
        lemma_extended_value(
            nodes,
            children_of(nodes[i])[k] as int,
            mid,
            after,
            roots[k] as int,
        );
    }
    lemma_same_children_from_values(nodes, i, after, r, count);
    assert(same_value(nodes, i, after, r));
    lemma_same_depth(nodes, i, after, r);
    assert(is_good_node(after, r));
    assert forall|p: int| 0 <= p < after.len() implies #[trigger] is_good_node(after, p) by {
        if p < r {
            assert(is_good_node(mid, p));
            lemma_extended_good(mid, after, p);
        }
    }
    lemma_root_forest(mid, roots, m, after);
}

proof fn lemma_root_forest(mid: Seq<JsonNode>, roots: Seq<u32>, from: int, after: Seq<JsonNode>)
    requires
        0 <= from <= mid.len(),
        after.len() == mid.len() + 1,
        after.len() <= u32::MAX,
        extends(mid, after),
        children_of(after[mid.len() as int]) == roots,
        all_good(after),
        is_forest(mid, from, roots),
    ensures
        is_forest(after, from, seq![(after.len() - 1) as u32]),
{
    let r = mid.len() as int;
    let e = after.len() as int;
    let last = seq![(e - 1) as u32];
    assert forall|p: int, q: int|
        from <= p < e && 0 <= q < children_of(after[p]).len() implies from <= (
    #[trigger] children_of(after[p])[q]) by {
        if p < r {
            assert(after[p] == mid[p]);
            assert(from <= children_of(mid[p])[q]);
        } else {
            assert(from <= roots[q]);
        }
    }
    assert forall|k: int| 0 <= k < last.len() implies from <= #[trigger] last[k] < e && !is_named(
        after,
        e,
        0,
        last[k] as int,
    ) by {
        if is_named(after, e, 0, r) {
            let (p, q) = choose|p: int, q: int| #[trigger] names(after, e, 0, p, q, r);
            lemma_children_come_before(after, p, q);
        }
    }
    assert forall|c: int| from <= c < e implies #[trigger] is_named(after, e, 0, c)
        || last.contains(c as u32) by {
        if c == r {
            assert(last[0] == c as u32);
        } else if is_named(mid, r, 0, c) {
            let (p, q) = choose|p: int, q: int| #[trigger] names(mid, r, 0, p, q, c);
            assert(names(after, e, 0, p, q, c));
        } else {
            assert(roots.contains(c as u32));
            let k = choose|k: int| 0 <= k < roots.len() && roots[k] == c as u32;
            assert(names(after, e, 0, r, k, c));
        }
    }
}

proof fn lemma_children_layout(nodes: Seq<JsonNode>, i: int, n: int, before: Seq<JsonNode>)
    requires
        all_good(nodes),
        0 <= i < nodes.len(),
        0 <= n <= children_of(nodes[i]).len(),
        all_good(before),
        before.len() + children_size(nodes, i, n) <= MAX_TOOL_ARGUMENT_NODES,
    ensures
        ({
            let (mid, roots) = children_laid_out(nodes, i, n, before);
            &&& extends(before, mid)
            &&& all_good(mid)
            &&& roots.len() == n
            &&& is_forest(mid, before.len() as int, roots)
            &&& forall|k: int|
                0 <= k < n ==> same_value(
                    nodes,
                    children_of(nodes[i])[k] as int,
                    mid,
                    #[trigger] roots[k] as int,
                )
            &&& nodes_charge(mid, mid.len() as int) == nodes_charge(before, before.len() as int)
                + children_charge(nodes, i, n)
        }),
    decreases i, 0int, n,
{
    let (mid, roots) = children_laid_out(nodes, i, n, before);
    if n == 0 {
        assert(is_forest(mid, before.len() as int, roots));
    } else {
        let child = children_of(nodes[i])[n - 1] as int;
        lemma_children_come_before(nodes, i, n - 1);
        lemma_sizes(nodes, i, n - 1, n);
        lemma_layout_size(nodes, child, before);
        lemma_children_layout(nodes, i, n - 1, before);
        lemma_children_layout_size(nodes, i, n - 1, before);
        let (first, some) = children_laid_out(nodes, i, n - 1, before);
        lemma_layout(nodes, child, first);
        lemma_layout_size(nodes, child, first);
        lemma_join_forests(first, mid, before.len() as int, some);
        assert forall|k: int| 0 <= k < n implies same_value(
            nodes,
            children_of(nodes[i])[k] as int,
            mid,
            #[trigger] roots[k] as int,
        ) by {
            if k < n - 1 {
                assert(roots[k] == some[k]);
                assert(some[k] < first.len());
                lemma_extended_value(
                    nodes,
                    children_of(nodes[i])[k] as int,
                    first,
                    mid,
                    some[k] as int,
                );
            }
        }
    }
}

/// What is read from the canonical text of a document is a bounded tree with
/// the same value.
proof fn lemma_read_is_tree(document: JsonDocument)
    requires
        is_bounded_tree(document),
        tree_size(document.nodes, document.root as int) <= MAX_TOOL_ARGUMENT_NODES,
        8 + tree_charge(document.nodes, document.root as int) <= MAX_LOGICAL_CHARGE,
    ensures
        ({
            let nodes = laid_out(document.nodes, document.root as int, Seq::empty());
            let read = JsonDocument { root: (nodes.len() - 1) as u32, nodes };
            &&& is_bounded_tree(read)
            &&& nodes.len() == tree_size(document.nodes, document.root as int)
            &&& same_value(document.nodes, document.root as int, nodes, nodes.len() - 1)
            &&& nodes_charge(nodes, nodes.len() as int) == tree_charge(
                document.nodes,
                document.root as int,
            )
        }),
{
    let root = document.root as int;
    let nodes = laid_out(document.nodes, root, Seq::empty());
    let n = nodes.len() as int;
    lemma_layout_size(document.nodes, root, Seq::empty());
    lemma_layout(document.nodes, root, Seq::empty());
    let last = seq![(n - 1) as u32];
    assert forall|c: int| 0 <= c < n - 1 implies #[trigger] is_named(nodes, n, 0, c) by {
        if last.contains(c as u32) {
            assert(last[0] == c as u32);
        }
    }
}

proof fn lemma_read_document(document: JsonDocument)
    requires
        is_bounded_tree(document),
        tree_size(document.nodes, document.root as int) <= MAX_TOOL_ARGUMENT_NODES,
    ensures
        document_at(document_text(document)) == ValidationResult::<JsonDocument>::Ok(
            JsonDocument {
                root: (tree_size(document.nodes, document.root as int) - 1) as u32,
                nodes: laid_out(document.nodes, document.root as int, Seq::empty()),
            },
        ),
{
    let nodes = document.nodes;
    let root = document.root as int;
    let input = document_text(document);
    assert(is_good_node(nodes, root));
    assert(input.subrange(0, input.len() as int) =~= input);
    lemma_first_character(nodes, root);
    assert(skip_blanks(input, 0) == 0);
    lemma_layout_size(nodes, root, Seq::empty());
    lemma_read_value(nodes, root, input, 0, 1, Seq::empty());
}

/// The canonical text of an accepted document is read back as a document with
/// the same value, unless it has more nodes than arguments may have.
pub proof fn lemma_canonical_text_is_read_back(document: JsonDocument)
    requires
        is_bounded_tree(document),
        document.nodes.len() <= MAX_TOOL_ARGUMENT_NODES,
    ensures
        document_at(document_text(document)) matches Ok(read) && same_value(
            document.nodes,
            document.root as int,
            read.nodes,
            read.root as int,
        ) && is_bounded_tree(read),
{
    lemma_trees_hold_every_node(document);
    lemma_read_document(document);
    lemma_read_is_tree(document);
}

/// Whether a text is the canonical text of an object that may be the arguments
/// of a tool call.
pub open spec fn is_canonical_arguments(value: Seq<char>, document: JsonDocument) -> bool {
    &&& is_bounded_tree(document)
    &&& document.nodes.last() is Object
    &&& document.nodes.len() <= MAX_TOOL_ARGUMENT_NODES
    &&& 8 + nodes_charge(document.nodes, document.nodes.len() as int) <= MAX_TOOL_ARGUMENT_CHARGE
    &&& document_text(document) == value
    &&& byte_len(value) <= MAX_TOOL_ARGUMENT_BYTES
}

/// Arguments are accepted exactly when they are the canonical text of an object
/// within the bounds.
pub proof fn lemma_arguments_are_canonical_objects(value: Seq<char>)
    ensures
        arguments_verdict(value) is Ok <==> exists|document: JsonDocument|
            is_canonical_arguments(value, document),
{
    if arguments_verdict(value) is Ok {
        let document = document_at(value)->Ok_0;
        lemma_accepted_documents_are_trees(document, true);
        lemma_document_text(document);
        lemma_encoding_is_injective(document_text(document), value);
        assert(is_canonical_arguments(value, document));
    }
    if exists|document: JsonDocument| is_canonical_arguments(value, document) {
        let document = choose|document: JsonDocument| is_canonical_arguments(value, document);
        let root = document.root as int;
        lemma_trees_hold_every_node(document);
        lemma_read_document(document);
        lemma_read_is_tree(document);
        let read = document_at(value)->Ok_0;
        assert(read.nodes.last() is Object);
        lemma_accepted_documents_are_trees(read, true);
        lemma_accepted_documents_are_trees(read, false);
        assert(is_good_node(read.nodes, read.root as int));
        lemma_same_values_are_written_alike(document.nodes, root, read.nodes, read.root as int);
        lemma_document_text(read);
    }
}

} // verus!
