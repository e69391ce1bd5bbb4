//! Canonical JSON determines the value that a document holds.

use vstd::prelude::*;
use vstd::utf8::{encode_scalar, encode_utf8};

use crate::provider_api::{JsonDocument, JsonNode};
use crate::provider_validation::wire_json::{
    children_of, digits_end, document_json, fraction_end, integer_start, is_digit,
    is_number_token,
};
use crate::provider_validation::wire_text::{
    child_label, comma, document_text, escaped_char, escaped_text, items_text, lemma_document_text,
    node_text, string_text,
};
use crate::provider_validation::wire_tree::{is_bounded_tree, is_fresh, is_good_node};
use crate::text::{lemma_encode_scalar, lemma_encoding_is_injective};

verus! {

// ---------------------------------------------------------------------------
// Values
// ---------------------------------------------------------------------------

/// Whether two nodes hold the same value: the same scalar, or the same values
/// in the same order under the same keys.
pub open spec fn same_value(a: Seq<JsonNode>, i: int, b: Seq<JsonNode>, j: int) -> bool
    decreases i, 1int, 0int,
{
    let count = children_of(a[i]).len();
    match (a[i], b[j]) {
        (JsonNode::Null, JsonNode::Null) => true,
        (JsonNode::Boolean(left), JsonNode::Boolean(right)) => left == right,
        (JsonNode::Number(left), JsonNode::Number(right)) => left == right,
        (JsonNode::Text(left), JsonNode::Text(right)) => left == right,
        (JsonNode::Array(_), JsonNode::Array(_)) => count == children_of(b[j]).len()
            && same_children(a, i, b, j, count as int),
        (JsonNode::Object(_), JsonNode::Object(_)) => count == children_of(b[j]).len()
            && same_children(a, i, b, j, count as int),
        _ => false,
    }
}

/// Whether the first `n` children of two nodes have the same keys and values.
pub open spec fn same_children(
    a: Seq<JsonNode>,
    i: int,
    b: Seq<JsonNode>,
    j: int,
    n: int,
) -> bool
    decreases i, 0int, n,
{
    n <= 0 || {
        let left = children_of(a[i])[n - 1] as int;
        let right = children_of(b[j])[n - 1] as int;
        &&& same_children(a, i, b, j, n - 1)
        &&& child_label(a[i], n - 1) == child_label(b[j], n - 1)
        &&& 0 <= left < i
        &&& 0 <= right < j
        &&& same_value(a, left, b, right)
    }
}

// ---------------------------------------------------------------------------
// Sequences
// ---------------------------------------------------------------------------

proof fn lemma_cancel(prefix: Seq<char>, left: Seq<char>, right: Seq<char>)
    requires
        prefix + left == prefix + right,
    ensures
        left == right,
{
    assert(left =~= (prefix + left).subrange(prefix.len() as int, (prefix + left).len() as int));
    assert(right =~= (prefix + right).subrange(prefix.len() as int, (prefix + right).len() as int));
}

proof fn lemma_associate(a: Seq<char>, b: Seq<char>, c: Seq<char>)
    ensures
        a + b + c == a + (b + c),
{
    assert(a + b + c =~= a + (b + c));
}

// ---------------------------------------------------------------------------
// Strings
// ---------------------------------------------------------------------------

proof fn lemma_escapes_are_read_back(s: Seq<char>, t: Seq<char>, x: Seq<char>, y: Seq<char>)
    requires
        escaped_text(s) + (seq!['"'] + x) == escaped_text(t) + (seq!['"'] + y),
    ensures
        s == t,
        x == y,
    decreases s.len(),
{
    let quote = seq!['"'];
    let left = escaped_text(s) + (quote + x);
    let right = escaped_text(t) + (quote + y);
    if s.len() == 0 && t.len() == 0 {
        assert(s =~= t);
        assert(left =~= quote + x);
        assert(right =~= quote + y);
        lemma_cancel(quote, x, y);
    } else if s.len() == 0 {
        assert(left[0] == '"');
        assert(right[0] == escaped_char(t[0])[0]);
    } else if t.len() == 0 {
        assert(right[0] == '"');
        assert(left[0] == escaped_char(s[0])[0]);
    } else {
        let s_rest = escaped_text(s.drop_first()) + (quote + x);
        let t_rest = escaped_text(t.drop_first()) + (quote + y);
        lemma_associate(escaped_char(s[0]), escaped_text(s.drop_first()), quote + x);
        lemma_associate(escaped_char(t[0]), escaped_text(t.drop_first()), quote + y);
        assert(left == escaped_char(s[0]) + s_rest);
        assert(right == escaped_char(t[0]) + t_rest);
        assert(left[0] == escaped_char(s[0])[0]);
        assert(right[0] == escaped_char(t[0])[0]);
        if left[0] == '\\' {
            assert(left[1] == escaped_char(s[0])[1]);
            assert(right[1] == escaped_char(t[0])[1]);
        }
        assert(s[0] == t[0]);
        lemma_cancel(escaped_char(s[0]), s_rest, t_rest);
        lemma_escapes_are_read_back(s.drop_first(), t.drop_first(), x, y);
        assert(s =~= seq![s[0]] + s.drop_first());
        assert(t =~= seq![t[0]] + t.drop_first());
    }
}

proof fn lemma_strings_are_read_back(s: Seq<char>, t: Seq<char>, x: Seq<char>, y: Seq<char>)
    requires
        string_text(s) + x == string_text(t) + y,
    ensures
        s == t,
        x == y,
{
    let quote = seq!['"'];
    assert(string_text(s) + x =~= quote + (escaped_text(s) + (quote + x)));
    assert(string_text(t) + y =~= quote + (escaped_text(t) + (quote + y)));
    lemma_cancel(quote, escaped_text(s) + (quote + x), escaped_text(t) + (quote + y));
    lemma_escapes_are_read_back(s, t, x, y);
}

// ---------------------------------------------------------------------------
// Numbers
// ---------------------------------------------------------------------------

/// A byte of a number.
pub open spec fn is_number_byte(byte: u8) -> bool {
    is_digit(byte) || byte == 45 || byte == 46 || byte == 101
}

proof fn lemma_digit_run(bytes: Seq<u8>, from: int)
    requires
        0 <= from <= bytes.len(),
    ensures
        from <= digits_end(bytes, from) <= bytes.len(),
        forall|i: int| from <= i < digits_end(bytes, from) ==> is_digit(#[trigger] bytes[i]),
    decreases bytes.len() - from,
{
    if from < bytes.len() && is_digit(bytes[from]) {
        lemma_digit_run(bytes, from + 1);
    }
}

proof fn lemma_number_bytes(bytes: Seq<u8>)
    requires
        is_number_token(bytes),
    ensures
        bytes.len() > 0,
        forall|i: int| 0 <= i < bytes.len() ==> is_number_byte(#[trigger] bytes[i]),
        bytes[0] == 45 || is_digit(bytes[0]),
{
    if bytes =~= seq![48u8] {
    } else {
        let start = integer_start(bytes);
        lemma_digit_run(bytes, start);
        let integer_end = digits_end(bytes, start);
        if integer_end < bytes.len() && bytes[integer_end] == 46 {
            lemma_digit_run(bytes, integer_end + 1);
        }
        let end = fraction_end(bytes, integer_end);
        if end < bytes.len() {
            let digits = if end + 1 < bytes.len() && bytes[end + 1] == 45 {
                end + 2
            } else {
                end + 1
            };
            lemma_digit_run(bytes, digits);
        }
    }
}

proof fn lemma_ascii_character(character: char)
    requires
        character as u32 <= 127,
    ensures
        character as u8 == character as int,
{
}

proof fn lemma_ascii_text(text: Seq<char>)
    requires
        forall|i: int| 0 <= i < encode_utf8(text).len() ==> #[trigger] encode_utf8(text)[i] <= 127,
    ensures
        encode_utf8(text).len() == text.len(),
        forall|i: int| 0 <= i < text.len() ==> #[trigger] text[i] as int == encode_utf8(text)[i],
    decreases text.len(),
{
    if text.len() > 0 {
        let rest = text.drop_first();
        let first = encode_scalar(text[0] as u32);
        lemma_encode_scalar(text[0]);
        assert(encode_utf8(text) == first + encode_utf8(rest));
        assert(encode_utf8(text)[0] == first[0]);
        assert forall|i: int| 0 <= i < encode_utf8(rest).len() implies #[trigger] encode_utf8(
            rest,
        )[i] <= 127 by {
            assert(encode_utf8(text)[i + first.len()] == encode_utf8(rest)[i]);
        }
        lemma_ascii_text(rest);
        assert forall|i: int| 0 <= i < text.len() implies #[trigger] text[i] as int
            == encode_utf8(text)[i] by {
            if i > 0 {
                assert(text[i] == rest[i - 1]);
                assert(encode_utf8(text)[i] == encode_utf8(rest)[i - 1]);
            } else {
                assert(text[0] as u32 <= 127);
                lemma_ascii_character(text[0]);
            }
        }
    }
}

/// Whether a text is empty or goes on as a JSON value may be followed.
pub open spec fn ends_value(text: Seq<char>) -> bool {
    text.len() == 0 || text[0] == ',' || text[0] == ']' || text[0] == '}'
}

/// The characters of a number are digits, signs, points and exponent marks.
pub proof fn lemma_number_characters(value: Seq<char>)
    requires
        is_number_token(encode_utf8(value)),
    ensures
        value.len() > 0,
        value[0] == '-' || '0' <= value[0] <= '9',
        forall|i: int|
            0 <= i < value.len() ==> '0' <= #[trigger] value[i] <= '9' || value[i] == '-'
                || value[i] == '.' || value[i] == 'e',
{
    let bytes = encode_utf8(value);
    lemma_number_bytes(bytes);
    lemma_ascii_text(value);
    assert forall|i: int| 0 <= i < value.len() implies '0' <= #[trigger] value[i] <= '9'
        || value[i] == '-' || value[i] == '.' || value[i] == 'e' by {
        assert(is_number_byte(bytes[i]));
        assert(value[i] as int == bytes[i]);
    }
    assert(is_number_byte(bytes[0]));
}

proof fn lemma_numbers_are_read_back(s: Seq<char>, t: Seq<char>, x: Seq<char>, y: Seq<char>)
    requires
        is_number_token(encode_utf8(s)),
        is_number_token(encode_utf8(t)),
        ends_value(x),
        ends_value(y),
        s + x == t + y,
    ensures
        s == t,
        x == y,
{
    lemma_number_characters(s);
    lemma_number_characters(t);
    if s.len() < t.len() {
        assert((t + y)[s.len() as int] == t[s.len() as int]);
        assert((s + x)[s.len() as int] == x[0]);
    } else if t.len() < s.len() {
        assert((s + x)[t.len() as int] == s[t.len() as int]);
        assert((t + y)[t.len() as int] == y[0]);
    } else {
        assert(s =~= (s + x).take(s.len() as int));
        assert(t =~= (t + y).take(t.len() as int));
        lemma_cancel(s, x, y);
    }
}

// ---------------------------------------------------------------------------
// Nodes
// ---------------------------------------------------------------------------

/// Whether every node is good.
pub open spec fn all_good(nodes: Seq<JsonNode>) -> bool {
    forall|p: int| 0 <= p < nodes.len() ==> #[trigger] is_good_node(nodes, p)
}

/// The children of a good node come before it.
pub proof fn lemma_children_come_before(nodes: Seq<JsonNode>, i: int, k: int)
    requires
        all_good(nodes),
        0 <= i < nodes.len(),
        0 <= k < children_of(nodes[i]).len(),
    ensures
        0 <= children_of(nodes[i])[k] < i,
{
    assert(is_good_node(nodes, i));
    assert(is_fresh(nodes, i, k));
}

/// The text of the children of a node from position `k` on.
pub open spec fn rest_text(nodes: Seq<JsonNode>, i: int, k: int) -> Seq<char>
    decreases children_of(nodes[i]).len() - k,
{
    if k < 0 || k >= children_of(nodes[i]).len() {
        Seq::empty()
    } else {
        comma(k) + (child_label(nodes[i], k) + (node_text(nodes, children_of(nodes[i])[k] as int)
            + rest_text(nodes, i, k + 1)))
    }
}

/// The text of the children of a node is that of the first ones and of the
/// rest.
pub proof fn lemma_rest_text(nodes: Seq<JsonNode>, i: int, k: int)
    requires
        all_good(nodes),
        0 <= i < nodes.len(),
        0 <= k <= children_of(nodes[i]).len(),
    ensures
        items_text(nodes, i, children_of(nodes[i]).len() as int) == items_text(nodes, i, k)
            + rest_text(nodes, i, k),
    decreases children_of(nodes[i]).len() - k,
{
    let count = children_of(nodes[i]).len() as int;
    if k == count {
        assert(items_text(nodes, i, k) + rest_text(nodes, i, k) =~= items_text(nodes, i, k));
    } else {
        lemma_children_come_before(nodes, i, k);
        lemma_rest_text(nodes, i, k + 1);
        let head = items_text(nodes, i, k);
        let label = child_label(nodes[i], k);
        let value = node_text(nodes, children_of(nodes[i])[k] as int);
        let rest = rest_text(nodes, i, k + 1);
        assert(items_text(nodes, i, k + 1) == head + comma(k) + label + value);
        lemma_associate(head + comma(k) + label, value, rest);
        lemma_associate(head + comma(k), label, value + rest);
        lemma_associate(head, comma(k), label + (value + rest));
    }
}

/// The first character of a value.
pub open spec fn first_character(node: JsonNode) -> char {
    match node {
        JsonNode::Null => 'n',
        JsonNode::Boolean(true) => 't',
        JsonNode::Boolean(false) => 'f',
        JsonNode::Number(value) => value[0],
        JsonNode::Text(_) => '"',
        JsonNode::Array(_) => '[',
        JsonNode::Object(_) => '{',
    }
}

/// The text of a node begins with its first character.
pub proof fn lemma_first_character(nodes: Seq<JsonNode>, i: int)
    requires
        all_good(nodes),
        0 <= i < nodes.len(),
    ensures
        node_text(nodes, i).len() > 0,
        node_text(nodes, i)[0] == first_character(nodes[i]),
        nodes[i] matches JsonNode::Number(value) ==> value[0] == '-' || '0' <= value[0] <= '9',
{
    assert(is_good_node(nodes, i));
    if let JsonNode::Number(value) = nodes[i] {
        lemma_number_characters(value);
    }
}

proof fn lemma_rest_begins(nodes: Seq<JsonNode>, i: int, k: int, x: Seq<char>)
    requires
        all_good(nodes),
        0 <= i < nodes.len(),
        0 <= k < children_of(nodes[i]).len(),
    ensures
        k > 0 ==> (rest_text(nodes, i, k) + x)[0] == ',',
        k == 0 ==> (rest_text(nodes, i, k) + x)[0] != ']' && (rest_text(nodes, i, k) + x)[0] != '}',
        rest_text(nodes, i, k).len() > 0,
{
    lemma_children_come_before(nodes, i, k);
    let child = children_of(nodes[i])[k] as int;
    lemma_first_character(nodes, child);
    let label = child_label(nodes[i], k);
    let value = node_text(nodes, child);
    if k == 0 {
        assert(rest_text(nodes, i, k) =~= label + (value + rest_text(nodes, i, k + 1)));
        if let JsonNode::Object(fields) = nodes[i] {
            assert(label[0] == '"');
            assert(rest_text(nodes, i, k)[0] == '"');
        } else {
            assert(label =~= Seq::empty());
            assert(rest_text(nodes, i, k)[0] == value[0]);
        }
    }
}

proof fn lemma_rest_unfolds(nodes: Seq<JsonNode>, i: int, k: int, x: Seq<char>)
    requires
        0 <= k < children_of(nodes[i]).len(),
    ensures
        rest_text(nodes, i, k) + x == comma(k) + (child_label(nodes[i], k) + (node_text(
            nodes,
            children_of(nodes[i])[k] as int,
        ) + (rest_text(nodes, i, k + 1) + x))),
{
    let label = child_label(nodes[i], k);
    let value = node_text(nodes, children_of(nodes[i])[k] as int);
    let rest = rest_text(nodes, i, k + 1);
    lemma_associate(comma(k), label + (value + rest), x);
    lemma_associate(label, value + rest, x);
    lemma_associate(value, rest, x);
}

proof fn lemma_rest_ends_a_value(nodes: Seq<JsonNode>, i: int, k: int, x: Seq<char>)
    requires
        all_good(nodes),
        0 <= i < nodes.len(),
        0 < k <= children_of(nodes[i]).len(),
        x.len() > 0,
        x[0] == ']' || x[0] == '}',
    ensures
        ends_value(rest_text(nodes, i, k) + x),
{
    if k < children_of(nodes[i]).len() {
        lemma_rest_begins(nodes, i, k, x);
    } else {
        assert(rest_text(nodes, i, k) + x =~= x);
    }
}

proof fn lemma_children_are_read_back(
    a: Seq<JsonNode>,
    i: int,
    b: Seq<JsonNode>,
    j: int,
    k: int,
    x: Seq<char>,
    y: Seq<char>,
)
    requires
        all_good(a),
        all_good(b),
        0 <= i < a.len(),
        0 <= j < b.len(),
        (a[i] is Array && b[j] is Array) || (a[i] is Object && b[j] is Object),
        0 <= k <= children_of(a[i]).len(),
        k <= children_of(b[j]).len(),
        same_children(a, i, b, j, k),
        x.len() > 0,
        y.len() > 0,
        x[0] == ']' || x[0] == '}',
        y[0] == ']' || y[0] == '}',
        rest_text(a, i, k) + x == rest_text(b, j, k) + y,
    ensures
        children_of(a[i]).len() == children_of(b[j]).len(),
        same_children(a, i, b, j, children_of(a[i]).len() as int),
        x == y,
    decreases i, 0int, children_of(a[i]).len() - k,
{
    let left = rest_text(a, i, k) + x;
    let right = rest_text(b, j, k) + y;
    if k == children_of(a[i]).len() && k == children_of(b[j]).len() {
        assert(left =~= x);
        assert(right =~= y);
    } else if k == children_of(a[i]).len() {
        lemma_rest_begins(b, j, k, y);
        assert(left =~= x);
    } else if k == children_of(b[j]).len() {
        lemma_rest_begins(a, i, k, x);
        assert(right =~= y);
    } else {
        lemma_children_come_before(a, i, k);
        lemma_children_come_before(b, j, k);
        let p = children_of(a[i])[k] as int;
        let q = children_of(b[j])[k] as int;
        let p_label = child_label(a[i], k);
        let q_label = child_label(b[j], k);
        let p_tail = rest_text(a, i, k + 1) + x;
        let q_tail = rest_text(b, j, k + 1) + y;
        let p_value = node_text(a, p) + p_tail;
        let q_value = node_text(b, q) + q_tail;
        lemma_rest_unfolds(a, i, k, x);
        lemma_rest_unfolds(b, j, k, y);
        lemma_cancel(comma(k), p_label + p_value, q_label + q_value);
        if let JsonNode::Object(fields) = a[i] {
            let others = b[j]->Object_0;
            let s = fields[k].0;
            let t = others[k].0;
            lemma_associate(string_text(s), seq![':'], p_value);
            lemma_associate(string_text(t), seq![':'], q_value);
            lemma_strings_are_read_back(s, t, seq![':'] + p_value, seq![':'] + q_value);
            lemma_cancel(seq![':'], p_value, q_value);
        } else {
            assert(p_label + p_value =~= p_value);
            assert(q_label + q_value =~= q_value);
        }
        lemma_rest_ends_a_value(a, i, k + 1, x);
        lemma_rest_ends_a_value(b, j, k + 1, y);
        lemma_nodes_are_read_back(a, p, b, q, p_tail, q_tail);
        lemma_children_are_read_back(a, i, b, j, k + 1, x, y);
    }
}

/// Two values that are written alike, with whatever may follow a value, are
/// the same, and so is what follows.
pub proof fn lemma_nodes_are_read_back(
    a: Seq<JsonNode>,
    i: int,
    b: Seq<JsonNode>,
    j: int,
    x: Seq<char>,
    y: Seq<char>,
)
    requires
        all_good(a),
        all_good(b),
        0 <= i < a.len(),
        0 <= j < b.len(),
        ends_value(x),
        ends_value(y),
        node_text(a, i) + x == node_text(b, j) + y,
    ensures
        same_value(a, i, b, j),
        x == y,
    decreases i, 1int, 0int,
{
    assert(is_good_node(a, i));
    assert(is_good_node(b, j));
    lemma_first_character(a, i);
    lemma_first_character(b, j);
    assert((node_text(a, i) + x)[0] == node_text(a, i)[0]);
    assert((node_text(b, j) + y)[0] == node_text(b, j)[0]);
    match (a[i], b[j]) {
        (JsonNode::Number(s), JsonNode::Number(t)) => {
            lemma_numbers_are_read_back(s, t, x, y);
        },
        (JsonNode::Text(s), JsonNode::Text(t)) => {
            lemma_strings_are_read_back(s, t, x, y);
        },
        (JsonNode::Array(_), JsonNode::Array(_)) => {
            lemma_container_text(a, i, '[', ']', x);
            lemma_container_text(b, j, '[', ']', y);
            lemma_cancel(
                seq!['['],
                rest_text(a, i, 0) + (seq![']'] + x),
                rest_text(b, j, 0) + (seq![']'] + y),
            );
            lemma_children_are_read_back(a, i, b, j, 0, seq![']'] + x, seq![']'] + y);
            lemma_cancel(seq![']'], x, y);
        },
        (JsonNode::Object(_), JsonNode::Object(_)) => {
            lemma_container_text(a, i, '{', '}', x);
            lemma_container_text(b, j, '{', '}', y);
            lemma_cancel(
                seq!['{'],
                rest_text(a, i, 0) + (seq!['}'] + x),
                rest_text(b, j, 0) + (seq!['}'] + y),
            );
            lemma_children_are_read_back(a, i, b, j, 0, seq!['}'] + x, seq!['}'] + y);
            lemma_cancel(seq!['}'], x, y);
        },
        _ => {
            lemma_cancel(node_text(a, i), x, y);
        },
    }
}

proof fn lemma_container_text(nodes: Seq<JsonNode>, i: int, open: char, close: char, x: Seq<char>)
    requires
        all_good(nodes),
        0 <= i < nodes.len(),
        nodes[i] is Array && open == '[' && close == ']' || nodes[i] is Object && open == '{'
            && close == '}',
    ensures
        node_text(nodes, i) + x == seq![open] + (rest_text(nodes, i, 0) + (seq![close] + x)),
{
    let count = children_of(nodes[i]).len() as int;
    lemma_rest_text(nodes, i, 0);
    assert(items_text(nodes, i, 0) + rest_text(nodes, i, 0) =~= rest_text(nodes, i, 0));
    let inner = rest_text(nodes, i, 0);
    assert(node_text(nodes, i) == seq![open] + inner + seq![close]);
    lemma_associate(seq![open] + inner, seq![close], x);
    lemma_associate(seq![open], inner, seq![close] + x);
}

/// Equal values are written alike.
pub proof fn lemma_same_values_are_written_alike(
    a: Seq<JsonNode>,
    i: int,
    b: Seq<JsonNode>,
    j: int,
)
    requires
        0 <= i,
        0 <= j,
        same_value(a, i, b, j),
    ensures
        node_text(a, i) == node_text(b, j),
    decreases i, 1int, 0int,
{
    match a[i] {
        JsonNode::Array(_) => {
            lemma_same_children_are_written_alike(a, i, b, j, children_of(a[i]).len() as int);
        },
        JsonNode::Object(_) => {
            lemma_same_children_are_written_alike(a, i, b, j, children_of(a[i]).len() as int);
        },
        _ => {},
    }
}

proof fn lemma_same_children_are_written_alike(
    a: Seq<JsonNode>,
    i: int,
    b: Seq<JsonNode>,
    j: int,
    n: int,
)
    requires
        0 <= i,
        0 <= j,
        0 <= n <= children_of(a[i]).len(),
        n <= children_of(b[j]).len(),
        same_children(a, i, b, j, n),
    ensures
        items_text(a, i, n) == items_text(b, j, n),
    decreases i, 0int, n,
{
    if n > 0 {
        lemma_same_children_are_written_alike(a, i, b, j, n - 1);
        lemma_same_values_are_written_alike(
            a,
            children_of(a[i])[n - 1] as int,
            b,
            children_of(b[j])[n - 1] as int,
        );
    }
}

/// Two accepted documents have the same canonical JSON exactly when they hold
/// the same value, however their nodes are arranged.
pub proof fn lemma_canonical_json_determines_the_value(a: JsonDocument, b: JsonDocument)
    requires
        is_bounded_tree(a),
        is_bounded_tree(b),
    ensures
        document_json(a) == document_json(b) <==> same_value(
            a.nodes,
            a.root as int,
            b.nodes,
            b.root as int,
        ),
{
    let i = a.root as int;
    let j = b.root as int;
    lemma_document_text(a);
    lemma_document_text(b);
    lemma_encoding_is_injective(document_text(a), document_text(b));
    if document_json(a) == document_json(b) {
        let nothing = Seq::<char>::empty();
        assert(node_text(a.nodes, i) + nothing =~= node_text(a.nodes, i));
        assert(node_text(b.nodes, j) + nothing =~= node_text(b.nodes, j));
        lemma_nodes_are_read_back(a.nodes, i, b.nodes, j, nothing, nothing);
    }
    if same_value(a.nodes, i, b.nodes, j) {
        lemma_same_values_are_written_alike(a.nodes, i, b.nodes, j);
    }
}

} // verus!
