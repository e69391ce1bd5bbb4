//! Canonical JSON as text: the characters that its bytes encode.

use vstd::prelude::*;
use vstd::utf8::{encode_scalar, encode_utf8};

use crate::provider_api::{JsonDocument, JsonNode};
use crate::provider_validation::wire_json::{
    child_prefix, children_of, document_json, escaped, escaped_byte, items_json, node_json,
    separator, string_json,
};
use crate::text::{lemma_encode_concat, lemma_encode_one, lemma_encode_scalar};

verus! {

/// A character of a JSON string: quotes, backslashes, tabs and line feeds are
/// escaped, everything else stands for itself.
pub open spec fn escaped_char(character: char) -> Seq<char> {
    if character == '"' {
        seq!['\\', '"']
    } else if character == '\\' {
        seq!['\\', '\\']
    } else if character == '\t' {
        seq!['\\', 't']
    } else if character == '\n' {
        seq!['\\', 'n']
    } else {
        seq![character]
    }
}

/// The escaped form of a text.
pub open spec fn escaped_text(text: Seq<char>) -> Seq<char>
    decreases text.len(),
{
    if text.len() == 0 {
        Seq::empty()
    } else {
        escaped_char(text[0]) + escaped_text(text.drop_first())
    }
}

/// A text as a JSON string.
pub open spec fn string_text(text: Seq<char>) -> Seq<char> {
    seq!['"'] + escaped_text(text) + seq!['"']
}

/// A comma, except before the first element.
pub open spec fn comma(position: int) -> Seq<char> {
    if position == 0 {
        Seq::empty()
    } else {
        seq![',']
    }
}

/// The canonical JSON text of node `index`.
pub open spec fn node_text(nodes: Seq<JsonNode>, index: int) -> Seq<char>
    decreases index, children_of(nodes[index]).len() + 1,
{
    match nodes[index] {
        JsonNode::Null => seq!['n', 'u', 'l', 'l'],
        JsonNode::Boolean(true) => seq!['t', 'r', 'u', 'e'],
        JsonNode::Boolean(false) => seq!['f', 'a', 'l', 's', 'e'],
        JsonNode::Number(value) => value,
        JsonNode::Text(value) => string_text(value),
        JsonNode::Array(items) => seq!['['] + items_text(
            nodes,
            index,
            children_of(nodes[index]).len() as int,
        ) + seq![']'],
        JsonNode::Object(fields) => seq!['{'] + items_text(
            nodes,
            index,
            children_of(nodes[index]).len() as int,
        ) + seq!['}'],
    }
}

/// What stands before the value of child `k`: nothing in an array, the key and
/// a colon in an object.
pub open spec fn child_label(node: JsonNode, k: int) -> Seq<char> {
    match node {
        JsonNode::Object(fields) => string_text(fields[k].0) + seq![':'],
        _ => Seq::empty(),
    }
}

/// The first `n` children of node `index`, separated by commas.
pub open spec fn items_text(nodes: Seq<JsonNode>, index: int, n: int) -> Seq<char>
    decreases index, n,
{
    if n <= 0 || n > children_of(nodes[index]).len() {
        Seq::empty()
    } else {
        let child = children_of(nodes[index])[n - 1] as int;
        items_text(nodes, index, n - 1) + comma(n - 1) + child_label(nodes[index], n - 1) + if 0
            <= child < index {
            node_text(nodes, child)
        } else {
            Seq::empty()
        }
    }
}

/// The canonical JSON text of a document.
pub open spec fn document_text(document: JsonDocument) -> Seq<char> {
    node_text(document.nodes, document.root as int)
}

proof fn lemma_escaped_adds(left: Seq<u8>, right: Seq<u8>)
    ensures
        escaped(left + right) == escaped(left) + escaped(right),
    decreases right.len(),
{
    if right.len() == 0 {
        assert(left + right =~= left);
        assert(escaped(left) + escaped(right) =~= escaped(left));
    } else {
        lemma_escaped_adds(left, right.drop_last());
        assert((left + right).drop_last() =~= left + right.drop_last());
        assert(escaped(left + right) =~= escaped(left) + escaped(right));
    }
}

proof fn lemma_escaped_one(byte: u8)
    ensures
        escaped(seq![byte]) == escaped_byte(byte),
{
    assert(seq![byte].drop_last() =~= Seq::empty());
    assert(escaped(Seq::<u8>::empty()) =~= Seq::empty());
    assert(escaped(seq![byte]) =~= escaped_byte(byte));
}

proof fn lemma_plain_bytes(bytes: Seq<u8>)
    requires
        forall|i: int| 0 <= i < bytes.len() ==> #[trigger] bytes[i] >= 128,
    ensures
        escaped(bytes) == bytes,
    decreases bytes.len(),
{
    if bytes.len() > 0 {
        lemma_plain_bytes(bytes.drop_last());
        assert(escaped(bytes) =~= bytes);
    }
}

proof fn lemma_two_ascii(first: char, second: char)
    requires
        first as u32 <= 127,
        second as u32 <= 127,
    ensures
        encode_utf8(seq![first, second]) == seq![first as u8, second as u8],
{
    assert(seq![first, second] =~= seq![first] + seq![second]);
    lemma_encode_concat(seq![first], seq![second]);
    lemma_encode_one(first);
    lemma_encode_one(second);
    lemma_encode_scalar(first);
    lemma_encode_scalar(second);
    assert(encode_utf8(seq![first, second]) =~= seq![first as u8, second as u8]);
}

proof fn lemma_one_ascii(character: char)
    requires
        character as u32 <= 127,
    ensures
        encode_utf8(seq![character]) == seq![character as u8],
{
    lemma_encode_one(character);
    lemma_encode_scalar(character);
}

proof fn lemma_escaped_char(character: char)
    ensures
        encode_utf8(escaped_char(character)) == escaped(encode_scalar(character as u32)),
{
    lemma_encode_scalar(character);
    lemma_encode_one(character);
    if character as u32 <= 127 {
        lemma_escaped_one(character as u8);
        lemma_two_ascii('\\', '"');
        lemma_two_ascii('\\', '\\');
        lemma_two_ascii('\\', 't');
        lemma_two_ascii('\\', 'n');
    } else {
        lemma_plain_bytes(encode_scalar(character as u32));
    }
}

proof fn lemma_escaped_text(text: Seq<char>)
    ensures
        encode_utf8(escaped_text(text)) == escaped(encode_utf8(text)),
    decreases text.len(),
{
    if text.len() == 0 {
        assert(encode_utf8(text) =~= Seq::empty());
        assert(escaped(encode_utf8(text)) =~= encode_utf8(escaped_text(text)));
    } else {
        let rest = text.drop_first();
        lemma_escaped_text(rest);
        lemma_escaped_char(text[0]);
        lemma_encode_concat(escaped_char(text[0]), escaped_text(rest));
        lemma_escaped_adds(encode_scalar(text[0] as u32), encode_utf8(rest));
    }
}

/// The bytes of a JSON string encode its text.
pub proof fn lemma_string_text(text: Seq<char>)
    ensures
        encode_utf8(string_text(text)) == string_json(text),
{
    lemma_escaped_text(text);
    lemma_one_ascii('"');
    lemma_encode_concat(seq!['"'], escaped_text(text));
    lemma_encode_concat(seq!['"'] + escaped_text(text), seq!['"']);
}

proof fn lemma_words()
    ensures
        encode_utf8(seq!['n', 'u', 'l', 'l']) == seq![110u8, 117u8, 108u8, 108u8],
        encode_utf8(seq!['t', 'r', 'u', 'e']) == seq![116u8, 114u8, 117u8, 101u8],
        encode_utf8(seq!['f', 'a', 'l', 's', 'e']) == seq![102u8, 97u8, 108u8, 115u8, 101u8],
{
    lemma_two_ascii('n', 'u');
    lemma_two_ascii('l', 'l');
    lemma_encode_concat(seq!['n', 'u'], seq!['l', 'l']);
    assert(seq!['n', 'u', 'l', 'l'] =~= seq!['n', 'u'] + seq!['l', 'l']);
    assert(encode_utf8(seq!['n', 'u', 'l', 'l']) =~= seq![110u8, 117u8, 108u8, 108u8]);
    lemma_two_ascii('t', 'r');
    lemma_two_ascii('u', 'e');
    lemma_encode_concat(seq!['t', 'r'], seq!['u', 'e']);
    assert(seq!['t', 'r', 'u', 'e'] =~= seq!['t', 'r'] + seq!['u', 'e']);
    assert(encode_utf8(seq!['t', 'r', 'u', 'e']) =~= seq![116u8, 114u8, 117u8, 101u8]);
    lemma_one_ascii('f');
    lemma_two_ascii('a', 'l');
    lemma_two_ascii('s', 'e');
    lemma_encode_concat(seq!['a', 'l'], seq!['s', 'e']);
    lemma_encode_concat(seq!['f'], seq!['a', 'l'] + seq!['s', 'e']);
    assert(seq!['f', 'a', 'l', 's', 'e'] =~= seq!['f'] + (seq!['a', 'l'] + seq!['s', 'e']));
    assert(encode_utf8(seq!['f', 'a', 'l', 's', 'e']) =~= seq![
        102u8,
        97u8,
        108u8,
        115u8,
        101u8,
    ]);
}

proof fn lemma_enclosed(open: char, inner: Seq<char>, close: char)
    requires
        open as u32 <= 127,
        close as u32 <= 127,
    ensures
        encode_utf8(seq![open] + inner + seq![close]) == seq![open as u8] + encode_utf8(inner)
            + seq![close as u8],
{
    lemma_one_ascii(open);
    lemma_one_ascii(close);
    lemma_encode_concat(seq![open], inner);
    lemma_encode_concat(seq![open] + inner, seq![close]);
}

proof fn lemma_items_text(nodes: Seq<JsonNode>, index: int, n: int)
    requires
        0 <= index,
        0 <= n <= children_of(nodes[index]).len(),
    ensures
        encode_utf8(items_text(nodes, index, n)) == items_json(nodes, index, n),
    decreases index, n,
{
    if n == 0 {
        assert(items_json(nodes, index, n) =~= encode_utf8(items_text(nodes, index, n)));
    } else {
        let child = children_of(nodes[index])[n - 1] as int;
        let head = items_text(nodes, index, n - 1);
        let label = child_label(nodes[index], n - 1);
        let value = if 0 <= child < index {
            node_text(nodes, child)
        } else {
            Seq::empty()
        };
        lemma_items_text(nodes, index, n - 1);
        if child < index {
            lemma_node_text(nodes, child);
        }
        assert(encode_utf8(Seq::<char>::empty()) =~= Seq::empty());
        lemma_one_ascii(',');
        lemma_one_ascii(':');
        assert(encode_utf8(comma(n - 1)) =~= separator(n - 1));
        assert(encode_utf8(label) == child_prefix(nodes[index], n - 1)) by {
            if let JsonNode::Object(fields) = nodes[index] {
                lemma_string_text(fields[n - 1].0);
                lemma_encode_concat(string_text(fields[n - 1].0), seq![':']);
            }
        }
        lemma_encode_concat(head, comma(n - 1));
        lemma_encode_concat(head + comma(n - 1), label);
        lemma_encode_concat(head + comma(n - 1) + label, value);
    }
}

/// The canonical bytes of a node encode its canonical text.
pub proof fn lemma_node_text(nodes: Seq<JsonNode>, index: int)
    requires
        0 <= index,
    ensures
        encode_utf8(node_text(nodes, index)) == node_json(nodes, index),
    decreases index, children_of(nodes[index]).len() + 1,
{
    let count = children_of(nodes[index]).len() as int;
    match nodes[index] {
        JsonNode::Null => {
            lemma_words();
        },
        JsonNode::Boolean(_) => {
            lemma_words();
        },
        JsonNode::Number(_) => {},
        JsonNode::Text(value) => {
            lemma_string_text(value);
        },
        JsonNode::Array(_) => {
            lemma_items_text(nodes, index, count);
            lemma_enclosed('[', items_text(nodes, index, count), ']');
        },
        JsonNode::Object(_) => {
            lemma_items_text(nodes, index, count);
            lemma_enclosed('{', items_text(nodes, index, count), '}');
        },
    }
}

/// The canonical bytes of a document are valid UTF-8: they encode its
/// canonical text.
pub proof fn lemma_document_text(document: JsonDocument)
    ensures
        encode_utf8(document_text(document)) == document_json(document),
{
    lemma_node_text(document.nodes, document.root as int);
}

} // verus!
