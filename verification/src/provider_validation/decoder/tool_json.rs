//! Strict canonical JSON validation for completed tool arguments.

use vstd::prelude::*;
use vstd::utf8::encode_utf8;

use crate::provider_api::{
    field_models, node_models, JsonDocument, JsonNode, WireJsonArray, WireJsonDocument,
    WireJsonField, WireJsonNode, WireJsonObject,
};
use crate::provider_validation::wire_json::{
    canonical_serialize, document_json, serialization_verdict, validate_wire_json, wire_verdict,
};
use crate::provider_validation::{verdict, ValidationError, ValidationResult};
use crate::text::{byte_len, same_bytes};

verus! {

/// Largest argument text: one mebibyte.
pub const MAX_TOOL_ARGUMENT_BYTES: usize = 1_048_576;

/// Largest logical charge of arguments: one mebibyte.
pub const MAX_TOOL_ARGUMENT_CHARGE: u64 = 1_048_576;

/// Largest nesting depth of arguments.
pub const MAX_TOOL_ARGUMENT_DEPTH: u8 = 64;

/// Largest number of nodes of arguments.
pub const MAX_TOOL_ARGUMENT_NODES: usize = 16_384;

/// `char::from_u32` of the standard library: the character with the given
/// number, if that is a Unicode scalar value.
pub assume_specification[ char::from_u32 ](value: u32) -> (character: Option<char>)
    ensures
        match character {
            Some(character) => character == value as char && (value < 0xd800 || 0xdfff < value
                <= 0x10_ffff),
            None => 0xd800 <= value <= 0xdfff || value > 0x10_ffff,
        },
;

// ---------------------------------------------------------------------------
// Grammar
// ---------------------------------------------------------------------------

/// A blank between tokens.
pub open spec fn is_blank(character: char) -> bool {
    character == ' ' || character == '\t' || character == '\n' || character == '\r'
}

/// The first position from `at` on that holds no blank.
pub open spec fn skip_blanks(input: Seq<char>, at: int) -> int
    decreases input.len() - at,
{
    if 0 <= at < input.len() && is_blank(input[at]) {
        skip_blanks(input, at + 1)
    } else {
        at
    }
}

/// The input holds the given character at a position.
pub open spec fn holds(input: Seq<char>, at: int, character: char) -> bool {
    0 <= at < input.len() && input[at] == character
}

/// The value of a hexadecimal digit.
pub open spec fn hex_digit_value(character: char) -> Option<int> {
    if '0' <= character <= '9' {
        Some(character as int - 48)
    } else if 'a' <= character <= 'f' {
        Some(character as int - 87)
    } else if 'A' <= character <= 'F' {
        Some(character as int - 55)
    } else {
        None
    }
}

/// The number that the four hexadecimal digits at a position stand for.
pub open spec fn hex_quad(input: Seq<char>, at: int) -> Option<int> {
    if at + 4 > input.len() {
        None
    } else {
        match (
            hex_digit_value(input[at]),
            hex_digit_value(input[at + 1]),
            hex_digit_value(input[at + 2]),
            hex_digit_value(input[at + 3]),
        ) {
            (Some(a), Some(b), Some(c), Some(d)) => Some(((a * 16 + b) * 16 + c) * 16 + d),
            _ => None,
        }
    }
}

/// A unicode escape after its `u`: the position behind it and the character.
/// A leading surrogate must be followed by an escaped trailing one.
pub open spec fn unicode_escape(input: Seq<char>, at: int) -> ValidationResult<(int, char)> {
    match hex_quad(input, at) {
        None => Err(ValidationError::InvalidArgument),
        Some(first) => if 0xd800 <= first <= 0xdbff {
            match hex_quad(input, at + 6) {
                Some(second) if holds(input, at + 4, '\\') && holds(input, at + 5, 'u') && 0xdc00
                    <= second <= 0xdfff => Ok(
                    (
                        at + 10,
                        (0x1_0000 + (first - 0xd800) * 0x400 + (second - 0xdc00)) as char,
                    ),
                ),
                _ => Err(ValidationError::InvalidArgument),
            }
        } else if 0xdc00 <= first <= 0xdfff {
            Err(ValidationError::InvalidArgument)
        } else {
            Ok((at + 4, first as char))
        },
    }
}

/// An escape after its backslash: the position behind it and the character.
pub open spec fn escape(input: Seq<char>, at: int) -> ValidationResult<(int, char)> {
    if at >= input.len() {
        Err(ValidationError::InvalidArgument)
    } else if input[at] == '"' {
        Ok((at + 1, '"'))
    } else if input[at] == '\\' {
        Ok((at + 1, '\\'))
    } else if input[at] == '/' {
        Ok((at + 1, '/'))
    } else if input[at] == 'b' {
        Ok((at + 1, '\u{8}'))
    } else if input[at] == 'f' {
        Ok((at + 1, '\u{c}'))
    } else if input[at] == 'n' {
        Ok((at + 1, '\n'))
    } else if input[at] == 'r' {
        Ok((at + 1, '\r'))
    } else if input[at] == 't' {
        Ok((at + 1, '\t'))
    } else if input[at] == 'u' {
        unicode_escape(input, at + 1)
    } else {
        Err(ValidationError::InvalidArgument)
    }
}

/// The rest of a string from `at` on, after the characters `read`: the
/// position behind its closing quote and its text.
pub open spec fn string_rest(input: Seq<char>, at: int, read: Seq<char>) -> ValidationResult<
    (int, Seq<char>),
>
    decreases input.len() - at,
{
    if at >= input.len() {
        Err(ValidationError::InvalidArgument)
    } else if input[at] == '"' {
        Ok((at + 1, read))
    } else if input[at] == '\\' {
        match escape(input, at + 1) {
            Ok((end, character)) => string_rest(input, end, read.push(character)),
            Err(error) => Err(error),
        }
    } else if input[at] as u32 <= 0x1f {
        Err(ValidationError::InvalidArgument)
    } else {
        string_rest(input, at + 1, read.push(input[at]))
    }
}

/// A string with its opening quote.
pub open spec fn string_at(input: Seq<char>, at: int) -> ValidationResult<(int, Seq<char>)> {
    if holds(input, at, '"') {
        string_rest(input, at + 1, Seq::empty())
    } else {
        Err(ValidationError::InvalidArgument)
    }
}

/// A character that ends a number token.
pub open spec fn ends_number(character: char) -> bool {
    character == ',' || character == ']' || character == '}' || is_blank(character)
}

/// Where the number token that contains position `at` ends.
pub open spec fn number_end(input: Seq<char>, at: int) -> int
    decreases input.len() - at,
{
    if 0 <= at < input.len() && !ends_number(input[at]) {
        number_end(input, at + 1)
    } else {
        at
    }
}

/// The input holds a word at a position.
pub open spec fn holds_word(input: Seq<char>, at: int, word: Seq<char>) -> bool {
    at + word.len() <= input.len() && input.subrange(at, at + word.len()) == word
}

/// The outcome of reading a value: the position behind it, the nodes read so
/// far, and the index of its node.
pub type Reading = ValidationResult<(int, Seq<JsonNode>, u32)>;

/// Adding a node that ends at `end`.
pub open spec fn with_node(nodes: Seq<JsonNode>, node: JsonNode, end: int) -> Reading {
    if nodes.len() >= MAX_TOOL_ARGUMENT_NODES {
        Err(ValidationError::Limit)
    } else {
        Ok((end, nodes.push(node), nodes.len() as u32))
    }
}

/// A fixed word that stands for a node.
pub open spec fn word_at(
    input: Seq<char>,
    at: int,
    word: Seq<char>,
    nodes: Seq<JsonNode>,
    node: JsonNode,
) -> Reading {
    if holds_word(input, at, word) {
        with_node(nodes, node, at + word.len())
    } else {
        Err(ValidationError::InvalidArgument)
    }
}

/// A value at nesting depth `depth`.
pub open spec fn value_at(input: Seq<char>, at: int, depth: int, nodes: Seq<JsonNode>) -> Reading
    decreases input.len() - at, 0int,
{
    let start = skip_blanks(input, at);
    if depth > MAX_TOOL_ARGUMENT_DEPTH {
        Err(ValidationError::Limit)
    } else if !(at <= start < input.len()) {
        Err(ValidationError::InvalidArgument)
    } else if input[start] == 'n' {
        word_at(input, start, "null"@, nodes, JsonNode::Null)
    } else if input[start] == 't' {
        word_at(input, start, "true"@, nodes, JsonNode::Boolean(true))
    } else if input[start] == 'f' {
        word_at(input, start, "false"@, nodes, JsonNode::Boolean(false))
    } else if input[start] == '"' {
        match string_at(input, start) {
            Ok((end, text)) => with_node(nodes, JsonNode::Text(text), end),
            Err(error) => Err(error),
        }
    } else if input[start] == '[' {
        let first = skip_blanks(input, start + 1);
        if holds(input, first, ']') {
            with_node(nodes, JsonNode::Array(Seq::empty()), first + 1)
        } else if start < first <= input.len() {
            items_at(input, first, depth + 1, nodes, Seq::empty())
        } else {
            Err(ValidationError::InvalidArgument)
        }
    } else if input[start] == '{' {
        let first = skip_blanks(input, start + 1);
        if holds(input, first, '}') {
            with_node(nodes, JsonNode::Object(Seq::empty()), first + 1)
        } else if start < first <= input.len() {
            fields_at(input, first, depth + 1, nodes, Seq::empty())
        } else {
            Err(ValidationError::InvalidArgument)
        }
    } else if input[start] == '-' || '0' <= input[start] <= '9' {
        let end = number_end(input, start);
        with_node(nodes, JsonNode::Number(input.subrange(start, end)), end)
    } else {
        Err(ValidationError::InvalidArgument)
    }
}

/// The items of an array from the next value on, after the items `read`.
pub open spec fn items_at(
    input: Seq<char>,
    at: int,
    depth: int,
    nodes: Seq<JsonNode>,
    read: Seq<u32>,
) -> Reading
    decreases input.len() - at, 1int,
{
    match value_at(input, at, depth, nodes) {
        Err(error) => Err(error),
        Ok((end, nodes, index)) => {
            let mark = skip_blanks(input, end);
            if holds(input, mark, ']') {
                with_node(nodes, JsonNode::Array(read.push(index)), mark + 1)
            } else if holds(input, mark, ',') && at <= mark {
                items_at(input, mark + 1, depth, nodes, read.push(index))
            } else {
                Err(ValidationError::InvalidArgument)
            }
        },
    }
}

/// Some field has the given key.
pub open spec fn has_key(fields: Seq<(Seq<char>, u32)>, key: Seq<char>) -> bool {
    exists|i: int| 0 <= i < fields.len() && (#[trigger] fields[i]).0 == key
}

/// The fields of an object from the next key on, after the fields `read`.
pub open spec fn fields_at(
    input: Seq<char>,
    at: int,
    depth: int,
    nodes: Seq<JsonNode>,
    read: Seq<(Seq<char>, u32)>,
) -> Reading
    decreases input.len() - at, 1int,
{
    match string_at(input, skip_blanks(input, at)) {
        Err(error) => Err(error),
        Ok((key_end, key)) => {
            let colon = skip_blanks(input, key_end);
            if has_key(read, key) || !(holds(input, colon, ':') && at <= colon) {
                Err(ValidationError::InvalidArgument)
            } else {
                match value_at(input, colon + 1, depth, nodes) {
                    Err(error) => Err(error),
                    Ok((end, nodes, index)) => {
                        let mark = skip_blanks(input, end);
                        if holds(input, mark, '}') {
                            with_node(nodes, JsonNode::Object(read.push((key, index))), mark + 1)
                        } else if holds(input, mark, ',') && at <= mark {
                            fields_at(input, mark + 1, depth, nodes, read.push((key, index)))
                        } else {
                            Err(ValidationError::InvalidArgument)
                        }
                    },
                }
            }
        },
    }
}

/// A whole text: one value with blanks around it.
pub open spec fn document_at(input: Seq<char>) -> ValidationResult<JsonDocument> {
    match value_at(input, skip_blanks(input, 0), 1, Seq::empty()) {
        Err(error) => Err(error),
        Ok((end, nodes, root)) => if skip_blanks(input, end) == input.len() {
            Ok(JsonDocument { root, nodes })
        } else {
            Err(ValidationError::InvalidArgument)
        },
    }
}

// ---------------------------------------------------------------------------
// Parser
// ---------------------------------------------------------------------------

/// A parser over the characters of a text.
pub struct Parser {
    pub input: Vec<char>,
    pub position: usize,
    pub nodes: Vec<WireJsonNode>,
}

fn blank(character: char) -> (found: bool)
    ensures
        found == is_blank(character),
{
    character == ' ' || character == '\t' || character == '\n' || character == '\r'
}

/// The value of a hexadecimal digit.
pub fn hex_value(character: char) -> (value: Option<u8>)
    ensures
        match value {
            Some(value) => hex_digit_value(character) == Some(value as int) && value < 16,
            None => hex_digit_value(character) is None,
        },
{
    let code: u32 = character as u32;
    if code >= 48 && code <= 57 {
        Some((code - 48) as u8)
    } else if code >= 97 && code <= 102 {
        Some((code - 87) as u8)
    } else if code >= 65 && code <= 70 {
        Some((code - 55) as u8)
    } else {
        None
    }
}

impl Parser {
    /// The position is within the input.
    pub open spec fn inv(self) -> bool {
        self.position <= self.input@.len()
    }

    /// A parser at the start of a text.
    pub fn new(value: &str) -> (parser: Self)
        ensures
            parser.inv(),
            parser.input@ == value@,
            parser.position == 0,
            parser.nodes@ == Seq::<WireJsonNode>::empty(),
    {
        let mut input: Vec<char> = Vec::new();
        for character in iter: value.chars()
            invariant
                iter.seq() == value@,
                input@ == value@.take(iter.index() as int),
        {
            input.push(character);
            assert(input@ =~= value@.take(iter.index() as int + 1));
        }
        assert(value@.take(value@.len() as int) =~= value@);
        Self { input, position: 0, nodes: Vec::new() }
    }

    /// The character at the current position.
    pub fn peek(&self) -> (character: Option<char>)
        ensures
            match character {
                Some(character) => holds(self.input@, self.position as int, character),
                None => self.position >= self.input@.len(),
            },
    {
        if self.position < self.input.len() {
            Some(self.input[self.position])
        } else {
            None
        }
    }

    /// Moves past blanks.
    pub fn skip_whitespace(&mut self)
        requires
            old(self).inv(),
        ensures
            final(self).inv(),
            final(self).input == old(self).input,
            final(self).nodes == old(self).nodes,
            final(self).position == skip_blanks(old(self).input@, old(self).position as int),
            final(self).position >= old(self).position,
    {
        while self.position < self.input.len() && blank(self.input[self.position])
            invariant
                self.inv(),
                self.input == old(self).input,
                self.nodes == old(self).nodes,
                self.position >= old(self).position,
                skip_blanks(self.input@, self.position as int) == skip_blanks(
                    old(self).input@,
                    old(self).position as int,
                ),
            decreases self.input.len() - self.position,
        {
            self.position += 1;
        }
    }

    /// Moves past the given character if it stands at the current position.
    pub fn consume(&mut self, expected: char) -> (found: bool)
        requires
            old(self).inv(),
        ensures
            final(self).inv(),
            final(self).input == old(self).input,
            final(self).nodes == old(self).nodes,
            found == holds(old(self).input@, old(self).position as int, expected),
            final(self).position == if found {
                old(self).position + 1
            } else {
                old(self).position as int
            },
    {
        if self.position < self.input.len() && self.input[self.position] == expected {
            self.position += 1;
            true
        } else {
            false
        }
    }

    /// Moves past the given character, which must stand at the current
    /// position.
    pub fn expect_character(&mut self, expected: char) -> (result: ValidationResult)
        requires
            old(self).inv(),
        ensures
            final(self).inv(),
            final(self).input == old(self).input,
            final(self).nodes == old(self).nodes,
            result == verdict(
                holds(old(self).input@, old(self).position as int, expected),
                ValidationError::InvalidArgument,
            ),
            final(self).position == if result is Ok {
                old(self).position + 1
            } else {
                old(self).position as int
            },
    {
        if !self.consume(expected) {
            return Err(ValidationError::InvalidArgument);
        }
        Ok(())
    }

    /// Moves past a word, which must stand at the current position.
    pub fn consume_literal(&mut self, literal: &str) -> (result: ValidationResult)
        requires
            old(self).inv(),
        ensures
            final(self).inv(),
            final(self).input == old(self).input,
            final(self).nodes == old(self).nodes,
            result == verdict(
                holds_word(old(self).input@, old(self).position as int, literal@),
                ValidationError::InvalidArgument,
            ),
            final(self).position == if result is Ok {
                old(self).position + literal@.len()
            } else {
                old(self).position as int
            },
    {
        let start: usize = self.position;
        let mut end: usize = start;
        for character in iter: literal.chars()
            invariant
                iter.seq() == literal@,
                *self == *old(self),
                start == self.position,
                start <= end <= self.input@.len(),
                end - start == iter.index(),
                forall|j: int|
                    0 <= j < iter.index() ==> #[trigger] literal@[j] == self.input@[start + j],
        {
            if end >= self.input.len() || self.input[end] != character {
                proof {
                    let k = iter.index() as int;
                    if holds_word(self.input@, start as int, literal@) {
                        let word = self.input@.subrange(start as int, start + literal@.len());
                        assert(word[k] == literal@[k]);
                        assert(word[k] == self.input@[start + k]);
                    }
                }
                return Err(ValidationError::InvalidArgument);
            }
            end += 1;
        }
        assert(self.input@.subrange(start as int, start + literal@.len()) =~= literal@);
        self.position = end;
        Ok(())
    }

    /// Adds a node and returns its index.
    pub fn push_node(&mut self, node: WireJsonNode) -> (result: ValidationResult<u32>)
        requires
            old(self).inv(),
        ensures
            final(self).inv(),
            final(self).input == old(self).input,
            final(self).position == old(self).position,
            final(self).yields(result, with_node(
                node_models(old(self).nodes@),
                node@,
                old(self).position as int,
            )),
    {
        if self.nodes.len() >= MAX_TOOL_ARGUMENT_NODES {
            return Err(ValidationError::Limit);
        }
        let index: u32 = self.nodes.len() as u32;
        self.nodes.push(node);
        assert(node_models(self.nodes@) =~= node_models(old(self).nodes@).push(node@));
        Ok(index)
    }

    /// The parser stands where a reading ended, with its nodes.
    pub open spec fn yields(self, result: ValidationResult<u32>, reading: Reading) -> bool {
        match result {
            Ok(index) => reading == Reading::Ok(
                (self.position as int, node_models(self.nodes@), index),
            ),
            Err(error) => reading == Reading::Err(error),
        }
    }

    /// Reads four hexadecimal digits.
    pub fn parse_hex_quad(&mut self) -> (result: ValidationResult<u16>)
        requires
            old(self).inv(),
        ensures
            final(self).inv(),
            final(self).input == old(self).input,
            final(self).nodes == old(self).nodes,
            match result {
                Ok(value) => hex_quad(old(self).input@, old(self).position as int) == Some(
                    value as int,
                ) && final(self).position == old(self).position + 4,
                Err(error) => hex_quad(old(self).input@, old(self).position as int) is None
                    && error == ValidationError::InvalidArgument && final(self).position
                    == old(self).position,
            },
    {
        if self.input.len() - self.position < 4 {
            return Err(ValidationError::InvalidArgument);
        }
        let at: usize = self.position;
        match (
            hex_value(self.input[at]),
            hex_value(self.input[at + 1]),
            hex_value(self.input[at + 2]),
            hex_value(self.input[at + 3]),
        ) {
            (Some(a), Some(b), Some(c), Some(d)) => {
                let value: u16 = ((a as u16 * 16 + b as u16) * 16 + c as u16) * 16 + d as u16;
                self.position = at + 4;
                Ok(value)
            },
            _ => Err(ValidationError::InvalidArgument),
        }
    }

    /// Reads a unicode escape after its `u`.
    pub fn parse_unicode_escape(&mut self, output: &mut String) -> (result: ValidationResult)
        requires
            old(self).inv(),
        ensures
            final(self).inv(),
            final(self).input == old(self).input,
            final(self).nodes == old(self).nodes,
            match unicode_escape(old(self).input@, old(self).position as int) {
                Ok((end, character)) => result is Ok && final(self).position == end
                    && final(output)@ == old(output)@.push(character),
                Err(error) => result == ValidationResult::<()>::Err(error),
            },
    {
        let first: u16 = self.parse_hex_quad()?;
        let scalar: u32 = if first >= 0xd800 && first <= 0xdbff {
            self.expect_character('\\')?;
            self.expect_character('u')?;
            let second: u16 = self.parse_hex_quad()?;
            if !(second >= 0xdc00 && second <= 0xdfff) {
                return Err(ValidationError::InvalidArgument);
            }
            0x1_0000 + (first as u32 - 0xd800) * 0x400 + (second as u32 - 0xdc00)
        } else if first >= 0xdc00 && first <= 0xdfff {
            return Err(ValidationError::InvalidArgument);
        } else {
            first as u32
        };
        match char::from_u32(scalar) {
            Some(character) => {
                output.push(character);
                Ok(())
            },
            None => Err(ValidationError::InvalidArgument),
        }
    }

    /// Reads an escape after its backslash.
    pub fn parse_escape(&mut self, output: &mut String) -> (result: ValidationResult)
        requires
            old(self).inv(),
        ensures
            final(self).inv(),
            final(self).input == old(self).input,
            final(self).nodes == old(self).nodes,
            match escape(old(self).input@, old(self).position as int) {
                Ok((end, character)) => result is Ok && final(self).position == end
                    && final(output)@ == old(output)@.push(character),
                Err(error) => result == ValidationResult::<()>::Err(error),
            },
    {
        if self.position >= self.input.len() {
            return Err(ValidationError::InvalidArgument);
        }
        let mark: char = self.input[self.position];
        self.position += 1;
        if mark == '"' {
            output.push('"');
        } else if mark == '\\' {
            output.push('\\');
        } else if mark == '/' {
            output.push('/');
        } else if mark == 'b' {
            output.push('\u{8}');
        } else if mark == 'f' {
            output.push('\u{c}');
        } else if mark == 'n' {
            output.push('\n');
        } else if mark == 'r' {
            output.push('\r');
        } else if mark == 't' {
            output.push('\t');
        } else if mark == 'u' {
            self.parse_unicode_escape(output)?;
        } else {
            return Err(ValidationError::InvalidArgument);
        }
        Ok(())
    }

    /// Reads a string with its quotes.
    pub fn parse_string(&mut self) -> (result: ValidationResult<String>)
        requires
            old(self).inv(),
        ensures
            final(self).inv(),
            final(self).input == old(self).input,
            final(self).nodes == old(self).nodes,
            match result {
                Ok(text) => string_at(old(self).input@, old(self).position as int)
                    == ValidationResult::<(int, Seq<char>)>::Ok(
                    (final(self).position as int, text@),
                ) && final(self).position > old(self).position,
                Err(error) => string_at(old(self).input@, old(self).position as int)
                    == ValidationResult::<(int, Seq<char>)>::Err(error),
            },
    {
        self.expect_character('"')?;
        let mut output = String::new();
        loop
            invariant
                self.inv(),
                self.input == old(self).input,
                self.nodes == old(self).nodes,
                self.position > old(self).position,
                string_at(old(self).input@, old(self).position as int) == string_rest(
                    self.input@,
                    self.position as int,
                    output@,
                ),
            decreases self.input.len() - self.position,
        {
            let character: char = match self.peek() {
                Some(character) => character,
                None => {
                    return Err(ValidationError::InvalidArgument);
                },
            };
            if character == '"' {
                self.position += 1;
                return Ok(output);
            } else if character == '\\' {
                self.position += 1;
                self.parse_escape(&mut output)?;
            } else if character as u32 <= 0x1f {
                return Err(ValidationError::InvalidArgument);
            } else {
                self.position += 1;
                output.push(character);
            }
        }
    }

    /// Reads a number token.
    pub fn parse_number(&mut self) -> (result: ValidationResult<u32>)
        requires
            old(self).inv(),
        ensures
            final(self).inv(),
            final(self).input == old(self).input,
            final(self).position == number_end(old(self).input@, old(self).position as int),
            final(self).yields(
                result,
                with_node(
                    node_models(old(self).nodes@),
                    JsonNode::Number(
                        old(self).input@.subrange(
                            old(self).position as int,
                            number_end(old(self).input@, old(self).position as int),
                        ),
                    ),
                    number_end(old(self).input@, old(self).position as int),
                ),
            ),
            final(self).position >= old(self).position,
            old(self).position < old(self).input@.len() && !ends_number(
                old(self).input@[old(self).position as int],
            ) ==> final(self).position > old(self).position,
    {
        let start: usize = self.position;
        let mut value = String::new();
        assert(value@ =~= self.input@.subrange(start as int, start as int));
        while self.position < self.input.len() && !number_ends(self.input[self.position])
            invariant
                self.inv(),
                self.input == old(self).input,
                self.nodes == old(self).nodes,
                start == old(self).position,
                start <= self.position,
                value@ == self.input@.subrange(start as int, self.position as int),
                number_end(self.input@, self.position as int) == number_end(
                    self.input@,
                    start as int,
                ),
            decreases self.input.len() - self.position,
        {
            value.push(self.input[self.position]);
            self.position += 1;
            assert(value@ =~= self.input@.subrange(start as int, self.position as int));
        }
        self.push_node(WireJsonNode::NumberValue(value))
    }

    /// Reads an array from its opening bracket on.
    pub fn parse_array(&mut self, depth: u8) -> (result: ValidationResult<u32>)
        requires
            old(self).inv(),
            depth <= MAX_TOOL_ARGUMENT_DEPTH,
            holds(old(self).input@, old(self).position as int, '['),
        ensures
            final(self).inv(),
            final(self).input == old(self).input,
            final(self).yields(
                result,
                value_at(
                    old(self).input@,
                    old(self).position as int,
                    depth as int,
                    node_models(old(self).nodes@),
                ),
            ),
            result is Ok ==> final(self).position > old(self).position,
        decreases old(self).input@.len() - old(self).position, 0int,
    {
        let ghost expected = value_at(
            old(self).input@,
            old(self).position as int,
            depth as int,
            node_models(old(self).nodes@),
        );
        self.expect_character('[')?;
        self.skip_whitespace();
        let mut items: Vec<u32> = Vec::new();
        if self.consume(']') {
            proof {
                let empty = JsonNode::Array(items@);
                assert(items@ =~= Seq::empty());
            }
            return self.push_node(WireJsonNode::ArrayValue(WireJsonArray { items }));
        }
        assert(items@ =~= Seq::empty());
        loop
            invariant
                self.inv(),
                self.input == old(self).input,
                self.position > old(self).position,
                depth <= MAX_TOOL_ARGUMENT_DEPTH,
                expected == value_at(
                    old(self).input@,
                    old(self).position as int,
                    depth as int,
                    node_models(old(self).nodes@),
                ),
                expected == items_at(
                    self.input@,
                    self.position as int,
                    depth + 1,
                    node_models(self.nodes@),
                    items@,
                ),
            decreases self.input.len() - self.position,
        {
            let ghost before = *self;
            let index: u32 = self.parse_value(depth + 1)?;
            items.push(index);
            self.skip_whitespace();
            if self.consume(']') {
                return self.push_node(WireJsonNode::ArrayValue(WireJsonArray { items }));
            }
            self.expect_character(',')?;
        }
    }

    /// Reads an object from its opening brace on.
    pub fn parse_object(&mut self, depth: u8) -> (result: ValidationResult<u32>)
        requires
            old(self).inv(),
            depth <= MAX_TOOL_ARGUMENT_DEPTH,
            holds(old(self).input@, old(self).position as int, '{'),
        ensures
            final(self).inv(),
            final(self).input == old(self).input,
            final(self).yields(
                result,
                value_at(
                    old(self).input@,
                    old(self).position as int,
                    depth as int,
                    node_models(old(self).nodes@),
                ),
            ),
            result is Ok ==> final(self).position > old(self).position,
        decreases old(self).input@.len() - old(self).position, 0int,
    {
        let ghost expected = value_at(
            old(self).input@,
            old(self).position as int,
            depth as int,
            node_models(old(self).nodes@),
        );
        self.expect_character('{')?;
        self.skip_whitespace();
        let mut fields: Vec<WireJsonField> = Vec::new();
        assert(field_models(fields@) =~= Seq::empty());
        if self.consume('}') {
            return self.push_node(WireJsonNode::ObjectValue(WireJsonObject { fields }));
        }
        loop
            invariant
                self.inv(),
                self.input == old(self).input,
                self.position > old(self).position,
                depth <= MAX_TOOL_ARGUMENT_DEPTH,
                expected == value_at(
                    old(self).input@,
                    old(self).position as int,
                    depth as int,
                    node_models(old(self).nodes@),
                ),
                expected == fields_at(
                    self.input@,
                    self.position as int,
                    depth + 1,
                    node_models(self.nodes@),
                    field_models(fields@),
                ),
            decreases self.input.len() - self.position,
        {
            let ghost read = field_models(fields@);
            self.skip_whitespace();
            let key = self.parse_string()?;
            if key_is_known(&fields, &key) {
                return Err(ValidationError::InvalidArgument);
            }
            self.skip_whitespace();
            self.expect_character(':')?;
            let value: u32 = self.parse_value(depth + 1)?;
            let ghost pair = (key@, value);
            fields.push(WireJsonField { key, value });
            assert(field_models(fields@) =~= read.push(pair));
            self.skip_whitespace();
            if self.consume('}') {
                return self.push_node(WireJsonNode::ObjectValue(WireJsonObject { fields }));
            }
            self.expect_character(',')?;
        }
    }

    /// Reads a value at nesting depth `depth`.
    pub fn parse_value(&mut self, depth: u8) -> (result: ValidationResult<u32>)
        requires
            old(self).inv(),
        ensures
            final(self).inv(),
            final(self).input == old(self).input,
            final(self).yields(
                result,
                value_at(
                    old(self).input@,
                    old(self).position as int,
                    depth as int,
                    node_models(old(self).nodes@),
                ),
            ),
            result is Ok ==> final(self).position > old(self).position,
        decreases old(self).input@.len() - old(self).position, 1int,
    {
        if depth > MAX_TOOL_ARGUMENT_DEPTH {
            return Err(ValidationError::Limit);
        }
        self.skip_whitespace();
        proof {
            reveal_strlit("null");
            reveal_strlit("true");
            reveal_strlit("false");
            lemma_value_skips_blanks(
                old(self).input@,
                old(self).position as int,
                depth as int,
                node_models(old(self).nodes@),
            );
        }
        let character: char = match self.peek() {
            Some(character) => character,
            None => {
                return Err(ValidationError::InvalidArgument);
            },
        };
        if character == 'n' {
            self.consume_literal("null")?;
            self.push_node(WireJsonNode::NullValue)
        } else if character == 't' {
            self.consume_literal("true")?;
            self.push_node(WireJsonNode::BooleanValue(true))
        } else if character == 'f' {
            self.consume_literal("false")?;
            self.push_node(WireJsonNode::BooleanValue(false))
        } else if character == '"' {
            let value = self.parse_string()?;
            self.push_node(WireJsonNode::StringValue(value))
        } else if character == '[' {
            self.parse_array(depth)
        } else if character == '{' {
            self.parse_object(depth)
        } else if character == '-' || (character >= '0' && character <= '9') {
            self.parse_number()
        } else {
            Err(ValidationError::InvalidArgument)
        }
    }

    /// Reads a whole text.
    pub fn parse(self) -> (result: ValidationResult<WireJsonDocument>)
        requires
            self.position == 0,
            self.nodes@.len() == 0,
        ensures
            match result {
                Ok(document) => document_at(self.input@) == ValidationResult::<JsonDocument>::Ok(
                    document@,
                ),
                Err(error) => document_at(self.input@) == ValidationResult::<JsonDocument>::Err(
                    error,
                ),
            },
    {
        let mut parser = self;
        assert(node_models(parser.nodes@) =~= Seq::empty());
        parser.skip_whitespace();
        let root: u32 = parser.parse_value(1)?;
        parser.skip_whitespace();
        if parser.position != parser.input.len() {
            return Err(ValidationError::InvalidArgument);
        }
        Ok(WireJsonDocument { root, nodes: parser.nodes })
    }
}

fn number_ends(character: char) -> (found: bool)
    ensures
        found == ends_number(character),
{
    character == ',' || character == ']' || character == '}' || blank(character)
}

fn key_is_known(fields: &Vec<WireJsonField>, key: &String) -> (found: bool)
    ensures
        found == has_key(field_models(fields@), key@),
{
    let mut i: usize = 0;
    while i < fields.len()
        invariant
            i <= fields@.len(),
            forall|j: int| 0 <= j < i ==> (#[trigger] field_models(fields@)[j]).0 != key@,
        decreases fields.len() - i,
    {
        assert(field_models(fields@)[i as int] == fields@[i as int]@);
        if fields[i].key == *key {
            return true;
        }
        i += 1;
    }
    false
}

proof fn lemma_skip_blanks(input: Seq<char>, at: int)
    requires
        0 <= at <= input.len(),
    ensures
        at <= skip_blanks(input, at) <= input.len(),
        skip_blanks(input, skip_blanks(input, at)) == skip_blanks(input, at),
    decreases input.len() - at,
{
    if at < input.len() && is_blank(input[at]) {
        lemma_skip_blanks(input, at + 1);
    }
}

proof fn lemma_value_skips_blanks(input: Seq<char>, at: int, depth: int, nodes: Seq<JsonNode>)
    requires
        0 <= at <= input.len(),
    ensures
        value_at(input, at, depth, nodes) == value_at(
            input,
            skip_blanks(input, at),
            depth,
            nodes,
        ),
{
    lemma_skip_blanks(input, at);
}

// ---------------------------------------------------------------------------
// Arguments
// ---------------------------------------------------------------------------

/// The verdict on an argument text: it parses, its document is a valid object
/// within the bounds, and it is the canonical text of that document.
pub open spec fn arguments_verdict(value: Seq<char>) -> ValidationResult {
    if byte_len(value) > MAX_TOOL_ARGUMENT_BYTES {
        Err(ValidationError::Limit)
    } else {
        match document_at(value) {
            Err(error) => Err(error),
            Ok(document) => if document.nodes.len() > MAX_TOOL_ARGUMENT_NODES {
                Err(ValidationError::Limit)
            } else {
                match wire_verdict(document, true) {
                    Err(error) => Err(error),
                    Ok(stats) => if stats.depth > MAX_TOOL_ARGUMENT_DEPTH || stats.logical_charge
                        > MAX_TOOL_ARGUMENT_CHARGE {
                        Err(ValidationError::Limit)
                    } else {
                        match serialization_verdict(document) {
                            Err(error) => Err(error),
                            Ok(()) => verdict(
                                document_json(document) == encode_utf8(value),
                                ValidationError::InvalidArgument,
                            ),
                        }
                    },
                }
            },
        }
    }
}

/// Checks the complete arguments of a tool call.
pub fn validate_tool_arguments(value: &str) -> (result: ValidationResult)
    ensures
        result == arguments_verdict(value@),
{
    if value.as_bytes().len() > MAX_TOOL_ARGUMENT_BYTES {
        return Err(ValidationError::Limit);
    }
    let document = Parser::new(value).parse()?;
    if document.nodes.len() > MAX_TOOL_ARGUMENT_NODES {
        return Err(ValidationError::Limit);
    }
    let stats = validate_wire_json(&document, true)?;
    if stats.depth > MAX_TOOL_ARGUMENT_DEPTH || stats.logical_charge > MAX_TOOL_ARGUMENT_CHARGE {
        return Err(ValidationError::Limit);
    }
    let canonical = canonical_serialize(&document)?;
    if !same_bytes(canonical.as_slice(), value.as_bytes()) {
        return Err(ValidationError::InvalidArgument);
    }
    Ok(())
}

} // verus!
