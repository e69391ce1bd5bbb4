//! Adapter-derived JSON values and exact prepared-body comparison.

use vstd::prelude::*;
use vstd::utf8::{encode_utf8, encode_utf8_valid_utf8};

use crate::provider_api::{JsonDocument, JsonNode, WireJsonDocument, WireJsonNode};
use crate::provider_validation::adapter::types::{
    demand, AdapterValidationError, AdapterValidationResult, TypedJsonConstant,
};
use crate::provider_validation::charge::LogicalCharge;
use crate::provider_validation::scalar;
use crate::provider_validation::scalar::{safe_verdict, MAX_LOGICAL_CHARGE, MAX_SAFE_TEXT_BYTES};
use crate::provider_validation::wire_json::{
    append_bytes, canonical_serialize_for_json_string, child_prefix, children_of, document_json,
    embedding_verdict, escaped, is_post_order, items_json, lemma_escaped_step,
    lemma_valid_document_is_post_order,
    node_json, separator, serialize_string, string_json, validate_wire_json, wire_verdict,
    MAX_KEY_BYTES, MAX_WIRE_DEPTH, MAX_WIRE_NODES,
};
use crate::provider_validation::wire_text::{document_text, lemma_document_text};
use crate::provider_validation::ValidationError;
use crate::text::{
    byte_len, bytes_before, is_before, lemma_encoding_is_injective, same_text, text_from_utf8,
};

verus! {

/// A JSON value that an adapter contract derives from a request. A derived
/// text may be as long as the largest charge, any other text is ordinary.
#[derive(Debug, PartialEq, Eq)]
pub enum AdapterJson {
    Null,
    Boolean(bool),
    Number(String),
    String { value: String, derived: bool },
    Array(Vec<AdapterJson>),
    Object(Vec<(String, AdapterJson)>),
}

/// A JSON value, over texts.
pub enum JsonTree {
    Null,
    Boolean(bool),
    Number(Seq<char>),
    Text { value: Seq<char>, derived: bool },
    Array(Seq<JsonTree>),
    Object(Seq<(Seq<char>, JsonTree)>),
}

/// A fixed JSON scalar, over texts.
pub open spec fn constant_tree(value: TypedJsonConstant) -> JsonTree {
    match value {
        TypedJsonConstant::Null => JsonTree::Null,
        TypedJsonConstant::Boolean(value) => JsonTree::Boolean(value),
        TypedJsonConstant::Number(value) => JsonTree::Number(value@),
        TypedJsonConstant::String(value) => JsonTree::Text { value: value@, derived: false },
    }
}

impl AdapterJson {
    /// The value over texts.
    pub open spec fn tree(self) -> JsonTree
        decreases self,
    {
        match self {
            AdapterJson::Null => JsonTree::Null,
            AdapterJson::Boolean(value) => JsonTree::Boolean(value),
            AdapterJson::Number(value) => JsonTree::Number(value@),
            AdapterJson::String { value, derived } => JsonTree::Text { value: value@, derived },
            AdapterJson::Array(items) => JsonTree::Array(
                Seq::new(
                    items@.len(),
                    |i: int|
                        if 0 <= i < items@.len() {
                            items@[i].tree()
                        } else {
                            JsonTree::Null
                        },
                ),
            ),
            AdapterJson::Object(fields) => JsonTree::Object(
                Seq::new(
                    fields@.len(),
                    |i: int|
                        if 0 <= i < fields@.len() {
                            (fields@[i].0@, fields@[i].1.tree())
                        } else {
                            (Seq::empty(), JsonTree::Null)
                        },
                ),
            ),
        }
    }

    /// An ordinary text.
    pub fn ordinary_string(value: &str) -> (json: Self)
        ensures
            json.tree() == (JsonTree::Text { value: value@, derived: false }),
    {
        AdapterJson::String { value: value.to_owned(), derived: false }
    }

    /// A derived text.
    pub fn derived_string(value: &str) -> (json: Self)
        ensures
            json.tree() == (JsonTree::Text { value: value@, derived: true }),
    {
        AdapterJson::String { value: value.to_owned(), derived: true }
    }

    /// A fixed scalar.
    pub fn from_constant(value: &TypedJsonConstant) -> (json: Self)
        ensures
            json.tree() == constant_tree(*value),
    {
        match value {
            TypedJsonConstant::Null => AdapterJson::Null,
            TypedJsonConstant::Boolean(value) => AdapterJson::Boolean(*value),
            TypedJsonConstant::Number(value) => AdapterJson::Number(value.clone()),
            TypedJsonConstant::String(value) => AdapterJson::ordinary_string(value.as_str()),
        }
    }
}

/// The trees of a list of values.
pub open spec fn trees_of(items: Seq<AdapterJson>) -> Seq<JsonTree> {
    items.map_values(|item: AdapterJson| item.tree())
}

/// The members of a list of keyed values.
pub open spec fn members_of(fields: Seq<(String, AdapterJson)>) -> Seq<(Seq<char>, JsonTree)> {
    fields.map_values(|field: (String, AdapterJson)| (field.0@, field.1.tree()))
}

/// The tree of an array is that of its items.
pub proof fn lemma_array_tree(items: Vec<AdapterJson>)
    ensures
        AdapterJson::Array(items).tree() == JsonTree::Array(trees_of(items@)),
{
    assert(AdapterJson::Array(items).tree()->Array_0 =~= trees_of(items@));
}

/// The tree of an object is that of its members.
pub proof fn lemma_object_tree(fields: Vec<(String, AdapterJson)>)
    ensures
        AdapterJson::Object(fields).tree() == JsonTree::Object(members_of(fields@)),
{
    assert(AdapterJson::Object(fields).tree()->Object_0 =~= members_of(fields@));
}

// ---------------------------------------------------------------------------
// Error mapping
// ---------------------------------------------------------------------------

/// A refused request value.
pub open spec fn source_error(error: ValidationError) -> AdapterValidationError {
    match error {
        ValidationError::InvalidArgument => AdapterValidationError::SourceMismatch,
        ValidationError::Limit => AdapterValidationError::Limit,
    }
}

/// Maps a refused request value.
pub fn map_source_error(error: ValidationError) -> (mapped: AdapterValidationError)
    ensures
        mapped == source_error(error),
{
    match error {
        ValidationError::InvalidArgument => AdapterValidationError::SourceMismatch,
        ValidationError::Limit => AdapterValidationError::Limit,
    }
}

/// A refused body value.
pub open spec fn body_error(error: ValidationError) -> AdapterValidationError {
    match error {
        ValidationError::InvalidArgument => AdapterValidationError::BodyMismatch,
        ValidationError::Limit => AdapterValidationError::Limit,
    }
}

/// Maps a refused body value.
pub fn map_body_error(error: ValidationError) -> (mapped: AdapterValidationError)
    ensures
        mapped == body_error(error),
{
    match error {
        ValidationError::InvalidArgument => AdapterValidationError::BodyMismatch,
        ValidationError::Limit => AdapterValidationError::Limit,
    }
}

/// Maps a failed charge.
pub fn map_limit_error(_error: ValidationError) -> (mapped: AdapterValidationError)
    ensures
        mapped == AdapterValidationError::Limit,
{
    AdapterValidationError::Limit
}

// ---------------------------------------------------------------------------
// Wire documents as trees
// ---------------------------------------------------------------------------

/// The tree under node `index` of a document.
pub open spec fn node_tree(nodes: Seq<JsonNode>, index: int) -> JsonTree
    decreases index,
{
    match nodes[index] {
        JsonNode::Null => JsonTree::Null,
        JsonNode::Boolean(value) => JsonTree::Boolean(value),
        JsonNode::Number(value) => JsonTree::Number(value),
        JsonNode::Text(value) => JsonTree::Text { value, derived: false },
        JsonNode::Array(items) => JsonTree::Array(
            Seq::new(
                items.len(),
                |i: int|
                    if 0 <= items[i] < index {
                        node_tree(nodes, items[i] as int)
                    } else {
                        JsonTree::Null
                    },
            ),
        ),
        JsonNode::Object(fields) => JsonTree::Object(
            Seq::new(
                fields.len(),
                |i: int|
                    (
                        fields[i].0,
                        if 0 <= fields[i].1 < index {
                            node_tree(nodes, fields[i].1 as int)
                        } else {
                            JsonTree::Null
                        },
                    ),
            ),
        ),
    }
}

/// The value under node `index` of a document.
pub fn from_wire_node(document: &WireJsonDocument, index: usize) -> (result:
    AdapterValidationResult<AdapterJson>)
    requires
        is_post_order(document@.nodes),
        index < document@.nodes.len(),
    ensures
        result matches Ok(json) && json.tree() == node_tree(document@.nodes, index as int),
    decreases index,
{
    let ghost nodes = document@.nodes;
    match &document.nodes[index] {
        WireJsonNode::NullValue => Ok(AdapterJson::Null),
        WireJsonNode::BooleanValue(value) => Ok(AdapterJson::Boolean(*value)),
        WireJsonNode::NumberValue(value) => Ok(AdapterJson::Number(value.clone())),
        WireJsonNode::StringValue(value) => Ok(AdapterJson::ordinary_string(value.as_str())),
        WireJsonNode::ArrayValue(array) => {
            let ghost expected = node_tree(nodes, index as int)->Array_0;
            let mut items: Vec<AdapterJson> = Vec::new();
            let mut i: usize = 0;
            while i < array.items.len()
                invariant
                    i <= array.items@.len(),
                    nodes == document@.nodes,
                    is_post_order(nodes),
                    index < nodes.len(),
                    nodes[index as int] == JsonNode::Array(array.items@),
                    expected == node_tree(nodes, index as int)->Array_0,
                    trees_of(items@) == expected.take(i as int),
                decreases array.items.len() - i,
            {
                assert(children_of(nodes[index as int])[i as int] < index);
                let item = from_wire_node(document, array.items[i] as usize)?;
                let ghost before = trees_of(items@);
                items.push(item);
                assert(trees_of(items@) =~= before.push(item.tree()));
                assert(trees_of(items@) =~= expected.take(i as int + 1));
                i += 1;
            }
            assert(expected.take(i as int) =~= expected);
            proof {
                lemma_array_tree(items);
            }
            Ok(AdapterJson::Array(items))
        },
        WireJsonNode::ObjectValue(object) => {
            let ghost expected = node_tree(nodes, index as int)->Object_0;
            let ghost members = nodes[index as int]->Object_0;
            let mut fields: Vec<(String, AdapterJson)> = Vec::new();
            let mut i: usize = 0;
            while i < object.fields.len()
                invariant
                    i <= object.fields@.len(),
                    nodes == document@.nodes,
                    is_post_order(nodes),
                    index < nodes.len(),
                    nodes[index as int] == JsonNode::Object(members),
                    members == crate::provider_api::field_models(object.fields@),
                    expected == node_tree(nodes, index as int)->Object_0,
                    members_of(fields@) == expected.take(i as int),
                decreases object.fields.len() - i,
            {
                let field = &object.fields[i];
                assert(members[i as int] == field@);
                assert(children_of(nodes[index as int])[i as int] < index);
                let value = from_wire_node(document, field.value as usize)?;
                let key = field.key.clone();
                let ghost before = members_of(fields@);
                fields.push((key, value));
                assert(members_of(fields@) =~= before.push((key@, value.tree())));
                assert(members_of(fields@) =~= expected.take(i as int + 1));
                i += 1;
            }
            assert(expected.take(i as int) =~= expected);
            proof {
                lemma_object_tree(fields);
            }
            Ok(AdapterJson::Object(fields))
        },
    }
}

/// The value of a valid object document.
pub fn from_wire(document: &WireJsonDocument) -> (result: AdapterValidationResult<AdapterJson>)
    ensures
        match result {
            Ok(json) => wire_verdict(document@, true) is Ok && json.tree() == node_tree(
                document@.nodes,
                document@.root as int,
            ),
            Err(error) => wire_verdict(document@, true) matches Err(cause) && error == source_error(
                cause,
            ),
        },
{
    match validate_wire_json(document, true) {
        Ok(_) => {},
        Err(error) => {
            return Err(map_source_error(error));
        },
    }
    proof {
        lemma_valid_document_is_post_order(document@, true);
    }
    from_wire_node(document, document.root as usize)
}

/// The canonical text of a valid object document that still fits when it is
/// embedded into a JSON string.
pub fn canonical_wire_text(document: &WireJsonDocument) -> (result: AdapterValidationResult<String>)
    ensures
        match result {
            Ok(text) => embedding_verdict(document@) is Ok && text@ == document_text(document@),
            Err(error) => embedding_verdict(document@) matches Err(cause) && error
                == source_error(cause),
        },
{
    let bytes = match canonical_serialize_for_json_string(document) {
        Ok(bytes) => bytes,
        Err(error) => {
            return Err(map_source_error(error));
        },
    };
    proof {
        lemma_document_text(document@);
        encode_utf8_valid_utf8(document_text(document@));
    }
    match text_from_utf8(bytes) {
        Some(text) => {
            proof {
                lemma_encoding_is_injective(text@, document_text(document@));
            }
            Ok(text)
        },
        None => Err(AdapterValidationError::SourceMismatch),
    }
}

// ---------------------------------------------------------------------------
// Comparison with a prepared document
// ---------------------------------------------------------------------------

/// The number of parents of each node after `parent` has claimed `child`. A
/// child stands before its parent and has no other.
pub open spec fn claim(parent: int, child: u32, parents: Seq<u8>) -> AdapterValidationResult<
    Seq<u8>,
> {
    if child >= parent || child >= parents.len() {
        Err(AdapterValidationError::BodyMismatch)
    } else if parents[child as int] == u8::MAX {
        Err(AdapterValidationError::Limit)
    } else if parents[child as int] != 0 {
        Err(AdapterValidationError::BodyMismatch)
    } else {
        Ok(parents.update(child as int, 1))
    }
}

/// The verdict on the characters and the length of a text of a body.
pub open spec fn body_text_verdict(value: Seq<char>, maximum: int) -> AdapterValidationResult<()> {
    match safe_verdict(value, maximum, false) {
        Ok(_) => Ok(()),
        Err(error) => Err(body_error(error)),
    }
}

/// The depth of a container over children of depth `deepest`.
pub open spec fn enclosing_depth(deepest: int, parents: Seq<u8>) -> AdapterValidationResult<
    (int, Seq<u8>),
> {
    if deepest >= u8::MAX {
        Err(AdapterValidationError::Limit)
    } else {
        Ok((deepest + 1, parents))
    }
}

/// Compares a value with node `index`: the depth of the value and the claims
/// made on the way.
pub open spec fn compare_tree(
    expected: JsonTree,
    nodes: Seq<JsonNode>,
    index: int,
    parents: Seq<u8>,
) -> AdapterValidationResult<(int, Seq<u8>)>
    decreases expected, 0int,
{
    if !(0 <= index < nodes.len()) {
        Err(AdapterValidationError::BodyMismatch)
    } else {
        match (expected, nodes[index]) {
            (JsonTree::Null, JsonNode::Null) => Ok((1, parents)),
            (JsonTree::Boolean(left), JsonNode::Boolean(right)) if left == right => Ok((1, parents)),
            (JsonTree::Number(left), JsonNode::Number(right)) if left == right => Ok((1, parents)),
            (JsonTree::Text { value, derived }, JsonNode::Text(actual)) if value == actual => {
                let maximum = if derived {
                    MAX_LOGICAL_CHARGE as int
                } else {
                    MAX_SAFE_TEXT_BYTES as int
                };
                match body_text_verdict(value, maximum) {
                    Ok(_) => Ok((1, parents)),
                    Err(error) => Err(error),
                }
            },
            (JsonTree::Array(items), JsonNode::Array(children)) if items.len() == children.len() => {
                compare_items(items, nodes, index, 0, 0, parents)
            },
            (JsonTree::Object(members), JsonNode::Object(fields)) if members.len()
                == fields.len() => compare_members(members, nodes, index, 0, 0, parents),
            _ => Err(AdapterValidationError::BodyMismatch),
        }
    }
}

/// Compares the items of an array from item `i` on.
pub open spec fn compare_items(
    items: Seq<JsonTree>,
    nodes: Seq<JsonNode>,
    index: int,
    i: int,
    deepest: int,
    parents: Seq<u8>,
) -> AdapterValidationResult<(int, Seq<u8>)>
    decreases items, items.len() - i,
{
    let children = nodes[index]->Array_0;
    if !(0 <= i < items.len()) {
        enclosing_depth(deepest, parents)
    } else {
        match claim(index, children[i], parents) {
            Err(error) => Err(error),
            Ok(claimed) => match compare_tree(items[i], nodes, children[i] as int, claimed) {
                Err(error) => Err(error),
                Ok((depth, reached)) => compare_items(
                    items,
                    nodes,
                    index,
                    i + 1,
                    larger(deepest, depth),
                    reached,
                ),
            },
        }
    }
}

/// The larger of two depths.
pub open spec fn larger(left: int, right: int) -> int {
    if left < right {
        right
    } else {
        left
    }
}

/// The verdict on member `i` of an object: the expected key, above all keys
/// before it, as a safe text.
pub open spec fn member_key_verdict(
    key: Seq<char>,
    fields: Seq<(Seq<char>, u32)>,
    i: int,
) -> AdapterValidationResult<()> {
    if key != fields[i].0 || (i > 0 && !bytes_before(
        encode_utf8(fields[i - 1].0),
        encode_utf8(fields[i].0),
    )) {
        Err(AdapterValidationError::BodyMismatch)
    } else {
        body_text_verdict(fields[i].0, MAX_KEY_BYTES as int)
    }
}

/// Compares the members of an object from member `i` on.
pub open spec fn compare_members(
    members: Seq<(Seq<char>, JsonTree)>,
    nodes: Seq<JsonNode>,
    index: int,
    i: int,
    deepest: int,
    parents: Seq<u8>,
) -> AdapterValidationResult<(int, Seq<u8>)>
    decreases members, members.len() - i,
{
    let fields = nodes[index]->Object_0;
    if !(0 <= i < members.len()) {
        enclosing_depth(deepest, parents)
    } else {
        match member_key_verdict(members[i].0, fields, i) {
            Err(error) => Err(error),
            Ok(_) => match claim(index, fields[i].1, parents) {
                Err(error) => Err(error),
                Ok(claimed) => match compare_tree(
                    members[i].1,
                    nodes,
                    fields[i].1 as int,
                    claimed,
                ) {
                    Err(error) => Err(error),
                    Ok((depth, reached)) => compare_members(
                        members,
                        nodes,
                        index,
                        i + 1,
                        larger(deepest, depth),
                        reached,
                    ),
                },
            },
        }
    }
}

/// Claims `child` for `parent`.
pub fn add_parent(parent: usize, child: u32, parents: &mut Vec<u8>) -> (result:
    AdapterValidationResult<usize>)
    ensures
        match result {
            Ok(index) => index == child && claim(parent as int, child, old(parents)@)
                == AdapterValidationResult::<Seq<u8>>::Ok(final(parents)@),
            Err(error) => claim(parent as int, child, old(parents)@) == AdapterValidationResult::<
                Seq<u8>,
            >::Err(error),
        },
        final(parents)@.len() == old(parents)@.len(),
{
    let child = child as usize;
    if child >= parent || child >= parents.len() {
        return Err(AdapterValidationError::BodyMismatch);
    }
    let count: u8 = parents[child];
    if count == u8::MAX {
        return Err(AdapterValidationError::Limit);
    }
    parents[child] = count + 1;
    if count + 1 != 1 {
        return Err(AdapterValidationError::BodyMismatch);
    }
    Ok(child)
}

/// Checks the characters and the length of a text of a body.
pub fn check_body_text(value: &str, maximum: usize) -> (result: AdapterValidationResult<()>)
    ensures
        result == body_text_verdict(value@, maximum as int),
{
    match scalar::safe(value, maximum, false) {
        Ok(_) => Ok(()),
        Err(error) => Err(map_body_error(error)),
    }
}

/// Compares a value with node `index` of a prepared document.
#[verifier::loop_isolation(false)]
pub fn compare_node(
    expected: &AdapterJson,
    prepared: &WireJsonDocument,
    index: usize,
    parents: &mut Vec<u8>,
) -> (result: AdapterValidationResult<u8>)
    ensures
        match result {
            Ok(depth) => compare_tree(
                expected.tree(),
                prepared@.nodes,
                index as int,
                old(parents)@,
            ) == AdapterValidationResult::<(int, Seq<u8>)>::Ok((depth as int, final(parents)@)),
            Err(error) => compare_tree(
                expected.tree(),
                prepared@.nodes,
                index as int,
                old(parents)@,
            ) == AdapterValidationResult::<(int, Seq<u8>)>::Err(error),
        },
    decreases expected,
{
    let ghost nodes = prepared@.nodes;
    let ghost start = parents@;
    if index >= prepared.nodes.len() {
        return Err(AdapterValidationError::BodyMismatch);
    }
    match (expected, &prepared.nodes[index]) {
        (AdapterJson::Null, WireJsonNode::NullValue) => Ok(1),
        (AdapterJson::Boolean(left), WireJsonNode::BooleanValue(right)) => {
            if *left == *right {
                Ok(1)
            } else {
                Err(AdapterValidationError::BodyMismatch)
            }
        },
        (AdapterJson::Number(left), WireJsonNode::NumberValue(right)) => {
            if same_text(left.as_str(), right.as_str()) {
                Ok(1)
            } else {
                Err(AdapterValidationError::BodyMismatch)
            }
        },
        (AdapterJson::String { value, derived }, WireJsonNode::StringValue(actual)) => {
            if !same_text(value.as_str(), actual.as_str()) {
                return Err(AdapterValidationError::BodyMismatch);
            }
            let maximum: usize = if *derived {
                MAX_LOGICAL_CHARGE as usize
            } else {
                MAX_SAFE_TEXT_BYTES
            };
            check_body_text(actual.as_str(), maximum)?;
            Ok(1)
        },
        (AdapterJson::Array(items), WireJsonNode::ArrayValue(actual)) => {
            if items.len() != actual.items.len() {
                return Err(AdapterValidationError::BodyMismatch);
            }
            let ghost trees = trees_of(items@);
            proof {
                lemma_array_tree(*items);
            }
            let mut deepest: u8 = 0;
            let mut i: usize = 0;
            while i < items.len()
                invariant
                    i <= items@.len(),
                    compare_items(trees, nodes, index as int, 0, 0, start) == compare_items(
                        trees,
                        nodes,
                        index as int,
                        i as int,
                        deepest as int,
                        parents@,
                    ),
                decreases items.len() - i,
            {
                let child: usize = add_parent(index, actual.items[i], parents)?;
                let depth: u8 = compare_node(&items[i], prepared, child, parents)?;
                if deepest < depth {
                    deepest = depth;
                }
                i += 1;
            }
            if deepest == u8::MAX {
                return Err(AdapterValidationError::Limit);
            }
            Ok(deepest + 1)
        },
        (AdapterJson::Object(members), WireJsonNode::ObjectValue(actual)) => {
            if members.len() != actual.fields.len() {
                return Err(AdapterValidationError::BodyMismatch);
            }
            let ghost trees = members_of(members@);
            let ghost fields = nodes[index as int]->Object_0;
            proof {
                lemma_object_tree(*members);
            }
            let mut deepest: u8 = 0;
            let mut i: usize = 0;
            while i < members.len()
                invariant
                    i <= members@.len(),
                    compare_members(trees, nodes, index as int, 0, 0, start) == compare_members(
                        trees,
                        nodes,
                        index as int,
                        i as int,
                        deepest as int,
                        parents@,
                    ),
                decreases members.len() - i,
            {
                let member = &members[i];
                let field = &actual.fields[i];
                assert(fields[i as int] == field@);
                assert(trees[i as int] == (member.0@, member.1.tree()));
                if !same_text(member.0.as_str(), field.key.as_str()) {
                    return Err(AdapterValidationError::BodyMismatch);
                }
                if i > 0 {
                    let previous = &actual.fields[i - 1];
                    assert(fields[i as int - 1] == previous@);
                    if !is_before(previous.key.as_str().as_bytes(), field.key.as_str().as_bytes()) {
                        return Err(AdapterValidationError::BodyMismatch);
                    }
                }
                check_body_text(field.key.as_str(), MAX_KEY_BYTES)?;
                let child: usize = add_parent(index, field.value, parents)?;
                let depth: u8 = compare_node(&member.1, prepared, child, parents)?;
                if deepest < depth {
                    deepest = depth;
                }
                i += 1;
            }
            if deepest == u8::MAX {
                return Err(AdapterValidationError::Limit);
            }
            Ok(deepest + 1)
        },
        _ => Err(AdapterValidationError::BodyMismatch),
    }
}

// ---------------------------------------------------------------------------
// Charge
// ---------------------------------------------------------------------------

/// The logical charge of a value: four for the value, what it holds, and four
/// for each of its children.
pub open spec fn tree_charge(tree: JsonTree) -> nat
    decreases tree, 0int,
{
    match tree {
        JsonTree::Null => 4,
        JsonTree::Boolean(_) => 5,
        JsonTree::Number(value) => 8 + byte_len(value),
        JsonTree::Text { value, .. } => 8 + byte_len(value),
        JsonTree::Array(items) => 8 + items_charge(items, items.len() as int),
        JsonTree::Object(members) => 8 + members_charge(members, members.len() as int),
    }
}

/// The charge of the first `n` items of an array.
pub open spec fn items_charge(items: Seq<JsonTree>, n: int) -> nat
    decreases items, n,
{
    if n <= 0 || n > items.len() {
        0
    } else {
        items_charge(items, n - 1) + 4 + tree_charge(items[n - 1])
    }
}

/// The charge of the first `n` members of an object.
pub open spec fn members_charge(members: Seq<(Seq<char>, JsonTree)>, n: int) -> nat
    decreases members, n,
{
    if n <= 0 || n > members.len() {
        0
    } else {
        members_charge(members, n - 1) + 8 + byte_len(members[n - 1].0) + tree_charge(
            members[n - 1].1,
        )
    }
}

proof fn lemma_items_charge_grows(items: Seq<JsonTree>, n: int)
    requires
        0 <= n <= items.len(),
    ensures
        items_charge(items, n) <= items_charge(items, items.len() as int),
        n < items.len() ==> items_charge(items, n) + 4 + tree_charge(items[n]) <= items_charge(
            items,
            items.len() as int,
        ),
    decreases items.len() - n,
{
    if n < items.len() {
        lemma_items_charge_grows(items, n + 1);
    }
}

proof fn lemma_members_charge_grows(members: Seq<(Seq<char>, JsonTree)>, n: int)
    requires
        0 <= n <= members.len(),
    ensures
        members_charge(members, n) <= members_charge(members, members.len() as int),
        n < members.len() ==> members_charge(members, n) + 8 + byte_len(members[n].0) + tree_charge(
            members[n].1,
        ) <= members_charge(members, members.len() as int),
    decreases members.len() - n,
{
    if n < members.len() {
        lemma_members_charge_grows(members, n + 1);
    }
}

/// Whether a step has added `amount` to a charge, or has found that it does
/// not fit.
pub open spec fn charged(
    before: LogicalCharge,
    amount: int,
    result: AdapterValidationResult<()>,
    after: LogicalCharge,
) -> bool {
    match result {
        Ok(_) => after.limit == before.limit && after.value == before.value + amount && after.value
            <= after.limit,
        Err(error) => error == AdapterValidationError::Limit && before.value + amount
            > before.limit,
    }
}

/// Adds to a charge.
pub fn add_charge(charge: &mut LogicalCharge, amount: u64) -> (result: AdapterValidationResult<()>)
    ensures
        charged(*old(charge), amount as int, result, *final(charge)),
{
    match charge.add(amount) {
        Ok(_) => Ok(()),
        Err(error) => Err(map_limit_error(error)),
    }
}

/// Adds a length-prefixed text to a charge.
pub fn add_text_charge(charge: &mut LogicalCharge, text: &str) -> (result: AdapterValidationResult<
    (),
>)
    ensures
        charged(*old(charge), 4 + byte_len(text@) as int, result, *final(charge)),
{
    match charge.string(text) {
        Ok(_) => Ok(()),
        Err(error) => Err(map_limit_error(error)),
    }
}

/// Adds the charge of a value.
#[verifier::loop_isolation(false)]
pub fn charge_value(value: &AdapterJson, charge: &mut LogicalCharge) -> (result:
    AdapterValidationResult<()>)
    ensures
        charged(*old(charge), tree_charge(value.tree()) as int, result, *final(charge)),
    decreases value,
{
    let ghost start = *charge;
    match value {
        AdapterJson::Null => add_charge(charge, 4),
        AdapterJson::Boolean(_) => {
            add_charge(charge, 4)?;
            add_charge(charge, 1)
        },
        AdapterJson::Number(value) => {
            add_charge(charge, 4)?;
            add_text_charge(charge, value.as_str())
        },
        AdapterJson::String { value, .. } => {
            add_charge(charge, 4)?;
            add_text_charge(charge, value.as_str())
        },
        AdapterJson::Array(items) => {
            let ghost trees = trees_of(items@);
            proof {
                lemma_array_tree(*items);
                lemma_items_charge_grows(trees, 0);
            }
            add_charge(charge, 4)?;
            add_charge(charge, 4)?;
            let mut i: usize = 0;
            while i < items.len()
                invariant
                    i <= items@.len(),
                    charge.limit == start.limit,
                    charge.value == start.value + 8 + items_charge(trees, i as int),
                    charge.value <= charge.limit,
                decreases items.len() - i,
            {
                proof {
                    lemma_items_charge_grows(trees, i as int);
                }
                add_charge(charge, 4)?;
                charge_value(&items[i], charge)?;
                i += 1;
            }
            Ok(())
        },
        AdapterJson::Object(members) => {
            let ghost trees = members_of(members@);
            proof {
                lemma_object_tree(*members);
                lemma_members_charge_grows(trees, 0);
            }
            add_charge(charge, 4)?;
            add_charge(charge, 4)?;
            let mut i: usize = 0;
            while i < members.len()
                invariant
                    i <= members@.len(),
                    charge.limit == start.limit,
                    charge.value == start.value + 8 + members_charge(trees, i as int),
                    charge.value <= charge.limit,
                decreases members.len() - i,
            {
                let member = &members[i];
                assert(trees[i as int] == (member.0@, member.1.tree()));
                proof {
                    lemma_members_charge_grows(trees, i as int);
                }
                add_text_charge(charge, member.0.as_str())?;
                add_charge(charge, 4)?;
                charge_value(&member.1, charge)?;
                i += 1;
            }
            Ok(())
        },
    }
}

/// Checks that a document with the given value stays within the largest
/// charge.
pub fn validate_expected_charge(value: &AdapterJson) -> (result: AdapterValidationResult<()>)
    ensures
        result == demand(
            8 + tree_charge(value.tree()) <= MAX_LOGICAL_CHARGE,
            AdapterValidationError::Limit,
        ),
{
    let mut charge = LogicalCharge::new(MAX_LOGICAL_CHARGE);
    add_charge(&mut charge, 4)?;
    add_charge(&mut charge, 4)?;
    charge_value(value, &mut charge)?;
    Ok(())
}

// ---------------------------------------------------------------------------
// Serialization
// ---------------------------------------------------------------------------

/// The canonical JSON text of a value.
pub open spec fn tree_json(tree: JsonTree) -> Seq<u8>
    decreases tree, 0int,
{
    match tree {
        JsonTree::Null => seq![110u8, 117u8, 108u8, 108u8],
        JsonTree::Boolean(true) => seq![116u8, 114u8, 117u8, 101u8],
        JsonTree::Boolean(false) => seq![102u8, 97u8, 108u8, 115u8, 101u8],
        JsonTree::Number(value) => encode_utf8(value),
        JsonTree::Text { value, .. } => string_json(value),
        JsonTree::Array(items) => seq![91u8] + trees_json(items, items.len() as int) + seq![93u8],
        JsonTree::Object(members) => seq![123u8] + members_json(members, members.len() as int)
            + seq![125u8],
    }
}

/// The first `n` items of an array, separated by commas.
pub open spec fn trees_json(items: Seq<JsonTree>, n: int) -> Seq<u8>
    decreases items, n,
{
    if n <= 0 || n > items.len() {
        Seq::empty()
    } else {
        trees_json(items, n - 1) + separator(n - 1) + tree_json(items[n - 1])
    }
}

/// The first `n` members of an object, separated by commas.
pub open spec fn members_json(members: Seq<(Seq<char>, JsonTree)>, n: int) -> Seq<u8>
    decreases members, n,
{
    if n <= 0 || n > members.len() {
        Seq::empty()
    } else {
        members_json(members, n - 1) + separator(n - 1) + (string_json(members[n - 1].0)
            + seq![58u8]) + tree_json(members[n - 1].1)
    }
}

proof fn lemma_trees_json_grows(items: Seq<JsonTree>, n: int)
    requires
        0 <= n <= items.len(),
    ensures
        trees_json(items, n).len() <= trees_json(items, items.len() as int).len(),
        n < items.len() ==> trees_json(items, n).len() + separator(n).len() + tree_json(
            items[n],
        ).len() <= trees_json(items, items.len() as int).len(),
    decreases items.len() - n,
{
    if n < items.len() {
        lemma_trees_json_grows(items, n + 1);
    }
}

proof fn lemma_members_json_grows(members: Seq<(Seq<char>, JsonTree)>, n: int)
    requires
        0 <= n <= members.len(),
    ensures
        members_json(members, n).len() <= members_json(members, members.len() as int).len(),
        n < members.len() ==> members_json(members, n).len() + separator(n).len() + string_json(
            members[n].0,
        ).len() + 1 + tree_json(members[n].1).len() <= members_json(
            members,
            members.len() as int,
        ).len(),
    decreases members.len() - n,
{
    if n < members.len() {
        lemma_members_json_grows(members, n + 1);
    }
}

/// A length as a 64-bit number.
pub fn checked_length(length: usize) -> (result: AdapterValidationResult<u64>)
    ensures
        result == AdapterValidationResult::<u64>::Ok(length as u64),
{
    Ok(length as u64)
}

/// The sum of two numbers, or `Limit` when it leaves 64 bits.
pub fn checked_add(left: u64, right: u64) -> (result: AdapterValidationResult<u64>)
    ensures
        result == length_verdict(left + right),
{
    match left.checked_add(right) {
        Some(sum) => Ok(sum),
        None => Err(AdapterValidationError::Limit),
    }
}

/// A length, or `Limit` when it leaves 64 bits.
pub open spec fn length_verdict(length: int) -> AdapterValidationResult<u64> {
    if length <= u64::MAX {
        Ok(length as u64)
    } else {
        Err(AdapterValidationError::Limit)
    }
}

/// The length of the JSON string of a text.
pub fn serialized_string_length(value: &str) -> (result: AdapterValidationResult<u64>)
    ensures
        result == length_verdict(string_json(value@).len() as int),
{
    let bytes = value.as_bytes();
    let mut length: u64 = 2;
    let mut i: usize = 0;
    assert(bytes@.take(0) =~= Seq::empty());
    while i < bytes.len()
        invariant
            i <= bytes@.len(),
            bytes@ == encode_utf8(value@),
            length == 2 + escaped(bytes@.take(i as int)).len(),
        decreases bytes.len() - i,
    {
        let byte: u8 = bytes[i];
        proof {
            lemma_escaped_step(bytes@, i as int);
        }
        length = checked_add(
            length,
            if byte == 34 || byte == 92 || byte == 9 || byte == 10 {
                2
            } else {
                1
            },
        )?;
        i += 1;
    }
    assert(bytes@.take(i as int) =~= bytes@);
    Ok(length)
}

/// The length of the canonical JSON text of a value.
#[verifier::loop_isolation(false)]
pub fn serialized_length(value: &AdapterJson) -> (result: AdapterValidationResult<u64>)
    ensures
        result == length_verdict(tree_json(value.tree()).len() as int),
    decreases value,
{
    match value {
        AdapterJson::Null => Ok(4),
        AdapterJson::Boolean(value) => {
            if *value {
                Ok(4)
            } else {
                Ok(5)
            }
        },
        AdapterJson::Number(value) => checked_length(value.as_str().as_bytes().len()),
        AdapterJson::String { value, .. } => serialized_string_length(value.as_str()),
        AdapterJson::Array(items) => {
            let ghost trees = trees_of(items@);
            proof {
                lemma_array_tree(*items);
            }
            let mut length: u64 = 2;
            let mut i: usize = 0;
            while i < items.len()
                invariant
                    i <= items@.len(),
                    length == 2 + trees_json(trees, i as int).len(),
                decreases items.len() - i,
            {
                proof {
                    lemma_trees_json_grows(trees, i as int);
                }
                if i != 0 {
                    length = checked_add(length, 1)?;
                }
                length = checked_add(length, serialized_length(&items[i])?)?;
                i += 1;
            }
            Ok(length)
        },
        AdapterJson::Object(members) => {
            let ghost trees = members_of(members@);
            proof {
                lemma_object_tree(*members);
            }
            let mut length: u64 = 2;
            let mut i: usize = 0;
            while i < members.len()
                invariant
                    i <= members@.len(),
                    length == 2 + members_json(trees, i as int).len(),
                decreases members.len() - i,
            {
                let member = &members[i];
                assert(trees[i as int] == (member.0@, member.1.tree()));
                proof {
                    lemma_members_json_grows(trees, i as int);
                }
                if i != 0 {
                    length = checked_add(length, 1)?;
                }
                length = checked_add(length, serialized_string_length(member.0.as_str())?)?;
                length = checked_add(length, 1)?;
                length = checked_add(length, serialized_length(&member.1)?)?;
                i += 1;
            }
            Ok(length)
        },
    }
}

/// Appends the canonical JSON text of a value.
#[verifier::loop_isolation(false)]
pub fn serialize(value: &AdapterJson, output: &mut Vec<u8>)
    ensures
        final(output)@ == old(output)@ + tree_json(value.tree()),
    decreases value,
{
    let ghost start = output@;
    match value {
        AdapterJson::Null => {
            output.push(110);
            output.push(117);
            output.push(108);
            output.push(108);
        },
        AdapterJson::Boolean(value) => {
            if *value {
                output.push(116);
                output.push(114);
                output.push(117);
                output.push(101);
            } else {
                output.push(102);
                output.push(97);
                output.push(108);
                output.push(115);
                output.push(101);
            }
        },
        AdapterJson::Number(value) => append_bytes(value.as_str().as_bytes(), output),
        AdapterJson::String { value, .. } => serialize_string(value.as_str(), output),
        AdapterJson::Array(items) => {
            let ghost trees = trees_of(items@);
            proof {
                lemma_array_tree(*items);
            }
            output.push(91);
            let mut i: usize = 0;
            assert(output@ =~= start + (seq![91u8] + trees_json(trees, 0)));
            while i < items.len()
                invariant
                    i <= items@.len(),
                    output@ == start + (seq![91u8] + trees_json(trees, i as int)),
                decreases items.len() - i,
            {
                if i != 0 {
                    output.push(44);
                }
                assert(output@ =~= start + (seq![91u8] + trees_json(trees, i as int) + separator(
                    i as int,
                )));
                serialize(&items[i], output);
                assert(output@ =~= start + (seq![91u8] + trees_json(trees, i as int + 1)));
                i += 1;
            }
            output.push(93);
        },
        AdapterJson::Object(members) => {
            let ghost trees = members_of(members@);
            proof {
                lemma_object_tree(*members);
            }
            output.push(123);
            let mut i: usize = 0;
            assert(output@ =~= start + (seq![123u8] + members_json(trees, 0)));
            while i < members.len()
                invariant
                    i <= members@.len(),
                    output@ == start + (seq![123u8] + members_json(trees, i as int)),
                decreases members.len() - i,
            {
                let member = &members[i];
                assert(trees[i as int] == (member.0@, member.1.tree()));
                let ghost done = members_json(trees, i as int);
                if i != 0 {
                    output.push(44);
                }
                assert(output@ =~= start + (seq![123u8] + done + separator(i as int)));
                serialize_string(member.0.as_str(), output);
                output.push(58);
                assert(output@ =~= start + (seq![123u8] + done + separator(i as int) + (string_json(
                    member.0@,
                ) + seq![58u8])));
                serialize(&member.1, output);
                assert(output@ =~= start + (seq![123u8] + members_json(trees, i as int + 1)));
                i += 1;
            }
            output.push(125);
        },
    }
    assert(output@ =~= start + tree_json(value.tree()));
}

/// Every node but the last one has exactly one parent.
pub open spec fn is_tree_shaped(parents: Seq<u8>) -> bool {
    &&& parents.len() > 0
    &&& parents.last() == 0
    &&& forall|i: int| 0 <= i < parents.len() - 1 ==> #[trigger] parents[i] == 1
}

/// The verdict on a prepared document that is to hold exactly the expected
/// value.
pub open spec fn comparison_verdict(expected: JsonTree, prepared: JsonDocument) ->
    AdapterValidationResult<()> {
    let count = prepared.nodes.len();
    let length = tree_json(expected).len();
    if count == 0 || count > MAX_WIRE_NODES {
        Err(AdapterValidationError::Limit)
    } else if prepared.root != count - 1 || expected !is Object {
        Err(AdapterValidationError::BodyMismatch)
    } else {
        match compare_tree(
            expected,
            prepared.nodes,
            prepared.root as int,
            Seq::new(count, |i: int| 0u8),
        ) {
            Err(error) => Err(error),
            Ok((depth, parents)) => if depth > MAX_WIRE_DEPTH || !is_tree_shaped(parents) {
                Err(AdapterValidationError::BodyMismatch)
            } else {
                demand(
                    8 + tree_charge(expected) <= MAX_LOGICAL_CHARGE && 2 <= length
                        <= MAX_LOGICAL_CHARGE,
                    AdapterValidationError::Limit,
                )
            },
        }
    }
}

/// Whether every node but the last one has exactly one parent.
pub fn tree_shaped(parents: &Vec<u8>) -> (found: bool)
    requires
        parents@.len() > 0,
    ensures
        found == is_tree_shaped(parents@),
{
    let root: usize = parents.len() - 1;
    if parents[root] != 0 {
        return false;
    }
    let mut i: usize = 0;
    while i < root
        invariant
            i <= root < parents@.len(),
            forall|j: int| 0 <= j < i ==> #[trigger] parents@[j] == 1,
        decreases root - i,
    {
        if parents[i] != 1 {
            return false;
        }
        i += 1;
    }
    true
}

/// `count` zeros.
pub fn zeros(count: usize) -> (counts: Vec<u8>)
    ensures
        counts@ == Seq::new(count as nat, |i: int| 0u8),
{
    let mut counts: Vec<u8> = Vec::with_capacity(count);
    let mut i: usize = 0;
    while i < count
        invariant
            i <= count,
            counts@ == Seq::new(i as nat, |j: int| 0u8),
        decreases count - i,
    {
        counts.push(0);
        i += 1;
        assert(counts@ =~= Seq::new(i as nat, |j: int| 0u8));
    }
    counts
}

/// Checks that a prepared document holds exactly the expected value, and gives
/// its canonical text.
pub fn compare_and_serialize(expected: &AdapterJson, prepared: &WireJsonDocument) -> (result:
    AdapterValidationResult<Vec<u8>>)
    ensures
        match result {
            Ok(bytes) => comparison_verdict(expected.tree(), prepared@) is Ok && bytes@ == tree_json(
                expected.tree(),
            ) && bytes@ == document_json(prepared@),
            Err(error) => comparison_verdict(expected.tree(), prepared@)
                == AdapterValidationResult::<()>::Err(error),
        },
{
    let count: usize = prepared.nodes.len();
    if count == 0 || count > MAX_WIRE_NODES {
        return Err(AdapterValidationError::Limit);
    }
    let root: usize = prepared.root as usize;
    let is_object = match expected {
        AdapterJson::Object(_) => true,
        _ => false,
    };
    if root != count - 1 || !is_object {
        return Err(AdapterValidationError::BodyMismatch);
    }
    let mut parents = zeros(count);
    let ghost fresh = parents@;
    let depth: u8 = compare_node(expected, prepared, root, &mut parents)?;
    proof {
        lemma_comparison_keeps_claims(expected.tree(), prepared@.nodes, root as int, fresh);
        lemma_compared_text(expected.tree(), prepared@.nodes, root as int, fresh);
    }
    if depth > MAX_WIRE_DEPTH || !tree_shaped(&parents) {
        return Err(AdapterValidationError::BodyMismatch);
    }
    validate_expected_charge(expected)?;
    let length: u64 = serialized_length(expected)?;
    if length < 2 || length > MAX_LOGICAL_CHARGE {
        return Err(AdapterValidationError::Limit);
    }
    let capacity: usize = length as usize;
    let mut output: Vec<u8> = Vec::with_capacity(capacity);
    serialize(expected, &mut output);
    assert(output@ =~= tree_json(expected.tree()));
    if output.len() != capacity {
        return Err(AdapterValidationError::BodyMismatch);
    }
    Ok(output)
}

/// A comparison makes claims on the same nodes.
pub proof fn lemma_comparison_keeps_claims(
    expected: JsonTree,
    nodes: Seq<JsonNode>,
    index: int,
    parents: Seq<u8>,
)
    ensures
        compare_tree(expected, nodes, index, parents) matches Ok((_, reached)) ==> reached.len()
            == parents.len(),
    decreases expected, 0int,
{
    if 0 <= index < nodes.len() {
        match (expected, nodes[index]) {
            (JsonTree::Array(items), JsonNode::Array(_)) => {
                lemma_items_keep_claims(items, nodes, index, 0, 0, parents);
            },
            (JsonTree::Object(members), JsonNode::Object(_)) => {
                lemma_members_keep_claims(members, nodes, index, 0, 0, parents);
            },
            _ => {},
        }
    }
}

proof fn lemma_items_keep_claims(
    items: Seq<JsonTree>,
    nodes: Seq<JsonNode>,
    index: int,
    i: int,
    deepest: int,
    parents: Seq<u8>,
)
    ensures
        compare_items(items, nodes, index, i, deepest, parents) matches Ok((_, reached))
            ==> reached.len() == parents.len(),
    decreases items, items.len() - i,
{
    let children = nodes[index]->Array_0;
    if 0 <= i < items.len() {
        if let Ok(claimed) = claim(index, children[i], parents) {
            lemma_comparison_keeps_claims(items[i], nodes, children[i] as int, claimed);
            if let Ok((depth, reached)) = compare_tree(
                items[i],
                nodes,
                children[i] as int,
                claimed,
            ) {
                lemma_items_keep_claims(items, nodes, index, i + 1, larger(deepest, depth), reached);
            }
        }
    }
}

proof fn lemma_members_keep_claims(
    members: Seq<(Seq<char>, JsonTree)>,
    nodes: Seq<JsonNode>,
    index: int,
    i: int,
    deepest: int,
    parents: Seq<u8>,
)
    ensures
        compare_members(members, nodes, index, i, deepest, parents) matches Ok((_, reached))
            ==> reached.len() == parents.len(),
    decreases members, members.len() - i,
{
    let fields = nodes[index]->Object_0;
    if 0 <= i < members.len() {
        if let Ok(claimed) = claim(index, fields[i].1, parents) {
            lemma_comparison_keeps_claims(members[i].1, nodes, fields[i].1 as int, claimed);
            if let Ok((depth, reached)) = compare_tree(
                members[i].1,
                nodes,
                fields[i].1 as int,
                claimed,
            ) {
                lemma_members_keep_claims(
                    members,
                    nodes,
                    index,
                    i + 1,
                    larger(deepest, depth),
                    reached,
                );
            }
        }
    }
}

/// A node that compares equal to a value has the canonical text of that value.
pub proof fn lemma_compared_text(
    expected: JsonTree,
    nodes: Seq<JsonNode>,
    index: int,
    parents: Seq<u8>,
)
    ensures
        compare_tree(expected, nodes, index, parents) is Ok ==> tree_json(expected) == node_json(
            nodes,
            index,
        ),
    decreases expected, 0int,
{
    if 0 <= index < nodes.len() && compare_tree(expected, nodes, index, parents) is Ok {
        match (expected, nodes[index]) {
            (JsonTree::Array(items), JsonNode::Array(children)) => {
                assert(trees_json(items, 0) =~= items_json(nodes, index, 0));
                lemma_compared_items(items, nodes, index, 0, 0, parents);
            },
            (JsonTree::Object(members), JsonNode::Object(fields)) => {
                assert(members_json(members, 0) =~= items_json(nodes, index, 0));
                lemma_compared_members(members, nodes, index, 0, 0, parents);
            },
            _ => {},
        }
    }
}

proof fn lemma_compared_items(
    items: Seq<JsonTree>,
    nodes: Seq<JsonNode>,
    index: int,
    i: int,
    deepest: int,
    parents: Seq<u8>,
)
    requires
        nodes[index] is Array,
        items.len() == nodes[index]->Array_0.len(),
        0 <= i <= items.len(),
        trees_json(items, i) == items_json(nodes, index, i),
        compare_items(items, nodes, index, i, deepest, parents) is Ok,
    ensures
        trees_json(items, items.len() as int) == items_json(nodes, index, items.len() as int),
    decreases items, items.len() - i,
{
    let children = nodes[index]->Array_0;
    if i < items.len() {
        let claimed = claim(index, children[i], parents)->Ok_0;
        lemma_compared_text(items[i], nodes, children[i] as int, claimed);
        assert(items_json(nodes, index, i + 1) == items_json(nodes, index, i) + separator(i)
            + child_prefix(nodes[index], i) + node_json(nodes, children[i] as int));
        assert(trees_json(items, i + 1) =~= items_json(nodes, index, i + 1));
        let (depth, reached) = compare_tree(
            items[i],
            nodes,
            children[i] as int,
            claimed,
        )->Ok_0;
        lemma_compared_items(items, nodes, index, i + 1, larger(deepest, depth), reached);
    }
}

proof fn lemma_compared_members(
    members: Seq<(Seq<char>, JsonTree)>,
    nodes: Seq<JsonNode>,
    index: int,
    i: int,
    deepest: int,
    parents: Seq<u8>,
)
    requires
        nodes[index] is Object,
        members.len() == nodes[index]->Object_0.len(),
        0 <= i <= members.len(),
        members_json(members, i) == items_json(nodes, index, i),
        compare_members(members, nodes, index, i, deepest, parents) is Ok,
    ensures
        members_json(members, members.len() as int) == items_json(
            nodes,
            index,
            members.len() as int,
        ),
    decreases members, members.len() - i,
{
    let fields = nodes[index]->Object_0;
    if i < members.len() {
        let claimed = claim(index, fields[i].1, parents)->Ok_0;
        lemma_compared_text(members[i].1, nodes, fields[i].1 as int, claimed);
        assert(children_of(nodes[index])[i] == fields[i].1);
        assert(items_json(nodes, index, i + 1) == items_json(nodes, index, i) + separator(i)
            + child_prefix(nodes[index], i) + node_json(nodes, fields[i].1 as int));
        assert(members_json(members, i + 1) =~= items_json(nodes, index, i + 1));
        let (depth, reached) = compare_tree(
            members[i].1,
            nodes,
            fields[i].1 as int,
            claimed,
        )->Ok_0;
        lemma_compared_members(members, nodes, index, i + 1, larger(deepest, depth), reached);
    }
}

} // verus!
