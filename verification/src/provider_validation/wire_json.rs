//! Flat wire-JSON tree validation and canonical serialization.

use vstd::prelude::*;
use vstd::utf8::encode_utf8;

use crate::provider_api::{JsonDocument, JsonNode, WireJsonDocument, WireJsonNode};
use crate::provider_validation::charge::{checked_len, LogicalCharge, Tally};
use crate::provider_validation::scalar::{
    safe, safe_verdict, MAX_LOGICAL_CHARGE, MAX_SAFE_TEXT_BYTES,
};
use crate::provider_validation::{verdict, ValidationError, ValidationResult};
use crate::text::{bytes_before, is_before};

verus! {

/// Largest number of nodes of a document.
pub const MAX_WIRE_NODES: usize = 262_144;

/// Largest nesting depth of a document.
pub const MAX_WIRE_DEPTH: u8 = 64;

/// Largest object key.
pub const MAX_KEY_BYTES: usize = 256;

/// Longest number token.
pub const MAX_NUMBER_BYTES: usize = 128;

/// Charge and depth of a valid document.
#[derive(Debug, Clone, Copy, PartialEq, Eq)]
pub struct WireJsonStats {
    pub logical_charge: u64,
    pub depth: u8,
}

// ---------------------------------------------------------------------------
// Number tokens
// ---------------------------------------------------------------------------

/// An ASCII digit.
pub open spec fn is_digit(byte: u8) -> bool {
    48 <= byte <= 57
}

/// Where the run of digits that starts at `from` ends.
pub open spec fn digits_end(bytes: Seq<u8>, from: int) -> int
    decreases bytes.len() - from,
{
    if 0 <= from < bytes.len() && is_digit(bytes[from]) {
        digits_end(bytes, from + 1)
    } else {
        from
    }
}

/// Where the integer digits of a number start: after an optional minus sign.
pub open spec fn integer_start(bytes: Seq<u8>) -> int {
    if bytes.len() > 0 && bytes[0] == 45 {
        1
    } else {
        0
    }
}

/// Where the fraction ends that starts at `from`: a point and digits, or
/// nothing.
pub open spec fn fraction_end(bytes: Seq<u8>, from: int) -> int {
    if 0 <= from < bytes.len() && bytes[from] == 46 {
        digits_end(bytes, from + 1)
    } else {
        from
    }
}

/// The rest of the token from `from` on is empty, or an `e`, an optional minus
/// sign and digits of which the first is not zero.
pub open spec fn is_exponent(bytes: Seq<u8>, from: int) -> bool {
    let digits = if from + 1 < bytes.len() && bytes[from + 1] == 45 {
        from + 2
    } else {
        from + 1
    };
    ||| from == bytes.len()
    ||| {
        &&& from < bytes.len()
        &&& bytes[from] == 101
        &&& digits < bytes.len()
        &&& 49 <= bytes[digits] <= 57
        &&& digits_end(bytes, digits) == bytes.len()
    }
}

/// The grammar of canonical numbers: no plus sign, no leading or trailing
/// zeros, no negative or empty zero, no zero exponent.
pub open spec fn is_number_token(bytes: Seq<u8>) -> bool {
    let start = integer_start(bytes);
    let integer_end = digits_end(bytes, start);
    let end = fraction_end(bytes, integer_end);
    &&& 1 <= bytes.len() <= MAX_NUMBER_BYTES
    &&& {
        ||| bytes =~= seq![48u8]
        ||| {
            &&& start < integer_end
            &&& bytes[start] == 48 ==> integer_end == start + 1 && integer_end < end
            &&& integer_end < end ==> integer_end + 1 < end && bytes[end - 1] != 48
            &&& is_exponent(bytes, end)
        }
    }
}

proof fn lemma_digits_end(bytes: Seq<u8>, from: int)
    requires
        0 <= from <= bytes.len(),
    ensures
        from <= digits_end(bytes, from) <= bytes.len(),
        digits_end(bytes, from) < bytes.len() ==> !is_digit(bytes[digits_end(bytes, from)]),
    decreases bytes.len() - from,
{
    if from < bytes.len() && is_digit(bytes[from]) {
        lemma_digits_end(bytes, from + 1);
    }
}

/// The end of the run of digits that starts at `from`.
pub fn skip_digits(bytes: &[u8], from: usize) -> (end: usize)
    requires
        from <= bytes@.len(),
    ensures
        end == digits_end(bytes@, from as int),
        from <= end <= bytes@.len(),
{
    let mut index: usize = from;
    while index < bytes.len() && bytes[index] >= 48 && bytes[index] <= 57
        invariant
            from <= index <= bytes@.len(),
            digits_end(bytes@, index as int) == digits_end(bytes@, from as int),
        decreases bytes.len() - index,
    {
        index += 1;
    }
    index
}

/// Skips fraction digits; whether there is one and the last is not zero.
pub fn consume_fraction(bytes: &[u8], index: &mut usize) -> (valid: bool)
    requires
        *old(index) <= bytes@.len(),
    ensures
        *final(index) == digits_end(bytes@, *old(index) as int),
        *old(index) <= *final(index) <= bytes@.len(),
        valid == (*old(index) < *final(index) && bytes@[*final(index) - 1] != 48),
{
    let start: usize = *index;
    *index = skip_digits(bytes, start);
    *index > start && bytes[*index - 1] != 48
}

/// Whether a text is a canonical number token.
pub fn is_canonical_number(value: &str) -> (valid: bool)
    ensures
        valid == is_number_token(encode_utf8(value@)),
{
    let bytes = value.as_bytes();
    if bytes.len() < 1 || bytes.len() > MAX_NUMBER_BYTES {
        return false;
    }
    if bytes.len() == 1 && bytes[0] == 48 {
        assert(bytes@ =~= seq![48u8]);
        return true;
    }
    let start: usize = if bytes[0] == 45 {
        1
    } else {
        0
    };
    proof {
        assert(bytes@ != seq![48u8]);
        lemma_digits_end(bytes@, start as int);
    }
    if start == bytes.len() {
        return false;
    }
    let mut index: usize = start;
    if bytes[index] == 48 {
        index += 1;
        if index == bytes.len() || bytes[index] != 46 {
            return false;
        }
        assert(digits_end(bytes@, index as int) == index);
        index += 1;
        if !consume_fraction(bytes, &mut index) {
            return false;
        }
    } else if bytes[index] >= 49 && bytes[index] <= 57 {
        index = skip_digits(bytes, index);
        if index < bytes.len() && bytes[index] == 46 {
            index += 1;
            if !consume_fraction(bytes, &mut index) {
                return false;
            }
        }
    } else {
        return false;
    }
    assert(index == fraction_end(bytes@, digits_end(bytes@, start as int)));
    let ghost end = index as int;
    if index < bytes.len() && bytes[index] == 101 {
        index += 1;
        if index < bytes.len() && bytes[index] == 45 {
            index += 1;
        }
        if index == bytes.len() || !(bytes[index] >= 49 && bytes[index] <= 57) {
            return false;
        }
        index = skip_digits(bytes, index);
    }
    index == bytes.len()
}

// ---------------------------------------------------------------------------
// Validation
// ---------------------------------------------------------------------------

/// The nodes that a node holds, in order.
pub open spec fn children_of(node: JsonNode) -> Seq<u32> {
    match node {
        JsonNode::Array(items) => items,
        JsonNode::Object(fields) => fields.map_values(
            |field: (Seq<char>, u32)| field.1,
        ),
        _ => Seq::empty(),
    }
}

/// Every node comes after the nodes that it holds.
pub open spec fn is_post_order(nodes: Seq<JsonNode>) -> bool {
    forall|i: int, k: int|
        0 <= i < nodes.len() && 0 <= k < children_of(nodes[i]).len() ==> (
        #[trigger] children_of(nodes[i])[k]) < i
}

/// The parent counts after node `index` has named `child` as its own.
pub open spec fn claimed(index: int, child: u32, parents: Seq<u32>) -> Seq<u32> {
    if child >= index || parents[child as int] == u32::MAX {
        parents
    } else {
        parents.update(child as int, (parents[child as int] + 1) as u32)
    }
}

/// Whether node `index` may name `child` as its own: the child comes before it
/// and has no parent yet.
pub open spec fn claim_verdict(index: int, child: u32, parents: Seq<u32>) -> ValidationResult {
    if child >= index {
        Err(ValidationError::InvalidArgument)
    } else if parents[child as int] == u32::MAX {
        Err(ValidationError::Limit)
    } else {
        verdict(parents[child as int] == 0, ValidationError::InvalidArgument)
    }
}

/// The depth of the deepest of the given nodes, zero for none.
pub open spec fn deepest(children: Seq<u32>, depths: Seq<u8>) -> int
    decreases children.len(),
{
    if children.len() == 0 {
        0
    } else {
        let rest = deepest(children.drop_last(), depths);
        let depth = depths[children.last() as int] as int;
        if rest < depth {
            depth
        } else {
            rest
        }
    }
}

/// Walking the items of an array from position `i` on.
pub open spec fn walk_items(
    index: int,
    items: Seq<u32>,
    i: int,
    parents: Seq<u32>,
    tally: Tally,
) -> (Tally, Seq<u32>)
    decreases items.len() - i,
{
    if tally.verdict is Err || i >= items.len() {
        (tally, parents)
    } else {
        let charged = tally.charge(4);
        if charged.verdict is Err {
            (charged, parents)
        } else {
            walk_items(
                index,
                items,
                i + 1,
                claimed(index, items[i], parents),
                charged.check(claim_verdict(index, items[i], parents)),
            )
        }
    }
}

/// The checks on the key of field `i`: its charge, its text, and that it comes
/// after the key before it.
pub open spec fn field_tally(fields: Seq<(Seq<char>, u32)>, i: int, tally: Tally) -> Tally {
    tally.string(fields[i].0).charge(4).check(
        safe_verdict(fields[i].0, MAX_KEY_BYTES as int, false),
    ).ensure(
        i == 0 || bytes_before(encode_utf8(fields[i - 1].0), encode_utf8(fields[i].0)),
        ValidationError::InvalidArgument,
    )
}

/// Walking the fields of an object from position `i` on.
pub open spec fn walk_fields(
    index: int,
    fields: Seq<(Seq<char>, u32)>,
    i: int,
    parents: Seq<u32>,
    tally: Tally,
) -> (Tally, Seq<u32>)
    decreases fields.len() - i,
{
    if tally.verdict is Err || i >= fields.len() {
        (tally, parents)
    } else {
        let checked = field_tally(fields, i, tally);
        if checked.verdict is Err {
            (checked, parents)
        } else {
            walk_fields(
                index,
                fields,
                i + 1,
                claimed(index, fields[i].1, parents),
                checked.check(claim_verdict(index, fields[i].1, parents)),
            )
        }
    }
}

/// The charge and checks of node `index`, and the parent counts after it.
pub open spec fn walk_node(
    index: int,
    node: JsonNode,
    parents: Seq<u32>,
    depths: Seq<u8>,
    tally: Tally,
) -> (Tally, Seq<u32>) {
    let tagged = tally.charge(4);
    match node {
        JsonNode::Null => (tagged, parents),
        JsonNode::Boolean(_) => (tagged.charge(1), parents),
        JsonNode::Number(value) => (
            tagged.string(value).ensure(
                is_number_token(encode_utf8(value)),
                ValidationError::InvalidArgument,
            ),
            parents,
        ),
        JsonNode::Text(value) => (
            tagged.string(value).check(
                safe_verdict(value, MAX_SAFE_TEXT_BYTES as int, false),
            ),
            parents,
        ),
        JsonNode::Array(items) => {
            let walk = walk_items(index, items, 0, parents, tagged.charge(4));
            (
                walk.0.ensure(
                    deepest(children_of(node), depths) < 255,
                    ValidationError::Limit,
                ),
                walk.1,
            )
        },
        JsonNode::Object(fields) => {
            let walk = walk_fields(index, fields, 0, parents, tagged.charge(4));
            (
                walk.0.ensure(
                    deepest(children_of(node), depths) < 255,
                    ValidationError::Limit,
                ),
                walk.1,
            )
        },
    }
}

/// The depth of a node over nodes of known depth: one for a scalar, one more
/// than the deepest child for a container.
pub open spec fn depth_over(node: JsonNode, depths: Seq<u8>) -> int {
    deepest(children_of(node), depths) + 1
}

/// Names `child` as a child of node `index`.
pub fn add_parent(index: usize, child: u32, parents: &mut Vec<u32>) -> (result: ValidationResult<
    usize,
>)
    requires
        index <= old(parents)@.len(),
    ensures
        final(parents)@ == claimed(index as int, child, old(parents)@),
        result == (match claim_verdict(index as int, child, old(parents)@) {
            Ok(()) => ValidationResult::<usize>::Ok(child as usize),
            Err(error) => ValidationResult::<usize>::Err(error),
        }),
{
    if child as u64 >= index as u64 {
        return Err(ValidationError::InvalidArgument);
    }
    let position: usize = child as usize;
    match parents[position].checked_add(1) {
        Some(count) => {
            parents.set(position, count);
        },
        None => {
            return Err(ValidationError::Limit);
        },
    }
    if parents[position] > 1 {
        return Err(ValidationError::InvalidArgument);
    }
    Ok(position)
}

/// The depth of a container with the given children.
pub fn container_depth(children: &[u32], depths: &[u8]) -> (result: ValidationResult<u8>)
    requires
        forall|i: int| 0 <= i < children@.len() ==> #[trigger] children@[i] < depths@.len(),
    ensures
        deepest(children@, depths@) < 255 ==> result == ValidationResult::<u8>::Ok(
            (deepest(children@, depths@) + 1) as u8,
        ),
        deepest(children@, depths@) >= 255 ==> result == ValidationResult::<u8>::Err(
            ValidationError::Limit,
        ),
{
    let mut child_depth: u8 = 0;
    let mut i: usize = 0;
    while i < children.len()
        invariant
            i <= children@.len(),
            forall|i: int| 0 <= i < children@.len() ==> #[trigger] children@[i] < depths@.len(),
            child_depth == deepest(children@.take(i as int), depths@),
        decreases children.len() - i,
    {
        assert(children@.take(i as int + 1).drop_last() =~= children@.take(i as int));
        let depth: u8 = depths[children[i] as usize];
        if child_depth < depth {
            child_depth = depth;
        }
        i += 1;
    }
    assert(children@.take(i as int) =~= children@);
    match child_depth.checked_add(1) {
        Some(depth) => Ok(depth),
        None => Err(ValidationError::Limit),
    }
}

proof fn lemma_walk_items(index: int, items: Seq<u32>, i: int, parents: Seq<u32>, tally: Tally)
    requires
        0 <= i,
        index <= parents.len(),
    ensures
        walk_items(index, items, i, parents, tally).1.len() == parents.len(),
        walk_items(index, items, i, parents, tally).0.verdict is Ok ==> forall|k: int|
            i <= k < items.len() ==> (#[trigger] items[k]) < index,
    decreases items.len() - i,
{
    if tally.verdict is Ok && i < items.len() && tally.charge(4).verdict is Ok {
        lemma_walk_items(
            index,
            items,
            i + 1,
            claimed(index, items[i], parents),
            tally.charge(4).check(claim_verdict(index, items[i], parents)),
        );
        let rest = walk_items(
            index,
            items,
            i + 1,
            claimed(index, items[i], parents),
            tally.charge(4).check(claim_verdict(index, items[i], parents)),
        );
        assert(walk_items(index, items, i, parents, tally) == rest);
        if rest.0.verdict is Ok {
            assert(claim_verdict(index, items[i], parents) is Ok);
        }
    }
}

proof fn lemma_walk_fields(
    index: int,
    fields: Seq<(Seq<char>, u32)>,
    i: int,
    parents: Seq<u32>,
    tally: Tally,
)
    requires
        0 <= i,
        index <= parents.len(),
    ensures
        walk_fields(index, fields, i, parents, tally).1.len() == parents.len(),
        walk_fields(index, fields, i, parents, tally).0.verdict is Ok ==> forall|k: int|
            i <= k < fields.len() ==> (#[trigger] fields[k]).1 < index,
    decreases fields.len() - i,
{
    let checked = field_tally(fields, i, tally);
    if tally.verdict is Ok && i < fields.len() && checked.verdict is Ok {
        lemma_walk_fields(
            index,
            fields,
            i + 1,
            claimed(index, fields[i].1, parents),
            checked.check(claim_verdict(index, fields[i].1, parents)),
        );
        let rest = walk_fields(
            index,
            fields,
            i + 1,
            claimed(index, fields[i].1, parents),
            checked.check(claim_verdict(index, fields[i].1, parents)),
        );
        assert(walk_fields(index, fields, i, parents, tally) == rest);
        if rest.0.verdict is Ok {
            assert(claim_verdict(index, fields[i].1, parents) is Ok);
        }
    }
}

/// Checks one node against the nodes before it and returns its depth.
#[verifier::loop_isolation(false)]
pub fn validate_node(
    index: usize,
    node: &WireJsonNode,
    parents: &mut Vec<u32>,
    depths: &Vec<u8>,
    charge: &mut LogicalCharge,
) -> (result: ValidationResult<u8>)
    requires
        index <= old(parents)@.len(),
        index <= depths@.len(),
    ensures
        ({
            let walk = walk_node(
                index as int,
                node@,
                old(parents)@,
                depths@,
                old(charge).tally(),
            );
            &&& final(charge).after(result) == walk.0
            &&& final(parents)@ == walk.1
        }),
        result matches Ok(depth) ==> depth == depth_over(node@, depths@),
{
    proof {
        reveal_with_fuel(walk_items, 2);
        reveal_with_fuel(walk_fields, 2);
    }
    charge.add(4)?;
    let ghost tagged = charge.tally();
    match node {
        WireJsonNode::NullValue => Ok(1),
        WireJsonNode::BooleanValue(_) => {
            charge.add(1)?;
            Ok(1)
        },
        WireJsonNode::NumberValue(value) => {
            charge.string(value.as_str())?;
            if !is_canonical_number(value.as_str()) {
                return Err(ValidationError::InvalidArgument);
            }
            Ok(1)
        },
        WireJsonNode::StringValue(value) => {
            charge.string(value.as_str())?;
            safe(value.as_str(), MAX_SAFE_TEXT_BYTES, false)?;
            Ok(1)
        },
        WireJsonNode::ArrayValue(array) => {
            charge.add(4)?;
            let ghost whole = walk_items(
                index as int,
                array.items@,
                0,
                old(parents)@,
                tagged.charge(4),
            );
            let mut i: usize = 0;
            while i < array.items.len()
                invariant
                    i <= array.items@.len(),
                    parents@.len() == old(parents)@.len(),
                    whole == walk_items(
                        index as int,
                        array.items@,
                        i as int,
                        parents@,
                        charge.tally(),
                    ),
                decreases array.items.len() - i,
            {
                charge.add(4)?;
                add_parent(index, array.items[i], parents)?;
                i += 1;
            }
            proof {
                lemma_walk_items(index as int, array.items@, 0, old(parents)@, tagged.charge(4));
            }
            container_depth(array.items.as_slice(), depths.as_slice())
        },
        WireJsonNode::ObjectValue(object) => {
            let ghost fields = node@->Object_0;
            charge.add(4)?;
            let ghost whole = walk_fields(
                index as int,
                fields,
                0,
                old(parents)@,
                tagged.charge(4),
            );
            let ghost children = children_of(node@);
            let mut child_depth: u8 = 0;
            let mut i: usize = 0;
            proof {
                lemma_walk_fields(index as int, fields, 0, old(parents)@, tagged.charge(4));
                assert(children.take(0) =~= Seq::empty());
            }
            while i < object.fields.len()
                invariant
                    i <= fields.len(),
                    parents@.len() == old(parents)@.len(),
                    whole == walk_fields(
                        index as int,
                        fields,
                        i as int,
                        parents@,
                        charge.tally(),
                    ),
                    child_depth == deepest(children.take(i as int), depths@),
                decreases object.fields.len() - i,
            {
                let field = &object.fields[i];
                let ghost before = charge.tally();
                charge.string(field.key.as_str())?;
                charge.add(4)?;
                safe(field.key.as_str(), MAX_KEY_BYTES, false)?;
                if i > 0 && !is_before(
                    object.fields[i - 1].key.as_str().as_bytes(),
                    field.key.as_str().as_bytes(),
                ) {
                    return Err(ValidationError::InvalidArgument);
                }
                assert(field_tally(fields, i as int, before) == charge.tally());
                let child: usize = add_parent(index, field.value, parents)?;
                proof {
                    assert(children.take(i as int + 1).drop_last() =~= children.take(i as int));
                    assert(children[i as int] == field.value);
                }
                if child_depth < depths[child] {
                    child_depth = depths[child];
                }
                i += 1;
            }
            assert(children.take(i as int) =~= children);
            match child_depth.checked_add(1) {
                Some(depth) => Ok(depth),
                None => Err(ValidationError::Limit),
            }
        },
    }
}

/// Walking the nodes of a document from node `i` on: the tally, the parent
/// counts and the depths.
pub open spec fn walk_nodes(
    nodes: Seq<JsonNode>,
    i: int,
    parents: Seq<u32>,
    depths: Seq<u8>,
    tally: Tally,
) -> (Tally, Seq<u32>, Seq<u8>)
    decreases nodes.len() - i,
{
    if tally.verdict is Err || i >= nodes.len() {
        (tally, parents, depths)
    } else {
        let walk = walk_node(i, nodes[i], parents, depths, tally);
        let depth = depth_over(nodes[i], depths);
        let checked = walk.0.ensure(depth <= MAX_WIRE_DEPTH, ValidationError::Limit);
        if checked.verdict is Err {
            (checked, walk.1, depths)
        } else {
            walk_nodes(nodes, i + 1, walk.1, depths.push(depth as u8), checked)
        }
    }
}

/// The walk over a whole document: eight bytes for the root index and the node
/// count, then every node.
pub open spec fn walk_document(nodes: Seq<JsonNode>) -> (Tally, Seq<u32>, Seq<u8>) {
    walk_nodes(
        nodes,
        0,
        Seq::new(nodes.len(), |i: int| 0u32),
        Seq::empty(),
        (Tally { value: 0, limit: MAX_LOGICAL_CHARGE as int, verdict: Ok(()) }).charge(4).charge(4),
    )
}

/// The last node has no parent and every other node has exactly one.
pub open spec fn is_single_rooted(parents: Seq<u32>) -> bool {
    &&& parents.last() == 0
    &&& forall|i: int| 0 <= i < parents.len() - 1 ==> #[trigger] parents[i] == 1
}

/// The verdict on a document, with its charge and depth.
pub open spec fn wire_verdict(
    document: JsonDocument,
    object_root: bool,
) -> ValidationResult<WireJsonStats> {
    let nodes = document.nodes;
    let walk = walk_document(nodes);
    if nodes.len() == 0 || nodes.len() > MAX_WIRE_NODES {
        Err(ValidationError::Limit)
    } else if document.root != nodes.len() - 1 {
        Err(ValidationError::InvalidArgument)
    } else if object_root && !(nodes.last() is Object) {
        Err(ValidationError::InvalidArgument)
    } else {
        walk.0.ensure(is_single_rooted(walk.1), ValidationError::InvalidArgument).finish(
            WireJsonStats { logical_charge: walk.0.value as u64, depth: walk.2.last() },
        )
    }
}

/// Checks a whole document: node count, root, tree shape, depth, keys, texts,
/// numbers and logical charge.
#[verifier::loop_isolation(false)]
pub fn validate_wire_json(document: &WireJsonDocument, object_root: bool) -> (result:
    ValidationResult<WireJsonStats>)
    ensures
        result == wire_verdict(document@, object_root),
{
    let count: usize = document.nodes.len();
    if count == 0 || count > MAX_WIRE_NODES {
        return Err(ValidationError::Limit);
    }
    if document.root as u64 != (count - 1) as u64 {
        return Err(ValidationError::InvalidArgument);
    }
    if object_root && !matches!(&document.nodes[count - 1], WireJsonNode::ObjectValue(_)) {
        return Err(ValidationError::InvalidArgument);
    }
    proof {
        reveal_with_fuel(walk_nodes, 2);
    }
    let mut parents: Vec<u32> = vec![0u32; count];
    let mut depths: Vec<u8> = Vec::with_capacity(count);
    let mut charge = LogicalCharge::new(MAX_LOGICAL_CHARGE);
    charge.add(4)?;
    charge.add(4)?;
    let ghost whole = walk_document(document@.nodes);
    assert(parents@ =~= Seq::new(count as nat, |i: int| 0u32));
    let mut index: usize = 0;
    while index < count
        invariant
            index <= count,
            parents@.len() == count,
            depths@.len() == index,
            whole == walk_nodes(
                document@.nodes,
                index as int,
                parents@,
                depths@,
                charge.tally(),
            ),
        decreases count - index,
    {
        proof {
            lemma_walk_node_keeps_length(
                index as int,
                document@.nodes[index as int],
                parents@,
                depths@,
                charge.tally(),
            );
        }
        let depth: u8 = validate_node(
            index,
            &document.nodes[index],
            &mut parents,
            &depths,
            &mut charge,
        )?;
        if depth > MAX_WIRE_DEPTH {
            return Err(ValidationError::Limit);
        }
        depths.push(depth);
        index += 1;
    }
    if parents[count - 1] != 0 {
        return Err(ValidationError::InvalidArgument);
    }
    let mut i: usize = 0;
    while i < count - 1
        invariant
            i <= count - 1,
            forall|j: int| 0 <= j < i ==> #[trigger] parents@[j] == 1,
        decreases count - i,
    {
        if parents[i] != 1 {
            return Err(ValidationError::InvalidArgument);
        }
        i += 1;
    }
    Ok(WireJsonStats { logical_charge: charge.value(), depth: depths[count - 1] })
}

proof fn lemma_walk_node_keeps_length(
    index: int,
    node: JsonNode,
    parents: Seq<u32>,
    depths: Seq<u8>,
    tally: Tally,
)
    requires
        0 <= index <= parents.len(),
    ensures
        walk_node(index, node, parents, depths, tally).1.len() == parents.len(),
{
    match node {
        JsonNode::Array(items) => lemma_walk_items(
            index,
            items,
            0,
            parents,
            tally.charge(4).charge(4),
        ),
        JsonNode::Object(fields) => lemma_walk_fields(
            index,
            fields,
            0,
            parents,
            tally.charge(4).charge(4),
        ),
        _ => {},
    }
}

proof fn lemma_walk_nodes_post_order(
    nodes: Seq<JsonNode>,
    i: int,
    parents: Seq<u32>,
    depths: Seq<u8>,
    tally: Tally,
)
    requires
        0 <= i,
        nodes.len() == parents.len(),
        walk_nodes(nodes, i, parents, depths, tally).0.verdict is Ok,
    ensures
        forall|p: int, k: int|
            i <= p < nodes.len() && 0 <= k < children_of(nodes[p]).len() ==> (
            #[trigger] children_of(nodes[p])[k]) < p,
    decreases nodes.len() - i,
{
    if i < nodes.len() {
        let walk = walk_node(i, nodes[i], parents, depths, tally);
        let depth = depth_over(nodes[i], depths);
        let checked = walk.0.ensure(depth <= MAX_WIRE_DEPTH, ValidationError::Limit);
        lemma_walk_node_keeps_length(i, nodes[i], parents, depths, tally);
        lemma_walk_nodes_post_order(nodes, i + 1, walk.1, depths.push(depth as u8), checked);
        match nodes[i] {
            JsonNode::Array(items) => lemma_walk_items(
                i,
                items,
                0,
                parents,
                tally.charge(4).charge(4),
            ),
            JsonNode::Object(fields) => {
                lemma_walk_fields(i, fields, 0, parents, tally.charge(4).charge(4));
                assert forall|k: int| 0 <= k < children_of(nodes[i]).len() implies (
                #[trigger] children_of(nodes[i])[k]) < i by {
                    assert(fields[k].1 < i);
                }
            },
            _ => {},
        }
    }
}

/// In a valid document every node comes after the nodes that it holds.
pub proof fn lemma_valid_document_is_post_order(document: JsonDocument, object_root: bool)
    requires
        wire_verdict(document, object_root) is Ok,
    ensures
        is_post_order(document.nodes),
{
    let nodes = document.nodes;
    lemma_walk_nodes_post_order(
        nodes,
        0,
        Seq::new(nodes.len(), |i: int| 0u32),
        Seq::empty(),
        (Tally { value: 0, limit: MAX_LOGICAL_CHARGE as int, verdict: Ok(()) }).charge(4).charge(4),
    );
}

// ---------------------------------------------------------------------------
// Serialization
// ---------------------------------------------------------------------------

/// A byte of a JSON string: quotes, backslashes, tabs and line feeds are
/// escaped, everything else stands for itself.
pub open spec fn escaped_byte(byte: u8) -> Seq<u8> {
    if byte == 34 {
        seq![92u8, 34u8]
    } else if byte == 92 {
        seq![92u8, 92u8]
    } else if byte == 9 {
        seq![92u8, 116u8]
    } else if byte == 10 {
        seq![92u8, 110u8]
    } else {
        seq![byte]
    }
}

/// The escaped form of a byte string.
pub open spec fn escaped(bytes: Seq<u8>) -> Seq<u8>
    decreases bytes.len(),
{
    if bytes.len() == 0 {
        Seq::empty()
    } else {
        escaped(bytes.drop_last()) + escaped_byte(bytes.last())
    }
}

/// A text as a JSON string.
pub open spec fn string_json(text: Seq<char>) -> Seq<u8> {
    seq![34u8] + escaped(encode_utf8(text)) + seq![34u8]
}

/// A comma, except before the first element.
pub open spec fn separator(position: int) -> Seq<u8> {
    if position == 0 {
        Seq::empty()
    } else {
        seq![44u8]
    }
}

/// The canonical JSON text of node `index`.
pub open spec fn node_json(nodes: Seq<JsonNode>, index: int) -> Seq<u8>
    decreases index, children_of(nodes[index]).len() + 1,
{
    match nodes[index] {
        JsonNode::Null => seq![110u8, 117u8, 108u8, 108u8],
        JsonNode::Boolean(true) => seq![116u8, 114u8, 117u8, 101u8],
        JsonNode::Boolean(false) => seq![102u8, 97u8, 108u8, 115u8, 101u8],
        JsonNode::Number(value) => encode_utf8(value),
        JsonNode::Text(value) => string_json(value),
        JsonNode::Array(items) => seq![91u8] + items_json(
            nodes,
            index,
            children_of(nodes[index]).len() as int,
        ) + seq![93u8],
        JsonNode::Object(fields) => seq![123u8] + items_json(
            nodes,
            index,
            children_of(nodes[index]).len() as int,
        ) + seq![125u8],
    }
}

/// What stands before the value of child `k`: nothing in an array, the key and
/// a colon in an object.
pub open spec fn child_prefix(node: JsonNode, k: int) -> Seq<u8> {
    match node {
        JsonNode::Object(fields) => string_json(fields[k].0) + seq![58u8],
        _ => Seq::empty(),
    }
}

/// The first `n` children of node `index`, separated by commas.
pub open spec fn items_json(nodes: Seq<JsonNode>, index: int, n: int) -> Seq<u8>
    decreases index, n,
{
    if n <= 0 || n > children_of(nodes[index]).len() {
        Seq::empty()
    } else {
        let child = children_of(nodes[index])[n - 1] as int;
        items_json(nodes, index, n - 1) + separator(n - 1) + child_prefix(nodes[index], n - 1) + if 0
            <= child < index {
            node_json(nodes, child)
        } else {
            Seq::empty()
        }
    }
}

/// The number of quotes and backslashes in a byte string, which is how much it
/// grows when it is escaped into a JSON string.
pub open spec fn quote_count(bytes: Seq<u8>) -> nat
    decreases bytes.len(),
{
    if bytes.len() == 0 {
        0
    } else {
        quote_count(bytes.drop_last()) + if bytes.last() == 34 || bytes.last() == 92 {
            1nat
        } else {
            0nat
        }
    }
}

proof fn lemma_quote_count_adds(left: Seq<u8>, right: Seq<u8>)
    ensures
        quote_count(left + right) == quote_count(left) + quote_count(right),
    decreases right.len(),
{
    if right.len() == 0 {
        assert(left + right =~= left);
    } else {
        lemma_quote_count_adds(left, right.drop_last());
        assert((left + right).drop_last() =~= left + right.drop_last());
        assert((left + right).last() == right.last());
    }
}

proof fn lemma_quote_count_bound(bytes: Seq<u8>)
    ensures
        quote_count(bytes) <= bytes.len(),
    decreases bytes.len(),
{
    if bytes.len() > 0 {
        lemma_quote_count_bound(bytes.drop_last());
    }
}

/// The escaped form of one more byte, which is no longer than that of all.
pub proof fn lemma_escaped_step(bytes: Seq<u8>, i: int)
    requires
        0 <= i < bytes.len(),
    ensures
        escaped(bytes.take(i + 1)) == escaped(bytes.take(i)) + escaped_byte(bytes[i]),
        escaped(bytes.take(i + 1)).len() <= escaped(bytes).len(),
    decreases bytes.len() - i,
{
    assert(bytes.take(i + 1).drop_last() =~= bytes.take(i));
    if i + 1 < bytes.len() {
        lemma_escaped_step(bytes, i + 1);
    } else {
        assert(bytes.take(i + 1) =~= bytes);
    }
}

proof fn lemma_items_grow(nodes: Seq<JsonNode>, index: int, n: int, m: int)
    requires
        0 <= n <= m <= children_of(nodes[index]).len(),
    ensures
        items_json(nodes, index, n).len() <= items_json(nodes, index, m).len(),
    decreases m - n,
{
    if n < m {
        lemma_items_grow(nodes, index, n, m - 1);
    }
}

/// Appends the JSON string of a text.
pub fn serialize_string(value: &str, output: &mut Vec<u8>)
    ensures
        final(output)@ == old(output)@ + string_json(value@),
{
    let bytes = value.as_bytes();
    output.push(34);
    let mut i: usize = 0;
    assert(bytes@.take(0) =~= Seq::empty());
    assert(escaped(bytes@.take(0)) =~= Seq::empty());
    assert(output@ =~= old(output)@ + seq![34u8] + escaped(bytes@.take(0)));
    while i < bytes.len()
        invariant
            i <= bytes@.len(),
            bytes@ == encode_utf8(value@),
            output@ == old(output)@ + seq![34u8] + escaped(bytes@.take(i as int)),
        decreases bytes.len() - i,
    {
        let byte: u8 = bytes[i];
        let ghost before = output@;
        if byte == 34 {
            output.push(92);
            output.push(34);
        } else if byte == 92 {
            output.push(92);
            output.push(92);
        } else if byte == 9 {
            output.push(92);
            output.push(116);
        } else if byte == 10 {
            output.push(92);
            output.push(110);
        } else {
            output.push(byte);
        }
        proof {
            lemma_escaped_step(bytes@, i as int);
            assert(output@ =~= before + escaped_byte(byte));
            assert(output@ =~= old(output)@ + seq![34u8] + escaped(bytes@.take(i as int + 1)));
        }
        i += 1;
    }
    assert(bytes@.take(i as int) =~= bytes@);
    output.push(34);
    assert(output@ =~= old(output)@ + string_json(value@));
}

/// Appends the bytes of a slice.
pub fn append_bytes(bytes: &[u8], output: &mut Vec<u8>)
    ensures
        final(output)@ == old(output)@ + bytes@,
{
    let mut i: usize = 0;
    while i < bytes.len()
        invariant
            i <= bytes@.len(),
            output@ == old(output)@ + bytes@.take(i as int),
        decreases bytes.len() - i,
    {
        output.push(bytes[i]);
        assert(output@ =~= old(output)@ + bytes@.take(i as int + 1));
        i += 1;
    }
    assert(bytes@.take(i as int) =~= bytes@);
}

/// Appends the canonical JSON text of node `index`.
#[verifier::loop_isolation(false)]
pub fn serialize_node(document: &WireJsonDocument, index: usize, output: &mut Vec<u8>)
    requires
        is_post_order(document@.nodes),
        index < document@.nodes.len(),
    ensures
        final(output)@ == old(output)@ + node_json(document@.nodes, index as int),
    decreases index,
{
    let ghost nodes = document@.nodes;
    let ghost start = output@;
    match &document.nodes[index] {
        WireJsonNode::NullValue => {
            output.push(110);
            output.push(117);
            output.push(108);
            output.push(108);
        },
        WireJsonNode::BooleanValue(true) => {
            output.push(116);
            output.push(114);
            output.push(117);
            output.push(101);
        },
        WireJsonNode::BooleanValue(false) => {
            output.push(102);
            output.push(97);
            output.push(108);
            output.push(115);
            output.push(101);
        },
        WireJsonNode::NumberValue(value) => append_bytes(value.as_str().as_bytes(), output),
        WireJsonNode::StringValue(value) => serialize_string(value.as_str(), output),
        WireJsonNode::ArrayValue(array) => {
            output.push(91);
            let mut i: usize = 0;
            assert(output@ =~= start + seq![91u8] + items_json(nodes, index as int, 0));
            while i < array.items.len()
                invariant
                    i <= array.items@.len(),
                    output@ == start + seq![91u8] + items_json(nodes, index as int, i as int),
                decreases array.items.len() - i,
            {
                if i != 0 {
                    output.push(44);
                }
                let ghost before = output@;
                assert(children_of(nodes[index as int])[i as int] < index);
                serialize_node(document, array.items[i] as usize, output);
                proof {
                    let child = node_json(nodes, array.items@[i as int] as int);
                    assert(output@ =~= start + seq![91u8] + items_json(
                        nodes,
                        index as int,
                        i as int + 1,
                    ));
                }
                i += 1;
            }
            output.push(93);
        },
        WireJsonNode::ObjectValue(object) => {
            let ghost fields = nodes[index as int]->Object_0;
            output.push(123);
            let mut i: usize = 0;
            assert(output@ =~= start + seq![123u8] + items_json(nodes, index as int, 0));
            while i < object.fields.len()
                invariant
                    i <= fields.len(),
                    output@ == start + seq![123u8] + items_json(nodes, index as int, i as int),
                decreases object.fields.len() - i,
            {
                if i != 0 {
                    output.push(44);
                }
                let field = &object.fields[i];
                serialize_string(field.key.as_str(), output);
                output.push(58);
                assert(children_of(nodes[index as int])[i as int] < index);
                serialize_node(document, field.value as usize, output);
                assert(output@ =~= start + seq![123u8] + items_json(
                    nodes,
                    index as int,
                    i as int + 1,
                ));
                i += 1;
            }
            output.push(125);
        },
    }
    assert(output@ =~= start + node_json(nodes, index as int));
}

/// The length of a JSON text and the number of bytes it grows by when it is
/// embedded into a JSON string; `Limit` when the length leaves 64 bits.
pub open spec fn size_verdict(json: Seq<u8>) -> ValidationResult<(u64, u64)> {
    if json.len() <= u64::MAX {
        Ok((json.len() as u64, quote_count(json) as u64))
    } else {
        Err(ValidationError::Limit)
    }
}

/// The sum of two numbers, or `Limit` when it leaves 64 bits.
pub fn checked_add(left: u64, right: u64) -> (result: ValidationResult<u64>)
    ensures
        left + right <= u64::MAX ==> result == ValidationResult::<u64>::Ok((left + right) as u64),
        left + right > u64::MAX ==> result == ValidationResult::<u64>::Err(ValidationError::Limit),
{
    match left.checked_add(right) {
        Some(sum) => Ok(sum),
        None => Err(ValidationError::Limit),
    }
}

proof fn lemma_quote_count_escaped_byte(byte: u8)
    ensures
        quote_count(escaped_byte(byte)) == (if byte == 34 || byte == 92 {
            2nat
        } else if byte == 9 || byte == 10 {
            1nat
        } else {
            0nat
        }),
{
    reveal_with_fuel(quote_count, 3);
    let json = escaped_byte(byte);
    if json.len() == 2 {
        assert(json.drop_last() =~= seq![json[0]]);
        assert(json.drop_last().drop_last() =~= Seq::empty());
    } else {
        assert(json.drop_last() =~= Seq::empty());
    }
}

/// The size of the JSON string of a text.
#[verifier::loop_isolation(false)]
pub fn serialized_string_stats(value: &str) -> (result: ValidationResult<(u64, u64)>)
    ensures
        result == size_verdict(string_json(value@)),
{
    let bytes = value.as_bytes();
    let ghost whole = string_json(value@);
    let mut length: u64 = 2;
    let mut escapes: u64 = 2;
    assert(bytes@.take(0) =~= Seq::empty());
    let mut i: usize = 0;
    while i < bytes.len()
        invariant
            i <= bytes@.len(),
            length == 2 + escaped(bytes@.take(i as int)).len(),
            escapes == 2 + quote_count(escaped(bytes@.take(i as int))),
        decreases bytes.len() - i,
    {
        let byte: u8 = bytes[i];
        proof {
            let rest = escaped(bytes@.take(i as int));
            lemma_escaped_step(bytes@, i as int);
            lemma_quote_count_escaped_byte(byte);
            lemma_quote_count_adds(rest, escaped_byte(byte));
            lemma_quote_count_bound(escaped(bytes@.take(i as int + 1)));
        }
        let doubled = byte == 34 || byte == 92;
        let is_escaped = doubled || byte == 9 || byte == 10;
        length = checked_add(
            length,
            if is_escaped {
                2
            } else {
                1
            },
        )?;
        if is_escaped {
            escapes = checked_add(
                escapes,
                if doubled {
                    2
                } else {
                    1
                },
            )?;
        }
        i += 1;
    }
    proof {
        let inner = escaped(bytes@);
        assert(bytes@.take(i as int) =~= bytes@);
        lemma_quote_count_adds(seq![34u8] + inner, seq![34u8]);
        lemma_quote_count_adds(seq![34u8], inner);
        lemma_quote_count_quote();
    }
    Ok((length, escapes))
}

proof fn lemma_quote_count_quote()
    ensures
        quote_count(seq![34u8]) == 1,
{
    reveal_with_fuel(quote_count, 2);
    assert(seq![34u8].drop_last() =~= Seq::empty());
}

proof fn lemma_no_quotes(bytes: Seq<u8>)
    requires
        forall|i: int| 0 <= i < bytes.len() ==> #[trigger] bytes[i] != 34 && bytes[i] != 92,
    ensures
        quote_count(bytes) == 0,
    decreases bytes.len(),
{
    if bytes.len() > 0 {
        lemma_no_quotes(bytes.drop_last());
    }
}

/// Every number node of the document is a canonical number.
pub open spec fn has_canonical_numbers(nodes: Seq<JsonNode>) -> bool {
    forall|i: int|
        0 <= i < nodes.len() ==> ((#[trigger] nodes[i]) matches JsonNode::Number(value)
            ==> is_number_token(encode_utf8(value)))
}

proof fn lemma_digits_hold_no_quotes(bytes: Seq<u8>, from: int)
    requires
        0 <= from <= bytes.len(),
    ensures
        forall|i: int| from <= i < digits_end(bytes, from) ==> is_digit(#[trigger] bytes[i]),
    decreases bytes.len() - from,
{
    if from < bytes.len() && is_digit(bytes[from]) {
        lemma_digits_hold_no_quotes(bytes, from + 1);
    }
}

proof fn lemma_number_holds_no_quotes(bytes: Seq<u8>)
    requires
        is_number_token(bytes),
    ensures
        quote_count(bytes) == 0,
{
    let start = integer_start(bytes);
    let integer_end = digits_end(bytes, start);
    let end = fraction_end(bytes, integer_end);
    lemma_digits_end(bytes, start);
    lemma_digits_hold_no_quotes(bytes, start);
    if integer_end < bytes.len() {
        lemma_digits_end(bytes, integer_end + 1);
        lemma_digits_hold_no_quotes(bytes, integer_end + 1);
    }
    let digits = if end + 1 < bytes.len() && bytes[end + 1] == 45 {
        end + 2
    } else {
        end + 1
    };
    if digits <= bytes.len() {
        lemma_digits_hold_no_quotes(bytes, digits);
    }
    assert forall|i: int| 0 <= i < bytes.len() implies #[trigger] bytes[i] != 34 && bytes[i]
        != 92 by {
        if bytes =~= seq![48u8] {
        } else if i < start {
        } else if i < integer_end {
            assert(is_digit(bytes[i]));
        } else if i < end {
            if i > integer_end {
                assert(is_digit(bytes[i]));
            }
        } else if i >= digits {
            assert(is_digit(bytes[i]));
        }
    }
    lemma_no_quotes(bytes);
}

/// How much a key grows when it is embedded into a JSON string once more.
pub open spec fn key_growth(node: JsonNode, k: int) -> nat {
    match node {
        JsonNode::Object(fields) => quote_count(string_json(fields[k].0)),
        _ => 0,
    }
}

/// How much the text of node `index` grows when it is embedded into a JSON
/// string; number tokens do not grow.
pub open spec fn node_growth(nodes: Seq<JsonNode>, index: int) -> nat
    decreases index, children_of(nodes[index]).len() + 1,
{
    match nodes[index] {
        JsonNode::Text(value) => quote_count(string_json(value)),
        _ => items_growth(nodes, index, children_of(nodes[index]).len() as int),
    }
}

/// The growth of the first `n` children of node `index`.
pub open spec fn items_growth(nodes: Seq<JsonNode>, index: int, n: int) -> nat
    decreases index, n,
{
    if n <= 0 || n > children_of(nodes[index]).len() {
        0
    } else {
        let child = children_of(nodes[index])[n - 1] as int;
        items_growth(nodes, index, n - 1) + key_growth(nodes[index], n - 1) + if 0 <= child
            < index {
            node_growth(nodes, child)
        } else {
            0
        }
    }
}

/// The size of the text of node `index` and its growth, or `Limit` when the
/// size leaves 64 bits.
pub open spec fn node_size_verdict(nodes: Seq<JsonNode>, index: int) -> ValidationResult<
    (u64, u64),
> {
    if node_json(nodes, index).len() <= u64::MAX {
        Ok((node_json(nodes, index).len() as u64, node_growth(nodes, index) as u64))
    } else {
        Err(ValidationError::Limit)
    }
}

proof fn lemma_growth_bound(nodes: Seq<JsonNode>, index: int)
    ensures
        node_growth(nodes, index) <= node_json(nodes, index).len(),
    decreases index, children_of(nodes[index]).len() + 1,
{
    match nodes[index] {
        JsonNode::Text(value) => lemma_quote_count_bound(string_json(value)),
        _ => lemma_items_growth_bound(nodes, index, children_of(nodes[index]).len() as int),
    }
}

proof fn lemma_items_growth_bound(nodes: Seq<JsonNode>, index: int, n: int)
    ensures
        items_growth(nodes, index, n) <= items_json(nodes, index, n).len(),
    decreases index, n,
{
    if 0 < n <= children_of(nodes[index]).len() {
        let child = children_of(nodes[index])[n - 1] as int;
        lemma_items_growth_bound(nodes, index, n - 1);
        if 0 <= child < index {
            lemma_growth_bound(nodes, child);
        }
        match nodes[index] {
            JsonNode::Object(fields) => lemma_quote_count_bound(
                string_json(fields[n - 1].0),
            ),
            _ => {},
        }
    }
}

/// When every number is canonical, the growth of a node is the number of
/// quotes and backslashes in its text.
pub proof fn lemma_growth_counts_quotes(nodes: Seq<JsonNode>, index: int)
    requires
        has_canonical_numbers(nodes),
        0 <= index < nodes.len(),
    ensures
        node_growth(nodes, index) == quote_count(node_json(nodes, index)),
    decreases index, children_of(nodes[index]).len() + 1,
{
    let json = node_json(nodes, index);
    let count = children_of(nodes[index]).len() as int;
    match nodes[index] {
        JsonNode::Text(_) => {},
        JsonNode::Number(_) => lemma_number_holds_no_quotes(json),
        JsonNode::Array(_) => {
            lemma_items_growth_counts_quotes(nodes, index, count);
            lemma_bracketed(91, items_json(nodes, index, count), 93);
        },
        JsonNode::Object(_) => {
            lemma_items_growth_counts_quotes(nodes, index, count);
            lemma_bracketed(123, items_json(nodes, index, count), 125);
        },
        _ => lemma_no_quotes(json),
    }
}

proof fn lemma_items_growth_counts_quotes(nodes: Seq<JsonNode>, index: int, n: int)
    requires
        has_canonical_numbers(nodes),
        0 <= index < nodes.len(),
    ensures
        items_growth(nodes, index, n) == quote_count(items_json(nodes, index, n)),
    decreases index, n,
{
    if 0 < n <= children_of(nodes[index]).len() {
        let child = children_of(nodes[index])[n - 1] as int;
        let before = items_json(nodes, index, n - 1);
        let mark = separator(n - 1);
        let prefix = child_prefix(nodes[index], n - 1);
        lemma_items_growth_counts_quotes(nodes, index, n - 1);
        lemma_no_quotes(mark);
        lemma_quote_count_adds(before, mark);
        lemma_quote_count_adds(before + mark, prefix);
        match nodes[index] {
            JsonNode::Object(fields) => {
                lemma_no_quotes(seq![58u8]);
                lemma_quote_count_adds(string_json(fields[n - 1].0), seq![58u8]);
            },
            _ => {},
        }
        if 0 <= child < index {
            lemma_growth_counts_quotes(nodes, child);
            lemma_quote_count_adds(before + mark + prefix, node_json(nodes, child));
        } else {
            lemma_quote_count_adds(before + mark + prefix, Seq::empty());
        }
    }
}

proof fn lemma_bracketed(open: u8, inner: Seq<u8>, close: u8)
    requires
        open != 34,
        open != 92,
        close != 34,
        close != 92,
    ensures
        quote_count(seq![open] + inner + seq![close]) == quote_count(inner),
{
    lemma_no_quotes(seq![open]);
    lemma_no_quotes(seq![close]);
    lemma_quote_count_adds(seq![open], inner);
    lemma_quote_count_adds(seq![open] + inner, seq![close]);
}

/// The size of the canonical JSON text of node `index`.
#[verifier::loop_isolation(false)]
pub fn serialized_node_stats(document: &WireJsonDocument, index: usize) -> (result:
    ValidationResult<(u64, u64)>)
    requires
        is_post_order(document@.nodes),
        index < document@.nodes.len(),
    ensures
        result == node_size_verdict(document@.nodes, index as int),
    decreases index,
{
    let ghost nodes = document@.nodes;
    let ghost whole = node_json(nodes, index as int);
    let ghost count = children_of(nodes[index as int]).len() as int;
    match &document.nodes[index] {
        WireJsonNode::NullValue => Ok((4, 0)),
        WireJsonNode::BooleanValue(true) => Ok((4, 0)),
        WireJsonNode::BooleanValue(false) => Ok((5, 0)),
        WireJsonNode::NumberValue(value) => Ok(
            (checked_len(value.as_str().as_bytes().len())?, 0),
        ),
        WireJsonNode::StringValue(value) => serialized_string_stats(value.as_str()),
        WireJsonNode::ArrayValue(array) => {
            let mut length: u64 = 2;
            let mut escapes: u64 = 0;
            let mut i: usize = 0;
            while i < array.items.len()
                invariant
                    i <= array.items@.len(),
                    length == 2 + items_json(nodes, index as int, i as int).len(),
                    escapes == items_growth(nodes, index as int, i as int),
                decreases array.items.len() - i,
            {
                proof {
                    lemma_items_grow(nodes, index as int, i as int + 1, count);
                    lemma_items_growth_bound(nodes, index as int, i as int + 1);
                    assert(whole.len() == 2 + items_json(nodes, index as int, count).len());
                    assert(children_of(nodes[index as int])[i as int] < index);
                    lemma_growth_bound(nodes, array.items@[i as int] as int);
                }
                if i != 0 {
                    length = checked_add(length, 1)?;
                }
                let child: (u64, u64) = serialized_node_stats(document, array.items[i] as usize)?;
                length = checked_add(length, child.0)?;
                escapes = checked_add(escapes, child.1)?;
                i += 1;
            }
            Ok((length, escapes))
        },
        WireJsonNode::ObjectValue(object) => {
            let ghost fields = nodes[index as int]->Object_0;
            let mut length: u64 = 2;
            let mut escapes: u64 = 0;
            let mut i: usize = 0;
            while i < object.fields.len()
                invariant
                    i <= fields.len(),
                    length == 2 + items_json(nodes, index as int, i as int).len(),
                    escapes == items_growth(nodes, index as int, i as int),
                decreases object.fields.len() - i,
            {
                proof {
                    lemma_items_grow(nodes, index as int, i as int + 1, count);
                    lemma_items_growth_bound(nodes, index as int, i as int + 1);
                    assert(whole.len() == 2 + items_json(nodes, index as int, count).len());
                    assert(children_of(nodes[index as int])[i as int] < index);
                    lemma_quote_count_bound(string_json(fields[i as int].0));
                    lemma_growth_bound(nodes, fields[i as int].1 as int);
                }
                if i != 0 {
                    length = checked_add(length, 1)?;
                }
                let field = &object.fields[i];
                let key: (u64, u64) = serialized_string_stats(field.key.as_str())?;
                length = checked_add(length, key.0)?;
                escapes = checked_add(escapes, key.1)?;
                length = checked_add(length, 1)?;
                let child: (u64, u64) = serialized_node_stats(document, field.value as usize)?;
                length = checked_add(length, child.0)?;
                escapes = checked_add(escapes, child.1)?;
                i += 1;
            }
            Ok((length, escapes))
        },
    }
}

/// The length of the canonical JSON text of node `index`.
pub fn serialized_node_length(document: &WireJsonDocument, index: usize) -> (result:
    ValidationResult<u64>)
    requires
        is_post_order(document@.nodes),
        index < document@.nodes.len(),
    ensures
        node_json(document@.nodes, index as int).len() <= u64::MAX ==> result == ValidationResult::<
            u64,
        >::Ok(node_json(document@.nodes, index as int).len() as u64),
        node_json(document@.nodes, index as int).len() > u64::MAX ==> result == ValidationResult::<
            u64,
        >::Err(ValidationError::Limit),
{
    let stats: (u64, u64) = serialized_node_stats(document, index)?;
    Ok(stats.0)
}

proof fn lemma_walk_nodes_numbers(
    nodes: Seq<JsonNode>,
    i: int,
    parents: Seq<u32>,
    depths: Seq<u8>,
    tally: Tally,
)
    requires
        0 <= i,
        walk_nodes(nodes, i, parents, depths, tally).0.verdict is Ok,
    ensures
        forall|p: int|
            i <= p < nodes.len() ==> ((#[trigger] nodes[p]) matches JsonNode::Number(value)
                ==> is_number_token(encode_utf8(value))),
    decreases nodes.len() - i,
{
    if i < nodes.len() {
        let walk = walk_node(i, nodes[i], parents, depths, tally);
        let depth = depth_over(nodes[i], depths);
        let checked = walk.0.ensure(depth <= MAX_WIRE_DEPTH, ValidationError::Limit);
        lemma_walk_nodes_numbers(nodes, i + 1, walk.1, depths.push(depth as u8), checked);
    }
}

/// In a valid document every number is a canonical number.
pub proof fn lemma_valid_document_has_canonical_numbers(
    document: JsonDocument,
    object_root: bool,
)
    requires
        wire_verdict(document, object_root) is Ok,
    ensures
        has_canonical_numbers(document.nodes),
{
    let nodes = document.nodes;
    lemma_walk_nodes_numbers(
        nodes,
        0,
        Seq::new(nodes.len(), |i: int| 0u32),
        Seq::empty(),
        (Tally { value: 0, limit: MAX_LOGICAL_CHARGE as int, verdict: Ok(()) }).charge(4).charge(4),
    );
}

/// The canonical JSON text of a document.
pub open spec fn document_json(document: JsonDocument) -> Seq<u8> {
    node_json(document.nodes, document.root as int)
}

/// Writes the canonical JSON text of a document whose length is known.
pub fn serialize_sized(document: &WireJsonDocument, length: u64) -> (result: ValidationResult<
    Vec<u8>,
>)
    requires
        is_post_order(document@.nodes),
        document.root < document@.nodes.len(),
    ensures
        match result {
            Ok(output) => length <= MAX_LOGICAL_CHARGE && document_json(document@).len() == length
                && output@ == document_json(document@),
            Err(ValidationError::Limit) => length > MAX_LOGICAL_CHARGE,
            Err(ValidationError::InvalidArgument) => length <= MAX_LOGICAL_CHARGE && document_json(
                document@,
            ).len() != length,
        },
{
    if length > MAX_LOGICAL_CHARGE {
        return Err(ValidationError::Limit);
    }
    let capacity: usize = length as usize;
    let mut output: Vec<u8> = Vec::with_capacity(capacity);
    serialize_node(document, document.root as usize, &mut output);
    assert(output@ =~= document_json(document@));
    if output.len() != capacity {
        return Err(ValidationError::InvalidArgument);
    }
    Ok(output)
}

/// The verdict on serializing a document: its own verdict, then `Limit` when
/// its text is longer than the largest charge.
pub open spec fn serialization_verdict(document: JsonDocument) -> ValidationResult {
    match wire_verdict(document, false) {
        Err(error) => Err(error),
        Ok(_) => verdict(
            document_json(document).len() <= MAX_LOGICAL_CHARGE,
            ValidationError::Limit,
        ),
    }
}

/// The canonical JSON text of a valid document.
pub fn canonical_serialize(document: &WireJsonDocument) -> (result: ValidationResult<Vec<u8>>)
    ensures
        match result {
            Ok(output) => serialization_verdict(document@) is Ok && output@ == document_json(
                document@,
            ),
            Err(error) => serialization_verdict(document@) == ValidationResult::<()>::Err(error),
        },
{
    validate_wire_json(document, false)?;
    proof {
        lemma_valid_document_is_post_order(document@, false);
    }
    let length: u64 = serialized_node_length(document, document.root as usize)?;
    serialize_sized(document, length)
}

/// The verdict on embedding the text of a document into a JSON string.
pub open spec fn embedding_verdict(document: JsonDocument) -> ValidationResult {
    let json = document_json(document);
    match wire_verdict(document, true) {
        Err(error) => Err(error),
        Ok(_) => verdict(
            2 + json.len() + quote_count(json) <= MAX_LOGICAL_CHARGE,
            ValidationError::Limit,
        ),
    }
}

/// The canonical JSON text of a valid object document that still fits when it
/// is embedded into a JSON string.
pub fn canonical_serialize_for_json_string(document: &WireJsonDocument) -> (result:
    ValidationResult<Vec<u8>>)
    ensures
        match result {
            Ok(output) => embedding_verdict(document@) is Ok && output@ == document_json(document@),
            Err(error) => embedding_verdict(document@) == ValidationResult::<()>::Err(error),
        },
{
    validate_wire_json(document, true)?;
    proof {
        lemma_valid_document_is_post_order(document@, true);
        lemma_valid_document_has_canonical_numbers(document@, true);
        lemma_quote_count_bound(document_json(document@));
        lemma_growth_counts_quotes(document@.nodes, document.root as int);
    }
    let (length, escapes): (u64, u64) = serialized_node_stats(document, document.root as usize)?;
    let enclosing: u64 = checked_add(checked_add(2, length)?, escapes)?;
    if enclosing > MAX_LOGICAL_CHARGE {
        return Err(ValidationError::Limit);
    }
    serialize_sized(document, length)
}

} // verus!
