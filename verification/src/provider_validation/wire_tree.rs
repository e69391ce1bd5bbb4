//! Accepted wire documents are exactly the bounded JSON trees.

use vstd::prelude::*;
use vstd::utf8::encode_utf8;

use crate::provider_api::{JsonDocument, JsonNode};
use crate::provider_validation::charge::Tally;
use crate::provider_validation::scalar::{
    is_safe_text, MAX_LOGICAL_CHARGE, MAX_SAFE_TEXT_BYTES,
};
use crate::provider_validation::wire_json::{
    children_of, claim_verdict, claimed, deepest, depth_over, field_tally, is_number_token,
    is_single_rooted, walk_document, walk_fields, walk_items, walk_node, walk_nodes, wire_verdict,
    MAX_KEY_BYTES, MAX_WIRE_DEPTH, MAX_WIRE_NODES,
};
use crate::provider_validation::ValidationError;
use crate::text::{byte_len, bytes_before};

verus! {

// ---------------------------------------------------------------------------
// Trees
// ---------------------------------------------------------------------------

/// Whether a node is named as a child by the first `i` nodes or by the first
/// `k` children of node `i`.
pub open spec fn is_named(nodes: Seq<JsonNode>, i: int, k: int, child: int) -> bool {
    exists|p: int, q: int| #[trigger] names(nodes, i, k, p, q, child)
}

/// Whether child `q` of node `p` is the given one, and comes before child `k`
/// of node `i`.
pub open spec fn names(nodes: Seq<JsonNode>, i: int, k: int, p: int, q: int, child: int) -> bool {
    &&& 0 <= p < nodes.len()
    &&& 0 <= q < children_of(nodes[p]).len()
    &&& p < i || (p == i && q < k)
    &&& children_of(nodes[p])[q] == child
}

/// Whether child `k` of node `i` comes before it and has no other parent
/// before.
pub open spec fn is_fresh(nodes: Seq<JsonNode>, i: int, k: int) -> bool {
    let child = children_of(nodes[i])[k] as int;
    child < i && !is_named(nodes, i, k, child)
}

/// Whether every node has its children before it, and nodes share none.
pub open spec fn has_fresh_children(nodes: Seq<JsonNode>, i: int) -> bool {
    forall|k: int| 0 <= k < children_of(nodes[i]).len() ==> #[trigger] is_fresh(nodes, i, k)
}

/// Whether key `k` of an object is safe, short, and after the key before it.
pub open spec fn has_good_key(fields: Seq<(Seq<char>, u32)>, k: int) -> bool {
    &&& byte_len(fields[k].0) <= MAX_KEY_BYTES
    &&& is_safe_text(fields[k].0)
    &&& k == 0 || bytes_before(encode_utf8(fields[k - 1].0), encode_utf8(fields[k].0))
}

/// Whether the keys, the text or the number of a node are well formed.
pub open spec fn has_good_content(node: JsonNode) -> bool {
    match node {
        JsonNode::Number(value) => is_number_token(encode_utf8(value)),
        JsonNode::Text(value) => byte_len(value) <= MAX_SAFE_TEXT_BYTES && is_safe_text(value),
        JsonNode::Object(fields) => forall|k: int|
            0 <= k < fields.len() ==> #[trigger] has_good_key(fields, k),
        _ => true,
    }
}

/// The depth of a node: one for a scalar, one more than its deepest child for
/// a container.
pub open spec fn node_depth(nodes: Seq<JsonNode>, i: int) -> int
    decreases i, 1int, 0int,
{
    children_depth(nodes, i, children_of(nodes[i]).len() as int) + 1
}

/// The depth of the deepest of the first `k` children of a node.
pub open spec fn children_depth(nodes: Seq<JsonNode>, i: int, k: int) -> int
    decreases i, 0int, k,
{
    if k <= 0 {
        0
    } else {
        let rest = children_depth(nodes, i, k - 1);
        let child = children_of(nodes[i])[k - 1] as int;
        let depth = if 0 <= child < i {
            node_depth(nodes, child)
        } else {
            0
        };
        if rest < depth {
            depth
        } else {
            rest
        }
    }
}

/// The logical charge of the first `k` fields of an object.
pub open spec fn fields_charge(fields: Seq<(Seq<char>, u32)>, k: int) -> int
    decreases k,
{
    if k <= 0 {
        0
    } else {
        fields_charge(fields, k - 1) + 8 + byte_len(fields[k - 1].0)
    }
}

/// The logical charge of a node.
pub open spec fn node_charge(node: JsonNode) -> int {
    match node {
        JsonNode::Null => 4,
        JsonNode::Boolean(_) => 5,
        JsonNode::Number(value) => 8 + byte_len(value) as int,
        JsonNode::Text(value) => 8 + byte_len(value) as int,
        JsonNode::Array(items) => 8 + 4 * items.len() as int,
        JsonNode::Object(fields) => 8 + fields_charge(fields, fields.len() as int),
    }
}

/// The logical charge of the first `n` nodes.
pub open spec fn nodes_charge(nodes: Seq<JsonNode>, n: int) -> int
    decreases n,
{
    if n <= 0 {
        0
    } else {
        nodes_charge(nodes, n - 1) + node_charge(nodes[n - 1])
    }
}

/// Whether a node is well formed and stands in a tree.
pub open spec fn is_good_node(nodes: Seq<JsonNode>, i: int) -> bool {
    &&& has_fresh_children(nodes, i)
    &&& has_good_content(nodes[i])
    &&& node_depth(nodes, i) <= MAX_WIRE_DEPTH
}

/// Whether a document is a bounded JSON tree: its root is the last node, every
/// other node has exactly one parent, which comes after it, and contents,
/// depth and charge are within bounds.
pub open spec fn is_bounded_tree(document: JsonDocument) -> bool {
    let nodes = document.nodes;
    &&& 0 < nodes.len() <= MAX_WIRE_NODES
    &&& document.root == nodes.len() - 1
    &&& forall|i: int| 0 <= i < nodes.len() ==> #[trigger] is_good_node(nodes, i)
    &&& forall|i: int| 0 <= i < nodes.len() - 1 ==> #[trigger] is_named(
        nodes,
        nodes.len() as int,
        0,
        i,
    )
    &&& 8 + nodes_charge(nodes, nodes.len() as int) <= MAX_LOGICAL_CHARGE
}

// ---------------------------------------------------------------------------
// The walk over a document
// ---------------------------------------------------------------------------

/// Whether parent counts say which nodes are named so far.
pub open spec fn counts_names(parents: Seq<u32>, nodes: Seq<JsonNode>, i: int, k: int) -> bool {
    &&& parents.len() == nodes.len()
    &&& forall|child: int|
        0 <= child < nodes.len() ==> #[trigger] parents[child] == (if is_named(nodes, i, k, child) {
            1u32
        } else {
            0u32
        })
}

/// A tally that has not failed and charges a document.
pub open spec fn is_open(tally: Tally) -> bool {
    tally.verdict is Ok && tally.limit == MAX_LOGICAL_CHARGE && 0 <= tally.value
        <= MAX_LOGICAL_CHARGE
}

proof fn lemma_charge(tally: Tally, amount: int)
    requires
        is_open(tally),
        0 <= amount,
    ensures
        tally.charge(amount).verdict is Ok <==> tally.value + amount <= MAX_LOGICAL_CHARGE,
        tally.charge(amount).verdict is Ok ==> is_open(tally.charge(amount)) && tally.charge(
            amount,
        ).value == tally.value + amount,
{
}

proof fn lemma_named_step(nodes: Seq<JsonNode>, i: int, k: int, child: int)
    requires
        0 <= i < nodes.len(),
        0 <= k < children_of(nodes[i]).len(),
    ensures
        is_named(nodes, i, k + 1, child) == (is_named(nodes, i, k, child) || children_of(nodes[i])[k]
            == child),
{
    if is_named(nodes, i, k, child) {
        let (p, q) = choose|p: int, q: int| #[trigger] names(nodes, i, k, p, q, child);
        assert(names(nodes, i, k + 1, p, q, child));
    }
    if children_of(nodes[i])[k] == child {
        assert(names(nodes, i, k + 1, i, k, child));
    }
    if is_named(nodes, i, k + 1, child) {
        let (p, q) = choose|p: int, q: int| #[trigger] names(nodes, i, k + 1, p, q, child);
        if p != i || q != k {
            assert(names(nodes, i, k, p, q, child));
        }
    }
}

proof fn lemma_named_next(nodes: Seq<JsonNode>, i: int, child: int)
    requires
        0 <= i < nodes.len(),
    ensures
        is_named(nodes, i + 1, 0, child) == is_named(
            nodes,
            i,
            children_of(nodes[i]).len() as int,
            child,
        ),
{
    let k = children_of(nodes[i]).len() as int;
    if is_named(nodes, i, k, child) {
        let (p, q) = choose|p: int, q: int| #[trigger] names(nodes, i, k, p, q, child);
        assert(names(nodes, i + 1, 0, p, q, child));
    }
    if is_named(nodes, i + 1, 0, child) {
        let (p, q) = choose|p: int, q: int| #[trigger] names(nodes, i + 1, 0, p, q, child);
        assert(names(nodes, i, k, p, q, child));
    }
}

/// Naming a child succeeds exactly when it is fresh, and keeps the counts.
proof fn lemma_claim(nodes: Seq<JsonNode>, i: int, k: int, parents: Seq<u32>)
    requires
        0 <= i < nodes.len(),
        0 <= k < children_of(nodes[i]).len(),
        counts_names(parents, nodes, i, k),
    ensures
        claim_verdict(i, children_of(nodes[i])[k], parents) is Ok <==> is_fresh(nodes, i, k),
        is_fresh(nodes, i, k) ==> counts_names(
            claimed(i, children_of(nodes[i])[k], parents),
            nodes,
            i,
            k + 1,
        ),
{
    let child = children_of(nodes[i])[k];
    if child < i {
        assert(parents[child as int] == (if is_named(nodes, i, k, child as int) {
            1u32
        } else {
            0u32
        }));
    }
    if is_fresh(nodes, i, k) {
        let after = claimed(i, child, parents);
        assert forall|other: int| 0 <= other < nodes.len() implies #[trigger] after[other] == (
        if is_named(nodes, i, k + 1, other) {
            1u32
        } else {
            0u32
        }) by {
            lemma_named_step(nodes, i, k, other);
            assert(parents[other] == (if is_named(nodes, i, k, other) {
                1u32
            } else {
                0u32
            }));
        }
    }
}

/// Whether the children of node `i` from position `k` on are fresh.
pub open spec fn fresh_from(nodes: Seq<JsonNode>, i: int, k: int) -> bool {
    forall|l: int| k <= l < children_of(nodes[i]).len() ==> #[trigger] is_fresh(nodes, i, l)
}

proof fn lemma_items_walk(
    nodes: Seq<JsonNode>,
    i: int,
    items: Seq<u32>,
    k: int,
    parents: Seq<u32>,
    tally: Tally,
)
    requires
        0 <= i < nodes.len(),
        nodes[i] == JsonNode::Array(items),
        0 <= k <= items.len(),
        counts_names(parents, nodes, i, k),
        is_open(tally),
    ensures
        ({
            let walk = walk_items(i, items, k, parents, tally);
            &&& walk.0.verdict is Ok <==> fresh_from(nodes, i, k) && tally.value + 4 * (items.len()
                - k) <= MAX_LOGICAL_CHARGE
            &&& walk.0.verdict is Ok ==> is_open(walk.0) && walk.0.value == tally.value + 4 * (
            items.len() - k) && counts_names(walk.1, nodes, i, items.len() as int)
        }),
    decreases items.len() - k,
{
    if k < items.len() {
        lemma_charge(tally, 4);
        let charged = tally.charge(4);
        if charged.verdict is Ok {
            lemma_claim(nodes, i, k, parents);
            if is_fresh(nodes, i, k) {
                lemma_items_walk(
                    nodes,
                    i,
                    items,
                    k + 1,
                    claimed(i, items[k], parents),
                    charged.check(claim_verdict(i, items[k], parents)),
                );
                assert(fresh_from(nodes, i, k) == fresh_from(nodes, i, k + 1));
            } else {
                reveal_with_fuel(walk_items, 2);
            }
        }
    }
}

/// Whether the keys of an object from position `k` on are well formed.
pub open spec fn good_keys_from(fields: Seq<(Seq<char>, u32)>, k: int) -> bool {
    forall|l: int| k <= l < fields.len() ==> #[trigger] has_good_key(fields, l)
}

proof fn lemma_fields_charge_grows(fields: Seq<(Seq<char>, u32)>, k: int, n: int)
    requires
        0 <= k <= n <= fields.len(),
    ensures
        fields_charge(fields, k) + 8 * (n - k) <= fields_charge(fields, n),
    decreases n - k,
{
    if k < n {
        lemma_fields_charge_grows(fields, k, n - 1);
    }
}

proof fn lemma_field(fields: Seq<(Seq<char>, u32)>, k: int, tally: Tally)
    requires
        0 <= k < fields.len(),
        is_open(tally),
    ensures
        ({
            let checked = field_tally(fields, k, tally);
            &&& checked.verdict is Ok <==> has_good_key(fields, k) && tally.value + 8 + byte_len(
                fields[k].0,
            ) <= MAX_LOGICAL_CHARGE
            &&& checked.verdict is Ok ==> is_open(checked) && checked.value == tally.value + 8
                + byte_len(fields[k].0)
        }),
{
    lemma_charge(tally, 4);
    if tally.charge(4).verdict is Ok {
        lemma_charge(tally.charge(4), byte_len(fields[k].0) as int);
        if tally.string(fields[k].0).verdict is Ok {
            lemma_charge(tally.string(fields[k].0), 4);
        }
    }
}

proof fn lemma_fields_walk(
    nodes: Seq<JsonNode>,
    i: int,
    fields: Seq<(Seq<char>, u32)>,
    k: int,
    parents: Seq<u32>,
    tally: Tally,
)
    requires
        0 <= i < nodes.len(),
        nodes[i] == JsonNode::Object(fields),
        0 <= k <= fields.len(),
        counts_names(parents, nodes, i, k),
        is_open(tally),
    ensures
        ({
            let walk = walk_fields(i, fields, k, parents, tally);
            let charge = fields_charge(fields, fields.len() as int) - fields_charge(fields, k);
            &&& walk.0.verdict is Ok <==> fresh_from(nodes, i, k) && good_keys_from(fields, k)
                && tally.value + charge <= MAX_LOGICAL_CHARGE
            &&& walk.0.verdict is Ok ==> is_open(walk.0) && walk.0.value == tally.value + charge
                && counts_names(walk.1, nodes, i, fields.len() as int)
        }),
    decreases fields.len() - k,
{
    if k < fields.len() {
        lemma_field(fields, k, tally);
        lemma_fields_charge_grows(fields, k + 1, fields.len() as int);
        let checked = field_tally(fields, k, tally);
        assert(children_of(nodes[i])[k] == fields[k].1);
        assert(fields_charge(fields, k + 1) == fields_charge(fields, k) + 8 + byte_len(
            fields[k].0,
        ));
        if checked.verdict is Ok {
            lemma_claim(nodes, i, k, parents);
            if is_fresh(nodes, i, k) {
                lemma_fields_walk(
                    nodes,
                    i,
                    fields,
                    k + 1,
                    claimed(i, fields[k].1, parents),
                    checked.check(claim_verdict(i, fields[k].1, parents)),
                );
                assert(fresh_from(nodes, i, k) == fresh_from(nodes, i, k + 1));
                assert(good_keys_from(fields, k) == good_keys_from(fields, k + 1));
            } else {
                reveal_with_fuel(walk_fields, 2);
            }
        }
    }
}

/// Whether depths are those of the first nodes, and all within the bound.
pub open spec fn knows_depths(depths: Seq<u8>, nodes: Seq<JsonNode>, n: int) -> bool {
    &&& depths.len() == n
    &&& forall|i: int|
        0 <= i < n ==> #[trigger] depths[i] == node_depth(nodes, i) && 1 <= depths[i]
            <= MAX_WIRE_DEPTH
}

proof fn lemma_deepest(nodes: Seq<JsonNode>, i: int, k: int, depths: Seq<u8>)
    requires
        0 <= i < nodes.len(),
        0 <= k <= children_of(nodes[i]).len(),
        forall|l: int| 0 <= l < k ==> #[trigger] children_of(nodes[i])[l] < i,
        knows_depths(depths, nodes, i),
    ensures
        deepest(children_of(nodes[i]).take(k), depths) == children_depth(nodes, i, k),
        0 <= children_depth(nodes, i, k) <= MAX_WIRE_DEPTH,
    decreases k,
{
    let children = children_of(nodes[i]);
    if k > 0 {
        lemma_deepest(nodes, i, k - 1, depths);
        assert(children.take(k).drop_last() =~= children.take(k - 1));
        assert(children.take(k).last() == children[k - 1]);
        let child = children[k - 1] as int;
        assert(depths[child] == node_depth(nodes, child));
    }
}

proof fn lemma_depth(nodes: Seq<JsonNode>, i: int, depths: Seq<u8>)
    requires
        0 <= i < nodes.len(),
        has_fresh_children(nodes, i),
        knows_depths(depths, nodes, i),
    ensures
        depth_over(nodes[i], depths) == node_depth(nodes, i),
        1 <= node_depth(nodes, i) <= MAX_WIRE_DEPTH + 1,
        deepest(children_of(nodes[i]), depths) < 255,
{
    let children = children_of(nodes[i]);
    assert forall|l: int| 0 <= l < children.len() implies #[trigger] children[l] < i by {
        assert(is_fresh(nodes, i, l));
    }
    lemma_deepest(nodes, i, children.len() as int, depths);
    assert(children.take(children.len() as int) =~= children);
}

proof fn lemma_node_walk(
    nodes: Seq<JsonNode>,
    i: int,
    parents: Seq<u32>,
    depths: Seq<u8>,
    tally: Tally,
)
    requires
        0 <= i < nodes.len(),
        counts_names(parents, nodes, i, 0),
        knows_depths(depths, nodes, i),
        is_open(tally),
    ensures
        ({
            let walk = walk_node(i, nodes[i], parents, depths, tally);
            &&& walk.0.verdict is Ok <==> has_fresh_children(nodes, i) && has_good_content(nodes[i])
                && tally.value + node_charge(nodes[i]) <= MAX_LOGICAL_CHARGE
            &&& walk.0.verdict is Ok ==> is_open(walk.0) && walk.0.value == tally.value
                + node_charge(nodes[i]) && counts_names(walk.1, nodes, i + 1, 0)
        }),
{
    let tagged = tally.charge(4);
    lemma_charge(tally, 4);
    match nodes[i] {
        JsonNode::Null => {
            lemma_counts_next(nodes, i, parents);
        },
        JsonNode::Boolean(_) => {
            if tagged.verdict is Ok {
                lemma_charge(tagged, 1);
            }
            lemma_counts_next(nodes, i, parents);
        },
        JsonNode::Number(value) => {
            if tagged.verdict is Ok {
                lemma_charge(tagged, 4);
                if tagged.charge(4).verdict is Ok {
                    lemma_charge(tagged.charge(4), byte_len(value) as int);
                }
            }
            lemma_counts_next(nodes, i, parents);
        },
        JsonNode::Text(value) => {
            if tagged.verdict is Ok {
                lemma_charge(tagged, 4);
                if tagged.charge(4).verdict is Ok {
                    lemma_charge(tagged.charge(4), byte_len(value) as int);
                }
            }
            lemma_counts_next(nodes, i, parents);
        },
        JsonNode::Array(items) => {
            if tagged.verdict is Ok {
                lemma_charge(tagged, 4);
                if tagged.charge(4).verdict is Ok {
                    lemma_items_walk(nodes, i, items, 0, parents, tagged.charge(4));
                    assert(fresh_from(nodes, i, 0) == has_fresh_children(nodes, i));
                    let walk = walk_items(i, items, 0, parents, tagged.charge(4));
                    if walk.0.verdict is Ok {
                        lemma_depth(nodes, i, depths);
                        lemma_counts_after(nodes, i, walk.1);
                    }
                }
            }
        },
        JsonNode::Object(fields) => {
            lemma_fields_charge_grows(fields, 0, fields.len() as int);
            if tagged.verdict is Ok {
                lemma_charge(tagged, 4);
                if tagged.charge(4).verdict is Ok {
                    lemma_fields_walk(nodes, i, fields, 0, parents, tagged.charge(4));
                    assert(fresh_from(nodes, i, 0) == has_fresh_children(nodes, i));
                    assert(good_keys_from(fields, 0) == has_good_content(nodes[i]));
                    let walk = walk_fields(i, fields, 0, parents, tagged.charge(4));
                    if walk.0.verdict is Ok {
                        lemma_depth(nodes, i, depths);
                        lemma_counts_after(nodes, i, walk.1);
                    }
                }
            }
        },
    }
}

proof fn lemma_counts_after(nodes: Seq<JsonNode>, i: int, parents: Seq<u32>)
    requires
        0 <= i < nodes.len(),
        counts_names(parents, nodes, i, children_of(nodes[i]).len() as int),
    ensures
        counts_names(parents, nodes, i + 1, 0),
{
    let k = children_of(nodes[i]).len() as int;
    assert forall|child: int| 0 <= child < nodes.len() implies #[trigger] parents[child] == (
    if is_named(nodes, i + 1, 0, child) {
        1u32
    } else {
        0u32
    }) by {
        lemma_named_next(nodes, i, child);
        assert(parents[child] == (if is_named(nodes, i, k, child) {
            1u32
        } else {
            0u32
        }));
    }
}

proof fn lemma_counts_next(nodes: Seq<JsonNode>, i: int, parents: Seq<u32>)
    requires
        0 <= i < nodes.len(),
        children_of(nodes[i]).len() == 0,
        counts_names(parents, nodes, i, 0),
    ensures
        counts_names(parents, nodes, i + 1, 0),
        has_fresh_children(nodes, i),
{
    lemma_counts_after(nodes, i, parents);
}

/// Whether the nodes from position `i` on are well formed.
pub open spec fn good_from(nodes: Seq<JsonNode>, i: int) -> bool {
    forall|p: int| i <= p < nodes.len() ==> #[trigger] is_good_node(nodes, p)
}

proof fn lemma_nodes_charge_grows(nodes: Seq<JsonNode>, i: int, n: int)
    requires
        0 <= i <= n <= nodes.len(),
    ensures
        nodes_charge(nodes, i) <= nodes_charge(nodes, n),
    decreases n - i,
{
    if i < n {
        lemma_nodes_charge_grows(nodes, i, n - 1);
        match nodes[n - 1] {
            JsonNode::Object(fields) => {
                lemma_fields_charge_grows(fields, 0, fields.len() as int);
            },
            _ => {},
        }
    }
}

proof fn lemma_nodes_walk(
    nodes: Seq<JsonNode>,
    i: int,
    parents: Seq<u32>,
    depths: Seq<u8>,
    tally: Tally,
)
    requires
        0 <= i <= nodes.len(),
        counts_names(parents, nodes, i, 0),
        knows_depths(depths, nodes, i),
        is_open(tally),
    ensures
        ({
            let walk = walk_nodes(nodes, i, parents, depths, tally);
            let charge = nodes_charge(nodes, nodes.len() as int) - nodes_charge(nodes, i);
            &&& walk.0.verdict is Ok <==> good_from(nodes, i) && tally.value + charge
                <= MAX_LOGICAL_CHARGE
            &&& walk.0.verdict is Ok ==> walk.0.value == tally.value + charge && counts_names(
                walk.1,
                nodes,
                nodes.len() as int,
                0,
            ) && knows_depths(walk.2, nodes, nodes.len() as int)
        }),
    decreases nodes.len() - i,
{
    if i < nodes.len() {
        lemma_node_walk(nodes, i, parents, depths, tally);
        lemma_nodes_charge_grows(nodes, i + 1, nodes.len() as int);
        let walk = walk_node(i, nodes[i], parents, depths, tally);
        let depth = depth_over(nodes[i], depths);
        if walk.0.verdict is Ok {
            lemma_depth(nodes, i, depths);
            let checked = walk.0.ensure(depth <= MAX_WIRE_DEPTH, ValidationError::Limit);
            if checked.verdict is Ok {
                assert(knows_depths(depths.push(depth as u8), nodes, i + 1));
                lemma_nodes_walk(nodes, i + 1, walk.1, depths.push(depth as u8), checked);
                assert(is_good_node(nodes, i));
                assert(good_from(nodes, i) == good_from(nodes, i + 1));
            } else {
                assert(!is_good_node(nodes, i));
            }
        } else {
            if good_from(nodes, i) {
                assert(is_good_node(nodes, i));
            }
        }
    }
}

/// A document is accepted exactly when it is a bounded JSON tree, with an
/// object at its root where one is asked for. Its charge and depth are those
/// of the tree.
pub proof fn lemma_accepted_documents_are_trees(document: JsonDocument, object_root: bool)
    ensures
        wire_verdict(document, object_root) is Ok <==> is_bounded_tree(document) && (object_root
            ==> document.nodes.last() is Object),
        wire_verdict(document, object_root) matches Ok(stats) ==> stats.logical_charge == 8
            + nodes_charge(document.nodes, document.nodes.len() as int) && stats.depth
            == node_depth(document.nodes, document.root as int),
{
    let nodes = document.nodes;
    if 0 < nodes.len() <= MAX_WIRE_NODES {
        let parents = Seq::new(nodes.len(), |i: int| 0u32);
        let start = (Tally { value: 0, limit: MAX_LOGICAL_CHARGE as int, verdict: Ok(()) }).charge(
            4,
        ).charge(4);
        assert(counts_names(parents, nodes, 0, 0)) by {
            assert forall|child: int| 0 <= child < nodes.len() implies !#[trigger] is_named(
                nodes,
                0,
                0,
                child,
            ) by {
                if is_named(nodes, 0, 0, child) {
                    let (p, q) = choose|p: int, q: int| #[trigger] names(nodes, 0, 0, p, q, child);
                    assert(false);
                }
            }
        }
        assert(knows_depths(Seq::empty(), nodes, 0));
        lemma_nodes_walk(nodes, 0, parents, Seq::empty(), start);
        let walk = walk_document(nodes);
        if walk.0.verdict is Ok {
            assert(good_from(nodes, 0));
            lemma_root_has_no_parent(nodes);
            lemma_nodes_charge_grows(nodes, 0, nodes.len() as int);
            let n = nodes.len() as int;
            if is_single_rooted(walk.1) {
                assert forall|i: int| 0 <= i < n - 1 implies #[trigger] is_named(nodes, n, 0, i) by {
                    assert(walk.1[i] == 1);
                }
            }
            if forall|i: int| 0 <= i < n - 1 ==> #[trigger] is_named(nodes, n, 0, i) {
                assert forall|i: int| 0 <= i < n - 1 implies #[trigger] walk.1[i] == 1 by {
                    assert(is_named(nodes, n, 0, i));
                }
            }
            assert(walk.1[n - 1] == 0u32);
            assert(walk.2[n - 1] == node_depth(nodes, n - 1));
        } else {
            assert(good_from(nodes, 0) == (forall|i: int|
                0 <= i < nodes.len() ==> #[trigger] is_good_node(nodes, i)));
        }
    }
}

proof fn lemma_root_has_no_parent(nodes: Seq<JsonNode>)
    requires
        nodes.len() > 0,
        good_from(nodes, 0),
    ensures
        !is_named(nodes, nodes.len() as int, 0, nodes.len() - 1),
{
    let n = nodes.len() as int;
    if is_named(nodes, n, 0, n - 1) {
        let (p, q) = choose|p: int, q: int| #[trigger] names(nodes, n, 0, p, q, n - 1);
        assert(is_good_node(nodes, p));
        assert(is_fresh(nodes, p, q));
    }
}

/// In a bounded tree a node is named once: two places that name it are the
/// same.
pub proof fn lemma_nodes_have_one_parent(document: JsonDocument, p: int, q: int, r: int, s: int)
    requires
        is_bounded_tree(document),
        0 <= p < document.nodes.len(),
        0 <= q < children_of(document.nodes[p]).len(),
        0 <= r < document.nodes.len(),
        0 <= s < children_of(document.nodes[r]).len(),
        children_of(document.nodes[p])[q] == children_of(document.nodes[r])[s],
    ensures
        p == r,
        q == s,
{
    let nodes = document.nodes;
    let child = children_of(nodes[p])[q] as int;
    assert(is_good_node(nodes, p));
    assert(is_good_node(nodes, r));
    assert(is_fresh(nodes, p, q));
    assert(is_fresh(nodes, r, s));
    if p < r || (p == r && q < s) {
        assert(names(nodes, r, s, p, q, child));
    }
    if r < p || (p == r && s < q) {
        assert(names(nodes, p, q, r, s, child));
    }
}

// ---------------------------------------------------------------------------
// Measures of a tree
// ---------------------------------------------------------------------------

/// The number of nodes under a node, with the node itself.
pub open spec fn tree_size(nodes: Seq<JsonNode>, i: int) -> int
    decreases i, 1int, 0int,
{
    children_size(nodes, i, children_of(nodes[i]).len() as int) + 1
}

/// The number of nodes under the first `n` children of a node.
pub open spec fn children_size(nodes: Seq<JsonNode>, i: int, n: int) -> int
    decreases i, 0int, n,
{
    if n <= 0 {
        0
    } else {
        let child = children_of(nodes[i])[n - 1] as int;
        children_size(nodes, i, n - 1) + if 0 <= child < i {
            tree_size(nodes, child)
        } else {
            0
        }
    }
}

/// The logical charge of the nodes under a node, with the node itself.
pub open spec fn tree_charge(nodes: Seq<JsonNode>, i: int) -> int
    decreases i, 1int, 0int,
{
    children_charge(nodes, i, children_of(nodes[i]).len() as int) + node_charge(nodes[i])
}

/// The logical charge of the nodes under the first `n` children of a node.
pub open spec fn children_charge(nodes: Seq<JsonNode>, i: int, n: int) -> int
    decreases i, 0int, n,
{
    if n <= 0 {
        0
    } else {
        let child = children_of(nodes[i])[n - 1] as int;
        children_charge(nodes, i, n - 1) + if 0 <= child < i {
            tree_charge(nodes, child)
        } else {
            0
        }
    }
}

/// The weights of those among the first `c` nodes that are not named by the
/// first `n` nodes and the first `k` children of node `n`.
spec fn unnamed_weight(
    nodes: Seq<JsonNode>,
    n: int,
    k: int,
    c: int,
    weight: spec_fn(int) -> int,
) -> int
    decreases c,
{
    if c <= 0 {
        0
    } else {
        unnamed_weight(nodes, n, k, c - 1, weight) + if is_named(nodes, n, k, c - 1) {
            0
        } else {
            weight(c - 1)
        }
    }
}

/// The weights of the first `k` children of a node.
spec fn children_weight(nodes: Seq<JsonNode>, n: int, k: int, weight: spec_fn(int) -> int) -> int
    decreases k,
{
    if k <= 0 {
        0
    } else {
        children_weight(nodes, n, k - 1, weight) + weight(children_of(nodes[n])[k - 1] as int)
    }
}

/// The own weights of the first `n` nodes: what each has beyond its children.
spec fn own_weight(nodes: Seq<JsonNode>, n: int, weight: spec_fn(int) -> int) -> int
    decreases n,
{
    if n <= 0 {
        0
    } else {
        own_weight(nodes, n - 1, weight) + weight(n - 1) - children_weight(
            nodes,
            n - 1,
            children_of(nodes[n - 1]).len() as int,
            weight,
        )
    }
}

proof fn lemma_naming_takes_weight(
    nodes: Seq<JsonNode>,
    n: int,
    k: int,
    c: int,
    weight: spec_fn(int) -> int,
)
    requires
        0 <= n < nodes.len(),
        0 <= k < children_of(nodes[n]).len(),
        is_fresh(nodes, n, k),
        0 <= c,
    ensures
        unnamed_weight(nodes, n, k + 1, c, weight) == unnamed_weight(nodes, n, k, c, weight) - (
        if children_of(nodes[n])[k] < c {
            weight(children_of(nodes[n])[k] as int)
        } else {
            0
        }),
    decreases c,
{
    if c > 0 {
        lemma_naming_takes_weight(nodes, n, k, c - 1, weight);
        lemma_named_step(nodes, n, k, c - 1);
    }
}

proof fn lemma_naming_takes_weights(
    nodes: Seq<JsonNode>,
    n: int,
    k: int,
    weight: spec_fn(int) -> int,
)
    requires
        0 <= n < nodes.len(),
        0 <= k <= children_of(nodes[n]).len(),
        has_fresh_children(nodes, n),
    ensures
        unnamed_weight(nodes, n, k, n, weight) == unnamed_weight(nodes, n, 0, n, weight)
            - children_weight(nodes, n, k, weight),
    decreases k,
{
    if k > 0 {
        lemma_naming_takes_weights(nodes, n, k - 1, weight);
        assert(is_fresh(nodes, n, k - 1));
        lemma_naming_takes_weight(nodes, n, k - 1, n, weight);
    }
}

proof fn lemma_unnamed_next(nodes: Seq<JsonNode>, n: int, c: int, weight: spec_fn(int) -> int)
    requires
        0 <= n < nodes.len(),
    ensures
        unnamed_weight(nodes, n + 1, 0, c, weight) == unnamed_weight(
            nodes,
            n,
            children_of(nodes[n]).len() as int,
            c,
            weight,
        ),
    decreases c,
{
    if c > 0 {
        lemma_unnamed_next(nodes, n, c - 1, weight);
        lemma_named_next(nodes, n, c - 1);
    }
}

proof fn lemma_unnamed_is_own(nodes: Seq<JsonNode>, n: int, weight: spec_fn(int) -> int)
    requires
        0 <= n <= nodes.len(),
        good_from(nodes, 0),
    ensures
        unnamed_weight(nodes, n, 0, n, weight) == own_weight(nodes, n, weight),
    decreases n,
{
    if n > 0 {
        let p = n - 1;
        lemma_unnamed_is_own(nodes, p, weight);
        assert(is_good_node(nodes, p));
        lemma_naming_takes_weights(nodes, p, children_of(nodes[p]).len() as int, weight);
        lemma_unnamed_next(nodes, p, p, weight);
        if is_named(nodes, n, 0, p) {
            let (r, q) = choose|r: int, q: int| #[trigger] names(nodes, n, 0, r, q, p);
            assert(is_good_node(nodes, r));
            assert(is_fresh(nodes, r, q));
        }
    }
}

proof fn lemma_root_weight(nodes: Seq<JsonNode>, c: int, weight: spec_fn(int) -> int)
    requires
        0 <= c < nodes.len(),
        forall|i: int| 0 <= i < nodes.len() - 1 ==> #[trigger] is_named(
            nodes,
            nodes.len() as int,
            0,
            i,
        ),
    ensures
        unnamed_weight(nodes, nodes.len() as int, 0, c, weight) == 0,
    decreases c,
{
    if c > 0 {
        lemma_root_weight(nodes, c - 1, weight);
    }
}

proof fn lemma_tree_weight(document: JsonDocument, weight: spec_fn(int) -> int)
    requires
        is_bounded_tree(document),
    ensures
        weight(document.root as int) == own_weight(
            document.nodes,
            document.nodes.len() as int,
            weight,
        ),
{
    let nodes = document.nodes;
    let n = nodes.len() as int;
    assert(good_from(nodes, 0));
    lemma_unnamed_is_own(nodes, n, weight);
    lemma_root_weight(nodes, n - 1, weight);
    lemma_root_has_no_parent(nodes);
}

proof fn lemma_children_sizes(nodes: Seq<JsonNode>, i: int, n: int)
    requires
        good_from(nodes, 0),
        0 <= i < nodes.len(),
        0 <= n <= children_of(nodes[i]).len(),
    ensures
        children_weight(nodes, i, n, |p: int| tree_size(nodes, p)) == children_size(nodes, i, n),
        children_weight(nodes, i, n, |p: int| tree_charge(nodes, p)) == children_charge(
            nodes,
            i,
            n,
        ),
    decreases n,
{
    if n > 0 {
        lemma_children_sizes(nodes, i, n - 1);
        assert(is_good_node(nodes, i));
        assert(is_fresh(nodes, i, n - 1));
    }
}

proof fn lemma_own_sizes(nodes: Seq<JsonNode>, n: int)
    requires
        good_from(nodes, 0),
        0 <= n <= nodes.len(),
    ensures
        own_weight(nodes, n, |p: int| tree_size(nodes, p)) == n,
        own_weight(nodes, n, |p: int| tree_charge(nodes, p)) == nodes_charge(nodes, n),
    decreases n,
{
    if n > 0 {
        lemma_own_sizes(nodes, n - 1);
        lemma_children_sizes(nodes, n - 1, children_of(nodes[n - 1]).len() as int);
    }
}

/// The tree under the root of a bounded tree holds every node of the document
/// once: its size and its charge are those of the list of nodes.
pub proof fn lemma_trees_hold_every_node(document: JsonDocument)
    requires
        is_bounded_tree(document),
    ensures
        tree_size(document.nodes, document.root as int) == document.nodes.len(),
        tree_charge(document.nodes, document.root as int) == nodes_charge(
            document.nodes,
            document.nodes.len() as int,
        ),
{
    let nodes = document.nodes;
    assert(good_from(nodes, 0));
    lemma_own_sizes(nodes, nodes.len() as int);
    lemma_tree_weight(document, |p: int| tree_size(nodes, p));
    lemma_tree_weight(document, |p: int| tree_charge(nodes, p));
}

} // verus!
