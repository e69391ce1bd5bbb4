//! Where the nodes of valid contracts stand.

use vstd::prelude::*;

use crate::provider_validation::adapter::semantics::{
    closed_case, entered_array, in_tool_result, innermost_case, inside_case, inside_node,
    is_legal_scalar, is_legal_switch, is_legal_wrapper, is_mistral_result, item_scope, opened_case,
    references_of, semantics_verdict, walk, walk_cases, walk_children, Accounts, LexicalScope,
    MistralAccounting, RootCollectionAccounting, Surroundings,
};
use crate::provider_validation::adapter::structure::{
    has_parent, is_contract_tree, is_switch_on, lemma_valid_contract_is_a_tree, tree_verdict,
};
use crate::provider_validation::adapter::types::{
    AdapterCollection, AdapterContractV1, AdapterScalarSource, AdapterVariantSource, AdapterWireId,
    ContractNode, ContractNodeBody, ContractSwitch,
};

verus! {

// ---------------------------------------------------------------------------
// Surroundings
// ---------------------------------------------------------------------------

/// What encloses the root: nothing.
pub open spec fn around_root() -> Surroundings {
    Surroundings { scope: LexicalScope::Root, cases: Seq::empty(), wrappers: Seq::empty() }
}

/// The case of a switch that leads to a node.
pub open spec fn case_to(switch: ContractSwitch, child: int) -> int {
    choose|k: int| 0 <= k < switch.cases@.len() && (#[trigger] switch.cases@[k]).node == child
}

/// What encloses a child of a node that itself stands in `around`.
pub open spec fn around_child(node: ContractNode, child: int, around: Surroundings) -> Surroundings {
    let inside = inside_node(node, around);
    match node.body {
        ContractNodeBody::Array(array) => Surroundings {
            scope: match item_scope(array.collection, inside) {
                Some(scope) => scope,
                None => inside.scope,
            },
            ..inside
        },
        ContractNodeBody::Switch(switch) => inside_case(
            switch.source,
            switch.cases@[case_to(switch, child)].variant_ordinal,
            inside,
        ),
        _ => inside,
    }
}

/// What encloses node `index` of a tree.
pub open spec fn around_node(nodes: Seq<ContractNode>, index: int) -> Surroundings
    decreases nodes.len() - index,
{
    match nodes[index].parent {
        Some(parent) => if 0 <= index < parent < nodes.len() {
            around_child(nodes[parent as int], index, around_node(nodes, parent as int))
        } else {
            around_root()
        },
        None => around_root(),
    }
}

/// Whether node `index` may stand where it stands: under the presence rules, in
/// the scope and in the cases that enclose it.
pub open spec fn stands_legally(contract: AdapterContractV1, index: int) -> bool {
    let node = contract.tree.nodes@[index];
    let around = around_node(contract.tree.nodes@, index);
    let inside = inside_node(node, around);
    &&& is_legal_wrapper(node.presence, node.presence_source, around)
    &&& match node.body {
        ContractNodeBody::Array(array) => {
            &&& item_scope(array.collection, inside) is Some
            &&& array.collection == AdapterCollection::SystemMessages ==> contract.wire_id
                == AdapterWireId::OpenAiCompletions || contract.wire_id
                == AdapterWireId::MistralConversations
        },
        ContractNodeBody::Switch(switch) => is_legal_switch(
            contract.wire_id,
            switch.source,
            inside,
        ),
        ContractNodeBody::Value(value) => is_legal_scalar(
            contract,
            value.source,
            value.transform,
            inside,
        ),
        _ => true,
    }
}

// ---------------------------------------------------------------------------
// Counts
// ---------------------------------------------------------------------------

/// How many of the wanted nodes stand at or under node `index`, without those
/// under a node that cuts the count off.
pub open spec fn count_under(
    nodes: Seq<ContractNode>,
    index: int,
    wanted: spec_fn(ContractNodeBody) -> bool,
    cut: spec_fn(ContractNodeBody) -> bool,
) -> nat
    decreases index, references_of(nodes[index].body).len() + 1,
{
    let body = nodes[index].body;
    let own: nat = if wanted(body) {
        1
    } else {
        0
    };
    if cut(body) {
        own
    } else {
        own + count_below(nodes, index, 0, wanted, cut)
    }
}

/// How many of the wanted nodes stand at or under the children of node `index`
/// from child `i` on.
pub open spec fn count_below(
    nodes: Seq<ContractNode>,
    index: int,
    i: int,
    wanted: spec_fn(ContractNodeBody) -> bool,
    cut: spec_fn(ContractNodeBody) -> bool,
) -> nat
    decreases index, references_of(nodes[index].body).len() - i,
{
    let children = references_of(nodes[index].body);
    if !(0 <= i < children.len()) {
        0
    } else {
        count_below(nodes, index, i + 1, wanted, cut) + if children[i] < index {
            count_under(nodes, children[i] as int, wanted, cut)
        } else {
            0
        }
    }
}

/// No node cuts a count off.
pub open spec fn nowhere() -> spec_fn(ContractNodeBody) -> bool {
    |body: ContractNodeBody| false
}

/// Switches on the kind of a message.
pub open spec fn message_switches() -> spec_fn(ContractNodeBody) -> bool {
    |body: ContractNodeBody| is_switch_on(body, AdapterVariantSource::Message)
}

/// Arrays over a collection.
pub open spec fn arrays_over(collection: AdapterCollection) -> spec_fn(ContractNodeBody) -> bool {
    |body: ContractNodeBody|
        body matches ContractNodeBody::Array(array) && array.collection == collection
}

/// Values of a scalar of the request.
pub open spec fn values_of(source: AdapterScalarSource) -> spec_fn(ContractNodeBody) -> bool {
    |body: ContractNodeBody| body matches ContractNodeBody::Value(value) && value.source == source
}

/// How many composites of a Mistral tool result node `index` holds, without
/// those in the cases of a further switch on messages.
pub open spec fn composites_in(nodes: Seq<ContractNode>, index: int) -> nat {
    count_under(
        nodes,
        index,
        values_of(AdapterScalarSource::MistralToolResultContent),
        message_switches(),
    )
}

/// How many block lists node `index` holds, without those in the cases of a
/// further switch on messages.
pub open spec fn block_lists_in(nodes: Seq<ContractNode>, index: int) -> nat {
    count_under(nodes, index, arrays_over(AdapterCollection::Blocks), message_switches())
}

/// How many arrays over a collection a contract has.
pub open spec fn arrays_in(contract: AdapterContractV1, collection: AdapterCollection) -> nat {
    count_under(
        contract.tree.nodes@,
        contract.tree.root as int,
        arrays_over(collection),
        nowhere(),
    )
}

/// How many values of a scalar a contract has.
pub open spec fn values_in(contract: AdapterContractV1, source: AdapterScalarSource) -> nat {
    count_under(contract.tree.nodes@, contract.tree.root as int, values_of(source), nowhere())
}

// ---------------------------------------------------------------------------
// Every node is reached by the walk
// ---------------------------------------------------------------------------

proof fn lemma_walked_child(
    contract: AdapterContractV1,
    index: int,
    i: int,
    inside: Surroundings,
    accounts: Accounts,
    k: int,
) -> (reached: Accounts)
    requires
        contract.tree.nodes@[index].body is Object,
        0 <= i <= k < references_of(contract.tree.nodes@[index].body).len(),
        walk_children(contract, index, i, inside, accounts) is Ok,
    ensures
        walk(
            contract,
            references_of(contract.tree.nodes@[index].body)[k] as int,
            inside,
            reached,
        ) is Ok,
    decreases k - i,
{
    let children = contract.tree.nodes@[index].body->Object_0.children@;
    if i == k {
        accounts
    } else {
        let next = walk(contract, children[i] as int, inside, accounts)->Ok_0;
        lemma_walked_child(contract, index, i + 1, inside, next, k)
    }
}

proof fn lemma_walked_case(
    contract: AdapterContractV1,
    index: int,
    i: int,
    inside: Surroundings,
    accounts: Accounts,
    k: int,
) -> (reached: Accounts)
    requires
        contract.tree.nodes@[index].body is Switch,
        0 <= i <= k < contract.tree.nodes@[index].body->Switch_0.cases@.len(),
        walk_cases(contract, index, i, inside, accounts) is Ok,
    ensures
        ({
            let switch = contract.tree.nodes@[index].body->Switch_0;
            let case = switch.cases@[k];
            let outcome = walk(
                contract,
                case.node as int,
                inside_case(switch.source, case.variant_ordinal, inside),
                opened_case(contract.wire_id, switch.source, case.variant_ordinal, reached),
            );
            &&& outcome is Ok
            &&& closed_case(
                contract.wire_id,
                switch.source,
                case.variant_ordinal,
                outcome->Ok_0,
            ) is Ok
        }),
    decreases k - i,
{
    if i == k {
        accounts
    } else {
        let switch = contract.tree.nodes@[index].body->Switch_0;
        let case = switch.cases@[i];
        let walked = walk(
            contract,
            case.node as int,
            inside_case(switch.source, case.variant_ordinal, inside),
            opened_case(contract.wire_id, switch.source, case.variant_ordinal, accounts),
        )->Ok_0;
        let next = closed_case(
            contract.wire_id,
            switch.source,
            case.variant_ordinal,
            walked,
        )->Ok_0;
        lemma_walked_case(contract, index, i + 1, inside, next, k)
    }
}

/// Whether the nodes of a contract form a tree under its root.
pub open spec fn has_tree(contract: AdapterContractV1) -> bool {
    is_contract_tree(contract.tree.nodes@) && contract.tree.root == contract.tree.nodes@.len() - 1
}

/// Whether the nodes of a contract form a tree that the walk accepts.
spec fn is_walked_tree(contract: AdapterContractV1) -> bool {
    has_tree(contract) && semantics_verdict(contract) is Ok
}

/// The accounts before a walk.
spec fn no_accounts() -> Accounts {
    Accounts {
        root: RootCollectionAccounting {
            system_messages: false,
            system: false,
            messages: false,
            system_joined: false,
        },
        mistral: Seq::empty(),
    }
}

/// A walk over a valid tree accepts every node where it stands.
proof fn lemma_node_is_walked(contract: AdapterContractV1, index: int) -> (reached: Accounts)
    requires
        is_walked_tree(contract),
        0 <= index < contract.tree.nodes@.len(),
    ensures
        walk(contract, index, around_node(contract.tree.nodes@, index), reached) is Ok,
    decreases contract.tree.nodes@.len() - index,
{
    let nodes = contract.tree.nodes@;
    if index == nodes.len() - 1 {
        no_accounts()
    } else {
        assert(has_parent(nodes, index));
        let parent = nodes[index].parent->Some_0 as int;
        let around = around_node(nodes, parent);
        let inside = inside_node(nodes[parent], around);
        let accounts = lemma_node_is_walked(contract, parent);
        let children = references_of(nodes[parent].body);
        let k = children.index_of(index as u32);
        assert(children[k] == index as u32);
        match nodes[parent].body {
            ContractNodeBody::Object(_) => lemma_walked_child(
                contract,
                parent,
                0,
                inside,
                accounts,
                k,
            ),
            ContractNodeBody::Array(array) => {
                entered_array(
                    contract.wire_id,
                    array.collection,
                    inside,
                    accounts,
                )->Ok_0.1
            },
            ContractNodeBody::Switch(switch) => {
                assert(switch.cases@[k].node == index);
                let at = case_to(switch, index);
                assert(children[at] == index as u32);
                let reached = lemma_walked_case(contract, parent, 0, inside, accounts, at);
                opened_case(
                    contract.wire_id,
                    switch.source,
                    switch.cases@[at].variant_ordinal,
                    reached,
                )
            },
            _ => accounts,
        }
    }
}

/// Whether every node may stand where it stands.
pub open spec fn all_stand_legally(contract: AdapterContractV1) -> bool {
    forall|index: int|
        0 <= index < contract.tree.nodes@.len() ==> #[trigger] stands_legally(contract, index)
}

proof fn lemma_all_stand_legally(contract: AdapterContractV1)
    requires
        is_walked_tree(contract),
    ensures
        all_stand_legally(contract),
{
    assert forall|index: int| 0 <= index < contract.tree.nodes@.len() implies #[trigger] stands_legally(
        contract,
        index,
    ) by {
        let reached = lemma_node_is_walked(contract, index);
    }
}

// ---------------------------------------------------------------------------
// Mistral tool results
// ---------------------------------------------------------------------------

/// Whether the last account has grown by the given counts, and no other.
spec fn has_grown(
    before: Seq<MistralAccounting>,
    after: Seq<MistralAccounting>,
    blocks: nat,
    composites: nat,
) -> bool {
    if before.len() == 0 {
        after.len() == 0 && blocks == 0 && composites == 0
    } else {
        &&& after.len() == before.len()
        &&& after.drop_last() == before.drop_last()
        &&& after.last().normal_blocks == before.last().normal_blocks + blocks
        &&& after.last().composites == before.last().composites + composites
    }
}

/// Whether what a Mistral tool result holds is counted here.
spec fn is_counted(contract: AdapterContractV1, around: Surroundings) -> bool {
    contract.wire_id == AdapterWireId::MistralConversations && innermost_case(
        around.cases,
        AdapterVariantSource::Message,
    ) == Some(2u8)
}

/// Whether the accounts have grown by what has been walked: block lists and
/// composites are counted in tool results, and there are no other composites.
spec fn is_accounted(
    contract: AdapterContractV1,
    around: Surroundings,
    before: Accounts,
    after: Accounts,
    blocks: nat,
    composites: nat,
) -> bool {
    &&& !is_counted(contract, around) ==> composites == 0
    &&& has_grown(
        before.mistral,
        after.mistral,
        if is_counted(contract, around) {
            blocks
        } else {
            0
        },
        composites,
    )
}

proof fn lemma_growth_adds_up(
    a: Seq<MistralAccounting>,
    b: Seq<MistralAccounting>,
    c: Seq<MistralAccounting>,
    first_blocks: nat,
    first_composites: nat,
    blocks: nat,
    composites: nat,
)
    requires
        has_grown(a, b, first_blocks, first_composites),
        has_grown(b, c, blocks, composites),
    ensures
        has_grown(a, c, first_blocks + blocks, first_composites + composites),
{
}

proof fn lemma_inner_case(around: Surroundings, source: AdapterVariantSource, ordinal: u8)
    ensures
        innermost_case(
            inside_case(source, ordinal, around).cases,
            AdapterVariantSource::Message,
        ) == if source == AdapterVariantSource::Message {
            Some(ordinal)
        } else {
            innermost_case(around.cases, AdapterVariantSource::Message)
        },
{
    let cases = inside_case(source, ordinal, around).cases;
    assert(cases.drop_last() =~= around.cases);
}

proof fn lemma_array_accounts(
    contract: AdapterContractV1,
    collection: AdapterCollection,
    inside: Surroundings,
    accounts: Accounts,
)
    requires
        entered_array(contract.wire_id, collection, inside, accounts) is Ok,
    ensures
        has_grown(
            accounts.mistral,
            entered_array(contract.wire_id, collection, inside, accounts)->Ok_0.1.mistral,
            if is_counted(contract, inside) && collection == AdapterCollection::Blocks {
                1
            } else {
                0
            },
            0,
        ),
{
    let entered = entered_array(contract.wire_id, collection, inside, accounts)->Ok_0.1;
    assert(entered.mistral.len() > 0 ==> entered.mistral.drop_last()
        =~= accounts.mistral.drop_last());
}

/// What a node holds is itself and what its children hold.
proof fn lemma_own_counts(nodes: Seq<ContractNode>, index: int)
    ensures
        ({
            let body = nodes[index].body;
            let below = |wanted: spec_fn(ContractNodeBody) -> bool|
                if is_switch_on(body, AdapterVariantSource::Message) {
                    0
                } else {
                    count_below(nodes, index, 0, wanted, message_switches())
                };
            let lists = arrays_over(AdapterCollection::Blocks);
            let composites = values_of(AdapterScalarSource::MistralToolResultContent);
            &&& block_lists_in(nodes, index) == below(lists) + if lists(body) {
                1nat
            } else {
                0
            }
            &&& composites_in(nodes, index) == below(composites) + if composites(body) {
                1nat
            } else {
                0
            }
        }),
{
}

proof fn lemma_walk_accounts(
    contract: AdapterContractV1,
    index: int,
    around: Surroundings,
    accounts: Accounts,
)
    requires
        walk(contract, index, around, accounts) is Ok,
    ensures
        is_accounted(
            contract,
            around,
            accounts,
            walk(contract, index, around, accounts)->Ok_0,
            block_lists_in(contract.tree.nodes@, index),
            composites_in(contract.tree.nodes@, index),
        ),
    decreases index, 1int, 0int,
{
    let nodes = contract.tree.nodes@;
    let node = nodes[index];
    let inside = inside_node(node, around);
    assert(inside.cases == around.cases);
    lemma_own_counts(nodes, index);
    match node.body {
        ContractNodeBody::Object(_) => {
            lemma_children_account(contract, index, 0, inside, accounts);
        },
        ContractNodeBody::Array(array) => {
            let (scope, entered) = entered_array(
                contract.wire_id,
                array.collection,
                inside,
                accounts,
            )->Ok_0;
            let item = Surroundings { scope, ..inside };
            lemma_walk_accounts(contract, array.item as int, item, entered);
            let reached = walk(contract, index, around, accounts)->Ok_0;
            let own: nat = if array.collection == AdapterCollection::Blocks {
                1
            } else {
                0
            };
            lemma_only_child(nodes, index, arrays_over(AdapterCollection::Blocks));
            lemma_only_child(
                nodes,
                index,
                values_of(AdapterScalarSource::MistralToolResultContent),
            );
            let counted: nat = if is_counted(contract, around) {
                own
            } else {
                0
            };
            lemma_array_accounts(contract, array.collection, inside, accounts);
            lemma_growth_adds_up(
                accounts.mistral,
                entered.mistral,
                reached.mistral,
                counted,
                0,
                if is_counted(contract, around) {
                    block_lists_in(nodes, array.item as int)
                } else {
                    0
                },
                composites_in(nodes, array.item as int),
            );
        },
        ContractNodeBody::Switch(switch) => {
            lemma_cases_account(contract, index, 0, inside, accounts);
        },
        ContractNodeBody::Value(_) => {
            let reached = walk(contract, index, around, accounts)->Ok_0;
            assert(references_of(node.body).len() == 0);
            assert(reached.mistral.len() > 0 ==> reached.mistral.drop_last()
                =~= accounts.mistral.drop_last());
        },
        ContractNodeBody::Constant(_) => {
            assert(references_of(node.body).len() == 0);
        },
    }
}

/// An array has one child, its item.
proof fn lemma_only_child(
    nodes: Seq<ContractNode>,
    index: int,
    wanted: spec_fn(ContractNodeBody) -> bool,
)
    requires
        nodes[index].body matches ContractNodeBody::Array(array) && array.item < index,
    ensures
        count_below(nodes, index, 0, wanted, message_switches()) == count_under(
            nodes,
            nodes[index].body->Array_0.item as int,
            wanted,
            message_switches(),
        ),
        count_below(nodes, index, 0, wanted, nowhere()) == count_under(
            nodes,
            nodes[index].body->Array_0.item as int,
            wanted,
            nowhere(),
        ),
{
    let item = nodes[index].body->Array_0.item;
    assert(references_of(nodes[index].body) =~= seq![item]);
    assert(count_below(nodes, index, 1, wanted, message_switches()) == 0);
    assert(count_below(nodes, index, 1, wanted, nowhere()) == 0);
}

proof fn lemma_children_account(
    contract: AdapterContractV1,
    index: int,
    i: int,
    inside: Surroundings,
    accounts: Accounts,
)
    requires
        contract.tree.nodes@[index].body is Object,
        0 <= i <= references_of(contract.tree.nodes@[index].body).len(),
        walk_children(contract, index, i, inside, accounts) is Ok,
    ensures
        is_accounted(
            contract,
            inside,
            accounts,
            walk_children(contract, index, i, inside, accounts)->Ok_0,
            count_below(
                contract.tree.nodes@,
                index,
                i,
                arrays_over(AdapterCollection::Blocks),
                message_switches(),
            ),
            count_below(
                contract.tree.nodes@,
                index,
                i,
                values_of(AdapterScalarSource::MistralToolResultContent),
                message_switches(),
            ),
        ),
    decreases index, 0int, contract.tree.nodes@[index].body->Object_0.children@.len() - i,
{
    let nodes = contract.tree.nodes@;
    let children = nodes[index].body->Object_0.children@;
    if i < children.len() {
        let child = children[i] as int;
        let next = walk(contract, child, inside, accounts)->Ok_0;
        let last = walk_children(contract, index, i + 1, inside, next)->Ok_0;
        lemma_walk_accounts(contract, child, inside, accounts);
        lemma_children_account(contract, index, i + 1, inside, next);
        let counted = is_counted(contract, inside);
        lemma_growth_adds_up(
            accounts.mistral,
            next.mistral,
            last.mistral,
            if counted {
                block_lists_in(nodes, child)
            } else {
                0
            },
            composites_in(nodes, child),
            if counted {
                count_below(
                    nodes,
                    index,
                    i + 1,
                    arrays_over(AdapterCollection::Blocks),
                    message_switches(),
                )
            } else {
                0
            },
            count_below(
                nodes,
                index,
                i + 1,
                values_of(AdapterScalarSource::MistralToolResultContent),
                message_switches(),
            ),
        );
    }
}

proof fn lemma_cases_account(
    contract: AdapterContractV1,
    index: int,
    i: int,
    inside: Surroundings,
    accounts: Accounts,
)
    requires
        contract.tree.nodes@[index].body is Switch,
        0 <= i <= contract.tree.nodes@[index].body->Switch_0.cases@.len(),
        walk_cases(contract, index, i, inside, accounts) is Ok,
    ensures
        ({
            let on_messages = contract.tree.nodes@[index].body->Switch_0.source
                == AdapterVariantSource::Message;
            is_accounted(
                contract,
                inside,
                accounts,
                walk_cases(contract, index, i, inside, accounts)->Ok_0,
                if on_messages {
                    0
                } else {
                    count_below(
                        contract.tree.nodes@,
                        index,
                        i,
                        arrays_over(AdapterCollection::Blocks),
                        message_switches(),
                    )
                },
                if on_messages {
                    0
                } else {
                    count_below(
                        contract.tree.nodes@,
                        index,
                        i,
                        values_of(AdapterScalarSource::MistralToolResultContent),
                        message_switches(),
                    )
                },
            )
        }),
    decreases index, 0int, contract.tree.nodes@[index].body->Switch_0.cases@.len() - i,
{
    let nodes = contract.tree.nodes@;
    let switch = nodes[index].body->Switch_0;
    let wire = contract.wire_id;
    if i < switch.cases@.len() {
        let case = switch.cases@[i];
        let child = case.node as int;
        assert(references_of(nodes[index].body)[i] == case.node);
        let around = inside_case(switch.source, case.variant_ordinal, inside);
        let opened = opened_case(wire, switch.source, case.variant_ordinal, accounts);
        let walked = walk(contract, child, around, opened)->Ok_0;
        let closed = closed_case(wire, switch.source, case.variant_ordinal, walked)->Ok_0;
        let last = walk_cases(contract, index, i + 1, inside, closed)->Ok_0;
        lemma_inner_case(inside, switch.source, case.variant_ordinal);
        lemma_walk_accounts(contract, child, around, opened);
        lemma_cases_account(contract, index, i + 1, inside, closed);
        let blocks = count_below(
            nodes,
            index,
            i + 1,
            arrays_over(AdapterCollection::Blocks),
            message_switches(),
        );
        let composites = count_below(
            nodes,
            index,
            i + 1,
            values_of(AdapterScalarSource::MistralToolResultContent),
            message_switches(),
        );
        let counted = is_counted(contract, inside);
        if switch.source == AdapterVariantSource::Message {
            if is_mistral_result(wire, switch.source, case.variant_ordinal) {
                assert(opened.mistral.drop_last() =~= accounts.mistral);
            }
            assert(has_grown(accounts.mistral, closed.mistral, 0, 0));
            lemma_growth_adds_up(
                accounts.mistral,
                closed.mistral,
                last.mistral,
                0,
                0,
                0,
                0,
            );
        } else {
            lemma_growth_adds_up(
                accounts.mistral,
                closed.mistral,
                last.mistral,
                if counted {
                    block_lists_in(nodes, child)
                } else {
                    0
                },
                composites_in(nodes, child),
                if counted {
                    blocks
                } else {
                    0
                },
                composites,
            );
        }
    }
}

/// Whether case `k` of node `index` is the tool result of a switch on messages.
pub open spec fn is_result_case(nodes: Seq<ContractNode>, index: int, k: int) -> bool {
    &&& nodes[index].body matches ContractNodeBody::Switch(switch)
    &&& switch.source == AdapterVariantSource::Message
    &&& 0 <= k < switch.cases@.len()
    &&& switch.cases@[k].variant_ordinal == 2
}

/// Whether the tool-result case `k` of node `index` holds exactly one composite
/// and no list of blocks.
pub open spec fn holds_one_composite(nodes: Seq<ContractNode>, index: int, k: int) -> bool {
    let child = nodes[index].body->Switch_0.cases@[k].node as int;
    composites_in(nodes, child) == 1 && block_lists_in(nodes, child) == 0
}

/// Whether every tool-result case of a Mistral contract holds exactly one
/// composite and no list of blocks.
pub open spec fn results_are_composites(contract: AdapterContractV1) -> bool {
    contract.wire_id == AdapterWireId::MistralConversations ==> forall|index: int, k: int|
        0 <= index < contract.tree.nodes@.len() && #[trigger] is_result_case(
            contract.tree.nodes@,
            index,
            k,
        ) ==> holds_one_composite(contract.tree.nodes@, index, k)
}

proof fn lemma_results_are_composites(contract: AdapterContractV1)
    requires
        is_walked_tree(contract),
    ensures
        results_are_composites(contract),
{
    let nodes = contract.tree.nodes@;
    if contract.wire_id == AdapterWireId::MistralConversations {
        assert forall|index: int, k: int|
            0 <= index < nodes.len() && #[trigger] is_result_case(
                nodes,
                index,
                k,
            ) implies holds_one_composite(nodes, index, k) by {
            lemma_result_case(contract, index, k);
        }
    }
}

proof fn lemma_result_case(contract: AdapterContractV1, index: int, k: int)
    requires
        is_walked_tree(contract),
        contract.wire_id == AdapterWireId::MistralConversations,
        0 <= index < contract.tree.nodes@.len(),
        is_result_case(contract.tree.nodes@, index, k),
    ensures
        holds_one_composite(contract.tree.nodes@, index, k),
{
    let nodes = contract.tree.nodes@;
    let around = around_node(nodes, index);
    let accounts = lemma_node_is_walked(contract, index);
    let inside = inside_node(nodes[index], around);
    let switch = nodes[index].body->Switch_0;
    let case = switch.cases@[k];
    assert(walk(contract, index, around, accounts) is Ok);
    let reached = lemma_walked_case(contract, index, 0, inside, accounts, k);
    lemma_inner_case(inside, switch.source, case.variant_ordinal);
    lemma_walk_accounts(
        contract,
        case.node as int,
        inside_case(switch.source, case.variant_ordinal, inside),
        opened_case(contract.wire_id, switch.source, case.variant_ordinal, reached),
    );
}

// ---------------------------------------------------------------------------
// System parts and messages
// ---------------------------------------------------------------------------

/// Whether what is used here may still be used after what has been used.
spec fn may_use(
    merged: nat,
    system: nat,
    messages: nat,
    joined: nat,
    before: RootCollectionAccounting,
) -> bool {
    &&& merged <= 1
    &&& merged == 1 ==> {
        &&& !before.system_messages && !before.system && !before.messages && !before.system_joined
        &&& system == 0 && messages == 0 && joined == 0
    }
    &&& before.system_messages ==> system == 0 && messages == 0 && joined == 0
}

/// Whether a part of a contract that uses the system parts and the messages of
/// the request so often, as one list of both, each on its own, or the system
/// parts joined, has been recorded and may do so.
spec fn has_uses(
    merged: nat,
    system: nat,
    messages: nat,
    joined: nat,
    before: RootCollectionAccounting,
    after: RootCollectionAccounting,
) -> bool {
    &&& after.system_messages == (before.system_messages || merged > 0)
    &&& after.system == (before.system || system > 0)
    &&& after.messages == (before.messages || messages > 0)
    &&& after.system_joined == (before.system_joined || joined > 0)
    &&& may_use(merged, system, messages, joined, before)
}

/// The uses at or under node `index`.
spec fn uses_under(
    nodes: Seq<ContractNode>,
    index: int,
    before: RootCollectionAccounting,
    after: RootCollectionAccounting,
) -> bool {
    has_uses(
        count_under(nodes, index, arrays_over(AdapterCollection::SystemMessages), nowhere()),
        count_under(nodes, index, arrays_over(AdapterCollection::System), nowhere()),
        count_under(nodes, index, arrays_over(AdapterCollection::Messages), nowhere()),
        count_under(nodes, index, values_of(AdapterScalarSource::SystemJoined), nowhere()),
        before,
        after,
    )
}

/// The uses at or under the children of node `index` from child `i` on.
spec fn uses_below(
    nodes: Seq<ContractNode>,
    index: int,
    i: int,
    before: RootCollectionAccounting,
    after: RootCollectionAccounting,
) -> bool {
    has_uses(
        count_below(nodes, index, i, arrays_over(AdapterCollection::SystemMessages), nowhere()),
        count_below(nodes, index, i, arrays_over(AdapterCollection::System), nowhere()),
        count_below(nodes, index, i, arrays_over(AdapterCollection::Messages), nowhere()),
        count_below(nodes, index, i, values_of(AdapterScalarSource::SystemJoined), nowhere()),
        before,
        after,
    )
}

proof fn lemma_uses_add_up(
    nodes: Seq<ContractNode>,
    index: int,
    i: int,
    before: RootCollectionAccounting,
    between: RootCollectionAccounting,
    after: RootCollectionAccounting,
)
    requires
        0 <= i < references_of(nodes[index].body).len(),
        references_of(nodes[index].body)[i] < index,
        uses_under(nodes, references_of(nodes[index].body)[i] as int, before, between),
        uses_below(nodes, index, i + 1, between, after),
    ensures
        uses_below(nodes, index, i, before, after),
{
}

proof fn lemma_walk_uses(
    contract: AdapterContractV1,
    index: int,
    around: Surroundings,
    accounts: Accounts,
)
    requires
        walk(contract, index, around, accounts) is Ok,
    ensures
        uses_under(
            contract.tree.nodes@,
            index,
            accounts.root,
            walk(contract, index, around, accounts)->Ok_0.root,
        ),
    decreases index, 1int, 0int,
{
    let nodes = contract.tree.nodes@;
    let node = nodes[index];
    let inside = inside_node(node, around);
    let reached = walk(contract, index, around, accounts)->Ok_0;
    match node.body {
        ContractNodeBody::Object(_) => {
            lemma_children_uses(contract, index, 0, inside, accounts);
        },
        ContractNodeBody::Array(array) => {
            let (scope, entered) = entered_array(
                contract.wire_id,
                array.collection,
                inside,
                accounts,
            )->Ok_0;
            let item = array.item as int;
            lemma_walk_uses(contract, item, Surroundings { scope, ..inside }, entered);
            lemma_only_child(nodes, index, arrays_over(AdapterCollection::SystemMessages));
            lemma_only_child(nodes, index, arrays_over(AdapterCollection::System));
            lemma_only_child(nodes, index, arrays_over(AdapterCollection::Messages));
            lemma_only_child(nodes, index, values_of(AdapterScalarSource::SystemJoined));
        },
        ContractNodeBody::Switch(_) => {
            lemma_cases_uses(contract, index, 0, inside, accounts);
        },
        ContractNodeBody::Value(_) => {
            assert(references_of(node.body).len() == 0);
        },
        ContractNodeBody::Constant(_) => {
            assert(references_of(node.body).len() == 0);
        },
    }
}

proof fn lemma_children_uses(
    contract: AdapterContractV1,
    index: int,
    i: int,
    inside: Surroundings,
    accounts: Accounts,
)
    requires
        contract.tree.nodes@[index].body is Object,
        0 <= i <= references_of(contract.tree.nodes@[index].body).len(),
        walk_children(contract, index, i, inside, accounts) is Ok,
    ensures
        uses_below(
            contract.tree.nodes@,
            index,
            i,
            accounts.root,
            walk_children(contract, index, i, inside, accounts)->Ok_0.root,
        ),
    decreases index, 0int, contract.tree.nodes@[index].body->Object_0.children@.len() - i,
{
    let nodes = contract.tree.nodes@;
    let children = nodes[index].body->Object_0.children@;
    if i < children.len() {
        let next = walk(contract, children[i] as int, inside, accounts)->Ok_0;
        let last = walk_children(contract, index, i + 1, inside, next)->Ok_0;
        lemma_walk_uses(contract, children[i] as int, inside, accounts);
        lemma_children_uses(contract, index, i + 1, inside, next);
        lemma_uses_add_up(nodes, index, i, accounts.root, next.root, last.root);
    }
}

proof fn lemma_cases_uses(
    contract: AdapterContractV1,
    index: int,
    i: int,
    inside: Surroundings,
    accounts: Accounts,
)
    requires
        contract.tree.nodes@[index].body is Switch,
        0 <= i <= contract.tree.nodes@[index].body->Switch_0.cases@.len(),
        walk_cases(contract, index, i, inside, accounts) is Ok,
    ensures
        uses_below(
            contract.tree.nodes@,
            index,
            i,
            accounts.root,
            walk_cases(contract, index, i, inside, accounts)->Ok_0.root,
        ),
    decreases index, 0int, contract.tree.nodes@[index].body->Switch_0.cases@.len() - i,
{
    let nodes = contract.tree.nodes@;
    let switch = nodes[index].body->Switch_0;
    let wire = contract.wire_id;
    if i < switch.cases@.len() {
        let case = switch.cases@[i];
        assert(references_of(nodes[index].body)[i] == case.node);
        let around = inside_case(switch.source, case.variant_ordinal, inside);
        let opened = opened_case(wire, switch.source, case.variant_ordinal, accounts);
        let walked = walk(contract, case.node as int, around, opened)->Ok_0;
        let closed = closed_case(wire, switch.source, case.variant_ordinal, walked)->Ok_0;
        let last = walk_cases(contract, index, i + 1, inside, closed)->Ok_0;
        lemma_walk_uses(contract, case.node as int, around, opened);
        lemma_cases_uses(contract, index, i + 1, inside, closed);
        lemma_uses_add_up(nodes, index, i, accounts.root, closed.root, last.root);
    }
}

/// Whether an array over system parts and messages together, where there is one,
/// stands alone: there is no other, no array over either of the two, and no
/// joined system text.
pub open spec fn merged_list_stands_alone(contract: AdapterContractV1) -> bool {
    &&& arrays_in(contract, AdapterCollection::SystemMessages) <= 1
    &&& arrays_in(contract, AdapterCollection::SystemMessages) == 1 ==> {
        &&& arrays_in(contract, AdapterCollection::System) == 0
        &&& arrays_in(contract, AdapterCollection::Messages) == 0
        &&& values_in(contract, AdapterScalarSource::SystemJoined) == 0
    }
}

// ---------------------------------------------------------------------------
// What the walk accepts
// ---------------------------------------------------------------------------

/// Whether the walk of node `index` has room in the accounts.
spec fn has_room(
    contract: AdapterContractV1,
    index: int,
    around: Surroundings,
    accounts: Accounts,
) -> bool {
    let nodes = contract.tree.nodes@;
    &&& may_use(
        count_under(nodes, index, arrays_over(AdapterCollection::SystemMessages), nowhere()),
        count_under(nodes, index, arrays_over(AdapterCollection::System), nowhere()),
        count_under(nodes, index, arrays_over(AdapterCollection::Messages), nowhere()),
        count_under(nodes, index, values_of(AdapterScalarSource::SystemJoined), nowhere()),
        accounts.root,
    )
    &&& is_counted(contract, around) ==> {
        &&& accounts.mistral.len() > 0
        &&& accounts.mistral.last().normal_blocks + block_lists_in(nodes, index) <= 1
        &&& accounts.mistral.last().composites + composites_in(nodes, index) <= 1
    }
}

/// Whether the walk of the children of node `index` from child `i` on has room
/// in the accounts.
spec fn has_room_below(
    contract: AdapterContractV1,
    index: int,
    i: int,
    inside: Surroundings,
    accounts: Accounts,
) -> bool {
    let nodes = contract.tree.nodes@;
    let lists = arrays_over(AdapterCollection::Blocks);
    let composites = values_of(AdapterScalarSource::MistralToolResultContent);
    &&& may_use(
        count_below(nodes, index, i, arrays_over(AdapterCollection::SystemMessages), nowhere()),
        count_below(nodes, index, i, arrays_over(AdapterCollection::System), nowhere()),
        count_below(nodes, index, i, arrays_over(AdapterCollection::Messages), nowhere()),
        count_below(nodes, index, i, values_of(AdapterScalarSource::SystemJoined), nowhere()),
        accounts.root,
    )
    &&& is_counted(contract, inside) && !is_switch_on(
        nodes[index].body,
        AdapterVariantSource::Message,
    ) ==> {
        &&& accounts.mistral.len() > 0
        &&& accounts.mistral.last().normal_blocks + count_below(
            nodes,
            index,
            i,
            lists,
            message_switches(),
        ) <= 1
        &&& accounts.mistral.last().composites + count_below(
            nodes,
            index,
            i,
            composites,
            message_switches(),
        ) <= 1
    }
}

/// Whether the nodes of a contract stand as the walk asks.
spec fn is_well_placed(contract: AdapterContractV1) -> bool {
    has_tree(contract) && all_stand_legally(contract) && results_are_composites(contract)
}

proof fn lemma_around_child(nodes: Seq<ContractNode>, index: int, k: int)
    requires
        is_contract_tree(nodes),
        0 <= index < nodes.len() <= u32::MAX,
        0 <= k < references_of(nodes[index].body).len(),
    ensures
        ({
            let child = references_of(nodes[index].body)[k] as int;
            &&& 0 <= child < index
            &&& around_node(nodes, child) == around_child(
                nodes[index],
                child,
                around_node(nodes, index),
            )
            &&& nodes[index].body matches ContractNodeBody::Switch(switch) ==> case_to(
                switch,
                child,
            ) == k
        }),
{
    let children = references_of(nodes[index].body);
    let child = children[k] as int;
    assert(children[k] < index);
    assert(nodes[children[k] as int].parent == Some(index as u32));
    if let ContractNodeBody::Switch(switch) = nodes[index].body {
        assert(switch.cases@[k].node == child);
        let at = case_to(switch, child);
        assert(children[at] == children[k]);
        assert(children.no_duplicates());
    }
}

proof fn lemma_placed_node_is_walked(contract: AdapterContractV1, index: int, accounts: Accounts)
    requires
        is_well_placed(contract),
        0 <= index < contract.tree.nodes@.len() <= u32::MAX,
        has_room(contract, index, around_node(contract.tree.nodes@, index), accounts),
    ensures
        walk(contract, index, around_node(contract.tree.nodes@, index), accounts) is Ok,
    decreases index, 1int, 0int,
{
    let nodes = contract.tree.nodes@;
    let node = nodes[index];
    let around = around_node(nodes, index);
    let inside = inside_node(node, around);
    assert(stands_legally(contract, index));
    assert(inside.cases == around.cases);
    lemma_own_counts(nodes, index);
    match node.body {
        ContractNodeBody::Object(_) => {
            lemma_placed_children_are_walked(contract, index, 0, accounts);
        },
        ContractNodeBody::Array(array) => {
            lemma_placed_array_is_walked(contract, index, accounts);
        },
        ContractNodeBody::Switch(_) => {
            lemma_placed_cases_are_walked(contract, index, 0, accounts);
        },
        ContractNodeBody::Value(_) => {
            assert(references_of(node.body).len() == 0);
        },
        ContractNodeBody::Constant(_) => {},
    }
}

proof fn lemma_placed_array_is_walked(contract: AdapterContractV1, index: int, accounts: Accounts)
    requires
        is_well_placed(contract),
        0 <= index < contract.tree.nodes@.len() <= u32::MAX,
        contract.tree.nodes@[index].body is Array,
        has_room(contract, index, around_node(contract.tree.nodes@, index), accounts),
    ensures
        walk(contract, index, around_node(contract.tree.nodes@, index), accounts) is Ok,
    decreases index, 0int, 0int,
{
    let nodes = contract.tree.nodes@;
    let node = nodes[index];
    let around = around_node(nodes, index);
    let inside = inside_node(node, around);
    let array = node.body->Array_0;
    assert(stands_legally(contract, index));
    assert(inside.cases == around.cases);
    assert(references_of(node.body)[0] == array.item);
    lemma_around_child(nodes, index, 0);
    lemma_own_counts(nodes, index);
    lemma_only_child(nodes, index, arrays_over(AdapterCollection::SystemMessages));
    lemma_only_child(nodes, index, arrays_over(AdapterCollection::System));
    lemma_only_child(nodes, index, arrays_over(AdapterCollection::Messages));
    lemma_only_child(nodes, index, values_of(AdapterScalarSource::SystemJoined));
    lemma_only_child(nodes, index, arrays_over(AdapterCollection::Blocks));
    lemma_only_child(nodes, index, values_of(AdapterScalarSource::MistralToolResultContent));
    let outcome = entered_array(contract.wire_id, array.collection, inside, accounts);
    assert(outcome is Ok);
    lemma_array_accounts(contract, array.collection, inside, accounts);
    let (scope, entered) = outcome->Ok_0;
    assert(around_node(nodes, array.item as int) =~= Surroundings { scope, ..inside });
    lemma_placed_node_is_walked(contract, array.item as int, entered);
}

proof fn lemma_placed_children_are_walked(
    contract: AdapterContractV1,
    index: int,
    i: int,
    accounts: Accounts,
)
    requires
        is_well_placed(contract),
        0 <= index < contract.tree.nodes@.len() <= u32::MAX,
        contract.tree.nodes@[index].body is Object,
        0 <= i <= references_of(contract.tree.nodes@[index].body).len(),
        has_room_below(
            contract,
            index,
            i,
            inside_node(
                contract.tree.nodes@[index],
                around_node(contract.tree.nodes@, index),
            ),
            accounts,
        ),
    ensures
        walk_children(
            contract,
            index,
            i,
            inside_node(
                contract.tree.nodes@[index],
                around_node(contract.tree.nodes@, index),
            ),
            accounts,
        ) is Ok,
    decreases index, 0int, contract.tree.nodes@[index].body->Object_0.children@.len() - i,
{
    let nodes = contract.tree.nodes@;
    let children = nodes[index].body->Object_0.children@;
    let inside = inside_node(nodes[index], around_node(nodes, index));
    if i < children.len() {
        let child = children[i] as int;
        lemma_around_child(nodes, index, i);
        lemma_placed_node_is_walked(contract, child, accounts);
        let next = walk(contract, child, inside, accounts)->Ok_0;
        lemma_walk_uses(contract, child, inside, accounts);
        lemma_walk_accounts(contract, child, inside, accounts);
        lemma_placed_children_are_walked(contract, index, i + 1, next);
    }
}

proof fn lemma_placed_cases_are_walked(
    contract: AdapterContractV1,
    index: int,
    i: int,
    accounts: Accounts,
)
    requires
        is_well_placed(contract),
        0 <= index < contract.tree.nodes@.len() <= u32::MAX,
        contract.tree.nodes@[index].body is Switch,
        0 <= i <= contract.tree.nodes@[index].body->Switch_0.cases@.len(),
        has_room_below(
            contract,
            index,
            i,
            inside_node(
                contract.tree.nodes@[index],
                around_node(contract.tree.nodes@, index),
            ),
            accounts,
        ),
    ensures
        walk_cases(
            contract,
            index,
            i,
            inside_node(
                contract.tree.nodes@[index],
                around_node(contract.tree.nodes@, index),
            ),
            accounts,
        ) is Ok,
    decreases index, 0int, contract.tree.nodes@[index].body->Switch_0.cases@.len() - i,
{
    let nodes = contract.tree.nodes@;
    let wire = contract.wire_id;
    let switch = nodes[index].body->Switch_0;
    let inside = inside_node(nodes[index], around_node(nodes, index));
    if i < switch.cases@.len() {
        let case = switch.cases@[i];
        let child = case.node as int;
        assert(references_of(nodes[index].body)[i] == case.node);
        lemma_around_child(nodes, index, i);
        let around = inside_case(switch.source, case.variant_ordinal, inside);
        assert(around_node(nodes, child) == around);
        lemma_inner_case(inside, switch.source, case.variant_ordinal);
        let opened = opened_case(wire, switch.source, case.variant_ordinal, accounts);
        let is_result = is_mistral_result(wire, switch.source, case.variant_ordinal);
        if is_result {
            assert(is_result_case(nodes, index, i));
            assert(holds_one_composite(nodes, index, i));
        }
        assert(has_room(contract, child, around, opened));
        lemma_placed_node_is_walked(contract, child, opened);
        let walked = walk(contract, child, around, opened)->Ok_0;
        lemma_walk_uses(contract, child, around, opened);
        lemma_walk_accounts(contract, child, around, opened);
        assert(closed_case(wire, switch.source, case.variant_ordinal, walked) is Ok);
        let closed = closed_case(wire, switch.source, case.variant_ordinal, walked)->Ok_0;
        if is_result {
            assert(opened.mistral.drop_last() =~= accounts.mistral);
        }
        lemma_placed_cases_are_walked(contract, index, i + 1, closed);
    }
}

/// The semantics of a contract whose nodes form a tree are valid exactly when
/// every node may stand where it stands, every tool-result case of a Mistral
/// contract holds exactly one composite and no list of blocks, and a list of
/// system parts and messages together stands alone. The order of the nodes is of
/// no account.
pub proof fn lemma_semantics_are_placement(contract: AdapterContractV1)
    requires
        has_tree(contract),
        contract.tree.nodes@.len() <= u32::MAX,
    ensures
        semantics_verdict(contract) is Ok <==> all_stand_legally(contract)
            && results_are_composites(contract) && merged_list_stands_alone(contract),
{
    let root = contract.tree.root as int;
    let nodes = contract.tree.nodes@;
    assert(around_node(nodes, root) == around_root());
    if semantics_verdict(contract) is Ok {
        lemma_all_stand_legally(contract);
        lemma_results_are_composites(contract);
        lemma_walk_uses(contract, root, around_root(), no_accounts());
    }
    if all_stand_legally(contract) && results_are_composites(contract) && merged_list_stands_alone(
        contract,
    ) {
        lemma_placed_node_is_walked(contract, root, no_accounts());
    }
}

/// In a valid contract every node may stand where it stands, and a list of
/// system parts and messages together stands alone. In a valid Mistral contract
/// every tool-result case holds exactly one composite and no list of blocks.
/// Composites stand nowhere else: the innermost message case around a composite
/// is always a tool result of Mistral.
pub proof fn lemma_valid_contract_is_well_placed(contract: AdapterContractV1)
    requires
        tree_verdict(contract) is Ok,
    ensures
        all_stand_legally(contract),
        results_are_composites(contract),
        merged_list_stands_alone(contract),
        forall|index: int|
            0 <= index < contract.tree.nodes@.len() && values_of(
                AdapterScalarSource::MistralToolResultContent,
            )((#[trigger] contract.tree.nodes@[index]).body) ==> contract.wire_id
                == AdapterWireId::MistralConversations && in_tool_result(
                around_node(contract.tree.nodes@, index),
            ),
{
    let nodes = contract.tree.nodes@;
    lemma_valid_tree_is_walked(contract);
    lemma_semantics_are_placement(contract);
    assert forall|index: int|
        0 <= index < nodes.len() && values_of(AdapterScalarSource::MistralToolResultContent)(
            (#[trigger] nodes[index]).body,
        ) implies contract.wire_id == AdapterWireId::MistralConversations && in_tool_result(
        around_node(nodes, index),
    ) by {
        lemma_composite_stands(contract, index);
    }
}

proof fn lemma_valid_tree_is_walked(contract: AdapterContractV1)
    requires
        tree_verdict(contract) is Ok,
    ensures
        is_walked_tree(contract),
        contract.tree.nodes@.len() <= u32::MAX,
{
    lemma_valid_contract_is_a_tree(contract);
}

proof fn lemma_composite_stands(contract: AdapterContractV1, index: int)
    requires
        all_stand_legally(contract),
        0 <= index < contract.tree.nodes@.len(),
        values_of(AdapterScalarSource::MistralToolResultContent)(
            contract.tree.nodes@[index].body,
        ),
    ensures
        contract.wire_id == AdapterWireId::MistralConversations,
        in_tool_result(around_node(contract.tree.nodes@, index)),
{
    assert(stands_legally(contract, index));
}

proof fn lemma_child_is_counted(
    nodes: Seq<ContractNode>,
    index: int,
    i: int,
    k: int,
    wanted: spec_fn(ContractNodeBody) -> bool,
)
    requires
        0 <= i <= k < references_of(nodes[index].body).len(),
        references_of(nodes[index].body)[k] < index,
    ensures
        count_below(nodes, index, i, wanted, nowhere()) >= count_under(
            nodes,
            references_of(nodes[index].body)[k] as int,
            wanted,
            nowhere(),
        ),
    decreases k - i,
{
    if i < k {
        lemma_child_is_counted(nodes, index, i + 1, k, wanted);
    }
}

/// The counts of a contract whose nodes form a tree reach all of them: a count is
/// zero exactly when no node is wanted.
pub proof fn lemma_counts_reach_every_node(
    contract: AdapterContractV1,
    wanted: spec_fn(ContractNodeBody) -> bool,
)
    requires
        has_tree(contract),
    ensures
        count_under(contract.tree.nodes@, contract.tree.root as int, wanted, nowhere()) == 0 <==> (
        forall|index: int|
            0 <= index < contract.tree.nodes@.len() ==> !wanted(
                (#[trigger] contract.tree.nodes@[index]).body,
            )),
{
    let nodes = contract.tree.nodes@;
    let root = contract.tree.root as int;
    if count_under(nodes, root, wanted, nowhere()) == 0 {
        assert forall|index: int| 0 <= index < nodes.len() implies !wanted(
            (#[trigger] nodes[index]).body,
        ) by {
            lemma_root_counts_at_least(nodes, index, wanted);
        }
    }
    if forall|index: int| 0 <= index < nodes.len() ==> !wanted((#[trigger] nodes[index]).body) {
        lemma_nothing_to_count(nodes, root, wanted);
    }
}

proof fn lemma_root_counts_at_least(
    nodes: Seq<ContractNode>,
    index: int,
    wanted: spec_fn(ContractNodeBody) -> bool,
)
    requires
        is_contract_tree(nodes),
        0 <= index < nodes.len(),
    ensures
        count_under(nodes, nodes.len() - 1, wanted, nowhere()) >= count_under(
            nodes,
            index,
            wanted,
            nowhere(),
        ),
    decreases nodes.len() - index,
{
    if index < nodes.len() - 1 {
        assert(has_parent(nodes, index));
        let parent = nodes[index].parent->Some_0 as int;
        let children = references_of(nodes[parent].body);
        let k = children.index_of(index as u32);
        assert(children[k] == index as u32);
        lemma_child_is_counted(nodes, parent, 0, k, wanted);
        lemma_root_counts_at_least(nodes, parent, wanted);
    }
}

proof fn lemma_nothing_to_count(
    nodes: Seq<ContractNode>,
    index: int,
    wanted: spec_fn(ContractNodeBody) -> bool,
)
    requires
        0 <= index < nodes.len(),
        forall|i: int| 0 <= i < nodes.len() ==> !wanted((#[trigger] nodes[i]).body),
    ensures
        count_under(nodes, index, wanted, nowhere()) == 0,
    decreases index, 1int, 0int,
{
    lemma_nothing_below(nodes, index, 0, wanted);
}

proof fn lemma_nothing_below(
    nodes: Seq<ContractNode>,
    index: int,
    i: int,
    wanted: spec_fn(ContractNodeBody) -> bool,
)
    requires
        0 <= index < nodes.len(),
        0 <= i <= references_of(nodes[index].body).len(),
        forall|i: int| 0 <= i < nodes.len() ==> !wanted((#[trigger] nodes[i]).body),
    ensures
        count_below(nodes, index, i, wanted, nowhere()) == 0,
    decreases index, 0int, references_of(nodes[index].body).len() - i,
{
    let children = references_of(nodes[index].body);
    if i < children.len() {
        lemma_nothing_below(nodes, index, i + 1, wanted);
        if children[i] < index {
            lemma_nothing_to_count(nodes, children[i] as int, wanted);
        }
    }
}

} // verus!
