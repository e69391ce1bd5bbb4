//! What holds of accepted bodies.

use vstd::prelude::*;

use crate::provider_api::{OrdinaryHeader, PrepareInput, ToolResultBlock, WireJsonDocument};
use crate::provider_validation::adapter::adapter_verdict;
use crate::provider_validation::adapter::debts::Debt;
use crate::provider_validation::adapter::digest::{digest_of, wire_body_bytes};
use crate::provider_validation::adapter::evaluate::{
    chosen, entered, evaluated, evaluated_items, evaluated_members, expected_body, member_key,
    omission, result_of_scope, Inputs, Ledger, Scope,
};
use crate::provider_validation::adapter::json::{lemma_compared_text, tree_json, JsonTree};
use crate::provider_validation::adapter::source::{
    mistral_content_value, pay_blocks, pay_systems, scalar_value, string_texts, system_joined_value,
};
use crate::provider_validation::adapter::types::{
    AdapterCollection, AdapterContractV1, AdapterPresence, AdapterPresenceSource,
    AdapterScalarSource, AdapterTransform, AdapterValidationResult, AdapterVariantSource,
    ContractNodeBody, ValidatedCatalogEntryView,
};
use crate::provider_validation::wire_json::document_json;

verus! {

/// The canonical text of an accepted body is that of the value which the
/// contract asks for the request.
pub proof fn lemma_accepted_body_is_expected(
    contract: AdapterContractV1,
    selected: ValidatedCatalogEntryView<'_>,
    original: PrepareInput,
    prepared: WireJsonDocument,
    headers: Seq<OrdinaryHeader>,
)
    requires
        adapter_verdict(contract, selected, original, prepared, headers) is Ok,
    ensures
        expected_body(contract, selected, original) matches Ok(expected) && document_json(prepared@)
            == tree_json(expected),
{
    let expected = expected_body(contract, selected, original)->Ok_0;
    let nodes = prepared@.nodes;
    lemma_compared_text(
        expected,
        nodes,
        prepared@.root as int,
        Seq::new(nodes.len(), |i: int| 0u8),
    );
}

/// A contract and a request determine the body: all accepted bodies have the
/// same canonical text and the same digest, whatever the order of their nodes
/// and whatever the headers.
pub proof fn lemma_request_determines_the_body(
    contract: AdapterContractV1,
    selected: ValidatedCatalogEntryView<'_>,
    original: PrepareInput,
    prepared: WireJsonDocument,
    headers: Seq<OrdinaryHeader>,
    other: WireJsonDocument,
    other_headers: Seq<OrdinaryHeader>,
)
    requires
        adapter_verdict(contract, selected, original, prepared, headers) is Ok,
        adapter_verdict(contract, selected, original, other, other_headers) is Ok,
    ensures
        document_json(prepared@) == document_json(other@),
        digest_of(wire_body_bytes(document_json(prepared@))) == digest_of(
            wire_body_bytes(document_json(other@)),
        ),
{
    lemma_accepted_body_is_expected(contract, selected, original, prepared, headers);
    lemma_accepted_body_is_expected(contract, selected, original, other, other_headers);
}

// ---------------------------------------------------------------------------
// Parts of a request
// ---------------------------------------------------------------------------

/// Whether everything that was carried before is still carried.
pub open spec fn keeps(before: Ledger, after: Ledger) -> bool {
    before.consumed.subset_of(after.consumed) && before.optional.subset_of(after.optional)
}

/// Whether an outcome with a ledger keeps what was carried before.
pub open spec fn outcome_keeps<T>(
    before: Ledger,
    outcome: AdapterValidationResult<(T, Ledger)>,
) -> bool {
    outcome matches Ok((_, after)) ==> keeps(before, after)
}

proof fn lemma_blocks_keep(ledger: Ledger, m: usize, blocks: Seq<ToolResultBlock>, i: int)
    ensures
        pay_blocks(ledger, m, blocks, i) matches Ok(next) ==> keeps(ledger, next),
    decreases blocks.len() - i,
{
    if i < blocks.len() {
        let b = i as usize;
        if let Ok(next) = ledger.pay(Debt::BlockVariant(m, b)) {
            match blocks[i] {
                ToolResultBlock::Text(_) => {
                    if let Ok(reached) = next.pay(Debt::BlockText(m, b)) {
                        lemma_blocks_keep(reached, m, blocks, i + 1);
                    }
                },
                ToolResultBlock::Image(_) => {
                    if let Ok(reached) = next.pay(Debt::BlockBytes(m, b)) {
                        if let Ok(last) = reached.pay(Debt::BlockMedia(m, b)) {
                            lemma_blocks_keep(last, m, blocks, i + 1);
                        }
                    }
                },
            }
        }
    }
}

proof fn lemma_systems_keep(ledger: Ledger, count: int, i: int)
    ensures
        pay_systems(ledger, count, i) matches Ok(next) ==> keeps(ledger, next),
    decreases count - i,
{
    if i < count {
        if let Ok(next) = ledger.pay(Debt::System(i as usize)) {
            lemma_systems_keep(next, count, i + 1);
        }
    }
}

proof fn lemma_composites_keep(
    inputs: Inputs,
    transform: AdapterTransform,
    scope: Scope,
    ledger: Ledger,
)
    ensures
        outcome_keeps(ledger, mistral_content_value(inputs, transform, scope, ledger)),
        outcome_keeps(ledger, system_joined_value(inputs, transform, scope, ledger)),
{
    if let Some((m, result)) = result_of_scope(inputs.original, scope) {
        if let Ok(opened) = ledger.pay(Debt::MessageBlocks(m)) {
            if let Ok(next) = opened.pay(Debt::MessageStatus(m)) {
                lemma_blocks_keep(next, m, result.blocks@, 0);
            }
        }
    }
    if let Ok(next) = ledger.pay(Debt::SystemCollection) {
        lemma_systems_keep(next, string_texts(inputs.original.system@).len() as int, 0);
    }
}

proof fn lemma_scalars_keep(
    inputs: Inputs,
    source: AdapterScalarSource,
    transform: AdapterTransform,
    scope: Scope,
    ledger: Ledger,
)
    ensures
        outcome_keeps(ledger, scalar_value(inputs, source, transform, scope, ledger)),
{
    lemma_composites_keep(inputs, transform, scope, ledger);
}

proof fn lemma_openings_keep(
    inputs: Inputs,
    presence: AdapterPresence,
    presence_source: Option<AdapterPresenceSource>,
    collection: AdapterCollection,
    variant: AdapterVariantSource,
    scope: Scope,
    ledger: Ledger,
)
    ensures
        outcome_keeps(ledger, omission(inputs, presence, presence_source, scope, ledger)),
        outcome_keeps(ledger, entered(inputs, collection, scope, ledger)),
        outcome_keeps(ledger, chosen(inputs, variant, scope, ledger)),
{
}

/// Carrying on never takes back: whatever a body has carried before a node is
/// carried after it. As no part is carried that was carried before, every part
/// is carried at most once.
pub proof fn lemma_evaluation_keeps_parts(
    inputs: Inputs,
    index: int,
    scope: Scope,
    ledger: Ledger,
)
    requires
        0 <= index,
    ensures
        outcome_keeps(ledger, evaluated(inputs, index, scope, ledger)),
    decreases index, 1int, 0int,
{
    let node = inputs.contract.tree.nodes@[index];
    lemma_openings_keep(
        inputs,
        node.presence,
        node.presence_source,
        AdapterCollection::System,
        AdapterVariantSource::Message,
        scope,
        ledger,
    );
    if let Ok((false, next)) = omission(inputs, node.presence, node.presence_source, scope, ledger) {
        match node.body {
            ContractNodeBody::Object(_) => {
                lemma_members_keep(inputs, index, 0, scope, next, Seq::empty());
            },
            ContractNodeBody::Array(array) => {
                lemma_openings_keep(
                    inputs,
                    node.presence,
                    node.presence_source,
                    array.collection,
                    AdapterVariantSource::Message,
                    scope,
                    next,
                );
                if let Ok((scopes, opened)) = entered(inputs, array.collection, scope, next) {
                    lemma_items_keep(inputs, index, scopes, 0, opened, Seq::empty());
                }
            },
            ContractNodeBody::Switch(switch) => {
                lemma_openings_keep(
                    inputs,
                    node.presence,
                    node.presence_source,
                    AdapterCollection::System,
                    switch.source,
                    scope,
                    next,
                );
                if let Ok((ordinal, opened)) = chosen(inputs, switch.source, scope, next) {
                    if ordinal < switch.cases@.len() && switch.cases@[ordinal as int].node < index {
                        lemma_evaluation_keeps_parts(
                            inputs,
                            switch.cases@[ordinal as int].node as int,
                            scope,
                            opened,
                        );
                    }
                }
            },
            ContractNodeBody::Value(value) => {
                lemma_scalars_keep(inputs, value.source, value.transform, scope, next);
            },
            ContractNodeBody::Constant(_) => {},
        }
    }
}

proof fn lemma_members_keep(
    inputs: Inputs,
    index: int,
    i: int,
    scope: Scope,
    ledger: Ledger,
    done: Seq<(Seq<char>, JsonTree)>,
)
    requires
        0 <= index,
    ensures
        outcome_keeps(ledger, evaluated_members(inputs, index, i, scope, ledger, done)),
    decreases index, 0int, inputs.contract.tree.nodes@[index].body->Object_0.children@.len() - i,
{
    let nodes = inputs.contract.tree.nodes@;
    let children = nodes[index].body->Object_0.children@;
    if 0 <= i < children.len() && children[i] < index {
        if let Some(key) = member_key(nodes[children[i] as int]) {
            lemma_evaluation_keeps_parts(inputs, children[i] as int, scope, ledger);
            match evaluated(inputs, children[i] as int, scope, ledger) {
                Ok((None, next)) => {
                    lemma_members_keep(inputs, index, i + 1, scope, next, done);
                },
                Ok((Some(value), next)) => {
                    lemma_members_keep(inputs, index, i + 1, scope, next, done.push((key, value)));
                },
                Err(_) => {},
            }
        }
    }
}

proof fn lemma_items_keep(
    inputs: Inputs,
    index: int,
    scopes: Seq<Scope>,
    i: int,
    ledger: Ledger,
    done: Seq<JsonTree>,
)
    requires
        0 <= index,
    ensures
        outcome_keeps(ledger, evaluated_items(inputs, index, scopes, i, ledger, done)),
    decreases index, 0int, scopes.len() - i,
{
    let item = inputs.contract.tree.nodes@[index].body->Array_0.item;
    if 0 <= i < scopes.len() && item < index {
        lemma_evaluation_keeps_parts(inputs, item as int, scopes[i], ledger);
        if let Ok((Some(value), next)) = evaluated(inputs, item as int, scopes[i], ledger) {
            lemma_items_keep(inputs, index, scopes, i + 1, next, done.push(value));
        }
    }
}

} // verus!
