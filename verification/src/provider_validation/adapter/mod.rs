//! Closed adapter contracts: validation and interpretation.

use vstd::prelude::*;

use crate::provider_api::{OrdinaryHeader, PrepareInput, WireJsonDocument};
use crate::provider_validation::adapter::digest::{
    body_digest, contract_bytes, contract_digest, contract_fits, digest_of, header_bytes,
    headers_fit, ordinary_header_digest, wire_body_bytes,
};
use crate::provider_validation::adapter::evaluate::{evaluate_contract, expected_body};
use crate::provider_validation::adapter::header::{header_rules_verdict, validate_headers};
use crate::provider_validation::adapter::json::{compare_and_serialize, comparison_verdict};
use crate::provider_validation::adapter::structure::{
    adapter_contract_verdict, lemma_valid_contract_is_a_tree, validate_contract,
};
use crate::provider_validation::adapter::types::{
    both, demand, AdapterContractV1, AdapterValidationError, AdapterValidationResult,
    ValidatedAdapter, ValidatedCatalogEntryView,
};
use crate::provider_validation::scalar::is_digest;
use crate::provider_validation::wire_json::document_json;

pub mod choice_laws;
pub mod contract_laws;
pub mod debts;
pub mod digest;
pub mod encoding;
pub mod evaluate;
pub mod header;
pub mod json;
pub mod laws;
pub mod mistral;
pub mod part_laws;
pub mod placement;
pub mod policy;
pub mod semantics;
pub mod source;
pub mod structure;
pub mod types;
pub mod value_laws;

verus! {

/// The verdict on a prepared body and its headers under a contract, for a
/// request: the contract is valid, the body holds exactly what the contract
/// asks for the request, and the headers are those that its rules let a
/// provider set.
pub open spec fn adapter_verdict(
    contract: AdapterContractV1,
    selected: ValidatedCatalogEntryView<'_>,
    original: PrepareInput,
    prepared: WireJsonDocument,
    headers: Seq<OrdinaryHeader>,
) -> AdapterValidationResult<()> {
    both(
        adapter_contract_verdict(contract),
        match expected_body(contract, selected, original) {
            Err(error) => Err(error),
            Ok(expected) => both(
                comparison_verdict(expected, prepared@),
                both(
                    header_rules_verdict(contract.ordinary_header_rules@, headers),
                    demand(
                        contract_fits(contract) && headers_fit(headers),
                        AdapterValidationError::Limit,
                    ),
                ),
            ),
        },
    )
}

/// Checks a prepared body and its headers under a contract, for a request. The
/// digests bind the contract, the canonical text of the body and the headers.
pub fn validate_adapter(
    contract: &AdapterContractV1,
    selected: ValidatedCatalogEntryView<'_>,
    original: &PrepareInput,
    prepared: &WireJsonDocument,
    headers: &[OrdinaryHeader],
) -> (result: Result<ValidatedAdapter, AdapterValidationError>)
    ensures
        match result {
            Ok(validated) => {
                &&& adapter_verdict(*contract, selected, *original, *prepared, headers@) is Ok
                &&& validated.wire_id == contract.wire_id
                &&& validated.decoder_kind == contract.decoder_kind
                &&& validated.contract_digest@ == digest_of(contract_bytes(*contract))
                &&& validated.body_digest@ == digest_of(wire_body_bytes(document_json(prepared@)))
                &&& validated.ordinary_header_digest@ == digest_of(header_bytes(headers@))
                &&& is_digest(validated.contract_digest@)
                &&& is_digest(validated.body_digest@)
                &&& is_digest(validated.ordinary_header_digest@)
            },
            Err(error) => adapter_verdict(*contract, selected, *original, *prepared, headers@)
                == AdapterValidationResult::<()>::Err(error),
        },
{
    validate_contract(contract)?;
    proof {
        lemma_valid_contract_is_a_tree(*contract);
    }
    let expected = evaluate_contract(contract, selected, original)?;
    let body = compare_and_serialize(&expected, prepared)?;
    validate_headers(contract.ordinary_header_rules.as_slice(), headers)?;
    let contract_digest = contract_digest(contract)?;
    let body_digest = body_digest(body.as_slice())?;
    let ordinary_header_digest = ordinary_header_digest(headers)?;
    Ok(
        ValidatedAdapter {
            wire_id: contract.wire_id,
            decoder_kind: contract.decoder_kind,
            contract_digest,
            body_digest,
            ordinary_header_digest,
        },
    )
}

} // verus!
