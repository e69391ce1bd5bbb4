//! Pure validation of untrusted provider DTO values.
//!
//! Everything here is local and deterministic: there is no store, resource,
//! route, credential, transport, cache or network state.

use vstd::prelude::*;

pub mod adapter;
pub mod catalog;
pub mod catalog_laws;
pub mod charge;
pub mod charge_laws;
pub mod context_counter;
pub mod context_laws;
pub mod copies;
pub mod decoder;
pub mod domains;
pub mod hashing;
pub mod header_laws;
pub mod number_laws;
pub mod preimage;
pub mod prepare;
pub mod prepare_laws;
pub mod request_laws;
pub mod scalar;
pub mod scalar_laws;
pub mod wire_json;
pub mod wire_text;
pub mod wire_tree;
pub mod wire_value;

verus! {

/// Why a value was refused.
#[derive(Debug, Clone, Copy, PartialEq, Eq, Structural)]
pub enum ValidationError {
    /// The value is malformed or does not fit its surroundings.
    InvalidArgument,
    /// The value exceeds a size, count or charge bound.
    Limit,
}

/// Outcome of a validation step.
pub type ValidationResult<T = ()> = Result<T, ValidationError>;

/// The verdict of two checks made in order: the first failure wins.
pub open spec fn also(first: ValidationResult, second: ValidationResult) -> ValidationResult {
    if first is Err {
        first
    } else {
        second
    }
}

/// The verdict of a single test that fails with `error`.
pub open spec fn verdict(holds: bool, error: ValidationError) -> ValidationResult {
    if holds {
        Ok(())
    } else {
        Err(error)
    }
}

} // verus!
