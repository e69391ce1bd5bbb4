//! Checked logical-charge accounting.

use vstd::prelude::*;

use crate::provider_validation::{ValidationError, ValidationResult};
use crate::text::byte_len;

verus! {

/// A running total of logical bytes with an upper bound.
#[derive(Debug, Clone, Copy, PartialEq, Eq)]
pub struct LogicalCharge {
    pub value: u64,
    pub limit: u64,
}

/// The state of a validation that charges as it goes: the total so far, its
/// bound, and the verdict. After the first failure nothing changes any more.
pub struct Tally {
    pub value: int,
    pub limit: int,
    pub verdict: ValidationResult,
}

impl Tally {
    /// Charging `amount`: fails with `Limit` when the sum leaves 64 bits or
    /// exceeds the bound.
    pub open spec fn charge(self, amount: int) -> Tally {
        if self.verdict is Err {
            self
        } else if self.value + amount > u64::MAX {
            Tally { verdict: Err(ValidationError::Limit), ..self }
        } else if self.value + amount > self.limit {
            Tally { value: self.value + amount, verdict: Err(ValidationError::Limit), ..self }
        } else {
            Tally { value: self.value + amount, ..self }
        }
    }

    /// Charging a text: a four byte length and the bytes.
    pub open spec fn string(self, text: Seq<char>) -> Tally {
        self.charge(4).charge(byte_len(text) as int)
    }

    /// A check that charges nothing.
    pub open spec fn check(self, verdict: ValidationResult) -> Tally {
        if self.verdict is Err {
            self
        } else {
            Tally { verdict, ..self }
        }
    }

    /// A test that fails with `error`.
    pub open spec fn ensure(self, holds: bool, error: ValidationError) -> Tally {
        self.check(crate::provider_validation::verdict(holds, error))
    }

    /// The end of a validation that yields `value` when nothing failed.
    pub open spec fn finish<T>(self, value: T) -> ValidationResult<T> {
        match self.verdict {
            Ok(()) => Ok(value),
            Err(error) => Err(error),
        }
    }
}

impl LogicalCharge {
    /// The tally of a charge on which no check has failed yet.
    pub open spec fn tally(self) -> Tally {
        Tally { value: self.value as int, limit: self.limit as int, verdict: Ok(()) }
    }

    /// The tally of a charge after a step with the given outcome.
    pub open spec fn after<T>(self, outcome: ValidationResult<T>) -> Tally {
        Tally {
            value: self.value as int,
            limit: self.limit as int,
            verdict: match outcome {
                Ok(_) => Ok(()),
                Err(error) => Err(error),
            },
        }
    }

    /// An empty charge with the given bound.
    pub fn new(limit: u64) -> (charge: Self)
        ensures
            charge == (LogicalCharge { value: 0, limit }),
    {
        Self { value: 0, limit }
    }

    /// Adds `value` to the total.
    pub fn add(&mut self, value: u64) -> (result: ValidationResult)
        ensures
            final(self).after(result) == old(self).tally().charge(value as int),
    {
        match self.value.checked_add(value) {
            Some(sum) => {
                self.value = sum;
            },
            None => {
                return Err(ValidationError::Limit);
            },
        }
        if self.value > self.limit {
            return Err(ValidationError::Limit);
        }
        Ok(())
    }

    /// Adds a length-prefixed text to the total.
    pub fn string(&mut self, value: &str) -> (result: ValidationResult)
        ensures
            final(self).after(result) == old(self).tally().string(value@),
    {
        self.add(4)?;
        self.add(checked_len(value.as_bytes().len())?)
    }

    /// The total so far.
    pub fn value(self) -> (value: u64)
        ensures
            value == self.value,
    {
        self.value
    }
}

/// A length as a 64-bit number.
pub fn checked_len(value: usize) -> (result: ValidationResult<u64>)
    ensures
        result == ValidationResult::<u64>::Ok(value as u64),
{
    Ok(value as u64)
}

/// A length as a 32-bit number, or `Limit` when it does not fit.
pub fn checked_u32_len(value: usize) -> (result: ValidationResult<u32>)
    ensures
        value <= u32::MAX ==> result == ValidationResult::<u32>::Ok(value as u32),
        value > u32::MAX ==> result == ValidationResult::<u32>::Err(ValidationError::Limit),
{
    if value > 0xffff_ffff {
        return Err(ValidationError::Limit);
    }
    Ok(value as u32)
}

} // verus!
