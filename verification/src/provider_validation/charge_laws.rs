//! What validations that charge as they go come to.

use vstd::prelude::*;
use vstd::utf8::encode_utf8;

use crate::provider_validation::charge::Tally;
use crate::provider_validation::{ValidationError, ValidationResult};

verus! {

/// Whether a verdict is the right one on a value: accepted when it is sound and
/// small, refused for its argument only when it is not sound, and refused for
/// its size only when it is not small.
pub open spec fn judges(outcome: ValidationResult, sound: bool, small: bool) -> bool {
    match outcome {
        Ok(()) => sound && small,
        Err(ValidationError::InvalidArgument) => !sound,
        Err(ValidationError::Limit) => !small,
    }
}

/// The number of bytes of a text.
pub open spec fn text_size(text: Seq<char>) -> int {
    encode_utf8(text).len() as int
}

/// Whether there is room for a charge.
pub open spec fn has_room(tally: Tally, cost: int) -> bool {
    tally.value + cost <= tally.limit && tally.value + cost <= 0xffff_ffff_ffff_ffff
}

/// Whether a part of a validation does what it should: it accepts what is sound
/// and small and has room, and then charges exactly its cost; it refuses for the
/// argument only what is not sound, and for the size only what is not small or
/// has no room. After a failure it does nothing.
pub open spec fn is_step(before: Tally, after: Tally, sound: bool, small: bool, cost: int) -> bool {
    if before.verdict is Err {
        after == before
    } else {
        has_room(before, 0) ==> {
            &&& judges(after.verdict, sound, small && has_room(before, cost))
            &&& after.verdict is Ok ==> after.value == before.value + cost && after.limit
                == before.limit
        }
    }
}

/// Two parts in a row are one: sound and small when both are, at the cost of
/// both.
pub proof fn lemma_steps(
    first: Tally,
    second: Tally,
    third: Tally,
    sound: bool,
    small: bool,
    cost: int,
    then_sound: bool,
    then_small: bool,
    then_cost: int,
)
    requires
        is_step(first, second, sound, small, cost),
        is_step(second, third, then_sound, then_small, then_cost),
        0 <= cost,
        0 <= then_cost,
    ensures
        is_step(
            first,
            third,
            sound && then_sound,
            small && then_small,
            cost + then_cost,
        ),
{
}

/// A charge is a step at its own cost.
pub proof fn lemma_charge_step(tally: Tally, amount: int)
    requires
        0 <= amount,
    ensures
        is_step(tally, tally.charge(amount), true, true, amount),
{
}

/// A text is charged its bytes and four more.
pub proof fn lemma_string_step(tally: Tally, text: Seq<char>)
    ensures
        is_step(
            tally,
            tally.string(text),
            true,
            true,
            4 + text_size(text),
        ),
{
    lemma_charge_step(tally, 4);
    let size = text_size(text);
    lemma_charge_step(tally.charge(4), size);
    lemma_steps(
        tally,
        tally.charge(4),
        tally.string(text),
        true,
        true,
        4,
        true,
        true,
        size,
    );
}

/// A check is a step without a cost.
pub proof fn lemma_check_step(tally: Tally, outcome: ValidationResult, sound: bool, small: bool)
    requires
        judges(outcome, sound, small),
    ensures
        is_step(tally, tally.check(outcome), sound, small, 0),
{
}

/// A test for the argument.
pub proof fn lemma_argument_step(tally: Tally, holds: bool)
    ensures
        is_step(tally, tally.ensure(holds, ValidationError::InvalidArgument), holds, true, 0),
{
}

/// A test for the size.
pub proof fn lemma_size_step(tally: Tally, holds: bool)
    ensures
        is_step(tally, tally.ensure(holds, ValidationError::Limit), true, holds, 0),
{
}

} // verus!
