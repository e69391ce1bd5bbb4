//! Closed ordinary-header rule matching.

use vstd::prelude::*;
use vstd::utf8::encode_utf8;

use crate::provider_api::OrdinaryHeader;
use crate::provider_validation::adapter::structure::{
    lemma_rules_order, lemma_valid_rules_are_distinct, rules_verdict,
};
use crate::provider_validation::adapter::types::{
    demand, AdapterValidationError, AdapterValidationResult, OneOfHeaderRule, OrdinaryHeaderRule,
};
use crate::provider_validation::prepare::{headers_verdict, texts_of, validate_ordinary_headers};
use crate::provider_validation::prepare_laws::{are_sorted, lemma_accepted_headers_are_sorted};
use crate::provider_validation::ValidationError;
use crate::text::{bytes_before, lemma_byte_order, same_text};

verus! {

/// A refused header.
pub open spec fn header_error(error: ValidationError) -> AdapterValidationError {
    match error {
        ValidationError::InvalidArgument => AdapterValidationError::HeaderMismatch,
        ValidationError::Limit => AdapterValidationError::Limit,
    }
}

/// The name that a rule is about.
pub open spec fn rule_name(rule: OrdinaryHeaderRule) -> Seq<char> {
    match rule {
        OrdinaryHeaderRule::Fixed(rule) => rule.name@,
        OrdinaryHeaderRule::OneOf(rule) => rule.name@,
    }
}

/// Whether one of the values of a rule is the given one.
pub open spec fn allows(rule: OneOfHeaderRule, value: Seq<char>) -> bool {
    exists|i: int| 0 <= i < rule.values@.len() && (#[trigger] rule.values@[i])@ == value
}

/// Whether header `at` has the given name.
pub open spec fn is_named(headers: Seq<OrdinaryHeader>, at: int, name: Seq<char>) -> bool {
    at < headers.len() && headers[at].name@ == name
}

/// Whether the headers from `at` on are those of the rules from `from` on, in
/// order: a fixed header is absent, a chosen one has one of its values and is
/// present where it is required, and there is no other.
pub open spec fn rules_hold(
    rules: Seq<OrdinaryHeaderRule>,
    from: int,
    headers: Seq<OrdinaryHeader>,
    at: int,
) -> bool
    decreases rules.len() - from,
{
    if from >= rules.len() {
        at == headers.len()
    } else {
        match rules[from] {
            OrdinaryHeaderRule::Fixed(rule) => {
                &&& !is_named(headers, at, rule.name@)
                &&& rules_hold(rules, from + 1, headers, at)
            },
            OrdinaryHeaderRule::OneOf(rule) => if is_named(headers, at, rule.name@) {
                &&& allows(rule, headers[at].value@)
                &&& rules_hold(rules, from + 1, headers, at + 1)
            } else {
                &&& !rule.required
                &&& rules_hold(rules, from + 1, headers, at)
            },
        }
    }
}

/// The verdict on the headers of a prepared request under the rules of its
/// contract.
pub open spec fn header_rules_verdict(
    rules: Seq<OrdinaryHeaderRule>,
    headers: Seq<OrdinaryHeader>,
) -> AdapterValidationResult<()> {
    match headers_verdict(headers, Seq::empty()) {
        Err(error) => Err(header_error(error)),
        Ok(_) => demand(rules_hold(rules, 0, headers, 0), AdapterValidationError::HeaderMismatch),
    }
}

/// Whether one of the values of a rule is the given one.
pub fn rule_allows(rule: &OneOfHeaderRule, value: &str) -> (found: bool)
    ensures
        found == allows(*rule, value@),
{
    let mut i: usize = 0;
    while i < rule.values.len()
        invariant
            i <= rule.values@.len(),
            forall|j: int| 0 <= j < i ==> (#[trigger] rule.values@[j])@ != value@,
        decreases rule.values.len() - i,
    {
        if same_text(rule.values[i].as_str(), value) {
            assert(rule.values@[i as int]@ == value@);
            return true;
        }
        i += 1;
    }
    false
}

/// Whether header `at` has the given name.
pub fn named(headers: &[OrdinaryHeader], at: usize, name: &str) -> (found: bool)
    ensures
        found == is_named(headers@, at as int, name@),
{
    at < headers.len() && same_text(headers[at].name.as_str(), name)
}

/// Checks the headers of a prepared request against the rules of its contract.
pub fn validate_headers(rules: &[OrdinaryHeaderRule], headers: &[OrdinaryHeader]) -> (result:
    AdapterValidationResult<()>)
    ensures
        result == header_rules_verdict(rules@, headers@),
{
    let reserved: Vec<&str> = Vec::new();
    assert(texts_of(reserved@) =~= Seq::empty());
    match validate_ordinary_headers(headers, reserved.as_slice()) {
        Ok(_) => {},
        Err(ValidationError::InvalidArgument) => {
            return Err(AdapterValidationError::HeaderMismatch);
        },
        Err(ValidationError::Limit) => {
            return Err(AdapterValidationError::Limit);
        },
    }
    let mut at: usize = 0;
    let mut i: usize = 0;
    while i < rules.len()
        invariant
            i <= rules@.len(),
            at <= headers@.len(),
            headers_verdict(headers@, Seq::empty()) is Ok,
            rules_hold(rules@, 0, headers@, 0) == rules_hold(
                rules@,
                i as int,
                headers@,
                at as int,
            ),
        decreases rules.len() - i,
    {
        match &rules[i] {
            OrdinaryHeaderRule::Fixed(rule) => {
                if named(headers, at, rule.name.as_str()) {
                    return Err(AdapterValidationError::HeaderMismatch);
                }
            },
            OrdinaryHeaderRule::OneOf(rule) => {
                if named(headers, at, rule.name.as_str()) {
                    if !rule_allows(rule, headers[at].value.as_str()) {
                        return Err(AdapterValidationError::HeaderMismatch);
                    }
                    at += 1;
                } else if rule.required {
                    return Err(AdapterValidationError::HeaderMismatch);
                }
            },
        }
        i += 1;
    }
    if at != headers.len() {
        return Err(AdapterValidationError::HeaderMismatch);
    }
    Ok(())
}

/// Whether a rule lets a provider set the given header.
pub open spec fn permits(rule: OrdinaryHeaderRule, header: OrdinaryHeader) -> bool {
    rule matches OrdinaryHeaderRule::OneOf(rule) && rule.name@ == header.name@ && allows(
        rule,
        header.value@,
    )
}

/// Whether one of the rules from `from` on lets a provider set the given header.
pub open spec fn is_permitted(
    rules: Seq<OrdinaryHeaderRule>,
    from: int,
    header: OrdinaryHeader,
) -> bool {
    exists|r: int| from <= r < rules.len() && permits(#[trigger] rules[r], header)
}

/// Whether a rule asks for its header.
pub open spec fn is_required(rule: OrdinaryHeaderRule) -> bool {
    rule matches OrdinaryHeaderRule::OneOf(rule) && rule.required
}

/// Whether one of the headers from `at` on has the given name.
pub open spec fn is_given(headers: Seq<OrdinaryHeader>, at: int, name: Seq<char>) -> bool {
    exists|h: int| at <= h < headers.len() && (#[trigger] headers[h]).name@ == name
}

/// Whether the headers from `at` on are those that the rules from `from` on let
/// a provider set: each is permitted, and every required one is there.
pub open spec fn are_permitted(
    rules: Seq<OrdinaryHeaderRule>,
    from: int,
    headers: Seq<OrdinaryHeader>,
    at: int,
) -> bool {
    &&& forall|h: int|
        at <= h < headers.len() ==> is_permitted(rules, from, #[trigger] headers[h])
    &&& forall|r: int|
        from <= r < rules.len() && is_required(#[trigger] rules[r]) ==> is_given(
            headers,
            at,
            rule_name(rules[r]),
        )
}

proof fn lemma_held_rules_permit(
    rules: Seq<OrdinaryHeaderRule>,
    from: int,
    headers: Seq<OrdinaryHeader>,
    at: int,
)
    requires
        0 <= from <= rules.len(),
        0 <= at <= headers.len(),
        rules_hold(rules, from, headers, at),
    ensures
        are_permitted(rules, from, headers, at),
    decreases rules.len() - from,
{
    if from < rules.len() {
        let taken: int = if rules[from] is OneOf && is_named(headers, at, rule_name(rules[from])) {
            1
        } else {
            0
        };
        lemma_held_rules_permit(rules, from + 1, headers, at + taken);
        if taken == 1 {
            assert(permits(rules[from], headers[at]));
        }
        assert forall|h: int| at <= h < headers.len() implies is_permitted(
            rules,
            from,
            #[trigger] headers[h],
        ) by {
            if h >= at + taken {
                assert(is_permitted(rules, from + 1, headers[h]));
            }
        }
        assert forall|r: int|
            from <= r < rules.len() && is_required(#[trigger] rules[r]) implies is_given(
            headers,
            at,
            rule_name(rules[r]),
        ) by {
            if r > from {
                assert(is_given(headers, at + taken, rule_name(rules[r])));
            } else {
                assert(headers[at].name@ == rule_name(rules[r]));
            }
        }
    }
}

proof fn lemma_permitted_rules_hold(
    rules: Seq<OrdinaryHeaderRule>,
    from: int,
    headers: Seq<OrdinaryHeader>,
    at: int,
)
    requires
        0 <= from <= rules.len(),
        0 <= at <= headers.len(),
        rules_verdict(rules) is Ok,
        are_sorted(headers),
        are_permitted(rules, from, headers, at),
    ensures
        rules_hold(rules, from, headers, at),
    decreases rules.len() - from,
{
    if from == rules.len() {
        if at < headers.len() {
            assert(is_permitted(rules, from, headers[at]));
        }
    } else {
        let name = rule_name(rules[from]);
        lemma_valid_rules_are_distinct(rules);
        let taken: int = if rules[from] is OneOf && is_named(headers, at, name) {
            1
        } else {
            0
        };
        if is_named(headers, at, name) {
            assert(is_permitted(rules, from, headers[at]));
            let r = choose|r: int|
                from <= r < rules.len() && permits(#[trigger] rules[r], headers[at]);
            assert(rule_name(rules[r]) == rule_name(rules[from]));
            assert(r == from);
        }
        assert forall|h: int| at + taken <= h < headers.len() implies (
        #[trigger] headers[h]).name@ != name by {
            lemma_later_header(rules, from, headers, at, h);
        }
        assert forall|h: int| at + taken <= h < headers.len() implies is_permitted(
            rules,
            from + 1,
            #[trigger] headers[h],
        ) by {
            assert(is_permitted(rules, from, headers[h]));
            let r = choose|r: int|
                from <= r < rules.len() && permits(#[trigger] rules[r], headers[h]);
            assert(rule_name(rules[r]) == headers[h].name@);
            assert(from + 1 <= r && permits(rules[r], headers[h]));
        }
        assert forall|r: int|
            from + 1 <= r < rules.len() && is_required(#[trigger] rules[r]) implies is_given(
            headers,
            at + taken,
            rule_name(rules[r]),
        ) by {
            assert(is_given(headers, at, rule_name(rules[r])));
            let h = choose|h: int|
                at <= h < headers.len() && (#[trigger] headers[h]).name@ == rule_name(rules[r]);
            assert(rule_name(rules[from]) != rule_name(rules[r]));
            assert(at + taken <= h);
        }
        lemma_permitted_rules_hold(rules, from + 1, headers, at + taken);
        if is_required(rules[from]) {
            assert(is_given(headers, at, name));
        }
    }
}

/// Behind the first header none has the name of the first rule.
proof fn lemma_later_header(
    rules: Seq<OrdinaryHeaderRule>,
    from: int,
    headers: Seq<OrdinaryHeader>,
    at: int,
    h: int,
)
    requires
        0 <= from < rules.len(),
        0 <= at <= h < headers.len(),
        rules_verdict(rules) is Ok,
        are_sorted(headers),
        are_permitted(rules, from, headers, at),
        h > at || !is_named(headers, at, rule_name(rules[from])),
    ensures
        headers[h].name@ != rule_name(rules[from]),
{
    if h > at && headers[h].name@ == rule_name(rules[from]) {
        let first = encode_utf8(headers[at].name@);
        let name = encode_utf8(rule_name(rules[from]));
        assert(bytes_before(first, name)) by {
            assert(bytes_before(encode_utf8(headers[at].name@), encode_utf8(headers[h].name@)));
        }
        assert(is_permitted(rules, from, headers[at]));
        let r = choose|r: int| from <= r < rules.len() && permits(#[trigger] rules[r], headers[at]);
        assert(rule_name(rules[r]) == headers[at].name@);
        if from < r {
            lemma_rules_order(rules, from, r);
            lemma_byte_order(first, name, first);
        }
        lemma_byte_order(first, first, first);
    }
}

/// Under valid rules, headers are accepted exactly when they are well formed,
/// each is one that a rule lets a provider set, with one of the values of that
/// rule, and every required header is there. Then no fixed header is.
pub proof fn lemma_accepted_headers_are_closed(
    rules: Seq<OrdinaryHeaderRule>,
    headers: Seq<OrdinaryHeader>,
)
    requires
        rules_verdict(rules) is Ok,
    ensures
        header_rules_verdict(rules, headers) is Ok <==> headers_verdict(headers, Seq::empty()) is Ok
            && are_permitted(rules, 0, headers, 0),
        header_rules_verdict(rules, headers) is Ok ==> forall|r: int, h: int|
            0 <= r < rules.len() && 0 <= h < headers.len() && rules[r] is Fixed ==> rule_name(
                #[trigger] rules[r],
            ) != (#[trigger] headers[h]).name@,
{
    lemma_accepted_headers_are_sorted(headers, Seq::empty());
    if header_rules_verdict(rules, headers) is Ok {
        lemma_held_rules_permit(rules, 0, headers, 0);
        lemma_valid_rules_are_distinct(rules);
        assert forall|r: int, h: int|
            0 <= r < rules.len() && 0 <= h < headers.len() && rules[r] is Fixed implies rule_name(
            #[trigger] rules[r],
        ) != (#[trigger] headers[h]).name@ by {
            assert(is_permitted(rules, 0, headers[h]));
            let k = choose|k: int| 0 <= k < rules.len() && permits(#[trigger] rules[k], headers[h]);
            assert(rule_name(rules[k]) == headers[h].name@);
            if k < r {
                assert(rule_name(rules[k]) != rule_name(rules[r]));
            } else {
                assert(rule_name(rules[r]) != rule_name(rules[k]));
            }
        }
    }
    if headers_verdict(headers, Seq::empty()) is Ok && are_permitted(rules, 0, headers, 0) {
        lemma_permitted_rules_hold(rules, 0, headers, 0);
    }
}

} // verus!
