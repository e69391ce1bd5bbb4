//! Semantic boundaries of Resources tasks.

use vstd::prelude::*;
use vstd::utf8::encode_utf8;

use crate::provider_validation::context_counter::{is_local_byte, is_lowercase};
use crate::provider_validation::scalar::{is_safe_text, is_single_line, is_unsafe, is_unsafe_char};
use crate::resources_api::{
    ResourcesCatalogEntry, ResourcesCatalogResult, ResourcesContribution,
    ResourcesContributionsResult, ResourcesPromptArg, ResourcesPromptMessage, ResourcesPromptParam,
    ResourcesPromptResult, ResourcesReadRequest, ResourcesReadResult, ResourcesTaskRequest,
    ResourcesTaskResult, TaskRelation,
};
use crate::text::{byte_len, bytes_before, is_before, lemma_byte_order, same_text};

verus! {

/// Largest logical charge of a request or a result.
pub const MAX_AGGREGATE_CHARGE: u64 = 1_048_576;

/// Largest logical charge of a list of contributions.
pub const MAX_CONTRIBUTIONS_CHARGE: u64 = 262_144;

/// Most bytes of text in a rendered prompt.
pub const MAX_PROMPT_TEXT_BYTES: u64 = 262_144;

/// Most entries of a catalog page.
pub const MAX_CATALOG_LIMIT: u16 = 128;

/// Most bytes of one read.
pub const MAX_READ_BYTES: u32 = 65_536;

/// Most arguments of a prompt.
pub const MAX_ARGUMENTS: usize = 64;

/// Most bytes of an argument.
pub const MAX_ARGUMENT_VALUE_BYTES: usize = 65_536;

/// Most parameters of a prompt.
pub const MAX_PROMPT_PARAMS: usize = 64;

/// Most messages of a rendered prompt.
pub const MAX_PROMPT_MESSAGES: usize = 16;

/// Most bytes of a prompt message.
pub const MAX_PROMPT_MESSAGE_BYTES: usize = 65_536;

/// Most contributions.
pub const MAX_CONTRIBUTIONS: usize = 64;

/// Largest size hint of a resource.
pub const MAX_SIZE_HINT: u64 = 9_223_372_036_854_775_807;

/// The charge of a boolean.
pub const WIT_BOOLEAN_CHARGE: u64 = 1;

/// The charge of a 16-bit number.
pub const WIT_U16_CHARGE: u64 = 2;

/// The charge of a 32-bit number.
pub const WIT_U32_CHARGE: u64 = 4;

/// The charge of a 64-bit number.
pub const WIT_U64_CHARGE: u64 = 8;

/// The charge of a list's length.
pub const WIT_LIST_CHARGE: u64 = 4;

/// The charge of a case tag.
pub const WIT_DISCRIMINANT_CHARGE: u64 = 4;

/// Why a Resources value was refused.
#[derive(Debug, Clone, Copy, PartialEq, Eq, Structural)]
pub enum ResourcesValidationError {
    /// A value violated its grammar, relation, ordering or minimum.
    InvalidArgument,
    /// A value, count, aggregate or checked calculation exceeded its limit.
    Limit,
}

impl ResourcesValidationError {
    /// The text shown for the error.
    pub fn message(&self) -> (text: &'static str)
        ensures
            text@ == (match *self {
                ResourcesValidationError::InvalidArgument => "Resources value is invalid"@,
                ResourcesValidationError::Limit => "Resources value exceeds its limit"@,
            }),
    {
        match self {
            ResourcesValidationError::InvalidArgument => "Resources value is invalid",
            ResourcesValidationError::Limit => "Resources value exceeds its limit",
        }
    }
}

/// Outcome of a validation step.
pub type ValidationResult<T = u64> = Result<T, ResourcesValidationError>;

/// The verdict of a single test that fails with `error`.
pub open spec fn tested(holds: bool, error: ResourcesValidationError) -> ValidationResult<()> {
    if holds {
        Ok(())
    } else {
        Err(error)
    }
}

// ---------------------------------------------------------------------------
// Charges
// ---------------------------------------------------------------------------

/// A running total of logical bytes with an upper bound.
#[derive(Debug, Clone, Copy)]
pub struct LogicalCharge {
    pub value: u64,
    pub limit: u64,
}

/// The state of a validation that charges as it goes: the total so far, its
/// bound, and the verdict. After the first failure nothing changes any more.
pub struct Tally {
    pub value: int,
    pub limit: int,
    pub verdict: ValidationResult<()>,
}

impl Tally {
    /// Charging `amount`: fails with `Limit` when the sum leaves 64 bits or
    /// exceeds the bound.
    pub open spec fn charge(self, amount: int) -> Tally {
        if self.verdict is Err {
            self
        } else if self.value + amount > u64::MAX {
            Tally { verdict: Err(ResourcesValidationError::Limit), ..self }
        } else if self.value + amount > self.limit {
            Tally {
                value: self.value + amount,
                verdict: Err(ResourcesValidationError::Limit),
                ..self
            }
        } else {
            Tally { value: self.value + amount, ..self }
        }
    }

    /// Charging a text: a four byte length and the bytes.
    pub open spec fn string(self, text: Seq<char>) -> Tally {
        self.charge(4).charge(byte_len(text) as int)
    }

    /// A check that charges nothing.
    pub open spec fn check(self, verdict: ValidationResult<()>) -> Tally {
        if self.verdict is Err {
            self
        } else {
            Tally { verdict, ..self }
        }
    }

    /// A test that fails for a bad argument.
    pub open spec fn demand(self, holds: bool) -> Tally {
        self.check(tested(holds, ResourcesValidationError::InvalidArgument))
    }

    /// A test that fails for an exceeded bound.
    pub open spec fn bound(self, holds: bool) -> Tally {
        self.check(tested(holds, ResourcesValidationError::Limit))
    }

    /// The total, when nothing failed.
    pub open spec fn total(self) -> ValidationResult {
        match self.verdict {
            Ok(()) => Ok(self.value as u64),
            Err(error) => Err(error),
        }
    }
}

/// The tally of a new charge.
pub open spec fn empty_tally(limit: int) -> Tally {
    Tally { value: 0, limit, verdict: Ok(()) }
}

impl LogicalCharge {
    /// The tally of a charge on which no check has failed yet.
    pub open spec fn tally(self) -> Tally {
        Tally { value: self.value as int, limit: self.limit as int, verdict: Ok(()) }
    }

    /// The tally of a charge after a step with the given outcome.
    pub open spec fn after(self, outcome: ValidationResult<()>) -> Tally {
        Tally { value: self.value as int, limit: self.limit as int, verdict: outcome }
    }

    /// An empty charge with the given bound.
    pub fn new(limit: u64) -> (charge: Self)
        ensures
            charge == (LogicalCharge { value: 0, limit }),
    {
        Self { value: 0, limit }
    }

    /// Adds `value` to the total.
    pub fn add(&mut self, value: u64) -> (result: ValidationResult<()>)
        ensures
            final(self).after(result) == old(self).tally().charge(value as int),
    {
        match self.value.checked_add(value) {
            Some(sum) => {
                self.value = sum;
            },
            None => {
                return Err(ResourcesValidationError::Limit);
            },
        }
        if self.value > self.limit {
            return Err(ResourcesValidationError::Limit);
        }
        Ok(())
    }

    /// Adds a length-prefixed text to the total.
    pub fn string(&mut self, value: &str) -> (result: ValidationResult<()>)
        ensures
            final(self).after(result) == old(self).tally().string(value@),
    {
        self.add(4)?;
        self.add(checked_len(value.as_bytes().len())?)
    }

    /// The total so far.
    pub fn value(self) -> (value: u64)
        ensures
            value == self.value,
    {
        self.value
    }
}

/// A length as a 64-bit number.
pub fn checked_len(value: usize) -> (result: ValidationResult<u64>)
    ensures
        result == ValidationResult::<u64>::Ok(value as u64),
{
    Ok(value as u64)
}

// ---------------------------------------------------------------------------
// Scalars
// ---------------------------------------------------------------------------

/// Checks a count against its bound.
pub fn validate_count(count: usize, maximum: usize) -> (result: ValidationResult<()>)
    ensures
        result == tested(count <= maximum, ResourcesValidationError::Limit),
{
    if count > maximum {
        return Err(ResourcesValidationError::Limit);
    }
    Ok(())
}

/// A lowercase letter, then lowercase letters, digits and hyphens.
pub open spec fn is_local_name(bytes: Seq<u8>) -> bool {
    &&& bytes.len() > 0
    &&& is_lowercase(bytes[0])
    &&& forall|i: int| 1 <= i < bytes.len() ==> is_local_byte(#[trigger] bytes[i])
}

/// The verdict on a local identifier of at most `maximum` bytes.
pub open spec fn local_id_verdict(value: Seq<char>, maximum: int) -> ValidationResult<()> {
    if byte_len(value) > maximum {
        Err(ResourcesValidationError::Limit)
    } else {
        tested(is_local_name(encode_utf8(value)), ResourcesValidationError::InvalidArgument)
    }
}

/// Checks a local identifier.
pub fn validate_local_id(value: &str, maximum_bytes: usize) -> (result: ValidationResult<()>)
    ensures
        result == local_id_verdict(value@, maximum_bytes as int),
{
    let bytes = value.as_bytes();
    if bytes.len() > maximum_bytes {
        return Err(ResourcesValidationError::Limit);
    }
    if bytes.len() == 0 || bytes[0] < 97 || bytes[0] > 122 {
        return Err(ResourcesValidationError::InvalidArgument);
    }
    let mut i: usize = 1;
    while i < bytes.len()
        invariant
            1 <= i <= bytes@.len() <= maximum_bytes,
            bytes@ == encode_utf8(value@),
            is_lowercase(bytes@[0]),
            forall|j: int| 1 <= j < i ==> is_local_byte(#[trigger] bytes@[j]),
        decreases bytes.len() - i,
    {
        let byte: u8 = bytes[i];
        let local = (97 <= byte && byte <= 122) || (48 <= byte && byte <= 57) || byte == 45;
        if !local {
            assert(!is_local_byte(bytes@[i as int]));
            return Err(ResourcesValidationError::InvalidArgument);
        }
        i += 1;
    }
    Ok(())
}

/// The verdict on safe text of at most `maximum` bytes.
pub open spec fn safe_verdict(value: Seq<char>, maximum: int, nonempty: bool) -> ValidationResult<
    (),
> {
    if byte_len(value) > maximum {
        Err(ResourcesValidationError::Limit)
    } else {
        tested(
            (nonempty ==> value.len() > 0) && is_safe_text(value),
            ResourcesValidationError::InvalidArgument,
        )
    }
}

/// Checks for text of safe characters.
#[verifier::loop_isolation(false)]
pub fn validate_safe(value: &str, maximum_bytes: usize, require_nonempty: bool) -> (result:
    ValidationResult<()>)
    ensures
        result == safe_verdict(value@, maximum_bytes as int, require_nonempty),
{
    if value.as_bytes().len() > maximum_bytes {
        return Err(ResourcesValidationError::Limit);
    }
    if require_nonempty && value.is_empty() {
        return Err(ResourcesValidationError::InvalidArgument);
    }
    for character in iter: value.chars()
        invariant
            iter.seq() == value@,
            forall|j: int| 0 <= j < iter.index() ==> !is_unsafe(#[trigger] value@[j]),
    {
        if is_unsafe_character(character) {
            assert(is_unsafe(value@[iter.index() as int]));
            return Err(ResourcesValidationError::InvalidArgument);
        }
    }
    Ok(())
}

/// Whether a character is a refused control or formatting character.
pub fn is_unsafe_character(character: char) -> (found: bool)
    ensures
        found == is_unsafe(character),
{
    is_unsafe_char(character)
}

/// The verdict on a one-line label of at most `maximum` bytes.
pub open spec fn label_verdict(value: Seq<char>, maximum: int) -> ValidationResult<()> {
    if value.len() == 0 || !is_single_line(value) {
        Err(ResourcesValidationError::InvalidArgument)
    } else {
        safe_verdict(value, maximum, true)
    }
}

/// Checks for nonempty safe text without tabs and line feeds.
#[verifier::loop_isolation(false)]
pub fn validate_label(value: &str, maximum_bytes: usize) -> (result: ValidationResult<()>)
    ensures
        result == label_verdict(value@, maximum_bytes as int),
{
    if value.is_empty() {
        return Err(ResourcesValidationError::InvalidArgument);
    }
    for character in iter: value.chars()
        invariant
            iter.seq() == value@,
            forall|j: int|
                0 <= j < iter.index() ==> #[trigger] value@[j] != '\t' && value@[j] != '\n',
    {
        if character == '\t' || character == '\n' {
            assert(value@[iter.index() as int] == character);
            return Err(ResourcesValidationError::InvalidArgument);
        }
    }
    validate_safe(value, maximum_bytes, true)
}

/// The verdict on strictly increasing local identifiers, from position `i` on.
pub open spec fn strict_ids_verdict(values: Seq<Seq<char>>, maximum: int, i: int) -> ValidationResult<
    (),
>
    decreases values.len() - i,
{
    if i >= values.len() {
        Ok(())
    } else if local_id_verdict(values[i], maximum) is Err {
        local_id_verdict(values[i], maximum)
    } else if i > 0 && !bytes_before(encode_utf8(values[i - 1]), encode_utf8(values[i])) {
        Err(ResourcesValidationError::InvalidArgument)
    } else {
        strict_ids_verdict(values, maximum, i + 1)
    }
}

/// The texts of a list of references.
pub open spec fn texts_of(values: Seq<&str>) -> Seq<Seq<char>> {
    values.map_values(|value: &str| value@)
}

/// Checks for strictly increasing local identifiers.
pub fn validate_strict_ids(values: &[&str], maximum_bytes: usize) -> (result: ValidationResult<()>)
    ensures
        result == strict_ids_verdict(texts_of(values@), maximum_bytes as int, 0),
{
    let ghost texts = texts_of(values@);
    let mut i: usize = 0;
    while i < values.len()
        invariant
            i <= values@.len(),
            texts == texts_of(values@),
            strict_ids_verdict(texts, maximum_bytes as int, 0) == strict_ids_verdict(
                texts,
                maximum_bytes as int,
                i as int,
            ),
        decreases values.len() - i,
    {
        proof {
            reveal_with_fuel(strict_ids_verdict, 2);
        }
        assert(texts[i as int] == values@[i as int]@);
        validate_local_id(values[i], maximum_bytes)?;
        if i > 0 {
            assert(texts[i - 1] == values@[i - 1]@);
            if !is_before(values[i - 1].as_bytes(), values[i].as_bytes()) {
                return Err(ResourcesValidationError::InvalidArgument);
            }
        }
        i += 1;
    }
    Ok(())
}

/// Accepted identifiers are local names in strictly increasing byte order, so
/// none occurs twice.
pub proof fn lemma_accepted_ids_are_sorted(values: Seq<Seq<char>>, maximum: int)
    requires
        strict_ids_verdict(values, maximum, 0) is Ok,
    ensures
        forall|i: int|
            0 <= i < values.len() ==> is_local_name(encode_utf8(#[trigger] values[i])) && byte_len(
                values[i],
            ) <= maximum,
        forall|i: int, j: int|
            0 <= i < j < values.len() ==> bytes_before(
                encode_utf8(#[trigger] values[i]),
                encode_utf8(#[trigger] values[j]),
            ),
        forall|i: int, j: int|
            0 <= i < j < values.len() ==> #[trigger] values[i] != #[trigger] values[j],
{
    assert forall|j: int| 0 <= j < values.len() implies strict_ids_verdict(values, maximum, j) is Ok
        && local_id_verdict(#[trigger] values[j], maximum) is Ok && (j > 0 ==> bytes_before(
        encode_utf8(values[j - 1]),
        encode_utf8(values[j]),
    )) by {
        lemma_strict_suffix(values, maximum, j);
        reveal_with_fuel(strict_ids_verdict, 2);
    }
    assert forall|i: int, j: int| 0 <= i < j < values.len() implies bytes_before(
        encode_utf8(#[trigger] values[i]),
        encode_utf8(#[trigger] values[j]),
    ) by {
        lemma_chain(values, i, j);
    }
    assert forall|i: int, j: int|
        0 <= i < j < values.len() implies #[trigger] values[i] != #[trigger] values[j] by {
        lemma_byte_order(
            encode_utf8(values[i]),
            encode_utf8(values[j]),
            encode_utf8(values[i]),
        );
    }
}

proof fn lemma_strict_suffix(values: Seq<Seq<char>>, maximum: int, i: int)
    requires
        strict_ids_verdict(values, maximum, 0) is Ok,
        0 <= i <= values.len(),
    ensures
        strict_ids_verdict(values, maximum, i) is Ok,
    decreases i,
{
    if i > 0 {
        lemma_strict_suffix(values, maximum, i - 1);
    }
}

proof fn lemma_chain(values: Seq<Seq<char>>, i: int, j: int)
    requires
        0 <= i < j < values.len(),
        forall|k: int|
            0 < k < values.len() ==> bytes_before(
                encode_utf8(values[k - 1]),
                encode_utf8(#[trigger] values[k]),
            ),
    ensures
        bytes_before(encode_utf8(values[i]), encode_utf8(values[j])),
    decreases j - i,
{
    assert(bytes_before(encode_utf8(values[j - 1]), encode_utf8(values[j])));
    if i < j - 1 {
        lemma_chain(values, i, j - 1);
        lemma_byte_order(
            encode_utf8(values[i]),
            encode_utf8(values[j - 1]),
            encode_utf8(values[j]),
        );
    }
}

// ---------------------------------------------------------------------------
// Requests
// ---------------------------------------------------------------------------

/// The names of arguments.
pub open spec fn argument_names(args: Seq<ResourcesPromptArg>) -> Seq<Seq<char>> {
    args.map_values(|argument: ResourcesPromptArg| argument.name@)
}

/// The arguments of a prompt, from position `i` on.
pub open spec fn arguments_tally(tally: Tally, args: Seq<ResourcesPromptArg>, i: int) -> Tally
    decreases args.len() - i,
{
    if tally.verdict is Err || i >= args.len() {
        tally
    } else {
        arguments_tally(
            tally.check(
                safe_verdict(args[i].value@, MAX_ARGUMENT_VALUE_BYTES as int, false),
            ).string(args[i].name@).string(args[i].value@),
            args,
            i + 1,
        )
    }
}

/// The tally of a request.
pub open spec fn request_tally(request: ResourcesTaskRequest) -> Tally {
    let tally = empty_tally(MAX_AGGREGATE_CHARGE as int).charge(WIT_DISCRIMINANT_CHARGE as int);
    match request {
        ResourcesTaskRequest::Catalog(request) => tally.charge(WIT_U32_CHARGE as int).charge(
            WIT_U16_CHARGE as int,
        ).demand(request.limit > 0).bound(request.limit <= MAX_CATALOG_LIMIT),
        ResourcesTaskRequest::Read(request) => tally.check(
            local_id_verdict(request.id@, 128),
        ).string(request.id@).charge(WIT_U64_CHARGE as int).charge(WIT_U32_CHARGE as int).demand(
            request.max_bytes >= 4,
        ).bound(request.max_bytes <= MAX_READ_BYTES),
        ResourcesTaskRequest::RenderPrompt(request) => arguments_tally(
            tally.check(local_id_verdict(request.id@, 128)).string(request.id@).bound(
                request.args@.len() <= MAX_ARGUMENTS,
            ).charge(WIT_LIST_CHARGE as int).check(
                strict_ids_verdict(argument_names(request.args@), 64, 0),
            ),
            request.args@,
            0,
        ),
        ResourcesTaskRequest::Contributions => tally,
    }
}

/// The verdict on a request: its charge.
pub open spec fn request_verdict(request: ResourcesTaskRequest) -> ValidationResult {
    request_tally(request).total()
}

/// The names of arguments.
pub fn collect_argument_names(args: &Vec<ResourcesPromptArg>) -> (names: Vec<&str>)
    ensures
        texts_of(names@) == argument_names(args@),
{
    let mut names: Vec<&str> = Vec::new();
    let mut i: usize = 0;
    while i < args.len()
        invariant
            i <= args@.len(),
            names@.len() == i,
            forall|j: int| 0 <= j < i ==> (#[trigger] names@[j])@ == args@[j].name@,
        decreases args.len() - i,
    {
        names.push(args[i].name.as_str());
        i += 1;
    }
    assert(texts_of(names@) =~= argument_names(args@));
    names
}

/// Checks and charges the arguments of a prompt.
pub fn validate_arguments(args: &Vec<ResourcesPromptArg>, charge: &mut LogicalCharge) -> (result:
    ValidationResult<()>)
    ensures
        final(charge).after(result) == arguments_tally(old(charge).tally(), args@, 0),
{
    let mut i: usize = 0;
    while i < args.len()
        invariant
            i <= args@.len(),
            arguments_tally(old(charge).tally(), args@, 0) == arguments_tally(
                charge.tally(),
                args@,
                i as int,
            ),
        decreases args.len() - i,
    {
        proof {
            reveal_with_fuel(arguments_tally, 2);
        }
        validate_safe(args[i].value.as_str(), MAX_ARGUMENT_VALUE_BYTES, false)?;
        charge.string(args[i].name.as_str())?;
        charge.string(args[i].value.as_str())?;
        i += 1;
    }
    Ok(())
}

/// Checks one request and gives its exact logical charge.
pub fn validate_resources_request(request: &ResourcesTaskRequest) -> (result: ValidationResult)
    ensures
        result == request_verdict(*request),
{
    let mut charge = LogicalCharge::new(MAX_AGGREGATE_CHARGE);
    charge.add(WIT_DISCRIMINANT_CHARGE)?;
    match request {
        ResourcesTaskRequest::Catalog(request) => {
            charge.add(WIT_U32_CHARGE)?;
            charge.add(WIT_U16_CHARGE)?;
            if request.limit == 0 {
                return Err(ResourcesValidationError::InvalidArgument);
            }
            if request.limit > MAX_CATALOG_LIMIT {
                return Err(ResourcesValidationError::Limit);
            }
        },
        ResourcesTaskRequest::Read(request) => {
            validate_local_id(request.id.as_str(), 128)?;
            charge.string(request.id.as_str())?;
            charge.add(WIT_U64_CHARGE)?;
            charge.add(WIT_U32_CHARGE)?;
            if request.max_bytes < 4 {
                return Err(ResourcesValidationError::InvalidArgument);
            }
            if request.max_bytes > MAX_READ_BYTES {
                return Err(ResourcesValidationError::Limit);
            }
        },
        ResourcesTaskRequest::RenderPrompt(request) => {
            validate_local_id(request.id.as_str(), 128)?;
            charge.string(request.id.as_str())?;
            validate_count(request.args.len(), MAX_ARGUMENTS)?;
            charge.add(WIT_LIST_CHARGE)?;
            let names = collect_argument_names(&request.args);
            validate_strict_ids(names.as_slice(), 64)?;
            validate_arguments(&request.args, &mut charge)?;
        },
        ResourcesTaskRequest::Contributions => {},
    }
    Ok(charge.value())
}

// ---------------------------------------------------------------------------
// Progress
// ---------------------------------------------------------------------------

/// The verdict on a progress body.
pub open spec fn progress_verdict(
    request: ResourcesTaskRequest,
    relation: TaskRelation,
) -> ValidationResult {
    match request_verdict(request) {
        Err(error) => Err(error),
        Ok(_) => if relation == TaskRelation::Crossed {
            Err(ResourcesValidationError::InvalidArgument)
        } else {
            Ok(4)
        },
    }
}

/// Checks one progress body against its request and gives its exact logical
/// charge; `relation` is what the task interface says of the two.
pub fn validate_resources_progress_body(
    request: &ResourcesTaskRequest,
    relation: TaskRelation,
) -> (result: ValidationResult)
    ensures
        result == progress_verdict(*request, relation),
{
    validate_resources_request(request)?;
    if relation == TaskRelation::Crossed {
        return Err(ResourcesValidationError::InvalidArgument);
    }
    Ok(4)
}

// ---------------------------------------------------------------------------
// Catalog pages
// ---------------------------------------------------------------------------

/// The names of parameters.
pub open spec fn parameter_names(params: Seq<ResourcesPromptParam>) -> Seq<Seq<char>> {
    params.map_values(|parameter: ResourcesPromptParam| parameter.name@)
}

/// The parameters of a prompt, from position `i` on.
pub open spec fn parameters_tally(tally: Tally, params: Seq<ResourcesPromptParam>, i: int) -> Tally
    decreases params.len() - i,
{
    if tally.verdict is Err || i >= params.len() {
        tally
    } else {
        parameters_tally(
            tally.check(label_verdict(params[i].label@, 128)).string(params[i].name@).string(
                params[i].label@,
            ).charge(WIT_BOOLEAN_CHARGE as int),
            params,
            i + 1,
        )
    }
}

/// The list of the parameters of a prompt.
pub open spec fn prompt_params_tally(tally: Tally, params: Seq<ResourcesPromptParam>) -> Tally {
    parameters_tally(
        tally.bound(params.len() <= MAX_PROMPT_PARAMS).check(
            strict_ids_verdict(parameter_names(params), 64, 0),
        ).charge(WIT_LIST_CHARGE as int),
        params,
        0,
    )
}

/// One entry of a catalog page.
pub open spec fn entry_tally(tally: Tally, entry: ResourcesCatalogEntry) -> Tally {
    let tagged = tally.charge(WIT_DISCRIMINANT_CHARGE as int);
    match entry {
        ResourcesCatalogEntry::Resource(resource) => {
            let charged = tagged.check(local_id_verdict(resource.id@, 128)).check(
                label_verdict(resource.title@, 256),
            ).bound(resource.size_hint matches Some(size) ==> size <= MAX_SIZE_HINT).string(
                resource.id@,
            ).string(resource.title@).charge(WIT_DISCRIMINANT_CHARGE as int).charge(
                WIT_DISCRIMINANT_CHARGE as int,
            );
            if resource.size_hint is Some {
                charged.charge(WIT_U64_CHARGE as int)
            } else {
                charged
            }
        },
        ResourcesCatalogEntry::Prompt(prompt) => prompt_params_tally(
            tagged.check(local_id_verdict(prompt.id@, 128)).check(
                label_verdict(prompt.title@, 256),
            ),
            prompt.params@,
        ).string(prompt.id@).string(prompt.title@),
    }
}

/// The identifier of a catalog entry.
pub open spec fn entry_id(entry: ResourcesCatalogEntry) -> Seq<char> {
    match entry {
        ResourcesCatalogEntry::Resource(resource) => resource.id@,
        ResourcesCatalogEntry::Prompt(prompt) => prompt.id@,
    }
}

/// Resources come before prompts.
pub open spec fn entry_tag(entry: ResourcesCatalogEntry) -> int {
    match entry {
        ResourcesCatalogEntry::Resource(_) => 0,
        ResourcesCatalogEntry::Prompt(_) => 1,
    }
}

/// Whether one entry comes strictly before another: by kind, then by the bytes
/// of the identifier.
pub open spec fn entry_before(left: ResourcesCatalogEntry, right: ResourcesCatalogEntry) -> bool {
    ||| entry_tag(left) < entry_tag(right)
    ||| entry_tag(left) == entry_tag(right) && bytes_before(
        encode_utf8(entry_id(left)),
        encode_utf8(entry_id(right)),
    )
}

/// Whether an identifier occurs among the first `i` entries.
pub open spec fn id_occurs(items: Seq<ResourcesCatalogEntry>, i: int, id: Seq<char>) -> bool {
    exists|j: int| 0 <= j < i && entry_id(#[trigger] items[j]) == id
}

/// Whether entry `i` follows the one before it and has a new identifier.
pub open spec fn entry_in_order(items: Seq<ResourcesCatalogEntry>, i: int) -> bool {
    &&& i > 0 ==> entry_before(items[i - 1], items[i])
    &&& !id_occurs(items, i, entry_id(items[i]))
}

/// The entries of a catalog page, from position `i` on.
pub open spec fn entries_tally(tally: Tally, items: Seq<ResourcesCatalogEntry>, i: int) -> Tally
    decreases items.len() - i,
{
    if tally.verdict is Err || i >= items.len() {
        tally
    } else {
        entries_tally(entry_tally(tally, items[i]).demand(entry_in_order(items, i)), items, i + 1)
    }
}

/// Whether a page that continues does so right behind its entries.
pub open spec fn page_continues(offset: u32, count: nat, next_offset: u32) -> bool {
    count > 0 && offset + count == next_offset
}

/// A catalog page.
pub open spec fn catalog_tally(
    tally: Tally,
    offset: u32,
    limit: u16,
    result: ResourcesCatalogResult,
) -> Tally {
    let charged = entries_tally(
        tally.bound(result.items@.len() <= limit).charge(WIT_LIST_CHARGE as int),
        result.items@,
        0,
    ).charge(WIT_DISCRIMINANT_CHARGE as int);
    match result.next_offset {
        None => charged,
        Some(next_offset) => charged.charge(WIT_U32_CHARGE as int).demand(
            page_continues(offset, result.items@.len(), next_offset),
        ),
    }
}

/// The names of parameters.
pub fn collect_parameter_names(params: &Vec<ResourcesPromptParam>) -> (names: Vec<&str>)
    ensures
        texts_of(names@) == parameter_names(params@),
{
    let mut names: Vec<&str> = Vec::new();
    let mut i: usize = 0;
    while i < params.len()
        invariant
            i <= params@.len(),
            names@.len() == i,
            forall|j: int| 0 <= j < i ==> (#[trigger] names@[j])@ == params@[j].name@,
        decreases params.len() - i,
    {
        names.push(params[i].name.as_str());
        i += 1;
    }
    assert(texts_of(names@) =~= parameter_names(params@));
    names
}

/// Checks and charges the parameters of a prompt.
pub fn validate_prompt_params(params: &Vec<ResourcesPromptParam>, charge: &mut LogicalCharge) -> (result:
    ValidationResult<()>)
    ensures
        final(charge).after(result) == prompt_params_tally(old(charge).tally(), params@),
{
    validate_count(params.len(), MAX_PROMPT_PARAMS)?;
    let names = collect_parameter_names(params);
    validate_strict_ids(names.as_slice(), 64)?;
    charge.add(WIT_LIST_CHARGE)?;
    let ghost listed = charge.tally();
    let mut i: usize = 0;
    while i < params.len()
        invariant
            i <= params@.len(),
            prompt_params_tally(old(charge).tally(), params@) == parameters_tally(
                listed,
                params@,
                0,
            ),
            parameters_tally(listed, params@, 0) == parameters_tally(
                charge.tally(),
                params@,
                i as int,
            ),
        decreases params.len() - i,
    {
        proof {
            reveal_with_fuel(parameters_tally, 2);
        }
        validate_label(params[i].label.as_str(), 128)?;
        charge.string(params[i].name.as_str())?;
        charge.string(params[i].label.as_str())?;
        charge.add(WIT_BOOLEAN_CHARGE)?;
        i += 1;
    }
    Ok(())
}

/// Checks and charges one entry of a catalog page.
pub fn validate_catalog_entry(entry: &ResourcesCatalogEntry, charge: &mut LogicalCharge) -> (result:
    ValidationResult<()>)
    ensures
        final(charge).after(result) == entry_tally(old(charge).tally(), *entry),
{
    charge.add(WIT_DISCRIMINANT_CHARGE)?;
    match entry {
        ResourcesCatalogEntry::Resource(resource) => {
            validate_local_id(resource.id.as_str(), 128)?;
            validate_label(resource.title.as_str(), 256)?;
            match resource.size_hint {
                Some(size) => {
                    if size > MAX_SIZE_HINT {
                        return Err(ResourcesValidationError::Limit);
                    }
                },
                None => {},
            }
            charge.string(resource.id.as_str())?;
            charge.string(resource.title.as_str())?;
            charge.add(WIT_DISCRIMINANT_CHARGE)?;
            charge.add(WIT_DISCRIMINANT_CHARGE)?;
            if resource.size_hint.is_some() {
                charge.add(WIT_U64_CHARGE)?;
            }
            Ok(())
        },
        ResourcesCatalogEntry::Prompt(prompt) => {
            validate_local_id(prompt.id.as_str(), 128)?;
            validate_label(prompt.title.as_str(), 256)?;
            validate_prompt_params(&prompt.params, charge)?;
            charge.string(prompt.id.as_str())?;
            charge.string(prompt.title.as_str())
        },
    }
}

/// The kind and the identifier of a catalog entry.
pub fn entry_key(entry: &ResourcesCatalogEntry) -> (key: (u8, &str))
    ensures
        key.0 == entry_tag(*entry),
        key.1@ == entry_id(*entry),
{
    match entry {
        ResourcesCatalogEntry::Resource(resource) => (0, resource.id.as_str()),
        ResourcesCatalogEntry::Prompt(prompt) => (1, prompt.id.as_str()),
    }
}

/// Whether entry `i` follows the one before it and has a new identifier.
pub fn follows_in_order(items: &Vec<ResourcesCatalogEntry>, i: usize) -> (found: bool)
    requires
        i < items@.len(),
    ensures
        found == entry_in_order(items@, i as int),
{
    let key = entry_key(&items[i]);
    if i > 0 {
        let previous = entry_key(&items[i - 1]);
        if previous.0 > key.0 || (previous.0 == key.0 && !is_before(
            previous.1.as_bytes(),
            key.1.as_bytes(),
        )) {
            return false;
        }
    }
    let mut j: usize = 0;
    while j < i
        invariant
            j <= i < items@.len(),
            key.1@ == entry_id(items@[i as int]),
            !id_occurs(items@, j as int, key.1@),
        decreases i - j,
    {
        if same_text(entry_key(&items[j]).1, key.1) {
            assert(id_occurs(items@, i as int, key.1@)) by {
                assert(entry_id(items@[j as int]) == key.1@);
            }
            return false;
        }
        j += 1;
    }
    true
}

/// Checks and charges a catalog page.
pub fn validate_catalog_result(
    offset: u32,
    limit: u16,
    result: &ResourcesCatalogResult,
    charge: &mut LogicalCharge,
) -> (outcome: ValidationResult<()>)
    ensures
        final(charge).after(outcome) == catalog_tally(old(charge).tally(), offset, limit, *result),
{
    if result.items.len() > limit as usize {
        return Err(ResourcesValidationError::Limit);
    }
    charge.add(WIT_LIST_CHARGE)?;
    let ghost listed = charge.tally();
    let mut i: usize = 0;
    while i < result.items.len()
        invariant
            i <= result.items@.len() <= limit,
            listed == old(charge).tally().bound(result.items@.len() <= limit).charge(
                WIT_LIST_CHARGE as int,
            ),
            entries_tally(listed, result.items@, 0) == entries_tally(
                charge.tally(),
                result.items@,
                i as int,
            ),
        decreases result.items.len() - i,
    {
        proof {
            reveal_with_fuel(entries_tally, 2);
        }
        validate_catalog_entry(&result.items[i], charge)?;
        if !follows_in_order(&result.items, i) {
            return Err(ResourcesValidationError::InvalidArgument);
        }
        i += 1;
    }
    charge.add(WIT_DISCRIMINANT_CHARGE)?;
    match result.next_offset {
        Some(next_offset) => {
            charge.add(WIT_U32_CHARGE)?;
            let item_count: u32 = result.items.len() as u32;
            if item_count == 0 || offset.checked_add(item_count) != Some(next_offset) {
                return Err(ResourcesValidationError::InvalidArgument);
            }
        },
        None => {},
    }
    Ok(())
}

/// The entries of an accepted page come in strictly increasing order, and no
/// identifier occurs twice, not even on entries of different kinds.
pub proof fn lemma_accepted_page_is_sorted(
    tally: Tally,
    offset: u32,
    limit: u16,
    result: ResourcesCatalogResult,
)
    requires
        catalog_tally(tally, offset, limit, result).verdict is Ok,
    ensures
        result.items@.len() <= limit,
        forall|i: int, j: int|
            0 <= i < j < result.items@.len() ==> entry_before(
                #[trigger] result.items@[i],
                #[trigger] result.items@[j],
            ) && entry_id(result.items@[i]) != entry_id(result.items@[j]),
        result.next_offset matches Some(next_offset) ==> page_continues(
            offset,
            result.items@.len(),
            next_offset,
        ),
{
    let items = result.items@;
    let listed = tally.bound(items.len() <= limit).charge(WIT_LIST_CHARGE as int);
    assert(entries_tally(listed, items, 0).verdict is Ok);
    assert forall|k: int| 0 <= k < items.len() implies #[trigger] entry_in_order(items, k) by {
        lemma_entries_in_order(listed, items, 0, k);
    }
    assert forall|i: int, j: int| 0 <= i < j < items.len() implies entry_before(
        #[trigger] items[i],
        #[trigger] items[j],
    ) && entry_id(items[i]) != entry_id(items[j]) by {
        lemma_entry_chain(items, i, j);
        assert(entry_in_order(items, j));
        assert(!id_occurs(items, j, entry_id(items[j])));
    }
}

proof fn lemma_entries_in_order(
    tally: Tally,
    items: Seq<ResourcesCatalogEntry>,
    from: int,
    i: int,
)
    requires
        0 <= from <= i < items.len(),
        entries_tally(tally, items, from).verdict is Ok,
    ensures
        entry_in_order(items, i),
    decreases items.len() - from,
{
    let next = entry_tally(tally, items[from]).demand(entry_in_order(items, from));
    if next.verdict is Err {
        assert(entries_tally(next, items, from + 1) == next);
    } else if from < i {
        lemma_entries_in_order(next, items, from + 1, i);
    }
}

proof fn lemma_entry_chain(items: Seq<ResourcesCatalogEntry>, i: int, j: int)
    requires
        0 <= i < j < items.len(),
        forall|k: int| 0 <= k < items.len() ==> #[trigger] entry_in_order(items, k),
    ensures
        entry_before(items[i], items[j]),
    decreases j - i,
{
    assert(entry_in_order(items, j));
    if i < j - 1 {
        lemma_entry_chain(items, i, j - 1);
        lemma_byte_order(
            encode_utf8(entry_id(items[i])),
            encode_utf8(entry_id(items[j - 1])),
            encode_utf8(entry_id(items[j])),
        );
    }
}

// ---------------------------------------------------------------------------
// Reads, prompts and contributions
// ---------------------------------------------------------------------------

/// A part of a resource. A part that continues holds text and continues right
/// behind it.
pub open spec fn read_tally(
    tally: Tally,
    request: ResourcesReadRequest,
    result: ResourcesReadResult,
) -> Tally {
    let charged = tally.check(
        safe_verdict(result.text@, request.max_bytes as int, false),
    ).string(result.text@).charge(WIT_DISCRIMINANT_CHARGE as int);
    match result.next_offset {
        None => charged,
        Some(next_offset) => charged.charge(WIT_U64_CHARGE as int).demand(
            result.text@.len() > 0 && request.offset + byte_len(result.text@) == next_offset,
        ),
    }
}

/// The bytes of text of the first `i` messages.
pub open spec fn message_bytes(messages: Seq<ResourcesPromptMessage>, i: int) -> nat
    decreases i,
{
    if i <= 0 {
        0
    } else {
        message_bytes(messages, i - 1) + byte_len(messages[i - 1].text@)
    }
}

/// The messages of a rendered prompt, from position `i` on.
pub open spec fn messages_tally(
    tally: Tally,
    messages: Seq<ResourcesPromptMessage>,
    i: int,
) -> Tally
    decreases messages.len() - i,
{
    if tally.verdict is Err || i >= messages.len() {
        tally
    } else {
        messages_tally(
            tally.check(
                safe_verdict(messages[i].text@, MAX_PROMPT_MESSAGE_BYTES as int, false),
            ).bound(message_bytes(messages, i + 1) <= MAX_PROMPT_TEXT_BYTES).charge(
                WIT_DISCRIMINANT_CHARGE as int,
            ).string(messages[i].text@),
            messages,
            i + 1,
        )
    }
}

/// A rendered prompt.
pub open spec fn prompt_tally(
    tally: Tally,
    request_id: Seq<char>,
    result: ResourcesPromptResult,
) -> Tally {
    messages_tally(
        tally.demand(result.id@ == request_id).check(local_id_verdict(result.id@, 128)).bound(
            result.messages@.len() <= MAX_PROMPT_MESSAGES,
        ).string(result.id@).charge(WIT_LIST_CHARGE as int),
        result.messages@,
        0,
    )
}

/// The identifiers of contributions.
pub open spec fn contribution_ids(items: Seq<ResourcesContribution>) -> Seq<Seq<char>> {
    items.map_values(|contribution: ResourcesContribution| contribution.id@)
}

/// Contributions, from position `i` on.
pub open spec fn contributions_tally_from(
    tally: Tally,
    items: Seq<ResourcesContribution>,
    i: int,
) -> Tally
    decreases items.len() - i,
{
    if tally.verdict is Err || i >= items.len() {
        tally
    } else {
        contributions_tally_from(
            tally.string(items[i].id@).charge(WIT_DISCRIMINANT_CHARGE as int),
            items,
            i + 1,
        )
    }
}

/// A list of contributions.
pub open spec fn contributions_tally(tally: Tally, result: ResourcesContributionsResult) -> Tally {
    let charged = contributions_tally_from(
        tally.bound(result.items@.len() <= MAX_CONTRIBUTIONS).check(
            strict_ids_verdict(contribution_ids(result.items@), 128, 0),
        ).charge(WIT_LIST_CHARGE as int),
        result.items@,
        0,
    );
    charged.bound(charged.value <= MAX_CONTRIBUTIONS_CHARGE)
}

/// Checks and charges a part of a resource.
pub fn validate_read_result(
    request: &ResourcesReadRequest,
    result: &ResourcesReadResult,
    charge: &mut LogicalCharge,
) -> (outcome: ValidationResult<()>)
    ensures
        final(charge).after(outcome) == read_tally(old(charge).tally(), *request, *result),
{
    validate_safe(result.text.as_str(), request.max_bytes as usize, false)?;
    charge.string(result.text.as_str())?;
    charge.add(WIT_DISCRIMINANT_CHARGE)?;
    match result.next_offset {
        Some(next_offset) => {
            charge.add(WIT_U64_CHARGE)?;
            if result.text.as_str().is_empty() {
                return Err(ResourcesValidationError::InvalidArgument);
            }
            let returned: u64 = checked_len(result.text.as_str().as_bytes().len())?;
            if request.offset.checked_add(returned) != Some(next_offset) {
                return Err(ResourcesValidationError::InvalidArgument);
            }
        },
        None => {},
    }
    Ok(())
}

/// Checks and charges a rendered prompt.
pub fn validate_prompt_result(
    request_id: &str,
    result: &ResourcesPromptResult,
    charge: &mut LogicalCharge,
) -> (outcome: ValidationResult<()>)
    ensures
        final(charge).after(outcome) == prompt_tally(old(charge).tally(), request_id@, *result),
{
    if !same_text(result.id.as_str(), request_id) {
        return Err(ResourcesValidationError::InvalidArgument);
    }
    validate_local_id(result.id.as_str(), 128)?;
    validate_count(result.messages.len(), MAX_PROMPT_MESSAGES)?;
    charge.string(result.id.as_str())?;
    charge.add(WIT_LIST_CHARGE)?;
    let ghost listed = charge.tally();
    let mut text_bytes: u64 = 0;
    let mut i: usize = 0;
    while i < result.messages.len()
        invariant
            i <= result.messages@.len(),
            text_bytes == message_bytes(result.messages@, i as int),
            prompt_tally(old(charge).tally(), request_id@, *result) == messages_tally(
                listed,
                result.messages@,
                0,
            ),
            messages_tally(listed, result.messages@, 0) == messages_tally(
                charge.tally(),
                result.messages@,
                i as int,
            ),
        decreases result.messages.len() - i,
    {
        proof {
            reveal_with_fuel(messages_tally, 2);
            reveal_with_fuel(message_bytes, 2);
        }
        let text = result.messages[i].text.as_str();
        validate_safe(text, MAX_PROMPT_MESSAGE_BYTES, false)?;
        let length: u64 = checked_len(text.as_bytes().len())?;
        text_bytes = match text_bytes.checked_add(length) {
            Some(total) => total,
            None => return Err(ResourcesValidationError::Limit),
        };
        if text_bytes > MAX_PROMPT_TEXT_BYTES {
            return Err(ResourcesValidationError::Limit);
        }
        charge.add(WIT_DISCRIMINANT_CHARGE)?;
        charge.string(text)?;
        i += 1;
    }
    Ok(())
}

/// The identifiers of contributions.
pub fn collect_contribution_ids(items: &Vec<ResourcesContribution>) -> (ids: Vec<&str>)
    ensures
        texts_of(ids@) == contribution_ids(items@),
{
    let mut ids: Vec<&str> = Vec::new();
    let mut i: usize = 0;
    while i < items.len()
        invariant
            i <= items@.len(),
            ids@.len() == i,
            forall|j: int| 0 <= j < i ==> (#[trigger] ids@[j])@ == items@[j].id@,
        decreases items.len() - i,
    {
        ids.push(items[i].id.as_str());
        i += 1;
    }
    assert(texts_of(ids@) =~= contribution_ids(items@));
    ids
}

/// Checks and charges a list of contributions.
pub fn validate_contributions_result(
    result: &ResourcesContributionsResult,
    charge: &mut LogicalCharge,
) -> (outcome: ValidationResult<()>)
    ensures
        final(charge).after(outcome) == contributions_tally(old(charge).tally(), *result),
{
    validate_count(result.items.len(), MAX_CONTRIBUTIONS)?;
    let ids = collect_contribution_ids(&result.items);
    validate_strict_ids(ids.as_slice(), 128)?;
    charge.add(WIT_LIST_CHARGE)?;
    let ghost listed = charge.tally();
    let mut i: usize = 0;
    while i < result.items.len()
        invariant
            i <= result.items@.len(),
            listed == old(charge).tally().bound(result.items@.len() <= MAX_CONTRIBUTIONS).check(
                strict_ids_verdict(contribution_ids(result.items@), 128, 0),
            ).charge(WIT_LIST_CHARGE as int),
            contributions_tally_from(listed, result.items@, 0) == contributions_tally_from(
                charge.tally(),
                result.items@,
                i as int,
            ),
        decreases result.items.len() - i,
    {
        proof {
            reveal_with_fuel(contributions_tally_from, 2);
        }
        charge.string(result.items[i].id.as_str())?;
        charge.add(WIT_DISCRIMINANT_CHARGE)?;
        i += 1;
    }
    if charge.value() > MAX_CONTRIBUTIONS_CHARGE {
        return Err(ResourcesValidationError::Limit);
    }
    Ok(())
}

// ---------------------------------------------------------------------------
// Results
// ---------------------------------------------------------------------------

/// The tally of a result that answers a request.
pub open spec fn result_tally(request: ResourcesTaskRequest, result: ResourcesTaskResult) -> Tally {
    let tally = empty_tally(MAX_AGGREGATE_CHARGE as int).charge(WIT_DISCRIMINANT_CHARGE as int);
    match (request, result) {
        (
            ResourcesTaskRequest::Catalog(request),
            ResourcesTaskResult::Catalog(result),
        ) => catalog_tally(tally, request.offset, request.limit, result),
        (ResourcesTaskRequest::Read(request), ResourcesTaskResult::Read(result)) => read_tally(
            tally,
            request,
            result,
        ),
        (
            ResourcesTaskRequest::RenderPrompt(request),
            ResourcesTaskResult::Prompt(result),
        ) => prompt_tally(tally, request.id@, result),
        (
            ResourcesTaskRequest::Contributions,
            ResourcesTaskResult::Contributions(result),
        ) => contributions_tally(tally, result),
        _ => tally.demand(false),
    }
}

/// The verdict on a result: its charge.
pub open spec fn result_verdict(
    request: ResourcesTaskRequest,
    result: ResourcesTaskResult,
    relation: TaskRelation,
) -> ValidationResult {
    match request_verdict(request) {
        Err(error) => Err(error),
        Ok(_) => if relation == TaskRelation::Crossed {
            Err(ResourcesValidationError::InvalidArgument)
        } else {
            result_tally(request, result).total()
        },
    }
}

/// Checks one result against its request and gives its exact logical charge;
/// `relation` is what the task interface says of the two.
pub fn validate_resources_result_body(
    request: &ResourcesTaskRequest,
    result: &ResourcesTaskResult,
    relation: TaskRelation,
) -> (outcome: ValidationResult)
    ensures
        outcome == result_verdict(*request, *result, relation),
{
    validate_resources_request(request)?;
    if relation == TaskRelation::Crossed {
        return Err(ResourcesValidationError::InvalidArgument);
    }
    let mut charge = LogicalCharge::new(MAX_AGGREGATE_CHARGE);
    charge.add(WIT_DISCRIMINANT_CHARGE)?;
    match (request, result) {
        (ResourcesTaskRequest::Catalog(request), ResourcesTaskResult::Catalog(result)) => {
            validate_catalog_result(request.offset, request.limit, result, &mut charge)?;
        },
        (ResourcesTaskRequest::Read(request), ResourcesTaskResult::Read(result)) => {
            validate_read_result(request, result, &mut charge)?;
        },
        (ResourcesTaskRequest::RenderPrompt(request), ResourcesTaskResult::Prompt(result)) => {
            validate_prompt_result(request.id.as_str(), result, &mut charge)?;
        },
        (ResourcesTaskRequest::Contributions, ResourcesTaskResult::Contributions(result)) => {
            validate_contributions_result(result, &mut charge)?;
        },
        _ => return Err(ResourcesValidationError::InvalidArgument),
    }
    Ok(charge.value())
}

/// Whether a result is of the case that a request asks for.
pub open spec fn same_case(request: ResourcesTaskRequest, result: ResourcesTaskResult) -> bool {
    match request {
        ResourcesTaskRequest::Catalog(_) => result is Catalog,
        ResourcesTaskRequest::Read(_) => result is Read,
        ResourcesTaskRequest::RenderPrompt(_) => result is Prompt,
        ResourcesTaskRequest::Contributions => result is Contributions,
    }
}

/// A result of another case than its request is never accepted, whatever the
/// task interface says.
pub proof fn lemma_crossed_results_are_refused(
    request: ResourcesTaskRequest,
    result: ResourcesTaskResult,
    relation: TaskRelation,
)
    requires
        !same_case(request, result),
    ensures
        result_verdict(request, result, relation) is Err,
        request_verdict(request) is Ok ==> result_verdict(request, result, relation)
            == ValidationResult::<u64>::Err(ResourcesValidationError::InvalidArgument),
{
}

/// The charge of an accepted request or result is within the aggregate bound.
pub proof fn lemma_accepted_charges_are_bounded(
    request: ResourcesTaskRequest,
    result: ResourcesTaskResult,
    relation: TaskRelation,
)
    ensures
        request_verdict(request) matches Ok(charge) ==> charge <= MAX_AGGREGATE_CHARGE,
        result_verdict(request, result, relation) matches Ok(charge) ==> charge
            <= MAX_AGGREGATE_CHARGE,
{
    lemma_request_tally_is_bounded(request);
    lemma_result_tally_is_bounded(request, result);
}

/// A tally that has not failed is within its bound.
pub open spec fn is_bounded(tally: Tally) -> bool {
    tally.limit == MAX_AGGREGATE_CHARGE && (tally.verdict is Ok ==> 0 <= tally.value
        <= tally.limit)
}

proof fn lemma_request_tally_is_bounded(request: ResourcesTaskRequest)
    ensures
        is_bounded(request_tally(request)),
{
    match request {
        ResourcesTaskRequest::RenderPrompt(prompt) => {
            let tally = empty_tally(MAX_AGGREGATE_CHARGE as int).charge(
                WIT_DISCRIMINANT_CHARGE as int,
            ).check(local_id_verdict(prompt.id@, 128)).string(prompt.id@).bound(
                prompt.args@.len() <= MAX_ARGUMENTS,
            ).charge(WIT_LIST_CHARGE as int).check(
                strict_ids_verdict(argument_names(prompt.args@), 64, 0),
            );
            lemma_arguments_bounded(tally, prompt.args@, 0);
        },
        _ => {},
    }
}

proof fn lemma_arguments_bounded(tally: Tally, args: Seq<ResourcesPromptArg>, i: int)
    requires
        is_bounded(tally),
        0 <= i,
    ensures
        is_bounded(arguments_tally(tally, args, i)),
    decreases args.len() - i,
{
    if tally.verdict is Ok && i < args.len() {
        lemma_arguments_bounded(
            tally.check(
                safe_verdict(args[i].value@, MAX_ARGUMENT_VALUE_BYTES as int, false),
            ).string(args[i].name@).string(args[i].value@),
            args,
            i + 1,
        );
    }
}

proof fn lemma_parameters_bounded(tally: Tally, params: Seq<ResourcesPromptParam>, i: int)
    requires
        is_bounded(tally),
        0 <= i,
    ensures
        is_bounded(parameters_tally(tally, params, i)),
    decreases params.len() - i,
{
    if tally.verdict is Ok && i < params.len() {
        lemma_parameters_bounded(
            tally.check(label_verdict(params[i].label@, 128)).string(params[i].name@).string(
                params[i].label@,
            ).charge(WIT_BOOLEAN_CHARGE as int),
            params,
            i + 1,
        );
    }
}

proof fn lemma_entry_bounded(tally: Tally, entry: ResourcesCatalogEntry)
    requires
        is_bounded(tally),
    ensures
        is_bounded(entry_tally(tally, entry)),
{
    match entry {
        ResourcesCatalogEntry::Resource(_) => {},
        ResourcesCatalogEntry::Prompt(prompt) => {
            let params = prompt.params@;
            let listed = tally.charge(WIT_DISCRIMINANT_CHARGE as int).check(
                local_id_verdict(prompt.id@, 128),
            ).check(label_verdict(prompt.title@, 256)).bound(
                params.len() <= MAX_PROMPT_PARAMS,
            ).check(strict_ids_verdict(parameter_names(params), 64, 0)).charge(
                WIT_LIST_CHARGE as int,
            );
            lemma_parameters_bounded(listed, params, 0);
        },
    }
}

proof fn lemma_entries_bounded(tally: Tally, items: Seq<ResourcesCatalogEntry>, i: int)
    requires
        is_bounded(tally),
        0 <= i,
    ensures
        is_bounded(entries_tally(tally, items, i)),
    decreases items.len() - i,
{
    if tally.verdict is Ok && i < items.len() {
        lemma_entry_bounded(tally, items[i]);
        lemma_entries_bounded(
            entry_tally(tally, items[i]).demand(entry_in_order(items, i)),
            items,
            i + 1,
        );
    }
}

proof fn lemma_messages_bounded(tally: Tally, messages: Seq<ResourcesPromptMessage>, i: int)
    requires
        is_bounded(tally),
        0 <= i,
    ensures
        is_bounded(messages_tally(tally, messages, i)),
    decreases messages.len() - i,
{
    if tally.verdict is Ok && i < messages.len() {
        lemma_messages_bounded(
            tally.check(
                safe_verdict(messages[i].text@, MAX_PROMPT_MESSAGE_BYTES as int, false),
            ).bound(message_bytes(messages, i + 1) <= MAX_PROMPT_TEXT_BYTES).charge(
                WIT_DISCRIMINANT_CHARGE as int,
            ).string(messages[i].text@),
            messages,
            i + 1,
        );
    }
}

proof fn lemma_contributions_bounded(tally: Tally, items: Seq<ResourcesContribution>, i: int)
    requires
        is_bounded(tally),
        0 <= i,
    ensures
        is_bounded(contributions_tally_from(tally, items, i)),
    decreases items.len() - i,
{
    if tally.verdict is Ok && i < items.len() {
        lemma_contributions_bounded(
            tally.string(items[i].id@).charge(WIT_DISCRIMINANT_CHARGE as int),
            items,
            i + 1,
        );
    }
}

proof fn lemma_result_tally_is_bounded(request: ResourcesTaskRequest, result: ResourcesTaskResult)
    ensures
        is_bounded(result_tally(request, result)),
{
    let tally = empty_tally(MAX_AGGREGATE_CHARGE as int).charge(WIT_DISCRIMINANT_CHARGE as int);
    match (request, result) {
        (ResourcesTaskRequest::Catalog(request), ResourcesTaskResult::Catalog(result)) => {
            lemma_entries_bounded(
                tally.bound(result.items@.len() <= request.limit).charge(WIT_LIST_CHARGE as int),
                result.items@,
                0,
            );
        },
        (ResourcesTaskRequest::RenderPrompt(request), ResourcesTaskResult::Prompt(result)) => {
            lemma_messages_bounded(
                tally.demand(result.id@ == request.id@).check(
                    local_id_verdict(result.id@, 128),
                ).bound(result.messages@.len() <= MAX_PROMPT_MESSAGES).string(result.id@).charge(
                    WIT_LIST_CHARGE as int,
                ),
                result.messages@,
                0,
            );
        },
        (ResourcesTaskRequest::Contributions, ResourcesTaskResult::Contributions(result)) => {
            lemma_contributions_bounded(
                tally.bound(result.items@.len() <= MAX_CONTRIBUTIONS).check(
                    strict_ids_verdict(contribution_ids(result.items@), 128, 0),
                ).charge(WIT_LIST_CHARGE as int),
                result.items@,
                0,
            );
        },
        _ => {},
    }
}

} // verus!
