//! Which Resources requests and results are accepted, and what they are charged.
//!
//! Soundness, size and cost are stated part by part over the values alone.

use vstd::prelude::*;
use vstd::utf8::encode_utf8;

use crate::provider_validation::charge_laws::text_size;
use crate::provider_validation::scalar::is_unsafe;
use crate::provider_validation::scalar_laws::{
    is_line, is_ordinary, is_ordinary_text, lemma_ordinary,
};
use crate::resources_api::{
    ResourcesCatalogEntry, ResourcesCatalogResult, ResourcesContribution,
    ResourcesContributionsResult, ResourcesPromptArg, ResourcesPromptMessage, ResourcesPromptParam,
    ResourcesPromptResult, ResourcesReadRequest, ResourcesReadResult, ResourcesTaskRequest,
    ResourcesTaskResult, TaskRelation,
};
use crate::resources_validation::{
    argument_names, arguments_tally, catalog_tally, contribution_ids, contributions_tally,
    contributions_tally_from, empty_tally, entries_tally, entry_id, entry_in_order, entry_tally,
    id_occurs, label_verdict, local_id_verdict, message_bytes, messages_tally, parameter_names,
    parameters_tally, progress_verdict, prompt_params_tally, prompt_tally, read_tally,
    request_tally, request_verdict, result_verdict, safe_verdict, strict_ids_verdict,
    ResourcesValidationError, Tally, ValidationResult,
};
use crate::text::bytes_before;

verus! {

// ---------------------------------------------------------------------------
// Steps
// ---------------------------------------------------------------------------

/// Whether a verdict is the right one on a value: accepted when it is sound and
/// small, refused for its argument only when it is not sound, and refused for
/// its size only when it is not small.
pub open spec fn judges(outcome: ValidationResult<()>, sound: bool, small: bool) -> bool {
    match outcome {
        Ok(()) => sound && small,
        Err(ResourcesValidationError::InvalidArgument) => !sound,
        Err(ResourcesValidationError::Limit) => !small,
    }
}

/// Whether there is room for a charge.
pub open spec fn has_room(tally: Tally, cost: int) -> bool {
    tally.value + cost <= tally.limit && tally.value + cost <= 0xffff_ffff_ffff_ffff
}

/// Whether a part of a validation does what it should: it accepts what is sound
/// and small and has room, and charges exactly its cost; it refuses for the
/// argument only what is not sound, and for the size only what is not small or
/// has no room. After a failure it does nothing.
pub open spec fn is_step(before: Tally, after: Tally, sound: bool, small: bool, cost: int) -> bool {
    if before.verdict is Err {
        after == before
    } else {
        has_room(before, 0) ==> {
            &&& judges(after.verdict, sound, small && has_room(before, cost))
            &&& after.verdict is Ok ==> after.value == before.value + cost && after.limit
                == before.limit
        }
    }
}

proof fn lemma_steps(
    first: Tally,
    second: Tally,
    third: Tally,
    sound: bool,
    small: bool,
    cost: int,
    next_sound: bool,
    next_small: bool,
    next_cost: int,
)
    requires
        is_step(first, second, sound, small, cost),
        is_step(second, third, next_sound, next_small, next_cost),
        0 <= cost,
        0 <= next_cost,
    ensures
        is_step(first, third, sound && next_sound, small && next_small, cost + next_cost),
{
}

// ---------------------------------------------------------------------------
// Scalars
// ---------------------------------------------------------------------------

/// The cost of a text: its bytes and four more.
pub open spec fn text_cost(text: Seq<char>) -> int {
    4 + text_size(text)
}

/// A local name: a lowercase letter, followed by lowercase letters, digits and
/// hyphens.
pub open spec fn is_local(text: Seq<char>) -> bool {
    let bytes = encode_utf8(text);
    &&& bytes.len() > 0
    &&& 'a' as u8 <= bytes[0] <= 'z' as u8
    &&& forall|i: int|
        0 <= i < bytes.len() ==> {
            ||| 'a' as u8 <= #[trigger] bytes[i] <= 'z' as u8
            ||| '0' as u8 <= bytes[i] <= '9' as u8
            ||| bytes[i] == '-' as u8
        }
}

/// Whether names are local, and each comes before the next by its bytes.
pub open spec fn are_increasing(names: Seq<Seq<char>>) -> bool {
    &&& forall|k: int| 0 <= k < names.len() ==> is_local(#[trigger] names[k])
    &&& forall|k: int|
        0 < k < names.len() ==> bytes_before(
            encode_utf8(names[k - 1]),
            encode_utf8(#[trigger] names[k]),
        )
}

/// A local identifier is accepted exactly when it is a local name within its
/// bound.
pub proof fn lemma_local_id(text: Seq<char>, maximum: int)
    ensures
        judges(local_id_verdict(text, maximum), is_local(text), text_size(text) <= maximum),
{
}

/// Text is accepted exactly when its characters are ordinary, it has one where it
/// must, and its bytes are within the bound.
pub proof fn lemma_safe_text(text: Seq<char>, maximum: int, nonempty: bool)
    ensures
        judges(
            safe_verdict(text, maximum, nonempty),
            is_ordinary_text(text) && (nonempty ==> text.len() > 0),
            text_size(text) <= maximum,
        ),
{
    assert forall|i: int| 0 <= i < text.len() implies is_ordinary(#[trigger] text[i]) == !is_unsafe(
        text[i],
    ) by {
        lemma_ordinary(text[i]);
    }
}

/// A label is accepted exactly when it is one line within its bound.
pub proof fn lemma_label(text: Seq<char>, maximum: int)
    ensures
        judges(label_verdict(text, maximum), is_line(text), text_size(text) <= maximum),
{
    lemma_safe_text(text, maximum, true);
    assert(is_line(text) ==> forall|i: int|
        0 <= i < text.len() ==> #[trigger] text[i] != '\t' && text[i] != '\n');
}

spec fn are_increasing_from(names: Seq<Seq<char>>, i: int) -> bool {
    &&& forall|k: int| i <= k < names.len() ==> is_local(#[trigger] names[k])
    &&& forall|k: int|
        0 < k && i <= k < names.len() ==> bytes_before(
            encode_utf8(names[k - 1]),
            encode_utf8(#[trigger] names[k]),
        )
}

proof fn lemma_increasing_from(names: Seq<Seq<char>>, maximum: int, i: int)
    requires
        0 <= i <= names.len(),
    ensures
        judges(
            strict_ids_verdict(names, maximum, i),
            are_increasing_from(names, i),
            forall|k: int| i <= k < names.len() ==> text_size(#[trigger] names[k]) <= maximum,
        ),
    decreases names.len() - i,
{
    if i < names.len() {
        lemma_local_id(names[i], maximum);
        lemma_increasing_from(names, maximum, i + 1);
    }
}

/// A list of names is accepted exactly when they are local, strictly increasing
/// and each within its bound.
pub proof fn lemma_increasing(names: Seq<Seq<char>>, maximum: int)
    ensures
        judges(
            strict_ids_verdict(names, maximum, 0),
            are_increasing(names),
            forall|k: int| 0 <= k < names.len() ==> text_size(#[trigger] names[k]) <= maximum,
        ),
{
    lemma_increasing_from(names, maximum, 0);
    assert(are_increasing(names) == are_increasing_from(names, 0));
}

// ---------------------------------------------------------------------------
// Requests
// ---------------------------------------------------------------------------

/// The cost of the arguments from argument `i` on.
pub open spec fn arguments_cost(args: Seq<ResourcesPromptArg>, i: int) -> int
    decreases args.len() - i,
{
    if i >= args.len() {
        0
    } else {
        text_cost(args[i].name@) + text_cost(args[i].value@) + arguments_cost(args, i + 1)
    }
}

/// Whether a request is well formed.
pub open spec fn is_sound_request(request: ResourcesTaskRequest) -> bool {
    match request {
        ResourcesTaskRequest::Catalog(request) => request.limit >= 1,
        ResourcesTaskRequest::Read(request) => is_local(request.id@) && request.max_bytes >= 4,
        ResourcesTaskRequest::RenderPrompt(request) => {
            &&& is_local(request.id@)
            &&& are_increasing(argument_names(request.args@))
            &&& forall|k: int|
                0 <= k < request.args@.len() ==> is_ordinary_text(
                    (#[trigger] request.args@[k]).value@,
                )
        },
        ResourcesTaskRequest::Contributions => true,
    }
}

/// Whether a request is within its bounds.
pub open spec fn is_small_request(request: ResourcesTaskRequest) -> bool {
    match request {
        ResourcesTaskRequest::Catalog(request) => request.limit <= 128,
        ResourcesTaskRequest::Read(request) => text_size(request.id@) <= 128 && request.max_bytes
            <= 65_536,
        ResourcesTaskRequest::RenderPrompt(request) => {
            &&& text_size(request.id@) <= 128
            &&& request.args@.len() <= 64
            &&& forall|k: int|
                0 <= k < request.args@.len() ==> text_size((#[trigger] request.args@[k]).name@)
                    <= 64 && text_size(request.args@[k].value@) <= 65_536
        },
        ResourcesTaskRequest::Contributions => true,
    }
}

/// The cost of a request.
pub open spec fn request_cost(request: ResourcesTaskRequest) -> int {
    match request {
        ResourcesTaskRequest::Catalog(_) => 10,
        ResourcesTaskRequest::Read(request) => 16 + text_cost(request.id@),
        ResourcesTaskRequest::RenderPrompt(request) => 8 + text_cost(request.id@) + arguments_cost(
            request.args@,
            0,
        ),
        ResourcesTaskRequest::Contributions => 4,
    }
}

proof fn lemma_arguments(tally: Tally, args: Seq<ResourcesPromptArg>, i: int)
    requires
        0 <= i <= args.len(),
    ensures
        is_step(
            tally,
            arguments_tally(tally, args, i),
            forall|k: int| i <= k < args.len() ==> is_ordinary_text((#[trigger] args[k]).value@),
            forall|k: int|
                i <= k < args.len() ==> text_size((#[trigger] args[k]).value@) <= 65_536,
            arguments_cost(args, i),
        ),
        0 <= arguments_cost(args, i),
    decreases args.len() - i,
{
    if i < args.len() {
        let value = args[i].value@;
        lemma_safe_text(value, 65_536, false);
        let next = tally.check(safe_verdict(value, 65_536, false)).string(args[i].name@).string(
            value,
        );
        let sound = is_ordinary_text(value);
        let small = text_size(value) <= 65_536;
        let cost = text_cost(args[i].name@) + text_cost(value);
        assert(is_step(tally, next, sound, small, cost));
        lemma_arguments(next, args, i + 1);
        let rest_sound = forall|k: int|
            i + 1 <= k < args.len() ==> is_ordinary_text((#[trigger] args[k]).value@);
        let rest_small = forall|k: int|
            i + 1 <= k < args.len() ==> text_size((#[trigger] args[k]).value@) <= 65_536;
        lemma_steps(
            tally,
            next,
            arguments_tally(next, args, i + 1),
            sound,
            small,
            cost,
            rest_sound,
            rest_small,
            arguments_cost(args, i + 1),
        );
        assert((forall|k: int| i <= k < args.len() ==> is_ordinary_text((#[trigger] args[k]).value@))
            == (sound && rest_sound));
        assert((forall|k: int|
            i <= k < args.len() ==> text_size((#[trigger] args[k]).value@) <= 65_536) == (small
            && rest_small));
    }
}

/// A request is accepted exactly when it is well formed and within its bounds,
/// with at most a mebibyte for all of its parts. It is charged what its parts
/// cost.
pub proof fn lemma_requests(request: ResourcesTaskRequest)
    ensures
        match request_verdict(request) {
            Ok(charge) => is_sound_request(request) && is_small_request(request) && charge
                == request_cost(request) && request_cost(request) <= 1_048_576,
            Err(ResourcesValidationError::InvalidArgument) => !is_sound_request(request),
            Err(ResourcesValidationError::Limit) => !is_small_request(request) || request_cost(
                request,
            ) > 1_048_576,
        },
{
    let start = empty_tally(1_048_576);
    let tagged = start.charge(4);
    match request {
        ResourcesTaskRequest::Catalog(_) => {},
        ResourcesTaskRequest::Read(read) => {
            lemma_local_id(read.id@, 128);
        },
        ResourcesTaskRequest::RenderPrompt(prompt) => {
            let args = prompt.args@;
            lemma_local_id(prompt.id@, 128);
            lemma_increasing(argument_names(args), 64);
            let listed = tagged.check(local_id_verdict(prompt.id@, 128)).string(prompt.id@).bound(
                args.len() <= 64,
            ).charge(4).check(strict_ids_verdict(argument_names(args), 64, 0));
            let sound = is_local(prompt.id@) && are_increasing(argument_names(args));
            let named_small = forall|k: int|
                0 <= k < argument_names(args).len() ==> text_size(
                    #[trigger] argument_names(args)[k],
                ) <= 64;
            let small = text_size(prompt.id@) <= 128 && args.len() <= 64 && named_small;
            let cost = 8 + text_cost(prompt.id@);
            assert(is_step(start, listed, sound, small, cost));
            lemma_arguments(listed, args, 0);
            let last = arguments_tally(listed, args, 0);
            let values_sound = forall|k: int|
                0 <= k < args.len() ==> is_ordinary_text((#[trigger] args[k]).value@);
            let values_small = forall|k: int|
                0 <= k < args.len() ==> text_size((#[trigger] args[k]).value@) <= 65_536;
            lemma_steps(
                start,
                listed,
                last,
                sound,
                small,
                cost,
                values_sound,
                values_small,
                arguments_cost(args, 0),
            );
            assert(forall|k: int|
                0 <= k < args.len() ==> (#[trigger] args[k]).name@ == argument_names(args)[k]);
            if named_small {
                assert forall|k: int| 0 <= k < args.len() implies text_size(
                    (#[trigger] args[k]).name@,
                ) <= 64 by {
                    assert(argument_names(args)[k] == args[k].name@);
                }
            }
            assert(request_tally(request) == last);
        },
        ResourcesTaskRequest::Contributions => {},
    }
}

/// Progress is accepted exactly when its request is and the two belong together,
/// and is charged four. A refused request gives its own error.
pub proof fn lemma_progress(request: ResourcesTaskRequest, relation: TaskRelation)
    ensures
        progress_verdict(request, relation) == (match request_verdict(request) {
            Err(error) => ValidationResult::<u64>::Err(error),
            Ok(_) => match relation {
                TaskRelation::Related => Ok(4),
                TaskRelation::Crossed => Err(ResourcesValidationError::InvalidArgument),
            },
        }),
{
}

// ---------------------------------------------------------------------------
// Catalog pages
// ---------------------------------------------------------------------------

/// The cost of the parameters from parameter `i` on.
pub open spec fn parameters_cost(params: Seq<ResourcesPromptParam>, i: int) -> int
    decreases params.len() - i,
{
    if i >= params.len() {
        0
    } else {
        text_cost(params[i].name@) + text_cost(params[i].label@) + 1 + parameters_cost(
            params,
            i + 1,
        )
    }
}

/// The identifier of an entry.
pub open spec fn id_of(entry: ResourcesCatalogEntry) -> Seq<char> {
    match entry {
        ResourcesCatalogEntry::Resource(resource) => resource.id@,
        ResourcesCatalogEntry::Prompt(prompt) => prompt.id@,
    }
}

/// The title of an entry.
pub open spec fn title_of(entry: ResourcesCatalogEntry) -> Seq<char> {
    match entry {
        ResourcesCatalogEntry::Resource(resource) => resource.title@,
        ResourcesCatalogEntry::Prompt(prompt) => prompt.title@,
    }
}

/// The parameters of an entry. A resource has none.
pub open spec fn params_of(entry: ResourcesCatalogEntry) -> Seq<ResourcesPromptParam> {
    match entry {
        ResourcesCatalogEntry::Resource(_) => Seq::empty(),
        ResourcesCatalogEntry::Prompt(prompt) => prompt.params@,
    }
}

/// Whether an entry is well formed: its identifier is a local name, its title a
/// line, and its parameters have strictly increasing local names and a line each
/// as their label.
pub open spec fn is_sound_entry(entry: ResourcesCatalogEntry) -> bool {
    &&& is_local(id_of(entry))
    &&& is_line(title_of(entry))
    &&& are_increasing(parameter_names(params_of(entry)))
    &&& forall|k: int|
        0 <= k < params_of(entry).len() ==> is_line((#[trigger] params_of(entry)[k]).label@)
}

/// Whether an entry is within its bounds.
pub open spec fn is_small_entry(entry: ResourcesCatalogEntry) -> bool {
    &&& text_size(id_of(entry)) <= 128
    &&& text_size(title_of(entry)) <= 256
    &&& params_of(entry).len() <= 64
    &&& forall|k: int|
        0 <= k < params_of(entry).len() ==> text_size((#[trigger] params_of(entry)[k]).name@) <= 64
            && text_size(params_of(entry)[k].label@) <= 128
    &&& entry matches ResourcesCatalogEntry::Resource(resource) ==> (resource.size_hint matches Some(
        size,
    ) ==> size <= 0x7fff_ffff_ffff_ffff)
}

/// The cost of an entry: for a resource its identifier, its title and twelve, and
/// eight more with a size; for a prompt its identifier, its title, its parameters
/// and eight.
pub open spec fn entry_cost(entry: ResourcesCatalogEntry) -> int {
    text_cost(id_of(entry)) + text_cost(title_of(entry)) + match entry {
        ResourcesCatalogEntry::Resource(resource) => if resource.size_hint is Some {
            20
        } else {
            12
        },
        ResourcesCatalogEntry::Prompt(prompt) => 8 + parameters_cost(prompt.params@, 0),
    }
}

/// Whether entry `k` comes after the one before it, resources before prompts and
/// those of one form by the bytes of their identifiers, and no earlier entry has
/// its identifier.
pub open spec fn is_next_entry(items: Seq<ResourcesCatalogEntry>, k: int) -> bool {
    &&& k > 0 ==> match (items[k - 1], items[k]) {
        (ResourcesCatalogEntry::Resource(_), ResourcesCatalogEntry::Prompt(_)) => true,
        (ResourcesCatalogEntry::Prompt(_), ResourcesCatalogEntry::Resource(_)) => false,
        _ => bytes_before(encode_utf8(id_of(items[k - 1])), encode_utf8(id_of(items[k]))),
    }
    &&& forall|j: int| 0 <= j < k ==> id_of(#[trigger] items[j]) != id_of(items[k])
}

/// The cost of the entries from entry `i` on.
pub open spec fn entries_cost(items: Seq<ResourcesCatalogEntry>, i: int) -> int
    decreases items.len() - i,
{
    if i >= items.len() {
        0
    } else {
        entry_cost(items[i]) + entries_cost(items, i + 1)
    }
}

/// Whether a page is well formed: its entries are, they are in strict order with
/// new identifiers, and the page continues right behind its entries if at all.
pub open spec fn is_sound_page(offset: int, page: ResourcesCatalogResult) -> bool {
    let items = page.items@;
    &&& forall|k: int| 0 <= k < items.len() ==> is_sound_entry(#[trigger] items[k])
    &&& forall|k: int| 0 <= k < items.len() ==> #[trigger] is_next_entry(items, k)
    &&& page.next_offset matches Some(next) ==> items.len() > 0 && next == offset + items.len()
}

/// Whether a page is within its bounds.
pub open spec fn is_small_page(limit: int, page: ResourcesCatalogResult) -> bool {
    &&& page.items@.len() <= limit
    &&& forall|k: int| 0 <= k < page.items@.len() ==> is_small_entry(#[trigger] page.items@[k])
}

/// The cost of a page.
pub open spec fn page_cost(page: ResourcesCatalogResult) -> int {
    8 + entries_cost(page.items@, 0) + if page.next_offset is Some {
        4int
    } else {
        0
    }
}

proof fn lemma_parameters(tally: Tally, params: Seq<ResourcesPromptParam>, i: int)
    requires
        0 <= i <= params.len(),
    ensures
        is_step(
            tally,
            parameters_tally(tally, params, i),
            forall|k: int| i <= k < params.len() ==> is_line((#[trigger] params[k]).label@),
            forall|k: int|
                i <= k < params.len() ==> text_size((#[trigger] params[k]).label@) <= 128,
            parameters_cost(params, i),
        ),
        0 <= parameters_cost(params, i),
    decreases params.len() - i,
{
    if i < params.len() {
        let label = params[i].label@;
        lemma_label(label, 128);
        let next = tally.check(label_verdict(label, 128)).string(params[i].name@).string(
            label,
        ).charge(1);
        let sound = is_line(label);
        let small = text_size(label) <= 128;
        let cost = text_cost(params[i].name@) + text_cost(label) + 1;
        assert(is_step(tally, next, sound, small, cost));
        lemma_parameters(next, params, i + 1);
        let rest_sound = forall|k: int|
            i + 1 <= k < params.len() ==> is_line((#[trigger] params[k]).label@);
        let rest_small = forall|k: int|
            i + 1 <= k < params.len() ==> text_size((#[trigger] params[k]).label@) <= 128;
        lemma_steps(
            tally,
            next,
            parameters_tally(next, params, i + 1),
            sound,
            small,
            cost,
            rest_sound,
            rest_small,
            parameters_cost(params, i + 1),
        );
        assert((forall|k: int| i <= k < params.len() ==> is_line((#[trigger] params[k]).label@))
            == (sound && rest_sound));
        assert((forall|k: int|
            i <= k < params.len() ==> text_size((#[trigger] params[k]).label@) <= 128) == (small
            && rest_small));
    }
}

proof fn lemma_prompt_params(tally: Tally, params: Seq<ResourcesPromptParam>)
    ensures
        is_step(
            tally,
            prompt_params_tally(tally, params),
            are_increasing(parameter_names(params)) && forall|k: int|
                0 <= k < params.len() ==> is_line((#[trigger] params[k]).label@),
            params.len() <= 64 && forall|k: int|
                0 <= k < params.len() ==> text_size((#[trigger] params[k]).name@) <= 64
                    && text_size(params[k].label@) <= 128,
            4 + parameters_cost(params, 0),
        ),
        0 <= parameters_cost(params, 0),
{
    let names = parameter_names(params);
    lemma_increasing(names, 64);
    let listed = tally.bound(params.len() <= 64).check(strict_ids_verdict(names, 64, 0)).charge(4);
    let sound = are_increasing(names);
    let named_small = forall|k: int| 0 <= k < names.len() ==> text_size(#[trigger] names[k]) <= 64;
    let few = params.len() <= 64;
    assert(is_step(tally, listed, sound, few && named_small, 4));
    lemma_parameters(listed, params, 0);
    let labels_sound = forall|k: int|
        0 <= k < params.len() ==> is_line((#[trigger] params[k]).label@);
    let labels_small = forall|k: int|
        0 <= k < params.len() ==> text_size((#[trigger] params[k]).label@) <= 128;
    lemma_steps(
        tally,
        listed,
        prompt_params_tally(tally, params),
        sound,
        few && named_small,
        4,
        labels_sound,
        labels_small,
        parameters_cost(params, 0),
    );
    assert forall|k: int| 0 <= k < params.len() implies (#[trigger] params[k]).name@
        == names[k] by {}
    let both = forall|k: int|
        0 <= k < params.len() ==> text_size((#[trigger] params[k]).name@) <= 64 && text_size(
            params[k].label@,
        ) <= 128;
    if both {
        assert forall|k: int| 0 <= k < names.len() implies text_size(#[trigger] names[k])
            <= 64 by {
            assert(params[k].name@ == names[k]);
        }
    }
    if named_small && labels_small {
        assert(both);
    }
    assert(both == (named_small && labels_small));
}

/// An entry is accepted exactly when it is well formed and within its bounds, so
/// also a prompt with parameters, and is charged what its parts cost.
pub proof fn lemma_entry(tally: Tally, entry: ResourcesCatalogEntry)
    ensures
        is_step(
            tally,
            entry_tally(tally, entry),
            is_sound_entry(entry),
            is_small_entry(entry),
            entry_cost(entry),
        ),
        0 <= entry_cost(entry),
{
    lemma_local_id(id_of(entry), 128);
    lemma_label(title_of(entry), 256);
    match entry {
        ResourcesCatalogEntry::Resource(resource) => {
            assert(parameter_names(params_of(entry)) =~= Seq::empty());
        },
        ResourcesCatalogEntry::Prompt(prompt) => {
            let params = prompt.params@;
            let opened = tally.charge(4).check(local_id_verdict(prompt.id@, 128)).check(
                label_verdict(prompt.title@, 256),
            );
            let listed = prompt_params_tally(opened, params);
            let last = listed.string(prompt.id@).string(prompt.title@);
            let sound = is_local(prompt.id@) && is_line(prompt.title@);
            let small = text_size(prompt.id@) <= 128 && text_size(prompt.title@) <= 256;
            let params_sound = are_increasing(parameter_names(params)) && forall|k: int|
                0 <= k < params.len() ==> is_line((#[trigger] params[k]).label@);
            let params_small = params.len() <= 64 && forall|k: int|
                0 <= k < params.len() ==> text_size((#[trigger] params[k]).name@) <= 64
                    && text_size(params[k].label@) <= 128;
            let cost = 4 + parameters_cost(params, 0);
            let texts = text_cost(prompt.id@) + text_cost(prompt.title@);
            assert(is_step(tally, opened, sound, small, 4));
            lemma_prompt_params(opened, params);
            assert(is_step(listed, last, true, true, texts));
            lemma_steps(tally, opened, listed, sound, small, 4, params_sound, params_small, cost);
            lemma_steps(
                tally,
                listed,
                last,
                sound && params_sound,
                small && params_small,
                4 + cost,
                true,
                true,
                texts,
            );
        },
    }
}

proof fn lemma_next_entry(items: Seq<ResourcesCatalogEntry>, k: int)
    requires
        0 <= k < items.len(),
    ensures
        is_next_entry(items, k) == entry_in_order(items, k),
{
    assert(forall|j: int| 0 <= j < k ==> id_of(#[trigger] items[j]) == entry_id(items[j]));
    assert(id_occurs(items, k, id_of(items[k])) == !(forall|j: int|
        0 <= j < k ==> id_of(#[trigger] items[j]) != id_of(items[k])));
}

proof fn lemma_entries(tally: Tally, items: Seq<ResourcesCatalogEntry>, i: int)
    requires
        0 <= i <= items.len(),
    ensures
        is_step(
            tally,
            entries_tally(tally, items, i),
            (forall|k: int| i <= k < items.len() ==> is_sound_entry(#[trigger] items[k])) && (
            forall|k: int| i <= k < items.len() ==> #[trigger] is_next_entry(items, k)),
            forall|k: int| i <= k < items.len() ==> is_small_entry(#[trigger] items[k]),
            entries_cost(items, i),
        ),
        0 <= entries_cost(items, i),
    decreases items.len() - i,
{
    if i < items.len() {
        lemma_entry(tally, items[i]);
        lemma_next_entry(items, i);
        let next = entry_tally(tally, items[i]).demand(entry_in_order(items, i));
        let sound = is_sound_entry(items[i]) && is_next_entry(items, i);
        let small = is_small_entry(items[i]);
        assert(is_step(tally, next, sound, small, entry_cost(items[i])));
        lemma_entries(next, items, i + 1);
        let rest_sound = (forall|k: int|
            i + 1 <= k < items.len() ==> is_sound_entry(#[trigger] items[k])) && (forall|k: int|
            i + 1 <= k < items.len() ==> #[trigger] is_next_entry(items, k));
        let rest_small = forall|k: int|
            i + 1 <= k < items.len() ==> is_small_entry(#[trigger] items[k]);
        lemma_steps(
            tally,
            next,
            entries_tally(next, items, i + 1),
            sound,
            small,
            entry_cost(items[i]),
            rest_sound,
            rest_small,
            entries_cost(items, i + 1),
        );
        assert(((forall|k: int| i <= k < items.len() ==> is_sound_entry(#[trigger] items[k])) && (
        forall|k: int| i <= k < items.len() ==> #[trigger] is_next_entry(items, k))) == (sound
            && rest_sound));
        assert((forall|k: int| i <= k < items.len() ==> is_small_entry(#[trigger] items[k])) == (
        small && rest_small));
    }
}

/// A catalog page is accepted exactly when it is well formed, within its bounds
/// and has room for the sum of the costs of its parts, which it is charged.
pub proof fn lemma_page(tally: Tally, offset: u32, limit: u16, page: ResourcesCatalogResult)
    ensures
        is_step(
            tally,
            catalog_tally(tally, offset, limit, page),
            is_sound_page(offset as int, page),
            is_small_page(limit as int, page),
            page_cost(page),
        ),
        0 <= page_cost(page),
{
    let items = page.items@;
    let listed = tally.bound(items.len() <= limit).charge(4);
    let entered = entries_tally(listed, items, 0);
    let last = catalog_tally(tally, offset, limit, page);
    let few = items.len() <= limit;
    assert(is_step(tally, listed, true, few, 4));
    lemma_entries(listed, items, 0);
    let sound = (forall|k: int| 0 <= k < items.len() ==> is_sound_entry(#[trigger] items[k])) && (
    forall|k: int| 0 <= k < items.len() ==> #[trigger] is_next_entry(items, k));
    let small = forall|k: int| 0 <= k < items.len() ==> is_small_entry(#[trigger] items[k]);
    let cost = entries_cost(items, 0);
    lemma_steps(tally, listed, entered, true, few, 4, sound, small, cost);
    let goes_on = page.next_offset matches Some(next) ==> items.len() > 0 && next == offset
        + items.len();
    let tail = 4 + if page.next_offset is Some {
        4int
    } else {
        0
    };
    assert(is_step(entered, last, goes_on, true, tail));
    lemma_steps(tally, entered, last, sound, few && small, 4 + cost, goes_on, true, tail);
}

// ---------------------------------------------------------------------------
// Reads, prompts and contributions
// ---------------------------------------------------------------------------

/// A part of a resource is accepted exactly when its text is ordinary and no
/// longer than asked for, and it continues, if at all, right behind a text that is
/// not empty.
pub proof fn lemma_read(tally: Tally, request: ResourcesReadRequest, part: ResourcesReadResult)
    ensures
        is_step(
            tally,
            read_tally(tally, request, part),
            is_ordinary_text(part.text@) && (part.next_offset matches Some(next)
                ==> part.text@.len() > 0 && next == request.offset + text_size(part.text@)),
            text_size(part.text@) <= request.max_bytes,
            text_cost(part.text@) + 4 + if part.next_offset is Some {
                8int
            } else {
                0
            },
        ),
{
    lemma_safe_text(part.text@, request.max_bytes as int, false);
}

/// The bytes of text of the messages from message `i` on.
pub open spec fn spoken_bytes(messages: Seq<ResourcesPromptMessage>, i: int) -> int
    decreases messages.len() - i,
{
    if i >= messages.len() {
        0
    } else {
        text_size(messages[i].text@) + spoken_bytes(messages, i + 1)
    }
}

proof fn lemma_messages(tally: Tally, messages: Seq<ResourcesPromptMessage>, i: int)
    requires
        0 <= i <= messages.len(),
        message_bytes(messages, i) <= 262_144,
    ensures
        is_step(
            tally,
            messages_tally(tally, messages, i),
            forall|k: int|
                i <= k < messages.len() ==> is_ordinary_text((#[trigger] messages[k]).text@),
            (forall|k: int|
                i <= k < messages.len() ==> text_size((#[trigger] messages[k]).text@) <= 65_536)
                && message_bytes(messages, i) + spoken_bytes(messages, i) <= 262_144,
            8 * (messages.len() - i) + spoken_bytes(messages, i),
        ),
        0 <= spoken_bytes(messages, i),
    decreases messages.len() - i,
{
    if i < messages.len() {
        let text = messages[i].text@;
        lemma_safe_text(text, 65_536, false);
        let together = message_bytes(messages, i + 1);
        assert(together == message_bytes(messages, i) + text_size(text));
        let next = tally.check(safe_verdict(text, 65_536, false)).bound(
            together <= 262_144,
        ).charge(4).string(text);
        let sound = is_ordinary_text(text);
        let small = text_size(text) <= 65_536 && together <= 262_144;
        let cost = 8 + text_size(text);
        assert(is_step(tally, next, sound, small, cost));
        lemma_spoken_bytes(messages, i + 1);
        if together <= 262_144 {
            lemma_messages(next, messages, i + 1);
            let rest_sound = forall|k: int|
                i + 1 <= k < messages.len() ==> is_ordinary_text((#[trigger] messages[k]).text@);
            let rest_small = (forall|k: int|
                i + 1 <= k < messages.len() ==> text_size((#[trigger] messages[k]).text@)
                    <= 65_536) && together + spoken_bytes(messages, i + 1) <= 262_144;
            let rest_cost = 8 * (messages.len() - (i + 1)) + spoken_bytes(messages, i + 1);
            lemma_steps(
                tally,
                next,
                messages_tally(next, messages, i + 1),
                sound,
                small,
                cost,
                rest_sound,
                rest_small,
                rest_cost,
            );
            assert((forall|k: int|
                i <= k < messages.len() ==> is_ordinary_text((#[trigger] messages[k]).text@)) == (
            sound && rest_sound));
            assert((forall|k: int|
                i <= k < messages.len() ==> text_size((#[trigger] messages[k]).text@) <= 65_536)
                == (text_size(text) <= 65_536 && forall|k: int|
                i + 1 <= k < messages.len() ==> text_size((#[trigger] messages[k]).text@)
                    <= 65_536));
        }
    }
}

proof fn lemma_spoken_bytes(messages: Seq<ResourcesPromptMessage>, i: int)
    requires
        0 <= i <= messages.len(),
    ensures
        0 <= spoken_bytes(messages, i),
    decreases messages.len() - i,
{
    if i < messages.len() {
        lemma_spoken_bytes(messages, i + 1);
    }
}

/// Whether a rendered prompt is well formed: it is the one asked for, with ordinary
/// text.
pub open spec fn is_sound_prompt(id: Seq<char>, prompt: ResourcesPromptResult) -> bool {
    &&& prompt.id@ == id
    &&& is_local(prompt.id@)
    &&& forall|k: int|
        0 <= k < prompt.messages@.len() ==> is_ordinary_text(
            (#[trigger] prompt.messages@[k]).text@,
        )
}

/// Whether a rendered prompt is within its bounds.
pub open spec fn is_small_prompt(prompt: ResourcesPromptResult) -> bool {
    &&& text_size(prompt.id@) <= 128
    &&& prompt.messages@.len() <= 16
    &&& forall|k: int|
        0 <= k < prompt.messages@.len() ==> text_size((#[trigger] prompt.messages@[k]).text@)
            <= 65_536
    &&& spoken_bytes(prompt.messages@, 0) <= 262_144
}

/// The cost of a rendered prompt.
pub open spec fn prompt_cost(prompt: ResourcesPromptResult) -> int {
    text_cost(prompt.id@) + 4 + 8 * prompt.messages@.len() + spoken_bytes(prompt.messages@, 0)
}

/// A rendered prompt is accepted exactly when it is well formed and within its
/// bounds, and is charged what its parts cost.
pub proof fn lemma_prompt(tally: Tally, id: Seq<char>, prompt: ResourcesPromptResult)
    ensures
        is_step(
            tally,
            prompt_tally(tally, id, prompt),
            is_sound_prompt(id, prompt),
            is_small_prompt(prompt),
            prompt_cost(prompt),
        ),
        0 <= prompt_cost(prompt),
{
    let messages = prompt.messages@;
    lemma_local_id(prompt.id@, 128);
    let listed = tally.demand(prompt.id@ == id).check(local_id_verdict(prompt.id@, 128)).bound(
        messages.len() <= 16,
    ).string(prompt.id@).charge(4);
    let sound = prompt.id@ == id && is_local(prompt.id@);
    let small = text_size(prompt.id@) <= 128 && messages.len() <= 16;
    let cost = text_cost(prompt.id@) + 4;
    assert(is_step(tally, listed, sound, small, cost));
    lemma_messages(listed, messages, 0);
    lemma_steps(
        tally,
        listed,
        prompt_tally(tally, id, prompt),
        sound,
        small,
        cost,
        forall|k: int| 0 <= k < messages.len() ==> is_ordinary_text((#[trigger] messages[k]).text@),
        (forall|k: int|
            0 <= k < messages.len() ==> text_size((#[trigger] messages[k]).text@) <= 65_536)
            && spoken_bytes(messages, 0) <= 262_144,
        8 * messages.len() + spoken_bytes(messages, 0),
    );
}

/// The cost of the contributions from contribution `i` on.
pub open spec fn items_cost(items: Seq<ResourcesContribution>, i: int) -> int
    decreases items.len() - i,
{
    if i >= items.len() {
        0
    } else {
        text_cost(items[i].id@) + 4 + items_cost(items, i + 1)
    }
}

proof fn lemma_items(tally: Tally, items: Seq<ResourcesContribution>, i: int)
    requires
        0 <= i <= items.len(),
    ensures
        is_step(
            tally,
            contributions_tally_from(tally, items, i),
            true,
            true,
            items_cost(items, i),
        ),
        0 <= items_cost(items, i),
    decreases items.len() - i,
{
    if i < items.len() {
        let next = tally.string(items[i].id@).charge(4);
        let cost = text_cost(items[i].id@) + 4;
        assert(is_step(tally, next, true, true, cost));
        lemma_items(next, items, i + 1);
        lemma_steps(
            tally,
            next,
            contributions_tally_from(next, items, i + 1),
            true,
            true,
            cost,
            true,
            true,
            items_cost(items, i + 1),
        );
    }
}

/// A list of contributions is accepted exactly when its identifiers are local names
/// in strict order, there are at most 64 of at most 128 bytes, and the charge with
/// them is at most 262144.
pub proof fn lemma_contributions(tally: Tally, result: ResourcesContributionsResult)
    ensures
        is_step(
            tally,
            contributions_tally(tally, result),
            are_increasing(contribution_ids(result.items@)),
            result.items@.len() <= 64 && (forall|k: int|
                0 <= k < result.items@.len() ==> text_size((#[trigger] result.items@[k]).id@)
                    <= 128) && tally.value + 4 + items_cost(result.items@, 0) <= 262_144,
            4 + items_cost(result.items@, 0),
        ),
        0 <= items_cost(result.items@, 0),
{
    let items = result.items@;
    let ids = contribution_ids(items);
    lemma_increasing(ids, 128);
    let listed = tally.bound(items.len() <= 64).check(strict_ids_verdict(ids, 128, 0)).charge(4);
    let sound = are_increasing(ids);
    let short = forall|k: int| 0 <= k < ids.len() ==> text_size(#[trigger] ids[k]) <= 128;
    let few = items.len() <= 64;
    assert(is_step(tally, listed, sound, few && short, 4));
    lemma_items(listed, items, 0);
    lemma_steps(
        tally,
        listed,
        contributions_tally_from(listed, items, 0),
        sound,
        few && short,
        4,
        true,
        true,
        items_cost(items, 0),
    );
    let all = forall|k: int| 0 <= k < items.len() ==> text_size((#[trigger] items[k]).id@) <= 128;
    if all {
        assert forall|k: int| 0 <= k < ids.len() implies text_size(#[trigger] ids[k]) <= 128 by {
            assert(items[k].id@ == ids[k]);
        }
    }
    if short {
        assert forall|k: int| 0 <= k < items.len() implies text_size((#[trigger] items[k]).id@)
            <= 128 by {
            assert(items[k].id@ == ids[k]);
        }
    }
}

// ---------------------------------------------------------------------------
// Results
// ---------------------------------------------------------------------------

/// Whether a result is of the case of its request and well formed.
pub open spec fn is_sound_result(
    request: ResourcesTaskRequest,
    result: ResourcesTaskResult,
) -> bool {
    match (request, result) {
        (ResourcesTaskRequest::Catalog(request), ResourcesTaskResult::Catalog(page)) =>
            is_sound_page(request.offset as int, page),
        (ResourcesTaskRequest::Read(request), ResourcesTaskResult::Read(part)) => is_ordinary_text(
            part.text@,
        ) && (part.next_offset matches Some(next) ==> part.text@.len() > 0 && next
            == request.offset + text_size(part.text@)),
        (ResourcesTaskRequest::RenderPrompt(request), ResourcesTaskResult::Prompt(prompt)) =>
            is_sound_prompt(request.id@, prompt),
        (ResourcesTaskRequest::Contributions, ResourcesTaskResult::Contributions(list)) =>
            are_increasing(contribution_ids(list.items@)),
        _ => false,
    }
}

/// Whether a result is within its bounds.
pub open spec fn is_small_result(
    request: ResourcesTaskRequest,
    result: ResourcesTaskResult,
) -> bool {
    match (request, result) {
        (ResourcesTaskRequest::Catalog(request), ResourcesTaskResult::Catalog(page)) =>
            is_small_page(request.limit as int, page),
        (ResourcesTaskRequest::Read(request), ResourcesTaskResult::Read(part)) => text_size(
            part.text@,
        ) <= request.max_bytes,
        (ResourcesTaskRequest::RenderPrompt(_), ResourcesTaskResult::Prompt(prompt)) =>
            is_small_prompt(prompt),
        (ResourcesTaskRequest::Contributions, ResourcesTaskResult::Contributions(list)) => {
            &&& list.items@.len() <= 64
            &&& forall|k: int|
                0 <= k < list.items@.len() ==> text_size((#[trigger] list.items@[k]).id@) <= 128
            &&& 8 + items_cost(list.items@, 0) <= 262_144
        },
        _ => true,
    }
}

/// The cost of a result.
pub open spec fn result_cost(result: ResourcesTaskResult) -> int {
    4 + match result {
        ResourcesTaskResult::Catalog(page) => page_cost(page),
        ResourcesTaskResult::Read(part) => text_cost(part.text@) + 4 + (
        if part.next_offset is Some {
            8int
        } else {
            0
        }),
        ResourcesTaskResult::Prompt(prompt) => prompt_cost(prompt),
        ResourcesTaskResult::Contributions(list) => 4 + items_cost(list.items@, 0),
    }
}

/// A result is accepted exactly when its request is, the two belong together, it
/// is of the case of its request, well formed and within its bounds, with at most
/// a mebibyte for all of its parts. It is charged what its parts cost.
pub proof fn lemma_results(
    request: ResourcesTaskRequest,
    result: ResourcesTaskResult,
    relation: TaskRelation,
)
    ensures
        match request_verdict(request) {
            Err(error) => result_verdict(request, result, relation)
                == ValidationResult::<u64>::Err(error),
            Ok(_) => match result_verdict(request, result, relation) {
                Ok(charge) => {
                    &&& relation is Related
                    &&& is_sound_result(request, result)
                    &&& is_small_result(request, result)
                    &&& charge == result_cost(result)
                    &&& result_cost(result) <= 1_048_576
                },
                Err(ResourcesValidationError::InvalidArgument) => relation is Crossed
                    || !is_sound_result(request, result),
                Err(ResourcesValidationError::Limit) => relation is Related && (!is_small_result(
                    request,
                    result,
                ) || result_cost(result) > 1_048_576),
            },
        },
        relation is Crossed ==> result_verdict(request, result, relation) is Err,
{
    let start = empty_tally(1_048_576);
    let tagged = start.charge(4);
    match (request, result) {
        (ResourcesTaskRequest::Catalog(asked), ResourcesTaskResult::Catalog(page)) => {
            lemma_page(tagged, asked.offset, asked.limit, page);
        },
        (ResourcesTaskRequest::Read(asked), ResourcesTaskResult::Read(part)) => {
            lemma_read(tagged, asked, part);
        },
        (ResourcesTaskRequest::RenderPrompt(asked), ResourcesTaskResult::Prompt(prompt)) => {
            lemma_prompt(tagged, asked.id@, prompt);
        },
        (ResourcesTaskRequest::Contributions, ResourcesTaskResult::Contributions(list)) => {
            lemma_contributions(tagged, list);
        },
        _ => {},
    }
}

} // verus!
