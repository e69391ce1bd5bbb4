//! Which catalogs, pages and exchanges are accepted.

use vstd::prelude::*;
use vstd::utf8::encode_utf8;

use crate::provider_api::{
    AuthInteractionRequest, AuthInteractionResponse, CatalogEntry, CatalogMetadataEntry,
    CatalogPage, CatalogRequest, CatalogRevision, CatalogSourceView, DescriptorRequest,
    InputModality, ModelSelection, ProviderDescriptor,
};
use crate::provider_validation::catalog::{
    auth_verdict, descriptor_verdict, entries_verdict, entries_verdict_from, entry_selections,
    entry_verdict, follows, metadata_agrees, metadata_entry_verdict, metadata_selections,
    metadata_verdict_from, modalities_verdict, modality_number, page_verdict, request_verdict,
    revision_verdict, selection_before, selection_bytes, source_revision_verdict, source_verdict,
    sources_agree, steps_verdict_from,
};
use crate::provider_validation::charge_laws::{judges, text_size};
use crate::provider_validation::scalar_laws::{
    is_line, is_marked_hex, is_ordinary_text, lemma_digest, lemma_label, lemma_safe_text,
};
use crate::text::{bytes_before, lemma_byte_order, lemma_encoding_is_injective};

verus! {

// ---------------------------------------------------------------------------
// Entries
// ---------------------------------------------------------------------------

/// The identifier of a selection: its text, and whether its parser took it.
pub open spec fn selected_id(selection: ModelSelection) -> (Seq<char>, bool) {
    match selection {
        ModelSelection::Exact(id) => (id.text@, id.canonical),
        ModelSelection::Alias(id) => (id.text@, id.canonical),
    }
}

/// Whether one selection comes before another: exact ones before aliases, and
/// those of one form by the bytes of their texts. Texts differ in any case.
pub open spec fn comes_before(left: ModelSelection, right: ModelSelection) -> bool {
    &&& selected_id(left).0 != selected_id(right).0
    &&& match (left, right) {
        (ModelSelection::Exact(_), ModelSelection::Alias(_)) => true,
        (ModelSelection::Alias(_), ModelSelection::Exact(_)) => false,
        _ => bytes_before(encode_utf8(selected_id(left).0), encode_utf8(selected_id(right).0)),
    }
}

/// Whether a list of modalities is one of the four that there are.
pub open spec fn are_sound_modalities(modalities: Seq<InputModality>) -> bool {
    ||| modalities == seq![InputModality::Unknown]
    ||| modalities == seq![InputModality::Text]
    ||| modalities == seq![InputModality::Image]
    ||| modalities == seq![InputModality::Text, InputModality::Image]
}

/// Whether a bound that is given is positive.
pub open spec fn is_positive(value: Option<u64>) -> bool {
    value matches Some(value) ==> value >= 1
}

/// Whether a catalog entry is well formed.
pub open spec fn is_sound_entry(entry: CatalogEntry) -> bool {
    &&& selected_id(entry.selection).1
    &&& entry.current_model.canonical
    &&& entry.display_name matches Some(name) ==> is_line(name@)
    &&& are_sound_modalities(entry.input_modalities@)
    &&& is_positive(entry.context_tokens)
    &&& is_positive(entry.max_output_tokens)
    &&& entry.completion_operation.canonical
    &&& entry.selection is Exact ==> selected_id(entry.selection).0 == entry.current_model.text@
}

/// Whether a catalog entry is within its bounds.
pub open spec fn is_small_entry(entry: CatalogEntry) -> bool {
    &&& entry.display_name matches Some(name) ==> text_size(name@) <= 256
    &&& 1 <= entry.input_modalities@.len() <= 3
}

/// Whether a metadata entry is well formed.
pub open spec fn is_sound_metadata(entry: CatalogMetadataEntry) -> bool {
    &&& selected_id(entry.selection).1
    &&& entry.display_name matches Some(name) ==> is_line(name@)
    &&& are_sound_modalities(entry.input_modalities@)
    &&& is_positive(entry.context_tokens)
    &&& is_positive(entry.max_output_tokens)
}

/// Whether a metadata entry is within its bounds.
pub open spec fn is_small_metadata(entry: CatalogMetadataEntry) -> bool {
    &&& entry.display_name matches Some(name) ==> text_size(name@) <= 256
    &&& 1 <= entry.input_modalities@.len() <= 3
}

/// Whether selections come in order, without one text twice.
pub open spec fn are_in_order(selections: Seq<ModelSelection>) -> bool {
    forall|i: int, j: int|
        0 <= i < j < selections.len() ==> comes_before(
            #[trigger] selections[i],
            #[trigger] selections[j],
        )
}

/// Whether the entries of a catalog are well formed, in order and without one
/// text twice.
pub open spec fn are_sound_entries(entries: Seq<CatalogEntry>) -> bool {
    &&& forall|i: int| 0 <= i < entries.len() ==> is_sound_entry(#[trigger] entries[i])
    &&& are_in_order(entry_selections(entries))
}

/// Whether the entries of a catalog are within their bounds.
pub open spec fn are_small_entries(entries: Seq<CatalogEntry>) -> bool {
    &&& entries.len() <= 4_096
    &&& forall|i: int| 0 <= i < entries.len() ==> is_small_entry(#[trigger] entries[i])
}

proof fn lemma_modalities(modalities: Seq<InputModality>)
    ensures
        judges(
            modalities_verdict(modalities),
            are_sound_modalities(modalities),
            1 <= modalities.len() <= 3,
        ),
{
    if 1 <= modalities.len() <= 3 {
        let accepted = modalities_verdict(modalities) is Ok;
        if accepted {
            if modalities.len() == 1 {
                assert(modalities =~= seq![modalities[0]]);
            } else {
                assert(modality_number(modalities[0]) < modality_number(modalities[1]));
                assert(modalities[0] != InputModality::Unknown);
                if modalities.len() == 3 {
                    assert(modality_number(modalities[1]) < modality_number(modalities[2]));
                }
                assert(modalities =~= seq![InputModality::Text, InputModality::Image]);
            }
        }
        if are_sound_modalities(modalities) {
            assert(accepted);
        }
    }
}

proof fn lemma_entry(entry: CatalogEntry)
    ensures
        judges(entry_verdict(entry), is_sound_entry(entry), is_small_entry(entry)),
{
    lemma_modalities(entry.input_modalities@);
    if let Some(name) = entry.display_name {
        lemma_label(name@, 256);
    }
}

proof fn lemma_metadata_entry(entry: CatalogMetadataEntry)
    ensures
        judges(metadata_entry_verdict(entry), is_sound_metadata(entry), is_small_metadata(entry)),
{
    lemma_modalities(entry.input_modalities@);
    if let Some(name) = entry.display_name {
        lemma_label(name@, 256);
    }
}

proof fn lemma_neighbours(left: ModelSelection, right: ModelSelection)
    ensures
        comes_before(left, right) == (selection_before(
            left,
            right,
        ) && selection_bytes(left)
            != selection_bytes(right)),
{
    lemma_encoding_is_injective(selected_id(left).0, selected_id(right).0);
}

/// Selections that each follow the one before are in order as a whole.
proof fn lemma_order(selections: Seq<ModelSelection>)
    ensures
        are_in_order(selections) == (forall|i: int|
            0 <= i < selections.len() ==> #[trigger] follows(selections, i)),
{
    if are_in_order(selections) {
        assert forall|i: int| 0 <= i < selections.len() implies #[trigger] follows(selections, i) by {
            if i > 0 {
                lemma_neighbours(selections[i - 1], selections[i]);
            }
            assert forall|j: int| 0 <= j < i implies selection_bytes(
                #[trigger] selections[j],
            ) != selection_bytes(selections[i]) by {
                lemma_neighbours(selections[j], selections[i]);
            }
        }
    }
    if forall|i: int| 0 <= i < selections.len() ==> #[trigger] follows(selections, i) {
        assert forall|i: int, j: int| 0 <= i < j < selections.len() implies comes_before(
            #[trigger] selections[i],
            #[trigger] selections[j],
        ) by {
            lemma_order_chain(selections, i, j);
        }
    }
}

proof fn lemma_order_chain(selections: Seq<ModelSelection>, i: int, j: int)
    requires
        forall|k: int| 0 <= k < selections.len() ==> #[trigger] follows(selections, k),
        0 <= i < j < selections.len(),
    ensures
        comes_before(selections[i], selections[j]),
    decreases j - i,
{
    assert(follows(selections, j));
    lemma_neighbours(selections[j - 1], selections[j]);
    assert(selection_bytes(selections[j - 1])
        != selection_bytes(selections[j]));
    assert(comes_before(selections[j - 1], selections[j]));
    if i < j - 1 {
        lemma_order_chain(selections, i, j - 1);
        assert(selection_bytes(selections[i])
            != selection_bytes(selections[j]));
        lemma_encoding_is_injective(selected_id(selections[i]).0, selected_id(selections[j]).0);
        lemma_byte_order(
            encode_utf8(selected_id(selections[i]).0),
            encode_utf8(selected_id(selections[j - 1]).0),
            encode_utf8(selected_id(selections[j]).0),
        );
    }
}

proof fn lemma_entries_from(entries: Seq<CatalogEntry>, i: int)
    requires
        0 <= i <= entries.len(),
    ensures
        judges(
            entries_verdict_from(entries, i),
            forall|k: int|
                i <= k < entries.len() ==> is_sound_entry(#[trigger] entries[k]) && follows(
                    entry_selections(entries),
                    k,
                ),
            forall|k: int| i <= k < entries.len() ==> is_small_entry(#[trigger] entries[k]),
        ),
    decreases entries.len() - i,
{
    if i < entries.len() {
        lemma_entry(entries[i]);
        lemma_entries_from(entries, i + 1);
    }
}

/// A list of entries is accepted exactly when each is well formed and within its
/// bounds, they come in order, no text occurs twice, and there are at most 4096.
pub proof fn lemma_catalog_entries(entries: Seq<CatalogEntry>)
    ensures
        judges(entries_verdict(entries), are_sound_entries(entries), are_small_entries(entries)),
{
    let selections = entry_selections(entries);
    lemma_entries_from(entries, 0);
    lemma_order(selections);
    if are_sound_entries(entries) {
        assert forall|k: int| 0 <= k < entries.len() implies is_sound_entry(#[trigger] entries[k])
            && follows(selections, k) by {
            assert(follows(selections, k));
        }
    }
    if forall|k: int|
        0 <= k < entries.len() ==> is_sound_entry(#[trigger] entries[k]) && follows(selections, k) {
        assert forall|i: int| 0 <= i < selections.len() implies #[trigger] follows(selections, i) by {
            assert(is_sound_entry(entries[i]));
        }
    }
}

// ---------------------------------------------------------------------------
// Sources
// ---------------------------------------------------------------------------

/// Whether a revision is well formed.
pub open spec fn is_sound_revision(revision: CatalogRevision) -> bool {
    &&& 1 <= revision.last_modified <= 9_223_372_036_854_775_807
    &&& is_marked_hex(revision.canonical_content_digest@, "sha256:"@, 64)
}

/// Whether two revisions are the same.
pub open spec fn is_same_revision(left: CatalogRevision, right: CatalogRevision) -> bool {
    &&& left.last_modified == right.last_modified
    &&& left.canonical_content_digest@ == right.canonical_content_digest@
}

/// Whether a catalog source is well formed.
pub open spec fn is_sound_source(source: CatalogSourceView) -> bool {
    source matches CatalogSourceView::Verified(view) ==> {
        &&& is_sound_revision(view.revision)
        &&& forall|i: int| 0 <= i < view.entries@.len() ==> is_sound_metadata(#[trigger] view.entries@[i])
        &&& are_in_order(metadata_selections(view.entries@))
    }
}

/// Whether a catalog source is within its bounds.
pub open spec fn is_small_source(source: CatalogSourceView) -> bool {
    source matches CatalogSourceView::Verified(view) ==> {
        &&& view.entries@.len() <= 4_096
        &&& forall|i: int| 0 <= i < view.entries@.len() ==> is_small_metadata(#[trigger] view.entries@[i])
    }
}

/// Whether a revision is that of a source: none for an embedded one, the same
/// for a verified one.
pub open spec fn is_revision_of(
    source: CatalogSourceView,
    revision: Option<CatalogRevision>,
) -> bool {
    match source {
        CatalogSourceView::Embedded => revision is None,
        CatalogSourceView::Verified(view) => revision matches Some(revision) && is_sound_revision(
            revision,
        ) && is_same_revision(view.revision, revision),
    }
}

proof fn lemma_revision(revision: CatalogRevision)
    ensures
        judges(revision_verdict(revision), is_sound_revision(revision), true),
{
    lemma_digest(revision.canonical_content_digest@);
}

proof fn lemma_metadata_from(entries: Seq<CatalogMetadataEntry>, i: int)
    requires
        0 <= i <= entries.len(),
    ensures
        judges(
            metadata_verdict_from(entries, i),
            forall|k: int|
                i <= k < entries.len() ==> is_sound_metadata(#[trigger] entries[k]) && follows(
                    metadata_selections(entries),
                    k,
                ),
            forall|k: int| i <= k < entries.len() ==> is_small_metadata(#[trigger] entries[k]),
        ),
    decreases entries.len() - i,
{
    if i < entries.len() {
        lemma_metadata_entry(entries[i]);
        lemma_metadata_from(entries, i + 1);
    }
}

/// A source is accepted exactly when it is well formed and within its bounds.
pub proof fn lemma_source(source: CatalogSourceView)
    ensures
        judges(source_verdict(source), is_sound_source(source), is_small_source(source)),
{
    if let CatalogSourceView::Verified(view) = source {
        let entries = view.entries@;
        let selections = metadata_selections(entries);
        lemma_revision(view.revision);
        lemma_metadata_from(entries, 0);
        lemma_order(selections);
        if is_sound_source(source) {
            assert forall|k: int| 0 <= k < entries.len() implies is_sound_metadata(
                #[trigger] entries[k],
            ) && follows(selections, k) by {
                assert(follows(selections, k));
            }
        }
        if forall|k: int|
            0 <= k < entries.len() ==> is_sound_metadata(#[trigger] entries[k]) && follows(
                selections,
                k,
            ) {
            assert forall|i: int| 0 <= i < selections.len() implies #[trigger] follows(
                selections,
                i,
            ) by {
                assert(is_sound_metadata(entries[i]));
            }
        }
    }
}

proof fn lemma_source_revision(source: CatalogSourceView, revision: Option<CatalogRevision>)
    ensures
        judges(source_revision_verdict(source, revision), is_revision_of(source, revision), true),
{
    if let Some(actual) = revision {
        lemma_revision(actual);
    }
}

// ---------------------------------------------------------------------------
// Exchanges
// ---------------------------------------------------------------------------

/// Whether a descriptor answers its request: it is about the same provider and
/// route, and its revision is that of the source.
pub open spec fn is_sound_descriptor(
    request: DescriptorRequest,
    descriptor: ProviderDescriptor,
) -> bool {
    &&& request.provider_id.canonical && request.route_id.canonical
    &&& descriptor.provider_id.canonical && descriptor.route_id.canonical
    &&& is_sound_source(request.catalog_source)
    &&& is_marked_hex(descriptor.catalog_digest@, "sha256:"@, 64)
    &&& request.provider_id.text@ == descriptor.provider_id.text@
    &&& request.route_id.text@ == descriptor.route_id.text@
    &&& is_revision_of(request.catalog_source, descriptor.source_revision)
}

/// Whether a descriptor and its request are within their bounds.
pub open spec fn is_small_descriptor(
    request: DescriptorRequest,
    descriptor: ProviderDescriptor,
) -> bool {
    is_small_source(request.catalog_source) && descriptor.model_count <= 4_096
}

/// A descriptor is accepted exactly when it answers its request within the
/// bounds.
pub proof fn lemma_descriptor(request: DescriptorRequest, descriptor: ProviderDescriptor)
    ensures
        judges(
            descriptor_verdict(request, descriptor),
            is_sound_descriptor(request, descriptor),
            is_small_descriptor(request, descriptor),
        ),
{
    lemma_source(request.catalog_source);
    lemma_digest(descriptor.catalog_digest@);
    lemma_source_revision(request.catalog_source, descriptor.source_revision);
}

/// Whether two metadata entries hold the same.
pub open spec fn is_same_metadata(left: CatalogMetadataEntry, right: CatalogMetadataEntry) -> bool {
    &&& left.selection is Exact == right.selection is Exact
    &&& selected_id(left.selection).0 == selected_id(right.selection).0
    &&& match (left.display_name, right.display_name) {
        (None, None) => true,
        (Some(left), Some(right)) => left@ == right@,
        _ => false,
    }
    &&& left.input_modalities@ == right.input_modalities@
    &&& left.tool_capability == right.tool_capability
    &&& left.reasoning_capability == right.reasoning_capability
    &&& left.context_tokens == right.context_tokens
    &&& left.max_output_tokens == right.max_output_tokens
}

/// Whether two sources hold the same.
pub open spec fn is_same_source(left: CatalogSourceView, right: CatalogSourceView) -> bool {
    match (left, right) {
        (CatalogSourceView::Embedded, CatalogSourceView::Embedded) => true,
        (CatalogSourceView::Verified(left), CatalogSourceView::Verified(right)) => {
            &&& is_same_revision(left.revision, right.revision)
            &&& left.entries@.len() == right.entries@.len()
            &&& forall|i: int|
                0 <= i < left.entries@.len() ==> is_same_metadata(
                    #[trigger] left.entries@[i],
                    right.entries@[i],
                )
        },
        _ => false,
    }
}

/// Whether a request for a page refers to its descriptor.
pub open spec fn is_sound_page_request(
    descriptor_request: DescriptorRequest,
    descriptor: ProviderDescriptor,
    request: CatalogRequest,
) -> bool {
    &&& is_sound_descriptor(descriptor_request, descriptor)
    &&& request.provider_id.canonical && request.route_id.canonical
    &&& is_marked_hex(request.catalog_digest@, "sha256:"@, 64)
    &&& is_sound_source(request.catalog_source)
    &&& request.provider_id.text@ == descriptor.provider_id.text@
    &&& request.route_id.text@ == descriptor.route_id.text@
    &&& request.catalog_digest@ == descriptor.catalog_digest@
    &&& request.offset <= descriptor.model_count
    &&& is_same_source(descriptor_request.catalog_source, request.catalog_source)
}

/// Whether a request for a page is within its bounds.
pub open spec fn is_small_page_request(
    descriptor_request: DescriptorRequest,
    descriptor: ProviderDescriptor,
    request: CatalogRequest,
) -> bool {
    &&& is_small_descriptor(descriptor_request, descriptor)
    &&& is_small_source(request.catalog_source)
    &&& 1 <= request.limit <= 256
}

/// A request for a page is accepted exactly when it refers to its descriptor
/// within the bounds.
pub proof fn lemma_page_request(
    descriptor_request: DescriptorRequest,
    descriptor: ProviderDescriptor,
    request: CatalogRequest,
)
    ensures
        judges(
            request_verdict(descriptor_request, descriptor, request),
            is_sound_page_request(descriptor_request, descriptor, request),
            is_small_page_request(descriptor_request, descriptor, request),
        ),
{
    lemma_descriptor(descriptor_request, descriptor);
    lemma_source(request.catalog_source);
    lemma_digest(request.catalog_digest@);
    lemma_same_source(descriptor_request.catalog_source, request.catalog_source);
}

proof fn lemma_same_source(left: CatalogSourceView, right: CatalogSourceView)
    ensures
        is_same_source(left, right) == sources_agree(left, right),
{
    if let (CatalogSourceView::Verified(one), CatalogSourceView::Verified(two)) = (left, right) {
        let a = one.entries@;
        let b = two.entries@;
        assert forall|i: int| 0 <= i < a.len() && i < b.len() implies is_same_metadata(
            #[trigger] a[i],
            b[i],
        ) == metadata_agrees(a[i], b[i]) by {}
        if a.len() == b.len() {
            if is_same_source(left, right) {
                assert forall|i: int| 0 <= i < a.len() implies metadata_agrees(
                    #[trigger] a[i],
                    b[i],
                ) by {
                    assert(is_same_metadata(a[i], b[i]));
                }
            }
            if sources_agree(left, right) {
                assert forall|i: int| 0 <= i < a.len() implies is_same_metadata(
                    #[trigger] a[i],
                    b[i],
                ) by {
                    assert(metadata_agrees(a[i], b[i]));
                }
            }
        }
    }
}

/// Whether a page goes on as it should: the models behind its end are on a next
/// page, which starts there, and only a page without models behind it may be
/// empty.
pub open spec fn goes_on(page: CatalogPage) -> bool {
    let end = page.offset + page.entries@.len();
    &&& end <= page.declared_count
    &&& page.next_offset == if end == page.declared_count {
        None
    } else {
        Some(end as u32)
    }
    &&& page.entries@.len() == 0 ==> end == page.declared_count
}

/// Whether a page answers its request.
pub open spec fn is_sound_page(
    descriptor_request: DescriptorRequest,
    descriptor: ProviderDescriptor,
    request: CatalogRequest,
    page: CatalogPage,
) -> bool {
    &&& is_sound_page_request(descriptor_request, descriptor, request)
    &&& page.provider_id.canonical && page.route_id.canonical
    &&& is_marked_hex(page.catalog_digest@, "sha256:"@, 64)
    &&& is_revision_of(request.catalog_source, page.source_revision)
    &&& page.provider_id.text@ == request.provider_id.text@
    &&& page.route_id.text@ == request.route_id.text@
    &&& page.catalog_digest@ == request.catalog_digest@
    &&& page.declared_count == descriptor.model_count
    &&& page.offset == request.offset
    &&& are_sound_entries(page.entries@)
    &&& goes_on(page)
}

/// Whether a page is within its bounds.
pub open spec fn is_small_page(
    descriptor_request: DescriptorRequest,
    descriptor: ProviderDescriptor,
    request: CatalogRequest,
    page: CatalogPage,
) -> bool {
    &&& is_small_page_request(descriptor_request, descriptor, request)
    &&& page.entries@.len() <= request.limit
    &&& are_small_entries(page.entries@)
    &&& page.offset + page.entries@.len() <= 0xffff_ffff
}

/// A page is accepted exactly when it answers its request within the bounds.
pub proof fn lemma_page(
    descriptor_request: DescriptorRequest,
    descriptor: ProviderDescriptor,
    request: CatalogRequest,
    page: CatalogPage,
)
    ensures
        judges(
            page_verdict(descriptor_request, descriptor, request, page),
            is_sound_page(descriptor_request, descriptor, request, page),
            is_small_page(descriptor_request, descriptor, request, page),
        ),
{
    lemma_page_request(descriptor_request, descriptor, request);
    lemma_digest(page.catalog_digest@);
    lemma_source_revision(request.catalog_source, page.source_revision);
    lemma_catalog_entries(page.entries@);
}

/// Whether a sign-in exchange is about the expected provider and route, and what
/// it shows is well formed.
pub open spec fn is_sound_sign_in(
    request: AuthInteractionRequest,
    response: AuthInteractionResponse,
    provider: Seq<char>,
    route: Seq<char>,
) -> bool {
    &&& request.provider_id.canonical && request.route_id.canonical
    &&& request.provider_id.text@ == provider && request.route_id.text@ == route
    &&& response matches AuthInteractionResponse::Instructions(shown) ==> {
        &&& is_line(shown.title@)
        &&& shown.steps@.len() > 0
        &&& forall|i: int|
            0 <= i < shown.steps@.len() ==> (#[trigger] shown.steps@[i])@.len() > 0
                && is_ordinary_text(shown.steps@[i]@)
    }
}

/// Whether what a sign-in exchange shows is within its bounds.
pub open spec fn is_small_sign_in(response: AuthInteractionResponse) -> bool {
    response matches AuthInteractionResponse::Instructions(shown) ==> {
        &&& text_size(shown.title@) <= 256
        &&& shown.steps@.len() <= 32
        &&& forall|i: int|
            0 <= i < shown.steps@.len() ==> text_size((#[trigger] shown.steps@[i])@) <= 4_096
    }
}

proof fn lemma_sign_in_steps(steps: Seq<String>, i: int)
    requires
        0 <= i <= steps.len(),
    ensures
        judges(
            steps_verdict_from(steps, i),
            forall|k: int|
                i <= k < steps.len() ==> (#[trigger] steps[k])@.len() > 0 && is_ordinary_text(
                    steps[k]@,
                ),
            forall|k: int| i <= k < steps.len() ==> text_size((#[trigger] steps[k])@) <= 4_096,
        ),
    decreases steps.len() - i,
{
    if i < steps.len() {
        lemma_safe_text(steps[i]@, 4_096, true);
        lemma_sign_in_steps(steps, i + 1);
    }
}

/// A sign-in exchange is accepted exactly when it is about the expected provider
/// and route and shows well-formed text within the bounds.
pub proof fn lemma_sign_in(
    request: AuthInteractionRequest,
    response: AuthInteractionResponse,
    provider: Seq<char>,
    route: Seq<char>,
)
    ensures
        judges(
            auth_verdict(request, response, provider, route),
            is_sound_sign_in(request, response, provider, route),
            is_small_sign_in(response),
        ),
{
    if let AuthInteractionResponse::Instructions(shown) = response {
        lemma_label(shown.title@, 256);
        lemma_sign_in_steps(shown.steps@, 0);
    }
}

} // verus!
