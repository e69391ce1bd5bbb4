//! Catalog DTO validation and canonical catalog hashing.

use core::cmp::Ordering;

use vstd::prelude::*;
use vstd::utf8::encode_utf8;

use crate::provider_api::{
    AuthInteractionRequest, AuthInteractionResponse, CapabilitySupport, CatalogEntry,
    CatalogMetadataEntry, CatalogPage, CatalogRequest, CatalogRevision, CatalogSourceView,
    DescriptorRequest, IdText, InputModality, ModelSelection, ProviderDescriptor,
    ReasoningCapability, ToolCapability,
};
use crate::provider_validation::charge::checked_u32_len;
use crate::provider_validation::hashing::{
    be32, be64, digest_chars, digest_text, lemma_append, lemma_digest_text_is_well_formed, push_be32,
    push_be64, push_sized, sha256, sha256_digest, sized, sized_text,
};
use crate::provider_validation::scalar;
use crate::provider_validation::scalar::{
    digest_verdict, identifier_verdict, is_digest, label_verdict, safe_verdict,
};
use crate::provider_validation::{also, verdict, ValidationError, ValidationResult};
use crate::text::{bytes_before, is_before, lemma_byte_order, same_bytes, same_text};

verus! {

/// Largest number of catalog entries.
pub const MAX_CATALOG_ENTRIES: usize = 4_096;

/// Largest number of entries of one catalog page.
pub const MAX_CATALOG_PAGE_ENTRIES: usize = 256;

// ---------------------------------------------------------------------------
// Comparisons
// ---------------------------------------------------------------------------

/// The text of a selection.
pub open spec fn selection_text(selection: ModelSelection) -> Seq<char> {
    match selection {
        ModelSelection::Exact(value) => value.text@,
        ModelSelection::Alias(value) => value.text@,
    }
}

/// The rank of a selection: exact models come before aliases.
pub open spec fn selection_tag(selection: ModelSelection) -> u8 {
    match selection {
        ModelSelection::Exact(_) => 0,
        ModelSelection::Alias(_) => 1,
    }
}

/// The bytes of a selection's text.
pub open spec fn selection_bytes(selection: ModelSelection) -> Seq<u8> {
    encode_utf8(selection_text(selection))
}

/// Both selections are of the same form and have the same text.
pub open spec fn selections_agree(left: ModelSelection, right: ModelSelection) -> bool {
    selection_tag(left) == selection_tag(right) && selection_text(left) == selection_text(right)
}

/// Whether two selections are of the same form and have the same text.
pub fn same_selection(left: &ModelSelection, right: &ModelSelection) -> (equal: bool)
    ensures
        equal == selections_agree(*left, *right),
{
    match (left, right) {
        (ModelSelection::Exact(left), ModelSelection::Exact(right)) => left.text == right.text,
        (ModelSelection::Alias(left), ModelSelection::Alias(right)) => left.text == right.text,
        _ => false,
    }
}

/// A capability is supported.
pub open spec fn supported(value: CapabilitySupport) -> bool {
    value == CapabilitySupport::Supported
}

/// Whether a capability is supported.
pub fn is_supported(value: &CapabilitySupport) -> (found: bool)
    ensures
        found == supported(*value),
{
    matches!(value, CapabilitySupport::Supported)
}

/// The wire number of a capability.
pub open spec fn capability_number(value: CapabilitySupport) -> u8 {
    match value {
        CapabilitySupport::Unknown => 0,
        CapabilitySupport::Unsupported => 1,
        CapabilitySupport::Supported => 2,
    }
}

/// The wire number of a capability.
pub fn capability_ordinal(value: &CapabilitySupport) -> (ordinal: u8)
    ensures
        ordinal == capability_number(*value),
{
    match value {
        CapabilitySupport::Unknown => 0,
        CapabilitySupport::Unsupported => 1,
        CapabilitySupport::Supported => 2,
    }
}

/// The wire number of a modality.
pub open spec fn modality_number(value: InputModality) -> u8 {
    match value {
        InputModality::Unknown => 0,
        InputModality::Text => 1,
        InputModality::Image => 2,
    }
}

/// The wire number of a modality.
pub fn modality_ordinal(value: &InputModality) -> (ordinal: u8)
    ensures
        ordinal == modality_number(*value),
{
    match value {
        InputModality::Unknown => 0,
        InputModality::Text => 1,
        InputModality::Image => 2,
    }
}

/// Whether two tool capabilities are equal.
pub fn same_tool_capability(left: &ToolCapability, right: &ToolCapability) -> (equal: bool)
    ensures
        equal == (*left == *right),
{
    capability_ordinal(&left.tools) == capability_ordinal(&right.tools) && capability_ordinal(
        &left.auto_choice,
    ) == capability_ordinal(&right.auto_choice) && capability_ordinal(&left.none_choice)
        == capability_ordinal(&right.none_choice) && capability_ordinal(&left.specific_choice)
        == capability_ordinal(&right.specific_choice)
}

/// Whether two reasoning capabilities are equal.
pub fn same_reasoning_capability(
    left: &ReasoningCapability,
    right: &ReasoningCapability,
) -> (equal: bool)
    ensures
        equal == (*left == *right),
{
    capability_ordinal(&left.reasoning) == capability_ordinal(&right.reasoning)
        && capability_ordinal(&left.effort) == capability_ordinal(&right.effort)
        && capability_ordinal(&left.budget) == capability_ordinal(&right.budget)
        && capability_ordinal(&left.proof) == capability_ordinal(&right.proof)
}

/// Whether two modality lists are equal.
pub fn same_modalities(left: &[InputModality], right: &[InputModality]) -> (equal: bool)
    ensures
        equal == (left@ == right@),
{
    if left.len() != right.len() {
        return false;
    }
    let mut i: usize = 0;
    while i < left.len()
        invariant
            i <= left@.len(),
            left@.len() == right@.len(),
            forall|j: int| 0 <= j < i ==> left@[j] == right@[j],
        decreases left.len() - i,
    {
        if modality_ordinal(&left[i]) != modality_ordinal(&right[i]) {
            return false;
        }
        i += 1;
    }
    assert(left@ =~= right@);
    true
}

/// Two optional texts are both absent or equal.
pub open spec fn optional_texts_agree(left: Option<String>, right: Option<String>) -> bool {
    match (left, right) {
        (None, None) => true,
        (Some(left), Some(right)) => left@ == right@,
        _ => false,
    }
}

fn same_optional_text(left: &Option<String>, right: &Option<String>) -> (equal: bool)
    ensures
        equal == optional_texts_agree(*left, *right),
{
    match (left, right) {
        (None, None) => true,
        (Some(left), Some(right)) => *left == *right,
        _ => false,
    }
}

/// Two revisions have the same time and content digest.
pub open spec fn revisions_agree(left: CatalogRevision, right: CatalogRevision) -> bool {
    left.last_modified == right.last_modified && left.canonical_content_digest@
        == right.canonical_content_digest@
}

/// Whether two revisions are equal.
pub fn same_revision(left: &CatalogRevision, right: &CatalogRevision) -> (equal: bool)
    ensures
        equal == revisions_agree(*left, *right),
{
    left.last_modified == right.last_modified && left.canonical_content_digest
        == right.canonical_content_digest
}

/// Two metadata entries hold the same data.
pub open spec fn metadata_agrees(left: CatalogMetadataEntry, right: CatalogMetadataEntry) -> bool {
    &&& selections_agree(left.selection, right.selection)
    &&& optional_texts_agree(left.display_name, right.display_name)
    &&& left.input_modalities@ == right.input_modalities@
    &&& left.tool_capability == right.tool_capability
    &&& left.reasoning_capability == right.reasoning_capability
    &&& left.context_tokens == right.context_tokens
    &&& left.max_output_tokens == right.max_output_tokens
}

/// Two metadata lists hold the same entries in the same order.
pub open spec fn metadata_lists_agree(
    left: Seq<CatalogMetadataEntry>,
    right: Seq<CatalogMetadataEntry>,
) -> bool {
    &&& left.len() == right.len()
    &&& forall|i: int| 0 <= i < left.len() ==> metadata_agrees(#[trigger] left[i], right[i])
}

fn same_option(left: Option<u64>, right: Option<u64>) -> (equal: bool)
    ensures
        equal == (left == right),
{
    match (left, right) {
        (None, None) => true,
        (Some(left), Some(right)) => left == right,
        _ => false,
    }
}

/// Whether two metadata lists hold the same entries in the same order.
pub fn same_metadata_entries(
    left: &[CatalogMetadataEntry],
    right: &[CatalogMetadataEntry],
) -> (equal: bool)
    ensures
        equal == metadata_lists_agree(left@, right@),
{
    if left.len() != right.len() {
        return false;
    }
    let mut i: usize = 0;
    while i < left.len()
        invariant
            i <= left@.len(),
            left@.len() == right@.len(),
            forall|j: int| 0 <= j < i ==> metadata_agrees(#[trigger] left@[j], right@[j]),
        decreases left.len() - i,
    {
        let one = &left[i];
        let two = &right[i];
        let equal = same_selection(&one.selection, &two.selection) && same_optional_text(
            &one.display_name,
            &two.display_name,
        ) && same_modalities(one.input_modalities.as_slice(), two.input_modalities.as_slice())
            && same_tool_capability(&one.tool_capability, &two.tool_capability)
            && same_reasoning_capability(&one.reasoning_capability, &two.reasoning_capability)
            && same_option(one.context_tokens, two.context_tokens) && same_option(
            one.max_output_tokens,
            two.max_output_tokens,
        );
        assert(equal == metadata_agrees(left@[i as int], right@[i as int]));
        if !equal {
            return false;
        }
        i += 1;
    }
    true
}

/// Two catalog sources are of the same form and hold the same data.
pub open spec fn sources_agree(left: CatalogSourceView, right: CatalogSourceView) -> bool {
    match (left, right) {
        (CatalogSourceView::Embedded, CatalogSourceView::Embedded) => true,
        (CatalogSourceView::Verified(left), CatalogSourceView::Verified(right)) => revisions_agree(
            left.revision,
            right.revision,
        ) && metadata_lists_agree(left.entries@, right.entries@),
        _ => false,
    }
}

/// Whether two catalog sources hold the same data.
pub fn same_source(left: &CatalogSourceView, right: &CatalogSourceView) -> (equal: bool)
    ensures
        equal == sources_agree(*left, *right),
{
    match (left, right) {
        (CatalogSourceView::Embedded, CatalogSourceView::Embedded) => true,
        (CatalogSourceView::Verified(left), CatalogSourceView::Verified(right)) => {
            same_revision(&left.revision, &right.revision) && same_metadata_entries(
                left.entries.as_slice(),
                right.entries.as_slice(),
            )
        },
        _ => false,
    }
}

// ---------------------------------------------------------------------------
// Selection order
// ---------------------------------------------------------------------------

/// Keys order by rank, then by bytes.
pub open spec fn key_before(
    left_tag: u8,
    left_bytes: Seq<u8>,
    right_tag: u8,
    right_bytes: Seq<u8>,
) -> bool {
    left_tag < right_tag || (left_tag == right_tag && bytes_before(left_bytes, right_bytes))
}

/// Selections order by their keys.
pub open spec fn selection_before(left: ModelSelection, right: ModelSelection) -> bool {
    key_before(
        selection_tag(left),
        selection_bytes(left),
        selection_tag(right),
        selection_bytes(right),
    )
}

/// The ordering key of a selection.
pub fn selection_key(selection: &ModelSelection) -> (key: (u8, &[u8]))
    ensures
        key.0 == selection_tag(*selection),
        key.1@ == selection_bytes(*selection),
{
    match selection {
        ModelSelection::Exact(value) => (0, value.text.as_str().as_bytes()),
        ModelSelection::Alias(value) => (1, value.text.as_str().as_bytes()),
    }
}

/// Compares two selection keys.
pub fn compare_key(left: (u8, &[u8]), right: (u8, &[u8])) -> (ordering: Ordering)
    ensures
        ordering == Ordering::Less <==> key_before(left.0, left.1@, right.0, right.1@),
        ordering == Ordering::Equal <==> left.0 == right.0 && left.1@ == right.1@,
{
    proof {
        crate::text::lemma_byte_order(left.1@, right.1@, left.1@);
    }
    if left.0 < right.0 {
        Ordering::Less
    } else if left.0 > right.0 {
        Ordering::Greater
    } else if is_before(left.1, right.1) {
        Ordering::Less
    } else if same_bytes(left.1, right.1) {
        Ordering::Equal
    } else {
        Ordering::Greater
    }
}

fn selection_precedes(left: &ModelSelection, right: &ModelSelection) -> (before: bool)
    ensures
        before == selection_before(*left, *right),
{
    matches!(compare_key(selection_key(left), selection_key(right)), Ordering::Less)
}

// ---------------------------------------------------------------------------
// Entries
// ---------------------------------------------------------------------------

/// The verdict on a selection: that of its identifier parser.
pub open spec fn selection_verdict(selection: ModelSelection) -> ValidationResult {
    match selection {
        ModelSelection::Exact(value) => identifier_verdict(value),
        ModelSelection::Alias(value) => identifier_verdict(value),
    }
}

/// Checks a selection.
pub fn validate_selection(selection: &ModelSelection) -> (result: ValidationResult)
    ensures
        result == selection_verdict(*selection),
{
    match selection {
        ModelSelection::Exact(value) => scalar::model_id(value),
        ModelSelection::Alias(value) => scalar::model_alias(value),
    }
}

/// One to three modalities in strictly increasing order; an unknown modality
/// stands alone.
pub open spec fn modalities_verdict(modalities: Seq<InputModality>) -> ValidationResult {
    if modalities.len() == 0 || modalities.len() > 3 {
        Err(ValidationError::Limit)
    } else {
        verdict(
            {
                &&& modalities.len() > 1 ==> forall|i: int|
                    0 <= i < modalities.len() ==> #[trigger] modalities[i]
                        != InputModality::Unknown
                &&& forall|i: int, j: int|
                    0 <= i < j < modalities.len() ==> modality_number(#[trigger] modalities[i])
                        < modality_number(#[trigger] modalities[j])
            },
            ValidationError::InvalidArgument,
        )
    }
}

/// Checks a modality list.
#[verifier::loop_isolation(false)]
pub fn validate_modalities(modalities: &[InputModality]) -> (result: ValidationResult)
    ensures
        result == modalities_verdict(modalities@),
{
    if modalities.len() == 0 || modalities.len() > 3 {
        return Err(ValidationError::Limit);
    }
    let mut i: usize = 0;
    while i < modalities.len()
        invariant
            i <= modalities@.len(),
            modalities@.len() > 1 ==> forall|j: int|
                0 <= j < i ==> #[trigger] modalities@[j] != InputModality::Unknown,
            forall|j: int, k: int|
                0 <= j < k < i ==> modality_number(#[trigger] modalities@[j]) < modality_number(
                    #[trigger] modalities@[k],
                ),
        decreases modalities.len() - i,
    {
        let ghost current = modalities@[i as int];
        if modalities.len() > 1 && matches!(modalities[i], InputModality::Unknown) {
            assert(modalities@[i as int] == InputModality::Unknown);
            return Err(ValidationError::InvalidArgument);
        }
        if i > 0 && modality_ordinal(&modalities[i - 1]) >= modality_ordinal(&modalities[i]) {
            assert(!(modality_number(modalities@[i - 1]) < modality_number(
                modalities@[i as int],
            )));
            return Err(ValidationError::InvalidArgument);
        }
        i += 1;
    }
    Ok(())
}

/// A count that is given must not be zero.
pub open spec fn positive_verdict(value: Option<u64>) -> ValidationResult {
    verdict(value != Some(0u64), ValidationError::InvalidArgument)
}

/// Refuses a count of zero.
pub fn validate_positive(value: Option<u64>) -> (result: ValidationResult)
    ensures
        result == positive_verdict(value),
{
    match value {
        Some(0) => Err(ValidationError::InvalidArgument),
        _ => Ok(()),
    }
}

/// The verdict on an optional display name.
pub open spec fn name_verdict(name: Option<String>) -> ValidationResult {
    match name {
        Some(name) => label_verdict(name@, 256),
        None => Ok(()),
    }
}

fn validate_name(name: &Option<String>) -> (result: ValidationResult)
    ensures
        result == name_verdict(*name),
{
    match name {
        Some(name) => scalar::label(name.as_str(), 256),
        None => Ok(()),
    }
}

/// The verdict on one catalog entry.
pub open spec fn entry_verdict(entry: CatalogEntry) -> ValidationResult {
    also(
        selection_verdict(entry.selection),
        also(
            identifier_verdict(entry.current_model),
            also(
                name_verdict(entry.display_name),
                also(
                    modalities_verdict(entry.input_modalities@),
                    also(
                        positive_verdict(entry.context_tokens),
                        also(
                            positive_verdict(entry.max_output_tokens),
                            also(
                                identifier_verdict(entry.completion_operation),
                                verdict(
                                    entry.selection matches ModelSelection::Exact(model)
                                        ==> model.text@ == entry.current_model.text@,
                                    ValidationError::InvalidArgument,
                                ),
                            ),
                        ),
                    ),
                ),
            ),
        ),
    )
}

/// Checks one catalog entry.
pub fn validate_catalog_entry(entry: &CatalogEntry) -> (result: ValidationResult)
    ensures
        result == entry_verdict(*entry),
{
    validate_selection(&entry.selection)?;
    scalar::model_id(&entry.current_model)?;
    validate_name(&entry.display_name)?;
    validate_modalities(entry.input_modalities.as_slice())?;
    validate_positive(entry.context_tokens)?;
    validate_positive(entry.max_output_tokens)?;
    scalar::operation_id(&entry.completion_operation)?;
    if let ModelSelection::Exact(model) = &entry.selection {
        if model.text != entry.current_model.text {
            return Err(ValidationError::InvalidArgument);
        }
    }
    Ok(())
}

/// Entry `i` comes after the entry before it, and no earlier entry has its
/// text.
pub open spec fn follows(selections: Seq<ModelSelection>, i: int) -> bool {
    &&& i > 0 ==> selection_before(selections[i - 1], selections[i])
    &&& forall|j: int|
        0 <= j < i ==> selection_bytes(#[trigger] selections[j]) != selection_bytes(selections[i])
}

/// The selections of a list of catalog entries.
pub open spec fn entry_selections(entries: Seq<CatalogEntry>) -> Seq<ModelSelection> {
    entries.map_values(|entry: CatalogEntry| entry.selection)
}

/// The verdict on the entries from position `i` on.
pub open spec fn entries_verdict_from(entries: Seq<CatalogEntry>, i: int) -> ValidationResult
    decreases entries.len() - i,
{
    if i >= entries.len() {
        Ok(())
    } else {
        also(
            entry_verdict(entries[i]),
            also(
                verdict(follows(entry_selections(entries), i), ValidationError::InvalidArgument),
                entries_verdict_from(entries, i + 1),
            ),
        )
    }
}

/// The verdict on a list of catalog entries.
pub open spec fn entries_verdict(entries: Seq<CatalogEntry>) -> ValidationResult {
    also(
        verdict(entries.len() <= MAX_CATALOG_ENTRIES, ValidationError::Limit),
        entries_verdict_from(entries, 0),
    )
}

/// Checks a list of catalog entries: each entry, strict order, and distinct
/// selection texts.
pub fn validate_catalog_entries(entries: &[CatalogEntry]) -> (result: ValidationResult)
    ensures
        result == entries_verdict(entries@),
{
    if entries.len() > MAX_CATALOG_ENTRIES {
        return Err(ValidationError::Limit);
    }
    let mut i: usize = 0;
    while i < entries.len()
        invariant
            i <= entries@.len() <= MAX_CATALOG_ENTRIES,
            entries_verdict(entries@) == entries_verdict_from(entries@, i as int),
        decreases entries.len() - i,
    {
        let ghost selections = entry_selections(entries@);
        validate_catalog_entry(&entries[i])?;
        let (_, bytes) = selection_key(&entries[i].selection);
        if i > 0 && !selection_precedes(&entries[i - 1].selection, &entries[i].selection) {
            assert(!follows(selections, i as int));
            return Err(ValidationError::InvalidArgument);
        }
        let mut j: usize = 0;
        while j < i
            invariant
                j <= i < entries@.len(),
                bytes@ == selection_bytes(entries@[i as int].selection),
                selections == entry_selections(entries@),
                entry_verdict(entries@[i as int]) is Ok,
                entries_verdict(entries@) == entries_verdict_from(entries@, i as int),
                forall|k: int|
                    0 <= k < j ==> selection_bytes(#[trigger] selections[k]) != bytes@,
            decreases i - j,
        {
            let (_, earlier) = selection_key(&entries[j].selection);
            assert(selections[j as int] == entries@[j as int].selection);
            if same_bytes(earlier, bytes) {
                assert(!follows(selections, i as int));
                return Err(ValidationError::InvalidArgument);
            }
            j += 1;
        }
        assert(follows(selections, i as int));
        i += 1;
    }
    Ok(())
}

proof fn lemma_following_selections(selections: Seq<ModelSelection>, i: int, j: int)
    requires
        0 <= i < j < selections.len(),
        forall|k: int| 0 <= k < selections.len() ==> #[trigger] follows(selections, k),
    ensures
        selection_before(selections[i], selections[j]),
        selection_text(selections[i]) != selection_text(selections[j]),
    decreases j - i,
{
    assert(follows(selections, j));
    assert(selection_bytes(selections[i]) != selection_bytes(selections[j]));
    if i < j - 1 {
        lemma_following_selections(selections, i, j - 1);
        lemma_byte_order(
            selection_bytes(selections[i]),
            selection_bytes(selections[j - 1]),
            selection_bytes(selections[j]),
        );
    }
}

proof fn lemma_accepted_entries_follow(entries: Seq<CatalogEntry>, i: int)
    requires
        0 <= i <= entries.len(),
        entries_verdict_from(entries, i) is Ok,
    ensures
        forall|k: int|
            i <= k < entries.len() ==> #[trigger] follows(entry_selections(entries), k)
                && entry_verdict(entries[k]) is Ok,
    decreases entries.len() - i,
{
    if i < entries.len() {
        lemma_accepted_entries_follow(entries, i + 1);
    }
}

/// Accepted entries come in strictly increasing order, and no two select by the
/// same text, not even one exactly and one as an alias.
pub proof fn lemma_accepted_entries_are_sorted(entries: Seq<CatalogEntry>, i: int, j: int)
    requires
        entries_verdict(entries) is Ok,
        0 <= i < j < entries.len(),
    ensures
        entry_verdict(entries[i]) is Ok,
        entry_verdict(entries[j]) is Ok,
        selection_before(entries[i].selection, entries[j].selection),
        selection_text(entries[i].selection) != selection_text(entries[j].selection),
{
    let selections = entry_selections(entries);
    lemma_accepted_entries_follow(entries, 0);
    assert(follows(selections, i));
    assert(follows(selections, j));
    lemma_following_selections(selections, i, j);
}

/// The verdict on one metadata entry.
pub open spec fn metadata_entry_verdict(entry: CatalogMetadataEntry) -> ValidationResult {
    also(
        selection_verdict(entry.selection),
        also(
            name_verdict(entry.display_name),
            also(
                modalities_verdict(entry.input_modalities@),
                also(
                    positive_verdict(entry.context_tokens),
                    positive_verdict(entry.max_output_tokens),
                ),
            ),
        ),
    )
}

/// The selections of a list of metadata entries.
pub open spec fn metadata_selections(entries: Seq<CatalogMetadataEntry>) -> Seq<ModelSelection> {
    entries.map_values(|entry: CatalogMetadataEntry| entry.selection)
}

/// The verdict on the metadata entries from position `i` on.
pub open spec fn metadata_verdict_from(
    entries: Seq<CatalogMetadataEntry>,
    i: int,
) -> ValidationResult
    decreases entries.len() - i,
{
    if i >= entries.len() {
        Ok(())
    } else {
        also(
            metadata_entry_verdict(entries[i]),
            also(
                verdict(
                    follows(metadata_selections(entries), i),
                    ValidationError::InvalidArgument,
                ),
                metadata_verdict_from(entries, i + 1),
            ),
        )
    }
}

/// Checks a list of metadata entries: each entry, strict order, and distinct
/// selection texts.
pub fn validate_metadata_entries(entries: &[CatalogMetadataEntry]) -> (result: ValidationResult)
    ensures
        result == metadata_verdict_from(entries@, 0),
{
    let mut i: usize = 0;
    while i < entries.len()
        invariant
            i <= entries@.len(),
            metadata_verdict_from(entries@, 0) == metadata_verdict_from(entries@, i as int),
        decreases entries.len() - i,
    {
        let ghost selections = metadata_selections(entries@);
        let entry = &entries[i];
        validate_selection(&entry.selection)?;
        validate_name(&entry.display_name)?;
        validate_modalities(entry.input_modalities.as_slice())?;
        validate_positive(entry.context_tokens)?;
        validate_positive(entry.max_output_tokens)?;
        let (_, bytes) = selection_key(&entry.selection);
        if i > 0 && !selection_precedes(&entries[i - 1].selection, &entry.selection) {
            assert(!follows(selections, i as int));
            return Err(ValidationError::InvalidArgument);
        }
        let mut j: usize = 0;
        while j < i
            invariant
                j <= i < entries@.len(),
                bytes@ == selection_bytes(entries@[i as int].selection),
                selections == metadata_selections(entries@),
                metadata_entry_verdict(entries@[i as int]) is Ok,
                metadata_verdict_from(entries@, 0) == metadata_verdict_from(entries@, i as int),
                forall|k: int|
                    0 <= k < j ==> selection_bytes(#[trigger] selections[k]) != bytes@,
            decreases i - j,
        {
            let (_, earlier) = selection_key(&entries[j].selection);
            assert(selections[j as int] == entries@[j as int].selection);
            if same_bytes(earlier, bytes) {
                assert(!follows(selections, i as int));
                return Err(ValidationError::InvalidArgument);
            }
            j += 1;
        }
        assert(follows(selections, i as int));
        i += 1;
    }
    Ok(())
}

/// The verdict on a revision: a positive time within 63 bits and a digest.
pub open spec fn revision_verdict(revision: CatalogRevision) -> ValidationResult {
    also(
        verdict(
            0 < revision.last_modified <= 0x7fff_ffff_ffff_ffff,
            ValidationError::InvalidArgument,
        ),
        digest_verdict(revision.canonical_content_digest@),
    )
}

/// Checks a revision.
pub fn validate_revision(revision: &CatalogRevision) -> (result: ValidationResult)
    ensures
        result == revision_verdict(*revision),
{
    if revision.last_modified == 0 || revision.last_modified > 0x7fff_ffff_ffff_ffff {
        return Err(ValidationError::InvalidArgument);
    }
    scalar::digest(revision.canonical_content_digest.as_str())
}

/// The verdict on a catalog source.
pub open spec fn source_verdict(source: CatalogSourceView) -> ValidationResult {
    match source {
        CatalogSourceView::Embedded => Ok(()),
        CatalogSourceView::Verified(view) => also(
            revision_verdict(view.revision),
            also(
                verdict(view.entries@.len() <= MAX_CATALOG_ENTRIES, ValidationError::Limit),
                metadata_verdict_from(view.entries@, 0),
            ),
        ),
    }
}

/// Checks a catalog source.
pub fn validate_catalog_source(source: &CatalogSourceView) -> (result: ValidationResult)
    ensures
        result == source_verdict(*source),
{
    match source {
        CatalogSourceView::Embedded => Ok(()),
        CatalogSourceView::Verified(view) => {
            validate_revision(&view.revision)?;
            if view.entries.len() > MAX_CATALOG_ENTRIES {
                return Err(ValidationError::Limit);
            }
            validate_metadata_entries(view.entries.as_slice())
        },
    }
}

/// A revision is given exactly for a verified source, is well formed and is
/// that of the source.
pub open spec fn source_revision_verdict(
    source: CatalogSourceView,
    revision: Option<CatalogRevision>,
) -> ValidationResult {
    match (source, revision) {
        (CatalogSourceView::Embedded, None) => Ok(()),
        (CatalogSourceView::Verified(view), Some(actual)) => also(
            revision_verdict(actual),
            verdict(revisions_agree(view.revision, actual), ValidationError::InvalidArgument),
        ),
        _ => Err(ValidationError::InvalidArgument),
    }
}

/// Checks the revision that a provider reports for a source.
pub fn validate_source_revision(
    source: &CatalogSourceView,
    revision: &Option<CatalogRevision>,
) -> (result: ValidationResult)
    ensures
        result == source_revision_verdict(*source, *revision),
{
    match (source, revision) {
        (CatalogSourceView::Embedded, None) => Ok(()),
        (CatalogSourceView::Verified(view), Some(actual)) => {
            validate_revision(actual)?;
            if same_revision(&view.revision, actual) {
                Ok(())
            } else {
                Err(ValidationError::InvalidArgument)
            }
        },
        _ => Err(ValidationError::InvalidArgument),
    }
}

// ---------------------------------------------------------------------------
// Requests and responses
// ---------------------------------------------------------------------------

/// The verdict on the steps of sign-in instructions from position `i` on.
pub open spec fn steps_verdict_from(steps: Seq<String>, i: int) -> ValidationResult
    decreases steps.len() - i,
{
    if i >= steps.len() {
        Ok(())
    } else {
        also(safe_verdict(steps[i]@, 4_096, true), steps_verdict_from(steps, i + 1))
    }
}

/// The verdict on a sign-in exchange.
pub open spec fn auth_verdict(
    request: AuthInteractionRequest,
    response: AuthInteractionResponse,
    expected_provider: Seq<char>,
    expected_route: Seq<char>,
) -> ValidationResult {
    also(
        also(identifier_verdict(request.provider_id), identifier_verdict(request.route_id)),
        also(
            verdict(
                request.provider_id.text@ == expected_provider && request.route_id.text@
                    == expected_route,
                ValidationError::InvalidArgument,
            ),
            match response {
                AuthInteractionResponse::NotPresented => Ok(()),
                AuthInteractionResponse::Instructions(instructions) => also(
                    label_verdict(instructions.title@, 256),
                    if instructions.steps@.len() == 0 {
                        Err(ValidationError::InvalidArgument)
                    } else if instructions.steps@.len() > 32 {
                        Err(ValidationError::Limit)
                    } else {
                        steps_verdict_from(instructions.steps@, 0)
                    },
                ),
            },
        ),
    )
}

/// Checks a sign-in exchange: it is bound to the expected provider and route,
/// and presents bounded safe text only.
pub fn validate_auth_interaction(
    request: &AuthInteractionRequest,
    response: &AuthInteractionResponse,
    expected_provider: &str,
    expected_route: &str,
) -> (result: ValidationResult)
    ensures
        result == auth_verdict(*request, *response, expected_provider@, expected_route@),
{
    scalar::provider_id(&request.provider_id)?;
    scalar::route_id(&request.route_id)?;
    if !same_text(request.provider_id.text.as_str(), expected_provider) || !same_text(
        request.route_id.text.as_str(),
        expected_route,
    ) {
        return Err(ValidationError::InvalidArgument);
    }
    match response {
        AuthInteractionResponse::NotPresented => Ok(()),
        AuthInteractionResponse::Instructions(instructions) => {
            scalar::label(instructions.title.as_str(), 256)?;
            if instructions.steps.len() == 0 {
                return Err(ValidationError::InvalidArgument);
            }
            if instructions.steps.len() > 32 {
                return Err(ValidationError::Limit);
            }
            validate_steps(instructions.steps.as_slice())
        },
    }
}

fn validate_steps(steps: &[String]) -> (result: ValidationResult)
    ensures
        result == steps_verdict_from(steps@, 0),
{
    let mut i: usize = 0;
    while i < steps.len()
        invariant
            i <= steps@.len(),
            steps_verdict_from(steps@, 0) == steps_verdict_from(steps@, i as int),
        decreases steps.len() - i,
    {
        scalar::safe(steps[i].as_str(), 4_096, true)?;
        i += 1;
    }
    Ok(())
}

/// The verdict on a descriptor and the request that it answers.
pub open spec fn descriptor_verdict(
    request: DescriptorRequest,
    descriptor: ProviderDescriptor,
) -> ValidationResult {
    also(
        also(identifier_verdict(request.provider_id), identifier_verdict(request.route_id)),
        also(
            source_verdict(request.catalog_source),
            also(
                also(
                    identifier_verdict(descriptor.provider_id),
                    identifier_verdict(descriptor.route_id),
                ),
                also(
                    digest_verdict(descriptor.catalog_digest@),
                    also(
                        verdict(
                            descriptor.model_count <= MAX_CATALOG_ENTRIES,
                            ValidationError::Limit,
                        ),
                        also(
                            verdict(
                                request.provider_id.text@ == descriptor.provider_id.text@
                                    && request.route_id.text@ == descriptor.route_id.text@,
                                ValidationError::InvalidArgument,
                            ),
                            source_revision_verdict(
                                request.catalog_source,
                                descriptor.source_revision,
                            ),
                        ),
                    ),
                ),
            ),
        ),
    )
}

/// Checks a provider descriptor against the request that it answers.
pub fn validate_descriptor(request: &DescriptorRequest, descriptor: &ProviderDescriptor) -> (result:
    ValidationResult)
    ensures
        result == descriptor_verdict(*request, *descriptor),
{
    scalar::provider_id(&request.provider_id)?;
    scalar::route_id(&request.route_id)?;
    validate_catalog_source(&request.catalog_source)?;
    scalar::provider_id(&descriptor.provider_id)?;
    scalar::route_id(&descriptor.route_id)?;
    scalar::digest(descriptor.catalog_digest.as_str())?;
    if descriptor.model_count > 4_096 {
        return Err(ValidationError::Limit);
    }
    if request.provider_id.text != descriptor.provider_id.text || request.route_id.text
        != descriptor.route_id.text {
        return Err(ValidationError::InvalidArgument);
    }
    validate_source_revision(&request.catalog_source, &descriptor.source_revision)
}

/// The verdict on a request for a catalog page.
pub open spec fn request_verdict(
    descriptor_request: DescriptorRequest,
    descriptor: ProviderDescriptor,
    request: CatalogRequest,
) -> ValidationResult {
    also(
        descriptor_verdict(descriptor_request, descriptor),
        also(
            also(identifier_verdict(request.provider_id), identifier_verdict(request.route_id)),
            also(
                digest_verdict(request.catalog_digest@),
                also(
                    source_verdict(request.catalog_source),
                    also(
                        verdict(
                            1 <= request.limit <= MAX_CATALOG_PAGE_ENTRIES,
                            ValidationError::Limit,
                        ),
                        verdict(
                            {
                                &&& request.provider_id.text@ == descriptor.provider_id.text@
                                &&& request.route_id.text@ == descriptor.route_id.text@
                                &&& request.catalog_digest@ == descriptor.catalog_digest@
                                &&& request.offset <= descriptor.model_count
                                &&& sources_agree(
                                    descriptor_request.catalog_source,
                                    request.catalog_source,
                                )
                            },
                            ValidationError::InvalidArgument,
                        ),
                    ),
                ),
            ),
        ),
    )
}

/// Checks a request for a catalog page against the descriptor it refers to.
pub fn validate_catalog_request(
    descriptor_request: &DescriptorRequest,
    descriptor: &ProviderDescriptor,
    request: &CatalogRequest,
) -> (result: ValidationResult)
    ensures
        result == request_verdict(*descriptor_request, *descriptor, *request),
{
    validate_descriptor(descriptor_request, descriptor)?;
    scalar::provider_id(&request.provider_id)?;
    scalar::route_id(&request.route_id)?;
    scalar::digest(request.catalog_digest.as_str())?;
    validate_catalog_source(&request.catalog_source)?;
    if request.limit == 0 || request.limit > 256 {
        return Err(ValidationError::Limit);
    }
    if request.provider_id.text != descriptor.provider_id.text || request.route_id.text
        != descriptor.route_id.text || request.catalog_digest != descriptor.catalog_digest
        || request.offset > descriptor.model_count || !same_source(
        &descriptor_request.catalog_source,
        &request.catalog_source,
    ) {
        return Err(ValidationError::InvalidArgument);
    }
    Ok(())
}

/// The verdict on the progress of a page: where it ends, and where the next
/// page starts. Only a page that reaches the declared count may be empty.
pub open spec fn progress_verdict(page: CatalogPage) -> ValidationResult {
    let end = page.offset + page.entries@.len();
    if end > u32::MAX {
        Err(ValidationError::Limit)
    } else if end < page.declared_count {
        verdict(
            page.entries@.len() > 0 && page.next_offset == Some(end as u32),
            ValidationError::InvalidArgument,
        )
    } else {
        verdict(
            end == page.declared_count && page.next_offset is None,
            ValidationError::InvalidArgument,
        )
    }
}

/// The verdict on a catalog page.
pub open spec fn page_verdict(
    descriptor_request: DescriptorRequest,
    descriptor: ProviderDescriptor,
    request: CatalogRequest,
    page: CatalogPage,
) -> ValidationResult {
    also(
        request_verdict(descriptor_request, descriptor, request),
        also(
            also(identifier_verdict(page.provider_id), identifier_verdict(page.route_id)),
            also(
                digest_verdict(page.catalog_digest@),
                also(
                    source_revision_verdict(request.catalog_source, page.source_revision),
                    also(
                        verdict(
                            {
                                &&& page.provider_id.text@ == request.provider_id.text@
                                &&& page.route_id.text@ == request.route_id.text@
                                &&& page.catalog_digest@ == request.catalog_digest@
                                &&& page.declared_count == descriptor.model_count
                                &&& page.offset == request.offset
                            },
                            ValidationError::InvalidArgument,
                        ),
                        also(
                            verdict(
                                page.entries@.len() <= request.limit,
                                ValidationError::Limit,
                            ),
                            also(entries_verdict(page.entries@), progress_verdict(page)),
                        ),
                    ),
                ),
            ),
        ),
    )
}

/// Checks a catalog page against the request that it answers.
pub fn validate_catalog_page(
    descriptor_request: &DescriptorRequest,
    descriptor: &ProviderDescriptor,
    request: &CatalogRequest,
    page: &CatalogPage,
) -> (result: ValidationResult)
    ensures
        result == page_verdict(*descriptor_request, *descriptor, *request, *page),
{
    validate_catalog_request(descriptor_request, descriptor, request)?;
    scalar::provider_id(&page.provider_id)?;
    scalar::route_id(&page.route_id)?;
    scalar::digest(page.catalog_digest.as_str())?;
    validate_source_revision(&request.catalog_source, &page.source_revision)?;
    if page.provider_id.text != request.provider_id.text || page.route_id.text
        != request.route_id.text || page.catalog_digest != request.catalog_digest
        || page.declared_count != descriptor.model_count || page.offset != request.offset {
        return Err(ValidationError::InvalidArgument);
    }
    if page.entries.len() > request.limit as usize {
        return Err(ValidationError::Limit);
    }
    validate_catalog_entries(page.entries.as_slice())?;
    let entry_count: u32 = checked_u32_len(page.entries.len())?;
    let computed: u32 = match page.offset.checked_add(entry_count) {
        Some(computed) => computed,
        None => {
            return Err(ValidationError::Limit);
        },
    };
    if computed > page.declared_count {
        return Err(ValidationError::InvalidArgument);
    }
    if computed < page.declared_count {
        match page.next_offset {
            Some(next) if next == computed && entry_count > 0 => Ok(()),
            _ => Err(ValidationError::InvalidArgument),
        }
    } else {
        match page.next_offset {
            None => Ok(()),
            Some(_) => Err(ValidationError::InvalidArgument),
        }
    }
}

// ---------------------------------------------------------------------------
// Catalog digest
// ---------------------------------------------------------------------------

/// The domain of catalog digests, with its closing zero byte.
pub open spec fn catalog_domain() -> Seq<u8> {
    encode_utf8("mcode-provider-catalog-v1\0"@)
}

/// An optional text: a zero byte, or a one byte and the sized text.
pub open spec fn optional_text_bytes(value: Option<String>) -> Seq<u8> {
    match value {
        None => seq![0u8],
        Some(value) => seq![1u8] + sized_text(value@),
    }
}

/// An optional number: a zero byte, or a one byte and the number.
pub open spec fn optional_number_bytes(value: Option<u64>) -> Seq<u8> {
    match value {
        None => seq![0u8],
        Some(value) => seq![1u8] + be64(value),
    }
}

/// The modality numbers of a list.
pub open spec fn modality_bytes(modalities: Seq<InputModality>) -> Seq<u8> {
    modalities.map_values(|modality: InputModality| modality_number(modality))
}

/// The four numbers of a tool capability.
pub open spec fn tool_capability_bytes(value: ToolCapability) -> Seq<u8> {
    seq![
        capability_number(value.tools),
        capability_number(value.auto_choice),
        capability_number(value.none_choice),
        capability_number(value.specific_choice),
    ]
}

/// The four numbers of a reasoning capability.
pub open spec fn reasoning_capability_bytes(value: ReasoningCapability) -> Seq<u8> {
    seq![
        capability_number(value.reasoning),
        capability_number(value.effort),
        capability_number(value.budget),
        capability_number(value.proof),
    ]
}

/// The canonical bytes of a catalog entry.
pub open spec fn entry_bytes(entry: CatalogEntry) -> Seq<u8> {
    seq![selection_tag(entry.selection)] + sized(selection_bytes(entry.selection)) + sized_text(
        entry.current_model.text@,
    ) + optional_text_bytes(entry.display_name) + be32(entry.input_modalities@.len() as u32)
        + modality_bytes(entry.input_modalities@) + tool_capability_bytes(entry.tool_capability)
        + reasoning_capability_bytes(entry.reasoning_capability) + optional_number_bytes(
        entry.context_tokens,
    ) + optional_number_bytes(entry.max_output_tokens) + sized_text(
        entry.completion_operation.text@,
    )
}

/// Every length of an entry fits into 32 bits.
pub open spec fn entry_fits(entry: CatalogEntry) -> bool {
    &&& selection_bytes(entry.selection).len() <= u32::MAX
    &&& encode_utf8(entry.current_model.text@).len() <= u32::MAX
    &&& entry.display_name matches Some(name) ==> encode_utf8(name@).len() <= u32::MAX
    &&& entry.input_modalities@.len() <= u32::MAX
    &&& encode_utf8(entry.completion_operation.text@).len() <= u32::MAX
}

/// The canonical bytes of the first `n` entries.
pub open spec fn entries_bytes(entries: Seq<CatalogEntry>, n: int) -> Seq<u8>
    decreases n,
{
    if n <= 0 {
        Seq::empty()
    } else {
        entries_bytes(entries, n - 1) + entry_bytes(entries[n - 1])
    }
}

/// The bytes that a catalog digest is taken of.
pub open spec fn catalog_preimage(
    provider_id: Seq<char>,
    route_id: Seq<char>,
    entries: Seq<CatalogEntry>,
) -> Seq<u8> {
    catalog_domain() + sized_text(provider_id) + sized_text(route_id) + be32(entries.len() as u32)
        + entries_bytes(entries, entries.len() as int)
}

/// The verdict on a catalog that is to be hashed.
pub open spec fn catalog_digest_verdict(
    provider_id: IdText,
    route_id: IdText,
    entries: Seq<CatalogEntry>,
) -> ValidationResult {
    also(
        also(identifier_verdict(provider_id), identifier_verdict(route_id)),
        also(
            entries_verdict(entries),
            verdict(
                {
                    &&& encode_utf8(provider_id.text@).len() <= u32::MAX
                    &&& encode_utf8(route_id.text@).len() <= u32::MAX
                    &&& forall|i: int| 0 <= i < entries.len() ==> entry_fits(#[trigger] entries[i])
                },
                ValidationError::Limit,
            ),
        ),
    )
}

/// Appends a byte string after its length.
pub fn hash_bytes(hash: &mut Vec<u8>, value: &[u8]) -> (result: ValidationResult)
    ensures
        result == verdict(value@.len() <= u32::MAX, ValidationError::Limit),
        final(hash)@ == if value@.len() <= u32::MAX {
            old(hash)@ + sized(value@)
        } else {
            old(hash)@
        },
{
    push_sized(value, hash)
}

/// Appends a text after its length.
pub fn hash_string(hash: &mut Vec<u8>, value: &str) -> (result: ValidationResult)
    ensures
        result == verdict(encode_utf8(value@).len() <= u32::MAX, ValidationError::Limit),
        final(hash)@ == if encode_utf8(value@).len() <= u32::MAX {
            old(hash)@ + sized_text(value@)
        } else {
            old(hash)@
        },
{
    hash_bytes(hash, value.as_bytes())
}

/// Appends an optional text.
pub fn hash_option_string(hash: &mut Vec<u8>, value: &Option<String>) -> (result: ValidationResult)
    ensures
        result == verdict(
            value matches Some(text) ==> encode_utf8(text@).len() <= u32::MAX,
            ValidationError::Limit,
        ),
        result is Ok ==> final(hash)@ == old(hash)@ + optional_text_bytes(*value),
        result is Err ==> final(hash)@ == old(hash)@.push(1),
{
    match value {
        None => {
            hash.push(0);
            assert(hash@ =~= old(hash)@ + optional_text_bytes(*value));
        },
        Some(value) => {
            hash.push(1);
            hash_string(hash, value.as_str())?;
            assert(hash@ =~= old(hash)@ + (seq![1u8] + sized_text(value@)));
        },
    }
    Ok(())
}

/// Appends an optional number.
pub fn hash_option_u64(hash: &mut Vec<u8>, value: Option<u64>)
    ensures
        final(hash)@ == old(hash)@ + optional_number_bytes(value),
{
    match value {
        None => hash.push(0),
        Some(value) => {
            hash.push(1);
            push_be64(value, hash);
        },
    }
    assert(hash@ =~= old(hash)@ + optional_number_bytes(value));
}

/// Appends a tool capability.
pub fn hash_tool_capability(hash: &mut Vec<u8>, value: &ToolCapability)
    ensures
        final(hash)@ == old(hash)@ + tool_capability_bytes(*value),
{
    hash.push(capability_ordinal(&value.tools));
    hash.push(capability_ordinal(&value.auto_choice));
    hash.push(capability_ordinal(&value.none_choice));
    hash.push(capability_ordinal(&value.specific_choice));
    assert(hash@ =~= old(hash)@ + tool_capability_bytes(*value));
}

/// Appends a reasoning capability.
pub fn hash_reasoning_capability(hash: &mut Vec<u8>, value: &ReasoningCapability)
    ensures
        final(hash)@ == old(hash)@ + reasoning_capability_bytes(*value),
{
    hash.push(capability_ordinal(&value.reasoning));
    hash.push(capability_ordinal(&value.effort));
    hash.push(capability_ordinal(&value.budget));
    hash.push(capability_ordinal(&value.proof));
    assert(hash@ =~= old(hash)@ + reasoning_capability_bytes(*value));
}

fn hash_modalities(hash: &mut Vec<u8>, modalities: &[InputModality])
    ensures
        final(hash)@ == old(hash)@ + modality_bytes(modalities@),
{
    let mut i: usize = 0;
    while i < modalities.len()
        invariant
            i <= modalities@.len(),
            hash@ == old(hash)@ + modality_bytes(modalities@).take(i as int),
        decreases modalities.len() - i,
    {
        hash.push(modality_ordinal(&modalities[i]));
        assert(hash@ =~= old(hash)@ + modality_bytes(modalities@).take(i as int + 1));
        i += 1;
    }
    assert(modality_bytes(modalities@).take(i as int) =~= modality_bytes(modalities@));
}

/// Appends the canonical bytes of a catalog entry.
pub fn hash_catalog_entry(hash: &mut Vec<u8>, entry: &CatalogEntry) -> (result: ValidationResult)
    ensures
        result == verdict(entry_fits(*entry), ValidationError::Limit),
        result is Ok ==> final(hash)@ == old(hash)@ + entry_bytes(*entry),
{
    let ghost start = hash@;
    let (tag, payload) = selection_key(&entry.selection);
    hash.push(tag);
    let ghost mut done = seq![tag];
    assert(hash@ =~= start + done);
    hash_bytes(hash, payload)?;
    proof {
        lemma_append(start, done, sized(selection_bytes(entry.selection)));
        done = done + sized(selection_bytes(entry.selection));
    }
    hash_string(hash, entry.current_model.text.as_str())?;
    proof {
        lemma_append(start, done, sized_text(entry.current_model.text@));
        done = done + sized_text(entry.current_model.text@);
    }
    hash_option_string(hash, &entry.display_name)?;
    proof {
        lemma_append(start, done, optional_text_bytes(entry.display_name));
        done = done + optional_text_bytes(entry.display_name);
    }
    let count: u32 = checked_u32_len(entry.input_modalities.len())?;
    push_be32(count, hash);
    proof {
        lemma_append(start, done, be32(entry.input_modalities@.len() as u32));
        done = done + be32(entry.input_modalities@.len() as u32);
    }
    hash_modalities(hash, entry.input_modalities.as_slice());
    proof {
        lemma_append(start, done, modality_bytes(entry.input_modalities@));
        done = done + modality_bytes(entry.input_modalities@);
    }
    hash_tool_capability(hash, &entry.tool_capability);
    proof {
        lemma_append(start, done, tool_capability_bytes(entry.tool_capability));
        done = done + tool_capability_bytes(entry.tool_capability);
    }
    hash_reasoning_capability(hash, &entry.reasoning_capability);
    proof {
        lemma_append(start, done, reasoning_capability_bytes(entry.reasoning_capability));
        done = done + reasoning_capability_bytes(entry.reasoning_capability);
    }
    hash_option_u64(hash, entry.context_tokens);
    proof {
        lemma_append(start, done, optional_number_bytes(entry.context_tokens));
        done = done + optional_number_bytes(entry.context_tokens);
    }
    hash_option_u64(hash, entry.max_output_tokens);
    proof {
        lemma_append(start, done, optional_number_bytes(entry.max_output_tokens));
        done = done + optional_number_bytes(entry.max_output_tokens);
    }
    hash_string(hash, entry.completion_operation.text.as_str())?;
    proof {
        lemma_append(start, done, sized_text(entry.completion_operation.text@));
        done = done + sized_text(entry.completion_operation.text@);
    }
    assert(done == entry_bytes(*entry));
    Ok(())
}

/// The digest of a valid catalog.
#[verifier::loop_isolation(false)]
pub fn catalog_digest(
    provider_id: &IdText,
    route_id: &IdText,
    entries: &[CatalogEntry],
) -> (result: ValidationResult<String>)
    ensures
        match result {
            Ok(digest) => catalog_digest_verdict(*provider_id, *route_id, entries@) is Ok
                && digest@ == digest_chars(
                sha256(catalog_preimage(provider_id.text@, route_id.text@, entries@)),
            ) && is_digest(digest@),
            Err(error) => catalog_digest_verdict(*provider_id, *route_id, entries@)
                == ValidationResult::<()>::Err(error),
        },
{
    scalar::provider_id(provider_id)?;
    scalar::route_id(route_id)?;
    validate_catalog_entries(entries)?;
    let count: u32 = checked_u32_len(entries.len())?;

    let mut hash: Vec<u8> = Vec::new();
    crate::provider_validation::wire_json::append_bytes(
        "mcode-provider-catalog-v1\0".as_bytes(),
        &mut hash,
    );
    hash_string(&mut hash, provider_id.text.as_str())?;
    hash_string(&mut hash, route_id.text.as_str())?;
    push_be32(count, &mut hash);
    let ghost head = hash@;
    assert(head =~= catalog_domain() + sized_text(provider_id.text@) + sized_text(route_id.text@)
        + be32(entries@.len() as u32));
    assert(hash@ =~= head + entries_bytes(entries@, 0));
    let mut i: usize = 0;
    while i < entries.len()
        invariant
            i <= entries@.len(),
            hash@ == head + entries_bytes(entries@, i as int),
            forall|j: int| 0 <= j < i ==> entry_fits(#[trigger] entries@[j]),
        decreases entries.len() - i,
    {
        hash_catalog_entry(&mut hash, &entries[i])?;
        assert(hash@ =~= head + entries_bytes(entries@, i as int + 1));
        i += 1;
    }
    let digest = sha256_digest(hash.as_slice());
    let text = digest_text(digest.as_slice());
    proof {
        lemma_digest_text_is_well_formed(digest@);
    }
    scalar::digest(text.as_str())?;
    Ok(text)
}

} // verus!
