//! What objects, arrays and the content of tool results are made of.

use vstd::prelude::*;

use crate::provider_api::{ImageView, ToolResultBlock, ToolResultMessage};
use crate::provider_validation::adapter::choice_laws::{
    lemma_uri_start, message_at, result_at, uri_start,
};
use crate::provider_validation::adapter::debts::Debt;
use crate::provider_validation::adapter::encoding::{base64_padded, data_uri_text};
use crate::provider_validation::adapter::evaluate::{
    entered, evaluated, evaluated_items, evaluated_members, matched_of, scope_exists, Inputs,
    Ledger, Scope,
};
use crate::provider_validation::adapter::json::JsonTree;
use crate::provider_validation::adapter::mistral::{
    is_trimmed, joined_text, leading_count, lemma_leading_count, lemma_trailing_count,
    lemma_trimmed, result_text, sum_to, trailing_count, trimmed,
};
use crate::provider_validation::adapter::source::{
    are_bounded, composite_value, image_parts, mistral_content_value, pay_blocks, scalar_value,
    text_parts, uri_lengths,
};
use crate::provider_validation::adapter::types::{
    AdapterScalarSource, AdapterTransform, AdapterValidationResult, ContractNodeBody, PathSegment,
    TypedJsonConstant,
};
use crate::provider_validation::charge_laws::text_size;
use crate::provider_validation::wire_json::string_json;

verus! {

// ---------------------------------------------------------------------------
// Objects and arrays
// ---------------------------------------------------------------------------

/// The members of an object from its first `k` children: each child that is not
/// left out gives one, under its key and in order, and each is evaluated after
/// those before it.
pub open spec fn members_to(
    inputs: Inputs,
    index: int,
    children: Seq<u32>,
    k: int,
    scope: Scope,
    ledger: Ledger,
) -> Option<(Seq<(Seq<char>, JsonTree)>, Ledger)>
    decreases k,
{
    if k <= 0 {
        Some((Seq::empty(), ledger))
    } else {
        match members_to(inputs, index, children, k - 1, scope, ledger) {
            None => None,
            Some((done, before)) => if children[k - 1] >= index {
                None
            } else {
                let child = inputs.contract.tree.nodes@[children[k - 1] as int];
                match (child.segment, evaluated(inputs, children[k - 1] as int, scope, before)) {
                    (Some(PathSegment::Key(_)), Ok((None, after))) => Some((done, after)),
                    (Some(PathSegment::Key(key)), Ok((Some(value), after))) => Some(
                        (done.push((key@, value)), after),
                    ),
                    _ => None,
                }
            },
        }
    }
}

proof fn lemma_members(
    inputs: Inputs,
    index: int,
    i: int,
    scope: Scope,
    first: Ledger,
    ledger: Ledger,
    done: Seq<(Seq<char>, JsonTree)>,
)
    requires
        0 <= index < inputs.contract.tree.nodes@.len(),
        inputs.contract.tree.nodes@[index].body is Object,
        0 <= i <= inputs.contract.tree.nodes@[index].body->Object_0.children@.len(),
        members_to(
            inputs,
            index,
            inputs.contract.tree.nodes@[index].body->Object_0.children@,
            i,
            scope,
            first,
        ) == Some((done, ledger)),
    ensures
        ({
            let children = inputs.contract.tree.nodes@[index].body->Object_0.children@;
            match members_to(inputs, index, children, children.len() as int, scope, first) {
                Some((members, after)) => evaluated_members(inputs, index, i, scope, ledger, done)
                    == AdapterValidationResult::<(JsonTree, Ledger)>::Ok(
                    (JsonTree::Object(members), after),
                ),
                None => evaluated_members(inputs, index, i, scope, ledger, done) is Err,
            }
        }),
    decreases inputs.contract.tree.nodes@[index].body->Object_0.children@.len() - i,
{
    let children = inputs.contract.tree.nodes@[index].body->Object_0.children@;
    if i < children.len() {
        match members_to(inputs, index, children, i + 1, scope, first) {
            Some((more, next)) => {
                lemma_members(inputs, index, i + 1, scope, first, next, more);
            },
            None => {
                let last = children.len() as int;
                lemma_no_members(inputs, index, children, i + 1, last, scope, first);
            },
        }
    }
}

proof fn lemma_no_members(
    inputs: Inputs,
    index: int,
    children: Seq<u32>,
    i: int,
    k: int,
    scope: Scope,
    ledger: Ledger,
)
    requires
        i <= k,
        members_to(inputs, index, children, i, scope, ledger) is None,
    ensures
        members_to(inputs, index, children, k, scope, ledger) is None,
    decreases k - i,
{
    if i < k {
        lemma_no_members(inputs, index, children, i, k - 1, scope, ledger);
    }
}

/// An object that is always there has a member for each child that is not left out.
pub proof fn lemma_objects(inputs: Inputs, index: int, scope: Scope, ledger: Ledger)
    requires
        0 <= index < inputs.contract.tree.nodes@.len(),
        inputs.contract.tree.nodes@[index].body is Object,
        inputs.contract.tree.nodes@[index].presence is Required,
        inputs.contract.tree.nodes@[index].presence_source is None,
    ensures
        ({
            let children = inputs.contract.tree.nodes@[index].body->Object_0.children@;
            let value = evaluated(inputs, index, scope, ledger);
            match members_to(inputs, index, children, children.len() as int, scope, ledger) {
                Some((members, after)) => value == AdapterValidationResult::<
                    (Option<JsonTree>, Ledger),
                >::Ok((Some(JsonTree::Object(members)), after)),
                None => value is Err,
            }
        }),
{
    lemma_members(inputs, index, 0, scope, ledger, ledger, Seq::empty());
}

/// The items of an array for its first `k` scopes, each evaluated after those
/// before it. None is left out.
pub open spec fn items_to(
    inputs: Inputs,
    item: int,
    scopes: Seq<Scope>,
    k: int,
    ledger: Ledger,
) -> Option<(Seq<JsonTree>, Ledger)>
    decreases k,
{
    if k <= 0 {
        Some((Seq::empty(), ledger))
    } else {
        match items_to(inputs, item, scopes, k - 1, ledger) {
            None => None,
            Some((done, before)) => match evaluated(inputs, item, scopes[k - 1], before) {
                Ok((Some(value), after)) => Some((done.push(value), after)),
                _ => None,
            },
        }
    }
}

proof fn lemma_items(
    inputs: Inputs,
    index: int,
    scopes: Seq<Scope>,
    i: int,
    first: Ledger,
    ledger: Ledger,
    done: Seq<JsonTree>,
)
    requires
        0 <= index < inputs.contract.tree.nodes@.len(),
        inputs.contract.tree.nodes@[index].body is Array,
        inputs.contract.tree.nodes@[index].body->Array_0.item < index,
        0 <= i <= scopes.len(),
        items_to(
            inputs,
            inputs.contract.tree.nodes@[index].body->Array_0.item as int,
            scopes,
            i,
            first,
        ) == Some((done, ledger)),
    ensures
        ({
            let item = inputs.contract.tree.nodes@[index].body->Array_0.item as int;
            match items_to(inputs, item, scopes, scopes.len() as int, first) {
                Some((items, after)) => evaluated_items(inputs, index, scopes, i, ledger, done)
                    == AdapterValidationResult::<(JsonTree, Ledger)>::Ok(
                    (JsonTree::Array(items), after),
                ),
                None => evaluated_items(inputs, index, scopes, i, ledger, done) is Err,
            }
        }),
    decreases scopes.len() - i,
{
    let item = inputs.contract.tree.nodes@[index].body->Array_0.item as int;
    if i < scopes.len() {
        match items_to(inputs, item, scopes, i + 1, first) {
            Some((more, next)) => {
                lemma_items(inputs, index, scopes, i + 1, first, next, more);
            },
            None => {
                lemma_no_items(inputs, item, scopes, i + 1, scopes.len() as int, first);
            },
        }
    }
}

proof fn lemma_no_items(
    inputs: Inputs,
    item: int,
    scopes: Seq<Scope>,
    i: int,
    k: int,
    ledger: Ledger,
)
    requires
        i <= k,
        items_to(inputs, item, scopes, i, ledger) is None,
    ensures
        items_to(inputs, item, scopes, k, ledger) is None,
    decreases k - i,
{
    if i < k {
        lemma_no_items(inputs, item, scopes, i, k - 1, ledger);
    }
}

/// An array that is always there has an item for each member of its collection, in
/// order, and as many as it may have.
pub proof fn lemma_arrays(inputs: Inputs, index: int, scope: Scope, ledger: Ledger)
    requires
        0 <= index < inputs.contract.tree.nodes@.len(),
        inputs.contract.tree.nodes@[index].body is Array,
        inputs.contract.tree.nodes@[index].body->Array_0.item < index,
        inputs.contract.tree.nodes@[index].presence is Required,
        inputs.contract.tree.nodes@[index].presence_source is None,
    ensures
        ({
            let array = inputs.contract.tree.nodes@[index].body->Array_0;
            let value = evaluated(inputs, index, scope, ledger);
            match entered(inputs, array.collection, scope, ledger) {
                Ok((scopes, opened)) => match items_to(
                    inputs,
                    array.item as int,
                    scopes,
                    scopes.len() as int,
                    opened,
                ) {
                    Some((items, after)) => if array.min <= scopes.len() <= array.max {
                        value == AdapterValidationResult::<(Option<JsonTree>, Ledger)>::Ok(
                            (Some(JsonTree::Array(items)), after),
                        )
                    } else {
                        value is Err
                    },
                    None => value is Err,
                },
                Err(_) => value is Err,
            }
        }),
{
    let array = inputs.contract.tree.nodes@[index].body->Array_0;
    if let Ok((scopes, opened)) = entered(inputs, array.collection, scope, ledger) {
        lemma_items(inputs, index, scopes, 0, opened, opened, Seq::empty());
    }
}

/// A node that is always there and holds a scalar or a constant has its value.
pub proof fn lemma_leaves(inputs: Inputs, index: int, scope: Scope, ledger: Ledger)
    requires
        0 <= index < inputs.contract.tree.nodes@.len(),
        inputs.contract.tree.nodes@[index].presence is Required,
        inputs.contract.tree.nodes@[index].presence_source is None,
    ensures
        inputs.contract.tree.nodes@[index].body matches ContractNodeBody::Value(leaf) ==> match (
        scalar_value(inputs, leaf.source, leaf.transform, scope, ledger)) {
            Ok((value, after)) => evaluated(inputs, index, scope, ledger)
                == AdapterValidationResult::<(Option<JsonTree>, Ledger)>::Ok((Some(value), after)),
            Err(_) => evaluated(inputs, index, scope, ledger) is Err,
        },
        inputs.contract.tree.nodes@[index].body matches ContractNodeBody::Constant(leaf)
            ==> evaluated(inputs, index, scope, ledger) == AdapterValidationResult::<
            (Option<JsonTree>, Ledger),
        >::Ok(
            (
                Some(
                    match leaf.value {
                        TypedJsonConstant::Null => JsonTree::Null,
                        TypedJsonConstant::Boolean(value) => JsonTree::Boolean(value),
                        TypedJsonConstant::Number(value) => JsonTree::Number(value@),
                        TypedJsonConstant::String(value) => JsonTree::Text {
                            value: value@,
                            derived: false,
                        },
                    },
                ),
                ledger,
            ),
        ),
{
}

// ---------------------------------------------------------------------------
// The content of tool results
// ---------------------------------------------------------------------------

/// A blank: a space, a tab, a line feed, or one of the blanks of Unicode.
pub open spec fn is_blank(character: char) -> bool {
    let point = character as u32;
    ||| point == 0x9 || point == 0xa || point == 0x20 || point == 0xa0
    ||| point == 0x1680
    ||| 0x2000 <= point <= 0x200a
    ||| point == 0x2028 || point == 0x2029 || point == 0x202f || point == 0x205f
    ||| point == 0x3000
    ||| point == 0xfeff
}

proof fn lemma_blank(character: char)
    ensures
        is_blank(character) == is_trimmed(character),
{
}

/// Trimming takes blanks away at both ends of a text, and nothing else, until a
/// character that is no blank stands at either end or nothing is left.
pub proof fn lemma_trimming(text: Seq<char>)
    ensures
        exists|from: int, to: int|
            0 <= from <= to <= text.len() && trimmed(text) == #[trigger] text.subrange(from, to)
                && (forall|i: int| 0 <= i < from ==> is_blank(#[trigger] text[i])) && (forall|i: int|
                to <= i < text.len() ==> is_blank(#[trigger] text[i])),
        trimmed(text).len() > 0 ==> !is_blank(trimmed(text)[0]) && !is_blank(trimmed(text).last()),
{
    lemma_trimmed(text);
    lemma_leading_count(text);
    lemma_trailing_count(text);
    let lead = leading_count(text) as int;
    let tail = text.len() - trailing_count(text);
    assert forall|i: int| 0 <= i < text.len() implies is_blank(#[trigger] text[i]) == is_trimmed(
        text[i],
    ) by {
        lemma_blank(text[i]);
    }
    if lead == text.len() {
        assert(trimmed(text) =~= text.subrange(lead, text.len() as int));
    } else {
        assert(trimmed(text) == text.subrange(lead, tail));
        assert(trimmed(text)[0] == text[lead]);
        assert(trimmed(text).last() == text[tail - 1]);
    }
}

/// The text of a tool result is its trimmed text, or says that there is none, and
/// begins with a mark when the result is an error.
pub proof fn lemma_result_text(texts: Seq<Seq<char>>, has_images: bool, is_error: bool)
    ensures
        ({
            let body = trimmed(joined_text(texts));
            let shown = if body.len() > 0 {
                body
            } else if has_images {
                "(see attached image)"@
            } else {
                "(no tool output)"@
            };
            result_text(texts, has_images, is_error) == if is_error {
                "[tool error] "@ + shown
            } else {
                shown
            }
        }),
{
    reveal_strlit("");
    let body = trimmed(joined_text(texts));
    assert(""@ + body =~= body);
    assert(""@ + "(see attached image)"@ =~= "(see attached image)"@);
    assert(""@ + "(no tool output)"@ =~= "(no tool output)"@);
}

/// One more block adds its text to the texts or its image to the images.
pub proof fn lemma_result_parts(blocks: Seq<ToolResultBlock>, block: ToolResultBlock)
    ensures
        text_parts(Seq::empty(), 0) == Seq::<Seq<char>>::empty(),
        image_parts(Seq::empty(), 0) == Seq::<ImageView>::empty(),
        ({
            let n = blocks.len() as int;
            let longer = blocks.push(block);
            match block {
                ToolResultBlock::Text(text) => {
                    &&& text_parts(longer, n + 1) == text_parts(blocks, n).push(text.text@)
                    &&& image_parts(longer, n + 1) == image_parts(blocks, n)
                },
                ToolResultBlock::Image(image) => {
                    &&& text_parts(longer, n + 1) == text_parts(blocks, n)
                    &&& image_parts(longer, n + 1) == image_parts(blocks, n).push(image)
                },
            }
        }),
{
    lemma_parts_prefix(blocks, block, blocks.len() as int);
    assert(blocks.push(block)[blocks.len() as int] == block);
}

proof fn lemma_parts_prefix(blocks: Seq<ToolResultBlock>, block: ToolResultBlock, n: int)
    requires
        0 <= n <= blocks.len(),
    ensures
        text_parts(blocks.push(block), n) == text_parts(blocks, n),
        image_parts(blocks.push(block), n) == image_parts(blocks, n),
    decreases n,
{
    if n > 0 {
        lemma_parts_prefix(blocks, block, n - 1);
        assert(blocks.push(block)[n - 1] == blocks[n - 1]);
    }
}

/// The lengths of the data URIs of the first `n` images.
pub open spec fn uris_size(images: Seq<ImageView>, n: int) -> int
    decreases n,
{
    if n <= 0 {
        0
    } else {
        uris_size(images, n - 1) + text_size(data_uri_text(images[n - 1]))
    }
}

proof fn lemma_uris_size(images: Seq<ImageView>, n: int, addition: int)
    requires
        0 <= n <= images.len(),
        are_bounded(images),
    ensures
        sum_to(uri_lengths(images), n, addition) == uris_size(images, n) + n * addition,
    decreases n,
{
    if n > 0 {
        lemma_uris_size(images, n - 1, addition);
        assert(text_size(data_uri_text(images[n - 1])) <= 8_388_608);
        assert(uri_lengths(images)[n - 1] == text_size(data_uri_text(images[n - 1])));
        assert((n - 1) * addition + addition == n * addition) by (nonlinear_arith);
    } else {
        assert(n * addition == 0) by (nonlinear_arith)
            requires
                n == 0,
        ;
    }
}

/// The content of a tool result is a chunk with its text, then a chunk with the data
/// URI of each of its images. There is one exactly when the joined texts, and the
/// content as text, as JSON and as a charge, are within the largest charge.
pub proof fn lemma_composites(result: ToolResultMessage)
    ensures
        ({
            let count = result.blocks@.len() as int;
            let texts = text_parts(result.blocks@, count);
            let images = image_parts(result.blocks@, count);
            let text = result_text(texts, images.len() > 0, result.is_error);
            let uris = uris_size(images, images.len() as int);
            let number = images.len() as int;
            &&& composite_value(result) is Ok <==> {
                &&& text_size(joined_text(texts)) <= 8_388_608
                &&& forall|i: int|
                    0 <= i < images.len() ==> text_size(data_uri_text(#[trigger] images[i]))
                        <= 8_388_608
                &&& text_size(text) + uris <= 8_388_608
                &&& 25 + string_json(text).len() + uris + number * 36 <= 8_388_608
                &&& 64 + text_size(text) + uris + number * 66 <= 8_388_608
            }
            &&& composite_value(result) matches Ok(value) ==> {
                &&& value matches JsonTree::Array(chunks) && chunks.len() == number + 1
                    && chunks[0] == JsonTree::Object(
                    seq![
                        ("text"@, JsonTree::Text { value: text, derived: true }),
                        ("type"@, JsonTree::Text { value: "text"@, derived: false }),
                    ],
                ) && forall|i: int|
                    0 <= i < number ==> #[trigger] chunks[i + 1] == JsonTree::Object(
                        seq![
                            (
                                "image_url"@,
                                JsonTree::Text {
                                    value: uri_start(images[i].media_type) + base64_padded(
                                        images[i].bytes@,
                                    ),
                                    derived: true,
                                },
                            ),
                            ("type"@, JsonTree::Text { value: "image_url"@, derived: false }),
                        ],
                    )
            }
        }),
{
    let count = result.blocks@.len() as int;
    let images = image_parts(result.blocks@, count);
    let number = images.len() as int;
    if are_bounded(images) {
        lemma_uris_size(images, number, 0);
        lemma_uris_size(images, number, 36);
        lemma_uris_size(images, number, 66);
        assert(number * 0 == 0);
    }
    lemma_uris_are_positive(images, number);
    if let Ok(JsonTree::Array(chunks)) = composite_value(result) {
        assert forall|i: int| 0 <= i < number implies #[trigger] chunks[i + 1] == JsonTree::Object(
            seq![
                (
                    "image_url"@,
                    JsonTree::Text {
                        value: uri_start(images[i].media_type) + base64_padded(images[i].bytes@),
                        derived: true,
                    },
                ),
                ("type"@, JsonTree::Text { value: "image_url"@, derived: false }),
            ],
        ) by {
            lemma_uri_start(images[i].media_type);
        }
    }
}

proof fn lemma_uris_are_positive(images: Seq<ImageView>, n: int)
    ensures
        0 <= uris_size(images, n),
    decreases n,
{
    if n > 0 {
        lemma_uris_are_positive(images, n - 1);
    }
}

/// Whether a part belongs to one of the blocks of result `m` from block `i` on: its
/// kind, and its text or its image.
pub open spec fn is_block_part(debt: Debt, m: usize, blocks: Seq<ToolResultBlock>, i: int) -> bool {
    match debt {
        Debt::BlockVariant(at, b) => at == m && i <= b < blocks.len(),
        Debt::BlockText(at, b) => at == m && i <= b < blocks.len() && blocks[b as int] is Text,
        Debt::BlockBytes(at, b) => at == m && i <= b < blocks.len() && blocks[b as int] is Image,
        Debt::BlockMedia(at, b) => at == m && i <= b < blocks.len() && blocks[b as int] is Image,
        _ => false,
    }
}

/// Whether no part of these blocks was carried.
pub open spec fn has_no_block_part(
    ledger: Ledger,
    m: usize,
    blocks: Seq<ToolResultBlock>,
    i: int,
) -> bool {
    forall|debt: Debt| #[trigger]
        ledger.consumed.contains(debt) ==> !is_block_part(debt, m, blocks, i)
}

/// The blocks of a tool result are carried exactly when no part of them was.
pub proof fn lemma_pay_blocks(ledger: Ledger, m: usize, blocks: Seq<ToolResultBlock>, i: int)
    requires
        0 <= i <= blocks.len() <= usize::MAX,
    ensures
        pay_blocks(ledger, m, blocks, i) is Ok <==> has_no_block_part(ledger, m, blocks, i),
        pay_blocks(ledger, m, blocks, i) matches Ok(after) ==> after.optional == ledger.optional
            && after.consumed == ledger.consumed.union(
            Set::new(|debt: Debt| is_block_part(debt, m, blocks, i)),
        ),
    decreases blocks.len() - i,
{
    if i >= blocks.len() {
        assert(ledger.consumed.union(Set::new(|debt: Debt| is_block_part(debt, m, blocks, i)))
            =~= ledger.consumed);
    } else {
        let b = i as usize;
        let kind = Debt::BlockVariant(m, b);
        let text = Debt::BlockText(m, b);
        let bytes = Debt::BlockBytes(m, b);
        let media = Debt::BlockMedia(m, b);
        let parts = if blocks[i] is Text {
            set![kind, text]
        } else {
            set![kind, bytes, media]
        };
        let next = Ledger { consumed: ledger.consumed.union(parts), ..ledger };
        assert forall|debt: Debt| #[trigger] is_block_part(debt, m, blocks, i) == (parts.contains(
            debt,
        ) || is_block_part(debt, m, blocks, i + 1)) by {}
        assert forall|debt: Debt| #[trigger] parts.contains(debt) implies !is_block_part(
            debt,
            m,
            blocks,
            i + 1,
        ) by {}
        let clear = forall|debt: Debt| #[trigger]
            ledger.consumed.contains(debt) ==> !parts.contains(debt);
        if clear {
            assert(!ledger.consumed.contains(kind)) by {
                assert(parts.contains(kind));
            }
            if blocks[i] is Text {
                assert(!ledger.consumed.contains(text)) by {
                    assert(parts.contains(text));
                }
                assert(ledger.consumed.insert(kind).insert(text) =~= next.consumed);
            } else {
                assert(!ledger.consumed.contains(bytes)) by {
                    assert(parts.contains(bytes));
                }
                assert(!ledger.consumed.contains(media)) by {
                    assert(parts.contains(media));
                }
                assert(ledger.consumed.insert(kind).insert(bytes).insert(media) =~= next.consumed);
            }
            lemma_pay_blocks(next, m, blocks, i + 1);
            assert(pay_blocks(ledger, m, blocks, i) == pay_blocks(next, m, blocks, i + 1));
            if has_no_block_part(ledger, m, blocks, i) {
                assert(has_no_block_part(next, m, blocks, i + 1));
            }
            if has_no_block_part(next, m, blocks, i + 1) {
                assert forall|debt: Debt| #[trigger] ledger.consumed.contains(debt) implies
                    !is_block_part(debt, m, blocks, i) by {
                    assert(next.consumed.contains(debt));
                }
            }
            if let Ok(after) = pay_blocks(next, m, blocks, i + 1) {
                assert(after.consumed =~= ledger.consumed.union(
                    Set::new(|debt: Debt| is_block_part(debt, m, blocks, i)),
                ));
            }
        } else {
            let debt = choose|debt: Debt| #[trigger]
                ledger.consumed.contains(debt) && parts.contains(debt);
            assert(is_block_part(debt, m, blocks, i));
        }
    }
}

/// The content of a tool result carries the list of its blocks, its status and each
/// of its blocks. There is one exactly when these were not carried, the call has an
/// answer with this status, and the content is within its bounds.
pub proof fn lemma_result_contents(
    inputs: Inputs,
    transform: AdapterTransform,
    scope: Scope,
    ledger: Ledger,
)
    requires
        scope_exists(inputs.original, scope),
    ensures
        ({
            let outcome = mistral_content_value(inputs, transform, scope, ledger);
            match (message_at(scope), result_at(inputs.original, scope)) {
                (Some(m), Some(result)) => {
                    let first = Debt::MessageBlocks(m);
                    let second = Debt::MessageStatus(m);
                    &&& outcome is Ok <==> {
                        &&& transform is MistralToolResultContent
                        &&& !ledger.consumed.contains(first)
                        &&& !ledger.consumed.contains(second)
                        &&& has_no_block_part(ledger, m, result.blocks@, 0)
                        &&& matched_of(inputs.matched, result.call_id@) matches Some(found) && (
                        found.status is Error) == result.is_error
                        &&& composite_value(result) is Ok
                    }
                    &&& outcome matches Ok((value, after)) ==> {
                        &&& composite_value(result) == AdapterValidationResult::<JsonTree>::Ok(
                            value,
                        )
                        &&& after.optional == ledger.optional
                        &&& after.consumed == ledger.consumed.insert(first).insert(second).union(
                            Set::new(|debt: Debt| is_block_part(debt, m, result.blocks@, 0)),
                        )
                    }
                },
                _ => outcome is Err,
            }
        }),
        scalar_value(inputs, AdapterScalarSource::MistralToolResultContent, transform, scope, ledger)
            == mistral_content_value(inputs, transform, scope, ledger),
{
    if let (Some(m), Some(result)) = (message_at(scope), result_at(inputs.original, scope)) {
        let first = Debt::MessageBlocks(m);
        let second = Debt::MessageStatus(m);
        let opened = Ledger { consumed: ledger.consumed.insert(first).insert(second), ..ledger };
        let blocks = result.blocks@;
        assert(result.blocks.len() == blocks.len());
        lemma_pay_blocks(opened, m, blocks, 0);
        if has_no_block_part(ledger, m, blocks, 0) {
            assert(has_no_block_part(opened, m, blocks, 0));
        }
        if has_no_block_part(opened, m, blocks, 0) {
            assert forall|debt: Debt| #[trigger] ledger.consumed.contains(debt) implies
                !is_block_part(debt, m, blocks, 0) by {
                assert(opened.consumed.contains(debt));
            }
        }
    }
}

} // verus!
