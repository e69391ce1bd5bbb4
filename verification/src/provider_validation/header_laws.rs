//! Which headers a provider may set.

use vstd::prelude::*;
use vstd::utf8::encode_utf8;

use crate::provider_api::OrdinaryHeader;
use crate::provider_validation::charge_laws::{judges, text_size};
use crate::provider_validation::prepare::{
    header_name_verdict, header_value_verdict, headers_verdict, headers_verdict_from,
    is_denied_header, is_named_before,
};
use crate::text::{bytes_before, lemma_byte_order};

verus! {

/// The characters of header names but letters and digits.
pub open spec fn is_mark(byte: u8) -> bool {
    ||| byte == '!' as u8 || byte == '#' as u8 || byte == '$' as u8 || byte == '%' as u8
    ||| byte == '&' as u8 || byte == '\'' as u8 || byte == '*' as u8 || byte == '+' as u8
    ||| byte == '-' as u8 || byte == '.' as u8 || byte == '^' as u8 || byte == '_' as u8
    ||| byte == '`' as u8 || byte == '|' as u8 || byte == '~' as u8
}

/// A header name: lowercase letters, digits and marks.
pub open spec fn is_name(text: Seq<char>) -> bool {
    let bytes = encode_utf8(text);
    &&& bytes.len() > 0
    &&& forall|i: int|
        0 <= i < bytes.len() ==> {
            ||| 'a' as u8 <= #[trigger] bytes[i] <= 'z' as u8
            ||| '0' as u8 <= bytes[i] <= '9' as u8
            ||| is_mark(bytes[i])
        }
}

/// A blank of a header value: a space or a tab.
pub open spec fn is_space(byte: u8) -> bool {
    byte == ' ' as u8 || byte == '\t' as u8
}

/// A header value: visible ASCII characters and blanks, without a blank at either end.
pub open spec fn is_value(text: Seq<char>) -> bool {
    let bytes = encode_utf8(text);
    &&& forall|i: int|
        0 <= i < bytes.len() ==> {
            ||| '!' as u8 <= #[trigger] bytes[i] <= '~' as u8
            ||| is_space(bytes[i])
        }
    &&& bytes.len() > 0 ==> !is_space(bytes[0]) && !is_space(bytes[bytes.len() - 1])
}

/// A header name is accepted exactly when it is one of at most 64 bytes.
pub proof fn lemma_names(text: Seq<char>)
    ensures
        judges(header_name_verdict(text), is_name(text), text_size(text) <= 64),
{
}

/// A header value is accepted exactly when it is one of at most 4096 bytes.
pub proof fn lemma_values(text: Seq<char>)
    ensures
        judges(header_value_verdict(text), is_value(text), text_size(text) <= 4_096),
{
    let bytes = encode_utf8(text);
    assert(bytes.len() > 0 ==> bytes.first() == bytes[0] && bytes.last() == bytes[bytes.len() - 1]);
}

/// The headers that no provider sets: those of credentials, of the connection, of the
/// way of a request, of its encoding and of its target.
pub open spec fn kept_names() -> Set<Seq<char>> {
    set![
        "authorization"@,
        "proxy-authorization"@,
        "cf-aig-authorization"@,
        "api-key"@,
        "x-api-key"@,
        "cookie"@,
        "set-cookie"@,
        "host"@,
        "connection"@,
        "proxy-connection"@,
        "keep-alive"@,
        "te"@,
        "trailer"@,
        "transfer-encoding"@,
        "upgrade"@,
        "expect"@,
        "content-length"@,
        "content-encoding"@,
        "accept-encoding"@,
        "user-agent"@,
        "origin"@,
        "referer"@,
        "forwarded"@,
        "via"@,
        "x-http-method-override"@,
        "x-method-override"@,
        "x-original-url"@,
        "x-rewrite-url"@,
    ]
}

/// Whether a text begins with another.
pub open spec fn begins_with(text: Seq<char>, start: Seq<char>) -> bool {
    let bytes = encode_utf8(text);
    let front = encode_utf8(start);
    front.len() <= bytes.len() && forall|i: int|
        0 <= i < front.len() ==> #[trigger] front[i] == bytes[i]
}

/// A header is denied exactly when it is one that no provider sets, a forwarded or a
/// signed one, or reserved.
pub proof fn lemma_denied(name: Seq<char>, reserved: Seq<Seq<char>>)
    ensures
        is_denied_header(name, reserved) <==> {
            ||| kept_names().contains(name)
            ||| begins_with(name, "x-forwarded-"@)
            ||| begins_with(name, "x-amz-"@)
            ||| reserved.contains(name)
        },
{
    let bytes = encode_utf8(name);
    lemma_beginning(bytes, encode_utf8("x-forwarded-"@));
    lemma_beginning(bytes, encode_utf8("x-amz-"@));
}

proof fn lemma_beginning(bytes: Seq<u8>, front: Seq<u8>)
    ensures
        front.is_prefix_of(bytes) == (front.len() <= bytes.len() && forall|i: int|
            0 <= i < front.len() ==> #[trigger] front[i] == bytes[i]),
{
    if front.len() <= bytes.len() && forall|i: int|
        0 <= i < front.len() ==> #[trigger] front[i] == bytes[i] {
        assert(front =~= bytes.subrange(0, front.len() as int));
    }
}

/// Whether a header is well formed, may be set, and comes behind the one before it by
/// its name.
pub open spec fn is_sound_header(
    headers: Seq<OrdinaryHeader>,
    reserved: Seq<Seq<char>>,
    k: int,
) -> bool {
    &&& is_name(headers[k].name@)
    &&& is_value(headers[k].value@)
    &&& !is_denied_header(headers[k].name@, reserved)
    &&& k > 0 ==> bytes_before(encode_utf8(headers[k - 1].name@), encode_utf8(headers[k].name@))
}

/// Whether a header is within its bounds.
pub open spec fn is_small_header(header: OrdinaryHeader) -> bool {
    text_size(header.name@) <= 64 && text_size(header.value@) <= 4_096
}

proof fn lemma_headers_from(headers: Seq<OrdinaryHeader>, reserved: Seq<Seq<char>>, i: int)
    requires
        0 <= i <= headers.len(),
        forall|k: int| 0 <= k < i ==> #[trigger] is_sound_header(headers, reserved, k),
    ensures
        judges(
            headers_verdict_from(headers, reserved, i),
            forall|k: int|
                i <= k < headers.len() ==> #[trigger] is_sound_header(headers, reserved, k),
            forall|k: int| i <= k < headers.len() ==> is_small_header(#[trigger] headers[k]),
        ),
    decreases headers.len() - i,
{
    if i < headers.len() {
        let name = headers[i].name@;
        lemma_names(name);
        lemma_values(headers[i].value@);
        if is_sound_header(headers, reserved, i) {
            assert forall|k: int| 0 <= k < i implies (#[trigger] headers[k]).name@ != name by {
                lemma_earlier_name(headers, reserved, k, i);
                lemma_byte_order(encode_utf8(name), encode_utf8(name), encode_utf8(name));
            }
            lemma_headers_from(headers, reserved, i + 1);
        } else if i > 0 {
            assert(headers[i - 1].name@ == name ==> is_named_before(headers, i, name));
        }
    }
}

proof fn lemma_earlier_name(
    headers: Seq<OrdinaryHeader>,
    reserved: Seq<Seq<char>>,
    k: int,
    i: int,
)
    requires
        0 <= k < i < headers.len(),
        forall|j: int| 0 <= j <= i ==> #[trigger] is_sound_header(headers, reserved, j),
    ensures
        bytes_before(encode_utf8(headers[k].name@), encode_utf8(headers[i].name@)),
    decreases i - k,
{
    assert(is_sound_header(headers, reserved, i));
    if k < i - 1 {
        lemma_earlier_name(headers, reserved, k, i - 1);
        lemma_byte_order(
            encode_utf8(headers[k].name@),
            encode_utf8(headers[i - 1].name@),
            encode_utf8(headers[i].name@),
        );
    }
}

/// Headers are accepted exactly when each is well formed and may be set, their names
/// are strictly increasing, there are at most 32, and each is within its bounds.
pub proof fn lemma_headers(headers: Seq<OrdinaryHeader>, reserved: Seq<Seq<char>>)
    ensures
        judges(
            headers_verdict(headers, reserved),
            forall|k: int|
                0 <= k < headers.len() ==> #[trigger] is_sound_header(headers, reserved, k),
            headers.len() <= 32 && forall|k: int|
                0 <= k < headers.len() ==> is_small_header(#[trigger] headers[k]),
        ),
{
    lemma_headers_from(headers, reserved, 0);
}

} // verus!
