//! The transport's header map, as far as a parameter store reads and fills it.

use vstd::prelude::*;
use vstd::utf8::encode_utf8;
use reqwest::header::HeaderMap;
use reqwest::header::HeaderName;
use reqwest::header::HeaderValue;

verus! {

/// The transport's header multimap, opaque here.
#[verifier::external_type_specification]
#[verifier::external_body]
#[verifier::reject_recursive_types(T)]
pub struct ExHeaderMap<T>(HeaderMap<T>);

/// A header's name, opaque here.
#[verifier::external_type_specification]
#[verifier::external_body]
pub struct ExHeaderName(HeaderName);

/// A header's value, opaque here.
#[verifier::external_type_specification]
#[verifier::external_body]
pub struct ExHeaderValue(HeaderValue);

/// What a header map holds: under each name, in lower case as
/// `HeaderName::as_str` gives it, the bytes of its values in order.
pub uninterp spec fn header_entries(map: HeaderMap) -> Map<Seq<char>, Seq<Seq<u8>>>;

/// The lower-case text of a header name, as `HeaderName::as_str` gives it.
pub uninterp spec fn header_name_text(name: HeaderName) -> Seq<char>;

/// The bytes of a header value, as `HeaderValue::as_bytes` gives them.
pub uninterp spec fn header_value_bytes(value: HeaderValue) -> Seq<u8>;

/// The most names a map may hold for `store_header` to be sure to succeed:
/// one less than the fewest names with which the map can refuse to grow.
pub const SURE_HEADER_NAMES: usize = 6553;

/// A byte that `HeaderValue::from_static` accepts: visible ASCII, a space or
/// a tab.
pub open spec fn is_header_text_byte(b: u8) -> bool {
    32 <= b < 127 || b == 9
}

/// The entries of a map that holds nothing.
pub open spec fn no_headers() -> Map<Seq<char>, Seq<Seq<u8>>> {
    Map::empty()
}

/// `HeaderMap::new`: a map without entries.
#[verifier::external_body]
pub(crate) fn empty_headers() -> (headers: HeaderMap)
    ensures
        header_entries(headers) == no_headers(),
{
    HeaderMap::new()
}

/// `HeaderMap::clone`: a map with the same entries.
#[verifier::external_body]
pub(crate) fn copy_headers(map: &HeaderMap) -> (copy: HeaderMap)
    ensures
        header_entries(copy) == header_entries(*map),
{
    map.clone()
}

/// `HeaderMap::try_insert`: puts `value` under `name` in place of whatever
/// values the name had, unless the map refuses to grow, which leaves its
/// entries as they were. The map refuses only when its table of 32768 slots
/// would have to double, and it asks for that with 6554 names at the least
/// (a fifth of the slots, after many collisions) and with 24576 otherwise;
/// so with up to `SURE_HEADER_NAMES` names the call succeeds.
#[verifier::external_body]
pub(crate) fn store_header(map: &mut HeaderMap, name: HeaderName, value: HeaderValue) -> (stored: bool)
    ensures
        stored ==> header_entries(*final(map)) == header_entries(*old(map)).insert(
            header_name_text(name),
            seq![header_value_bytes(value)],
        ),
        !stored ==> header_entries(*final(map)) == header_entries(*old(map)),
        header_entries(*old(map)).dom().finite() && header_entries(*old(map)).dom().len()
            <= SURE_HEADER_NAMES ==> stored,
{
    map.try_insert(name, value).is_ok()
}

/// `reqwest::header::CONTENT_TYPE`, the name `content-type`.
#[verifier::external_body]
pub(crate) fn content_type_name() -> (name: HeaderName)
    ensures
        header_name_text(name) == "content-type"@,
{
    reqwest::header::CONTENT_TYPE
}

/// `HeaderValue::from_static`: a value that holds the bytes of `text`. The
/// call panics on a byte that is not header text.
#[verifier::external_body]
pub(crate) fn static_header_value(text: &'static str) -> (value: HeaderValue)
    requires
        forall|i: int| 0 <= i < encode_utf8(text@).len() ==> is_header_text_byte(#[trigger] encode_utf8(text@)[i]),
    ensures
        header_value_bytes(value) == encode_utf8(text@),
{
    HeaderValue::from_static(text)
}

} // verus!
