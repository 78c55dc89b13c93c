//! The `application/x-www-form-urlencoded` form of a query string, and the
//! `url` crate's serializer that produces it.

use vstd::prelude::*;
use vstd::utf8::encode_utf8;
use url::form_urlencoded::Serializer;

verus! {

/// The bytes that the form encoding leaves as they are: ASCII letters and
/// digits, `*`, `-`, `.` and `_`.
pub open spec fn is_unreserved(b: u8) -> bool {
    ||| b == 0x2A
    ||| b == 0x2D
    ||| b == 0x2E
    ||| b == 0x5F
    ||| 0x30 <= b <= 0x39
    ||| 0x41 <= b <= 0x5A
    ||| 0x61 <= b <= 0x7A
}

/// The upper-case hexadecimal digit for a value below sixteen.
pub open spec fn hex_digit(n: int) -> u8 {
    if n < 10 {
        (0x30 + n) as u8
    } else {
        (0x37 + n) as u8
    }
}

/// The form encoding of one byte: itself where unreserved, `+` for a space,
/// and `%` with two hexadecimal digits for everything else.
pub open spec fn encode_byte(b: u8) -> Seq<u8> {
    if is_unreserved(b) {
        seq![b]
    } else if b == 0x20 {
        seq![0x2Bu8]
    } else {
        seq![0x25u8, hex_digit(b as int / 16), hex_digit(b as int % 16)]
    }
}

/// The form encoding of a byte string: the encodings of its bytes, in order.
pub open spec fn form_encode(bytes: Seq<u8>) -> Seq<u8>
    decreases bytes.len(),
{
    if bytes.len() == 0 {
        Seq::empty()
    } else {
        encode_byte(bytes[0]) + form_encode(bytes.drop_first())
    }
}

/// One serialized pair: the encoded name, `=`, the encoded value.
pub open spec fn pair_bytes(name: Seq<u8>, value: Seq<u8>) -> Seq<u8> {
    form_encode(name) + seq![0x3Du8] + form_encode(value)
}

/// What appending a pair makes of a serializer's text: a `&` goes in front
/// of the pair once the text has grown past its start position.
pub open spec fn with_pair(text: Seq<u8>, start: nat, name: Seq<u8>, value: Seq<u8>) -> Seq<u8> {
    if text.len() > start {
        text + seq![0x26u8] + pair_bytes(name, value)
    } else {
        text + pair_bytes(name, value)
    }
}

/// The query string of a list of name/value pairs, as bytes: `?`, then the
/// serialized pairs in the list's order with `&` between them.
pub open spec fn query_bytes(pairs: Seq<(Seq<u8>, Seq<u8>)>) -> Seq<u8>
    decreases pairs.len(),
{
    if pairs.len() == 0 {
        seq![0x3Fu8]
    } else if pairs.len() == 1 {
        seq![0x3Fu8] + pair_bytes(pairs[0].0, pairs[0].1)
    } else {
        query_bytes(pairs.drop_last()) + seq![0x26u8] + pair_bytes(pairs.last().0, pairs.last().1)
    }
}

/// The text that a string of ASCII bytes spells.
pub open spec fn ascii_text(bytes: Seq<u8>) -> Seq<char> {
    Seq::new(bytes.len(), |i: int| bytes[i] as char)
}

/// The UTF-8 bytes of each key and value.
pub open spec fn utf8_pairs(params: Seq<(Seq<char>, Seq<char>)>) -> Seq<(Seq<u8>, Seq<u8>)> {
    Seq::new(params.len(), |i: int| (encode_utf8(params[i].0), encode_utf8(params[i].1)))
}

/// The query string of a list of parameters: `?`, then `key=value` for each
/// in the list's order with `&` between them, keys and values form-encoded.
pub open spec fn query_text(params: Seq<(Seq<char>, Seq<char>)>) -> Seq<char> {
    ascii_text(query_bytes(utf8_pairs(params)))
}

/// Every byte is below 128.
pub open spec fn all_ascii(bytes: Seq<u8>) -> bool {
    forall|i: int| 0 <= i < bytes.len() ==> bytes[i] < 128
}

/// The form encoding holds ASCII bytes only.
pub proof fn lemma_form_encode_ascii(bytes: Seq<u8>)
    ensures
        all_ascii(form_encode(bytes)),
    decreases bytes.len(),
{
    if bytes.len() > 0 {
        lemma_form_encode_ascii(bytes.drop_first());
    }
}

/// A query string holds ASCII bytes only, starts with `?`, and is longer than
/// that one byte as soon as there is a pair.
pub proof fn lemma_query_bytes_shape(pairs: Seq<(Seq<u8>, Seq<u8>)>)
    ensures
        all_ascii(query_bytes(pairs)),
        query_bytes(pairs).len() >= 1,
        query_bytes(pairs)[0] == 0x3F,
        pairs.len() > 0 <==> query_bytes(pairs).len() > 1,
    decreases pairs.len(),
{
    if pairs.len() > 0 {
        lemma_form_encode_ascii(pairs.last().0);
        lemma_form_encode_ascii(pairs.last().1);
        if pairs.len() > 1 {
            lemma_query_bytes_shape(pairs.drop_last());
        }
    }
}

/// A query string with one pair more is what appending that pair makes of
/// the query string so far, for a serializer that started behind the `?`.
pub proof fn lemma_query_bytes_step(pairs: Seq<(Seq<u8>, Seq<u8>)>)
    requires
        pairs.len() > 0,
    ensures
        query_bytes(pairs) == with_pair(
            query_bytes(pairs.drop_last()),
            1,
            pairs.last().0,
            pairs.last().1,
        ),
{
    lemma_query_bytes_shape(pairs.drop_last());
}

/// A string whose UTF-8 bytes are all ASCII spells exactly those bytes.
pub proof fn lemma_ascii_bytes_spell(text: Seq<char>, bytes: Seq<u8>)
    requires
        encode_utf8(text) == bytes,
        all_ascii(bytes),
    ensures
        text == ascii_text(bytes),
{
    let spelled = ascii_text(bytes);
    assert(vstd::utf8::is_ascii_chars(spelled));
    vstd::utf8::is_ascii_chars_encode_utf8(spelled);
    assert(encode_utf8(spelled) =~= bytes) by {
        assert forall|i: int| 0 <= i < bytes.len() implies encode_utf8(spelled)[i] == bytes[i] by {
            assert(spelled[i] as u8 == encode_utf8(spelled)[i]);
        }
    }
    vstd::utf8::encode_utf8_decode_utf8(spelled);
    vstd::utf8::encode_utf8_decode_utf8(text);
}

/// The `url` crate's form serializer over an owned string, opaque here.
#[verifier::external_body]
pub struct FormSerializer {
    inner: Serializer<'static, String>,
}

/// The UTF-8 bytes of the string that a serializer writes to, or `None` once
/// the string has been taken out of it.
pub uninterp spec fn serializer_target(s: FormSerializer) -> Option<Seq<u8>>;

/// The byte position in its string at which a serializer's own pairs start.
pub uninterp spec fn serializer_start(s: FormSerializer) -> nat;

/// `Serializer::for_suffix`: a serializer that appends to `target`, whose
/// pairs start at `start_position`. The call panics on a start position
/// beyond the string's end.
#[verifier::external_body]
pub(crate) fn serializer_for_suffix(target: String, start_position: usize) -> (s: FormSerializer)
    requires
        start_position <= encode_utf8(target@).len(),
    ensures
        serializer_target(s) == Some(encode_utf8(target@)),
        serializer_start(s) == start_position,
{
    FormSerializer { inner: Serializer::for_suffix(target, start_position) }
}

/// `Serializer::append_pair`: appends `&` if pairs were written before, then
/// the form-encoded name, `=` and the form-encoded value. The call panics
/// once the string has been taken out.
#[verifier::external_body]
pub(crate) fn serializer_append_pair(s: &mut FormSerializer, name: &str, value: &str)
    requires
        serializer_target(*old(s)) is Some,
    ensures
        serializer_start(*final(s)) == serializer_start(*old(s)),
        serializer_target(*final(s)) == Some(
            with_pair(
                serializer_target(*old(s))->0,
                serializer_start(*old(s)),
                encode_utf8(name@),
                encode_utf8(value@),
            ),
        ),
{
    s.inner.append_pair(name, value);
}

/// `Serializer::finish`: takes the string out of the serializer. The call
/// panics if that was done before.
#[verifier::external_body]
pub(crate) fn serializer_finish(s: &mut FormSerializer) -> (text: String)
    requires
        serializer_target(*old(s)) is Some,
    ensures
        Some(encode_utf8(text@)) == serializer_target(*old(s)),
        serializer_target(*final(s)) is None,
{
    s.inner.finish()
}

} // verus!
