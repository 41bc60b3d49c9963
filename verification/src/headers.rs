//! Header fields: what the library reads of, and writes to, a request's
//! `HeaderMap`.

use axum::http::header::MaxSizeReached;
use axum::http::{HeaderMap, HeaderValue};
use vstd::prelude::*;

verus! {

/// The header map of the `http` crate, as `axum` re-exports it.
#[verifier::external_type_specification]
#[verifier::external_body]
#[verifier::reject_recursive_types(T)]
pub struct ExHeaderMap<T>(HeaderMap<T>);

/// A header value of the `http` crate, as `axum` re-exports it.
#[verifier::external_type_specification]
#[verifier::external_body]
pub struct ExHeaderValue(HeaderValue);

/// The `http` crate's error for a header map that does not grow any further, as
/// `axum` re-exports it.
#[verifier::external_type_specification]
#[verifier::external_body]
pub struct ExMaxSizeReached(MaxSizeReached);

/// A header map that does not take another field.
#[derive(Debug, PartialEq, Eq)]
pub struct HeadersFull;

/// What a header map holds: for each field name in lower case, the bytes of
/// its values, in order.
pub uninterp spec fn header_fields(headers: HeaderMap<HeaderValue>) -> Map<
    Seq<char>,
    Seq<Seq<u8>>,
>;

/// Which values of a header map are marked as sensitive: for each field name in
/// lower case, whether each of its values is, in order.
pub uninterp spec fn header_marks(headers: HeaderMap<HeaderValue>) -> Map<Seq<char>, Seq<bool>>;

/// The names that the library asks a header map for: short, and made of
/// lower-case letters and hyphens.
pub open spec fn is_field_name(name: Seq<char>) -> bool {
    &&& 0 < name.len() <= 64
    &&& forall|i: int| 0 <= i < name.len() ==> ('a' <= #[trigger] name[i] <= 'z' || name[i] == '-')
}

/// The values of a field, in order; none if the field is absent.
pub open spec fn field_values(fields: Map<Seq<char>, Seq<Seq<u8>>>, name: Seq<char>) -> Seq<
    Seq<u8>,
> {
    if fields.dom().contains(name) {
        fields[name]
    } else {
        Seq::empty()
    }
}

/// The first value of a field, if the field is there.
pub open spec fn first_value(fields: Map<Seq<char>, Seq<Seq<u8>>>, name: Seq<char>) -> Option<
    Seq<u8>,
> {
    if fields.dom().contains(name) {
        Some(fields[name][0])
    } else {
        None
    }
}

/// Whether the first value of a field is sensitive, if the field is there.
pub open spec fn first_mark(marks: Map<Seq<char>, Seq<bool>>, name: Seq<char>) -> bool {
    marks.dom().contains(name) && marks[name][0]
}

/// A byte that a header value may hold: a tab, or anything from the space
/// upwards but for the delete character.
pub open spec fn is_value_byte(b: u8) -> bool {
    b == 9 || 32 <= b && b != 127
}

/// Bytes that a header value may hold.
pub open spec fn is_header_value(bytes: Seq<u8>) -> bool {
    forall|i: int| 0 <= i < bytes.len() ==> is_value_byte(#[trigger] bytes[i])
}

/// Visible ASCII: a tab, or a byte from the space up to the tilde.
pub open spec fn is_visible(b: u8) -> bool {
    b == 9 || 32 <= b < 127
}

/// Bytes that are visible ASCII throughout.
pub open spec fn is_visible_ascii(bytes: Seq<u8>) -> bool {
    forall|i: int| 0 <= i < bytes.len() ==> is_visible(#[trigger] bytes[i])
}

/// The characters of ASCII bytes.
pub open spec fn ascii_text(bytes: Seq<u8>) -> Seq<char> {
    bytes.map_values(|b: u8| b as char)
}

/// How many different field names a header map takes for certain, however its
/// entries lie.
pub const FIELD_NAME_LIMIT: usize = 6554;

/// Whether there are `count` different field names.
pub open spec fn has_names(fields: Map<Seq<char>, Seq<Seq<u8>>>, count: int) -> bool {
    &&& fields.dom().finite()
    &&& fields.dom().len() == count
}

/// Whether `count` further field names fit for certain.
pub open spec fn has_room(fields: Map<Seq<char>, Seq<Seq<u8>>>, count: int) -> bool {
    &&& fields.dom().finite()
    &&& fields.dom().len() + count <= FIELD_NAME_LIMIT
}

/// The bytes of each value.
pub open spec fn byte_views(values: Seq<Vec<u8>>) -> Seq<Seq<u8>> {
    values.map_values(|v: Vec<u8>| v@)
}

/// `HeaderMap::keys_len`: the number of different field names.
#[verifier::external_body]
fn name_count(headers: &HeaderMap<HeaderValue>) -> (count: usize)
    ensures
        has_names(header_fields(*headers), count as int),
{
    headers.keys_len()
}

/// `HeaderMap::get_all`: every value of the field, in order.
#[verifier::external_body]
pub(crate) fn get_all(headers: &HeaderMap<HeaderValue>, name: &str) -> (values: Vec<Vec<u8>>)
    requires
        is_field_name(name@),
    ensures
        byte_views(values@) == field_values(header_fields(*headers), name@),
{
    headers.get_all(name).iter().map(|value| value.as_bytes().to_vec()).collect()
}

/// `HeaderMap::get`: the first value of the field, if the field is there, and
/// whether it is marked as sensitive. A field that is there has a value, and
/// every value is made of bytes that a `HeaderValue` may hold.
#[verifier::external_body]
pub(crate) fn get(headers: &HeaderMap<HeaderValue>, name: &str) -> (value: Option<(Vec<u8>, bool)>)
    requires
        is_field_name(name@),
    ensures
        value is Some <==> header_fields(*headers).dom().contains(name@),
        value matches Some((bytes, _)) ==> {
            &&& header_fields(*headers)[name@].len() > 0
            &&& bytes@ == header_fields(*headers)[name@][0]
            &&& is_header_value(bytes@)
        },
        value matches Some((_, sensitive)) ==> sensitive == first_mark(
            header_marks(*headers),
            name@,
        ),
{
    headers.get(name).map(|value| (value.as_bytes().to_vec(), value.is_sensitive()))
}

/// `HeaderMap::try_insert`: the value becomes the field's only one, and is
/// marked as it is told. A map that does not grow any further keeps what it
/// holds. Whether it grows rests on how its entries lie, too; with less than
/// `FIELD_NAME_LIMIT` names it does.
#[verifier::external_body]
fn try_insert(
    headers: &mut HeaderMap<HeaderValue>,
    name: &'static str,
    value: &[u8],
    sensitive: bool,
) -> (outcome: Result<(), MaxSizeReached>)
    requires
        is_field_name(name@),
        is_header_value(value@),
    ensures
        has_room(header_fields(*old(headers)), 1) ==> outcome is Ok,
        header_fields(*final(headers)) == if outcome is Ok {
            header_fields(*old(headers)).insert(name@, seq![value@])
        } else {
            header_fields(*old(headers))
        },
        header_marks(*final(headers)) == if outcome is Ok {
            header_marks(*old(headers)).insert(name@, seq![sensitive])
        } else {
            header_marks(*old(headers))
        },
{
    let mut value = HeaderValue::from_bytes(value).unwrap();
    value.set_sensitive(sensitive);
    headers.try_insert(name, value).map(|_| ())
}

/// Make the value the field's only one, marked as it is told. A map that does
/// not grow any further keeps what it holds.
pub(crate) fn insert(
    headers: &mut HeaderMap<HeaderValue>,
    name: &'static str,
    value: &[u8],
    sensitive: bool,
) -> (outcome: Result<(), HeadersFull>)
    requires
        is_field_name(name@),
        is_header_value(value@),
    ensures
        has_room(header_fields(*old(headers)), 1) ==> outcome is Ok,
        header_fields(*final(headers)) == if outcome is Ok {
            header_fields(*old(headers)).insert(name@, seq![value@])
        } else {
            header_fields(*old(headers))
        },
        header_marks(*final(headers)) == if outcome is Ok {
            header_marks(*old(headers)).insert(name@, seq![sensitive])
        } else {
            header_marks(*old(headers))
        },
{
    match try_insert(headers, name, value, sensitive) {
        Ok(()) => Ok(()),
        Err(_) => Err(HeadersFull),
    }
}

/// `HeaderMap::remove`: the field is gone with all its values.
#[verifier::external_body]
pub(crate) fn remove(headers: &mut HeaderMap<HeaderValue>, name: &str)
    requires
        is_field_name(name@),
    ensures
        header_fields(*final(headers)) == header_fields(*old(headers)).remove(name@),
        header_marks(*final(headers)) == header_marks(*old(headers)).remove(name@),
{
    headers.remove(name);
}

/// Whether a character is visible ASCII.
pub open spec fn is_visible_char(c: char) -> bool {
    c == '\t' || ' ' <= c <= '~'
}

/// A text of visible ASCII is a header value, and is read back from it.
pub proof fn lemma_visible_value(s: Seq<char>)
    requires
        forall|i: int| 0 <= i < s.len() ==> is_visible_char(#[trigger] s[i]),
    ensures
        is_header_value(vstd::utf8::encode_utf8(s)),
        is_visible_ascii(vstd::utf8::encode_utf8(s)),
        ascii_text(vstd::utf8::encode_utf8(s)) == s,
{
    assert(vstd::utf8::is_ascii_chars(s));
    vstd::utf8::is_ascii_chars_encode_utf8(s);
    let bytes = vstd::utf8::encode_utf8(s);
    assert forall|i: int| 0 <= i < bytes.len() implies is_value_byte(#[trigger] bytes[i])
        && is_visible(bytes[i]) && bytes[i] as char == s[i] by {
        assert(is_visible_char(s[i]));
    }
    assert(ascii_text(bytes) =~= s);
}

/// Whether `count` further field names fit into the header map for certain.
pub fn room_for(headers: &HeaderMap<HeaderValue>, count: usize) -> (fits: bool)
    ensures
        fits == has_room(header_fields(*headers), count as int),
{
    let names = name_count(headers);
    names <= FIELD_NAME_LIMIT && count <= FIELD_NAME_LIMIT - names
}

/// The text of a header value, if it is visible ASCII throughout.
pub fn visible_text(value: &[u8]) -> (text: Option<String>)
    ensures
        text is Some <==> is_visible_ascii(value@),
        text matches Some(t) ==> t@ == ascii_text(value@),
{
    let mut text = String::new();
    let mut i: usize = 0;
    while i < value.len()
        invariant
            i <= value@.len(),
            is_visible_ascii(value@.take(i as int)),
            text@ == ascii_text(value@.take(i as int)),
        decreases value@.len() - i,
    {
        let b = value[i];
        if !(b == 9 || 32 <= b && b < 127) {
            assert(!is_visible(value@[i as int]));
            return None;
        }
        assert(value@.take(i + 1) =~= value@.take(i as int).push(b));
        text.push(b as char);
        assert(ascii_text(value@.take(i + 1)) =~= ascii_text(value@.take(i as int)).push(
            b as char,
        ));
        i = i + 1;
    }
    assert(value@.take(i as int) =~= value@);
    Some(text)
}

/// The bytes of `text`, if a header value may hold them.
pub fn value_bytes(text: &str) -> (bytes: Option<&[u8]>)
    ensures
        bytes is Some <==> is_header_value(vstd::utf8::encode_utf8(text@)),
        bytes matches Some(b) ==> b@ == vstd::utf8::encode_utf8(text@),
{
    let bytes = text.as_bytes();
    let mut i: usize = 0;
    while i < bytes.len()
        invariant
            i <= bytes@.len(),
            bytes@ == vstd::utf8::encode_utf8(text@),
            forall|j: int| 0 <= j < i ==> is_value_byte(#[trigger] bytes@[j]),
        decreases bytes@.len() - i,
    {
        let b = bytes[i];
        if !(b == 9 || 32 <= b && b != 127) {
            assert(!is_value_byte(bytes@[i as int]));
            return None;
        }
        i = i + 1;
    }
    Some(bytes)
}

} // verus!
