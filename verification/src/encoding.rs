//! Percent-encoded text: cookie pairs and submitted forms.

use crate::digest;
use crate::text;
use vstd::prelude::*;

verus! {

/// `bytes` with each `%` and the two hexadecimal digits behind it replaced by
/// the byte that the digits spell.
pub open spec fn percent_decoded(bytes: Seq<u8>) -> Seq<u8>
    decreases bytes.len(),
{
    if bytes.len() == 0 {
        Seq::empty()
    } else if bytes[0] == 0x25 && bytes.len() >= 3 && 0 <= digest::hex_value(bytes[1] as char) && 0
        <= digest::hex_value(bytes[2] as char) {
        seq![(16 * digest::hex_value(bytes[1] as char) + digest::hex_value(bytes[2] as char)) as u8]
            + percent_decoded(bytes.skip(3))
    } else {
        seq![bytes[0]] + percent_decoded(bytes.skip(1))
    }
}

/// The percent-decoded form of `text`, if it is UTF-8.
pub open spec fn decoded_text(text: Seq<char>) -> Option<Seq<char>> {
    let bytes = percent_decoded(vstd::utf8::encode_utf8(text));
    if vstd::utf8::valid_utf8(bytes) {
        Some(vstd::utf8::decode_utf8(bytes))
    } else {
        None
    }
}

/// The decoded name and value of the cookie pair `raw`, which holds no `;`.
/// There is none if `raw` lacks a `=` or a name, or if one of the two does not
/// decode to UTF-8.
pub open spec fn decoded_cookie(raw: Seq<char>) -> Option<(Seq<char>, Seq<char>)> {
    match text::cut(raw, '=') {
        Some((name, value)) => {
            let name = text::trimmed(name);
            let value = text::trimmed(value);
            if name.len() == 0 {
                None
            } else {
                match (decoded_text(name), decoded_text(value)) {
                    (Some(name), Some(value)) => Some((name, value)),
                    _ => None,
                }
            }
        },
        None => None,
    }
}

/// A form's bytes with each `+` replaced by a space, and percent-decoded.
pub open spec fn form_decoded(bytes: Seq<u8>) -> Seq<u8> {
    percent_decoded(
        bytes.map_values(
            |b: u8|
                if b == 0x2b {
                    0x20
                } else {
                    b
                },
        ),
    )
}

/// The name and the value of one field of a form, decoded; without a `=`, the
/// value is empty.
pub open spec fn form_field(field: Seq<u8>) -> (Seq<u8>, Seq<u8>) {
    match text::cut(field, 0x3d) {
        Some((name, value)) => (form_decoded(name), form_decoded(value)),
        None => (form_decoded(field), Seq::empty()),
    }
}

/// The fields of a form, decoded to bytes: what stands between the `&`s, but
/// for empty stretches.
pub open spec fn form_fields(body: Seq<u8>) -> Seq<(Seq<u8>, Seq<u8>)> {
    text::split(body, 0x26).filter(|field: Seq<u8>| field.len() > 0).map_values(
        |field: Seq<u8>| form_field(field),
    )
}

/// The fields of an `application/x-www-form-urlencoded` body, decoded to text.
pub uninterp spec fn form_pairs(body: Seq<u8>) -> Seq<(Seq<char>, Seq<char>)>;

/// Whether `text` is what `bytes` decode to: the text that they are in UTF-8,
/// or else a text with a replacement character.
pub open spec fn decodes_to(bytes: Seq<u8>, text: Seq<char>) -> bool {
    if vstd::utf8::valid_utf8(bytes) {
        text == vstd::utf8::decode_utf8(bytes)
    } else {
        text.contains('\u{FFFD}')
    }
}

/// Whether `pairs` are the texts that `fields` decode to, one by one.
pub open spec fn fields_decode_to(
    fields: Seq<(Seq<u8>, Seq<u8>)>,
    pairs: Seq<(Seq<char>, Seq<char>)>,
) -> bool {
    &&& pairs.len() == fields.len()
    &&& forall|i: int|
        0 <= i < fields.len() ==> decodes_to((#[trigger] fields[i]).0, pairs[i].0) && decodes_to(
            fields[i].1,
            pairs[i].1,
        )
}

/// The value of the first field of that name.
pub open spec fn first_field<A>(fields: Seq<(Seq<A>, Seq<A>)>, name: Seq<A>) -> Option<Seq<A>>
    decreases fields.len(),
{
    if fields.len() == 0 {
        None
    } else if fields.first().0 == name {
        Some(fields.first().1)
    } else {
        first_field(fields.drop_first(), name)
    }
}

/// The first field of a name is the same one before and after decoding.
pub proof fn lemma_first_field_decodes(
    fields: Seq<(Seq<u8>, Seq<u8>)>,
    pairs: Seq<(Seq<char>, Seq<char>)>,
    name: Seq<char>,
)
    requires
        fields_decode_to(fields, pairs),
        !name.contains('\u{FFFD}'),
    ensures
        match (first_field(fields, vstd::utf8::encode_utf8(name)), first_field(pairs, name)) {
            (Some(bytes), Some(text)) => decodes_to(bytes, text),
            (None, None) => true,
            _ => false,
        },
    decreases fields.len(),
{
    if fields.len() > 0 {
        let encoded = vstd::utf8::encode_utf8(name);
        assert(decodes_to(fields[0].0, pairs[0].0) && decodes_to(fields[0].1, pairs[0].1));
        vstd::utf8::encode_utf8_valid_utf8(name);
        vstd::utf8::encode_utf8_decode_utf8(name);
        if vstd::utf8::valid_utf8(fields[0].0) {
            vstd::utf8::decode_utf8_encode_utf8(fields[0].0);
        }
        assert(fields.first().0 == encoded <==> pairs.first().0 == name);
        assert forall|i: int| 0 <= i < fields.len() - 1 implies decodes_to(
            (#[trigger] fields.drop_first()[i]).0,
            pairs.drop_first()[i].0,
        ) && decodes_to(fields.drop_first()[i].1, pairs.drop_first()[i].1) by {
            assert(fields.drop_first()[i] == fields[i + 1]);
        }
        lemma_first_field_decodes(fields.drop_first(), pairs.drop_first(), name);
    }
}

/// Each byte as `%` and two hexadecimal digits.
pub open spec fn percent_encoded(bytes: Seq<u8>) -> Seq<u8>
    decreases bytes.len(),
{
    if bytes.len() == 0 {
        Seq::empty()
    } else {
        seq![
            0x25u8,
            digest::hex_digit(bytes[0] as int / 16) as u8,
            digest::hex_digit(bytes[0] as int % 16) as u8,
        ] + percent_encoded(bytes.skip(1))
    }
}

/// Bytes that are percent-encoded decode to themselves.
pub proof fn lemma_percent_round_trip(bytes: Seq<u8>)
    ensures
        percent_decoded(percent_encoded(bytes)) == bytes,
    decreases bytes.len(),
{
    if bytes.len() == 0 {
        assert(percent_decoded(percent_encoded(bytes)) =~= bytes);
    } else {
        let rest = bytes.skip(1);
        let encoded = percent_encoded(bytes);
        lemma_percent_round_trip(rest);
        assert(encoded.skip(3) =~= percent_encoded(rest));
        let high = bytes[0] as int / 16;
        let low = bytes[0] as int % 16;
        assert(0 <= high < 16 && 0 <= low < 16);
        assert(encoded[1] as char == digest::hex_digit(high));
        assert(encoded[2] as char == digest::hex_digit(low));
        assert(digest::hex_value(digest::hex_digit(high)) == high);
        assert(digest::hex_value(digest::hex_digit(low)) == low);
        assert(16 * high + low == bytes[0]);
        assert(percent_decoded(encoded) =~= seq![bytes[0]] + rest);
        assert(seq![bytes[0]] + rest =~= bytes);
    }
}

/// Percent-encoded bytes are `%`, digits and lower-case letters.
pub proof fn lemma_percent_encoded_bytes(bytes: Seq<u8>)
    ensures
        forall|i: int|
            0 <= i < percent_encoded(bytes).len() ==> {
                let b = #[trigger] percent_encoded(bytes)[i];
                b == 0x25 || 0x30 <= b <= 0x39 || 0x61 <= b <= 0x66
            },
    decreases bytes.len(),
{
    if bytes.len() > 0 {
        lemma_percent_encoded_bytes(bytes.skip(1));
        let encoded = percent_encoded(bytes);
        assert forall|i: int| 0 <= i < encoded.len() implies {
            let b = #[trigger] encoded[i];
            b == 0x25 || 0x30 <= b <= 0x39 || 0x61 <= b <= 0x66
        } by {
            if i >= 3 {
                assert(encoded[i] == percent_encoded(bytes.skip(1))[i - 3]);
            }
        }
    }
}

/// Bytes without `%` decode to themselves.
pub proof fn lemma_plain_bytes(bytes: Seq<u8>)
    requires
        !bytes.contains(0x25),
    ensures
        percent_decoded(bytes) == bytes,
    decreases bytes.len(),
{
    if bytes.len() == 0 {
        assert(percent_decoded(bytes) =~= bytes);
    } else {
        assert(bytes.contains(bytes[0]));
        assert forall|i: int| 0 <= i < bytes.len() - 1 implies bytes.skip(1)[i] != 0x25 by {
            assert(bytes.contains(bytes[i + 1]));
        }
        lemma_plain_bytes(bytes.skip(1));
        assert(seq![bytes[0]] + bytes.skip(1) =~= bytes);
    }
}

/// A text of visible ASCII without `%` decodes to itself.
pub proof fn lemma_plain_text(s: Seq<char>)
    requires
        forall|i: int| 0 <= i < s.len() ==> ' ' <= #[trigger] s[i] <= '~' && s[i] != '%',
    ensures
        decoded_text(s) == Some(s),
{
    let bytes = vstd::utf8::encode_utf8(s);
    assert(vstd::utf8::is_ascii_chars(s));
    vstd::utf8::is_ascii_chars_encode_utf8(s);
    assert forall|i: int| 0 <= i < bytes.len() implies bytes[i] != 0x25 by {
        assert(s[i] as u8 == bytes[i]);
    }
    lemma_plain_bytes(bytes);
    vstd::utf8::encode_utf8_valid_utf8(s);
    vstd::utf8::encode_utf8_decode_utf8(s);
}

/// A form of one field, whose value stands without `&` and `+`.
pub proof fn lemma_single_field(name: Seq<u8>, value: Seq<u8>)
    requires
        name.len() > 0,
        !name.contains(0x25),
        !name.contains(0x26),
        !name.contains(0x2b),
        !name.contains(0x3d),
        !value.contains(0x26),
        !value.contains(0x2b),
    ensures
        form_fields(name.push(0x3d) + value) == seq![(name, percent_decoded(value))],
{
    let body = name.push(0x3d) + value;
    assert forall|i: int| 0 <= i < body.len() implies body[i] != 0x26 by {
        if i < name.len() {
            assert(name.contains(body[i]));
        } else if i > name.len() {
            assert(value.contains(value[i - name.len() - 1]));
        }
    }
    let nothing = Seq::<u8>::empty();
    text::lemma_split_append(nothing, body, 0x26u8);
    assert(nothing + body =~= body);
    assert(text::split(nothing, 0x26u8) =~= seq![nothing]);
    assert(text::split(body, 0x26u8) =~= seq![body]);
    let filled = |field: Seq<u8>| field.len() > 0;
    reveal(Seq::filter);
    assert(seq![body].drop_last() =~= Seq::<Seq<u8>>::empty());
    assert(Seq::<Seq<u8>>::empty().filter(filled) =~= Seq::<Seq<u8>>::empty());
    assert(seq![body].filter(filled) =~= seq![body]);
    text::lemma_cut(name, value, 0x3du8);
    lemma_without_plus(name);
    lemma_without_plus(value);
    lemma_plain_bytes(name);
    assert(form_fields(body) =~= seq![(name, percent_decoded(value))]);
}

/// Without `+`, a form's bytes are only percent-decoded.
proof fn lemma_without_plus(bytes: Seq<u8>)
    requires
        !bytes.contains(0x2b),
    ensures
        form_decoded(bytes) == percent_decoded(bytes),
{
    let replaced = bytes.map_values(
        |b: u8|
            if b == 0x2b {
                0x20
            } else {
                b
            },
    );
    assert forall|i: int| 0 <= i < bytes.len() implies replaced[i] == bytes[i] by {
        assert(bytes.contains(bytes[i]));
    }
    assert(replaced =~= bytes);
}

/// The characters of each pair.
pub open spec fn pair_views(pairs: Seq<(String, String)>) -> Seq<(Seq<char>, Seq<char>)> {
    pairs.map_values(|pair: (String, String)| (pair.0@, pair.1@))
}

/// `Cookie::parse_encoded`, of a text without `;`: the cookie's name and value,
/// each without surrounding white space and percent-decoded. It refuses a text
/// without `=`, an empty name, and what does not decode to UTF-8.
#[verifier::external_body]
pub(crate) fn parse_encoded(raw: &str) -> (pair: Option<(String, String)>)
    requires
        !raw@.contains(';'),
    ensures
        pair is Some <==> decoded_cookie(raw@) is Some,
        pair matches Some((name, value)) ==> decoded_cookie(raw@) == Some((name@, value@)),
{
    cookie::Cookie::parse_encoded(raw).ok().map(
        |cookie| (cookie.name().to_owned(), cookie.value().to_owned()),
    )
}

/// `form_urlencoded::parse`: the fields of the form in order, each decoded. A
/// name or value whose bytes are not UTF-8 comes out with replacement
/// characters; which text that is, is left to the name.
#[verifier::external_body]
pub(crate) fn parse_form(body: &[u8]) -> (pairs: Vec<(String, String)>)
    ensures
        pair_views(pairs@) == form_pairs(body@),
        fields_decode_to(form_fields(body@), pair_views(pairs@)),
{
    form_urlencoded::parse(body).into_owned().collect()
}

} // verus!
