//! What a request is owed, in terms of what comes in and what goes out.

use crate::address;
use crate::config;
use crate::cookies;
use crate::digest;
use crate::digest::Digest;
use crate::encoding;
use crate::forwarding;
use crate::gate;
use crate::gate::Step;
use crate::headers;
use crate::laws;
use crate::template;
use crate::text;
use axum::http::{HeaderMap, HeaderValue};
use vstd::prelude::*;

verus! {

/// Whether two maps hold the same under a name, or both nothing.
pub open spec fn same_at<V>(a: Map<Seq<char>, V>, b: Map<Seq<char>, V>, name: Seq<char>) -> bool {
    &&& a.dom().contains(name) <==> b.dom().contains(name)
    &&& a.dom().contains(name) ==> a[name] == b[name]
}

/// Whether a name is one of the fields that say where a request comes from.
pub open spec fn is_origin_name(name: Seq<char>) -> bool {
    ||| name == "x-forwarded-for"@
    ||| name == "forwarded"@
    ||| name == "x-forwarded-host"@
    ||| name == "x-forwarded-proto"@
}

/// Whether every byte is one that a header value may hold.
pub open spec fn fits_header(bytes: Seq<u8>) -> bool {
    forall|i: int|
        0 <= i < bytes.len() ==> (#[trigger] bytes[i] == 0x09 || 0x20 <= bytes[i] <= 0x7e || 0x80
            <= bytes[i])
}

/// Whether every byte is a tab or from the space up to the tilde.
pub open spec fn is_printable(bytes: Seq<u8>) -> bool {
    forall|i: int|
        0 <= i < bytes.len() ==> (#[trigger] bytes[i] == 0x09 || 0x20 <= bytes[i] <= 0x7e)
}

/// The character of each byte.
pub open spec fn letters(bytes: Seq<u8>) -> Seq<char> {
    Seq::new(bytes.len(), |i: int| bytes[i] as char)
}

/// Which header values are text, which texts are header values, and which text
/// that is.
pub proof fn lemma_header_text(bytes: Seq<u8>)
    ensures
        headers::is_header_value(bytes) <==> fits_header(bytes),
        headers::is_visible_ascii(bytes) <==> is_printable(bytes),
        headers::ascii_text(bytes) == letters(bytes),
{
    if headers::is_header_value(bytes) {
        assert forall|i: int| 0 <= i < bytes.len() implies (#[trigger] bytes[i] == 0x09 || 0x20
            <= bytes[i] <= 0x7e || 0x80 <= bytes[i]) by {
            assert(headers::is_value_byte(bytes[i]));
        }
    }
    if headers::is_visible_ascii(bytes) {
        assert forall|i: int| 0 <= i < bytes.len() implies (#[trigger] bytes[i] == 0x09 || 0x20
            <= bytes[i] <= 0x7e) by {
            assert(headers::is_visible(bytes[i]));
        }
    }
    assert(headers::ascii_text(bytes) =~= letters(bytes));
}

/// Whether the fields claim HTTPS: one `X-Forwarded-Proto`, which is printable
/// and reads `https` in any case, up to surrounding white space.
pub open spec fn claims_https(fields: Map<Seq<char>, Seq<Seq<u8>>>) -> bool {
    let name = "x-forwarded-proto"@;
    &&& fields.dom().contains(name)
    &&& fields[name].len() == 1
    &&& is_printable(fields[name][0])
    &&& text::ascii_lowercase(text::trimmed(letters(fields[name][0]))) == "https"@
}

/// The effective scheme is HTTPS exactly when the request claims so, once and
/// clearly.
pub proof fn lemma_https_is_claimed(fields: Map<Seq<char>, Seq<Seq<u8>>>)
    ensures
        forwarding::https_fields(fields) <==> claims_https(fields),
        forwarding::scheme_name(true) == "https"@,
        forwarding::scheme_name(false) == "http"@,
{
    let name = "x-forwarded-proto"@;
    if fields.dom().contains(name) && fields[name].len() == 1 {
        lemma_header_text(fields[name][0]);
    }
}

/// Whether outgoing fields tell of a request's origin what is to be told: no
/// client address; as host the authority, if a header can hold it, or else the
/// first `Host`, or else nothing; and the scheme. A host is as sensitive as the
/// `Host` that it is taken from.
pub open spec fn tells_origin(
    fields: Map<Seq<char>, Seq<Seq<u8>>>,
    marks: Map<Seq<char>, Seq<bool>>,
    authority: Option<Seq<char>>,
    out: Map<Seq<char>, Seq<Seq<u8>>>,
    out_marks: Map<Seq<char>, Seq<bool>>,
) -> bool {
    let host = "x-forwarded-host"@;
    let proto = "x-forwarded-proto"@;
    let scheme = if claims_https(fields) {
        "https"@
    } else {
        "http"@
    };
    &&& !out.dom().contains("x-forwarded-for"@) && !out_marks.dom().contains("x-forwarded-for"@)
    &&& !out.dom().contains("forwarded"@) && !out_marks.dom().contains("forwarded"@)
    &&& out.dom().contains(proto) && out_marks.dom().contains(proto)
    &&& out[proto] == seq![vstd::utf8::encode_utf8(scheme)] && out_marks[proto] == seq![false]
    &&& if authority matches Some(a) && fits_header(vstd::utf8::encode_utf8(a)) {
        &&& out.dom().contains(host) && out_marks.dom().contains(host)
        &&& out[host] == seq![vstd::utf8::encode_utf8(authority->0)]
        &&& out_marks[host] == seq![false]
    } else if fields.dom().contains("host"@) {
        &&& out.dom().contains(host) && out_marks.dom().contains(host)
        &&& out[host] == seq![fields["host"@][0]]
        &&& out_marks[host] == seq![marks.dom().contains("host"@) && marks["host"@][0]]
    } else {
        !out.dom().contains(host) && !out_marks.dom().contains(host)
    }
}

/// Rewritten headers tell the origin, and hold everything else as it came: every
/// field but those four has the values, and the marks, that it had.
pub proof fn lemma_rewriting_changes_the_origin_only(
    before: HeaderMap<HeaderValue>,
    after: HeaderMap<HeaderValue>,
    authority: Option<Seq<char>>,
)
    requires
        forwarding::is_rewritten(before, after, authority),
    ensures
        tells_origin(
            headers::header_fields(before),
            headers::header_marks(before),
            authority,
            headers::header_fields(after),
            headers::header_marks(after),
        ),
        forall|name: Seq<char>|
            #![trigger headers::header_fields(after).dom().contains(name)]
            #![trigger headers::header_marks(after).dom().contains(name)]
            !is_origin_name(name) ==> same_at(
                headers::header_fields(before),
                headers::header_fields(after),
                name,
            ) && same_at(headers::header_marks(before), headers::header_marks(after), name),
{
    forwarding::lemma_field_names();
    lemma_https_is_claimed(headers::header_fields(before));
    if let Some(a) = authority {
        lemma_header_text(vstd::utf8::encode_utf8(a));
    }
}

/// The raw pairs of the cookies that are not named `mba`, in their order.
pub open spec fn application_pairs(cookies: Seq<cookies::CookieText>) -> Seq<Seq<char>> {
    cookies.filter(|c: cookies::CookieText| c.name != "mba"@).map_values(
        |c: cookies::CookieText| c.raw,
    )
}

/// The outgoing `Cookie` header is the raw pairs of all cookies but those named
/// `mba`, in their order and with `; ` between them. There is none if nothing is
/// left, or if a header cannot hold it.
pub proof fn lemma_outgoing_cookies(cookies: Seq<cookies::CookieText>)
    ensures
        ({
            let pairs = application_pairs(cookies);
            let joined = text::join(pairs, "; "@);
            cookies::outgoing_cookies(cookies) == if pairs.len() > 0 && fits_header(
                vstd::utf8::encode_utf8(joined),
            ) {
                Some(joined)
            } else {
                None
            }
        }),
{
    lemma_foreign_by_name(cookies);
    lemma_header_text(
        vstd::utf8::encode_utf8(text::join(application_pairs(cookies), "; "@)),
    );
}

proof fn lemma_foreign_by_name(cookies: Seq<cookies::CookieText>)
    ensures
        cookies.filter(|c: cookies::CookieText| c.name != "mba"@) == laws::foreign_cookies(cookies),
        application_pairs(cookies) == cookies::kept_pairs(cookies),
    decreases cookies.len(),
{
    reveal(Seq::filter);
    if cookies.len() > 0 {
        lemma_foreign_by_name(cookies.drop_last());
    }
}

/// Whether the raw pair is that of a cookie that is not named `mba`.
pub open spec fn is_application_pair(cookies: Seq<cookies::CookieText>, raw: Seq<char>) -> bool {
    exists|i: int|
        0 <= i < cookies.len() && (#[trigger] cookies[i]).name != "mba"@ && cookies[i].raw == raw
}

/// A cookie's raw pair passes on if and only if the cookie is not named `mba`.
pub proof fn lemma_pair_passes_unless_named_mba(cookies: Seq<cookies::CookieText>)
    ensures
        forall|i: int|
            0 <= i < cookies.len() && (#[trigger] cookies[i]).name != "mba"@
                ==> cookies::kept_pairs(cookies).contains(cookies[i].raw),
        forall|k: int|
            0 <= k < cookies::kept_pairs(cookies).len() ==> is_application_pair(
                cookies,
                #[trigger] cookies::kept_pairs(cookies)[k],
            ),
{
    let named = |c: cookies::CookieText| c.name != "mba"@;
    let kept = cookies.filter(named);
    lemma_foreign_by_name(cookies);
    assert forall|i: int| 0 <= i < cookies.len() && (#[trigger] cookies[i]).name
        != "mba"@ implies cookies::kept_pairs(cookies).contains(cookies[i].raw) by {
        cookies.lemma_filter_contains(named, i);
        let k = choose|k: int| 0 <= k < kept.len() && kept[k] == cookies[i];
        assert(cookies::kept_pairs(cookies)[k] == cookies[i].raw);
    }
    assert forall|k: int| 0 <= k < cookies::kept_pairs(cookies).len() implies is_application_pair(
        cookies,
        #[trigger] cookies::kept_pairs(cookies)[k],
    ) by {
        cookies.lemma_filter_contains_rev(named, kept[k]);
        cookies.lemma_filter_pred(named, k);
        let i = choose|i: int| 0 <= i < cookies.len() && cookies[i] == kept[k];
        assert(cookies[i].name != "mba"@ && cookies[i].raw == cookies::kept_pairs(cookies)[k]);
    }
}

/// An authenticated request passes transparently. Every field but the cookies
/// and the four that tell the origin reaches the upstream as it came; those four
/// say what is to be said; and of the cookies, read again, exactly those that
/// are not named `mba` are left, each unchanged and in order, in one field.
pub proof fn lemma_passage_is_transparent(
    before: HeaderMap<HeaderValue>,
    after: HeaderMap<HeaderValue>,
    authority: Option<Seq<char>>,
)
    requires
        forwarding::is_sanitized(
            before,
            after,
            authority,
            cookies::request_cookies(headers::header_fields(before)),
        ),
    ensures
        tells_origin(
            headers::header_fields(before),
            headers::header_marks(before),
            authority,
            headers::header_fields(after),
            headers::header_marks(after),
        ),
        forall|name: Seq<char>|
            #![trigger headers::header_fields(after).dom().contains(name)]
            #![trigger headers::header_marks(after).dom().contains(name)]
            name != "cookie"@ && !is_origin_name(name) ==> same_at(
                headers::header_fields(before),
                headers::header_fields(after),
                name,
            ) && same_at(headers::header_marks(before), headers::header_marks(after), name),
        cookies::request_cookies(headers::header_fields(after)) == cookies::request_cookies(
            headers::header_fields(before),
        ).filter(|c: cookies::CookieText| c.name != "mba"@),
        ({
            let pairs = application_pairs(
                cookies::request_cookies(headers::header_fields(before)),
            );
            let out = headers::header_fields(after);
            let out_marks = headers::header_marks(after);
            if pairs.len() == 0 {
                !out.dom().contains("cookie"@) && !out_marks.dom().contains("cookie"@)
            } else {
                &&& out.dom().contains("cookie"@) && out_marks.dom().contains("cookie"@)
                &&& out["cookie"@] == seq![vstd::utf8::encode_utf8(text::join(pairs, "; "@))]
                &&& out_marks["cookie"@] == seq![false]
            }
        }),
{
    let fields = headers::header_fields(before);
    let out = headers::header_fields(after);
    let cookies = cookies::request_cookies(fields);
    forwarding::lemma_field_names();
    forwarding::lemma_cookie_field_is_different();
    let stripped = forwarding::stripped_fields(fields, cookies);
    lemma_https_is_claimed(fields);
    lemma_https_is_claimed(stripped);
    if let Some(a) = authority {
        lemma_header_text(vstd::utf8::encode_utf8(a));
    }
    laws::lemma_upstream_sees_application_cookies(fields, authority);
    lemma_foreign_by_name(cookies);
    laws::lemma_request_cookies_are_parsed(headers::field_values(fields, cookies::COOKIE_FIELD@));
    laws::lemma_outgoing_value(cookies);
    lemma_outgoing_cookies(cookies);
    assert(laws::foreign_cookies(cookies).len() == application_pairs(cookies).len());
}

/// What is left when rewriting is cut short keeps everything but the claims of
/// origin, and no claimed client address.
pub proof fn lemma_cut_short_keeps_the_rest(
    fields: Map<Seq<char>, Seq<Seq<u8>>>,
    left: Map<Seq<char>, Seq<Seq<u8>>>,
    authority: Option<Seq<char>>,
)
    requires
        forwarding::is_cut_short(fields, left, authority),
    ensures
        !left.dom().contains("x-forwarded-for"@),
        !left.dom().contains("forwarded"@),
        same_at(fields, left, "x-forwarded-proto"@),
        left.dom().contains("x-forwarded-host"@) ==> left["x-forwarded-host"@] == seq![
            if authority matches Some(a) && fits_header(vstd::utf8::encode_utf8(a)) {
                vstd::utf8::encode_utf8(authority->0)
            } else {
                fields["host"@][0]
            },
        ],
        forall|name: Seq<char>|
            #![trigger left.dom().contains(name)]
            !is_origin_name(name) ==> same_at(fields, left, name),
{
    forwarding::lemma_field_names();
    if let Some(a) = authority {
        lemma_header_text(vstd::utf8::encode_utf8(a));
    }
}

/// A map of fewer than 6554 names takes another: that is when success is owed.
pub proof fn lemma_room(fields: Map<Seq<char>, Seq<Seq<u8>>>, count: int)
    ensures
        headers::has_room(fields, count) <==> fields.dom().finite() && fields.dom().len() + count
            <= 6554,
{
}

/// Whether a cookie stands in a request: as piece `j`, between `;`s and up to
/// white space, of its printable `Cookie` field `k`, and decoded.
pub open spec fn stands_in(
    fields: Map<Seq<char>, Seq<Seq<u8>>>,
    cookie: cookies::CookieText,
    k: int,
    j: int,
) -> bool {
    &&& fields.dom().contains("cookie"@)
    &&& 0 <= k < fields["cookie"@].len()
    &&& is_printable(fields["cookie"@][k])
    &&& 0 <= j < text::split(letters(fields["cookie"@][k]), ';').len()
    &&& text::trimmed(text::split(letters(fields["cookie"@][k]), ';')[j]) == cookie.raw
    &&& encoding::decoded_cookie(cookie.raw) == Some((cookie.name, cookie.value))
}

/// A request's cookies are exactly those that stand in its `Cookie` fields.
pub proof fn lemma_request_cookies_stand_in_the_request(
    fields: Map<Seq<char>, Seq<Seq<u8>>>,
    cookie: cookies::CookieText,
)
    ensures
        cookies::request_cookies(fields).contains(cookie) <==> exists|k: int, j: int|
            stands_in(fields, cookie, k, j),
{
    let values = headers::field_values(fields, cookies::COOKIE_FIELD@);
    if cookies::request_cookies(fields).contains(cookie) {
        let k = lemma_cookie_has_a_value(values, cookie);
        let pieces = text::split(headers::ascii_text(values[k]), ';');
        let j = lemma_cookie_has_a_piece(pieces, cookie);
        lemma_header_text(values[k]);
        assert(stands_in(fields, cookie, k, j));
    }
    if exists|k: int, j: int| stands_in(fields, cookie, k, j) {
        let (k, j) = choose|k: int, j: int| stands_in(fields, cookie, k, j);
        lemma_header_text(values[k]);
        laws::lemma_piece_is_cookie(text::split(headers::ascii_text(values[k]), ';'), j);
        laws::lemma_value_is_read(values, k, cookie);
    }
}

proof fn lemma_cookie_has_a_value(values: Seq<Seq<u8>>, cookie: cookies::CookieText) -> (k: int)
    requires
        cookies::field_cookies(values).contains(cookie),
    ensures
        0 <= k < values.len(),
        cookies::value_cookies(values[k]).contains(cookie),
    decreases values.len(),
{
    let all = cookies::field_cookies(values);
    let front = cookies::field_cookies(values.drop_last());
    let last = cookies::value_cookies(values.last());
    let i = choose|i: int| 0 <= i < all.len() && all[i] == cookie;
    if i < front.len() {
        assert(front[i] == cookie);
        lemma_cookie_has_a_value(values.drop_last(), cookie)
    } else {
        assert(last[i - front.len()] == cookie);
        values.len() - 1
    }
}

proof fn lemma_cookie_has_a_piece(pieces: Seq<Seq<char>>, cookie: cookies::CookieText) -> (j: int)
    requires
        cookies::piece_cookies(pieces).contains(cookie),
    ensures
        0 <= j < pieces.len(),
        text::trimmed(pieces[j]) == cookie.raw,
        encoding::decoded_cookie(cookie.raw) == Some((cookie.name, cookie.value)),
    decreases pieces.len(),
{
    let all = cookies::piece_cookies(pieces);
    let front = cookies::piece_cookies(pieces.drop_last());
    let i = choose|i: int| 0 <= i < all.len() && all[i] == cookie;
    if i < front.len() {
        assert(front[i] == cookie);
        lemma_cookie_has_a_piece(pieces.drop_last(), cookie)
    } else {
        pieces.len() - 1
    }
}

/// The cookies of a request come one field after the other, and in each field
/// one piece after the other.
pub proof fn lemma_cookies_come_in_order(
    values: Seq<Seq<u8>>,
    value: Seq<u8>,
    pieces: Seq<Seq<char>>,
    piece: Seq<char>,
)
    ensures
        cookies::field_cookies(Seq::empty()) == Seq::<cookies::CookieText>::empty(),
        cookies::field_cookies(values.push(value)) == cookies::field_cookies(values)
            + cookies::value_cookies(value),
        cookies::value_cookies(value) == if is_printable(value) {
            cookies::piece_cookies(text::split(letters(value), ';'))
        } else {
            Seq::empty()
        },
        cookies::piece_cookies(Seq::empty()) == Seq::<cookies::CookieText>::empty(),
        cookies::piece_cookies(pieces.push(piece)) == cookies::piece_cookies(pieces)
            + match encoding::decoded_cookie(text::trimmed(piece)) {
            Some((name, value)) => seq![
                cookies::CookieText { name, value, raw: text::trimmed(piece) },
            ],
            None => Seq::empty(),
        },
{
    assert(values.push(value).drop_last() =~= values);
    assert(pieces.push(piece).drop_last() =~= pieces);
    lemma_header_text(value);
    let front = cookies::piece_cookies(pieces);
    assert(front + Seq::empty() =~= front);
    assert(cookies::piece_cookies(pieces.push(piece)) =~= front + match encoding::decoded_cookie(
        text::trimmed(piece),
    ) {
        Some((name, value)) => seq![cookies::CookieText { name, value, raw: text::trimmed(piece) }],
        None => Seq::empty(),
    });
}

/// A text is the token of a session exactly when it is the session's digest in
/// hexadecimal, whatever the case of its letters.
pub proof fn lemma_token_is_the_digest(value: Seq<char>, session: Digest)
    ensures
        cookies::is_token_of(value, session@) <==> text::ascii_lowercase(value)
            == digest::hex_text(session@),
{
    let token = digest::hex_text(session@);
    let lower = text::ascii_lowercase(value);
    assert(token.len() == 64);
    digest::lemma_hex_round_trip(session);
    if cookies::is_token_of(value, session@) {
        assert forall|i: int| 0 <= i < 64 implies lower[i] == token[i] by {
            let n = i / 2;
            let high = digest::hex_value(value[2 * n]);
            let low = digest::hex_value(value[2 * n + 1]);
            assert(0 <= digest::hex_value(value[2 * n]) && 0 <= digest::hex_value(
                value[2 * n + 1],
            ));
            assert(digest::hex_bytes(value)[n] == session@[n]);
            assert(session@[n] as int == 16 * high + low);
            assert((16 * high + low) / 16 == high && (16 * high + low) % 16 == low);
            lemma_lower_digit(value[2 * n]);
            lemma_lower_digit(value[2 * n + 1]);
            assert(i == 2 * n || i == 2 * n + 1);
        }
        assert(lower =~= token);
    }
    if lower == token {
        assert(lower.len() == value.len());
        digest::lemma_hex_text_digits(session@);
        assert forall|i: int| 0 <= i < 64 implies 0 <= #[trigger] digest::hex_value(value[i])
            && digest::hex_value(value[i]) == digest::hex_value(token[i]) by {
            assert(lower[i] == text::ascii_lower(value[i]));
            assert(token[i] == lower[i]);
        }
        assert(digest::hex_bytes(value) =~= digest::hex_bytes(token)) by {
            assert forall|n: int| 0 <= n < 32 implies digest::hex_bytes(value)[n]
                == digest::hex_bytes(token)[n] by {
                assert(digest::hex_value(value[2 * n]) == digest::hex_value(token[2 * n]));
                assert(digest::hex_value(value[2 * n + 1]) == digest::hex_value(token[2 * n + 1]));
            }
        }
    }
}

proof fn lemma_lower_digit(c: char)
    requires
        0 <= digest::hex_value(c),
    ensures
        text::ascii_lower(c) == digest::hex_digit(digest::hex_value(c)),
{
}

/// A request is authenticated exactly when one of its cookies is named `mba` and
/// spells, in hexadecimal of any case, the digest of one of the sessions.
pub proof fn lemma_authentication(
    cookies: Seq<cookies::CookieText>,
    session: Digest,
    sessions: Seq<Digest>,
)
    ensures
        cookies::opens(cookies, session@) <==> exists|i: int|
            0 <= i < cookies.len() && (#[trigger] cookies[i]).name == "mba"@
                && text::ascii_lowercase(cookies[i].value) == digest::hex_text(session@),
        cookies::opens_any(cookies, cookies::digest_views(sessions)) <==> exists|i: int, k: int|
            0 <= i < cookies.len() && 0 <= k < sessions.len() && (#[trigger] cookies[i]).name
                == "mba"@ && text::ascii_lowercase(cookies[i].value) == digest::hex_text(
                (#[trigger] sessions[k])@,
            ),
{
    lemma_opens(cookies, session);
    let digests = cookies::digest_views(sessions);
    if cookies::opens_any(cookies, digests) {
        let k = choose|k: int|
            0 <= k < digests.len() && cookies::opens(cookies, #[trigger] digests[k]);
        assert(digests[k] == sessions[k]@);
        lemma_opens(cookies, sessions[k]);
        let i = choose|i: int|
            0 <= i < cookies.len() && (#[trigger] cookies[i]).name == "mba"@
                && text::ascii_lowercase(cookies[i].value) == digest::hex_text(sessions[k]@);
        assert(cookies[i].name == "mba"@ && text::ascii_lowercase(cookies[i].value)
            == digest::hex_text(sessions[k]@));
    }
    if exists|i: int, k: int|
        0 <= i < cookies.len() && 0 <= k < sessions.len() && (#[trigger] cookies[i]).name == "mba"@
            && text::ascii_lowercase(cookies[i].value) == digest::hex_text(
            (#[trigger] sessions[k])@,
        ) {
        let (i, k) = choose|i: int, k: int|
            0 <= i < cookies.len() && 0 <= k < sessions.len() && (#[trigger] cookies[i]).name
                == "mba"@ && text::ascii_lowercase(cookies[i].value) == digest::hex_text(
                (#[trigger] sessions[k])@,
            );
        lemma_opens(cookies, sessions[k]);
        assert(cookies::opens(cookies, digests[k]));
    }
}

proof fn lemma_opens(cookies: Seq<cookies::CookieText>, session: Digest)
    ensures
        cookies::opens(cookies, session@) <==> exists|i: int|
            0 <= i < cookies.len() && (#[trigger] cookies[i]).name == "mba"@
                && text::ascii_lowercase(cookies[i].value) == digest::hex_text(session@),
{
    assert forall|i: int| 0 <= i < cookies.len() implies (cookies::is_ours(#[trigger] cookies[i])
        && cookies::is_token_of(cookies[i].value, session@) <==> cookies[i].name == "mba"@
        && text::ascii_lowercase(cookies[i].value) == digest::hex_text(session@)) by {
        lemma_token_is_the_digest(cookies[i].value, session);
    }
}

/// Whether a reply is the password page: `401`, HTML, and nothing else.
pub open spec fn shows_page(reply: gate::ReplyText, page: Seq<char>) -> bool {
    &&& reply.status == 401
    &&& reply.content_type == Some("text/html; charset=utf-8"@)
    &&& reply.location is None
    &&& reply.set_cookie is None
    &&& reply.body == page
}

/// An unauthenticated request meets the page without a login error, the same on
/// every visit, unless it is a `POST`, whose form is read. It is never
/// forwarded.
pub proof fn lemma_unauthenticated_request_meets_the_plain_page(
    passwords: Seq<Seq<char>>,
    upstream: Seq<char>,
    address: Seq<char>,
    parsed: Option<address::AddressText>,
    template: Seq<char>,
    text: template::PageText,
    method: Seq<char>,
    step: Step,
)
    requires
        config::configured(passwords, upstream, address, parsed, template, text) matches Ok(
            settings,
        ) && gate::is_challenge(step, settings, method),
    ensures
        method == "POST"@ <==> step is ReadForm,
        method != "POST"@ <==> step is Answer,
        step matches Step::Answer(reply) ==> shows_page(
            reply@,
            template::page(template, text, false),
        ),
{
}

/// Whether a request is answered as a login that succeeded: `303` back to where
/// it went, to the character, or to `/` if it went nowhere, and the cookie of
/// the session.
pub open spec fn starts_session(
    reply: gate::ReplyText,
    location: Option<Seq<char>>,
    session: Seq<u8>,
    https: bool,
) -> bool {
    let cookie = "mba="@ + digest::hex_text(session)
        + "; HttpOnly; SameSite=Lax; Path=/; Max-Age=2592000"@;
    &&& reply.status == 303
    &&& location matches Some(target) ==> reply.location == Some(target)
    &&& location is None ==> reply.location == Some("/"@)
    &&& !https ==> reply.set_cookie == Some(cookie)
    &&& https ==> reply.set_cookie == Some(cookie + "; Secure"@)
    &&& reply.content_type is None
    &&& reply.body.len() == 0
}

/// The session cookie, in full.
pub proof fn lemma_session_cookie(session: Seq<u8>)
    ensures
        gate::session_cookie(session, false) == "mba="@ + digest::hex_text(session)
            + "; HttpOnly; SameSite=Lax; Path=/; Max-Age=2592000"@,
        gate::session_cookie(session, true) == gate::session_cookie(session, false) + "; Secure"@,
        gate::session_pair(session) == "mba="@ + digest::hex_text(session),
{
    reveal_strlit("mba");
    reveal_strlit("=");
    reveal_strlit("mba=");
    reveal_strlit("; HttpOnly; SameSite=Lax; Path=/; Max-Age=");
    reveal_strlit("; HttpOnly; SameSite=Lax; Path=/; Max-Age=2592000");
    reveal_strlit("; Secure");
    reveal_strlit("0123456789");
    reveal_strlit("2592000");
    reveal_with_fuel(text::decimal, 8);
    assert(text::decimal(2592000) =~= "2592000"@);
    assert("mba"@ + "="@ =~= "mba="@);
    assert(gate::session_pair(session) =~= "mba="@ + digest::hex_text(session));
    assert("; HttpOnly; SameSite=Lax; Path=/; Max-Age="@ + "2592000"@
        =~= "; HttpOnly; SameSite=Lax; Path=/; Max-Age=2592000"@);
    assert(gate::session_cookie(session, false) =~= "mba="@ + digest::hex_text(session)
        + "; HttpOnly; SameSite=Lax; Path=/; Max-Age=2592000"@);
    assert(gate::session_cookie(session, true) =~= gate::session_cookie(session, false)
        + "; Secure"@);
}

/// A successful login is answered with `303` to exactly where the request went.
pub proof fn lemma_login_returns_to_the_target(
    location: Option<Seq<char>>,
    session: Seq<u8>,
    https: bool,
)
    ensures
        starts_session(gate::session_reply(location, session, https), location, session, https),
{
    lemma_session_cookie(session);
}

/// The submitted password is that of the first field named `password`.
pub proof fn lemma_first_password_is_submitted(
    pairs: Seq<(Seq<char>, Seq<char>)>,
    password: Seq<char>,
)
    ensures
        gate::submitted_password(pairs) == Some(password) <==> exists|i: int|
            0 <= i < pairs.len() && (#[trigger] pairs[i]) == ("password"@, password) && forall|
                j: int,
            |
                0 <= j < i ==> (#[trigger] pairs[j]).0 != "password"@,
        gate::submitted_password(pairs) is None <==> forall|i: int|
            0 <= i < pairs.len() ==> (#[trigger] pairs[i]).0 != "password"@,
{
    lemma_first_field(pairs, "password"@, password);
}

/// The same of the bytes before they are decoded to text.
pub proof fn lemma_first_password_is_submitted_as_bytes(body: Seq<u8>, password: Seq<u8>)
    ensures
        ({
            let name = vstd::utf8::encode_utf8("password"@);
            let fields = encoding::form_fields(body);
            &&& gate::submitted_bytes(body) == Some(password) <==> exists|i: int|
                0 <= i < fields.len() && (#[trigger] fields[i]) == (name, password) && forall|
                    j: int,
                |
                    0 <= j < i ==> (#[trigger] fields[j]).0 != name
            &&& gate::submitted_bytes(body) is None <==> forall|i: int|
                0 <= i < fields.len() ==> (#[trigger] fields[i]).0 != name
        }),
{
    lemma_first_field(
        encoding::form_fields(body),
        vstd::utf8::encode_utf8("password"@),
        password,
    );
}

proof fn lemma_first_field<A>(fields: Seq<(Seq<A>, Seq<A>)>, name: Seq<A>, value: Seq<A>)
    ensures
        encoding::first_field(fields, name) == Some(value) <==> exists|i: int|
            0 <= i < fields.len() && (#[trigger] fields[i]) == (name, value) && forall|j: int|
                0 <= j < i ==> (#[trigger] fields[j]).0 != name,
        encoding::first_field(fields, name) is None <==> forall|i: int|
            0 <= i < fields.len() ==> (#[trigger] fields[i]).0 != name,
    decreases fields.len(),
{
    if fields.len() > 0 {
        let rest = fields.drop_first();
        lemma_first_field(rest, name, value);
        if fields[0].0 == name {
            if encoding::first_field(fields, name) == Some(value) {
                assert(fields[0] == (name, value));
            }
        } else {
            if encoding::first_field(fields, name) == Some(value) {
                let i = choose|i: int|
                    0 <= i < rest.len() && (#[trigger] rest[i]) == (name, value) && forall|j: int|
                        0 <= j < i ==> (#[trigger] rest[j]).0 != name;
                assert(fields[i + 1] == (name, value));
                assert forall|j: int| 0 <= j < i + 1 implies (#[trigger] fields[j]).0 != name by {
                    if j > 0 {
                        assert(rest[j - 1] == fields[j]);
                    }
                }
            }
            if exists|i: int|
                0 <= i < fields.len() && (#[trigger] fields[i]) == (name, value) && forall|j: int|
                    0 <= j < i ==> (#[trigger] fields[j]).0 != name {
                let i = choose|i: int|
                    0 <= i < fields.len() && (#[trigger] fields[i]) == (name, value) && forall|
                        j: int,
                    |
                        0 <= j < i ==> (#[trigger] fields[j]).0 != name;
                assert(i > 0);
                assert(rest[i - 1] == (name, value));
                assert forall|j: int| 0 <= j < i - 1 implies (#[trigger] rest[j]).0 != name by {
                    assert(rest[j] == fields[j + 1]);
                }
            }
            if encoding::first_field(fields, name) is None {
                assert forall|i: int| 0 <= i < fields.len() implies (#[trigger] fields[i]).0
                    != name by {
                    if i > 0 {
                        assert(rest[i - 1] == fields[i]);
                    }
                }
            }
            if forall|i: int| 0 <= i < fields.len() ==> (#[trigger] fields[i]).0 != name {
                assert forall|i: int| 0 <= i < rest.len() implies (#[trigger] rest[i]).0 != name by {
                    assert(rest[i] == fields[i + 1]);
                }
            }
        }
    }
}

/// A password is answered with a session of its own digest if that is one of the
/// service's, and with the wall otherwise.
pub proof fn lemma_password_is_answered(
    settings: config::Settings,
    https: bool,
    location: Option<Seq<char>>,
    password: Option<Seq<char>>,
)
    ensures
        ({
            let reply = gate::password_reply(settings, https, location, password);
            match password {
                Some(p) => {
                    let session = digest::blake3_digest(vstd::utf8::encode_utf8(p));
                    if exists|i: int|
                        0 <= i < settings.sessions.len() && #[trigger] settings.sessions[i]
                            == session {
                        starts_session(reply, location, session, https)
                    } else {
                        shows_page(reply, settings.wall)
                    }
                },
                None => shows_page(reply, settings.wall),
            }
        }),
{
    if let Some(p) = password {
        lemma_login_returns_to_the_target(location, config::password_digest(p), https);
    }
}

/// A login form is answered by its password. One of more than 8192 bytes, or
/// that could not be read, is answered with `413` and nothing else.
pub proof fn lemma_login_is_answered(
    settings: config::Settings,
    https: bool,
    location: Option<Seq<char>>,
    body: Option<Seq<u8>>,
)
    ensures
        ({
            let reply = gate::login_reply(settings, https, location, body);
            if body matches Some(b) && b.len() <= 8192 {
                reply == gate::password_reply(
                    settings,
                    https,
                    location,
                    gate::submitted_password(encoding::form_pairs(body->0)),
                )
            } else {
                &&& reply.status == 413
                &&& reply.content_type is None
                &&& reply.location is None
                &&& reply.set_cookie is None
                &&& reply.body.len() == 0
            }
        }),
{
}

/// The wall as a reply.
pub proof fn lemma_wall_is_answered(wall: Seq<char>)
    ensures
        shows_page(gate::wall_reply(wall), wall),
{
}

/// What a request's own values are taken for: themselves.
pub proof fn lemma_request_views(
    cookies: Seq<cookies::CookiePair>,
    sessions: Seq<Digest>,
    pairs: Seq<(String, String)>,
    body: Option<&[u8]>,
    location: Option<&str>,
    password: Option<String>,
    reply: gate::Reply,
)
    ensures
        cookies::cookie_texts(cookies).len() == cookies.len(),
        forall|i: int|
            0 <= i < cookies.len() ==> (#[trigger] cookies::cookie_texts(cookies)[i])
                == (cookies::CookieText {
                name: cookies[i].name@,
                value: cookies[i].value@,
                raw: cookies[i].raw@,
            }),
        cookies::digest_views(sessions).len() == sessions.len(),
        forall|i: int|
            0 <= i < sessions.len() ==> #[trigger] cookies::digest_views(sessions)[i]
                == sessions[i].bytes@,
        encoding::pair_views(pairs).len() == pairs.len(),
        forall|i: int|
            0 <= i < pairs.len() ==> #[trigger] encoding::pair_views(pairs)[i] == (
                pairs[i].0@,
                pairs[i].1@,
            ),
        body matches Some(b) ==> gate::body_view(body) == Some(b@),
        body is None ==> gate::body_view(body) is None,
        location matches Some(l) ==> text::str_view(location) == Some(l@),
        location is None ==> text::str_view(location) is None,
        password matches Some(p) ==> text::string_view(password) == Some(p@),
        password is None ==> text::string_view(password) is None,
        reply@.status == reply.status,
        reply@.body == reply.body@,
        reply@.location is None <==> reply.location is None,
        reply.location matches Some(l) ==> reply@.location == Some(l@),
        reply@.content_type is None <==> reply.content_type is None,
        reply.content_type matches Some(t) ==> reply@.content_type == Some(t@),
        reply@.set_cookie is None <==> reply.set_cookie is None,
        reply.set_cookie matches Some(c) ==> reply@.set_cookie == Some(c@),
{
}

} // verus!
