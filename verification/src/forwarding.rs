//! Forwarding headers: what the upstream is told of the request's origin.

use crate::cookies;
use crate::cookies::CookiePair;
use crate::headers;
use crate::headers::HeadersFull;
use crate::text;
use axum::http::{HeaderMap, HeaderValue};
use vstd::prelude::*;

verus! {

/// Field that carries the request's host.
pub const HOST: &'static str = "host";

pub const X_FORWARDED_HOST: &'static str = "x-forwarded-host";

pub const X_FORWARDED_PROTO: &'static str = "x-forwarded-proto";

pub const X_FORWARDED_FOR: &'static str = "x-forwarded-for";

pub const FORWARDED: &'static str = "forwarded";

/// Whether a field's value says `https`: visible ASCII that, without
/// surrounding white space, is `https` in any case.
pub open spec fn says_https(value: Seq<u8>) -> bool {
    &&& headers::is_visible_ascii(value)
    &&& text::ascii_lowercase(text::trimmed(headers::ascii_text(value))) == "https"@
}

/// Whether the effective scheme is HTTPS: the inbound `X-Forwarded-Proto` is a
/// single value, and says so.
pub open spec fn https_fields(fields: Map<Seq<char>, Seq<Seq<u8>>>) -> bool {
    let values = headers::field_values(fields, X_FORWARDED_PROTO@);
    values.len() == 1 && says_https(values[0])
}

/// The name of the effective scheme.
pub open spec fn scheme_name(https: bool) -> Seq<char> {
    if https {
        "https"@
    } else {
        "http"@
    }
}

/// The host that the request was sent to: its authority, if a header value can
/// hold it, or else its first `Host`.
pub open spec fn observed_host(
    fields: Map<Seq<char>, Seq<Seq<u8>>>,
    authority: Option<Seq<char>>,
) -> Option<Seq<u8>> {
    match authority {
        Some(a) if headers::is_header_value(vstd::utf8::encode_utf8(a)) => Some(
            vstd::utf8::encode_utf8(a),
        ),
        _ => headers::first_value(fields, HOST@),
    }
}

/// Whether the observed host is marked as sensitive: an authority is not, and a
/// `Host` is as it came.
pub open spec fn observed_mark(
    marks: Map<Seq<char>, Seq<bool>>,
    authority: Option<Seq<char>>,
) -> bool {
    match authority {
        Some(a) if headers::is_header_value(vstd::utf8::encode_utf8(a)) => false,
        _ => headers::first_mark(marks, HOST@),
    }
}

/// What is left without the client's address and the claimed host.
pub open spec fn cleared<V>(fields: Map<Seq<char>, V>) -> Map<Seq<char>, V> {
    fields.remove(X_FORWARDED_FOR@).remove(FORWARDED@).remove(X_FORWARDED_HOST@)
}

/// The same with the observed host.
pub open spec fn hosted_fields(
    fields: Map<Seq<char>, Seq<Seq<u8>>>,
    authority: Option<Seq<char>>,
) -> Map<Seq<char>, Seq<Seq<u8>>> {
    match observed_host(fields, authority) {
        Some(host) => cleared(fields).insert(X_FORWARDED_HOST@, seq![host]),
        None => cleared(fields),
    }
}

/// The marks of these fields.
pub open spec fn hosted_marks(
    fields: Map<Seq<char>, Seq<Seq<u8>>>,
    marks: Map<Seq<char>, Seq<bool>>,
    authority: Option<Seq<char>>,
) -> Map<Seq<char>, Seq<bool>> {
    match observed_host(fields, authority) {
        Some(_) => cleared(marks).insert(X_FORWARDED_HOST@, seq![observed_mark(marks, authority)]),
        None => cleared(marks),
    }
}

/// The fields of an outgoing request: no client address, the observed host and
/// the effective scheme, and everything else as it came.
pub open spec fn forwarded_fields(
    fields: Map<Seq<char>, Seq<Seq<u8>>>,
    authority: Option<Seq<char>>,
) -> Map<Seq<char>, Seq<Seq<u8>>> {
    hosted_fields(fields, authority).insert(
        X_FORWARDED_PROTO@,
        seq![vstd::utf8::encode_utf8(scheme_name(https_fields(fields)))],
    )
}

/// The marks of these fields.
pub open spec fn forwarded_marks(
    fields: Map<Seq<char>, Seq<Seq<u8>>>,
    marks: Map<Seq<char>, Seq<bool>>,
    authority: Option<Seq<char>>,
) -> Map<Seq<char>, Seq<bool>> {
    hosted_marks(fields, marks, authority).insert(X_FORWARDED_PROTO@, seq![false])
}

/// The fields with the outgoing cookies in place of the request's.
pub open spec fn stripped_fields(
    fields: Map<Seq<char>, Seq<Seq<u8>>>,
    cookies: Seq<cookies::CookieText>,
) -> Map<Seq<char>, Seq<Seq<u8>>> {
    match cookies::outgoing_cookies(cookies) {
        Some(value) => fields.insert(
            cookies::COOKIE_FIELD@,
            seq![vstd::utf8::encode_utf8(value)],
        ),
        None => fields.remove(cookies::COOKIE_FIELD@),
    }
}

/// The marks of these fields.
pub open spec fn stripped_marks(
    marks: Map<Seq<char>, Seq<bool>>,
    cookies: Seq<cookies::CookieText>,
) -> Map<Seq<char>, Seq<bool>> {
    match cookies::outgoing_cookies(cookies) {
        Some(_) => marks.insert(cookies::COOKIE_FIELD@, seq![false]),
        None => marks.remove(cookies::COOKIE_FIELD@),
    }
}

/// The outgoing fields of an authenticated request with these cookies.
pub open spec fn sanitized_fields(
    fields: Map<Seq<char>, Seq<Seq<u8>>>,
    authority: Option<Seq<char>>,
    cookies: Seq<cookies::CookieText>,
) -> Map<Seq<char>, Seq<Seq<u8>>> {
    forwarded_fields(stripped_fields(fields, cookies), authority)
}

/// The marks of these fields.
pub open spec fn sanitized_marks(
    fields: Map<Seq<char>, Seq<Seq<u8>>>,
    marks: Map<Seq<char>, Seq<bool>>,
    authority: Option<Seq<char>>,
    cookies: Seq<cookies::CookieText>,
) -> Map<Seq<char>, Seq<bool>> {
    forwarded_marks(stripped_fields(fields, cookies), stripped_marks(marks, cookies), authority)
}

/// Whether the headers are `before` rewritten for the upstream.
pub open spec fn is_rewritten(
    before: HeaderMap<HeaderValue>,
    after: HeaderMap<HeaderValue>,
    authority: Option<Seq<char>>,
) -> bool {
    let fields = headers::header_fields(before);
    let marks = headers::header_marks(before);
    &&& headers::header_fields(after) == forwarded_fields(fields, authority)
    &&& headers::header_marks(after) == forwarded_marks(fields, marks, authority)
}

/// Whether the headers are `before` sanitized for the upstream.
pub open spec fn is_sanitized(
    before: HeaderMap<HeaderValue>,
    after: HeaderMap<HeaderValue>,
    authority: Option<Seq<char>>,
    cookies: Seq<cookies::CookieText>,
) -> bool {
    let fields = headers::header_fields(before);
    let marks = headers::header_marks(before);
    &&& headers::header_fields(after) == sanitized_fields(fields, authority, cookies)
    &&& headers::header_marks(after) == sanitized_marks(fields, marks, authority, cookies)
}

/// Whether fields are what is left of `fields` when rewriting them is cut
/// short: cleared, with the observed host or without it.
pub open spec fn is_cut_short(
    fields: Map<Seq<char>, Seq<Seq<u8>>>,
    left: Map<Seq<char>, Seq<Seq<u8>>>,
    authority: Option<Seq<char>>,
) -> bool {
    left == cleared(fields) || left == hosted_fields(fields, authority)
}

/// The fields' names are ones that a header map can be asked for, and all
/// different.
pub(crate) proof fn lemma_field_names()
    ensures
        headers::is_field_name(HOST@),
        headers::is_field_name(X_FORWARDED_HOST@),
        headers::is_field_name(X_FORWARDED_PROTO@),
        headers::is_field_name(X_FORWARDED_FOR@),
        headers::is_field_name(FORWARDED@),
        X_FORWARDED_FOR@ != HOST@,
        X_FORWARDED_FOR@ != X_FORWARDED_HOST@,
        X_FORWARDED_FOR@ != X_FORWARDED_PROTO@,
        FORWARDED@ != HOST@,
        FORWARDED@ != X_FORWARDED_HOST@,
        FORWARDED@ != X_FORWARDED_PROTO@,
        FORWARDED@ != X_FORWARDED_FOR@,
        X_FORWARDED_HOST@ != HOST@,
        X_FORWARDED_HOST@ != X_FORWARDED_PROTO@,
        X_FORWARDED_PROTO@ != HOST@,
{
    reveal_strlit("host");
    reveal_strlit("x-forwarded-host");
    reveal_strlit("x-forwarded-proto");
    reveal_strlit("x-forwarded-for");
    reveal_strlit("forwarded");
    assert(X_FORWARDED_HOST@[12] == 'h');
    assert(X_FORWARDED_PROTO@[12] == 'p');
}

/// None of them is the cookie field's name.
pub(crate) proof fn lemma_cookie_field_is_different()
    ensures
        cookies::COOKIE_FIELD@ != HOST@,
        cookies::COOKIE_FIELD@ != X_FORWARDED_HOST@,
        cookies::COOKIE_FIELD@ != X_FORWARDED_PROTO@,
        cookies::COOKIE_FIELD@ != X_FORWARDED_FOR@,
        cookies::COOKIE_FIELD@ != FORWARDED@,
{
    reveal_strlit("cookie");
    reveal_strlit("host");
    reveal_strlit("x-forwarded-host");
    reveal_strlit("x-forwarded-proto");
    reveal_strlit("x-forwarded-for");
    reveal_strlit("forwarded");
    assert(cookies::COOKIE_FIELD@.len() == 6);
    assert(HOST@.len() == 4);
    assert(X_FORWARDED_HOST@.len() == 16);
    assert(X_FORWARDED_PROTO@.len() == 17);
    assert(X_FORWARDED_FOR@.len() == 15);
    assert(FORWARDED@.len() == 9);
}

/// Effective request scheme, by an exact, conservative rule: `https` only if
/// the inbound `X-Forwarded-Proto` is a *single* value that case-insensitively
/// equals `https`; everything else is `http` (absent, not visible ASCII, any
/// other token, or a comma-joined list like `https, http`).
pub fn forwarded_proto(headers: &HeaderMap<HeaderValue>) -> (proto: &'static str)
    ensures
        proto@ == scheme_name(https_fields(headers::header_fields(*headers))),
{
    if is_https(headers) {
        "https"
    } else {
        "http"
    }
}

/// Whether the effective request scheme is HTTPS. Drives the cookie `Secure`
/// flag and the forwarded proto, so they stay consistent.
pub fn is_https(headers: &HeaderMap<HeaderValue>) -> (https: bool)
    ensures
        https == https_fields(headers::header_fields(*headers)),
{
    proof {
        lemma_field_names();
    }
    let values = headers::get_all(headers, X_FORWARDED_PROTO);
    if values.len() != 1 {
        return false;
    }
    assert(headers::byte_views(values@)[0] == values@[0]@);
    match headers::visible_text(values[0].as_slice()) {
        Some(value) => {
            proof {
                reveal_strlit("https");
                assert(text::ascii_lowercase("https"@) =~= "https"@);
            }
            value.as_str().trim().eq_ignore_ascii_case("https")
        },
        None => false,
    }
}

/// Set the forwarding headers on an outgoing (authenticated) request.
///
/// An upstream may treat us as a proxy and trust our forwarding metadata, so we
/// don't relay client provenance we can't stand behind.
///
/// - **`X-Forwarded-For` / `Forwarded` are stripped.** On the direct-port
///   deployment an inbound value is attacker-controlled, and the client IP is
///   not synthesized (that's the front proxy's job). Leaving them would let a
///   client forge the IP that upstream ACLs, rate limits, and audit logs rely
///   on.
/// - **`X-Forwarded-Host`** is cleared, then re-set from the request's own
///   authority: the URI `:authority` **first** (HTTP/2's canonical target
///   field), falling back to the `Host` header (HTTP/1, where the URI has no
///   authority). Both are client-supplied, so this is not a trust boundary; the
///   point is coherence: the upstream gets a single `X-Forwarded-Host` equal to
///   the authority the request actually used. Clearing first means a
///   *separate* spoofed inbound `X-Forwarded-Host` never survives.
/// - **`X-Forwarded-Proto`** is normalized to the effective scheme.
///
/// # Errors
///
/// Returns [`HeadersFull`] if the map does not take one of the two headers. What
/// is left of it then is not to be forwarded.
pub fn rewrite_forwarding_headers(
    headers: &mut HeaderMap<HeaderValue>,
    authority: Option<&str>,
) -> (outcome: Result<(), HeadersFull>)
    ensures
        headers::has_room(headers::header_fields(*old(headers)), 2) ==> outcome is Ok,
        match outcome {
            Ok(()) => is_rewritten(*old(headers), *final(headers), text::str_view(authority)),
            Err(_) => is_cut_short(
                headers::header_fields(*old(headers)),
                headers::header_fields(*final(headers)),
                text::str_view(authority),
            ),
        },
{
    proof {
        lemma_field_names();
    }
    headers::remove(headers, X_FORWARDED_FOR);
    headers::remove(headers, FORWARDED);

    let given = match authority {
        Some(a) => headers::value_bytes(a),
        None => None,
    };
    let host = match given {
        Some(bytes) => Some((vstd::slice::slice_to_vec(bytes), false)),
        None => headers::get(headers, HOST),
    };
    headers::remove(headers, X_FORWARDED_HOST);
    if let Some((value, sensitive)) = host {
        match headers::insert(headers, X_FORWARDED_HOST, value.as_slice(), sensitive) {
            Ok(()) => {},
            Err(e) => {
                return Err(e);
            },
        }
    }
    let proto = forwarded_proto(headers);
    proof {
        reveal_strlit("https");
        reveal_strlit("http");
        headers::lemma_visible_value(proto@);
    }
    headers::insert(headers, X_FORWARDED_PROTO, proto.as_bytes(), false)
}

/// Rewrite the outgoing headers of an authenticated request: strip our own
/// `mba` cookie and set the forwarding headers. Header-only, so the body still
/// streams untouched. For HTTP/2 the authority lives on the URI, not a `Host`
/// header.
///
/// # Errors
///
/// Returns [`HeadersFull`] if the map does not take one of the headers. What is
/// left of it then is not to be forwarded.
pub fn sanitize_request_headers(
    headers: &mut HeaderMap<HeaderValue>,
    authority: Option<&str>,
    cookies: &[CookiePair],
) -> (outcome: Result<(), HeadersFull>)
    ensures
        headers::has_room(headers::header_fields(*old(headers)), 3) ==> outcome is Ok,
        match outcome {
            Ok(()) => is_sanitized(
                *old(headers),
                *final(headers),
                text::str_view(authority),
                cookies::cookie_texts(cookies@),
            ),
            Err(_) => {
                let fields = headers::header_fields(*old(headers));
                let left = headers::header_fields(*final(headers));
                left == fields || is_cut_short(
                    stripped_fields(fields, cookies::cookie_texts(cookies@)),
                    left,
                    text::str_view(authority),
                )
            },
        },
{
    proof {
        cookies::lemma_cookie_field();
    }
    match cookies::sanitized_cookie_header(cookies) {
        Some(value) => match headers::insert(
            headers,
            cookies::COOKIE_FIELD,
            value.as_str().as_bytes(),
            false,
        ) {
            Ok(()) => {},
            Err(e) => {
                return Err(e);
            },
        },
        None => headers::remove(headers, cookies::COOKIE_FIELD),
    }
    rewrite_forwarding_headers(headers, authority)
}

} // verus!
