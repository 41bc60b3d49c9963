//! Request cookies: which of them open a session, and which of them pass on to
//! the upstream.

use crate::digest;
use crate::digest::Digest;
use crate::encoding;
use crate::headers;
use crate::text;
use axum::http::{HeaderMap, HeaderValue};
use vstd::prelude::*;

verus! {

/// Session cookie name. Deliberately not `password`/`wall`: those words trip
/// iOS Safari's Intelligent Tracking Prevention, which silently drops the
/// cookie. `mba` also matches the `MBA_` env prefix.
pub const COOKIE_NAME: &'static str = "mba";

/// Name of the header field that carries the request's cookies.
pub const COOKIE_FIELD: &'static str = "cookie";

/// A single parsed request cookie: decoded name/value for classification
/// (matching the same decoding an attacker would exploit) plus the original
/// raw `name=value` substring for byte-faithful forwarding.
pub struct CookiePair {
    pub name: String,
    pub value: String,
    pub raw: String,
}

/// The texts of a `CookiePair`.
pub struct CookieText {
    pub name: Seq<char>,
    pub value: Seq<char>,
    pub raw: Seq<char>,
}

impl View for CookiePair {
    type V = CookieText;

    open spec fn view(&self) -> CookieText {
        CookieText { name: self.name@, value: self.value@, raw: self.raw@ }
    }
}

/// The texts of each cookie.
pub open spec fn cookie_texts(cookies: Seq<CookiePair>) -> Seq<CookieText> {
    cookies.map_values(|c: CookiePair| c@)
}

/// The cookies among the pieces of one field: those pieces that decode, each
/// without surrounding white space.
pub open spec fn piece_cookies(pieces: Seq<Seq<char>>) -> Seq<CookieText>
    decreases pieces.len(),
{
    if pieces.len() == 0 {
        Seq::empty()
    } else {
        let front = piece_cookies(pieces.drop_last());
        let raw = text::trimmed(pieces.last());
        match encoding::decoded_cookie(raw) {
            Some((name, value)) => front.push(CookieText { name, value, raw }),
            None => front,
        }
    }
}

/// The cookies of one field: none if its value is not visible ASCII.
pub open spec fn value_cookies(value: Seq<u8>) -> Seq<CookieText> {
    if headers::is_visible_ascii(value) {
        piece_cookies(text::split(headers::ascii_text(value), ';'))
    } else {
        Seq::empty()
    }
}

/// The cookies of several fields, one field after the other.
pub open spec fn field_cookies(values: Seq<Seq<u8>>) -> Seq<CookieText>
    decreases values.len(),
{
    if values.len() == 0 {
        Seq::empty()
    } else {
        field_cookies(values.drop_last()) + value_cookies(values.last())
    }
}

/// The cookies of a request.
pub open spec fn request_cookies(fields: Map<Seq<char>, Seq<Seq<u8>>>) -> Seq<CookieText> {
    field_cookies(headers::field_values(fields, COOKIE_FIELD@))
}

/// Whether the cookie is the library's own.
pub open spec fn is_ours(cookie: CookieText) -> bool {
    cookie.name == COOKIE_NAME@
}

/// Whether the text is the token of the session, in hexadecimal of either case.
pub open spec fn is_token_of(value: Seq<char>, session: Seq<u8>) -> bool {
    digest::is_hex_digest(value) && digest::hex_bytes(value) == session
}

/// Whether one of the cookies opens the session.
pub open spec fn opens(cookies: Seq<CookieText>, session: Seq<u8>) -> bool {
    exists|i: int|
        0 <= i < cookies.len() && is_ours(#[trigger] cookies[i]) && is_token_of(
            cookies[i].value,
            session,
        )
}

/// The bytes of each digest.
pub open spec fn digest_views(sessions: Seq<Digest>) -> Seq<Seq<u8>> {
    sessions.map_values(|d: Digest| d@)
}

/// Whether one of the cookies opens one of the sessions.
pub open spec fn opens_any(cookies: Seq<CookieText>, sessions: Seq<Seq<u8>>) -> bool {
    exists|i: int| 0 <= i < sessions.len() && opens(cookies, #[trigger] sessions[i])
}

/// The raw pairs that pass on to the upstream: those that are not the
/// library's own, in their order.
pub open spec fn kept_pairs(cookies: Seq<CookieText>) -> Seq<Seq<char>> {
    cookies.filter(|c: CookieText| !is_ours(c)).map_values(|c: CookieText| c.raw)
}

/// The outgoing `Cookie` header: the kept pairs, joined. None if there are
/// none, or if a header value cannot hold them.
pub open spec fn outgoing_cookies(cookies: Seq<CookieText>) -> Option<Seq<char>> {
    let joined = text::join(kept_pairs(cookies), "; "@);
    if kept_pairs(cookies).len() > 0 && headers::is_header_value(vstd::utf8::encode_utf8(joined)) {
        Some(joined)
    } else {
        None
    }
}

/// Append the cookies among the pieces of one field.
fn push_cookies(cookies: &mut Vec<CookiePair>, pieces: &Vec<String>)
    requires
        forall|i: int| 0 <= i < pieces@.len() ==> !(#[trigger] pieces@[i])@.contains(';'),
    ensures
        cookie_texts(final(cookies)@) == cookie_texts(old(cookies)@) + piece_cookies(
            text::views(pieces@),
        ),
{
    let ghost before = cookie_texts(cookies@);
    let ghost all = text::views(pieces@);
    let mut i: usize = 0;
    assert(before + piece_cookies(all.take(0)) =~= before);
    while i < pieces.len()
        invariant
            i <= pieces@.len(),
            all == text::views(pieces@),
            forall|j: int| 0 <= j < pieces@.len() ==> !(#[trigger] pieces@[j])@.contains(';'),
            cookie_texts(cookies@) == before + piece_cookies(all.take(i as int)),
        decreases pieces@.len() - i,
    {
        let raw = pieces[i].as_str().trim();
        proof {
            text::lemma_trimmed_without(pieces@[i as int]@, ';');
            assert(all.take(i + 1).drop_last() =~= all.take(i as int));
        }
        let ghost earlier = cookies@;
        match encoding::parse_encoded(raw) {
            Some((name, value)) => {
                cookies.push(CookiePair { name, value, raw: raw.to_owned() });
                assert(cookie_texts(cookies@) =~= cookie_texts(earlier).push(cookies@.last()@));
            },
            None => {},
        }
        assert(cookie_texts(cookies@) =~= before + piece_cookies(all.take(i + 1)));
        i = i + 1;
    }
    assert(all.take(i as int) =~= all);
}

/// Parse every `Cookie` header field into ordered pairs.
///
/// Malformed input is silently skipped: a field that is not visible ASCII, or
/// a pair that does not decode, never authenticates and is never forwarded (we
/// can't prove an undecodable pair isn't a smuggled `mba`).
pub fn parse_cookies(headers: &HeaderMap<HeaderValue>) -> (cookies: Vec<CookiePair>)
    ensures
        cookie_texts(cookies@) == request_cookies(headers::header_fields(*headers)),
{
    proof {
        lemma_cookie_field();
    }
    let values = headers::get_all(headers, COOKIE_FIELD);
    let ghost all = headers::byte_views(values@);
    let mut cookies: Vec<CookiePair> = Vec::new();
    let mut i: usize = 0;
    assert(cookie_texts(cookies@) =~= field_cookies(all.take(0)));
    while i < values.len()
        invariant
            i <= values@.len(),
            all == headers::byte_views(values@),
            cookie_texts(cookies@) == field_cookies(all.take(i as int)),
        decreases values@.len() - i,
    {
        assert(all.take(i + 1).drop_last() =~= all.take(i as int));
        let ghost earlier = cookie_texts(cookies@);
        if let Some(field) = headers::visible_text(values[i].as_slice()) {
            let pieces = text::split_on(field.as_str(), ';');
            proof {
                text::lemma_split_pieces(field@, ';');
                assert forall|j: int| 0 <= j < pieces@.len() implies !(
                #[trigger] pieces@[j])@.contains(';') by {
                    assert(text::views(pieces@)[j] == pieces@[j]@);
                }
            }
            push_cookies(&mut cookies, &pieces);
        }
        assert(cookie_texts(cookies@) =~= earlier + value_cookies(all[i as int]));
        i = i + 1;
    }
    assert(all.take(i as int) =~= all);
    cookies
}

/// The cookie field's name is one that a header map can be asked for.
pub(crate) proof fn lemma_cookie_field()
    ensures
        headers::is_field_name(COOKIE_FIELD@),
{
    reveal_strlit("cookie");
}

/// Constant-time check that a cookie value is the expected session token.
///
/// A non-hex value fails to parse and is rejected; `Digest`'s `==` is
/// constant-time.
pub fn cookie_matches_session(value: &str, session: &Digest) -> (r: bool)
    ensures
        r == is_token_of(value@, session@),
{
    match Digest::from_hex(value) {
        Some(presented) => presented == *session,
        None => false,
    }
}

/// Authenticated iff any `mba` cookie matches the expected digest.
pub fn authenticate(cookies: &[CookiePair], session: &Digest) -> (r: bool)
    ensures
        r == opens(cookie_texts(cookies@), session@),
{
    let ghost texts = cookie_texts(cookies@);
    let mut i: usize = 0;
    while i < cookies.len()
        invariant
            i <= cookies@.len(),
            texts == cookie_texts(cookies@),
            forall|j: int|
                0 <= j < i ==> !(is_ours(#[trigger] texts[j]) && is_token_of(
                    texts[j].value,
                    session@,
                )),
        decreases cookies@.len() - i,
    {
        let cookie = &cookies[i];
        assert(texts[i as int] == cookie@);
        if *cookie.name.as_str() == *COOKIE_NAME && cookie_matches_session(
            cookie.value.as_str(),
            session,
        ) {
            return true;
        }
        i = i + 1;
    }
    false
}

/// Authenticated iff any `mba` cookie matches any of the expected digests.
pub fn authenticate_any(cookies: &[CookiePair], sessions: &[Digest]) -> (r: bool)
    ensures
        r == opens_any(cookie_texts(cookies@), digest_views(sessions@)),
{
    let ghost digests = digest_views(sessions@);
    let mut i: usize = 0;
    while i < sessions.len()
        invariant
            i <= sessions@.len(),
            digests == digest_views(sessions@),
            forall|j: int| 0 <= j < i ==> !opens(cookie_texts(cookies@), #[trigger] digests[j]),
        decreases sessions@.len() - i,
    {
        assert(digests[i as int] == sessions@[i as int]@);
        if authenticate(cookies, &sessions[i]) {
            return true;
        }
        i = i + 1;
    }
    false
}

/// Rebuild the outgoing `Cookie` header from the raw non-`mba` pairs, in
/// original order with duplicates kept. `None` when nothing remains (the
/// header is then dropped). Application cookies are forwarded verbatim; only
/// our own `mba` is stripped, using the *same* decoded-name test as
/// authentication so a cookie good enough to authenticate cannot survive.
pub fn sanitized_cookie_header(cookies: &[CookiePair]) -> (header: Option<String>)
    ensures
        header is Some <==> outgoing_cookies(cookie_texts(cookies@)) is Some,
        header matches Some(h) ==> outgoing_cookies(cookie_texts(cookies@)) == Some(h@),
{
    let ghost texts = cookie_texts(cookies@);
    let mut joined = String::new();
    let mut empty = true;
    let mut i: usize = 0;
    proof {
        reveal(Seq::filter);
        assert(kept_pairs(texts.take(0)) =~= Seq::empty());
    }
    while i < cookies.len()
        invariant
            i <= cookies@.len(),
            texts == cookie_texts(cookies@),
            empty <==> kept_pairs(texts.take(i as int)).len() == 0,
            joined@ == text::join(kept_pairs(texts.take(i as int)), "; "@),
        decreases cookies@.len() - i,
    {
        let cookie = &cookies[i];
        let ghost earlier = kept_pairs(texts.take(i as int));
        proof {
            lemma_kept_pairs_step(texts.take(i + 1));
            assert(texts.take(i + 1).drop_last() =~= texts.take(i as int));
            assert(texts[i as int] == cookie@);
        }
        if !(*cookie.name.as_str() == *COOKIE_NAME) {
            if !empty {
                joined.append("; ");
            }
            joined.append(cookie.raw.as_str());
            empty = false;
            proof {
                assert(earlier.push(cookie.raw@).drop_last() =~= earlier);
                assert(joined@ =~= text::join(earlier.push(cookie.raw@), "; "@));
            }
        }
        i = i + 1;
    }
    assert(texts.take(i as int) =~= texts);
    if empty {
        return None;
    }
    match headers::value_bytes(joined.as_str()) {
        Some(_) => Some(joined),
        None => None,
    }
}

/// The last cookie adds its pair to the kept ones, unless it is the library's
/// own.
proof fn lemma_kept_pairs_step(cookies: Seq<CookieText>)
    requires
        cookies.len() > 0,
    ensures
        kept_pairs(cookies) == if is_ours(cookies.last()) {
            kept_pairs(cookies.drop_last())
        } else {
            kept_pairs(cookies.drop_last()).push(cookies.last().raw)
        },
{
    reveal(Seq::filter);
    let foreign = |c: CookieText| !is_ours(c);
    let raw = |c: CookieText| c.raw;
    let front = cookies.drop_last().filter(foreign);
    if !is_ours(cookies.last()) {
        assert(front.push(cookies.last()).map_values(raw) =~= front.map_values(raw).push(
            cookies.last().raw,
        ));
    }
}

} // verus!
