//! The authentication gate.
//!
//! Wraps the reverse proxy: authenticated requests pass through transparently
//! (body untouched); everything else meets the password wall. Only
//! header fields are read on the fast path, so streaming, `WebSockets`, and SSE
//! are preserved.

use crate::config;
use crate::config::Config;
use crate::cookies;
use crate::digest;
use crate::digest::Digest;
use crate::encoding;
use crate::forwarding;
use crate::headers;
use crate::headers::HeadersFull;
use crate::text;
use axum::http::{HeaderMap, HeaderValue};
use vstd::prelude::*;

verus! {

/// Session lifetime, in seconds: 30 days. Bounded (not "forever") because a
/// long `Max-Age` can also trigger iOS ITP.
pub const SESSION_MAX_AGE_SECS: u64 = 60 * 60 * 24 * 30;

/// Cap on the login form body that is read. This branch is public and
/// attacker-controlled; a password form is tiny, so 8 KiB is generous.
pub const MAX_LOGIN_BODY: usize = 8 * 1024;

/// Media type of the password page.
pub const HTML: &'static str = "text/html; charset=utf-8";

/// A response that does not come from the upstream.
pub struct Reply {
    pub status: u16,
    pub content_type: Option<String>,
    pub location: Option<String>,
    pub set_cookie: Option<String>,
    pub body: String,
}

/// The texts of a `Reply`.
pub struct ReplyText {
    pub status: u16,
    pub content_type: Option<Seq<char>>,
    pub location: Option<Seq<char>>,
    pub set_cookie: Option<Seq<char>>,
    pub body: Seq<char>,
}

impl View for Reply {
    type V = ReplyText;

    open spec fn view(&self) -> ReplyText {
        ReplyText {
            status: self.status,
            content_type: text::string_view(self.content_type),
            location: text::string_view(self.location),
            set_cookie: text::string_view(self.set_cookie),
            body: self.body@,
        }
    }
}

/// What is to be done with a request.
pub enum Step {
    /// Hand it to the upstream, with its rewritten headers and its own body.
    Forward,
    /// Read its body, at most `MAX_LOGIN_BODY` bytes, and handle the login.
    ReadForm,
    /// Answer it.
    Answer(Reply),
}

/// The password page, as a response: `401`, as HTML.
pub open spec fn wall_reply(wall: Seq<char>) -> ReplyText {
    ReplyText {
        status: 401,
        content_type: Some(HTML@),
        location: None,
        set_cookie: None,
        body: wall,
    }
}

/// The response to a login form that is too large: `413`, and nothing else.
pub open spec fn too_large_reply() -> ReplyText {
    ReplyText {
        status: 413,
        content_type: None,
        location: None,
        set_cookie: None,
        body: Seq::empty(),
    }
}

/// The response to a successful login: `303` to where the request went, and the
/// session's cookie.
pub open spec fn session_reply(
    location: Option<Seq<char>>,
    session: Seq<u8>,
    secure: bool,
) -> ReplyText {
    ReplyText {
        status: 303,
        content_type: None,
        location: Some(
            match location {
                Some(location) => location,
                None => "/"@,
            },
        ),
        set_cookie: Some(session_cookie(session, secure)),
        body: Seq::empty(),
    }
}

/// The pair that opens a session.
pub open spec fn session_pair(session: Seq<u8>) -> Seq<char> {
    cookies::COOKIE_NAME@ + "="@ + digest::hex_text(session)
}

/// The `Set-Cookie` value that opens a session.
pub open spec fn session_cookie(session: Seq<u8>, secure: bool) -> Seq<char> {
    session_pair(session) + "; HttpOnly; SameSite=Lax; Path=/; Max-Age="@ + text::decimal(
        SESSION_MAX_AGE_SECS as nat,
    ) + if secure {
        "; Secure"@
    } else {
        Seq::empty()
    }
}

/// The password that a form submits, if it submits one: the first field of that
/// name.
pub open spec fn submitted_password(pairs: Seq<(Seq<char>, Seq<char>)>) -> Option<Seq<char>> {
    encoding::first_field(pairs, "password"@)
}

/// The same before it is decoded to text.
pub open spec fn submitted_bytes(body: Seq<u8>) -> Option<Seq<u8>> {
    encoding::first_field(
        encoding::form_fields(body),
        vstd::utf8::encode_utf8("password"@),
    )
}

/// The response to a submitted password. One whose digest is a session's opens
/// that session; anything else meets the wall.
pub open spec fn password_reply(
    settings: config::Settings,
    https: bool,
    location: Option<Seq<char>>,
    password: Option<Seq<char>>,
) -> ReplyText {
    match password {
        Some(password) => if settings.sessions.contains(config::password_digest(password)) {
            session_reply(location, config::password_digest(password), https)
        } else {
            wall_reply(settings.wall)
        },
        None => wall_reply(settings.wall),
    }
}

/// The response to a login. Of a body that is too large, or could not be read,
/// there is nothing to verify.
pub open spec fn login_reply(
    settings: config::Settings,
    https: bool,
    location: Option<Seq<char>>,
    body: Option<Seq<u8>>,
) -> ReplyText {
    match body {
        Some(body) if body.len() <= MAX_LOGIN_BODY => password_reply(
            settings,
            https,
            location,
            submitted_password(encoding::form_pairs(body)),
        ),
        _ => too_large_reply(),
    }
}

/// The bytes of an optional body.
pub open spec fn body_view(body: Option<&[u8]>) -> Option<Seq<u8>> {
    match body {
        Some(body) => Some(body@),
        None => None,
    }
}

/// The password page: `401` with an explicit HTML content type, and
/// deliberately no `WWW-Authenticate` (which would pop the browser's native
/// Basic-auth dialog, the very UX we're replacing).
pub fn wall_response(config: &Config) -> (reply: Reply)
    ensures
        reply@ == wall_reply(config@.wall),
{
    Reply {
        status: 401,
        content_type: Some(HTML.to_owned()),
        location: None,
        set_cookie: None,
        body: config.wall().to_owned(),
    }
}

/// Build the `Set-Cookie` value by hand.
///
/// Every dynamic part is our own hex token, so there is no header-injection
/// surface, and `Max-Age` is a plain integer, so no datetime is needed.
/// `SameSite=Lax` and the bounded `Max-Age` avoid iOS ITP dropping the cookie;
/// `Secure` is set only under HTTPS so the browser doesn't drop the cookie on
/// the plain-HTTP path.
pub fn build_set_cookie(session: &Digest, secure: bool) -> (cookie: String)
    ensures
        cookie@ == session_cookie(session@, secure),
{
    let mut cookie = String::new();
    cookie.append(cookies::COOKIE_NAME);
    cookie.append("=");
    cookie.append(session.to_hex().as_str());
    cookie.append("; HttpOnly; SameSite=Lax; Path=/; Max-Age=");
    cookie.append(text::decimal_text(SESSION_MAX_AGE_SECS).as_str());
    if secure {
        cookie.append("; Secure");
    }
    assert(cookie@ =~= session_cookie(session@, secure));
    cookie
}

/// Session cookie + `303` back to the originally requested URL
/// (Post/Redirect/Get), so the follow-up GET is proxied through.
pub fn login_success(
    headers: &HeaderMap<HeaderValue>,
    location: Option<&str>,
    session: &Digest,
) -> (reply: Reply)
    ensures
        reply@ == session_reply(
            text::str_view(location),
            session@,
            forwarding::https_fields(headers::header_fields(*headers)),
        ),
{
    let location = match location {
        Some(location) => location,
        None => "/",
    };
    Reply {
        status: 303,
        content_type: None,
        location: Some(location.to_owned()),
        set_cookie: Some(build_set_cookie(session, forwarding::is_https(headers))),
        body: String::new(),
    }
}

/// The `password` field of a form's fields: the first one.
pub fn find_password(pairs: &[(String, String)]) -> (password: Option<&str>)
    ensures
        text::str_view(password) == submitted_password(encoding::pair_views(pairs@)),
{
    let ghost all = encoding::pair_views(pairs@);
    let mut i: usize = 0;
    assert(all.skip(0) =~= all);
    while i < pairs.len()
        invariant
            i <= pairs@.len(),
            all == encoding::pair_views(pairs@),
            submitted_password(all) == submitted_password(all.skip(i as int)),
        decreases pairs@.len() - i,
    {
        assert(all.skip(i as int).first() == (pairs@[i as int].0@, pairs@[i as int].1@));
        assert(all.skip(i as int).drop_first() =~= all.skip(i + 1));
        if *pairs[i].0.as_str() == *"password" {
            return Some(pairs[i].1.as_str());
        }
        i = i + 1;
    }
    None
}

/// Extract the `password` field from an `application/x-www-form-urlencoded`
/// body. Lenient: a body that isn't form data simply yields `None`.
pub fn extract_submitted_password(body: &[u8]) -> (password: Option<String>)
    ensures
        text::string_view(password) == submitted_password(encoding::form_pairs(body@)),
        password is Some <==> submitted_bytes(body@) is Some,
        password matches Some(p) ==> encoding::decodes_to(submitted_bytes(body@)->0, p@),
{
    let pairs = encoding::parse_form(body);
    proof {
        reveal_strlit("password");
        encoding::lemma_first_field_decodes(
            encoding::form_fields(body@),
            encoding::pair_views(pairs@),
            "password"@,
        );
    }
    match find_password(pairs.as_slice()) {
        Some(password) => Some(password.to_owned()),
        None => None,
    }
}

/// Constant-time check that the submitted password hashes to the digest.
pub fn password_matches(password: &str, session: &Digest) -> (r: bool)
    ensures
        r == (config::password_digest(password@) == session@),
{
    Digest::of_password(password) == *session
}

/// The session that a digest opens, if it opens one. Each comparison is
/// constant-time.
pub fn find_session(presented: &Digest, sessions: &[Digest]) -> (session: Option<Digest>)
    ensures
        session is Some <==> cookies::digest_views(sessions@).contains(presented@),
        session matches Some(s) ==> s@ == presented@,
{
    let ghost digests = cookies::digest_views(sessions@);
    let mut i: usize = 0;
    while i < sessions.len()
        invariant
            i <= sessions@.len(),
            digests == cookies::digest_views(sessions@),
            forall|j: int| 0 <= j < i ==> digests[j] != presented@,
        decreases sessions@.len() - i,
    {
        assert(digests[i as int] == sessions@[i as int]@);
        if *presented == sessions[i] {
            return Some(sessions[i]);
        }
        i = i + 1;
    }
    None
}

/// Handle an unauthenticated `POST`: verify the submitted password and either
/// start a session or re-serve the wall. `body` is missing if it could not be
/// read; one that is longer than `MAX_LOGIN_BODY` is treated alike. It is never
/// forwarded upstream.
pub fn handle_login(
    config: &Config,
    headers: &HeaderMap<HeaderValue>,
    location: Option<&str>,
    body: Option<&[u8]>,
) -> (reply: Reply)
    ensures
        reply@ == login_reply(
            config@,
            forwarding::https_fields(headers::header_fields(*headers)),
            text::str_view(location),
            body_view(body),
        ),
        body matches Some(b) ==> (b@.len() <= MAX_LOGIN_BODY ==> (submitted_bytes(b@) matches Some(
            bytes,
        ) ==> (vstd::utf8::valid_utf8(bytes) ==> reply@ == password_reply(
            config@,
            forwarding::https_fields(headers::header_fields(*headers)),
            text::str_view(location),
            Some(vstd::utf8::decode_utf8(bytes)),
        )))),
        body matches Some(b) ==> (b@.len() <= MAX_LOGIN_BODY ==> (submitted_bytes(b@) is None
            ==> reply@ == wall_reply(config@.wall))),
{
    let body = match body {
        Some(body) if body.len() <= MAX_LOGIN_BODY => body,
        _ => {
            return Reply {
                status: 413,
                content_type: None,
                location: None,
                set_cookie: None,
                body: String::new(),
            };
        },
    };
    match extract_submitted_password(body) {
        Some(password) => {
            let presented = Digest::of_password(password.as_str());
            match find_session(&presented, config.sessions()) {
                Some(session) => login_success(headers, location, &session),
                None => wall_response(config),
            }
        },
        None => wall_response(config),
    }
}

/// What is done with an unauthenticated request: the form of a `POST` is read,
/// and anything else is answered with the wall.
pub open spec fn is_challenge(step: Step, settings: config::Settings, method: Seq<char>) -> bool {
    match step {
        Step::Forward => false,
        Step::ReadForm => method == "POST"@,
        Step::Answer(reply) => method != "POST"@ && reply@ == wall_reply(settings.wall),
    }
}

/// Challenge an unauthenticated request.
fn challenge(config: &Config, method: &str) -> (step: Step)
    ensures
        is_challenge(step, config@, method@),
{
    if *method == *"POST" {
        return Step::ReadForm;
    }
    Step::Answer(wall_response(config))
}

/// Authenticate, then either let the request pass on or answer it.
///
/// On the authenticated path the headers are rewritten for the upstream and the
/// body is not touched; only the unauthenticated `POST` branch reads the body,
/// which never reaches the upstream.
///
/// # Errors
///
/// Returns [`HeadersFull`] if the request is authenticated and its headers do
/// not take what is set for the upstream. It cannot be forwarded then.
pub fn gate(
    config: &Config,
    method: &str,
    headers: &mut HeaderMap<HeaderValue>,
    authority: Option<&str>,
) -> (step: Result<Step, HeadersFull>)
    ensures
        ({
            let fields = headers::header_fields(*old(headers));
            let cookies = cookies::request_cookies(fields);
            if cookies::opens_any(cookies, config@.sessions) {
                &&& headers::has_room(fields, 3) ==> step is Ok
                &&& match step {
                    Ok(s) => s is Forward && forwarding::is_sanitized(
                        *old(headers),
                        *final(headers),
                        text::str_view(authority),
                        cookies,
                    ),
                    Err(_) => {
                        let left = headers::header_fields(*final(headers));
                        left == fields || forwarding::is_cut_short(
                            forwarding::stripped_fields(fields, cookies),
                            left,
                            text::str_view(authority),
                        )
                    },
                }
            } else {
                &&& *final(headers) == *old(headers)
                &&& step matches Ok(s) && is_challenge(s, config@, method@)
            }
        }),
{
    let cookies = cookies::parse_cookies(headers);
    if cookies::authenticate_any(cookies.as_slice(), config.sessions()) {
        return match forwarding::sanitize_request_headers(headers, authority, cookies.as_slice()) {
            Ok(()) => Ok(Step::Forward),
            Err(e) => Err(e),
        };
    }
    Ok(challenge(config, method))
}

} // verus!
