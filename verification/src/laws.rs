//! What holds of every request.

use crate::address;
use crate::config;
use crate::cookies;
use crate::digest;
use crate::digest::Digest;
use crate::encoding;
use crate::forwarding;
use crate::gate;
use crate::headers;
use crate::template;
use crate::text;
use vstd::prelude::*;

verus! {

/// What holds of a cookie that was parsed out of a request: its raw pair is
/// visible ASCII without `;` and without surrounding white space, and decodes
/// to its name and value.
pub open spec fn is_parsed(cookie: cookies::CookieText) -> bool {
    &&& encoding::decoded_cookie(cookie.raw) == Some((cookie.name, cookie.value))
    &&& text::is_trimmed(cookie.raw)
    &&& !cookie.raw.contains(';')
    &&& forall|i: int|
        0 <= i < cookie.raw.len() ==> headers::is_visible_char(#[trigger] cookie.raw[i])
}

/// Whether that holds of each cookie.
pub open spec fn all_parsed(cookies: Seq<cookies::CookieText>) -> bool {
    forall|i: int| 0 <= i < cookies.len() ==> is_parsed(#[trigger] cookies[i])
}

/// Whether a text is visible ASCII throughout.
spec fn is_visible_text(s: Seq<char>) -> bool {
    forall|i: int| 0 <= i < s.len() ==> headers::is_visible_char(#[trigger] s[i])
}

proof fn lemma_visible_trimmed(s: Seq<char>)
    requires
        is_visible_text(s),
    ensures
        is_visible_text(text::trimmed(s)),
{
    lemma_visible_trim_start(s);
    lemma_visible_trim_end(text::trim_start(s));
}

proof fn lemma_visible_trim_start(s: Seq<char>)
    requires
        is_visible_text(s),
    ensures
        is_visible_text(text::trim_start(s)),
    decreases s.len(),
{
    if s.len() > 0 && text::is_white_space(s.first()) {
        lemma_visible_trim_start(s.drop_first());
    }
}

proof fn lemma_visible_trim_end(s: Seq<char>)
    requires
        is_visible_text(s),
    ensures
        is_visible_text(text::trim_end(s)),
    decreases s.len(),
{
    if s.len() > 0 && text::is_white_space(s.last()) {
        lemma_visible_trim_end(s.drop_last());
    }
}

proof fn lemma_visible_pieces(s: Seq<char>)
    requires
        is_visible_text(s),
    ensures
        forall|i: int|
            0 <= i < text::split(s, ';').len() ==> is_visible_text(#[trigger] text::split(s, ';')[i]),
    decreases s.len(),
{
    if s.len() > 0 {
        lemma_visible_pieces(s.drop_last());
        text::lemma_split_pieces(s.drop_last(), ';');
        let front = text::split(s.drop_last(), ';');
        assert(is_visible_text(front[front.len() - 1]));
    }
}

proof fn lemma_pieces_parse(pieces: Seq<Seq<char>>)
    requires
        forall|i: int|
            0 <= i < pieces.len() ==> is_visible_text(#[trigger] pieces[i]) && !pieces[i].contains(
                ';',
            ),
    ensures
        all_parsed(cookies::piece_cookies(pieces)),
    decreases pieces.len(),
{
    if pieces.len() > 0 {
        let front = pieces.drop_last();
        assert forall|i: int| 0 <= i < front.len() implies is_visible_text(#[trigger] front[i])
            && !front[i].contains(';') by {
            assert(front[i] == pieces[i]);
        }
        lemma_pieces_parse(front);
        let piece = pieces[pieces.len() - 1];
        lemma_visible_trimmed(piece);
        text::lemma_trimmed(piece);
        text::lemma_trimmed_without(piece, ';');
    }
}

proof fn lemma_value_parses(value: Seq<u8>)
    ensures
        all_parsed(cookies::value_cookies(value)),
{
    if headers::is_visible_ascii(value) {
        let s = headers::ascii_text(value);
        assert forall|i: int| 0 <= i < s.len() implies headers::is_visible_char(#[trigger] s[i]) by {
            assert(headers::is_visible(value[i]));
        }
        lemma_visible_pieces(s);
        text::lemma_split_pieces(s, ';');
        lemma_pieces_parse(text::split(s, ';'));
    }
}

/// Every cookie of a request is a raw pair that decodes to its name and value.
pub proof fn lemma_request_cookies_are_parsed(values: Seq<Seq<u8>>)
    ensures
        all_parsed(cookies::field_cookies(values)),
    decreases values.len(),
{
    if values.len() > 0 {
        lemma_request_cookies_are_parsed(values.drop_last());
        lemma_value_parses(values.last());
    }
}

proof fn lemma_pieces_of_cookies(pieces: Seq<Seq<char>>, cookies: Seq<cookies::CookieText>)
    requires
        pieces.len() == cookies.len(),
        forall|i: int| 0 <= i < cookies.len() ==> text::trimmed(#[trigger] pieces[i]) == cookies[i].raw,
        all_parsed(cookies),
    ensures
        cookies::piece_cookies(pieces) == cookies,
    decreases pieces.len(),
{
    if pieces.len() == 0 {
        assert(cookies::piece_cookies(pieces) =~= cookies);
    } else {
        let front = pieces.drop_last();
        assert forall|i: int| 0 <= i < front.len() implies text::trimmed(#[trigger] front[i])
            == cookies.drop_last()[i].raw by {
            assert(front[i] == pieces[i]);
        }
        assert(all_parsed(cookies.drop_last())) by {
            assert forall|i: int| 0 <= i < front.len() implies is_parsed(
                #[trigger] cookies.drop_last()[i],
            ) by {
                assert(is_parsed(cookies[i]));
            }
        }
        lemma_pieces_of_cookies(front, cookies.drop_last());
        let n = pieces.len() - 1;
        assert(text::trimmed(pieces[n]) == cookies[n].raw);
        assert(is_parsed(cookies[n]));
        assert(cookies.drop_last().push(cookies[n]) =~= cookies);
    }
}

proof fn lemma_visible_join(parts: Seq<Seq<char>>)
    requires
        forall|i: int| 0 <= i < parts.len() ==> is_visible_text(#[trigger] parts[i]),
    ensures
        is_visible_text(text::join(parts, "; "@)),
    decreases parts.len(),
{
    reveal_strlit("; ");
    if parts.len() > 1 {
        let front = parts.drop_last();
        assert forall|i: int| 0 <= i < front.len() implies is_visible_text(#[trigger] front[i]) by {
            assert(front[i] == parts[i]);
        }
        lemma_visible_join(front);
        assert(is_visible_text(parts[parts.len() - 1]));
    }
}

/// The cookies that are not the library's own.
pub open spec fn foreign_cookies(cookies: Seq<cookies::CookieText>) -> Seq<cookies::CookieText> {
    cookies.filter(|c: cookies::CookieText| !cookies::is_ours(c))
}

/// The outgoing `Cookie` header, read again, holds exactly the application's
/// cookies: each of them, unchanged and in order, and nothing else.
pub proof fn lemma_outgoing_value(cookies: Seq<cookies::CookieText>)
    requires
        all_parsed(cookies),
    ensures
        match cookies::outgoing_cookies(cookies) {
            Some(value) => cookies::value_cookies(vstd::utf8::encode_utf8(value))
                == foreign_cookies(cookies),
            None => foreign_cookies(cookies).len() == 0,
        },
{
    let kept = foreign_cookies(cookies);
    let raws = cookies::kept_pairs(cookies);
    let foreign = |c: cookies::CookieText| !cookies::is_ours(c);
    assert(all_parsed(kept)) by {
        assert forall|i: int| 0 <= i < kept.len() implies is_parsed(#[trigger] kept[i]) by {
            cookies.lemma_filter_contains_rev(foreign, kept[i]);
            let k = choose|k: int| 0 <= k < cookies.len() && cookies[k] == kept[i];
            assert(is_parsed(cookies[k]));
        }
    }
    if kept.len() > 0 {
        assert forall|i: int| 0 <= i < raws.len() implies is_visible_text(#[trigger] raws[i])
            && !raws[i].contains(';') by {
            assert(is_parsed(kept[i]));
        }
        lemma_visible_join(raws);
        let joined = text::join(raws, "; "@);
        headers::lemma_visible_value(joined);
        text::lemma_split_joined(raws);
        let pieces = text::spaced(raws);
        assert forall|i: int| 0 <= i < kept.len() implies text::trimmed(#[trigger] pieces[i])
            == kept[i].raw by {
            assert(is_parsed(kept[i]));
            text::lemma_trim_again(kept[i].raw);
        }
        lemma_pieces_of_cookies(pieces, kept);
    }
}

/// What the upstream reads of a forwarded request's cookies: the application's,
/// each of them, unchanged and in order, and nothing else.
pub proof fn lemma_upstream_sees_application_cookies(
    fields: Map<Seq<char>, Seq<Seq<u8>>>,
    authority: Option<Seq<char>>,
)
    ensures
        cookies::request_cookies(
            forwarding::sanitized_fields(fields, authority, cookies::request_cookies(fields)),
        ) == foreign_cookies(cookies::request_cookies(fields)),
{
    let cookies = cookies::request_cookies(fields);
    let out = forwarding::sanitized_fields(fields, authority, cookies);
    lemma_request_cookies_are_parsed(headers::field_values(fields, cookies::COOKIE_FIELD@));
    lemma_outgoing_value(cookies);
    forwarding::lemma_field_names();
    forwarding::lemma_cookie_field_is_different();
    let values = headers::field_values(out, cookies::COOKIE_FIELD@);
    match cookies::outgoing_cookies(cookies) {
        Some(value) => {
            let bytes = vstd::utf8::encode_utf8(value);
            assert(values =~= seq![bytes]);
            assert(cookies::field_cookies(values.drop_last()) =~= Seq::empty());
            assert(cookies::field_cookies(values) =~= cookies::value_cookies(bytes));
        },
        None => {
            assert(values =~= Seq::empty());
            assert(foreign_cookies(cookies) =~= Seq::empty());
        },
    }
}

/// A cookie good enough to authenticate does not survive: what is forwarded
/// opens no session.
pub proof fn lemma_forwarded_request_opens_nothing(
    fields: Map<Seq<char>, Seq<Seq<u8>>>,
    authority: Option<Seq<char>>,
    sessions: Seq<Seq<u8>>,
)
    ensures
        !cookies::opens_any(
            cookies::request_cookies(
                forwarding::sanitized_fields(fields, authority, cookies::request_cookies(fields)),
            ),
            sessions,
        ),
{
    lemma_upstream_sees_application_cookies(fields, authority);
    let cookies = cookies::request_cookies(fields);
    let kept = foreign_cookies(cookies);
    let foreign = |c: cookies::CookieText| !cookies::is_ours(c);
    assert forall|i: int| 0 <= i < kept.len() implies !cookies::is_ours(#[trigger] kept[i]) by {
        cookies.lemma_filter_pred(foreign, i);
    }
}

/// The pair that opens a session decodes to the session cookie's name and the
/// session's token, and holds no `;`.
proof fn lemma_session_pair(session: Digest)
    ensures
        encoding::decoded_cookie(gate::session_pair(session@)) == Some(
            (cookies::COOKIE_NAME@, digest::hex_text(session@)),
        ),
        !gate::session_pair(session@).contains(';'),
{
    reveal_strlit("mba");
    reveal_strlit("=");
    let name = cookies::COOKIE_NAME@;
    let token = digest::hex_text(session@);
    let pair = gate::session_pair(session@);
    digest::lemma_hex_text_digits(session@);
    assert(pair =~= name.push('=') + token);
    text::lemma_cut(name, token, '=');
    text::lemma_trim_again(name);
    text::lemma_trim_again(token);
    encoding::lemma_plain_text(name);
    encoding::lemma_plain_text(token);
    assert forall|i: int| 0 <= i < pair.len() implies pair[i] != ';' by {
        if i > name.len() {
            assert(pair[i] == token[i - name.len() - 1]);
        }
    }
}

/// What a login sets, a browser stores as the session's pair: the `Set-Cookie`
/// value is the pair, which holds no `;`, and then a `;`.
pub proof fn lemma_set_cookie_holds_the_pair(session: Digest, secure: bool)
    ensures
        !gate::session_pair(session@).contains(';'),
        gate::session_pair(session@).push(';').is_prefix_of(
            gate::session_cookie(session@, secure),
        ),
{
    lemma_session_pair(session);
    reveal_strlit("; HttpOnly; SameSite=Lax; Path=/; Max-Age=");
    let pair = gate::session_pair(session@);
    let cookie = gate::session_cookie(session@, secure);
    assert(cookie.subrange(0, pair.len() as int + 1) =~= pair.push(';'));
}

pub proof fn lemma_piece_is_cookie(pieces: Seq<Seq<char>>, j: int)
    requires
        0 <= j < pieces.len(),
        encoding::decoded_cookie(text::trimmed(pieces[j])) is Some,
    ensures
        ({
            let raw = text::trimmed(pieces[j]);
            let (name, value) = encoding::decoded_cookie(raw)->0;
            cookies::piece_cookies(pieces).contains(cookies::CookieText { name, value, raw })
        }),
    decreases pieces.len(),
{
    let raw = text::trimmed(pieces[j]);
    let (name, value) = encoding::decoded_cookie(raw)->0;
    let cookie = cookies::CookieText { name, value, raw };
    let all = cookies::piece_cookies(pieces);
    if j == pieces.len() - 1 {
        assert(all.last() == cookie);
    } else {
        let front = cookies::piece_cookies(pieces.drop_last());
        lemma_piece_is_cookie(pieces.drop_last(), j);
        let k = choose|k: int| 0 <= k < front.len() && front[k] == cookie;
        assert(all[k] == cookie);
    }
}

pub proof fn lemma_value_is_read(values: Seq<Seq<u8>>, k: int, cookie: cookies::CookieText)
    requires
        0 <= k < values.len(),
        cookies::value_cookies(values[k]).contains(cookie),
    ensures
        cookies::field_cookies(values).contains(cookie),
    decreases values.len(),
{
    let front = cookies::field_cookies(values.drop_last());
    let all = cookies::field_cookies(values);
    if k == values.len() - 1 {
        let last = cookies::value_cookies(values[k]);
        let i = choose|i: int| 0 <= i < last.len() && last[i] == cookie;
        assert(all[front.len() + i] == cookie);
    } else {
        lemma_value_is_read(values.drop_last(), k, cookie);
        let i = choose|i: int| 0 <= i < front.len() && front[i] == cookie;
        assert(all[i] == cookie);
    }
}

/// A session's pair opens the session, wherever it stands: as piece `j` of the
/// request's `Cookie` field `k`, alone or among others.
pub proof fn lemma_session_pair_opens_its_session(
    fields: Map<Seq<char>, Seq<Seq<u8>>>,
    session: Digest,
    k: int,
    j: int,
)
    requires
        0 <= k < headers::field_values(fields, cookies::COOKIE_FIELD@).len(),
        ({
            let value = headers::field_values(fields, cookies::COOKIE_FIELD@)[k];
            let pieces = text::split(headers::ascii_text(value), ';');
            &&& headers::is_visible_ascii(value)
            &&& 0 <= j < pieces.len()
            &&& text::trimmed(pieces[j]) == gate::session_pair(session@)
        }),
    ensures
        cookies::opens(cookies::request_cookies(fields), session@),
{
    let values = headers::field_values(fields, cookies::COOKIE_FIELD@);
    let pieces = text::split(headers::ascii_text(values[k]), ';');
    lemma_session_pair(session);
    digest::lemma_hex_round_trip(session);
    lemma_piece_is_cookie(pieces, j);
    let cookie = cookies::CookieText {
        name: cookies::COOKIE_NAME@,
        value: digest::hex_text(session@),
        raw: gate::session_pair(session@),
    };
    lemma_value_is_read(values, k, cookie);
    let all = cookies::request_cookies(fields);
    let i = choose|i: int| 0 <= i < all.len() && all[i] == cookie;
    assert(cookies::is_ours(all[i]));
}

/// The same for a request whose only cookie is the pair.
pub proof fn lemma_session_pair_alone_opens_its_session(
    fields: Map<Seq<char>, Seq<Seq<u8>>>,
    session: Digest,
)
    requires
        headers::field_values(fields, cookies::COOKIE_FIELD@) == seq![
            vstd::utf8::encode_utf8(gate::session_pair(session@)),
        ],
    ensures
        cookies::opens(cookies::request_cookies(fields), session@),
{
    let pair = gate::session_pair(session@);
    let value = vstd::utf8::encode_utf8(pair);
    lemma_session_pair(session);
    digest::lemma_hex_text_digits(session@);
    reveal_strlit("mba");
    reveal_strlit("=");
    assert(is_visible_text(pair));
    headers::lemma_visible_value(pair);
    let nothing = Seq::<char>::empty();
    text::lemma_split_append(nothing, pair, ';');
    assert(nothing + pair =~= pair);
    assert(text::split(nothing, ';') =~= seq![nothing]);
    assert(text::split(pair, ';')[0] == pair);
    assert(text::is_trimmed(pair));
    text::lemma_trim_again(pair);
    lemma_session_pair_opens_its_session(fields, session, 0, 0);
}

/// Every configured password logs in, with a session of its own: the reply sets
/// the cookie for the password's digest, which is one of the sessions.
pub proof fn lemma_configured_password_logs_in(
    passwords: Seq<Seq<char>>,
    upstream: Seq<char>,
    address: Seq<char>,
    parsed: Option<address::AddressText>,
    template: Seq<char>,
    text: template::PageText,
    password: Seq<char>,
    https: bool,
    location: Option<Seq<char>>,
)
    requires
        config::configured(passwords, upstream, address, parsed, template, text) is Ok,
        passwords.contains(password),
        password.len() > 0,
    ensures
        ({
            let settings = config::configured(
                passwords,
                upstream,
                address,
                parsed,
                template,
                text,
            )->Ok_0;
            let session = config::password_digest(password);
            &&& settings.sessions.contains(session)
            &&& gate::password_reply(settings, https, location, Some(password))
                == gate::session_reply(location, session, https)
        }),
{
    let given = config::given_passwords(passwords);
    let filled = |p: Seq<char>| p.len() > 0;
    let k = choose|k: int| 0 <= k < passwords.len() && passwords[k] == password;
    passwords.lemma_filter_contains(filled, k);
    let i = choose|i: int| 0 <= i < given.len() && given[i] == password;
    assert(config::password_digests(given)[i] == config::password_digest(password));
}

/// A login opens the service. The reply to a configured password sets a cookie;
/// a request that sends the cookie's pair back, as piece `j` of its `Cookie`
/// field `k`, is one that passes.
pub proof fn lemma_login_opens_the_service(
    passwords: Seq<Seq<char>>,
    upstream: Seq<char>,
    address: Seq<char>,
    parsed: Option<address::AddressText>,
    template: Seq<char>,
    text: template::PageText,
    password: Seq<char>,
    session: Digest,
    https: bool,
    location: Option<Seq<char>>,
    fields: Map<Seq<char>, Seq<Seq<u8>>>,
    k: int,
    j: int,
)
    requires
        config::configured(passwords, upstream, address, parsed, template, text) is Ok,
        passwords.contains(password),
        password.len() > 0,
        session@ == config::password_digest(password),
        0 <= k < headers::field_values(fields, cookies::COOKIE_FIELD@).len(),
        ({
            let value = headers::field_values(fields, cookies::COOKIE_FIELD@)[k];
            let pieces = text::split(headers::ascii_text(value), ';');
            &&& headers::is_visible_ascii(value)
            &&& 0 <= j < pieces.len()
            &&& text::trimmed(pieces[j]) == gate::session_pair(session@)
        }),
    ensures
        ({
            let settings = config::configured(
                passwords,
                upstream,
                address,
                parsed,
                template,
                text,
            )->Ok_0;
            let reply = gate::password_reply(settings, https, location, Some(password));
            &&& reply.set_cookie == Some(gate::session_cookie(session@, https))
            &&& gate::session_pair(session@).push(';').is_prefix_of(reply.set_cookie->0)
            &&& cookies::opens_any(cookies::request_cookies(fields), settings.sessions)
        }),
{
    lemma_configured_password_logs_in(
        passwords,
        upstream,
        address,
        parsed,
        template,
        text,
        password,
        https,
        location,
    );
    lemma_set_cookie_holds_the_pair(session, https);
    lemma_session_pair_opens_its_session(fields, session, k, j);
    let sessions = config::password_digests(config::given_passwords(passwords));
    let i = choose|i: int| 0 <= i < sessions.len() && sessions[i] == session@;
    assert(cookies::opens(cookies::request_cookies(fields), sessions[i]));
}

/// Nothing else opens the service: a request that passes has a cookie of the
/// session's name whose value spells the digest of a configured password.
pub proof fn lemma_only_configured_passwords_open_the_service(
    passwords: Seq<Seq<char>>,
    upstream: Seq<char>,
    address: Seq<char>,
    parsed: Option<address::AddressText>,
    template: Seq<char>,
    text: template::PageText,
    cookies: Seq<cookies::CookieText>,
)
    requires
        config::configured(passwords, upstream, address, parsed, template, text) matches Ok(
            settings,
        ) && cookies::opens_any(cookies, settings.sessions),
    ensures
        exists|i: int, k: int|
            0 <= i < cookies.len() && 0 <= k < passwords.len() && cookies::is_ours(
                #[trigger] cookies[i],
            ) && (#[trigger] passwords[k]).len() > 0 && cookies::is_token_of(
                cookies[i].value,
                config::password_digest(passwords[k]),
            ),
{
    let given = config::given_passwords(passwords);
    let filled = |p: Seq<char>| p.len() > 0;
    let sessions = config::password_digests(given);
    let s = choose|s: int|
        0 <= s < sessions.len() && cookies::opens(cookies, #[trigger] sessions[s]);
    let i = choose|i: int|
        0 <= i < cookies.len() && cookies::is_ours(#[trigger] cookies[i]) && cookies::is_token_of(
            cookies[i].value,
            sessions[s],
        );
    passwords.lemma_filter_contains_rev(filled, given[s]);
    passwords.lemma_filter_pred(filled, s);
    let k = choose|k: int| 0 <= k < passwords.len() && passwords[k] == given[s];
    assert(cookies::is_ours(cookies[i]) && passwords[k].len() > 0 && cookies::is_token_of(
        cookies[i].value,
        config::password_digest(passwords[k]),
    ));
}

/// A login is answered with a session only for a password whose digest is that
/// of a configured one; any other is answered with the wall, and no cookie.
pub proof fn lemma_other_passwords_meet_the_wall(
    passwords: Seq<Seq<char>>,
    upstream: Seq<char>,
    address: Seq<char>,
    parsed: Option<address::AddressText>,
    template: Seq<char>,
    text: template::PageText,
    password: Option<Seq<char>>,
    https: bool,
    location: Option<Seq<char>>,
)
    requires
        config::configured(passwords, upstream, address, parsed, template, text) is Ok,
        password matches Some(p) ==> forall|i: int|
            0 <= i < passwords.len() && (#[trigger] passwords[i]).len() > 0
                ==> config::password_digest(passwords[i]) != config::password_digest(p),
    ensures
        gate::password_reply(
            config::configured(passwords, upstream, address, parsed, template, text)->Ok_0,
            https,
            location,
            password,
        ) == gate::wall_reply(template::page(template, text, false)),
{
    let given = config::given_passwords(passwords);
    let filled = |p: Seq<char>| p.len() > 0;
    let sessions = config::password_digests(given);
    if let Some(p) = password {
        assert forall|i: int| 0 <= i < sessions.len() implies sessions[i]
            != config::password_digest(p) by {
            passwords.lemma_filter_contains_rev(filled, given[i]);
            passwords.lemma_filter_pred(filled, i);
            let k = choose|k: int| 0 <= k < passwords.len() && passwords[k] == given[i];
            assert(passwords[k].len() > 0);
        }
    }
}

/// Every password can be submitted: percent-encoded, it arrives as it is.
pub proof fn lemma_every_password_can_be_submitted(password: Seq<char>)
    ensures
        gate::submitted_bytes(
            vstd::utf8::encode_utf8("password"@).push(0x3d) + encoding::percent_encoded(
                vstd::utf8::encode_utf8(password),
            ),
        ) == Some(vstd::utf8::encode_utf8(password)),
{
    let bytes = vstd::utf8::encode_utf8(password);
    let value = encoding::percent_encoded(bytes);
    encoding::lemma_percent_round_trip(bytes);
    encoding::lemma_percent_encoded_bytes(bytes);
    lemma_password_field();
    encoding::lemma_single_field(vstd::utf8::encode_utf8("password"@), value);
    lemma_single_submission(bytes, value);
}

/// A password without `%`, `&` and `+` is submitted as it stands.
pub proof fn lemma_plain_password_is_submitted_as_it_stands(password: Seq<char>)
    requires
        !vstd::utf8::encode_utf8(password).contains(0x25),
        !vstd::utf8::encode_utf8(password).contains(0x26),
        !vstd::utf8::encode_utf8(password).contains(0x2b),
    ensures
        gate::submitted_bytes(
            vstd::utf8::encode_utf8("password"@).push(0x3d) + vstd::utf8::encode_utf8(password),
        ) == Some(vstd::utf8::encode_utf8(password)),
{
    let bytes = vstd::utf8::encode_utf8(password);
    encoding::lemma_plain_bytes(bytes);
    lemma_password_field();
    encoding::lemma_single_field(vstd::utf8::encode_utf8("password"@), bytes);
    lemma_single_submission(bytes, bytes);
}

proof fn lemma_single_submission(bytes: Seq<u8>, value: Seq<u8>)
    requires
        encoding::form_fields(vstd::utf8::encode_utf8("password"@).push(0x3d) + value) == seq![
            (vstd::utf8::encode_utf8("password"@), bytes),
        ],
    ensures
        gate::submitted_bytes(vstd::utf8::encode_utf8("password"@).push(0x3d) + value) == Some(
            bytes,
        ),
{
}

proof fn lemma_password_field()
    ensures
        ({
            let name = vstd::utf8::encode_utf8("password"@);
            &&& name.len() > 0
            &&& !name.contains(0x25)
            &&& !name.contains(0x26)
            &&& !name.contains(0x2b)
            &&& !name.contains(0x3d)
        }),
{
    reveal_strlit("password");
    let name = vstd::utf8::encode_utf8("password"@);
    assert(vstd::utf8::is_ascii_chars("password"@));
    vstd::utf8::is_ascii_chars_encode_utf8("password"@);
    assert forall|i: int| 0 <= i < name.len() implies 0x61 <= #[trigger] name[i] <= 0x7a by {
        assert("password"@[i] as u8 == name[i]);
    }
}

/// What the upstream is told of a request's origin: no client address; the
/// observed host, or none; the effective scheme; and everything else as it
/// came.
pub proof fn lemma_forwarding_headers(
    fields: Map<Seq<char>, Seq<Seq<u8>>>,
    authority: Option<Seq<char>>,
)
    ensures
        ({
            let out = forwarding::forwarded_fields(fields, authority);
            &&& !out.dom().contains(forwarding::X_FORWARDED_FOR@)
            &&& !out.dom().contains(forwarding::FORWARDED@)
            &&& headers::field_values(out, forwarding::X_FORWARDED_HOST@)
                == match forwarding::observed_host(fields, authority) {
                Some(host) => seq![host],
                None => Seq::empty(),
            }
            &&& headers::field_values(out, forwarding::X_FORWARDED_PROTO@) == seq![
                vstd::utf8::encode_utf8(
                    forwarding::scheme_name(forwarding::https_fields(fields)),
                ),
            ]
            &&& forall|name: Seq<char>|
                name != forwarding::X_FORWARDED_FOR@ && name != forwarding::FORWARDED@ && name
                    != forwarding::X_FORWARDED_HOST@ && name != forwarding::X_FORWARDED_PROTO@
                    ==> #[trigger] headers::field_values(out, name) == headers::field_values(
                    fields,
                    name,
                )
        }),
{
    forwarding::lemma_field_names();
}

/// Nothing that a client claims in these fields reaches the upstream, nor
/// changes anything else.
pub proof fn lemma_claims_do_not_matter(
    fields: Map<Seq<char>, Seq<Seq<u8>>>,
    authority: Option<Seq<char>>,
    name: Seq<char>,
    values: Seq<Seq<u8>>,
)
    requires
        name == forwarding::X_FORWARDED_FOR@ || name == forwarding::FORWARDED@ || name
            == forwarding::X_FORWARDED_HOST@,
    ensures
        forwarding::forwarded_fields(fields.insert(name, values), authority)
            == forwarding::forwarded_fields(fields, authority),
{
    forwarding::lemma_field_names();
    let claimed = fields.insert(name, values);
    assert(headers::field_values(claimed, forwarding::X_FORWARDED_PROTO@) =~= headers::field_values(
        fields,
        forwarding::X_FORWARDED_PROTO@,
    ));
    assert(forwarding::observed_host(claimed, authority) == forwarding::observed_host(
        fields,
        authority,
    ));
    assert(forwarding::forwarded_fields(claimed, authority) =~= forwarding::forwarded_fields(
        fields,
        authority,
    ));
}

/// The scheme that the upstream is told is the effective one: read again, it is
/// the same.
pub proof fn lemma_scheme_is_stable(
    fields: Map<Seq<char>, Seq<Seq<u8>>>,
    authority: Option<Seq<char>>,
)
    ensures
        forwarding::https_fields(forwarding::forwarded_fields(fields, authority))
            == forwarding::https_fields(fields),
{
    lemma_forwarding_headers(fields, authority);
    let https = forwarding::https_fields(fields);
    let name = forwarding::scheme_name(https);
    reveal_strlit("https");
    reveal_strlit("http");
    headers::lemma_visible_value(name);
    assert(text::is_trimmed(name));
    text::lemma_trim_again(name);
    assert(text::ascii_lowercase(name) =~= name);
    assert("http"@.len() != "https"@.len());
}

/// Rewriting the forwarding headers twice is rewriting them once, their marks
/// as well.
pub proof fn lemma_rewriting_is_idempotent(
    fields: Map<Seq<char>, Seq<Seq<u8>>>,
    marks: Map<Seq<char>, Seq<bool>>,
    authority: Option<Seq<char>>,
)
    ensures
        forwarding::forwarded_fields(forwarding::forwarded_fields(fields, authority), authority)
            == forwarding::forwarded_fields(fields, authority),
        forwarding::forwarded_marks(
            forwarding::forwarded_fields(fields, authority),
            forwarding::forwarded_marks(fields, marks, authority),
            authority,
        ) == forwarding::forwarded_marks(fields, marks, authority),
{
    let once = forwarding::forwarded_fields(fields, authority);
    forwarding::lemma_field_names();
    lemma_scheme_is_stable(fields, authority);
    assert(forwarding::observed_host(once, authority) == forwarding::observed_host(
        fields,
        authority,
    ));
    assert(forwarding::forwarded_fields(once, authority) =~= once);
    let marked = forwarding::forwarded_marks(fields, marks, authority);
    assert(forwarding::observed_mark(marked, authority) == forwarding::observed_mark(
        marks,
        authority,
    ));
    assert(forwarding::forwarded_marks(once, marked, authority) =~= marked);
}

/// A session cookie is `Secure` exactly when the upstream is told `https`.
pub proof fn lemma_secure_iff_https(
    fields: Map<Seq<char>, Seq<Seq<u8>>>,
    authority: Option<Seq<char>>,
    session: Seq<u8>,
)
    ensures
        "; Secure"@.is_suffix_of(
            gate::session_cookie(session, forwarding::https_fields(fields)),
        ) <==> headers::field_values(
            forwarding::forwarded_fields(fields, authority),
            forwarding::X_FORWARDED_PROTO@,
        ) == seq![vstd::utf8::encode_utf8("https"@)],
{
    lemma_forwarding_headers(fields, authority);
    let https = forwarding::https_fields(fields);
    let cookie = gate::session_cookie(session, https);
    reveal_strlit("https");
    reveal_strlit("http");
    reveal_strlit("; Secure");
    reveal_strlit("0123456789");
    reveal_strlit("; HttpOnly; SameSite=Lax; Path=/; Max-Age=");
    vstd::utf8::encode_utf8_decode_utf8("https"@);
    vstd::utf8::encode_utf8_decode_utf8("http"@);
    assert("http"@.len() != "https"@.len());
    let told = seq![vstd::utf8::encode_utf8(forwarding::scheme_name(https))];
    assert(told[0] == vstd::utf8::encode_utf8(forwarding::scheme_name(https)));
    let n = cookie.len() as int;
    if https {
        assert(cookie.subrange(n - 8, n) =~= "; Secure"@);
    } else {
        assert(text::decimal(gate::SESSION_MAX_AGE_SECS as nat).last() == '0');
        assert(cookie.last() == '0');
        assert(cookie.subrange(n - 8, n).last() == '0');
        assert(seq![vstd::utf8::encode_utf8("https"@)][0] != told[0]);
    }
}

} // verus!
