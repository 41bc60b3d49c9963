//! The upstream URL.

use crate::error;
use crate::error::ConfigError;
use crate::text;
use vstd::prelude::*;

verus! {

/// The port of a URL: its original text, and its number.
pub struct UriPort {
    pub text: String,
    pub number: u16,
}

/// What is read of a parsed URL.
pub struct UriParts {
    pub scheme: Option<String>,
    pub authority: Option<String>,
    pub host: Option<String>,
    pub port: Option<UriPort>,
    /// The whole URL in its normalized form.
    pub text: String,
}

/// The texts of `UriParts`.
pub struct UriText {
    pub scheme: Option<Seq<char>>,
    pub authority: Option<Seq<char>>,
    pub host: Option<Seq<char>>,
    pub port: Option<(Seq<char>, u16)>,
    pub text: Seq<char>,
}

impl View for UriParts {
    type V = UriText;

    open spec fn view(&self) -> UriText {
        UriText {
            scheme: text::string_view(self.scheme),
            authority: text::string_view(self.authority),
            host: text::string_view(self.host),
            port: match self.port {
                Some(port) => Some((port.text@, port.number)),
                None => None,
            },
            text: self.text@,
        }
    }
}

/// The texts of parsed parts, if there are any.
pub open spec fn uri_view(uri: Option<UriParts>) -> Option<UriText> {
    match uri {
        Some(parts) => Some(parts@),
        None => None,
    }
}

/// The parts of `text` as a URI, if it is one.
pub uninterp spec fn parsed_uri(text: Seq<char>) -> Option<UriText>;

/// Whether `text` starts with the scheme and the authority that it has, if it
/// has both.
pub open spec fn starts_absolute(uri: UriText) -> bool {
    uri.scheme matches Some(scheme) ==> (uri.authority matches Some(authority) ==> (scheme + "://"@
        + authority).is_prefix_of(uri.text))
}

/// The length that a URI has at most, in bytes.
pub const URI_LENGTH_LIMIT: usize = 65534;

/// Whether the normalized text is the same URI again, if the URI has a scheme
/// and an authority and the text is not too long.
pub open spec fn reads_back(uri: UriText) -> bool {
    uri.scheme is Some && uri.authority is Some && vstd::utf8::encode_utf8(uri.text).len()
        <= URI_LENGTH_LIMIT ==> parsed_uri(uri.text) == Some(uri)
}

/// Whether a text is ASCII without white space and control characters.
pub open spec fn is_graphic(s: Seq<char>) -> bool {
    forall|i: int| 0 <= i < s.len() ==> '!' <= #[trigger] s[i] <= '~'
}

/// `http::Uri`'s `FromStr`, with `scheme_str`, `authority`, `host`, `port` and
/// `to_string` of the result: functions of the text alone. The normalized text
/// of a URI with a scheme and an authority starts with these two. It parses to
/// the same parts again, unless it is too long: a path that was left out
/// becomes `/`, which may be one byte more than is accepted. That of an ASCII
/// text holds no white space and no control characters.
#[verifier::external_body]
fn parse_uri(text: &str) -> (uri: Option<UriParts>)
    ensures
        uri_view(uri) == parsed_uri(text@),
        uri matches Some(parts) ==> starts_absolute(parts@),
        uri matches Some(parts) ==> reads_back(parts@),
        uri matches Some(parts) ==> (vstd::utf8::is_ascii_chars(text@) ==> is_graphic(
            parts.text@,
        )),
{
    text.parse::<axum::http::Uri>().ok().map(|uri| UriParts {
        scheme: uri.scheme_str().map(|s| s.to_owned()),
        authority: uri.authority().map(|a| a.as_str().to_owned()),
        host: uri.host().map(|h| h.to_owned()),
        port: uri.port().map(|p| UriPort { text: p.as_str().to_owned(), number: p.as_u16() }),
        text: uri.to_string(),
    })
}

/// `host` or `host:port`, as the parts give them.
pub open spec fn canonical_host_port(host: Seq<char>, port: Option<(Seq<char>, u16)>) -> Seq<
    char,
> {
    match port {
        Some((port, _)) => host + ":"@ + port,
        None => host,
    }
}

/// The authority without `userinfo@`: what stands behind its last `@`.
pub open spec fn host_port(authority: Option<Seq<char>>) -> Seq<char> {
    match authority {
        Some(authority) => text::split(authority, '@').last(),
        None => Seq::empty(),
    }
}

/// The host; empty if there is none.
pub open spec fn host_text(host: Option<Seq<char>>) -> Seq<char> {
    match host {
        Some(host) => host,
        None => Seq::empty(),
    }
}

/// What is wrong with a URL as an upstream, if anything is.
pub open spec fn upstream_flaw(uri: Option<UriText>) -> Option<Seq<char>> {
    match uri {
        None => Some("not a valid URL"@),
        Some(uri) => if uri.scheme != Some("http"@) && uri.scheme != Some("https"@) {
            Some("scheme must be http or https"@)
        } else if host_text(uri.host).len() == 0 {
            Some("missing host"@)
        } else if uri.port matches Some((_, 0)) {
            Some("invalid port"@)
        } else if host_port(uri.authority) != canonical_host_port(host_text(uri.host), uri.port) {
            Some("invalid host or port"@)
        } else {
            None
        },
    }
}

/// The upstream that a text without surrounding white space stands for, given
/// its parts as a URI.
pub open spec fn checked_upstream(value: Seq<char>, uri: Option<UriText>) -> Result<
    Seq<char>,
    error::ErrorText,
> {
    if value.len() == 0 {
        Err(error::ErrorText::MissingUpstream)
    } else {
        match upstream_flaw(uri) {
            Some(reason) => Err(error::ErrorText::InvalidUpstream { value, reason }),
            None => Ok(uri->0.text),
        }
    }
}

/// The upstream that a configured text stands for.
pub open spec fn validated_upstream(upstream: Seq<char>) -> Result<Seq<char>, error::ErrorText> {
    let value = text::trimmed(upstream);
    checked_upstream(value, parsed_uri(value))
}

/// The flaw that `upstream_flaw` names.
fn find_flaw(uri: &Option<UriParts>) -> (flaw: Option<&'static str>)
    ensures
        match flaw {
            Some(reason) => upstream_flaw(uri_view(*uri)) == Some(reason@),
            None => upstream_flaw(uri_view(*uri)) is None,
        },
{
    let uri = match uri {
        Some(uri) => uri,
        None => {
            return Some("not a valid URL");
        },
    };
    let is_http = match &uri.scheme {
        Some(scheme) => *scheme.as_str() == *"http" || *scheme.as_str() == *"https",
        None => false,
    };
    if !is_http {
        return Some("scheme must be http or https");
    }
    let host = match &uri.host {
        Some(host) => host.as_str(),
        None => {
            return Some("missing host");
        },
    };
    // An authority can parse with an empty host (`http://:8080`), which the
    // connector cannot use.
    if host.is_empty() {
        return Some("missing host");
    }
    // Port 0 is never a real destination.
    if let Some(port) = &uri.port {
        if port.number == 0 {
            return Some("invalid port");
        }
    }
    // Parsing silently *drops* malformed detail: a bad port (`:abc`, `:`,
    // `:99999`) or junk after an IPv6 literal (`[::1]junk`) all parse with that
    // text discarded, so the connector would target the wrong place (e.g. the
    // scheme default port). Catch it by reconstructing the canonical
    // `host[:port]` from the parsed parts and requiring it to equal the input
    // authority (ignoring any `userinfo@`); a mismatch is exactly the garbage
    // that was dropped. The port is taken in its original text, so a valid
    // leading-zero port like `:080` round-trips instead of collapsing to `:80`
    // and failing the comparison.
    let mut canonical = host.to_owned();
    if let Some(port) = &uri.port {
        canonical.append(":");
        canonical.append(port.text.as_str());
    }
    let matches = match &uri.authority {
        Some(authority) => {
            let pieces = text::split_on(authority.as_str(), '@');
            proof {
                text::lemma_split_pieces(authority@, '@');
                assert(text::views(pieces@).last() == pieces@.last()@);
            }
            *pieces[pieces.len() - 1].as_str() == *canonical.as_str()
        },
        None => canonical.as_str().is_empty(),
    };
    assert(canonical@ == canonical_host_port(host@, uri@.port));
    assert(matches == (host_port(uri@.authority) == canonical@)) by {
        if uri@.authority is None && canonical@.len() == 0 {
            assert(canonical@ =~= Seq::empty());
        }
    }
    if !matches {
        return Some("invalid host or port");
    }
    None
}

/// Check a text without surrounding white space as an upstream, given its parts
/// as a URI.
pub fn check_upstream(value: &str, uri: Option<UriParts>) -> (upstream: Result<
    String,
    ConfigError,
>)
    ensures
        match upstream {
            Ok(text) => checked_upstream(value@, uri_view(uri)) == Ok::<Seq<char>, error::ErrorText>(
                text@,
            ),
            Err(e) => checked_upstream(value@, uri_view(uri)) == Err::<Seq<char>, error::ErrorText>(
                e@,
            ),
        },
{
    if value.is_empty() {
        return Err(ConfigError::MissingUpstream);
    }
    if let Some(reason) = find_flaw(&uri) {
        return Err(ConfigError::InvalidUpstream { value: value.to_owned(), reason });
    }
    match uri {
        Some(uri) => Ok(uri.text),
        None => Err(
            ConfigError::InvalidUpstream { value: value.to_owned(), reason: "not a valid URL" },
        ),
    }
}

/// Validate `upstream` as an absolute `http(s)://host[:port]` URL.
///
/// Strictness matters: a URI may be a relative reference like `/foo` or
/// `example:8080` that carries no authority, and the proxy then expects an
/// authority and **panics** at request time. We reject anything that isn't an
/// absolute HTTP(S) URL up front.
///
/// What is returned is in normalized form: unless it is longer than any URL
/// that is read, it parses, has no flaw either, and is its own normalized text.
/// Validated again, it gives itself, unless it has white space at an end that
/// is trimmed; that takes more than ASCII.
pub fn validate_upstream(upstream: &str) -> (validated: Result<String, ConfigError>)
    ensures
        match validated {
            Ok(text) => validated_upstream(upstream@) == Ok::<Seq<char>, error::ErrorText>(text@),
            Err(e) => validated_upstream(upstream@) == Err::<Seq<char>, error::ErrorText>(e@),
        },
        validated matches Ok(text) ==> is_absolute_http(text@),
        validated matches Ok(text) ==> (vstd::utf8::encode_utf8(text@).len() <= URI_LENGTH_LIMIT
            ==> (parsed_uri(text@) matches Some(uri) && upstream_flaw(Some(uri)) is None
            && uri.text == text@)),
        validated matches Ok(text) ==> (vstd::utf8::encode_utf8(text@).len() <= URI_LENGTH_LIMIT
            && text::is_trimmed(text@) ==> validated_upstream(text@) == Ok::<
            Seq<char>,
            error::ErrorText,
        >(text@)),
        validated matches Ok(text) ==> (vstd::utf8::is_ascii_chars(upstream@) ==> is_graphic(text@)
            && text::is_trimmed(text@)),
{
    let value = upstream.trim();
    let uri = parse_uri(value);
    let ghost parts = uri_view(uri);
    let validated = check_upstream(value, uri);
    proof {
        if validated is Ok {
            lemma_accepted_is_absolute(parts->0);
            lemma_accepted_has_authority(parts->0);
            if vstd::utf8::encode_utf8(parts->0.text).len() <= URI_LENGTH_LIMIT
                && text::is_trimmed(parts->0.text) {
                lemma_normalized_is_stable(parts->0);
            }
            if vstd::utf8::is_ascii_chars(upstream@) {
                text::lemma_trimmed_is_ascii(upstream@);
            }
        }
    }
    validated
}

/// An absolute HTTP(S) URL with a host: `http://` or `https://`, then
/// optionally what ends in `@`, then a host that is not empty.
pub open spec fn is_absolute_http(url: Seq<char>) -> bool {
    exists|scheme: Seq<char>, user: Seq<char>, host: Seq<char>|
        #![trigger scheme + "://"@ + user + host]
        {
            &&& scheme == "http"@ || scheme == "https"@
            &&& user.len() == 0 || user.last() == '@'
            &&& host.len() > 0 && !host.contains('@')
            &&& (scheme + "://"@ + user + host).is_prefix_of(url)
        }
}

/// An accepted URL in normalized form is accepted again, as it stands.
pub proof fn lemma_normalized_is_stable(uri: UriText)
    requires
        upstream_flaw(Some(uri)) is None,
        reads_back(uri),
        vstd::utf8::encode_utf8(uri.text).len() <= URI_LENGTH_LIMIT,
        text::is_trimmed(uri.text),
        uri.text.len() > 0,
    ensures
        validated_upstream(uri.text) == Ok::<Seq<char>, error::ErrorText>(uri.text),
{
    lemma_accepted_has_authority(uri);
    text::lemma_trim_again(uri.text);
}

/// An accepted URI has a scheme and an authority.
proof fn lemma_accepted_has_authority(uri: UriText)
    requires
        upstream_flaw(Some(uri)) is None,
    ensures
        uri.scheme is Some,
        uri.authority is Some,
{
    assert(canonical_host_port(host_text(uri.host), uri.port).len() > 0);
}

/// What an accepted URI's normalized text looks like.
proof fn lemma_accepted_is_absolute(uri: UriText)
    requires
        upstream_flaw(Some(uri)) is None,
        starts_absolute(uri),
    ensures
        is_absolute_http(uri.text),
{
    let host = canonical_host_port(host_text(uri.host), uri.port);
    assert(host.len() > 0);
    assert(uri.authority is Some);
    let authority = uri.authority->0;
    let scheme = uri.scheme->0;
    text::lemma_split_pieces(authority, '@');
    text::lemma_split_last(authority, '@');
    let user = authority.take(authority.len() - host.len());
    assert(user + host =~= authority);
    assert(scheme + "://"@ + user + host =~= scheme + "://"@ + authority);
}

} // verus!
