//! What whoever starts the service is owed, in terms of what was configured.

use crate::address;
use crate::address::BindAddress;
use crate::config;
use crate::config::Config;
use crate::digest;
use crate::environment;
use crate::environment::{EnvVar, TemplateFile};
use crate::error;
use crate::error::ConfigError;
use crate::page::WALL_TEMPLATE;
use crate::template;
use crate::text;
use crate::upstream;
use vstd::prelude::*;

verus! {

/// Whether an authority is a host and an optional port, as they are written,
/// with an optional `userinfo@` before them.
pub open spec fn names_host_and_port(
    authority: Seq<char>,
    host: Seq<char>,
    port: Option<(Seq<char>, u16)>,
) -> bool {
    let written = match port {
        Some((digits, _)) => host + ":"@ + digits,
        None => host,
    };
    &&& !written.contains('@')
    &&& authority == written || exists|user: Seq<char>|
        authority == #[trigger] (user + "@"@) + written
}

/// Whether a URI is an absolute HTTP(S) URL: with one of the two schemes, a host
/// that is not empty, no port or one that is not zero, and nothing in the
/// authority that these do not account for.
pub open spec fn is_absolute_url(uri: upstream::UriText) -> bool {
    &&& uri.scheme == Some("http"@) || uri.scheme == Some("https"@)
    &&& uri.host matches Some(host) && host.len() > 0
    &&& uri.port matches Some((_, number)) ==> 1 <= number <= 65535
    &&& uri.authority matches Some(authority) && names_host_and_port(
        authority,
        uri.host->0,
        uri.port,
    )
}

/// Every absolute HTTP(S) URL is accepted as an upstream, whatever its port,
/// its path or its user; and nothing else is. The result is the URL's normalized
/// text.
pub proof fn lemma_absolute_urls_are_accepted(upstream: Seq<char>)
    ensures
        ({
            let value = text::trimmed(upstream);
            let uri = upstream::parsed_uri(value);
            &&& upstream::validated_upstream(upstream) is Ok <==> value.len() > 0 && uri is Some
                && is_absolute_url(uri->0)
            &&& upstream::validated_upstream(upstream) matches Ok(text) ==> text == uri->0.text
        }),
{
    let value = text::trimmed(upstream);
    let uri = upstream::parsed_uri(value);
    if let Some(uri) = uri {
        lemma_flawless_is_absolute(uri);
    }
}

/// A parsed URL has no flaw exactly when it is an absolute HTTP(S) URL.
pub proof fn lemma_flawless_is_absolute(uri: upstream::UriText)
    ensures
        upstream::upstream_flaw(Some(uri)) is None <==> is_absolute_url(uri),
{
    let host = upstream::host_text(uri.host);
    let written = upstream::canonical_host_port(host, uri.port);
    reveal_strlit("@");
    if let Some(authority) = uri.authority {
        text::lemma_split_pieces(authority, '@');
        text::lemma_split_last(authority, '@');
        let piece = text::split(authority, '@').last();
        if piece == written {
            let n = authority.len() - piece.len();
            if n > 0 {
                let user = authority.take(n - 1);
                assert(authority =~= (user + "@"@) + written);
            } else {
                assert(authority =~= written);
            }
        }
        if !written.contains('@') {
            if authority == written {
                let nothing = Seq::<char>::empty();
                text::lemma_split_append(nothing, written, '@');
                assert(nothing + written =~= written);
                assert(text::split(nothing, '@') =~= seq![nothing]);
                assert(piece == written);
            }
            if exists|user: Seq<char>| authority == #[trigger] (user + "@"@) + written {
                let user = choose|user: Seq<char>| authority == #[trigger] (user + "@"@) + written;
                text::lemma_split_join(user, written, '@');
                assert(user.push('@') + written =~= (user + "@"@) + written);
                assert(piece == written);
            }
        }
    } else {
        assert(host.len() > 0 ==> written.len() > 0);
    }
}

/// For what an upstream is refused, and in which order that is found out.
pub proof fn lemma_refused_upstreams(value: Seq<char>, uri: Option<upstream::UriText>)
    ensures
        ({
            let outcome = upstream::checked_upstream(value, uri);
            let refused = |reason: Seq<char>|
                Err::<Seq<char>, error::ErrorText>(
                    error::ErrorText::InvalidUpstream { value, reason },
                );
            if value.len() == 0 {
                outcome == Err::<Seq<char>, error::ErrorText>(error::ErrorText::MissingUpstream)
            } else {
                match uri {
                    None => outcome == refused("not a valid URL"@),
                    Some(uri) => if uri.scheme != Some("http"@) && uri.scheme != Some("https"@) {
                        outcome == refused("scheme must be http or https"@)
                    } else if uri.host is None || uri.host->0.len() == 0 {
                        outcome == refused("missing host"@)
                    } else if uri.port matches Some((_, number)) && number == 0 {
                        outcome == refused("invalid port"@)
                    } else if is_absolute_url(uri) {
                        outcome == Ok::<Seq<char>, error::ErrorText>(uri.text)
                    } else {
                        outcome == refused("invalid host or port"@)
                    },
                }
            }
        }),
        upstream::validated_upstream(value) == upstream::checked_upstream(
            text::trimmed(value),
            upstream::parsed_uri(text::trimmed(value)),
        ),
{
    if let Some(uri) = uri {
        lemma_flawless_is_absolute(uri);
    }
}

/// What parsed parts are taken for: themselves.
pub proof fn lemma_uri_views(uri: Option<upstream::UriParts>)
    ensures
        uri is None <==> upstream::uri_view(uri) is None,
        uri matches Some(parts) ==> {
            let texts = upstream::uri_view(uri)->0;
            &&& texts.text == parts.text@
            &&& texts.scheme is None <==> parts.scheme is None
            &&& parts.scheme matches Some(s) ==> texts.scheme == Some(s@)
            &&& texts.authority is None <==> parts.authority is None
            &&& parts.authority matches Some(a) ==> texts.authority == Some(a@)
            &&& texts.host is None <==> parts.host is None
            &&& parts.host matches Some(h) ==> texts.host == Some(h@)
            &&& texts.port is None <==> parts.port is None
            &&& parts.port matches Some(p) ==> texts.port == Some((p.text@, p.number))
        },
{
}

/// An upstream that can be used is `http://` or `https://` and then a host, with
/// an optional `userinfo@` between; and a service that can be used has one, a
/// password, and a port.
pub proof fn lemma_usable(settings: config::Settings)
    requires
        config::usable(settings),
    ensures
        settings.bind_address.port != 0,
        settings.sessions.len() > 0,
        exists|scheme: Seq<char>, user: Seq<char>, host: Seq<char>|
            #![trigger scheme + "://"@ + user + host]
            (scheme == "http"@ || scheme == "https"@) && (user.len() == 0 || user.last() == '@')
                && host.len() > 0 && !host.contains('@') && (scheme + "://"@ + user
                + host).is_prefix_of(settings.upstream),
{
}

/// An address is taken as it was parsed, unless its port is zero.
pub proof fn lemma_addresses(
    address: Seq<char>,
    parsed: Option<address::AddressText>,
    given: Option<BindAddress>,
)
    ensures
        match parsed {
            Some(a) if a.port >= 1 => address::validated_address(address, parsed) == Ok::<
                address::AddressText,
                error::ErrorText,
            >(a),
            Some(_) => address::validated_address(address, parsed) == Err::<
                address::AddressText,
                error::ErrorText,
            >(
                error::ErrorText::InvalidAddress {
                    value: text::trimmed(address),
                    reason: "port must not be zero"@,
                },
            ),
            None => address::validated_address(address, parsed) == Err::<
                address::AddressText,
                error::ErrorText,
            >(
                error::ErrorText::InvalidAddress {
                    value: text::trimmed(address),
                    reason: "expected an IP address and port"@,
                },
            ),
        },
        given is None <==> address::address_view(given) is None,
        given matches Some(a) ==> address::address_view(given) == Some(
            address::AddressText { text: a.text@, port: a.port },
        ),
{
}

/// The given passwords are those that are not empty, in their order.
pub proof fn lemma_given_passwords(passwords: Seq<Seq<char>>, password: Seq<char>)
    ensures
        config::given_passwords(Seq::empty()) == Seq::<Seq<char>>::empty(),
        config::given_passwords(passwords.push(password)) == if password.len() == 0 {
            config::given_passwords(passwords)
        } else {
            config::given_passwords(passwords).push(password)
        },
        config::given_passwords(passwords).contains(password) <==> passwords.contains(password)
            && password.len() > 0,
{
    let filled = |p: Seq<char>| p.len() > 0;
    reveal(Seq::filter);
    assert(passwords.push(password).drop_last() =~= passwords);
    assert(config::given_passwords(Seq::empty()) =~= Seq::<Seq<char>>::empty());
    let given = config::given_passwords(passwords);
    if given.contains(password) {
        let k = choose|k: int| 0 <= k < given.len() && given[k] == password;
        passwords.lemma_filter_contains_rev(filled, password);
        passwords.lemma_filter_pred(filled, k);
    }
    if passwords.contains(password) && password.len() > 0 {
        let k = choose|k: int| 0 <= k < passwords.len() && passwords[k] == password;
        passwords.lemma_filter_contains(filled, k);
    }
}

/// Whether two of the passwords are the same and not empty.
pub open spec fn repeats(passwords: Seq<Seq<char>>) -> bool {
    exists|i: int, j: int|
        0 <= i < j < passwords.len() && (#[trigger] passwords[i]) == (#[trigger] passwords[j])
            && passwords[i].len() > 0
}

proof fn lemma_repeats(passwords: Seq<Seq<char>>)
    ensures
        repeats(passwords) <==> !config::given_passwords(passwords).no_duplicates(),
    decreases passwords.len(),
{
    reveal(Seq::filter);
    let given = config::given_passwords(passwords);
    if passwords.len() > 0 {
        let front = passwords.drop_last();
        let last = passwords.last();
        let earlier = config::given_passwords(front);
        lemma_repeats(front);
        lemma_given_passwords(front, last);
        assert(front.push(last) =~= passwords);
        if repeats(front) {
            let (i, j) = choose|i: int, j: int|
                0 <= i < j < front.len() && (#[trigger] front[i]) == (#[trigger] front[j])
                    && front[i].len() > 0;
            assert(passwords[i] == passwords[j] && passwords[i].len() > 0);
        }
        if repeats(passwords) && !repeats(front) {
            let (i, j) = choose|i: int, j: int|
                0 <= i < j < passwords.len() && (#[trigger] passwords[i]) == (
                #[trigger] passwords[j]) && passwords[i].len() > 0;
            if j < front.len() {
                assert(front[i] == front[j]);
                assert(repeats(front));
            }
            assert(front[i] == last);
            assert(front.contains(last));
            let k = choose|k: int| 0 <= k < earlier.len() && earlier[k] == last;
            assert(given[k] == given[earlier.len() as int]);
        }
        if !given.no_duplicates() && earlier.no_duplicates() {
            assert(last.len() > 0);
            let (a, b) = choose|a: int, b: int|
                0 <= a < given.len() && 0 <= b < given.len() && a != b && given[a] == given[b];
            let k = if a < b {
                a
            } else {
                b
            };
            let other = if a < b {
                b
            } else {
                a
            };
            assert(other == earlier.len());
            assert(earlier[k] == last);
            assert(earlier.contains(last));
            let i = choose|i: int| 0 <= i < front.len() && front[i] == last;
            assert(passwords[i] == passwords[front.len() as int]);
        }
        if !earlier.no_duplicates() {
            let (a, b) = choose|a: int, b: int|
                0 <= a < earlier.len() && 0 <= b < earlier.len() && a != b && earlier[a]
                    == earlier[b];
            assert(given[a] == given[b]);
        }
    } else {
        assert(given =~= Seq::empty());
    }
}

/// When a service starts, and on which settings; and otherwise for what it does
/// not, and in which order that is found out. It starts on any passwords of which
/// one is not empty and no two are the same, with one session for each that is
/// not empty, in their order: the BLAKE3 digest of its UTF-8.
pub proof fn lemma_configuration(
    passwords: Seq<Seq<char>>,
    upstream: Seq<char>,
    address: Seq<char>,
    parsed: Option<address::AddressText>,
    template: Seq<char>,
    text: template::PageText,
)
    ensures
        ({
            let outcome = config::configured(passwords, upstream, address, parsed, template, text);
            let given = config::given_passwords(passwords);
            if forall|i: int| 0 <= i < passwords.len() ==> (#[trigger] passwords[i]).len() == 0 {
                outcome == Err::<config::Settings, error::ErrorText>(
                    error::ErrorText::MissingPassword,
                )
            } else if repeats(passwords) {
                outcome == Err::<config::Settings, error::ErrorText>(
                    error::ErrorText::DuplicatePassword,
                )
            } else {
                match upstream::validated_upstream(upstream) {
                    Err(e) => outcome == Err::<config::Settings, error::ErrorText>(e),
                    Ok(url) => match address::validated_address(address, parsed) {
                        Err(e) => outcome == Err::<config::Settings, error::ErrorText>(e),
                        Ok(bound) => {
                            &&& outcome is Ok
                            &&& outcome->Ok_0.bind_address == bound
                            &&& outcome->Ok_0.upstream == url
                            &&& outcome->Ok_0.wall == template::page(template, text, false)
                            &&& outcome->Ok_0.wrong_password_wall == template::page(
                                template,
                                text,
                                true,
                            )
                            &&& outcome->Ok_0.sessions.len() == given.len()
                            &&& forall|i: int|
                                0 <= i < given.len() ==> #[trigger] outcome->Ok_0.sessions[i]
                                    == digest::blake3_digest(vstd::utf8::encode_utf8(given[i]))
                        },
                    },
                }
            }
        }),
{
    let given = config::given_passwords(passwords);
    lemma_repeats(passwords);
    if forall|i: int| 0 <= i < passwords.len() ==> (#[trigger] passwords[i]).len() == 0 {
        if given.len() > 0 {
            lemma_given_passwords(passwords, given[0]);
            assert(given.contains(given[0]));
        }
    } else {
        let k = choose|k: int| 0 <= k < passwords.len() && (#[trigger] passwords[k]).len() > 0;
        assert(passwords.contains(passwords[k]));
        lemma_given_passwords(passwords, passwords[k]);
    }
    assert(config::password_flaw(passwords) == if given.len() == 0 {
        Some(error::ErrorText::MissingPassword)
    } else if repeats(passwords) {
        Some(error::ErrorText::DuplicatePassword)
    } else {
        None
    });
}

/// What is used unless something else is configured: `0.0.0.0:8000`, the
/// built-in page, and its texts.
pub proof fn lemma_defaults(passwords: Seq<Seq<char>>, upstream: Seq<char>)
    ensures
        config::configured_by_default(passwords, upstream) == config::configured(
            passwords,
            upstream,
            "0.0.0.0:8000"@,
            Some(address::AddressText { text: "0.0.0.0:8000"@, port: 8000 }),
            WALL_TEMPLATE@,
            template::PageText {
                page_language: "en"@,
                page_title: "Welcome!"@,
                password_label: "Password"@,
                password_placeholder: "password"@,
                wrong_password_message: "Wrong password."@,
                submit_button_text: "Enter"@,
            },
        ),
{
}

/// What a constructor returns is the specified outcome, in every part; and texts
/// are taken for their characters.
pub proof fn lemma_outcomes(
    result: Result<Config, ConfigError>,
    expected: Result<config::Settings, error::ErrorText>,
    texts: Seq<&str>,
    strings: Seq<String>,
)
    ensures
        config::is_outcome(result, expected) && result is Ok ==> expected is Ok
            && expected->Ok_0 == result->Ok_0@,
        config::is_outcome(result, expected) && result is Err ==> expected is Err
            && expected->Err_0 == result->Err_0@,
        config::str_views(texts).len() == texts.len(),
        forall|i: int| 0 <= i < texts.len() ==> #[trigger] config::str_views(texts)[i] == texts[i]@,
        text::views(strings).len() == strings.len(),
        forall|i: int|
            0 <= i < strings.len() ==> #[trigger] text::views(strings)[i] == strings[i]@,
{
}

/// The value of a variable is that of the first one of its name.
pub proof fn lemma_first_variable_counts(
    vars: Seq<environment::VarText>,
    name: Seq<char>,
    value: environment::ValueText,
)
    ensures
        environment::lookup_value(vars, name) == Some(value) <==> exists|i: int|
            0 <= i < vars.len() && (#[trigger] vars[i]) == (environment::VarText {
                name: Some(name),
                value,
            }) && forall|j: int| 0 <= j < i ==> (#[trigger] vars[j]).name != Some(name),
        environment::lookup_value(vars, name) is None <==> forall|i: int|
            0 <= i < vars.len() ==> (#[trigger] vars[i]).name != Some(name),
    decreases vars.len(),
{
    let wanted = environment::VarText { name: Some(name), value };
    if vars.len() > 0 {
        let rest = vars.drop_first();
        lemma_first_variable_counts(rest, name, value);
        if vars[0].name == Some(name) {
            if environment::lookup_value(vars, name) == Some(value) {
                assert(vars[0] == wanted);
            }
        } else {
            if environment::lookup_value(vars, name) == Some(value) {
                let i = choose|i: int|
                    0 <= i < rest.len() && (#[trigger] rest[i]) == wanted && forall|j: int|
                        0 <= j < i ==> (#[trigger] rest[j]).name != Some(name);
                assert(vars[i + 1] == wanted);
                assert forall|j: int| 0 <= j < i + 1 implies (#[trigger] vars[j]).name != Some(
                    name,
                ) by {
                    if j > 0 {
                        assert(rest[j - 1] == vars[j]);
                    }
                }
            }
            if exists|i: int|
                0 <= i < vars.len() && (#[trigger] vars[i]) == wanted && forall|j: int|
                    0 <= j < i ==> (#[trigger] vars[j]).name != Some(name) {
                let i = choose|i: int|
                    0 <= i < vars.len() && (#[trigger] vars[i]) == wanted && forall|j: int|
                        0 <= j < i ==> (#[trigger] vars[j]).name != Some(name);
                assert(i > 0);
                assert(rest[i - 1] == wanted);
                assert forall|j: int| 0 <= j < i - 1 implies (#[trigger] rest[j]).name != Some(
                    name,
                ) by {
                    assert(rest[j] == vars[j + 1]);
                }
            }
            if environment::lookup_value(vars, name) is None {
                assert forall|i: int| 0 <= i < vars.len() implies (#[trigger] vars[i]).name != Some(
                    name,
                ) by {
                    if i > 0 {
                        assert(rest[i - 1] == vars[i]);
                    }
                }
            }
            if forall|i: int| 0 <= i < vars.len() ==> (#[trigger] vars[i]).name != Some(name) {
                assert forall|i: int| 0 <= i < rest.len() implies (#[trigger] rest[i]).name != Some(
                    name,
                ) by {
                    assert(rest[i] == vars[i + 1]);
                }
            }
        }
    }
}

/// Whether a name is `MBA_PASSWORD`, or `MBA_PASSWORD_` and a label.
pub open spec fn names_a_password(name: Seq<char>) -> bool {
    name == "MBA_PASSWORD"@ || exists|label: Seq<char>|
        name == #[trigger] ("MBA_PASSWORD_"@ + label)
}

/// The passwords are the Unicode values of `MBA_PASSWORD` and of every
/// `MBA_PASSWORD_` with a label, in their order.
pub proof fn lemma_password_variables(
    vars: Seq<environment::VarText>,
    var: environment::VarText,
)
    ensures
        environment::env_passwords(Seq::empty()) == Seq::<Seq<char>>::empty(),
        environment::env_passwords(vars.push(var)) == match var.value {
            environment::ValueText::Unicode(value) => if var.name is Some && names_a_password(
                var.name->0,
            ) {
                environment::env_passwords(vars).push(value)
            } else {
                environment::env_passwords(vars)
            },
            environment::ValueText::Other(_) => environment::env_passwords(vars),
        },
{
    assert(vars.push(var).drop_last() =~= vars);
    if let Some(name) = var.name {
        let prefix = "MBA_PASSWORD_"@;
        if prefix.is_prefix_of(name) {
            assert(name =~= prefix + name.skip(prefix.len() as int));
        }
        if exists|label: Seq<char>| name == #[trigger] (prefix + label) {
            let label = choose|label: Seq<char>| name == #[trigger] (prefix + label);
            assert(name.subrange(0, prefix.len() as int) =~= prefix);
        }
    }
}

/// The address and the upstream that the environment gives.
pub proof fn lemma_address_and_upstream_variables(vars: Seq<environment::VarText>)
    ensures
        match environment::lookup_value(vars, "MBA_ADDRESS"@) {
            None => environment::env_address(vars) == Ok::<Seq<char>, error::ErrorText>(
                "0.0.0.0:8000"@,
            ),
            Some(environment::ValueText::Unicode(address)) => environment::env_address(vars)
                == Ok::<Seq<char>, error::ErrorText>(address),
            Some(environment::ValueText::Other(value)) => environment::env_address(vars) == Err::<
                Seq<char>,
                error::ErrorText,
            >(error::ErrorText::InvalidAddress { value, reason: "not valid Unicode"@ }),
        },
        match environment::lookup_value(vars, "MBA_UPSTREAM"@) {
            None => environment::env_upstream(vars) == Ok::<Seq<char>, error::ErrorText>(
                Seq::empty(),
            ),
            Some(environment::ValueText::Unicode(url)) => environment::env_upstream(vars) == Ok::<
                Seq<char>,
                error::ErrorText,
            >(url),
            Some(environment::ValueText::Other(value)) => environment::env_upstream(vars) == Err::<
                Seq<char>,
                error::ErrorText,
            >(error::ErrorText::InvalidUpstream { value, reason: "not valid Unicode"@ }),
        },
{
}

/// The page's texts with one replaced, if the name is that of a text.
pub open spec fn with_text(text: template::PageText, name: Seq<char>, value: Seq<char>) -> Option<
    template::PageText,
> {
    if name == "MBA_TEMPLATE_PAGE_LANGUAGE"@ {
        Some(template::PageText { page_language: value, ..text })
    } else if name == "MBA_TEMPLATE_PAGE_TITLE"@ {
        Some(template::PageText { page_title: value, ..text })
    } else if name == "MBA_TEMPLATE_PASSWORD_LABEL"@ {
        Some(template::PageText { password_label: value, ..text })
    } else if name == "MBA_TEMPLATE_PASSWORD_PLACEHOLDER"@ {
        Some(template::PageText { password_placeholder: value, ..text })
    } else if name == "MBA_TEMPLATE_WRONG_PASSWORD_MESSAGE"@ {
        Some(template::PageText { wrong_password_message: value, ..text })
    } else if name == "MBA_TEMPLATE_SUBMIT_BUTTON_TEXT"@ {
        Some(template::PageText { submit_button_text: value, ..text })
    } else {
        None
    }
}

/// The page's texts are the defaults, each replaced by the value of its variable,
/// also by an empty one. A value that is not Unicode is an error that names its
/// variable, and the first such error stays; any other variable changes nothing.
pub proof fn lemma_text_variables(vars: Seq<environment::VarText>, var: environment::VarText)
    ensures
        environment::env_page_text(Seq::empty()) == Ok::<template::PageText, error::ErrorText>(
            template::default_page_text(),
        ),
        ({
            let earlier = environment::env_page_text(vars);
            let now = environment::env_page_text(vars.push(var));
            match (earlier, var.name) {
                (Err(e), _) => now == Err::<template::PageText, error::ErrorText>(e),
                (_, None) => now == earlier,
                (Ok(text), Some(name)) => match var.value {
                    environment::ValueText::Unicode(value) => now == match with_text(
                        text,
                        name,
                        value,
                    ) {
                        Some(text) => Ok::<template::PageText, error::ErrorText>(text),
                        None => earlier,
                    },
                    environment::ValueText::Other(value) => now == match with_text(
                        text,
                        name,
                        value,
                    ) {
                        Some(_) => Err::<template::PageText, error::ErrorText>(
                            error::ErrorText::InvalidTemplateText { variable: name },
                        ),
                        None => earlier,
                    },
                },
            }
        }),
{
    assert(vars.push(var).drop_last() =~= vars);
}

/// A template file is used as it stands if it has a path, could be read, and
/// holds more than white space.
pub proof fn lemma_template_files(file: environment::FileText)
    ensures
        ({
            let outcome = environment::custom_template(file);
            let refused = |path: Seq<char>, reason: Seq<char>|
                Err::<Option<Seq<char>>, error::ErrorText>(
                    error::ErrorText::InvalidTemplateFile { path, reason },
                );
            match file {
                environment::FileText::Unset => outcome == Ok::<
                    Option<Seq<char>>,
                    error::ErrorText,
                >(None),
                environment::FileText::Given { path, contents } => if path.len() == 0 {
                    outcome == refused(path, "path must not be empty"@)
                } else {
                    match contents {
                        Err(reason) => outcome == refused(path, reason),
                        Ok(html) => if exists|i: int|
                            0 <= i < html.len() && !text::is_white_space(#[trigger] html[i]) {
                            outcome == Ok::<Option<Seq<char>>, error::ErrorText>(Some(html))
                        } else {
                            outcome == refused(path, "template must contain non-whitespace HTML"@)
                        },
                    }
                },
            }
        }),
{
    if let environment::FileText::Given { path, contents } = file {
        if let Ok(html) = contents {
            lemma_blank_is_trimmed_away(html);
        }
    }
}

proof fn lemma_blank_is_trimmed_away(s: Seq<char>)
    ensures
        text::trimmed(s).len() > 0 <==> exists|i: int|
            0 <= i < s.len() && !text::is_white_space(#[trigger] s[i]),
{
    lemma_blank_start(s);
    let rest = text::trim_start(s);
    text::lemma_trimmed(s);
    if rest.len() > 0 {
        lemma_end_keeps_the_first(rest);
    }
}

proof fn lemma_blank_start(s: Seq<char>)
    ensures
        text::trim_start(s).len() > 0 <==> exists|i: int|
            0 <= i < s.len() && !text::is_white_space(#[trigger] s[i]),
        text::trim_start(s).len() > 0 ==> !text::is_white_space(text::trim_start(s).first()),
    decreases s.len(),
{
    if s.len() > 0 {
        if text::is_white_space(s.first()) {
            let rest = s.drop_first();
            lemma_blank_start(rest);
            if exists|i: int| 0 <= i < rest.len() && !text::is_white_space(#[trigger] rest[i]) {
                let i = choose|i: int|
                    0 <= i < rest.len() && !text::is_white_space(#[trigger] rest[i]);
                assert(!text::is_white_space(s[i + 1]));
            }
            if exists|i: int| 0 <= i < s.len() && !text::is_white_space(#[trigger] s[i]) {
                let i = choose|i: int| 0 <= i < s.len() && !text::is_white_space(#[trigger] s[i]);
                assert(i > 0);
                assert(!text::is_white_space(rest[i - 1]));
            }
        } else {
            assert(!text::is_white_space(s[0]));
        }
    }
}

proof fn lemma_end_keeps_the_first(s: Seq<char>)
    requires
        s.len() > 0,
        !text::is_white_space(s.first()),
    ensures
        text::trim_end(s).len() > 0,
    decreases s.len(),
{
    if text::is_white_space(s.last()) {
        lemma_end_keeps_the_first(s.drop_last());
    }
}

/// What the environment's values make: the service of its passwords, upstream,
/// address, template and texts. An address that is not Unicode fails first, then
/// the template file, then the texts, then the passwords, and then an upstream
/// that is not Unicode.
pub proof fn lemma_environment(
    vars: Seq<environment::VarText>,
    parsed: Option<address::AddressText>,
    file: environment::FileText,
)
    ensures
        ({
            let outcome = config::configured_by_env(vars, parsed, file);
            let passwords = environment::env_passwords(vars);
            let fails = |e: error::ErrorText| outcome == Err::<config::Settings, error::ErrorText>(e);
            match (
                environment::env_address(vars),
                environment::custom_template(file),
                environment::env_page_text(vars),
                environment::env_upstream(vars),
            ) {
                (Err(e), _, _, _) => fails(e),
                (_, Err(e), _, _) => fails(e),
                (_, _, Err(e), _) => fails(e),
                (Ok(address), Ok(template), Ok(text), upstream) => if forall|i: int|
                    0 <= i < passwords.len() ==> (#[trigger] passwords[i]).len() == 0 {
                    fails(error::ErrorText::MissingPassword)
                } else if repeats(passwords) {
                    fails(error::ErrorText::DuplicatePassword)
                } else {
                    match upstream {
                        Err(e) => fails(e),
                        Ok(url) => outcome == config::configured(
                            passwords,
                            url,
                            address,
                            parsed,
                            if template is Some {
                                template->0
                            } else {
                                WALL_TEMPLATE@
                            },
                            text,
                        ),
                    }
                },
            }
        }),
{
    let passwords = environment::env_passwords(vars);
    let given = config::given_passwords(passwords);
    lemma_repeats(passwords);
    if forall|i: int| 0 <= i < passwords.len() ==> (#[trigger] passwords[i]).len() == 0 {
        if given.len() > 0 {
            lemma_given_passwords(passwords, given[0]);
            assert(given.contains(given[0]));
        }
    } else {
        let k = choose|k: int| 0 <= k < passwords.len() && (#[trigger] passwords[k]).len() > 0;
        assert(passwords.contains(passwords[k]));
        lemma_given_passwords(passwords, passwords[k]);
    }
}

/// What the environment's own values are taken for: themselves.
pub proof fn lemma_environment_views(vars: Seq<EnvVar>, file: TemplateFile)
    ensures
        environment::var_texts(vars).len() == vars.len(),
        forall|i: int|
            0 <= i < vars.len() ==> {
                let text = #[trigger] environment::var_texts(vars)[i];
                &&& text.name is None <==> vars[i].name is None
                &&& vars[i].name matches Some(n) ==> text.name == Some(n@)
                &&& vars[i].value matches environment::EnvValue::Unicode(v) ==> text.value
                    == environment::ValueText::Unicode(v@)
                &&& vars[i].value matches environment::EnvValue::Other(v) ==> text.value
                    == environment::ValueText::Other(v@)
            },
        file is Unset <==> file@ is Unset,
        file matches TemplateFile::Given { path, contents: Ok(html) } ==> file@
            == (environment::FileText::Given { path: path@, contents: Ok(html@) }),
        file matches TemplateFile::Given { path, contents: Err(reason) } ==> file@
            == (environment::FileText::Given { path: path@, contents: Err(reason@) }),
{
}

/// What is said of each error, in full.
pub proof fn lemma_messages(value: Seq<char>, reason: Seq<char>)
    ensures
        error::error_message(error::ErrorText::InvalidAddress { value, reason })
            == "`MBA_ADDRESS` is not a valid IP socket address ("@ + reason + "): "@
            + error::debug_text(value),
        error::error_message(error::ErrorText::MissingPassword)
            == "at least one password variable (`MBA_PASSWORD` or `MBA_PASSWORD_<label>`) must have a non-empty UTF-8 value"@,
        error::error_message(error::ErrorText::DuplicatePassword)
            == "two password variables share the same value; each password must be distinct to be revoked independently"@,
        error::error_message(error::ErrorText::InvalidTemplateText { variable: value }) == "`"@
            + value + "` must contain valid Unicode"@,
        error::error_message(error::ErrorText::InvalidTemplateFile { path: value, reason })
            == "`MBA_TEMPLATE_FILE` is not a usable UTF-8 template ("@ + reason + "): \""@ + value
            + "\""@,
        error::error_message(error::ErrorText::MissingUpstream) == "`MBA_UPSTREAM` must be set"@,
        error::error_message(error::ErrorText::InvalidUpstream { value, reason })
            == "`MBA_UPSTREAM` is not a valid absolute http(s) URL ("@ + reason + "): "@
            + error::debug_text(value),
{
    reveal_strlit("`");
    assert("`MBA_ADDRESS` is not a valid IP socket address ("@ =~= "`"@ + "MBA_ADDRESS"@
        + "` is not a valid IP socket address ("@) by {
        reveal_strlit("MBA_ADDRESS");
        reveal_strlit("` is not a valid IP socket address (");
        reveal_strlit("`MBA_ADDRESS` is not a valid IP socket address (");
    }
    assert("at least one password variable (`MBA_PASSWORD` or `MBA_PASSWORD_<label>`) must have a non-empty UTF-8 value"@
        =~= "at least one password variable (`"@ + "MBA_PASSWORD"@ + "` or `"@ + "MBA_PASSWORD_"@
        + "<label>`) must have a non-empty UTF-8 value"@) by {
        reveal_strlit("at least one password variable (`");
        reveal_strlit("MBA_PASSWORD");
        reveal_strlit("` or `");
        reveal_strlit("MBA_PASSWORD_");
        reveal_strlit("<label>`) must have a non-empty UTF-8 value");
        reveal_strlit(
            "at least one password variable (`MBA_PASSWORD` or `MBA_PASSWORD_<label>`) must have a non-empty UTF-8 value",
        );
    }
    assert("`MBA_TEMPLATE_FILE` is not a usable UTF-8 template ("@ =~= "`"@ + "MBA_TEMPLATE_FILE"@
        + "` is not a usable UTF-8 template ("@) by {
        reveal_strlit("MBA_TEMPLATE_FILE");
        reveal_strlit("` is not a usable UTF-8 template (");
        reveal_strlit("`MBA_TEMPLATE_FILE` is not a usable UTF-8 template (");
    }
    assert("`MBA_UPSTREAM` must be set"@ =~= "`"@ + "MBA_UPSTREAM"@ + "` must be set"@) by {
        reveal_strlit("MBA_UPSTREAM");
        reveal_strlit("` must be set");
        reveal_strlit("`MBA_UPSTREAM` must be set");
    }
    assert("`MBA_UPSTREAM` is not a valid absolute http(s) URL ("@ =~= "`"@ + "MBA_UPSTREAM"@
        + "` is not a valid absolute http(s) URL ("@) by {
        reveal_strlit("MBA_UPSTREAM");
        reveal_strlit("` is not a valid absolute http(s) URL (");
        reveal_strlit("`MBA_UPSTREAM` is not a valid absolute http(s) URL (");
    }
}

/// What errors are taken for: their texts.
pub proof fn lemma_error_views(e: ConfigError)
    ensures
        e matches ConfigError::InvalidAddress { value, reason } ==> e@
            == (error::ErrorText::InvalidAddress { value: value@, reason: reason@ }),
        e is MissingPassword <==> e@ is MissingPassword,
        e is DuplicatePassword <==> e@ is DuplicatePassword,
        e matches ConfigError::InvalidTemplateText { variable } ==> e@
            == (error::ErrorText::InvalidTemplateText { variable: variable@ }),
        e matches ConfigError::InvalidTemplateFile { path, reason } ==> e@
            == (error::ErrorText::InvalidTemplateFile { path: path@, reason: reason@ }),
        e is MissingUpstream <==> e@ is MissingUpstream,
        e matches ConfigError::InvalidUpstream { value, reason } ==> e@
            == (error::ErrorText::InvalidUpstream { value: value@, reason: reason@ }),
{
}

/// What is printed of a configuration: where it listens and what it forwards to.
pub proof fn lemma_printed_text(settings: config::Settings)
    ensures
        config::redacted_text(settings) == "Config { bind_address: "@ + settings.bind_address.text
            + ", sessions: \"<redacted>\", upstream: "@ + error::debug_text(settings.upstream)
            + ", wall: \"<rendered HTML>\", wrong_password_wall: \"<rendered HTML>\" }"@,
{
}

} // verus!
