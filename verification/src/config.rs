//! Startup configuration, validated once.
//!
//! `Config` is only constructible when every value is valid, so the rest of the
//! program never has to defend against a half-configured state.

use crate::address;
use crate::address::BindAddress;
use crate::cookies;
use crate::digest;
use crate::digest::Digest;
use crate::environment;
use crate::environment::{EnvVar, TemplateFile, DEFAULT_BIND_ADDRESS};
use crate::error;
use crate::error::ConfigError;
use crate::page::WALL_TEMPLATE;
use crate::template;
use crate::template::TemplateText;
use crate::text;
use crate::upstream;
use vstd::prelude::*;

verus! {

/// Immutable runtime configuration, built once at startup.
pub struct Config {
    /// Validated IP socket address the service listens on.
    bind_address: BindAddress,
    /// BLAKE3 digests of the configured passwords. The session cookie carries
    /// one of these as hex; a request authenticates by presenting a cookie that
    /// matches **any** of them. `Config` stores only the digests, not the
    /// plaintext. The cookie is not harmless: it never contains the plaintext
    /// password, but it holds a password-equivalent bearer token and remains
    /// sensitive (see `redacted`). This is not memory scrubbing: the plaintext
    /// still lives in the process environment.
    sessions: Vec<Digest>,
    /// Validated absolute `http(s)://host[:port]` upstream.
    upstream: String,
    /// Password page rendered once at startup without a login error.
    wall: String,
    /// The same password-page template rendered with a failed-login error.
    wrong_password_wall: String,
}

/// What a `Config` holds.
pub struct Settings {
    pub bind_address: address::AddressText,
    pub sessions: Seq<Seq<u8>>,
    pub upstream: Seq<char>,
    pub wall: Seq<char>,
    pub wrong_password_wall: Seq<char>,
}

/// Settings that a service can run on: a port to listen on, a password to log
/// in with, and a URL to forward to.
pub open spec fn usable(settings: Settings) -> bool {
    &&& settings.bind_address.port != 0
    &&& settings.sessions.len() > 0
    &&& upstream::is_absolute_http(settings.upstream)
}

impl View for Config {
    type V = Settings;

    closed spec fn view(&self) -> Settings {
        Settings {
            bind_address: self.bind_address@,
            sessions: cookies::digest_views(self.sessions@),
            upstream: self.upstream@,
            wall: self.wall@,
            wrong_password_wall: self.wrong_password_wall@,
        }
    }
}

impl Clone for Config {
    fn clone(&self) -> (config: Self)
        ensures
            config@ == self@,
    {
        proof {
            use_type_invariant(self);
        }
        let sessions = self.sessions.clone();
        assert(cookies::digest_views(sessions@) =~= cookies::digest_views(self.sessions@));
        Config {
            bind_address: self.bind_address.clone(),
            sessions,
            upstream: self.upstream.clone(),
            wall: self.wall.clone(),
            wrong_password_wall: self.wrong_password_wall.clone(),
        }
    }
}

/// The passwords that are not empty, in their order.
pub open spec fn given_passwords(passwords: Seq<Seq<char>>) -> Seq<Seq<char>> {
    passwords.filter(|p: Seq<char>| p.len() > 0)
}

/// The digest of a password.
pub open spec fn password_digest(password: Seq<char>) -> Seq<u8> {
    digest::blake3_digest(vstd::utf8::encode_utf8(password))
}

/// The digest of each password.
pub open spec fn password_digests(passwords: Seq<Seq<char>>) -> Seq<Seq<u8>> {
    passwords.map_values(|p: Seq<char>| password_digest(p))
}

/// What is wrong with the passwords, if anything is: none is given, or two are
/// the same.
pub open spec fn password_flaw(passwords: Seq<Seq<char>>) -> Option<error::ErrorText> {
    let given = given_passwords(passwords);
    if given.len() == 0 {
        Some(error::ErrorText::MissingPassword)
    } else if !given.no_duplicates() {
        Some(error::ErrorText::DuplicatePassword)
    } else {
        None
    }
}

/// The settings that the values make, or what is wrong with them. The address
/// comes with the IP socket address that it is, if it is one.
pub open spec fn configured(
    passwords: Seq<Seq<char>>,
    upstream: Seq<char>,
    address: Seq<char>,
    parsed: Option<address::AddressText>,
    template: Seq<char>,
    text: template::PageText,
) -> Result<Settings, error::ErrorText> {
    match (
        password_flaw(passwords),
        upstream::validated_upstream(upstream),
        address::validated_address(address, parsed),
    ) {
        (Some(e), _, _) => Err(e),
        (None, Err(e), _) => Err(e),
        (None, _, Err(e)) => Err(e),
        (None, Ok(upstream), Ok(bind_address)) => Ok(
            Settings {
                bind_address,
                sessions: password_digests(given_passwords(passwords)),
                upstream,
                wall: template::page(template, text, false),
                wrong_password_wall: template::page(template, text, true),
            },
        ),
    }
}

/// The default address to listen on.
pub open spec fn default_address() -> address::AddressText {
    address::AddressText { text: DEFAULT_BIND_ADDRESS@, port: 8000 }
}

/// The settings that passwords and an upstream make, with everything else as it
/// is by default.
pub open spec fn configured_by_default(passwords: Seq<Seq<char>>, upstream: Seq<char>) -> Result<
    Settings,
    error::ErrorText,
> {
    configured(
        passwords,
        upstream,
        DEFAULT_BIND_ADDRESS@,
        Some(default_address()),
        WALL_TEMPLATE@,
        template::default_page_text(),
    )
}

/// The settings that the environment makes. `parsed` is the IP socket address
/// that `env_address` is, if it is one. An upstream that is not Unicode fails
/// where any other upstream is validated: behind the passwords, and before the
/// address.
pub open spec fn configured_by_env(
    vars: Seq<environment::VarText>,
    parsed: Option<address::AddressText>,
    file: environment::FileText,
) -> Result<Settings, error::ErrorText> {
    match (
        environment::env_address(vars),
        environment::custom_template(file),
        environment::env_page_text(vars),
    ) {
        (Err(e), _, _) => Err(e),
        (_, Err(e), _) => Err(e),
        (_, _, Err(e)) => Err(e),
        (Ok(address), Ok(template), Ok(text)) => match (
            password_flaw(environment::env_passwords(vars)),
            environment::env_upstream(vars),
        ) {
            (Some(e), _) => Err(e),
            (None, Err(e)) => Err(e),
            (None, Ok(upstream)) => configured(
                environment::env_passwords(vars),
                upstream,
                address,
                parsed,
                match template {
                    Some(template) => template,
                    None => WALL_TEMPLATE@,
                },
                text,
            ),
        },
    }
}

/// Whether a result is the one that was specified.
pub open spec fn is_outcome(
    result: Result<Config, ConfigError>,
    expected: Result<Settings, error::ErrorText>,
) -> bool {
    match result {
        Ok(config) => expected == Ok::<Settings, error::ErrorText>(config@),
        Err(e) => expected == Err::<Settings, error::ErrorText>(e@),
    }
}

/// The characters of each text.
pub open spec fn str_views(texts: Seq<&str>) -> Seq<Seq<char>> {
    texts.map_values(|t: &str| t@)
}

/// What is printed of a configuration: not the digests.
pub open spec fn redacted_text(settings: Settings) -> Seq<char> {
    "Config { bind_address: "@ + settings.bind_address.text
        + ", sessions: \"<redacted>\", upstream: "@ + error::debug_text(settings.upstream)
        + ", wall: \"<rendered HTML>\", wrong_password_wall: \"<rendered HTML>\" }"@
}

/// The passwords that are not empty.
fn drop_empty<'a>(passwords: &[&'a str]) -> (given: Vec<&'a str>)
    ensures
        str_views(given@) == given_passwords(str_views(passwords@)),
{
    let ghost all = str_views(passwords@);
    let mut given: Vec<&'a str> = Vec::new();
    let mut i: usize = 0;
    proof {
        reveal(Seq::filter);
        assert(str_views(given@) =~= given_passwords(all.take(0)));
    }
    while i < passwords.len()
        invariant
            i <= passwords@.len(),
            all == str_views(passwords@),
            str_views(given@) == given_passwords(all.take(i as int)),
        decreases passwords@.len() - i,
    {
        proof {
            reveal(Seq::filter);
            assert(all.take(i + 1).drop_last() =~= all.take(i as int));
        }
        let ghost earlier = given@;
        let password: &'a str = passwords[i];
        if !password.is_empty() {
            given.push(password);
            assert(str_views(given@) =~= str_views(earlier).push(password@));
        }
        i = i + 1;
    }
    assert(all.take(i as int) =~= all);
    given
}

/// Whether two of the passwords are the same. Startup-time over operator input,
/// so a comparison that is not constant-time is fine; this is not the request
/// path.
fn has_duplicates(passwords: &Vec<&str>) -> (r: bool)
    ensures
        r == !str_views(passwords@).no_duplicates(),
{
    let ghost all = str_views(passwords@);
    let mut i: usize = 0;
    while i < passwords.len()
        invariant
            i <= passwords@.len(),
            all == str_views(passwords@),
            forall|j: int, k: int| 0 <= j < k < i ==> all[j] != all[k],
        decreases passwords@.len() - i,
    {
        let mut j: usize = 0;
        while j < i
            invariant
                j <= i < passwords@.len(),
                all == str_views(passwords@),
                forall|k: int| 0 <= k < j ==> all[k] != all[i as int],
            decreases i - j,
        {
            assert(all[i as int] == passwords@[i as int]@ && all[j as int] == passwords@[j as int]@);
            if *passwords[i] == *passwords[j] {
                return true;
            }
            j = j + 1;
        }
        i = i + 1;
    }
    false
}

/// The passwords that are not empty, unless something is wrong with them.
fn check_passwords<'a>(passwords: &[&'a str]) -> (given: Result<Vec<&'a str>, ConfigError>)
    ensures
        match given {
            Ok(g) => password_flaw(str_views(passwords@)) is None && str_views(g@)
                == given_passwords(str_views(passwords@)),
            Err(e) => password_flaw(str_views(passwords@)) == Some(e@),
        },
{
    // Keep non-empty values (drop unset/blank vars).
    let given = drop_empty(passwords);
    if given.len() == 0 {
        return Err(ConfigError::MissingPassword);
    }
    // Reject duplicates: two variables sharing a value hash to the same
    // digest, so removing one would not revoke the other, breaking
    // independent revocation.
    if has_duplicates(&given) {
        return Err(ConfigError::DuplicatePassword);
    }
    Ok(given)
}

/// The digest of each password.
fn digests_of(passwords: &Vec<&str>) -> (digests: Vec<Digest>)
    ensures
        cookies::digest_views(digests@) == password_digests(str_views(passwords@)),
{
    let ghost all = str_views(passwords@);
    let mut digests: Vec<Digest> = Vec::new();
    let mut i: usize = 0;
    while i < passwords.len()
        invariant
            i <= passwords@.len(),
            all == str_views(passwords@),
            digests@.len() == i,
            forall|j: int| 0 <= j < i ==> (#[trigger] digests@[j])@ == password_digest(all[j]),
        decreases passwords@.len() - i,
    {
        digests.push(Digest::of_password(passwords[i]));
        i = i + 1;
    }
    assert(cookies::digest_views(digests@) =~= password_digests(all));
    digests
}

impl Config {
    #[verifier::type_invariant]
    spec fn valid(self) -> bool {
        usable(self@)
    }

    /// Build from the process environment. `address` is the IP socket address
    /// that `listen_address` is without surrounding white space, if it is one.
    ///
    /// # Errors
    ///
    /// Returns [`ConfigError`] if `MBA_ADDRESS` is not a valid non-zero IP
    /// socket address, no `MBA_PASSWORD*` variable has a non-empty UTF-8 value,
    /// two of them share the same value, a custom template file is unusable, a
    /// template-text override is not valid Unicode, or `MBA_UPSTREAM` is not a
    /// valid absolute HTTP(S) URL.
    pub fn from_env(
        vars: &[EnvVar],
        address: Option<BindAddress>,
        template: &TemplateFile,
    ) -> (config: Result<Self, ConfigError>)
        ensures
            is_outcome(
                config,
                configured_by_env(
                    environment::var_texts(vars@),
                    address::address_view(address),
                    template@,
                ),
            ),
            config matches Ok(c) ==> usable(c@),
    {
        let address_text = match environment::listen_address(vars) {
            Ok(text) => text,
            Err(e) => {
                return Err(e);
            },
        };
        let owned = environment::passwords_from_env(vars);
        let mut passwords: Vec<&str> = Vec::new();
        let mut i: usize = 0;
        while i < owned.len()
            invariant
                i <= owned@.len(),
                passwords@.len() == i,
                forall|j: int| 0 <= j < i ==> (#[trigger] passwords@[j])@ == owned@[j]@,
            decreases owned@.len() - i,
        {
            passwords.push(owned[i].as_str());
            i = i + 1;
        }
        assert(str_views(passwords@) =~= text::views(owned@));
        let custom = match environment::load_custom_template(template) {
            Ok(custom) => custom,
            Err(e) => {
                return Err(e);
            },
        };
        let template = match &custom {
            Some(custom) => custom.as_str(),
            None => WALL_TEMPLATE,
        };
        let template_text = match TemplateText::from_env(vars) {
            Ok(text) => text,
            Err(e) => {
                return Err(e);
            },
        };
        let upstream = match environment::upstream_text(vars) {
            Ok(upstream) => upstream,
            Err(e) => {
                return match check_passwords(passwords.as_slice()) {
                    Ok(_) => Err(e),
                    Err(flaw) => Err(flaw),
                };
            },
        };
        Self::from_passwords_address_template_and_text(
            passwords.as_slice(),
            upstream.as_str(),
            address_text.as_str(),
            address,
            template,
            &template_text,
        )
    }

    /// Build and validate from explicit values (pure, env-free).
    ///
    /// # Errors
    ///
    /// Returns [`ConfigError::MissingPassword`] for an empty password, or
    /// [`ConfigError::MissingUpstream`] / [`ConfigError::InvalidUpstream`] if
    /// the upstream is not a valid absolute HTTP(S) URL. The bind address uses
    /// the default `0.0.0.0:8000`.
    pub fn from_values(password: &str, upstream: &str) -> (config: Result<Self, ConfigError>)
        ensures
            is_outcome(config, configured_by_default(seq![password@], upstream@)),
            config matches Ok(c) ==> usable(c@),
    {
        Self::from_values_and_address(
            password,
            upstream,
            DEFAULT_BIND_ADDRESS,
            Some(BindAddress { text: DEFAULT_BIND_ADDRESS.to_owned(), port: 8000 }),
        )
    }

    /// Build and validate from several explicit passwords (pure, env-free).
    /// Empty entries are ignored; at least one must remain, and all must be
    /// distinct. Any of them authenticates.
    ///
    /// # Errors
    ///
    /// Returns [`ConfigError::MissingPassword`] if no password is non-empty,
    /// [`ConfigError::DuplicatePassword`] if two passwords share a value, or
    /// [`ConfigError::MissingUpstream`] / [`ConfigError::InvalidUpstream`] if
    /// the upstream is not a valid absolute HTTP(S) URL. The bind address uses
    /// the default `0.0.0.0:8000`.
    pub fn from_passwords(passwords: &[&str], upstream: &str) -> (config: Result<Self, ConfigError>)
        ensures
            is_outcome(config, configured_by_default(str_views(passwords@), upstream@)),
            config matches Ok(c) ==> usable(c@),
    {
        Self::from_passwords_and_address(
            passwords,
            upstream,
            DEFAULT_BIND_ADDRESS,
            Some(BindAddress { text: DEFAULT_BIND_ADDRESS.to_owned(), port: 8000 }),
        )
    }

    /// Build and validate the complete runtime configuration from a single
    /// password. `parsed` is the IP socket address that `address` is without
    /// surrounding white space, if it is one.
    pub fn from_values_and_address(
        password: &str,
        upstream: &str,
        address: &str,
        parsed: Option<BindAddress>,
    ) -> (config: Result<Self, ConfigError>)
        ensures
            is_outcome(
                config,
                configured(
                    seq![password@],
                    upstream@,
                    address@,
                    address::address_view(parsed),
                    WALL_TEMPLATE@,
                    template::default_page_text(),
                ),
            ),
            config matches Ok(c) ==> usable(c@),
    {
        let passwords: Vec<&str> = vec![password];
        assert(str_views(passwords@) =~= seq![password@]);
        Self::from_passwords_and_address(passwords.as_slice(), upstream, address, parsed)
    }

    /// Build and validate the complete runtime configuration. `parsed` is the
    /// IP socket address that `address` is without surrounding white space, if
    /// it is one.
    pub fn from_passwords_and_address(
        passwords: &[&str],
        upstream: &str,
        address: &str,
        parsed: Option<BindAddress>,
    ) -> (config: Result<Self, ConfigError>)
        ensures
            is_outcome(
                config,
                configured(
                    str_views(passwords@),
                    upstream@,
                    address@,
                    address::address_view(parsed),
                    WALL_TEMPLATE@,
                    template::default_page_text(),
                ),
            ),
            config matches Ok(c) ==> usable(c@),
    {
        Self::from_passwords_address_template_and_text(
            passwords,
            upstream,
            address,
            parsed,
            WALL_TEMPLATE,
            &TemplateText::default(),
        )
    }

    /// Build and validate the complete runtime configuration with an explicit
    /// password-page template and text. `parsed` is the IP socket address that
    /// `address` is without surrounding white space, if it is one.
    pub fn from_passwords_address_template_and_text(
        passwords: &[&str],
        upstream: &str,
        address: &str,
        parsed: Option<BindAddress>,
        template: &str,
        template_text: &TemplateText,
    ) -> (config: Result<Self, ConfigError>)
        ensures
            is_outcome(
                config,
                configured(
                    str_views(passwords@),
                    upstream@,
                    address@,
                    address::address_view(parsed),
                    template@,
                    template_text@,
                ),
            ),
            config matches Ok(c) ==> usable(c@),
    {
        let given = match check_passwords(passwords) {
            Ok(given) => given,
            Err(e) => {
                return Err(e);
            },
        };
        // Only the digests are retained in `Config`; the plaintext stays with
        // the caller and the process environment (not scrubbed here).
        let sessions = digests_of(&given);
        let upstream = match upstream::validate_upstream(upstream) {
            Ok(upstream) => upstream,
            Err(e) => {
                return Err(e);
            },
        };
        let bind_address = match address::validate_address(address, parsed) {
            Ok(address) => address,
            Err(e) => {
                return Err(e);
            },
        };
        let wall = template::render_template(template, template_text, false);
        let wrong_password_wall = template::render_template(template, template_text, true);
        assert(cookies::digest_views(sessions@).len() == sessions@.len());
        Ok(Config { bind_address, sessions, upstream, wall, wrong_password_wall })
    }

    /// Validated IP socket address the service listens on.
    pub fn bind_address(&self) -> (address: &BindAddress)
        ensures
            address@ == self@.bind_address,
            address@.port != 0,
    {
        proof {
            use_type_invariant(self);
        }
        &self.bind_address
    }

    /// Expected session-cookie digests. A request authenticates by matching any
    /// of them.
    pub fn sessions(&self) -> (sessions: &[Digest])
        ensures
            cookies::digest_views(sessions@) == self@.sessions,
            sessions@.len() > 0,
    {
        proof {
            use_type_invariant(self);
        }
        self.sessions.as_slice()
    }

    /// Validated upstream URL, ready to be forwarded to.
    pub fn upstream(&self) -> (upstream: &str)
        ensures
            upstream@ == self@.upstream,
            upstream::is_absolute_http(upstream@),
    {
        proof {
            use_type_invariant(self);
        }
        self.upstream.as_str()
    }

    /// Rendered password page, ready to use as an HTML response body.
    pub fn wall(&self) -> (wall: &str)
        ensures
            wall@ == self@.wall,
    {
        self.wall.as_str()
    }

    /// Rendered password page with the failed-login state visible.
    pub fn wrong_password_wall(&self) -> (wall: &str)
        ensures
            wall@ == self@.wrong_password_wall,
    {
        self.wrong_password_wall.as_str()
    }

    /// The configuration in one line. Never holds the session digests: each is
    /// a password-equivalent bearer token, so an accidental log must not leak
    /// it.
    pub fn redacted(&self) -> (text: String)
        ensures
            text@ == redacted_text(self@),
    {
        let mut text = String::new();
        text.append("Config { bind_address: ");
        text.append(self.bind_address.text.as_str());
        text.append(", sessions: \"<redacted>\", upstream: ");
        text.append(error::debug_string(self.upstream.as_str()).as_str());
        text.append(", wall: \"<rendered HTML>\", wrong_password_wall: \"<rendered HTML>\" }");
        assert(text@ =~= redacted_text(self@));
        text
    }
}

} // verus!
