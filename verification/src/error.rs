//! Why a configuration could not be built.

use vstd::prelude::*;

verus! {

/// Environment variable holding the IP socket address to listen on.
pub const ENV_ADDRESS: &'static str = "MBA_ADDRESS";

/// Environment variable holding a plain password. At least one of the
/// `MBA_PASSWORD*` family (this or a `MBA_PASSWORD_<label>`) must be non-empty.
pub const ENV_PASSWORD: &'static str = "MBA_PASSWORD";

/// Prefix for additional password variables, e.g. `MBA_PASSWORD_BOB`. The
/// suffix is a free-form label (typically who the password belongs to); it
/// carries no meaning at request time. Reserved: future config must not land
/// under `MBA_PASSWORD_*` or it would be read as a password.
pub const ENV_PASSWORD_PREFIX: &'static str = "MBA_PASSWORD_";

/// Environment variable holding an optional custom password-page template path.
/// The file is read once and both login states render at startup.
pub const ENV_TEMPLATE_FILE: &'static str = "MBA_TEMPLATE_FILE";

/// Environment variable holding the upstream URL (required, absolute
/// `http(s)://host[:port]`).
pub const ENV_UPSTREAM: &'static str = "MBA_UPSTREAM";

/// Why a `Config` could not be built. Surfaced to stderr at startup so a
/// misconfiguration fails fast with an actionable message.
#[derive(Debug, PartialEq, Eq)]
#[allow(inconsistent_fields)]
pub enum ConfigError {
    /// `MBA_ADDRESS` was not a valid non-zero IP socket address.
    InvalidAddress { value: String, reason: &'static str },
    /// No `MBA_PASSWORD*` variable had a non-empty UTF-8 value.
    MissingPassword,
    /// Two `MBA_PASSWORD*` variables shared the same value, which would break
    /// independent revocation.
    DuplicatePassword,
    /// A configured template-text override was not valid Unicode.
    InvalidTemplateText { variable: String },
    /// `MBA_TEMPLATE_FILE` did not name a usable UTF-8 template. The path is in
    /// the form in which it is displayed.
    InvalidTemplateFile { path: String, reason: String },
    /// `MBA_UPSTREAM` was unset or empty.
    MissingUpstream,
    /// `MBA_UPSTREAM` was set but is not an absolute HTTP(S) URL.
    InvalidUpstream { value: String, reason: &'static str },
}

/// The texts of a `ConfigError`.
pub enum ErrorText {
    InvalidAddress { value: Seq<char>, reason: Seq<char> },
    MissingPassword,
    DuplicatePassword,
    InvalidTemplateText { variable: Seq<char> },
    InvalidTemplateFile { path: Seq<char>, reason: Seq<char> },
    MissingUpstream,
    InvalidUpstream { value: Seq<char>, reason: Seq<char> },
}

impl View for ConfigError {
    type V = ErrorText;

    open spec fn view(&self) -> ErrorText {
        match *self {
            ConfigError::InvalidAddress { value, reason } => ErrorText::InvalidAddress {
                value: value@,
                reason: reason@,
            },
            ConfigError::MissingPassword => ErrorText::MissingPassword,
            ConfigError::DuplicatePassword => ErrorText::DuplicatePassword,
            ConfigError::InvalidTemplateText { variable } => ErrorText::InvalidTemplateText {
                variable: variable@,
            },
            ConfigError::InvalidTemplateFile { path, reason } => ErrorText::InvalidTemplateFile {
                path: path@,
                reason: reason@,
            },
            ConfigError::MissingUpstream => ErrorText::MissingUpstream,
            ConfigError::InvalidUpstream { value, reason } => ErrorText::InvalidUpstream {
                value: value@,
                reason: reason@,
            },
        }
    }
}

/// A text in double quotes, with escapes, as `{:?}` formats it.
pub uninterp spec fn debug_text(s: Seq<char>) -> Seq<char>;

/// `str`'s `Debug` formatting: a function of the text alone.
#[verifier::external_body]
pub(crate) fn debug_string(s: &str) -> (quoted: String)
    ensures
        quoted@ == debug_text(s@),
{
    format!("{s:?}")
}

/// What is said of an error.
pub open spec fn error_message(error: ErrorText) -> Seq<char> {
    match error {
        ErrorText::InvalidAddress { value, reason } => "`"@ + ENV_ADDRESS@
            + "` is not a valid IP socket address ("@ + reason + "): "@ + debug_text(value),
        ErrorText::MissingPassword => "at least one password variable (`"@ + ENV_PASSWORD@
            + "` or `"@ + ENV_PASSWORD_PREFIX@ + "<label>`) must have a non-empty UTF-8 value"@,
        ErrorText::DuplicatePassword =>
        "two password variables share the same value; each password must be distinct to be revoked independently"@,
        ErrorText::InvalidTemplateText { variable } => "`"@ + variable
            + "` must contain valid Unicode"@,
        ErrorText::InvalidTemplateFile { path, reason } => "`"@ + ENV_TEMPLATE_FILE@
            + "` is not a usable UTF-8 template ("@ + reason + "): \""@ + path + "\""@,
        ErrorText::MissingUpstream => "`"@ + ENV_UPSTREAM@ + "` must be set"@,
        ErrorText::InvalidUpstream { value, reason } => "`"@ + ENV_UPSTREAM@
            + "` is not a valid absolute http(s) URL ("@ + reason + "): "@ + debug_text(value),
    }
}

impl ConfigError {
    /// The message for whoever starts the service.
    pub fn message(&self) -> (message: String)
        ensures
            message@ == error_message(self@),
    {
        let mut message = String::new();
        match self {
            ConfigError::InvalidAddress { value, reason } => {
                message.append("`");
                message.append(ENV_ADDRESS);
                message.append("` is not a valid IP socket address (");
                message.append(reason);
                message.append("): ");
                message.append(debug_string(value.as_str()).as_str());
            },
            ConfigError::MissingPassword => {
                message.append("at least one password variable (`");
                message.append(ENV_PASSWORD);
                message.append("` or `");
                message.append(ENV_PASSWORD_PREFIX);
                message.append("<label>`) must have a non-empty UTF-8 value");
            },
            ConfigError::DuplicatePassword => {
                message.append(
                    "two password variables share the same value; each password must be distinct to be revoked independently",
                );
            },
            ConfigError::InvalidTemplateText { variable } => {
                message.append("`");
                message.append(variable.as_str());
                message.append("` must contain valid Unicode");
            },
            ConfigError::InvalidTemplateFile { path, reason } => {
                message.append("`");
                message.append(ENV_TEMPLATE_FILE);
                message.append("` is not a usable UTF-8 template (");
                message.append(reason.as_str());
                message.append("): \"");
                message.append(path.as_str());
                message.append("\"");
            },
            ConfigError::MissingUpstream => {
                message.append("`");
                message.append(ENV_UPSTREAM);
                message.append("` must be set");
            },
            ConfigError::InvalidUpstream { value, reason } => {
                message.append("`");
                message.append(ENV_UPSTREAM);
                message.append("` is not a valid absolute http(s) URL (");
                message.append(reason);
                message.append("): ");
                message.append(debug_string(value.as_str()).as_str());
            },
        }
        assert(message@ =~= error_message(self@));
        message
    }
}

} // verus!
