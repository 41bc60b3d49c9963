//! The environment: which variables configure the service, and how.

use crate::error;
use crate::error::{
    ConfigError, ENV_ADDRESS, ENV_PASSWORD, ENV_PASSWORD_PREFIX, ENV_UPSTREAM,
};
use crate::template;
use crate::template::TemplateText;
use crate::text;
use vstd::prelude::*;

verus! {

/// Default IP socket address the service listens on.
pub const DEFAULT_BIND_ADDRESS: &'static str = "0.0.0.0:8000";

/// Environment variable overriding the password page's document language.
pub const ENV_TEMPLATE_PAGE_LANGUAGE: &'static str = "MBA_TEMPLATE_PAGE_LANGUAGE";

/// Environment variable overriding the password page's title.
pub const ENV_TEMPLATE_PAGE_TITLE: &'static str = "MBA_TEMPLATE_PAGE_TITLE";

/// Environment variable overriding the password field's accessible label.
pub const ENV_TEMPLATE_PASSWORD_LABEL: &'static str = "MBA_TEMPLATE_PASSWORD_LABEL";

/// Environment variable overriding the password field's placeholder.
pub const ENV_TEMPLATE_PASSWORD_PLACEHOLDER: &'static str = "MBA_TEMPLATE_PASSWORD_PLACEHOLDER";

/// Environment variable overriding the failed-login message. In the built-in
/// page it is announced to assistive technologies only and not shown visually
/// (sighted users see the invalid-field icon and red border); a custom template
/// may render `{{WRONG_PASSWORD_MESSAGE}}` wherever it likes.
pub const ENV_TEMPLATE_WRONG_PASSWORD_MESSAGE: &'static str = "MBA_TEMPLATE_WRONG_PASSWORD_MESSAGE";

/// Environment variable overriding the submit button's text.
pub const ENV_TEMPLATE_SUBMIT_BUTTON_TEXT: &'static str = "MBA_TEMPLATE_SUBMIT_BUTTON_TEXT";

/// The value of an environment variable.
pub enum EnvValue {
    /// Valid Unicode.
    Unicode(String),
    /// Anything else, in the form in which it is displayed.
    Other(String),
}

/// One variable of the process environment.
pub struct EnvVar {
    /// The name, if it is valid Unicode.
    pub name: Option<String>,
    pub value: EnvValue,
}

/// The characters of an `EnvValue`.
pub enum ValueText {
    Unicode(Seq<char>),
    Other(Seq<char>),
}

/// The texts of an `EnvVar`.
pub struct VarText {
    pub name: Option<Seq<char>>,
    pub value: ValueText,
}

impl View for EnvValue {
    type V = ValueText;

    open spec fn view(&self) -> ValueText {
        match *self {
            EnvValue::Unicode(s) => ValueText::Unicode(s@),
            EnvValue::Other(s) => ValueText::Other(s@),
        }
    }
}

impl View for EnvVar {
    type V = VarText;

    open spec fn view(&self) -> VarText {
        VarText {
            name: match self.name {
                Some(name) => Some(name@),
                None => None,
            },
            value: self.value@,
        }
    }
}

/// The texts of each variable.
pub open spec fn var_texts(vars: Seq<EnvVar>) -> Seq<VarText> {
    vars.map_values(|v: EnvVar| v@)
}

/// The value of the first variable of that name, if there is one.
pub open spec fn lookup_value(vars: Seq<VarText>, name: Seq<char>) -> Option<ValueText>
    decreases vars.len(),
{
    if vars.len() == 0 {
        None
    } else if vars.first().name == Some(name) {
        Some(vars.first().value)
    } else {
        lookup_value(vars.drop_first(), name)
    }
}

/// Whether a variable of that name holds a password.
pub open spec fn is_password_name(name: Seq<char>) -> bool {
    name == ENV_PASSWORD@ || ENV_PASSWORD_PREFIX@.is_prefix_of(name)
}

/// The password that a variable holds, if it holds one.
pub open spec fn var_password(var: VarText) -> Option<Seq<char>> {
    match (var.name, var.value) {
        (Some(name), ValueText::Unicode(value)) => if is_password_name(name) {
            Some(value)
        } else {
            None
        },
        _ => None,
    }
}

/// The passwords that variables hold, in their order.
pub open spec fn env_passwords(vars: Seq<VarText>) -> Seq<Seq<char>>
    decreases vars.len(),
{
    if vars.len() == 0 {
        Seq::empty()
    } else {
        match var_password(vars.last()) {
            Some(password) => env_passwords(vars.drop_last()).push(password),
            None => env_passwords(vars.drop_last()),
        }
    }
}

/// The address to listen on, as text: `MBA_ADDRESS`, or the default if that is
/// unset.
pub open spec fn env_address(vars: Seq<VarText>) -> Result<Seq<char>, error::ErrorText> {
    match lookup_value(vars, ENV_ADDRESS@) {
        None => Ok(DEFAULT_BIND_ADDRESS@),
        Some(ValueText::Unicode(address)) => Ok(address),
        Some(ValueText::Other(value)) => Err(
            error::ErrorText::InvalidAddress { value, reason: "not valid Unicode"@ },
        ),
    }
}

/// The upstream, as text: `MBA_UPSTREAM`, or nothing if that is unset.
pub open spec fn env_upstream(vars: Seq<VarText>) -> Result<Seq<char>, error::ErrorText> {
    match lookup_value(vars, ENV_UPSTREAM@) {
        None => Ok(Seq::empty()),
        Some(ValueText::Unicode(upstream)) => Ok(upstream),
        Some(ValueText::Other(value)) => Err(
            error::ErrorText::InvalidUpstream { value, reason: "not valid Unicode"@ },
        ),
    }
}

/// The page's texts with the one that the variable overrides replaced; none if
/// the variable overrides no text.
pub open spec fn overridden(
    text: template::PageText,
    name: Seq<char>,
    value: Seq<char>,
) -> Option<template::PageText> {
    if name == ENV_TEMPLATE_PAGE_LANGUAGE@ {
        Some(template::PageText { page_language: value, ..text })
    } else if name == ENV_TEMPLATE_PAGE_TITLE@ {
        Some(template::PageText { page_title: value, ..text })
    } else if name == ENV_TEMPLATE_PASSWORD_LABEL@ {
        Some(template::PageText { password_label: value, ..text })
    } else if name == ENV_TEMPLATE_PASSWORD_PLACEHOLDER@ {
        Some(template::PageText { password_placeholder: value, ..text })
    } else if name == ENV_TEMPLATE_WRONG_PASSWORD_MESSAGE@ {
        Some(template::PageText { wrong_password_message: value, ..text })
    } else if name == ENV_TEMPLATE_SUBMIT_BUTTON_TEXT@ {
        Some(template::PageText { submit_button_text: value, ..text })
    } else {
        None
    }
}

/// Whether a variable of that name overrides one of the page's texts.
pub open spec fn is_text_name(name: Seq<char>) -> bool {
    ||| name == ENV_TEMPLATE_PAGE_LANGUAGE@
    ||| name == ENV_TEMPLATE_PAGE_TITLE@
    ||| name == ENV_TEMPLATE_PASSWORD_LABEL@
    ||| name == ENV_TEMPLATE_PASSWORD_PLACEHOLDER@
    ||| name == ENV_TEMPLATE_WRONG_PASSWORD_MESSAGE@
    ||| name == ENV_TEMPLATE_SUBMIT_BUTTON_TEXT@
}

/// The page's texts: the defaults, overridden by one variable after the other.
/// The first override that is not Unicode is an error.
pub open spec fn env_page_text(vars: Seq<VarText>) -> Result<template::PageText, error::ErrorText>
    decreases vars.len(),
{
    if vars.len() == 0 {
        Ok(template::default_page_text())
    } else {
        match env_page_text(vars.drop_last()) {
            Err(e) => Err(e),
            Ok(text) => match (vars.last().name, vars.last().value) {
                (Some(name), ValueText::Unicode(value)) => match overridden(text, name, value) {
                    Some(text) => Ok(text),
                    None => Ok(text),
                },
                (Some(name), ValueText::Other(_)) => if is_text_name(name) {
                    Err(error::ErrorText::InvalidTemplateText { variable: name })
                } else {
                    Ok(text)
                },
                _ => Ok(text),
            },
        }
    }
}

/// Whether the name is valid Unicode and the given one.
fn is_named(var: &EnvVar, name: &str) -> (r: bool)
    ensures
        r == (var@.name == Some(name@)),
{
    match &var.name {
        Some(n) => *n.as_str() == *name,
        None => false,
    }
}

/// The value of the first variable of that name, if there is one.
pub fn lookup<'a>(vars: &'a [EnvVar], name: &str) -> (value: Option<&'a EnvValue>)
    ensures
        match value {
            Some(v) => lookup_value(var_texts(vars@), name@) == Some(v@),
            None => lookup_value(var_texts(vars@), name@) is None,
        },
{
    let ghost texts = var_texts(vars@);
    let mut i: usize = 0;
    assert(texts.skip(0) =~= texts);
    while i < vars.len()
        invariant
            i <= vars@.len(),
            texts == var_texts(vars@),
            lookup_value(texts, name@) == lookup_value(texts.skip(i as int), name@),
        decreases vars@.len() - i,
    {
        assert(texts.skip(i as int).first() == vars@[i as int]@);
        assert(texts.skip(i as int).drop_first() =~= texts.skip(i + 1));
        if is_named(&vars[i], name) {
            return Some(&vars[i].value);
        }
        i = i + 1;
    }
    None
}

/// The address to listen on, as text: `MBA_ADDRESS`, or the default if that is
/// unset.
pub fn listen_address(vars: &[EnvVar]) -> (address: Result<String, ConfigError>)
    ensures
        match address {
            Ok(a) => env_address(var_texts(vars@)) == Ok::<Seq<char>, error::ErrorText>(a@),
            Err(e) => env_address(var_texts(vars@)) == Err::<Seq<char>, error::ErrorText>(e@),
        },
{
    match lookup(vars, ENV_ADDRESS) {
        None => Ok(DEFAULT_BIND_ADDRESS.to_owned()),
        Some(EnvValue::Unicode(address)) => Ok(address.clone()),
        Some(EnvValue::Other(value)) => Err(
            ConfigError::InvalidAddress { value: value.clone(), reason: "not valid Unicode" },
        ),
    }
}

/// The upstream, as text: `MBA_UPSTREAM`, or nothing if that is unset. A value
/// that is set but not Unicode is no URL.
pub fn upstream_text(vars: &[EnvVar]) -> (upstream: Result<String, ConfigError>)
    ensures
        match upstream {
            Ok(u) => env_upstream(var_texts(vars@)) == Ok::<Seq<char>, error::ErrorText>(u@),
            Err(e) => env_upstream(var_texts(vars@)) == Err::<Seq<char>, error::ErrorText>(e@),
        },
{
    match lookup(vars, ENV_UPSTREAM) {
        None => Ok(String::new()),
        Some(EnvValue::Unicode(upstream)) => Ok(upstream.clone()),
        Some(EnvValue::Other(value)) => Err(
            ConfigError::InvalidUpstream { value: value.clone(), reason: "not valid Unicode" },
        ),
    }
}

/// Every configured password from the environment: `MBA_PASSWORD` and any name
/// starting with `MBA_PASSWORD_`. Order is irrelevant (any match
/// authenticates); empty values are dropped downstream. Non-Unicode names never
/// match; non-Unicode values are skipped (a form-entered password is always
/// UTF-8, so such a value is unusable anyway).
pub fn passwords_from_env(vars: &[EnvVar]) -> (passwords: Vec<String>)
    ensures
        text::views(passwords@) == env_passwords(var_texts(vars@)),
{
    let ghost texts = var_texts(vars@);
    let mut passwords: Vec<String> = Vec::new();
    let mut i: usize = 0;
    assert(text::views(passwords@) =~= env_passwords(texts.take(0)));
    while i < vars.len()
        invariant
            i <= vars@.len(),
            texts == var_texts(vars@),
            text::views(passwords@) == env_passwords(texts.take(i as int)),
        decreases vars@.len() - i,
    {
        assert(texts.take(i + 1).drop_last() =~= texts.take(i as int));
        let ghost earlier = passwords@;
        if let Some(name) = &vars[i].name {
            if *name.as_str() == *ENV_PASSWORD || text::starts_with(
                name.as_str(),
                ENV_PASSWORD_PREFIX,
            ) {
                if let EnvValue::Unicode(value) = &vars[i].value {
                    passwords.push(value.clone());
                    assert(text::views(passwords@) =~= text::views(earlier).push(value@));
                }
            }
        }
        assert(texts.take(i + 1).last() == vars@[i as int]@);
        i = i + 1;
    }
    assert(texts.take(i as int) =~= texts);
    passwords
}

impl TemplateText {
    /// Put `value` in place of the text that the variable `name` overrides.
    fn replace(&mut self, name: &str, value: String)
        requires
            is_text_name(name@),
        ensures
            overridden(old(self)@, name@, value@) == Some(final(self)@),
    {
        if *name == *ENV_TEMPLATE_PAGE_LANGUAGE {
            self.page_language = value;
        } else if *name == *ENV_TEMPLATE_PAGE_TITLE {
            self.page_title = value;
        } else if *name == *ENV_TEMPLATE_PASSWORD_LABEL {
            self.password_label = value;
        } else if *name == *ENV_TEMPLATE_PASSWORD_PLACEHOLDER {
            self.password_placeholder = value;
        } else if *name == *ENV_TEMPLATE_WRONG_PASSWORD_MESSAGE {
            self.wrong_password_message = value;
        } else {
            self.submit_button_text = value;
        }
    }

    /// Read fixed template-text overrides from the environment. Unknown
    /// `MBA_TEMPLATE_*` variables are deliberately ignored: the prefix is
    /// reserved for explicit settings, including the template file.
    pub fn from_env(vars: &[EnvVar]) -> (text: Result<Self, ConfigError>)
        ensures
            match text {
                Ok(t) => env_page_text(var_texts(vars@)) == Ok::<
                    template::PageText,
                    error::ErrorText,
                >(t@),
                Err(e) => env_page_text(var_texts(vars@)) == Err::<
                    template::PageText,
                    error::ErrorText,
                >(e@),
            },
    {
        let ghost texts = var_texts(vars@);
        let mut text = TemplateText::default();
        let mut i: usize = 0;
        while i < vars.len()
            invariant
                i <= vars@.len(),
                texts == var_texts(vars@),
                env_page_text(texts.take(i as int)) == Ok::<template::PageText, error::ErrorText>(
                    text@,
                ),
            decreases vars@.len() - i,
        {
            proof {
                assert(texts.take(i + 1).drop_last() =~= texts.take(i as int));
                assert(texts.take(i + 1).last() == vars@[i as int]@);
            }
            if let Some(name) = &vars[i].name {
                if is_override(name.as_str()) {
                    match &vars[i].value {
                        EnvValue::Unicode(value) => text.replace(name.as_str(), value.clone()),
                        EnvValue::Other(_) => {
                            proof {
                                lemma_page_text_error(texts, i + 1);
                            }
                            return Err(ConfigError::InvalidTemplateText { variable: name.clone() });
                        },
                    }
                }
            }
            i = i + 1;
        }
        assert(texts.take(i as int) =~= texts);
        Ok(text)
    }
}

/// Whether a variable of that name overrides one of the page's texts.
fn is_override(name: &str) -> (r: bool)
    ensures
        r == is_text_name(name@),
{
    *name == *ENV_TEMPLATE_PAGE_LANGUAGE || *name == *ENV_TEMPLATE_PAGE_TITLE || *name
        == *ENV_TEMPLATE_PASSWORD_LABEL || *name == *ENV_TEMPLATE_PASSWORD_PLACEHOLDER || *name
        == *ENV_TEMPLATE_WRONG_PASSWORD_MESSAGE || *name == *ENV_TEMPLATE_SUBMIT_BUTTON_TEXT
}

/// An error among the first `n` variables is the error of them all.
proof fn lemma_page_text_error(vars: Seq<VarText>, n: int)
    requires
        0 <= n <= vars.len(),
        env_page_text(vars.take(n)) is Err,
    ensures
        env_page_text(vars) == env_page_text(vars.take(n)),
    decreases vars.len() - n,
{
    if n == vars.len() {
        assert(vars.take(n) =~= vars);
    } else {
        assert(vars.take(n + 1).drop_last() =~= vars.take(n));
        lemma_page_text_error(vars, n + 1);
    }
}

/// The custom template file, as it was found.
pub enum TemplateFile {
    /// `MBA_TEMPLATE_FILE` is unset.
    Unset,
    /// The configured path, in the form in which it is displayed, and either
    /// what the file holds or why it could not be read as UTF-8.
    Given { path: String, contents: Result<String, String> },
}

/// The texts of a `TemplateFile`.
pub enum FileText {
    Unset,
    Given { path: Seq<char>, contents: Result<Seq<char>, Seq<char>> },
}

impl View for TemplateFile {
    type V = FileText;

    open spec fn view(&self) -> FileText {
        match *self {
            TemplateFile::Unset => FileText::Unset,
            TemplateFile::Given { path, contents } => FileText::Given {
                path: path@,
                contents: match contents {
                    Ok(text) => Ok(text@),
                    Err(reason) => Err(reason@),
                },
            },
        }
    }
}

/// The custom template, if one is configured.
pub open spec fn custom_template(file: FileText) -> Result<Option<Seq<char>>, error::ErrorText> {
    match file {
        FileText::Unset => Ok(None),
        FileText::Given { path, contents } => if path.len() == 0 {
            Err(error::ErrorText::InvalidTemplateFile { path, reason: "path must not be empty"@ })
        } else {
            match contents {
                Err(reason) => Err(error::ErrorText::InvalidTemplateFile { path, reason }),
                Ok(template) => if text::trimmed(template).len() == 0 {
                    Err(
                        error::ErrorText::InvalidTemplateFile {
                            path,
                            reason: "template must contain non-whitespace HTML"@,
                        },
                    )
                } else {
                    Ok(Some(template))
                },
            }
        },
    }
}

/// Load an explicitly configured template, returning `None` when unset. Custom
/// files must contain non-whitespace UTF-8 so a definite misconfiguration
/// cannot turn the login page into an empty response.
pub fn load_custom_template(file: &TemplateFile) -> (template: Result<Option<String>, ConfigError>)
    ensures
        match template {
            Ok(Some(t)) => custom_template(file@) == Ok::<Option<Seq<char>>, error::ErrorText>(
                Some(t@),
            ),
            Ok(None) => custom_template(file@) == Ok::<Option<Seq<char>>, error::ErrorText>(None),
            Err(e) => custom_template(file@) == Err::<Option<Seq<char>>, error::ErrorText>(e@),
        },
{
    match file {
        TemplateFile::Unset => Ok(None),
        TemplateFile::Given { path, contents } => {
            if path.as_str().is_empty() {
                return Err(
                    ConfigError::InvalidTemplateFile {
                        path: path.clone(),
                        reason: "path must not be empty".to_owned(),
                    },
                );
            }
            match contents {
                Err(reason) => Err(
                    ConfigError::InvalidTemplateFile { path: path.clone(), reason: reason.clone() },
                ),
                Ok(template) => if template.as_str().trim().is_empty() {
                    Err(
                        ConfigError::InvalidTemplateFile {
                            path: path.clone(),
                            reason: "template must contain non-whitespace HTML".to_owned(),
                        },
                    )
                } else {
                    Ok(Some(template.clone()))
                },
            }
        },
    }
}

} // verus!
