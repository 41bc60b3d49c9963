//! Startup configuration: values, address, upstream, passwords, page.

use mildly_basic_auth::address::{validate_address, BindAddress};
use mildly_basic_auth::digest::Digest;
use mildly_basic_auth::environment::{
    listen_address, load_custom_template, passwords_from_env, upstream_text, EnvValue, EnvVar,
    TemplateFile, DEFAULT_BIND_ADDRESS, ENV_TEMPLATE_PAGE_LANGUAGE, ENV_TEMPLATE_PAGE_TITLE,
    ENV_TEMPLATE_PASSWORD_LABEL, ENV_TEMPLATE_PASSWORD_PLACEHOLDER,
    ENV_TEMPLATE_SUBMIT_BUTTON_TEXT, ENV_TEMPLATE_WRONG_PASSWORD_MESSAGE,
};
use mildly_basic_auth::error::ENV_TEMPLATE_FILE;
use mildly_basic_auth::template::{render_template, TemplateText};
use mildly_basic_auth::{Config, ConfigError};

/// The IP socket address that a text is without surrounding white space, among
/// those that are used here.
fn parsed(address: &str) -> Option<BindAddress> {
    let addresses = [
        ("0.0.0.0:8000", 8000),
        ("127.0.0.1:4630", 4630),
        ("[::1]:4630", 4630),
        ("127.0.0.1:0", 0),
    ];
    addresses
        .iter()
        .find(|(text, _)| *text == address.trim())
        .map(|(text, port)| BindAddress { text: text.to_string(), port: *port })
}

/// A configuration that listens on `address`.
fn at_address(address: &str) -> Result<Config, ConfigError> {
    Config::from_values_and_address("hunter2", "http://app:2001", address, parsed(address))
}

/// The default page's configuration.
fn default_config() -> Config {
    Config::from_values("hunter2", "http://app:2001").unwrap()
}

/// The digest of a password.
fn digest(password: &[u8]) -> Digest {
    Digest { bytes: *blake3::hash(password).as_bytes() }
}

/// Variables of Unicode names and values.
fn variables(vars: &[(&str, &str)]) -> Vec<EnvVar> {
    vars.iter()
        .map(|(name, value)| EnvVar {
            name: Some(name.to_string()),
            value: EnvValue::Unicode(value.to_string()),
        })
        .collect()
}

/// A readable template file.
fn template_file(contents: &str) -> TemplateFile {
    TemplateFile::Given { path: "/tmp/wall.html".to_owned(), contents: Ok(contents.to_owned()) }
}

/// Template text from explicit variables.
fn template_text_from_vars(vars: &[(&str, &str)]) -> TemplateText {
    TemplateText::from_env(&variables(vars)).unwrap()
}

/// The start tag of the page's input field.
fn input_tag(wall: &str) -> &str {
    let tag = &wall[wall.find("<input").unwrap()..];
    &tag[..tag.find('>').unwrap()]
}

#[test]
fn valid_values_build_a_config() {
    assert!(Config::from_values("hunter2", "http://app:2001").is_ok());
}

#[test]
fn default_template_text_renders_the_existing_page_text() {
    let config = default_config();
    let wall = config.wall();

    assert!(wall.contains("<html lang=\"en\">"));
    assert!(wall.contains("<title>Welcome!</title>"));
    assert!(wall.contains(">Password</label>"));
    assert!(wall.contains("placeholder=\"password\""));
    assert!(wall.contains(">Enter</button>"));
}

#[test]
fn default_wall_hides_the_wrong_password_error() {
    let config = default_config();
    let wall = config.wall();

    assert!(wall.contains("aria-invalid=\"false\""));
    assert!(!wall.contains("Wrong password."));
}

#[test]
fn wrong_password_wall_shows_the_error() {
    let config = default_config();
    let wall = config.wrong_password_wall();

    assert!(wall.contains("aria-invalid=\"true\""));
    assert!(wall.contains("Wrong password."));
}

#[test]
fn wrong_password_wall_autofocuses_the_field() {
    let config = default_config();

    // Only the start tag: the page also carries a marker comment that mentions
    // `autofocus`.
    assert!(input_tag(config.wrong_password_wall()).contains("autofocus"));
}

#[test]
fn default_wall_does_not_autofocus() {
    let config = default_config();

    assert!(!input_tag(config.wall()).contains("autofocus"));
}

#[test]
fn built_in_wall_includes_the_alert_icon_glyph() {
    let config = default_config();

    // The lucide `circle-alert` outline; guards against the icon being dropped.
    assert!(config.wall().contains(r#"<circle cx="12" cy="12" r="10">"#));
}

#[test]
fn unset_template_file_has_no_override() {
    assert_eq!(load_custom_template(&TemplateFile::Unset).unwrap(), None);
}

#[test]
fn custom_template_file_is_loaded() {
    let template = load_custom_template(&template_file("<p>{{PAGE_TITLE}}</p>")).unwrap();

    assert_eq!(template.as_deref(), Some("<p>{{PAGE_TITLE}}</p>"));
}

#[test]
fn explicit_template_uses_configured_text() {
    let text = TemplateText { page_title: "Custom title".to_owned(), ..TemplateText::default() };

    let config = Config::from_passwords_address_template_and_text(
        &["hunter2"],
        "http://app:2001",
        DEFAULT_BIND_ADDRESS,
        parsed(DEFAULT_BIND_ADDRESS),
        "<title>{{PAGE_TITLE}}</title>",
        &text,
    )
    .unwrap();

    assert_eq!(config.wall(), "<title>Custom title</title>");
}

#[test]
fn empty_template_file_path_is_rejected() {
    let file = TemplateFile::Given { path: String::new(), contents: Ok("<p></p>".to_owned()) };

    assert!(matches!(
        load_custom_template(&file),
        Err(ConfigError::InvalidTemplateFile { path, reason })
            if path.is_empty() && reason == "path must not be empty"
    ));
}

#[test]
fn missing_template_file_is_rejected() {
    let file = TemplateFile::Given {
        path: "/tmp/wall.html".to_owned(),
        contents: Err("No such file or directory (os error 2)".to_owned()),
    };

    assert!(matches!(
        load_custom_template(&file),
        Err(ConfigError::InvalidTemplateFile { path, reason })
            if path == "/tmp/wall.html" && reason == "No such file or directory (os error 2)"
    ));
}

#[test]
fn non_utf8_template_file_is_rejected() {
    let file = TemplateFile::Given {
        path: "/tmp/wall.html".to_owned(),
        contents: Err(String::from_utf8(vec![0xff]).unwrap_err().to_string()),
    };

    assert!(matches!(
        load_custom_template(&file),
        Err(ConfigError::InvalidTemplateFile { .. })
    ));
}

#[test]
fn empty_template_file_is_rejected() {
    assert!(matches!(
        load_custom_template(&template_file("")),
        Err(ConfigError::InvalidTemplateFile { reason, .. })
            if reason == "template must contain non-whitespace HTML"
    ));
}

#[test]
fn whitespace_only_template_file_is_rejected() {
    assert!(matches!(
        load_custom_template(&template_file(" \n\t")),
        Err(ConfigError::InvalidTemplateFile { .. })
    ));
}

#[test]
fn page_language_variable_overrides_the_default() {
    let text = template_text_from_vars(&[(ENV_TEMPLATE_PAGE_LANGUAGE, "fr")]);
    assert_eq!(text.page_language, "fr");
}

#[test]
fn page_title_variable_overrides_the_default() {
    let text = template_text_from_vars(&[(ENV_TEMPLATE_PAGE_TITLE, "Mon site")]);
    assert_eq!(text.page_title, "Mon site");
}

#[test]
fn password_label_variable_overrides_the_default() {
    let text = template_text_from_vars(&[(ENV_TEMPLATE_PASSWORD_LABEL, "Mot de passe")]);
    assert_eq!(text.password_label, "Mot de passe");
}

#[test]
fn password_placeholder_variable_overrides_the_default() {
    let text = template_text_from_vars(&[(ENV_TEMPLATE_PASSWORD_PLACEHOLDER, "Secret")]);
    assert_eq!(text.password_placeholder, "Secret");
}

#[test]
fn wrong_password_message_variable_overrides_the_default() {
    let text = template_text_from_vars(&[(
        ENV_TEMPLATE_WRONG_PASSWORD_MESSAGE,
        "Mot de passe incorrect.",
    )]);
    assert_eq!(text.wrong_password_message, "Mot de passe incorrect.");
}

#[test]
fn submit_button_text_variable_overrides_the_default() {
    let text = template_text_from_vars(&[(ENV_TEMPLATE_SUBMIT_BUTTON_TEXT, "Entrer")]);
    assert_eq!(text.submit_button_text, "Entrer");
}

#[test]
fn empty_template_text_variable_overrides_the_default() {
    let text = template_text_from_vars(&[(ENV_TEMPLATE_PAGE_TITLE, "")]);
    assert!(text.page_title.is_empty());
}

#[test]
fn unknown_template_variable_is_ignored() {
    let text = template_text_from_vars(&[(ENV_TEMPLATE_FILE, "/tmp/wall.html")]);
    assert_eq!(text.page_title, "Welcome!");
}

#[test]
fn non_unicode_template_text_is_rejected() {
    let vars = [EnvVar {
        name: Some(ENV_TEMPLATE_PAGE_TITLE.to_owned()),
        value: EnvValue::Other("\u{fffd}".to_owned()),
    }];

    assert!(matches!(
        TemplateText::from_env(&vars),
        Err(ConfigError::InvalidTemplateText { variable })
            if variable == ENV_TEMPLATE_PAGE_TITLE
    ));
}

#[test]
fn template_values_are_html_escaped() {
    let text = TemplateText { page_title: "&<>\"'".to_owned(), ..TemplateText::default() };

    let rendered = render_template("{{PAGE_TITLE}}", &text, false);

    assert_eq!(rendered, "&amp;&lt;&gt;&quot;&#39;");
}

#[test]
fn wrong_password_message_is_html_escaped() {
    let text =
        TemplateText { wrong_password_message: "&<>\"'".to_owned(), ..TemplateText::default() };

    let rendered = render_template("{{WRONG_PASSWORD_MESSAGE}}", &text, true);

    assert_eq!(rendered, "&amp;&lt;&gt;&quot;&#39;");
}

#[test]
fn template_values_are_not_rendered_recursively() {
    let text = TemplateText {
        page_title: "{{SUBMIT_BUTTON_TEXT}}".to_owned(),
        submit_button_text: "Submit".to_owned(),
        ..TemplateText::default()
    };

    let rendered = render_template("{{PAGE_TITLE}}", &text, false);

    assert_eq!(rendered, "{{SUBMIT_BUTTON_TEXT}}");
}

#[test]
fn template_without_known_markers_is_unchanged() {
    let rendered = render_template("<p>{{UNKNOWN}}</p>", &TemplateText::default(), false);
    assert_eq!(rendered, "<p>{{UNKNOWN}}</p>");
}

#[test]
fn renderer_leaves_an_empty_template_empty() {
    let rendered = render_template("", &TemplateText::default(), false);
    assert!(rendered.is_empty());
}

#[test]
fn values_use_the_default_address() {
    let config = default_config();
    assert_eq!(*config.bind_address(), parsed("0.0.0.0:8000").unwrap());
}

#[test]
fn custom_ipv4_address_is_accepted() {
    let config = at_address("127.0.0.1:4630").unwrap();
    assert_eq!(*config.bind_address(), parsed("127.0.0.1:4630").unwrap());
}

#[test]
fn custom_ipv6_address_is_accepted() {
    let config = at_address("[::1]:4630").unwrap();
    assert_eq!(*config.bind_address(), parsed("[::1]:4630").unwrap());
}

#[test]
fn surrounding_whitespace_in_address_is_trimmed() {
    let config = at_address("  127.0.0.1:4630  ").unwrap();
    assert_eq!(*config.bind_address(), parsed("127.0.0.1:4630").unwrap());
}

#[test]
fn empty_address_is_rejected() {
    assert!(matches!(at_address(""), Err(ConfigError::InvalidAddress { .. })));
}

#[test]
fn hostname_address_is_rejected() {
    assert!(matches!(at_address("localhost:4630"), Err(ConfigError::InvalidAddress { .. })));
}

#[test]
fn address_without_port_is_rejected() {
    assert!(matches!(at_address("127.0.0.1"), Err(ConfigError::InvalidAddress { .. })));
}

#[test]
fn address_with_non_numeric_port_is_rejected() {
    assert!(matches!(at_address("127.0.0.1:abc"), Err(ConfigError::InvalidAddress { .. })));
}

#[test]
fn address_with_out_of_range_port_is_rejected() {
    assert!(matches!(at_address("127.0.0.1:99999"), Err(ConfigError::InvalidAddress { .. })));
}

#[test]
fn address_with_zero_port_is_rejected() {
    assert!(matches!(at_address("127.0.0.1:0"), Err(ConfigError::InvalidAddress { .. })));
}

#[test]
fn https_upstream_is_accepted() {
    assert!(Config::from_values("hunter2", "https://app.example.com").is_ok());
}

#[test]
fn empty_password_is_rejected() {
    assert!(matches!(
        Config::from_values("", "http://app:2001"),
        Err(ConfigError::MissingPassword)
    ));
}

#[test]
fn empty_upstream_is_rejected() {
    assert!(matches!(Config::from_values("hunter2", ""), Err(ConfigError::MissingUpstream)));
}

#[test]
fn relative_upstream_is_rejected() {
    assert!(matches!(
        Config::from_values("hunter2", "/foo"),
        Err(ConfigError::InvalidUpstream { .. })
    ));
}

#[test]
fn scheme_only_upstream_without_authority_is_rejected() {
    assert!(matches!(
        Config::from_values("hunter2", "example:8080"),
        Err(ConfigError::InvalidUpstream { .. })
    ));
}

#[test]
fn non_http_scheme_is_rejected() {
    assert!(matches!(
        Config::from_values("hunter2", "ftp://host"),
        Err(ConfigError::InvalidUpstream { .. })
    ));
}

#[test]
fn empty_host_upstream_is_rejected() {
    assert!(matches!(
        Config::from_values("hunter2", "http://:8080"),
        Err(ConfigError::InvalidUpstream { .. })
    ));
}

#[test]
fn out_of_range_port_is_rejected() {
    assert!(matches!(
        Config::from_values("hunter2", "http://host:99999"),
        Err(ConfigError::InvalidUpstream { .. })
    ));
}

#[test]
fn non_numeric_port_is_rejected() {
    assert!(matches!(
        Config::from_values("hunter2", "http://host:abc"),
        Err(ConfigError::InvalidUpstream { .. })
    ));
}

#[test]
fn empty_port_is_rejected() {
    assert!(matches!(
        Config::from_values("hunter2", "http://host:"),
        Err(ConfigError::InvalidUpstream { .. })
    ));
}

#[test]
fn zero_port_is_rejected() {
    assert!(matches!(
        Config::from_values("hunter2", "http://host:0"),
        Err(ConfigError::InvalidUpstream { .. })
    ));
}

#[test]
fn leading_zero_port_is_accepted() {
    // `:080` is a valid port (80); the connector resolves it fine.
    assert!(Config::from_values("hunter2", "http://host:080").is_ok());
}

#[test]
fn all_zero_port_is_rejected() {
    // `:00` is still port 0.
    assert!(matches!(
        Config::from_values("hunter2", "http://host:00"),
        Err(ConfigError::InvalidUpstream { .. })
    ));
}

#[test]
fn ipv6_upstream_is_accepted() {
    assert!(Config::from_values("hunter2", "http://[::1]:8080").is_ok());
}

#[test]
fn ipv6_with_trailing_junk_is_rejected() {
    assert!(matches!(
        Config::from_values("hunter2", "http://[::1]junk"),
        Err(ConfigError::InvalidUpstream { .. })
    ));
}

#[test]
fn ipv6_junk_before_port_is_rejected() {
    assert!(matches!(
        Config::from_values("hunter2", "http://[::1]junk:8080"),
        Err(ConfigError::InvalidUpstream { .. })
    ));
}

#[test]
fn session_digest_matches_blake3_of_password() {
    let config = default_config();
    assert_eq!(config.sessions(), &[digest(b"hunter2")]);
}

#[test]
fn multiple_passwords_build_one_digest_each() {
    let config = Config::from_passwords(&["hunter2", "swordfish"], "http://app:2001").unwrap();
    assert_eq!(config.sessions(), &[digest(b"hunter2"), digest(b"swordfish")]);
}

#[test]
fn empty_passwords_are_filtered_out() {
    let config = Config::from_passwords(&["", "hunter2", ""], "http://app:2001").unwrap();
    assert_eq!(config.sessions(), &[digest(b"hunter2")]);
}

#[test]
fn all_empty_passwords_are_rejected() {
    assert!(matches!(
        Config::from_passwords(&["", ""], "http://app:2001"),
        Err(ConfigError::MissingPassword)
    ));
}

#[test]
fn no_passwords_are_rejected() {
    assert!(matches!(
        Config::from_passwords(&[], "http://app:2001"),
        Err(ConfigError::MissingPassword)
    ));
}

#[test]
fn duplicate_passwords_are_rejected() {
    assert!(matches!(
        Config::from_passwords(&["hunter2", "hunter2"], "http://app:2001"),
        Err(ConfigError::DuplicatePassword)
    ));
}

#[test]
fn duplicate_check_ignores_filtered_empties() {
    // The two empties are dropped before the duplicate check, so they are not
    // treated as duplicates of each other.
    assert!(Config::from_passwords(&["a", "", ""], "http://app:2001").is_ok());
}

#[test]
fn passwords_from_env_collects_base_and_suffixed() {
    let vars = variables(&[
        ("MBA_PASSWORD", "alpha"),
        ("MBA_PASSWORD_BOB", "bravo"),
        ("MBA_ADDRESS", "0.0.0.0:8000"),
        ("MBA_UPSTREAM", "http://app:2001"),
        ("PATH", "/usr/bin"),
    ]);
    let mut got = passwords_from_env(&vars);
    got.sort();
    assert_eq!(got, ["alpha".to_string(), "bravo".to_string()]);
}

#[test]
fn passwords_from_env_keeps_empty_values_for_later_filtering() {
    // The scanner is not where empties are dropped; the constructor is.
    assert_eq!(passwords_from_env(&variables(&[("MBA_PASSWORD_BOB", "")])), [String::new()]);
}

#[test]
fn passwords_from_env_skips_non_unicode_without_panicking() {
    // An unrelated variable with a non-Unicode *name*, and a `MBA_PASSWORD_*`
    // with a non-Unicode *value*: both must be skipped, while a valid entry
    // alongside them still collects.
    let vars = [
        EnvVar { name: None, value: EnvValue::Unicode("ignored".to_owned()) },
        EnvVar {
            name: Some("MBA_PASSWORD_BAD".to_owned()),
            value: EnvValue::Other("\u{fffd}".to_owned()),
        },
        EnvVar {
            name: Some("MBA_PASSWORD".to_owned()),
            value: EnvValue::Unicode("alpha".to_owned()),
        },
    ];
    assert_eq!(passwords_from_env(&vars), ["alpha".to_string()]);
}

#[test]
fn surrounding_whitespace_in_upstream_is_trimmed() {
    let config = Config::from_values("hunter2", "  http://app:2001  ").unwrap();
    assert_eq!(config.upstream(), "http://app:2001/");
}

#[test]
fn address_errors_give_the_trimmed_value_and_the_reason() {
    assert_eq!(
        validate_address(" localhost:4630 ", None),
        Err(ConfigError::InvalidAddress {
            value: "localhost:4630".to_owned(),
            reason: "expected an IP address and port",
        })
    );
    assert_eq!(
        validate_address("127.0.0.1:0", parsed("127.0.0.1:0")),
        Err(ConfigError::InvalidAddress {
            value: "127.0.0.1:0".to_owned(),
            reason: "port must not be zero",
        })
    );
}

#[test]
fn passwords_are_checked_before_the_upstream_and_the_upstream_before_the_address() {
    assert!(matches!(
        Config::from_values_and_address("", "", "", None),
        Err(ConfigError::MissingPassword)
    ));
    assert!(matches!(
        Config::from_values_and_address("hunter2", "", "", None),
        Err(ConfigError::MissingUpstream)
    ));
    assert!(matches!(
        Config::from_values_and_address("hunter2", "http://app", "", None),
        Err(ConfigError::InvalidAddress { .. })
    ));
}

#[test]
fn environment_builds_a_config() {
    let vars = variables(&[
        ("MBA_ADDRESS", " 127.0.0.1:4630 "),
        ("MBA_PASSWORD_ALICE", "alice"),
        ("MBA_PASSWORD_BOB", "bob"),
        ("MBA_UPSTREAM", "http://127.0.0.1:9"),
        ("MBA_TEMPLATE_PAGE_TITLE", "Mon site"),
    ]);
    let address = listen_address(&vars).unwrap();
    assert_eq!(address, " 127.0.0.1:4630 ");
    let config =
        Config::from_env(&vars, parsed(&address), &template_file("<b>{{PAGE_TITLE}}</b>")).unwrap();

    assert_eq!(config.sessions(), &[digest(b"alice"), digest(b"bob")]);
    assert_eq!(config.upstream(), "http://127.0.0.1:9/");
    assert_eq!(config.bind_address().text, "127.0.0.1:4630");
    assert_eq!(config.bind_address().port, 4630);
    assert_eq!(config.wall(), "<b>Mon site</b>");
}

#[test]
fn environment_without_settings_uses_the_defaults() {
    let vars = variables(&[("MBA_PASSWORD", "hunter2"), ("MBA_UPSTREAM", "http://app:2001")]);
    let address = listen_address(&vars).unwrap();
    assert_eq!(address, "0.0.0.0:8000");
    let config = Config::from_env(&vars, parsed(&address), &TemplateFile::Unset).unwrap();
    assert_eq!(config.wall(), default_config().wall());
    assert_eq!(config.wrong_password_wall(), default_config().wrong_password_wall());
}

#[test]
fn non_unicode_address_is_rejected() {
    let vars = [EnvVar {
        name: Some("MBA_ADDRESS".to_owned()),
        value: EnvValue::Other("\u{fffd}:80".to_owned()),
    }];
    assert_eq!(
        listen_address(&vars),
        Err(ConfigError::InvalidAddress {
            value: "\u{fffd}:80".to_owned(),
            reason: "not valid Unicode",
        })
    );
    assert!(matches!(
        Config::from_env(&vars, None, &TemplateFile::Unset),
        Err(ConfigError::InvalidAddress { reason: "not valid Unicode", .. })
    ));
}

#[test]
fn non_unicode_upstream_is_invalid() {
    let not_unicode = |name: &str| EnvVar {
        name: Some(name.to_owned()),
        value: EnvValue::Other("\u{fffd}".to_owned()),
    };
    let invalid = || ConfigError::InvalidUpstream {
        value: "\u{fffd}".to_owned(),
        reason: "not valid Unicode",
    };
    let mut vars = variables(&[("MBA_PASSWORD", "hunter2")]);
    vars.push(not_unicode("MBA_UPSTREAM"));
    assert_eq!(upstream_text(&vars), Err(invalid()));
    assert!(matches!(
        Config::from_env(&vars, parsed(DEFAULT_BIND_ADDRESS), &TemplateFile::Unset),
        Err(error) if error == invalid()
    ));
    // Behind the passwords, and before the address.
    assert!(matches!(
        Config::from_env(&vars, None, &TemplateFile::Unset),
        Err(error) if error == invalid()
    ));
    assert!(matches!(
        Config::from_env(&vars[1..], None, &TemplateFile::Unset),
        Err(ConfigError::MissingPassword)
    ));
    vars.extend(variables(&[("MBA_PASSWORD_BOB", "hunter2")]));
    assert!(matches!(
        Config::from_env(&vars, None, &TemplateFile::Unset),
        Err(ConfigError::DuplicatePassword)
    ));
}

#[test]
fn unset_or_empty_upstream_is_missing() {
    assert_eq!(upstream_text(&[]), Ok(String::new()));
    for vars in [&[("MBA_PASSWORD", "a")][..], &[("MBA_PASSWORD", "a"), ("MBA_UPSTREAM", " ")]] {
        assert!(matches!(
            Config::from_env(&variables(vars), None, &TemplateFile::Unset),
            Err(ConfigError::MissingUpstream)
        ));
    }
}

#[test]
fn the_address_fails_before_the_template_and_the_template_before_the_texts() {
    let other = |name: &str| EnvVar {
        name: Some(name.to_owned()),
        value: EnvValue::Other(String::new()),
    };
    let vars = [other("MBA_ADDRESS"), other("MBA_TEMPLATE_PAGE_TITLE")];
    assert!(matches!(
        Config::from_env(&vars, None, &template_file("")),
        Err(ConfigError::InvalidAddress { .. })
    ));
    assert!(matches!(
        Config::from_env(&vars[1..], None, &template_file("")),
        Err(ConfigError::InvalidTemplateFile { .. })
    ));
    assert!(matches!(
        Config::from_env(&vars[1..], None, &template_file("x")),
        Err(ConfigError::InvalidTemplateText { .. })
    ));
    assert!(matches!(
        Config::from_env(&[], None, &template_file("x")),
        Err(ConfigError::MissingPassword)
    ));
}

#[test]
fn unrelated_variables_do_not_matter() {
    let vars = variables(&[("MBA_PASSWORD", "hunter2"), ("MBA_UPSTREAM", "http://app:2001")]);
    let mut more = variables(&[("PATH", "/bin"), ("MBA_PASSWORDS", "no"), ("mba_password", "no")]);
    more.push(EnvVar { name: None, value: EnvValue::Unicode("no".to_owned()) });
    more.extend(variables(&[("MBA_UPSTREAM", "http://app:2001"), ("MBA_PASSWORD", "hunter2")]));
    let parsed = || parsed(DEFAULT_BIND_ADDRESS);
    let a = Config::from_env(&vars, parsed(), &TemplateFile::Unset).unwrap();
    let b = Config::from_env(&more, parsed(), &TemplateFile::Unset).unwrap();
    assert_eq!(a.sessions(), b.sessions());
    assert_eq!(a.upstream(), b.upstream());
    assert_eq!(a.wall(), b.wall());
}

#[test]
fn password_labels_carry_no_meaning() {
    let sessions = |name: &str| {
        let vars = variables(&[(name, "hunter2"), ("MBA_UPSTREAM", "http://app:2001")]);
        Config::from_env(&vars, parsed(DEFAULT_BIND_ADDRESS), &TemplateFile::Unset)
            .unwrap()
            .sessions()
            .to_vec()
    };
    assert_eq!(sessions("MBA_PASSWORD"), sessions("MBA_PASSWORD_BOB"));
    assert_eq!(sessions("MBA_PASSWORD"), sessions("MBA_PASSWORD_"));
}

#[test]
fn a_clone_is_the_same_configuration() {
    let config = Config::from_passwords(&["hunter2", "swordfish"], "http://app:2001").unwrap();
    let copy = config.clone();
    assert_eq!(copy.sessions(), config.sessions());
    assert_eq!(copy.bind_address(), config.bind_address());
    assert_eq!(copy.upstream(), config.upstream());
    assert_eq!(copy.wall(), config.wall());
    assert_eq!(copy.wrong_password_wall(), config.wrong_password_wall());
}

#[test]
fn printed_configuration_holds_no_digest() {
    let text = Config::from_values("hunter2", "http://app:2001").unwrap().redacted();
    assert_eq!(
        text,
        "Config { bind_address: 0.0.0.0:8000, sessions: \"<redacted>\", upstream: \
         \"http://app:2001/\", wall: \"<rendered HTML>\", wrong_password_wall: \
         \"<rendered HTML>\" }"
    );
    assert!(!text.contains(&blake3::hash(b"hunter2").to_hex().to_string()));
}

#[test]
fn error_messages_name_the_variable() {
    let cases = [
        (
            ConfigError::InvalidAddress { value: "a\"b".to_owned(), reason: "because" },
            "`MBA_ADDRESS` is not a valid IP socket address (because): \"a\\\"b\"",
        ),
        (
            ConfigError::MissingPassword,
            "at least one password variable (`MBA_PASSWORD` or `MBA_PASSWORD_<label>`) must have \
             a non-empty UTF-8 value",
        ),
        (
            ConfigError::DuplicatePassword,
            "two password variables share the same value; each password must be distinct to be \
             revoked independently",
        ),
        (
            ConfigError::InvalidTemplateText { variable: "MBA_TEMPLATE_PAGE_TITLE".to_owned() },
            "`MBA_TEMPLATE_PAGE_TITLE` must contain valid Unicode",
        ),
        (
            ConfigError::InvalidTemplateFile {
                path: "/tmp/wall.html".to_owned(),
                reason: "because".to_owned(),
            },
            "`MBA_TEMPLATE_FILE` is not a usable UTF-8 template (because): \"/tmp/wall.html\"",
        ),
        (ConfigError::MissingUpstream, "`MBA_UPSTREAM` must be set"),
        (
            ConfigError::InvalidUpstream { value: "x".to_owned(), reason: "because" },
            "`MBA_UPSTREAM` is not a valid absolute http(s) URL (because): \"x\"",
        ),
    ];
    for (error, message) in cases {
        assert_eq!(error.message(), message);
    }
}

#[test]
fn order_of_passwords_is_irrelevant() {
    let a = Config::from_passwords(&["a", "", "b"], "http://app").unwrap();
    let b = Config::from_passwords(&["b", "a"], "http://app").unwrap();
    assert!(a.sessions().iter().all(|s| b.sessions().contains(s)));
    assert!(b.sessions().iter().all(|s| a.sessions().contains(s)));
    assert!(matches!(
        Config::from_passwords(&["a", "b", "a"], "http://app"),
        Err(ConfigError::DuplicatePassword)
    ));
    assert!(matches!(
        Config::from_passwords(&["b", "a", "a"], "http://app"),
        Err(ConfigError::DuplicatePassword)
    ));
}
