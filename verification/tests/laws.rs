//! What holds of every request and every configuration, on concrete values.

use axum::http::header::COOKIE;
use axum::http::{HeaderMap, HeaderValue};
use mildly_basic_auth::cookies::{
    authenticate_any, cookie_matches_session, parse_cookies, sanitized_cookie_header,
};
use mildly_basic_auth::digest::Digest;
use mildly_basic_auth::environment::{lookup, EnvValue, EnvVar};
use mildly_basic_auth::error::ConfigError;
use mildly_basic_auth::forwarding::{is_https, rewrite_forwarding_headers};
use mildly_basic_auth::gate::{
    build_set_cookie, extract_submitted_password, find_session, gate, handle_login, Step,
};
use mildly_basic_auth::headers::{value_bytes, visible_text};
use mildly_basic_auth::template::{push_html_escaped, render_template, TemplateText};
use mildly_basic_auth::text::{char_vec, decimal_text, split_on, starts_with};
use mildly_basic_auth::upstream::{check_upstream, validate_upstream, UriParts, UriPort};
use mildly_basic_auth::Config;

/// Headers with these `Cookie` fields.
fn with_cookies(values: &[&str]) -> HeaderMap {
    let mut headers = HeaderMap::new();
    for value in values {
        headers.append(COOKIE, HeaderValue::from_str(value).unwrap());
    }
    headers
}

/// What a browser stores of a `Set-Cookie` value and sends back.
fn stored_pair(set_cookie: &str) -> &str {
    set_cookie.split(';').next().unwrap()
}

/// The reason for which an upstream is refused.
fn refusal(upstream: &str) -> &'static str {
    match validate_upstream(upstream) {
        Err(ConfigError::InvalidUpstream { value, reason }) => {
            assert_eq!(value, upstream.trim());
            reason
        }
        _ => panic!("the upstream was not refused: {upstream}"),
    }
}

#[test]
fn a_login_opens_the_session_that_it_sets() {
    let config = Config::from_passwords(&["hunter2", "pass word&1"], "http://app").unwrap();
    for body in ["password=hunter2", "password=pass+word%261"] {
        let reply = handle_login(&config, &HeaderMap::new(), None, Some(body.as_bytes()));
        let set_cookie = reply.set_cookie.unwrap();
        let cookie = format!("theme=dark; {}", stored_pair(&set_cookie));
        let mut headers = with_cookies(&["lang=en", &cookie]);
        assert!(matches!(gate(&config, "GET", &mut headers, None), Ok(Step::Forward)));
        assert_eq!(headers.get(COOKIE).unwrap(), "lang=en; theme=dark");
    }
}

#[test]
fn a_forwarded_request_opens_nothing() {
    let config = Config::from_values("hunter2", "http://app").unwrap();
    let token = Digest::of_password("hunter2").to_hex();
    let fields = [format!("a=1; mba={token}; %6dba={token}"), format!("mba = {token} ; b=2")];
    let mut headers = with_cookies(&[&fields[0], &fields[1]]);
    assert!(matches!(gate(&config, "GET", &mut headers, None), Ok(Step::Forward)));
    assert_eq!(headers.get(COOKIE).unwrap(), "a=1; b=2");
    assert!(matches!(gate(&config, "GET", &mut headers, None), Ok(Step::Answer(_))));
}

#[test]
fn application_cookies_are_seen_again() {
    let headers = with_cookies(&["a = 1 ;b=%20;; c", "d=\"x, y\""]);
    let cookies = parse_cookies(&headers);
    let raw: Vec<&str> = cookies.iter().map(|c| c.raw.as_str()).collect();
    assert_eq!(raw, ["a = 1", "b=%20", "d=\"x, y\""]);
    assert_eq!(cookies[0].name, "a");
    assert_eq!(cookies[0].value, "1");
    assert_eq!(cookies[1].value, " ");
    let outgoing = sanitized_cookie_header(&cookies).unwrap();
    assert_eq!(outgoing, "a = 1; b=%20; d=\"x, y\"");
    let again = parse_cookies(&with_cookies(&[&outgoing]));
    let raw_again: Vec<&str> = again.iter().map(|c| c.raw.as_str()).collect();
    assert_eq!(raw_again, raw);
}

#[test]
fn tokens_are_hexadecimal_of_either_case() {
    let session = Digest::of_password("hunter2");
    let token = session.to_hex();
    assert_eq!(token, blake3::hash(b"hunter2").to_hex().to_string());
    assert!(cookie_matches_session(&token, &session));
    assert!(cookie_matches_session(&token.to_uppercase(), &session));
    assert!(!cookie_matches_session(&token[1..], &session));
    assert!(!cookie_matches_session(&format!("{token}0"), &session));
    assert!(!cookie_matches_session("", &session));
    assert_eq!(Digest::from_hex(&token), Some(session));
    assert_eq!(Digest::from_hex(&"g".repeat(64)), None);
}

#[test]
fn any_of_the_sessions_authenticates() {
    let sessions = [Digest::of_password("a"), Digest::of_password("b")];
    let cookie = |password: &str| {
        let set_cookie = build_set_cookie(&Digest::of_password(password), false);
        parse_cookies(&with_cookies(&[stored_pair(&set_cookie)]))
    };
    assert!(authenticate_any(&cookie("a"), &sessions));
    assert!(authenticate_any(&cookie("b"), &sessions));
    assert!(!authenticate_any(&cookie("c"), &sessions));
    assert!(!authenticate_any(&cookie("a"), &[]));
    assert_eq!(find_session(&Digest::of_password("b"), &sessions), Some(sessions[1]));
    assert_eq!(find_session(&Digest::of_password("c"), &sessions), None);
}

#[test]
fn passwords_are_revoked_independently() {
    let before = Config::from_passwords(&["alice", "bob"], "http://app").unwrap();
    let after = Config::from_passwords(&["bob"], "http://app").unwrap();
    for (password, still) in [("alice", false), ("bob", true)] {
        let set_cookie = build_set_cookie(&Digest::of_password(password), false);
        let pair = stored_pair(&set_cookie);
        assert!(matches!(
            gate(&before, "GET", &mut with_cookies(&[pair]), None),
            Ok(Step::Forward)
        ));
        let step = gate(&after, "GET", &mut with_cookies(&[pair]), None);
        assert_eq!(matches!(step, Ok(Step::Forward)), still);
        let body = format!("password={password}");
        let reply = handle_login(&after, &HeaderMap::new(), None, Some(body.as_bytes()));
        assert_eq!(reply.status, if still { 303 } else { 401 });
    }
}

#[test]
fn every_password_can_be_submitted() {
    let password = "p\u{e4}ss+w%rd&=";
    let body: String = password.bytes().map(|b| format!("%{b:02x}")).collect();
    let body = format!("password={body}");
    assert_eq!(extract_submitted_password(body.as_bytes()).as_deref(), Some(password));
    let config = Config::from_values(password, "http://app").unwrap();
    let reply = handle_login(&config, &HeaderMap::new(), None, Some(body.as_bytes()));
    assert_eq!(reply.status, 303);
}

#[test]
fn secure_and_the_forwarded_scheme_agree() {
    for proto in ["https", "http", "HTTPS ", "https, https"] {
        let mut headers = HeaderMap::new();
        headers.insert("x-forwarded-proto", HeaderValue::from_static(proto));
        let secure = is_https(&headers);
        rewrite_forwarding_headers(&mut headers, None).unwrap();
        let told = headers.get("x-forwarded-proto").unwrap();
        assert_eq!(told == "https", secure);
        assert_eq!(is_https(&headers), secure);
        let cookie = build_set_cookie(&Digest::of_password("a"), secure);
        assert_eq!(cookie.ends_with("; Secure"), secure);
    }
}

#[test]
fn rewriting_depends_on_no_claims() {
    let rewritten = |claims: &[(&'static str, &'static str)]| {
        let mut headers = HeaderMap::new();
        headers.insert("host", HeaderValue::from_static("real.example"));
        for (name, value) in claims {
            headers.append(*name, HeaderValue::from_static(value));
        }
        rewrite_forwarding_headers(&mut headers, None).unwrap();
        headers
    };
    let plain = rewritten(&[]);
    assert_eq!(plain.len(), 3);
    assert_eq!(plain.get("x-forwarded-host").unwrap(), "real.example");
    assert_eq!(
        rewritten(&[
            ("x-forwarded-for", "1.2.3.4"),
            ("forwarded", "for=1.2.3.4"),
            ("x-forwarded-host", "evil.example"),
        ]),
        plain
    );
}

#[test]
fn escaped_text_is_inert_and_injective() {
    let escape = |text: &str| {
        let mut escaped = String::from("|");
        push_html_escaped(&mut escaped, text);
        escaped
    };
    assert_eq!(escape("<a href=\"x\">'&amp;'</a>"),
        "|&lt;a href=&quot;x&quot;&gt;&#39;&amp;amp;&#39;&lt;/a&gt;");
    assert_ne!(escape("&"), escape("&amp;"));
    assert_eq!(escape("\u{e9}t\u{e9}"), "|\u{e9}t\u{e9}");
}

#[test]
fn markers_are_replaced_once_and_in_place() {
    let text = TemplateText {
        page_language: "fr".to_owned(),
        page_title: "{{PAGE_TITLE}}".to_owned(),
        password_label: "L".to_owned(),
        password_placeholder: "P".to_owned(),
        wrong_password_message: "W".to_owned(),
        submit_button_text: "S".to_owned(),
    };
    let template = "a{{PAGE_LANGUAGE}}b{{PAGE_TITLE}}c{{PASSWORD_LABEL}}d{{PASSWORD_PLACEHOLDER}}\
                    e{{IS_PASSWORD_INVALID}}f{{PASSWORD_AUTOFOCUS}}g{{WRONG_PASSWORD_MESSAGE}}\
                    h{{SUBMIT_BUTTON_TEXT}}i";
    assert_eq!(
        render_template(template, &text, false),
        "afrb{{PAGE_TITLE}}cLdPefalsefghSi"
    );
    assert_eq!(
        render_template(template, &text, true),
        "afrb{{PAGE_TITLE}}cLdPetruefautofocusgWhSi"
    );
    assert_eq!(render_template("{{{PAGE_LANGUAGE}}", &text, false), "{{{PAGE_LANGUAGE}}");
    assert_eq!(render_template("{{{{PAGE_LANGUAGE}}", &text, false), "{{fr");
}

#[test]
fn the_wall_hides_the_failed_login_message() {
    let template = "<p>{{WRONG_PASSWORD_MESSAGE}}</p>";
    let text = TemplateText {
        wrong_password_message: "Nope".to_owned(),
        ..TemplateText::default()
    };
    assert_eq!(render_template(template, &text, false), "<p></p>");
    assert_eq!(
        render_template(template, &text, false),
        render_template(template, &TemplateText::default(), false)
    );
}

#[test]
fn upstreams_are_refused_for_a_reason() {
    assert_eq!(refusal("http://"), "not a valid URL");
    assert_eq!(refusal(" not a url "), "not a valid URL");
    assert_eq!(refusal("/foo"), "scheme must be http or https");
    assert_eq!(refusal("example:8080"), "scheme must be http or https");
    assert_eq!(refusal("ftp://host"), "scheme must be http or https");
    assert_eq!(refusal("http://:8080"), "missing host");
    assert_eq!(refusal("http://host:0"), "invalid port");
    assert_eq!(refusal("http://host:00"), "invalid port");
    assert_eq!(refusal("http://host:"), "invalid host or port");
    assert_eq!(refusal("http://host:99999"), "invalid host or port");
    assert_eq!(refusal("http://[::1]junk"), "invalid host or port");
    assert_eq!(validate_upstream(" \t"), Err(ConfigError::MissingUpstream));
}

#[test]
fn accepted_upstreams_are_normalized() {
    assert_eq!(validate_upstream("http://app:2001").unwrap(), "http://app:2001/");
    assert_eq!(validate_upstream("HTTP://user:pw@App:080/x").unwrap(), "http://user:pw@App:080/x");
    assert_eq!(validate_upstream("https://[::1]").unwrap(), "https://[::1]/");
}

#[test]
fn accepted_upstreams_are_accepted_as_they_stand() {
    for upstream in [
        "HTTP://app",
        " http://user:pw@App:080?q#f ",
        "https://[::1]:8080/a?b#c",
        "http://app#f",
        "http://app/\u{e9}?{x}",
    ] {
        let normalized = validate_upstream(upstream).unwrap();
        assert_eq!(validate_upstream(&normalized), Ok(normalized));
    }
    assert_eq!(validate_upstream(" http://user:pw@App:080?q#f ").unwrap(),
        "http://user:pw@App:080/?q");
    // White space that only a fragment kept at the end is trimmed.
    let spaced = validate_upstream("http://app/\u{3000}#f").unwrap();
    assert_eq!(spaced, "http://app/\u{3000}");
    assert_eq!(validate_upstream(&spaced).unwrap(), "http://app/");
    // The path that is added makes the longest URL too long.
    let host = "a".repeat(65534 - "http://".len());
    let longest = validate_upstream(&format!("http://{host}")).unwrap();
    assert_eq!(longest.len(), 65535);
    assert!(validate_upstream(&longest).is_err());
    let shorter = validate_upstream(&format!("http://{}", &host[1..])).unwrap();
    assert_eq!(validate_upstream(&shorter), Ok(shorter));
}

#[test]
fn rewriting_twice_is_rewriting_once() {
    for (authority, proto) in [(None, "https"), (Some("real.example"), "https, http")] {
        let mut headers = HeaderMap::new();
        headers.insert("host", HeaderValue::from_static("host.example"));
        headers.insert("forwarded", HeaderValue::from_static("for=1.2.3.4"));
        headers.insert("x-forwarded-proto", HeaderValue::from_static(proto));
        rewrite_forwarding_headers(&mut headers, authority).unwrap();
        let once = headers.clone();
        rewrite_forwarding_headers(&mut headers, authority).unwrap();
        assert_eq!(headers, once);
    }
}

#[test]
fn upstream_parts_are_checked_against_each_other() {
    let parts = |host: &str, port: Option<UriPort>| UriParts {
        scheme: Some("http".to_owned()),
        authority: Some("user@host:080".to_owned()),
        host: Some(host.to_owned()),
        port,
        text: "http://user@host:080/".to_owned(),
    };
    let port = || Some(UriPort { text: "080".to_owned(), number: 80 });
    assert_eq!(
        check_upstream("x", Some(parts("host", port()))).unwrap(),
        "http://user@host:080/"
    );
    assert_eq!(
        check_upstream("x", Some(parts("host", None))),
        Err(ConfigError::InvalidUpstream { value: "x".to_owned(), reason: "invalid host or port" })
    );
    assert_eq!(
        check_upstream("x", Some(parts("", port()))),
        Err(ConfigError::InvalidUpstream { value: "x".to_owned(), reason: "missing host" })
    );
    assert_eq!(
        check_upstream("x", None),
        Err(ConfigError::InvalidUpstream { value: "x".to_owned(), reason: "not a valid URL" })
    );
    assert_eq!(check_upstream("", None), Err(ConfigError::MissingUpstream));
}

#[test]
fn header_texts_are_visible_ascii() {
    assert_eq!(visible_text(b"a\t~ ").as_deref(), Some("a\t~ "));
    assert_eq!(visible_text(b"a\x7f"), None);
    assert_eq!(visible_text(b"\xc3\xa9"), None);
    assert_eq!(value_bytes("caf\u{e9}\t"), Some("caf\u{e9}\t".as_bytes()));
    assert_eq!(value_bytes("a\nb"), None);
    assert_eq!(value_bytes("a\u{7f}"), None);
    for byte in 0..=255u8 {
        let value = HeaderValue::from_bytes(&[byte]);
        if let Ok(value) = &value {
            assert_eq!(visible_text(&[byte]).is_some(), value.to_str().is_ok());
        }
        if byte < 128 {
            let text = char::from(byte).to_string();
            assert_eq!(value_bytes(&text).is_some(), value.is_ok());
        }
    }
}

#[test]
fn the_first_variable_of_a_name_counts() {
    let var = |name: &str, value: &str| EnvVar {
        name: Some(name.to_owned()),
        value: EnvValue::Unicode(value.to_owned()),
    };
    let vars = [var("A", "1"), var("B", "2"), var("B", "3")];
    assert!(matches!(lookup(&vars, "B"), Some(EnvValue::Unicode(value)) if value == "2"));
    assert!(lookup(&vars, "C").is_none());
}

#[test]
fn text_helpers() {
    assert_eq!(split_on("a;;b", ';'), ["a", "", "b"]);
    assert_eq!(split_on("", ';'), [""]);
    assert_eq!(char_vec("\u{e9}a"), ['\u{e9}', 'a']);
    assert!(starts_with("MBA_PASSWORD_BOB", "MBA_PASSWORD_"));
    assert!(!starts_with("MBA_PASSWORD", "MBA_PASSWORD_"));
    assert_eq!(decimal_text(0), "0");
    assert_eq!(decimal_text(u64::MAX), "18446744073709551615");
}
