//! The authentication gate: cookies, forwarding headers, logins.

use axum::http::header::{COOKIE, FORWARDED, HOST};
use axum::http::{HeaderMap, HeaderValue};
use mildly_basic_auth::cookies::{authenticate, parse_cookies, sanitized_cookie_header};
use mildly_basic_auth::digest::Digest;
use mildly_basic_auth::forwarding::{
    forwarded_proto, rewrite_forwarding_headers, X_FORWARDED_FOR, X_FORWARDED_HOST,
    X_FORWARDED_PROTO,
};
use mildly_basic_auth::gate::{
    build_set_cookie, extract_submitted_password, find_password, gate, handle_login, login_success,
    password_matches, wall_response, Reply, Step, MAX_LOGIN_BODY, SESSION_MAX_AGE_SECS,
};
use mildly_basic_auth::headers::{room_for, HeadersFull};
use mildly_basic_auth::Config;

/// The digest of a password.
fn digest(password: &[u8]) -> Digest {
    Digest { bytes: *blake3::hash(password).as_bytes() }
}

/// Digest of the password used across the cookie tests.
fn session() -> Digest {
    digest(b"hunter2")
}

/// The valid session-cookie token for `session()`.
fn token() -> String {
    blake3::hash(b"hunter2").to_hex().to_string()
}

/// Build a `HeaderMap` with a single `Cookie` header.
fn cookie_header(value: &str) -> HeaderMap {
    let mut headers = HeaderMap::new();
    headers.insert(COOKIE, HeaderValue::from_str(value).unwrap());
    headers
}

/// A service with these passwords.
fn service(passwords: &[&str]) -> Config {
    Config::from_passwords(passwords, "http://127.0.0.1:9").unwrap()
}

/// The answer to a request, which must not pass.
fn answer(config: &Config, method: &str, headers: &mut HeaderMap) -> Reply {
    match gate(config, method, headers, None) {
        Ok(Step::Answer(reply)) => reply,
        _ => panic!("the request was not answered"),
    }
}

/// The answer to a login form.
fn login(config: &Config, headers: &HeaderMap, location: Option<&str>, body: &str) -> Reply {
    handle_login(config, headers, location, Some(body.as_bytes()))
}

#[test]
fn valid_token_authenticates() {
    let cookies = parse_cookies(&cookie_header(&format!("mba={}", token())));
    assert!(authenticate(&cookies, &session()));
}

#[test]
fn wrong_token_does_not_authenticate() {
    let wrong = blake3::hash(b"nope").to_hex().to_string();
    let cookies = parse_cookies(&cookie_header(&format!("mba={wrong}")));
    assert!(!authenticate(&cookies, &session()));
}

#[test]
fn non_hex_token_does_not_authenticate() {
    let cookies = parse_cookies(&cookie_header("mba=not-hex"));
    assert!(!authenticate(&cookies, &session()));
}

#[test]
fn missing_cookie_does_not_authenticate() {
    let cookies = parse_cookies(&HeaderMap::new());
    assert!(!authenticate(&cookies, &session()));
}

#[test]
fn percent_encoded_name_still_authenticates() {
    // `m%62a` decodes to `mba`: auth must see it (so stripping does too).
    let cookies = parse_cookies(&cookie_header(&format!("m%62a={}", token())));
    assert!(authenticate(&cookies, &session()));
}

#[test]
fn strip_removes_only_mba() {
    let cookies = parse_cookies(&cookie_header(&format!("app=keep; mba={}", token())));
    let header = sanitized_cookie_header(&cookies).unwrap();
    assert_eq!(header, "app=keep");
}

#[test]
fn strip_of_sole_mba_yields_none() {
    let cookies = parse_cookies(&cookie_header(&format!("mba={}", token())));
    assert!(sanitized_cookie_header(&cookies).is_none());
}

#[test]
fn strip_leaves_non_mba_unchanged() {
    let cookies = parse_cookies(&cookie_header("app=keep; other=1"));
    let header = sanitized_cookie_header(&cookies).unwrap();
    assert_eq!(header, "app=keep; other=1");
}

#[test]
fn strip_removes_percent_encoded_mba() {
    let cookies = parse_cookies(&cookie_header(&format!("m%62a={}; app=keep", token())));
    let header = sanitized_cookie_header(&cookies).unwrap();
    assert_eq!(header, "app=keep");
}

#[test]
fn strip_preserves_duplicate_app_cookies_in_order() {
    // The reason we avoid `CookieJar` (which dedups and reorders).
    let cookies = parse_cookies(&cookie_header(&format!(
        "sid=path-specific; mba={}; sid=root",
        token()
    )));
    let header = sanitized_cookie_header(&cookies).unwrap();
    assert_eq!(header, "sid=path-specific; sid=root");
}

#[test]
fn cookies_split_across_fields_are_merged() {
    let mut headers = HeaderMap::new();
    headers.append(COOKIE, HeaderValue::from_static("a=1"));
    headers.append(COOKIE, HeaderValue::from_str(&format!("mba={}", token())).unwrap());
    let cookies = parse_cookies(&headers);
    assert!(authenticate(&cookies, &session()));
    assert_eq!(sanitized_cookie_header(&cookies).unwrap(), "a=1");
}

#[test]
fn malformed_pair_does_not_authenticate_and_is_dropped() {
    // `%ff` percent-decodes to byte 0xFF, invalid UTF-8, so the pair is
    // refused and dropped.
    let cookies = parse_cookies(&cookie_header(&format!("app=keep; bad=%ff; mba={}", token())));
    assert!(authenticate(&cookies, &session()));
    let header = sanitized_cookie_header(&cookies).unwrap();
    assert_eq!(header, "app=keep"); // Malformed `bad` and `mba` both gone.
}

#[test]
fn only_malformed_cookies_do_not_authenticate() {
    let cookies = parse_cookies(&cookie_header("bad=%ff"));
    assert!(!authenticate(&cookies, &session()));
    assert!(cookies.is_empty());
}

#[test]
fn non_utf8_cookie_field_is_dropped() {
    let mut headers = HeaderMap::new();
    headers.insert(COOKIE, HeaderValue::from_bytes(b"app=\xff").unwrap());
    assert!(parse_cookies(&headers).is_empty());
}

#[test]
fn forwarded_proto_https_only_for_single_https() {
    let cases = [
        ("https", "https"),
        ("HTTPS", "https"),
        (" https ", "https"),
        ("http", "http"),
        ("ftp", "http"),
        ("https, http", "http"),
    ];
    for (input, expected) in cases {
        let mut headers = HeaderMap::new();
        headers.insert(X_FORWARDED_PROTO, HeaderValue::from_str(input).unwrap());
        assert_eq!(forwarded_proto(&headers), expected, "input: {input:?}");
    }
}

#[test]
fn forwarded_proto_defaults_to_http_when_absent() {
    assert_eq!(forwarded_proto(&HeaderMap::new()), "http");
}

#[test]
fn rewrite_sets_forwarded_host_from_host_overwriting_spoof() {
    let mut headers = HeaderMap::new();
    headers.insert(HOST, HeaderValue::from_static("real.example"));
    headers.insert(X_FORWARDED_HOST, HeaderValue::from_static("evil.example"));
    rewrite_forwarding_headers(&mut headers, None).unwrap();
    assert_eq!(headers.get(X_FORWARDED_HOST).unwrap(), "real.example");
}

#[test]
fn rewrite_drops_spoofed_forwarded_host_when_no_host_or_authority() {
    let mut headers = HeaderMap::new();
    headers.insert(X_FORWARDED_HOST, HeaderValue::from_static("evil.example"));
    rewrite_forwarding_headers(&mut headers, None).unwrap();
    assert!(headers.get(X_FORWARDED_HOST).is_none());
}

#[test]
fn rewrite_uses_authority_for_forwarded_host() {
    // HTTP/2: no `Host`, authority on the URI. Spoofed inbound value must still
    // be overwritten by the observed authority.
    let mut headers = HeaderMap::new();
    headers.insert(X_FORWARDED_HOST, HeaderValue::from_static("evil.example"));
    rewrite_forwarding_headers(&mut headers, Some("h2.example:8443")).unwrap();
    assert_eq!(headers.get(X_FORWARDED_HOST).unwrap(), "h2.example:8443");
}

#[test]
fn rewrite_prefers_authority_over_host() {
    // An h2 client can send a conflicting, forgeable `Host` alongside the
    // `:authority`; the authority must win.
    let mut headers = HeaderMap::new();
    headers.insert(HOST, HeaderValue::from_static("evil.example"));
    rewrite_forwarding_headers(&mut headers, Some("authority.example")).unwrap();
    assert_eq!(headers.get(X_FORWARDED_HOST).unwrap(), "authority.example");
}

#[test]
fn rewrite_strips_inbound_client_ip_forwarding() {
    let mut headers = HeaderMap::new();
    headers.insert(HOST, HeaderValue::from_static("real.example"));
    headers.insert(X_FORWARDED_FOR, HeaderValue::from_static("1.2.3.4"));
    headers.insert(FORWARDED, HeaderValue::from_static("for=1.2.3.4"));
    rewrite_forwarding_headers(&mut headers, None).unwrap();
    assert!(headers.get(X_FORWARDED_FOR).is_none());
    assert!(headers.get(FORWARDED).is_none());
}

#[test]
fn extract_submitted_password_reads_the_field() {
    assert_eq!(extract_submitted_password(b"password=hunter2").as_deref(), Some("hunter2"));
}

#[test]
fn extract_submitted_password_none_when_absent() {
    assert_eq!(extract_submitted_password(b"other=1"), None);
}

#[test]
fn extract_submitted_password_decodes_spaces() {
    // xkcd #936, the memorable half: spaces arrive form-encoded as `+`.
    assert_eq!(
        extract_submitted_password(b"password=correct+horse+battery+staple").as_deref(),
        Some("correct horse battery staple")
    );
}

#[test]
fn extract_submitted_password_decodes_ampersand() {
    // xkcd #936, the other half: `Tr0ub4dor&3`'s `&` must arrive
    // percent-encoded, or it would split the form into two fields.
    assert_eq!(
        extract_submitted_password(b"password=Tr0ub4dor%263").as_deref(),
        Some("Tr0ub4dor&3")
    );
}

#[test]
fn build_set_cookie_has_required_attributes() {
    let cookie = build_set_cookie(&session(), false);
    assert!(cookie.starts_with(&format!("mba={}", token())));
    assert!(cookie.contains("; HttpOnly"));
    assert!(cookie.contains("; SameSite=Lax"));
    assert!(cookie.contains("; Path=/"));
    assert!(cookie.contains("; Max-Age=2592000"));
    assert!(!cookie.contains("; Secure"));
}

#[test]
fn build_set_cookie_adds_secure_under_https() {
    assert!(build_set_cookie(&session(), true).contains("; Secure"));
}

#[test]
fn password_matches_only_the_configured_password() {
    assert!(password_matches("hunter2", &session()));
    assert!(!password_matches("wrong", &session()));
}

#[test]
fn unauthenticated_get_serves_the_wall() {
    let config = service(&["hunter2"]);
    let mut headers = HeaderMap::new();
    let reply = answer(&config, "GET", &mut headers);

    assert_eq!(reply.status, 401);
    assert_eq!(reply.content_type.as_deref(), Some("text/html; charset=utf-8"));
    assert!(reply.location.is_none());
    assert!(reply.set_cookie.is_none());
    assert!(reply.body.contains("</form>"));
    assert!(headers.is_empty());
}

#[test]
fn wrong_password_serves_the_wall() {
    let config = service(&["hunter2"]);
    let reply = login(&config, &HeaderMap::new(), Some("/"), "password=wrong");

    assert_eq!(reply.status, 401);
    assert!(reply.set_cookie.is_none());
    assert_eq!(reply.body, wall_response(&config).body);
    assert_eq!(reply.body, config.wall());
}

#[test]
fn correct_password_sets_cookie_and_redirects_preserving_query() {
    let config = service(&["hunter2"]);
    let reply =
        login(&config, &HeaderMap::new(), Some("/docs?section=private"), "password=hunter2");

    assert_eq!(reply.status, 303);
    assert_eq!(reply.location.as_deref(), Some("/docs?section=private"));
    let set_cookie = reply.set_cookie.unwrap();
    assert!(set_cookie.starts_with(&format!("mba={}", token())));
    assert!(set_cookie.contains("; HttpOnly"));
    assert!(set_cookie.contains("; SameSite=Lax"));
    assert!(set_cookie.contains("; Path=/"));
    assert!(set_cookie.contains("; Max-Age=2592000"));
    assert!(reply.content_type.is_none());
    assert!(reply.body.is_empty());
}

#[test]
fn each_configured_password_logs_in_with_its_own_cookie() {
    let config = service(&["hunter2", "swordfish"]);

    for password in ["hunter2", "swordfish"] {
        let body = format!("password={password}");
        let reply = login(&config, &HeaderMap::new(), Some("/"), &body);

        assert_eq!(reply.status, 303, "password: {password}");
        // The cookie carries the digest of the password actually used.
        let token = blake3::hash(password.as_bytes()).to_hex().to_string();
        assert!(
            reply.set_cookie.unwrap().starts_with(&format!("mba={token}")),
            "password: {password}"
        );
    }
}

#[test]
fn cookie_from_a_non_primary_password_is_proxied() {
    let config = service(&["hunter2", "swordfish"]);
    // A cookie minted from the second configured password authenticates a
    // proxied request, not just the login.
    let token = blake3::hash(b"swordfish").to_hex().to_string();
    let mut headers = cookie_header(&format!("mba={token}"));
    assert!(matches!(gate(&config, "GET", &mut headers, None), Ok(Step::Forward)));
}

#[test]
fn secure_flag_absent_over_http() {
    let reply = login(&service(&["hunter2"]), &HeaderMap::new(), Some("/"), "password=hunter2");
    assert!(!reply.set_cookie.unwrap().contains("; Secure"));
}

#[test]
fn secure_flag_present_under_forwarded_https() {
    let mut headers = HeaderMap::new();
    headers.insert("x-forwarded-proto", HeaderValue::from_static("https"));
    let reply = login(&service(&["hunter2"]), &headers, Some("/"), "password=hunter2");
    assert!(reply.set_cookie.unwrap().contains("; Secure"));
}

#[test]
fn oversized_login_body_is_rejected() {
    assert_eq!(MAX_LOGIN_BODY, 8192);
    let config = service(&["hunter2"]);
    let body = vec![b'a'; 9000];
    for body in [Some(&body[..]), Some(&body[..8193]), None] {
        let reply = handle_login(&config, &HeaderMap::new(), Some("/"), body);
        assert_eq!(reply.status, 413);
        assert!(reply.content_type.is_none());
        assert!(reply.set_cookie.is_none());
        assert!(reply.body.is_empty());
    }
}

#[test]
fn largest_login_body_is_read() {
    let config = service(&["hunter2"]);
    let padding = "x".repeat(8192 - "password=hunter2&".len());
    let body = format!("password=hunter2&{padding}");
    assert_eq!(body.len(), 8192);
    assert_eq!(login(&config, &HeaderMap::new(), None, &body).status, 303);
    assert_eq!(login(&config, &HeaderMap::new(), None, &format!("{body}x")).status, 413);
}

#[test]
fn authenticated_get_is_proxied() {
    let mut headers = cookie_header(&format!("mba={}", token()));
    let step = gate(&service(&["hunter2"]), "GET", &mut headers, None);
    assert!(matches!(step, Ok(Step::Forward)));
}

#[test]
fn authenticated_post_is_proxied_and_other_posts_are_logins() {
    let config = service(&["hunter2"]);
    let mut headers = cookie_header(&format!("mba={}", token()));
    assert!(matches!(gate(&config, "POST", &mut headers, None), Ok(Step::Forward)));
    assert!(matches!(gate(&config, "POST", &mut HeaderMap::new(), None), Ok(Step::ReadForm)));
    // Method names are case-sensitive.
    assert_eq!(answer(&config, "post", &mut HeaderMap::new()).status, 401);
    assert_eq!(answer(&config, "PUT", &mut HeaderMap::new()).status, 401);
}

#[test]
fn mba_cookie_is_stripped_but_app_cookies_pass_through() {
    let mut headers = cookie_header(&format!("app=keep; mba={}", token()));
    gate(&service(&["hunter2"]), "GET", &mut headers, None).unwrap();
    assert_eq!(headers.get(COOKIE).unwrap(), "app=keep");
    assert_eq!(headers.get_all(COOKIE).iter().count(), 1);
}

#[test]
fn duplicate_app_cookies_keep_order() {
    let mut headers = cookie_header(&format!("sid=path-specific; mba={}; sid=root", token()));
    gate(&service(&["hunter2"]), "GET", &mut headers, None).unwrap();
    assert_eq!(headers.get(COOKIE).unwrap(), "sid=path-specific; sid=root");
}

#[test]
fn percent_encoded_mba_is_also_stripped() {
    let mut headers = cookie_header(&format!("keep=1; m%62a={}", token()));
    let step = gate(&service(&["hunter2"]), "GET", &mut headers, None);
    assert!(matches!(step, Ok(Step::Forward))); // The `m%62a` cookie authenticated.
    assert_eq!(headers.get(COOKIE).unwrap(), "keep=1");
}

#[test]
fn malformed_cookie_without_valid_mba_serves_the_wall() {
    let mut headers = cookie_header("bad=%ff");
    let reply = answer(&service(&["hunter2"]), "GET", &mut headers);
    assert_eq!(reply.status, 401);
    assert_eq!(headers.get(COOKIE).unwrap(), "bad=%ff");
}

#[test]
fn malformed_cookie_alongside_valid_mba_is_dropped() {
    let mut headers = cookie_header(&format!("mba={}; app=keep; bad=%ff", token()));
    let step = gate(&service(&["hunter2"]), "GET", &mut headers, None);
    assert!(matches!(step, Ok(Step::Forward)));
    assert_eq!(headers.get(COOKIE).unwrap(), "app=keep");
}

#[test]
fn sole_mba_cookie_leaves_no_cookie_header() {
    let mut headers = cookie_header(&format!("mba={}", token()));
    gate(&service(&["hunter2"]), "GET", &mut headers, None).unwrap();
    assert!(headers.get(COOKIE).is_none());
}

#[test]
fn forwarded_host_overwrites_spoofed_value() {
    let mut headers = cookie_header(&format!("mba={}", token()));
    headers.insert(HOST, HeaderValue::from_static("127.0.0.1:4630"));
    headers.append("x-forwarded-host", HeaderValue::from_static("evil.example"));
    headers.append("x-forwarded-host", HeaderValue::from_static("worse.example"));
    gate(&service(&["hunter2"]), "GET", &mut headers, None).unwrap();
    let hosts: Vec<_> = headers.get_all("x-forwarded-host").iter().collect();
    assert_eq!(hosts, ["127.0.0.1:4630"]);
    assert_eq!(headers.get("x-forwarded-proto").unwrap(), "http");
    assert_eq!(headers.get(HOST).unwrap(), "127.0.0.1:4630");
}

#[test]
fn spoofed_client_ip_forwarding_is_stripped() {
    let mut headers = cookie_header(&format!("mba={}", token()));
    headers.insert("x-forwarded-for", HeaderValue::from_static("9.9.9.9"));
    headers.insert("forwarded", HeaderValue::from_static("for=9.9.9.9"));
    gate(&service(&["hunter2"]), "GET", &mut headers, Some("real.example")).unwrap();
    assert!(headers.get("x-forwarded-for").is_none());
    assert!(headers.get("forwarded").is_none());
    assert_eq!(headers.get("x-forwarded-host").unwrap(), "real.example");
}

#[test]
fn unusable_authority_falls_back_to_the_host() {
    let mut headers = HeaderMap::new();
    headers.insert(HOST, HeaderValue::from_static("real.example"));
    rewrite_forwarding_headers(&mut headers, Some("a\nb")).unwrap();
    assert_eq!(headers.get(X_FORWARDED_HOST).unwrap(), "real.example");
}

#[test]
fn other_headers_pass_as_they_are() {
    let mut headers = cookie_header(&format!("mba={}", token()));
    headers.append("x-app", HeaderValue::from_static("1"));
    headers.append("x-app", HeaderValue::from_bytes(b"\xff").unwrap());
    gate(&service(&["hunter2"]), "GET", &mut headers, None).unwrap();
    let values: Vec<_> = headers.get_all("x-app").iter().map(|v| v.as_bytes()).collect();
    assert_eq!(values, [&b"1"[..], &b"\xff"[..]]);
}

#[test]
fn several_proto_fields_are_not_a_single_value() {
    let mut headers = HeaderMap::new();
    headers.append(X_FORWARDED_PROTO, HeaderValue::from_static("https"));
    headers.append(X_FORWARDED_PROTO, HeaderValue::from_static("http"));
    assert_eq!(forwarded_proto(&headers), "http");
    rewrite_forwarding_headers(&mut headers, None).unwrap();
    let values: Vec<_> = headers.get_all(X_FORWARDED_PROTO).iter().collect();
    assert_eq!(values, ["http"]);
}

#[test]
fn non_ascii_proto_is_http() {
    let mut headers = HeaderMap::new();
    headers.insert(X_FORWARDED_PROTO, HeaderValue::from_bytes(b"https\xff").unwrap());
    assert_eq!(forwarded_proto(&headers), "http");
}

#[test]
fn set_cookie_value_is_exact() {
    assert_eq!(SESSION_MAX_AGE_SECS, 2_592_000);
    assert_eq!(
        build_set_cookie(&Digest { bytes: [0xab; 32] }, true),
        format!(
            "mba={}; HttpOnly; SameSite=Lax; Path=/; Max-Age=2592000; Secure",
            "ab".repeat(32)
        )
    );
}

#[test]
fn login_without_a_target_redirects_to_the_root() {
    let reply = login_success(&HeaderMap::new(), None, &session());
    assert_eq!(reply.status, 303);
    assert_eq!(reply.location.as_deref(), Some("/"));
}

#[test]
fn first_password_field_counts() {
    assert_eq!(
        extract_submitted_password(b"a=1&&password=one&password=two").as_deref(),
        Some("one")
    );
    assert_eq!(extract_submitted_password(b"password").as_deref(), Some(""));
    assert_eq!(extract_submitted_password(b"pass%77ord=x%3Dy").as_deref(), Some("x=y"));
    assert_eq!(extract_submitted_password(b"password=%ff").as_deref(), Some("\u{fffd}"));
    assert_eq!(extract_submitted_password(b""), None);
    let pairs = [("x".to_owned(), "1".to_owned()), ("password".to_owned(), "2".to_owned())];
    assert_eq!(find_password(&pairs), Some("2"));
    assert_eq!(find_password(&pairs[..1]), None);
}

#[test]
fn form_without_a_password_meets_the_wall() {
    let config = service(&["hunter2"]);
    assert_eq!(login(&config, &HeaderMap::new(), None, "other=1").status, 401);
    assert_eq!(login(&config, &HeaderMap::new(), None, "").status, 401);
}

/// Add `count` fields of different names.
fn fill(headers: &mut HeaderMap, count: usize) {
    for i in 0..count {
        let name: axum::http::HeaderName = format!("x-{i}").parse().unwrap();
        headers.insert(name, HeaderValue::from_static("1"));
    }
}

#[test]
fn a_large_header_map_has_no_room_for_certain() {
    let mut headers = HeaderMap::new();
    assert!(room_for(&headers, 3));
    fill(&mut headers, 6552);
    assert!(room_for(&headers, 2));
    assert!(!room_for(&headers, 3));
    rewrite_forwarding_headers(&mut headers, Some("real.example")).unwrap();
    assert_eq!(headers.keys_len(), 6554);
}

#[test]
fn authenticated_request_with_many_headers_is_proxied() {
    let mut headers = cookie_header(&format!("app=keep; mba={}", token()));
    fill(&mut headers, 10_000);
    let step = gate(&service(&["hunter2"]), "GET", &mut headers, Some("real.example"));
    assert!(matches!(step, Ok(Step::Forward)));
    assert_eq!(headers.keys_len(), 10_003);
    assert_eq!(headers.get(COOKIE).unwrap(), "app=keep");
    assert_eq!(headers.get(X_FORWARDED_HOST).unwrap(), "real.example");
}

#[test]
fn a_header_map_that_does_not_grow_is_an_error() {
    let config = service(&["hunter2"]);
    let mut headers = cookie_header(&format!("app=keep; mba={}", token()));
    fill(&mut headers, 24_575);
    assert!(headers.try_insert("x-more", HeaderValue::from_static("1")).is_err());
    let before = headers.clone();

    // The cookie header is the first one that is not taken.
    assert!(matches!(gate(&config, "GET", &mut headers, None), Err(HeadersFull)));
    assert_eq!(headers, before);

    // With one header less, there is room for the cookies and the host.
    headers.remove("x-0");
    let step = gate(&config, "GET", &mut headers, Some("real.example"));
    assert!(matches!(step, Err(HeadersFull)));
    assert_eq!(headers.get(COOKIE).unwrap(), "app=keep");
    assert_eq!(headers.get(X_FORWARDED_HOST).unwrap(), "real.example");
    assert!(headers.get(X_FORWARDED_PROTO).is_none());
    assert_eq!(rewrite_forwarding_headers(&mut headers, Some("a.example")), Err(HeadersFull));
    // Without a host to be set, the scheme takes the place of the earlier one.
    assert_eq!(rewrite_forwarding_headers(&mut headers, None), Ok(()));

    // Nothing is set for an unauthenticated request.
    assert_eq!(answer(&config, "GET", &mut headers).status, 401);
}

#[test]
fn forwarded_host_is_as_sensitive_as_the_host() {
    for sensitive in [false, true] {
        let mut host = HeaderValue::from_static("real.example");
        host.set_sensitive(sensitive);
        let mut headers = HeaderMap::new();
        headers.insert(HOST, host);
        rewrite_forwarding_headers(&mut headers, None).unwrap();
        assert_eq!(headers.get(X_FORWARDED_HOST).unwrap().is_sensitive(), sensitive);
        assert_eq!(headers.get(HOST).unwrap().is_sensitive(), sensitive);
        assert!(!headers.get(X_FORWARDED_PROTO).unwrap().is_sensitive());
        rewrite_forwarding_headers(&mut headers, Some("authority.example")).unwrap();
        assert!(!headers.get(X_FORWARDED_HOST).unwrap().is_sensitive());
    }
}
