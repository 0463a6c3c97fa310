use borehole::api_tokens::{CreateToken, TokenError, TokenStore};
use borehole::auth::{
    bearer_token, credentials_valid, eq_ignore_ascii_case, html_escape, login_html, login_page_action,
    login_redirect_url, percent_encode, query_token, request_token, sha256_hex, token_claims, CliQuery,
    LoginPageAction, UserConfig, LOGIN_ERROR_BANNER, TOKEN_TTL_SECS,
};
use borehole::callback::{parse_callback, percent_decode};
use borehole::cli_config::CliConfig;
use borehole::clock::{elapsed_secs, UtcTime};
use borehole::ids::{new_simple_id, new_uuid};
use borehole::text::{
    find_char, host_of, is_whitespace, join_path, parse_u16, push_decimal, rfind_char, same_text,
    split_host_port, trim,
};

const PASSWORD_HASH: &str = "5e884898da28047151d0e56f8dc6292773603d0d6aabbdd62a11ef721d1542d8";

fn users() -> Vec<UserConfig> {
    vec![UserConfig { email: "ana@example.com".to_string(), password_hash: PASSWORD_HASH.to_uppercase() }]
}

fn req(name: &str, scope: &str) -> CreateToken {
    CreateToken { name: name.to_string(), scope: scope.to_string() }
}

// ---- credentials ----

#[test]
fn sha256_hex_known_vectors() {
    assert_eq!(sha256_hex("password"), PASSWORD_HASH);
    assert_eq!(sha256_hex(""), "e3b0c44298fc1c149afbf4c8996fb92427ae41e4649b934ca495991b7852b855");
    assert_eq!(sha256_hex("abc"), "ba7816bf8f01cfea414140de5dae2223b00361a396177a9cb410ff61f20015ad");
    assert_eq!(sha256_hex("é"), "4a99557e4033c3539de2eb65472017cad5f9557f7a0625a09f1c3f6e2ba69c4c");
}

#[test]
fn credentials_need_exact_email_and_matching_hash() {
    let u = users();
    assert!(credentials_valid(&u, "ana@example.com", "password"));
    assert!(!credentials_valid(&u, "ana@example.com", "Password"));
    assert!(!credentials_valid(&u, "Ana@example.com", "password"));
    assert!(!credentials_valid(&Vec::new(), "ana@example.com", "password"));
    assert!(eq_ignore_ascii_case("AbC", "aBc"));
    assert!(!eq_ignore_ascii_case("abc", "abd"));
    assert!(!eq_ignore_ascii_case("abc", "ab"));
}

// ---- the browser login page ----

#[test]
fn percent_encode_keeps_unreserved() {
    assert_eq!(percent_encode("aZ09-._~"), "aZ09-._~");
    assert_eq!(percent_encode("a b/c:"), "a%20b%2Fc%3A");
    assert_eq!(percent_encode("é"), "%C3%A9");
    assert_eq!(percent_encode(""), "");
}

#[test]
fn percent_encode_then_decode_roundtrips() {
    for s in ["2026-06-08T00:00:00+00:00", "a b+c&d=e", "ñandú", "x%y"] {
        assert_eq!(percent_decode(&percent_encode(s)), s);
    }
}

#[test]
fn html_escape_covers_the_four_characters() {
    assert_eq!(html_escape(r#"<a href="x">&</a>"#), "&lt;a href=&quot;x&quot;&gt;&amp;&lt;/a&gt;");
    assert_eq!(html_escape("plain"), "plain");
}

#[test]
fn login_page_embeds_the_escaped_callback() {
    let page = login_html("http://localhost:1/\"x", false);
    assert!(page.contains(r#"<input type="hidden" name="callback" value="http://localhost:1/&quot;x">"#));
    assert!(page.starts_with("<!doctype html>"));
    assert!(page.ends_with("</html>"));
    assert!(!page.contains(LOGIN_ERROR_BANNER));
    assert!(login_html("cb", true).contains("Credenciales no válidas."));
}

#[test]
fn redirect_carries_encoded_token_and_expiry() {
    let url = login_redirect_url("http://localhost:4321", "a.b_c", "2026-06-08T00:00:00+00:00");
    assert_eq!(url, "http://localhost:4321?token=a.b_c&expires=2026-06-08T00%3A00%3A00%2B00%3A00");
    let line = format!("GET /{} HTTP/1.1", &url["http://localhost:4321".len()..]);
    let (token, expires) = parse_callback(&line).expect("the CLI reads it back");
    assert_eq!(token, "a.b_c");
    assert_eq!(expires.as_deref(), Some("2026-06-08T00:00:00+00:00"));
}

#[test]
fn login_page_decisions() {
    let u = users();
    let q = |e: Option<&str>, p: Option<&str>| CliQuery {
        callback: "cb".to_string(),
        email: e.map(str::to_string),
        password: p.map(str::to_string),
    };
    assert!(matches!(login_page_action(&u, &q(None, None)), LoginPageAction::Form { error: false }));
    assert!(matches!(login_page_action(&u, &q(Some("ana@example.com"), None)), LoginPageAction::Form { error: false }));
    assert!(matches!(
        login_page_action(&u, &q(Some("ana@example.com"), Some("nope"))),
        LoginPageAction::Form { error: true }
    ));
    assert!(matches!(
        login_page_action(&u, &q(Some("ana@example.com"), Some("password"))),
        LoginPageAction::Issue { email } if email == "ana@example.com"
    ));
}

#[test]
fn issued_tokens_last_a_day() {
    let now = UtcTime::from_parts(1_700_000_000, 5).unwrap();
    let (claims, expiry) = token_claims("ana@example.com", &now).expect("representable");
    assert_eq!(claims.sub, "ana@example.com");
    assert_eq!(claims.exp, 1_700_086_400);
    assert_eq!(expiry.secs(), 1_700_000_000 + TOKEN_TTL_SECS);
    assert_eq!(expiry.nanos(), 5);
}

// ---- reading the request's token ----

#[test]
fn bearer_header_and_query_token() {
    assert_eq!(bearer_token("Bearer abc.def").as_deref(), Some("abc.def"));
    assert_eq!(bearer_token("Bearer ").as_deref(), Some(""));
    assert!(bearer_token("bearer abc").is_none());
    assert!(bearer_token("Basic abc").is_none());
    assert_eq!(query_token("a=1&token=xyz&token=2").as_deref(), Some("xyz"));
    assert_eq!(query_token("token=a%20b").as_deref(), Some("a%20b"));
    assert!(query_token("tokens=1&x").is_none());
    assert!(query_token("").is_none());
}

// ---- API tokens ----

#[test]
fn tokens_are_minted_per_user() {
    let mut store = TokenStore::new();
    let created = store.create("ana@example.com", &req("  laptop  ", "tcp")).expect("created");
    assert!(created.token.starts_with("tnk_"));
    assert_eq!(created.token.len(), 36);
    assert_eq!(created.info.id, created.token[..12]);
    assert_eq!(created.info.name, "laptop");
    assert_eq!(created.info.scope, "tcp");
    assert!(!created.info.revoked);
    let mut cfg = CliConfig::empty();
    cfg.jwt_expires_at = Some(created.info.created_at.clone());
    assert!(!cfg.jwt_expired_at((0, 0)), "creation time must be a readable instant");
    assert_eq!(store.list("ana@example.com").len(), 1);
    assert!(store.list("bob@example.com").is_empty());
}

#[test]
fn token_requests_are_validated() {
    let mut store = TokenStore::new();
    assert_eq!(store.create("a", &req("x", "admin")).unwrap_err(), TokenError::InvalidScope);
    assert_eq!(store.create("a", &req("   ", "all")).unwrap_err(), TokenError::NameRequired);
    assert_eq!(store.create("a", &req("", "nope")).unwrap_err(), TokenError::InvalidScope);
    assert!(store.list("a").is_empty());
    assert_eq!(TokenError::InvalidScope.message(), "invalid scope");
    assert_eq!(TokenError::NameRequired.message(), "name is required");
    assert_eq!(TokenError::NotFound.message(), "token not found");
}

#[test]
fn token_with_given_secret_and_time() {
    let mut store = TokenStore::new();
    let now = UtcTime::from_parts(0, 0).unwrap();
    let c = store
        .create_with("a", &req("ci", "all"), "0123456789abcdef0123456789abcdef", &now)
        .expect("created");
    assert_eq!(c.token, "tnk_0123456789abcdef0123456789abcdef");
    assert_eq!(c.info.id, "tnk_01234567");
    assert_eq!(c.info.created_at, "1970-01-01T00:00:00+00:00");
}

#[test]
fn revoked_tokens_stay_listed() {
    let mut store = TokenStore::new();
    let a = store.create("u", &req("one", "all")).unwrap();
    let b = store.create("u", &req("two", "http")).unwrap();
    assert_eq!(store.revoke("u", &a.info.id), Ok(()));
    let listed = store.list("u");
    assert_eq!(listed.len(), 2);
    assert!(listed[0].revoked);
    assert!(!listed[1].revoked);
    assert_eq!(listed[1].id, b.info.id);
    assert_eq!(store.revoke("u", "tnk_missing"), Err(TokenError::NotFound));
    assert_eq!(store.revoke("nobody", &a.info.id), Err(TokenError::NotFound));
}

// ---- time and ids ----

#[test]
fn rfc3339_round_trip_and_elapsed() {
    let t = UtcTime::from_parts(86_400, 250_000_000).unwrap();
    assert_eq!(t.to_rfc3339(), "1970-01-02T00:00:00.250+00:00");
    let expiring = |text: &str| {
        let mut cfg = CliConfig::empty();
        cfg.jwt_expires_at = Some(text.to_string());
        cfg
    };
    let c = expiring("1970-01-02T00:00:00.250+00:00");
    assert!(c.jwt_expired_at((86_400, 250_000_000)));
    assert!(!c.jwt_expired_at((86_400, 249_999_999)));
    let c = expiring("1970-01-02T01:00:00+01:00");
    assert!(c.jwt_expired_at((86_400, 0)));
    assert!(!c.jwt_expired_at((86_399, 999_999_999)));
    assert!(expiring("yesterday").jwt_expired_at((i64::MIN, 0)));
    assert!(UtcTime::from_parts(0, 1_000_000_000).is_none());
    assert!(UtcTime::from_parts(i64::MAX, 0).is_none());
    let a = UtcTime::from_parts(10, 0).unwrap();
    let b = UtcTime::from_parts(12, 999_999_999).unwrap();
    assert_eq!(elapsed_secs(&a, &b), 2);
    assert_eq!(elapsed_secs(&b, &a), 0);
    assert!(UtcTime::now().secs() > 1_600_000_000);
}

#[test]
fn ids_have_their_shapes() {
    let simple = new_simple_id();
    assert_eq!(simple.len(), 32);
    assert!(simple.chars().all(|c| c.is_ascii_digit() || ('a'..='f').contains(&c)));
    assert_eq!(&simple[12..13], "4");
    assert!(["8", "9", "a", "b"].contains(&&simple[16..17]));
    let uuid = new_uuid();
    assert_eq!(uuid.len(), 36);
    let dashes: Vec<usize> = uuid.char_indices().filter(|(_, c)| *c == '-').map(|(i, _)| i).collect();
    assert_eq!(dashes, vec![8, 13, 18, 23]);
    assert_eq!(&uuid[14..15], "4");
    assert!(["8", "9", "a", "b"].contains(&&uuid[19..20]));
    assert_ne!(new_uuid(), new_uuid());
}

// ---- text helpers ----

#[test]
fn text_helpers() {
    assert_eq!(trim(" \t a b \n"), "a b");
    assert!(is_whitespace('\u{3000}'));
    assert!(!is_whitespace('x'));
    assert_eq!(find_char("a:b:c", ':'), Some(1));
    assert_eq!(rfind_char("a:b:c", ':'), Some(3));
    assert_eq!(find_char("abc", ':'), None);
    assert!(same_text("x", "x"));
    assert!(!same_text("x", "X"));
    assert_eq!(parse_u16("65535"), Some(65535));
    assert_eq!(parse_u16("65536"), None);
    assert_eq!(parse_u16(""), None);
    assert_eq!(parse_u16("+1"), Some(1));
    assert_eq!(parse_u16("007"), Some(7));
    assert_eq!(split_host_port("h:1:2"), Some(("h:1", "2")));
    assert_eq!(split_host_port("h"), None);
    assert_eq!(host_of("h:1"), "h");
    assert_eq!(host_of("h"), "h");
    assert_eq!(join_path("/a", "b"), "/a/b");
    assert_eq!(join_path("/a/", "b"), "/a/b");
    let mut s = String::from("n=");
    push_decimal(&mut s, 0);
    push_decimal(&mut s, 40_960);
    assert_eq!(s, "n=040960");
}

#[test]
fn written_ports_parse_back() {
    for p in [0u16, 1, 22, 7000, 32847, 65535] {
        let mut s = String::new();
        push_decimal(&mut s, p as u64);
        assert_eq!(s, p.to_string());
        assert_eq!(parse_u16(&s), Some(p));
    }
}

#[test]
fn request_token_prefers_the_header() {
    assert_eq!(request_token(Some("Bearer h"), Some("token=q")).as_deref(), Some("h"));
    assert_eq!(request_token(Some("Basic x"), Some("token=q")).as_deref(), Some("q"));
    assert_eq!(request_token(None, Some("a=1&token=q")).as_deref(), Some("q"));
    assert!(request_token(None, None).is_none());
    assert!(request_token(Some("Basic x"), Some("a=1")).is_none());
}

#[test]
fn token_errors_map_to_statuses() {
    assert_eq!(TokenError::InvalidScope.http_status(), 400);
    assert_eq!(TokenError::NameRequired.http_status(), 400);
    assert_eq!(TokenError::NotFound.http_status(), 404);
}
