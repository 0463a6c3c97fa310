//! Dashboard authentication: credential checks against the configured users,
//! the browser login page of `borehole login`, and reading the bearer token
//! of a request. Signing and verifying the JWTs themselves happens around
//! this crate, where the claims are serialized.

use sha2::{Digest, Sha256};
use vstd::prelude::*;
use vstd::utf8::encode_utf8;

use crate::clock::{rfc3339_text, UtcTime};
use crate::text::{find_char, find_first, push_char, same_text, split_pieces};

verus! {

/// JWT payload. `sub` is the user's email; `exp` is the unix expiry in seconds.
#[derive(Debug, Clone)]
pub struct Claims {
    pub sub: String,
    pub exp: usize,
}

/// Body of `POST /api/auth/login`.
#[derive(Debug, Clone)]
pub struct LoginRequest {
    pub email: String,
    pub password: String,
}

/// Successful login response (also used by the CLI redirect flow).
#[derive(Debug, Clone)]
pub struct LoginResponse {
    pub jwt: String,
    pub expires_at: String,
}

/// Query string of `GET /api/auth/cli`.
#[derive(Debug, Clone)]
pub struct CliQuery {
    pub callback: String,
    pub email: Option<String>,
    pub password: Option<String>,
}

/// The claims of a request that carried a valid token.
#[derive(Debug, Clone)]
pub struct AuthClaims(pub Claims);

/// Lifetime of an issued token: 24 hours, in seconds.
pub const TOKEN_TTL_SECS: i64 = 86400;

/// The claims of a token issued to `email` at `now`, and the instant the token
/// expires, 24 hours later (`exp` is that instant's Unix time). `None` only
/// when that instant lies beyond what chrono can represent.
pub fn token_claims(email: &str, now: &UtcTime) -> (r: Option<(Claims, UtcTime)>)
    ensures
        match r {
            Some((c, expiry)) => {
                &&& c.sub@ == email@
                &&& expiry.spec_secs() == now.spec_secs() + TOKEN_TTL_SECS
                &&& expiry.spec_nanos() == now.spec_nanos()
                &&& c.exp == expiry.spec_secs() as usize
            },
            None => now.spec_secs() + TOKEN_TTL_SECS > i64::MAX || rfc3339_text(
                (now.spec_secs() + TOKEN_TTL_SECS) as i64,
                now.spec_nanos(),
            ) is None,
        },
{
    let secs = now.secs();
    if secs > i64::MAX - TOKEN_TTL_SECS {
        return None;
    }
    match UtcTime::from_parts(secs + TOKEN_TTL_SECS, now.nanos()) {
        Some(expiry) => {
            let exp = expiry.secs() as usize;
            Some((Claims { sub: String::from_str(email), exp }, expiry))
        },
        None => None,
    }
}

/// A dashboard user. The password is stored as its SHA-256 hex digest.
#[derive(Debug, Clone)]
pub struct UserConfig {
    pub email: String,
    /// SHA-256 hex digest of the password.
    pub password_hash: String,
}

/// The SHA-256 digest of a byte string.
pub uninterp spec fn sha256(data: Seq<u8>) -> Seq<u8>;

/// `sha2::Sha256::digest`. Claimed: the result is `sha256` of the input and,
/// as for every SHA-256 digest, 32 bytes long.
#[verifier::external_body]
fn sha256_digest(data: &[u8]) -> (r: Vec<u8>)
    ensures
        r@ == sha256(data@),
        r@.len() == 32,
{
    Sha256::digest(data).to_vec()
}

/// Lowercase hex digit of a value below 16.
pub open spec fn hex_lower_digit(v: u8) -> char {
    if v < 10 {
        ((v + 0x30) as u8) as char
    } else {
        ((v - 10 + 0x61) as u8) as char
    }
}

/// Uppercase hex digit of a value below 16.
pub open spec fn hex_upper_digit(v: u8) -> char {
    if v < 10 {
        ((v + 0x30) as u8) as char
    } else {
        ((v - 10 + 0x41) as u8) as char
    }
}

/// Two lowercase hex digits per byte.
pub open spec fn lower_hex(bytes: Seq<u8>) -> Seq<char>
    decreases bytes.len(),
{
    if bytes.len() == 0 {
        Seq::empty()
    } else {
        lower_hex(bytes.subrange(0, bytes.len() - 1)) + seq![
            hex_lower_digit(bytes[bytes.len() - 1] / 16),
            hex_lower_digit(bytes[bytes.len() - 1] % 16),
        ]
    }
}

fn hex_digit(v: u8, upper: bool) -> (c: char)
    requires
        v < 16,
    ensures
        c == if upper {
            hex_upper_digit(v)
        } else {
            hex_lower_digit(v)
        },
{
    if v < 10 {
        (v + 0x30) as char
    } else if upper {
        (v - 10 + 0x41) as char
    } else {
        (v - 10 + 0x61) as char
    }
}

/// Lowercase SHA-256 hex digest of `input`'s UTF-8 bytes.
pub fn sha256_hex(input: &str) -> (r: String)
    ensures
        r@ == lower_hex(sha256(encode_utf8(input@))),
{
    let digest = sha256_digest(input.as_bytes());
    let mut out = String::new();
    let mut i: usize = 0;
    while i < digest.len()
        invariant
            digest@ == sha256(encode_utf8(input@)),
            i <= digest@.len(),
            out@ == lower_hex(digest@.subrange(0, i as int)),
        decreases digest@.len() - i,
    {
        let b = digest[i];
        push_char(&mut out, hex_digit(b / 16, false));
        push_char(&mut out, hex_digit(b % 16, false));
        assert(digest@.subrange(0, i + 1).subrange(0, i as int) =~= digest@.subrange(0, i as int));
        i = i + 1;
    }
    assert(digest@.subrange(0, digest@.len() as int) =~= digest@);
    out
}

/// ASCII lowercase of one byte.
pub open spec fn ascii_lower(b: u8) -> u8 {
    if 0x41 <= b <= 0x5a {
        (b + 0x20) as u8
    } else {
        b
    }
}

/// `str::eq_ignore_ascii_case`: same length, and each pair of bytes equal
/// once ASCII letters are lowercased.
pub open spec fn eq_ignore_case(a: Seq<u8>, b: Seq<u8>) -> bool {
    a.len() == b.len() && forall|i: int| 0 <= i < a.len() ==> ascii_lower(#[trigger] a[i]) == ascii_lower(b[i])
}

/// Whether `a` and `b` are equal up to ASCII case.
pub fn eq_ignore_ascii_case(a: &str, b: &str) -> (r: bool)
    ensures
        r == eq_ignore_case(encode_utf8(a@), encode_utf8(b@)),
{
    let x = a.as_bytes();
    let y = b.as_bytes();
    if x.len() != y.len() {
        return false;
    }
    let mut i: usize = 0;
    while i < x.len()
        invariant
            x@ == encode_utf8(a@),
            y@ == encode_utf8(b@),
            x@.len() == y@.len(),
            i <= x@.len(),
            forall|j: int| 0 <= j < i ==> ascii_lower(#[trigger] x@[j]) == ascii_lower(y@[j]),
        decreases x@.len() - i,
    {
        let p = if 0x41 <= x[i] && x[i] <= 0x5a {
            x[i] + 0x20
        } else {
            x[i]
        };
        let q = if 0x41 <= y[i] && y[i] <= 0x5a {
            y[i] + 0x20
        } else {
            y[i]
        };
        if p != q {
            return false;
        }
        i = i + 1;
    }
    true
}

/// Whether `users` holds a user with this email whose stored digest is the
/// lowercase SHA-256 hex digest of this password, compared regardless of
/// ASCII case.
pub open spec fn credentials_ok(users: Seq<UserConfig>, email: Seq<char>, password: Seq<char>) -> bool {
    exists|i: int|
        0 <= i < users.len() && #[trigger] users[i].email@ == email && eq_ignore_case(
            encode_utf8(users[i].password_hash@),
            encode_utf8(lower_hex(sha256(encode_utf8(password)))),
        )
}

/// Checks an email and password against the configured users: the email must
/// match and the SHA-256 of the password must equal the stored hex digest
/// (case-insensitive).
pub fn credentials_valid(users: &Vec<UserConfig>, email: &str, password: &str) -> (r: bool)
    ensures
        r == credentials_ok(users@, email@, password@),
{
    let hash = sha256_hex(password);
    let mut i: usize = 0;
    while i < users.len()
        invariant
            i <= users@.len(),
            hash@ == lower_hex(sha256(encode_utf8(password@))),
            forall|j: int|
                0 <= j < i ==> !(#[trigger] users@[j].email@ == email@ && eq_ignore_case(
                    encode_utf8(users@[j].password_hash@),
                    encode_utf8(lower_hex(sha256(encode_utf8(password@)))),
                )),
        decreases users@.len() - i,
    {
        let user = &users[i];
        if same_text(user.email.as_str(), email) && eq_ignore_ascii_case(
            user.password_hash.as_str(),
            hash.as_str(),
        ) {
            assert(users@[i as int].email@ == email@);
            return true;
        }
        i = i + 1;
    }
    false
}

/// Bytes that percent-encoding keeps as they are (RFC 3986 unreserved set).
pub open spec fn is_unreserved(b: u8) -> bool {
    ||| 0x41 <= b <= 0x5a
    ||| 0x61 <= b <= 0x7a
    ||| 0x30 <= b <= 0x39
    ||| b == 0x2d
    ||| b == 0x2e
    ||| b == 0x5f
    ||| b == 0x7e
}

/// Percent-encoding of one byte: an unreserved byte as itself, any other as
/// `%` and two uppercase hex digits.
pub open spec fn percent_byte(b: u8) -> Seq<char> {
    if is_unreserved(b) {
        seq![b as char]
    } else {
        seq!['%', hex_upper_digit(b / 16), hex_upper_digit(b % 16)]
    }
}

/// Percent-encoding of a byte string, byte by byte.
pub open spec fn percent_encoded(bytes: Seq<u8>) -> Seq<char>
    decreases bytes.len(),
{
    if bytes.len() == 0 {
        Seq::empty()
    } else {
        percent_byte(bytes[0]) + percent_encoded(bytes.subrange(1, bytes.len() as int))
    }
}

pub proof fn lemma_percent_encoded_push(s: Seq<u8>, b: u8)
    ensures
        percent_encoded(s.push(b)) == percent_encoded(s) + percent_byte(b),
    decreases s.len(),
{
    if s.len() == 0 {
        assert(s.push(b).subrange(1, 1) =~= Seq::<u8>::empty());
        assert(percent_encoded(s.push(b).subrange(1, 1)) == Seq::<char>::empty());
        assert(s.push(b)[0] == b);
        assert(percent_encoded(s.push(b)) =~= percent_byte(b));
    } else {
        let rest = s.subrange(1, s.len() as int);
        lemma_percent_encoded_push(rest, b);
        assert(s.push(b).subrange(1, s.len() as int + 1) =~= rest.push(b));
        assert(percent_encoded(s.push(b)) =~= percent_encoded(s) + percent_byte(b));
    }
}

/// Percent-encodes a query-string value (RFC 3986 unreserved set kept as-is).
pub fn percent_encode(input: &str) -> (r: String)
    ensures
        r@ == percent_encoded(encode_utf8(input@)),
{
    let bytes = input.as_bytes();
    let mut out = String::new();
    let mut i: usize = 0;
    while i < bytes.len()
        invariant
            bytes@ == encode_utf8(input@),
            i <= bytes@.len(),
            out@ == percent_encoded(bytes@.subrange(0, i as int)),
        decreases bytes@.len() - i,
    {
        let b = bytes[i];
        assert(bytes@.subrange(0, i + 1) =~= bytes@.subrange(0, i as int).push(b));
        proof {
            lemma_percent_encoded_push(bytes@.subrange(0, i as int), b);
        }
        let keep = (0x41 <= b && b <= 0x5a) || (0x61 <= b && b <= 0x7a) || (0x30 <= b && b <= 0x39)
            || b == 0x2d || b == 0x2e || b == 0x5f || b == 0x7e;
        if keep {
            push_char(&mut out, b as char);
        } else {
            push_char(&mut out, '%');
            push_char(&mut out, hex_digit(b / 16, true));
            push_char(&mut out, hex_digit(b % 16, true));
        }
        assert(out@ =~= percent_encoded(bytes@.subrange(0, i + 1)));
        i = i + 1;
    }
    assert(bytes@.subrange(0, bytes@.len() as int) =~= bytes@);
    out
}

/// Escaping of one character for an HTML attribute value.
pub open spec fn html_escaped_char(c: char) -> Seq<char> {
    if c == '&' {
        seq!['&', 'a', 'm', 'p', ';']
    } else if c == '"' {
        seq!['&', 'q', 'u', 'o', 't', ';']
    } else if c == '<' {
        seq!['&', 'l', 't', ';']
    } else if c == '>' {
        seq!['&', 'g', 't', ';']
    } else {
        seq![c]
    }
}

/// Escaping of a text for an HTML attribute value.
pub open spec fn html_escaped(s: Seq<char>) -> Seq<char>
    decreases s.len(),
{
    if s.len() == 0 {
        Seq::empty()
    } else {
        html_escaped(s.subrange(0, s.len() - 1)) + html_escaped_char(s[s.len() - 1])
    }
}

/// Minimal HTML escape for attribute values: `&`, `"`, `<` and `>`.
pub fn html_escape(input: &str) -> (r: String)
    ensures
        r@ == html_escaped(input@),
{
    let n = input.unicode_len();
    let mut out = String::new();
    let mut i: usize = 0;
    proof {
        reveal_strlit("&amp;");
        reveal_strlit("&quot;");
        reveal_strlit("&lt;");
        reveal_strlit("&gt;");
    }
    while i < n
        invariant
            n == input@.len(),
            i <= n,
            out@ == html_escaped(input@.subrange(0, i as int)),
            "&amp;"@ == seq!['&', 'a', 'm', 'p', ';'],
            "&quot;"@ == seq!['&', 'q', 'u', 'o', 't', ';'],
            "&lt;"@ == seq!['&', 'l', 't', ';'],
            "&gt;"@ == seq!['&', 'g', 't', ';'],
        decreases n - i,
    {
        let c = input.get_char(i);
        assert(input@.subrange(0, i + 1).subrange(0, i as int) =~= input@.subrange(0, i as int));
        if c == '&' {
            out.append("&amp;");
        } else if c == '"' {
            out.append("&quot;");
        } else if c == '<' {
            out.append("&lt;");
        } else if c == '>' {
            out.append("&gt;");
        } else {
            push_char(&mut out, c);
        }
        assert(out@ =~= html_escaped(input@.subrange(0, i + 1)));
        i = i + 1;
    }
    assert(input@.subrange(0, n as int) =~= input@);
    out
}

/// `h` starts with `Bearer ` (with its space).
pub open spec fn has_bearer_prefix(h: Seq<char>) -> bool {
    h.len() >= 7 && h.subrange(0, 7) == seq!['B', 'e', 'a', 'r', 'e', 'r', ' ']
}

/// The JWT of an `Authorization` header value of the form `Bearer <jwt>`.
pub fn bearer_token(header_value: &str) -> (r: Option<String>)
    ensures
        match r {
            Some(t) => has_bearer_prefix(header_value@) && t@ == header_value@.subrange(
                7,
                header_value@.len() as int,
            ),
            None => !has_bearer_prefix(header_value@),
        },
{
    proof {
        reveal_strlit("Bearer ");
    }
    assert("Bearer "@ =~= seq!['B', 'e', 'a', 'r', 'e', 'r', ' ']);
    let n = header_value.unicode_len();
    if n < 7 {
        return None;
    }
    let head = header_value.substring_char(0, 7);
    if same_text(head, "Bearer ") {
        Some(String::from_str(header_value.substring_char(7, n)))
    } else {
        None
    }
}

/// The token of a dashboard request: from its `Authorization` header when
/// that holds `Bearer <jwt>`, otherwise from its `?token=` query parameter
/// (SSE clients cannot set headers). `None` when neither carries one.
pub fn request_token(authorization: Option<&str>, query: Option<&str>) -> (r: Option<String>)
    ensures
        ({
            let from_header = match authorization {
                Some(h) => has_bearer_prefix(h@),
                None => false,
            };
            if from_header {
                r matches Some(t) && t@ == authorization.unwrap()@.subrange(7, authorization.unwrap()@.len() as int)
            } else {
                match query {
                    Some(q) => match first_param(split_pieces(q@, '&'), seq!['t', 'o', 'k', 'e', 'n']) {
                        Some(v) => r matches Some(t) && t@ == v,
                        None => r is None,
                    },
                    None => r is None,
                }
            }
        }),
{
    let from_header = match authorization {
        Some(h) => bearer_token(h),
        None => None,
    };
    match from_header {
        Some(t) => Some(t),
        None => match query {
            Some(q) => query_token(q),
            None => None,
        },
    }
}

/// The value of the first `key=value` pair of `pairs` whose key is `key`.
pub open spec fn first_param(pairs: Seq<Seq<char>>, key: Seq<char>) -> Option<Seq<char>>
    decreases pairs.len(),
{
    if pairs.len() == 0 {
        None
    } else {
        let p = pairs[0];
        match find_first(p, '=') {
            Some(e) if p.subrange(0, e) == key => Some(p.subrange(e + 1, p.len() as int)),
            _ => first_param(pairs.subrange(1, pairs.len() as int), key),
        }
    }
}

/// The JWT of a `?token=<jwt>` query parameter: the value of the first
/// `token=` pair, taken as it is (JWTs are URL-safe).
pub fn query_token(query: &str) -> (r: Option<String>)
    ensures
        match first_param(split_pieces(query@, '&'), seq!['t', 'o', 'k', 'e', 'n']) {
            Some(v) => r matches Some(t) && t@ == v,
            None => r is None,
        },
{
    let ghost key = seq!['t', 'o', 'k', 'e', 'n'];
    proof {
        reveal_strlit("token");
    }
    assert("token"@ =~= key);
    let ghost target = first_param(split_pieces(query@, '&'), key);
    let mut rest = query;
    loop
        invariant
            first_param(split_pieces(rest@, '&'), key) == target,
            target == first_param(split_pieces(query@, '&'), seq!['t', 'o', 'k', 'e', 'n']),
            key == seq!['t', 'o', 'k', 'e', 'n'],
            "token"@ == key,
        decreases rest@.len(),
    {
        let rn = rest.unicode_len();
        let (piece, next) = match find_char(rest, '&') {
            Some(a) => {
                let piece = rest.substring_char(0, a);
                let n = rest.substring_char(a + 1, rn);
                assert(split_pieces(rest@, '&') == seq![piece@] + split_pieces(n@, '&'));
                (piece, Some(n))
            },
            None => {
                assert(split_pieces(rest@, '&') == seq![rest@]);
                (rest, None)
            },
        };
        assert(split_pieces(rest@, '&')[0] == piece@);
        let pn = piece.unicode_len();
        let ghost pieces = split_pieces(rest@, '&');
        assert(pieces.len() > 0);
        if let Some(e) = find_char(piece, '=') {
            let k = piece.substring_char(0, e);
            if same_text(k, "token") {
                let v = piece.substring_char(e + 1, pn);
                assert(first_param(pieces, key) == Some(v@));
                return Some(String::from_str(v));
            }
            assert(first_param(pieces, key) == first_param(pieces.subrange(1, pieces.len() as int), key));
        } else {
            assert(first_param(pieces, key) == first_param(pieces.subrange(1, pieces.len() as int), key));
        }
        match next {
            Some(n) => {
                assert((seq![piece@] + split_pieces(n@, '&')).subrange(1, split_pieces(rest@, '&').len() as int)
                    =~= split_pieces(n@, '&'));
                rest = n;
            },
            None => {
                assert(split_pieces(rest@, '&') == seq![piece@]);
                assert(seq![piece@].subrange(1, 1) =~= Seq::<Seq<char>>::empty());
                return None;
            },
        }
    }
}

/// The login page up to the error banner.
pub const LOGIN_PAGE_HEAD: &'static str = r#"<!doctype html>
<html lang="es">
<head>
<meta charset="utf-8">
<meta name="viewport" content="width=device-width, initial-scale=1">
<title>borehole — iniciar sesión</title>
<style>
  body { background:#0a0b0d; color:#e7e9ee; font-family:ui-monospace,monospace;
          display:flex; min-height:100vh; align-items:center; justify-content:center; }
  form { border:1px solid rgba(232,236,242,.17); background:#0d0f13; padding:28px;
          width:320px; }
  h1 { font-size:14px; letter-spacing:2px; text-transform:uppercase; margin:0 0 18px; }
  label { display:block; font-size:11px; color:#878d97; margin:14px 0 4px; }
  input { width:100%; background:#0a0b0d; border:1px solid rgba(232,236,242,.17);
           color:#e7e9ee; padding:8px; font-family:inherit; }
  button { margin-top:20px; width:100%; background:#5b8def; color:#0a0b0d; border:0;
            padding:10px; font-family:inherit; font-weight:600; cursor:pointer; }
  .err { color:#d76a5c; font-size:12px; margin:0 0 12px; }
</style>
</head>
<body>
<form method="get" action="/api/auth/cli">
  <h1>borehole</h1>
  "#;

/// The login page between the error banner and the callback value.
pub const LOGIN_PAGE_MIDDLE: &'static str = r#"
  <input type="hidden" name="callback" value=""#;

/// The login page after the callback value.
pub const LOGIN_PAGE_TAIL: &'static str = r#"">
  <label for="email">Email</label>
  <input id="email" name="email" type="email" autocomplete="username" required>
  <label for="password">Contraseña</label>
  <input id="password" name="password" type="password" autocomplete="current-password" required>
  <button type="submit">Iniciar sesión</button>
</form>
</body>
</html>"#;

/// The error banner shown after a failed attempt.
pub const LOGIN_ERROR_BANNER: &'static str = "<p class=\"err\">Credenciales no válidas.</p>";

/// The login page for `callback`, with the error banner when `error` holds.
pub open spec fn login_page(callback: Seq<char>, error: bool) -> Seq<char> {
    LOGIN_PAGE_HEAD@ + (if error {
        LOGIN_ERROR_BANNER@
    } else {
        Seq::empty()
    }) + LOGIN_PAGE_MIDDLE@ + html_escaped(callback) + LOGIN_PAGE_TAIL@
}

/// Renders the minimal browser login form for the CLI flow.
pub fn login_html(callback: &str, error: bool) -> (r: String)
    ensures
        r@ == login_page(callback@, error),
{
    let escaped = html_escape(callback);
    let mut page = String::from_str(LOGIN_PAGE_HEAD);
    if error {
        page.append(LOGIN_ERROR_BANNER);
    }
    page.append(LOGIN_PAGE_MIDDLE);
    page.append(escaped.as_str());
    page.append(LOGIN_PAGE_TAIL);
    assert(page@ =~= login_page(callback@, error));
    page
}

/// The URL the login page sends the browser back to: the CLI's callback with
/// the percent-encoded token and expiry.
pub open spec fn redirect_url(callback: Seq<char>, jwt: Seq<char>, expires_at: Seq<char>) -> Seq<char> {
    callback + seq!['?', 't', 'o', 'k', 'e', 'n', '='] + percent_encoded(encode_utf8(jwt)) + seq![
        '&',
        'e',
        'x',
        'p',
        'i',
        'r',
        'e',
        's',
        '=',
    ] + percent_encoded(encode_utf8(expires_at))
}

/// `{callback}?token={jwt}&expires={expires_at}`, values percent-encoded.
pub fn login_redirect_url(callback: &str, jwt: &str, expires_at: &str) -> (r: String)
    ensures
        r@ == redirect_url(callback@, jwt@, expires_at@),
{
    proof {
        reveal_strlit("?token=");
        reveal_strlit("&expires=");
    }
    let mut url = String::from_str(callback);
    url.append("?token=");
    url.append(percent_encode(jwt).as_str());
    url.append("&expires=");
    url.append(percent_encode(expires_at).as_str());
    assert(url@ =~= redirect_url(callback@, jwt@, expires_at@));
    url
}

/// What the CLI login page does with a request.
#[derive(Debug, Clone)]
pub enum LoginPageAction {
    /// Show the form, with the error banner when `error` holds.
    Form { error: bool },
    /// The credentials are valid: issue a token for this email and redirect.
    Issue { email: String },
}

/// The CLI login page's decision: with both email and password and valid
/// credentials, issue a token; with both but invalid ones, the form with the
/// error banner; otherwise the plain form.
pub fn login_page_action(users: &Vec<UserConfig>, query: &CliQuery) -> (r: LoginPageAction)
    ensures
        match (query.email, query.password) {
            (Some(e), Some(p)) => if credentials_ok(users@, e@, p@) {
                r matches LoginPageAction::Issue { email } && email@ == e@
            } else {
                r matches LoginPageAction::Form { error } && error
            },
            _ => r matches LoginPageAction::Form { error } && !error,
        },
{
    match (&query.email, &query.password) {
        (Some(email), Some(password)) => {
            if credentials_valid(users, email.as_str(), password.as_str()) {
                LoginPageAction::Issue { email: email.clone() }
            } else {
                LoginPageAction::Form { error: true }
            }
        },
        _ => LoginPageAction::Form { error: false },
    }
}

} // verus!
