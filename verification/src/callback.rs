//! The `borehole login` callback: the browser lands on the CLI's local listener
//! with `?token=..&expires=..`, and the CLI reads both from the request line.

use vstd::prelude::*;
use vstd::utf8::{decode_utf8, encode_utf8, is_ascii_chars, is_ascii_chars_encode_utf8, valid_utf8};

use crate::auth::{hex_upper_digit, is_unreserved, percent_byte, percent_encoded, redirect_url};
use crate::text::{
    find_char, find_first, is_first, is_ws, lemma_find_first_at, lemma_find_first_none, lemma_words_prefix, same_text,
    skip_ws, split_pieces, word_end, words,
};

verus! {

/// Value of an ASCII hexadecimal digit.
pub open spec fn hex_value(b: u8) -> Option<u8> {
    if 0x30 <= b <= 0x39 {
        Some((b - 0x30) as u8)
    } else if 0x61 <= b <= 0x66 {
        Some((b - 0x61 + 10) as u8)
    } else if 0x41 <= b <= 0x46 {
        Some((b - 0x41 + 10) as u8)
    } else {
        None
    }
}

/// Converts a single hex digit to its value.
pub fn hex_val(b: u8) -> (r: Option<u8>)
    ensures
        r == hex_value(b),
{
    if 0x30u8 <= b && b <= 0x39u8 {
        Some(b - 0x30u8)
    } else if 0x61u8 <= b && b <= 0x66u8 {
        Some(b - 0x61u8 + 10)
    } else if 0x41u8 <= b && b <= 0x46u8 {
        Some(b - 0x41u8 + 10)
    } else {
        None
    }
}

/// `application/x-www-form-urlencoded` decoding of a byte string: `%XX` with
/// two hex digits becomes that byte, `+` becomes a space, anything else stays.
pub open spec fn form_decoded(s: Seq<u8>) -> Seq<u8>
    decreases s.len(),
{
    if s.len() == 0 {
        Seq::empty()
    } else if s[0] == 0x25 && s.len() > 2 && hex_value(s[1]) is Some && hex_value(s[2]) is Some {
        seq![(hex_value(s[1]).unwrap() * 16 + hex_value(s[2]).unwrap()) as u8] + form_decoded(
            s.subrange(3, s.len() as int),
        )
    } else if s[0] == 0x2b {
        seq![0x20u8] + form_decoded(s.subrange(1, s.len() as int))
    } else {
        seq![s[0]] + form_decoded(s.subrange(1, s.len() as int))
    }
}

/// What `String::from_utf8_lossy` makes of a byte string.
pub uninterp spec fn utf8_lossy(bytes: Seq<u8>) -> Seq<char>;

/// `String::from_utf8_lossy`: decodes UTF-8, putting U+FFFD in place of each
/// invalid sequence. Claimed: the result is `utf8_lossy` of the bytes, and on
/// valid UTF-8 it is exactly the decoded text.
#[verifier::external_body]
pub(crate) fn string_from_utf8_lossy(bytes: &[u8]) -> (r: String)
    ensures
        r@ == utf8_lossy(bytes@),
        valid_utf8(bytes@) ==> r@ == decode_utf8(bytes@),
{
    String::from_utf8_lossy(bytes).into_owned()
}

/// The text of a byte string read as UTF-8: exactly the decoded text when
/// the bytes are valid UTF-8, and what `String::from_utf8_lossy` makes of
/// them otherwise.
pub open spec fn lossy_text(bytes: Seq<u8>) -> Seq<char> {
    if valid_utf8(bytes) {
        decode_utf8(bytes)
    } else {
        utf8_lossy(bytes)
    }
}

/// Form-decoding of a text, as the callback's query values are decoded: the
/// decoded bytes read as UTF-8, invalid sequences replaced.
pub open spec fn decode_component(v: Seq<char>) -> Seq<char> {
    lossy_text(form_decoded(encode_utf8(v)))
}

/// Minimal `application/x-www-form-urlencoded` decoder (`%XX` and `+`).
pub fn percent_decode(input: &str) -> (r: String)
    ensures
        r@ == decode_component(input@),
{
    let bytes = input.as_bytes();
    let n = bytes.len();
    let ghost s = bytes@;
    let mut out: Vec<u8> = Vec::new();
    let mut i: usize = 0;
    assert(s.subrange(0, n as int) =~= s);
    while i < n
        invariant
            n == s.len(),
            s == bytes@,
            i <= n,
            form_decoded(s) == out@ + form_decoded(s.subrange(i as int, n as int)),
        decreases n - i,
    {
        let ghost rest = s.subrange(i as int, n as int);
        let b = bytes[i];
        if b == 0x25u8 && n - i > 2 {
            match (hex_val(bytes[i + 1]), hex_val(bytes[i + 2])) {
                (Some(h), Some(l)) => {
                    assert(rest.subrange(3, rest.len() as int) =~= s.subrange(i + 3, n as int));
                    out.push(h * 16 + l);
                    i = i + 3;
                },
                _ => {
                    assert(rest.subrange(1, rest.len() as int) =~= s.subrange(i + 1, n as int));
                    out.push(b);
                    i = i + 1;
                },
            }
        } else if b == 0x2bu8 {
            assert(rest.subrange(1, rest.len() as int) =~= s.subrange(i + 1, n as int));
            out.push(0x20u8);
            i = i + 1;
        } else {
            assert(rest.subrange(1, rest.len() as int) =~= s.subrange(i + 1, n as int));
            out.push(b);
            i = i + 1;
        }
    }
    assert(form_decoded(s.subrange(n as int, n as int)) =~= Seq::<u8>::empty());
    assert(out@ =~= form_decoded(s));
    string_from_utf8_lossy(out.as_slice())
}

/// The request target: the second whitespace-separated word of the request line.
pub open spec fn request_target(line: Seq<char>) -> Option<Seq<char>> {
    if words(line).len() > 1 {
        Some(words(line)[1])
    } else {
        None
    }
}

/// The query of a request target: what follows its first `?`, or nothing.
pub open spec fn query_of(target: Seq<char>) -> Seq<char> {
    match find_first(target, '?') {
        Some(i) => target.subrange(i + 1, target.len() as int),
        None => Seq::empty(),
    }
}

/// The raw value of the last `key=value` pair with this key; later pairs win.
pub open spec fn param_raw(pairs: Seq<Seq<char>>, key: Seq<char>) -> Option<Seq<char>>
    decreases pairs.len(),
{
    if pairs.len() == 0 {
        None
    } else {
        let p = pairs[pairs.len() - 1];
        match find_first(p, '=') {
            Some(e) if p.subrange(0, e) == key => Some(p.subrange(e + 1, p.len() as int)),
            _ => param_raw(pairs.subrange(0, pairs.len() - 1), key),
        }
    }
}

pub open spec fn token_key() -> Seq<char> {
    seq!['t', 'o', 'k', 'e', 'n']
}

pub open spec fn expires_key() -> Seq<char> {
    seq!['e', 'x', 'p', 'i', 'r', 'e', 's']
}

/// What the callback request line carries: the decoded `token` and the decoded
/// `expires`, or nothing when there is no token.
pub open spec fn callback_params(line: Seq<char>) -> Option<(Seq<char>, Option<Seq<char>>)> {
    match request_target(line) {
        None => None,
        Some(target) => {
            let pairs = split_pieces(query_of(target), '&');
            match param_raw(pairs, token_key()) {
                None => None,
                Some(t) => Some(
                    (
                        decode_component(t),
                        match param_raw(pairs, expires_key()) {
                            Some(e) => Some(decode_component(e)),
                            None => None,
                        },
                    ),
                ),
            }
        },
    }
}

/// The second whitespace-separated word of `line`, if there is one.
fn second_word(line: &str) -> (r: Option<&str>)
    ensures
        match request_target(line@) {
            Some(t) => r matches Some(w) && w@ == t,
            None => r is None,
        },
{
    let n = line.unicode_len();
    assert(line@.subrange(0, n as int) =~= line@);
    let i = skip_ws(line, 0);
    assert(words(line@.subrange(n as int, n as int)) =~= Seq::<Seq<char>>::empty());
    if i == n {
        assert(words(line@) =~= Seq::<Seq<char>>::empty());
        return None;
    }
    let j = word_end(line, i);
    let k = skip_ws(line, j);
    if k == n {
        assert(words(line@) =~= seq![line@.subrange(i as int, j as int)]);
        return None;
    }
    let m = word_end(line, k);
    assert(words(line@) == seq![line@.subrange(i as int, j as int)] + (seq![
        line@.subrange(k as int, m as int),
    ] + words(line@.subrange(m as int, n as int))));
    assert(words(line@)[1] == line@.subrange(k as int, m as int));
    Some(line.substring_char(k, m))
}

/// Parses the HTTP request line of the auth callback, extracting `token` and
/// the optional `expires` query parameters. `None` if no token is present.
pub fn parse_callback(request_line: &str) -> (r: Option<(String, Option<String>)>)
    ensures
        match callback_params(request_line@) {
            None => r is None,
            Some((t, e)) => r matches Some((rt, re)) && rt@ == t && match e {
                Some(ev) => re matches Some(rev) && rev@ == ev,
                None => re is None,
            },
        },
{
    let target = match second_word(request_line) {
        Some(t) => t,
        None => return None,
    };
    let tn = target.unicode_len();
    let query = match find_char(target, '?') {
        Some(q) => target.substring_char(q + 1, tn),
        None => target.substring_char(tn, tn),
    };
    assert(query@ == query_of(target@));
    let ghost pairs = split_pieces(query@, '&');
    let ghost mut done: Seq<Seq<char>> = Seq::empty();
    let mut token: Option<&str> = None;
    let mut expires: Option<&str> = None;
    let mut rest = query;
    proof {
        reveal_strlit("token");
        reveal_strlit("expires");
    }
    assert("token"@ =~= token_key());
    assert("expires"@ =~= expires_key());
    loop
        invariant_except_break
            pairs == done + split_pieces(rest@, '&'),
        invariant
            match param_raw(done, token_key()) {
                Some(v) => token matches Some(t) && t@ == v,
                None => token is None,
            },
            match param_raw(done, expires_key()) {
                Some(v) => expires matches Some(t) && t@ == v,
                None => expires is None,
            },
            "token"@ == token_key(),
            "expires"@ == expires_key(),
        ensures
            pairs == done,
        decreases rest@.len(),
    {
        let rn = rest.unicode_len();
        let (piece, next) = match find_char(rest, '&') {
            Some(a) => (rest.substring_char(0, a), Some(rest.substring_char(a + 1, rn))),
            None => (rest, None),
        };
        let ghost before = done;
        proof {
            done = done.push(piece@);
            assert(done.subrange(0, done.len() - 1) =~= before);
        }
        let pn = piece.unicode_len();
        match find_char(piece, '=') {
            Some(e) => {
                let key = piece.substring_char(0, e);
                let value = piece.substring_char(e + 1, pn);
                if same_text(key, "token") {
                    token = Some(value);
                } else if same_text(key, "expires") {
                    expires = Some(value);
                }
            },
            None => {},
        }
        match next {
            Some(n) => {
                assert(pairs == done + split_pieces(n@, '&')) by {
                    assert(split_pieces(rest@, '&') == seq![piece@] + split_pieces(n@, '&'));
                    assert(before + split_pieces(rest@, '&') =~= done + split_pieces(n@, '&'));
                }
                rest = n;
            },
            None => {
                assert(split_pieces(rest@, '&') == seq![piece@]);
                assert(pairs =~= done);
                break ;
            },
        }
    }
    match token {
        None => None,
        Some(t) => {
            let exp = match expires {
                Some(e) => Some(percent_decode(e)),
                None => None,
            };
            Some((percent_decode(t), exp))
        },
    }
}

proof fn lemma_hex_digit_roundtrip(v: u8)
    requires
        v < 16,
    ensures
        (hex_upper_digit(v) as u32) < 128,
        hex_value(hex_upper_digit(v) as u8) == Some(v),
        hex_upper_digit(v) as u8 != 0x25u8,
{
    if v < 10 {
        assert(((v + 0x30) as u8) as char as u8 == (v + 0x30) as u8);
    } else {
        assert(((v - 10 + 0x41) as u8) as char as u8 == (v - 10 + 0x41) as u8);
    }
}

proof fn lemma_percent_encoded_ascii(bytes: Seq<u8>)
    ensures
        is_ascii_chars(percent_encoded(bytes)),
    decreases bytes.len(),
{
    if bytes.len() > 0 {
        let b = bytes[0];
        lemma_percent_encoded_ascii(bytes.subrange(1, bytes.len() as int));
        if !is_unreserved(b) {
            lemma_hex_digit_roundtrip(b / 16);
            lemma_hex_digit_roundtrip(b % 16);
        }
        let x = percent_byte(b);
        let y = percent_encoded(bytes.subrange(1, bytes.len() as int));
        assert(is_ascii_chars(x));
        assert forall|i: int| 0 <= i < (x + y).len() implies '\0' <= #[trigger] (x + y)[i] <= '\u{7f}' by {
            if i >= x.len() {
                assert((x + y)[i] == y[i - x.len()]);
            }
        }
    }
}

/// Form-decoding undoes percent-encoding: every byte string that the login
/// page percent-encodes into the callback URL comes back unchanged when the
/// CLI decodes it.
pub proof fn law_form_decoding_inverts_percent_encoding(bytes: Seq<u8>)
    ensures
        form_decoded(encode_utf8(percent_encoded(bytes))) == bytes,
    decreases bytes.len(),
{
    let enc = percent_encoded(bytes);
    lemma_percent_encoded_ascii(bytes);
    is_ascii_chars_encode_utf8(enc);
    let e = encode_utf8(enc);
    if bytes.len() == 0 {
        assert(e.len() == 0);
        assert(form_decoded(e) =~= bytes);
    } else {
        let b = bytes[0];
        let rest = bytes.subrange(1, bytes.len() as int);
        let x = percent_byte(b);
        let y = percent_encoded(rest);
        assert(enc == x + y);
        law_form_decoding_inverts_percent_encoding(rest);
        lemma_percent_encoded_ascii(rest);
        is_ascii_chars_encode_utf8(y);
        let k = x.len() as int;
        assert(e.subrange(k, e.len() as int) =~= encode_utf8(y)) by {
            assert forall|i: int| 0 <= i < y.len() implies e.subrange(k, e.len() as int)[i] == encode_utf8(
                y,
            )[i] by {
                assert(enc[k + i] == y[i]);
                assert(e[k + i] == enc[k + i] as u8);
                assert(encode_utf8(y)[i] == y[i] as u8);
            }
        }
        if is_unreserved(b) {
            assert(enc[0] == b as char);
            assert(e[0] == b);
            assert(form_decoded(e) == seq![b] + form_decoded(e.subrange(1, e.len() as int)));
        } else {
            lemma_hex_digit_roundtrip(b / 16);
            lemma_hex_digit_roundtrip(b % 16);
            assert(e[0] == enc[0] as u8);
            assert(e[0] == 0x25u8);
            assert(e[1] == hex_upper_digit(b / 16) as u8);
            assert(e[2] == hex_upper_digit(b % 16) as u8);
            assert((b / 16) * 16 + b % 16 == b);
            assert(form_decoded(e) == seq![b] + form_decoded(e.subrange(3, e.len() as int)));
        }
        assert(form_decoded(e) =~= bytes);
    }
}

/// A character that percent-encoding writes: an unreserved ASCII character,
/// `%`, or a hex digit.
pub open spec fn url_safe(c: char) -> bool {
    let u = c as u32;
    ||| 0x41 <= u <= 0x5a
    ||| 0x61 <= u <= 0x7a
    ||| 0x30 <= u <= 0x39
    ||| u == 0x2d
    ||| u == 0x2e
    ||| u == 0x5f
    ||| u == 0x7e
    ||| u == 0x25
}

proof fn lemma_percent_encoded_safe(bytes: Seq<u8>)
    ensures
        forall|i: int| 0 <= i < percent_encoded(bytes).len() ==> url_safe(#[trigger] percent_encoded(bytes)[i]),
    decreases bytes.len(),
{
    if bytes.len() > 0 {
        let b = bytes[0];
        let rest = bytes.subrange(1, bytes.len() as int);
        lemma_percent_encoded_safe(rest);
        let x = percent_byte(b);
        let y = percent_encoded(rest);
        if is_unreserved(b) {
            assert((b as char) as u32 == b as u32);
        } else {
            assert(b / 16 < 16 && b % 16 < 16);
        }
        assert forall|i: int| 0 <= i < x.len() implies url_safe(#[trigger] x[i]) by {}
        assert forall|i: int| 0 <= i < (x + y).len() implies url_safe(#[trigger] (x + y)[i]) by {
            if i >= x.len() {
                assert((x + y)[i] == y[i - x.len()]);
            }
        }
    }
}

/// The query of the URL that the login page sends the browser to:
/// `token=<jwt>&expires=<expiry>`, both values percent-encoded.
pub open spec fn login_query(jwt: Seq<char>, expires_at: Seq<char>) -> Seq<char> {
    seq!['t', 'o', 'k', 'e', 'n', '='] + percent_encoded(encode_utf8(jwt)) + seq![
        '&',
        'e',
        'x',
        'p',
        'i',
        'r',
        'e',
        's',
        '=',
    ] + percent_encoded(encode_utf8(expires_at))
}

/// The request line a browser sends to the CLI's callback listener
/// (`http://localhost:<port>`) for a URL with query `query`.
pub open spec fn callback_request(query: Seq<char>) -> Seq<char> {
    seq!['G', 'E', 'T', ' ', '/', '?'] + query + seq![' ', 'H', 'T', 'T', 'P', '/', '1', '.', '1']
}

/// The second word of a callback request line is its target.
proof fn lemma_callback_target(q: Seq<char>)
    requires
        forall|j: int| 0 <= j < q.len() ==> !is_ws(#[trigger] q[j]),
    ensures
        request_target(callback_request(q)) == Some(seq!['/', '?'] + q),
{
    let target = seq!['/', '?'] + q;
    let tail = seq![' ', 'H', 'T', 'T', 'P', '/', '1', '.', '1'];
    assert forall|j: int| 0 <= j < target.len() implies !is_ws(#[trigger] target[j]) by {
        if j >= 2 {
            assert(target[j] == q[j - 2]);
        }
    }
    let after_get = seq![' '] + target + tail;
    assert(callback_request(q) =~= seq!['G', 'E', 'T'] + after_get);
    lemma_words_prefix(seq!['G', 'E', 'T'], after_get);
    assert(after_get.subrange(1, after_get.len() as int) =~= target + tail);
    assert(words(after_get) == words(target + tail));
    lemma_words_prefix(target, tail);
}

/// The query of a callback target is what follows its `?`.
proof fn lemma_callback_query(q: Seq<char>)
    requires
        forall|j: int| 0 <= j < q.len() ==> #[trigger] q[j] != '?',
    ensures
        query_of(seq!['/', '?'] + q) == q,
{
    let target = seq!['/', '?'] + q;
    assert(is_first(target, '?', 1));
    lemma_find_first_at(target, '?', 1);
    assert(target.subrange(2, target.len() as int) =~= q);
}

/// Two pairs joined by `&` split back into those two pairs.
proof fn lemma_two_pairs(a: Seq<char>, b: Seq<char>)
    requires
        forall|j: int| 0 <= j < a.len() ==> #[trigger] a[j] != '&',
        forall|j: int| 0 <= j < b.len() ==> #[trigger] b[j] != '&',
    ensures
        split_pieces(a + seq!['&'] + b, '&') == seq![a, b],
{
    let q = a + seq!['&'] + b;
    assert(is_first(q, '&', a.len() as int)) by {
        assert forall|j: int| 0 <= j < a.len() implies q[j] != '&' by {
            assert(q[j] == a[j]);
        }
    }
    lemma_find_first_at(q, '&', a.len() as int);
    assert(q.subrange(0, a.len() as int) =~= a);
    assert(q.subrange(a.len() as int + 1, q.len() as int) =~= b);
    lemma_find_first_none(b, '&');
    assert(split_pieces(b, '&') == seq![b]);
    assert(split_pieces(q, '&') =~= seq![a, b]);
}

/// In the pairs `token=<t>` and `expires=<e>`, the token is `t` and the
/// expiry `e`.
proof fn lemma_login_params(t: Seq<char>, e: Seq<char>)
    ensures
        ({
            let pairs = seq![token_key().push('=') + t, expires_key().push('=') + e];
            &&& param_raw(pairs, token_key()) == Some(t)
            &&& param_raw(pairs, expires_key()) == Some(e)
        }),
{
    let a = token_key().push('=') + t;
    let b = expires_key().push('=') + e;
    let pairs = seq![a, b];
    assert(is_first(b, '=', 7));
    lemma_find_first_at(b, '=', 7);
    assert(b.subrange(0, 7) =~= expires_key());
    assert(b.subrange(8, b.len() as int) =~= e);
    assert(is_first(a, '=', 5));
    lemma_find_first_at(a, '=', 5);
    assert(a.subrange(0, 5) =~= token_key());
    assert(a.subrange(6, a.len() as int) =~= t);
    assert(b.subrange(0, 7).len() != token_key().len());
    assert(pairs.subrange(0, 1) =~= seq![a]);
    assert(seq![a].subrange(0, 0) =~= Seq::<Seq<char>>::empty());
    assert(param_raw(seq![a], token_key()) == Some(t));
}

/// Percent-encoded text has no whitespace, `&`, `=` or `?`.
proof fn lemma_encoded_plain(bytes: Seq<u8>)
    ensures
        forall|j: int|
            0 <= j < percent_encoded(bytes).len() ==> {
                let c = #[trigger] percent_encoded(bytes)[j];
                &&& !is_ws(c)
                &&& c != '&'
                &&& c != '='
                &&& c != '?'
            },
{
    lemma_percent_encoded_safe(bytes);
    assert forall|j: int| 0 <= j < percent_encoded(bytes).len() implies {
        let c = #[trigger] percent_encoded(bytes)[j];
        &&& !is_ws(c)
        &&& c != '&'
        &&& c != '='
        &&& c != '?'
    } by {
        assert(url_safe(percent_encoded(bytes)[j]));
    }
}

/// Decoding percent-encoded text gives back the text.
proof fn lemma_decode_encoded(v: Seq<char>)
    ensures
        decode_component(percent_encoded(encode_utf8(v))) == v,
{
    law_form_decoding_inverts_percent_encoding(encode_utf8(v));
    vstd::utf8::encode_utf8_valid_utf8(v);
    vstd::utf8::encode_utf8_decode_utf8(v);
}

/// The CLI reads back what the login page sends it: the page redirects the
/// browser to the CLI's callback with the percent-encoded token and expiry,
/// and the callback request that the browser then makes gives the CLI the
/// very same token and expiry.
pub proof fn law_cli_reads_login_redirect(callback: Seq<char>, jwt: Seq<char>, expires_at: Seq<char>)
    ensures
        redirect_url(callback, jwt, expires_at) == callback + seq!['?'] + login_query(jwt, expires_at),
        callback_params(callback_request(login_query(jwt, expires_at))) == Some((jwt, Some(expires_at))),
{
    let e1 = percent_encoded(encode_utf8(jwt));
    let e2 = percent_encoded(encode_utf8(expires_at));
    let a = token_key().push('=') + e1;
    let b = expires_key().push('=') + e2;
    let q = a + seq!['&'] + b;
    assert(q =~= login_query(jwt, expires_at));
    assert(redirect_url(callback, jwt, expires_at) =~= callback + seq!['?'] + q);
    lemma_encoded_plain(encode_utf8(jwt));
    lemma_encoded_plain(encode_utf8(expires_at));
    assert forall|j: int| 0 <= j < a.len() implies {
        let c = #[trigger] a[j];
        c != '&' && !is_ws(c) && c != '?'
    } by {
        if j >= 6 {
            assert(a[j] == e1[j - 6]);
        }
    }
    assert forall|j: int| 0 <= j < b.len() implies {
        let c = #[trigger] b[j];
        c != '&' && !is_ws(c) && c != '?'
    } by {
        if j >= 8 {
            assert(b[j] == e2[j - 8]);
        }
    }
    assert forall|j: int| 0 <= j < q.len() implies !is_ws(#[trigger] q[j]) && q[j] != '?' by {
        if j < a.len() {
            assert(q[j] == a[j]);
        } else if j > a.len() {
            assert(q[j] == b[j - a.len() - 1]);
        }
    }
    lemma_callback_target(q);
    lemma_callback_query(q);
    lemma_two_pairs(a, b);
    lemma_login_params(e1, e2);
    lemma_decode_encoded(jwt);
    lemma_decode_encoded(expires_at);
}

} // verus!
