//! OAuth 1.0a (RFC 5849) for Flickr: percent-encoding, HMAC-SHA1 request
//! signing, the `Authorization` header, and the parsing of token responses
//! and of the token file.

use vstd::prelude::*;
use vstd::utf8::encode_utf8;
use crate::params::{insert_all, insert_sorted, lookup, Entry, ParamMap};
use crate::text::{
    decimal, find_char, lemma_find_char_spec, push_char, split_char, split_once, split_once_spec,
    split_spec, str_eq, to_uppercase, trim, trim_spec, u64_to_decimal, uppercase,
};
use crate::types::{opt_view, OAuthTokens};
use base64::Engine;
use hmac::Mac;
use rand::Rng;

verus! {

// ── percent-encoding ─────────────────────────────────────────────────────

/// The bytes RFC 5849 leaves unencoded: ALPHA / DIGIT / "-" / "." / "_" / "~".
pub open spec fn is_unreserved(b: u8) -> bool {
    (48 <= b && b <= 57) || (65 <= b && b <= 90) || (97 <= b && b <= 122) || b == 45 || b == 46
        || b == 95 || b == 126
}

/// Upper-case hexadecimal digit.
pub open spec fn hex_digit(d: int) -> char {
    if d < 10 {
        (48 + d) as char
    } else {
        (55 + d) as char
    }
}

/// How one byte is written: itself when unreserved, else `%XX`.
pub open spec fn pct_byte(b: u8) -> Seq<char> {
    if is_unreserved(b) {
        seq![b as char]
    } else {
        seq!['%', hex_digit((b / 16) as int), hex_digit((b % 16) as int)]
    }
}

pub open spec fn pct_encode_bytes(bs: Seq<u8>) -> Seq<char>
    decreases bs.len(),
{
    if bs.len() == 0 {
        Seq::empty()
    } else {
        pct_encode_bytes(bs.drop_last()) + pct_byte(bs.last())
    }
}

/// Percent-encoding of the UTF-8 encoding of `s`, every byte outside the
/// unreserved set written as `%XX` with upper-case hex digits.
pub open spec fn pct(s: Seq<char>) -> Seq<char> {
    pct_encode_bytes(encode_utf8(s))
}

fn is_unreserved_byte(b: u8) -> (r: bool)
    ensures
        r == is_unreserved(b),
{
    (48 <= b && b <= 57) || (65 <= b && b <= 90) || (97 <= b && b <= 122) || b == 45 || b == 46
        || b == 95 || b == 126
}

fn hex_char(d: u8) -> (c: char)
    requires
        d < 16,
    ensures
        c == hex_digit(d as int),
{
    if d < 10 {
        (48 + d) as char
    } else {
        (55 + d) as char
    }
}

/// Percent-encodes a string per OAuth 1.0a (RFC 5849, section 3.6).
pub fn pct_encode(s: &str) -> (r: String)
    ensures
        r@ == pct(s@),
{
    let bytes = s.as_bytes();
    let mut out = String::new();
    let mut i: usize = 0;
    proof {
        assert(bytes@.take(0) =~= Seq::<u8>::empty());
    }
    while i < bytes.len()
        invariant
            bytes@ == encode_utf8(s@),
            i <= bytes@.len(),
            out@ == pct_encode_bytes(bytes@.take(i as int)),
        decreases bytes@.len() - i,
    {
        let b = bytes[i];
        let ghost before = out@;
        if is_unreserved_byte(b) {
            push_char(&mut out, b as char);
        } else {
            push_char(&mut out, '%');
            push_char(&mut out, hex_char(b / 16));
            push_char(&mut out, hex_char(b % 16));
        }
        proof {
            assert(bytes@.take(i + 1).drop_last() =~= bytes@.take(i as int));
            assert(bytes@.take(i + 1).last() == b);
            assert(out@ =~= before + pct_byte(b));
        }
        i = i + 1;
    }
    proof {
        assert(bytes@.take(bytes@.len() as int) =~= bytes@);
    }
    out
}

/// The characters that can occur in a percent-encoded string.
pub open spec fn is_encoded_char(c: char) -> bool {
    ('0' <= c && c <= '9') || ('A' <= c && c <= 'Z') || ('a' <= c && c <= 'z') || c == '-' || c
        == '.' || c == '_' || c == '~' || c == '%'
}

proof fn lemma_pct_encode_bytes_chars(bs: Seq<u8>)
    ensures
        forall|i: int|
            0 <= i < pct_encode_bytes(bs).len() ==> is_encoded_char(#[trigger] pct_encode_bytes(bs)[i]),
    decreases bs.len(),
{
    if bs.len() > 0 {
        lemma_pct_encode_bytes_chars(bs.drop_last());
        let prev = pct_encode_bytes(bs.drop_last());
        let b = bs.last();
        let all = pct_encode_bytes(bs);
        assert(all == prev + pct_byte(b));
        assert forall|i: int| 0 <= i < all.len() implies is_encoded_char(#[trigger] all[i]) by {
            if i >= prev.len() {
                assert(all[i] == pct_byte(b)[i - prev.len()]);
                if !is_unreserved(b) {
                    assert(b / 16 < 16);
                }
            }
        }
    }
}

/// Every character of an encoded string is an unreserved character or `%`
/// (so no space, `+`, `:`, `/`, `?`, `&`, `=` or other reserved character
/// survives encoding).
pub proof fn lemma_pct_only_unreserved(s: Seq<char>)
    ensures
        forall|i: int| 0 <= i < pct(s).len() ==> is_encoded_char(#[trigger] pct(s)[i]),
{
    lemma_pct_encode_bytes_chars(encode_utf8(s));
}

/// The value of an upper-case hexadecimal digit, and 16 (no digit) for any
/// other character.
pub open spec fn hex_value(c: char) -> int {
    if '0' <= c && c <= '9' {
        c as int - '0' as int
    } else if 'A' <= c && c <= 'F' {
        c as int - 'A' as int + 10
    } else {
        16
    }
}

/// Percent-decoding, read from the end: a `%` three characters from the end
/// starts an escape `%XY` for the byte `16 * X + Y`; any other character
/// stands for its own code.
pub open spec fn pct_decode(cs: Seq<char>) -> Seq<u8>
    decreases cs.len(),
{
    if cs.len() == 0 {
        Seq::empty()
    } else if cs.len() >= 3 && cs[cs.len() - 3] == '%' {
        pct_decode(cs.take(cs.len() - 3)).push(
            (16 * hex_value(cs[cs.len() - 2]) + hex_value(cs[cs.len() - 1])) as u8,
        )
    } else {
        pct_decode(cs.drop_last()).push(cs.last() as u8)
    }
}

proof fn lemma_hex_digit_value(d: int)
    requires
        0 <= d < 16,
    ensures
        hex_value(hex_digit(d)) == d,
        hex_digit(d) != '%',
{
}

proof fn lemma_pct_encode_bytes_decode(bs: Seq<u8>)
    ensures
        pct_decode(pct_encode_bytes(bs)) == bs,
        forall|i: int|
            0 <= i < pct_encode_bytes(bs).len() && #[trigger] pct_encode_bytes(bs)[i] == '%' ==> i
                + 2 < pct_encode_bytes(bs).len(),
    decreases bs.len(),
{
    if bs.len() == 0 {
        assert(bs =~= Seq::<u8>::empty());
    } else {
        let pre = bs.drop_last();
        let b = bs.last();
        lemma_pct_encode_bytes_decode(pre);
        let e = pct_encode_bytes(pre);
        let enc = pct_encode_bytes(bs);
        assert(enc == e + pct_byte(b));
        let l = e.len();
        if is_unreserved(b) {
            assert(enc =~= e.push(b as char));
            if l >= 2 {
                assert(enc[l - 2] == e[l - 2]);
            }
            assert(enc.drop_last() =~= e);
            assert((b as char) as u8 == b);
            assert(pct_decode(enc) == pct_decode(e).push(b));
            assert forall|i: int| 0 <= i < enc.len() && #[trigger] enc[i] == '%' implies i + 2
                < enc.len() by {
                if i < l {
                    assert(enc[i] == e[i]);
                }
            }
        } else {
            let h1 = hex_digit((b / 16) as int);
            let h2 = hex_digit((b % 16) as int);
            lemma_hex_digit_value((b / 16) as int);
            lemma_hex_digit_value((b % 16) as int);
            assert(enc =~= e + seq!['%', h1, h2]);
            assert(enc[enc.len() - 3] == '%');
            assert(enc.take(enc.len() - 3) =~= e);
            assert(16 * (b / 16) + b % 16 == b);
            assert(pct_decode(enc) == pct_decode(e).push(b));
            assert forall|i: int| 0 <= i < enc.len() && #[trigger] enc[i] == '%' implies i + 2
                < enc.len() by {
                if i < l {
                    assert(enc[i] == e[i]);
                }
            }
        }
        assert(pre.push(b) =~= bs);
    }
}

/// Encoding loses nothing: percent-decoding the encoding of `s` gives back
/// the UTF-8 bytes of `s`.
pub proof fn lemma_pct_decodes(s: Seq<char>)
    ensures
        pct_decode(pct(s)) == encode_utf8(s),
{
    lemma_pct_encode_bytes_decode(encode_utf8(s));
}

proof fn lemma_encode_unreserved_bytes(bs: Seq<u8>)
    requires
        forall|i: int| 0 <= i < bs.len() ==> is_unreserved(#[trigger] bs[i]),
    ensures
        pct_encode_bytes(bs) == bs.map_values(|b: u8| b as char),
    decreases bs.len(),
{
    if bs.len() > 0 {
        let pre = bs.drop_last();
        assert forall|i: int| 0 <= i < pre.len() implies is_unreserved(#[trigger] pre[i]) by {
            assert(pre[i] == bs[i]);
        }
        lemma_encode_unreserved_bytes(pre);
        assert(is_unreserved(bs.last()));
        assert(bs.map_values(|b: u8| b as char) =~= pre.map_values(|b: u8| b as char).push(
            bs.last() as char,
        ));
    } else {
        assert(bs.map_values(|b: u8| b as char) =~= Seq::<char>::empty());
    }
}

/// Unreserved characters are written as they are: a string of them is its
/// own encoding.
pub proof fn lemma_pct_keeps_unreserved(s: Seq<char>)
    requires
        forall|i: int|
            0 <= i < s.len() ==> ('0' <= #[trigger] s[i] <= '9') || ('A' <= s[i] <= 'Z') || (
            'a' <= s[i] <= 'z') || s[i] == '-' || s[i] == '.' || s[i] == '_' || s[i] == '~',
    ensures
        pct(s) == s,
{
    assert(vstd::utf8::is_ascii_chars(s));
    vstd::utf8::is_ascii_chars_encode_utf8(s);
    let bs = encode_utf8(s);
    assert forall|i: int| 0 <= i < bs.len() implies is_unreserved(#[trigger] bs[i]) by {
        assert(s[i] as u8 == bs[i]);
    }
    lemma_encode_unreserved_bytes(bs);
    let m = bs.map_values(|b: u8| b as char);
    assert forall|i: int| 0 <= i < s.len() implies #[trigger] m[i] == s[i] by {
        assert(s[i] as u8 == bs[i]);
    }
    assert(m =~= s);
}

/// Each piece `key=value` of the parameter string (RFC 5849, section
/// 3.4.1.3.2) is the encoded key and the encoded value: it splits at its
/// first `=` into two parts that hold only unreserved characters and `%`
/// and that decode to the UTF-8 bytes of the key and of the value.
pub proof fn lemma_param_pair_encoded(e: Entry)
    ensures
        split_once_spec(param_pair(e), '=') matches Some(kv) && pct_decode(kv.0) == encode_utf8(e.0)
            && pct_decode(kv.1) == encode_utf8(e.1) && (forall|i: int|
            0 <= i < kv.0.len() ==> is_encoded_char(#[trigger] kv.0[i])) && (forall|i: int|
            0 <= i < kv.1.len() ==> is_encoded_char(#[trigger] kv.1[i])),
{
    reveal_strlit("=");
    let k = pct(e.0);
    let v = pct(e.1);
    lemma_pct_only_unreserved(e.0);
    lemma_pct_only_unreserved(e.1);
    lemma_pct_decodes(e.0);
    lemma_pct_decodes(e.1);
    let p = param_pair(e);
    assert(p =~= k + seq!['='] + v);
    lemma_find_char_spec(p, '=');
    assert(p[k.len() as int] == '=');
    assert forall|j: int| 0 <= j < k.len() implies #[trigger] p[j] != '=' by {
        assert(p[j] == k[j]);
        assert(is_encoded_char(k[j]));
    }
    assert(find_char(p, '=') == Some(k.len()));
    assert(p.take(k.len() as int) =~= k);
    assert(p.skip(k.len() + 1int) =~= v);
}

// ── base64 (the `base64` crate) ──────────────────────────────────────────

/// The character of a 6-bit group in the standard alphabet of RFC 4648.
pub open spec fn b64_char(i: int) -> char {
    if i < 26 {
        (65 + i) as char
    } else if i < 52 {
        (71 + i) as char
    } else if i < 62 {
        (i - 4) as char
    } else if i == 62 {
        '+'
    } else {
        '/'
    }
}

/// Standard base64 with `=` padding (RFC 4648, section 4).
pub open spec fn base64_spec(b: Seq<u8>) -> Seq<char>
    decreases b.len(),
{
    if b.len() == 0 {
        Seq::empty()
    } else if b.len() == 1 {
        seq![b64_char((b[0] / 4) as int), b64_char((b[0] % 4) * 16), '=', '=']
    } else if b.len() == 2 {
        seq![
            b64_char((b[0] / 4) as int),
            b64_char((b[0] % 4) * 16 + b[1] / 16),
            b64_char((b[1] % 16) * 4),
            '=',
        ]
    } else {
        seq![
            b64_char((b[0] / 4) as int),
            b64_char((b[0] % 4) * 16 + b[1] / 16),
            b64_char((b[1] % 16) * 4 + b[2] / 64),
            b64_char((b[2] % 64) as int),
        ] + base64_spec(b.skip(3))
    }
}

/// `Engine::encode` of `base64::engine::general_purpose::STANDARD`:
/// the standard alphabet with padding.
#[verifier::external_body]
fn base64_encode(bytes: &[u8]) -> (s: String)
    ensures
        s@ == base64_spec(bytes@),
{
    base64::engine::general_purpose::STANDARD.encode(bytes)
}

// ── HMAC-SHA1 (the `hmac` and `sha1` crates) ────────────────────────────

/// The HMAC-SHA1 tag of `msg` under `key` (RFC 2104 over SHA-1).
pub uninterp spec fn hmac_sha1_spec(key: Seq<u8>, msg: Seq<u8>) -> Seq<u8>;

/// `Hmac::<Sha1>::new_from_slice`, `update` and `finalize` of the `hmac`
/// crate. The contract names the tag and gives its length (SHA-1's output
/// size, 20 bytes). `new_from_slice` of `Hmac` accepts keys of any length
/// (its source returns `Ok` on every path), so the empty-vector arm does not
/// run.
#[verifier::external_body]
fn hmac_sha1(key: &[u8], msg: &[u8]) -> (tag: Vec<u8>)
    ensures
        tag@ == hmac_sha1_spec(key@, msg@),
        tag@.len() == 20,
{
    match hmac::Hmac::<sha1::Sha1>::new_from_slice(key) {
        Ok(mut mac) => {
            mac.update(msg);
            mac.finalize().into_bytes().to_vec()
        },
        Err(_) => Vec::new(),
    }
}

// ── randomness and time ──────────────────────────────────────────────────

/// ASCII letters and digits.
pub open spec fn is_ascii_alphanumeric(c: char) -> bool {
    ('0' <= c && c <= '9') || ('A' <= c && c <= 'Z') || ('a' <= c && c <= 'z')
}

/// `n` characters drawn by `rand::distr::Alphanumeric` from the thread RNG.
/// Only the length and the alphabet (`A-Z`, `a-z`, `0-9`, as the
/// distribution's source defines it) are stated: the draw is random.
#[verifier::external_body]
fn random_alphanumeric(n: usize) -> (s: String)
    ensures
        s@.len() == n,
        forall|i: int| 0 <= i < s@.len() ==> is_ascii_alphanumeric(#[trigger] s@[i]),
{
    rand::rng().sample_iter(&rand::distr::Alphanumeric).take(n).map(char::from).collect()
}

#[verifier::external_type_specification]
#[verifier::external_body]
pub struct ExSystemTime(std::time::SystemTime);

/// `SystemTime::now` of std. Nothing is stated: it reads the clock.
#[verifier::external_body]
fn system_time_now() -> std::time::SystemTime {
    std::time::SystemTime::now()
}

/// `SystemTime::duration_since(UNIX_EPOCH)` of std: the time from the Unix
/// epoch to `t`, `None` when `t` is before the epoch. Nothing is stated of
/// the value: it depends on the clock reading.
#[verifier::external_body]
fn since_epoch(t: std::time::SystemTime) -> Option<core::time::Duration> {
    match t.duration_since(std::time::UNIX_EPOCH) {
        Ok(d) => Some(d),
        Err(_) => None,
    }
}

/// `Duration::as_secs` of std: the whole seconds of `d`. Nothing is stated
/// of the value: a `Duration` is opaque here.
#[verifier::external_body]
fn whole_seconds(d: core::time::Duration) -> u64 {
    d.as_secs()
}

// ── the Authorization header ────────────────────────────────────────────

/// `parts` joined with `sep` between consecutive parts.
pub open spec fn join(parts: Seq<Seq<char>>, sep: Seq<char>) -> Seq<char>
    decreases parts.len(),
{
    if parts.len() == 0 {
        Seq::empty()
    } else if parts.len() == 1 {
        parts[0]
    } else {
        join(parts.drop_last(), sep) + sep + parts.last()
    }
}

/// `pieces` joined with `sep`, as `[String]::join` does.
pub fn join_strings(pieces: &Vec<String>, sep: &str) -> (r: String)
    ensures
        r@ == join(pieces@.map_values(|p: String| p@), sep@),
{
    let ghost views = pieces@.map_values(|p: String| p@);
    let mut out = String::new();
    let mut i: usize = 0;
    proof {
        assert(views.take(0).len() == 0);
    }
    while i < pieces.len()
        invariant
            views == pieces@.map_values(|p: String| p@),
            i <= pieces@.len(),
            out@ == join(views.take(i as int), sep@),
        decreases pieces@.len() - i,
    {
        proof {
            assert(views.take(i + 1).drop_last() =~= views.take(i as int));
            assert(views.take(i + 1).last() == pieces@[i as int]@);
        }
        if i > 0 {
            out.append(sep);
        } else {
            proof {
                assert(out@ =~= Seq::<char>::empty());
            }
        }
        out.append(pieces[i].as_str());
        proof {
            if i == 0 {
                assert(views.take(1) =~= seq![pieces@[0]@]);
                assert(out@ =~= pieces@[0]@);
            }
        }
        i = i + 1;
    }
    proof {
        assert(views.take(pieces@.len() as int) =~= views);
    }
    out
}

/// The view of an optional string slice.
pub open spec fn opt_str_view(o: Option<&str>) -> Option<Seq<char>> {
    match o {
        Some(s) => Some(s@),
        None => None,
    }
}

/// The protocol parameters of a signed request, in key order.
pub open spec fn oauth_params(
    api_key: Seq<char>,
    nonce: Seq<char>,
    timestamp: Seq<char>,
    token: Option<Seq<char>>,
) -> Seq<Entry> {
    let p = insert_sorted(Seq::<Entry>::empty(), "oauth_consumer_key"@, api_key);
    let p = insert_sorted(p, "oauth_nonce"@, nonce);
    let p = insert_sorted(p, "oauth_signature_method"@, "HMAC-SHA1"@);
    let p = insert_sorted(p, "oauth_timestamp"@, timestamp);
    let p = insert_sorted(p, "oauth_version"@, "1.0"@);
    match token {
        Some(t) => insert_sorted(p, "oauth_token"@, t),
        None => p,
    }
}

/// `key=value`, both encoded.
pub open spec fn param_pair(e: Entry) -> Seq<char> {
    pct(e.0) + "="@ + pct(e.1)
}

/// The normalized parameter string (RFC 5849, section 3.4.1.3.2).
pub open spec fn param_string(all: Seq<Entry>) -> Seq<char> {
    join(all.map_values(|e: Entry| param_pair(e)), "&"@)
}

/// The signature base string (RFC 5849, section 3.4.1).
pub open spec fn signature_base(method: Seq<char>, url: Seq<char>, all: Seq<Entry>) -> Seq<char> {
    uppercase(method) + "&"@ + pct(url) + "&"@ + pct(param_string(all))
}

/// The HMAC-SHA1 key: consumer secret and token secret, both encoded.
pub open spec fn signing_key(api_secret: Seq<char>, token_secret: Option<Seq<char>>) -> Seq<char> {
    pct(api_secret) + "&"@ + pct(
        match token_secret {
            Some(t) => t,
            None => Seq::empty(),
        },
    )
}

/// `name="value"`.
pub open spec fn quoted(name: Seq<char>, value: Seq<char>) -> Seq<char> {
    name + "=\""@ + value + "\""@
}

/// Whether `s` begins with `prefix`.
pub open spec fn has_prefix(s: Seq<char>, prefix: Seq<char>) -> bool {
    prefix.len() <= s.len() && s.take(prefix.len() as int) == prefix
}

/// The header parts of the extra parameters whose names begin with `oauth_`.
pub open spec fn oauth_extra_parts(extra: Seq<Entry>) -> Seq<Seq<char>>
    decreases extra.len(),
{
    if extra.len() == 0 {
        Seq::empty()
    } else {
        let e = extra.last();
        let rest = oauth_extra_parts(extra.drop_last());
        if has_prefix(e.0, "oauth_"@) {
            rest.push(quoted(e.0, pct(e.1)))
        } else {
            rest
        }
    }
}

/// The comma-separated parts of the `Authorization` header.
pub open spec fn header_parts(
    api_key: Seq<char>,
    nonce: Seq<char>,
    signature: Seq<char>,
    timestamp: Seq<char>,
    token: Option<Seq<char>>,
    extra: Seq<Entry>,
) -> Seq<Seq<char>> {
    seq![
        quoted("oauth_consumer_key"@, pct(api_key)),
        quoted("oauth_nonce"@, pct(nonce)),
        quoted("oauth_signature"@, pct(signature)),
        "oauth_signature_method=\"HMAC-SHA1\""@,
        quoted("oauth_timestamp"@, timestamp),
        "oauth_version=\"1.0\""@,
    ] + match token {
        Some(t) => seq![quoted("oauth_token"@, pct(t))],
        None => Seq::empty(),
    } + oauth_extra_parts(extra)
}

/// The signature: base64 of the HMAC-SHA1 of the base string.
pub open spec fn oauth_signature(
    api_secret: Seq<char>,
    token_secret: Option<Seq<char>>,
    method: Seq<char>,
    url: Seq<char>,
    all: Seq<Entry>,
) -> Seq<char> {
    base64_spec(
        hmac_sha1_spec(
            encode_utf8(signing_key(api_secret, token_secret)),
            encode_utf8(signature_base(method, url, all)),
        ),
    )
}

/// The `Authorization` header of a request signed at `timestamp` with `nonce`.
pub open spec fn oauth_header(
    api_key: Seq<char>,
    api_secret: Seq<char>,
    method: Seq<char>,
    url: Seq<char>,
    extra: Seq<Entry>,
    token: Option<Seq<char>>,
    token_secret: Option<Seq<char>>,
    timestamp: Seq<char>,
    nonce: Seq<char>,
) -> Seq<char> {
    let all = insert_all(oauth_params(api_key, nonce, timestamp, token), extra);
    let sig = oauth_signature(api_secret, token_secret, method, url, all);
    "OAuth "@ + join(header_parts(api_key, nonce, sig, timestamp, token, extra), ", "@)
}

/// Every header is an OAuth one: it begins with `OAuth `.
pub proof fn lemma_header_starts_with_oauth(
    api_key: Seq<char>,
    api_secret: Seq<char>,
    method: Seq<char>,
    url: Seq<char>,
    extra: Seq<Entry>,
    token: Option<Seq<char>>,
    token_secret: Option<Seq<char>>,
    timestamp: Seq<char>,
    nonce: Seq<char>,
)
    ensures
        has_prefix(
            oauth_header(
                api_key,
                api_secret,
                method,
                url,
                extra,
                token,
                token_secret,
                timestamp,
                nonce,
            ),
            "OAuth "@,
        ),
{
    let h = oauth_header(
        api_key,
        api_secret,
        method,
        url,
        extra,
        token,
        token_secret,
        timestamp,
        nonce,
    );
    reveal_strlit("OAuth ");
    assert(h.take(6) =~= "OAuth "@);
}

/// Only extra parameters named `oauth_...` reach the header: every part
/// they contribute begins with `oauth_`, and there is one part for each.
pub proof fn lemma_extra_parts_are_oauth(extra: Seq<Entry>)
    ensures
        forall|i: int|
            0 <= i < oauth_extra_parts(extra).len() ==> has_prefix(
                #[trigger] oauth_extra_parts(extra)[i],
                "oauth_"@,
            ),
        oauth_extra_parts(extra).len() == extra.filter(
            |e: Entry| has_prefix(e.0, "oauth_"@),
        ).len(),
    decreases extra.len(),
{
    reveal_strlit("oauth_");
    if extra.len() > 0 {
        let e = extra.last();
        lemma_extra_parts_are_oauth(extra.drop_last());
        assert(extra.drop_last().push(e) =~= extra);
        extra.drop_last().lemma_filter_push(e, |e: Entry| has_prefix(e.0, "oauth_"@));
        if has_prefix(e.0, "oauth_"@) {
            let q = quoted(e.0, pct(e.1));
            assert(q.take(e.0.len() as int) =~= e.0);
            assert(q.take(6) =~= e.0.take(6));
        }
    } else {
        assert(extra.filter(|e: Entry| has_prefix(e.0, "oauth_"@)) =~= Seq::<Entry>::empty());
    }
}

/// Whether `s` begins with `prefix`.
pub fn starts_with(s: &str, prefix: &str) -> (r: bool)
    ensures
        r == has_prefix(s@, prefix@),
{
    let n = s.unicode_len();
    let m = prefix.unicode_len();
    if m > n {
        return false;
    }
    let mut i: usize = 0;
    while i < m
        invariant
            n == s@.len(),
            m == prefix@.len(),
            m <= n,
            i <= m,
            forall|j: int| 0 <= j < i ==> s@[j] == prefix@[j],
        decreases m - i,
    {
        if s.get_char(i) != prefix.get_char(i) {
            proof {
                assert(s@.take(m as int)[i as int] != prefix@[i as int]);
            }
            return false;
        }
        i = i + 1;
    }
    proof {
        assert(s@.take(m as int) =~= prefix@);
    }
    true
}

/// `name="value"`.
fn quoted_param(name: &str, value: &str) -> (r: String)
    ensures
        r@ == quoted(name@, value@),
{
    let mut r = name.to_owned();
    r.append("=\"");
    r.append(value);
    r.append("\"");
    r
}

/// Handles Flickr OAuth 1.0a authentication: the consumer credentials and
/// the three endpoints of the flow.
pub struct FlickrAuth {
    pub api_key: String,
    pub api_secret: String,
    pub request_token_url: String,
    pub authorize_url: String,
    pub access_token_url: String,
}

impl FlickrAuth {
    /// An instance for the Flickr endpoints.
    pub fn new(api_key: String, api_secret: String) -> (a: Self)
        ensures
            a.api_key@ == api_key@,
            a.api_secret@ == api_secret@,
            a.request_token_url@ == "https://www.flickr.com/services/oauth/request_token"@,
            a.authorize_url@ == "https://www.flickr.com/services/oauth/authorize"@,
            a.access_token_url@ == "https://www.flickr.com/services/oauth/access_token"@,
    {
        FlickrAuth {
            api_key,
            api_secret,
            request_token_url: "https://www.flickr.com/services/oauth/request_token".to_owned(),
            authorize_url: "https://www.flickr.com/services/oauth/authorize".to_owned(),
            access_token_url: "https://www.flickr.com/services/oauth/access_token".to_owned(),
        }
    }

    /// An instance with custom endpoints.
    pub fn new_for_test(
        api_key: String,
        api_secret: String,
        request_token_url: String,
        authorize_url: String,
        access_token_url: String,
    ) -> (a: Self)
        ensures
            a.api_key@ == api_key@,
            a.api_secret@ == api_secret@,
            a.request_token_url@ == request_token_url@,
            a.authorize_url@ == authorize_url@,
            a.access_token_url@ == access_token_url@,
    {
        FlickrAuth { api_key, api_secret, request_token_url, authorize_url, access_token_url }
    }

    /// The `Authorization` header of a request signed at the given
    /// timestamp (decimal seconds) with the given nonce.
    #[verifier::rlimit(30)]
    pub fn build_oauth_header_at(
        &self,
        method: &str,
        url: &str,
        extra_params: &ParamMap,
        token: Option<&str>,
        token_secret: Option<&str>,
        timestamp: &str,
        nonce: &str,
    ) -> (r: String)
        ensures
            r@ == oauth_header(
                self.api_key@,
                self.api_secret@,
                method@,
                url@,
                extra_params@,
                opt_str_view(token),
                opt_str_view(token_secret),
                timestamp@,
                nonce@,
            ),
    {
        // Protocol parameters.
        let mut all = ParamMap::new();
        all.insert("oauth_consumer_key".to_owned(), self.api_key.clone());
        all.insert("oauth_nonce".to_owned(), nonce.to_owned());
        all.insert("oauth_signature_method".to_owned(), "HMAC-SHA1".to_owned());
        all.insert("oauth_timestamp".to_owned(), timestamp.to_owned());
        all.insert("oauth_version".to_owned(), "1.0".to_owned());
        match token {
            Some(t) => {
                all.insert("oauth_token".to_owned(), t.to_owned());
            },
            None => {},
        }
        let ghost base = all@;
        assert(base == oauth_params(self.api_key@, nonce@, timestamp@, opt_str_view(token)));
        // Merge the extra parameters (they win on equal keys).
        let n = extra_params.len();
        let mut i: usize = 0;
        proof {
            assert(extra_params@.take(0) =~= Seq::<Entry>::empty());
        }
        while i < n
            invariant
                n == extra_params@.len(),
                i <= n,
                all@ == insert_all(base, extra_params@.take(i as int)),
            decreases n - i,
        {
            proof {
                assert(extra_params@.take(i + 1).drop_last() =~= extra_params@.take(i as int));
                assert(extra_params@.take(i + 1).last() == extra_params@[i as int]);
            }
            all.insert(extra_params.key_at(i).clone(), extra_params.value_at(i).clone());
            i = i + 1;
        }
        proof {
            assert(extra_params@.take(n as int) =~= extra_params@);
        }
        // Parameter string.
        let ghost all_view = all@;
        let m = all.len();
        let mut pairs: Vec<String> = Vec::new();
        let mut j: usize = 0;
        while j < m
            invariant
                m == all@.len(),
                all@ == all_view,
                j <= m,
                pairs@.map_values(|p: String| p@) == all_view.take(j as int).map_values(
                    |e: Entry| param_pair(e),
                ),
            decreases m - j,
        {
            let mut pair = pct_encode(all.key_at(j).as_str());
            pair.append("=");
            let v = pct_encode(all.value_at(j).as_str());
            pair.append(v.as_str());
            proof {
                assert(pair@ == param_pair(all_view[j as int]));
                assert(all_view.take(j + 1).map_values(|e: Entry| param_pair(e)) =~= all_view.take(
                    j as int,
                ).map_values(|e: Entry| param_pair(e)).push(param_pair(all_view[j as int])));
                assert(pairs@.push(pair).map_values(|p: String| p@) =~= pairs@.map_values(
                    |p: String| p@,
                ).push(pair@));
            }
            pairs.push(pair);
            j = j + 1;
        }
        proof {
            assert(all_view.take(m as int) =~= all_view);
        }
        let param_str = join_strings(&pairs, "&");
        // Signature base string and signing key.
        let mut base_string = to_uppercase(method);
        base_string.append("&");
        let enc_url = pct_encode(url);
        base_string.append(enc_url.as_str());
        base_string.append("&");
        let enc_params = pct_encode(param_str.as_str());
        base_string.append(enc_params.as_str());
        let mut key = pct_encode(self.api_secret.as_str());
        key.append("&");
        let enc_secret = match token_secret {
            Some(ts) => pct_encode(ts),
            None => {
                proof {
                    reveal_strlit("");
                }
                pct_encode("")
            },
        };
        key.append(enc_secret.as_str());
        proof {
            assert(key@ == signing_key(self.api_secret@, opt_str_view(token_secret)));
            assert(base_string@ == signature_base(method@, url@, all_view));
        }
        let tag = hmac_sha1(key.as_str().as_bytes(), base_string.as_str().as_bytes());
        let signature = base64_encode(tag.as_slice());
        // Header parts.
        let mut parts: Vec<String> = Vec::new();
        parts.push(quoted_param("oauth_consumer_key", pct_encode(self.api_key.as_str()).as_str()));
        parts.push(quoted_param("oauth_nonce", pct_encode(nonce).as_str()));
        parts.push(quoted_param("oauth_signature", pct_encode(signature.as_str()).as_str()));
        parts.push("oauth_signature_method=\"HMAC-SHA1\"".to_owned());
        parts.push(quoted_param("oauth_timestamp", timestamp));
        parts.push("oauth_version=\"1.0\"".to_owned());
        match token {
            Some(t) => {
                parts.push(quoted_param("oauth_token", pct_encode(t).as_str()));
            },
            None => {},
        }
        let ghost fixed = parts@.map_values(|p: String| p@);
        let mut k: usize = 0;
        proof {
            assert(extra_params@.take(0) =~= Seq::<Entry>::empty());
            assert(fixed + oauth_extra_parts(extra_params@.take(0)) =~= fixed);
        }
        while k < n
            invariant
                n == extra_params@.len(),
                k <= n,
                parts@.map_values(|p: String| p@) == fixed + oauth_extra_parts(
                    extra_params@.take(k as int),
                ),
            decreases n - k,
        {
            let key_k = extra_params.key_at(k);
            proof {
                assert(extra_params@.take(k + 1).drop_last() =~= extra_params@.take(k as int));
                assert(extra_params@.take(k + 1).last() == extra_params@[k as int]);
            }
            if starts_with(key_k.as_str(), "oauth_") {
                let part = quoted_param(key_k.as_str(), pct_encode(extra_params.value_at(k).as_str()).as_str());
                proof {
                    assert(parts@.push(part).map_values(|p: String| p@) =~= parts@.map_values(
                        |p: String| p@,
                    ).push(part@));
                }
                parts.push(part);
            }
            k = k + 1;
        }
        proof {
            assert(extra_params@.take(n as int) =~= extra_params@);
        }
        let joined = join_strings(&parts, ", ");
        let mut header = "OAuth ".to_owned();
        header.append(joined.as_str());
        proof {
            let sig = oauth_signature(
                self.api_secret@,
                opt_str_view(token_secret),
                method@,
                url@,
                all_view,
            );
            assert(signature@ == sig);
            assert(parts@.map_values(|p: String| p@) =~= header_parts(
                self.api_key@,
                nonce@,
                sig,
                timestamp@,
                opt_str_view(token),
                extra_params@,
            ));
        }
        header
    }
}

/// A nonce as `build_oauth_header` draws it: 32 ASCII letters and digits.
pub open spec fn is_oauth_nonce(n: Seq<char>) -> bool {
    n.len() == 32 && forall|i: int| 0 <= i < n.len() ==> is_ascii_alphanumeric(#[trigger] n[i])
}

/// The parameters of the request-token call.
pub open spec fn request_token_params() -> Seq<Entry> {
    insert_sorted(Seq::empty(), "oauth_callback"@, "oob"@)
}

/// The parameters of the access-token call.
pub open spec fn access_token_params(verifier: Seq<char>) -> Seq<Entry> {
    insert_sorted(Seq::empty(), "oauth_verifier"@, verifier)
}

impl FlickrAuth {
    /// Build an OAuth 1.0a Authorization header, signed now with a fresh
    /// nonce. Before the Unix epoch the clock reads as 0 seconds.
    pub fn build_oauth_header(
        &self,
        method: &str,
        url: &str,
        extra_params: &ParamMap,
        token: Option<&str>,
        token_secret: Option<&str>,
    ) -> (r: String)
        ensures
            exists|secs: nat, nonce: Seq<char>|
                is_oauth_nonce(nonce) && r@ == #[trigger] oauth_header(
                    self.api_key@,
                    self.api_secret@,
                    method@,
                    url@,
                    extra_params@,
                    opt_str_view(token),
                    opt_str_view(token_secret),
                    decimal(secs),
                    nonce,
                ),
    {
        let secs = match since_epoch(system_time_now()) {
            Some(d) => whole_seconds(d),
            None => 0,
        };
        let timestamp = u64_to_decimal(secs);
        let nonce = random_alphanumeric(32);
        let r = self.build_oauth_header_at(
            method,
            url,
            extra_params,
            token,
            token_secret,
            timestamp.as_str(),
            nonce.as_str(),
        );
        proof {
            assert(is_oauth_nonce(nonce@));
            assert(r@ == oauth_header(
                self.api_key@,
                self.api_secret@,
                method@,
                url@,
                extra_params@,
                opt_str_view(token),
                opt_str_view(token_secret),
                decimal(secs as nat),
                nonce@,
            ));
        }
        r
    }

    /// The page the user visits to authorize `request_token`.
    pub fn authorize_url_for(&self, request_token: &str) -> (r: String)
        ensures
            r@ == self.authorize_url@ + "?oauth_token="@ + request_token@,
    {
        let mut r = self.authorize_url.clone();
        r.append("?oauth_token=");
        r.append(request_token);
        r
    }

    /// The signed `Authorization` header of the request-token call
    /// (`GET` on the request-token URL with `oauth_callback=oob`).
    pub fn request_token_header(&self) -> (r: String)
        ensures
            exists|secs: nat, nonce: Seq<char>|
                is_oauth_nonce(nonce) && r@ == #[trigger] oauth_header(
                    self.api_key@,
                    self.api_secret@,
                    "GET"@,
                    self.request_token_url@,
                    request_token_params(),
                    None,
                    None,
                    decimal(secs),
                    nonce,
                ),
    {
        let mut params = ParamMap::new();
        params.insert("oauth_callback".to_owned(), "oob".to_owned());
        assert(params@ == request_token_params());
        self.build_oauth_header("GET", self.request_token_url.as_str(), &params, None, None)
    }

    /// The signed `Authorization` header of the access-token call
    /// (`GET` on the access-token URL with `oauth_verifier`, signed with the
    /// request token and its secret).
    pub fn access_token_header(&self, req_token: &str, req_secret: &str, verifier: &str) -> (r:
        String)
        ensures
            exists|secs: nat, nonce: Seq<char>|
                is_oauth_nonce(nonce) && r@ == #[trigger] oauth_header(
                    self.api_key@,
                    self.api_secret@,
                    "GET"@,
                    self.access_token_url@,
                    access_token_params(verifier@),
                    Some(req_token@),
                    Some(req_secret@),
                    decimal(secs),
                    nonce,
                ),
    {
        let mut params = ParamMap::new();
        params.insert("oauth_verifier".to_owned(), verifier.to_owned());
        assert(params@ == access_token_params(verifier@));
        self.build_oauth_header(
            "GET",
            self.access_token_url.as_str(),
            &params,
            Some(req_token),
            Some(req_secret),
        )
    }

    /// Splits a form-encoded response body into its key/value pairs, the
    /// value of a repeated key being the last one.
    pub fn parse_query_string(s: &str) -> (m: ParamMap)
        ensures
            m@ == parse_query_spec(s@),
    {
        parse_query(s)
    }
}

// ── query strings ────────────────────────────────────────────────────────

/// One `key=value` piece: split at the first `=`; without one, the value
/// is empty.
pub open spec fn query_pair(piece: Seq<char>) -> Entry {
    match split_once_spec(piece, '=') {
        Some(kv) => kv,
        None => (piece, Seq::empty()),
    }
}

/// The map of a `&`-separated query string.
pub open spec fn parse_query_spec(s: Seq<char>) -> Seq<Entry> {
    insert_all(Seq::empty(), split_spec(s, '&').map_values(|p: Seq<char>| query_pair(p)))
}

fn parse_query(s: &str) -> (m: ParamMap)
    ensures
        m@ == parse_query_spec(s@),
{
    let pieces = split_char(s, '&');
    let ghost entries = split_spec(s@, '&').map_values(|p: Seq<char>| query_pair(p));
    let mut m = ParamMap::new();
    let mut i: usize = 0;
    proof {
        assert(entries.take(0) =~= Seq::<Entry>::empty());
    }
    while i < pieces.len()
        invariant
            pieces@.map_values(|p: String| p@) == split_spec(s@, '&'),
            entries == split_spec(s@, '&').map_values(|p: Seq<char>| query_pair(p)),
            i <= pieces@.len(),
            m@ == insert_all(Seq::empty(), entries.take(i as int)),
        decreases pieces@.len() - i,
    {
        proof {
            assert(pieces@.map_values(|p: String| p@)[i as int] == pieces@[i as int]@);
            assert(entries[i as int] == query_pair(pieces@[i as int]@));
            assert(entries.take(i + 1).drop_last() =~= entries.take(i as int));
            assert(entries.take(i + 1).last() == entries[i as int]);
        }
        let ghost before = m@;
        match split_once(pieces[i].as_str(), '=') {
            Some((k, v)) => {
                proof {
                    assert(split_once_spec(pieces@[i as int]@, '=') == Some((k@, v@)));
                    assert(query_pair(pieces@[i as int]@) == (k@, v@));
                    assert(entries[i as int] == (k@, v@));
                }
                m.insert(k, v);
            },
            None => {
                proof {
                    reveal_strlit("");
                    assert(query_pair(pieces@[i as int]@) == (pieces@[i as int]@, Seq::<char>::empty()));
                }
                let key = pieces[i].clone();
                assert(entries[i as int] == (key@, ""@));
                m.insert(key, "".to_owned());
            },
        }
        proof {
            assert(m@ == insert_sorted(before, entries[i as int].0, entries[i as int].1));
        }
        i = i + 1;
    }
    proof {
        assert(pieces@.map_values(|p: String| p@).len() == pieces@.len());
        assert(entries.take(pieces@.len() as int) =~= entries);
    }
    m
}

// ── responses of the token endpoints ─────────────────────────────────────

/// Errors that the OAuth logic itself reports.
#[derive(Debug)]
pub enum AuthError {
    /// A token response lacks a required field.
    Parse(String),
    /// Neither store holds usable tokens.
    NoTokens,
    /// The signing key was refused.
    Hmac,
}

/// Reads `oauth_token` and `oauth_token_secret` from the body of the
/// request-token response.
pub fn parse_request_token_response(body: &str) -> (r: Result<(String, String), AuthError>)
    ensures
        ({
            let m = parse_query_spec(body@);
            match lookup(m, "oauth_token"@) {
                None => r matches Err(AuthError::Parse(msg)) && msg@
                    == "Missing oauth_token in response"@,
                Some(t) => match lookup(m, "oauth_token_secret"@) {
                    None => r matches Err(AuthError::Parse(msg)) && msg@
                        == "Missing oauth_token_secret in response"@,
                    Some(sec) => r matches Ok((a, b)) && a@ == t && b@ == sec,
                },
            }
        }),
{
    let parsed = FlickrAuth::parse_query_string(body);
    let token = match parsed.get("oauth_token") {
        Some(t) => t.clone(),
        None => {
            return Err(AuthError::Parse("Missing oauth_token in response".to_owned()));
        },
    };
    let secret = match parsed.get("oauth_token_secret") {
        Some(t) => t.clone(),
        None => {
            return Err(AuthError::Parse("Missing oauth_token_secret in response".to_owned()));
        },
    };
    Ok((token, secret))
}

/// The optional string of a lookup.
fn get_owned(m: &ParamMap, key: &str) -> (r: Option<String>)
    ensures
        opt_view(r) == lookup(m@, key@),
{
    match m.get(key) {
        Some(v) => Some(v.clone()),
        None => None,
    }
}

/// Reads the tokens from the body of the access-token response: token and
/// secret are required, `fullname`, `user_nsid` and `username` optional.
pub fn parse_access_token_response(body: &str) -> (r: Result<OAuthTokens, AuthError>)
    ensures
        ({
            let m = parse_query_spec(body@);
            match lookup(m, "oauth_token"@) {
                None => r matches Err(AuthError::Parse(msg)) && msg@ == "Missing oauth_token"@,
                Some(t) => match lookup(m, "oauth_token_secret"@) {
                    None => r matches Err(AuthError::Parse(msg)) && msg@
                        == "Missing oauth_token_secret"@,
                    Some(sec) => r matches Ok(tokens) && tokens.oauth_token@ == t
                        && tokens.oauth_token_secret@ == sec && opt_view(tokens.fullname)
                        == lookup(m, "fullname"@) && opt_view(tokens.user_nsid) == lookup(
                        m,
                        "user_nsid"@,
                    ) && opt_view(tokens.username) == lookup(m, "username"@),
                },
            }
        }),
{
    let parsed = FlickrAuth::parse_query_string(body);
    let oauth_token = match parsed.get("oauth_token") {
        Some(t) => t.clone(),
        None => {
            return Err(AuthError::Parse("Missing oauth_token".to_owned()));
        },
    };
    let oauth_token_secret = match parsed.get("oauth_token_secret") {
        Some(t) => t.clone(),
        None => {
            return Err(AuthError::Parse("Missing oauth_token_secret".to_owned()));
        },
    };
    let fullname = get_owned(&parsed, "fullname");
    let user_nsid = get_owned(&parsed, "user_nsid");
    let username = get_owned(&parsed, "username");
    Ok(OAuthTokens { oauth_token, oauth_token_secret, fullname, user_nsid, username })
}

} // verus!
