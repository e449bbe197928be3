//! Authentication: `Basic` and `Bearer` headers, and signed tokens in the
//! shape of a JWT (`header.payload.signature`, each part base64url-encoded).
use vstd::prelude::*;
use base64::Engine;
use std::hash::{Hash, Hasher};
use vstd::string::StringSliceAdditionalSpecFns;
use vstd::utf8::{decode_utf8, encode_utf8, valid_utf8};
use crate::clock::unix_secs;
use crate::num::{dec_chars, dec_repr, parse_decimal, parse_unsigned};
use crate::text::{
    chars_eq, chars_of, find_char_in, find_chars, index_of_char, match_at, push_chars, push_str,
    spec_find, spec_strip_prefix, split_char, split_chars, split_once, split_once_char,
    string_from_chars, strip_prefix, utf8_str, views, quoted_after, quoted_value,
};

verus! {

// ───────────────────────── outside calls ─────────────────────────

/// What the standard base64 engine (`general_purpose::STANDARD.decode`)
/// gives for a text: its bytes, or `None` when the text is not base64.
pub uninterp spec fn b64_std_decoded(s: Seq<char>) -> Option<Seq<u8>>;

/// What the URL-safe base64 engine without padding
/// (`general_purpose::URL_SAFE_NO_PAD.encode`) gives for some bytes.
pub uninterp spec fn b64_url_encoded(data: Seq<u8>) -> Seq<char>;

/// What `general_purpose::URL_SAFE_NO_PAD.decode` gives for a text.
pub uninterp spec fn b64_url_decoded(s: Seq<char>) -> Option<Seq<u8>>;

/// The `DefaultHasher` digest after hashing the byte slice `key` and then
/// the byte slice `data`.
pub uninterp spec fn default_hash(key: Seq<u8>, data: Seq<u8>) -> u64;

/// Whether a character above ASCII has a Unicode numeric general category
/// (`Nd`, `Nl` or `No`).
pub uninterp spec fn unicode_numeric(c: char) -> bool;

/// A character of the URL-safe base64 alphabet.
pub open spec fn is_b64url_char(c: char) -> bool {
    ('A' <= c <= 'Z') || ('a' <= c <= 'z') || ('0' <= c <= '9') || c == '-' || c == '_'
}

/// `general_purpose::STANDARD.decode(s)`: the bytes that the base64 text
/// `s` encodes, or `None` when it is not valid base64.
#[verifier::external_body]
fn b64_std_decode(s: &str) -> (r: Option<Vec<u8>>)
    ensures
        match r {
            Some(v) => b64_std_decoded(s@) == Some(v@),
            None => b64_std_decoded(s@) is None,
        },
{
    base64::engine::general_purpose::STANDARD.decode(s).ok()
}

/// `general_purpose::URL_SAFE_NO_PAD.encode(data)`. The text uses only the
/// URL-safe alphabet (no padding is written), and decoding it with the
/// same engine gives `data` back.
#[verifier::external_body]
fn b64_url_encode(data: &[u8]) -> (r: String)
    requires
        data@.len() <= usize::MAX / 2,
    ensures
        r@ == b64_url_encoded(data@),
        forall|i: int| 0 <= i < r@.len() ==> is_b64url_char(#[trigger] r@[i]),
        b64_url_decoded(r@) == Some(data@),
{
    base64::engine::general_purpose::URL_SAFE_NO_PAD.encode(data)
}

/// `general_purpose::URL_SAFE_NO_PAD.decode(s)`.
#[verifier::external_body]
fn b64_url_decode(s: &str) -> (r: Option<Vec<u8>>)
    ensures
        match r {
            Some(v) => b64_url_decoded(s@) == Some(v@),
            None => b64_url_decoded(s@) is None,
        },
{
    base64::engine::general_purpose::URL_SAFE_NO_PAD.decode(s).ok()
}

/// A fresh `DefaultHasher` fed the slice `key` and then the slice `data`
/// (each by `Hash for [u8]`), and its `finish`.
#[verifier::external_body]
fn default_hash_of(key: &[u8], data: &[u8]) -> (r: u64)
    ensures
        r == default_hash(key@, data@),
{
    let mut hasher = std::collections::hash_map::DefaultHasher::new();
    key.hash(&mut hasher);
    data.hash(&mut hasher);
    hasher.finish()
}

/// `char::is_numeric` for a character above ASCII.
#[verifier::external_body]
fn unicode_is_numeric(c: char) -> (r: bool)
    requires
        (c as u32) > 0x7f,
    ensures
        r == unicode_numeric(c),
{
    c.is_numeric()
}

// ───────────────────────── headers ─────────────────────────

/// `Basic` credentials: the decoded text split at its first `:` into user
/// and password; `None` when there is no `:`.
pub open spec fn credentials_of(decoded: Seq<u8>) -> Option<(Seq<char>, Seq<char>)> {
    if valid_utf8(decoded) {
        match split_once_char(decode_utf8(decoded), ':') {
            (user, Some(pass)) => Some((user, pass)),
            _ => None,
        }
    } else {
        None
    }
}

/// The credentials of a `Basic` authorization header.
pub open spec fn basic_of(header: Seq<char>) -> Option<(Seq<char>, Seq<char>)> {
    match spec_strip_prefix(header, "Basic "@) {
        Some(encoded) => match b64_std_decoded(encoded) {
            Some(bytes) => credentials_of(bytes),
            None => None,
        },
        None => None,
    }
}

/// The user and password in decoded `Basic` credentials.
pub fn basic_credentials(decoded: &[u8]) -> (r: Option<(String, String)>)
    ensures
        match r {
            Some((u, p)) => credentials_of(decoded@) == Some((u@, p@)),
            None => credentials_of(decoded@) is None,
        },
{
    let text = match utf8_str(decoded) {
        Some(t) => t,
        None => return None,
    };
    let chars = chars_of(text);
    let (user, pass) = split_once(&chars, ':');
    match pass {
        Some(p) => Some((string_from_chars(&user), string_from_chars(&p))),
        None => None,
    }
}

/// The user and password of a `Basic` authorization header.
pub fn decode_basic(header: &str) -> (r: Option<(String, String)>)
    ensures
        match r {
            Some((u, p)) => basic_of(header@) == Some((u@, p@)),
            None => basic_of(header@) is None,
        },
{
    let encoded = match strip_prefix(header, "Basic ") {
        Some(e) => e,
        None => return None,
    };
    match b64_std_decode(encoded) {
        Some(bytes) => basic_credentials(bytes.as_slice()),
        None => None,
    }
}

/// The token of a `Bearer` authorization header.
pub fn extract_bearer(header: &str) -> (r: Option<&str>)
    ensures
        match r {
            Some(t) => spec_strip_prefix(header@, "Bearer "@) == Some(t@),
            None => spec_strip_prefix(header@, "Bearer "@) is None,
        },
{
    strip_prefix(header, "Bearer ")
}

// ───────────────────────── tokens ─────────────────────────

/// What a token states.
#[derive(Debug, Clone)]
pub struct Claims {
    pub sub: String,
    pub exp: u64,
    pub iat: u64,
}

/// The token header, always the same.
pub open spec fn jwt_header_json() -> Seq<char> {
    "{\"alg\":\"HS256\",\"typ\":\"JWT\"}"@
}

/// The token payload for subject `sub`, issued at `iat`, expiring at `exp`.
pub open spec fn jwt_payload_json(sub: Seq<char>, iat: u64, exp: u64) -> Seq<char> {
    "{\"sub\":\""@ + sub + "\",\"iat\":"@ + dec_repr(iat as nat) + ",\"exp\":"@ + dec_repr(
        exp as nat,
    ) + "}"@
}

/// The 32 signature bytes spread from a 64-bit digest: byte `i` is byte
/// `i % 8` of the digest (least significant first) xor `i`.
pub open spec fn sig_bytes(h: u64) -> Seq<u8> {
    Seq::new(32, |i: int| (((h >> ((8 * (i % 8)) as u64)) & 0xff) as u8) ^ (i as u8))
}

/// The encoded signature of `input` under `secret`.
pub open spec fn jwt_signature(secret: Seq<char>, input: Seq<char>) -> Seq<char> {
    b64_url_encoded(sig_bytes(default_hash(encode_utf8(secret), encode_utf8(input))))
}

/// The first two parts of a token, joined by `.`.
pub open spec fn jwt_signing_input(sub: Seq<char>, iat: u64, exp: u64) -> Seq<char> {
    b64_url_encoded(encode_utf8(jwt_header_json())) + "."@ + b64_url_encoded(
        encode_utf8(jwt_payload_json(sub, iat, exp)),
    )
}

/// The token for subject `sub`, issued at `iat`, expiring at `exp`, signed
/// with `secret`.
pub open spec fn jwt_token(sub: Seq<char>, secret: Seq<char>, iat: u64, exp: u64) -> Seq<char> {
    let input = jwt_signing_input(sub, iat, exp);
    input + "."@ + jwt_signature(secret, input)
}

/// The 32 signature bytes of `data` under `key`.
fn signature_bytes(key: &[u8], data: &[u8]) -> (r: Vec<u8>)
    ensures
        r@ == sig_bytes(default_hash(key@, data@)),
{
    let h = default_hash_of(key, data);
    let mut out: Vec<u8> = Vec::new();
    let mut i: u64 = 0;
    while i < 32
        invariant
            i <= 32,
            out@.len() == i,
            forall|j: int| 0 <= j < i ==> out@[j] == sig_bytes(h)[j],
        decreases 32 - i,
    {
        let b = ((h >> (8 * (i % 8))) & 0xff) as u8;
        out.push(b ^ (i as u8));
        i = i + 1;
    }
    assert(out@ =~= sig_bytes(h));
    out
}

/// The encoded signature of `input` under `secret`.
fn sign(secret: &str, input: &str) -> (r: String)
    ensures
        r@ == jwt_signature(secret@, input@),
        forall|i: int| 0 <= i < r@.len() ==> is_b64url_char(#[trigger] r@[i]),
{
    let sig = signature_bytes(secret.as_bytes(), input.as_bytes());
    b64_url_encode(sig.as_slice())
}

/// The three parts of a token for `sub`, issued at `iat` and expiring at
/// `exp`, contain no `.`, and its payload part decodes back to the
/// payload's bytes.
pub open spec fn jwt_parts_sound(sub: Seq<char>, secret: Seq<char>, iat: u64, exp: u64) -> bool {
    let h = b64_url_encoded(encode_utf8(jwt_header_json()));
    let p = b64_url_encoded(encode_utf8(jwt_payload_json(sub, iat, exp)));
    let s = jwt_signature(secret, jwt_signing_input(sub, iat, exp));
    &&& forall|i: int| 0 <= i < h.len() ==> #[trigger] h[i] != '.'
    &&& forall|i: int| 0 <= i < p.len() ==> #[trigger] p[i] != '.'
    &&& forall|i: int| 0 <= i < s.len() ==> #[trigger] s[i] != '.'
    &&& b64_url_decoded(p) == Some(encode_utf8(jwt_payload_json(sub, iat, exp)))
}

/// A token for `sub`, issued at `now`, expiring `exp_secs` later (the sum
/// wrapping at 64 bits), signed with `secret`.
pub fn jwt_encode_at(sub: &str, secret: &str, exp_secs: u64, now: u64) -> (r: String)
    requires
        sub@.len() <= usize::MAX / 16,
    ensures
        r@ == jwt_token(sub@, secret@, now, now.wrapping_add(exp_secs)),
        jwt_parts_sound(sub@, secret@, now, now.wrapping_add(exp_secs)),
{
    let exp = now.wrapping_add(exp_secs);
    let header_json = "{\"alg\":\"HS256\",\"typ\":\"JWT\"}";
    proof {
        reveal_strlit("{\"alg\":\"HS256\",\"typ\":\"JWT\"}");
        crate::text::lemma_encode_utf8_len(header_json@);
    }
    let header = b64_url_encode(header_json.as_bytes());
    let mut payload_json = String::new();
    push_str(&mut payload_json, "{\"sub\":\"");
    push_str(&mut payload_json, sub);
    push_str(&mut payload_json, "\",\"iat\":");
    push_chars(&mut payload_json, &dec_chars(now));
    push_str(&mut payload_json, ",\"exp\":");
    push_chars(&mut payload_json, &dec_chars(exp));
    push_str(&mut payload_json, "}");
    assert(payload_json@ =~= jwt_payload_json(sub@, now, exp));
    proof {
        lemma_payload_len(sub@, now, exp);
    }
    let payload = b64_url_encode(payload_json.as_str().as_bytes());
    let mut input = String::new();
    push_str(&mut input, header.as_str());
    push_str(&mut input, ".");
    push_str(&mut input, payload.as_str());
    let sig = sign(secret, input.as_str());
    let mut token = String::new();
    push_str(&mut token, input.as_str());
    push_str(&mut token, ".");
    push_str(&mut token, sig.as_str());
    proof {
        assert forall|i: int| 0 <= i < header@.len() implies #[trigger] header@[i] != '.' by {
            assert(is_b64url_char(header@[i]));
        }
        assert forall|i: int| 0 <= i < payload@.len() implies #[trigger] payload@[i] != '.' by {
            assert(is_b64url_char(payload@[i]));
        }
        assert forall|i: int| 0 <= i < sig@.len() implies #[trigger] sig@[i] != '.' by {
            assert(is_b64url_char(sig@[i]));
        }
    }
    token
}

/// The payload of a token is not too long to encode.
proof fn lemma_payload_len(sub: Seq<char>, iat: u64, exp: u64)
    requires
        sub.len() <= usize::MAX / 16,
    ensures
        encode_utf8(jwt_payload_json(sub, iat, exp)).len() <= usize::MAX / 2,
{
    let t = jwt_payload_json(sub, iat, exp);
    crate::text::lemma_encode_utf8_len(t);
    crate::num::lemma_dec_repr_len(iat as nat);
    crate::num::lemma_dec_repr_len(exp as nat);
    reveal_strlit("{\"sub\":\"");
    reveal_strlit("\",\"iat\":");
    reveal_strlit(",\"exp\":");
    reveal_strlit("}");
}

/// A token for `sub`, issued now, expiring `exp_secs` later.
pub fn jwt_encode(sub: &str, secret: &str, exp_secs: u64) -> (r: String)
    requires
        sub@.len() <= usize::MAX / 16,
    ensures
        exists|now: u64| r@ == jwt_token(sub@, secret@, now, now.wrapping_add(exp_secs)),
{
    let now = unix_secs();
    jwt_encode_at(sub, secret, exp_secs, now)
}

// ───────────────────────── reading tokens ─────────────────────────

/// `char::is_numeric`: an ASCII digit, or a character above ASCII in a
/// Unicode numeric category.
pub open spec fn numeric(c: char) -> bool {
    ('0' <= c <= '9') || ((c as u32) > 0x7f && unicode_numeric(c))
}

/// `char::is_numeric`.
fn is_numeric(c: char) -> (r: bool)
    ensures
        r == numeric(c),
{
    if '0' <= c && c <= '9' {
        true
    } else if (c as u32) <= 0x7f {
        false
    } else {
        unicode_is_numeric(c)
    }
}

/// How many characters at the start of `s` are numeric.
pub open spec fn numeric_run(s: Seq<char>) -> nat
    decreases s.len(),
{
    if s.len() > 0 && numeric(s[0]) {
        1 + numeric_run(s.skip(1))
    } else {
        0
    }
}

/// `numeric_run` is the first position that is not numeric.
proof fn lemma_numeric_run(s: Seq<char>, m: int)
    requires
        0 <= m <= s.len(),
        forall|k: int| 0 <= k < m ==> numeric(#[trigger] s[k]),
        m == s.len() || !numeric(s[m]),
    ensures
        numeric_run(s) == m,
    decreases m,
{
    if m > 0 {
        assert forall|k: int| 0 <= k < m - 1 implies numeric(#[trigger] s.skip(1)[k]) by {
            assert(s.skip(1)[k] == s[k + 1]);
        }
        if m < s.len() {
            assert(s.skip(1)[m - 1] == s[m]);
        }
        lemma_numeric_run(s.skip(1), m - 1);
    }
}

/// The string value of `"key":"..."` in a JSON text: what follows the
/// first `"key":"` up to the next `"`.
pub open spec fn json_str_field(json: Seq<char>, key: Seq<char>) -> Option<Seq<char>> {
    quoted_after(json, "\""@ + key + "\":\""@)
}

/// The number after the first `"key":` in a JSON text: the numeric
/// characters that follow, read as a `u64`.
pub open spec fn json_u64_field(json: Seq<char>, key: Seq<char>) -> Option<u64> {
    let search = "\""@ + key + "\":"@;
    match spec_find(json, search) {
        Some(i) => {
            let rest = json.subrange(i + search.len(), json.len() as int);
            match parse_unsigned(rest.subrange(0, numeric_run(rest) as int), 10, u64::MAX as nat) {
                Some(n) => Some(n as u64),
                None => None,
            }
        },
        None => None,
    }
}

/// The characters `"` + `key` + `tail`.
fn quoted_key(key: &str, tail: &str) -> (r: Vec<char>)
    ensures
        r@ == "\""@ + key@ + tail@,
{
    let mut s = String::new();
    push_str(&mut s, "\"");
    push_str(&mut s, key);
    push_str(&mut s, tail);
    chars_of(s.as_str())
}

/// The string value of `key` in `json`.
fn extract_json_str(json: &Vec<char>, key: &str) -> (r: Option<String>)
    ensures
        match r {
            Some(v) => json_str_field(json@, key@) == Some(v@),
            None => json_str_field(json@, key@) is None,
        },
{
    let search = quoted_key(key, "\":\"");
    quoted_value(json, &search)
}

/// The number under `key` in `json`.
fn extract_json_u64(json: &Vec<char>, key: &str) -> (r: Option<u64>)
    ensures
        r == json_u64_field(json@, key@),
{
    let search = quoted_key(key, "\":");
    let found = find_chars(json, &search);
    proof {
        crate::text::lemma_find(json@, search@);
    }
    let i = match found {
        Some(i) => i,
        None => return None,
    };
    assert(match_at(json@, search@, i as int));
    let total = json.len();
    assert(i + search@.len() <= total);
    let start = i + search.len();
    let mut end = start;
    while end < json.len() && is_numeric(json[end])
        invariant
            start <= end <= json.len(),
            forall|k: int| start <= k < end ==> numeric(#[trigger] json@[k]),
        decreases json.len() - end,
    {
        end = end + 1;
    }
    let ghost rest = json@.subrange(start as int, json@.len() as int);
    proof {
        assert forall|k: int| 0 <= k < end - start implies numeric(#[trigger] rest[k]) by {
            assert(rest[k] == json@[start + k]);
        }
        if end < json.len() {
            assert(rest[end - start] == json@[end as int]);
        }
        lemma_numeric_run(rest, end - start);
        assert(rest.subrange(0, end - start) =~= json@.subrange(start as int, end as int));
    }
    match parse_decimal(json, start, end, u64::MAX) {
        Some(n) => Some(n),
        None => None,
    }
}

/// The claims a payload states, at time `now`: the text must be UTF-8
/// with a `sub` string and `exp` and `iat` numbers, and `exp` not passed.
pub open spec fn payload_claims(payload: Seq<u8>, now: u64) -> Option<(Seq<char>, u64, u64)> {
    if valid_utf8(payload) {
        let json = decode_utf8(payload);
        match (
            json_str_field(json, "sub"@),
            json_u64_field(json, "exp"@),
            json_u64_field(json, "iat"@),
        ) {
            (Some(sub), Some(exp), Some(iat)) => if now > exp {
                None
            } else {
                Some((sub, exp, iat))
            },
            _ => None,
        }
    } else {
        None
    }
}

/// The claims of a token at time `now`, checked against `secret`: three
/// `.`-separated parts, a signature that matches the first two, and a
/// payload with live claims.
pub open spec fn jwt_claims(token: Seq<char>, secret: Seq<char>, now: u64) -> Option<
    (Seq<char>, u64, u64),
> {
    let parts = split_char(token, '.');
    if parts.len() != 3 {
        None
    } else if parts[2] != jwt_signature(secret, parts[0] + "."@ + parts[1]) {
        None
    } else {
        match b64_url_decoded(parts[1]) {
            Some(bytes) => payload_claims(bytes, now),
            None => None,
        }
    }
}

/// The claims of a decoded payload at time `now`.
pub fn claims_from_payload(payload: &[u8], now: u64) -> (r: Option<Claims>)
    ensures
        match r {
            Some(c) => payload_claims(payload@, now) == Some((c.sub@, c.exp, c.iat)),
            None => payload_claims(payload@, now) is None,
        },
{
    let text = match utf8_str(payload) {
        Some(t) => t,
        None => return None,
    };
    let json = chars_of(text);
    let sub = match extract_json_str(&json, "sub") {
        Some(s) => s,
        None => return None,
    };
    let exp = match extract_json_u64(&json, "exp") {
        Some(e) => e,
        None => return None,
    };
    let iat = match extract_json_u64(&json, "iat") {
        Some(i) => i,
        None => return None,
    };
    if now > exp {
        return None;
    }
    Some(Claims { sub, exp, iat })
}

/// The claims of `token` at time `now`, if it is signed with `secret` and
/// not expired.
pub fn jwt_decode_at(token: &str, secret: &str, now: u64) -> (r: Option<Claims>)
    ensures
        match r {
            Some(c) => jwt_claims(token@, secret@, now) == Some((c.sub@, c.exp, c.iat)),
            None => jwt_claims(token@, secret@, now) is None,
        },
{
    let chars = chars_of(token);
    let parts = split_chars(&chars, '.');
    if parts.len() != 3 {
        return None;
    }
    assert(views(parts@)[0] == parts@[0]@ && views(parts@)[1] == parts@[1]@ && views(parts@)[2]
        == parts@[2]@);
    let mut input = String::new();
    push_chars(&mut input, &parts[0]);
    push_str(&mut input, ".");
    push_chars(&mut input, &parts[1]);
    let expected = sign(secret, input.as_str());
    let expected_chars = chars_of(expected.as_str());
    if !chars_eq(&parts[2], &expected_chars) {
        return None;
    }
    let payload_text = string_from_chars(&parts[1]);
    match b64_url_decode(payload_text.as_str()) {
        Some(bytes) => claims_from_payload(bytes.as_slice(), now),
        None => None,
    }
}

/// The subject, expiry and issue time of optional claims.
pub open spec fn claims_view(r: Option<Claims>) -> Option<(Seq<char>, u64, u64)> {
    match r {
        Some(c) => Some((c.sub@, c.exp, c.iat)),
        None => None,
    }
}

/// The claims of `token` now, if it is signed with `secret` and not
/// expired: what `jwt_decode_at` gives at the clock's reading.
pub fn jwt_decode(token: &str, secret: &str) -> (r: Option<Claims>)
    ensures
        exists|now: u64| #[trigger] jwt_claims(token@, secret@, now) == claims_view(r),
{
    let now = unix_secs();
    let r = jwt_decode_at(token, secret, now);
    assert(jwt_claims(token@, secret@, now) == claims_view(r));
    r
}

// ───────────────────────── reading back what was written ─────────────────────────

/// The literal pieces of the payload text and of the searches for its
/// fields, character by character.
proof fn lemma_payload_literals()
    ensures
        "{\"sub\":\""@ == seq!['{', '"', 's', 'u', 'b', '"', ':', '"'],
        "\",\"iat\":"@ == seq!['"', ',', '"', 'i', 'a', 't', '"', ':'],
        ",\"exp\":"@ == seq![',', '"', 'e', 'x', 'p', '"', ':'],
        "}"@ == seq!['}'],
        "\""@ + "sub"@ + "\":\""@ == seq!['"', 's', 'u', 'b', '"', ':', '"'],
        "\""@ + "exp"@ + "\":"@ == seq!['"', 'e', 'x', 'p', '"', ':'],
        "\""@ + "iat"@ + "\":"@ == seq!['"', 'i', 'a', 't', '"', ':'],
{
    reveal_strlit("{\"sub\":\"");
    reveal_strlit("\",\"iat\":");
    reveal_strlit(",\"exp\":");
    reveal_strlit("}");
    reveal_strlit("\"");
    reveal_strlit("sub");
    reveal_strlit("exp");
    reveal_strlit("iat");
    reveal_strlit("\":\"");
    reveal_strlit("\":");
    assert("\""@ + "sub"@ + "\":\""@ =~= seq!['"', 's', 'u', 'b', '"', ':', '"']);
    assert("\""@ + "exp"@ + "\":"@ =~= seq!['"', 'e', 'x', 'p', '"', ':']);
    assert("\""@ + "iat"@ + "\":"@ =~= seq!['"', 'i', 'a', 't', '"', ':']);
}

/// The first match of `p` in `s` is at `k` when it matches there and at no
/// earlier position.
proof fn lemma_find_at(s: Seq<char>, p: Seq<char>, k: int)
    requires
        match_at(s, p, k),
        forall|j: int| 0 <= j < k ==> !match_at(s, p, j),
    ensures
        spec_find(s, p) == Some(k),
{
    crate::text::lemma_find(s, p);
    match spec_find(s, p) {
        Some(f) => {
            if f < k {
                assert(!match_at(s, p, f));
            }
            if k < f {
                assert(!match_at(s, p, k));
            }
        },
        None => {
            assert(!match_at(s, p, k));
        },
    }
}

/// The subject of a payload reads back, when it holds no `"`.
proof fn lemma_sub_field(sub: Seq<char>, iat: u64, exp: u64)
    requires
        forall|i: int| 0 <= i < sub.len() ==> sub[i] != '"',
    ensures
        json_str_field(jwt_payload_json(sub, iat, exp), "sub"@) == Some(sub),
{
    lemma_payload_literals();
    let t = jwt_payload_json(sub, iat, exp);
    let search = "\""@ + "sub"@ + "\":\""@;
    assert(t.subrange(1, 8) =~= search);
    assert(!match_at(t, search, 0)) by {
        assert(t[0] == '{');
        if match_at(t, search, 0) {
            assert(t.subrange(0, 7)[0] == t[0]);
        }
    }
    lemma_find_at(t, search, 1);
    let rest = t.subrange(8, t.len() as int);
    assert forall|j: int| 0 <= j < sub.len() implies rest[j] != '"' by {
        assert(rest[j] == sub[j]);
    }
    assert(rest[sub.len() as int] == '"');
    crate::text::lemma_index_of_char_at(rest, '"', sub.len() as int);
    assert(rest.subrange(0, sub.len() as int) =~= sub);
}

/// A character that is numeric is not `"`, `,` or `}`.
proof fn lemma_numeric_punctuation()
    ensures
        !numeric('"'),
        !numeric(','),
        !numeric('}'),
{
}

/// The digits of a payload number are numeric, and what follows is not.
proof fn lemma_number_then(d: Seq<char>, n: u64, after: Seq<char>)
    requires
        d == dec_repr(n as nat),
        after.len() > 0,
        !numeric(after[0]),
    ensures
        numeric_run(d + after) == d.len(),
        (d + after).subrange(0, d.len() as int) == d,
        parse_unsigned(d, 10, u64::MAX as nat) == Some(n as nat),
{
    crate::num::lemma_dec_repr_digits(n as nat);
    crate::num::lemma_dec_repr_parses(n as nat, u64::MAX as nat);
    let t = d + after;
    assert forall|k: int| 0 <= k < d.len() implies numeric(#[trigger] t[k]) by {
        assert(t[k] == d[k]);
        assert('0' <= d[k] <= '9');
    }
    assert(t[d.len() as int] == after[0]);
    lemma_numeric_run(t, d.len() as int);
    assert(t.subrange(0, d.len() as int) =~= d);
}

/// The expiry of a payload reads back, when its subject holds no `"`.
#[verifier::rlimit(50)]
proof fn lemma_exp_field(sub: Seq<char>, iat: u64, exp: u64)
    requires
        forall|i: int| 0 <= i < sub.len() ==> sub[i] != '"',
    ensures
        json_u64_field(jwt_payload_json(sub, iat, exp), "exp"@) == Some(exp),
{
    lemma_payload_literals();
    crate::num::lemma_dec_repr_digits(iat as nat);
    let t = jwt_payload_json(sub, iat, exp);
    let search = "\""@ + "exp"@ + "\":"@;
    let n = sub.len() as int;
    let d1 = dec_repr(iat as nat);
    let d2 = dec_repr(exp as nat);
    let pos = 8 + n + 8 + d1.len() + 1;
    assert(t.subrange(pos, pos + 6) =~= search);
    assert forall|k: int| 0 <= k < pos implies !match_at(t, search, k) by {
        if match_at(t, search, k) {
            let w = t.subrange(k, k + 6);
            assert(w == search);
            assert(t[k] == w[0] && t[k + 1] == w[1] && t[k + 4] == w[4] && t[k + 5] == w[5]);
            assert(t[k + 2] == w[2] && t[k + 3] == w[3]);
            if k < 7 {
            } else if k == 7 {
                if n >= 4 {
                    assert(t[11] == sub[3]);
                } else if n == 3 {
                    assert(t[12] == ',');
                } else {
                    assert(t[8 + n] == '"');
                }
            } else if k < 8 + n {
                assert(t[k] == sub[k - 8]);
            } else if k < 16 + n {
            } else if k < 16 + n + d1.len() {
                assert(t[k] == d1[k - 16 - n]);
            } else {
            }
        }
    }
    lemma_find_at(t, search, pos);
    let rest = t.subrange(pos + 6, t.len() as int);
    assert(rest =~= d2 + "}"@);
    lemma_numeric_punctuation();
    lemma_number_then(d2, exp, "}"@);
}

/// The issue time of a payload reads back, when its subject holds no `"`.
#[verifier::rlimit(50)]
proof fn lemma_iat_field(sub: Seq<char>, iat: u64, exp: u64)
    requires
        forall|i: int| 0 <= i < sub.len() ==> sub[i] != '"',
    ensures
        json_u64_field(jwt_payload_json(sub, iat, exp), "iat"@) == Some(iat),
{
    lemma_payload_literals();
    let t = jwt_payload_json(sub, iat, exp);
    let search = "\""@ + "iat"@ + "\":"@;
    let n = sub.len() as int;
    let d1 = dec_repr(iat as nat);
    let d2 = dec_repr(exp as nat);
    let pos = 8 + n + 2;
    assert(t.subrange(pos, pos + 6) =~= search);
    assert forall|k: int| 0 <= k < pos implies !match_at(t, search, k) by {
        if match_at(t, search, k) {
            let w = t.subrange(k, k + 6);
            assert(w == search);
            assert(t[k] == w[0] && t[k + 1] == w[1] && t[k + 4] == w[4] && t[k + 5] == w[5]);
            assert(t[k + 2] == w[2] && t[k + 3] == w[3]);
            if k < 7 {
            } else if k == 7 {
                if n >= 4 {
                    assert(t[11] == sub[3]);
                } else if n == 3 {
                    assert(t[12] == ',');
                } else {
                    assert(t[8 + n] == '"');
                }
            } else if k < 8 + n {
                assert(t[k] == sub[k - 8]);
            } else {
            }
        }
    }
    lemma_find_at(t, search, pos);
    let rest = t.subrange(pos + 6, t.len() as int);
    assert(rest =~= d1 + (",\"exp\":"@ + d2 + "}"@));
    lemma_numeric_punctuation();
    lemma_number_then(d1, iat, ",\"exp\":"@ + d2 + "}"@);
}

/// A token reads back: decoding a token made for a subject without `"`,
/// with the secret it was signed with and no later than its expiry, gives
/// back its subject, expiry and issue time. `jwt_encode_at` ensures the
/// soundness of the parts for every token it makes.
pub proof fn lemma_jwt_roundtrip(sub: Seq<char>, secret: Seq<char>, iat: u64, exp: u64, now: u64)
    requires
        jwt_parts_sound(sub, secret, iat, exp),
        forall|i: int| 0 <= i < sub.len() ==> sub[i] != '"',
        now <= exp,
    ensures
        jwt_claims(jwt_token(sub, secret, iat, exp), secret, now) == Some((sub, exp, iat)),
{
    let h = b64_url_encoded(encode_utf8(jwt_header_json()));
    let payload = jwt_payload_json(sub, iat, exp);
    let p = b64_url_encoded(encode_utf8(payload));
    let input = jwt_signing_input(sub, iat, exp);
    let sig = jwt_signature(secret, input);
    let t = jwt_token(sub, secret, iat, exp);
    reveal_strlit(".");
    assert(t =~= h + seq!['.'] + (p + seq!['.'] + sig));
    crate::text::lemma_split_char_after(h, p + seq!['.'] + sig, '.');
    crate::text::lemma_split_char_after(p, sig, '.');
    crate::text::lemma_split_char_absent(sig, '.');
    let parts = split_char(t, '.');
    assert(parts =~= seq![h, p, sig]);
    assert(parts[0] + "."@ + parts[1] =~= input);
    vstd::utf8::encode_utf8_valid_utf8(payload);
    vstd::utf8::encode_utf8_decode_utf8(payload);
    lemma_sub_field(sub, iat, exp);
    lemma_exp_field(sub, iat, exp);
    lemma_iat_field(sub, iat, exp);
}

/// A token whose signature part is not the signature of its first two
/// parts under the secret is refused.
pub proof fn lemma_jwt_signature_checked(token: Seq<char>, secret: Seq<char>, now: u64)
    requires
        split_char(token, '.').len() == 3,
        split_char(token, '.')[2] != jwt_signature(
            secret,
            split_char(token, '.')[0] + "."@ + split_char(token, '.')[1],
        ),
    ensures
        jwt_claims(token, secret, now) is None,
{
}

/// A token is refused once its expiry has passed: whatever claims it
/// reads to at one time have an expiry no earlier than that time.
pub proof fn lemma_jwt_expiry(token: Seq<char>, secret: Seq<char>, now: u64)
    ensures
        jwt_claims(token, secret, now) matches Some(c) ==> now <= c.1,
{
}

} // verus!
