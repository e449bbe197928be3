//! HTTP/1.1 request parsing with keep-alive and chunked bodies, plus query
//! string and URL-encoded form access.
use vstd::prelude::*;
use crate::http::method::{Method, method_of_str};
use crate::io::buffer::IoBuffer;
use crate::num::{
    digit_value, hex_repr, is_lower_hex, lemma_hex_repr_digits, parse_radix, parse_unsigned,
    unsigned_digits,
};
use crate::strmap::StrMap;
use crate::text::{
    chars_of, copy_range, eq_ignore_ascii_case, eq_ignore_case, find_char, find_char_in,
    index_of_char, lemma_index_of_char, lossy_string, push_char, range_eq, spec_find, split_char,
    split_chars, split_once_char, string_from_range, trim_end_char, utf8_lossy, utf8_str, views,
    find_chars, unicode_lower, to_lowercase,
};

verus! {

/// How many header lines a request head may carry.
pub const MAX_HEADERS: usize = 64;

/// What the head parser reports.
pub enum HeadParse {
    /// A whole head of `len` bytes.
    Complete { len: usize, method: String, path: String, headers: Vec<(String, Vec<u8>)> },
    /// More bytes are needed.
    Partial,
    /// Not a valid request head.
    Invalid,
}

/// What `httparse::Request::parse` makes of `buf` with room for `max_headers`
/// headers: `None` for an error, `Some(None)` for a partial head, and
/// `Some(Some((len, method, path, headers)))` for a complete head.
pub uninterp spec fn httparse_head(buf: Seq<u8>, max_headers: nat) -> Option<
    Option<(nat, Seq<char>, Seq<char>, Seq<(Seq<char>, Seq<u8>)>)>,
>;

/// The (name, value) contents of parsed header lines.
pub open spec fn raw_header_views(h: Seq<(String, Vec<u8>)>) -> Seq<(Seq<char>, Seq<u8>)> {
    h.map_values(|e: (String, Vec<u8>)| (e.0@, e.1@))
}

/// `httparse::Request::parse` on `buf` with room for `max_headers` headers.
/// A complete head is never longer than the input.
#[verifier::external_body]
fn parse_head(buf: &[u8], max_headers: usize) -> (r: HeadParse)
    ensures
        match r {
            HeadParse::Invalid => httparse_head(buf@, max_headers as nat) is None,
            HeadParse::Partial => httparse_head(buf@, max_headers as nat) == Some(
                None::<(nat, Seq<char>, Seq<char>, Seq<(Seq<char>, Seq<u8>)>)>,
            ),
            HeadParse::Complete { len, method, path, headers } => {
                &&& httparse_head(buf@, max_headers as nat) == Some(
                    Some((len as nat, method@, path@, raw_header_views(headers@))),
                )
                &&& len <= buf@.len()
            },
        },
{
    let mut headers = vec![httparse::EMPTY_HEADER; max_headers];
    let mut req = httparse::Request::new(&mut headers);
    match req.parse(buf) {
        Ok(httparse::Status::Complete(len)) => HeadParse::Complete {
            len,
            method: req.method.unwrap_or("").to_string(),
            path: req.path.unwrap_or("").to_string(),
            headers: req.headers.iter().map(|h| (h.name.to_string(), h.value.to_vec())).collect(),
        },
        Ok(httparse::Status::Partial) => HeadParse::Partial,
        Err(_) => HeadParse::Invalid,
    }
}

/// The contents of a request: method, path, query, headers, body,
/// keep-alive and chunked flags.
pub type RequestView = (Method, Seq<char>, Seq<char>, Seq<(Seq<char>, Seq<char>)>, Seq<u8>, bool, bool);

/// The contents of a list of (name, value) string pairs.
pub open spec fn pair_views(h: Seq<(String, String)>) -> Seq<(Seq<char>, Seq<char>)> {
    h.map_values(|e: (String, String)| (e.0@, e.1@))
}

#[derive(Debug, Clone)]
pub struct Request {
    pub method: Method,
    pub path: String,
    pub query: String,
    pub headers: Vec<(String, String)>,
    pub body: Vec<u8>,
    pub keep_alive: bool,
    pub chunked: bool,
}

impl View for Request {
    type V = RequestView;

    open spec fn view(&self) -> RequestView {
        (
            self.method,
            self.path@,
            self.query@,
            pair_views(self.headers@),
            self.body@,
            self.keep_alive,
            self.chunked,
        )
    }
}

// ───────────────────────── request head ─────────────────────────

/// The path and the query of a request target, split at the first `?`.
pub open spec fn target_split(p: Seq<char>) -> (Seq<char>, Seq<char>) {
    match index_of_char(p, '?') {
        Some(i) => (p.subrange(0, i), p.subrange(i + 1, p.len() as int)),
        None => (p, Seq::empty()),
    }
}

/// Header values decoded as (lossy) UTF-8.
pub open spec fn decoded_headers(h: Seq<(Seq<char>, Seq<u8>)>) -> Seq<(Seq<char>, Seq<char>)> {
    h.map_values(|e: (Seq<char>, Seq<u8>)| (e.0, utf8_lossy(e.1)))
}

/// Keep-alive: the last `Connection` header decides, and without one the
/// connection is kept.
pub open spec fn keep_alive_of(h: Seq<(Seq<char>, Seq<char>)>) -> bool
    decreases h.len(),
{
    if h.len() == 0 {
        true
    } else if eq_ignore_case(h.last().0, "connection"@) {
        eq_ignore_case(h.last().1, "keep-alive"@)
    } else {
        keep_alive_of(h.drop_last())
    }
}

/// Some header says `Transfer-Encoding: chunked`.
pub open spec fn chunked_of(h: Seq<(Seq<char>, Seq<char>)>) -> bool {
    exists|i: int|
        0 <= i < h.len() && eq_ignore_case(#[trigger] h[i].0, "transfer-encoding"@)
            && eq_ignore_case(h[i].1, "chunked"@)
}

/// The value of the first `Content-Length` header, or 0 when there is none
/// or it is not a number.
pub open spec fn content_length_of(h: Seq<(Seq<char>, Seq<char>)>) -> nat
    decreases h.len(),
{
    if h.len() == 0 {
        0
    } else if eq_ignore_case(h[0].0, "content-length"@) {
        match parse_unsigned(h[0].1, 10, usize::MAX as nat) {
            Some(n) => n,
            None => 0,
        }
    } else {
        content_length_of(h.drop_first())
    }
}

// ───────────────────────── chunked bodies ─────────────────────────

/// The first position of byte `b` in `s`.
pub open spec fn index_of_byte(s: Seq<u8>, b: u8) -> Option<int>
    decreases s.len(),
{
    if s.len() == 0 {
        None
    } else if s[0] == b {
        Some(0)
    } else {
        match index_of_byte(s.drop_first(), b) {
            Some(k) => Some(k + 1),
            None => None,
        }
    }
}

/// What `index_of_byte` returns.
pub proof fn lemma_index_of_byte(s: Seq<u8>, b: u8)
    ensures
        index_of_byte(s, b) matches Some(k) ==> 0 <= k < s.len() && s[k] == b && (forall|j: int|
            0 <= j < k ==> s[j] != b),
        index_of_byte(s, b) is None ==> forall|j: int| 0 <= j < s.len() ==> s[j] != b,
    decreases s.len(),
{
    if s.len() > 0 {
        lemma_index_of_byte(s.drop_first(), b);
        if s[0] != b {
            assert forall|j: int| 1 <= j < s.len() implies s[j] == s.drop_first()[j - 1] by {}
        }
    }
}

/// Bytes read as characters one for one (Latin-1).
pub open spec fn byte_chars(b: Seq<u8>) -> Seq<char> {
    b.map_values(|x: u8| x as char)
}

/// Every byte is ASCII.
pub open spec fn all_ascii(b: Seq<u8>) -> bool {
    forall|i: int| 0 <= i < b.len() ==> b[i] < 128
}

/// The size on a chunk-size line: ASCII hexadecimal after trailing `\r`s are
/// dropped. A line with any other byte names no size.
pub open spec fn chunk_size_of(line: Seq<u8>) -> Option<nat> {
    if all_ascii(line) {
        parse_unsigned(trim_end_char(byte_chars(line), '\r'), 16, usize::MAX as nat)
    } else {
        None
    }
}

/// The bytes of a text of ASCII characters.
pub open spec fn ascii_bytes(s: Seq<char>) -> Seq<u8> {
    s.map_values(|c: char| c as u8)
}

/// A chunk-size line is read in hexadecimal: the line holding the
/// lowercase hexadecimal digits of any `n` up to `usize::MAX`, with or
/// without a `\r` before its newline, names the size `n`.
pub proof fn lemma_chunk_size_hex(n: nat)
    requires
        n <= usize::MAX,
    ensures
        chunk_size_of(ascii_bytes(hex_repr(n)).push(13u8)) == Some(n),
        chunk_size_of(ascii_bytes(hex_repr(n))) == Some(n),
{
    let s = hex_repr(n);
    lemma_hex_repr_digits(n);
    let b = ascii_bytes(s);
    let b2 = b.push(13u8);
    assert forall|i: int| 0 <= i < s.len() implies (s[i] as u8) < 128 && ((s[i] as u8) as char)
        == s[i] by {
        assert(is_lower_hex(s[i]));
    }
    assert(all_ascii(b));
    assert(all_ascii(b2));
    assert(byte_chars(b) =~= s);
    assert(byte_chars(b2) =~= s.push('\r'));
    assert(is_lower_hex(s.last()));
    assert(s.push('\r').drop_last() =~= s);
    assert(trim_end_char(s.push('\r'), '\r') == trim_end_char(s, '\r'));
    assert(trim_end_char(s, '\r') == s);
    assert(is_lower_hex(s[0]));
    assert(unsigned_digits(s) == s);
}

/// Skips one `\r` and then one `\n` at `pos`, each only if present.
pub open spec fn skip_crlf(data: Seq<u8>, pos: int) -> int {
    let p = if 0 <= pos < data.len() && data[pos] == 13 {
        pos + 1
    } else {
        pos
    };
    if 0 <= p < data.len() && data[p] == 10 {
        p + 1
    } else {
        p
    }
}

/// Parses chunks from `pos` on, having collected `body` so far: `None` for a
/// malformed chunk, `Some(None)` when more bytes are needed, and
/// `Some(Some((consumed, body)))` once the last chunk is read.
pub open spec fn chunks_from(data: Seq<u8>, pos: int, body: Seq<u8>) -> Option<
    Option<(nat, Seq<u8>)>,
>
    decreases data.len() - pos,
{
    if pos < 0 || pos >= data.len() {
        Some(None)
    } else {
        match index_of_byte(data.subrange(pos, data.len() as int), 10) {
            None => None,
            Some(nl) => match chunk_size_of(data.subrange(pos, pos + nl)) {
                None => None,
                Some(size) => {
                    proof {
                        lemma_index_of_byte(data.subrange(pos, data.len() as int), 10);
                    }
                    let p = pos + nl + 1;
                    if size == 0 {
                        Some(Some((skip_crlf(data, p) as nat, body)))
                    } else if data.len() < p + size + 2 {
                        Some(None)
                    } else {
                        chunks_from(
                            data,
                            skip_crlf(data, p + size),
                            body + data.subrange(p, p + size),
                        )
                    }
                },
            },
        }
    }
}

/// What parsing does to a buffer: the result, and the bytes that stay in the
/// buffer afterwards.
pub open spec fn parse_outcome(buf: Seq<u8>) -> (Result<Option<RequestView>, u16>, Seq<u8>) {
    request_outcome(httparse_head(buf, MAX_HEADERS as nat), buf)
}

/// What the head parser's report `h` says, in the terms of `httparse_head`.
pub open spec fn head_view(h: HeadParse) -> Option<
    Option<(nat, Seq<char>, Seq<char>, Seq<(Seq<char>, Seq<u8>)>)>,
> {
    match h {
        HeadParse::Invalid => None,
        HeadParse::Partial => Some(None),
        HeadParse::Complete { len, method, path, headers } => Some(
            Some((len as nat, method@, path@, raw_header_views(headers@))),
        ),
    }
}

/// The request, and what is left of `buf`, when the head parser reported
/// `head` for `buf`: `Err(400)` for an invalid head or an unknown method,
/// `Ok(None)` for a partial head; else the head is consumed and the body
/// read as `parse_outcome` describes.
pub open spec fn request_outcome(
    head: Option<Option<(nat, Seq<char>, Seq<char>, Seq<(Seq<char>, Seq<u8>)>)>>,
    buf: Seq<u8>,
) -> (Result<Option<RequestView>, u16>, Seq<u8>) {
    match head {
        None => (Err(400), buf),
        Some(None) => (Ok(None), buf),
        Some(Some((len, m, p, hs))) => match method_of_str(m) {
            None => (Err(400), buf),
            Some(method) => {
                let (path, query) = target_split(p);
                let headers = decoded_headers(hs);
                let ka = keep_alive_of(headers);
                let ch = chunked_of(headers);
                let rest = buf.subrange(len as int, buf.len() as int);
                if ch {
                    match chunks_from(rest, 0, Seq::empty()) {
                        None => (Err(400), rest),
                        Some(None) => (
                            Ok(Some((method, path, query, headers, Seq::empty(), ka, ch))),
                            rest,
                        ),
                        Some(Some((n, body))) => (
                            Ok(Some((method, path, query, headers, body, ka, ch))),
                            rest.subrange(n as int, rest.len() as int),
                        ),
                    }
                } else {
                    let cl = content_length_of(headers);
                    if cl > 0 && rest.len() >= cl {
                        (
                            Ok(Some((method, path, query, headers, rest.subrange(0, cl as int), ka, ch))),
                            rest.subrange(cl as int, rest.len() as int),
                        )
                    } else {
                        (Ok(Some((method, path, query, headers, Seq::empty(), ka, ch))), rest)
                    }
                }
            },
        },
    }
}

// ───────────────────────── query strings and forms ─────────────────────────

/// The name of a `name=value` pair: the text before the first `=`.
pub open spec fn pair_key(p: Seq<char>) -> Seq<char> {
    split_once_char(p, '=').0
}

/// The value of a `name=value` pair: the text after the first `=`, empty
/// when there is none.
pub open spec fn pair_value(p: Seq<char>) -> Seq<char> {
    match split_once_char(p, '=').1 {
        Some(v) => v,
        None => Seq::empty(),
    }
}

/// The value of the first pair whose name is `key`.
pub open spec fn first_value(pairs: Seq<Seq<char>>, key: Seq<char>) -> Option<Seq<char>>
    decreases pairs.len(),
{
    if pairs.len() == 0 {
        None
    } else if pair_key(pairs[0]) == key {
        Some(pair_value(pairs[0]))
    } else {
        first_value(pairs.drop_first(), key)
    }
}

/// The map of all pairs with a non-empty name, each value URL-decoded when
/// `decode` holds; a later pair overrides an earlier one with the same name.
pub open spec fn pairs_map_with(pairs: Seq<Seq<char>>, decode: bool) -> Map<Seq<char>, Seq<char>>
    decreases pairs.len(),
{
    if pairs.len() == 0 {
        Map::empty()
    } else {
        let m = pairs_map_with(pairs.drop_last(), decode);
        let p = pairs.last();
        if pair_key(p).len() > 0 {
            m.insert(pair_key(p), if decode { url_decoded(pair_value(p)) } else { pair_value(p) })
        } else {
            m
        }
    }
}

/// The map of all pairs with a non-empty name, values as written.
pub open spec fn pairs_map(pairs: Seq<Seq<char>>) -> Map<Seq<char>, Seq<char>> {
    pairs_map_with(pairs, false)
}

/// The map of all pairs with a non-empty name, values URL-decoded.
pub open spec fn pairs_map_decoded(pairs: Seq<Seq<char>>) -> Map<Seq<char>, Seq<char>> {
    pairs_map_with(pairs, true)
}

/// The text values of a string map.
pub open spec fn text_values(m: Map<Seq<char>, String>) -> Map<Seq<char>, Seq<char>> {
    m.map_values(|v: String| v@)
}

/// Builds the map of the pairs `pieces`.
fn collect_pairs(pieces: &Vec<Vec<char>>, decode: bool) -> (r: StrMap<String>)
    ensures
        text_values(r.view()) == pairs_map_with(views(pieces@), decode),
{
    let mut map: StrMap<String> = StrMap::new();
    let mut i: usize = 0;
    assert(text_values(map.view()) =~= Map::<Seq<char>, Seq<char>>::empty());
    while i < pieces.len()
        invariant
            i <= pieces@.len(),
            text_values(map.view()) == pairs_map_with(views(pieces@).take(i as int), decode),
        decreases pieces.len() - i,
    {
        let ghost pv = views(pieces@);
        assert(pv.take(i + 1).drop_last() =~= pv.take(i as int));
        assert(pv.take(i + 1).last() == pieces@[i as int]@);
        add_pair(&mut map, &pieces[i], decode);
        i = i + 1;
    }
    assert(views(pieces@).take(pieces@.len() as int) =~= views(pieces@));
    map
}

/// Adds one `name=value` pair to `map` when its name is not empty.
fn add_pair(map: &mut StrMap<String>, piece: &Vec<char>, decode: bool)
    ensures
        text_values(final(map).view()) == if pair_key(piece@).len() > 0 {
            text_values(old(map).view()).insert(
                pair_key(piece@),
                if decode {
                    url_decoded(pair_value(piece@))
                } else {
                    pair_value(piece@)
                },
            )
        } else {
            text_values(old(map).view())
        },
{
    let (k, v) = split_once_pair(piece);
    if !k.as_str().is_empty() {
        let ghost before = map.view();
        let val = if decode {
            url_decode(v.as_str())
        } else {
            v
        };
        map.insert(k, val);
        assert(text_values(map.view()) =~= text_values(before).insert(
            pair_key(piece@),
            if decode {
                url_decoded(pair_value(piece@))
            } else {
                pair_value(piece@)
            },
        ));
    }
}

/// The value of two characters read as a hexadecimal byte, as
/// `u8::from_str_radix` reads them (an optional `+` counts as a sign).
pub open spec fn hex_pair(a: u8, b: u8) -> Option<nat> {
    if a < 128 && b < 128 {
        parse_unsigned(seq![a as char, b as char], 16, 255)
    } else {
        None
    }
}

/// URL-decodes the bytes of `b` from position `i`: `+` is a space, `%hh` is
/// the byte `hh` as a character, and every other byte is itself as a
/// character.
pub open spec fn url_decode_from(b: Seq<u8>, i: int) -> Seq<char>
    decreases b.len() - i,
{
    if i < 0 || i >= b.len() {
        Seq::empty()
    } else if b[i] == 43 {
        seq![' '] + url_decode_from(b, i + 1)
    } else if b[i] == 37 && i + 2 < b.len() && hex_pair(b[i + 1], b[i + 2]) is Some {
        seq![((hex_pair(b[i + 1], b[i + 2])->0) as u8) as char] + url_decode_from(b, i + 3)
    } else {
        seq![b[i] as char] + url_decode_from(b, i + 1)
    }
}

/// URL-decodes a text.
pub open spec fn url_decoded(s: Seq<char>) -> Seq<char> {
    url_decode_from(vstd::utf8::encode_utf8(s), 0)
}

/// The value of the hexadecimal pair `b[i], b[j]`.
fn hex_pair_value(x: u8, y: u8) -> (r: Option<u8>)
    ensures
        match r {
            Some(v) => hex_pair(x, y) == Some(v as nat),
            None => hex_pair(x, y) is None,
        },
{
    if x >= 128 || y >= 128 {
        return None;
    }
    let mut v: Vec<char> = Vec::new();
    v.push(x as char);
    v.push(y as char);
    assert(v@ =~= seq![x as char, y as char]);
    assert(v@.subrange(0, 2) =~= v@);
    match parse_radix(&v, 0, 2, 16, 255) {
        Some(n) => Some(n as u8),
        None => None,
    }
}

/// URL decoding: `%20` and `+` become spaces.
pub fn url_decode(input: &str) -> (r: String)
    ensures
        r@ == url_decoded(input@),
{
    let bytes = input.as_bytes();
    let ghost b = bytes@;
    let mut result = String::new();
    let mut i: usize = 0;
    while i < bytes.len()
        invariant
            b == bytes@,
            b == vstd::utf8::encode_utf8(input@),
            i <= bytes@.len(),
            result@ + url_decode_from(b, i as int) == url_decode_from(b, 0),
        decreases bytes.len() - i,
    {
        let ghost before = result@;
        if bytes[i] == 43 {
            push_char(&mut result, ' ');
            assert(result@ + url_decode_from(b, i + 1) =~= before + url_decode_from(b, i as int));
            i = i + 1;
        } else if bytes[i] == 37 && bytes.len() - i > 2 {
            match hex_pair_value(bytes[i + 1], bytes[i + 2]) {
                Some(val) => {
                    push_char(&mut result, val as char);
                    assert(result@ + url_decode_from(b, i + 3) =~= before + url_decode_from(
                        b,
                        i as int,
                    ));
                    i = i + 3;
                },
                None => {
                    push_char(&mut result, bytes[i] as char);
                    assert(result@ + url_decode_from(b, i + 1) =~= before + url_decode_from(
                        b,
                        i as int,
                    ));
                    i = i + 1;
                },
            }
        } else {
            push_char(&mut result, bytes[i] as char);
            assert(result@ + url_decode_from(b, i + 1) =~= before + url_decode_from(
                b,
                i as int,
            ));
            i = i + 1;
        }
    }
    assert(result@ =~= url_decode_from(b, 0));
    result
}

/// The bounds of the value of the first `name=value` pair in `s` (pairs
/// separated by `&`) whose name is `key`.
fn lookup_pair(s: &Vec<char>, key: &Vec<char>) -> (r: Option<(usize, usize)>)
    ensures
        match r {
            Some((a, b)) => a <= b <= s@.len() && first_value(split_char(s@, '&'), key@) == Some(
                s@.subrange(a as int, b as int),
            ),
            None => first_value(split_char(s@, '&'), key@) is None,
        },
{
    let mut start: usize = 0;
    assert(s@.subrange(0, s@.len() as int) =~= s@);
    loop
        invariant
            start <= s@.len(),
            first_value(split_char(s@, '&'), key@) == first_value(
                split_char(s@.subrange(start as int, s@.len() as int), '&'),
                key@,
            ),
        decreases s@.len() - start,
    {
        let ghost rest = s@.subrange(start as int, s@.len() as int);
        let end = match find_char_in(s, '&', start, s.len()) {
            Some(e) => e,
            None => s.len(),
        };
        let ghost piece = s@.subrange(start as int, end as int);
        proof {
            lemma_index_of_char(rest, '&');
            if end < s@.len() {
                assert(rest.subrange(0, end - start) =~= piece);
                assert(rest.subrange(end - start + 1, rest.len() as int) =~= s@.subrange(
                    end + 1,
                    s@.len() as int,
                ));
                assert(split_char(rest, '&')[0] == piece);
                assert(split_char(rest, '&').drop_first() =~= split_char(
                    s@.subrange(end + 1, s@.len() as int),
                    '&',
                ));
            } else {
                assert(piece =~= rest);
                assert(split_char(rest, '&') =~= seq![piece]);
                assert(split_char(rest, '&').drop_first() =~= Seq::<Seq<char>>::empty());
            }
        }
        let eq = find_char_in(s, '=', start, end);
        let key_end = match eq {
            Some(q) => q,
            None => end,
        };
        proof {
            lemma_index_of_char(piece, '=');
            if let Some(q) = eq {
                assert(piece.subrange(0, q - start) =~= s@.subrange(start as int, q as int));
                assert(piece.subrange(q - start + 1, piece.len() as int) =~= s@.subrange(
                    q + 1,
                    end as int,
                ));
            }
        }
        assert(pair_key(piece) == s@.subrange(start as int, key_end as int));
        assert(first_value(split_char(rest, '&'), key@) == if pair_key(piece) == key@ {
            Some(pair_value(piece))
        } else {
            first_value(split_char(rest, '&').drop_first(), key@)
        });
        if range_eq(s, start, key_end, key) {
            match eq {
                Some(q) => {
                    return Some((q + 1, end));
                },
                None => {
                    assert(s@.subrange(end as int, end as int) =~= Seq::<char>::empty());
                    return Some((end, end));
                },
            }
        }
        if end == s.len() {
            return None;
        }
        start = end + 1;
    }
}

impl Request {
    /// An empty `GET` request that keeps the connection alive.
    pub fn new() -> (r: Self)
        ensures
            r@ == (
                Method::GET,
                Seq::<char>::empty(),
                Seq::<char>::empty(),
                Seq::<(Seq<char>, Seq<char>)>::empty(),
                Seq::<u8>::empty(),
                true,
                false,
            ),
    {
        let r = Request {
            method: Method::GET,
            path: String::new(),
            query: String::new(),
            headers: Vec::new(),
            body: Vec::new(),
            keep_alive: true,
            chunked: false,
        };
        assert(pair_views(r.headers@) =~= Seq::<(Seq<char>, Seq<char>)>::empty());
        r
    }

    /// The value of the first query parameter named `key`.
    pub fn query(&self, key: &str) -> (r: Option<&str>)
        ensures
            self.query@.len() == 0 ==> r is None,
            self.query@.len() > 0 ==> match r {
                Some(v) => first_value(split_char(self.query@, '&'), key@) == Some(v@),
                None => first_value(split_char(self.query@, '&'), key@) is None,
            },
    {
        let q = chars_of(self.query.as_str());
        if q.len() == 0 {
            return None;
        }
        let k = chars_of(key);
        match lookup_pair(&q, &k) {
            Some((a, b)) => Some(self.query.as_str().substring_char(a, b)),
            None => None,
        }
    }

    /// All query parameters with a non-empty name.
    pub fn query_all(&self) -> (r: StrMap<String>)
        ensures
            text_values(r.view()) == pairs_map(split_char(self.query@, '&')),
    {
        let q = chars_of(self.query.as_str());
        if q.len() == 0 {
            let map: StrMap<String> = StrMap::new();
            proof {
                lemma_index_of_char(q@, '&');
                lemma_index_of_char(q@, '=');
                assert(split_char(q@, '&') =~= seq![q@]);
                assert(split_char(q@, '&').drop_last() =~= Seq::<Seq<char>>::empty());
                assert(pair_key(q@).len() == 0);
                let sp = split_char(q@, '&');
                assert(sp.last() == q@);
                assert(pairs_map_with(sp.drop_last(), false) =~= Map::<Seq<char>, Seq<char>>::empty());
                assert(pairs_map_with(sp, false) =~= Map::<Seq<char>, Seq<char>>::empty());
            }
            assert(text_values(map.view()) =~= Map::<Seq<char>, Seq<char>>::empty());
            return map;
        }
        let pieces = split_chars(&q, '&');
        collect_pairs(&pieces, false)
    }

    /// Whether some `Content-Type` header mentions `application/json`.
    pub fn is_json(&self) -> (r: bool)
        ensures
            r == exists|i: int|
                0 <= i < self.headers@.len() && eq_ignore_case(
                    #[trigger] self.headers@[i].0@,
                    "content-type"@,
                ) && spec_find(unicode_lower(self.headers@[i].1@), "application/json"@) is Some,
    {
        self.has_content_type("application/json")
    }

    /// Whether some `Content-Type` header mentions
    /// `application/x-www-form-urlencoded`.
    pub fn is_form(&self) -> (r: bool)
        ensures
            r == exists|i: int|
                0 <= i < self.headers@.len() && eq_ignore_case(
                    #[trigger] self.headers@[i].0@,
                    "content-type"@,
                ) && spec_find(
                    unicode_lower(self.headers@[i].1@),
                    "application/x-www-form-urlencoded"@,
                ) is Some,
    {
        self.has_content_type("application/x-www-form-urlencoded")
    }

    /// Whether some `Content-Type` header, lowercased, contains `kind`.
    fn has_content_type(&self, kind: &str) -> (r: bool)
        ensures
            r == exists|i: int|
                0 <= i < self.headers@.len() && eq_ignore_case(
                    #[trigger] self.headers@[i].0@,
                    "content-type"@,
                ) && spec_find(unicode_lower(self.headers@[i].1@), kind@) is Some,
    {
        let ct = chars_of("content-type");
        let kc = chars_of(kind);
        let mut i: usize = 0;
        while i < self.headers.len()
            invariant
                i <= self.headers@.len(),
                ct@ == "content-type"@,
                kc@ == kind@,
                forall|j: int|
                    0 <= j < i ==> !(eq_ignore_case(#[trigger] self.headers@[j].0@, "content-type"@)
                        && spec_find(unicode_lower(self.headers@[j].1@), kind@) is Some),
            decreases self.headers.len() - i,
        {
            let name = chars_of(self.headers[i].0.as_str());
            if eq_ignore_ascii_case(&name, &ct) {
                let lower = to_lowercase(self.headers[i].1.as_str());
                let lc = chars_of(lower.as_str());
                if find_chars(&lc, &kc).is_some() {
                    return true;
                }
            }
            i = i + 1;
        }
        false
    }

    /// The URL-decoded value of the first form field named `key`; `None`
    /// when the body is not UTF-8 or has no such field.
    pub fn form(&self, key: &str) -> (r: Option<String>)
        ensures
            !vstd::utf8::valid_utf8(self.body@) ==> r is None,
            vstd::utf8::valid_utf8(self.body@) ==> match r {
                Some(v) => exists|raw: Seq<char>|
                    first_value(
                        split_char(vstd::utf8::decode_utf8(self.body@), '&'),
                        key@,
                    ) == Some(raw) && v@ == url_decoded(raw),
                None => first_value(
                    split_char(vstd::utf8::decode_utf8(self.body@), '&'),
                    key@,
                ) is None,
            },
    {
        let body_str = match utf8_str(self.body.as_slice()) {
            Some(s) => s,
            None => return None,
        };
        let b = chars_of(body_str);
        let k = chars_of(key);
        match lookup_pair(&b, &k) {
            Some((a, e)) => {
                let raw = body_str.substring_char(a, e);
                Some(url_decode(raw))
            },
            None => None,
        }
    }

    /// All form fields with a non-empty name, URL-decoded; empty when the
    /// body is not UTF-8.
    pub fn form_all(&self) -> (r: StrMap<String>)
        ensures
            !vstd::utf8::valid_utf8(self.body@) ==> r.view() == Map::<Seq<char>, String>::empty(),
            vstd::utf8::valid_utf8(self.body@) ==> text_values(r.view()) == pairs_map_decoded(
                split_char(vstd::utf8::decode_utf8(self.body@), '&'),
            ),
    {
        let body_str = match utf8_str(self.body.as_slice()) {
            Some(s) => s,
            None => return StrMap::new(),
        };
        let q = chars_of(body_str);
        let pieces = split_chars(&q, '&');
        collect_pairs(&pieces, true)
    }
}

/// The request view with its body replaced by `b`.
pub open spec fn with_body(v: RequestView, b: Seq<u8>) -> RequestView {
    (v.0, v.1, v.2, v.3, b, v.5, v.6)
}

/// The first position of byte `b` in `data[from..]`, counted from `from`.
fn find_byte_from(data: &Vec<u8>, b: u8, from: usize) -> (r: Option<usize>)
    requires
        from <= data.len(),
    ensures
        match r {
            Some(k) => index_of_byte(data@.subrange(from as int, data@.len() as int), b) == Some(
                k as int,
            ),
            None => index_of_byte(data@.subrange(from as int, data@.len() as int), b) is None,
        },
{
    let ghost sub = data@.subrange(from as int, data@.len() as int);
    proof {
        lemma_index_of_byte(sub, b);
    }
    let mut i = from;
    while i < data.len()
        invariant
            from <= i <= data.len(),
            sub == data@.subrange(from as int, data@.len() as int),
            forall|j: int| from <= j < i ==> data@[j] != b,
        decreases data.len() - i,
    {
        if data[i] == b {
            proof {
                lemma_index_of_byte(sub, b);
                assert(sub[i - from] == b);
                if let Some(k) = index_of_byte(sub, b) {
                    assert(sub[k] == data@[from + k]);
                }
            }
            return Some(i - from);
        }
        i = i + 1;
    }
    proof {
        if let Some(k) = index_of_byte(sub, b) {
            assert(sub[k] == data@[from + k]);
        }
    }
    None
}

/// Skips one `\r` and then one `\n` at `pos`, each only if present.
fn skip_crlf_at(data: &Vec<u8>, pos: usize) -> (r: usize)
    requires
        pos <= data.len(),
    ensures
        r == skip_crlf(data@, pos as int),
        pos <= r <= data.len(),
{
    let mut p = pos;
    if p < data.len() && data[p] == 13 {
        p = p + 1;
    }
    if p < data.len() && data[p] == 10 {
        p = p + 1;
    }
    p
}

/// The chunk size named by the line `data[from..to]`.
fn chunk_size_at(data: &Vec<u8>, from: usize, to: usize) -> (r: Option<usize>)
    requires
        from <= to <= data.len(),
    ensures
        match r {
            Some(n) => chunk_size_of(data@.subrange(from as int, to as int)) == Some(n as nat),
            None => chunk_size_of(data@.subrange(from as int, to as int)) is None,
        },
{
    let ghost line = data@.subrange(from as int, to as int);
    let mut cs: Vec<char> = Vec::new();
    let mut i = from;
    while i < to
        invariant
            from <= i <= to <= data.len(),
            line == data@.subrange(from as int, to as int),
            all_ascii(line.subrange(0, i - from)),
            cs@ == byte_chars(line.subrange(0, i - from)),
        decreases to - i,
    {
        if data[i] >= 128 {
            assert(line[i - from] == data@[i as int]);
            return None;
        }
        cs.push(data[i] as char);
        i = i + 1;
        assert(cs@ =~= byte_chars(line.subrange(0, i - from)));
    }
    assert(line.subrange(0, to - from) =~= line);
    let t = crate::text::trim_end_matches_char(&cs, '\r');
    assert(t@.subrange(0, t@.len() as int) =~= t@);
    match parse_radix(&t, 0, t.len(), 16, usize::MAX as u64) {
        Some(n) => Some(n as usize),
        None => None,
    }
}

/// The request in `buf` whose head the head parser reported as `head`: the
/// head is consumed, and so is the body once it has fully arrived.
pub fn request_from_head(head: HeadParse, buf: &mut IoBuffer) -> (r: Result<Option<Request>, u16>)
    requires
        head matches HeadParse::Complete { len, .. } ==> len <= old(buf)@.len(),
    ensures
        match (r, request_outcome(head_view(head), old(buf)@).0) {
            (Ok(Some(req)), Ok(Some(v))) => req@ == v,
            (Ok(None), Ok(None)) => true,
            (Err(a), Err(b)) => a == b,
            _ => false,
        },
        final(buf)@ == request_outcome(head_view(head), old(buf)@).1,
{
    match head {
        HeadParse::Invalid => Err(400),
        HeadParse::Partial => Ok(None),
        HeadParse::Complete { len, method, path, headers } => {
            let m = match Method::from_str(method.as_str()) {
                Some(m) => m,
                None => return Err(400),
            };
            let ghost hs = raw_header_views(headers@);
            let ghost dh = decoded_headers(hs);
            let mut request = Request::new();
            request.method = m;
            let pc = chars_of(path.as_str());
            proof {
                lemma_index_of_char(pc@, '?');
            }
            match find_char(&pc, '?') {
                Some(q) => {
                    assert(q < pc.len());
                    request.path = string_from_range(&pc, 0, q);
                    request.query = string_from_range(&pc, q + 1, pc.len());
                },
                None => {
                    request.path = string_from_range(&pc, 0, pc.len());
                    assert(pc@.subrange(0, pc@.len() as int) =~= pc@);
                },
            }
            let conn = chars_of("connection");
            let ka = chars_of("keep-alive");
            let te = chars_of("transfer-encoding");
            let ch = chars_of("chunked");
            let mut i: usize = 0;
            assert(pair_views(request.headers@) =~= dh.take(0));
            while i < headers.len()
                invariant
                    i <= headers@.len(),
                    hs == raw_header_views(headers@),
                    dh == decoded_headers(hs),
                    conn@ == "connection"@,
                    ka@ == "keep-alive"@,
                    te@ == "transfer-encoding"@,
                    ch@ == "chunked"@,
                    pair_views(request.headers@) == dh.take(i as int),
                    request.keep_alive == keep_alive_of(dh.take(i as int)),
                    request.chunked == chunked_of(dh.take(i as int)),
                    request.method == m,
                    request.body@ == Seq::<u8>::empty(),
                    request.path@ == target_split(path@).0,
                    request.query@ == target_split(path@).1,
                decreases headers.len() - i,
            {
                let key = headers[i].0.clone();
                let value = lossy_string(headers[i].1.as_slice());
                let kc = chars_of(key.as_str());
                let vc = chars_of(value.as_str());
                let ghost prev = dh.take(i as int);
                let ghost next = dh.take(i + 1);
                assert(next.drop_last() =~= prev);
                assert(next.last() == (key@, value@));
                if eq_ignore_ascii_case(&kc, &conn) {
                    request.keep_alive = eq_ignore_ascii_case(&vc, &ka);
                }
                let is_te = eq_ignore_ascii_case(&kc, &te) && eq_ignore_ascii_case(&vc, &ch);
                if is_te {
                    request.chunked = true;
                }
                proof {
                    assert(next[i as int] == (key@, value@));
                    assert(is_te == (eq_ignore_case(next[i as int].0, "transfer-encoding"@)
                        && eq_ignore_case(next[i as int].1, "chunked"@)));
                    if chunked_of(next) {
                        let w = choose|w: int|
                            0 <= w < next.len() && eq_ignore_case(
                                #[trigger] next[w].0,
                                "transfer-encoding"@,
                            ) && eq_ignore_case(next[w].1, "chunked"@);
                        if w < i {
                            assert(prev[w] == next[w]);
                            assert(eq_ignore_case(prev[w].0, "transfer-encoding"@));
                        }
                    }
                    if chunked_of(prev) {
                        let w = choose|w: int|
                            0 <= w < prev.len() && eq_ignore_case(
                                #[trigger] prev[w].0,
                                "transfer-encoding"@,
                            ) && eq_ignore_case(prev[w].1, "chunked"@);
                        assert(prev[w] == next[w]);
                        assert(eq_ignore_case(next[w].0, "transfer-encoding"@));
                    }
                    if is_te {
                        assert(eq_ignore_case(next[i as int].0, "transfer-encoding"@));
                    }
                    assert(chunked_of(next) == (chunked_of(prev) || is_te));
                }
                let ghost hv = pair_views(request.headers@);
                request.headers.push((key, value));
                assert(pair_views(request.headers@) =~= hv.push(next.last()));
                assert(pair_views(request.headers@) =~= next);
                i = i + 1;
            }
            assert(dh.take(headers@.len() as int) =~= dh);
            buf.advance(len);
            if request.chunked {
                match request.parse_chunked_body(buf) {
                    Ok(()) => {},
                    Err(e) => return Err(e),
                }
            } else {
                match request.parse_normal_body(buf) {
                    Ok(()) => {},
                    Err(e) => return Err(e),
                }
            }
            Ok(Some(request))
        },
    }
}

impl Request {
    /// Parses one request from the front of `buf`: `Ok(None)` when the head is
    /// not complete yet, `Err(400)` for a malformed request. The head is
    /// consumed, and so is the body once it has fully arrived.
    pub fn parse(buf: &mut IoBuffer) -> (r: Result<Option<Self>, u16>)
        ensures
            match (r, parse_outcome(old(buf)@).0) {
                (Ok(Some(req)), Ok(Some(v))) => req@ == v,
                (Ok(None), Ok(None)) => true,
                (Err(a), Err(b)) => a == b,
                _ => false,
            },
            final(buf)@ == parse_outcome(old(buf)@).1,
    {
        let head = parse_head(buf.as_slice(), MAX_HEADERS);
        request_from_head(head, buf)
    }

    /// Reads a body of `Content-Length` bytes when all of them have arrived.
    fn parse_normal_body(&mut self, buf: &mut IoBuffer) -> (r: Result<(), u16>)
        ensures
            r is Ok,
            ({
                let cl = content_length_of(pair_views(old(self).headers@));
                if cl > 0 && old(buf)@.len() >= cl {
                    &&& final(self)@ == with_body(old(self)@, old(buf)@.subrange(0, cl as int))
                    &&& final(buf)@ == old(buf)@.subrange(cl as int, old(buf)@.len() as int)
                } else {
                    &&& final(self)@ == old(self)@
                    &&& final(buf)@ == old(buf)@
                }
            }),
    {
        let ghost hv = pair_views(self.headers@);
        let cl_name = chars_of("content-length");
        let mut i: usize = 0;
        assert(hv.skip(0) =~= hv);
        while i < self.headers.len()
            invariant
                i <= self.headers@.len(),
                hv == pair_views(self.headers@),
                cl_name@ == "content-length"@,
                content_length_of(hv) == content_length_of(hv.skip(i as int)),
            ensures
                i <= self.headers@.len(),
                hv == pair_views(self.headers@),
                content_length_of(hv) == content_length_of(hv.skip(i as int)),
                i < self.headers@.len() ==> eq_ignore_case(hv[i as int].0, "content-length"@),
            decreases self.headers.len() - i,
        {
            let kc = chars_of(self.headers[i].0.as_str());
            assert(kc@ == hv[i as int].0);
            assert(hv.skip(i as int)[0] == hv[i as int]);
            if eq_ignore_ascii_case(&kc, &cl_name) {
                break;
            }
            assert(hv.skip(i as int).drop_first() =~= hv.skip(i + 1));
            i = i + 1;
        }
        let mut content_length: usize = 0;
        if i < self.headers.len() {
            let vc = chars_of(self.headers[i].1.as_str());
            assert(vc@.subrange(0, vc@.len() as int) =~= vc@);
            assert(hv.skip(i as int)[0] == hv[i as int]);
            assert(vc@ == hv[i as int].1);
            match parse_radix(&vc, 0, vc.len(), 10, usize::MAX as u64) {
                Some(n) => {
                    content_length = n as usize;
                },
                None => {},
            }
        } else {
            assert(hv.skip(i as int) =~= Seq::<(Seq<char>, Seq<char>)>::empty());
        }
        assert(content_length == content_length_of(hv));
        if content_length > 0 && buf.len() >= content_length {
            let whole = buf.to_vec();
            let mut body: Vec<u8> = Vec::new();
            let mut j: usize = 0;
            while j < content_length
                invariant
                    j <= content_length <= whole@.len(),
                    body@ == whole@.subrange(0, j as int),
                decreases content_length - j,
            {
                body.push(whole[j]);
                j = j + 1;
                assert(body@ =~= whole@.subrange(0, j as int));
            }
            self.body = body;
            buf.advance(content_length);
        }
        Ok(())
    }

    /// Reads a chunked body once its last chunk has arrived; a malformed
    /// chunk is `Err(400)`.
    fn parse_chunked_body(&mut self, buf: &mut IoBuffer) -> (r: Result<(), u16>)
        ensures
            match chunks_from(old(buf)@, 0, Seq::empty()) {
                None => r == Err::<(), u16>(400) && final(self)@ == old(self)@ && final(buf)@ == old(
                    buf,
                )@,
                Some(None) => r is Ok && final(self)@ == old(self)@ && final(buf)@ == old(buf)@,
                Some(Some((n, body))) => {
                    &&& r is Ok
                    &&& n <= old(buf)@.len()
                    &&& final(self)@ == with_body(old(self)@, body)
                    &&& final(buf)@ == old(buf)@.subrange(n as int, old(buf)@.len() as int)
                },
            },
    {
        let data = buf.to_vec();
        let mut body: Vec<u8> = Vec::new();
        let mut pos: usize = 0;
        loop
            invariant
                data@ == buf@,
                buf@ == old(buf)@,
                self@ == old(self)@,
                pos <= data@.len(),
                chunks_from(data@, 0, Seq::empty()) == chunks_from(data@, pos as int, body@),
            decreases data@.len() - pos,
        {
            if pos >= data.len() {
                assert(chunks_from(data@, pos as int, body@) == Some(None::<(nat, Seq<u8>)>));
                return Ok(());
            }
            let nl = match find_byte_from(&data, 10, pos) {
                Some(k) => k,
                None => {
                    assert(chunks_from(data@, pos as int, body@) is None);
                    return Err(400);
                },
            };
            proof {
                lemma_index_of_byte(data@.subrange(pos as int, data@.len() as int), 10);
            }
            let size = match chunk_size_at(&data, pos, pos + nl) {
                Some(n) => n,
                None => {
                    assert(chunks_from(data@, pos as int, body@) is None);
                    return Err(400);
                },
            };
            let p = pos + nl + 1;
            if size == 0 {
                let end = skip_crlf_at(&data, p);
                buf.advance(end);
                self.body = body;
                return Ok(());
            }
            if size > data.len() - p || data.len() - p - size < 2 {
                assert(chunks_from(data@, pos as int, body@) == Some(None::<(nat, Seq<u8>)>));
                return Ok(());
            }
            let end = p + size;
            let mut j = p;
            let ghost before = body@;
            while j < end
                invariant
                    p <= j <= end <= data@.len(),
                    end == p + size,
                    body@ == before + data@.subrange(p as int, j as int),
                decreases end - j,
            {
                body.push(data[j]);
                j = j + 1;
                assert(body@ =~= before + data@.subrange(p as int, j as int));
            }
            pos = skip_crlf_at(&data, end);
        }
    }
}

impl Default for Request {
    fn default() -> (r: Self)
        ensures
            r@ == (
                Method::GET,
                Seq::<char>::empty(),
                Seq::<char>::empty(),
                Seq::<(Seq<char>, Seq<char>)>::empty(),
                Seq::<u8>::empty(),
                true,
                false,
            ),
    {
        Self::new()
    }
}

/// The name and value of a `name=value` pair, as strings.
fn split_once_pair(p: &Vec<char>) -> (r: (String, String))
    ensures
        r.0@ == pair_key(p@),
        r.1@ == pair_value(p@),
{
    proof {
        lemma_index_of_char(p@, '=');
    }
    match find_char(p, '=') {
        Some(q) => (string_from_range(p, 0, q), string_from_range(p, q + 1, p.len())),
        None => {
            assert(p@.subrange(0, p@.len() as int) =~= p@);
            (string_from_range(p, 0, p.len()), String::new())
        },
    }
}

} // verus!
