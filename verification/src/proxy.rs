//! Reverse proxy: the request to send upstream, and the response made of
//! the upstream's reply.
use vstd::prelude::*;
use crate::http::method::method_name;
use crate::http::parser::pair_views;
use crate::http::{Request, Response};
use crate::num::{dec_repr, parse_decimal, parse_unsigned, u64_to_string};
use crate::text::{
    chars_of, copy_range, has_prefix, is_whitespace, is_ws, lines, lines_of, lossy_string, push_chars,
    push_str, split_once, split_once_char, string_from_chars, trim_end_char,
    trim_end_matches_char, trim_start, trim_start_str, trim_start_text, utf8_lossy, views,
};

verus! {

/// Requests whose path starts with `prefix` go to `target`.
#[derive(Clone)]
pub struct ProxyRule {
    pub prefix: String,
    pub target: String,
}

/// The path sent upstream: the request's path without the route prefix,
/// `/` if nothing is left; the whole path when it lacks the prefix.
pub open spec fn proxied_path(path: Seq<char>, prefix: Seq<char>) -> Seq<char> {
    if has_prefix(path, prefix) {
        let p = path.subrange(prefix.len() as int, path.len() as int);
        if p.len() == 0 {
            "/"@
        } else {
            p
        }
    } else {
        path
    }
}

/// The query part sent upstream: `?query`, or nothing.
pub open spec fn query_suffix(q: Seq<char>) -> Seq<char> {
    if q.len() == 0 {
        Seq::empty()
    } else {
        "?"@ + q
    }
}

/// The target without trailing slashes and without leading `http://` and
/// then `https://` prefixes.
pub open spec fn bare_target(target: Seq<char>) -> Seq<char> {
    trim_start_str(trim_start_str(trim_end_char(target, '/'), "http://"@), "https://"@)
}

/// The upstream host and port: split at the first `:`, the port read as a
/// number (80 when it is not one); port 80 when there is no `:`.
pub open spec fn host_port(t: Seq<char>) -> (Seq<char>, u16) {
    match split_once_char(t, ':') {
        (h, Some(p)) => (
            h,
            match parse_unsigned(p, 10, 65535) {
                Some(n) => n as u16,
                None => 80,
            },
        ),
        (_, None) => (t, 80),
    }
}

/// The request sent upstream.
pub open spec fn upstream_request(
    method: Seq<char>,
    path: Seq<char>,
    query: Seq<char>,
    host: Seq<char>,
) -> Seq<char> {
    method + " "@ + path + query_suffix(query) + " HTTP/1.1\r\nHost: "@ + host
        + "\r\nConnection: close\r\nUser-Agent: TezWeb-Proxy/0.1\r\n\r\n"@
}

/// Where and what to send upstream.
pub struct ProxyPlan {
    /// `host:port`.
    pub addr: String,
    pub host: String,
    pub port: u16,
    /// The path sent, without the query.
    pub path: String,
    /// The whole request text.
    pub request: String,
}

/// The plan for forwarding `req` to `target`, stripping `prefix`.
pub fn plan_proxy(req: &Request, target: &str, prefix: &str) -> (r: ProxyPlan)
    ensures
        ({
            let hp = host_port(bare_target(target@));
            &&& r.host@ == hp.0
            &&& r.port == hp.1
            &&& r.addr@ == hp.0 + ":"@ + dec_repr(hp.1 as nat)
            &&& r.path@ == proxied_path(req.path@, prefix@)
            &&& r.request@ == upstream_request(
                method_name(req.method),
                proxied_path(req.path@, prefix@),
                req.query@,
                hp.0,
            )
        }),
{
    let t0 = trim_end_matches_char(&chars_of(target), '/');
    let t1 = trim_start_text(&t0, &chars_of("http://"));
    let t2 = trim_start_text(&t1, &chars_of("https://"));
    let (h, rest) = split_once(&t2, ':');
    let (host, port) = match rest {
        Some(p) => {
            let n = p.len();
            assert(p@.subrange(0, n as int) =~= p@);
            let port: u16 = match parse_decimal(&p, 0, n, 65535) {
                Some(v) => v as u16,
                None => 80,
            };
            (h, port)
        },
        None => (t2, 80u16),
    };
    let path_chars = chars_of(req.path.as_str());
    let pre = chars_of(prefix);
    let path = if pre.len() <= path_chars.len() && crate::text::range_eq(
        &path_chars,
        0,
        pre.len(),
        &pre,
    ) {
        let p = copy_range(&path_chars, pre.len(), path_chars.len());
        if p.len() == 0 {
            chars_of("/")
        } else {
            p
        }
    } else {
        path_chars
    };
    let mut addr = String::new();
    push_chars(&mut addr, &host);
    push_str(&mut addr, ":");
    push_str(&mut addr, u64_to_string(port as u64).as_str());
    let mut request = String::new();
    push_str(&mut request, req.method.as_str());
    push_str(&mut request, " ");
    push_chars(&mut request, &path);
    if req.query.as_str().unicode_len() > 0 {
        push_str(&mut request, "?");
        push_str(&mut request, req.query.as_str());
    }
    push_str(&mut request, " HTTP/1.1\r\nHost: ");
    push_chars(&mut request, &host);
    push_str(&mut request, "\r\nConnection: close\r\nUser-Agent: TezWeb-Proxy/0.1\r\n\r\n");
    ProxyPlan {
        addr,
        host: string_from_chars(&host),
        port,
        path: string_from_chars(&path),
        request,
    }
}

// ───────────────────────── reading the reply ─────────────────────────

/// The length of the run of non-whitespace characters at the start of `s`.
pub open spec fn word_len(s: Seq<char>) -> nat
    decreases s.len(),
{
    if s.len() > 0 && !is_ws(s[0]) {
        1 + word_len(s.skip(1))
    } else {
        0
    }
}

/// The second whitespace-separated word of `s` (`split_whitespace().nth(1)`).
pub open spec fn second_word(s: Seq<char>) -> Option<Seq<char>> {
    let s1 = trim_start(s);
    let s2 = trim_start(s1.subrange(word_len(s1) as int, s1.len() as int));
    if s1.len() == 0 || s2.len() == 0 {
        None
    } else {
        Some(s2.subrange(0, word_len(s2) as int))
    }
}

/// The status of an upstream reply: the second word of its first line,
/// read as a number; 200 when there is none.
pub open spec fn reply_status(text: Seq<char>) -> u16 {
    let ls = lines_of(text);
    if ls.len() == 0 {
        200
    } else {
        match second_word(ls[0]) {
            Some(w) => match parse_unsigned(w, 10, 65535) {
                Some(n) => n as u16,
                None => 200,
            },
            None => 200,
        }
    }
}

/// Whether `b` holds `\r\n\r\n` at position `i`.
pub open spec fn blank_line_at(b: Seq<u8>, i: int) -> bool {
    0 <= i && i + 4 <= b.len() && b[i] == 13 && b[i + 1] == 10 && b[i + 2] == 13 && b[i + 3] == 10
}

/// Where an upstream reply's body starts: after the first `\r\n\r\n`, or
/// at the beginning when there is none.
pub open spec fn body_start(b: Seq<u8>) -> int {
    if exists|i: int| blank_line_at(b, i) {
        (choose|i: int| blank_line_at(b, i) && forall|j: int| 0 <= j < i ==> !blank_line_at(b, j))
            + 4
    } else {
        0
    }
}

/// The length of the word at the start of `v[from..]`.
fn word_end(v: &Vec<char>, from: usize) -> (r: usize)
    requires
        from <= v.len(),
    ensures
        from <= r <= v.len(),
        r - from == word_len(v@.subrange(from as int, v@.len() as int)),
{
    let mut i = from;
    while i < v.len() && !is_whitespace(v[i])
        invariant
            from <= i <= v.len(),
            word_len(v@.subrange(from as int, v@.len() as int)) == (i - from) + word_len(
                v@.subrange(i as int, v@.len() as int),
            ),
        decreases v.len() - i,
    {
        assert(v@.subrange(i as int, v@.len() as int).skip(1) =~= v@.subrange(
            i + 1,
            v@.len() as int,
        ));
        i = i + 1;
    }
    i
}

/// The first position at or after `from` that is not whitespace.
fn skip_ws(v: &Vec<char>, from: usize) -> (r: usize)
    requires
        from <= v.len(),
    ensures
        from <= r <= v.len(),
        v@.subrange(r as int, v@.len() as int) == trim_start(
            v@.subrange(from as int, v@.len() as int),
        ),
{
    let mut i = from;
    while i < v.len() && is_whitespace(v[i])
        invariant
            from <= i <= v.len(),
            trim_start(v@.subrange(from as int, v@.len() as int)) == trim_start(
                v@.subrange(i as int, v@.len() as int),
            ),
        decreases v.len() - i,
    {
        assert(v@.subrange(i as int, v@.len() as int).drop_first() =~= v@.subrange(
            i + 1,
            v@.len() as int,
        ));
        i = i + 1;
    }
    i
}

/// The status named on a reply's first line.
fn status_of(text: &Vec<char>) -> (r: u16)
    ensures
        r == reply_status(text@),
{
    let ls = lines(text);
    if ls.len() == 0 {
        return 200;
    }
    assert(views(ls@)[0] == ls@[0]@);
    let line = &ls[0];
    let a = skip_ws(line, 0);
    let b = word_end(line, a);
    let c = skip_ws(line, b);
    let d = word_end(line, c);
    let ghost s1 = line@.subrange(a as int, line@.len() as int);
    let ghost s2 = line@.subrange(c as int, line@.len() as int);
    assert(line@.subrange(0, line@.len() as int) =~= line@);
    assert(s1.subrange(word_len(s1) as int, s1.len() as int) =~= line@.subrange(
        b as int,
        line@.len() as int,
    ));
    assert(s2.subrange(0, word_len(s2) as int) =~= line@.subrange(c as int, d as int));
    if a == line.len() || c == line.len() {
        return 200;
    }
    match parse_decimal(line, c, d, 65535) {
        Some(n) => n as u16,
        None => 200,
    }
}

/// Where the body of `b` starts.
fn find_body_start(b: &[u8]) -> (r: usize)
    ensures
        r == body_start(b@),
        r <= b@.len(),
{
    let mut i: usize = 0;
    while i < b.len() && 4 <= b.len() - i
        invariant
            i <= b.len(),
            forall|j: int| 0 <= j < i ==> !blank_line_at(b@, j),
        decreases b.len() - i,
    {
        if b[i] == 13 && b[i + 1] == 10 && b[i + 2] == 13 && b[i + 3] == 10 {
            assert(blank_line_at(b@, i as int));
            let ghost k = choose|k: int|
                blank_line_at(b@, k) && forall|j: int| 0 <= j < k ==> !blank_line_at(b@, j);
            assert(k == i) by {
                if k < i {
                    assert(!blank_line_at(b@, k));
                }
                if i < k {
                    assert(!blank_line_at(b@, i as int));
                }
            }
            return i + 4;
        }
        i = i + 1;
    }
    assert(!exists|j: int| blank_line_at(b@, j)) by {
        if exists|j: int| blank_line_at(b@, j) {
            let j = choose|j: int| blank_line_at(b@, j);
            assert(j < i);
        }
    }
    0
}

/// The response made of an upstream reply: `502` with a message when the
/// reply is empty, else the reply's status and the bytes after its header
/// block.
pub fn proxy_reply(reply: &[u8]) -> (r: Response)
    ensures
        reply@.len() == 0 ==> r.status == 502 && r.body@ == vstd::utf8::encode_utf8(
            "Proxy: empty response"@,
        ) && pair_views(r.headers@) == seq![("Content-Type"@, "text/plain"@)],
        reply@.len() > 0 ==> r.status == reply_status(utf8_lossy(reply@)) && r.body@
            == reply@.subrange(body_start(reply@), reply@.len() as int) && r.headers@.len() == 0,
        r.keep_alive,
        r.sse is None,
{
    if reply.len() == 0 {
        let r = Response::new(502).text("Proxy: empty response");
        assert(pair_views(r.headers@) =~= seq![("Content-Type"@, "text/plain"@)]);
        return r;
    }
    let text = lossy_string(reply);
    let status = status_of(&chars_of(text.as_str()));
    let start = find_body_start(reply);
    let body = bytes_from(reply, start);
    Response::new(status).body(body)
}

/// A copy of `b[start..]`.
fn bytes_from(b: &[u8], start: usize) -> (r: Vec<u8>)
    ensures
        start <= b@.len() ==> r@ == b@.subrange(start as int, b@.len() as int),
{
    let mut out: Vec<u8> = Vec::new();
    if start > b.len() {
        return out;
    }
    let mut i = start;
    while i < b.len()
        invariant
            start <= i <= b.len(),
            out@ == b@.subrange(start as int, i as int),
        decreases b.len() - i,
    {
        out.push(b[i]);
        i = i + 1;
        assert(out@ =~= b@.subrange(start as int, i as int));
    }
    out
}

} // verus!
