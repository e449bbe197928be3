//! The middleware chain, and the work of the built-in middleware that
//! touches requests and responses.
use vstd::prelude::*;
use crate::http::method::{Method, method_name};
use crate::http::parser::pair_views;
use crate::http::Response;
use crate::num::{dec_repr, u64_to_string};
use crate::text::{chars_eq, chars_of, push_str, to_lowercase, unicode_lower};

verus! {

/// Middleware in the order it runs, the first outermost.
pub struct MiddlewareChain<M> {
    pub middlewares: Vec<M>,
}

impl<M> MiddlewareChain<M> {
    /// No middleware.
    pub fn new() -> (r: Self)
        ensures
            r.middlewares@ == Seq::<M>::empty(),
    {
        MiddlewareChain { middlewares: Vec::new() }
    }

    /// Adds `mw` to run inside the middleware added before it.
    pub fn add(&mut self, mw: M)
        ensures
            final(self).middlewares@ == old(self).middlewares@.push(mw),
    {
        self.middlewares.push(mw);
    }

    /// What runs at position `index` of the chain: the middleware there,
    /// or `None` when the handler itself is next.
    pub fn at(&self, index: usize) -> (r: Option<&M>)
        ensures
            match r {
                Some(m) => index < self.middlewares@.len() && *m == self.middlewares@[index as int],
                None => index >= self.middlewares@.len(),
            },
    {
        if index < self.middlewares.len() {
            Some(&self.middlewares[index])
        } else {
            None
        }
    }
}

impl<M> Default for MiddlewareChain<M> {
    fn default() -> (r: Self)
        ensures
            r.middlewares@ == Seq::<M>::empty(),
    {
        Self::new()
    }
}

/// The headers that CORS adds, for `origin`.
pub open spec fn cors_pairs(origin: Seq<char>) -> Seq<(Seq<char>, Seq<char>)> {
    seq![
        ("Access-Control-Allow-Origin"@, origin),
        ("Access-Control-Allow-Methods"@, "GET, POST, PUT, DELETE, OPTIONS"@),
        ("Access-Control-Allow-Headers"@, "Content-Type, Authorization"@),
    ]
}

/// `response` with the CORS headers for `origin` added.
pub fn add_cors_headers(response: Response, origin: &str) -> (r: Response)
    ensures
        r.status == response.status,
        r.body == response.body,
        pair_views(r.headers@) == pair_views(response.headers@) + cors_pairs(origin@),
        r.keep_alive == response.keep_alive,
        r.sse == response.sse,
{
    let r = response.header("Access-Control-Allow-Origin", origin).header(
        "Access-Control-Allow-Methods",
        "GET, POST, PUT, DELETE, OPTIONS",
    ).header("Access-Control-Allow-Headers", "Content-Type, Authorization");
    assert(pair_views(r.headers@) =~= pair_views(response.headers@) + cors_pairs(origin@));
    r
}

/// The log line for a request: `[LOG] METHOD path → status`.
pub open spec fn log_text(m: Method, path: Seq<char>, status: u16) -> Seq<char> {
    "[LOG] "@ + method_name(m) + " "@ + path + " → "@ + dec_repr(status as nat)
}

/// The log line for a request and the status it was answered with.
pub fn log_line(method: Method, path: &str, status: u16) -> (r: String)
    ensures
        r@ == log_text(method, path@, status),
{
    let mut s = String::new();
    push_str(&mut s, "[LOG] ");
    push_str(&mut s, method.as_str());
    push_str(&mut s, " ");
    push_str(&mut s, path);
    push_str(&mut s, " → ");
    push_str(&mut s, u64_to_string(status as u64).as_str());
    assert(s@ =~= log_text(method, path@, status));
    s
}

/// The rate-limit key of a request: the value of its first header named
/// `x-forwarded-for` in any case, else `global`.
pub open spec fn client_key_from(h: Seq<(Seq<char>, Seq<char>)>, i: int) -> Seq<char>
    decreases h.len() - i,
{
    if i < 0 || i >= h.len() {
        "global"@
    } else if unicode_lower(h[i].0) == "x-forwarded-for"@ {
        h[i].1
    } else {
        client_key_from(h, i + 1)
    }
}

/// The key a request is rate-limited by.
pub fn client_key(headers: &Vec<(String, String)>) -> (r: String)
    ensures
        r@ == client_key_from(pair_views(headers@), 0),
{
    let ghost h = pair_views(headers@);
    let want = chars_of("x-forwarded-for");
    let mut i: usize = 0;
    while i < headers.len()
        invariant
            i <= headers.len(),
            h == pair_views(headers@),
            want@ == "x-forwarded-for"@,
            client_key_from(h, 0) == client_key_from(h, i as int),
        decreases headers.len() - i,
    {
        let lower = to_lowercase(headers[i].0.as_str());
        if chars_eq(&chars_of(lower.as_str()), &want) {
            return headers[i].1.clone();
        }
        i = i + 1;
    }
    crate::text::to_owned_string("global")
}

/// `response` with the requests left in the client's window.
pub fn with_remaining(response: Response, remaining: u64) -> (r: Response)
    ensures
        r.status == response.status,
        r.body == response.body,
        pair_views(r.headers@) == pair_views(response.headers@).push(
            ("X-RateLimit-Remaining"@, dec_repr(remaining as nat)),
        ),
        r.keep_alive == response.keep_alive,
        r.sse == response.sse,
{
    let n = u64_to_string(remaining);
    response.header("X-RateLimit-Remaining", n.as_str())
}

/// The answer to a request over its rate limit: `429` with a message.
pub fn rate_limited() -> (r: Response)
    ensures
        r.status == 429,
        r.body@ == vstd::utf8::encode_utf8("Rate limit exceeded"@),
        r.headers@.len() == 0,
        r.keep_alive,
        r.sse is None,
{
    let body = vstd::slice::slice_to_vec("Rate limit exceeded".as_bytes());
    Response::new(429).body(body)
}

} // verus!
