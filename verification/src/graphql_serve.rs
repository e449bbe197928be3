//! Serving a GraphQL request around the schema's execution: the client's
//! rate limit, the body's decoding, persisted queries, and the response
//! cache. The schema runs in between, outside this module: `graphql_prepare`
//! decides what to run or answers at once, `graphql_cached` answers from the
//! cache, and `graphql_finish` stores and answers what the schema gave.
use vstd::prelude::*;
use vstd::utf8::{decode_utf8, encode_utf8, valid_utf8};
use crate::graphql::{
    fresh_response, gql_outcome, gql_step, opt_bytes, prior_count, GraphQLConfig,
    GraphQLRateLimit, PersistedQueries, QueryCache,
};
use crate::http::parser::pair_views;
use crate::http::writer::Response;
use crate::text::{chars_eq, chars_of, push_str, to_owned_string, utf8_str};

verus! {

// ───────────────────────── the JSON body ─────────────────────────

/// What `serde_json` reads at `extensions.persistedQuery.sha256Hash` of a
/// body: the string there; none when the body is not JSON or holds no
/// string there.
pub uninterp spec fn json_persisted_hash(body: Seq<char>) -> Option<Seq<char>>;

/// Parses `body` as a `serde_json::Value` and reads the string at
/// `extensions.persistedQuery.sha256Hash` (`Index` gives `Null` on a
/// missing key, and `as_str` none on a non-string).
#[verifier::external_body]
fn persisted_hash(body: &str) -> (r: Option<String>)
    ensures
        match r {
            Some(h) => json_persisted_hash(body@) == Some(h@),
            None => json_persisted_hash(body@) is None,
        },
{
    match serde_json::from_str::<serde_json::Value>(body) {
        Ok(v) => match v["extensions"]["persistedQuery"]["sha256Hash"].as_str() {
            Some(s) => Some(s.to_string()),
            None => None,
        },
        Err(_) => None,
    }
}

/// What `serde_json::to_string` writes for the body's JSON value with its
/// `query` field set to the string `query`; none when writing fails.
pub uninterp spec fn json_with_query(body: Seq<char>, query: Seq<char>) -> Option<Seq<char>>;

/// Parses `body` as a `serde_json::Value`, sets its `query` field to the
/// string `query` (`IndexMut`), and writes it out with `serde_json::to_string`.
/// `IndexMut` panics on a value that is neither an object nor null; a body
/// with a persisted-query hash is an object, which the `requires` asks.
#[verifier::external_body]
fn with_query(body: &str, query: &str) -> (r: Option<String>)
    requires
        json_persisted_hash(body@) is Some,
    ensures
        match r {
            Some(b) => json_with_query(body@, query@) == Some(b@),
            None => json_with_query(body@, query@) is None,
        },
{
    match serde_json::from_str::<serde_json::Value>(body) {
        Ok(mut v) => {
            v["query"] = serde_json::Value::String(query.to_string());
            serde_json::to_string(&v).ok()
        },
        Err(_) => None,
    }
}

// ───────────────────────── the client ─────────────────────────

/// The client a GraphQL request is counted for: the value of its first
/// header named exactly `X-Forwarded-For`, else `unknown`.
pub open spec fn gql_client_from(h: Seq<(Seq<char>, Seq<char>)>, i: int) -> Seq<char>
    decreases h.len() - i,
{
    if i < 0 || i >= h.len() {
        "unknown"@
    } else if h[i].0 == "X-Forwarded-For"@ {
        h[i].1
    } else {
        gql_client_from(h, i + 1)
    }
}

/// The client a GraphQL request with these headers is counted for.
pub fn graphql_client(headers: &Vec<(String, String)>) -> (r: String)
    ensures
        r@ == gql_client_from(pair_views(headers@), 0),
{
    let ghost h = pair_views(headers@);
    let want = chars_of("X-Forwarded-For");
    let mut i: usize = 0;
    while i < headers.len()
        invariant
            i <= headers.len(),
            h == pair_views(headers@),
            want@ == "X-Forwarded-For"@,
            gql_client_from(h, 0) == gql_client_from(h, i as int),
        decreases headers.len() - i,
    {
        if chars_eq(&chars_of(headers[i].0.as_str()), &want) {
            return headers[i].1.clone();
        }
        i = i + 1;
    }
    to_owned_string("unknown")
}

// ───────────────────────── the plan ─────────────────────────

/// Whether the rate limit `l` lets a query from `ip` through at `now`.
pub open spec fn gql_allows(l: Option<GraphQLRateLimit>, ip: Seq<char>, now: u64) -> bool {
    match l {
        Some(l) => gql_step(prior_count(l.counts(), ip), now).0 <= l.max(),
        None => true,
    }
}

/// How counting a query from `ip` at `now` changes the rate limit: a limit
/// counts it, keeping its maximum; no limit stays none.
pub open spec fn gql_limit_after(
    before: Option<GraphQLRateLimit>,
    after: Option<GraphQLRateLimit>,
    ip: Seq<char>,
    now: u64,
) -> bool {
    match (before, after) {
        (Some(a), Some(b)) => b.max() == a.max() && gql_outcome(
            a.counts(),
            b.counts(),
            ip,
            now,
            a.max(),
            gql_allows(before, ip, now),
        ),
        (None, None) => true,
        _ => false,
    }
}

/// The body to run for the text `text` with the persisted queries `p`, and
/// whether a persisted query was put into it; none when the body names a
/// persisted query that `p` does not hold. With no store, or no hash in the
/// body, the text runs as it is; a body that cannot be written back runs
/// as it was.
pub open spec fn persisted_plan(text: Seq<char>, p: Option<PersistedQueries>) -> Option<
    (Seq<char>, bool),
> {
    match (json_persisted_hash(text), p) {
        (Some(h), Some(p)) => if p.queries().contains_key(h) {
            Some(
                (
                    match json_with_query(text, p.queries()[h]) {
                        Some(b) => b,
                        None => text,
                    },
                    true,
                ),
            )
        } else {
            None
        },
        _ => Some((text, false)),
    }
}

/// `r` is a plain-text response with `status` and `text`.
pub open spec fn is_text_response(r: Response, status: u16, text: Seq<char>) -> bool {
    &&& r.status == status
    &&& pair_views(r.headers@) == seq![("Content-Type"@, "text/plain"@)]
    &&& r.body@ == encode_utf8(text)
    &&& r.keep_alive
    &&& r.sse is None
}

/// `r` is a `200` JSON response holding `bytes`, marked `X-Cache: mark`.
pub open spec fn is_json_response(r: Response, bytes: Seq<u8>, mark: Seq<char>) -> bool {
    &&& r.status == 200
    &&& pair_views(r.headers@) == seq![
        ("Content-Type"@, "application/json"@),
        ("X-Cache"@, mark),
    ]
    &&& r.body@ == bytes
    &&& r.keep_alive
    &&& r.sse is None
}

/// What to do with a GraphQL request before the schema runs.
pub enum GqlStep {
    /// Answer with `response`; `failed` says whether the query counts as
    /// failed.
    Respond { response: Response, failed: bool },
    /// Run `body`; `persisted_hit` says whether a persisted query was put
    /// into it.
    Execute { body: String, persisted_hit: bool },
}

/// What preparing a request from `ip` with `body` at `now` does to the
/// configuration `before` and gives:
/// - the rate limit counts the query, and a refused one is answered `429`;
/// - a body that is not UTF-8 is answered `400`;
/// - a body naming a persisted query that the store lacks is answered
///   `400`, not counted as failed;
/// - anything else runs, with a stored persisted query put in.
/// Nothing else in the configuration changes.
pub open spec fn prepare_outcome(
    before: GraphQLConfig,
    after: GraphQLConfig,
    ip: Seq<char>,
    body: Seq<u8>,
    now: u64,
    r: GqlStep,
) -> bool {
    let text = decode_utf8(body);
    &&& after.max_depth == before.max_depth
    &&& after.max_complexity == before.max_complexity
    &&& after.cache == before.cache
    &&& after.persisted == before.persisted
    &&& gql_limit_after(before.rate_limit, after.rate_limit, ip, now)
    &&& if !gql_allows(before.rate_limit, ip, now) {
        r matches GqlStep::Respond { response, failed } && failed && is_text_response(
            response,
            429,
            "GraphQL rate limit exceeded"@,
        )
    } else if !valid_utf8(body) {
        r matches GqlStep::Respond { response, failed } && failed && is_text_response(
            response,
            400,
            "Invalid UTF-8"@,
        )
    } else {
        match persisted_plan(text, before.persisted) {
            Some(plan) => r matches GqlStep::Execute { body: b, persisted_hit } && b@ == plan.0
                && persisted_hit == plan.1,
            None => r matches GqlStep::Respond { response, failed } && !failed
                && is_text_response(
                response,
                400,
                "Persisted query not found: "@ + json_persisted_hash(text)->0,
            ),
        }
    }
}

/// A plain-text response with `status` and `text`.
fn text_response(status: u16, text: &str) -> (r: Response)
    ensures
        is_text_response(r, status, text@),
{
    let r = Response::new(status).text(text);
    assert(pair_views(r.headers@) =~= seq![("Content-Type"@, "text/plain"@)]);
    r
}

/// A `200` JSON response holding `bytes`, marked `X-Cache: mark`.
fn json_response(bytes: Vec<u8>, mark: &str) -> (r: Response)
    ensures
        is_json_response(r, bytes@, mark@),
{
    let r = Response::ok().header("Content-Type", "application/json").header("X-Cache", mark).body(
        bytes,
    );
    assert(pair_views(r.headers@) =~= seq![
        ("Content-Type"@, "application/json"@),
        ("X-Cache"@, mark@),
    ]);
    r
}

/// Decides, at time `now`, what to do with a GraphQL request from `ip`
/// with `body`, before the schema runs.
pub fn graphql_prepare_at(config: &mut GraphQLConfig, ip: &str, body: &[u8], now: u64) -> (r:
    GqlStep)
    ensures
        prepare_outcome(*old(config), *final(config), ip@, body@, now, r),
{
    let allowed = match config.rate_limit.take() {
        Some(l) => {
            let mut l = l;
            let a = l.check_at(ip, now);
            config.rate_limit = Some(l);
            a
        },
        None => true,
    };
    if !allowed {
        return GqlStep::Respond {
            response: text_response(429, "GraphQL rate limit exceeded"),
            failed: true,
        };
    }
    let text = match utf8_str(body) {
        Some(t) => t,
        None => {
            return GqlStep::Respond {
                response: text_response(400, "Invalid UTF-8"),
                failed: true,
            };
        },
    };
    match persisted_hash(text) {
        Some(h) => match &config.persisted {
            Some(p) => match p.get(h.as_str()) {
                Some(q) => {
                    let b = match with_query(text, q.as_str()) {
                        Some(b) => b,
                        None => to_owned_string(text),
                    };
                    GqlStep::Execute { body: b, persisted_hit: true }
                },
                None => {
                    let mut msg = String::new();
                    push_str(&mut msg, "Persisted query not found: ");
                    push_str(&mut msg, h.as_str());
                    GqlStep::Respond { response: text_response(400, msg.as_str()), failed: false }
                },
            },
            None => GqlStep::Execute { body: to_owned_string(text), persisted_hit: false },
        },
        None => GqlStep::Execute { body: to_owned_string(text), persisted_hit: false },
    }
}

/// Decides what to do with a GraphQL request from `ip` with `body` now:
/// what `graphql_prepare_at` does at the rate limit's clock reading (see
/// `GraphQLRateLimit::clock`).
pub fn graphql_prepare(config: &mut GraphQLConfig, ip: &str, body: &[u8]) -> (r: GqlStep)
    ensures
        exists|now: u64| #[trigger] prepare_outcome(*old(config), *final(config), ip@, body@, now, r),
{
    let now = match &config.rate_limit {
        Some(l) => l.clock(),
        None => 0,
    };
    let r = graphql_prepare_at(config, ip, body, now);
    assert(prepare_outcome(*old(config), *config, ip@, body@, now, r));
    r
}

// ───────────────────────── the cache ─────────────────────────

/// The response cached under `key` that is fresh at `now`, if there is a
/// cache.
pub open spec fn cache_hit(cache: Option<QueryCache>, key: Seq<char>, now: u64) -> Option<Seq<u8>> {
    match cache {
        Some(c) => fresh_response(c.entries(), c.ttl_nanos(), key, now),
        None => None,
    }
}

/// The answer from the cache at `now` for the request body `key`: a `200`
/// JSON response marked `HIT`, or none when nothing fresh is cached.
pub fn graphql_cached_at(config: &GraphQLConfig, key: &str, now: u64) -> (r: Option<Response>)
    ensures
        match cache_hit(config.cache, key@, now) {
            Some(b) => r matches Some(resp) && is_json_response(resp, b, "HIT"@),
            None => r is None,
        },
{
    match &config.cache {
        Some(c) => match c.get_at(key, now) {
            Some(bytes) => {
                proof {
                    assert(opt_bytes(Some(bytes)) == Some(bytes@));
                }
                Some(json_response(bytes, "HIT"))
            },
            None => None,
        },
        None => None,
    }
}

/// The cached answer for the request body `key` now: what
/// `graphql_cached_at` gives at the cache's clock reading (see
/// `QueryCache::clock`).
pub fn graphql_cached(config: &GraphQLConfig, key: &str) -> (r: Option<Response>)
    ensures
        exists|now: u64| #[trigger] cached_outcome(config.cache, key@, now, r),
{
    let now = match &config.cache {
        Some(c) => c.clock(),
        None => 0,
    };
    let r = graphql_cached_at(config, key, now);
    assert(cached_outcome(config.cache, key@, now, r));
    r
}

/// The cache's answer `r` for `key` at `now`.
pub open spec fn cached_outcome(cache: Option<QueryCache>, key: Seq<char>, now: u64, r: Option<
    Response,
>) -> bool {
    match cache_hit(cache, key, now) {
        Some(b) => r matches Some(resp) && is_json_response(resp, b, "HIT"@),
        None => r is None,
    }
}

// ───────────────────────── the answer ─────────────────────────

/// What answering with the schema's `serialized` response at `now` does:
/// serialized bytes are cached under `key` (when there is a cache) and
/// answered as a `200` JSON response marked `MISS`; no bytes are answered
/// `500`. Nothing else in the configuration changes.
pub open spec fn finish_outcome(
    before: GraphQLConfig,
    after: GraphQLConfig,
    key: Seq<char>,
    serialized: Option<Seq<u8>>,
    now: u64,
    r: Response,
) -> bool {
    &&& after.max_depth == before.max_depth
    &&& after.max_complexity == before.max_complexity
    &&& after.rate_limit == before.rate_limit
    &&& after.persisted == before.persisted
    &&& match serialized {
        Some(b) => {
            &&& is_json_response(r, b, "MISS"@)
            &&& match (before.cache, after.cache) {
                (Some(a), Some(c)) => c.ttl_nanos() == a.ttl_nanos() && c.entries()
                    == a.entries().insert(key, (b, now)),
                (None, None) => true,
                _ => false,
            }
        },
        None => after.cache == before.cache && is_text_response(
            r,
            500,
            "Response serialize failed"@,
        ),
    }
}

/// Answers at time `now` with the schema's response serialized to
/// `serialized` (none when serializing failed), caching it under
/// `cache_key`.
pub fn graphql_finish_at(
    config: &mut GraphQLConfig,
    cache_key: String,
    serialized: Option<Vec<u8>>,
    now: u64,
) -> (r: Response)
    ensures
        finish_outcome(*old(config), *final(config), cache_key@, opt_bytes(serialized), now, r),
{
    match serialized {
        Some(bytes) => {
            match config.cache.take() {
                Some(c) => {
                    let mut c = c;
                    c.set_at(cache_key, vstd::slice::slice_to_vec(bytes.as_slice()), now);
                    config.cache = Some(c);
                },
                None => {},
            }
            json_response(bytes, "MISS")
        },
        None => text_response(500, "Response serialize failed"),
    }
}

/// Answers now with the schema's serialized response: what
/// `graphql_finish_at` does at the cache's clock reading (see
/// `QueryCache::clock`).
pub fn graphql_finish(config: &mut GraphQLConfig, cache_key: String, serialized: Option<Vec<u8>>) -> (r:
    Response)
    ensures
        exists|now: u64| #[trigger]
            finish_outcome(*old(config), *final(config), cache_key@, opt_bytes(serialized), now, r),
{
    let now = match &config.cache {
        Some(c) => c.clock(),
        None => 0,
    };
    let ghost k = cache_key@;
    let ghost s = opt_bytes(serialized);
    let r = graphql_finish_at(config, cache_key, serialized, now);
    assert(finish_outcome(*old(config), *config, k, s, now, r));
    r
}

} // verus!
