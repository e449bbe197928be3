//! GraphQL serving aids: a per-client rate limit, a cache of responses by
//! request text, persisted queries by hash, and the GraphiQL page. Times
//! are nanoseconds on the monotonic clock since the limiter or cache was
//! made.
use vstd::prelude::*;
use std::hash::{Hash, Hasher};
use crate::clock::{instant_now, nanos_since};
use crate::http::parser::pair_views;
use crate::http::writer::Response;
use crate::num::{all_lower_hex, hex_chars, hex_repr, lemma_hex_repr_shape, lemma_pow16};
use crate::strmap::StrMap;
use crate::text::{string_from_chars, to_owned_string};
use vstd::string::StringSliceAdditionalSpecFns;
use vstd::utf8::encode_utf8;

verus! {

/// Nanoseconds in a minute.
pub const NANOS_PER_MINUTE: u64 = 60_000_000_000;

// ───────────────────────── rate limit ─────────────────────────

/// A client's count after one more request at `now`, when its count and
/// window start were `prior` (`None` for a new client): a window older
/// than a minute starts afresh at `now`.
pub open spec fn gql_step(prior: Option<(u64, u64)>, now: u64) -> (u64, u64) {
    let e = match prior {
        Some(e) => e,
        None => (0u64, now),
    };
    let start = if now >= e.1 && now - e.1 > NANOS_PER_MINUTE {
        (0u64, now)
    } else {
        e
    };
    (start.0.wrapping_add(1), start.1)
}

/// A client's count and window start in `counts`, or `None` for a new
/// client.
pub open spec fn prior_count(counts: Map<Seq<char>, (u64, u64)>, ip: Seq<char>) -> Option<
    (u64, u64),
> {
    if counts.contains_key(ip) {
        Some(counts[ip])
    } else {
        None
    }
}

/// What a check of `ip` at `now` does to the counts `before`: the client's
/// entry takes one more query, and it is allowed while the count is at most
/// `max`.
pub open spec fn gql_outcome(
    before: Map<Seq<char>, (u64, u64)>,
    after: Map<Seq<char>, (u64, u64)>,
    ip: Seq<char>,
    now: u64,
    max: u64,
    r: bool,
) -> bool {
    let next = gql_step(prior_count(before, ip), now);
    &&& after == before.insert(ip, next)
    &&& r == (next.0 <= max)
}

/// Allows each client `max_per_minute` queries a minute.
pub struct GraphQLRateLimit {
    requests: StrMap<(u64, u64)>,
    max_per_minute: u64,
    origin: std::time::Instant,
}

impl GraphQLRateLimit {
    /// Each client's count and window start.
    pub closed spec fn counts(&self) -> Map<Seq<char>, (u64, u64)> {
        self.requests@
    }

    /// The queries allowed a minute.
    pub closed spec fn max(&self) -> u64 {
        self.max_per_minute
    }

    /// Nanoseconds on the monotonic clock since this limit was made: the
    /// time base of `check_at`. The reading is not stated.
    pub fn clock(&self) -> u64 {
        nanos_since(&self.origin)
    }

    /// A limit of `max_per_minute` queries a minute per client.
    pub fn new(max_per_minute: u64) -> (r: Self)
        ensures
            r.counts() == Map::<Seq<char>, (u64, u64)>::empty(),
            r.max() == max_per_minute,
    {
        GraphQLRateLimit { requests: StrMap::new(), max_per_minute, origin: instant_now() }
    }

    /// Counts a query from `ip` at `now`; says whether it is allowed.
    pub fn check_at(&mut self, ip: &str, now: u64) -> (r: bool)
        ensures
            gql_outcome(old(self).counts(), final(self).counts(), ip@, now, old(self).max(), r),
            final(self).max() == old(self).max(),
    {
        let prior = match self.requests.get(ip) {
            Some(e) => *e,
            None => (0, now),
        };
        let start = if now >= prior.1 && now - prior.1 > NANOS_PER_MINUTE {
            (0, now)
        } else {
            prior
        };
        let count = start.0.wrapping_add(1);
        self.requests.insert(to_owned_string(ip), (count, start.1));
        count <= self.max_per_minute
    }

    /// Counts a query from `ip` now; says whether it is allowed: what
    /// `check_at` does at the clock's reading.
    pub fn check(&mut self, ip: &str) -> (r: bool)
        ensures
            final(self).max() == old(self).max(),
            exists|now: u64| #[trigger]
                gql_outcome(old(self).counts(), final(self).counts(), ip@, now, old(self).max(), r),
    {
        let now = self.clock();
        let r = self.check_at(ip, now);
        assert(gql_outcome(old(self).counts(), self.counts(), ip@, now, old(self).max(), r));
        r
    }
}

/// A client's count and window start after queries at the times `times`,
/// starting from `prior` (`None` for a new client).
pub open spec fn gql_after(prior: Option<(u64, u64)>, times: Seq<u64>) -> Option<(u64, u64)>
    decreases times.len(),
{
    if times.len() == 0 {
        prior
    } else {
        Some(gql_step(gql_after(prior, times.drop_last()), times.last()))
    }
}

/// Within a minute of a new client's first query, its `i`-th query is
/// counted as `i` and allowed exactly when `i <= max`: the counts after
/// queries at the times `times`, all within a minute of the first, are
/// their number, in the window that the first began.
pub proof fn lemma_gql_ith_query(times: Seq<u64>, max: u64)
    requires
        1 <= times.len() < u64::MAX,
        forall|j: int|
            0 <= j < times.len() ==> times[0] <= #[trigger] times[j] && times[j] - times[0]
                <= NANOS_PER_MINUTE,
    ensures
        gql_after(None, times) == Some((times.len() as u64, times[0])),
        (times.len() as u64 <= max) == (times.len() <= max),
    decreases times.len(),
{
    if times.len() > 1 {
        let rest = times.drop_last();
        assert forall|j: int| 0 <= j < rest.len() implies rest[0] <= #[trigger] rest[j] && rest[j]
            - rest[0] <= NANOS_PER_MINUTE by {
            assert(rest[j] == times[j]);
        }
        lemma_gql_ith_query(rest, max);
        assert(rest[0] == times[0]);
        let t = times.last();
        assert(t == times[times.len() - 1]);
        let n = (times.len() - 1) as u64;
        assert(t >= times[0] && t - times[0] <= NANOS_PER_MINUTE);
        assert(n.wrapping_add(1) == times.len() as u64);
        assert(gql_step(Some((n, times[0])), t) == (times.len() as u64, times[0]));
        assert(gql_after(None, times) == Some(gql_step(gql_after(None, rest), t)));
    } else {
        assert(times.drop_last().len() == 0);
        assert(times.last() == times[0]);
        assert(0u64.wrapping_add(1) == 1u64);
        assert(gql_step(None, times[0]) == (1u64, times[0]));
        assert(gql_after(None, times.drop_last()) is None);
        assert(gql_after(None, times) == Some(gql_step(None, times.last())));
    }
}

/// A query more than a minute after the client's window began starts a new
/// window, counted as one; other clients' counts are untouched by a check.
pub proof fn lemma_gql_new_window(
    count: u64,
    start: u64,
    now: u64,
    before: Map<Seq<char>, (u64, u64)>,
    after: Map<Seq<char>, (u64, u64)>,
    ip: Seq<char>,
    other: Seq<char>,
    max: u64,
    r: bool,
)
    requires
        now >= start,
        now - start > NANOS_PER_MINUTE,
    ensures
        gql_step(Some((count, start)), now) == (1u64, now),
        gql_outcome(before, after, ip, now, max, r) && other != ip ==> after.contains_key(other)
            == before.contains_key(other) && after[other] == before[other],
{
}

/// The counts after checks of the calls `calls` (each a client and a time),
/// in order, starting from `counts`.
pub open spec fn gql_run(counts: Map<Seq<char>, (u64, u64)>, calls: Seq<(Seq<char>, u64)>) -> Map<
    Seq<char>,
    (u64, u64),
>
    decreases calls.len(),
{
    if calls.len() == 0 {
        counts
    } else {
        let before = gql_run(counts, calls.drop_last());
        let (ip, t) = calls.last();
        before.insert(ip, gql_step(prior_count(before, ip), t))
    }
}

/// How many of the calls `calls` come from `ip`.
pub open spec fn ip_calls(calls: Seq<(Seq<char>, u64)>, ip: Seq<char>) -> nat
    decreases calls.len(),
{
    if calls.len() == 0 {
        0
    } else {
        ip_calls(calls.drop_last(), ip) + if calls.last().0 == ip {
            1nat
        } else {
            0nat
        }
    }
}

/// The time of the first of the calls `calls` from `ip` (0 when none is).
pub open spec fn ip_first(calls: Seq<(Seq<char>, u64)>, ip: Seq<char>) -> u64
    decreases calls.len(),
{
    if calls.len() == 0 {
        0
    } else if ip_calls(calls.drop_last(), ip) == 0 && calls.last().0 == ip {
        calls.last().1
    } else {
        ip_first(calls.drop_last(), ip)
    }
}

/// Every call comes no earlier than, and at most a minute after, the first
/// call from the same client.
pub open spec fn within_first_minute(calls: Seq<(Seq<char>, u64)>) -> bool
    decreases calls.len(),
{
    if calls.len() == 0 {
        true
    } else {
        let (ip, t) = calls.last();
        let first = ip_first(calls, ip);
        within_first_minute(calls.drop_last()) && first <= t && t - first <= NANOS_PER_MINUTE
    }
}

/// The limiter's law over a series of calls from several clients: when
/// every client's calls fall within a minute of its own first call, each
/// client is counted on its own, its count after the calls is how many it
/// made, in the window its first call began, and the last call is allowed
/// exactly when it is at most the `max`-th from its client. Applied to each
/// prefix (`lemma_gql_within_prefix`), the `i`-th call of a client is
/// allowed exactly when `i <= max`; a call more than a minute after the
/// window began starts a new one (`lemma_gql_new_window`).
pub proof fn lemma_gql_calls(calls: Seq<(Seq<char>, u64)>, max: u64)
    requires
        within_first_minute(calls),
        calls.len() < u64::MAX,
    ensures
        forall|ip: Seq<char>|
            #![trigger gql_run(Map::empty(), calls).contains_key(ip)]
            (ip_calls(calls, ip) > 0 ==> gql_run(Map::empty(), calls).contains_key(ip)
                && gql_run(Map::empty(), calls)[ip] == (ip_calls(calls, ip) as u64, ip_first(calls, ip)))
            && (ip_calls(calls, ip) == 0 ==> !gql_run(Map::empty(), calls).contains_key(ip)),
        calls.len() > 0 ==> ((gql_step(
            prior_count(gql_run(Map::empty(), calls.drop_last()), calls.last().0),
            calls.last().1,
        ).0 <= max) == (ip_calls(calls, calls.last().0) <= max)),
    decreases calls.len(),
{
    lemma_ip_calls_bound(calls);
    if calls.len() > 0 {
        let dl = calls.drop_last();
        lemma_gql_calls(dl, max);
        let (ip, t) = calls.last();
        let before = gql_run(Map::<Seq<char>, (u64, u64)>::empty(), dl);
        let after = gql_run(Map::<Seq<char>, (u64, u64)>::empty(), calls);
        assert(before.contains_key(ip) == (ip_calls(dl, ip) > 0));
        lemma_ip_calls_bound(dl);
        if ip_calls(dl, ip) == 0 {
            assert(prior_count(before, ip) is None);
            assert(ip_first(calls, ip) == t);
            assert(0u64.wrapping_add(1) == 1u64);
            assert(gql_step(None, t) == (1u64, t));
        } else {
            let c = ip_calls(dl, ip) as u64;
            assert(before[ip] == (c, ip_first(dl, ip)));
            assert(ip_first(calls, ip) == ip_first(dl, ip));
            assert(c < u64::MAX);
            assert(c.wrapping_add(1) == (c + 1) as u64);
            assert(gql_step(Some((c, ip_first(dl, ip))), t) == ((c + 1) as u64, ip_first(dl, ip)));
        }
        assert(after == before.insert(ip, gql_step(prior_count(before, ip), t)));
        assert forall|k: Seq<char>| #![trigger after.contains_key(k)]
            (ip_calls(calls, k) > 0 ==> after.contains_key(k) && after[k] == (
                ip_calls(calls, k) as u64,
                ip_first(calls, k),
            )) && (ip_calls(calls, k) == 0 ==> !after.contains_key(k)) by {
            assert(before.contains_key(k) == (ip_calls(dl, k) > 0));
            if k != ip {
                assert(ip_calls(calls, k) == ip_calls(dl, k));
                assert(ip_first(calls, k) == ip_first(dl, k));
            }
        }
    }
}

/// No client makes more calls than there are.
proof fn lemma_ip_calls_bound(calls: Seq<(Seq<char>, u64)>)
    ensures
        forall|ip: Seq<char>| #[trigger] ip_calls(calls, ip) <= calls.len(),
    decreases calls.len(),
{
    if calls.len() > 0 {
        lemma_ip_calls_bound(calls.drop_last());
        assert forall|ip: Seq<char>| #[trigger] ip_calls(calls, ip) <= calls.len() by {
            assert(ip_calls(calls.drop_last(), ip) <= calls.drop_last().len());
        }
    }
}

/// Every prefix of a series of calls within their clients' first minutes is
/// itself within them.
pub proof fn lemma_gql_within_prefix(calls: Seq<(Seq<char>, u64)>, k: int)
    requires
        within_first_minute(calls),
        0 <= k <= calls.len(),
    ensures
        within_first_minute(calls.take(k)),
    decreases calls.len() - k,
{
    if k == calls.len() {
        assert(calls.take(k) =~= calls);
    } else {
        lemma_gql_within_prefix(calls, k + 1);
        let longer = calls.take(k + 1);
        assert(within_first_minute(longer));
        assert(longer.drop_last() =~= calls.take(k));
        assert(within_first_minute(longer.drop_last()));
    }
}

// ───────────────────────── response cache ─────────────────────────

/// How long before `now` something was stored at `at`; nothing when `at`
/// lies after `now`.
pub open spec fn age_at(at: u64, now: u64) -> int {
    if now >= at {
        now - at
    } else {
        0
    }
}

/// The response cached under `key` in `entries` that is still fresh at
/// `now` for a time to live of `ttl`.
pub open spec fn fresh_response(
    entries: Map<Seq<char>, (Seq<u8>, u64)>,
    ttl: u64,
    key: Seq<char>,
    now: u64,
) -> Option<Seq<u8>> {
    if entries.contains_key(key) && age_at(entries[key].1, now) < ttl {
        Some(entries[key].0)
    } else {
        None
    }
}

/// The bytes of an optional buffer.
pub open spec fn opt_bytes(r: Option<Vec<u8>>) -> Option<Seq<u8>> {
    match r {
        Some(v) => Some(v@),
        None => None,
    }
}

/// Responses by request text, each good for `ttl` nanoseconds.
pub struct QueryCache {
    cache: StrMap<(Vec<u8>, u64)>,
    ttl: u64,
    origin: std::time::Instant,
}

impl QueryCache {
    /// The cached responses and when each was stored.
    pub closed spec fn entries(&self) -> Map<Seq<char>, (Seq<u8>, u64)> {
        self.cache@.map_values(|e: (Vec<u8>, u64)| (e.0@, e.1))
    }

    /// How long an entry is good for, in nanoseconds.
    pub closed spec fn ttl_nanos(&self) -> u64 {
        self.ttl
    }

    /// Nanoseconds on the monotonic clock since this cache was made: the
    /// time base of `get_at` and `set_at`. The reading is not stated.
    pub fn clock(&self) -> u64 {
        nanos_since(&self.origin)
    }

    /// A cache whose entries are good for `ttl_secs` seconds (held at the
    /// largest time the clock can show).
    pub fn new(ttl_secs: u64) -> (r: Self)
        ensures
            r.entries() == Map::<Seq<char>, (Seq<u8>, u64)>::empty(),
            r.ttl_nanos() == if ttl_secs * 1_000_000_000 > u64::MAX {
                u64::MAX as int
            } else {
                ttl_secs * 1_000_000_000
            },
    {
        let ttl = match ttl_secs.checked_mul(1_000_000_000) {
            Some(t) => t,
            None => u64::MAX,
        };
        let r = QueryCache { cache: StrMap::new(), ttl, origin: instant_now() };
        assert(r.entries() =~= Map::<Seq<char>, (Seq<u8>, u64)>::empty());
        r
    }

    /// The response stored under `key`, if it was stored less than the
    /// time to live before `now`.
    pub fn get_at(&self, key: &str, now: u64) -> (r: Option<Vec<u8>>)
        ensures
            match r {
                Some(v) => {
                    &&& self.entries().contains_key(key@)
                    &&& self.entries()[key@].0 == v@
                    &&& (if now >= self.entries()[key@].1 {
                        now - self.entries()[key@].1
                    } else {
                        0
                    }) < self.ttl_nanos()
                },
                None => !self.entries().contains_key(key@) || (if now >= self.entries()[key@].1 {
                    now - self.entries()[key@].1
                } else {
                    0
                }) >= self.ttl_nanos(),
            },
            opt_bytes(r) == fresh_response(self.entries(), self.ttl_nanos(), key@, now),
    {
        match self.cache.get(key) {
            Some(e) => {
                let age = if now >= e.1 {
                    now - e.1
                } else {
                    0
                };
                if age < self.ttl {
                    Some(vstd::slice::slice_to_vec(e.0.as_slice()))
                } else {
                    None
                }
            },
            None => None,
        }
    }

    /// The response stored under `key`, if it is fresh now: what `get_at`
    /// gives at the clock's reading.
    pub fn get(&self, key: &str) -> (r: Option<Vec<u8>>)
        ensures
            exists|now: u64| #[trigger]
                fresh_response(self.entries(), self.ttl_nanos(), key@, now) == opt_bytes(r),
    {
        let now = self.clock();
        let r = self.get_at(key, now);
        assert(fresh_response(self.entries(), self.ttl_nanos(), key@, now) == opt_bytes(r));
        r
    }

    /// Stores `value` under `key` at time `now`.
    pub fn set_at(&mut self, key: String, value: Vec<u8>, now: u64)
        ensures
            final(self).entries() == old(self).entries().insert(key@, (value@, now)),
            final(self).ttl_nanos() == old(self).ttl_nanos(),
    {
        let ghost before = self.cache@;
        let ghost kv = key@;
        let ghost vv = value@;
        self.cache.insert(key, (value, now));
        assert(self.entries() =~= before.map_values(|e: (Vec<u8>, u64)| (e.0@, e.1)).insert(
            kv,
            (vv, now),
        ));
    }

    /// Stores `value` under `key` now: what `set_at` does at the clock's
    /// reading.
    pub fn set(&mut self, key: String, value: Vec<u8>)
        ensures
            final(self).ttl_nanos() == old(self).ttl_nanos(),
            exists|now: u64| #[trigger]
                old(self).entries().insert(key@, (value@, now)) == final(self).entries(),
    {
        let now = self.clock();
        let ghost kv = key@;
        let ghost vv = value@;
        self.set_at(key, value, now);
        assert(old(self).entries().insert(kv, (vv, now)) == self.entries());
    }
}

// ───────────────────────── persisted queries ─────────────────────────

/// The `DefaultHasher` digest of a string (`Hash for str`).
pub uninterp spec fn default_str_hash(s: Seq<char>) -> u64;

/// A fresh `DefaultHasher` fed the string `s`, and its `finish`.
#[verifier::external_body]
fn str_hash(s: &str) -> (r: u64)
    ensures
        r == default_str_hash(s@),
{
    let mut hasher = std::collections::hash_map::DefaultHasher::new();
    s.hash(&mut hasher);
    hasher.finish()
}

/// Queries stored under the hexadecimal hash of their text.
pub struct PersistedQueries {
    store: StrMap<String>,
}

impl PersistedQueries {
    /// The queries, by hash.
    pub closed spec fn queries(&self) -> Map<Seq<char>, Seq<char>> {
        self.store@.map_values(|q: String| q@)
    }

    /// No queries.
    pub fn new() -> (r: Self)
        ensures
            r.queries() == Map::<Seq<char>, Seq<char>>::empty(),
    {
        let r = PersistedQueries { store: StrMap::new() };
        assert(r.queries() =~= Map::<Seq<char>, Seq<char>>::empty());
        r
    }

    /// The query stored under `hash`.
    pub fn get(&self, hash: &str) -> (r: Option<String>)
        ensures
            match r {
                Some(q) => self.queries().contains_key(hash@) && self.queries()[hash@] == q@,
                None => !self.queries().contains_key(hash@),
            },
    {
        match self.store.get(hash) {
            Some(q) => Some(q.clone()),
            None => None,
        }
    }

    /// Stores `query` under the hexadecimal hash of its text, and gives the
    /// hash.
    pub fn register(&mut self, query: String) -> (r: String)
        ensures
            r@ == hex_repr(default_str_hash(query@) as nat),
            final(self).queries() == old(self).queries().insert(r@, query@),
    {
        let h = str_hash(query.as_str());
        let hash = string_from_chars(&hex_chars(h));
        let ghost before = self.store@;
        let ghost qv = query@;
        self.store.insert(hash.clone(), query);
        assert(self.queries() =~= before.map_values(|q: String| q@).insert(hash@, qv));
        hash
    }
}

/// The hash `register` gives for a query is one to sixteen lowercase
/// hexadecimal digits, and the same query always gets the same hash.
pub proof fn lemma_persisted_hash_shape(query: Seq<char>, again: Seq<char>)
    ensures
        1 <= hex_repr(default_str_hash(query) as nat).len() <= 16,
        all_lower_hex(hex_repr(default_str_hash(query) as nat)),
        query == again ==> hex_repr(default_str_hash(query) as nat) == hex_repr(
            default_str_hash(again) as nat,
        ),
{
    lemma_pow16();
    lemma_hex_repr_shape(default_str_hash(query) as nat, 16);
}

/// What `register` stores, `get` gives back under the hash it returned.
pub proof fn lemma_persisted_roundtrip(
    qs: Map<Seq<char>, Seq<char>>,
    hash: Seq<char>,
    query: Seq<char>,
)
    ensures
        qs.insert(hash, query).contains_key(hash),
        qs.insert(hash, query)[hash] == query,
{
}

// ───────────────────────── configuration ─────────────────────────

/// How GraphQL requests are served.
pub struct GraphQLConfig {
    pub max_depth: usize,
    pub max_complexity: usize,
    pub rate_limit: Option<GraphQLRateLimit>,
    pub cache: Option<QueryCache>,
    pub persisted: Option<PersistedQueries>,
}

impl Default for GraphQLConfig {
    fn default() -> (r: Self)
        ensures
            r.max_depth == 10,
            r.max_complexity == 100,
            r.rate_limit is None,
            r.cache is None,
            r.persisted is None,
    {
        GraphQLConfig {
            max_depth: 10,
            max_complexity: 100,
            rate_limit: None,
            cache: None,
            persisted: None,
        }
    }
}

impl GraphQLConfig {
    /// Depth 10, complexity 100, no limit, no cache, no persisted queries.
    pub fn new() -> (r: Self)
        ensures
            r.max_depth == 10,
            r.max_complexity == 100,
            r.rate_limit is None,
            r.cache is None,
            r.persisted is None,
    {
        Self::default()
    }

    /// With a depth limit of `depth`.
    pub fn max_depth(self, depth: usize) -> (r: Self)
        ensures
            r == (GraphQLConfig { max_depth: depth, ..self }),
    {
        let mut c = self;
        c.max_depth = depth;
        c
    }

    /// With a complexity limit of `complexity`.
    pub fn max_complexity(self, complexity: usize) -> (r: Self)
        ensures
            r == (GraphQLConfig { max_complexity: complexity, ..self }),
    {
        let mut c = self;
        c.max_complexity = complexity;
        c
    }

    /// With `max_per_minute` queries a minute per client.
    pub fn rate_limit(self, max_per_minute: u64) -> (r: Self)
        ensures
            r.rate_limit matches Some(l) && l.max() == max_per_minute && l.counts() == Map::<
                Seq<char>,
                (u64, u64),
            >::empty(),
            r.max_depth == self.max_depth && r.max_complexity == self.max_complexity,
            r.cache == self.cache && r.persisted == self.persisted,
    {
        let mut c = self;
        c.rate_limit = Some(GraphQLRateLimit::new(max_per_minute));
        c
    }

    /// With a response cache whose entries live `ttl_secs` seconds.
    pub fn cache(self, ttl_secs: u64) -> (r: Self)
        ensures
            r.cache matches Some(q) && q.entries() == Map::<Seq<char>, (Seq<u8>, u64)>::empty(),
            r.max_depth == self.max_depth && r.max_complexity == self.max_complexity,
            r.rate_limit == self.rate_limit && r.persisted == self.persisted,
    {
        let mut c = self;
        c.cache = Some(QueryCache::new(ttl_secs));
        c
    }

    /// With a store of persisted queries.
    pub fn persisted_queries(self) -> (r: Self)
        ensures
            r.persisted matches Some(p) && p.queries() == Map::<Seq<char>, Seq<char>>::empty(),
            r.max_depth == self.max_depth && r.max_complexity == self.max_complexity,
            r.rate_limit == self.rate_limit && r.cache == self.cache,
    {
        let mut c = self;
        c.persisted = Some(PersistedQueries::new());
        c
    }
}

// ───────────────────────── statistics and pages ─────────────────────────

/// The share of cache lookups that hit, in whole percent; 0 before any.
pub fn hit_rate_percent(hits: u64, misses: u64) -> (r: u64)
    requires
        hits * 100 <= u64::MAX,
        hits + misses <= u64::MAX,
    ensures
        r == if hits + misses == 0 {
            0
        } else {
            (hits * 100) / (hits + misses)
        },
{
    let total = hits + misses;
    if total == 0 {
        0
    } else {
        (hits * 100) / total
    }
}

/// What `GraphiQLSource::build().endpoint(e).finish()` gives.
pub uninterp spec fn graphiql_page(endpoint: Seq<char>) -> Seq<char>;

/// The GraphiQL page for the endpoint `endpoint`, from `async_graphql`.
#[verifier::external_body]
fn graphiql_html(endpoint: &str) -> (r: String)
    ensures
        r@ == graphiql_page(endpoint@),
{
    async_graphql::http::GraphiQLSource::build().endpoint(endpoint).finish()
}

/// A `200` response holding the GraphiQL page for `endpoint`.
pub fn graphiql_response(endpoint: &str) -> (r: Response)
    ensures
        r.status == 200,
        pair_views(r.headers@) == seq![("Content-Type"@, "text/html"@)],
        r.body@ == encode_utf8(graphiql_page(endpoint@)),
{
    let html = graphiql_html(endpoint);
    let body = vstd::slice::slice_to_vec(html.as_str().as_bytes());
    let r = Response::ok().header("Content-Type", "text/html").body(body);
    assert(pair_views(r.headers@) =~= seq![("Content-Type"@, "text/html"@)]);
    r
}

/// A cached response is served until it is as old as the time to live:
/// after `set_at(key, v, t)`, `get_at(key, t2)` gives `v` when
/// `t2 - t < ttl`, and nothing from then on.
pub proof fn lemma_cache_fresh(
    entries: Map<Seq<char>, (Seq<u8>, u64)>,
    key: Seq<char>,
    value: Seq<u8>,
    stored: u64,
    later: u64,
    ttl: u64,
)
    requires
        stored <= later,
    ensures
        entries.insert(key, (value, stored))[key] == (value, stored),
        (later - stored < ttl) <==> !((if later >= stored {
            later - stored
        } else {
            0
        }) >= ttl),
{
}

} // verus!
