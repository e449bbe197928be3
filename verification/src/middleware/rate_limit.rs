//! Rate limiting: at most so many requests per client in each time
//! window. Times are nanoseconds on the monotonic clock since the limiter
//! was made.
use vstd::prelude::*;
use crate::clock::{instant_now, nanos_since};
use crate::text::to_owned_string;

verus! {

/// A client's window: requests counted so far, and when the window ends.
#[derive(Clone, Copy)]
pub struct RateEntry {
    pub count: u64,
    pub window_end: u64,
}

/// Declares `dashmap::DashMap`, the concurrent map holding the windows.
#[verifier::external_type_specification]
#[verifier::external_body]
#[verifier::reject_recursive_types(K)]
#[verifier::reject_recursive_types(V)]
#[verifier::reject_recursive_types(S)]
pub struct ExDashMap<K, V, S>(dashmap::DashMap<K, V, S>);

/// The map from client keys to their windows.
pub type RateMap = dashmap::DashMap<String, RateEntry>;

/// The windows a rate map holds: for each client key, its count and the
/// end of its window.
pub uninterp spec fn rate_windows(m: RateMap) -> Map<Seq<char>, (u64, u64)>;

/// `DashMap::new`: an empty map.
#[verifier::external_body]
fn rate_map_new() -> (r: RateMap)
    ensures
        rate_windows(r).dom() == Set::<Seq<char>>::empty(),
{
    dashmap::DashMap::new()
}

/// `DashMap::get`, copying the entry out.
#[verifier::external_body]
fn rate_map_get(m: &RateMap, k: &str) -> (r: Option<RateEntry>)
    ensures
        match r {
            Some(e) => rate_windows(*m).contains_key(k@) && rate_windows(*m)[k@] == (
                e.count,
                e.window_end,
            ),
            None => !rate_windows(*m).contains_key(k@),
        },
{
    m.get(k).map(|e| *e)
}

/// `DashMap::insert`: `k` now holds `v`.
#[verifier::external_body]
fn rate_map_insert(m: &mut RateMap, k: String, v: RateEntry)
    ensures
        rate_windows(*final(m)) == rate_windows(*old(m)).insert(k@, (v.count, v.window_end)),
{
    m.insert(k, v);
}

/// What a check at time `now` finds for a client whose window was `prior`
/// (`None` for a new client): the window afterwards, and the answer —
/// the requests left, or `None` when this one is over the limit.
pub open spec fn rate_step(prior: Option<(u64, u64)>, now: u64, window: u64, max: u64) -> (
    (u64, u64),
    Option<u64>,
) {
    let fresh_end = if now + window > u64::MAX {
        u64::MAX
    } else {
        (now + window) as u64
    };
    let start = match prior {
        Some(e) => if now >= e.1 {
            (0u64, fresh_end)
        } else {
            e
        },
        None => (0u64, fresh_end),
    };
    let count = start.0.wrapping_add(1);
    ((count, start.1), if count > max {
        None
    } else {
        Some((max - count) as u64)
    })
}

/// A client's window in `windows`, or `None` for a new client.
pub open spec fn prior_window(windows: Map<Seq<char>, (u64, u64)>, ip: Seq<char>) -> Option<
    (u64, u64),
> {
    if windows.contains_key(ip) {
        Some(windows[ip])
    } else {
        None
    }
}

/// What a check of `ip` at time `now` does to the windows `before`: the
/// client's window becomes the step's, and the answer is the requests
/// left, or the refusal when this one is over the limit.
pub open spec fn rate_outcome(
    before: Map<Seq<char>, (u64, u64)>,
    after: Map<Seq<char>, (u64, u64)>,
    ip: Seq<char>,
    now: u64,
    window: u64,
    max: u64,
    r: Result<u64, &'static str>,
) -> bool {
    let step = rate_step(prior_window(before, ip), now, window, max);
    &&& after == before.insert(ip, step.0)
    &&& match step.1 {
        Some(left) => r == Ok::<u64, &'static str>(left),
        None => r matches Err(m) && m@ == "Rate limit exceeded"@,
    }
}

/// Counts requests per client key, allowing `max_requests` in each window
/// of `window` nanoseconds.
pub struct RateLimiter {
    store: RateMap,
    max_requests: u64,
    window: u64,
    origin: std::time::Instant,
}

impl RateLimiter {
    /// The windows, by client key.
    pub closed spec fn windows(&self) -> Map<Seq<char>, (u64, u64)> {
        rate_windows(self.store)
    }

    /// The requests allowed per window.
    pub closed spec fn max(&self) -> u64 {
        self.max_requests
    }

    /// The window's length in nanoseconds.
    pub closed spec fn window_nanos(&self) -> u64 {
        self.window
    }

    /// A limiter allowing `max_requests` per `window_secs` seconds (the
    /// window held at the largest time the clock can show).
    pub fn new(max_requests: u64, window_secs: u64) -> (r: Self)
        ensures
            r.windows() == Map::<Seq<char>, (u64, u64)>::empty(),
            r.max() == max_requests,
            r.window_nanos() == if window_secs * 1_000_000_000 > u64::MAX {
                u64::MAX as int
            } else {
                window_secs * 1_000_000_000
            },
    {
        let window = match window_secs.checked_mul(1_000_000_000) {
            Some(w) => w,
            None => u64::MAX,
        };
        let store = rate_map_new();
        assert(rate_windows(store) =~= Map::<Seq<char>, (u64, u64)>::empty());
        RateLimiter { store, max_requests, window, origin: instant_now() }
    }

    /// Counts a request from `ip` at time `now`: `Ok` with the requests
    /// left in its window, or `Err` when it is over the limit. A window
    /// that has ended starts afresh.
    pub fn check_at(&mut self, ip: &str, now: u64) -> (r: Result<u64, &'static str>)
        ensures
            rate_outcome(
                old(self).windows(),
                final(self).windows(),
                ip@,
                now,
                old(self).window_nanos(),
                old(self).max(),
                r,
            ),
            final(self).max() == old(self).max(),
            final(self).window_nanos() == old(self).window_nanos(),
    {
        let fresh_end = now.saturating_add(self.window);
        let start = match rate_map_get(&self.store, ip) {
            Some(e) => if now >= e.window_end {
                RateEntry { count: 0, window_end: fresh_end }
            } else {
                e
            },
            None => RateEntry { count: 0, window_end: fresh_end },
        };
        let count = start.count.wrapping_add(1);
        rate_map_insert(
            &mut self.store,
            to_owned_string(ip),
            RateEntry { count, window_end: start.window_end },
        );
        if count > self.max_requests {
            return Err("Rate limit exceeded");
        }
        Ok(self.max_requests - count)
    }

    /// Counts a request from `ip` now: what `check_at` does at the clock's
    /// reading.
    pub fn check(&mut self, ip: &str) -> (r: Result<u64, &'static str>)
        ensures
            final(self).max() == old(self).max(),
            final(self).window_nanos() == old(self).window_nanos(),
            exists|now: u64| #[trigger]
                rate_outcome(
                    old(self).windows(),
                    final(self).windows(),
                    ip@,
                    now,
                    old(self).window_nanos(),
                    old(self).max(),
                    r,
                ),
    {
        let now = nanos_since(&self.origin);
        let r = self.check_at(ip, now);
        assert(rate_outcome(
            old(self).windows(),
            self.windows(),
            ip@,
            now,
            old(self).window_nanos(),
            old(self).max(),
            r,
        ));
        r
    }
}

/// A limiter allowing `max_requests` per `window_secs` seconds.
pub fn rate_limit(max_requests: u64, window_secs: u64) -> (r: RateLimiter)
    ensures
        r.windows() == Map::<Seq<char>, (u64, u64)>::empty(),
        r.max() == max_requests,
{
    RateLimiter::new(max_requests, window_secs)
}

/// Within one window, the first `max` requests of a client are allowed and
/// the next is refused: checking `k` times, starting from a fresh window,
/// leaves `max - k` while `k <= max`.
pub proof fn lemma_rate_window(count: u64, end: u64, now: u64, window: u64, max: u64)
    requires
        now < end,
        count < u64::MAX,
    ensures
        rate_step(Some((count, end)), now, window, max).0 == ((count + 1) as u64, end),
        count + 1 <= max ==> rate_step(Some((count, end)), now, window, max).1 == Some(
            (max - count - 1) as u64,
        ),
        count + 1 > max ==> rate_step(Some((count, end)), now, window, max).1 is None,
{
}

} // verus!
