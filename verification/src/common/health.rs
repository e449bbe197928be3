//! The health report: how long the server has run and how many requests it
//! has served. Times are nanoseconds on a monotonic clock that the caller
//! reads.
use vstd::prelude::*;
use crate::num::{dec_repr, u64_to_string};
use crate::text::push_str;

verus! {

/// The health report's JSON text.
pub open spec fn health_text(uptime: u64, total: u64, version: Seq<char>) -> Seq<char> {
    "{\"status\":\"ok\",\"uptime_secs\":"@ + dec_repr(uptime as nat) + ",\"requests_total\":"@
        + dec_repr(total as nat) + ",\"version\":\""@ + version + "\"}"@
}

/// Whole seconds from `started` to `now`; 0 before any start and when
/// `now` is earlier than the start.
pub open spec fn uptime_of(started: Option<u64>, now: u64) -> u64 {
    match started {
        Some(t) => if now >= t {
            ((now - t) / 1_000_000_000) as u64
        } else {
            0
        },
        None => 0,
    }
}

/// When the server started, and the requests counted so far.
pub struct Health {
    start: Option<u64>,
    requests: u64,
}

impl Health {
    /// When the server started, once recorded.
    pub closed spec fn started(&self) -> Option<u64> {
        self.start
    }

    /// The requests counted.
    pub closed spec fn count(&self) -> u64 {
        self.requests
    }

    /// Nothing recorded yet.
    pub fn new() -> (r: Self)
        ensures
            r.started() is None,
            r.count() == 0,
    {
        Health { start: None, requests: 0 }
    }

    /// Records `now` as the start, unless a start is recorded already.
    pub fn init_health(&mut self, now: u64)
        ensures
            final(self).started() == match old(self).started() {
                Some(t) => Some(t),
                None => Some(now),
            },
            final(self).count() == old(self).count(),
    {
        if self.start.is_none() {
            self.start = Some(now);
        }
    }

    /// Counts one more request, wrapping around at the top.
    pub fn increment_requests(&mut self)
        ensures
            final(self).count() == old(self).count().wrapping_add(1),
            final(self).started() == old(self).started(),
    {
        self.requests = self.requests.wrapping_add(1);
    }

    /// The requests counted.
    pub fn total_requests(&self) -> (r: u64)
        ensures
            r == self.count(),
    {
        self.requests
    }

    /// Whole seconds since the start, at time `now`; 0 before any start and
    /// when `now` is earlier than the start.
    pub fn uptime_secs(&self, now: u64) -> (r: u64)
        ensures
            r == uptime_of(self.started(), now),
    {
        match self.start {
            Some(t) => {
                if now >= t {
                    (now - t) / 1_000_000_000
                } else {
                    0
                }
            },
            None => 0,
        }
    }

    /// The health report at time `now`, naming the server's `version`.
    pub fn health_json(&self, now: u64, version: &str) -> (r: String)
        ensures
            r@ == health_text(uptime_of(self.started(), now), self.count(), version@),
    {
        let up = self.uptime_secs(now);
        let mut s = String::new();
        push_str(&mut s, "{\"status\":\"ok\",\"uptime_secs\":");
        let a = u64_to_string(up);
        push_str(&mut s, a.as_str());
        push_str(&mut s, ",\"requests_total\":");
        let b = u64_to_string(self.requests);
        push_str(&mut s, b.as_str());
        push_str(&mut s, ",\"version\":\"");
        push_str(&mut s, version);
        push_str(&mut s, "\"}");
        assert(s@ =~= health_text(up, self.requests, version@));
        s
    }
}

impl Default for Health {
    fn default() -> (r: Self)
        ensures
            r.started() is None,
            r.count() == 0,
    {
        Health::new()
    }
}

} // verus!
