//! Socket options applied to accepted connections.
use vstd::prelude::*;
use crate::clock::{duration_from_secs, secs_duration};

verus! {

/// Options for accepted TCP sockets: `TCP_NODELAY` and TCP keep-alive.
pub struct SocketBuilder {
    nodelay: bool,
    keepalive: Option<std::time::Duration>,
}

impl SocketBuilder {
    /// No-delay on, keep-alive probes after 60 seconds.
    pub fn new() -> (r: Self)
        ensures
            r.nodelay_spec() == true,
            r.keepalive_spec() == Some(secs_duration(60)),
    {
        SocketBuilder { nodelay: true, keepalive: Some(duration_from_secs(60)) }
    }

    pub closed spec fn nodelay_spec(&self) -> bool {
        self.nodelay
    }

    pub closed spec fn keepalive_spec(&self) -> Option<std::time::Duration> {
        self.keepalive
    }

    pub fn nodelay(self, enabled: bool) -> (r: Self)
        ensures
            r.nodelay_spec() == enabled,
            r.keepalive_spec() == self.keepalive_spec(),
    {
        SocketBuilder { nodelay: enabled, keepalive: self.keepalive }
    }

    pub fn keepalive(self, duration: Option<std::time::Duration>) -> (r: Self)
        ensures
            r.nodelay_spec() == self.nodelay_spec(),
            r.keepalive_spec() == duration,
    {
        SocketBuilder { nodelay: self.nodelay, keepalive: duration }
    }

    /// Whether `TCP_NODELAY` is to be set.
    pub fn nodelay_enabled(&self) -> (r: bool)
        ensures
            r == self.nodelay_spec(),
    {
        self.nodelay
    }

    /// The keep-alive idle time, if keep-alive is on.
    pub fn keepalive_time(&self) -> (r: Option<std::time::Duration>)
        ensures
            r == self.keepalive_spec(),
    {
        self.keepalive
    }
}

impl Default for SocketBuilder {
    fn default() -> (r: Self)
        ensures
            r.nodelay_spec() == true,
            r.keepalive_spec() == Some(secs_duration(60)),
    {
        Self::new()
    }
}

} // verus!
