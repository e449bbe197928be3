//! Server configuration.
use vstd::prelude::*;
use crate::clock::{cpu_count, duration_from_secs, secs_duration};
use crate::num::{dec_repr, u64_to_string};
use crate::text::{push_str, to_owned_string};

verus! {

/// Where and how the server listens.
#[derive(Debug, Clone)]
pub struct TezConfig {
    pub host: String,
    pub port: u16,
    pub workers: usize,
    pub keep_alive_timeout: std::time::Duration,
    pub max_connections: usize,
    pub max_body_size: usize,
    pub tcp_nodelay: bool,
    pub http2_enabled: bool,
}

/// The defaults, but for the number of workers, which is the number of
/// CPUs.
pub open spec fn default_config(c: TezConfig) -> bool {
    &&& c.host@ == "127.0.0.1"@
    &&& c.port == 8080
    &&& c.workers >= 1
    &&& c.keep_alive_timeout == secs_duration(5)
    &&& c.max_connections == 10_000
    &&& c.max_body_size == 10 * 1024 * 1024
    &&& c.tcp_nodelay
    &&& c.http2_enabled
}

impl Default for TezConfig {
    fn default() -> (r: Self)
        ensures
            default_config(r),
    {
        TezConfig {
            host: to_owned_string("127.0.0.1"),
            port: 8080,
            workers: cpu_count(),
            keep_alive_timeout: duration_from_secs(5),
            max_connections: 10_000,
            max_body_size: 10485760,
            tcp_nodelay: true,
            http2_enabled: true,
        }
    }
}

impl TezConfig {
    /// The default configuration: `127.0.0.1:8080`, one worker per CPU.
    pub fn new() -> (r: Self)
        ensures
            default_config(r),
    {
        Self::default()
    }

    /// With host `host`.
    pub fn host(self, host: &str) -> (r: Self)
        ensures
            r.host@ == host@,
            r == (TezConfig { host: r.host, ..self }),
    {
        let mut c = self;
        c.host = to_owned_string(host);
        c
    }

    /// With port `port`.
    pub fn port(self, port: u16) -> (r: Self)
        ensures
            r == (TezConfig { port, ..self }),
    {
        let mut c = self;
        c.port = port;
        c
    }

    /// With `workers` workers.
    pub fn workers(self, workers: usize) -> (r: Self)
        ensures
            r == (TezConfig { workers, ..self }),
    {
        let mut c = self;
        c.workers = workers;
        c
    }

    /// With at most `max` connections.
    pub fn max_connections(self, max: usize) -> (r: Self)
        ensures
            r == (TezConfig { max_connections: max, ..self }),
    {
        let mut c = self;
        c.max_connections = max;
        c
    }

    /// With HTTP/2 on or off.
    pub fn http2_enabled(self, enabled: bool) -> (r: Self)
        ensures
            r == (TezConfig { http2_enabled: enabled, ..self }),
    {
        let mut c = self;
        c.http2_enabled = enabled;
        c
    }

    /// `host:port`.
    pub fn addr(&self) -> (r: String)
        ensures
            r@ == self.host@ + ":"@ + dec_repr(self.port as nat),
    {
        let mut s = String::new();
        push_str(&mut s, self.host.as_str());
        push_str(&mut s, ":");
        let p = u64_to_string(self.port as u64);
        push_str(&mut s, p.as_str());
        assert(s@ =~= self.host@ + ":"@ + dec_repr(self.port as nat));
        s
    }
}

} // verus!
