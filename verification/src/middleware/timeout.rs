//! A time limit on handling a request.
use vstd::prelude::*;
use crate::clock::{duration_from_secs, secs_duration};

verus! {

/// How long a request may take.
pub struct RequestTimeout {
    pub duration: std::time::Duration,
}

impl RequestTimeout {
    /// A limit of `secs` seconds.
    pub fn new(secs: u64) -> (r: Self)
        ensures
            r.duration == secs_duration(secs),
    {
        RequestTimeout { duration: duration_from_secs(secs) }
    }
}

/// A limit of `secs` seconds.
pub fn request_timeout(secs: u64) -> (r: RequestTimeout)
    ensures
        r.duration == secs_duration(secs),
{
    RequestTimeout::new(secs)
}

} // verus!
