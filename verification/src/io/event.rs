//! The event loop's configuration: how many worker threads it runs.
use vstd::prelude::*;

verus! {

/// How many threads an event loop runs; the loop itself is started by the
/// runtime glue.
pub struct EventLoop {
    pub threads: usize,
}

impl EventLoop {
    pub fn new(threads: usize) -> (r: Self)
        ensures
            r.threads == threads,
    {
        EventLoop { threads }
    }
}

} // verus!
