//! A limit on the size of request bodies.
use vstd::prelude::*;
use crate::num::{dec_repr, u64_to_string};
use crate::text::push_str;

verus! {

/// Bodies larger than `max_bytes` are refused.
pub struct BodyLimit {
    pub max_bytes: usize,
}

/// The message for a body of `size` bytes over the limit `limit`.
pub open spec fn too_large_message(size: nat, limit: nat) -> Seq<char> {
    "Body too large: "@ + dec_repr(size) + " bytes exceeds limit of "@ + dec_repr(limit)
        + " bytes"@
}

impl BodyLimit {
    /// A limit of `max_bytes` bytes.
    pub fn new(max_bytes: usize) -> (r: Self)
        ensures
            r.max_bytes == max_bytes,
    {
        BodyLimit { max_bytes }
    }

    /// `Ok` when `body` fits, else the message saying by how much it does
    /// not.
    pub fn check(&self, body: &[u8]) -> (r: Result<(), String>)
        ensures
            r is Ok <==> body@.len() <= self.max_bytes,
            r matches Err(m) ==> m@ == too_large_message(body@.len(), self.max_bytes as nat),
    {
        if body.len() > self.max_bytes {
            let mut m = String::new();
            push_str(&mut m, "Body too large: ");
            push_str(&mut m, u64_to_string(body.len() as u64).as_str());
            push_str(&mut m, " bytes exceeds limit of ");
            push_str(&mut m, u64_to_string(self.max_bytes as u64).as_str());
            push_str(&mut m, " bytes");
            assert(m@ =~= too_large_message(body@.len(), self.max_bytes as nat));
            return Err(m);
        }
        Ok(())
    }
}

/// A limit of `max_mb` mebibytes.
pub fn body_limit(max_mb: usize) -> (r: BodyLimit)
    requires
        max_mb * 1024 * 1024 <= usize::MAX,
    ensures
        r.max_bytes == max_mb * 1024 * 1024,
{
    BodyLimit::new(max_mb * 1024 * 1024)
}

} // verus!
