//! Values aligned to, and padded out to, a 64-byte cache line.
use vstd::prelude::*;

verus! {

/// Declares the x86_64 512-bit vector type; only its 64-byte alignment is used.
#[verifier::external_type_specification]
#[verifier::external_body]
pub struct ExM512(core::arch::x86_64::__m512);

/// A value placed at the start of its own 64-byte cache line. A zero-length
/// array of a 64-byte-aligned type gives the struct that alignment and no
/// other size.
pub struct CacheAligned<T> {
    value: T,
    align: [core::arch::x86_64::__m512; 0],
}

impl<T> CacheAligned<T> {
    /// The value held.
    pub closed spec fn inner(&self) -> T {
        self.value
    }

    /// Wraps `value`.
    pub fn new(value: T) -> (r: Self)
        ensures r.inner() == value,
    {
        CacheAligned { value, align: [] }
    }

    /// Unwraps the value.
    pub fn into_inner(self) -> (r: T)
        ensures r == self.inner(),
    {
        self.value
    }

    /// The value, for writing.
    pub fn get_mut(&mut self) -> (r: &mut T)
        ensures
            *r == old(self).inner(),
            final(self).inner() == *final(r),
    {
        &mut self.value
    }
}

impl<T> core::ops::Deref for CacheAligned<T> {
    type Target = T;

    fn deref(&self) -> (r: &T)
        ensures
            *r == self.inner(),
    {
        &self.value
    }
}

impl<T: Clone> Clone for CacheAligned<T> {
    fn clone(&self) -> (r: Self) {
        CacheAligned::new(self.value.clone())
    }
}

impl<T: Default> Default for CacheAligned<T> {
    fn default() -> (r: Self) {
        CacheAligned::new(T::default())
    }
}

/// A value alone on its cache lines: aligned to 64 bytes, and its size
/// rounded up to a multiple of 64, so that neighbours in an array never
/// share a line.
pub struct CachePadded<T> {
    value: T,
    align: [core::arch::x86_64::__m512; 0],
}

impl<T> CachePadded<T> {
    /// The value held.
    pub closed spec fn inner(&self) -> T {
        self.value
    }

    /// Wraps `value`.
    pub fn new(value: T) -> (r: Self)
        ensures
            r.inner() == value,
    {
        CachePadded { value, align: [] }
    }

    /// Unwraps the value.
    pub fn into_inner(self) -> (r: T)
        ensures
            r == self.inner(),
    {
        self.value
    }

    /// The value, for writing.
    pub fn get_mut(&mut self) -> (r: &mut T)
        ensures
            *r == old(self).inner(),
            final(self).inner() == *final(r),
    {
        &mut self.value
    }
}

impl<T> core::ops::Deref for CachePadded<T> {
    type Target = T;

    fn deref(&self) -> (r: &T)
        ensures
            *r == self.inner(),
    {
        &self.value
    }
}

impl<T: Clone> Clone for CachePadded<T> {
    fn clone(&self) -> (r: Self) {
        CachePadded::new(self.value.clone())
    }
}

impl<T: Default> Default for CachePadded<T> {
    fn default() -> (r: Self) {
        CachePadded::new(T::default())
    }
}

} // verus!
