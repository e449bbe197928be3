//! Byte buffers for socket reads and writes, backed by `bytes::BytesMut`.
use vstd::prelude::*;

verus! {

#[verifier::external_type_specification]
#[verifier::external_body]
pub struct ExBytesMut(bytes::BytesMut);

#[verifier::external_type_specification]
#[verifier::external_body]
pub struct ExBytes(bytes::Bytes);

/// The bytes that a `BytesMut` holds, in order.
pub uninterp spec fn bytes_of(b: bytes::BytesMut) -> Seq<u8>;

/// The bytes that a frozen `Bytes` holds, in order.
pub uninterp spec fn frozen_bytes_of(b: bytes::Bytes) -> Seq<u8>;

/// `BytesMut::with_capacity`: an empty buffer.
#[verifier::external_body]
fn bm_with_capacity(cap: usize) -> (r: bytes::BytesMut)
    ensures
        bytes_of(r) == Seq::<u8>::empty(),
{
    bytes::BytesMut::with_capacity(cap)
}

/// `BytesMut::from(&[u8])`: a buffer holding a copy of the slice.
#[verifier::external_body]
fn bm_from_slice(s: &[u8]) -> (r: bytes::BytesMut)
    ensures
        bytes_of(r) == s@,
{
    bytes::BytesMut::from(s)
}

/// `BytesMut::len`.
#[verifier::external_body]
fn bm_len(b: &bytes::BytesMut) -> (r: usize)
    ensures
        r == bytes_of(*b).len(),
{
    b.len()
}

/// `BytesMut::capacity`: how much the buffer can hold before it reallocates;
/// never less than its length (the source keeps `len <= cap`). What the
/// allocator handed out beyond that is not stated.
#[verifier::external_body]
fn bm_capacity(b: &bytes::BytesMut) -> (r: usize)
    ensures
        r >= bytes_of(*b).len(),
{
    b.capacity()
}

/// `BytesMut::split_to`: the first `at` bytes move to the result.
#[verifier::external_body]
fn bm_split_to(b: &mut bytes::BytesMut, at: usize) -> (r: bytes::BytesMut)
    requires
        at <= bytes_of(*old(b)).len(),
    ensures
        bytes_of(r) == bytes_of(*old(b)).subrange(0, at as int),
        bytes_of(*final(b)) == bytes_of(*old(b)).subrange(at as int, bytes_of(*old(b)).len() as int),
{
    b.split_to(at)
}

/// `BytesMut::split_off`: the bytes from `at` on move to the result.
#[verifier::external_body]
fn bm_split_off(b: &mut bytes::BytesMut, at: usize) -> (r: bytes::BytesMut)
    requires
        at <= bytes_of(*old(b)).len(),
    ensures
        bytes_of(*final(b)) == bytes_of(*old(b)).subrange(0, at as int),
        bytes_of(r) == bytes_of(*old(b)).subrange(at as int, bytes_of(*old(b)).len() as int),
{
    b.split_off(at)
}

/// `BytesMut::reserve`: makes room; the contents stay. It panics when the
/// length plus `n` overflows `usize`.
#[verifier::external_body]
fn bm_reserve(b: &mut bytes::BytesMut, n: usize)
    requires
        bytes_of(*old(b)).len() + n <= usize::MAX,
    ensures
        bytes_of(*final(b)) == bytes_of(*old(b)),
{
    b.reserve(n)
}

/// `BytesMut::extend_from_slice`: appends the slice.
#[verifier::external_body]
fn bm_extend(b: &mut bytes::BytesMut, s: &[u8])
    ensures
        bytes_of(*final(b)) == bytes_of(*old(b)) + s@,
{
    b.extend_from_slice(s)
}

/// `BytesMut::clear`: removes every byte.
#[verifier::external_body]
fn bm_clear(b: &mut bytes::BytesMut)
    ensures
        bytes_of(*final(b)) == Seq::<u8>::empty(),
{
    b.clear()
}

/// The buffer's bytes as a slice (`Deref` for `BytesMut`).
#[verifier::external_body]
fn bm_as_slice(b: &bytes::BytesMut) -> (r: &[u8])
    ensures
        r@ == bytes_of(*b),
{
    b
}

/// `BytesMut::freeze`: the same bytes, immutable.
#[verifier::external_body]
fn bm_freeze(b: bytes::BytesMut) -> (r: bytes::Bytes)
    ensures
        frozen_bytes_of(r) == bytes_of(b),
{
    b.freeze()
}

/// A growable byte buffer for IO.
pub struct IoBuffer {
    pub inner: bytes::BytesMut,
}

impl View for IoBuffer {
    type V = Seq<u8>;

    open spec fn view(&self) -> Seq<u8> {
        bytes_of(self.inner)
    }
}

impl IoBuffer {
    /// An empty buffer with room for `cap` bytes.
    pub fn with_capacity(cap: usize) -> (r: Self)
        ensures
            r@ == Seq::<u8>::empty(),
    {
        IoBuffer { inner: bm_with_capacity(cap) }
    }

    /// An empty buffer.
    pub fn new() -> (r: Self)
        ensures
            r@ == Seq::<u8>::empty(),
    {
        Self::with_capacity(0)
    }

    /// The number of bytes held.
    pub fn len(&self) -> (r: usize)
        ensures
            r == self@.len(),
    {
        bm_len(&self.inner)
    }

    /// Whether no byte is held.
    pub fn is_empty(&self) -> (r: bool)
        ensures
            r == (self@.len() == 0),
    {
        bm_len(&self.inner) == 0
    }

    /// Drops the first `n` bytes.
    pub fn advance(&mut self, n: usize)
        requires
            n <= old(self)@.len(),
        ensures
            final(self)@ == old(self)@.subrange(n as int, old(self)@.len() as int),
    {
        let _ = bm_split_to(&mut self.inner, n);
    }

    /// Makes room for `n` more bytes; the contents stay.
    pub fn reserve(&mut self, n: usize)
        requires
            old(self)@.len() + n <= usize::MAX,
        ensures
            final(self)@ == old(self)@,
    {
        bm_reserve(&mut self.inner, n)
    }

    /// How many bytes fit before the buffer reallocates; at least as many
    /// as it holds.
    pub fn capacity(&self) -> (r: usize)
        ensures
            r >= self@.len(),
    {
        bm_capacity(&self.inner)
    }

    /// The bytes, made immutable.
    pub fn freeze(self) -> (r: bytes::Bytes)
        ensures
            frozen_bytes_of(r) == self@,
    {
        bm_freeze(self.inner)
    }

    /// Removes every byte.
    pub fn clear(&mut self)
        ensures
            final(self)@ == Seq::<u8>::empty(),
    {
        bm_clear(&mut self.inner)
    }

    /// Splits off and returns the first `n` bytes.
    pub fn split_to(&mut self, n: usize) -> (r: Self)
        requires
            n <= old(self)@.len(),
        ensures
            r@ == old(self)@.subrange(0, n as int),
            final(self)@ == old(self)@.subrange(n as int, old(self)@.len() as int),
    {
        IoBuffer { inner: bm_split_to(&mut self.inner, n) }
    }

    /// Splits off and returns the bytes from `n` on.
    pub fn split_off(&mut self, n: usize) -> (r: Self)
        requires
            n <= old(self)@.len(),
        ensures
            final(self)@ == old(self)@.subrange(0, n as int),
            r@ == old(self)@.subrange(n as int, old(self)@.len() as int),
    {
        IoBuffer { inner: bm_split_off(&mut self.inner, n) }
    }

    /// A copy of the bytes.
    pub fn to_vec(&self) -> (r: Vec<u8>)
        ensures
            r@ == self@,
    {
        let s = bm_as_slice(&self.inner);
        vstd::slice::slice_to_vec(s)
    }

    /// The bytes as a slice.
    pub fn as_slice(&self) -> (r: &[u8])
        ensures
            r@ == self@,
    {
        bm_as_slice(&self.inner)
    }

    /// Appends the bytes of `s`.
    pub fn extend_from_slice(&mut self, s: &[u8])
        ensures
            final(self)@ == old(self)@ + s@,
    {
        bm_extend(&mut self.inner, s)
    }

    /// A buffer holding a copy of `v`.
    pub fn from_vec(v: Vec<u8>) -> (r: Self)
        ensures
            r@ == v@,
    {
        IoBuffer { inner: bm_from_slice(v.as_slice()) }
    }

    /// A buffer holding a copy of `s`.
    pub fn from_slice(s: &[u8]) -> (r: Self)
        ensures
            r@ == s@,
    {
        IoBuffer { inner: bm_from_slice(s) }
    }
}

impl Default for IoBuffer {
    fn default() -> (r: Self)
        ensures
            r@ == Seq::<u8>::empty(),
    {
        Self::new()
    }
}

impl core::ops::Deref for IoBuffer {
    type Target = [u8];

    fn deref(&self) -> (r: &[u8])
        ensures
            r@ == self@,
    {
        self.as_slice()
    }
}

impl AsRef<[u8]> for IoBuffer {
    fn as_ref(&self) -> (r: &[u8])
        ensures
            r@ == self@,
    {
        self.as_slice()
    }
}

} // verus!
