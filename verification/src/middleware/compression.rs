//! Response compression, chosen from the `Accept-Encoding` header.
use vstd::prelude::*;
use std::io::Write;
use crate::text::{chars_of, find_chars, spec_find};

verus! {

/// A content encoding; `Identity` is no compression.
#[derive(Debug, Clone, Copy, PartialEq, Eq, Structural)]
pub enum Encoding {
    Gzip,
    Brotli,
    Identity,
}

/// The encoding for an `Accept-Encoding` value: Brotli when it mentions
/// `br` anywhere, else gzip when it mentions `gzip`, else none.
pub open spec fn encoding_for(accept: Seq<char>) -> Encoding {
    if spec_find(accept, "br"@) is Some {
        Encoding::Brotli
    } else if spec_find(accept, "gzip"@) is Some {
        Encoding::Gzip
    } else {
        Encoding::Identity
    }
}

/// The encoding to use for an `Accept-Encoding` value.
pub fn detect_encoding(accept_encoding: &str) -> (r: Encoding)
    ensures
        r == encoding_for(accept_encoding@),
{
    let a = chars_of(accept_encoding);
    if find_chars(&a, &chars_of("br")).is_some() {
        Encoding::Brotli
    } else if find_chars(&a, &chars_of("gzip")).is_some() {
        Encoding::Gzip
    } else {
        Encoding::Identity
    }
}

/// What `flate2`'s `GzEncoder` at the default level writes for `data`
/// (empty should the encoder fail).
pub uninterp spec fn gzip_of(data: Seq<u8>) -> Seq<u8>;

/// What `brotli::BrotliCompress` with default parameters writes for
/// `data` (what it wrote before any failure).
pub uninterp spec fn brotli_of(data: Seq<u8>) -> Seq<u8>;

/// Compresses `data` with `flate2::write::GzEncoder` at the default level.
#[verifier::external_body]
pub fn compress_gzip(data: &[u8]) -> (r: Vec<u8>)
    ensures
        r@ == gzip_of(data@),
{
    let mut encoder = flate2::write::GzEncoder::new(Vec::new(), flate2::Compression::default());
    encoder.write_all(data).unwrap_or_default();
    encoder.finish().unwrap_or_default()
}

/// Compresses `data` with `brotli::BrotliCompress` and default parameters.
#[verifier::external_body]
pub fn compress_brotli(data: &[u8]) -> (r: Vec<u8>)
    ensures
        r@ == brotli_of(data@),
{
    let mut output = Vec::new();
    let params = brotli::enc::BrotliEncoderParams::default();
    brotli::BrotliCompress(&mut std::io::Cursor::new(data), &mut output, &params).ok();
    output
}

/// `data` compressed as `Accept-Encoding` asks, with the `Content-Encoding`
/// to send.
pub fn compress(data: &[u8], accept_encoding: &str) -> (r: (Vec<u8>, Option<&'static str>))
    ensures
        match encoding_for(accept_encoding@) {
            Encoding::Brotli => r.0@ == brotli_of(data@) && (r.1 matches Some(e) && e@ == "br"@),
            Encoding::Gzip => r.0@ == gzip_of(data@) && (r.1 matches Some(e) && e@ == "gzip"@),
            Encoding::Identity => r.0@ == data@ && r.1 is None,
        },
{
    match detect_encoding(accept_encoding) {
        Encoding::Brotli => (compress_brotli(data), Some("br")),
        Encoding::Gzip => (compress_gzip(data), Some("gzip")),
        Encoding::Identity => (vstd::slice::slice_to_vec(data), None),
    }
}

} // verus!
