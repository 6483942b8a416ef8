//! Compression codec primitives.
//!
//! The codecs themselves are outside collaborators; each is reached through a
//! trusted wrapper. What an encoder returns is named by an uninterpreted
//! spec function, and the wrapper also records that decoding an encoder's
//! output restores the input, which is the documented lossless-compression
//! guarantee of all four codecs.

use vstd::prelude::*;

use crate::encoding::Encoding;

verus! {

/// An encode or decode step failed. The cache turns this into an internal
/// server error; no cache entry is committed.
#[derive(Clone, Copy, Debug, PartialEq, Eq, Structural)]
pub struct CodecError;

/// What gzip compression returns for the given bytes.
pub uninterp spec fn gzip_of(b: Seq<u8>) -> Seq<u8>;

/// What gzip decompression returns for the given bytes, when it succeeds.
pub uninterp spec fn ungzip_of(b: Seq<u8>) -> Seq<u8>;

/// What deflate compression returns for the given bytes.
pub uninterp spec fn deflate_of(b: Seq<u8>) -> Seq<u8>;

/// What deflate decompression returns for the given bytes, when it succeeds.
pub uninterp spec fn undeflate_of(b: Seq<u8>) -> Seq<u8>;

/// What brotli compression returns for the given bytes.
pub uninterp spec fn brotli_of(b: Seq<u8>) -> Seq<u8>;

/// What brotli decompression returns for the given bytes, when it succeeds.
pub uninterp spec fn unbrotli_of(b: Seq<u8>) -> Seq<u8>;

/// What zstandard compression returns for the given bytes.
pub uninterp spec fn zstd_of(b: Seq<u8>) -> Seq<u8>;

/// What zstandard decompression returns for the given bytes, when it succeeds.
pub uninterp spec fn unzstd_of(b: Seq<u8>) -> Seq<u8>;

/// What encoding `b` with `c` returns.
pub open spec fn enc_of(c: Encoding, b: Seq<u8>) -> Seq<u8> {
    match c {
        Encoding::Identity => b,
        Encoding::Brotli => brotli_of(b),
        Encoding::Deflate => deflate_of(b),
        Encoding::GZip => gzip_of(b),
        Encoding::Zstandard => zstd_of(b),
    }
}

/// What decoding `b` with `c` returns, when it succeeds.
pub open spec fn dec_of(c: Encoding, b: Seq<u8>) -> Seq<u8> {
    match c {
        Encoding::Identity => b,
        Encoding::Brotli => unbrotli_of(b),
        Encoding::Deflate => undeflate_of(b),
        Encoding::GZip => ungzip_of(b),
        Encoding::Zstandard => unzstd_of(b),
    }
}

/// `b` is a value the encoder for `c` can produce: reencoding its own
/// decoding gives `b` back. Every encoder output satisfies this, and
/// decoding such bytes is guaranteed to succeed.
pub open spec fn coherent(c: Encoding, b: Seq<u8>) -> bool {
    c == Encoding::Identity || b == enc_of(c, dec_of(c, b))
}

/// Relies on `flate2::write::GzEncoder`: compressing into memory cannot
/// fail, and gzip is lossless, so decompressing the result restores the
/// input bytes.
#[verifier::external_body]
fn gzip_encode(bytes: &Vec<u8>) -> (r: Vec<u8>)
    ensures
        r@ == gzip_of(bytes@),
        ungzip_of(r@) == bytes@,
{
    let mut enc = flate2::write::GzEncoder::new(Vec::new(), flate2::Compression::default());
    std::io::Write::write_all(&mut enc, bytes.as_slice()).expect("write to memory");
    enc.finish().expect("finish to memory")
}

/// Relies on `flate2::write::GzDecoder`: decompression of any bytes the
/// gzip encoder can produce succeeds and is a function of the bytes alone.
#[verifier::external_body]
fn gzip_decode(bytes: &Vec<u8>) -> (r: Result<Vec<u8>, CodecError>)
    ensures
        r matches Ok(v) ==> v@ == ungzip_of(bytes@),
        bytes@ == gzip_of(ungzip_of(bytes@)) ==> r is Ok,
{
    let mut dec = flate2::write::GzDecoder::new(Vec::new());
    match std::io::Write::write_all(&mut dec, bytes.as_slice()) {
        Ok(()) => dec.finish().map_err(|_| CodecError),
        Err(_) => Err(CodecError),
    }
}

/// Relies on `flate2::write::DeflateEncoder`: compressing into memory
/// cannot fail, and deflate is lossless.
#[verifier::external_body]
fn deflate_encode(bytes: &Vec<u8>) -> (r: Vec<u8>)
    ensures
        r@ == deflate_of(bytes@),
        undeflate_of(r@) == bytes@,
{
    let mut enc = flate2::write::DeflateEncoder::new(Vec::new(), flate2::Compression::default());
    std::io::Write::write_all(&mut enc, bytes.as_slice()).expect("write to memory");
    enc.finish().expect("finish to memory")
}

/// Relies on `flate2::write::DeflateDecoder`: decompression of any bytes
/// the deflate encoder can produce succeeds.
#[verifier::external_body]
fn deflate_decode(bytes: &Vec<u8>) -> (r: Result<Vec<u8>, CodecError>)
    ensures
        r matches Ok(v) ==> v@ == undeflate_of(bytes@),
        bytes@ == deflate_of(undeflate_of(bytes@)) ==> r is Ok,
{
    let mut dec = flate2::write::DeflateDecoder::new(Vec::new());
    match std::io::Write::write_all(&mut dec, bytes.as_slice()) {
        Ok(()) => dec.finish().map_err(|_| CodecError),
        Err(_) => Err(CodecError),
    }
}

/// Relies on `brotli::enc::BrotliCompress`: compressing into memory cannot
/// fail, and brotli is lossless.
#[verifier::external_body]
fn brotli_encode(bytes: &Vec<u8>) -> (r: Vec<u8>)
    ensures
        r@ == brotli_of(bytes@),
        unbrotli_of(r@) == bytes@,
{
    let mut out: Vec<u8> = Vec::new();
    let params = brotli::enc::BrotliEncoderParams::default();
    brotli::enc::BrotliCompress(&mut bytes.as_slice(), &mut out, &params)
        .expect("compress to memory");
    out
}

/// Relies on `brotli::BrotliDecompress`: decompression of any bytes the
/// brotli encoder can produce succeeds.
#[verifier::external_body]
fn brotli_decode(bytes: &Vec<u8>) -> (r: Result<Vec<u8>, CodecError>)
    ensures
        r matches Ok(v) ==> v@ == unbrotli_of(bytes@),
        bytes@ == brotli_of(unbrotli_of(bytes@)) ==> r is Ok,
{
    let mut out: Vec<u8> = Vec::new();
    match brotli::BrotliDecompress(&mut bytes.as_slice(), &mut out) {
        Ok(()) => Ok(out),
        Err(_) => Err(CodecError),
    }
}

/// Relies on `zstd::stream::encode_all`: compressing into memory at the
/// default level cannot fail, and zstandard is lossless.
#[verifier::external_body]
fn zstd_encode(bytes: &Vec<u8>) -> (r: Vec<u8>)
    ensures
        r@ == zstd_of(bytes@),
        unzstd_of(r@) == bytes@,
{
    zstd::stream::encode_all(bytes.as_slice(), zstd::DEFAULT_COMPRESSION_LEVEL)
        .expect("compress to memory")
}

/// Relies on `zstd::stream::decode_all`: decompression of any bytes the
/// zstandard encoder can produce succeeds.
#[verifier::external_body]
fn zstd_decode(bytes: &Vec<u8>) -> (r: Result<Vec<u8>, CodecError>)
    ensures
        r matches Ok(v) ==> v@ == unzstd_of(bytes@),
        bytes@ == zstd_of(unzstd_of(bytes@)) ==> r is Ok,
{
    zstd::stream::decode_all(bytes.as_slice()).map_err(|_| CodecError)
}

/// Copy a byte vector.
pub fn copy_bytes(v: &Vec<u8>) -> (r: Vec<u8>)
    ensures
        r@ == v@,
{
    let mut r: Vec<u8> = Vec::new();
    let mut i: usize = 0;
    while i < v.len()
        invariant
            i <= v@.len(),
            r@ == v@.subrange(0, i as int),
        decreases v@.len() - i,
    {
        r.push(v[i]);
        i = i + 1;
        assert(r@ =~= v@.subrange(0, i as int));
    }
    assert(r@ =~= v@);
    r
}

/// Encode `bytes` with `c`. Encoding with identity copies the bytes.
/// The result is exactly what the codec returns, decodes back to `bytes`,
/// and is itself a value the codec can produce.
pub fn encode(bytes: &Vec<u8>, c: Encoding) -> (r: Vec<u8>)
    ensures
        r@ == enc_of(c, bytes@),
        dec_of(c, r@) == bytes@,
        coherent(c, r@),
{
    match c {
        Encoding::Identity => copy_bytes(bytes),
        Encoding::Brotli => brotli_encode(bytes),
        Encoding::Deflate => deflate_encode(bytes),
        Encoding::GZip => gzip_encode(bytes),
        Encoding::Zstandard => zstd_encode(bytes),
    }
}

/// Decode `bytes` with `c`. Decoding with identity copies the bytes.
/// Succeeds on every value the codec for `c` can produce, and then returns
/// exactly the codec's decoding.
pub fn decode(bytes: &Vec<u8>, c: Encoding) -> (r: Result<Vec<u8>, CodecError>)
    ensures
        r matches Ok(v) ==> v@ == dec_of(c, bytes@),
        coherent(c, bytes@) ==> r is Ok,
{
    match c {
        Encoding::Identity => Ok(copy_bytes(bytes)),
        Encoding::Brotli => brotli_decode(bytes),
        Encoding::Deflate => deflate_decode(bytes),
        Encoding::GZip => gzip_decode(bytes),
        Encoding::Zstandard => zstd_decode(bytes),
    }
}

} // verus!
