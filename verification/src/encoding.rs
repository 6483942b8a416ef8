//! Content encodings supported by the cache.

use vstd::prelude::*;

verus! {

/// A content-encoding algorithm. The set is closed: identity plus the four
/// compression codecs the middleware can store and serve.
#[derive(Clone, Copy, Debug, PartialEq, Eq, Structural, Hash)]
pub enum Encoding {
    /// No encoding.
    Identity,
    /// Brotli.
    Brotli,
    /// Deflate (raw).
    Deflate,
    /// GZip.
    GZip,
    /// Zstandard.
    Zstandard,
}

impl Encoding {
    /// The `Content-Encoding` token, in specification form: `identity`,
    /// `br`, `deflate`, `gzip` or `zstd` as ASCII bytes.
    pub open spec fn spec_token(self) -> Seq<u8> {
        match self {
            Encoding::Identity => seq![
                0x69u8, 0x64u8, 0x65u8, 0x6eu8, 0x74u8, 0x69u8, 0x74u8, 0x79u8,
            ],
            Encoding::Brotli => seq![0x62u8, 0x72u8],
            Encoding::Deflate => seq![0x64u8, 0x65u8, 0x66u8, 0x6cu8, 0x61u8, 0x74u8, 0x65u8],
            Encoding::GZip => seq![0x67u8, 0x7au8, 0x69u8, 0x70u8],
            Encoding::Zstandard => seq![0x7au8, 0x73u8, 0x74u8, 0x64u8],
        }
    }

    /// The `Content-Encoding` token for this encoding, as header bytes.
    /// Responses never carry the `identity` token explicitly.
    pub fn token(self) -> (r: Vec<u8>)
        ensures
            r@ == self.spec_token(),
    {
        let mut v: Vec<u8> = Vec::new();
        match self {
            Encoding::Identity => {
                v.push(0x69);
                v.push(0x64);
                v.push(0x65);
                v.push(0x6e);
                v.push(0x74);
                v.push(0x69);
                v.push(0x74);
                v.push(0x79);
            }
            Encoding::Brotli => {
                v.push(0x62);
                v.push(0x72);
            }
            Encoding::Deflate => {
                v.push(0x64);
                v.push(0x65);
                v.push(0x66);
                v.push(0x6c);
                v.push(0x61);
                v.push(0x74);
                v.push(0x65);
            }
            Encoding::GZip => {
                v.push(0x67);
                v.push(0x7a);
                v.push(0x69);
                v.push(0x70);
            }
            Encoding::Zstandard => {
                v.push(0x7a);
                v.push(0x73);
                v.push(0x74);
                v.push(0x64);
            }
        }
        assert(v@ =~= self.spec_token());
        v
    }
}

} // verus!
