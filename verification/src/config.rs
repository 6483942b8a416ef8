//! Configuration records for caching and encoding.

use vstd::prelude::*;

use crate::encoding::Encoding;

verus! {

/// Size thresholds and defaults for caching decisions. The cache-duration
/// hook is host-supplied; its verdict reaches the library as an argument.
#[derive(Clone, Copy)]
pub struct CachingConfiguration {
    /// Minimum body size worth caching, in bytes.
    pub min_body_size: usize,
    /// Maximum body size worth caching, in bytes.
    pub max_body_size: usize,
    /// How `XX-Cache` reads when the header is absent.
    pub cacheable_by_default: bool,
}

impl CachingConfiguration {
    /// The configured bounds are in order.
    pub open spec fn wf(self) -> bool {
        self.min_body_size <= self.max_body_size
    }
}

impl Default for CachingConfiguration {
    /// Cache everything up to one mebibyte.
    fn default() -> (r: Self)
        ensures
            r.min_body_size == 0,
            r.max_body_size == 1048576,
            r.cacheable_by_default,
    {
        CachingConfiguration { min_body_size: 0, max_body_size: 1048576, cacheable_by_default: true }
    }
}

/// Size threshold and defaults for encoding decisions.
#[derive(Clone, Copy)]
pub struct EncodingConfiguration {
    /// Minimum body size worth encoding, in bytes.
    pub min_body_size: usize,
    /// How `XX-Encode` reads when the header is absent.
    pub encodable_by_default: bool,
    /// Whether an identity representation produced while reencoding is kept.
    pub keep_identity_encoding: bool,
}

impl Default for EncodingConfiguration {
    /// Encode everything and keep identity copies.
    fn default() -> (r: Self)
        ensures
            r.min_body_size == 0,
            r.encodable_by_default,
            r.keep_identity_encoding,
    {
        EncodingConfiguration {
            min_body_size: 0,
            encodable_by_default: true,
            keep_identity_encoding: true,
        }
    }
}

/// Copy a list of encodings.
pub fn copy_encodings(v: &Vec<Encoding>) -> (r: Vec<Encoding>)
    ensures
        r@ == v@,
{
    let mut r: Vec<Encoding> = Vec::new();
    let mut i: usize = 0;
    while i < v.len()
        invariant
            i <= v@.len(),
            r@ == v@.subrange(0, i as int),
        decreases v@.len() - i,
    {
        r.push(v[i]);
        i = i + 1;
        assert(r@ =~= v@.subrange(0, i as int));
    }
    assert(r@ =~= v@);
    r
}

/// The server's encoding preference when nothing else is configured:
/// generally optimizing for compute over bandwidth, and gzip over deflate
/// because gzip lets clients check for errors.
pub fn encodings_by_preference() -> (r: Vec<Encoding>)
    ensures
        r@ == spec_encodings_by_preference(),
{
    let mut v: Vec<Encoding> = Vec::new();
    v.push(Encoding::Brotli);
    v.push(Encoding::GZip);
    v.push(Encoding::Deflate);
    v.push(Encoding::Zstandard);
    proof {
        assert(v@ =~= spec_encodings_by_preference());
    }
    v
}

/// The default preference order, in specification form.
pub open spec fn spec_encodings_by_preference() -> Seq<Encoding> {
    seq![Encoding::Brotli, Encoding::GZip, Encoding::Deflate, Encoding::Zstandard]
}

/// Caching side of the middleware configuration. Whether a cache is
/// installed is all the decisions need to know of it; hooks stay with the
/// host and hand their verdicts in as arguments.
#[derive(Clone, Copy)]
pub struct MiddlewareCachingConfiguration {
    /// A cache is installed.
    pub cache_enabled: bool,
    /// Inner thresholds and defaults.
    pub inner: CachingConfiguration,
}

impl Default for MiddlewareCachingConfiguration {
    /// No cache installed, inner defaults.
    fn default() -> (r: Self)
        ensures
            !r.cache_enabled,
            r.inner.min_body_size == 0,
            r.inner.max_body_size == 1048576,
            r.inner.cacheable_by_default,
    {
        MiddlewareCachingConfiguration {
            cache_enabled: false,
            inner: CachingConfiguration {
                min_body_size: 0,
                max_body_size: 1048576,
                cacheable_by_default: true,
            },
        }
    }
}

/// Encoding side of the middleware configuration.
pub struct MiddlewareEncodingConfiguration {
    /// Enabled encodings in order of preference; absent or empty disables
    /// encoding.
    pub enabled_encodings_by_preference: Option<Vec<Encoding>>,
    /// Inner threshold and defaults.
    pub inner: EncodingConfiguration,
}

impl MiddlewareEncodingConfiguration {
    /// The enabled encodings, in specification form.
    pub open spec fn enabled_view(&self) -> Option<Seq<Encoding>> {
        match self.enabled_encodings_by_preference {
            Some(v) => Some(v@),
            None => None,
        }
    }
}

impl Clone for MiddlewareEncodingConfiguration {
    /// The clone carries the same preferences and thresholds.
    fn clone(&self) -> (r: Self)
        ensures
            r.enabled_view() == self.enabled_view(),
            r.inner == self.inner,
    {
        let enabled = match &self.enabled_encodings_by_preference {
            Some(v) => Some(copy_encodings(v)),
            None => None,
        };
        MiddlewareEncodingConfiguration {
            enabled_encodings_by_preference: enabled,
            inner: self.inner,
        }
    }
}

impl Default for MiddlewareEncodingConfiguration {
    /// All encodings enabled in the default preference order, inner
    /// defaults.
    fn default() -> (r: Self)
        ensures
            r.enabled_view() == Some(spec_encodings_by_preference()),
            r.inner.min_body_size == 0,
            r.inner.encodable_by_default,
            r.inner.keep_identity_encoding,
    {
        MiddlewareEncodingConfiguration {
            enabled_encodings_by_preference: Some(encodings_by_preference()),
            inner: EncodingConfiguration {
                min_body_size: 0,
                encodable_by_default: true,
                keep_identity_encoding: true,
            },
        }
    }
}

} // verus!
