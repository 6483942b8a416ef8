//! Upstream response classification: cacheability after seeing the
//! upstream headers, and validation of the chosen encoding.

use vstd::prelude::*;

use crate::config::{CachingConfiguration, MiddlewareCachingConfiguration,
    MiddlewareEncodingConfiguration};
use crate::encoding::Encoding;
use crate::headers::{has_header, spec_bool_value, spec_content_length, HeaderMap, HeaderName,
    SpecEntry, SpecName};

verus! {

/// Whether an upstream response bypasses the cache, and its
/// `Content-Length` when it declares one: skipped when `XX-Cache` reads
/// false, the status is not a success, the response is partial, the
/// declared length falls outside the cacheable bounds, or the
/// cacheable-by-response hook said no.
pub open spec fn spec_response_skip_cache(
    status: u16,
    h: Seq<SpecEntry>,
    inner: CachingConfiguration,
    cacheable_by_response: Option<bool>,
) -> (bool, Option<usize>) {
    if !spec_bool_value(h, SpecName::XxCache, inner.cacheable_by_default) {
        (true, None)
    } else if !(200 <= status < 300) {
        (true, None)
    } else if has_header(h, SpecName::ContentRange) {
        (true, None)
    } else {
        match spec_content_length(h) {
            Some(cl) => if cl < inner.min_body_size {
                (true, Some(cl))
            } else if cl > inner.max_body_size {
                (true, Some(cl))
            } else if cacheable_by_response == Some(false) {
                (true, Some(cl))
            } else {
                (false, Some(cl))
            },
            None => if cacheable_by_response == Some(false) {
                (true, None)
            } else {
                (false, None)
            },
        }
    }
}

/// The encoding choice after seeing the upstream response, and whether
/// skipping encoding was forced: a non-identity choice is downgraded when
/// the declared length is below the encodable minimum or the
/// encodable-by-response hook said no.
pub open spec fn spec_validate_encoding(
    encoding: Encoding,
    content_length: Option<usize>,
    min_body_size: nat,
    encodable_by_response: Option<bool>,
) -> (Encoding, bool) {
    if encoding == Encoding::Identity {
        (encoding, false)
    } else if (match content_length {
        Some(cl) => cl < min_body_size,
        None => false,
    }) {
        (Encoding::Identity, true)
    } else if encodable_by_response == Some(false) {
        (Encoding::Identity, true)
    } else {
        (encoding, false)
    }
}

/// An upstream response's decision-relevant parts: status and headers.
/// The body stays with the host while these are classified.
pub struct UpstreamResponse {
    /// Status code.
    pub status: u16,
    /// Response headers.
    pub headers: HeaderMap,
}

impl UpstreamResponse {
    /// Whether this response bypasses the cache, also returning its
    /// declared `Content-Length`. The hook's verdict, when one is
    /// installed, arrives as an argument; it only counts once the
    /// internal checks pass.
    pub fn should_skip_cache(
        &self,
        configuration: &MiddlewareCachingConfiguration,
        cacheable_by_response: Option<bool>,
    ) -> (r: (bool, Option<usize>))
        ensures
            r == spec_response_skip_cache(
                self.status,
                self.headers@,
                configuration.inner,
                cacheable_by_response,
            ),
    {
        if !self.headers.xx_cache(configuration.inner.cacheable_by_default) {
            return (true, None);
        }
        if !(200 <= self.status && self.status < 300) {
            return (true, None);
        }
        if self.headers.contains(&HeaderName::ContentRange) {
            return (true, None);
        }
        match self.headers.content_length() {
            Some(cl) => {
                if cl < configuration.inner.min_body_size {
                    (true, Some(cl))
                } else if cl > configuration.inner.max_body_size {
                    (true, Some(cl))
                } else {
                    match cacheable_by_response {
                        Some(false) => (true, Some(cl)),
                        _ => (false, Some(cl)),
                    }
                }
            }
            None => {
                match cacheable_by_response {
                    Some(false) => (true, None),
                    _ => (false, None),
                }
            }
        }
    }

    /// Validate the chosen encoding against this response, returning the
    /// possibly downgraded encoding and whether the skip was forced.
    pub fn validate_encoding(
        &self,
        encoding: Encoding,
        content_length: Option<usize>,
        configuration: &MiddlewareEncodingConfiguration,
        encodable_by_response: Option<bool>,
    ) -> (r: (Encoding, bool))
        ensures
            r == spec_validate_encoding(
                encoding,
                content_length,
                configuration.inner.min_body_size as nat,
                encodable_by_response,
            ),
    {
        if encoding == Encoding::Identity {
            return (encoding, false);
        }
        match content_length {
            Some(cl) => {
                if cl < configuration.inner.min_body_size {
                    return (Encoding::Identity, true);
                }
            }
            None => {}
        }
        match encodable_by_response {
            Some(false) => (Encoding::Identity, true),
            _ => (encoding, false),
        }
    }
}

} // verus!
