//! Request-side classification: cacheability, cache key, and encoding
//! negotiation.

use vstd::prelude::*;

use crate::accept::{best, parse_accept_encoding, prefs_of_values, spec_best, value_prefs};
use crate::accept::Preference;
use crate::codec::copy_bytes;
use crate::config::{MiddlewareCachingConfiguration, MiddlewareEncodingConfiguration};
use crate::encoding::Encoding;
use crate::headers::{values_of, vecs_view, HeaderMap, HeaderName, SpecEntry, SpecName};
use crate::key::{qm_has, qm_wf, query_pairs, CommonCacheKey, Method};

verus! {

/// A request, as the middleware sees it: method, path and query from the
/// URI, and the headers.
pub struct Request {
    /// Method.
    pub method: Method,
    /// Path, as on the wire, when the URI has one.
    pub path: Option<Vec<u8>>,
    /// Raw query bytes, when the URI has one.
    pub query: Option<Vec<u8>>,
    /// Request headers.
    pub headers: HeaderMap,
}

/// Whether a request bypasses the cache: always when no cache is
/// installed or the method is not idempotent, and otherwise when the
/// cacheable-by-request hook, if any, said no.
pub open spec fn spec_should_skip_cache(
    method: Method,
    cache_enabled: bool,
    cacheable_by_request: Option<bool>,
) -> bool {
    !cache_enabled || !method.spec_idempotent() || cacheable_by_request == Some(false)
}

/// The negotiated encoding of a request: the client's most preferred
/// enabled encoding per `Accept-Encoding`, identity when encoding is
/// disabled or nothing matches, and identity when the
/// encodable-by-request hook refused a non-identity choice.
pub open spec fn spec_select_encoding(
    h: Seq<SpecEntry>,
    enabled: Option<Seq<Encoding>>,
    encodable_by_request: Option<bool>,
) -> Encoding {
    match enabled {
        None => Encoding::Identity,
        Some(en) => if en.len() == 0 {
            Encoding::Identity
        } else {
            let chosen = match spec_best(
                prefs_of_values(values_of(h, SpecName::AcceptEncoding)),
                en,
            ) {
                None => Encoding::Identity,
                Some(e) => e,
            };
            if chosen != Encoding::Identity && encodable_by_request == Some(false) {
                Encoding::Identity
            } else {
                chosen
            }
        },
    }
}

impl Request {
    /// Whether this request bypasses the cache. The hook's verdict, when
    /// one is installed, arrives as an argument; it only counts once the
    /// internal conditions pass.
    pub fn should_skip_cache(
        &self,
        configuration: &MiddlewareCachingConfiguration,
        cacheable_by_request: Option<bool>,
    ) -> (r: bool)
        ensures
            r == spec_should_skip_cache(
                self.method,
                configuration.cache_enabled,
                cacheable_by_request,
            ),
    {
        if !configuration.cache_enabled {
            return true;
        }
        if !self.method.is_idempotent() {
            return true;
        }
        match cacheable_by_request {
            Some(false) => true,
            _ => false,
        }
    }

    /// The default cache key of this request. The cache-key hook, when
    /// installed, mutates the result afterwards.
    pub fn cache_key(&self) -> (r: CommonCacheKey)
        ensures
            r@.method == self.method,
            r@.path == (match self.path {
                Some(p) => Some(p@),
                None => None::<Seq<u8>>,
            }),
            (match (self.query, r@.query) {
                (Some(q), Some(m)) => qm_wf(m) && forall|k: Seq<u8>, w: Seq<u8>|
                    qm_has(m, k, w) == query_pairs(q@).contains((k, w)),
                (None, None) => true,
                _ => false,
            }),
            r@.scheme is None && r@.host is None && r@.port is None,
            r@.media_type is None && r@.languages is None && r@.extensions is None,
    {
        let path = match &self.path {
            Some(p) => Some(copy_bytes(p)),
            None => None,
        };
        let query = match &self.query {
            Some(q) => Some(copy_bytes(q)),
            None => None,
        };
        CommonCacheKey::for_request(self.method, path, query, &self.headers)
    }

    /// The negotiated encoding for this request.
    pub fn select_encoding(
        &self,
        configuration: &MiddlewareEncodingConfiguration,
        encodable_by_request: Option<bool>,
    ) -> (r: Encoding)
        ensures
            r == spec_select_encoding(
                self.headers@,
                configuration.enabled_view(),
                encodable_by_request,
            ),
    {
        let enabled = match &configuration.enabled_encodings_by_preference {
            None => {
                return Encoding::Identity;
            }
            Some(en) => en,
        };
        if enabled.len() == 0 {
            return Encoding::Identity;
        }
        let values = self.headers.get_all(&HeaderName::AcceptEncoding);
        let prefs = prefs_of_values_exec(&values, 0);
        proof {
            assert(vecs_view(values@).subrange(0, vecs_view(values@).len() as int) =~= vecs_view(
                values@,
            ));
        }
        let chosen = match best(&prefs, enabled) {
            None => Encoding::Identity,
            Some(e) => e,
        };
        if !(chosen == Encoding::Identity) {
            match encodable_by_request {
                Some(false) => {
                    return Encoding::Identity;
                }
                _ => {}
            }
        }
        chosen
    }
}

/// Parse and concatenate the preferences of header values from a position
/// on.
fn prefs_of_values_exec(values: &Vec<Vec<u8>>, i: usize) -> (r: Vec<Preference>)
    requires
        i <= values@.len(),
    ensures
        r@ == prefs_of_values(
            vecs_view(values@).subrange(i as int, vecs_view(values@).len() as int),
        ),
    decreases values@.len() - i,
{
    let ghost vv = vecs_view(values@);
    proof {
        crate::headers::lemma_vecs_view(values@);
    }
    if i >= values.len() {
        let r: Vec<Preference> = Vec::new();
        proof {
            assert(vv.subrange(i as int, vv.len() as int).len() == 0);
        }
        return r;
    }
    let ghost suf = vv.subrange(i as int, vv.len() as int);
    proof {
        assert(suf[0] == vv[i as int]);
        assert(vv[i as int] == values@[i as int]@);
        assert(suf.drop_first() =~= vv.subrange(i as int + 1, vv.len() as int));
    }
    let mut out = parse_accept_encoding(&values[i]);
    let mut rest = prefs_of_values_exec(values, i + 1);
    out.append(&mut rest);
    proof {
        assert(out@ =~= prefs_of_values(suf));
    }
    out
}

/// With the cache disabled every request bypasses it: the middleware then
/// always forwards to the inner service and emits its response with at
/// most the negotiated streamed encoding, which depends only on
/// `Accept-Encoding` and the upstream response.
pub proof fn lemma_disabled_cache_bypasses(method: Method, cacheable_by_request: Option<bool>)
    ensures
        spec_should_skip_cache(method, false, cacheable_by_request),
{
}

} // verus!
