//! Cached HTTP responses: parts, body and optional time-to-live, and
//! their serialization back to responses.

use vstd::prelude::*;

use crate::ascii::{dec_repr, format_usize};
use crate::body::{new_with_rep, reencoded_rep, CachedBody};
use crate::codec::{coherent, dec_of, CodecError};
use crate::config::EncodingConfiguration;
use crate::encoding::Encoding;
use crate::headers::{
    has_header, lemma_get_has, lemma_get_push, lemma_get_remove_other, lemma_push_presence,
    lemma_remove_absent, lemma_remove_keeps_absence, lemma_remove_keeps_presence,
    lemma_values_push, lemma_values_remove_other, remove_header, spec_bool_value,
    spec_content_encoding, spec_get, true_seq, HeaderMap, HeaderName, SpecEntry, SpecName,
};
use crate::time::{http_date_secs_of, http_date_now, parse_duration_millis, duration_millis_of};

verus! {

/// A response ready for emission: status, headers, and a buffered body.
pub struct Response {
    /// Status code.
    pub status: u16,
    /// Headers.
    pub headers: HeaderMap,
    /// Body bytes.
    pub body: Vec<u8>,
}

/// A name the cache carries through untouched: everything except the
/// control headers and the headers the cache itself owns.
pub open spec fn preserved_name(n: SpecName) -> bool {
    !(n is XxCache || n is XxCacheDuration || n is XxEncode || n is ContentEncoding
        || n is ContentLength || n is ContentDigest || n is AcceptRanges || n is LastModified)
}

/// What a stored entry's headers look like: a `Last-Modified` is present,
/// and the headers the cache computes on egress are absent.
pub open spec fn stored_headers_ok(h: Seq<SpecEntry>) -> bool {
    &&& !has_header(h, SpecName::XxCache)
    &&& !has_header(h, SpecName::XxCacheDuration)
    &&& !has_header(h, SpecName::ContentEncoding)
    &&& !has_header(h, SpecName::ContentLength)
    &&& !has_header(h, SpecName::ContentDigest)
    &&& !has_header(h, SpecName::AcceptRanges)
    &&& has_header(h, SpecName::LastModified)
}

/// The encoding an entry is actually stored or served under: the wanted
/// one, downgraded to identity when `XX-Encode` forbids encoding.
pub open spec fn spec_effective_encoding(
    h: Seq<SpecEntry>,
    wanted: Encoding,
    encodable_by_default: bool,
) -> Encoding {
    if wanted != Encoding::Identity && !spec_bool_value(h, SpecName::XxEncode, encodable_by_default) {
        Encoding::Identity
    } else {
        wanted
    }
}

/// The encoding a new entry is stored under: the preferred one, downgraded
/// to identity when `XX-Encode` forbids encoding or the body is smaller
/// than the encodable minimum.
pub open spec fn spec_storage_encoding(
    h: Seq<SpecEntry>,
    body_len: nat,
    preferred: Encoding,
    cfg: EncodingConfiguration,
) -> Encoding {
    if preferred != Encoding::Identity && (!spec_bool_value(
        h,
        SpecName::XxEncode,
        cfg.encodable_by_default,
    ) || body_len < cfg.min_body_size) {
        Encoding::Identity
    } else {
        preferred
    }
}

/// The time-to-live of a new entry, in milliseconds: the
/// `XX-Cache-Duration` header when present and well formed, else whatever
/// the cache-duration hook said.
pub open spec fn spec_cache_duration(h: Seq<SpecEntry>, hook: Option<u64>) -> Option<u64> {
    match spec_get(h, SpecName::XxCacheDuration) {
        Some(v) => match duration_millis_of(v) {
            Some(d) => Some(d),
            None => hook,
        },
        None => hook,
    }
}

/// How one removal changes lookups: nothing for other names, absence for
/// the removed one.
pub proof fn lemma_step_remove(pre: Seq<SpecEntry>, m: SpecName)
    ensures
        forall|n: SpecName| n != m ==> spec_get(remove_header(pre, m), n) == spec_get(pre, n),
        forall|n: SpecName| n != m ==> #[trigger] crate::headers::values_of(
            remove_header(pre, m),
            n,
        ) == crate::headers::values_of(pre, n),
        forall|n: SpecName|
            !has_header(pre, n) ==> !has_header(remove_header(pre, m), n),
        !has_header(remove_header(pre, m), m),
        forall|n: SpecName|
            n != m && has_header(pre, n) ==> has_header(remove_header(pre, m), n),
{
    lemma_remove_absent(pre, m);
    assert forall|n: SpecName| n != m implies spec_get(remove_header(pre, m), n) == spec_get(
        pre,
        n,
    ) by {
        lemma_get_remove_other(pre, m, n);
    }
    assert forall|n: SpecName| n != m implies #[trigger] crate::headers::values_of(
        remove_header(pre, m),
        n,
    ) == crate::headers::values_of(pre, n) by {
        lemma_values_remove_other(pre, m, n);
    }
    assert forall|n: SpecName| !has_header(pre, n) implies !has_header(
        remove_header(pre, m),
        n,
    ) by {
        lemma_remove_keeps_absence(pre, m, n);
    }
    assert forall|n: SpecName| n != m && has_header(pre, n) implies has_header(
        remove_header(pre, m),
        n,
    ) by {
        lemma_remove_keeps_presence(pre, m, n);
    }
}

/// How one append changes lookups: nothing for other names, presence for
/// the appended one.
pub proof fn lemma_step_push(pre: Seq<SpecEntry>, x: SpecEntry)
    ensures
        forall|n: SpecName| n != x.0 ==> spec_get(pre.push(x), n) == spec_get(pre, n),
        forall|n: SpecName| n != x.0 ==> #[trigger] crate::headers::values_of(pre.push(x), n)
            == crate::headers::values_of(pre, n),
        forall|n: SpecName| !has_header(pre, n) && n != x.0 ==> !has_header(pre.push(x), n),
        has_header(pre.push(x), x.0),
        forall|n: SpecName| has_header(pre, n) ==> has_header(pre.push(x), n),
        spec_get(pre, x.0) is None ==> spec_get(pre.push(x), x.0) == Some(x.1),
{
    assert forall|n: SpecName| n != x.0 implies spec_get(pre.push(x), n) == spec_get(pre, n) by {
        lemma_get_push(pre, x, n);
    }
    assert forall|n: SpecName| n != x.0 implies #[trigger] crate::headers::values_of(
        pre.push(x),
        n,
    ) == crate::headers::values_of(pre, n) by {
        lemma_values_push(pre, x, n);
        assert(crate::headers::values_of(pre.push(x), n) =~= crate::headers::values_of(pre, n));
    }
    assert forall|n: SpecName| !has_header(pre, n) && n != x.0 implies !has_header(
        pre.push(x),
        n,
    ) by {
        lemma_push_presence(pre, x, n);
    }
    lemma_push_presence(pre, x, x.0);
    assert forall|n: SpecName| has_header(pre, n) implies has_header(pre.push(x), n) by {
        lemma_push_presence(pre, x, n);
    }
    if spec_get(pre, x.0) is None {
        lemma_get_push(pre, x, x.0);
    }
}

/// What serializing an entry guarantees of the response and the optional
/// updated entry: the negotiated body with its length declared, the
/// control headers kept inside the cache, everything else carried
/// through, and an updated entry that differs only by the representation
/// served.
pub open spec fn to_response_post(
    entry: CachedResponse,
    encoding: Encoding,
    configuration: EncodingConfiguration,
    resp: Response,
    upd: Option<CachedResponse>,
) -> bool {
    let eff = spec_effective_encoding(
        entry.headers@,
        encoding,
        configuration.encodable_by_default,
    );
    &&& resp.status == entry.status
    &&& (entry.body.wf() ==> resp.body@ == entry.body.served_bytes(eff))
    &&& !has_header(resp.headers@, SpecName::XxEncode)
    &&& spec_get(resp.headers@, SpecName::ContentLength) == Some(dec_repr(resp.body@.len()))
    &&& (eff != Encoding::Identity ==> spec_get(resp.headers@, SpecName::ContentEncoding) == Some(
        eff.spec_token(),
    ))
    &&& (eff == Encoding::Identity ==> spec_get(resp.headers@, SpecName::ContentEncoding)
        == spec_get(entry.headers@, SpecName::ContentEncoding))
    &&& (!has_header(entry.headers@, SpecName::XxCache) ==> !has_header(
        resp.headers@,
        SpecName::XxCache,
    ))
    &&& (!has_header(entry.headers@, SpecName::XxCacheDuration) ==> !has_header(
        resp.headers@,
        SpecName::XxCacheDuration,
    ))
    &&& forall|n: SpecName|
        preserved_name(n) ==> #[trigger] crate::headers::values_of(resp.headers@, n)
            == crate::headers::values_of(entry.headers@, n)
    &&& (entry.body.wf() ==> (upd is Some <==> entry.body.rep(eff) is None))
    &&& (upd matches Some(m) ==> m.status == entry.status && m.headers@ == entry.headers@
        && m.duration == entry.duration)
    &&& (entry.body.wf() ==> (upd matches Some(m) ==> m.body.wf() && m.body.payload
        == entry.body.payload && forall|d: Encoding|
        m.body.rep(d) == reencoded_rep(
            entry.body,
            eff,
            configuration.keep_identity_encoding,
            d,
        )))
}

/// A cached HTTP response: parts, a multi-encoding body, and an optional
/// time-to-live in milliseconds.
pub struct CachedResponse {
    /// Status code.
    pub status: u16,
    /// Stored headers.
    pub headers: HeaderMap,
    /// Stored body.
    pub body: CachedBody,
    /// Optional time-to-live, in milliseconds.
    pub duration: Option<u64>,
}

impl CachedResponse {
    /// The entry is well formed: the body is, and the headers carry what a
    /// stored entry must.
    pub open spec fn wf(self) -> bool {
        &&& self.body.wf()
        &&& stored_headers_ok(self.headers@)
    }

    /// Build an entry from an upstream response whose body has already
    /// been read in full.
    ///
    /// The preferred encoding is downgraded to identity when the upstream
    /// said `XX-Encode: false` or the body is below the encodable minimum.
    /// The body is stored under that encoding, reencoded from the
    /// upstream's `Content-Encoding` if needed; reencoding fails only on
    /// bytes their claimed codec cannot have produced, and then nothing is
    /// cached. The time-to-live comes from `XX-Cache-Duration`, else from
    /// the cache-duration hook's verdict. A missing `Last-Modified` is
    /// stamped with the present wall-clock date. The headers the cache
    /// owns are stripped, and a forced skip of encoding is remembered as
    /// `XX-Encode: true`.
    pub fn new_for(
        status: u16,
        headers: HeaderMap,
        bytes: Vec<u8>,
        preferred_encoding: Encoding,
        skip_encoding: bool,
        encoding_configuration: &EncodingConfiguration,
        hook_duration: Option<u64>,
    ) -> (r: Result<Self, CodecError>)
        ensures
            coherent(spec_content_encoding(headers@), bytes@) ==> r is Ok,
            r matches Ok(cr) ==> {
                let h0 = headers@;
                let src = spec_content_encoding(h0);
                let eff = spec_storage_encoding(
                    h0,
                    bytes@.len(),
                    preferred_encoding,
                    *encoding_configuration,
                );
                &&& cr.status == status
                &&& cr.duration == spec_cache_duration(h0, hook_duration)
                &&& cr.body.payload@ == dec_of(src, bytes@)
                &&& forall|c: Encoding|
                    cr.body.rep(c) == new_with_rep(
                        bytes@,
                        src,
                        eff,
                        encoding_configuration.keep_identity_encoding,
                        c,
                    )
                &&& (coherent(src, bytes@) ==> cr.wf())
                &&& stored_headers_ok(cr.headers@)
                &&& spec_get(cr.headers@, SpecName::XxEncode) == (if skip_encoding {
                    Some(true_seq())
                } else {
                    spec_get(h0, SpecName::XxEncode)
                })
                &&& (has_header(h0, SpecName::LastModified) ==> spec_get(
                    cr.headers@,
                    SpecName::LastModified,
                ) == spec_get(h0, SpecName::LastModified))
                &&& (!has_header(h0, SpecName::LastModified) ==> (spec_get(
                    cr.headers@,
                    SpecName::LastModified,
                ) matches Some(lm) && http_date_secs_of(lm) is Some))
                &&& forall|n: SpecName|
                    preserved_name(n) ==> #[trigger] crate::headers::values_of(cr.headers@, n)
                        == crate::headers::values_of(h0, n)
            },
    {
        let ghost h0 = headers@;
        let mut headers = headers;
        let mut preferred = preferred_encoding;
        if !(preferred == Encoding::Identity) {
            if !headers.xx_encode(encoding_configuration.encodable_by_default) {
                preferred = Encoding::Identity;
            } else if bytes.len() < encoding_configuration.min_body_size {
                preferred = Encoding::Identity;
            }
        }
        let source = headers.content_encoding();
        let ghost src = spec_content_encoding(h0);
        let body = match CachedBody::new_with(bytes, source, preferred, encoding_configuration) {
            Ok(b) => b,
            Err(e) => {
                return Err(e);
            }
        };
        let duration: Option<u64> = match headers.get_first(&HeaderName::XxCacheDuration) {
            Some(v) => match parse_duration_millis(v) {
                Some(d) => Some(d),
                None => hook_duration,
            },
            None => hook_duration,
        };
        // Make sure a `Last-Modified` is present.
        let ghost had_lm = has_header(h0, SpecName::LastModified);
        if !headers.contains(&HeaderName::LastModified) {
            let now = http_date_now();
            let ghost pre = headers@;
            headers.set(HeaderName::LastModified, now);
            proof {
                lemma_step_remove(pre, SpecName::LastModified);
                lemma_step_push(
                    remove_header(pre, SpecName::LastModified),
                    (SpecName::LastModified, now@),
                );
                lemma_get_has(remove_header(pre, SpecName::LastModified), SpecName::LastModified);
            }
        }
        let ghost h1 = headers@;
        proof {
            assert(spec_get(h1, SpecName::XxEncode) == spec_get(h0, SpecName::XxEncode));
            assert(had_lm ==> spec_get(h1, SpecName::LastModified) == spec_get(
                h0,
                SpecName::LastModified,
            ));
            assert(!had_lm ==> (spec_get(h1, SpecName::LastModified) matches Some(lm)
                && http_date_secs_of(lm) is Some));
            assert(has_header(h1, SpecName::LastModified)) by {
                lemma_get_has(h1, SpecName::LastModified);
                if had_lm {
                    lemma_get_has(h0, SpecName::LastModified);
                }
            }
        }
        let ghost pre2 = headers@;
        headers.remove(&HeaderName::XxCache);
        proof {
            lemma_step_remove(pre2, SpecName::XxCache);
        }
        let ghost pre3 = headers@;
        headers.remove(&HeaderName::XxCacheDuration);
        proof {
            lemma_step_remove(pre3, SpecName::XxCacheDuration);
        }
        let ghost pre4 = headers@;
        headers.remove(&HeaderName::ContentEncoding);
        proof {
            lemma_step_remove(pre4, SpecName::ContentEncoding);
        }
        let ghost pre5 = headers@;
        headers.remove(&HeaderName::ContentLength);
        proof {
            lemma_step_remove(pre5, SpecName::ContentLength);
        }
        let ghost pre6 = headers@;
        headers.remove(&HeaderName::ContentDigest);
        proof {
            lemma_step_remove(pre6, SpecName::ContentDigest);
        }
        let ghost h6 = headers@;
        proof {
            assert(spec_get(h6, SpecName::XxEncode) == spec_get(h0, SpecName::XxEncode));
            assert(spec_get(h6, SpecName::LastModified) == spec_get(h1, SpecName::LastModified));
            assert(has_header(h6, SpecName::LastModified));
        }
        // A forced skip of encoding is remembered inside the cache.
        if skip_encoding {
            let ghost pre7 = headers@;
            headers.set_bool_value(HeaderName::XxEncode, true);
            proof {
                lemma_step_remove(pre7, SpecName::XxEncode);
                lemma_step_push(
                    remove_header(pre7, SpecName::XxEncode),
                    (SpecName::XxEncode, true_seq()),
                );
            }
        }
        let ghost h7 = headers@;
        let ghost pre8 = headers@;
        headers.remove(&HeaderName::AcceptRanges);
        proof {
            lemma_step_remove(pre8, SpecName::AcceptRanges);
            assert(spec_get(headers@, SpecName::XxEncode) == spec_get(h7, SpecName::XxEncode));
            assert(spec_get(headers@, SpecName::LastModified) == spec_get(
                h6,
                SpecName::LastModified,
            ));
            assert(has_header(headers@, SpecName::LastModified));
        }
        Ok(CachedResponse { status, headers, body, duration })
    }

    /// The same entry with another body.
    pub fn clone_with_body(&self, body: CachedBody) -> (r: Self)
        ensures
            r.status == self.status,
            r.headers@ == self.headers@,
            r.body == body,
            r.duration == self.duration,
    {
        CachedResponse {
            status: self.status,
            headers: self.headers.clone(),
            body,
            duration: self.duration,
        }
    }

    /// The stored headers.
    pub fn headers(&self) -> (r: &HeaderMap)
        ensures
            r@ == self.headers@,
    {
        &self.headers
    }

    /// Serialize the entry to a response in the given encoding.
    ///
    /// A stored `XX-Encode: false` forces identity. When serving had to
    /// produce a representation the entry did not store, a clone of the
    /// entry holding it comes along, for the caller to put back into the
    /// cache. `XX-Encode` never leaves the cache; `Content-Encoding` is
    /// set for a non-identity body and `Content-Length` always.
    pub fn to_response(&self, encoding: Encoding, configuration: &EncodingConfiguration) -> (r:
        Result<(Response, Option<Self>), CodecError>)
        ensures
            self.body.wf() ==> r is Ok,
            r matches Ok(p) ==> to_response_post(*self, encoding, *configuration, p.0, p.1),
    {
        let mut encoding = encoding;
        if !(encoding == Encoding::Identity) {
            if !self.headers.xx_encode(configuration.encodable_by_default) {
                encoding = Encoding::Identity;
            }
        }
        let (bytes, modified) = match self.body.get(encoding, configuration) {
            Ok(p) => p,
            Err(e) => {
                return Err(e);
            }
        };
        let mut parts = self.headers.clone();
        let ghost hp = parts@;
        parts.remove(&HeaderName::XxEncode);
        proof {
            lemma_step_remove(hp, SpecName::XxEncode);
        }
        if !(encoding == Encoding::Identity) {
            let ghost hc = parts@;
            parts.set(HeaderName::ContentEncoding, encoding.token());
            proof {
                lemma_step_remove(hc, SpecName::ContentEncoding);
                lemma_step_push(
                    remove_header(hc, SpecName::ContentEncoding),
                    (SpecName::ContentEncoding, encoding.spec_token()),
                );
                lemma_get_has(remove_header(hc, SpecName::ContentEncoding), SpecName::ContentEncoding);
            }
        }
        let ghost hl = parts@;
        let len_bytes = format_usize(bytes.len());
        parts.set(HeaderName::ContentLength, len_bytes);
        proof {
            lemma_step_remove(hl, SpecName::ContentLength);
            lemma_step_push(
                remove_header(hl, SpecName::ContentLength),
                (SpecName::ContentLength, dec_repr(bytes@.len())),
            );
            lemma_get_has(remove_header(hl, SpecName::ContentLength), SpecName::ContentLength);
        }
        let updated: Option<Self> = match modified {
            Some(b) => Some(self.clone_with_body(b)),
            None => None,
        };
        Ok((Response { status: self.status, headers: parts, body: bytes }, updated))
    }
}

} // verus!
