//! Weight accounting: byte-count estimates for cache capacity bookkeeping.
//!
//! A weight is an estimate of storage, not of memory: representations
//! share buffers, so sums of weights may overcount. Record overheads are
//! fixed estimates.

use vstd::prelude::*;

use crate::body::{sat_add, sat_cap};
use crate::headers::{HeaderMap, HeaderName, SpecEntry, SpecName};
use crate::key::{qentry_view, CommonCacheKey, QueryMap};
use crate::response::CachedResponse;

verus! {

/// Fixed weight estimate for a cached response record.
pub const RESPONSE_BASE_WEIGHT: usize = 96;

/// Fixed weight estimate per header entry, besides its bytes.
pub const HEADER_ENTRY_WEIGHT: usize = 64;

/// Fixed weight estimate for a cache key record.
pub const KEY_BASE_WEIGHT: usize = 160;

/// Fixed weight estimate for a media type, besides its bytes.
pub const MEDIA_TYPE_WEIGHT: usize = 48;

/// Fixed weight estimate per language, besides its bytes.
pub const LANGUAGE_WEIGHT: usize = 24;

/// The length of a header name.
pub open spec fn spec_name_len(n: SpecName) -> nat {
    match n {
        SpecName::XxCache => 8,
        SpecName::XxCacheDuration => 17,
        SpecName::XxEncode => 9,
        SpecName::ContentEncoding => 16,
        SpecName::ContentLength => 14,
        SpecName::ContentDigest => 14,
        SpecName::ContentRange => 13,
        SpecName::AcceptRanges => 13,
        SpecName::AcceptEncoding => 15,
        SpecName::LastModified => 13,
        SpecName::ETag => 4,
        SpecName::IfModifiedSince => 17,
        SpecName::IfNoneMatch => 13,
        SpecName::Other(b) => b.len(),
    }
}

/// The length of a header name.
pub fn name_len(n: &HeaderName) -> (r: usize)
    ensures
        r == spec_name_len(n@),
{
    match n {
        HeaderName::XxCache => 8,
        HeaderName::XxCacheDuration => 17,
        HeaderName::XxEncode => 9,
        HeaderName::ContentEncoding => 16,
        HeaderName::ContentLength => 14,
        HeaderName::ContentDigest => 14,
        HeaderName::ContentRange => 13,
        HeaderName::AcceptRanges => 13,
        HeaderName::AcceptEncoding => 15,
        HeaderName::LastModified => 13,
        HeaderName::ETag => 4,
        HeaderName::IfModifiedSince => 17,
        HeaderName::IfNoneMatch => 13,
        HeaderName::Other(b) => b.len(),
    }
}

/// Weight estimate of a list of header entries.
pub open spec fn headers_weight(s: Seq<SpecEntry>) -> nat
    decreases s.len(),
{
    if s.len() == 0 {
        0
    } else {
        (HEADER_ENTRY_WEIGHT + spec_name_len(s[0].0) + s[0].1.len() + headers_weight(
            s.drop_first(),
        )) as nat
    }
}

/// Capping a sum after capping a summand changes nothing.
pub proof fn lemma_sat_chain(a: nat, b: nat)
    ensures
        sat_cap((sat_cap(a) + b) as nat) == sat_cap((a + b) as nat),
{
}

/// Capping a sum after capping both summands changes nothing.
pub proof fn lemma_sat_chain2(a: nat, b: nat)
    ensures
        sat_cap((sat_cap(a) + sat_cap(b)) as nat) == sat_cap((a + b) as nat),
{
}

/// Weight estimate of a header map, capped.
pub fn headers_cache_weight(h: &HeaderMap) -> (r: usize)
    ensures
        r == sat_cap(headers_weight(h@)),
{
    let ghost s = h@;
    let mut w: usize = 0;
    let mut i: usize = 0;
    proof {
        assert(s.subrange(0, s.len() as int) =~= s);
    }
    let mut wsum: Ghost<nat> = Ghost(0nat);
    while i < h.entries.len()
        invariant
            i <= s.len(),
            s == h@,
            s.len() == h.entries@.len(),
            headers_weight(s) == wsum@ + headers_weight(s.subrange(i as int, s.len() as int)),
            w == sat_cap(wsum@),
        decreases s.len() - i,
    {
        let e = &h.entries[i];
        let ghost suf = s.subrange(i as int, s.len() as int);
        proof {
            assert(suf[0] == s[i as int]);
            assert(s[i as int] == crate::headers::entry_view(h.entries@[i as int]));
            assert(suf.drop_first() =~= s.subrange(i as int + 1, s.len() as int));
        }
        let nl = name_len(&e.0);
        let ghost ew: nat = (HEADER_ENTRY_WEIGHT + spec_name_len(suf[0].0) + suf[0].1.len()) as nat;
        proof {
            lemma_sat_chain(wsum@, ew);
        }
        let mut step: usize = sat_add(w, HEADER_ENTRY_WEIGHT);
        step = sat_add(step, nl);
        step = sat_add(step, e.1.len());
        w = step;
        proof {
            wsum@ = (wsum@ + ew) as nat;
        }
        i = i + 1;
    }
    proof {
        assert(s.subrange(s.len() as int, s.len() as int).len() == 0);
    }
    w
}

impl CachedResponse {
    /// Weight estimate of the whole entry: a fixed base, the headers, and
    /// the body, capped.
    pub fn cache_weight(&self) -> (r: usize)
        ensures
            r == sat_cap(self.spec_weight()),
    {
        let hw = headers_cache_weight(&self.headers);
        let bw = self.body.cache_weight();
        proof {
            lemma_sat_chain2(headers_weight(self.headers@), self.body.spec_weight());
            lemma_sat_chain(
                (headers_weight(self.headers@) + self.body.spec_weight()) as nat,
                RESPONSE_BASE_WEIGHT as nat,
            );
        }
        let w = sat_add(hw, bw);
        sat_add(w, RESPONSE_BASE_WEIGHT)
    }

    /// Weight estimate of the whole entry, in specification form.
    pub open spec fn spec_weight(&self) -> nat {
        (headers_weight(self.headers@) + self.body.spec_weight() + RESPONSE_BASE_WEIGHT) as nat
    }
}

/// Weight estimate of a query map: name bytes plus the number of values
/// of each parameter.
pub open spec fn query_weight(q: Seq<(Seq<u8>, Seq<Seq<u8>>)>) -> nat
    decreases q.len(),
{
    if q.len() == 0 {
        0
    } else {
        (q[0].0.len() + q[0].1.len() + query_weight(q.drop_first())) as nat
    }
}

/// Weight estimate of a list of languages.
pub open spec fn languages_weight(l: Seq<Seq<u8>>) -> nat
    decreases l.len(),
{
    if l.len() == 0 {
        0
    } else {
        (LANGUAGE_WEIGHT + l[0].len() + languages_weight(l.drop_first())) as nat
    }
}

/// Weight estimate of a list of extension pairs.
pub open spec fn extensions_weight(e: Seq<(Seq<u8>, Seq<u8>)>) -> nat
    decreases e.len(),
{
    if e.len() == 0 {
        0
    } else {
        (e[0].0.len() + e[0].1.len() + extensions_weight(e.drop_first())) as nat
    }
}

/// Weight estimate of an optional byte field.
pub open spec fn opt_len(o: Option<Seq<u8>>) -> nat {
    match o {
        Some(b) => b.len(),
        None => 0,
    }
}

/// Weight estimate of an optional media type.
pub open spec fn opt_media_type_weight(o: Option<(Seq<u8>, Seq<u8>)>) -> nat {
    match o {
        Some(m) => (MEDIA_TYPE_WEIGHT + m.0.len() + m.1.len()) as nat,
        None => 0,
    }
}

/// Weight estimate of an optional query map.
pub open spec fn opt_query_weight(o: Option<Seq<(Seq<u8>, Seq<Seq<u8>>)>>) -> nat {
    match o {
        Some(q) => query_weight(q),
        None => 0,
    }
}

/// Weight estimate of an optional language list.
pub open spec fn opt_languages_weight(o: Option<Seq<Seq<u8>>>) -> nat {
    match o {
        Some(l) => languages_weight(l),
        None => 0,
    }
}

/// Weight estimate of an optional extension list.
pub open spec fn opt_extensions_weight(o: Option<Seq<(Seq<u8>, Seq<u8>)>>) -> nat {
    match o {
        Some(e) => extensions_weight(e),
        None => 0,
    }
}

impl CommonCacheKey {
    /// Weight estimate of the key, in specification form.
    pub open spec fn spec_weight(&self) -> nat {
        let v = self@;
        (KEY_BASE_WEIGHT + opt_len(v.host) + opt_len(v.path) + opt_query_weight(v.query)
            + opt_media_type_weight(v.media_type) + opt_languages_weight(v.languages)
            + opt_extensions_weight(v.extensions)) as nat
    }

    /// Weight estimate of the key: a fixed base plus the bytes of every
    /// populated field, capped.
    pub fn cache_weight(&self) -> (r: usize)
        ensures
            r == sat_cap(self.spec_weight()),
    {
        let hostw: usize = match &self.host {
            Some(hst) => hst.len(),
            None => 0,
        };
        let pathw: usize = match &self.path {
            Some(pth) => pth.len(),
            None => 0,
        };
        let qw: usize = match &self.query {
            Some(q) => query_cache_weight(q),
            None => 0,
        };
        let mtw: usize = match &self.media_type {
            Some(m) => {
                let t = sat_add(MEDIA_TYPE_WEIGHT, m.main.len());
                proof {
                    lemma_sat_chain(
                        (MEDIA_TYPE_WEIGHT + m.main@.len()) as nat,
                        m.subtype@.len(),
                    );
                }
                sat_add(t, m.subtype.len())
            }
            None => 0,
        };
        let lw: usize = match &self.languages {
            Some(l) => languages_cache_weight(l),
            None => 0,
        };
        let ew: usize = match &self.extensions {
            Some(e) => extensions_cache_weight(e),
            None => 0,
        };
        let ghost v = self@;
        let ghost s1: nat = (KEY_BASE_WEIGHT + opt_len(v.host)) as nat;
        let ghost s2: nat = (s1 + opt_len(v.path)) as nat;
        let ghost s3: nat = (s2 + opt_query_weight(v.query)) as nat;
        let ghost s4: nat = (s3 + opt_media_type_weight(v.media_type)) as nat;
        let ghost s5: nat = (s4 + opt_languages_weight(v.languages)) as nat;
        let ghost s6: nat = (s5 + opt_extensions_weight(v.extensions)) as nat;
        let mut w: usize = sat_add(KEY_BASE_WEIGHT, hostw);
        proof {
            lemma_sat_chain(s1, opt_len(v.path));
        }
        w = sat_add(w, pathw);
        proof {
            lemma_sat_chain2(s2, opt_query_weight(v.query));
        }
        w = sat_add(w, qw);
        proof {
            lemma_sat_chain2(s3, opt_media_type_weight(v.media_type));
        }
        w = sat_add(w, mtw);
        proof {
            lemma_sat_chain2(s4, opt_languages_weight(v.languages));
        }
        w = sat_add(w, lw);
        proof {
            lemma_sat_chain2(s5, opt_extensions_weight(v.extensions));
        }
        w = sat_add(w, ew);
        proof {
            assert(s6 == self.spec_weight());
        }
        w
    }
}

/// Weight estimate of a query map, capped.
fn query_cache_weight(q: &QueryMap) -> (r: usize)
    ensures
        r == sat_cap(query_weight(q@)),
{
    let ghost s = q@;
    let mut w: usize = 0;
    let mut wsum: Ghost<nat> = Ghost(0nat);
    let mut i: usize = 0;
    proof {
        assert(s.subrange(0, s.len() as int) =~= s);
        crate::key::lemma_qentries_view(q.entries@);
    }
    while i < q.entries.len()
        invariant
            i <= s.len(),
            s == q@,
            s.len() == q.entries@.len(),
            forall|k: int| 0 <= k < s.len() ==> #[trigger] s[k] == qentry_view(q.entries@[k]),
            query_weight(s) == wsum@ + query_weight(s.subrange(i as int, s.len() as int)),
            w == sat_cap(wsum@),
        decreases s.len() - i,
    {
        let e = &q.entries[i];
        let ghost suf = s.subrange(i as int, s.len() as int);
        proof {
            assert(suf[0] == s[i as int]);
            assert(suf.drop_first() =~= s.subrange(i as int + 1, s.len() as int));
            crate::headers::lemma_vecs_view(e.1@);
            assert(s[i as int].1.len() == e.1@.len());
            lemma_sat_chain(wsum@, (suf[0].0.len() + suf[0].1.len()) as nat);
        }
        let mut step = sat_add(w, e.0.len());
        step = sat_add(step, e.1.len());
        w = step;
        proof {
            wsum@ = (wsum@ + suf[0].0.len() + suf[0].1.len()) as nat;
        }
        i = i + 1;
    }
    proof {
        assert(s.subrange(s.len() as int, s.len() as int).len() == 0);
    }
    w
}

/// Weight estimate of a list of languages, capped.
fn languages_cache_weight(l: &Vec<Vec<u8>>) -> (r: usize)
    ensures
        r == sat_cap(languages_weight(crate::headers::vecs_view(l@))),
{
    let ghost s = crate::headers::vecs_view(l@);
    let mut w: usize = 0;
    let mut wsum: Ghost<nat> = Ghost(0nat);
    let mut i: usize = 0;
    proof {
        assert(s.subrange(0, s.len() as int) =~= s);
        crate::headers::lemma_vecs_view(l@);
    }
    while i < l.len()
        invariant
            i <= s.len(),
            s == crate::headers::vecs_view(l@),
            s.len() == l@.len(),
            forall|k: int| 0 <= k < s.len() ==> #[trigger] s[k] == l@[k]@,
            languages_weight(s) == wsum@ + languages_weight(
                s.subrange(i as int, s.len() as int),
            ),
            w == sat_cap(wsum@),
        decreases s.len() - i,
    {
        let ghost suf = s.subrange(i as int, s.len() as int);
        proof {
            assert(suf[0] == s[i as int]);
            assert(suf.drop_first() =~= s.subrange(i as int + 1, s.len() as int));
            lemma_sat_chain(wsum@, (LANGUAGE_WEIGHT + suf[0].len()) as nat);
        }
        let mut step = sat_add(w, LANGUAGE_WEIGHT);
        step = sat_add(step, l[i].len());
        w = step;
        proof {
            wsum@ = (wsum@ + LANGUAGE_WEIGHT + suf[0].len()) as nat;
        }
        i = i + 1;
    }
    proof {
        assert(s.subrange(s.len() as int, s.len() as int).len() == 0);
    }
    w
}

/// Weight estimate of a list of extension pairs, capped.
fn extensions_cache_weight(e: &Vec<(Vec<u8>, Vec<u8>)>) -> (r: usize)
    ensures
        r == sat_cap(extensions_weight(crate::key::pairs_view(e@))),
{
    let ghost s = crate::key::pairs_view(e@);
    let mut w: usize = 0;
    let mut wsum: Ghost<nat> = Ghost(0nat);
    let mut i: usize = 0;
    proof {
        assert(s.subrange(0, s.len() as int) =~= s);
        crate::key::lemma_pairs_view(e@);
    }
    while i < e.len()
        invariant
            i <= s.len(),
            s == crate::key::pairs_view(e@),
            s.len() == e@.len(),
            forall|k: int|
                0 <= k < s.len() ==> #[trigger] s[k] == (e@[k].0@, e@[k].1@),
            extensions_weight(s) == wsum@ + extensions_weight(
                s.subrange(i as int, s.len() as int),
            ),
            w == sat_cap(wsum@),
        decreases s.len() - i,
    {
        let ghost suf = s.subrange(i as int, s.len() as int);
        proof {
            assert(suf[0] == s[i as int]);
            assert(suf.drop_first() =~= s.subrange(i as int + 1, s.len() as int));
            lemma_sat_chain(wsum@, (suf[0].0.len() + suf[0].1.len()) as nat);
        }
        let p = &e[i];
        let mut step = sat_add(w, p.0.len());
        step = sat_add(step, p.1.len());
        w = step;
        proof {
            wsum@ = (wsum@ + suf[0].0.len() + suf[0].1.len()) as nat;
        }
        i = i + 1;
    }
    proof {
        assert(s.subrange(s.len() as int, s.len() as int).len() == 0);
    }
    w
}

/// A mathematical weight capped at `u32::MAX`.
pub open spec fn u32_cap(n: nat) -> u32 {
    if n > u32::MAX {
        u32::MAX
    } else {
        n as u32
    }
}

/// The weight of one cache entry for the backend's capacity accounting:
/// the key's weight plus the entry's, saturated into 32 bits.
pub fn weigher(cache_key: &CommonCacheKey, cached_response: &CachedResponse) -> (r: u32)
    ensures
        r == u32_cap((cache_key.spec_weight() + cached_response.spec_weight()) as nat),
{
    let kw = cache_key.cache_weight();
    let rw = cached_response.cache_weight();
    proof {
        lemma_sat_chain2(cache_key.spec_weight(), cached_response.spec_weight());
    }
    let total = sat_add(kw, rw);
    if total > (u32::MAX as usize) {
        u32::MAX
    } else {
        total as u32
    }
}

/// Adding representations to an entry's body never lowers the entry's
/// weight: capacity bookkeeping only grows as a body gains
/// representations.
pub proof fn lemma_entry_weight_monotone(e1: CachedResponse, e2: CachedResponse)
    requires
        e1.headers@ == e2.headers@,
        forall|c: crate::encoding::Encoding| e1.body.rep(c) is Some ==> e2.body.rep(c) == e1.body.rep(c),
    ensures
        e2.spec_weight() >= e1.spec_weight(),
{
    crate::body::lemma_weight_monotone(e1.body, e2.body);
}

/// Implemented by cache builders that hold HTTP response entries: installs
/// the entry weigher and the per-entry time-to-live policy on the builder.
pub trait ForHttpResponse where Self: Sized {
    /// Install the entry weigher and the time-to-live policy.
    fn for_http_response(self) -> Self;
}

} // verus!
