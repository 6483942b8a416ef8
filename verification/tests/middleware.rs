//! End-to-end tests of the middleware decision flow: classification,
//! negotiation, storing, serving, conditionals, and pass-through.

use response_cache::codec::{decode, encode};
use response_cache::config::{
    CachingConfiguration, EncodingConfiguration, MiddlewareCachingConfiguration,
    MiddlewareEncodingConfiguration,
};
use response_cache::encoding::Encoding;
use response_cache::headers::{HeaderMap, HeaderName};
use response_cache::key::Method;
use response_cache::request::Request;
use response_cache::response::CachedResponse;
use response_cache::service::{
    handle_hit, prepare_transcoding, BodyAction, BodyReader, HitOutcome, ReadOutcome,
    ServeOutcome, serve_entry,
};
use response_cache::time::parse_http_date;
use response_cache::upstream::UpstreamResponse;
use response_cache::weight::weigher;
use response_cache::tiered::TieredCache;

fn caching_cfg(min: usize, max: usize) -> MiddlewareCachingConfiguration {
    MiddlewareCachingConfiguration {
        cache_enabled: true,
        inner: CachingConfiguration {
            min_body_size: min,
            max_body_size: max,
            cacheable_by_default: true,
        },
    }
}

fn encoding_cfg() -> MiddlewareEncodingConfiguration {
    MiddlewareEncodingConfiguration::default()
}

fn inner_enc() -> EncodingConfiguration {
    EncodingConfiguration::default()
}

fn request(method: Method, accept_encoding: Option<&str>) -> Request {
    let mut headers = HeaderMap::new();
    if let Some(ae) = accept_encoding {
        headers.push(HeaderName::AcceptEncoding, ae.as_bytes().to_vec());
    }
    Request { method, path: Some(b"/".to_vec()), query: None, headers }
}

fn upstream(status: u16, body_len: Option<usize>) -> UpstreamResponse {
    let mut headers = HeaderMap::new();
    if let Some(n) = body_len {
        headers.push(HeaderName::ContentLength, n.to_string().into_bytes());
    }
    UpstreamResponse { status, headers }
}

/// Read an upstream body handed over as chunks, as the host loop would.
fn read_body(
    chunks: &[&[u8]],
    declared: Option<usize>,
    min: usize,
    max: usize,
) -> ReadOutcome {
    let mut reader = BodyReader::new(declared, min, max);
    for chunk in chunks {
        if reader.push_chunk(&chunk.to_vec()) {
            return reader.finish(declared, min, false);
        }
    }
    reader.finish(declared, min, true)
}

#[test]
fn select_encoding_negotiates() {
    let cfg = encoding_cfg();
    assert_eq!(
        request(Method::Get, Some("gzip")).select_encoding(&cfg, None),
        Encoding::GZip
    );
    // Heavier preference wins; the server order breaks ties.
    assert_eq!(
        request(Method::Get, Some("br;q=0.5, gzip")).select_encoding(&cfg, None),
        Encoding::GZip
    );
    assert_eq!(
        request(Method::Get, Some("gzip, br")).select_encoding(&cfg, None),
        Encoding::Brotli
    );
    assert_eq!(
        request(Method::Get, Some("*")).select_encoding(&cfg, None),
        Encoding::Brotli
    );
    assert_eq!(
        request(Method::Get, Some("zstd;q=0.9, gzip;q=0.8")).select_encoding(&cfg, None),
        Encoding::Zstandard
    );
    // No header, malformed weights, or an unknown coding mean identity.
    assert_eq!(
        request(Method::Get, None).select_encoding(&cfg, None),
        Encoding::Identity
    );
    assert_eq!(
        request(Method::Get, Some("snappy")).select_encoding(&cfg, None),
        Encoding::Identity
    );
    assert_eq!(
        request(Method::Get, Some("gzip;q=boom")).select_encoding(&cfg, None),
        Encoding::Identity
    );
    // The request-side hook can refuse a non-identity choice.
    assert_eq!(
        request(Method::Get, Some("gzip")).select_encoding(&cfg, Some(false)),
        Encoding::Identity
    );
    // Disabling encoding turns everything into identity.
    let disabled = MiddlewareEncodingConfiguration {
        enabled_encodings_by_preference: None,
        inner: inner_enc(),
    };
    assert_eq!(
        request(Method::Get, Some("gzip")).select_encoding(&disabled, None),
        Encoding::Identity
    );
}

#[test]
fn request_classification() {
    let cfg = caching_cfg(0, 1024);
    assert!(!request(Method::Get, None).should_skip_cache(&cfg, None));
    // Non-idempotent methods bypass the cache.
    assert!(request(Method::Post, None).should_skip_cache(&cfg, None));
    assert!(request(Method::Patch, None).should_skip_cache(&cfg, None));
    // A refusing hook bypasses it too.
    assert!(request(Method::Get, None).should_skip_cache(&cfg, Some(false)));
    // With no cache installed everything bypasses.
    let disabled = MiddlewareCachingConfiguration {
        cache_enabled: false,
        ..caching_cfg(0, 1024)
    };
    assert!(request(Method::Get, None).should_skip_cache(&disabled, None));
}

#[test]
fn upstream_classification_bounds() {
    let cfg = caching_cfg(10, 200);
    // A length at the maximum caches; one past it does not.
    assert_eq!(upstream(200, Some(200)).should_skip_cache(&cfg, None), (false, Some(200)));
    assert_eq!(upstream(200, Some(201)).should_skip_cache(&cfg, None), (true, Some(201)));
    // A length below the minimum does not cache.
    assert_eq!(upstream(200, Some(9)).should_skip_cache(&cfg, None), (true, Some(9)));
    assert_eq!(upstream(200, Some(10)).should_skip_cache(&cfg, None), (false, Some(10)));
    // Non-success statuses do not cache.
    assert_eq!(upstream(404, Some(50)).should_skip_cache(&cfg, None), (true, None));
    assert_eq!(upstream(299, Some(50)).should_skip_cache(&cfg, None), (false, Some(50)));
    // The hook gets the last word.
    assert_eq!(upstream(200, Some(50)).should_skip_cache(&cfg, Some(false)), (true, Some(50)));
}

#[test]
fn upstream_classification_headers() {
    let cfg = caching_cfg(0, 1024);
    let mut u = upstream(200, None);
    u.headers.push(HeaderName::XxCache, b"false".to_vec());
    assert_eq!(u.should_skip_cache(&cfg, None), (true, None));

    let mut u = upstream(200, None);
    u.headers.push(HeaderName::XxCache, b"TRUE".to_vec());
    assert_eq!(u.should_skip_cache(&cfg, None), (false, None));

    let mut u = upstream(200, None);
    u.headers.push(HeaderName::ContentRange, b"bytes 0-1/2".to_vec());
    assert_eq!(u.should_skip_cache(&cfg, None), (true, None));

    // With opt-in caching an unmarked response does not cache.
    let opt_in = MiddlewareCachingConfiguration {
        cache_enabled: true,
        inner: CachingConfiguration {
            min_body_size: 0,
            max_body_size: 1024,
            cacheable_by_default: false,
        },
    };
    assert_eq!(upstream(200, None).should_skip_cache(&opt_in, None), (true, None));
}

#[test]
fn validate_encoding_downgrades() {
    let cfg = MiddlewareEncodingConfiguration {
        enabled_encodings_by_preference: Some(vec![Encoding::GZip]),
        inner: EncodingConfiguration {
            min_body_size: 32,
            encodable_by_default: true,
            keep_identity_encoding: true,
        },
    };
    let u = upstream(200, None);
    // Too small to be worth encoding: downgraded, and the skip is forced.
    assert_eq!(u.validate_encoding(Encoding::GZip, Some(5), &cfg, None), (Encoding::Identity, true));
    assert_eq!(u.validate_encoding(Encoding::GZip, Some(32), &cfg, None), (Encoding::GZip, false));
    assert_eq!(u.validate_encoding(Encoding::GZip, None, &cfg, None), (Encoding::GZip, false));
    // Identity passes through untouched.
    assert_eq!(u.validate_encoding(Encoding::Identity, Some(5), &cfg, None), (Encoding::Identity, false));
    // The hook gets the last word.
    assert_eq!(
        u.validate_encoding(Encoding::GZip, None, &cfg, Some(false)),
        (Encoding::Identity, true)
    );
}

#[test]
fn body_reader_caps_and_bounds() {
    // A declared size read exactly is complete.
    assert!(matches!(
        read_body(&[b"Hel", b"lo"], Some(5), 0, 1024),
        ReadOutcome::Complete(b) if b == b"Hello".to_vec()
    ));
    // Fewer bytes than declared are too small.
    assert!(matches!(
        read_body(&[b"Hel"], Some(5), 0, 1024),
        ReadOutcome::TooSmall(b) if b == b"Hel".to_vec()
    ));
    // Without a declared size the read caps at the maximum: hitting the
    // cap with data left is too large.
    assert!(matches!(
        read_body(&[b"Hello"], None, 0, 4),
        ReadOutcome::TooLarge(_)
    ));
    // Below the cacheable minimum is too small.
    assert!(matches!(
        read_body(&[b"Hello"], None, 10, 1024),
        ReadOutcome::TooSmall(_)
    ));
    // Within bounds without a declared size is complete.
    assert!(matches!(
        read_body(&[b"Hello"], None, 0, 1024),
        ReadOutcome::Complete(b) if b == b"Hello".to_vec()
    ));
}

/// Build a cache entry the way the miss path does.
fn store_entry(
    upstream_headers: HeaderMap,
    body: &[u8],
    preferred: Encoding,
    skip_encoding: bool,
) -> CachedResponse {
    CachedResponse::new_for(
        200,
        upstream_headers,
        body.to_vec(),
        preferred,
        skip_encoding,
        &inner_enc(),
        None,
    )
    .unwrap()
}

#[test]
fn stored_entry_headers_are_clean() {
    let mut h = HeaderMap::new();
    h.push(HeaderName::XxCache, b"true".to_vec());
    h.push(HeaderName::XxCacheDuration, b"10s".to_vec());
    h.push(HeaderName::ContentLength, b"5".to_vec());
    h.push(HeaderName::ContentDigest, b"sha-256=:xxxx:".to_vec());
    h.push(HeaderName::AcceptRanges, b"bytes".to_vec());
    h.push(HeaderName::Other(b"content-type".to_vec()), b"text/plain".to_vec());
    let entry = store_entry(h, b"Hello", Encoding::GZip, false);

    let eh = entry.headers();
    assert!(!eh.contains(&HeaderName::XxCache));
    assert!(!eh.contains(&HeaderName::XxCacheDuration));
    assert!(!eh.contains(&HeaderName::ContentEncoding));
    assert!(!eh.contains(&HeaderName::ContentLength));
    assert!(!eh.contains(&HeaderName::ContentDigest));
    assert!(!eh.contains(&HeaderName::AcceptRanges));
    assert!(eh.contains(&HeaderName::LastModified));
    // Other headers come through untouched.
    assert_eq!(
        eh.get_first(&HeaderName::Other(b"content-type".to_vec())).unwrap(),
        &b"text/plain".to_vec()
    );
    // The stamped date parses back.
    let lm = eh.get_first(&HeaderName::LastModified).unwrap();
    assert!(parse_http_date(lm).is_some());
    // The entry carries the cache duration from the header.
    assert_eq!(entry.duration, Some(10_000));
}

#[test]
fn cache_duration_falls_back_to_hook() {
    let h = HeaderMap::new();
    let entry = CachedResponse::new_for(
        200,
        h,
        b"Hello".to_vec(),
        Encoding::Identity,
        false,
        &inner_enc(),
        Some(1234),
    )
    .unwrap();
    assert_eq!(entry.duration, Some(1234));

    let mut h = HeaderMap::new();
    h.push(HeaderName::XxCacheDuration, b"certainly not a duration".to_vec());
    let entry = CachedResponse::new_for(
        200,
        h,
        b"Hello".to_vec(),
        Encoding::Identity,
        false,
        &inner_enc(),
        Some(77),
    )
    .unwrap();
    assert_eq!(entry.duration, Some(77));
}

#[test]
fn served_response_is_gzip_with_length() {
    let entry = store_entry(HeaderMap::new(), b"Hello", Encoding::GZip, false);
    match serve_entry(&entry, Encoding::GZip, &inner_enc()) {
        ServeOutcome::Served(resp, upd) => {
            assert!(upd.is_none());
            assert_eq!(resp.status, 200);
            let ce = resp.headers.get_first(&HeaderName::ContentEncoding).unwrap();
            assert_eq!(ce, &b"gzip".to_vec());
            let cl = resp.headers.get_first(&HeaderName::ContentLength).unwrap();
            assert_eq!(cl, &resp.body.len().to_string().into_bytes());
            assert_eq!(resp.body, encode(&b"Hello".to_vec(), Encoding::GZip));
            assert!(!resp.headers.contains(&HeaderName::XxEncode));
            assert!(!resp.headers.contains(&HeaderName::XxCache));
            assert!(!resp.headers.contains(&HeaderName::XxCacheDuration));
        }
        _ => panic!("expected a served response"),
    }
}

#[test]
fn never_encode_is_remembered() {
    // An upstream `XX-Encode: false` downgrades storage to identity and
    // stays inside the cache; serving never encodes.
    let mut h = HeaderMap::new();
    h.push(HeaderName::XxEncode, b"false".to_vec());
    let entry = store_entry(h, b"Hello", Encoding::GZip, false);
    assert!(entry.body.identity.is_some());
    assert!(entry.body.gzip.is_none());
    assert_eq!(
        entry.headers().get_first(&HeaderName::XxEncode).unwrap(),
        &b"false".to_vec()
    );
    match serve_entry(&entry, Encoding::GZip, &inner_enc()) {
        ServeOutcome::Served(resp, upd) => {
            assert!(upd.is_none());
            assert_eq!(resp.body, b"Hello".to_vec());
            assert!(!resp.headers.contains(&HeaderName::ContentEncoding));
            assert!(!resp.headers.contains(&HeaderName::XxEncode));
        }
        _ => panic!("expected a served response"),
    }
    // A forced skip from response validation is remembered as `true`.
    let entry = store_entry(HeaderMap::new(), b"Hello", Encoding::Identity, true);
    assert_eq!(
        entry.headers().get_first(&HeaderName::XxEncode).unwrap(),
        &b"true".to_vec()
    );
}

#[test]
fn hit_serves_and_reencode_is_idempotent() {
    // Store under gzip; a zstandard request reencodes and hands back an
    // updated entry; serving the updated entry again is byte-equal and
    // touches no codec.
    let entry = store_entry(HeaderMap::new(), b"Hello", Encoding::GZip, false);
    let rq = HeaderMap::new();
    let first = match handle_hit(&entry, &rq, Encoding::Zstandard, &inner_enc()) {
        HitOutcome::Served(resp, upd) => {
            let updated = upd.expect("zstandard was not stored yet");
            assert_eq!(decode(&resp.body, Encoding::Zstandard).unwrap(), b"Hello".to_vec());
            (resp, updated)
        }
        _ => panic!("expected a served response"),
    };
    match handle_hit(&first.1, &rq, Encoding::Zstandard, &inner_enc()) {
        HitOutcome::Served(resp, upd) => {
            assert!(upd.is_none());
            assert_eq!(resp.body, first.0.body);
        }
        _ => panic!("expected a served response"),
    }
}

#[test]
fn conditional_if_modified_since() {
    let entry = store_entry(HeaderMap::new(), b"Hello", Encoding::GZip, false);
    let lm = entry.headers().get_first(&HeaderName::LastModified).unwrap().clone();
    let mut rq = HeaderMap::new();
    rq.push(HeaderName::IfModifiedSince, lm);
    match handle_hit(&entry, &rq, Encoding::GZip, &inner_enc()) {
        HitOutcome::NotModified(resp) => {
            assert_eq!(resp.status, 304);
            assert_eq!(resp.body.len(), 0);
            assert_eq!(resp.headers.entries.len(), 0);
        }
        _ => panic!("expected 304"),
    }
    // An older client copy is served normally.
    let mut rq = HeaderMap::new();
    rq.push(
        HeaderName::IfModifiedSince,
        b"Mon, 01 Jan 1990 00:00:00 GMT".to_vec(),
    );
    assert!(matches!(
        handle_hit(&entry, &rq, Encoding::GZip, &inner_enc()),
        HitOutcome::Served(..)
    ));
}

#[test]
fn conditional_if_none_match() {
    let mut h = HeaderMap::new();
    h.push(HeaderName::ETag, b"\"v1\"".to_vec());
    let entry = store_entry(h, b"Hello", Encoding::Identity, false);

    let mut rq = HeaderMap::new();
    rq.push(HeaderName::IfNoneMatch, b"\"v0\", \"v1\"".to_vec());
    assert!(matches!(
        handle_hit(&entry, &rq, Encoding::Identity, &inner_enc()),
        HitOutcome::NotModified(_)
    ));

    let mut rq = HeaderMap::new();
    rq.push(HeaderName::IfNoneMatch, b"*".to_vec());
    assert!(matches!(
        handle_hit(&entry, &rq, Encoding::Identity, &inner_enc()),
        HitOutcome::NotModified(_)
    ));

    let mut rq = HeaderMap::new();
    rq.push(HeaderName::IfNoneMatch, b"\"v2\"".to_vec());
    assert!(matches!(
        handle_hit(&entry, &rq, Encoding::Identity, &inner_enc()),
        HitOutcome::Served(..)
    ));

    // A weak tag never matches.
    let mut h = HeaderMap::new();
    h.push(HeaderName::ETag, b"W/\"v1\"".to_vec());
    let entry = store_entry(h, b"Hello", Encoding::Identity, false);
    let mut rq = HeaderMap::new();
    rq.push(HeaderName::IfNoneMatch, b"W/\"v1\"".to_vec());
    assert!(matches!(
        handle_hit(&entry, &rq, Encoding::Identity, &inner_enc()),
        HitOutcome::Served(..)
    ));
}

#[test]
fn pass_through_strips_control_headers() {
    let mut h = HeaderMap::new();
    h.push(HeaderName::XxCache, b"false".to_vec());
    h.push(HeaderName::XxEncode, b"false".to_vec());
    h.push(HeaderName::XxCacheDuration, b"1s".to_vec());
    h.push(HeaderName::Other(b"content-type".to_vec()), b"text/plain".to_vec());
    // `XX-Encode: false` also forbids the streamed encoding.
    let (out, action) = prepare_transcoding(h, Encoding::GZip, true);
    assert_eq!(action, BodyAction::PassThrough);
    assert!(!out.contains(&HeaderName::XxCache));
    assert!(!out.contains(&HeaderName::XxEncode));
    assert!(!out.contains(&HeaderName::XxCacheDuration));
    assert_eq!(
        out.get_first(&HeaderName::Other(b"content-type".to_vec())).unwrap(),
        &b"text/plain".to_vec()
    );
}

#[test]
fn pass_through_encodes_identity_bodies_only() {
    // An identity body gets the streamed encoder, dropping the stale
    // length.
    let mut h = HeaderMap::new();
    h.push(HeaderName::ContentLength, b"330".to_vec());
    let (out, action) = prepare_transcoding(h, Encoding::GZip, true);
    assert_eq!(action, BodyAction::EncodeStream(Encoding::GZip));
    assert_eq!(
        out.get_first(&HeaderName::ContentEncoding).unwrap(),
        &b"gzip".to_vec()
    );
    assert!(!out.contains(&HeaderName::ContentLength));

    // An already encoded body passes through as is.
    let mut h = HeaderMap::new();
    h.push(HeaderName::ContentEncoding, b"br".to_vec());
    let (_, action) = prepare_transcoding(h, Encoding::GZip, true);
    assert_eq!(action, BodyAction::PassThrough);

    // Identity negotiated: pass through.
    let (_, action) = prepare_transcoding(HeaderMap::new(), Encoding::Identity, true);
    assert_eq!(action, BodyAction::PassThrough);
}

#[test]
fn full_miss_and_hit_flow() {
    // `GET /` with `Accept-Encoding: gzip`; upstream answers 200 with a
    // five-byte identity body; encoding enabled with gzip preferred.
    let caching = caching_cfg(0, 1024);
    let encoding = MiddlewareEncodingConfiguration {
        enabled_encodings_by_preference: Some(vec![Encoding::GZip]),
        inner: inner_enc(),
    };
    let rq = request(Method::Get, Some("gzip"));
    assert!(!rq.should_skip_cache(&caching, None));
    let chosen = rq.select_encoding(&encoding, None);
    assert_eq!(chosen, Encoding::GZip);
    let key = rq.cache_key();

    let u = upstream(200, Some(5));
    let (skip, content_length) = u.should_skip_cache(&caching, None);
    assert!(!skip);
    assert_eq!(content_length, Some(5));
    let (enc, skip_encoding) = u.validate_encoding(chosen, content_length, &encoding, None);
    assert_eq!(enc, Encoding::GZip);
    assert!(!skip_encoding);

    let body = match read_body(&[b"Hello"], content_length, 0, 1024) {
        ReadOutcome::Complete(b) => b,
        _ => panic!("body within bounds"),
    };
    let entry = CachedResponse::new_for(
        u.status,
        u.headers,
        body,
        enc,
        skip_encoding,
        &encoding.inner,
        None,
    )
    .unwrap();
    let weight = weigher(&key, &entry);
    assert!(weight > 0);

    let first = match serve_entry(&entry, enc, &encoding.inner) {
        ServeOutcome::Served(resp, upd) => {
            assert!(upd.is_none());
            assert_eq!(resp.status, 200);
            assert_eq!(
                resp.headers.get_first(&HeaderName::ContentEncoding).unwrap(),
                &b"gzip".to_vec()
            );
            assert!(resp.headers.contains(&HeaderName::LastModified));
            resp
        }
        _ => panic!("expected a served response"),
    };

    // The second identical request hits and serves byte-equal content
    // without calling any upstream.
    match handle_hit(&entry, &rq.headers, chosen, &encoding.inner) {
        HitOutcome::Served(resp, upd) => {
            assert!(upd.is_none());
            assert_eq!(resp.body, first.body);
        }
        _ => panic!("expected a served hit"),
    }
}

#[test]
fn tiered_cache_holds_both_tiers() {
    let t = TieredCache::new(1u8, 2u8);
    assert_eq!(t.first, 1);
    assert_eq!(t.next, 2);
}

#[test]
fn oversized_body_is_reconstructed() {
    // An upstream body of 330 bytes against a 200-byte cacheable maximum,
    // with no declared length: the capped read reports it too large and
    // hands every byte back, and the pass-through emission keeps them.
    let payload: Vec<u8> = (0..330u16).map(|i| (i % 251) as u8).collect();
    let mut reader = BodyReader::new(None, 0, 200);
    let full = reader.push_chunk(&payload);
    assert!(full);
    let partial = match reader.finish(None, 0, false) {
        ReadOutcome::TooLarge(b) => b,
        _ => panic!("expected too large"),
    };
    assert_eq!(partial, payload);
    let (headers, action) = prepare_transcoding(HeaderMap::new(), Encoding::Identity, true);
    assert_eq!(action, BodyAction::PassThrough);
    assert_eq!(headers.entries.len(), 0);
}
