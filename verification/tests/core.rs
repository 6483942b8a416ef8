//! Tests of the codec layer, byte helpers, cached bodies and cache keys.

use response_cache::body::CachedBody;
use response_cache::codec::{decode, encode};
use response_cache::config::EncodingConfiguration;
use response_cache::encoding::Encoding;
use response_cache::key::{CommonCacheKey, Method, QueryMap};
use response_cache::request::Request;
use response_cache::headers::HeaderMap;

fn enc_cfg(keep_identity: bool) -> EncodingConfiguration {
    EncodingConfiguration {
        min_body_size: 0,
        encodable_by_default: true,
        keep_identity_encoding: keep_identity,
    }
}

const ALGS: [Encoding; 4] = [
    Encoding::GZip,
    Encoding::Deflate,
    Encoding::Brotli,
    Encoding::Zstandard,
];

#[test]
fn codec_round_trip_all_algorithms() {
    let payload = b"The quick brown fox jumps over the lazy dog".to_vec();
    for alg in ALGS {
        let encoded = encode(&payload, alg);
        let decoded = decode(&encoded, alg).expect("decode of encoder output");
        assert_eq!(decoded, payload);
        // Reencoding the decoding gives the encoder output back byte for
        // byte: the codecs are deterministic.
        let reencoded = encode(&decoded, alg);
        assert_eq!(reencoded, encoded);
    }
}

#[test]
fn codec_identity_copies() {
    let payload = b"plain".to_vec();
    assert_eq!(encode(&payload, Encoding::Identity), payload);
    assert_eq!(decode(&payload, Encoding::Identity).unwrap(), payload);
}

#[test]
fn codec_decode_rejects_garbage() {
    let garbage = b"certainly not compressed data".to_vec();
    assert!(decode(&garbage, Encoding::GZip).is_err());
    assert!(decode(&garbage, Encoding::Brotli).is_err());
    assert!(decode(&garbage, Encoding::Zstandard).is_err());
}

#[test]
fn parse_usize_mirrors_std() {
    for s in ["0", "5", "123", "+7", "18446744073709551615", "99999999999999999999", "", "12a", "-3", " 5"] {
        let ours = response_cache::ascii::parse_usize(&s.as_bytes().to_vec());
        let std_parse = s.parse::<usize>().ok();
        assert_eq!(ours, std_parse, "input {:?}", s);
    }
}

#[test]
fn body_stores_preferred_encoding() {
    let body = CachedBody::new_with(
        b"Hello".to_vec(),
        Encoding::Identity,
        Encoding::GZip,
        &enc_cfg(true),
    )
    .unwrap();
    assert!(body.gzip.is_some());
    assert!(body.identity.is_some());
    let (bytes, modified) = body.get(Encoding::Identity, &enc_cfg(true)).unwrap();
    assert_eq!(bytes, b"Hello".to_vec());
    assert!(modified.is_none());
    let (gz, modified) = body.get(Encoding::GZip, &enc_cfg(true)).unwrap();
    assert!(modified.is_none());
    assert_eq!(decode(&gz, Encoding::GZip).unwrap(), b"Hello".to_vec());
}

#[test]
fn body_drops_identity_when_not_kept() {
    let body = CachedBody::new_with(
        b"Hello".to_vec(),
        Encoding::Identity,
        Encoding::GZip,
        &enc_cfg(false),
    )
    .unwrap();
    assert!(body.gzip.is_some());
    assert!(body.identity.is_none());
}

#[test]
fn body_reencodes_on_demand() {
    // An entry stored under brotli alone: a later read in zstandard
    // decodes, keeps the identity copy, and stores the new encoding.
    let hello = b"Hello".to_vec();
    let brotli_bytes = encode(&hello, Encoding::Brotli);
    let body =
        CachedBody::new_with(brotli_bytes, Encoding::Brotli, Encoding::Brotli, &enc_cfg(true))
            .unwrap();
    assert!(body.brotli.is_some() && body.identity.is_none() && body.zstd.is_none());

    let (zs, modified) = body.get(Encoding::Zstandard, &enc_cfg(true)).unwrap();
    assert_eq!(decode(&zs, Encoding::Zstandard).unwrap(), hello);
    let updated = modified.expect("a new representation was stored");
    assert!(updated.brotli.is_some() && updated.identity.is_some() && updated.zstd.is_some());

    // A following read touches no codec and returns the same bytes.
    let (zs2, modified2) = updated.get(Encoding::Zstandard, &enc_cfg(true)).unwrap();
    assert!(modified2.is_none());
    assert_eq!(zs2, zs);
}

#[test]
fn body_weight_grows_with_representations() {
    let body = CachedBody::new_with(
        b"some payload worth caching".to_vec(),
        Encoding::Identity,
        Encoding::Identity,
        &enc_cfg(true),
    )
    .unwrap();
    let w1 = body.cache_weight();
    let (_, modified) = body.get(Encoding::GZip, &enc_cfg(true)).unwrap();
    let updated = modified.unwrap();
    let w2 = updated.cache_weight();
    assert!(w2 >= w1);
}

fn get_request(path: &str, query: Option<&str>) -> Request {
    Request {
        method: Method::Get,
        path: Some(path.as_bytes().to_vec()),
        query: query.map(|q| q.as_bytes().to_vec()),
        headers: HeaderMap::new(),
    }
}

#[test]
fn keys_ignore_query_order() {
    let k1 = get_request("/x", Some("a=1&b=2")).cache_key();
    let k2 = get_request("/x", Some("b=2&a=1")).cache_key();
    assert!(k1 == k2);
}

#[test]
fn keys_ignore_headers() {
    let mut r1 = get_request("/x", None);
    r1.headers.push(
        response_cache::headers::HeaderName::Other(b"x-whatever".to_vec()),
        b"1".to_vec(),
    );
    let r2 = get_request("/x", None);
    assert!(r1.cache_key() == r2.cache_key());
}

#[test]
fn keys_differ_on_path_and_values() {
    let base = get_request("/x", Some("a=1")).cache_key();
    assert!(!(get_request("/y", Some("a=1")).cache_key() == base));
    assert!(!(get_request("/x", Some("a=2")).cache_key() == base));
    assert!(!(get_request("/x", None).cache_key() == base));
}

#[test]
fn keys_decode_percent_escapes() {
    // `%41` is `A`, and `+` is a space, on either side of the `=`.
    let k1 = get_request("/x", Some("%41=v+1")).cache_key();
    let k2 = get_request("/x", Some("A=v%201")).cache_key();
    assert!(k1 == k2);
}

#[test]
fn key_display_is_canonical() {
    let key = get_request("/x", Some("b=2&a=1")).cache_key();
    let shown = key.display_bytes();
    assert_eq!(shown, b"GET||||/x|a=1&b=2|||".to_vec());
}

#[test]
fn query_map_deduplicates() {
    let mut q = QueryMap::new();
    q.insert(b"a".to_vec(), b"1".to_vec());
    q.insert(b"a".to_vec(), b"1".to_vec());
    q.insert(b"a".to_vec(), b"0".to_vec());
    assert_eq!(q.entries.len(), 1);
    assert_eq!(q.entries[0].1, vec![b"0".to_vec(), b"1".to_vec()]);
}

#[test]
fn key_constructor_keeps_fields() {
    let key = CommonCacheKey::new(
        Method::Get,
        Some(b"/p".to_vec()),
        None,
        Some(b"https".to_vec()),
        Some(b"example.net".to_vec()),
        Some(8443),
        None,
        None,
        None,
    );
    assert_eq!(
        key.display_bytes(),
        b"GET|https|example.net|8443|/p||||".to_vec()
    );
    let _ = key.cache_weight();
}
