//! The per-request decision machinery: serving entries, conditional
//! responses, pass-through transcoding, and the capped body read.
//!
//! The host drives the asynchronous steps — cache lookup, upstream call,
//! body streaming, cache insert — and calls down here for every decision
//! and every buffered response.

use vstd::prelude::*;

use crate::codec::copy_bytes;
use crate::conditional::{modified, spec_modified};
use crate::config::EncodingConfiguration;
use crate::encoding::Encoding;
use crate::headers::{
    has_header, remove_header, spec_bool_value, spec_content_encoding, spec_get, HeaderMap,
    HeaderName, SpecEntry, SpecName,
};
use crate::response::{to_response_post, CachedResponse, Response};

verus! {

/// What the host must do with the upstream body when a response is not
/// served from the cache.
#[derive(Clone, Copy, Debug, PartialEq, Eq, Structural)]
pub enum BodyAction {
    /// Stream the body through unchanged.
    PassThrough,
    /// Encode the body on the fly with this encoding.
    EncodeStream(Encoding),
}

/// A name the pass-through path strips: the three control headers.
pub open spec fn control_name(n: SpecName) -> bool {
    n is XxCache || n is XxCacheDuration || n is XxEncode
}

/// How a non-cached response's body is emitted: streamed encoding only
/// when one was negotiated, the response allows encoding, and its body is
/// not already encoded.
pub open spec fn spec_transcode_action(
    h: Seq<SpecEntry>,
    encoding: Encoding,
    encodable_by_default: bool,
) -> BodyAction {
    if encoding == Encoding::Identity {
        BodyAction::PassThrough
    } else if !spec_bool_value(h, SpecName::XxEncode, encodable_by_default) {
        BodyAction::PassThrough
    } else if spec_content_encoding(h) == encoding {
        BodyAction::PassThrough
    } else if spec_content_encoding(h) != Encoding::Identity {
        BodyAction::PassThrough
    } else {
        BodyAction::EncodeStream(encoding)
    }
}

/// Prepare the headers of a non-cached response and decide how its body
/// is emitted. The control headers are stripped; when the body will be
/// encoded on the fly, `Content-Encoding` is set and the no-longer-valid
/// `Content-Length` and `Content-Digest` are dropped.
pub fn prepare_transcoding(headers: HeaderMap, encoding: Encoding, encodable_by_default: bool) -> (r:
    (HeaderMap, BodyAction))
    ensures
        r.1 == spec_transcode_action(headers@, encoding, encodable_by_default),
        !has_header(r.0@, SpecName::XxCache),
        !has_header(r.0@, SpecName::XxCacheDuration),
        !has_header(r.0@, SpecName::XxEncode),
        r.1 matches BodyAction::EncodeStream(e) ==> e == encoding && spec_get(
            r.0@,
            SpecName::ContentEncoding,
        ) == Some(encoding.spec_token()) && !has_header(r.0@, SpecName::ContentLength)
            && !has_header(r.0@, SpecName::ContentDigest),
        r.1 is PassThrough ==> forall|n: SpecName|
            !control_name(n) ==> #[trigger] crate::headers::values_of(r.0@, n)
                == crate::headers::values_of(headers@, n),
        r.1 is EncodeStream ==> forall|n: SpecName|
            !control_name(n) && !(n is ContentEncoding) && !(n is ContentLength) && !(
            n is ContentDigest) ==> #[trigger] crate::headers::values_of(r.0@, n)
                == crate::headers::values_of(headers@, n),
{
    let ghost h0 = headers@;
    let mut headers = headers;
    let encode = headers.xx_encode(encodable_by_default);
    let current = headers.content_encoding();
    let ghost p1 = headers@;
    headers.remove(&HeaderName::XxCache);
    proof {
        crate::response::lemma_step_remove(p1, SpecName::XxCache);
    }
    let ghost p2 = headers@;
    headers.remove(&HeaderName::XxCacheDuration);
    proof {
        crate::response::lemma_step_remove(p2, SpecName::XxCacheDuration);
    }
    let ghost p3 = headers@;
    headers.remove(&HeaderName::XxEncode);
    proof {
        crate::response::lemma_step_remove(p3, SpecName::XxEncode);
    }
    if encoding == Encoding::Identity || !encode || current == encoding || !(current
        == Encoding::Identity) {
        return (headers, BodyAction::PassThrough);
    }
    let ghost p4 = headers@;
    headers.set(HeaderName::ContentEncoding, encoding.token());
    proof {
        crate::response::lemma_step_remove(p4, SpecName::ContentEncoding);
        crate::response::lemma_step_push(
            remove_header(p4, SpecName::ContentEncoding),
            (SpecName::ContentEncoding, encoding.spec_token()),
        );
        crate::headers::lemma_get_has(
            remove_header(p4, SpecName::ContentEncoding),
            SpecName::ContentEncoding,
        );
    }
    let ghost p5 = headers@;
    headers.remove(&HeaderName::ContentLength);
    proof {
        crate::response::lemma_step_remove(p5, SpecName::ContentLength);
    }
    let ghost p6 = headers@;
    headers.remove(&HeaderName::ContentDigest);
    proof {
        crate::response::lemma_step_remove(p6, SpecName::ContentDigest);
    }
    (headers, BodyAction::EncodeStream(encoding))
}

/// A `304 Not Modified` response: no headers, empty body.
pub fn not_modified_response() -> (r: Response)
    ensures
        r.status == 304,
        r.headers@.len() == 0,
        r.body@.len() == 0,
{
    let r = Response { status: 304, headers: HeaderMap::new(), body: Vec::new() };
    r
}

/// A `500 Internal Server Error` response: no headers, empty body.
pub fn error_response() -> (r: Response)
    ensures
        r.status == 500,
        r.headers@.len() == 0,
        r.body@.len() == 0,
{
    let r = Response { status: 500, headers: HeaderMap::new(), body: Vec::new() };
    r
}

/// The outcome of serving a cached entry.
pub enum ServeOutcome {
    /// The entry, serialized; with it, when serving stored a new
    /// representation, the updated entry to put back into the cache.
    Served(Response, Option<CachedResponse>),
    /// Serialization failed on a representation its claimed codec cannot
    /// have produced: an internal error response, and nothing is cached.
    Failed(Response),
}

/// Serialize an entry for emission. On a well-formed entry this always
/// serves; on any entry a failure yields a plain internal error response.
pub fn serve_entry(
    entry: &CachedResponse,
    encoding: Encoding,
    configuration: &EncodingConfiguration,
) -> (r: ServeOutcome)
    ensures
        entry.body.wf() ==> r is Served,
        r matches ServeOutcome::Served(resp, upd) ==> to_response_post(
            *entry,
            encoding,
            *configuration,
            resp,
            upd,
        ),
        r matches ServeOutcome::Failed(resp) ==> resp.status == 500 && resp.headers@.len() == 0
            && resp.body@.len() == 0,
{
    match entry.to_response(encoding, configuration) {
        Ok(p) => ServeOutcome::Served(p.0, p.1),
        Err(_) => ServeOutcome::Failed(error_response()),
    }
}

/// The outcome of a cache hit.
pub enum HitOutcome {
    /// The client's copy is current: a `304 Not Modified`.
    NotModified(Response),
    /// The entry, serialized; with it, possibly an updated entry to put
    /// back into the cache.
    Served(Response, Option<CachedResponse>),
    /// Serialization failed: an internal error response.
    Failed(Response),
}

/// Handle a cache hit: a request whose conditional headers match the
/// entry gets `304 Not Modified` with an empty body and no headers;
/// anything else gets the entry in the negotiated encoding.
pub fn handle_hit(
    entry: &CachedResponse,
    request_headers: &HeaderMap,
    encoding: Encoding,
    configuration: &EncodingConfiguration,
) -> (r: HitOutcome)
    ensures
        !spec_modified(request_headers@, entry.headers@) <==> r is NotModified,
        r matches HitOutcome::NotModified(resp) ==> resp.status == 304 && resp.headers@.len() == 0
            && resp.body@.len() == 0,
        spec_modified(request_headers@, entry.headers@) && entry.body.wf() ==> r is Served,
        r matches HitOutcome::Served(resp, upd) ==> to_response_post(
            *entry,
            encoding,
            *configuration,
            resp,
            upd,
        ),
        r matches HitOutcome::Failed(resp) ==> resp.status == 500 && resp.headers@.len() == 0
            && resp.body@.len() == 0,
{
    if !modified(request_headers, &entry.headers) {
        return HitOutcome::NotModified(not_modified_response());
    }
    match serve_entry(entry, encoding, configuration) {
        ServeOutcome::Served(resp, upd) => HitOutcome::Served(resp, upd),
        ServeOutcome::Failed(resp) => HitOutcome::Failed(resp),
    }
}

/// The outcome of reading an upstream body for caching.
pub enum ReadOutcome {
    /// The body arrived whole and within bounds.
    Complete(Vec<u8>),
    /// The body ended below the declared size or the cacheable minimum;
    /// the bytes come back for reconstructing the stream.
    TooSmall(Vec<u8>),
    /// The body exceeded its limit, or did not end where declared; the
    /// bytes read so far come back for reconstructing the stream.
    TooLarge(Vec<u8>),
}

/// Collects an upstream body up to a limit: the declared size when the
/// upstream gave one, else the largest cacheable size.
pub struct BodyReader {
    /// Everything read so far.
    pub buf: Vec<u8>,
    /// How many bytes the body may hold.
    pub read_limit: usize,
}

impl BodyReader {
    /// Start a read. A declared size must already have passed the
    /// cacheable bounds check.
    pub fn new(declared_size: Option<usize>, min_body_size: usize, max_body_size: usize) -> (r:
        Self)
        requires
            min_body_size <= max_body_size,
            declared_size matches Some(d) ==> min_body_size <= d <= max_body_size,
        ensures
            r.buf@.len() == 0,
            r.read_limit == (match declared_size {
                Some(d) => d,
                None => max_body_size,
            }),
    {
        let limit = match declared_size {
            Some(d) => d,
            None => max_body_size,
        };
        BodyReader { buf: Vec::new(), read_limit: limit }
    }

    /// Take in one chunk. A true result means the limit is exceeded: the
    /// body is too large and reading can stop.
    pub fn push_chunk(&mut self, chunk: &Vec<u8>) -> (full: bool)
        ensures
            final (self).buf@ == old(self).buf@ + chunk@,
            final (self).read_limit == old(self).read_limit,
            full == (final (self).buf@.len() > final (self).read_limit),
    {
        let mut c = copy_bytes(chunk);
        self.buf.append(&mut c);
        proof {
            assert(self.buf@ =~= old(self).buf@ + chunk@);
        }
        self.buf.len() > self.read_limit
    }

    /// Finish the read: `eof` says whether the upstream stream ended.
    /// The body is complete exactly when it ended within its limit, at
    /// the declared size if one was given, and at or above the cacheable
    /// minimum.
    pub fn finish(self, declared_size: Option<usize>, min_body_size: usize, eof: bool) -> (r:
        ReadOutcome)
        ensures
            r matches ReadOutcome::Complete(b) ==> b@ == self.buf@,
            r matches ReadOutcome::TooSmall(b) ==> b@ == self.buf@,
            r matches ReadOutcome::TooLarge(b) ==> b@ == self.buf@,
            (r is TooLarge) == (self.buf@.len() > self.read_limit || !eof),
            (r is TooSmall) == (self.buf@.len() <= self.read_limit && eof && ((match declared_size {
                Some(d) => self.buf@.len() < d,
                None => false,
            }) || self.buf@.len() < min_body_size)),
            (r is Complete) == (self.buf@.len() <= self.read_limit && eof && (match declared_size {
                Some(d) => self.buf@.len() >= d,
                None => true,
            }) && self.buf@.len() >= min_body_size),
    {
        if self.buf.len() > self.read_limit || !eof {
            return ReadOutcome::TooLarge(self.buf);
        }
        let small = match declared_size {
            Some(d) => self.buf.len() < d,
            None => false,
        };
        if small || self.buf.len() < min_body_size {
            return ReadOutcome::TooSmall(self.buf);
        }
        ReadOutcome::Complete(self.buf)
    }
}

/// Repeated hits for the same key and accept-encoding, with no upstream
/// activity in between, serve byte-equal bodies: when serving stored a
/// new representation, the updated entry put back into the cache serves
/// exactly the bytes that were emitted, so the next hit returns them
/// again; and an entry served from a stored representation returns that
/// representation every time.
pub proof fn lemma_hit_idempotent(
    e1: CachedResponse,
    encoding: Encoding,
    configuration: EncodingConfiguration,
    resp: Response,
    e2: CachedResponse,
)
    requires
        e1.body.wf(),
        to_response_post(e1, encoding, configuration, resp, Some(e2)),
    ensures
        e2.body.wf(),
        e2.body.served_bytes(
            crate::response::spec_effective_encoding(
                e2.headers@,
                encoding,
                configuration.encodable_by_default,
            ),
        ) == resp.body@,
{
    let eff = crate::response::spec_effective_encoding(
        e1.headers@,
        encoding,
        configuration.encodable_by_default,
    );
    assert(e2.headers@ == e1.headers@);
    assert(e2.body.rep(eff) == crate::body::reencoded_rep(
        e1.body,
        eff,
        configuration.keep_identity_encoding,
        eff,
    ));
    assert(e2.body.rep(eff) == Some(e1.body.served_bytes(eff)));
}

/// Every emitted response is free of the control headers: a response
/// served from a well-formed entry carries neither `XX-Cache` nor
/// `XX-Cache-Duration` nor `XX-Encode`.
pub proof fn lemma_served_headers_clean(
    entry: CachedResponse,
    encoding: Encoding,
    configuration: EncodingConfiguration,
    resp: Response,
    upd: Option<CachedResponse>,
)
    requires
        entry.wf(),
        to_response_post(entry, encoding, configuration, resp, upd),
    ensures
        !has_header(resp.headers@, SpecName::XxCache),
        !has_header(resp.headers@, SpecName::XxCacheDuration),
        !has_header(resp.headers@, SpecName::XxEncode),
{
}

} // verus!
