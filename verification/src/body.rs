//! Cached HTTP response bodies: one logical payload, stored under one or
//! more content encodings, reencoded on demand.

use vstd::prelude::*;

use crate::codec::{coherent, dec_of, enc_of};
use crate::codec::{copy_bytes, decode, encode, CodecError};
use crate::config::EncodingConfiguration;
use crate::encoding::Encoding;

verus! {

/// Fixed weight estimate for the body record itself.
pub const BODY_BASE_WEIGHT: usize = 48;

/// Fixed weight estimate added for each stored representation, besides its
/// bytes.
pub const BODY_ENTRY_WEIGHT: usize = 40;

/// A cached body: a map from encoding to immutable byte blob. At least one
/// representation exists at all times, and all representations decode to
/// the same identity payload; that payload is carried as ghost state.
pub struct CachedBody {
    /// The identity representation, if stored.
    pub identity: Option<Vec<u8>>,
    /// The gzip representation, if stored.
    pub gzip: Option<Vec<u8>>,
    /// The deflate representation, if stored.
    pub deflate: Option<Vec<u8>>,
    /// The brotli representation, if stored.
    pub brotli: Option<Vec<u8>>,
    /// The zstandard representation, if stored.
    pub zstd: Option<Vec<u8>>,
    /// The identity payload every representation decodes to.
    pub payload: Ghost<Seq<u8>>,
}

/// The bytes of an optional stored representation.
pub open spec fn opt_bytes(o: Option<Vec<u8>>) -> Option<Seq<u8>> {
    match o {
        Some(v) => Some(v@),
        None => None,
    }
}

/// Weight estimate of an optional stored representation.
pub open spec fn rep_weight(o: Option<Seq<u8>>) -> nat {
    match o {
        Some(v) => (BODY_ENTRY_WEIGHT + v.len()) as nat,
        None => 0,
    }
}

impl CachedBody {
    /// The stored representation for an encoding, as bytes.
    pub open spec fn rep(self, c: Encoding) -> Option<Seq<u8>> {
        match c {
            Encoding::Identity => opt_bytes(self.identity),
            Encoding::GZip => opt_bytes(self.gzip),
            Encoding::Deflate => opt_bytes(self.deflate),
            Encoding::Brotli => opt_bytes(self.brotli),
            Encoding::Zstandard => opt_bytes(self.zstd),
        }
    }

    /// The body is well formed: some representation exists, the identity
    /// representation is the payload itself, and every encoded
    /// representation is its codec's encoding of the payload.
    pub open spec fn wf(self) -> bool {
        &&& (self.rep(Encoding::Identity) is Some || self.rep(Encoding::GZip) is Some || self.rep(
            Encoding::Deflate,
        ) is Some || self.rep(Encoding::Brotli) is Some || self.rep(Encoding::Zstandard) is Some)
        &&& (self.rep(Encoding::Identity) matches Some(v) ==> v == self.payload@)
        &&& (self.rep(Encoding::GZip) matches Some(v) ==> dec_of(Encoding::GZip, v)
            == self.payload@ && coherent(Encoding::GZip, v))
        &&& (self.rep(Encoding::Deflate) matches Some(v) ==> dec_of(Encoding::Deflate, v)
            == self.payload@ && coherent(Encoding::Deflate, v))
        &&& (self.rep(Encoding::Brotli) matches Some(v) ==> dec_of(Encoding::Brotli, v)
            == self.payload@ && coherent(Encoding::Brotli, v))
        &&& (self.rep(Encoding::Zstandard) matches Some(v) ==> dec_of(Encoding::Zstandard, v)
            == self.payload@ && coherent(Encoding::Zstandard, v))
    }

    /// The bytes the body serves for an encoding: the stored
    /// representation when present, else the payload reencoded on demand.
    pub open spec fn served_bytes(self, c: Encoding) -> Seq<u8> {
        match self.rep(c) {
            Some(v) => v,
            None => enc_of(c, self.payload@),
        }
    }

    /// Weight estimate of the whole body.
    pub open spec fn spec_weight(self) -> nat {
        (BODY_BASE_WEIGHT + rep_weight(self.rep(Encoding::Identity)) + rep_weight(
            self.rep(Encoding::GZip),
        ) + rep_weight(self.rep(Encoding::Deflate)) + rep_weight(self.rep(Encoding::Brotli))
            + rep_weight(self.rep(Encoding::Zstandard))) as nat
    }

    /// An empty body shell with the given ghost payload.
    fn shell(Ghost(payload): Ghost<Seq<u8>>) -> (r: Self)
        ensures
            forall|c: Encoding| r.rep(c) is None,
            r.payload@ == payload,
    {
        CachedBody {
            identity: None,
            gzip: None,
            deflate: None,
            brotli: None,
            zstd: None,
            payload: Ghost(payload),
        }
    }

    /// Store a representation, replacing any previous one for the same
    /// encoding and leaving the rest unchanged.
    fn set_rep(&mut self, c: Encoding, v: Vec<u8>)
        ensures
            final (self).rep(c) == Some(v@),
            forall|d: Encoding| d != c ==> final (self).rep(d) == old(self).rep(d),
            final (self).payload == old(self).payload,
    {
        match c {
            Encoding::Identity => {
                self.identity = Some(v);
            }
            Encoding::GZip => {
                self.gzip = Some(v);
            }
            Encoding::Deflate => {
                self.deflate = Some(v);
            }
            Encoding::Brotli => {
                self.brotli = Some(v);
            }
            Encoding::Zstandard => {
                self.zstd = Some(v);
            }
        }
    }

    /// A reference to the stored representation for an encoding.
    fn rep_ref(&self, c: Encoding) -> (r: Option<&Vec<u8>>)
        ensures
            match r {
                Some(v) => self.rep(c) == Some(v@),
                None => self.rep(c) is None,
            },
    {
        match c {
            Encoding::Identity => self.identity.as_ref(),
            Encoding::GZip => self.gzip.as_ref(),
            Encoding::Deflate => self.deflate.as_ref(),
            Encoding::Brotli => self.brotli.as_ref(),
            Encoding::Zstandard => self.zstd.as_ref(),
        }
    }

    /// The cheapest stored encoded representation to decode from, in the
    /// fixed cost order: zstandard, deflate, gzip, brotli.
    fn first_by_decoding_cost(&self) -> (r: Option<Encoding>)
        ensures
            r == self.spec_first_by_decoding_cost(),
    {
        if self.zstd.is_some() {
            Some(Encoding::Zstandard)
        } else if self.deflate.is_some() {
            Some(Encoding::Deflate)
        } else if self.gzip.is_some() {
            Some(Encoding::GZip)
        } else if self.brotli.is_some() {
            Some(Encoding::Brotli)
        } else {
            None
        }
    }

    /// The fixed decoding-cost order, in specification form.
    pub open spec fn spec_first_by_decoding_cost(self) -> Option<Encoding> {
        if self.rep(Encoding::Zstandard) is Some {
            Some(Encoding::Zstandard)
        } else if self.rep(Encoding::Deflate) is Some {
            Some(Encoding::Deflate)
        } else if self.rep(Encoding::GZip) is Some {
            Some(Encoding::GZip)
        } else if self.rep(Encoding::Brotli) is Some {
            Some(Encoding::Brotli)
        } else {
            None
        }
    }
}

impl Clone for CachedBody {
    /// The clone stores the same representations over the same payload.
    fn clone(&self) -> (r: Self)
        ensures
            forall|c: Encoding| r.rep(c) == self.rep(c),
            r.payload == self.payload,
    {
        let identity = match &self.identity {
            Some(v) => Some(copy_bytes(v)),
            None => None,
        };
        let gzip = match &self.gzip {
            Some(v) => Some(copy_bytes(v)),
            None => None,
        };
        let deflate = match &self.deflate {
            Some(v) => Some(copy_bytes(v)),
            None => None,
        };
        let brotli = match &self.brotli {
            Some(v) => Some(copy_bytes(v)),
            None => None,
        };
        let zstd = match &self.zstd {
            Some(v) => Some(copy_bytes(v)),
            None => None,
        };
        let r = CachedBody { identity, gzip, deflate, brotli, zstd, payload: self.payload };
        proof {
            assert forall|c: Encoding| r.rep(c) == self.rep(c) by {
                match c {
                    Encoding::Identity => {}
                    Encoding::GZip => {}
                    Encoding::Deflate => {}
                    Encoding::Brotli => {}
                    Encoding::Zstandard => {}
                }
            }
        }
        r
    }
}

/// What each representation of a freshly built body holds, given the
/// source bytes, their encoding, the preferred encoding and whether
/// identity copies are kept.
pub open spec fn new_with_rep(
    src: Seq<u8>,
    e: Encoding,
    p: Encoding,
    keep: bool,
    c: Encoding,
) -> Option<Seq<u8>> {
    if p == e {
        if c == p {
            Some(src)
        } else {
            None
        }
    } else if e == Encoding::Identity {
        if c == p {
            Some(enc_of(p, src))
        } else if c == Encoding::Identity && keep {
            Some(src)
        } else {
            None
        }
    } else if p == Encoding::Identity {
        if c == Encoding::Identity {
            Some(dec_of(e, src))
        } else {
            None
        }
    } else {
        if c == p {
            Some(enc_of(p, dec_of(e, src)))
        } else if c == Encoding::Identity && keep {
            Some(dec_of(e, src))
        } else {
            None
        }
    }
}

/// What each representation holds after serving a missing encoding: the
/// requested one is added, an identity copy produced along the way is kept
/// when configured, and everything else is untouched.
pub open spec fn reencoded_rep(b: CachedBody, c: Encoding, keep: bool, d: Encoding) -> Option<
    Seq<u8>,
> {
    if d == c {
        Some(b.served_bytes(c))
    } else if d == Encoding::Identity && b.rep(Encoding::Identity) is None && keep && c
        != Encoding::Identity {
        Some(b.payload@)
    } else {
        b.rep(d)
    }
}

impl CachedBody {
    /// Build a body from source bytes in a given encoding, stored under
    /// the preferred encoding.
    ///
    /// If the preferred encoding differs from the source encoding the
    /// bytes are reencoded, and an identity copy produced along the way is
    /// kept when `keep_identity_encoding` says so. Decoding fails only on
    /// source bytes their claimed codec cannot have produced; then the
    /// error is handed back and nothing is cached.
    pub fn new_with(
        bytes: Vec<u8>,
        encoding: Encoding,
        preferred_encoding: Encoding,
        configuration: &EncodingConfiguration,
    ) -> (r: Result<Self, CodecError>)
        ensures
            coherent(encoding, bytes@) ==> r is Ok,
            r matches Ok(b) ==> {
                &&& b.payload@ == dec_of(encoding, bytes@)
                &&& forall|c: Encoding|
                    b.rep(c) == new_with_rep(
                        bytes@,
                        encoding,
                        preferred_encoding,
                        configuration.keep_identity_encoding,
                        c,
                    )
                &&& (coherent(encoding, bytes@) ==> b.wf())
            },
    {
        let ghost src = bytes@;
        let mut body = Self::shell(Ghost(dec_of(encoding, bytes@)));
        if preferred_encoding == encoding {
            body.set_rep(preferred_encoding, bytes);
        } else if encoding == Encoding::Identity {
            let encoded_bytes = encode(&bytes, preferred_encoding);
            body.set_rep(preferred_encoding, encoded_bytes);
            if configuration.keep_identity_encoding {
                body.set_rep(Encoding::Identity, bytes);
            }
        } else if preferred_encoding == Encoding::Identity {
            let identity_bytes = match decode(&bytes, encoding) {
                Ok(v) => v,
                Err(e) => {
                    return Err(e);
                }
            };
            body.set_rep(Encoding::Identity, identity_bytes);
        } else {
            let identity_bytes = match decode(&bytes, encoding) {
                Ok(v) => v,
                Err(e) => {
                    return Err(e);
                }
            };
            let encoded_bytes = encode(&identity_bytes, preferred_encoding);
            body.set_rep(preferred_encoding, encoded_bytes);
            if configuration.keep_identity_encoding {
                body.set_rep(Encoding::Identity, identity_bytes);
            }
        }
        Ok(body)
    }

    /// Serve the body in the given encoding.
    ///
    /// A stored representation is returned as is. A missing one is
    /// produced from the cheapest stored source and returned together with
    /// a modified clone that also stores it, so the caller can put the
    /// clone back into the cache. On a well-formed body this never fails
    /// and the result is exactly [CachedBody::served_bytes].
    pub fn get(&self, encoding: Encoding, configuration: &EncodingConfiguration) -> (r: Result<
        (Vec<u8>, Option<Self>),
        CodecError,
    >)
        ensures
            self.wf() ==> r is Ok,
            self.wf() && self.rep(encoding) is Some ==> (r matches Ok(p) && p.0@
                == self.served_bytes(encoding) && p.1 is None),
            self.wf() && self.rep(encoding) is None ==> (r matches Ok(p) && {
                &&& p.0@ == self.served_bytes(encoding)
                &&& p.1 matches Some(m)
                &&& m.wf()
                &&& m.payload == self.payload
                &&& forall|d: Encoding|
                    m.rep(d) == reencoded_rep(
                        *self,
                        encoding,
                        configuration.keep_identity_encoding,
                        d,
                    )
            }),
    {
        match self.rep_ref(encoding) {
            Some(v) => Ok((copy_bytes(v), None)),
            None => {
                if encoding == Encoding::Identity {
                    match self.first_by_decoding_cost() {
                        Some(from_encoding) => {
                            let stored = match self.rep_ref(from_encoding) {
                                Some(v) => v,
                                None => {
                                    return Err(CodecError);
                                }
                            };
                            let identity_bytes = match decode(stored, from_encoding) {
                                Ok(v) => v,
                                Err(e) => {
                                    return Err(e);
                                }
                            };
                            let mut modified = self.clone();
                            modified.set_rep(Encoding::Identity, copy_bytes(&identity_bytes));
                            Ok((identity_bytes, Some(modified)))
                        }
                        None => {
                            // A body with no representations; do not fail,
                            // serve empty bytes.
                            Ok((Vec::new(), None))
                        }
                    }
                } else {
                    match self.rep_ref(Encoding::Identity) {
                        Some(identity_bytes) => {
                            let encoded = encode(identity_bytes, encoding);
                            let mut modified = self.clone();
                            modified.set_rep(encoding, copy_bytes(&encoded));
                            Ok((encoded, Some(modified)))
                        }
                        None => {
                            match self.first_by_decoding_cost() {
                                Some(from_encoding) => {
                                    let stored = match self.rep_ref(from_encoding) {
                                        Some(v) => v,
                                        None => {
                                            return Err(CodecError);
                                        }
                                    };
                                    let identity_bytes = match decode(stored, from_encoding) {
                                        Ok(v) => v,
                                        Err(e) => {
                                            return Err(e);
                                        }
                                    };
                                    let encoded = encode(&identity_bytes, encoding);
                                    let mut modified = self.clone();
                                    if configuration.keep_identity_encoding {
                                        modified.set_rep(Encoding::Identity, identity_bytes);
                                    }
                                    modified.set_rep(encoding, copy_bytes(&encoded));
                                    Ok((encoded, Some(modified)))
                                }
                                None => {
                                    // A body with no representations; do
                                    // not fail, serve empty bytes.
                                    Ok((Vec::new(), None))
                                }
                            }
                        }
                    }
                }
            }
        }
    }

    /// Weight estimate of the body: a fixed base, plus, for each stored
    /// representation, a fixed entry estimate and its byte length. The sum
    /// saturates at `usize::MAX`.
    pub fn cache_weight(&self) -> (r: usize)
        ensures
            r == sat_cap(self.spec_weight()),
    {
        let mut w: usize = BODY_BASE_WEIGHT;
        w = sat_add_rep(w, &self.identity);
        w = sat_add_rep(w, &self.gzip);
        w = sat_add_rep(w, &self.deflate);
        w = sat_add_rep(w, &self.brotli);
        w = sat_add_rep(w, &self.zstd);
        w
    }
}

/// A mathematical weight capped at `usize::MAX`.
pub open spec fn sat_cap(n: nat) -> usize {
    if n > usize::MAX {
        usize::MAX
    } else {
        n as usize
    }
}

/// Saturating add.
pub fn sat_add(a: usize, b: usize) -> (r: usize)
    ensures
        r == sat_cap((a + b) as nat),
{
    if a > usize::MAX - b {
        usize::MAX
    } else {
        a + b
    }
}

/// Add the weight estimate of one stored representation, saturating.
fn sat_add_rep(w: usize, o: &Option<Vec<u8>>) -> (r: usize)
    ensures
        r == sat_cap((w + rep_weight(opt_bytes(*o))) as nat),
{
    match o {
        Some(v) => {
            let r = sat_add(w, BODY_ENTRY_WEIGHT);
            sat_add(r, v.len())
        }
        None => w,
    }
}

/// Adding representations never lowers the weight estimate: a body that
/// stores every representation of another, unchanged, weighs at least as
/// much.
pub proof fn lemma_weight_monotone(b1: CachedBody, b2: CachedBody)
    requires
        forall|c: Encoding| b1.rep(c) is Some ==> b2.rep(c) == b1.rep(c),
    ensures
        b2.spec_weight() >= b1.spec_weight(),
{
    assert(b1.rep(Encoding::Identity) is Some ==> b2.rep(Encoding::Identity) == b1.rep(
        Encoding::Identity,
    ));
    assert(b1.rep(Encoding::GZip) is Some ==> b2.rep(Encoding::GZip) == b1.rep(Encoding::GZip));
    assert(b1.rep(Encoding::Deflate) is Some ==> b2.rep(Encoding::Deflate) == b1.rep(
        Encoding::Deflate,
    ));
    assert(b1.rep(Encoding::Brotli) is Some ==> b2.rep(Encoding::Brotli) == b1.rep(
        Encoding::Brotli,
    ));
    assert(b1.rep(Encoding::Zstandard) is Some ==> b2.rep(Encoding::Zstandard) == b1.rep(
        Encoding::Zstandard,
    ));
}

/// A well-formed body always has at least one representation, and every
/// representation decodes to the same identity payload.
pub proof fn lemma_body_invariant(b: CachedBody)
    requires
        b.wf(),
    ensures
        b.rep(Encoding::Identity) is Some || b.rep(Encoding::GZip) is Some || b.rep(
            Encoding::Deflate,
        ) is Some || b.rep(Encoding::Brotli) is Some || b.rep(Encoding::Zstandard) is Some,
        forall|c: Encoding| (#[trigger] b.rep(c)) matches Some(v) ==> dec_of(c, v) == b.payload@,
{
    assert forall|c: Encoding| ((#[trigger] b.rep(c)) matches Some(v) ==> dec_of(c, v)
        == b.payload@) by {
        match c {
            Encoding::Identity => {}
            Encoding::GZip => {}
            Encoding::Deflate => {}
            Encoding::Brotli => {}
            Encoding::Zstandard => {}
        }
    }
}

} // verus!
