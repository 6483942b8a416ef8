//! Conditional requests: `If-None-Match` and `If-Modified-Since` against a
//! stored entry's `ETag` and `Last-Modified`.

use vstd::prelude::*;

use crate::accept::{first_idx, lemma_first_idx_at, lemma_first_idx_bounds, spec_trim, trim_bytes};
use crate::accept::copy_range;
use crate::headers::{spec_get, HeaderMap, HeaderName, SpecEntry, SpecName};
use crate::time::{http_date_secs_of, parse_http_date};

verus! {

/// One entity tag: its bytes and whether it is weak.
pub type SpecETag = (Seq<u8>, bool);

/// Parse one entity tag: optionally weak (`W/"..."`), always quoted, no
/// quote inside; anything else is malformed.
pub open spec fn etag_parse(t: Seq<u8>) -> Option<SpecETag> {
    let s = spec_trim(t);
    if s.len() >= 2 && s.last() == 0x22 {
        let body = s.subrange(0, s.len() - 1);
        if body.len() >= 3 && body[0] == 0x57 && body[1] == 0x2f && body[2] == 0x22 {
            let tag = body.subrange(3, body.len() as int);
            if has_quote(tag) {
                None
            } else {
                Some((tag, true))
            }
        } else if body.len() >= 1 && body[0] == 0x22 {
            let tag = body.subrange(1, body.len() as int);
            if has_quote(tag) {
                None
            } else {
                Some((tag, false))
            }
        } else {
            None
        }
    } else {
        None
    }
}

/// The bytes contain a double quote.
pub open spec fn has_quote(s: Seq<u8>) -> bool {
    exists|i: int| 0 <= i < s.len() && s[i] == 0x22
}

/// Parse a comma-separated list of entity tags, skipping malformed ones.
pub open spec fn etag_list(s: Seq<u8>) -> Seq<SpecETag>
    decreases s.len(),
    via etag_list_decreases
{
    let i = first_idx(s, 0x2c);
    let head = match etag_parse(s.subrange(0, i)) {
        Some(t) => seq![t],
        None => Seq::<SpecETag>::empty(),
    };
    if i == s.len() {
        head
    } else {
        head + etag_list(s.subrange(i + 1, s.len() as int))
    }
}

#[via_fn]
proof fn etag_list_decreases(s: Seq<u8>) {
    lemma_first_idx_bounds(s, 0x2c);
}

/// A parsed tag list in specification form.
pub open spec fn etags_view(v: Seq<(Vec<u8>, bool)>) -> Seq<SpecETag> {
    Seq::new(v.len(), |i: int| ((#[trigger] v[i]).0@, v[i].1))
}

/// How [etags_view] reads element by element.
pub proof fn lemma_etags_view(v: Seq<(Vec<u8>, bool)>)
    ensures
        etags_view(v).len() == v.len(),
        forall|i: int| 0 <= i < v.len() ==> etags_view(v)[i] == ((#[trigger] v[i]).0@, v[i].1),
{
}

/// `*` as a whole header value.
pub open spec fn star_value(s: Seq<u8>) -> bool {
    s.len() == 1 && s[0] == 0x2a
}

/// The `If-None-Match` condition of a request: `*`, or the parsed tags
/// when at least one is well formed; otherwise no condition.
pub open spec fn spec_if_none_match(rq: Seq<SpecEntry>) -> Option<Seq<SpecETag>> {
    match spec_get(rq, SpecName::IfNoneMatch) {
        None => None,
        Some(v) => if star_value(v) {
            Some(Seq::<SpecETag>::empty())  // `*`, represented separately below
        } else if etag_list(v).len() > 0 {
            Some(etag_list(v))
        } else {
            None
        },
    }
}

/// The request asks `If-None-Match: *`.
pub open spec fn spec_inm_any(rq: Seq<SpecEntry>) -> bool {
    match spec_get(rq, SpecName::IfNoneMatch) {
        None => false,
        Some(v) => star_value(v),
    }
}

/// The entity tag of a stored entry, parsed from its `ETag` header.
pub open spec fn spec_response_etag(rs: Seq<SpecEntry>) -> Option<SpecETag> {
    match spec_get(rs, SpecName::ETag) {
        None => None,
        Some(v) => etag_parse(v),
    }
}

/// The `If-None-Match` condition holds: `*` always matches; a tag list
/// matches a strong response tag that appears in it.
pub open spec fn spec_inm_matches(rq: Seq<SpecEntry>, rs: Seq<SpecEntry>) -> bool {
    if spec_inm_any(rq) {
        true
    } else {
        match spec_if_none_match(rq) {
            None => false,
            Some(tags) => match spec_response_etag(rs) {
                Some(t) => !t.1 && tags.contains((t.0, false)),
                None => false,
            },
        }
    }
}

/// A date header, read as seconds since the epoch.
pub open spec fn spec_date_header(h: Seq<SpecEntry>, n: SpecName) -> Option<u64> {
    match spec_get(h, n) {
        None => None,
        Some(v) => http_date_secs_of(v),
    }
}

/// The entry counts as modified for this request: no conditional header
/// matches it. `If-None-Match` takes precedence; otherwise a
/// `Last-Modified` no later than `If-Modified-Since` counts as unmodified.
/// With too little information the entry counts as modified.
pub open spec fn spec_modified(rq: Seq<SpecEntry>, rs: Seq<SpecEntry>) -> bool {
    if spec_inm_matches(rq, rs) {
        false
    } else {
        match (spec_date_header(rs, SpecName::LastModified), spec_date_header(
            rq,
            SpecName::IfModifiedSince,
        )) {
            (Some(lm), Some(since)) => lm > since,
            _ => true,
        }
    }
}

/// Parse one entity tag.
fn etag_parse_exec(t: &Vec<u8>) -> (r: Option<(Vec<u8>, bool)>)
    ensures
        match r {
            Some(p) => etag_parse(t@) == Some((p.0@, p.1)),
            None => etag_parse(t@) is None,
        },
{
    let s = trim_bytes(t);
    let n = s.len();
    if !(n >= 2 && s[n - 1] == 0x22) {
        return None;
    }
    let ghost body = s@.subrange(0, n - 1);
    proof {
        assert(body.len() == n - 1);
        assert(forall|k: int| 0 <= k < n - 1 ==> #[trigger] body[k] == s@[k]);
    }
    if n - 1 >= 3 && s[0] == 0x57 && s[1] == 0x2f && s[2] == 0x22 {
        let tag = copy_range(&s, 3, n - 1);
        proof {
            assert(tag@ =~= body.subrange(3, body.len() as int));
        }
        if contains_quote(&tag) {
            None
        } else {
            Some((tag, true))
        }
    } else if n - 1 >= 1 && s[0] == 0x22 {
        let tag = copy_range(&s, 1, n - 1);
        proof {
            assert(tag@ =~= body.subrange(1, body.len() as int));
        }
        if contains_quote(&tag) {
            None
        } else {
            Some((tag, false))
        }
    } else {
        None
    }
}

/// The bytes contain a double quote.
fn contains_quote(v: &Vec<u8>) -> (r: bool)
    ensures
        r == has_quote(v@),
{
    let mut i: usize = 0;
    while i < v.len()
        invariant
            i <= v@.len(),
            forall|k: int| 0 <= k < i ==> v@[k] != 0x22,
        decreases v@.len() - i,
    {
        if v[i] == 0x22 {
            return true;
        }
        i = i + 1;
    }
    false
}

/// Parse a comma-separated list of entity tags from a position on.
fn etag_list_from(v: &Vec<u8>, pos: usize) -> (r: Vec<(Vec<u8>, bool)>)
    requires
        pos <= v@.len(),
    ensures
        etags_view(r@) == etag_list(v@.subrange(pos as int, v@.len() as int)),
    decreases v@.len() - pos,
{
    let ghost suffix = v@.subrange(pos as int, v@.len() as int);
    let n = v.len();
    let mut j: usize = pos;
    while j < n && v[j] != 0x2c
        invariant
            pos <= j <= n,
            n == v@.len(),
            forall|k: int| pos <= k < j ==> v@[k] != 0x2c,
        decreases n - j,
    {
        j = j + 1;
    }
    proof {
        assert(forall|k: int| 0 <= k < j - pos ==> #[trigger] suffix[k] != 0x2c);
        lemma_first_idx_at(suffix, 0x2c, j - pos as int);
    }
    let piece = copy_range(v, pos, j);
    proof {
        assert(piece@ =~= suffix.subrange(0, j - pos as int));
    }
    let head = etag_parse_exec(&piece);
    let mut out: Vec<(Vec<u8>, bool)> = Vec::new();
    match head {
        Some(t) => {
            out.push(t);
        }
        None => {}
    }
    if j == n {
        proof {
            lemma_etags_view(out@);
            assert(etags_view(out@) =~= etag_list(suffix));
        }
        out
    } else {
        let mut rest = etag_list_from(v, j + 1);
        proof {
            assert(suffix.subrange(j - pos as int + 1, suffix.len() as int) =~= v@.subrange(
                j + 1,
                n as int,
            ));
        }
        let ghost out0 = out@;
        out.append(&mut rest);
        proof {
            lemma_etags_view(out0);
            lemma_etags_view(rest@);
            lemma_etags_view(out@);
            assert(etags_view(out@) =~= etag_list(suffix));
        }
        out
    }
}

/// Whether the stored entry counts as modified for this request, per its
/// conditional headers.
pub fn modified(request_headers: &HeaderMap, response_headers: &HeaderMap) -> (r: bool)
    ensures
        r == spec_modified(request_headers@, response_headers@),
{
    // `If-None-Match` takes precedence over `If-Modified-Since`.
    match request_headers.get_first(&HeaderName::IfNoneMatch) {
        Some(v) => {
            if v.len() == 1 && v[0] == 0x2a {
                return false;
            }
            let tags = etag_list_from(v, 0);
            proof {
                assert(v@.subrange(0, v@.len() as int) =~= v@);
            }
            if tags.len() > 0 {
                match response_headers.get_first(&HeaderName::ETag) {
                    Some(ev) => {
                        match etag_parse_exec(ev) {
                            Some(t) => {
                                if !t.1 {
                                    let mut i: usize = 0;
                                    let ghost tv = etags_view(tags@);
                                    proof {
                                        lemma_etags_view(tags@);
                                    }
                                    while i < tags.len()
                                        invariant
                                            i <= tags@.len(),
                                            tv == etags_view(tags@),
                                            tv.len() == tags@.len(),
                                            tv.len() > 0,
                                            tv == etag_list(v@),
                                            !star_value(v@),
                                            spec_get(request_headers@, SpecName::IfNoneMatch)
                                                == Some(v@),
                                            spec_get(response_headers@, SpecName::ETag) == Some(
                                                ev@,
                                            ),
                                            etag_parse(ev@) == Some((t.0@, t.1)),
                                            !t.1,
                                            forall|k: int|
                                                0 <= k < tv.len() ==> #[trigger] tv[k] == (
                                                tags@[k].0@,
                                                tags@[k].1,
                                                ),
                                            forall|k: int|
                                                0 <= k < i ==> #[trigger] tv[k] != (t.0@, false),
                                        decreases tags@.len() - i,
                                    {
                                        let e = &tags[i];
                                        let same = bytes_eq(&e.0, &t.0);
                                        if same && !e.1 {
                                            proof {
                                                assert(tv[i as int] == (t.0@, false));
                                                assert(tv.contains((t.0@, false)));
                                            }
                                            return false;
                                        }
                                        i = i + 1;
                                    }
                                    proof {
                                        if tv.contains((t.0@, false)) {
                                            let c = choose|c: int|
                                                0 <= c < tv.len() && tv[c] == (t.0@, false);
                                            assert(false);
                                        }
                                    }
                                }
                            }
                            None => {}
                        }
                    }
                    None => {}
                }
            }
        }
        None => {}
    }
    // Compare dates: unmodified when the entry is no newer than the
    // client's copy.
    let lm = match response_headers.get_first(&HeaderName::LastModified) {
        Some(v) => parse_http_date(v),
        None => None,
    };
    let since = match request_headers.get_first(&HeaderName::IfModifiedSince) {
        Some(v) => parse_http_date(v),
        None => None,
    };
    match (lm, since) {
        (Some(l), Some(s)) => l > s,
        _ => true,
    }
}

/// Whether two byte vectors hold the same bytes.
pub fn bytes_eq(a: &Vec<u8>, b: &Vec<u8>) -> (r: bool)
    ensures
        r == (a@ == b@),
{
    let c = crate::key::bytes_cmp(a, b);
    c == 0
}

} // verus!
