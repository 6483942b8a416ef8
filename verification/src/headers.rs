//! Model of HTTP headers as the middleware sees them.
//!
//! A header map is an ordered list of name/value entries. The names the
//! middleware inspects form a closed set of variants; every other header is
//! carried opaquely under [HeaderName::Other] with its lowercase ASCII name.

use vstd::prelude::*;

use crate::ascii::{lower_of, parse_usize_spec};
use crate::ascii::{parse_usize, to_lower};
use crate::codec::copy_bytes;
use crate::encoding::Encoding;
use vstd::std_specs::cmp::PartialEqSpec;

verus! {

/// An HTTP header name. Names the middleware never inspects travel as
/// [HeaderName::Other] bytes; those are expected to be lowercase ASCII,
/// which the host HTTP stack guarantees.
pub enum HeaderName {
    /// `XX-Cache`: whether the response may be cached.
    XxCache,
    /// `XX-Cache-Duration`: how long the response may be cached.
    XxCacheDuration,
    /// `XX-Encode`: whether the response may be encoded.
    XxEncode,
    /// `Content-Encoding`.
    ContentEncoding,
    /// `Content-Length`.
    ContentLength,
    /// `Content-Digest`.
    ContentDigest,
    /// `Content-Range`.
    ContentRange,
    /// `Accept-Ranges`.
    AcceptRanges,
    /// `Accept-Encoding`.
    AcceptEncoding,
    /// `Last-Modified`.
    LastModified,
    /// `ETag`.
    ETag,
    /// `If-Modified-Since`.
    IfModifiedSince,
    /// `If-None-Match`.
    IfNoneMatch,
    /// Any other header, by its lowercase ASCII name.
    Other(Vec<u8>),
}

/// A header name in specification form.
pub enum SpecName {
    /// `XX-Cache`.
    XxCache,
    /// `XX-Cache-Duration`.
    XxCacheDuration,
    /// `XX-Encode`.
    XxEncode,
    /// `Content-Encoding`.
    ContentEncoding,
    /// `Content-Length`.
    ContentLength,
    /// `Content-Digest`.
    ContentDigest,
    /// `Content-Range`.
    ContentRange,
    /// `Accept-Ranges`.
    AcceptRanges,
    /// `Accept-Encoding`.
    AcceptEncoding,
    /// `Last-Modified`.
    LastModified,
    /// `ETag`.
    ETag,
    /// `If-Modified-Since`.
    IfModifiedSince,
    /// `If-None-Match`.
    IfNoneMatch,
    /// Any other header, by its name bytes.
    Other(Seq<u8>),
}

impl View for HeaderName {
    type V = SpecName;

    open spec fn view(&self) -> SpecName {
        match self {
            HeaderName::XxCache => SpecName::XxCache,
            HeaderName::XxCacheDuration => SpecName::XxCacheDuration,
            HeaderName::XxEncode => SpecName::XxEncode,
            HeaderName::ContentEncoding => SpecName::ContentEncoding,
            HeaderName::ContentLength => SpecName::ContentLength,
            HeaderName::ContentDigest => SpecName::ContentDigest,
            HeaderName::ContentRange => SpecName::ContentRange,
            HeaderName::AcceptRanges => SpecName::AcceptRanges,
            HeaderName::AcceptEncoding => SpecName::AcceptEncoding,
            HeaderName::LastModified => SpecName::LastModified,
            HeaderName::ETag => SpecName::ETag,
            HeaderName::IfModifiedSince => SpecName::IfModifiedSince,
            HeaderName::IfNoneMatch => SpecName::IfNoneMatch,
            HeaderName::Other(x) => SpecName::Other(x@),
        }
    }
}

impl vstd::std_specs::cmp::PartialEqSpecImpl for HeaderName {
    open spec fn obeys_eq_spec() -> bool {
        true
    }

    open spec fn eq_spec(&self, other: &HeaderName) -> bool {
        self@ == other@
    }
}

impl PartialEq for HeaderName {
    fn eq(&self, other: &HeaderName) -> bool {
        match (self, other) {
            (HeaderName::XxCache, HeaderName::XxCache) => true,
            (HeaderName::XxCacheDuration, HeaderName::XxCacheDuration) => true,
            (HeaderName::XxEncode, HeaderName::XxEncode) => true,
            (HeaderName::ContentEncoding, HeaderName::ContentEncoding) => true,
            (HeaderName::ContentLength, HeaderName::ContentLength) => true,
            (HeaderName::ContentDigest, HeaderName::ContentDigest) => true,
            (HeaderName::ContentRange, HeaderName::ContentRange) => true,
            (HeaderName::AcceptRanges, HeaderName::AcceptRanges) => true,
            (HeaderName::AcceptEncoding, HeaderName::AcceptEncoding) => true,
            (HeaderName::LastModified, HeaderName::LastModified) => true,
            (HeaderName::ETag, HeaderName::ETag) => true,
            (HeaderName::IfModifiedSince, HeaderName::IfModifiedSince) => true,
            (HeaderName::IfNoneMatch, HeaderName::IfNoneMatch) => true,
            (HeaderName::Other(x), HeaderName::Other(y)) => {
                let r = x == y;
                proof {
                    if r {
                        assert(x@ =~= y@);
                    } else {
                        if x@ == y@ {
                            assert(x.eq_spec(y));
                            assert(false);
                        }
                    }
                }
                r
            }
            _ => false,
        }
    }
}

impl Clone for HeaderName {
    /// The clone is the same name.
    fn clone(&self) -> (r: Self)
        ensures
            r@ == self@,
    {
        match self {
            HeaderName::XxCache => HeaderName::XxCache,
            HeaderName::XxCacheDuration => HeaderName::XxCacheDuration,
            HeaderName::XxEncode => HeaderName::XxEncode,
            HeaderName::ContentEncoding => HeaderName::ContentEncoding,
            HeaderName::ContentLength => HeaderName::ContentLength,
            HeaderName::ContentDigest => HeaderName::ContentDigest,
            HeaderName::ContentRange => HeaderName::ContentRange,
            HeaderName::AcceptRanges => HeaderName::AcceptRanges,
            HeaderName::AcceptEncoding => HeaderName::AcceptEncoding,
            HeaderName::LastModified => HeaderName::LastModified,
            HeaderName::ETag => HeaderName::ETag,
            HeaderName::IfModifiedSince => HeaderName::IfModifiedSince,
            HeaderName::IfNoneMatch => HeaderName::IfNoneMatch,
            HeaderName::Other(x) => HeaderName::Other(copy_bytes(x)),
        }
    }
}

/// One header entry in specification form: name and value bytes.
pub type SpecEntry = (SpecName, Seq<u8>);

/// The value of the first entry with the given name, scanning in order.
pub open spec fn spec_get(s: Seq<SpecEntry>, n: SpecName) -> Option<Seq<u8>>
    decreases s.len(),
{
    if s.len() == 0 {
        None
    } else if s[0].0 == n {
        Some(s[0].1)
    } else {
        spec_get(s.drop_first(), n)
    }
}

/// Some entry has the given name.
pub open spec fn has_header(s: Seq<SpecEntry>, n: SpecName) -> bool {
    exists|i: int| 0 <= i < s.len() && (#[trigger] s[i]).0 == n
}

/// The entries left when every entry with the given name is removed.
pub open spec fn remove_header(s: Seq<SpecEntry>, n: SpecName) -> Seq<SpecEntry>
    decreases s.len(),
{
    if s.len() == 0 {
        Seq::<SpecEntry>::empty()
    } else {
        (if s[0].0 == n {
            Seq::<SpecEntry>::empty()
        } else {
            seq![s[0]]
        }) + remove_header(s.drop_first(), n)
    }
}

/// What one entry contributes to the values under a name.
pub proof fn lemma_values_single(x: SpecEntry, n: SpecName)
    ensures
        values_of(seq![x], n) == if x.0 == n {
            seq![x.1]
        } else {
            Seq::<Seq<u8>>::empty()
        },
{
    assert(seq![x].drop_first() =~= Seq::<SpecEntry>::empty());
    assert(values_of(Seq::<SpecEntry>::empty(), n) =~= Seq::<Seq<u8>>::empty());
    assert(values_of(seq![x], n) =~= if x.0 == n {
        seq![x.1]
    } else {
        Seq::<Seq<u8>>::empty()
    });
}

/// What removal leaves of one entry.
pub proof fn lemma_remove_single(x: SpecEntry, n: SpecName)
    ensures
        remove_header(seq![x], n) == if x.0 == n {
            Seq::<SpecEntry>::empty()
        } else {
            seq![x]
        },
{
    assert(seq![x].drop_first() =~= Seq::<SpecEntry>::empty());
    assert(remove_header(Seq::<SpecEntry>::empty(), n) =~= Seq::<SpecEntry>::empty());
    assert(remove_header(seq![x], n) =~= if x.0 == n {
        Seq::<SpecEntry>::empty()
    } else {
        seq![x]
    });
}

/// Splitting a list splits the values carried under a name.
pub proof fn lemma_values_concat(a: Seq<SpecEntry>, b: Seq<SpecEntry>, n: SpecName)
    ensures
        values_of(a + b, n) == values_of(a, n) + values_of(b, n),
    decreases a.len(),
{
    if a.len() == 0 {
        assert(a + b =~= b);
        assert(values_of(a, n) + values_of(b, n) =~= values_of(b, n));
    } else {
        assert((a + b).drop_first() =~= a.drop_first() + b);
        assert((a + b)[0] == a[0]);
        lemma_values_concat(a.drop_first(), b, n);
        assert(values_of(a + b, n) =~= values_of(a, n) + values_of(b, n));
    }
}

/// Splitting a list splits its removal.
pub proof fn lemma_remove_concat(a: Seq<SpecEntry>, b: Seq<SpecEntry>, n: SpecName)
    ensures
        remove_header(a + b, n) == remove_header(a, n) + remove_header(b, n),
    decreases a.len(),
{
    if a.len() == 0 {
        assert(a + b =~= b);
        assert(remove_header(a, n) + remove_header(b, n) =~= remove_header(b, n));
    } else {
        assert((a + b).drop_first() =~= a.drop_first() + b);
        assert((a + b)[0] == a[0]);
        lemma_remove_concat(a.drop_first(), b, n);
        assert(remove_header(a + b, n) =~= remove_header(a, n) + remove_header(b, n));
    }
}

/// Appending an entry to a list appends it to the removal unless it bears
/// the removed name.
pub proof fn lemma_remove_push(s: Seq<SpecEntry>, x: SpecEntry, n: SpecName)
    ensures
        remove_header(s.push(x), n) == remove_header(s, n) + if x.0 == n {
            Seq::<SpecEntry>::empty()
        } else {
            seq![x]
        },
{
    assert(s.push(x) =~= s + seq![x]);
    lemma_remove_concat(s, seq![x], n);
    lemma_remove_single(x, n);
    assert(remove_header(s.push(x), n) =~= remove_header(s, n) + if x.0 == n {
        Seq::<SpecEntry>::empty()
    } else {
        seq![x]
    });
}

/// Removal leaves no entry with the removed name.
pub proof fn lemma_remove_absent(s: Seq<SpecEntry>, n: SpecName)
    ensures
        !has_header(remove_header(s, n), n),
    decreases s.len(),
{
    if s.len() > 0 {
        lemma_remove_absent(s.drop_first(), n);
        let r = remove_header(s, n);
        let head = if s[0].0 == n {
            Seq::<SpecEntry>::empty()
        } else {
            seq![s[0]]
        };
        let rest = remove_header(s.drop_first(), n);
        if has_header(r, n) {
            let j = choose|j: int| 0 <= j < r.len() && r[j].0 == n;
            if j < head.len() {
                assert(r[j] == s[0]);
            } else {
                assert(r[j] == rest[j - head.len()]);
                assert(has_header(rest, n));
            }
        }
    }
}

/// A found first entry and a present name say the same thing.
pub proof fn lemma_get_has(s: Seq<SpecEntry>, n: SpecName)
    ensures
        spec_get(s, n) is Some <==> has_header(s, n),
    decreases s.len(),
{
    if s.len() > 0 {
        lemma_get_has(s.drop_first(), n);
        if s[0].0 != n {
            if has_header(s, n) {
                let i = choose|i: int| 0 <= i < s.len() && s[i].0 == n;
                assert(s.drop_first()[i - 1] == s[i]);
                assert(has_header(s.drop_first(), n));
            }
            if has_header(s.drop_first(), n) {
                let i = choose|i: int| 0 <= i < s.drop_first().len() && s.drop_first()[i].0 == n;
                assert(s[i + 1] == s.drop_first()[i]);
            }
        }
    }
}

/// All values carried under one name, in order.
pub open spec fn values_of(s: Seq<SpecEntry>, n: SpecName) -> Seq<Seq<u8>>
    decreases s.len(),
{
    if s.len() == 0 {
        Seq::<Seq<u8>>::empty()
    } else {
        (if s[0].0 == n {
            seq![s[0].1]
        } else {
            Seq::<Seq<u8>>::empty()
        }) + values_of(s.drop_first(), n)
    }
}

/// Appending an entry appends its value to its own name and to no other.
pub proof fn lemma_values_push(s: Seq<SpecEntry>, x: SpecEntry, n: SpecName)
    ensures
        values_of(s.push(x), n) == values_of(s, n) + if x.0 == n {
            seq![x.1]
        } else {
            Seq::<Seq<u8>>::empty()
        },
{
    assert(s.push(x) =~= s + seq![x]);
    lemma_values_concat(s, seq![x], n);
    lemma_values_single(x, n);
    assert(values_of(s.push(x), n) =~= values_of(s, n) + if x.0 == n {
        seq![x.1]
    } else {
        Seq::<Seq<u8>>::empty()
    });
}

/// Removing one name leaves the values of every other name unchanged.
pub proof fn lemma_values_remove_other(s: Seq<SpecEntry>, m: SpecName, n: SpecName)
    requires
        n != m,
    ensures
        values_of(remove_header(s, m), n) == values_of(s, n),
    decreases s.len(),
{
    if s.len() > 0 {
        lemma_values_remove_other(s.drop_first(), m, n);
        let head = if s[0].0 == m {
            Seq::<SpecEntry>::empty()
        } else {
            seq![s[0]]
        };
        lemma_values_concat(head, remove_header(s.drop_first(), m), n);
        if !(s[0].0 == m) {
            lemma_values_single(s[0], n);
        } else {
            assert(values_of(head, n) =~= Seq::<Seq<u8>>::empty());
        }
        assert(values_of(remove_header(s, m), n) =~= values_of(s, n));
    }
}

/// Removing one name leaves the first value of every other name unchanged.
pub proof fn lemma_get_remove_other(s: Seq<SpecEntry>, m: SpecName, n: SpecName)
    requires
        n != m,
    ensures
        spec_get(remove_header(s, m), n) == spec_get(s, n),
{
    lemma_get_values(remove_header(s, m), n);
    lemma_get_values(s, n);
    lemma_values_remove_other(s, m, n);
}

/// The first value under a name heads the list of all its values.
pub proof fn lemma_get_values(s: Seq<SpecEntry>, n: SpecName)
    ensures
        spec_get(s, n) == (if values_of(s, n).len() > 0 {
            Some(values_of(s, n)[0])
        } else {
            None::<Seq<u8>>
        }),
    decreases s.len(),
{
    if s.len() > 0 {
        lemma_get_values(s.drop_first(), n);
    }
}

/// Appending an entry leaves the first value of every other name
/// unchanged, and supplies the first value of its own name when that name
/// was absent.
pub proof fn lemma_get_push(s: Seq<SpecEntry>, x: SpecEntry, n: SpecName)
    ensures
        x.0 != n ==> spec_get(s.push(x), n) == spec_get(s, n),
        x.0 == n && spec_get(s, n) is None ==> spec_get(s.push(x), n) == Some(x.1),
    decreases s.len(),
{
    if s.len() == 0 {
        assert(s.push(x)[0] == x);
        assert(s.push(x).drop_first() =~= Seq::<SpecEntry>::empty());
        assert(spec_get(Seq::<SpecEntry>::empty(), n) is None);
    } else {
        assert(s.push(x)[0] == s[0]);
        assert(s.push(x).drop_first() =~= s.drop_first().push(x));
        lemma_get_push(s.drop_first(), x, n);
    }
}

/// Removing a name cannot make another name appear.
pub proof fn lemma_remove_keeps_absence(s: Seq<SpecEntry>, m: SpecName, n: SpecName)
    requires
        !has_header(s, n),
    ensures
        !has_header(remove_header(s, m), n),
{
    if n == m {
        lemma_remove_absent(s, m);
    } else {
        lemma_values_remove_other(s, m, n);
        lemma_get_values(s, n);
        lemma_get_values(remove_header(s, m), n);
        lemma_get_has(s, n);
        lemma_get_has(remove_header(s, m), n);
    }
}

/// Removing one name keeps every other present name present.
pub proof fn lemma_remove_keeps_presence(s: Seq<SpecEntry>, m: SpecName, n: SpecName)
    requires
        has_header(s, n),
        n != m,
    ensures
        has_header(remove_header(s, m), n),
{
    lemma_get_has(s, n);
    lemma_get_has(remove_header(s, m), n);
    lemma_get_remove_other(s, m, n);
}

/// Appending an entry keeps presence and, for other names, absence.
pub proof fn lemma_push_presence(s: Seq<SpecEntry>, x: SpecEntry, n: SpecName)
    ensures
        has_header(s, n) ==> has_header(s.push(x), n),
        x.0 == n ==> has_header(s.push(x), n),
        !has_header(s, n) && x.0 != n ==> !has_header(s.push(x), n),
{
    if has_header(s, n) {
        let j = choose|j: int| 0 <= j < s.len() && s[j].0 == n;
        assert(s.push(x)[j].0 == n);
    }
    if x.0 == n {
        assert(s.push(x)[s.len() as int].0 == n);
    }
    if !has_header(s, n) && x.0 != n {
        if has_header(s.push(x), n) {
            let j = choose|j: int| 0 <= j < s.push(x).len() && s.push(x)[j].0 == n;
            if j < s.len() {
                assert(s[j].0 == n);
            }
        }
    }
}

/// One entry in specification form.
pub open spec fn entry_view(e: (HeaderName, Vec<u8>)) -> SpecEntry {
    (e.0@, e.1@)
}

/// A list of entries in specification form.
pub open spec fn entries_view(v: Seq<(HeaderName, Vec<u8>)>) -> Seq<SpecEntry> {
    Seq::new(v.len(), |i: int| entry_view(v[i]))
}

/// How [entries_view] reads element by element.
pub proof fn lemma_entries_view(v: Seq<(HeaderName, Vec<u8>)>)
    ensures
        entries_view(v).len() == v.len(),
        forall|i: int| 0 <= i < v.len() ==> entries_view(v)[i] == entry_view(#[trigger] v[i]),
{
}

/// An ordered list of header entries.
pub struct HeaderMap {
    /// The entries, in emission order.
    pub entries: Vec<(HeaderName, Vec<u8>)>,
}

impl View for HeaderMap {
    type V = Seq<SpecEntry>;

    open spec fn view(&self) -> Seq<SpecEntry> {
        entries_view(self.entries@)
    }
}

impl Clone for HeaderMap {
    /// The clone holds the same entries.
    fn clone(&self) -> (r: Self)
        ensures
            r@ == self@,
    {
        let mut entries: Vec<(HeaderName, Vec<u8>)> = Vec::new();
        let mut i: usize = 0;
        while i < self.entries.len()
            invariant
                i <= self.entries@.len(),
                entries_view(entries@) == entries_view(self.entries@).subrange(0, i as int),
            decreases self.entries@.len() - i,
        {
            let e = &self.entries[i];
            let name = e.0.clone();
            let value = copy_bytes(&e.1);
            let ghost pre_entries = entries@;
            entries.push((name, value));
            i = i + 1;
            proof {
                lemma_entries_view(pre_entries);
                lemma_entries_view(entries@);
                lemma_entries_view(self.entries@);
                assert(entries_view(entries@) =~= entries_view(self.entries@).subrange(
                    0,
                    i as int,
                ));
            }
        }
        let r = HeaderMap { entries };
        proof {
            assert(r@ =~= self@);
        }
        r
    }
}

impl HeaderMap {
    /// An empty header map.
    pub fn new() -> (r: Self)
        ensures
            r@ == Seq::<SpecEntry>::empty(),
    {
        let r = HeaderMap { entries: Vec::new() };
        proof {
            assert(r@ =~= Seq::<SpecEntry>::empty());
        }
        r
    }

    /// Append an entry, keeping any existing entries of the same name.
    pub fn push(&mut self, name: HeaderName, value: Vec<u8>)
        ensures
            final (self)@ == old(self)@.push((name@, value@)),
    {
        let ghost n = name@;
        let ghost v = value@;
        self.entries.push((name, value));
        proof {
            assert(self@ =~= old(self)@.push((n, v)));
        }
    }

    /// The value of the first entry with the given name.
    pub fn get_first(&self, name: &HeaderName) -> (r: Option<&Vec<u8>>)
        ensures
            match r {
                Some(v) => spec_get(self@, name@) == Some(v@),
                None => spec_get(self@, name@) is None,
            },
    {
        let ghost s = self@;
        proof {
            assert(s.subrange(0, s.len() as int) =~= s);
        }
        let mut i: usize = 0;
        while i < self.entries.len()
            invariant
                i <= s.len(),
                s == self@,
                s.len() == self.entries@.len(),
                spec_get(s, name@) == spec_get(s.subrange(i as int, s.len() as int), name@),
            decreases s.len() - i,
        {
            let e = &self.entries[i];
            proof {
                let suf = s.subrange(i as int, s.len() as int);
                assert(suf[0] == s[i as int]);
                assert(s[i as int] == entry_view(self.entries@[i as int]));
                assert(suf.drop_first() =~= s.subrange(i as int + 1, s.len() as int));
            }
            if e.0 == *name {
                return Some(&self.entries[i].1);
            }
            i = i + 1;
        }
        proof {
            assert(s.subrange(s.len() as int, s.len() as int).len() == 0);
        }
        None
    }

    /// Whether some entry has the given name.
    pub fn contains(&self, name: &HeaderName) -> (r: bool)
        ensures
            r == has_header(self@, name@),
    {
        proof {
            lemma_get_has(self@, name@);
        }
        match self.get_first(name) {
            Some(_) => true,
            None => false,
        }
    }

    /// Remove every entry with the given name.
    pub fn remove(&mut self, name: &HeaderName)
        ensures
            final (self)@ == remove_header(old(self)@, name@),
            !has_header(final (self)@, name@),
    {
        let ghost s = self@;
        let mut kept: Vec<(HeaderName, Vec<u8>)> = Vec::new();
        let mut i: usize = 0;
        proof {
            assert(s.subrange(0, 0) =~= Seq::<SpecEntry>::empty());
            assert(entries_view(kept@) =~= Seq::<SpecEntry>::empty());
            assert(remove_header(s.subrange(0, 0), name@) =~= Seq::<SpecEntry>::empty());
        }
        while i < self.entries.len()
            invariant
                i <= s.len(),
                s == self@,
                s.len() == self.entries@.len(),
                entries_view(kept@) == remove_header(s.subrange(0, i as int), name@),
            decreases s.len() - i,
        {
            let e = &self.entries[i];
            let ghost pre = s.subrange(0, i as int);
            let ghost post = s.subrange(0, i as int + 1);
            proof {
                assert(s[i as int] == entry_view(self.entries@[i as int]));
                assert(post =~= pre.push(s[i as int]));
                lemma_remove_push(pre, s[i as int], name@);
            }
            let ghost pre_kept = kept@;
            if !(e.0 == *name) {
                let name_c = e.0.clone();
                let value_c = copy_bytes(&e.1);
                kept.push((name_c, value_c));
            }
            i = i + 1;
            proof {
                lemma_entries_view(pre_kept);
                lemma_entries_view(kept@);
                assert(entries_view(kept@) =~= remove_header(s.subrange(0, i as int), name@));
            }
        }
        proof {
            assert(s.subrange(0, s.len() as int) =~= s);
        }
        self.entries = kept;
        proof {
            lemma_remove_absent(s, name@);
        }
    }

    /// Replace every entry with the given name by one entry at the end.
    pub fn set(&mut self, name: HeaderName, value: Vec<u8>)
        ensures
            final (self)@ == remove_header(old(self)@, name@).push((name@, value@)),
            spec_get(final (self)@, name@) == Some(value@),
    {
        let ghost n = name@;
        let ghost v = value@;
        self.remove(&name);
        let ghost removed = self@;
        self.entries.push((name, value));
        proof {
            assert(self@ =~= remove_header(old(self)@, n).push((n, v)));
            lemma_remove_absent(old(self)@, n);
            lemma_get_has(removed, n);
            lemma_get_push(removed, (n, v), n);
        }
    }

    /// Set a boolean header to `true` or `false`, replacing any previous
    /// entries.
    pub fn set_bool_value(&mut self, name: HeaderName, value: bool)
        ensures
            final (self)@ == remove_header(old(self)@, name@).push(
                (
                    name@,
                    if value {
                        true_seq()
                    } else {
                        false_seq()
                    },
                ),
            ),
            spec_get(final (self)@, name@) == Some(
                if value {
                    true_seq()
                } else {
                    false_seq()
                },
            ),
    {
        if value {
            self.set(name, true_value());
        } else {
            self.set(name, false_value());
        }
    }

    /// All values carried under one name, in order.
    pub fn get_all(&self, name: &HeaderName) -> (r: Vec<Vec<u8>>)
        ensures
            vecs_view(r@) == values_of(self@, name@),
    {
        let r = self.get_all_from(name, 0);
        proof {
            assert(self@.subrange(0, self@.len() as int) =~= self@);
        }
        r
    }

    /// All values under one name from a position on.
    fn get_all_from(&self, name: &HeaderName, i: usize) -> (r: Vec<Vec<u8>>)
        requires
            i <= self@.len(),
        ensures
            vecs_view(r@) == values_of(self@.subrange(i as int, self@.len() as int), name@),
        decreases self@.len() - i,
    {
        let ghost suffix = self@.subrange(i as int, self@.len() as int);
        if i >= self.entries.len() {
            let r: Vec<Vec<u8>> = Vec::new();
            proof {
                assert(vecs_view(r@) =~= values_of(suffix, name@));
            }
            return r;
        }
        let e = &self.entries[i];
        proof {
            assert(suffix[0] == self@[i as int]);
            assert(self@[i as int] == entry_view(self.entries@[i as int]));
            assert(suffix.drop_first() =~= self@.subrange(i as int + 1, self@.len() as int));
        }
        let mut rest = self.get_all_from(name, i + 1);
        let mut out: Vec<Vec<u8>> = Vec::new();
        if e.0 == *name {
            out.push(copy_bytes(&e.1));
        }
        out.append(&mut rest);
        proof {
            lemma_vecs_view(out@);
            assert(vecs_view(out@) =~= values_of(suffix, name@));
        }
        out
    }
}

/// A list of byte vectors, as byte sequences.
pub open spec fn vecs_view(v: Seq<Vec<u8>>) -> Seq<Seq<u8>> {
    Seq::new(v.len(), |i: int| v[i]@)
}

/// How [vecs_view] reads element by element.
pub proof fn lemma_vecs_view(v: Seq<Vec<u8>>)
    ensures
        vecs_view(v).len() == v.len(),
        forall|i: int| 0 <= i < v.len() ==> vecs_view(v)[i] == (#[trigger] v[i])@,
{
}

/// `true` as lowercase ASCII bytes.
pub open spec fn true_seq() -> Seq<u8> {
    seq![0x74u8, 0x72u8, 0x75u8, 0x65u8]
}

/// `false` as lowercase ASCII bytes.
pub open spec fn false_seq() -> Seq<u8> {
    seq![0x66u8, 0x61u8, 0x6cu8, 0x73u8, 0x65u8]
}

/// `true` as header value bytes.
pub fn true_value() -> (r: Vec<u8>)
    ensures
        r@ == true_seq(),
{
    let mut v: Vec<u8> = Vec::new();
    v.push(0x74);
    v.push(0x72);
    v.push(0x75);
    v.push(0x65);
    proof {
        assert(v@ =~= true_seq());
    }
    v
}

/// `false` as header value bytes.
pub fn false_value() -> (r: Vec<u8>)
    ensures
        r@ == false_seq(),
{
    let mut v: Vec<u8> = Vec::new();
    v.push(0x66);
    v.push(0x61);
    v.push(0x6c);
    v.push(0x73);
    v.push(0x65);
    proof {
        assert(v@ =~= false_seq());
    }
    v
}

/// How a boolean header value reads: `true` or `false` after ASCII
/// lowercasing, anything else (or no header) falling back to the default.
pub open spec fn spec_bool_value(s: Seq<SpecEntry>, n: SpecName, default: bool) -> bool {
    match spec_get(s, n) {
        None => default,
        Some(v) => if lower_of(v) == true_seq() {
            true
        } else if lower_of(v) == false_seq() {
            false
        } else {
            default
        },
    }
}

/// The `Content-Length` value: the first such header parsed as a decimal
/// number, or nothing when absent or malformed.
pub open spec fn spec_content_length(s: Seq<SpecEntry>) -> Option<usize> {
    match spec_get(s, SpecName::ContentLength) {
        None => None,
        Some(v) => parse_usize_spec(v),
    }
}

/// The `Content-Encoding` value: the first such header matched
/// case-insensitively against the known tokens, anything else (or no
/// header) reading as identity.
pub open spec fn spec_content_encoding(s: Seq<SpecEntry>) -> Encoding {
    match spec_get(s, SpecName::ContentEncoding) {
        None => Encoding::Identity,
        Some(v) => if lower_of(v) == Encoding::Brotli.spec_token() {
            Encoding::Brotli
        } else if lower_of(v) == Encoding::Deflate.spec_token() {
            Encoding::Deflate
        } else if lower_of(v) == Encoding::GZip.spec_token() {
            Encoding::GZip
        } else if lower_of(v) == Encoding::Zstandard.spec_token() {
            Encoding::Zstandard
        } else {
            Encoding::Identity
        },
    }
}

impl HeaderMap {
    /// Read a boolean header: `true` or `false` case-insensitively, with a
    /// default for an absent or malformed value.
    pub fn bool_value(&self, name: &HeaderName, default: bool) -> (r: bool)
        ensures
            r == spec_bool_value(self@, name@, default),
    {
        match self.get_first(name) {
            None => default,
            Some(v) => {
                let lv = to_lower(v);
                let t = true_value();
                let f = false_value();
                let is_t = lv == t;
                let is_f = lv == f;
                proof {
                    if is_t {
                        assert(lv@ =~= t@);
                    } else {
                        if lower_of(v@) == true_seq() {
                            assert(lv.eq_spec(&t));
                            assert(false);
                        }
                    }
                    if is_f {
                        assert(lv@ =~= f@);
                    } else {
                        if lower_of(v@) == false_seq() {
                            assert(lv.eq_spec(&f));
                            assert(false);
                        }
                    }
                }
                if is_t {
                    true
                } else if is_f {
                    false
                } else {
                    default
                }
            }
        }
    }

    /// Read `XX-Cache`, defaulting as configured.
    pub fn xx_cache(&self, default: bool) -> (r: bool)
        ensures
            r == spec_bool_value(self@, SpecName::XxCache, default),
    {
        self.bool_value(&HeaderName::XxCache, default)
    }

    /// Read `XX-Encode`, defaulting as configured.
    pub fn xx_encode(&self, default: bool) -> (r: bool)
        ensures
            r == spec_bool_value(self@, SpecName::XxEncode, default),
    {
        self.bool_value(&HeaderName::XxEncode, default)
    }

    /// Read `Content-Length` as a decimal number.
    pub fn content_length(&self) -> (r: Option<usize>)
        ensures
            r == spec_content_length(self@),
    {
        match self.get_first(&HeaderName::ContentLength) {
            None => None,
            Some(v) => parse_usize(v),
        }
    }

    /// Read `Content-Encoding` as one of the known tokens, defaulting to
    /// identity.
    pub fn content_encoding(&self) -> (r: Encoding)
        ensures
            r == spec_content_encoding(self@),
    {
        match self.get_first(&HeaderName::ContentEncoding) {
            None => Encoding::Identity,
            Some(v) => {
                let lv = to_lower(v);
                if Self::token_matches(&lv, Encoding::Brotli) {
                    Encoding::Brotli
                } else if Self::token_matches(&lv, Encoding::Deflate) {
                    Encoding::Deflate
                } else if Self::token_matches(&lv, Encoding::GZip) {
                    Encoding::GZip
                } else if Self::token_matches(&lv, Encoding::Zstandard) {
                    Encoding::Zstandard
                } else {
                    Encoding::Identity
                }
            }
        }
    }

    /// Whether the bytes equal the token of `c`.
    fn token_matches(v: &Vec<u8>, c: Encoding) -> (r: bool)
        ensures
            r == (v@ == c.spec_token()),
    {
        let t = c.token();
        let r = *v == t;
        proof {
            if r {
                assert(v@ =~= t@);
            } else {
                if v@ == c.spec_token() {
                    assert(v.eq_spec(&t));
                    assert(false);
                }
            }
        }
        r
    }
}

} // verus!
