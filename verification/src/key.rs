//! Cache keys: the identity of a cacheable request variant.

use vstd::prelude::*;

use crate::ascii::{dec_repr, format_usize};
use crate::codec::copy_bytes;
use crate::headers::{lemma_vecs_view, vecs_view};
use vstd::std_specs::cmp::PartialEqSpec;

verus! {

/// An HTTP request method. Nonstandard methods are collapsed into
/// [Method::Extension]; they are never idempotent, so the middleware never
/// caches them.
#[derive(Clone, Copy, Debug, PartialEq, Eq, Structural, Hash)]
pub enum Method {
    /// `GET`.
    Get,
    /// `HEAD`.
    Head,
    /// `POST`.
    Post,
    /// `PUT`.
    Put,
    /// `DELETE`.
    Delete,
    /// `CONNECT`.
    Connect,
    /// `OPTIONS`.
    Options,
    /// `TRACE`.
    Trace,
    /// `PATCH`.
    Patch,
    /// Any nonstandard method.
    Extension,
}

impl Method {
    /// Whether requests with this method are idempotent: safe methods
    /// plus `PUT` and `DELETE`.
    pub open spec fn spec_idempotent(self) -> bool {
        self is Get || self is Head || self is Options || self is Trace || self is Put
            || self is Delete
    }

    /// Whether requests with this method are idempotent.
    pub fn is_idempotent(&self) -> (r: bool)
        ensures
            r == self.spec_idempotent(),
    {
        match self {
            Method::Get => true,
            Method::Head => true,
            Method::Options => true,
            Method::Trace => true,
            Method::Put => true,
            Method::Delete => true,
            _ => false,
        }
    }

    /// The method name, in specification form.
    pub open spec fn spec_token(self) -> Seq<u8> {
        match self {
            Method::Get => seq![0x47u8, 0x45u8, 0x54u8],
            Method::Head => seq![0x48u8, 0x45u8, 0x41u8, 0x44u8],
            Method::Post => seq![0x50u8, 0x4fu8, 0x53u8, 0x54u8],
            Method::Put => seq![0x50u8, 0x55u8, 0x54u8],
            Method::Delete => seq![0x44u8, 0x45u8, 0x4cu8, 0x45u8, 0x54u8, 0x45u8],
            Method::Connect => seq![0x43u8, 0x4fu8, 0x4eu8, 0x4eu8, 0x45u8, 0x43u8, 0x54u8],
            Method::Options => seq![0x4fu8, 0x50u8, 0x54u8, 0x49u8, 0x4fu8, 0x4eu8, 0x53u8],
            Method::Trace => seq![0x54u8, 0x52u8, 0x41u8, 0x43u8, 0x45u8],
            Method::Patch => seq![0x50u8, 0x41u8, 0x54u8, 0x43u8, 0x48u8],
            Method::Extension => seq![
                0x45u8, 0x58u8, 0x54u8, 0x45u8, 0x4eu8, 0x53u8, 0x49u8, 0x4fu8, 0x4eu8,
            ],
        }
    }

    /// The method name as bytes.
    pub fn token(self) -> (r: Vec<u8>)
        ensures
            r@ == self.spec_token(),
    {
        let mut v: Vec<u8> = Vec::new();
        match self {
            Method::Get => {
                v.push(0x47);
                v.push(0x45);
                v.push(0x54);
            }
            Method::Head => {
                v.push(0x48);
                v.push(0x45);
                v.push(0x41);
                v.push(0x44);
            }
            Method::Post => {
                v.push(0x50);
                v.push(0x4f);
                v.push(0x53);
                v.push(0x54);
            }
            Method::Put => {
                v.push(0x50);
                v.push(0x55);
                v.push(0x54);
            }
            Method::Delete => {
                v.push(0x44);
                v.push(0x45);
                v.push(0x4c);
                v.push(0x45);
                v.push(0x54);
                v.push(0x45);
            }
            Method::Connect => {
                v.push(0x43);
                v.push(0x4f);
                v.push(0x4e);
                v.push(0x4e);
                v.push(0x45);
                v.push(0x43);
                v.push(0x54);
            }
            Method::Options => {
                v.push(0x4f);
                v.push(0x50);
                v.push(0x54);
                v.push(0x49);
                v.push(0x4f);
                v.push(0x4e);
                v.push(0x53);
            }
            Method::Trace => {
                v.push(0x54);
                v.push(0x52);
                v.push(0x41);
                v.push(0x43);
                v.push(0x45);
            }
            Method::Patch => {
                v.push(0x50);
                v.push(0x41);
                v.push(0x54);
                v.push(0x43);
                v.push(0x48);
            }
            Method::Extension => {
                v.push(0x45);
                v.push(0x58);
                v.push(0x54);
                v.push(0x45);
                v.push(0x4e);
                v.push(0x53);
                v.push(0x49);
                v.push(0x4f);
                v.push(0x4e);
            }
        }
        assert(v@ =~= self.spec_token());
        v
    }
}

/// Strict lexicographic order on byte sequences.
pub open spec fn bytes_lt(a: Seq<u8>, b: Seq<u8>) -> bool
    decreases b.len(),
{
    if b.len() == 0 {
        false
    } else if a.len() == 0 {
        true
    } else if a[0] < b[0] {
        true
    } else if a[0] > b[0] {
        false
    } else {
        bytes_lt(a.drop_first(), b.drop_first())
    }
}

/// Exactly one of less, equal, greater holds.
pub proof fn lemma_bytes_trichotomy(a: Seq<u8>, b: Seq<u8>)
    ensures
        bytes_lt(a, b) || bytes_lt(b, a) || a == b,
        bytes_lt(a, b) ==> !bytes_lt(b, a) && a != b,
        bytes_lt(b, a) ==> !bytes_lt(a, b) && a != b,
    decreases a.len() + b.len(),
{
    if a.len() > 0 && b.len() > 0 && a[0] == b[0] {
        lemma_bytes_trichotomy(a.drop_first(), b.drop_first());
        if a.drop_first() == b.drop_first() {
            assert forall|k: int| 1 <= k < a.len() implies a[k] == b[k] by {
                assert(a.drop_first()[k - 1] == b.drop_first()[k - 1]);
            }
            assert(a =~= b);
        }
        if a == b {
            assert(a.drop_first() =~= b.drop_first());
        }
    } else {
        if a.len() == 0 && b.len() == 0 {
            assert(a =~= b);
        }
    }
}

/// The order is transitive.
pub proof fn lemma_bytes_lt_trans(a: Seq<u8>, b: Seq<u8>, c: Seq<u8>)
    requires
        bytes_lt(a, b),
        bytes_lt(b, c),
    ensures
        bytes_lt(a, c),
    decreases a.len() + b.len() + c.len(),
{
    if b.len() > 0 && c.len() > 0 && a.len() > 0 {
        if a[0] == b[0] && b[0] == c[0] {
            lemma_bytes_lt_trans(a.drop_first(), b.drop_first(), c.drop_first());
        }
    }
}

/// Three-way comparison of byte vectors: negative for less, zero for
/// equal, positive for greater, in lexicographic order.
pub fn bytes_cmp(a: &Vec<u8>, b: &Vec<u8>) -> (r: i8)
    ensures
        r == -1 || r == 0 || r == 1,
        (r == -1) == bytes_lt(a@, b@),
        (r == 0) == (a@ == b@),
        (r == 1) == bytes_lt(b@, a@),
{
    proof {
        lemma_bytes_trichotomy(a@, b@);
    }
    let mut i: usize = 0;
    while i < a.len() && i < b.len()
        invariant
            i <= a@.len(),
            i <= b@.len(),
            forall|k: int| 0 <= k < i ==> a@[k] == b@[k],
        decreases a@.len() - i,
    {
        if a[i] < b[i] {
            proof {
                lemma_bytes_lt_prefix(a@, b@, i as int);
                lemma_bytes_trichotomy(a@, b@);
            }
            return -1;
        }
        if a[i] > b[i] {
            proof {
                lemma_bytes_lt_prefix(b@, a@, i as int);
                lemma_bytes_trichotomy(a@, b@);
            }
            return 1;
        }
        i = i + 1;
    }
    if a.len() < b.len() {
        proof {
            lemma_bytes_lt_prefix_len(a@, b@, i as int);
            lemma_bytes_trichotomy(a@, b@);
        }
        -1
    } else if a.len() > b.len() {
        proof {
            lemma_bytes_lt_prefix_len(b@, a@, i as int);
            lemma_bytes_trichotomy(a@, b@);
        }
        1
    } else {
        proof {
            assert(a@ =~= b@);
        }
        0
    }
}

/// With a common prefix, a smaller byte right after it decides the order.
proof fn lemma_bytes_lt_prefix(a: Seq<u8>, b: Seq<u8>, i: int)
    requires
        0 <= i < a.len(),
        i < b.len(),
        forall|k: int| 0 <= k < i ==> a[k] == b[k],
        a[i] < b[i],
    ensures
        bytes_lt(a, b),
    decreases i,
{
    if i == 0 {
    } else {
        assert(forall|k: int|
            0 <= k < i - 1 ==> #[trigger] a.drop_first()[k] == b.drop_first()[k]);
        lemma_bytes_lt_prefix(a.drop_first(), b.drop_first(), i - 1);
    }
}

/// A proper prefix is smaller.
proof fn lemma_bytes_lt_prefix_len(a: Seq<u8>, b: Seq<u8>, i: int)
    requires
        0 <= i == a.len() < b.len(),
        forall|k: int| 0 <= k < i ==> a[k] == b[k],
    ensures
        bytes_lt(a, b),
    decreases i,
{
    if i == 0 {
    } else {
        assert(forall|k: int|
            0 <= k < i - 1 ==> #[trigger] a.drop_first()[k] == b.drop_first()[k]);
        lemma_bytes_lt_prefix_len(a.drop_first(), b.drop_first(), i - 1);
    }
}


/// A list of byte vectors in strictly increasing order: a sorted set.
pub open spec fn vals_sorted(vs: Seq<Seq<u8>>) -> bool {
    forall|i: int, j: int| 0 <= i < j < vs.len() ==> bytes_lt(vs[i], vs[j])
}

/// Insert a value into a sorted set of byte vectors, keeping order and
/// dropping duplicates.
fn insert_value_sorted(vs: &mut Vec<Vec<u8>>, value: Vec<u8>)
    ensures
        vals_sorted(vecs_view(old(vs)@)) ==> vals_sorted(vecs_view(final (vs)@)),
        forall|v: Seq<u8>|
            vecs_view(final (vs)@).contains(v) == (vecs_view(old(vs)@).contains(v) || v
                == value@),
        final (vs)@.len() > 0,
{
    let ghost vv = vecs_view(old(vs)@);
    proof {
        lemma_vecs_view(old(vs)@);
    }
    let mut j: usize = 0;
    while j < vs.len() && bytes_cmp(&vs[j], &value) == -1
        invariant
            j <= vs@.len(),
            vs@ == old(vs)@,
            vv == vecs_view(vs@),
            vv.len() == vs@.len(),
            forall|k: int| 0 <= k < vv.len() ==> #[trigger] vv[k] == vs@[k]@,
            forall|k: int| 0 <= k < j ==> bytes_lt(#[trigger] vv[k], value@),
        decreases vs@.len() - j,
    {
        j = j + 1;
    }
    if j < vs.len() && bytes_cmp(&vs[j], &value) == 0 {
        proof {
            assert(vv[j as int] == value@);
            assert(vv.contains(value@));
        }
        return ;
    }
    proof {
        if (j as int) < vv.len() {
            lemma_bytes_trichotomy(vv[j as int], value@);
            assert(bytes_lt(value@, vv[j as int]));
        }
    }
    let ghost jj = j as int;
    vs.insert(j, value);
    proof {
        let nv = vecs_view(vs@);
        lemma_vecs_view(vs@);
        old(vs)@.insert_ensures(jj, value);
        assert(nv.len() == vv.len() + 1);
        assert forall|k: int| 0 <= k < jj implies #[trigger] nv[k] == vv[k] by {
            assert(vs@[k] == old(vs)@[k]);
        }
        assert(nv[jj] == value@);
        assert forall|k: int| jj < k < nv.len() implies #[trigger] nv[k] == vv[k - 1] by {
            assert(vs@[k] == old(vs)@[k - 1]);
        }
        if vals_sorted(vv) {
            assert forall|p: int, q: int| 0 <= p < q < nv.len() implies bytes_lt(
                nv[p],
                nv[q],
            ) by {
                if q < jj {
                } else if q == jj {
                } else if p < jj {
                    assert(nv[q] == vv[q - 1]);
                    assert(p < q - 1);
                } else if p == jj {
                    assert(bytes_lt(value@, vv[jj]));
                    if q - 1 > jj {
                        lemma_bytes_lt_trans(value@, vv[jj], vv[q - 1]);
                    }
                } else {
                    assert(nv[p] == vv[p - 1] && nv[q] == vv[q - 1]);
                }
            }
        }
        assert forall|v: Seq<u8>|
            nv.contains(v) == (vv.contains(v) || v == value@) by {
            if nv.contains(v) {
                let k = choose|k: int| 0 <= k < nv.len() && nv[k] == v;
                if k < jj {
                    assert(vv[k] == v);
                    assert(vv.contains(v));
                } else if k > jj {
                    assert(vv[k - 1] == v);
                    assert(vv.contains(v));
                }
            }
            if vv.contains(v) {
                let k = choose|k: int| 0 <= k < vv.len() && vv[k] == v;
                if k < jj {
                    assert(nv[k] == v);
                } else {
                    assert(nv[k + 1] == v);
                }
                assert(nv.contains(v));
            }
            if v == value@ {
                assert(nv[jj] == v);
                assert(nv.contains(v));
            }
        }
    }
}

/// One query map entry in specification form: key and sorted values.
pub open spec fn qentry_view(e: (Vec<u8>, Vec<Vec<u8>>)) -> (Seq<u8>, Seq<Seq<u8>>) {
    (e.0@, vecs_view(e.1@))
}

/// A list of query map entries in specification form.
pub open spec fn qentries_view(v: Seq<(Vec<u8>, Vec<Vec<u8>>)>) -> Seq<(Seq<u8>, Seq<Seq<u8>>)> {
    Seq::new(v.len(), |i: int| qentry_view(v[i]))
}

/// How [qentries_view] reads element by element.
pub proof fn lemma_qentries_view(v: Seq<(Vec<u8>, Vec<Vec<u8>>)>)
    ensures
        qentries_view(v).len() == v.len(),
        forall|i: int|
            0 <= i < v.len() ==> qentries_view(v)[i] == qentry_view(#[trigger] v[i]),
{
}

/// The keys are strictly increasing.
pub open spec fn keys_sorted(q: Seq<(Seq<u8>, Seq<Seq<u8>>)>) -> bool {
    forall|i: int, j: int|
        0 <= i < j < q.len() ==> bytes_lt((#[trigger] q[i]).0, (#[trigger] q[j]).0)
}

/// A well-formed query map: keys strictly increasing, each with a
/// nonempty, strictly increasing set of values.
pub open spec fn qm_wf(q: Seq<(Seq<u8>, Seq<Seq<u8>>)>) -> bool {
    &&& keys_sorted(q)
    &&& forall|i: int| 0 <= i < q.len() ==> vals_sorted((#[trigger] q[i]).1)
    &&& forall|i: int| 0 <= i < q.len() ==> (#[trigger] q[i]).1.len() > 0
}

/// The map carries this key/value pair.
pub open spec fn qm_has(q: Seq<(Seq<u8>, Seq<Seq<u8>>)>, k: Seq<u8>, v: Seq<u8>) -> bool {
    exists|i: int| 0 <= i < q.len() && (#[trigger] q[i]).0 == k && q[i].1.contains(v)
}

/// A query, decoded: a mapping from parameter name to its set of values,
/// both sorted for a deterministic iteration order.
#[derive(Hash)]
pub struct QueryMap {
    /// The entries, keys strictly increasing.
    pub entries: Vec<(Vec<u8>, Vec<Vec<u8>>)>,
}

impl View for QueryMap {
    type V = Seq<(Seq<u8>, Seq<Seq<u8>>)>;

    open spec fn view(&self) -> Seq<(Seq<u8>, Seq<Seq<u8>>)> {
        qentries_view(self.entries@)
    }
}

impl QueryMap {
    /// An empty query map.
    pub fn new() -> (r: Self)
        ensures
            r@ == Seq::<(Seq<u8>, Seq<Seq<u8>>)>::empty(),
            qm_wf(r@),
    {
        let r = QueryMap { entries: Vec::new() };
        proof {
            assert(r@ =~= Seq::<(Seq<u8>, Seq<Seq<u8>>)>::empty());
        }
        r
    }

    /// Add one key/value pair, keeping keys and values sorted and unique.
    pub fn insert(&mut self, key: Vec<u8>, value: Vec<u8>)
        ensures
            qm_wf(old(self)@) ==> qm_wf(final (self)@),
            forall|k: Seq<u8>, v: Seq<u8>|
                qm_has(final (self)@, k, v) == (qm_has(old(self)@, k, v) || (k == key@ && v
                    == value@)),
    {
        let ghost qv = self@;
        proof {
            lemma_qentries_view(self.entries@);
        }
        let mut i: usize = 0;
        while i < self.entries.len() && bytes_cmp(&self.entries[i].0, &key) == -1
            invariant
                i <= self.entries@.len(),
                self@ == qv,
                qv == qentries_view(self.entries@),
                qv.len() == self.entries@.len(),
                forall|k: int|
                    0 <= k < qv.len() ==> #[trigger] qv[k] == qentry_view(self.entries@[k]),
                forall|k: int| 0 <= k < i ==> bytes_lt((#[trigger] qv[k]).0, key@),
            decreases self.entries@.len() - i,
        {
            i = i + 1;
        }
        let ghost ii = i as int;
        let found = i < self.entries.len() && bytes_cmp(&self.entries[i].0, &key) == 0;
        proof {
            if ii < qv.len() && !found {
                lemma_bytes_trichotomy(qv[ii].0, key@);
                assert(bytes_lt(key@, qv[ii].0));
            }
        }
        if found {
            let ghost entries0 = self.entries@;
            let pair = self.entries.remove(i);
            let k0 = pair.0;
            let mut vs = pair.1;
            let ghost vs0 = vs@;
            insert_value_sorted(&mut vs, value);
            let ghost vsv = vecs_view(vs@);
            self.entries.insert(i, (k0, vs));
            proof {
                assert(self.entries@ =~= entries0.update(ii, (k0, vs)));
                lemma_qentries_view(self.entries@);
                let nq = self@;
                assert(nq.len() == qv.len());
                assert(k0@ == qv[ii].0);
                assert(qv[ii].1 == vecs_view(vs0));
                assert forall|k: int| 0 <= k < qv.len() && k != ii implies #[trigger] nq[k]
                    == qv[k] by {
                    assert(self.entries@[k] == entries0[k]);
                }
                assert(nq[ii] == (k0@, vsv));
                if qm_wf(qv) {
                    assert forall|p: int, q: int| 0 <= p < q < nq.len() implies bytes_lt(
                        nq[p].0,
                        nq[q].0,
                    ) by {
                        assert(nq[p].0 == qv[p].0 && nq[q].0 == qv[q].0);
                    }
                    assert(qm_wf(nq));
                }
                assert forall|k: Seq<u8>, v: Seq<u8>|
                    qm_has(nq, k, v) == (qm_has(qv, k, v) || (k == key@ && v == value@)) by {
                    if qm_has(nq, k, v) {
                        let w = choose|w: int|
                            0 <= w < nq.len() && (#[trigger] nq[w]).0 == k && nq[w].1.contains(v);
                        if w != ii {
                            assert(qm_has(qv, k, v));
                        } else {
                            if vecs_view(vs0).contains(v) {
                                assert(qv[ii].0 == k && qv[ii].1.contains(v));
                                assert(qm_has(qv, k, v));
                            } else {
                                assert(v == value@ && k == key@);
                            }
                        }
                    }
                    if qm_has(qv, k, v) {
                        let w = choose|w: int|
                            0 <= w < qv.len() && (#[trigger] qv[w]).0 == k && qv[w].1.contains(v);
                        if w != ii {
                            assert(nq[w].0 == k && nq[w].1.contains(v));
                        } else {
                            assert(vsv.contains(v));
                            assert(nq[ii].0 == k && nq[ii].1.contains(v));
                        }
                        assert(qm_has(nq, k, v));
                    }
                    if k == key@ && v == value@ {
                        assert(vsv.contains(v));
                        assert(nq[ii].0 == k && nq[ii].1.contains(v));
                        assert(qm_has(nq, k, v));
                    }
                }
            }
        } else {
            let ghost entries0 = self.entries@;
            let mut vs: Vec<Vec<u8>> = Vec::new();
            vs.push(value);
            let ghost vsv = vecs_view(vs@);
            self.entries.insert(i, (key, vs));
            proof {
                entries0.insert_ensures(ii, (key, vs));
                lemma_qentries_view(self.entries@);
                lemma_vecs_view(vs@);
                assert(vsv.len() == 1 && vsv[0] == value@);
                let nq = self@;
                assert(nq.len() == qv.len() + 1);
                assert forall|k: int| 0 <= k < ii implies #[trigger] nq[k] == qv[k] by {
                    assert(self.entries@[k] == entries0[k]);
                }
                assert(nq[ii] == (key@, vsv));
                assert forall|k: int| ii < k < nq.len() implies #[trigger] nq[k] == qv[k - 1] by {
                    assert(self.entries@[k] == entries0[k - 1]);
                }
                if qm_wf(qv) {
                    assert forall|p: int, q: int| 0 <= p < q < nq.len() implies bytes_lt(
                        nq[p].0,
                        nq[q].0,
                    ) by {
                        if q < ii {
                        } else if q == ii {
                            assert(bytes_lt(qv[p].0, key@));
                        } else if p < ii {
                            assert(nq[q].0 == qv[q - 1].0);
                            if p == q - 1 {
                            } else {
                            }
                        } else if p == ii {
                            assert(ii < qv.len() + 1);
                            assert(q - 1 >= ii);
                            assert(nq[q].0 == qv[q - 1].0);
                            assert(bytes_lt(key@, qv[ii].0));
                            if q - 1 > ii {
                                lemma_bytes_lt_trans(key@, qv[ii].0, qv[q - 1].0);
                            }
                        } else {
                            assert(nq[p].0 == qv[p - 1].0 && nq[q].0 == qv[q - 1].0);
                        }
                    }
                    assert forall|w: int| 0 <= w < nq.len() implies vals_sorted(
                        (#[trigger] nq[w]).1,
                    ) && nq[w].1.len() > 0 by {
                        if w < ii {
                        } else if w == ii {
                        } else {
                            assert(nq[w] == qv[w - 1]);
                        }
                    }
                    assert(qm_wf(nq));
                }
                assert forall|k: Seq<u8>, v: Seq<u8>|
                    qm_has(nq, k, v) == (qm_has(qv, k, v) || (k == key@ && v == value@)) by {
                    if qm_has(nq, k, v) {
                        let w = choose|w: int|
                            0 <= w < nq.len() && (#[trigger] nq[w]).0 == k && nq[w].1.contains(v);
                        if w < ii {
                            assert(qv[w].0 == k && qv[w].1.contains(v));
                            assert(qm_has(qv, k, v));
                        } else if w == ii {
                            assert(k == key@);
                            let c = choose|c: int| 0 <= c < vsv.len() && vsv[c] == v;
                            assert(v == value@);
                        } else {
                            assert(qv[w - 1].0 == k && qv[w - 1].1.contains(v));
                            assert(qm_has(qv, k, v));
                        }
                    }
                    if qm_has(qv, k, v) {
                        let w = choose|w: int|
                            0 <= w < qv.len() && (#[trigger] qv[w]).0 == k && qv[w].1.contains(v);
                        if w < ii {
                            assert(nq[w].0 == k && nq[w].1.contains(v));
                        } else {
                            assert(nq[w + 1].0 == k && nq[w + 1].1.contains(v));
                        }
                        assert(qm_has(nq, k, v));
                    }
                    if k == key@ && v == value@ {
                        assert(vsv.contains(v));
                        assert(nq[ii].0 == k && nq[ii].1.contains(v));
                        assert(qm_has(nq, k, v));
                    }
                }
            }
        }
    }
}

/// Value of one hexadecimal digit.
pub open spec fn hex_val(c: u8) -> Option<u8> {
    if 0x30 <= c <= 0x39 {
        Some((c - 0x30) as u8)
    } else if 0x41 <= c <= 0x46 {
        Some((c - 0x41 + 10) as u8)
    } else if 0x61 <= c <= 0x66 {
        Some((c - 0x61 + 10) as u8)
    } else {
        None
    }
}

/// Percent-decoding of query bytes: `%HH` becomes the named byte, `+`
/// becomes a space, everything else, a malformed escape included, passes
/// through.
pub open spec fn pct_decode(s: Seq<u8>) -> Seq<u8>
    decreases s.len(),
{
    if s.len() == 0 {
        Seq::<u8>::empty()
    } else if s[0] == 0x25 && s.len() >= 3 && hex_val(s[1]) is Some && hex_val(s[2]) is Some {
        seq![(hex_val(s[1]).unwrap() * 16 + hex_val(s[2]).unwrap()) as u8] + pct_decode(
            s.subrange(3, s.len() as int),
        )
    } else if s[0] == 0x2b {
        seq![0x20u8] + pct_decode(s.subrange(1, s.len() as int))
    } else {
        seq![s[0]] + pct_decode(s.subrange(1, s.len() as int))
    }
}

/// Value of one hexadecimal digit.
fn hex_val_exec(c: u8) -> (r: Option<u8>)
    ensures
        r == hex_val(c),
{
    if 0x30 <= c && c <= 0x39 {
        Some(c - 0x30)
    } else if 0x41 <= c && c <= 0x46 {
        Some(c - 0x41 + 10)
    } else if 0x61 <= c && c <= 0x66 {
        Some(c - 0x61 + 10)
    } else {
        None
    }
}

/// Percent-decode a range of bytes.
pub fn pct_decode_range(v: &Vec<u8>, a: usize, b: usize) -> (r: Vec<u8>)
    requires
        a <= b <= v@.len(),
    ensures
        r@ == pct_decode(v@.subrange(a as int, b as int)),
{
    let ghost s = v@.subrange(a as int, b as int);
    let mut out: Vec<u8> = Vec::new();
    let mut i: usize = a;
    while i < b
        invariant
            a <= i <= b <= v@.len(),
            s == v@.subrange(a as int, b as int),
            pct_decode(s) == out@ + pct_decode(v@.subrange(i as int, b as int)),
        decreases b - i,
    {
        let ghost suf = v@.subrange(i as int, b as int);
        proof {
            assert(suf[0] == v@[i as int]);
            if suf.len() >= 3 {
                assert(suf[1] == v@[i as int + 1]);
                assert(suf[2] == v@[i as int + 2]);
            }
        }
        let c = v[i];
        if c == 0x25 && b - i > 2 {
            let h1 = hex_val_exec(v[i + 1]);
            let h2 = hex_val_exec(v[i + 2]);
            match (h1, h2) {
                (Some(x), Some(y)) => {
                    out.push(x * 16 + y);
                    proof {
                        assert(suf.subrange(3, suf.len() as int) =~= v@.subrange(
                            i as int + 3,
                            b as int,
                        ));
                        assert(pct_decode(s) =~= out@ + pct_decode(
                            v@.subrange(i as int + 3, b as int),
                        ));
                    }
                    i = i + 3;
                    continue ;
                }
                _ => {
                    out.push(c);
                }
            }
        } else if c == 0x2b {
            out.push(0x20);
        } else {
            out.push(c);
        }
        proof {
            assert(suf.subrange(1, suf.len() as int) =~= v@.subrange(i as int + 1, b as int));
            assert(pct_decode(s) =~= out@ + pct_decode(v@.subrange(i as int + 1, b as int)));
        }
        i = i + 1;
    }
    proof {
        assert(v@.subrange(b as int, b as int).len() == 0);
        assert(pct_decode(v@.subrange(b as int, b as int)) =~= Seq::<u8>::empty());
        assert(pct_decode(s) =~= out@);
    }
    out
}

/// The decoded key/value pairs of a query string: pieces split on `&`,
/// each split at its first `=`, both sides percent-decoded; empty pieces
/// contribute nothing.
pub open spec fn query_pairs(s: Seq<u8>) -> Seq<(Seq<u8>, Seq<u8>)>
    decreases s.len(),
    via query_pairs_decreases
{
    let i = crate::accept::first_idx(s, 0x26);
    let piece = s.subrange(0, i);
    let head = if piece.len() == 0 {
        Seq::<(Seq<u8>, Seq<u8>)>::empty()
    } else {
        seq![piece_pair(piece)]
    };
    if i == s.len() {
        head
    } else {
        head + query_pairs(s.subrange(i + 1, s.len() as int))
    }
}

#[via_fn]
proof fn query_pairs_decreases(s: Seq<u8>) {
    crate::accept::lemma_first_idx_bounds(s, 0x26);
}

/// The decoded pair of one nonempty piece.
pub open spec fn piece_pair(piece: Seq<u8>) -> (Seq<u8>, Seq<u8>) {
    let e = crate::accept::first_idx(piece, 0x3d);
    (
        pct_decode(piece.subrange(0, e)),
        if e == piece.len() {
            Seq::<u8>::empty()
        } else {
            pct_decode(piece.subrange(e + 1, piece.len() as int))
        },
    )
}

/// Parse a query string into a sorted map.
pub fn parse_query(v: &Vec<u8>) -> (r: QueryMap)
    ensures
        qm_wf(r@),
        forall|k: Seq<u8>, w: Seq<u8>|
            qm_has(r@, k, w) == query_pairs(v@).contains((k, w)),
{
    let mut map = QueryMap::new();
    parse_query_from(v, 0, &mut map);
    proof {
        assert(v@.subrange(0, v@.len() as int) =~= v@);
    }
    map
}

/// Parse the query pieces from a position on into the map.
fn parse_query_from(v: &Vec<u8>, pos: usize, map: &mut QueryMap)
    requires
        pos <= v@.len(),
    ensures
        qm_wf(old(map)@) ==> qm_wf(final (map)@),
        forall|k: Seq<u8>, w: Seq<u8>|
            qm_has(final (map)@, k, w) == (qm_has(old(map)@, k, w) || query_pairs(
                v@.subrange(pos as int, v@.len() as int),
            ).contains((k, w))),
    decreases v@.len() - pos,
{
    let ghost suffix = v@.subrange(pos as int, v@.len() as int);
    let n = v.len();
    let mut j: usize = pos;
    while j < n && v[j] != 0x26
        invariant
            pos <= j <= n,
            n == v@.len(),
            forall|k: int| pos <= k < j ==> v@[k] != 0x26,
        decreases n - j,
    {
        j = j + 1;
    }
    proof {
        assert(forall|k: int| 0 <= k < j - pos ==> #[trigger] suffix[k] != 0x26);
        crate::accept::lemma_first_idx_at(suffix, 0x26, j - pos as int);
    }
    let ghost piece = suffix.subrange(0, j - pos as int);
    if j > pos {
        // find the first `=` inside the piece
        let mut e: usize = pos;
        while e < j && v[e] != 0x3d
            invariant
                pos <= e <= j <= n,
                n == v@.len(),
                forall|k: int| pos <= k < e ==> v@[k] != 0x3d,
            decreases j - e,
        {
            e = e + 1;
        }
        proof {
            assert(forall|k: int| 0 <= k < e - pos ==> #[trigger] piece[k] != 0x3d);
            assert(piece.len() == j - pos);
            crate::accept::lemma_first_idx_at(piece, 0x3d, e - pos as int);
        }
        let key = pct_decode_range(v, pos, e);
        let value: Vec<u8> = if e < j {
            pct_decode_range(v, e + 1, j)
        } else {
            Vec::new()
        };
        proof {
            assert(piece.subrange(0, e - pos as int) =~= v@.subrange(pos as int, e as int));
            if e < j {
                assert(piece.subrange(e - pos as int + 1, piece.len() as int) =~= v@.subrange(
                    e as int + 1,
                    j as int,
                ));
            }
            assert((key@, value@) == piece_pair(piece));
        }
        map.insert(key, value);
    }
    if j == n {
        proof {
            assert(query_pairs(suffix) == if piece.len() == 0 {
                Seq::<(Seq<u8>, Seq<u8>)>::empty()
            } else {
                seq![piece_pair(piece)]
            });
            assert forall|k: Seq<u8>, w: Seq<u8>|
                qm_has(map@, k, w) == (qm_has(old(map)@, k, w) || query_pairs(suffix).contains(
                    (k, w),
                )) by {
                if query_pairs(suffix).contains((k, w)) {
                    let c = choose|c: int|
                        0 <= c < query_pairs(suffix).len() && query_pairs(suffix)[c] == (k, w);
                    assert(query_pairs(suffix)[c] == piece_pair(piece));
                }
                if piece.len() > 0 && (k, w) == piece_pair(piece) {
                    assert(query_pairs(suffix)[0] == (k, w));
                    assert(query_pairs(suffix).contains((k, w)));
                }
            }
        }
    } else {
        let ghost mid = map@;
        parse_query_from(v, j + 1, map);
        proof {
            let rest = v@.subrange(j as int + 1, n as int);
            assert(suffix.subrange(j - pos as int + 1, suffix.len() as int) =~= rest);
            assert(query_pairs(suffix) == (if piece.len() == 0 {
                Seq::<(Seq<u8>, Seq<u8>)>::empty()
            } else {
                seq![piece_pair(piece)]
            }) + query_pairs(rest));
            let head = if piece.len() == 0 {
                Seq::<(Seq<u8>, Seq<u8>)>::empty()
            } else {
                seq![piece_pair(piece)]
            };
            assert forall|k: Seq<u8>, w: Seq<u8>|
                qm_has(map@, k, w) == (qm_has(old(map)@, k, w) || query_pairs(suffix).contains(
                    (k, w),
                )) by {
                if query_pairs(suffix).contains((k, w)) {
                    let c = choose|c: int|
                        0 <= c < query_pairs(suffix).len() && query_pairs(suffix)[c] == (k, w);
                    if c < head.len() {
                        assert(head[c] == (k, w));
                    } else {
                        assert(query_pairs(rest)[c - head.len()] == (k, w));
                        assert(query_pairs(rest).contains((k, w)));
                    }
                }
                if qm_has(mid, k, w) && !qm_has(old(map)@, k, w) {
                    assert(piece.len() > 0 && (k, w) == piece_pair(piece));
                    assert(query_pairs(suffix)[0] == (k, w));
                    assert(query_pairs(suffix).contains((k, w)));
                }
                if query_pairs(rest).contains((k, w)) {
                    let c = choose|c: int|
                        0 <= c < query_pairs(rest).len() && query_pairs(rest)[c] == (k, w);
                    assert(query_pairs(suffix)[head.len() + c] == (k, w));
                    assert(query_pairs(suffix).contains((k, w)));
                }
                if piece.len() > 0 && (k, w) == piece_pair(piece) {
                    assert(query_pairs(suffix)[0] == (k, w));
                    assert(query_pairs(suffix).contains((k, w)));
                }
            }
        }
    }
}

/// A media type: main type and subtype.
#[derive(Hash)]
pub struct MediaType {
    /// Main type bytes.
    pub main: Vec<u8>,
    /// Subtype bytes.
    pub subtype: Vec<u8>,
}

/// A media type in specification form.
pub open spec fn media_type_view(m: MediaType) -> (Seq<u8>, Seq<u8>) {
    (m.main@, m.subtype@)
}

/// A list of byte-pair entries in specification form.
pub open spec fn pairs_view(v: Seq<(Vec<u8>, Vec<u8>)>) -> Seq<(Seq<u8>, Seq<u8>)> {
    Seq::new(v.len(), |i: int| ((#[trigger] v[i]).0@, v[i].1@))
}

/// How [pairs_view] reads element by element.
pub proof fn lemma_pairs_view(v: Seq<(Vec<u8>, Vec<u8>)>)
    ensures
        pairs_view(v).len() == v.len(),
        forall|i: int|
            0 <= i < v.len() ==> pairs_view(v)[i] == ((#[trigger] v[i]).0@, v[i].1@),
{
}

/// A cache key in specification form.
pub struct KeyView {
    /// Method.
    pub method: Method,
    /// Path bytes.
    pub path: Option<Seq<u8>>,
    /// Decoded, sorted query.
    pub query: Option<Seq<(Seq<u8>, Seq<Seq<u8>>)>>,
    /// Scheme bytes.
    pub scheme: Option<Seq<u8>>,
    /// Host bytes.
    pub host: Option<Seq<u8>>,
    /// Port.
    pub port: Option<u16>,
    /// Media type.
    pub media_type: Option<(Seq<u8>, Seq<u8>)>,
    /// Sorted languages.
    pub languages: Option<Seq<Seq<u8>>>,
    /// Sorted extensions.
    pub extensions: Option<Seq<(Seq<u8>, Seq<u8>)>>,
}

/// A cache key for common use: the request identity a cached variant is
/// filed under. The method, path and decoded sorted query are filled from
/// the request; the remaining fields are reserved for the cache-key hook.
#[derive(Hash)]
pub struct CommonCacheKey {
    /// Method.
    pub method: Method,
    /// Optional path, as on the wire.
    pub path: Option<Vec<u8>>,
    /// Optional query, decoded and sorted by key.
    pub query: Option<QueryMap>,
    /// Optional scheme; reserved for custom use.
    pub scheme: Option<Vec<u8>>,
    /// Optional host; reserved for custom use.
    pub host: Option<Vec<u8>>,
    /// Optional port; reserved for custom use.
    pub port: Option<u16>,
    /// Optional media type; reserved for custom use.
    pub media_type: Option<MediaType>,
    /// Optional sorted languages; reserved for custom use.
    pub languages: Option<Vec<Vec<u8>>>,
    /// Optional extensions, sorted by key; reserved for custom use.
    pub extensions: Option<Vec<(Vec<u8>, Vec<u8>)>>,
}

impl View for CommonCacheKey {
    type V = KeyView;

    open spec fn view(&self) -> KeyView {
        KeyView {
            method: self.method,
            path: match self.path {
                Some(p) => Some(p@),
                None => None,
            },
            query: match self.query {
                Some(q) => Some(q@),
                None => None,
            },
            scheme: match self.scheme {
                Some(x) => Some(x@),
                None => None,
            },
            host: match self.host {
                Some(x) => Some(x@),
                None => None,
            },
            port: self.port,
            media_type: match self.media_type {
                Some(m) => Some(media_type_view(m)),
                None => None,
            },
            languages: match self.languages {
                Some(l) => Some(vecs_view(l@)),
                None => None,
            },
            extensions: match self.extensions {
                Some(e) => Some(pairs_view(e@)),
                None => None,
            },
        }
    }
}

impl CommonCacheKey {
    /// Constructor.
    pub fn new(
        method: Method,
        path: Option<Vec<u8>>,
        query: Option<QueryMap>,
        scheme: Option<Vec<u8>>,
        host: Option<Vec<u8>>,
        port: Option<u16>,
        media_type: Option<MediaType>,
        languages: Option<Vec<Vec<u8>>>,
        extensions: Option<Vec<(Vec<u8>, Vec<u8>)>>,
    ) -> (r: Self)
        ensures
            r == (CommonCacheKey {
                method,
                path,
                query,
                scheme,
                host,
                port,
                media_type,
                languages,
                extensions,
            }),
    {
        CommonCacheKey {
            method,
            scheme,
            host,
            port,
            path,
            query,
            media_type,
            languages,
            extensions,
        }
    }

    /// The default cache key of a request: method, path, and the decoded
    /// query sorted by parameter name. The headers play no part, so two
    /// requests differing only in their headers get equal keys; content
    /// negotiation must be merged in by the cache-key hook.
    pub fn for_request(
        method: Method,
        path: Option<Vec<u8>>,
        query: Option<Vec<u8>>,
        headers: &crate::headers::HeaderMap,
    ) -> (r: Self)
        ensures
            r@.method == method,
            r@.path == (match path {
                Some(p) => Some(p@),
                None => None::<Seq<u8>>,
            }),
            (match (query, r@.query) {
                (Some(q), Some(m)) => qm_wf(m) && forall|k: Seq<u8>, w: Seq<u8>|
                    qm_has(m, k, w) == query_pairs(q@).contains((k, w)),
                (None, None) => true,
                _ => false,
            }),
            r@.scheme is None,
            r@.host is None,
            r@.port is None,
            r@.media_type is None,
            r@.languages is None,
            r@.extensions is None,
    {
        let q = match query {
            Some(qs) => Some(parse_query(&qs)),
            None => None,
        };
        Self::new(method, path, q, None, None, None, None, None, None)
    }
}

/// Whether two byte options hold the same bytes.
fn opt_bytes_eq(a: &Option<Vec<u8>>, b: &Option<Vec<u8>>) -> (r: bool)
    ensures
        r == ((match a {
            Some(x) => Some(x@),
            None => None::<Seq<u8>>,
        }) == (match b {
            Some(y) => Some(y@),
            None => None::<Seq<u8>>,
        })),
{
    match (a, b) {
        (None, None) => true,
        (Some(x), Some(y)) => {
            let c = bytes_cmp(x, y);
            c == 0
        }
        _ => false,
    }
}

/// Whether two lists of byte vectors hold the same sequences.
fn vecs_eq(a: &Vec<Vec<u8>>, b: &Vec<Vec<u8>>) -> (r: bool)
    ensures
        r == (vecs_view(a@) == vecs_view(b@)),
{
    proof {
        lemma_vecs_view(a@);
        lemma_vecs_view(b@);
    }
    if a.len() != b.len() {
        proof {
            assert(vecs_view(a@).len() != vecs_view(b@).len());
        }
        return false;
    }
    let mut i: usize = 0;
    while i < a.len()
        invariant
            i <= a@.len(),
            a@.len() == b@.len(),
            forall|k: int| 0 <= k < vecs_view(a@).len() ==> #[trigger] vecs_view(a@)[k] == a@[k]@,
            forall|k: int| 0 <= k < vecs_view(b@).len() ==> #[trigger] vecs_view(b@)[k] == b@[k]@,
            vecs_view(a@).len() == a@.len(),
            vecs_view(b@).len() == b@.len(),
            forall|k: int| 0 <= k < i ==> a@[k]@ == b@[k]@,
        decreases a@.len() - i,
    {
        let c = bytes_cmp(&a[i], &b[i]);
        if c != 0 {
            proof {
                assert(vecs_view(a@)[i as int] != vecs_view(b@)[i as int]);
            }
            return false;
        }
        i = i + 1;
    }
    proof {
        assert(vecs_view(a@) =~= vecs_view(b@));
    }
    true
}

/// Whether two query maps hold the same entries.
fn qm_eq(a: &QueryMap, b: &QueryMap) -> (r: bool)
    ensures
        r == (a@ == b@),
{
    proof {
        lemma_qentries_view(a.entries@);
        lemma_qentries_view(b.entries@);
    }
    if a.entries.len() != b.entries.len() {
        proof {
            assert(a@.len() != b@.len());
        }
        return false;
    }
    let mut i: usize = 0;
    while i < a.entries.len()
        invariant
            i <= a.entries@.len(),
            a.entries@.len() == b.entries@.len(),
            a@.len() == a.entries@.len(),
            b@.len() == b.entries@.len(),
            forall|k: int|
                0 <= k < a@.len() ==> #[trigger] a@[k] == qentry_view(a.entries@[k]),
            forall|k: int|
                0 <= k < b@.len() ==> #[trigger] b@[k] == qentry_view(b.entries@[k]),
            forall|k: int| 0 <= k < i ==> a@[k] == b@[k],
        decreases a.entries@.len() - i,
    {
        let ea = &a.entries[i];
        let eb = &b.entries[i];
        let kc = bytes_cmp(&ea.0, &eb.0);
        if kc != 0 {
            proof {
                assert(a@[i as int].0 != b@[i as int].0);
            }
            return false;
        }
        if !vecs_eq(&ea.1, &eb.1) {
            proof {
                assert(a@[i as int].1 != b@[i as int].1);
            }
            return false;
        }
        proof {
            assert(a@[i as int] == b@[i as int]);
        }
        i = i + 1;
    }
    proof {
        assert(a@ =~= b@);
    }
    true
}

/// Whether two extension lists hold the same pairs.
fn pairs_eq(a: &Vec<(Vec<u8>, Vec<u8>)>, b: &Vec<(Vec<u8>, Vec<u8>)>) -> (r: bool)
    ensures
        r == (pairs_view(a@) == pairs_view(b@)),
{
    proof {
        lemma_pairs_view(a@);
        lemma_pairs_view(b@);
    }
    if a.len() != b.len() {
        proof {
            assert(pairs_view(a@).len() != pairs_view(b@).len());
        }
        return false;
    }
    let mut i: usize = 0;
    while i < a.len()
        invariant
            i <= a@.len(),
            a@.len() == b@.len(),
            pairs_view(a@).len() == a@.len(),
            pairs_view(b@).len() == b@.len(),
            forall|k: int|
                0 <= k < a@.len() ==> #[trigger] pairs_view(a@)[k] == (a@[k].0@, a@[k].1@),
            forall|k: int|
                0 <= k < b@.len() ==> #[trigger] pairs_view(b@)[k] == (b@[k].0@, b@[k].1@),
            forall|k: int| 0 <= k < i ==> pairs_view(a@)[k] == pairs_view(b@)[k],
        decreases a@.len() - i,
    {
        let ea = &a[i];
        let eb = &b[i];
        if bytes_cmp(&ea.0, &eb.0) != 0 || bytes_cmp(&ea.1, &eb.1) != 0 {
            proof {
                assert(pairs_view(a@)[i as int] != pairs_view(b@)[i as int]);
            }
            return false;
        }
        i = i + 1;
    }
    proof {
        assert(pairs_view(a@) =~= pairs_view(b@));
    }
    true
}

impl vstd::std_specs::cmp::PartialEqSpecImpl for CommonCacheKey {
    open spec fn obeys_eq_spec() -> bool {
        true
    }

    open spec fn eq_spec(&self, other: &CommonCacheKey) -> bool {
        self@ == other@
    }
}

impl PartialEq for CommonCacheKey {
    fn eq(&self, other: &CommonCacheKey) -> bool {
        let method_eq = self.method == other.method;
        let path_eq = opt_bytes_eq(&self.path, &other.path);
        let query_eq = match (&self.query, &other.query) {
            (None, None) => true,
            (Some(qa), Some(qb)) => qm_eq(qa, qb),
            _ => false,
        };
        let scheme_eq = opt_bytes_eq(&self.scheme, &other.scheme);
        let host_eq = opt_bytes_eq(&self.host, &other.host);
        let port_eq = match (self.port, other.port) {
            (None, None) => true,
            (Some(pa), Some(pb)) => pa == pb,
            _ => false,
        };
        let mt_eq = match (&self.media_type, &other.media_type) {
            (None, None) => true,
            (Some(ma), Some(mb)) => bytes_cmp(&ma.main, &mb.main) == 0 && bytes_cmp(
                &ma.subtype,
                &mb.subtype,
            ) == 0,
            _ => false,
        };
        let lang_eq = match (&self.languages, &other.languages) {
            (None, None) => true,
            (Some(la), Some(lb)) => vecs_eq(la, lb),
            _ => false,
        };
        let ext_eq = match (&self.extensions, &other.extensions) {
            (None, None) => true,
            (Some(ea), Some(eb)) => pairs_eq(ea, eb),
            _ => false,
        };
        let r = method_eq && path_eq && query_eq && scheme_eq && host_eq && port_eq && mt_eq
            && lang_eq && ext_eq;
        proof {
            if r {
                assert(self@ == other@);
            } else {
                if self@ == other@ {
                    assert(false);
                }
            }
        }
        r
    }
}

impl Eq for CommonCacheKey {

}

impl Clone for QueryMap {
    /// The clone holds the same entries.
    fn clone(&self) -> (r: Self)
        ensures
            r@ == self@,
    {
        let mut entries: Vec<(Vec<u8>, Vec<Vec<u8>>)> = Vec::new();
        let mut i: usize = 0;
        proof {
            lemma_qentries_view(self.entries@);
        }
        while i < self.entries.len()
            invariant
                i <= self.entries@.len(),
                qentries_view(self.entries@).len() == self.entries@.len(),
                forall|k: int|
                    0 <= k < self.entries@.len() ==> #[trigger] qentries_view(self.entries@)[k]
                        == qentry_view(self.entries@[k]),
                qentries_view(entries@) == qentries_view(self.entries@).subrange(0, i as int),
            decreases self.entries@.len() - i,
        {
            let e = &self.entries[i];
            let k = copy_bytes(&e.0);
            let mut vs: Vec<Vec<u8>> = Vec::new();
            let mut j: usize = 0;
            while j < e.1.len()
                invariant
                    j <= e.1@.len(),
                    vecs_view(vs@) == vecs_view(e.1@).subrange(0, j as int),
                decreases e.1@.len() - j,
            {
                let ghost vs0 = vs@;
                vs.push(copy_bytes(&e.1[j]));
                j = j + 1;
                proof {
                    lemma_vecs_view(vs0);
                    lemma_vecs_view(vs@);
                    lemma_vecs_view(e.1@);
                    assert(vecs_view(vs@) =~= vecs_view(e.1@).subrange(0, j as int));
                }
            }
            proof {
                lemma_vecs_view(vs@);
                lemma_vecs_view(e.1@);
                assert(vecs_view(e.1@).subrange(0, e.1@.len() as int) =~= vecs_view(e.1@));
            }
            let ghost entries0 = entries@;
            entries.push((k, vs));
            i = i + 1;
            proof {
                lemma_qentries_view(entries0);
                lemma_qentries_view(entries@);
                assert(qentries_view(entries@) =~= qentries_view(self.entries@).subrange(
                    0,
                    i as int,
                ));
            }
        }
        let r = QueryMap { entries };
        proof {
            assert(qentries_view(self.entries@).subrange(
                0,
                self.entries@.len() as int,
            ) =~= qentries_view(self.entries@));
            assert(r@ =~= self@);
        }
        r
    }
}

impl Clone for CommonCacheKey {
    /// The clone is the same key.
    fn clone(&self) -> (r: Self)
        ensures
            r@ == self@,
    {
        let path = match &self.path {
            Some(p) => Some(copy_bytes(p)),
            None => None,
        };
        let query = match &self.query {
            Some(q) => Some(q.clone()),
            None => None,
        };
        let scheme = match &self.scheme {
            Some(x) => Some(copy_bytes(x)),
            None => None,
        };
        let host = match &self.host {
            Some(x) => Some(copy_bytes(x)),
            None => None,
        };
        let media_type = match &self.media_type {
            Some(m) => Some(
                MediaType { main: copy_bytes(&m.main), subtype: copy_bytes(&m.subtype) },
            ),
            None => None,
        };
        let languages = match &self.languages {
            Some(l) => {
                let mut out: Vec<Vec<u8>> = Vec::new();
                let mut i: usize = 0;
                while i < l.len()
                    invariant
                        i <= l@.len(),
                        vecs_view(out@) == vecs_view(l@).subrange(0, i as int),
                    decreases l@.len() - i,
                {
                    let ghost out0 = out@;
                    out.push(copy_bytes(&l[i]));
                    i = i + 1;
                    proof {
                        lemma_vecs_view(out0);
                        lemma_vecs_view(out@);
                        lemma_vecs_view(l@);
                        assert(vecs_view(out@) =~= vecs_view(l@).subrange(0, i as int));
                    }
                }
                proof {
                    lemma_vecs_view(l@);
                    assert(vecs_view(l@).subrange(0, l@.len() as int) =~= vecs_view(l@));
                }
                Some(out)
            }
            None => None,
        };
        let extensions = match &self.extensions {
            Some(e) => {
                let mut out: Vec<(Vec<u8>, Vec<u8>)> = Vec::new();
                let mut i: usize = 0;
                while i < e.len()
                    invariant
                        i <= e@.len(),
                        pairs_view(out@) == pairs_view(e@).subrange(0, i as int),
                    decreases e@.len() - i,
                {
                    let ghost out0 = out@;
                    let p = &e[i];
                    out.push((copy_bytes(&p.0), copy_bytes(&p.1)));
                    i = i + 1;
                    proof {
                        lemma_pairs_view(out0);
                        lemma_pairs_view(out@);
                        lemma_pairs_view(e@);
                        assert(pairs_view(out@) =~= pairs_view(e@).subrange(0, i as int));
                    }
                }
                proof {
                    lemma_pairs_view(e@);
                    assert(pairs_view(e@).subrange(0, e@.len() as int) =~= pairs_view(e@));
                }
                Some(out)
            }
            None => None,
        };
        let r = CommonCacheKey {
            method: self.method,
            path,
            query,
            scheme,
            host,
            port: self.port,
            media_type,
            languages,
            extensions,
        };
        proof {
            assert(r@ == self@);
        }
        r
    }
}

/// A separator byte as a sequence.
pub open spec fn sep_seq(b: u8) -> Seq<u8> {
    seq![b]
}

/// Join items with a separator byte between them.
pub open spec fn join_sep(items: Seq<Seq<u8>>, sep: u8) -> Seq<u8>
    decreases items.len(),
{
    if items.len() == 0 {
        Seq::<u8>::empty()
    } else if items.len() == 1 {
        items[0]
    } else {
        items[0] + sep_seq(sep) + join_sep(items.drop_first(), sep)
    }
}

/// The `k=v` display items of one query parameter, one per value.
pub open spec fn entry_items(k: Seq<u8>, vs: Seq<Seq<u8>>) -> Seq<Seq<u8>>
    decreases vs.len(),
{
    if vs.len() == 0 {
        Seq::<Seq<u8>>::empty()
    } else {
        seq![k + sep_seq(0x3d) + vs[0]] + entry_items(k, vs.drop_first())
    }
}

/// The display items of a whole query map, in order.
pub open spec fn query_items(q: Seq<(Seq<u8>, Seq<Seq<u8>>)>) -> Seq<Seq<u8>>
    decreases q.len(),
{
    if q.len() == 0 {
        Seq::<Seq<u8>>::empty()
    } else {
        entry_items(q[0].0, q[0].1) + query_items(q.drop_first())
    }
}

/// The `klen=vlen` display items of the extensions: only the lengths are
/// shown, the bytes may be opaque.
pub open spec fn ext_items(e: Seq<(Seq<u8>, Seq<u8>)>) -> Seq<Seq<u8>>
    decreases e.len(),
{
    if e.len() == 0 {
        Seq::<Seq<u8>>::empty()
    } else {
        seq![dec_repr(e[0].0.len()) + sep_seq(0x3d) + dec_repr(e[0].1.len())] + ext_items(
            e.drop_first(),
        )
    }
}

/// An optional byte field's display: the bytes or nothing.
pub open spec fn opt_disp(o: Option<Seq<u8>>) -> Seq<u8> {
    match o {
        Some(b) => b,
        None => Seq::<u8>::empty(),
    }
}

/// The canonical display of a key: its fields, bar-separated, the query
/// flattened as `k=v` pairs joined by `&`, languages joined by `,`, and
/// extensions shown as byte lengths.
pub open spec fn display_of(v: KeyView) -> Seq<u8> {
    v.method.spec_token() + sep_seq(0x7c) + opt_disp(v.scheme) + sep_seq(0x7c) + opt_disp(v.host)
        + sep_seq(0x7c) + (match v.port {
        Some(p) => dec_repr(p as nat),
        None => Seq::<u8>::empty(),
    }) + sep_seq(0x7c) + opt_disp(v.path) + sep_seq(0x7c) + (match v.query {
        Some(q) => join_sep(query_items(q), 0x26),
        None => Seq::<u8>::empty(),
    }) + sep_seq(0x7c) + (match v.media_type {
        Some(m) => m.0 + sep_seq(0x2f) + m.1,
        None => Seq::<u8>::empty(),
    }) + sep_seq(0x7c) + (match v.languages {
        Some(l) => join_sep(l, 0x2c),
        None => Seq::<u8>::empty(),
    }) + sep_seq(0x7c) + (match v.extensions {
        Some(e) => join_sep(ext_items(e), 0x26),
        None => Seq::<u8>::empty(),
    })
}

/// Append a copy of the bytes.
fn append_bytes(out: &mut Vec<u8>, b: &Vec<u8>)
    ensures
        final (out)@ == old(out)@ + b@,
{
    let mut c = copy_bytes(b);
    out.append(&mut c);
    proof {
        assert(out@ =~= old(out)@ + b@);
    }
}

/// Join items with a separator byte between them.
fn join_sep_exec(items: &Vec<Vec<u8>>, sep: u8, i: usize) -> (r: Vec<u8>)
    requires
        i <= items@.len(),
    ensures
        r@ == join_sep(vecs_view(items@).subrange(i as int, items@.len() as int), sep),
    decreases items@.len() - i,
{
    proof {
        lemma_vecs_view(items@);
    }
    let ghost suf = vecs_view(items@).subrange(i as int, items@.len() as int);
    if i >= items.len() {
        let r: Vec<u8> = Vec::new();
        proof {
            assert(suf.len() == 0);
        }
        return r;
    }
    let mut out = copy_bytes(&items[i]);
    proof {
        assert(suf[0] == vecs_view(items@)[i as int]);
    }
    if i + 1 < items.len() {
        let mut rest = join_sep_exec(items, sep, i + 1);
        out.push(sep);
        out.append(&mut rest);
        proof {
            assert(suf.drop_first() =~= vecs_view(items@).subrange(
                i as int + 1,
                items@.len() as int,
            ));
            assert(suf.len() > 1);
            assert(out@ =~= suf[0] + sep_seq(sep) + join_sep(suf.drop_first(), sep));
        }
    } else {
        proof {
            assert(suf.len() == 1);
            assert(out@ =~= join_sep(suf, sep));
        }
    }
    out
}

/// The `k=v` display items of one query parameter.
fn entry_items_exec(k: &Vec<u8>, vs: &Vec<Vec<u8>>, j: usize) -> (r: Vec<Vec<u8>>)
    requires
        j <= vs@.len(),
    ensures
        vecs_view(r@) == entry_items(k@, vecs_view(vs@).subrange(j as int, vs@.len() as int)),
    decreases vs@.len() - j,
{
    proof {
        lemma_vecs_view(vs@);
    }
    let ghost suf = vecs_view(vs@).subrange(j as int, vs@.len() as int);
    if j >= vs.len() {
        let r: Vec<Vec<u8>> = Vec::new();
        proof {
            lemma_vecs_view(r@);
            assert(vecs_view(r@) =~= entry_items(k@, suf));
        }
        return r;
    }
    let mut item = copy_bytes(k);
    item.push(0x3d);
    append_bytes(&mut item, &vs[j]);
    proof {
        assert(suf[0] == vecs_view(vs@)[j as int]);
        assert(item@ =~= k@ + sep_seq(0x3d) + suf[0]);
    }
    let mut rest = entry_items_exec(k, vs, j + 1);
    let mut out: Vec<Vec<u8>> = Vec::new();
    out.push(item);
    let ghost out0 = out@;
    out.append(&mut rest);
    proof {
        assert(suf.drop_first() =~= vecs_view(vs@).subrange(j as int + 1, vs@.len() as int));
        lemma_vecs_view(out0);
        lemma_vecs_view(out@);
        lemma_vecs_view(rest@);
        assert(vecs_view(out@) =~= entry_items(k@, suf));
    }
    out
}

/// The display items of a whole query map from an entry on.
fn query_items_exec(q: &QueryMap, i: usize) -> (r: Vec<Vec<u8>>)
    requires
        i <= q.entries@.len(),
    ensures
        vecs_view(r@) == query_items(q@.subrange(i as int, q@.len() as int)),
    decreases q.entries@.len() - i,
{
    proof {
        lemma_qentries_view(q.entries@);
    }
    let ghost suf = q@.subrange(i as int, q@.len() as int);
    if i >= q.entries.len() {
        let r: Vec<Vec<u8>> = Vec::new();
        proof {
            lemma_vecs_view(r@);
            assert(vecs_view(r@) =~= query_items(suf));
        }
        return r;
    }
    let e = &q.entries[i];
    proof {
        assert(suf[0] == q@[i as int]);
        assert(q@[i as int] == qentry_view(q.entries@[i as int]));
    }
    let mut out = entry_items_exec(&e.0, &e.1, 0);
    proof {
        assert(vecs_view(e.1@).subrange(0, e.1@.len() as int) =~= vecs_view(e.1@));
    }
    let mut rest = query_items_exec(q, i + 1);
    let ghost out0 = out@;
    out.append(&mut rest);
    proof {
        assert(suf.drop_first() =~= q@.subrange(i as int + 1, q@.len() as int));
        lemma_vecs_view(out0);
        lemma_vecs_view(out@);
        lemma_vecs_view(rest@);
        assert(vecs_view(out@) =~= query_items(suf));
    }
    out
}

/// The `klen=vlen` display items of the extensions from a pair on.
fn ext_items_exec(e: &Vec<(Vec<u8>, Vec<u8>)>, i: usize) -> (r: Vec<Vec<u8>>)
    requires
        i <= e@.len(),
    ensures
        vecs_view(r@) == ext_items(pairs_view(e@).subrange(i as int, e@.len() as int)),
    decreases e@.len() - i,
{
    proof {
        lemma_pairs_view(e@);
    }
    let ghost suf = pairs_view(e@).subrange(i as int, e@.len() as int);
    if i >= e.len() {
        let r: Vec<Vec<u8>> = Vec::new();
        proof {
            lemma_vecs_view(r@);
            assert(vecs_view(r@) =~= ext_items(suf));
        }
        return r;
    }
    let p = &e[i];
    let mut item = format_usize(p.0.len());
    item.push(0x3d);
    let mut vl = format_usize(p.1.len());
    item.append(&mut vl);
    proof {
        assert(suf[0] == pairs_view(e@)[i as int]);
        assert(item@ =~= dec_repr(suf[0].0.len()) + sep_seq(0x3d) + dec_repr(suf[0].1.len()));
    }
    let mut rest = ext_items_exec(e, i + 1);
    let mut out: Vec<Vec<u8>> = Vec::new();
    out.push(item);
    let ghost out0 = out@;
    out.append(&mut rest);
    proof {
        assert(suf.drop_first() =~= pairs_view(e@).subrange(i as int + 1, e@.len() as int));
        lemma_vecs_view(out0);
        lemma_vecs_view(out@);
        lemma_vecs_view(rest@);
        assert(vecs_view(out@) =~= ext_items(suf));
    }
    out
}

impl CommonCacheKey {
    /// The canonical display of the key, as bytes: fields bar-separated,
    /// the query flattened to `k=v` pairs, extensions shown as lengths.
    #[verifier::rlimit(100)]
    #[verifier::spinoff_prover]
    pub fn display_bytes(&self) -> (r: Vec<u8>)
        ensures
            r@ == display_of(self@),
    {
        let ghost v = self@;
        let mut out: Vec<u8> = self.method.token();
        out.push(0x7c);
        let ghost d1 = v.method.spec_token() + sep_seq(0x7c);
        proof {
            assert(out@ =~= d1);
        }
        match &self.scheme {
            Some(x) => append_bytes(&mut out, x),
            None => {}
        }
        out.push(0x7c);
        let ghost d2 = d1 + opt_disp(v.scheme) + sep_seq(0x7c);
        proof {
            assert(out@ =~= d2);
        }
        match &self.host {
            Some(x) => append_bytes(&mut out, x),
            None => {}
        }
        out.push(0x7c);
        let ghost d3 = d2 + opt_disp(v.host) + sep_seq(0x7c);
        proof {
            assert(out@ =~= d3);
        }
        match self.port {
            Some(p) => {
                let mut d = format_usize(p as usize);
                out.append(&mut d);
            }
            None => {}
        }
        out.push(0x7c);
        let ghost d4 = d3 + (match v.port {
            Some(p) => dec_repr(p as nat),
            None => Seq::<u8>::empty(),
        }) + sep_seq(0x7c);
        proof {
            assert(out@ =~= d4);
        }
        match &self.path {
            Some(x) => append_bytes(&mut out, x),
            None => {}
        }
        out.push(0x7c);
        let ghost d5 = d4 + opt_disp(v.path) + sep_seq(0x7c);
        proof {
            assert(out@ =~= d5);
        }
        match &self.query {
            Some(q) => {
                let items = query_items_exec(q, 0);
                proof {
                    assert(q@.subrange(0, q@.len() as int) =~= q@);
                }
                let mut joined = join_sep_exec(&items, 0x26, 0);
                proof {
                    assert(vecs_view(items@).subrange(0, items@.len() as int) =~= vecs_view(
                        items@,
                    ));
                }
                out.append(&mut joined);
            }
            None => {}
        }
        out.push(0x7c);
        let ghost d6 = d5 + (match v.query {
            Some(q) => join_sep(query_items(q), 0x26),
            None => Seq::<u8>::empty(),
        }) + sep_seq(0x7c);
        proof {
            assert(out@ =~= d6);
        }
        match &self.media_type {
            Some(m) => {
                append_bytes(&mut out, &m.main);
                out.push(0x2f);
                append_bytes(&mut out, &m.subtype);
            }
            None => {}
        }
        out.push(0x7c);
        let ghost d7 = d6 + (match v.media_type {
            Some(m) => m.0 + sep_seq(0x2f) + m.1,
            None => Seq::<u8>::empty(),
        }) + sep_seq(0x7c);
        proof {
            assert(out@ =~= d7);
        }
        match &self.languages {
            Some(l) => {
                let mut joined = join_sep_exec(l, 0x2c, 0);
                proof {
                    assert(vecs_view(l@).subrange(0, l@.len() as int) =~= vecs_view(l@));
                }
                out.append(&mut joined);
            }
            None => {}
        }
        out.push(0x7c);
        let ghost d8 = d7 + (match v.languages {
            Some(l) => join_sep(l, 0x2c),
            None => Seq::<u8>::empty(),
        }) + sep_seq(0x7c);
        proof {
            assert(out@ =~= d8);
        }
        match &self.extensions {
            Some(e) => {
                let items = ext_items_exec(e, 0);
                proof {
                    assert(pairs_view(e@).subrange(0, e@.len() as int) =~= pairs_view(e@));
                }
                let mut joined = join_sep_exec(&items, 0x26, 0);
                proof {
                    assert(vecs_view(items@).subrange(0, items@.len() as int) =~= vecs_view(
                        items@,
                    ));
                }
                out.append(&mut joined);
            }
            None => {}
        }
        let ghost d9 = d8 + (match v.extensions {
            Some(e) => join_sep(ext_items(e), 0x26),
            None => Seq::<u8>::empty(),
        });
        proof {
            assert(out@ =~= d9);
            assert(d9 =~= display_of(self@));
        }
        out
    }
}

/// Two sorted value sets with the same members are the same list.
pub proof fn lemma_sorted_vals_canonical(v1: Seq<Seq<u8>>, v2: Seq<Seq<u8>>)
    requires
        vals_sorted(v1),
        vals_sorted(v2),
        forall|x: Seq<u8>| v1.contains(x) == v2.contains(x),
    ensures
        v1 == v2,
    decreases v1.len() + v2.len(),
{
    if v1.len() == 0 {
        if v2.len() > 0 {
            assert(v2.contains(v2[0]));
            assert(v1.contains(v2[0]));
            let i = choose|i: int| 0 <= i < v1.len() && v1[i] == v2[0];
            assert(false);
        }
        assert(v1 =~= v2);
    } else if v2.len() == 0 {
        assert(v1.contains(v1[0]));
        assert(v2.contains(v1[0]));
        let i = choose|i: int| 0 <= i < v2.len() && v2[i] == v1[0];
        assert(false);
    } else {
        let a = v1[0];
        let b = v2[0];
        assert(v1.contains(a));
        assert(v2.contains(b));
        assert(v2.contains(a));
        assert(v1.contains(b));
        let i = choose|i: int| 0 <= i < v2.len() && v2[i] == a;
        let j = choose|j: int| 0 <= j < v1.len() && v1[j] == b;
        if i > 0 && j > 0 {
            assert(bytes_lt(b, a));
            assert(bytes_lt(a, b));
            lemma_bytes_trichotomy(a, b);
            assert(false);
        }
        assert(a == b);
        let t1 = v1.drop_first();
        let t2 = v2.drop_first();
        assert forall|p: int, q: int| 0 <= p < q < t1.len() implies bytes_lt(t1[p], t1[q]) by {
            assert(t1[p] == v1[p + 1] && t1[q] == v1[q + 1]);
        }
        assert forall|p: int, q: int| 0 <= p < q < t2.len() implies bytes_lt(t2[p], t2[q]) by {
            assert(t2[p] == v2[p + 1] && t2[q] == v2[q + 1]);
        }
        assert forall|x: Seq<u8>| t1.contains(x) == t2.contains(x) by {
            if t1.contains(x) {
                let w = choose|w: int| 0 <= w < t1.len() && t1[w] == x;
                assert(v1[w + 1] == x);
                assert(v1.contains(x));
                assert(bytes_lt(a, x));
                assert(v2.contains(x));
                let u = choose|u: int| 0 <= u < v2.len() && v2[u] == x;
                if u == 0 {
                    lemma_bytes_trichotomy(a, x);
                    assert(false);
                }
                assert(t2[u - 1] == x);
                assert(t2.contains(x));
            }
            if t2.contains(x) {
                let w = choose|w: int| 0 <= w < t2.len() && t2[w] == x;
                assert(v2[w + 1] == x);
                assert(v2.contains(x));
                assert(bytes_lt(b, x));
                assert(v1.contains(x));
                let u = choose|u: int| 0 <= u < v1.len() && v1[u] == x;
                if u == 0 {
                    lemma_bytes_trichotomy(b, x);
                    assert(false);
                }
                assert(t1[u - 1] == x);
                assert(t1.contains(x));
            }
        }
        lemma_sorted_vals_canonical(t1, t2);
        assert(v1.len() == v2.len());
        assert forall|k: int| 0 <= k < v1.len() implies v1[k] == v2[k] by {
            if k > 0 {
                assert(v1[k] == t1[k - 1]);
                assert(v2[k] == t2[k - 1]);
            }
        }
        assert(v1 =~= v2);
    }
}

/// A sorted query map is canonical: two well-formed maps carrying the
/// same key/value pairs are the same map, whatever order the pairs were
/// inserted in.
pub proof fn lemma_query_map_canonical(
    q1: Seq<(Seq<u8>, Seq<Seq<u8>>)>,
    q2: Seq<(Seq<u8>, Seq<Seq<u8>>)>,
)
    requires
        qm_wf(q1),
        qm_wf(q2),
        forall|k: Seq<u8>, v: Seq<u8>| qm_has(q1, k, v) == qm_has(q2, k, v),
    ensures
        q1 == q2,
    decreases q1.len() + q2.len(),
{
    if q1.len() == 0 {
        if q2.len() > 0 {
            assert(q2[0].1.len() > 0);
            let v0 = q2[0].1[0];
            assert(q2[0].1.contains(v0));
            assert(qm_has(q2, q2[0].0, v0));
            assert(qm_has(q1, q2[0].0, v0));
            let i = choose|i: int| 0 <= i < q1.len() && q1[i].0 == q2[0].0 && q1[i].1.contains(v0);
            assert(false);
        }
        assert(q1 =~= q2);
    } else if q2.len() == 0 {
        assert(q1[0].1.len() > 0);
        let v0 = q1[0].1[0];
        assert(q1[0].1.contains(v0));
        assert(qm_has(q1, q1[0].0, v0));
        assert(qm_has(q2, q1[0].0, v0));
        let i = choose|i: int| 0 <= i < q2.len() && q2[i].0 == q1[0].0 && q2[i].1.contains(v0);
        assert(false);
    } else {
        let k1 = q1[0].0;
        let k2 = q2[0].0;
        assert(q1[0].1.len() > 0);
        assert(q2[0].1.len() > 0);
        assert(q1[0].1.contains(q1[0].1[0]));
        assert(q2[0].1.contains(q2[0].1[0]));
        assert(qm_has(q1, k1, q1[0].1[0]));
        assert(qm_has(q2, k2, q2[0].1[0]));
        assert(qm_has(q2, k1, q1[0].1[0]));
        assert(qm_has(q1, k2, q2[0].1[0]));
        let i = choose|i: int|
            0 <= i < q2.len() && q2[i].0 == k1 && q2[i].1.contains(q1[0].1[0]);
        let j = choose|j: int|
            0 <= j < q1.len() && q1[j].0 == k2 && q1[j].1.contains(q2[0].1[0]);
        if i > 0 && j > 0 {
            assert(bytes_lt(k2, q2[i].0));
            assert(bytes_lt(k1, q1[j].0));
            lemma_bytes_trichotomy(k1, k2);
            assert(false);
        }
        assert(k1 == k2);
        // the head value sets have the same members
        assert forall|v: Seq<u8>| q1[0].1.contains(v) == q2[0].1.contains(v) by {
            if q1[0].1.contains(v) {
                assert(qm_has(q1, k1, v));
                assert(qm_has(q2, k1, v));
                let w = choose|w: int| 0 <= w < q2.len() && q2[w].0 == k1 && q2[w].1.contains(v);
                if w > 0 {
                    assert(bytes_lt(q2[0].0, q2[w].0));
                    lemma_bytes_trichotomy(k1, k1);
                    assert(false);
                }
            }
            if q2[0].1.contains(v) {
                assert(qm_has(q2, k1, v));
                assert(qm_has(q1, k1, v));
                let w = choose|w: int| 0 <= w < q1.len() && q1[w].0 == k1 && q1[w].1.contains(v);
                if w > 0 {
                    assert(bytes_lt(q1[0].0, q1[w].0));
                    lemma_bytes_trichotomy(k1, k1);
                    assert(false);
                }
            }
        }
        lemma_sorted_vals_canonical(q1[0].1, q2[0].1);
        assert(q1[0].1 == q2[0].1);
        // the tails carry the same pairs
        let t1 = q1.drop_first();
        let t2 = q2.drop_first();
        assert forall|p: int, q: int| 0 <= p < q < t1.len() implies bytes_lt(
            t1[p].0,
            t1[q].0,
        ) by {
            assert(t1[p] == q1[p + 1] && t1[q] == q1[q + 1]);
        }
        assert forall|p: int, q: int| 0 <= p < q < t2.len() implies bytes_lt(
            t2[p].0,
            t2[q].0,
        ) by {
            assert(t2[p] == q2[p + 1] && t2[q] == q2[q + 1]);
        }
        assert forall|w: int| 0 <= w < t1.len() implies vals_sorted((#[trigger] t1[w]).1)
            && t1[w].1.len() > 0 by {
            assert(t1[w] == q1[w + 1]);
        }
        assert forall|w: int| 0 <= w < t2.len() implies vals_sorted((#[trigger] t2[w]).1)
            && t2[w].1.len() > 0 by {
            assert(t2[w] == q2[w + 1]);
        }
        assert forall|k: Seq<u8>, v: Seq<u8>| qm_has(t1, k, v) == qm_has(t2, k, v) by {
            if qm_has(t1, k, v) {
                let w = choose|w: int| 0 <= w < t1.len() && t1[w].0 == k && t1[w].1.contains(v);
                assert(q1[w + 1].0 == k && q1[w + 1].1.contains(v));
                assert(bytes_lt(k1, k));
                assert(qm_has(q1, k, v));
                assert(qm_has(q2, k, v));
                let u = choose|u: int| 0 <= u < q2.len() && q2[u].0 == k && q2[u].1.contains(v);
                if u == 0 {
                    lemma_bytes_trichotomy(k1, k);
                    assert(false);
                }
                assert(t2[u - 1].0 == k && t2[u - 1].1.contains(v));
                assert(qm_has(t2, k, v));
            }
            if qm_has(t2, k, v) {
                let w = choose|w: int| 0 <= w < t2.len() && t2[w].0 == k && t2[w].1.contains(v);
                assert(q2[w + 1].0 == k && q2[w + 1].1.contains(v));
                assert(bytes_lt(k1, k));
                assert(qm_has(q2, k, v));
                assert(qm_has(q1, k, v));
                let u = choose|u: int| 0 <= u < q1.len() && q1[u].0 == k && q1[u].1.contains(v);
                if u == 0 {
                    lemma_bytes_trichotomy(k1, k);
                    assert(false);
                }
                assert(t1[u - 1].0 == k && t1[u - 1].1.contains(v));
                assert(qm_has(t1, k, v));
            }
        }
        lemma_query_map_canonical(t1, t2);
        assert(q1.len() == q2.len());
        assert forall|k: int| 0 <= k < q1.len() implies q1[k] == q2[k] by {
            if k > 0 {
                assert(q1[k] == t1[k - 1]);
                assert(q2[k] == t2[k - 1]);
            } else {
                assert(q1[0] == (k1, q1[0].1));
                assert(q2[0] == (k1, q1[0].1));
            }
        }
        assert(q1 =~= q2);
    }
}

/// Two requests differing only in header content or order, or in the
/// order of their query parameters, get equal default cache keys: the
/// default key never reads the headers, and a query's sorted map depends
/// only on which key/value pairs the query carries.
pub proof fn lemma_default_keys_agree(k1: KeyView, k2: KeyView)
    requires
        k1.method == k2.method,
        k1.path == k2.path,
        k1.scheme is None && k2.scheme is None,
        k1.host is None && k2.host is None,
        k1.port is None && k2.port is None,
        k1.media_type is None && k2.media_type is None,
        k1.languages is None && k2.languages is None,
        k1.extensions is None && k2.extensions is None,
        match (k1.query, k2.query) {
            (Some(m1), Some(m2)) => qm_wf(m1) && qm_wf(m2) && forall|k: Seq<u8>, v: Seq<u8>|
                qm_has(m1, k, v) == qm_has(m2, k, v),
            (None, None) => true,
            _ => false,
        },
    ensures
        k1 == k2,
{
    match (k1.query, k2.query) {
        (Some(m1), Some(m2)) => {
            lemma_query_map_canonical(m1, m2);
        }
        _ => {}
    }
}

} // verus!
