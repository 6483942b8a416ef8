//! `Accept-Encoding` parsing and content negotiation.
//!
//! A header value is a comma-separated list of entries, each a coding
//! token or `*`, optionally weighted by a `q` value with up to three
//! decimals. Negotiation picks the client's most preferred entry among the
//! server's enabled encodings, breaking ties by the server's order.

use vstd::prelude::*;

use crate::ascii::{all_digits, digit_val, is_digit, lower_of};
use crate::codec::copy_bytes;
use crate::encoding::Encoding;
use vstd::std_specs::cmp::PartialEqSpec;

verus! {

/// One parsed `Accept-Encoding` entry: a specific coding or `*`.
#[derive(Clone, Copy, Debug, PartialEq, Eq, Structural)]
pub enum AcceptSelector {
    /// `*`: any coding.
    Any,
    /// A specific coding.
    Coding(Encoding),
}

/// A parsed preference: selector and weight in thousandths.
pub type Preference = (AcceptSelector, u16);

/// A byte is ASCII space or horizontal tab, the whitespace that can occur
/// inside a header value.
pub open spec fn is_ws(b: u8) -> bool {
    b == 0x20 || b == 0x09
}

/// The sequence with leading whitespace dropped.
pub open spec fn trim_front(s: Seq<u8>) -> Seq<u8>
    decreases s.len(),
{
    if s.len() > 0 && is_ws(s[0]) {
        trim_front(s.drop_first())
    } else {
        s
    }
}

/// The sequence with trailing whitespace dropped.
pub open spec fn trim_back(s: Seq<u8>) -> Seq<u8>
    decreases s.len(),
{
    if s.len() > 0 && is_ws(s.last()) {
        trim_back(s.drop_last())
    } else {
        s
    }
}

/// The sequence with whitespace dropped on both sides.
pub open spec fn spec_trim(s: Seq<u8>) -> Seq<u8> {
    trim_back(trim_front(s))
}

/// A run of leading whitespace ends exactly where trimming says.
proof fn lemma_trim_front_at(s: Seq<u8>, i: int)
    requires
        0 <= i <= s.len(),
        forall|k: int| 0 <= k < i ==> is_ws(s[k]),
        i == s.len() || !is_ws(s[i]),
    ensures
        trim_front(s) == s.subrange(i, s.len() as int),
    decreases i,
{
    if i == 0 {
        assert(s.subrange(0, s.len() as int) =~= s);
    } else {
        let d = s.drop_first();
        assert(forall|k: int| 0 <= k < i - 1 ==> is_ws(#[trigger] d[k]));
        lemma_trim_front_at(d, i - 1);
        assert(d.subrange(i - 1, d.len() as int) =~= s.subrange(i, s.len() as int));
    }
}

/// A run of trailing whitespace starts exactly where trimming says.
proof fn lemma_trim_back_at(s: Seq<u8>, i: int)
    requires
        0 <= i <= s.len(),
        forall|k: int| i <= k < s.len() ==> is_ws(s[k]),
        i == 0 || !is_ws(s[i - 1]),
    ensures
        trim_back(s) == s.subrange(0, i),
    decreases s.len(),
{
    if i == s.len() {
        if s.len() > 0 && is_ws(s.last()) {
            assert(!is_ws(s[i - 1]));
            assert(false);
        }
        assert(s.subrange(0, s.len() as int) =~= s);
    } else {
        let d = s.drop_last();
        assert(forall|k: int| i <= k < d.len() ==> is_ws(#[trigger] d[k]));
        lemma_trim_back_at(d, i);
        assert(d.subrange(0, i) =~= s.subrange(0, i));
    }
}

/// Copy a range of bytes.
pub fn copy_range(v: &Vec<u8>, a: usize, b: usize) -> (r: Vec<u8>)
    requires
        a <= b <= v@.len(),
    ensures
        r@ == v@.subrange(a as int, b as int),
{
    let mut r: Vec<u8> = Vec::new();
    let mut i: usize = a;
    while i < b
        invariant
            a <= i <= b <= v@.len(),
            r@ == v@.subrange(a as int, i as int),
        decreases b - i,
    {
        r.push(v[i]);
        i = i + 1;
        assert(r@ =~= v@.subrange(a as int, i as int));
    }
    r
}

/// Trim ASCII whitespace from both ends.
pub fn trim_bytes(v: &Vec<u8>) -> (r: Vec<u8>)
    ensures
        r@ == spec_trim(v@),
{
    let ghost s = v@;
    let mut start: usize = 0;
    while start < v.len() && (v[start] == 0x20 || v[start] == 0x09)
        invariant
            start <= s.len(),
            s == v@,
            forall|k: int| 0 <= k < start ==> is_ws(s[k]),
        decreases s.len() - start,
    {
        start = start + 1;
    }
    proof {
        lemma_trim_front_at(s, start as int);
    }
    let ghost f = trim_front(s);
    let mut end: usize = v.len();
    while end > start && (v[end - 1] == 0x20 || v[end - 1] == 0x09)
        invariant
            start <= end <= s.len(),
            s == v@,
            f == s.subrange(start as int, s.len() as int),
            forall|k: int| end <= k < s.len() ==> is_ws(s[k]),
        decreases end,
    {
        end = end - 1;
    }
    proof {
        assert(forall|k: int| end - start <= k < f.len() ==> is_ws(#[trigger] f[k]));
        lemma_trim_back_at(f, end - start as int);
        assert(f.subrange(0, end - start as int) =~= s.subrange(start as int, end as int));
    }
    copy_range(v, start, end)
}

/// The index of the first occurrence of a byte, or the length when absent.
pub open spec fn first_idx(s: Seq<u8>, b: u8) -> int
    decreases s.len(),
{
    if s.len() == 0 {
        0
    } else if s[0] == b {
        0
    } else {
        1 + first_idx(s.drop_first(), b)
    }
}

/// The first occurrence index is within bounds.
pub proof fn lemma_first_idx_bounds(s: Seq<u8>, b: u8)
    ensures
        0 <= first_idx(s, b) <= s.len(),
    decreases s.len(),
{
    if s.len() > 0 && s[0] != b {
        lemma_first_idx_bounds(s.drop_first(), b);
    }
}

/// A position with no earlier occurrence is the first occurrence.
pub proof fn lemma_first_idx_at(s: Seq<u8>, b: u8, i: int)
    requires
        0 <= i <= s.len(),
        forall|k: int| 0 <= k < i ==> s[k] != b,
        i == s.len() || s[i] == b,
    ensures
        first_idx(s, b) == i,
    decreases i,
{
    if i == 0 {
    } else {
        let d = s.drop_first();
        assert(forall|k: int| 0 <= k < i - 1 ==> #[trigger] d[k] != b);
        lemma_first_idx_at(d, b, i - 1);
    }
}

/// The value of a `q` weight: `q=` then `0` or `1`, optionally a dot and
/// up to three decimal digits, in thousandths, at most one thousand.
pub open spec fn weight_parse(s: Seq<u8>) -> Option<u16> {
    if s.len() >= 3 && (s[0] == 0x71 || s[0] == 0x51) && s[1] == 0x3d && (s[2] == 0x30 || s[2]
        == 0x31) {
        let lead: u16 = if s[2] == 0x30 {
            0
        } else {
            1000
        };
        if s.len() == 3 {
            Some(lead)
        } else if s[3] != 0x2e {
            None
        } else {
            let ds = s.subrange(4, s.len() as int);
            if ds.len() <= 3 && all_digits(ds) {
                let val = lead + frac_val(ds);
                if val <= 1000 {
                    Some(val as u16)
                } else {
                    None
                }
            } else {
                None
            }
        }
    } else {
        None
    }
}

/// Value of up to three fraction digits, in thousandths.
pub open spec fn frac_val(ds: Seq<u8>) -> nat {
    (if ds.len() > 0 {
        digit_val(ds[0]) * 100
    } else {
        0nat
    }) + (if ds.len() > 1 {
        digit_val(ds[1]) * 10
    } else {
        0nat
    }) + (if ds.len() > 2 {
        digit_val(ds[2])
    } else {
        0nat
    })
}

/// Parse a `q` weight.
pub fn parse_weight(v: &Vec<u8>) -> (r: Option<u16>)
    ensures
        r == weight_parse(v@),
{
    let n = v.len();
    if !(n >= 3 && (v[0] == 0x71 || v[0] == 0x51) && v[1] == 0x3d && (v[2] == 0x30 || v[2]
        == 0x31)) {
        return None;
    }
    let lead: u16 = if v[2] == 0x30 {
        0
    } else {
        1000
    };
    if n == 3 {
        return Some(lead);
    }
    if v[3] != 0x2e {
        return None;
    }
    let ghost ds = v@.subrange(4, n as int);
    if n > 7 {
        return None;
    }
    let mut val: u16 = lead;
    let mut i: usize = 4;
    let mut factor: u16 = 100;
    while i < n
        invariant
            4 <= i <= n,
            n == v@.len(),
            n <= 7,
            ds == v@.subrange(4, n as int),
            all_digits(ds.subrange(0, i - 4)),
            i == 4 ==> factor == 100,
            i == 5 ==> factor == 10,
            i == 6 ==> factor == 1,
            val == lead + (if i > 4 {
                digit_val(ds[0]) * 100
            } else {
                0nat
            }) + (if i > 5 {
                digit_val(ds[1]) * 10
            } else {
                0nat
            }) + (if i > 6 {
                digit_val(ds[2])
            } else {
                0nat
            }),
            lead == 0 || lead == 1000,
        decreases n - i,
    {
        let c = v[i];
        if c < 0x30 || c > 0x39 {
            proof {
                assert(ds[i - 4] == v@[i as int]);
                assert(!all_digits(ds));
            }
            return None;
        }
        proof {
            assert(ds[i - 4] == v@[i as int]);
            assert(is_digit(ds[i - 4]));
        }
        let d: u16 = (c - 0x30) as u16;
        val = val + factor * d;
        if i > 4 {
            factor = factor / 10;
        } else {
            factor = 10;
        }
        i = i + 1;
        proof {
            assert(all_digits(ds.subrange(0, i - 4)));
        }
    }
    proof {
        assert(ds.subrange(0, n - 4) =~= ds);
    }
    if val <= 1000 {
        Some(val)
    } else {
        None
    }
}

/// `*` as bytes.
pub open spec fn star_seq() -> Seq<u8> {
    seq![0x2au8]
}

/// The selector of one entry: `*`, or a coding token matched
/// case-insensitively; anything else is malformed.
pub open spec fn sel_parse(t: Seq<u8>) -> Option<AcceptSelector> {
    if t == star_seq() {
        Some(AcceptSelector::Any)
    } else if lower_of(t) == Encoding::Identity.spec_token() {
        Some(AcceptSelector::Coding(Encoding::Identity))
    } else if lower_of(t) == Encoding::Brotli.spec_token() {
        Some(AcceptSelector::Coding(Encoding::Brotli))
    } else if lower_of(t) == Encoding::Deflate.spec_token() {
        Some(AcceptSelector::Coding(Encoding::Deflate))
    } else if lower_of(t) == Encoding::GZip.spec_token() {
        Some(AcceptSelector::Coding(Encoding::GZip))
    } else if lower_of(t) == Encoding::Zstandard.spec_token() {
        Some(AcceptSelector::Coding(Encoding::Zstandard))
    } else {
        None
    }
}

/// Whether the bytes equal the token of `c`.
fn token_eq(v: &Vec<u8>, c: Encoding) -> (r: bool)
    ensures
        r == (v@ == c.spec_token()),
{
    let t = c.token();
    let r = *v == t;
    proof {
        if r {
            assert(v@ =~= t@);
        } else {
            if v@ == c.spec_token() {
                assert(v.eq_spec(&t));
                assert(false);
            }
        }
    }
    r
}

/// Parse the selector of one entry.
fn parse_selector(t: &Vec<u8>) -> (r: Option<AcceptSelector>)
    ensures
        r == sel_parse(t@),
{
    if t.len() == 1 && t[0] == 0x2a {
        proof {
            assert(t@ =~= star_seq());
        }
        return Some(AcceptSelector::Any);
    }
    proof {
        if t@ == star_seq() {
            assert(t@.len() == 1 && t@[0] == 0x2a);
            assert(false);
        }
    }
    let lv = crate::ascii::to_lower(t);
    if token_eq(&lv, Encoding::Identity) {
        Some(AcceptSelector::Coding(Encoding::Identity))
    } else if token_eq(&lv, Encoding::Brotli) {
        Some(AcceptSelector::Coding(Encoding::Brotli))
    } else if token_eq(&lv, Encoding::Deflate) {
        Some(AcceptSelector::Coding(Encoding::Deflate))
    } else if token_eq(&lv, Encoding::GZip) {
        Some(AcceptSelector::Coding(Encoding::GZip))
    } else if token_eq(&lv, Encoding::Zstandard) {
        Some(AcceptSelector::Coding(Encoding::Zstandard))
    } else {
        None
    }
}

/// One comma-separated entry parsed: selector before any `;`, weight after
/// it, a missing weight reading as one thousand. A malformed selector or
/// weight drops the entry.
pub open spec fn piece_pref(s: Seq<u8>) -> Option<Preference> {
    let si = first_idx(s, 0x3b);
    let sel = sel_parse(spec_trim(s.subrange(0, si)));
    let w = if si == s.len() {
        Some(1000u16)
    } else {
        weight_parse(spec_trim(s.subrange(si + 1, s.len() as int)))
    };
    match (sel, w) {
        (Some(sl), Some(wt)) => Some((sl, wt)),
        _ => None,
    }
}

/// Parse one entry.
fn parse_piece(piece: &Vec<u8>) -> (r: Option<Preference>)
    ensures
        r == piece_pref(piece@),
{
    let ghost s = piece@;
    let n = piece.len();
    let mut si: usize = 0;
    while si < n && piece[si] != 0x3b
        invariant
            si <= n,
            n == s.len(),
            s == piece@,
            forall|k: int| 0 <= k < si ==> s[k] != 0x3b,
        decreases n - si,
    {
        si = si + 1;
    }
    proof {
        lemma_first_idx_at(s, 0x3b, si as int);
    }
    let sel_raw = copy_range(piece, 0, si);
    let sel_t = trim_bytes(&sel_raw);
    let sel = parse_selector(&sel_t);
    let w: Option<u16> = if si == n {
        Some(1000)
    } else {
        let w_raw = copy_range(piece, si + 1, n);
        let w_t = trim_bytes(&w_raw);
        parse_weight(&w_t)
    };
    match (sel, w) {
        (Some(sl), Some(wt)) => Some((sl, wt)),
        _ => None,
    }
}

/// All preferences of one header value, in order, malformed entries
/// dropped.
pub open spec fn value_prefs(s: Seq<u8>) -> Seq<Preference>
    decreases s.len(),
    via value_prefs_decreases
{
    let i = first_idx(s, 0x2c);
    let piece = s.subrange(0, i);
    let head = match piece_pref(piece) {
        Some(p) => seq![p],
        None => Seq::<Preference>::empty(),
    };
    if i == s.len() {
        head
    } else {
        head + value_prefs(s.subrange(i + 1, s.len() as int))
    }
}

#[via_fn]
proof fn value_prefs_decreases(s: Seq<u8>) {
    lemma_first_idx_bounds(s, 0x2c);
}

/// Parse the entries of one header value, starting at a position.
fn parse_value_from(v: &Vec<u8>, pos: usize) -> (r: Vec<Preference>)
    requires
        pos <= v@.len(),
    ensures
        r@ == value_prefs(v@.subrange(pos as int, v@.len() as int)),
    decreases v@.len() - pos,
{
    let ghost suffix = v@.subrange(pos as int, v@.len() as int);
    let n = v.len();
    let mut j: usize = pos;
    while j < n && v[j] != 0x2c
        invariant
            pos <= j <= n,
            n == v@.len(),
            forall|k: int| pos <= k < j ==> v@[k] != 0x2c,
        decreases n - j,
    {
        j = j + 1;
    }
    proof {
        assert(forall|k: int| 0 <= k < j - pos ==> #[trigger] suffix[k] != 0x2c);
        lemma_first_idx_at(suffix, 0x2c, j - pos as int);
    }
    let piece = copy_range(v, pos, j);
    proof {
        assert(piece@ =~= suffix.subrange(0, j - pos as int));
    }
    let p = parse_piece(&piece);
    let mut out: Vec<Preference> = Vec::new();
    match p {
        Some(pp) => {
            out.push(pp);
        }
        None => {}
    }
    if j == n {
        proof {
            assert(out@ =~= value_prefs(suffix));
        }
        out
    } else {
        let mut rest = parse_value_from(v, j + 1);
        proof {
            assert(rest@ == value_prefs(v@.subrange(j + 1, n as int)));
            assert(suffix.subrange(j - pos as int + 1, suffix.len() as int) =~= v@.subrange(
                j + 1,
                n as int,
            ));
        }
        out.append(&mut rest);
        proof {
            assert(out@ =~= value_prefs(suffix));
        }
        out
    }
}

/// Parse one header value.
pub fn parse_accept_encoding(v: &Vec<u8>) -> (r: Vec<Preference>)
    ensures
        r@ == value_prefs(v@),
{
    let r = parse_value_from(v, 0);
    proof {
        assert(v@.subrange(0, v@.len() as int) =~= v@);
    }
    r
}

/// The preferences of a list of header values, concatenated in order.
pub open spec fn prefs_of_values(vs: Seq<Seq<u8>>) -> Seq<Preference>
    decreases vs.len(),
{
    if vs.len() == 0 {
        Seq::<Preference>::empty()
    } else {
        value_prefs(vs[0]) + prefs_of_values(vs.drop_first())
    }
}

/// Whether a selector accepts an encoding.
pub open spec fn sel_matches(sel: AcceptSelector, e: Encoding) -> bool {
    match sel {
        AcceptSelector::Any => true,
        AcceptSelector::Coding(d) => d == e,
    }
}

/// Whether a preference selects anything among the allowances.
pub open spec fn pref_matches(p: Preference, allow: Seq<Encoding>) -> bool {
    exists|j: int| 0 <= j < allow.len() && sel_matches(p.0, #[trigger] allow[j])
}

/// The greatest weight among preferences that select something.
pub open spec fn max_matching_weight(prefs: Seq<Preference>, allow: Seq<Encoding>) -> Option<u16>
    decreases prefs.len(),
{
    if prefs.len() == 0 {
        None
    } else {
        let rest = max_matching_weight(prefs.drop_first(), allow);
        if pref_matches(prefs[0], allow) {
            match rest {
                None => Some(prefs[0].1),
                Some(w) => if prefs[0].1 > w {
                    Some(prefs[0].1)
                } else {
                    Some(w)
                },
            }
        } else {
            rest
        }
    }
}

/// An encoding some preference of the greatest weight selects.
pub open spec fn is_candidate(e: Encoding, prefs: Seq<Preference>, w: u16) -> bool {
    exists|i: int|
        0 <= i < prefs.len() && (#[trigger] prefs[i]).1 == w && sel_matches(prefs[i].0, e)
}

/// The first allowance that is a candidate at weight `w`.
pub open spec fn first_candidate(prefs: Seq<Preference>, allow: Seq<Encoding>, w: u16) -> Option<
    Encoding,
>
    decreases allow.len(),
{
    if allow.len() == 0 {
        None
    } else if is_candidate(allow[0], prefs, w) {
        Some(allow[0])
    } else {
        first_candidate(prefs, allow.drop_first(), w)
    }
}

/// The negotiated encoding: among the allowances, the one selected by the
/// client's heaviest applicable preferences, ties broken by the order of
/// the allowances; nothing when no preference selects anything.
pub open spec fn spec_best(prefs: Seq<Preference>, allow: Seq<Encoding>) -> Option<Encoding> {
    match max_matching_weight(prefs, allow) {
        None => None,
        Some(w) => first_candidate(prefs, allow, w),
    }
}

/// Whether a preference selects anything among the allowances.
fn pref_matches_exec(p: &Preference, allow: &Vec<Encoding>) -> (r: bool)
    ensures
        r == pref_matches(*p, allow@),
{
    match p.0 {
        AcceptSelector::Any => {
            if allow.len() > 0 {
                proof {
                    assert(sel_matches(p.0, allow@[0]));
                }
                true
            } else {
                false
            }
        }
        AcceptSelector::Coding(d) => {
            let mut i: usize = 0;
            while i < allow.len()
                invariant
                    i <= allow@.len(),
                    p.0 == AcceptSelector::Coding(d),
                    forall|k: int| 0 <= k < i ==> !sel_matches(p.0, #[trigger] allow@[k]),
                decreases allow@.len() - i,
            {
                if allow[i] == d {
                    proof {
                        assert(sel_matches(p.0, allow@[i as int]));
                    }
                    return true;
                }
                i = i + 1;
            }
            false
        }
    }
}

/// The greatest weight among preferences that select something.
fn max_matching_weight_exec(prefs: &Vec<Preference>, allow: &Vec<Encoding>) -> (r: Option<u16>)
    ensures
        r == max_matching_weight(prefs@, allow@),
{
    let ghost s = prefs@;
    let mut best: Option<u16> = None;
    let mut i: usize = prefs.len();
    while i > 0
        invariant
            i <= s.len(),
            s == prefs@,
            best == max_matching_weight(s.subrange(i as int, s.len() as int), allow@),
        decreases i,
    {
        i = i - 1;
        let ghost suf = s.subrange(i as int, s.len() as int);
        proof {
            assert(suf[0] == s[i as int]);
            assert(suf.drop_first() =~= s.subrange(i as int + 1, s.len() as int));
        }
        let p = prefs[i];
        if pref_matches_exec(&p, allow) {
            best = match best {
                None => Some(p.1),
                Some(w) => if p.1 > w {
                    Some(p.1)
                } else {
                    Some(w)
                },
            };
        }
    }
    proof {
        assert(s.subrange(0, s.len() as int) =~= s);
    }
    best
}

/// Whether some preference of weight `w` selects `e`.
fn is_candidate_exec(e: Encoding, prefs: &Vec<Preference>, w: u16) -> (r: bool)
    ensures
        r == is_candidate(e, prefs@, w),
{
    let mut i: usize = 0;
    while i < prefs.len()
        invariant
            i <= prefs@.len(),
            forall|k: int|
                0 <= k < i ==> !((#[trigger] prefs@[k]).1 == w && sel_matches(prefs@[k].0, e)),
        decreases prefs@.len() - i,
    {
        let p = prefs[i];
        if p.1 == w {
            let hit = match p.0 {
                AcceptSelector::Any => true,
                AcceptSelector::Coding(d) => d == e,
            };
            if hit {
                proof {
                    assert(prefs@[i as int].1 == w && sel_matches(prefs@[i as int].0, e));
                }
                return true;
            }
        }
        i = i + 1;
    }
    false
}

/// Select the most preferred allowance; ties go by allowance order.
pub fn best(prefs: &Vec<Preference>, allow: &Vec<Encoding>) -> (r: Option<Encoding>)
    ensures
        r == spec_best(prefs@, allow@),
{
    let w = match max_matching_weight_exec(prefs, allow) {
        None => {
            return None;
        }
        Some(w) => w,
    };
    let ghost a = allow@;
    proof {
        assert(a.subrange(0, a.len() as int) =~= a);
    }
    let mut j: usize = 0;
    while j < allow.len()
        invariant
            j <= a.len(),
            a == allow@,
            max_matching_weight(prefs@, allow@) == Some(w),
            first_candidate(prefs@, a, w) == first_candidate(
                prefs@,
                a.subrange(j as int, a.len() as int),
                w,
            ),
        decreases a.len() - j,
    {
        let ghost suf = a.subrange(j as int, a.len() as int);
        proof {
            assert(suf[0] == a[j as int]);
            assert(suf.drop_first() =~= a.subrange(j as int + 1, a.len() as int));
        }
        if is_candidate_exec(allow[j], prefs, w) {
            return Some(allow[j]);
        }
        j = j + 1;
    }
    proof {
        assert(a.subrange(a.len() as int, a.len() as int).len() == 0);
        assert(a.subrange(0, a.len() as int) =~= a);
    }
    None
}

} // verus!
