//! Small ASCII and decimal helpers over header bytes.

use vstd::prelude::*;

verus! {

/// ASCII lowercase of one byte.
pub open spec fn lower_byte(c: u8) -> u8 {
    if 0x41 <= c <= 0x5a {
        (c + 0x20) as u8
    } else {
        c
    }
}

/// ASCII lowercase of a byte sequence.
pub open spec fn lower_of(s: Seq<u8>) -> Seq<u8> {
    s.map_values(|c: u8| lower_byte(c))
}

/// ASCII lowercase of a byte vector.
pub fn to_lower(v: &Vec<u8>) -> (r: Vec<u8>)
    ensures
        r@ == lower_of(v@),
{
    let mut r: Vec<u8> = Vec::new();
    let mut i: usize = 0;
    while i < v.len()
        invariant
            i <= v@.len(),
            r@ == lower_of(v@.subrange(0, i as int)),
        decreases v@.len() - i,
    {
        let c = v[i];
        if 0x41 <= c && c <= 0x5a {
            r.push(c + 0x20);
        } else {
            r.push(c);
        }
        i = i + 1;
        assert(r@ =~= lower_of(v@.subrange(0, i as int)));
    }
    assert(v@.subrange(0, v@.len() as int) =~= v@);
    r
}

/// The byte is an ASCII decimal digit.
pub open spec fn is_digit(c: u8) -> bool {
    0x30 <= c <= 0x39
}

/// Every byte of the sequence is an ASCII decimal digit.
pub open spec fn all_digits(s: Seq<u8>) -> bool {
    forall|i: int| 0 <= i < s.len() ==> is_digit(#[trigger] s[i])
}

/// Value of one ASCII decimal digit; bytes that are not digits count as zero.
pub open spec fn digit_val(c: u8) -> nat {
    if is_digit(c) {
        (c - 0x30) as nat
    } else {
        0
    }
}

/// Value of a sequence of ASCII decimal digits, most significant first.
pub open spec fn digits_value(s: Seq<u8>) -> nat
    decreases s.len(),
{
    if s.len() == 0 {
        0
    } else {
        digits_value(s.drop_last()) * 10 + digit_val(s.last())
    }
}

/// Extending a digit string on the right cannot decrease its value.
proof fn lemma_digits_value_extend(s: Seq<u8>, t: Seq<u8>)
    ensures
        digits_value(s + t) >= digits_value(s),
    decreases t.len(),
{
    if t.len() == 0 {
        assert(s + t =~= s);
    } else {
        assert((s + t).drop_last() =~= s + t.drop_last());
        lemma_digits_value_extend(s, t.drop_last());
    }
}

/// The digit part of a decimal string: everything after an optional
/// leading `+`.
pub open spec fn digits_part(s: Seq<u8>) -> Seq<u8> {
    if s.len() > 0 && s[0] == 0x2b {
        s.drop_first()
    } else {
        s
    }
}

/// What `usize::from_str` accepts: an optional leading `+`, then at least
/// one digit, and a value that fits in `usize`.
pub open spec fn parse_usize_spec(s: Seq<u8>) -> Option<usize> {
    if digits_part(s).len() > 0 && all_digits(digits_part(s)) && digits_value(digits_part(s))
        <= usize::MAX {
        Some(digits_value(digits_part(s)) as usize)
    } else {
        None
    }
}

/// Parse an ASCII decimal `usize`, exactly as `usize::from_str` would:
/// an optional leading `+`, then one or more digits, rejecting overflow.
pub fn parse_usize(v: &Vec<u8>) -> (r: Option<usize>)
    ensures
        r == parse_usize_spec(v@),
{
    let ghost full: Seq<u8> = v@;
    let mut start: usize = 0;
    if v.len() > 0 && v[0] == 0x2b {
        start = 1;
    }
    let ghost ds: Seq<u8> = digits_part(full);
    assert(ds =~= full.subrange(start as int, full.len() as int));
    if start >= v.len() {
        assert(ds.len() == 0);
        return None;
    }
    let mut acc: usize = 0;
    let mut i: usize = start;
    while i < v.len()
        invariant
            start <= i <= full.len(),
            full == v@,
            ds == digits_part(full),
            ds == full.subrange(start as int, full.len() as int),
            all_digits(full.subrange(start as int, i as int)),
            acc == digits_value(full.subrange(start as int, i as int)),
        decreases full.len() - i,
    {
        let c = v[i];
        if c < 0x30 || c > 0x39 {
            proof {
                assert(0 <= i - start < ds.len());
                assert(ds[i as int - start as int] == full[i as int]);
                assert(!all_digits(ds));
            }
            return None;
        }
        let d: usize = (c - 0x30) as usize;
        let ghost pre = full.subrange(start as int, i as int);
        let ghost post = full.subrange(start as int, i as int + 1);
        assert(post.drop_last() =~= pre);
        assert(post.last() == full[i as int]);
        assert(digits_value(post) == digits_value(pre) * 10 + digit_val(full[i as int]));
        let overflowed: bool = match acc.checked_mul(10) {
            Some(m) => match m.checked_add(d) {
                Some(n) => {
                    acc = n;
                    false
                }
                None => true,
            },
            None => true,
        };
        if overflowed {
            proof {
                assert(digits_value(post) > usize::MAX);
                let rest = full.subrange(i as int + 1, full.len() as int);
                assert(ds =~= post + rest);
                lemma_digits_value_extend(post, rest);
                assert(digits_value(ds) > usize::MAX);
            }
            return None;
        }
        i = i + 1;
    }
    assert(full.subrange(start as int, full.len() as int) =~= ds);
    Some(acc)
}

/// Decimal representation of a number, most significant digit first, no
/// leading zeros.
pub open spec fn dec_repr(n: nat) -> Seq<u8>
    decreases n,
{
    if n < 10 {
        seq![(0x30 + n) as u8]
    } else {
        dec_repr(n / 10).push((0x30 + n % 10) as u8)
    }
}

/// Format a number in decimal ASCII.
pub fn format_usize(n: usize) -> (r: Vec<u8>)
    ensures
        r@ == dec_repr(n as nat),
    decreases n,
{
    if n < 10 {
        let mut r: Vec<u8> = Vec::new();
        r.push(0x30 + (n as u8));
        proof {
            assert(r@ =~= dec_repr(n as nat));
        }
        r
    } else {
        assert(n / 10 < n) by {
            assert(n / 10 <= n / 10);
            assert(10 * (n / 10) <= n) by (nonlinear_arith)
                requires
                    n >= 10,
            ;
        }
        let mut r = format_usize(n / 10);
        r.push(0x30 + ((n % 10) as u8));
        r
    }
}

} // verus!
