//! Durations and HTTP dates, reached through trusted wrappers.

use vstd::prelude::*;

verus! {

/// What parsing a human-readable duration returns for the given bytes:
/// the duration in milliseconds when the bytes parse, capped at `u64::MAX`.
pub uninterp spec fn duration_millis_of(s: Seq<u8>) -> Option<u64>;

/// Relies on `duration_str::parse`: the result is a function of the bytes
/// alone; malformed input gives nothing.
#[verifier::external_body]
pub fn parse_duration_millis(v: &Vec<u8>) -> (r: Option<u64>)
    ensures
        r == duration_millis_of(v@),
{
    match std::str::from_utf8(v.as_slice()) {
        Ok(s) => match duration_str::parse(s) {
            Ok(d) => Some(u64::try_from(d.as_millis()).unwrap_or(u64::MAX)),
            Err(_) => None,
        },
        Err(_) => None,
    }
}

/// What parsing an HTTP date returns for the given bytes: seconds since
/// the Unix epoch when the bytes are a well-formed date.
pub uninterp spec fn http_date_secs_of(s: Seq<u8>) -> Option<u64>;

/// Relies on `httpdate::parse_http_date`: the result is a function of the
/// bytes alone; malformed input gives nothing.
#[verifier::external_body]
pub fn parse_http_date(v: &Vec<u8>) -> (r: Option<u64>)
    ensures
        r == http_date_secs_of(v@),
{
    match std::str::from_utf8(v.as_slice()) {
        Ok(s) => match httpdate::parse_http_date(s) {
            Ok(t) => match t.duration_since(std::time::UNIX_EPOCH) {
                Ok(d) => Some(d.as_secs()),
                Err(_) => None,
            },
            Err(_) => None,
        },
        Err(_) => None,
    }
}

/// Relies on `httpdate::fmt_http_date` over the wall clock: whatever
/// instant it is, the formatted date parses back as an HTTP date.
#[verifier::external_body]
pub fn http_date_now() -> (r: Vec<u8>)
    ensures
        http_date_secs_of(r@) is Some,
{
    httpdate::fmt_http_date(std::time::SystemTime::now()).into_bytes()
}

} // verus!
