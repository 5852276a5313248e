//! Request-header sanitization: a route's configured headers are applied
//! only where name and value can be encoded as a valid HTTP header; the
//! rest are dropped individually, keeping the others.
use vstd::prelude::*;

use crate::route::Header;

verus! {

/// Whether `reqwest::header::HeaderName::from_bytes` accepts these
/// characters as a header name. The exact character table is the HTTP
/// token rules of that crate; it depends on the characters alone.
pub uninterp spec fn header_name_ok(name: Seq<char>) -> bool;

/// Whether `reqwest::header::HeaderValue::from_str` accepts these
/// characters as a header value; it depends on the characters alone.
pub uninterp spec fn header_value_ok(value: Seq<char>) -> bool;

/// Relies on `reqwest::header::HeaderName::from_bytes`: it accepts or
/// rejects a name by its bytes alone, so the outcome names the validity
/// of the characters.
#[verifier::external_body]
fn header_name_valid(name: &str) -> (r: bool)
    ensures
        r == header_name_ok(name@),
{
    match reqwest::header::HeaderName::from_bytes(name.as_bytes()) {
        Ok(_) => true,
        Err(_) => false,
    }
}

/// Relies on `reqwest::header::HeaderValue::from_str`: it accepts or
/// rejects a value by its characters alone, so the outcome names the
/// validity of the characters.
#[verifier::external_body]
fn header_value_valid(value: &str) -> (r: bool)
    ensures
        r == header_value_ok(value@),
{
    match reqwest::header::HeaderValue::from_str(value) {
        Ok(_) => true,
        Err(_) => false,
    }
}

/// True when the header may be applied to a request.
pub open spec fn spec_header_ok(h: Header) -> bool {
    header_name_ok(h.name@) && header_value_ok(h.value@)
}

/// The headers that survive sanitization, in their original order.
pub open spec fn spec_sanitized(hs: Seq<Header>) -> Seq<Header>
    decreases hs.len(),
{
    if hs.len() == 0 {
        Seq::empty()
    } else {
        let rest = spec_sanitized(hs.drop_last());
        if spec_header_ok(hs.last()) {
            rest.push(hs.last())
        } else {
            rest
        }
    }
}

/// Keeps exactly the headers whose name and value can be encoded as a
/// valid HTTP header, in order; malformed entries are dropped one by one.
pub fn sanitize_headers(hs: &Vec<Header>) -> (r: Vec<Header>)
    ensures
        r@ == spec_sanitized(hs@),
{
    let mut r: Vec<Header> = Vec::new();
    for i in 0..hs.len()
        invariant
            r@ == spec_sanitized(hs@.take(i as int)),
    {
        let h = &hs[i];
        proof {
            assert(hs@.take(i + 1).drop_last() =~= hs@.take(i as int));
            assert(hs@.take(i + 1).last() == hs@[i as int]);
        }
        if header_name_valid(h.name.as_str()) && header_value_valid(h.value.as_str()) {
            r.push(h.clone());
        }
    }
    proof {
        assert(hs@.take(hs@.len() as int) =~= hs@);
    }
    r
}

} // verus!
