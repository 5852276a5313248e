//! Resolution of a route's textual HTTP method, compared case-insensitively
//! against the seven supported verbs; anything unrecognized falls back to GET.
use vstd::prelude::*;

verus! {

/// The HTTP methods a route may ask for.
#[derive(Clone, Copy, Debug, PartialEq, Eq, Structural)]
pub enum HttpMethod {
    Get,
    Post,
    Put,
    Delete,
    Patch,
    Head,
    Options,
}

/// True when `c` equals the upper-case ASCII character `u`, ignoring ASCII
/// case: either the characters agree, or `u` is an ASCII capital letter and
/// `c` is its lower-case form (code point 32 above).
pub open spec fn char_matches_upper(c: char, u: char) -> bool {
    c == u || ('A' <= u && u <= 'Z' && c as u32 == u as u32 + 32)
}

/// True when `s` spells the keyword `kw` (given in upper case) up to ASCII
/// case.
pub open spec fn spec_matches_keyword(s: Seq<char>, kw: Seq<char>) -> bool {
    s.len() == kw.len() && forall|i: int| 0 <= i < s.len() ==> char_matches_upper(s[i], kw[i])
}

/// The method a route's `method` field resolves to: one of the seven verbs,
/// matched ignoring ASCII case, and GET for everything else.
pub open spec fn spec_method_of(s: Seq<char>) -> HttpMethod {
    if spec_matches_keyword(s, "POST"@) {
        HttpMethod::Post
    } else if spec_matches_keyword(s, "PUT"@) {
        HttpMethod::Put
    } else if spec_matches_keyword(s, "DELETE"@) {
        HttpMethod::Delete
    } else if spec_matches_keyword(s, "PATCH"@) {
        HttpMethod::Patch
    } else if spec_matches_keyword(s, "HEAD"@) {
        HttpMethod::Head
    } else if spec_matches_keyword(s, "OPTIONS"@) {
        HttpMethod::Options
    } else {
        HttpMethod::Get
    }
}

/// Compares `s` against the upper-case keyword `kw`, ignoring ASCII case.
pub fn matches_keyword(s: &str, kw: &str) -> (r: bool)
    ensures
        r == spec_matches_keyword(s@, kw@),
{
    let n = s.unicode_len();
    if n != kw.unicode_len() {
        return false;
    }
    for i in 0..n
        invariant
            n == s@.len(),
            n == kw@.len(),
            forall|j: int| 0 <= j < i ==> char_matches_upper(s@[j], kw@[j]),
    {
        let c = s.get_char(i);
        let u = kw.get_char(i);
        let is_match = c == u || ('A' <= u && u <= 'Z' && c as u32 == u as u32 + 32);
        if !is_match {
            assert(!char_matches_upper(s@[i as int], kw@[i as int]));
            return false;
        }
    }
    true
}

/// Resolves a route's method string; unrecognized values default to GET.
pub fn method_of(s: &str) -> (r: HttpMethod)
    ensures
        r == spec_method_of(s@),
{
    if matches_keyword(s, "POST") {
        HttpMethod::Post
    } else if matches_keyword(s, "PUT") {
        HttpMethod::Put
    } else if matches_keyword(s, "DELETE") {
        HttpMethod::Delete
    } else if matches_keyword(s, "PATCH") {
        HttpMethod::Patch
    } else if matches_keyword(s, "HEAD") {
        HttpMethod::Head
    } else if matches_keyword(s, "OPTIONS") {
        HttpMethod::Options
    } else {
        HttpMethod::Get
    }
}

} // verus!
