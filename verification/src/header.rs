//! HTTP header values, checked by the `http` crate that `reqwest` re-exports.

use vstd::prelude::*;

verus! {

/// The characters that an HTTP header value may hold: visible ASCII, the space and the
/// tab, and any character beyond ASCII (whose UTF-8 bytes are all at or above 0x80).
pub open spec fn header_char_ok(c: char) -> bool {
    (c as int >= 32 && c as int != 127) || c == '\t'
}

/// Whether `s` can be an HTTP header value.
pub open spec fn header_value_ok(s: Seq<char>) -> bool {
    forall|i: int| 0 <= i < s.len() ==> header_char_ok(#[trigger] s[i])
}

/// Checks `s` with `reqwest::header::HeaderValue::from_str`.
///
/// Trusted: by the source of `http` (its `is_valid`: a byte at or above 32 other than 127,
/// or a tab), the conversion succeeds exactly when every character qualifies, and its error
/// displays as `failed to parse header value`.
#[verifier::external_body]
pub(crate) fn check_header_value(s: &str) -> (r: Result<(), String>)
    ensures
        r is Ok <==> header_value_ok(s@),
        r matches Err(e) ==> e@ == "failed to parse header value"@,
{
    match reqwest::header::HeaderValue::from_str(s) {
        Ok(_) => Ok(()),
        Err(e) => Err(e.to_string()),
    }
}

} // verus!
