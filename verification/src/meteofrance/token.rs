//! The authorization headers of the Météo-France API.

use vstd::prelude::*;
use crate::common::{GribError, GribErrorV, text_result};
use crate::header::{check_header_value, header_value_ok};

verus! {

/// The header that asks for a token: `Basic <secret>`; an error when the secret cannot
/// stand in a header.
pub fn basic_auth(secret: &str) -> (r: Result<String, GribError>)
    ensures
        text_result(r) == (if header_value_ok("Basic "@ + secret@) {
            Ok::<Seq<char>, GribErrorV>("Basic "@ + secret@)
        } else {
            Err(GribErrorV::InvalidConf(
                "The arome AppId provided is not a valid Bearer token, please provide a correct one: failed to parse header value"@,
            ))
        }),
{
    let mut h = String::from_str("Basic ");
    h.append(secret);
    match check_header_value(h.as_str()) {
        Ok(()) => Ok(h),
        Err(e) => {
            let mut msg = String::from_str(
                "The arome AppId provided is not a valid Bearer token, please provide a correct one: ",
            );
            msg.append(e.as_str());
            assert(msg@ =~= "The arome AppId provided is not a valid Bearer token, please provide a correct one: "@ + "failed to parse header value"@);
            proof {
                reveal_strlit("The arome AppId provided is not a valid Bearer token, please provide a correct one: ");
                reveal_strlit("failed to parse header value");
                reveal_strlit("The arome AppId provided is not a valid Bearer token, please provide a correct one: failed to parse header value");
            }
            assert(msg@ =~= "The arome AppId provided is not a valid Bearer token, please provide a correct one: failed to parse header value"@);
            Err(GribError::InvalidConf(msg))
        },
    }
}

/// The header that authorizes the downloads: `Bearer <token>`.
pub fn bearer_auth(token: &str) -> (r: Result<String, GribError>)
    ensures
        text_result(r) == (if header_value_ok("Bearer "@ + token@) {
            Ok::<Seq<char>, GribErrorV>("Bearer "@ + token@)
        } else {
            Err(GribErrorV::InvalidHeaderValue)
        }),
{
    let mut h = String::from_str("Bearer ");
    h.append(token);
    match check_header_value(h.as_str()) {
        Ok(()) => Ok(h),
        Err(_) => Err(GribError::InvalidHeaderValue),
    }
}

} // verus!
