//! Going online through an Iridium-Go satellite terminal.

pub mod config;

use vstd::prelude::*;
use crate::common::{GribError, GribErrorV};
use crate::iridium::config::{SoapRequest, UrlType, get_req, soap_view, spec_get_req};
use crate::noaa::config::{NOAA_IP, NOAA_PORT};

verus! {

/// The signal is strong enough to connect above 3 bars out of 5.
pub fn signal_sufficient(sig: usize) -> (b: bool)
    ensures
        b == (sig > 3),
{
    sig > 3
}

/// Where a connection stands after a status answer.
#[derive(Clone, Copy, Debug, PartialEq, Eq, Structural)]
pub enum LinkState {
    /// Step 4 of 4: the internet is reached.
    Linked,
    /// Step 0: the connection was broken.
    Broken,
    /// Steps 1 to 3: still connecting.
    Pending,
}

/// Where a connection stands, after its connection status.
pub fn link_state(conn: usize) -> (s: LinkState)
    ensures
        s == (if conn == 4 { LinkState::Linked } else if conn == 0 { LinkState::Broken } else { LinkState::Pending }),
{
    if conn == 4 {
        LinkState::Linked
    } else if conn == 0 {
        LinkState::Broken
    } else {
        LinkState::Pending
    }
}

/// The error of a broken connection.
pub fn broken_error() -> (e: GribError)
    ensures
        e@ == GribErrorV::Generic("Iridium connection was broken, wait a few seconds and try again"@),
{
    GribError::Generic(String::from_str("Iridium connection was broken, wait a few seconds and try again"))
}

/// After a wait, whether the connection has taken too long: more than two minutes since
/// the connection was asked for.
pub fn connection_timeout(elapsed_ms: u128) -> (r: Option<GribError>)
    ensures
        match r {
            Some(e) => elapsed_ms > 120000 && e@ == GribErrorV::Generic(
                "Too much time spent trying to establish an internet connexion via iridium, giving up"@,
            ),
            None => elapsed_ms <= 120000,
        },
{
    if elapsed_ms > 120000 {
        Some(GribError::Generic(String::from_str(
            "Too much time spent trying to establish an internet connexion via iridium, giving up",
        )))
    } else {
        None
    }
}

/// A closing connection is closed once its status is 0.
pub fn disconnected(conn: usize) -> (b: bool)
    ensures
        b == (conn == 0),
{
    conn == 0
}

/// The task that opens (`open`) or closes the firewall for the NOAA server.
pub fn firewall_task(open: bool) -> (r: Result<SoapRequest, GribError>)
    ensures
        spec_get_req(UrlType::PerformTask, Some((seq![(NOAA_IP.0, NOAA_IP.1, NOAA_IP.2, NOAA_IP.3, NOAA_PORT)], if open { 1int } else { 0int }))) == (match r {
            Ok(q) => Ok(soap_view(q)),
            Err(e) => Err(e@),
        }),
{
    let mut vs: Vec<(u8, u8, u8, u8, u16)> = Vec::new();
    vs.push((NOAA_IP.0, NOAA_IP.1, NOAA_IP.2, NOAA_IP.3, NOAA_PORT));
    assert(vs@ =~= seq![(NOAA_IP.0, NOAA_IP.1, NOAA_IP.2, NOAA_IP.3, NOAA_PORT)]);
    get_req(UrlType::PerformTask, Some((&vs, if open { 1 } else { 0 })))
}

/// The request that reads the status.
pub fn status_request() -> (r: Result<SoapRequest, GribError>)
    ensures
        spec_get_req(UrlType::GetStatus, None) == (match r {
            Ok(q) => Ok(soap_view(q)),
            Err(e) => Err(e@),
        }),
{
    get_req(UrlType::GetStatus, None)
}

} // verus!
