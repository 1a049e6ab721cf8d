use vstd::prelude::*;

use crate::filters::{all_admit, LoadFilter};

verus! {

/// Tunneling protocol spoken by a relay.
#[derive(Clone, Copy, Debug, PartialEq, Eq, Structural)]
pub enum Protocol {
    OpenVPN,
    WireGuard,
}

impl Protocol {
    /// Human-readable name of the protocol.
    pub fn label(&self) -> (r: String)
        ensures
            *self is OpenVPN ==> r@ == "OpenVPN"@,
            *self is WireGuard ==> r@ == "WireGuard"@,
    {
        match self {
            Protocol::OpenVPN => "OpenVPN".to_owned(),
            Protocol::WireGuard => "WireGuard".to_owned(),
        }
    }
}

/// One candidate probing target, as produced by the catalog loader.
///
/// The record is read-only once constructed.  `distance` is the
/// great-circle distance from the operator's position, precomputed at load
/// time and stored in millimeters.
#[derive(Clone, Debug)]
pub struct Relay {
    pub ip: String,
    pub city: String,
    pub country: String,
    pub protocol: Protocol,
    pub is_active: bool,
    pub is_mullvad_owned: bool,
    /// Distance from the operator, in millimeters.
    pub distance: u64,
}

/// Decides whether a freshly loaded relay enters the candidate set:
/// inactive relays are dropped, and every load-stage filter must admit it.
pub fn admit_loaded(relay: &Relay, filters: &Vec<LoadFilter>) -> (r: bool)
    ensures
        r == (relay.is_active && all_admit(filters@, *relay)),
{
    relay.is_active && crate::filters::admits_all(filters, relay)
}

} // verus!
