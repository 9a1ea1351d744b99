//! A plain-value picture of a resolved socket address: what the core
//! logic reads of one — the numeric address, its family, the port.  The
//! surrounding program converts between this and its socket types.

use vstd::prelude::*;

verus! {

/// One resolved peer address: the IP as its numeric value (an IPv4
/// address in the low 32 bits when `is_v6` is false), and the port.
#[derive(Debug, PartialEq, Eq, Hash, Clone, Copy, Structural)]
pub struct PeerAddr {
    pub ip: u128,
    pub is_v6: bool,
    pub port: u16,
}

/// The client connects to the first resolved address only: later results
/// are discarded, and an empty resolution yields nothing — the caller
/// must then report failure without touching any socket.
pub fn select_first_address(addrs: &Vec<PeerAddr>) -> (r: Option<PeerAddr>)
    ensures
        addrs@.len() > 0 ==> r == Some(addrs@[0]),
        addrs@.len() == 0 ==> r is None,
{
    if addrs.len() > 0 {
        Some(addrs[0])
    } else {
        None
    }
}

} // verus!
