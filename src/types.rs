//! Identifiers shared by every layer.
use vstd::prelude::*;

verus! {

/// Stable identity of a peer, independent of where it can be reached.
#[derive(Clone, Copy, Debug, PartialEq, Eq, Hash, Structural)]
pub struct NodeId(pub u64);

/// Transport-level location of a peer: an IPv4 host and a port.
#[derive(Clone, Copy, Debug, PartialEq, Eq, Hash, Structural)]
pub struct PeerAddress {
    pub ip: u32,
    pub port: u16,
}

impl PeerAddress {
    pub fn new(ip: u32, port: u16) -> (r: PeerAddress)
        ensures
            r.ip == ip,
            r.port == port,
    {
        PeerAddress { ip, port }
    }
}

} // verus!
