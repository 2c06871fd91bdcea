//! Addresses of peers, as plain numbers.
use vstd::prelude::*;

verus! {

/// The address of a peer: an IPv4 or IPv6 address and a port. The flow and scope
/// numbers are those of an IPv6 address, and 0 for IPv4.
#[derive(Debug, Clone, Copy, PartialEq, Eq, Structural)]
pub struct PeerAddr {
    /// 4 or 6.
    pub version: u8,
    pub ip: u128,
    pub port: u16,
    pub flow_info: u32,
    pub scope_id: u32,
}

/// A peer's address as a tuple, the form in which it is looked up.
pub type PeerKey = (u8, u128, u16, u32, u32);

impl PeerAddr {
    pub open spec fn spec_key(self) -> PeerKey {
        (self.version, self.ip, self.port, self.flow_info, self.scope_id)
    }

    /// The address as a tuple.
    pub fn key(&self) -> (key: PeerKey)
        ensures
            key == self.spec_key(),
    {
        (self.version, self.ip, self.port, self.flow_info, self.scope_id)
    }

    /// The address that a tuple stands for.
    pub fn from_key(key: PeerKey) -> (addr: PeerAddr)
        ensures
            addr.spec_key() == key,
    {
        PeerAddr {
            version: key.0,
            ip: key.1,
            port: key.2,
            flow_info: key.3,
            scope_id: key.4,
        }
    }
}

} // verus!
