//! Network addresses as plain values.

use vstd::prelude::*;

verus! {

/// An IP address: the octets of an IPv4 address, or the groups of an IPv6 one.
#[derive(Debug, Clone, Copy)]
pub enum IpAddr {
    V4([u8; 4]),
    V6([u16; 8]),
}

/// A socket address.
#[derive(Debug, Clone, Copy)]
pub enum SocketAddr {
    V4 { octets: [u8; 4], port: u16 },
    V6 { groups: [u16; 8], port: u16, flowinfo: u32, scope_id: u32 },
}

/// The two ends of a connection.
#[derive(Debug, Clone, Copy)]
pub struct FourTuple {
    pub src_addr: SocketAddr,
    pub dst_addr: SocketAddr,
}

} // verus!
