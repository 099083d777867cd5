//! Socket addresses as plain values.

use vstd::prelude::*;

verus! {

/// An address of a host, with what a socket needs beside it.
#[allow(inconsistent_fields)]
#[derive(Debug, Clone, Copy, PartialEq, Eq)]
pub enum Ip {
    V4 { octets: [u8; 4] },
    V6 { octets: [u8; 16], flowinfo: u32, scope_id: u32 },
}

/// A host and a port on it.
#[derive(Debug, Clone, Copy, PartialEq, Eq)]
pub struct SocketAddr {
    pub ip: Ip,
    pub port: u16,
}

} // verus!
