//! Socket addresses as plain values.

use vstd::prelude::*;

verus! {

/// A socket address: an IPv4 address (four octets) or an IPv6 address (eight
/// segments), with a port.
#[derive(Clone, Copy, Debug, PartialEq, Eq)]
pub enum Addr {
    V4 { ip: [u8; 4], port: u16 },
    V6 { segments: [u16; 8], port: u16 },
}

/// `127.0.0.1:port`.
pub fn localhost(port: u16) -> (r: Addr)
    ensures
        r == (Addr::V4 { ip: [127u8, 0u8, 0u8, 1u8], port }),
{
    Addr::V4 { ip: [127u8, 0u8, 0u8, 1u8], port }
}

} // verus!
