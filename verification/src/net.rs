//! Socket address records and host-to-network byte order.

use vstd::endian::{endianness, Endian};
use vstd::prelude::*;

verus! {

/// The address family of IPv4.
pub const AF_INET: u16 = 2;

/// The size in bytes of an IPv4 socket address as the system takes it.
pub const SOCKADDR_IN_LEN: u32 = 16;

/// `u` with its two bytes in the opposite order.
pub open spec fn swapped16(u: u16) -> u16 {
    ((u % 256) * 256 + u / 256) as u16
}

/// `u` with its four bytes in the opposite order.
pub open spec fn swapped32(u: u32) -> u32 {
    ((u % 256) * 16777216 + ((u / 256) % 256) * 65536 + ((u / 65536) % 256) * 256 + u
        / 16777216) as u32
}

/// A 16-bit value of this machine as one whose bytes in memory are in
/// network order: the value itself on a big-endian machine, and the value
/// with its bytes exchanged on a little-endian one.
pub open spec fn network16(u: u16) -> u16 {
    match endianness() {
        Endian::Big => u,
        Endian::Little => swapped16(u),
    }
}

/// A 32-bit value of this machine as one whose bytes in memory are in
/// network order.
pub open spec fn network32(u: u32) -> u32 {
    match endianness() {
        Endian::Big => u,
        Endian::Little => swapped32(u),
    }
}

/// `u16::to_be`: on a big-endian target the value itself, on a little-endian
/// target the value with its two bytes exchanged.
pub assume_specification[ u16::to_be ](x: u16) -> (r: u16)
    ensures
        r == network16(x),
;

/// `u32::to_be`: on a big-endian target the value itself, on a little-endian
/// target the value with its four bytes in the opposite order.
pub assume_specification[ u32::to_be ](x: u32) -> (r: u32)
    ensures
        r == network32(x),
;

/// Converts a 16-bit value from host to network byte order.
pub fn htons(u: u16) -> (r: u16)
    ensures
        r == network16(u),
{
    u.to_be()
}

/// Converts a 32-bit value from host to network byte order.
pub fn htonl(u: u32) -> (r: u32)
    ensures
        r == network32(u),
{
    u.to_be()
}

/// An IPv4 address, in network byte order.
#[allow(non_camel_case_types)]
#[derive(Debug, Clone, Copy, PartialEq, Eq, Structural)]
pub struct in_addr {
    pub s_addr: u32,
}

/// An IPv4 socket address.
#[allow(non_camel_case_types)]
#[derive(Debug, Clone, Copy, PartialEq, Eq)]
pub struct sockaddr_in {
    pub sin_family: u16,
    /// The port, in network byte order.
    pub sin_port: u16,
    pub sin_addr: in_addr,
    /// Padding; all zero.
    pub sin_zero: [u8; 8],
}

impl sockaddr_in {
    /// The socket address of the given family, port and address. Port and
    /// address are taken as they are: they are in network byte order
    /// already.
    pub fn new(sin_family: u16, sin_port: u16, s_addr: u32) -> (r: Self)
        ensures
            r.sin_family == sin_family,
            r.sin_port == sin_port,
            r.sin_addr.s_addr == s_addr,
            r.sin_zero@ == Seq::new(8, |i: int| 0u8),
    {
        let sin_zero: [u8; 8] = [0, 0, 0, 0, 0, 0, 0, 0];
        assert(sin_zero@ =~= Seq::new(8, |i: int| 0u8));
        Self { sin_family, sin_port, sin_addr: in_addr { s_addr }, sin_zero }
    }
}

/// A UDP socket: its descriptor and the address it is bound to.
#[derive(Debug, Clone, Copy, PartialEq, Eq)]
pub struct UdpSocket {
    pub fd: isize,
    pub addr: sockaddr_in,
}

/// The linger option of a socket.
#[allow(non_camel_case_types)]
#[derive(Debug, Clone, Copy, PartialEq, Eq, Structural)]
pub struct linger {
    pub l_onoff: i32,
    pub l_linger: i32,
}

/// The IPv4 socket address of `host` and `port`, both given in host byte
/// order and put into network byte order.
pub fn socket_address(host: u32, port: u16) -> (r: sockaddr_in)
    ensures
        r.sin_family == AF_INET,
        r.sin_port == network16(port),
        r.sin_addr.s_addr == network32(host),
        r.sin_zero@ == Seq::new(8, |i: int| 0u8),
{
    sockaddr_in::new(AF_INET, htons(port), htonl(host))
}

} // verus!
