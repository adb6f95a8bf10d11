//! Socket kinds and handles of the non-blocking I/O facade.
use vstd::prelude::*;

verus! {

/// Socket type for creation
#[derive(Debug, Clone, Copy, PartialEq, Eq, Structural)]
pub enum SocketType {
    Stream,
    Dgram,
}

/// Domain for socket creation
#[derive(Debug, Clone, Copy, PartialEq, Eq, Structural)]
pub enum SocketDomain {
    Inet,
    Inet6,
    Unix,
}

/// Linux's address family numbers.
pub const AF_UNIX: i32 = 1;
pub const AF_INET: i32 = 2;
pub const AF_INET6: i32 = 10;

impl SocketDomain {
    /// The address family number of the domain.
    pub fn to_libc_domain(&self) -> (r: i32)
        ensures
            r == match *self {
                SocketDomain::Inet => AF_INET,
                SocketDomain::Inet6 => AF_INET6,
                SocketDomain::Unix => AF_UNIX,
            },
    {
        match self {
            SocketDomain::Inet => AF_INET,
            SocketDomain::Inet6 => AF_INET6,
            SocketDomain::Unix => AF_UNIX,
        }
    }
}

/// Handle to a created socket
#[derive(Debug)]
pub struct SocketHandle {
    fd: i32,
}

impl SocketHandle {
    pub closed spec fn fd_spec(&self) -> i32 {
        self.fd
    }

    pub fn new(fd: i32) -> (r: Self)
        ensures
            r.fd_spec() == fd,
    {
        Self { fd }
    }

    pub fn fd(&self) -> (r: i32)
        ensures
            r == self.fd_spec(),
    {
        self.fd
    }
}

/// A port from its two bytes in network order (most significant first).
pub open spec fn port_from_bytes(b: [u8; 2]) -> u16 {
    (b[0] as int * 256 + b[1] as int) as u16
}

/// Whether an address family and address length describe an IPv4 or an
/// IPv6 peer.
pub open spec fn known_peer(family: i32, addr_len: nat) -> bool {
    (family == AF_INET && addr_len == 4) || (family == AF_INET6 && addr_len == 16)
}

/// The peer of an accepted connection, from the fields of the socket
/// address the system filled in: its family, its port as the two bytes
/// stored in network order, and its address bytes. An IPv4 peer has 4
/// address bytes, an IPv6 peer 16; any other family is unknown.
pub fn peer_from_sockaddr(family: i32, port_bytes: [u8; 2], addr: &[u8]) -> (r: Option<(Vec<u8>, u16)>)
    ensures
        known_peer(family, addr@.len()) ==> (r matches Some((a, p)) && a@ == addr@ && p
            == port_from_bytes(port_bytes)),
        !known_peer(family, addr@.len()) ==> r is None,
{
    if !((family == AF_INET && addr.len() == 4) || (family == AF_INET6 && addr.len() == 16)) {
        return None;
    }
    let mut bytes: Vec<u8> = Vec::new();
    let mut i: usize = 0;
    while i < addr.len()
        invariant
            i <= addr@.len(),
            bytes@ == addr@.subrange(0, i as int),
        decreases addr@.len() - i,
    {
        bytes.push(addr[i]);
        i = i + 1;
        proof {
            assert(bytes@ =~= addr@.subrange(0, i as int));
        }
    }
    assert(bytes@ =~= addr@);
    let port: u16 = port_bytes[0] as u16 * 256 + port_bytes[1] as u16;
    Some((bytes, port))
}

} // verus!
