//! Addressing of a tethered link between this device and one peer.
use vstd::prelude::*;

verus! {

/// The 32-bit value of the IPv4 address `a.b.c.d`, first octet highest.
pub open spec fn ipv4_value(a: u8, b: u8, c: u8, d: u8) -> u32 {
    (a * 0x1000000 + b * 0x10000 + c * 0x100 + d) as u32
}

/// The IPv4 address `a.b.c.d` as a 32-bit value.
pub fn ipv4(a: u8, b: u8, c: u8, d: u8) -> (r: u32)
    ensures
        r == ipv4_value(a, b, c, d),
{
    (a as u32) * 0x1000000 + (b as u32) * 0x10000 + (c as u32) * 0x100 + (d as u32)
}

/// Addresses and link size of a tethered link; addresses are 32-bit IPv4
/// values.
pub struct TetheringConfig {
    pub local_ip: u32,
    pub peer_ip: u32,
    pub netmask: u32,
    pub mtu: u16,
}

impl Default for TetheringConfig {
    /// `192.168.42.1` to `192.168.42.2` on a /24 network with a 1500-byte MTU.
    fn default() -> (r: Self)
        ensures
            r.local_ip == ipv4_value(192, 168, 42, 1),
            r.peer_ip == ipv4_value(192, 168, 42, 2),
            r.netmask == ipv4_value(255, 255, 255, 0),
            r.mtu == 1500,
    {
        Self {
            local_ip: ipv4(192, 168, 42, 1),
            peer_ip: ipv4(192, 168, 42, 2),
            netmask: ipv4(255, 255, 255, 0),
            mtu: 1500,
        }
    }
}

impl TetheringConfig {
    /// A link between the given addresses, with the default mask and MTU.
    pub fn new(local: u32, peer: u32) -> (r: Self)
        ensures
            r.local_ip == local,
            r.peer_ip == peer,
            r.netmask == ipv4_value(255, 255, 255, 0),
            r.mtu == 1500,
    {
        let d = Self::default();
        Self { local_ip: local, peer_ip: peer, netmask: d.netmask, mtu: d.mtu }
    }

    /// The network the local address belongs to: the address under the mask.
    pub fn network(&self) -> (r: u32)
        ensures
            r == self.local_ip & self.netmask,
    {
        self.local_ip & self.netmask
    }
}

/// A tethered link in use.
pub struct TetheringSession {
    config: TetheringConfig,
}

impl TetheringSession {
    pub closed spec fn config_spec(&self) -> TetheringConfig {
        self.config
    }

    pub fn new(config: TetheringConfig) -> (r: Self)
        ensures
            r.config_spec() == config,
    {
        Self { config }
    }

    pub fn config(&self) -> (r: &TetheringConfig)
        ensures
            *r == self.config_spec(),
    {
        &self.config
    }

    /// The local end as an address and port; the port is left to the system.
    pub fn local_addr(&self) -> (r: (u32, u16))
        ensures
            r == (self.config_spec().local_ip, 0u16),
    {
        (self.config.local_ip, 0)
    }

    /// The peer end as an address and port; the port is left to the system.
    pub fn peer_addr(&self) -> (r: (u32, u16))
        ensures
            r == (self.config_spec().peer_ip, 0u16),
    {
        (self.config.peer_ip, 0)
    }
}

} // verus!
