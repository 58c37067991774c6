//! Addresses and network ranges, modeled as plain integers.
//!
//! An IPv4 address is its 32-bit value, an IPv6 address its 128-bit value; a
//! network range is a base address with a prefix length. The address family
//! is part of the value: a range only ever contains addresses of its own
//! family.

use vstd::prelude::*;

verus! {

/// An IP address, tagged with its family.
#[derive(Clone, Copy, Debug, Hash, PartialEq, Eq, Structural)]
pub enum IpAddress {
    V4(u32),
    V6(u128),
}

/// A socket address: an IP address and a port.
#[derive(Clone, Copy, Debug, Hash, PartialEq, Eq, Structural)]
pub struct SocketAddress {
    pub ip: IpAddress,
    pub port: u16,
}

/// A network range: a base address and a prefix length, per family.
#[derive(Clone, Copy, Debug, Hash, PartialEq, Eq, Structural)]
#[allow(inconsistent_fields)]
pub enum Network {
    V4 { addr: u32, prefix: u8 },
    V6 { addr: u128, prefix: u8 },
}

/// A network range is well formed when its prefix length does not exceed the
/// width of its address family.
pub open spec fn network_wf(n: Network) -> bool {
    match n {
        Network::V4 { prefix, .. } => prefix <= 32,
        Network::V6 { prefix, .. } => prefix <= 128,
    }
}

pub open spec fn networks_wf(nets: Seq<Network>) -> bool {
    forall|i: int| 0 <= i < nets.len() ==> network_wf(nets[i])
}

/// Whether an address falls within a range. Mismatched address families are
/// never contained.
pub open spec fn spec_network_contains(n: Network, ip: IpAddress) -> bool {
    match (n, ip) {
        (Network::V4 { addr, prefix }, IpAddress::V4(a)) => {
            prefix == 0 || (a >> (32 - prefix) as u32) == (addr >> (32 - prefix) as u32)
        },
        (Network::V6 { addr, prefix }, IpAddress::V6(a)) => {
            prefix == 0 || (a >> (128 - prefix) as u128) == (addr >> (128 - prefix) as u128)
        },
        _ => false,
    }
}

pub fn network_contains(n: &Network, ip: &IpAddress) -> (r: bool)
    requires
        network_wf(*n),
    ensures
        r == spec_network_contains(*n, *ip),
{
    match (n, ip) {
        (Network::V4 { addr, prefix }, IpAddress::V4(a)) => {
            if *prefix == 0 {
                true
            } else {
                let shift: u32 = (32 - *prefix) as u32;
                (*a >> shift) == (*addr >> shift)
            }
        },
        (Network::V6 { addr, prefix }, IpAddress::V6(a)) => {
            if *prefix == 0 {
                true
            } else {
                let shift: u128 = (128 - *prefix) as u128;
                (*a >> shift) == (*addr >> shift)
            }
        },
        _ => false,
    }
}

/// Whether an address falls within any range of a list.
pub open spec fn spec_in_networks(nets: Seq<Network>, ip: IpAddress) -> bool {
    exists|i: int| 0 <= i < nets.len() && spec_network_contains(nets[i], ip)
}

pub fn in_networks(nets: &Vec<Network>, ip: &IpAddress) -> (r: bool)
    requires
        networks_wf(nets@),
    ensures
        r == spec_in_networks(nets@, *ip),
{
    let mut i: usize = 0;
    while i < nets.len()
        invariant
            i <= nets.len(),
            networks_wf(nets@),
            forall|k: int| 0 <= k < i ==> !spec_network_contains(nets@[k], *ip),
        decreases nets.len() - i,
    {
        if network_contains(&nets[i], ip) {
            return true;
        }
        i = i + 1;
    }
    false
}

} // verus!
