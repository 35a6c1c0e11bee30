//! Magic DNS: the names under `.ray`, and the host configuration that routes them to the
//! mesh resolver.

pub mod configurator;
pub mod configure;
pub mod host_laws;
pub mod openbsd;
pub mod openbsd_laws;
pub mod read_laws;
pub mod resolv_conf;
pub mod resolv_laws;
pub mod search;
pub mod search_laws;
pub mod strip_laws;
pub mod windows;

use vstd::prelude::*;

use crate::addr::{IpAddr, Ipv4Addr, Ipv6Addr};

verus! {

/// The domain every mesh name ends in.
pub const DNS_DOMAIN: &'static str = "ray";

/// The IPv4 address that earlier releases handed to the host as its nameserver.
pub open spec fn magic_v4() -> Ipv4Addr {
    Ipv4Addr { a: 100, b: 100, c: 100, d: 53 }
}

/// The segments of the mesh resolver's IPv6 address, `200::53`.
pub open spec fn magic_v6() -> Seq<u16> {
    seq![0x200u16, 0, 0, 0, 0, 0, 0, 0x53]
}

/// The IPv4 address that earlier releases handed to the host as its nameserver.
pub fn magic_dns_v4() -> (r: Ipv4Addr)
    ensures
        r == magic_v4(),
{
    Ipv4Addr { a: 100, b: 100, c: 100, d: 53 }
}

/// The mesh resolver's IPv6 address, `200::53`.
pub fn magic_dns_v6() -> (r: Ipv6Addr)
    ensures
        r.segments@ == magic_v6(),
{
    let segments: [u16; 8] = [0x200, 0, 0, 0, 0, 0, 0, 0x53];
    assert(segments@ =~= magic_v6());
    Ipv6Addr { segments }
}

/// The address to hand the host as the `.ray` nameserver. Always the IPv6 one: the overlay
/// carries no IPv4, and `100.64.0.0/10` belongs to whatever other VPN shares the host.
pub fn resolver_addr() -> (r: IpAddr)
    ensures
        r matches IpAddr::V6(v6) && v6.segments@ == magic_v6(),
{
    IpAddr::V6(magic_dns_v6())
}

} // verus!
