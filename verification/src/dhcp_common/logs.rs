//! What is logged of address ranges and relays at startup.

use crate::addr::{addr_text, all_addr_str, ip4_text, ip6_text, AllAddr, Ip6, IpAddress};
use crate::dhcp6_protocol::DHCPV6_SERVER_PORT;
use crate::dhcp_protocol::DHCP_SERVER_PORT;
use crate::dhcp_types::{ContextView, DhcpContext, DhcpRelay};
use crate::text::{plus, signed_decimal, to_signed_decimal, views};
use crate::util::{lease_time_text, prettyprint_time};
use vstd::prelude::*;

verus! {

/// The address of all DHCPv6 servers, `FF05::1:3`.
pub const ALL_SERVERS_BITS: u128 = 0xff05_0000_0000_0000_0000_0000_0001_0003;

/// The network part of an address whose prefix has 64 bits.
pub open spec fn subnet6(a: Ip6) -> Ip6 {
    Ip6 { bits: (a.bits - a.bits % 0x1_0000_0000_0000_0000) as u128 }
}

/// The network part of an address whose prefix has 64 bits, as text.
fn subnet6_str(a: Ip6) -> (s: String)
    ensures
        s@ == ip6_text(subnet6(a)),
{
    let n: Ip6 = Ip6 { bits: a.bits - a.bits % 0x1_0000_0000_0000_0000 };
    n.text()
}

/// What follows a range: its lease time, or that its prefix is deprecated.
pub open spec fn range_suffix(is_v6: bool, ctx: ContextView) -> Seq<char> {
    if is_v6 && ctx.flags.deprecate {
        ", prefix deprecated"@
    } else {
        ", lease time "@ + lease_time_text(ctx.lease_time)
    }
}

/// The line on the addresses that a range serves.
pub open spec fn range_line(is_v6: bool, ctx: ContextView) -> Seq<char> {
    let family = if is_v6 {
        "DHCPv6"@
    } else {
        "DHCP"@
    };
    let (start, end) = if is_v6 {
        (ip6_text(ctx.start6), ip6_text(ctx.end6))
    } else {
        (ip4_text(ctx.start), ip4_text(ctx.end))
    };
    if is_v6 && ctx.flags.ra_stateless {
        family + " stateless on "@ + ip6_text(subnet6(ctx.start6))
    } else if ctx.flags.static_only {
        family + ", static leases only on "@ + end + range_suffix(is_v6, ctx)
    } else if ctx.flags.proxy {
        family + ", proxy on subnet "@ + end
    } else {
        family + ", IP range "@ + start + " -- "@ + end + range_suffix(is_v6, ctx)
    }
}

/// The lines on a range: what it serves, the names it derives, and its router advertisements.
pub open spec fn context_lines(is_v6: bool, ctx: ContextView, opt_ra: bool) -> Seq<Seq<char>> {
    let served = if !ctx.flags.old && (ctx.flags.dhcp || !is_v6) {
        seq![range_line(is_v6, ctx)]
    } else {
        seq![]
    };
    let names = if is_v6 && ctx.flags.ra_name && !ctx.flags.old {
        seq!["DHCPv4-derived IPv6 names on "@ + ip6_text(subnet6(ctx.start6))]
    } else {
        seq![]
    };
    let adverts = if is_v6 && (ctx.flags.ra || (opt_ra && ctx.flags.dhcp)) {
        seq!["router advertisement on "@ + ip6_text(subnet6(ctx.start6))]
    } else {
        seq![]
    };
    served + names + adverts
}

/// The line on the addresses that a range serves.
fn write_range_line(is_v6: bool, ctx: &DhcpContext) -> (s: String)
    ensures
        s@ == range_line(is_v6, ctx@),
{
    let suffix: String = if is_v6 && ctx.flags.deprecate {
        String::from_str(", prefix deprecated")
    } else {
        let t: String = prettyprint_time(ctx.lease_time);
        plus(String::from_str(", lease time "), t.as_str())
    };
    let family: String = if is_v6 {
        String::from_str("DHCPv6")
    } else {
        String::from_str("DHCP")
    };
    let (start, end): (String, String) = if is_v6 {
        (ctx.start6.text(), ctx.end6.text())
    } else {
        (ctx.start.text(), ctx.end.text())
    };
    if is_v6 && ctx.flags.ra_stateless {
        let net: String = subnet6_str(ctx.start6);
        plus(plus(family, " stateless on "), net.as_str())
    } else if ctx.flags.static_only {
        plus(plus(plus(family, ", static leases only on "), end.as_str()), suffix.as_str())
    } else if ctx.flags.proxy {
        plus(plus(family, ", proxy on subnet "), end.as_str())
    } else {
        plus(
            plus(plus(plus(plus(family, ", IP range "), start.as_str()), " -- "), end.as_str()),
            suffix.as_str(),
        )
    }
}

/// The lines to log on a range at startup: none to three. `opt_ra` says that router advertisements are
/// on for all ranges that serve addresses.
pub fn log_context(family: IpAddress, ctx: &DhcpContext, opt_ra: bool) -> (lines: Vec<String>)
    ensures
        views(lines@) == context_lines(family is V6, ctx@, opt_ra),
{
    let is_v6: bool = match family {
        IpAddress::V6(_) => true,
        IpAddress::V4(_) => false,
    };
    let mut lines: Vec<String> = Vec::new();
    if !ctx.flags.old && (ctx.flags.dhcp || !is_v6) {
        lines.push(write_range_line(is_v6, ctx));
    }
    if is_v6 {
        let net: String = subnet6_str(ctx.start6);
        if ctx.flags.ra_name && !ctx.flags.old {
            lines.push(plus(String::from_str("DHCPv4-derived IPv6 names on "), net.as_str()));
        }
        if ctx.flags.ra || (opt_ra && ctx.flags.dhcp) {
            lines.push(plus(String::from_str("router advertisement on "), net.as_str()));
        }
    }
    assert(views(lines@) =~= context_lines(is_v6, ctx@, opt_ra));
    lines
}

/// Whether a relay sends to every server: the unspecified IPv4 address, or all DHCPv6 servers.
pub open spec fn relays_to_all(is_v6: bool, server: AllAddr) -> bool {
    if is_v6 {
        server == AllAddr::Addr6(Ip6 { bits: ALL_SERVERS_BITS })
    } else {
        server matches AllAddr::Addr4(a) && a.bits == 0
    }
}

/// The server of a relay, with its port where that is not the usual one.
pub open spec fn relay_server(is_v6: bool, relay: DhcpRelay) -> Seq<char> {
    let usual: int = if is_v6 {
        DHCPV6_SERVER_PORT as int
    } else {
        DHCP_SERVER_PORT as int
    };
    if relay.port != usual {
        addr_text(relay.server_addr) + ("#"@ + signed_decimal(relay.port as int))
    } else {
        addr_text(relay.server_addr)
    }
}

/// The line on a relay.
pub open spec fn relay_line(is_v6: bool, relay: DhcpRelay) -> Seq<char> {
    let local = addr_text(relay.local_addr);
    let server = relay_server(is_v6, relay);
    match relay.interface {
        Some(iface) => if relays_to_all(is_v6, relay.server_addr) {
            "DHCP relay from "@ + local + " via "@ + iface@
        } else if relay.split_mode != 0 {
            "DHCP split-relay from "@ + local + " to "@ + server + " via "@ + iface@
        } else {
            "DHCP relay from "@ + local + " to "@ + server + " via "@ + iface@
        },
        None => "DHCP relay from "@ + local + " to "@ + server,
    }
}

/// The line to log on a relay at startup.
pub fn log_relay(family: IpAddress, relay: &DhcpRelay) -> (s: String)
    ensures
        s@ == relay_line(family is V6, *relay),
{
    let is_v6: bool = match family {
        IpAddress::V6(_) => true,
        IpAddress::V4(_) => false,
    };
    let local: String = all_addr_str(&relay.local_addr);
    let mut server: String = all_addr_str(&relay.server_addr);
    let broadcast: bool = match relay.server_addr {
        AllAddr::Addr4(a) => !is_v6 && a.bits == 0,
        AllAddr::Addr6(a) => is_v6 && a.bits == ALL_SERVERS_BITS,
        AllAddr::Other => false,
    };
    let usual: i32 = if is_v6 {
        DHCPV6_SERVER_PORT as i32
    } else {
        DHCP_SERVER_PORT as i32
    };
    if relay.port != usual {
        let port: String = to_signed_decimal(relay.port);
        let tail: String = plus(String::from_str("#"), port.as_str());
        server = plus(server, tail.as_str());
    }
    assert(server@ == relay_server(is_v6, *relay));
    match &relay.interface {
        Some(iface) => {
            if broadcast {
                plus(plus(plus(String::from_str("DHCP relay from "), local.as_str()), " via "), iface.as_str())
            } else {
                let head: String = if relay.split_mode != 0 {
                    String::from_str("DHCP split-relay from ")
                } else {
                    String::from_str("DHCP relay from ")
                };
                plus(
                    plus(plus(plus(plus(head, local.as_str()), " to "), server.as_str()), " via "),
                    iface.as_str(),
                )
            }
        },
        None => plus(plus(plus(String::from_str("DHCP relay from "), local.as_str()), " to "), server.as_str()),
    }
}

} // verus!
