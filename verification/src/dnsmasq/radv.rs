//! Router advertisements: what is received, what is answered, and when the next one is due.

use crate::addr::{Ip6, SockAddr};
use crate::dhcp6::live::{class_of, classify_addr6, Addr6Class};
use crate::dup::all_views;
use crate::records::{BridgeConfig, BridgeConfigView, RaInterface, RaInterfaceView};
use crate::text::{parse_u32, to_trim, trim_end, trim_start, u32_of};
use crate::util::{wild_match, wildcard_matchn};
use vstd::prelude::*;

verus! {

/// The ICMPv6 type of a router solicitation.
pub const ND_ROUTER_SOLICIT: u8 = 133;
/// The ICMPv6 type of an echo reply.
pub const ICMP6_ECHO_REPLY: u8 = 129;
/// How many characters of the name of an interface count.
pub const IF_NAMESIZE: usize = 16;

/// Whether a filter blocks packets of a type: its bit is set.
pub open spec fn blocks(filter: Seq<u32>, ty: u8) -> bool {
    (filter[ty as int / 32] >> ((ty % 32) as u32)) & 1 == 1
}

/// The filter of the ICMPv6 socket: it blocks everything but router solicitations and, where wanted, echo
/// replies.
pub fn nd_filter(want_echo_reply: bool) -> (f: [u32; 8])
    ensures
        forall|ty: u8| #[trigger]
            blocks(f@, ty) == !(ty == ND_ROUTER_SOLICIT || (want_echo_reply && ty == ICMP6_ECHO_REPLY)),
{
    let all: u32 = 0xffff_ffff;
    let word: u32 = if want_echo_reply {
        all & !(1u32 << 5) & !(1u32 << 1)
    } else {
        all & !(1u32 << 5)
    };
    let f: [u32; 8] = [all, all, all, all, word, all, all, all];
    assert forall|ty: u8| #[trigger]
        blocks(f@, ty) == !(ty == ND_ROUTER_SOLICIT || (want_echo_reply && ty == ICMP6_ECHO_REPLY)) by {
        let b = (ty % 32) as u32;
        assert(b < 32);
        assert((0xffff_ffffu32 >> b) & 1 == 1) by (bit_vector)
            requires
                b < 32,
        ;
        let one = 0xffff_ffffu32 & !(1u32 << 5u32);
        let two = one & !(1u32 << 1u32);
        assert(((one >> b) & 1 == 1) == (b != 5)) by (bit_vector)
            requires
                b < 32,
                one == 0xffff_ffffu32 & !(1u32 << 5u32),
        ;
        assert(((two >> b) & 1 == 1) == (b != 5 && b != 1)) by (bit_vector)
            requires
                b < 32,
                two == 0xffff_ffffu32 & !(1u32 << 5u32) & !(1u32 << 1u32),
        ;
        assert(f@[ty as int / 32] == if ty as int / 32 == 4 {
            word
        } else {
            all
        });
    }
    f
}

/// Whether the number of an interface goes with an address: it is link-local, for one host or for many.
pub open spec fn needs_scope_id(a: Ip6) -> bool {
    class_of(a) is LinkLocal || (class_of(a) is Multicast && a.bits / 0x1_0000_0000_0000_0000_0000_0000_0000 % 16 == 2)
}

/// Whether the number of an interface goes with an address.
pub fn radv_dest_needs_scope_id(addr: Ip6) -> (r: bool)
    ensures
        r == needs_scope_id(addr),
{
    match classify_addr6(&addr) {
        Addr6Class::LinkLocal => true,
        Addr6Class::Multicast => addr.bits / 0x1_0000_0000_0000_0000_0000_0000_0000 % 16 == 2,
        _ => false,
    }
}

/// What is advertised on an interface: the first entry from number `i` on whose name matches.
pub open spec fn param_for(v: Seq<RaInterfaceView>, name: Seq<char>, i: int) -> Option<RaInterfaceView>
    decreases v.len() - i,
{
    if !(0 <= i < v.len()) {
        None
    } else if wild_match(v[i].name, name, -1) {
        Some(v[i])
    } else {
        param_for(v, name, i + 1)
    }
}

/// Where the MTU to advertise on an interface comes from.
pub enum Mtu {
    /// None is advertised.
    Off,
    /// It is configured.
    Value(u32),
    /// It is that of the interface with this name.
    Of(Seq<char>),
}

/// Where the MTU to advertise on an interface comes from: a negative one that is configured is off, a
/// positive one is that, and else it is that of the interface or of another one that is configured.
pub open spec fn mtu_of(v: Seq<RaInterfaceView>, name: Seq<char>) -> Mtu {
    match param_for(v, name, 0) {
        None => Mtu::Of(name),
        Some(p) => if p.mtu < 0 {
            Mtu::Off
        } else if p.mtu > 0 {
            Mtu::Value(p.mtu as u32)
        } else {
            match p.mtu_name {
                Some(n) => Mtu::Of(n),
                None => Mtu::Of(name),
            }
        },
    }
}

/// Finds what is advertised on an interface.
fn find_param(v: &Vec<RaInterface>, name: &str) -> (r: Option<usize>)
    ensures
        match r {
            Some(i) => i < v@.len() && param_for(all_views(v@), name@, 0) == Some(v@[i as int]@),
            None => param_for(all_views(v@), name@, 0) is None,
        },
{
    let ghost all = all_views(v@);
    let mut i: usize = 0;
    while i < v.len()
        invariant
            i <= v@.len(),
            all == all_views(v@),
            param_for(all, name@, 0) == param_for(all, name@, i as int),
        decreases v@.len() - i,
    {
        assert(all[i as int] == v@[i as int]@);
        if wildcard_matchn(v[i].name.as_str(), name, None) {
            return Some(i);
        }
        i += 1;
    }
    None
}

/// The name of the interface whose MTU is advertised, where it is that of an interface.
pub fn ra_mtu_name(ra_interfaces: &Vec<RaInterface>, iface_name: &str) -> (r: Option<String>)
    ensures
        match mtu_of(all_views(ra_interfaces@), iface_name@) {
            Mtu::Of(n) => r is Some && r->0@ == n,
            _ => r is None,
        },
{
    match find_param(ra_interfaces, iface_name) {
        None => Some(String::from_str(iface_name)),
        Some(i) => {
            if ra_interfaces[i].mtu != 0 {
                None
            } else {
                match &ra_interfaces[i].mtu_name {
                    Some(n) => Some(n.clone()),
                    None => Some(String::from_str(iface_name)),
                }
            }
        },
    }
}

/// The MTU to advertise on an interface, if any. `read` is what the system says of the MTU of the interface
/// that `ra_mtu_name` gives, if anything.
pub fn resolve_ra_mtu(ra_interfaces: &Vec<RaInterface>, iface_name: &str, read: Option<&str>) -> (r: Option<u32>)
    ensures
        r == match mtu_of(all_views(ra_interfaces@), iface_name@) {
            Mtu::Off => None,
            Mtu::Value(n) => Some(n),
            Mtu::Of(_) => match read {
                Some(t) => u32_of(trim_start(trim_end(t@))),
                None => None,
            },
        },
{
    if let Some(i) = find_param(ra_interfaces, iface_name) {
        if ra_interfaces[i].mtu < 0 {
            return None;
        }
        if ra_interfaces[i].mtu > 0 {
            return Some(ra_interfaces[i].mtu as u32);
        }
    }
    match read {
        Some(t) => {
            let trimmed: String = to_trim(t);
            parse_u32(trimmed.as_str())
        },
        None => None,
    }
}

/// Whether a packet is a router solicitation.
pub open spec fn is_solicitation(data: Seq<u8>) -> bool {
    data.len() >= 8 && data[1] == 0 && data[0] == ND_ROUTER_SOLICIT
}

/// Whether an interface is bridged to another one.
pub open spec fn bridged(b: BridgeConfigView, name: Seq<char>) -> bool {
    exists|k: int| 0 <= k < b.aliases.len() && wild_match(#[trigger] b.aliases[k], name, IF_NAMESIZE as int)
}

/// The first bridge from number `i` on that is there and to which an interface is bridged. The numbers of
/// the bridges' interfaces are 0 where they are not there.
pub open spec fn bridge_for(v: Seq<BridgeConfigView>, numbers: Seq<u32>, name: Seq<char>, i: int) -> Option<int>
    decreases v.len() - i,
{
    if !(0 <= i < v.len()) {
        None
    } else if numbers[i] != 0 && bridged(v[i], name) {
        Some(i)
    } else {
        bridge_for(v, numbers, name, i + 1)
    }
}

/// How a packet is answered.
#[derive(Debug, Clone, Copy, PartialEq, Eq, Structural)]
pub enum RaAnswer {
    /// Not at all.
    Ignore,
    /// As from the interface of this bridge.
    Bridge(usize),
    /// As from the interface itself.
    Direct,
}

/// What is known of a packet and the interface that it came through.
#[derive(Debug, Clone, Copy, PartialEq, Eq, Structural)]
pub struct Arrival {
    /// The interface is served.
    pub served: bool,
    /// DHCP is off on the interface.
    pub excepted: bool,
    /// The options of the packet make sense.
    pub well_formed: bool,
}

/// How a packet is answered that came through an interface with this name.
pub open spec fn answer_to(
    data: Seq<u8>,
    name: Option<Seq<char>>,
    arrival: Arrival,
    bridges: Seq<BridgeConfigView>,
    numbers: Seq<u32>,
) -> RaAnswer {
    if !is_solicitation(data) || name is None || !arrival.served || arrival.excepted || !arrival.well_formed {
        RaAnswer::Ignore
    } else {
        match bridge_for(bridges, numbers, name->0, 0) {
            Some(i) => RaAnswer::Bridge(i as usize),
            None => RaAnswer::Direct,
        }
    }
}

/// Whether an interface is bridged to another one.
fn is_bridged(b: &BridgeConfig, name: &str) -> (r: bool)
    ensures
        r == bridged(b@, name@),
{
    let ghost all = b@.aliases;
    let mut k: usize = 0;
    while k < b.aliases.len()
        invariant
            k <= b.aliases@.len(),
            all == b@.aliases,
            forall|j: int| 0 <= j < k ==> !wild_match(#[trigger] all[j], name@, IF_NAMESIZE as int),
        decreases b.aliases@.len() - k,
    {
        if wildcard_matchn(b.aliases[k].as_str(), name, Some(IF_NAMESIZE)) {
            assert(all[k as int] == b.aliases@[k as int]@);
            assert(wild_match(b@.aliases[k as int], name@, IF_NAMESIZE as int));
            return true;
        }
        k += 1;
    }
    false
}

/// Decides how a packet is answered. `bridge_numbers` are the numbers of the bridges' interfaces, 0 where
/// they are not there.
pub fn answer_nd_packet(
    data: &[u8],
    name: Option<&str>,
    arrival: Arrival,
    bridges: &Vec<BridgeConfig>,
    bridge_numbers: &Vec<u32>,
) -> (r: RaAnswer)
    requires
        bridge_numbers@.len() == bridges@.len(),
    ensures
        r == answer_to(
            data@,
            match name {
                Some(n) => Some(n@),
                None => None,
            },
            arrival,
            all_views(bridges@),
            bridge_numbers@,
        ),
{
    if data.len() < 8 || data[1] != 0 || data[0] != ND_ROUTER_SOLICIT {
        return RaAnswer::Ignore;
    }
    let n: &str = match name {
        Some(n) => n,
        None => {
            return RaAnswer::Ignore;
        },
    };
    if !arrival.served || arrival.excepted || !arrival.well_formed {
        return RaAnswer::Ignore;
    }
    let ghost all = all_views(bridges@);
    let mut i: usize = 0;
    while i < bridges.len()
        invariant
            i <= bridges@.len(),
            all == all_views(bridges@),
            bridge_numbers@.len() == bridges@.len(),
            is_solicitation(data@),
            name is Some,
            name->0@ == n@,
            arrival.served && !arrival.excepted && arrival.well_formed,
            bridge_for(all, bridge_numbers@, n@, 0) == bridge_for(all, bridge_numbers@, n@, i as int),
        decreases bridges@.len() - i,
    {
        assert(all[i as int] == bridges@[i as int]@);
        if bridge_numbers[i] != 0 && is_bridged(&bridges[i], n) {
            return RaAnswer::Bridge(i);
        }
        i += 1;
    }
    RaAnswer::Direct
}

/// The numbers of the interfaces that are bridged to a bridge.
pub open spec fn alias_numbers(b: BridgeConfigView, lives: Seq<(Seq<char>, u32)>) -> Seq<u32>
    decreases lives.len(),
{
    if lives.len() == 0 {
        seq![]
    } else {
        let before = alias_numbers(b, lives.drop_last());
        if bridged(b, lives.last().0) {
            before.push(lives.last().1)
        } else {
            before
        }
    }
}

/// The numbers of the interfaces that are bridged to one of the bridges whose interface has this number.
pub open spec fn bridged_numbers(
    number: u32,
    v: Seq<BridgeConfigView>,
    numbers: Seq<u32>,
    lives: Seq<(Seq<char>, u32)>,
) -> Seq<u32>
    decreases v.len(),
{
    if v.len() == 0 {
        seq![]
    } else {
        let before = bridged_numbers(number, v.drop_last(), numbers, lives);
        if numbers[v.len() - 1] == number {
            before + alias_numbers(v.last(), lives)
        } else {
            before
        }
    }
}

/// The interfaces of the host, by name and number.
pub open spec fn named_numbers(v: Seq<(String, u32)>) -> Seq<(Seq<char>, u32)> {
    v.map_values(|x: (String, u32)| (x.0@, x.1))
}

/// Adds the numbers of the interfaces that are bridged to a bridge.
fn push_aliases(r: &mut Vec<u32>, b: &BridgeConfig, lives: &Vec<(String, u32)>)
    ensures
        final(r)@ == old(r)@ + alias_numbers(b@, named_numbers(lives@)),
{
    let ghost all = named_numbers(lives@);
    let ghost start = r@;
    let mut i: usize = 0;
    assert(start + alias_numbers(b@, all.take(0)) =~= start);
    while i < lives.len()
        invariant
            i <= lives@.len(),
            all == named_numbers(lives@),
            r@ == start + alias_numbers(b@, all.take(i as int)),
        decreases lives@.len() - i,
    {
        proof {
            assert(all.take(i + 1).drop_last() =~= all.take(i as int));
            assert(all.take(i + 1).last() == all[i as int]);
        }
        if is_bridged(b, lives[i].0.as_str()) {
            r.push(lives[i].1);
        }
        assert(r@ =~= start + alias_numbers(b@, all.take(i + 1)));
        i += 1;
    }
    assert(all.take(all.len() as int) =~= all);
}

/// Through which interfaces a router advertisement for an interface is sent: the interface itself, and those
/// that are bridged to it. `bridge_numbers` are the numbers of the bridges' interfaces, and `lives` the
/// interfaces of the host.
pub fn ra_send_targets(
    number: u32,
    bridges: &Vec<BridgeConfig>,
    bridge_numbers: &Vec<u32>,
    lives: &Vec<(String, u32)>,
) -> (r: Vec<u32>)
    requires
        bridge_numbers@.len() == bridges@.len(),
    ensures
        r@ == seq![number] + bridged_numbers(number, all_views(bridges@), bridge_numbers@, named_numbers(lives@)),
{
    let ghost all = all_views(bridges@);
    let ghost names = named_numbers(lives@);
    let mut r: Vec<u32> = Vec::new();
    r.push(number);
    let mut i: usize = 0;
    assert(r@ =~= seq![number] + bridged_numbers(number, all.take(0), bridge_numbers@, names));
    while i < bridges.len()
        invariant
            i <= bridges@.len(),
            all == all_views(bridges@),
            names == named_numbers(lives@),
            bridge_numbers@.len() == bridges@.len(),
            r@ == seq![number] + bridged_numbers(number, all.take(i as int), bridge_numbers@, names),
        decreases bridges@.len() - i,
    {
        proof {
            assert(all.take(i + 1).drop_last() =~= all.take(i as int));
            assert(all.take(i + 1).last() == bridges@[i as int]@);
        }
        if bridge_numbers[i] == number {
            push_aliases(&mut r, &bridges[i], lives);
        }
        assert(r@ =~= seq![number] + bridged_numbers(number, all.take(i + 1), bridge_numbers@, names));
        i += 1;
    }
    assert(all.take(all.len() as int) =~= all);
    r
}

/// Who asked for a router advertisement, if it can be told.
pub fn solicitor(src: SockAddr) -> (r: Option<Ip6>)
    ensures
        r == match src {
            SockAddr::V6 { ip, .. } => if ip.bits != 0 {
                Some(ip)
            } else {
                None
            },
            SockAddr::V4 { .. } => None,
        },
{
    match src {
        SockAddr::V6 { ip, .. } => {
            if ip.bits != 0 {
                Some(ip)
            } else {
                None
            }
        },
        SockAddr::V4 { .. } => None,
    }
}

/// To whom an answer goes: to all hosts where it comes from a bridge, else to the one that asked.
pub fn ra_reply_dest(is_bridge_alias: bool, solicitor: Option<Ip6>) -> (r: Option<Ip6>)
    ensures
        r == if is_bridge_alias {
            None
        } else {
            solicitor
        },
{
    if is_bridge_alias {
        None
    } else {
        solicitor
    }
}

/// The address of all hosts on a link, ff02::1.
pub const ALL_HOSTS: u128 = 0xff02_0000_0000_0000_0000_0000_0000_0001;

/// Where a router advertisement is sent through an interface: to the one that asked, or to all hosts. The number of
/// the interface goes with the address where it must.
pub fn ra_send_addr(number: u32, dest: Option<Ip6>) -> (r: SockAddr)
    ensures
        ({
            let ip = match dest {
                Some(a) => a,
                None => Ip6 { bits: ALL_HOSTS },
            };
            r == SockAddr::V6 {
                ip,
                port: 0,
                scope_id: if needs_scope_id(ip) {
                    number
                } else {
                    0
                },
            }
        }),
{
    let ip: Ip6 = match dest {
        Some(a) => a,
        None => Ip6 { bits: ALL_HOSTS },
    };
    let scope_id: u32 = if radv_dest_needs_scope_id(ip) {
        number
    } else {
        0
    };
    SockAddr::V6 { ip, port: 0, scope_id }
}

/// The hop limit to advertise, within what the packet can hold.
pub fn advertised_hop_limit(hop_limit: i32) -> (r: u8)
    ensures
        r == if hop_limit < 0 {
            0u8
        } else if hop_limit > 255 {
            255
        } else {
            hop_limit as u8
        },
{
    if hop_limit < 0 {
        0
    } else if hop_limit > 255 {
        255
    } else {
        hop_limit as u8
    }
}

/// In how many seconds to look for due router advertisements again: when the next one is due, but not
/// before a second; after ten minutes where none is.
pub fn next_ra_delay(next: Option<u64>, now: u64) -> (r: u64)
    ensures
        r == match next {
            Some(n) => if n > now {
                (n - now) as u64
            } else {
                1
            },
            None => 600,
        },
{
    match next {
        Some(n) => {
            if n > now {
                n - now
            } else {
                1
            }
        },
        None => 600,
    }
}

} // verus!
