//! DHCPv6 packets and their options.

use crate::addr::{Ip6, SockAddr};
use crate::dhcp6_protocol::{
    msg6_type_of, Dhcp6MsgType, DHCPV6_CLIENT_PORT, OPTION6_CLIENT_ID, OPTION6_IAADDR, OPTION6_IA_NA, OPTION6_STATUS_CODE,
};
use crate::dhcp_common::describe::{ip6_at, read_ip6};
use crate::rfc3315::{build_status_code, status_data};
use crate::text::{append_bytes, copy_range};
use crate::wire::{be16, be16_bytes, be32, be32_bytes, lemma_be32_round_trip, push_be16, push_be32, read_be16, read_be32};
use vstd::prelude::*;
use vstd::slice::slice_subrange;

verus! {

/// A DHCPv6 message from a client.
#[derive(Debug, Clone)]
pub struct Dhcp6Packet {
    pub msg_type: Dhcp6MsgType,
    /// The transaction id, of 24 bits.
    pub xid: u32,
    /// What follows the header.
    pub options: Vec<u8>,
}

/// A DHCPv6 message between relays and servers.
#[derive(Debug, Clone)]
pub struct Dhcp6RelayMsg {
    pub msg_type: Dhcp6MsgType,
    pub hop_count: u8,
    pub link_addr: Ip6,
    pub peer_addr: Ip6,
    pub options: Vec<u8>,
}

/// What a packet is.
pub enum Parsed {
    /// Too short, or of an unknown type.
    Bad,
    Message { msg_type: Dhcp6MsgType, xid: u32, options: Seq<u8> },
    Relay { msg_type: Dhcp6MsgType, hop_count: u8, link_addr: Ip6, peer_addr: Ip6, options: Seq<u8> },
}

/// What bytes are as a packet.
pub open spec fn parsed(data: Seq<u8>) -> Parsed {
    if data.len() < 4 {
        Parsed::Bad
    } else {
        match msg6_type_of(data[0]) {
            None => Parsed::Bad,
            Some(msg_type) => if msg_type is RelayForw || msg_type is RelayRepl {
                if data.len() < 34 {
                    Parsed::Bad
                } else {
                    Parsed::Relay {
                        msg_type,
                        hop_count: data[1],
                        link_addr: ip6_at(data, 2),
                        peer_addr: ip6_at(data, 18),
                        options: data.skip(34),
                    }
                }
            } else {
                Parsed::Message {
                    msg_type,
                    xid: (data[1] * 0x1_0000 + data[2] * 0x100 + data[3]) as u32,
                    options: data.skip(4),
                }
            },
        }
    }
}

/// Parses a packet. A message between relays and servers comes as `Err(Some(..))`; what is too short or
/// of an unknown type as `Err(None)`.
pub fn parse_dhcp6_packet(data: &[u8]) -> (r: Result<Dhcp6Packet, Option<Dhcp6RelayMsg>>)
    ensures
        parsed(data@) == match r {
            Ok(p) => Parsed::Message { msg_type: p.msg_type, xid: p.xid, options: p.options@ },
            Err(Some(m)) => Parsed::Relay {
                msg_type: m.msg_type,
                hop_count: m.hop_count,
                link_addr: m.link_addr,
                peer_addr: m.peer_addr,
                options: m.options@,
            },
            Err(None) => Parsed::Bad,
        },
{
    if data.len() < 4 {
        return Err(None);
    }
    let msg_type: Dhcp6MsgType = match Dhcp6MsgType::from_u8(data[0]) {
        Some(t) => t,
        None => {
            return Err(None);
        },
    };
    if msg_type == Dhcp6MsgType::RelayForw || msg_type == Dhcp6MsgType::RelayRepl {
        if data.len() < 34 {
            return Err(None);
        }
        let options: Vec<u8> = copy_range(data, 34, data.len());
        assert(options@ =~= data@.skip(34));
        return Err(
            Some(
                Dhcp6RelayMsg {
                    msg_type,
                    hop_count: data[1],
                    link_addr: read_ip6(data, 2),
                    peer_addr: read_ip6(data, 18),
                    options,
                },
            ),
        );
    }
    let xid: u32 = data[1] as u32 * 0x1_0000 + data[2] as u32 * 0x100 + data[3] as u32;
    let options: Vec<u8> = copy_range(data, 4, data.len());
    assert(options@ =~= data@.skip(4));
    Ok(Dhcp6Packet { msg_type, xid, options })
}

/// The options in `s` from position `i` on, as codes and data, up to the first that is cut off.
pub open spec fn options6_from(s: Seq<u8>, i: int) -> Seq<(u16, Seq<u8>)>
    decreases s.len() - i,
{
    if i < 0 || i + 4 > s.len() || i + 4 + be16(s, i + 2) > s.len() {
        seq![]
    } else {
        let end = i + 4 + be16(s, i + 2);
        seq![(be16(s, i), s.subrange(i + 4, end))] + options6_from(s, end)
    }
}

/// The data of the first option with this code.
pub open spec fn first_option6(entries: Seq<(u16, Seq<u8>)>, code: u16) -> Option<Seq<u8>>
    decreases entries.len(),
{
    if entries.len() == 0 {
        None
    } else if entries[0].0 == code {
        Some(entries[0].1)
    } else {
        first_option6(entries.skip(1), code)
    }
}

/// The data of the first option with this code among options.
pub open spec fn option6_in(options: Seq<u8>, code: u16) -> Option<Seq<u8>> {
    first_option6(options6_from(options, 0), code)
}

/// Finds an option by its code.
pub fn find_option6(options: &[u8], code: u16) -> (r: Option<&[u8]>)
    ensures
        match r {
            Some(d) => option6_in(options@, code) == Some(d@),
            None => option6_in(options@, code) is None,
        },
{
    let mut i: usize = 0;
    while options.len() - i >= 4
        invariant
            i <= options@.len(),
            option6_in(options@, code) == first_option6(options6_from(options@, i as int), code),
        decreases options@.len() - i,
    {
        let found: u16 = read_be16(options, i);
        let len: usize = read_be16(options, i + 2) as usize;
        if options.len() - i - 4 < len {
            return None;
        }
        proof {
            let s = options@;
            let rest = options6_from(s, i + 4 + len);
            let all = options6_from(s, i as int);
            assert(all == seq![(found, s.subrange(i + 4, i + 4 + len))] + rest);
            assert(all.skip(1) =~= rest);
        }
        if found == code {
            return Some(slice_subrange(options, i + 4, i + 4 + len));
        }
        i += 4 + len;
    }
    None
}

/// A DHCPv6 reply.
#[derive(Debug, Clone)]
pub struct Dhcp6Reply {
    pub msg_type: Dhcp6MsgType,
    pub xid: u32,
    pub options: Vec<u8>,
}

/// The value of a reply.
#[verifier::ext_equal]
pub struct Reply {
    pub msg_type: Dhcp6MsgType,
    pub xid: u32,
    pub options: Seq<u8>,
}

impl View for Dhcp6Reply {
    type V = Reply;

    open spec fn view(&self) -> Reply {
        Reply { msg_type: self.msg_type, xid: self.xid, options: self.options@ }
    }
}

/// The bytes of a reply.
pub open spec fn reply_bytes(r: Reply) -> Seq<u8> {
    seq![
        r.msg_type.code(),
        (r.xid / 0x1_0000 % 256) as u8,
        (r.xid / 0x100 % 256) as u8,
        (r.xid % 256) as u8,
    ] + r.options
}

impl Dhcp6Reply {
    /// The bytes of the reply.
    pub fn to_wire(&self) -> (buf: Vec<u8>)
        ensures
            buf@ == reply_bytes(self@),
    {
        let mut buf: Vec<u8> = Vec::new();
        buf.push(self.msg_type.as_u8());
        buf.push((self.xid / 0x1_0000 % 256) as u8);
        buf.push((self.xid / 0x100 % 256) as u8);
        buf.push((self.xid % 256) as u8);
        append_bytes(&mut buf, self.options.as_slice());
        assert(buf@ =~= reply_bytes(self@));
        buf
    }
}

/// A reply that is sent is read with the type, the transaction id and the options that it was given,
/// where the transaction id fits its 24 bits and the type is not one of the relays'.
pub proof fn law_reply_round_trip(r: Reply)
    requires
        r.xid < 0x100_0000,
        !(r.msg_type is RelayForw) && !(r.msg_type is RelayRepl),
    ensures
        parsed(reply_bytes(r)) == (Parsed::Message { msg_type: r.msg_type, xid: r.xid, options: r.options }),
{
    let b = reply_bytes(r);
    assert(b.skip(4) =~= r.options);
    assert(msg6_type_of(b[0]) == Some(r.msg_type));
}

/// The bytes of an option. The length field holds the low 16 bits of the length.
pub open spec fn option6(code: u16, data: Seq<u8>) -> Seq<u8> {
    be16_bytes(code) + be16_bytes((data.len() % 0x1_0000) as u16) + data
}

/// Builds an option.
pub fn build_option6(code: u16, data: &[u8]) -> (buf: Vec<u8>)
    ensures
        buf@ == option6(code, data@),
{
    let mut buf: Vec<u8> = Vec::new();
    push_be16(&mut buf, code);
    push_be16(&mut buf, (data.len() % 0x1_0000) as u16);
    append_bytes(&mut buf, data);
    assert(buf@ =~= option6(code, data@));
    buf
}

/// Options that stand after other bytes are the same options.
proof fn lemma_options6_after(before: Seq<u8>, s: Seq<u8>, i: int)
    requires
        0 <= i,
    ensures
        options6_from(before + s, before.len() + i) == options6_from(s, i),
    decreases s.len() - i,
{
    let all = before + s;
    let n = before.len() as int;
    if i + 4 <= s.len() {
        assert(all[n + i] == s[i] && all[n + i + 1] == s[i + 1] && all[n + i + 2] == s[i + 2] && all[n + i + 3] == s[i
            + 3]);
        let end = i + 4 + be16(s, i + 2);
        if end <= s.len() {
            lemma_options6_after(before, s, end);
            assert(all.subrange(n + i + 4, n + end) =~= s.subrange(i + 4, end));
        }
    }
}

/// An option that was built is read first, and what follows it next, where the length of its data fits
/// the length field.
pub proof fn law_option6_round_trip(code: u16, data: Seq<u8>, rest: Seq<u8>)
    requires
        data.len() < 0x1_0000,
    ensures
        options6_from(option6(code, data) + rest, 0) == seq![(code, data)] + options6_from(rest, 0),
        option6_in(option6(code, data) + rest, code) == Some(data),
        forall|other: u16|
            other != code ==> #[trigger] option6_in(option6(code, data) + rest, other) == option6_in(rest, other),
{
    let head = option6(code, data);
    let s = head + rest;
    assert(be16(s, 0) == code);
    assert(be16(s, 2) == data.len());
    assert(s.subrange(4, 4 + data.len() as int) =~= data);
    lemma_options6_after(head, rest, 0);
    let all = options6_from(s, 0);
    assert(all.skip(1) =~= options6_from(rest, 0));
}

/// The bytes of an address, most significant first.
pub open spec fn ip6_bytes(a: Ip6) -> Seq<u8> {
    be32_bytes((a.bits / 0x1_0000_0000_0000_0000_0000_0000) as u32) + be32_bytes(
        (a.bits / 0x1_0000_0000_0000_0000 % 0x1_0000_0000) as u32,
    ) + be32_bytes((a.bits / 0x1_0000_0000 % 0x1_0000_0000) as u32) + be32_bytes((a.bits % 0x1_0000_0000) as u32)
}

/// A number of 128 bits is made of its four words.
proof fn lemma_four_words(x: u128)
    ensures
        x == (x / 0x1_0000_0000_0000_0000_0000_0000) * 0x1_0000_0000_0000_0000_0000_0000 + (x / 0x1_0000_0000_0000_0000
            % 0x1_0000_0000) * 0x1_0000_0000_0000_0000 + (x / 0x1_0000_0000 % 0x1_0000_0000) * 0x1_0000_0000 + x
            % 0x1_0000_0000,
{
    let a = x / 0x1_0000_0000;
    let b = a / 0x1_0000_0000;
    assert(b == x / 0x1_0000_0000_0000_0000);
    assert(b / 0x1_0000_0000 == x / 0x1_0000_0000_0000_0000_0000_0000);
}

/// An address that was written is read back.
pub proof fn law_ip6_round_trip(a: Ip6, rest: Seq<u8>)
    ensures
        ip6_bytes(a).len() == 16,
        ip6_at(ip6_bytes(a) + rest, 0) == a,
{
    let s = ip6_bytes(a) + rest;
    let x0 = (a.bits / 0x1_0000_0000_0000_0000_0000_0000) as u32;
    let x1 = (a.bits / 0x1_0000_0000_0000_0000 % 0x1_0000_0000) as u32;
    let x2 = (a.bits / 0x1_0000_0000 % 0x1_0000_0000) as u32;
    let x3 = (a.bits % 0x1_0000_0000) as u32;
    assert(be32(s, 0) == x0) by {
        lemma_be32_round_trip(x0);
        assert(s[0] == be32_bytes(x0)[0] && s[1] == be32_bytes(x0)[1] && s[2] == be32_bytes(x0)[2] && s[3] == be32_bytes(
            x0,
        )[3]);
    }
    assert(be32(s, 4) == x1) by {
        lemma_be32_round_trip(x1);
        assert(s[4] == be32_bytes(x1)[0] && s[5] == be32_bytes(x1)[1] && s[6] == be32_bytes(x1)[2] && s[7] == be32_bytes(
            x1,
        )[3]);
    }
    assert(be32(s, 8) == x2) by {
        lemma_be32_round_trip(x2);
        assert(s[8] == be32_bytes(x2)[0] && s[9] == be32_bytes(x2)[1] && s[10] == be32_bytes(x2)[2] && s[11]
            == be32_bytes(x2)[3]);
    }
    assert(be32(s, 12) == x3) by {
        lemma_be32_round_trip(x3);
        assert(s[12] == be32_bytes(x3)[0] && s[13] == be32_bytes(x3)[1] && s[14] == be32_bytes(x3)[2] && s[15]
            == be32_bytes(x3)[3]);
    }
    lemma_four_words(a.bits);
}

/// Appends the bytes of an address.
fn push_ip6(v: &mut Vec<u8>, a: Ip6)
    ensures
        final(v)@ == old(v)@ + ip6_bytes(a),
{
    push_be32(v, (a.bits / 0x1_0000_0000_0000_0000_0000_0000) as u32);
    push_be32(v, (a.bits / 0x1_0000_0000_0000_0000 % 0x1_0000_0000) as u32);
    push_be32(v, (a.bits / 0x1_0000_0000 % 0x1_0000_0000) as u32);
    push_be32(v, (a.bits % 0x1_0000_0000) as u32);
    assert(v@ =~= old(v)@ + ip6_bytes(a));
}

/// The option of an address with its lifetimes.
pub open spec fn addr_option(addr: Ip6, preferred: u32, valid: u32) -> Seq<u8> {
    option6(OPTION6_IAADDR, ip6_bytes(addr) + be32_bytes(preferred) + be32_bytes(valid))
}

/// Builds the option of an address with its lifetimes.
pub fn iaaddr_suboption(addr: Ip6, preferred: u32, valid: u32) -> (v: Vec<u8>)
    ensures
        v@ == addr_option(addr, preferred, valid),
{
    let mut data: Vec<u8> = Vec::new();
    push_ip6(&mut data, addr);
    push_be32(&mut data, preferred);
    push_be32(&mut data, valid);
    assert(data@ =~= ip6_bytes(addr) + be32_bytes(preferred) + be32_bytes(valid));
    build_option6(OPTION6_IAADDR, data.as_slice())
}

/// The option of a status.
pub open spec fn status6(code: u16, message: Seq<char>) -> Seq<u8> {
    option6(OPTION6_STATUS_CODE, status_data(code, message))
}

/// Builds the option of a status.
pub fn status_option(code: u16, message: &str) -> (v: Vec<u8>)
    ensures
        v@ == status6(code, message@),
{
    let data: Vec<u8> = build_status_code(code, message);
    build_option6(OPTION6_STATUS_CODE, data.as_slice())
}

/// The option of a client's association of addresses.
pub open spec fn ia_option(iaid: u32, t1: u32, t2: u32, sub: Seq<u8>) -> Seq<u8> {
    option6(OPTION6_IA_NA, be32_bytes(iaid) + be32_bytes(t1) + be32_bytes(t2) + sub)
}

/// Builds the option of a client's association of addresses.
pub fn build_ia_na_option(iaid: u32, t1: u32, t2: u32, sub: &Vec<u8>) -> (v: Vec<u8>)
    ensures
        v@ == ia_option(iaid, t1, t2, sub@),
{
    let mut data: Vec<u8> = Vec::new();
    push_be32(&mut data, iaid);
    push_be32(&mut data, t1);
    push_be32(&mut data, t2);
    append_bytes(&mut data, sub.as_slice());
    assert(data@ =~= be32_bytes(iaid) + be32_bytes(t1) + be32_bytes(t2) + sub@);
    build_option6(OPTION6_IA_NA, data.as_slice())
}

/// The id of the client that sent options; empty where it sent none.
pub open spec fn client_id_in(options: Seq<u8>) -> Seq<u8> {
    match option6_in(options, OPTION6_CLIENT_ID) {
        Some(d) => d,
        None => seq![],
    }
}

/// The id of the client that sent a packet.
pub fn extract_client_id(pkt: &Dhcp6Packet) -> (v: Vec<u8>)
    ensures
        v@ == client_id_in(pkt.options@),
{
    match find_option6(pkt.options.as_slice(), OPTION6_CLIENT_ID) {
        Some(d) => {
            let v: Vec<u8> = copy_range(d, 0, d.len());
            assert(v@ =~= d@);
            v
        },
        None => {
            let v: Vec<u8> = Vec::new();
            assert(v@ =~= seq![]);
            v
        },
    }
}

/// A client's association of addresses: its number, and the first address in it.
pub struct Ia {
    pub iaid: u32,
    pub addr: Option<Ip6>,
}

/// The first address in the data of an association: it stands in an option after the number and the two
/// times.
pub open spec fn first_addr_in(data: Seq<u8>) -> Option<Ip6> {
    if data.len() <= 12 {
        None
    } else {
        match option6_in(data.skip(12), OPTION6_IAADDR) {
            Some(d) => if d.len() >= 16 {
                Some(ip6_at(d, 0))
            } else {
                None
            },
            None => None,
        }
    }
}

/// The first association of addresses among options.
pub open spec fn ia_in(options: Seq<u8>) -> Option<Ia> {
    match option6_in(options, OPTION6_IA_NA) {
        Some(d) => if d.len() >= 4 {
            Some(Ia { iaid: be32(d, 0), addr: first_addr_in(d) })
        } else {
            None
        },
        None => None,
    }
}

/// The first address in the data of an association.
fn ia_na_first_addr(ia_data: &[u8]) -> (r: Option<Ip6>)
    ensures
        r == first_addr_in(ia_data@),
{
    if ia_data.len() <= 12 {
        return None;
    }
    let rest: &[u8] = slice_subrange(ia_data, 12, ia_data.len());
    assert(rest@ =~= ia_data@.skip(12));
    match find_option6(rest, OPTION6_IAADDR) {
        Some(d) => {
            if d.len() >= 16 {
                Some(read_ip6(d, 0))
            } else {
                None
            }
        },
        None => None,
    }
}

/// The number and the first address of the first association of addresses in a packet.
pub fn extract_ia(pkt: &Dhcp6Packet) -> (r: Option<(u32, Option<Ip6>)>)
    ensures
        match ia_in(pkt.options@) {
            Some(ia) => r == Some((ia.iaid, ia.addr)),
            None => r is None,
        },
{
    match find_option6(pkt.options.as_slice(), OPTION6_IA_NA) {
        Some(d) => {
            if d.len() < 4 {
                None
            } else {
                Some((read_be32(d, 0), ia_na_first_addr(d)))
            }
        },
        None => None,
    }
}

/// The address of all nodes on a link, `ff02::1`.
pub const ALL_NODES_BITS: u128 = 0xff02_0000_0000_0000_0000_0000_0000_0001;

/// Where a reply is sent: to the sender of the message, or to all nodes where the sender is not known.
pub open spec fn reply_dest(src: SockAddr, port_override: Option<u16>) -> SockAddr {
    let port = match port_override {
        Some(p) => p,
        None => DHCPV6_CLIENT_PORT,
    };
    match src {
        SockAddr::V6 { ip, scope_id, .. } => if ip.bits != 0 {
            SockAddr::V6 { ip, port, scope_id }
        } else {
            SockAddr::V6 { ip: Ip6 { bits: ALL_NODES_BITS }, port, scope_id: 0 }
        },
        SockAddr::V4 { .. } => SockAddr::V6 { ip: Ip6 { bits: ALL_NODES_BITS }, port, scope_id: 0 },
    }
}

/// Where a reply is sent. The port is that of clients, or the one given instead.
pub fn dhcp6_reply_dest(src: SockAddr, port_override: Option<u16>) -> (r: SockAddr)
    ensures
        r == reply_dest(src, port_override),
{
    let port: u16 = match port_override {
        Some(p) => p,
        None => DHCPV6_CLIENT_PORT,
    };
    if let SockAddr::V6 { ip, scope_id, .. } = src {
        if ip.bits != 0 {
            return SockAddr::V6 { ip, port, scope_id };
        }
    }
    SockAddr::V6 { ip: Ip6 { bits: ALL_NODES_BITS }, port, scope_id: 0 }
}

} // verus!
