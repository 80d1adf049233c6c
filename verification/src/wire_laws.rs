//! Where the bytes of numbers, names, headers and messages stand.

use crate::addr::Ip6;
use crate::dhcp6::packet::{ip6_bytes, option6, parsed, reply_bytes, Parsed, Reply};
use crate::dhcp6_protocol::Dhcp6MsgType;
use crate::dhcp_common::describe::ip6_at;
use crate::dns_protocol::packet::{len_fits, RecordType};
use crate::dns_protocol::{header_bytes, header_of, opcode_bits, rcode_bits, rrtype_of, DnsHeader, RrType};
use crate::wire::{be16, be16_bytes, be32, be32_bytes, name_labels, name_wire, wire_labels};
use vstd::prelude::*;
use vstd::utf8::encode_utf8;

verus! {

/// The highest byte of a number stands first, on both ways.
pub proof fn law_highest_byte_first(a: u8, b: u8, c: u8, d: u8, before: Seq<u8>, after: Seq<u8>)
    ensures
        be16_bytes((a * 256 + b) as u16) == seq![a, b],
        be32_bytes((a * 0x100_0000 + b * 0x1_0000 + c * 0x100 + d) as u32) == seq![a, b, c, d],
        be16(before + seq![a, b] + after, before.len() as int) == a * 256 + b,
        be32(before + seq![a, b, c, d] + after, before.len() as int) == a * 0x100_0000 + b * 0x1_0000 + c * 0x100 + d,
{
    lemma_bytes(a, b, c, d);
    let s = before + seq![a, b] + after;
    let n = before.len() as int;
    assert(s[n] == a && s[n + 1] == b);
    let t = before + seq![a, b, c, d] + after;
    assert(t[n] == a && t[n + 1] == b && t[n + 2] == c && t[n + 3] == d);
}

/// The bytes of a number.
proof fn lemma_bytes(a: u8, b: u8, c: u8, d: u8)
    ensures
        be16_bytes((a * 256 + b) as u16) == seq![a, b],
        be32_bytes((a * 0x100_0000 + b * 0x1_0000 + c * 0x100 + d) as u32) == seq![a, b, c, d],
{
    let x = a * 0x100_0000 + b * 0x1_0000 + c * 0x100 + d;
    assert(x / 0x100 == a * 0x1_0000 + b * 0x100 + c);
    assert(x / 0x1_0000 == a * 0x100 + b);
    assert(x / 0x100_0000 == a);
}

/// An IPv6 address is written as its four words, the highest first, and read so.
pub proof fn law_address_in_words(w0: u32, w1: u32, w2: u32, w3: u32)
    ensures
        ({
            let a = Ip6 {
                bits: (w0 * 0x1_0000_0000_0000_0000_0000_0000 + w1 * 0x1_0000_0000_0000_0000 + w2 * 0x1_0000_0000 + w3) as u128,
            };
            let s = be32_bytes(w0) + be32_bytes(w1) + be32_bytes(w2) + be32_bytes(w3);
            &&& ip6_bytes(a) == s
            &&& s.len() == 16
        }),
{
    let a = Ip6 { bits: (w0 * 0x1_0000_0000_0000_0000_0000_0000 + w1 * 0x1_0000_0000_0000_0000 + w2 * 0x1_0000_0000 + w3) as u128 };
    lemma_four(w0 as int, w1 as int, w2 as int, w3 as int);
    assert((a.bits / 0x1_0000_0000_0000_0000_0000_0000) as u32 == w0);
    assert((a.bits / 0x1_0000_0000_0000_0000 % 0x1_0000_0000) as u32 == w1);
    assert((a.bits / 0x1_0000_0000 % 0x1_0000_0000) as u32 == w2);
    assert((a.bits % 0x1_0000_0000) as u32 == w3);
}

/// A number of four words.
proof fn lemma_four(w0: int, w1: int, w2: int, w3: int)
    requires
        0 <= w0 < 0x1_0000_0000,
        0 <= w1 < 0x1_0000_0000,
        0 <= w2 < 0x1_0000_0000,
        0 <= w3 < 0x1_0000_0000,
    ensures
        ({
            let x = w0 * 0x1_0000_0000_0000_0000_0000_0000 + w1 * 0x1_0000_0000_0000_0000 + w2 * 0x1_0000_0000 + w3;
            &&& 0 <= x <= u128::MAX
            &&& x / 0x1_0000_0000_0000_0000_0000_0000 == w0
            &&& x / 0x1_0000_0000_0000_0000 % 0x1_0000_0000 == w1
            &&& x / 0x1_0000_0000 % 0x1_0000_0000 == w2
            &&& x % 0x1_0000_0000 == w3
        }),
{
    let x = w0 * 0x1_0000_0000_0000_0000_0000_0000 + w1 * 0x1_0000_0000_0000_0000 + w2 * 0x1_0000_0000 + w3;
    assert(x / 0x1_0000_0000 == w0 * 0x1_0000_0000_0000_0000 + w1 * 0x1_0000_0000 + w2);
    assert(x / 0x1_0000_0000_0000_0000 == w0 * 0x1_0000_0000 + w1);
    assert(x / 0x1_0000_0000_0000_0000_0000_0000 == w0);
}

/// A header is the id, the two bytes of flags, and the four counts, in this order.
pub proof fn law_header_layout(h: DnsHeader, b: Seq<u8>)
    ensures
        header_bytes(h) == seq![
            (h.id / 256) as u8,
            (h.id % 256) as u8,
            h.hb3,
            h.hb4,
            (h.qdcount / 256) as u8,
            (h.qdcount % 256) as u8,
            (h.ancount / 256) as u8,
            (h.ancount % 256) as u8,
            (h.nscount / 256) as u8,
            (h.nscount % 256) as u8,
            (h.arcount / 256) as u8,
            (h.arcount % 256) as u8,
        ],
        b.len() >= 12 ==> (header_of(b) matches Some(g) && {
            &&& g.id == b[0] * 256 + b[1]
            &&& g.hb3 == b[2] && g.hb4 == b[3]
            &&& g.qdcount == b[4] * 256 + b[5]
            &&& g.ancount == b[6] * 256 + b[7]
            &&& g.nscount == b[8] * 256 + b[9]
            &&& g.arcount == b[10] * 256 + b[11]
        }),
        b.len() < 12 ==> header_of(b) is None,
{
}

/// Between the first bit and the last three of the third byte stands the operation code, and the response code at the end of the
/// fourth.
pub proof fn law_codes_in_header(first: u8, code: u8, low: u8)
    requires
        first < 2,
        code < 16,
        low < 8,
    ensures
        opcode_bits((first * 128 + code * 8 + low) as u8) == code,
        rcode_bits(((first * 8 + low) * 16 + code) as u8) == code,
{
}

/// The types of records have the same numbers in packets as elsewhere.
pub proof fn law_record_types_agree(t: RecordType)
    ensures
        rrtype_of(t.code()) == Some(match t {
            RecordType::A => RrType::A,
            RecordType::NS => RrType::NS,
            RecordType::MD => RrType::MD,
            RecordType::MF => RrType::MF,
            RecordType::CNAME => RrType::CNAME,
            RecordType::SOA => RrType::SOA,
            RecordType::MB => RrType::MB,
            RecordType::MG => RrType::MG,
            RecordType::MR => RrType::MR,
            RecordType::PTR => RrType::PTR,
            RecordType::MINFO => RrType::MINFO,
            RecordType::MX => RrType::MX,
            RecordType::TXT => RrType::TXT,
            RecordType::RP => RrType::RP,
            RecordType::AFSDB => RrType::AFSDB,
            RecordType::RT => RrType::RT,
            RecordType::SIG => RrType::SIG,
            RecordType::PX => RrType::PX,
            RecordType::AAAA => RrType::AAAA,
            RecordType::NXT => RrType::NXT,
            RecordType::SRV => RrType::SRV,
            RecordType::NAPTR => RrType::NAPTR,
            RecordType::KX => RrType::KX,
            RecordType::DNAME => RrType::DNAME,
            RecordType::OPT => RrType::OPT,
            RecordType::DS => RrType::DS,
            RecordType::RRSIG => RrType::RRSIG,
            RecordType::NSEC => RrType::NSEC,
            RecordType::DNSKEY => RrType::DNSKEY,
            RecordType::NSEC3 => RrType::NSEC3,
            RecordType::TKEY => RrType::TKEY,
            RecordType::TSIG => RrType::TSIG,
            RecordType::AXFR => RrType::AXFR,
            RecordType::MAILB => RrType::MAILB,
            RecordType::ANY => RrType::ANY,
            RecordType::CAA => RrType::CAA,
        }),
{
}

/// Bytes fit into a packet where the last of them lies in it.
pub proof fn law_bytes_fit(start: usize, at: usize, packet: usize, len: usize)
    requires
        start <= at,
        packet < usize::MAX,
    ensures
        len_fits(start, at, packet, len) <==> at + len <= start + packet,
{
}

/// Labels are written one by one, each behind its length, and behind the last stands a zero.
pub proof fn law_labels_on_the_wire(label: Seq<char>, rest: Seq<Seq<char>>, name: Seq<char>)
    requires
        encode_utf8(label).len() < 256,
    ensures
        wire_labels(seq![]) == Seq::<u8>::empty(),
        wire_labels(seq![label] + rest) == seq![encode_utf8(label).len() as u8] + encode_utf8(label) + wire_labels(rest),
        name_wire(name) == wire_labels(name_labels(name)) + seq![0u8],
{
    let all = seq![label] + rest;
    assert(all.skip(1) =~= rest);
    assert(name_wire(name) =~= wire_labels(name_labels(name)) + seq![0u8]);
}

/// A DHCPv6 option is its code, the length of its data, and its data.
pub proof fn law_option6_layout(code: u16, data: Seq<u8>)
    requires
        data.len() < 0x1_0000,
    ensures
        option6(code, data) == seq![(code / 256) as u8, (code % 256) as u8, (data.len() / 256) as u8, (data.len() % 256) as u8] + data,
{
}

/// A DHCPv6 message is its type, three bytes of its transaction, and its options. What is shorter is none.
pub proof fn law_message_layout(t: Dhcp6MsgType, x: u8, y: u8, z: u8, options: Seq<u8>)
    requires
        !(t is RelayForw) && !(t is RelayRepl),
    ensures
        parsed(seq![t.code(), x, y, z] + options) == (Parsed::Message {
            msg_type: t,
            xid: (x * 0x1_0000 + y * 0x100 + z) as u32,
            options,
        }),
        parsed(seq![t.code(), x, y]) is Bad,
{
    let s = seq![t.code(), x, y, z] + options;
    assert(s[0] == t.code() && s[1] == x && s[2] == y && s[3] == z);
    assert(s.skip(4) =~= options);
}

/// A reply is written in this way.
pub proof fn law_reply_layout(t: Dhcp6MsgType, x: u8, y: u8, z: u8, options: Seq<u8>)
    ensures
        reply_bytes(Reply { msg_type: t, xid: (x * 0x1_0000 + y * 0x100 + z) as u32, options }) == seq![t.code(), x, y, z] + options,
{
    let v = x * 0x1_0000 + y * 0x100 + z;
    assert(v / 0x100 == x * 0x100 + y);
    assert(v / 0x1_0000 == x);
}

/// A DHCPv6 message that was relayed is its type, a count of hops, the addresses of the link and of the peer, and its options.
pub proof fn law_relayed_message_layout(t: Dhcp6MsgType, hops: u8, link: Ip6, peer: Ip6, options: Seq<u8>)
    requires
        t is RelayForw || t is RelayRepl,
    ensures
        parsed(seq![t.code(), hops] + ip6_bytes(link) + ip6_bytes(peer) + options) == (Parsed::Relay {
            msg_type: t,
            hop_count: hops,
            link_addr: link,
            peer_addr: peer,
            options,
        }),
{
    let head = seq![t.code(), hops];
    let s = head + ip6_bytes(link) + ip6_bytes(peer) + options;
    lemma_address_at(head, link, ip6_bytes(peer) + options);
    lemma_address_at(head + ip6_bytes(link), peer, options);
    assert(head + ip6_bytes(link) + (ip6_bytes(peer) + options) =~= s);
    assert(s[0] == head[0] && s[1] == head[1]);
    assert(s.skip(34) =~= options);
}

/// An address is read where it stands.
proof fn lemma_address_at(before: Seq<u8>, a: Ip6, after: Seq<u8>)
    ensures
        ip6_at(before + ip6_bytes(a) + after, before.len() as int) == a,
        ip6_bytes(a).len() == 16,
{
    crate::dhcp6::packet::law_ip6_round_trip(a, after);
    let s = before + ip6_bytes(a) + after;
    let t = ip6_bytes(a) + after;
    let n = before.len() as int;
    assert forall|k: int| 0 <= k < 16 implies #[trigger] s[n + k] == t[k] by {}
    assert(s[n + 0] == t[0] && s[n + 1] == t[1] && s[n + 2] == t[2] && s[n + 3] == t[3]);
    assert(s[n + 4] == t[4] && s[n + 5] == t[5] && s[n + 6] == t[6] && s[n + 7] == t[7]);
    assert(s[n + 8] == t[8] && s[n + 9] == t[9] && s[n + 10] == t[10] && s[n + 11] == t[11]);
    assert(s[n + 12] == t[12] && s[n + 13] == t[13] && s[n + 14] == t[14] && s[n + 15] == t[15]);
}

} // verus!
