//! Packet buffers: integers in network order at a moving offset, and bounds on record data.

use crate::wire::{be16, be16_bytes, be32, be32_bytes, read_be16, read_be32};
use vstd::prelude::*;

verus! {

pub const NOERROR: u8 = 0;
pub const FORMERR: u8 = 1;
pub const SERVFAIL: u8 = 2;
pub const NXDOMAIN: u8 = 3;
pub const NOTIMP: u8 = 4;
pub const REFUSED: u8 = 5;
pub const QUERY: u8 = 0;
pub const C_IN: u16 = 1;
pub const C_CHAOS: u16 = 3;
pub const C_HESIOD: u16 = 4;
pub const C_ANY: u16 = 255;

/// The types of resource records.
#[derive(Debug, Clone, Copy, PartialEq, Eq, Structural)]
pub enum RecordType {
    A,
    NS,
    MD,
    MF,
    CNAME,
    SOA,
    MB,
    MG,
    MR,
    PTR,
    MINFO,
    MX,
    TXT,
    RP,
    AFSDB,
    RT,
    SIG,
    PX,
    AAAA,
    NXT,
    SRV,
    NAPTR,
    KX,
    DNAME,
    OPT,
    DS,
    RRSIG,
    NSEC,
    DNSKEY,
    NSEC3,
    TKEY,
    TSIG,
    AXFR,
    MAILB,
    ANY,
    CAA,
}

impl RecordType {
    /// The number that stands for the value on the wire.
    pub open spec fn code(self) -> u16 {
        match self {
            RecordType::A => 1,
            RecordType::NS => 2,
            RecordType::MD => 3,
            RecordType::MF => 4,
            RecordType::CNAME => 5,
            RecordType::SOA => 6,
            RecordType::MB => 7,
            RecordType::MG => 8,
            RecordType::MR => 9,
            RecordType::PTR => 12,
            RecordType::MINFO => 14,
            RecordType::MX => 15,
            RecordType::TXT => 16,
            RecordType::RP => 17,
            RecordType::AFSDB => 18,
            RecordType::RT => 21,
            RecordType::SIG => 24,
            RecordType::PX => 26,
            RecordType::AAAA => 28,
            RecordType::NXT => 30,
            RecordType::SRV => 33,
            RecordType::NAPTR => 35,
            RecordType::KX => 36,
            RecordType::DNAME => 39,
            RecordType::OPT => 41,
            RecordType::DS => 43,
            RecordType::RRSIG => 46,
            RecordType::NSEC => 47,
            RecordType::DNSKEY => 48,
            RecordType::NSEC3 => 50,
            RecordType::TKEY => 249,
            RecordType::TSIG => 250,
            RecordType::AXFR => 252,
            RecordType::MAILB => 253,
            RecordType::ANY => 255,
            RecordType::CAA => 257,
        }
    }

    /// The number that stands for the value on the wire.
    pub fn as_u16(&self) -> (r: u16)
        ensures
            r == self.code(),
    {
        match self {
            RecordType::A => 1,
            RecordType::NS => 2,
            RecordType::MD => 3,
            RecordType::MF => 4,
            RecordType::CNAME => 5,
            RecordType::SOA => 6,
            RecordType::MB => 7,
            RecordType::MG => 8,
            RecordType::MR => 9,
            RecordType::PTR => 12,
            RecordType::MINFO => 14,
            RecordType::MX => 15,
            RecordType::TXT => 16,
            RecordType::RP => 17,
            RecordType::AFSDB => 18,
            RecordType::RT => 21,
            RecordType::SIG => 24,
            RecordType::PX => 26,
            RecordType::AAAA => 28,
            RecordType::NXT => 30,
            RecordType::SRV => 33,
            RecordType::NAPTR => 35,
            RecordType::KX => 36,
            RecordType::DNAME => 39,
            RecordType::OPT => 41,
            RecordType::DS => 43,
            RecordType::RRSIG => 46,
            RecordType::NSEC => 47,
            RecordType::DNSKEY => 48,
            RecordType::NSEC3 => 50,
            RecordType::TKEY => 249,
            RecordType::TSIG => 250,
            RecordType::AXFR => 252,
            RecordType::MAILB => 253,
            RecordType::ANY => 255,
            RecordType::CAA => 257,
        }
    }
}

/// The extended DNS errors that packets carry; `Unset` is internal.
#[derive(Debug, Clone, Copy, PartialEq, Eq, Structural)]
pub enum ExtendedDnsError {
    Unset,
    Other,
    UsupDnskey,
    UnsNs3Iter,
    UnablePolicy,
    Synthesized,
}

impl ExtendedDnsError {
    /// The number that stands for the value on the wire.
    pub open spec fn code(self) -> i16 {
        match self {
            ExtendedDnsError::Unset => -1i16,
            ExtendedDnsError::Other => 0,
            ExtendedDnsError::UsupDnskey => 1,
            ExtendedDnsError::UnsNs3Iter => 27,
            ExtendedDnsError::UnablePolicy => 28,
            ExtendedDnsError::Synthesized => 29,
        }
    }

    /// The number that stands for the value on the wire.
    pub fn as_i16(&self) -> (r: i16)
        ensures
            r == self.code(),
    {
        match self {
            ExtendedDnsError::Unset => -1,
            ExtendedDnsError::Other => 0,
            ExtendedDnsError::UsupDnskey => 1,
            ExtendedDnsError::UnsNs3Iter => 27,
            ExtendedDnsError::UnablePolicy => 28,
            ExtendedDnsError::Synthesized => 29,
        }
    }
}

/// The header of a packet whose codes are cut to the width of their fields.
pub struct DnsHeader {
    pub id: u16,
    pub hb3: u8,
    pub hb4: u8,
    pub qdcount: u16,
    pub ancount: u16,
    pub nscount: u16,
    pub arcount: u16,
}

impl DnsHeader {
    /// The operation code: bits 3 to 6 of the third byte.
    pub fn opcode(&self) -> (r: u8)
        ensures
            r == self.hb3 / 8 % 16,
    {
        let x: u8 = self.hb3;
        assert((x & 0x78) >> 3 == x / 8 % 16) by (bit_vector);
        (x & super::HB3_OPCODE) >> 3
    }

    /// Replaces the operation code by the low four bits of `code`; the other bits stay.
    pub fn set_opcode(&mut self, code: u8)
        ensures
            *final(self) == (DnsHeader { hb3: final(self).hb3, ..*old(self) }),
            final(self).hb3 == old(self).hb3 / 128 * 128 + code % 16 * 8 + old(self).hb3 % 8,
    {
        let x: u8 = self.hb3;
        assert((x & !0x78) | ((code << 3) & 0x78) == x / 128 * 128 + code % 16 * 8 + x % 8) by (bit_vector);
        self.hb3 = (x & !super::HB3_OPCODE) | ((code << 3) & super::HB3_OPCODE);
    }

    /// The response code: the low four bits of the fourth byte.
    pub fn rcode(&self) -> (r: u8)
        ensures
            r == self.hb4 % 16,
    {
        let x: u8 = self.hb4;
        assert(x & 0x0f == x % 16) by (bit_vector);
        x & super::HB4_RCODE
    }

    /// Replaces the response code by the low four bits of `code`; the other bits stay.
    pub fn set_rcode(&mut self, code: u8)
        ensures
            *final(self) == (DnsHeader { hb4: final(self).hb4, ..*old(self) }),
            final(self).hb4 == old(self).hb4 / 16 * 16 + code % 16,
    {
        let x: u8 = self.hb4;
        assert((x & !0x0f) | (code & 0x0f) == x / 16 * 16 + code % 16) by (bit_vector);
        self.hb4 = (x & !super::HB4_RCODE) | (code & super::HB4_RCODE);
    }
}

/// `s` with `b` written over it at `i`.
pub open spec fn overwritten(s: Seq<u8>, i: int, b: Seq<u8>) -> Seq<u8> {
    s.take(i) + b + s.skip(i + b.len())
}

/// Reads the 16-bit integer at the offset and moves the offset behind it.
pub fn get_u16(buf: &[u8], offset: &mut usize) -> (val: u16)
    requires
        *old(offset) + 2 <= buf@.len(),
    ensures
        val == be16(buf@, *old(offset) as int),
        *final(offset) == *old(offset) + 2,
{
    let end: usize = buf.len();
    let val: u16 = read_be16(buf, *offset);
    assert(*offset + 2 <= end);
    *offset += 2;
    val
}

/// Reads the 32-bit integer at the offset and moves the offset behind it.
pub fn get_u32(buf: &[u8], offset: &mut usize) -> (val: u32)
    requires
        *old(offset) + 4 <= buf@.len(),
    ensures
        val == be32(buf@, *old(offset) as int),
        *final(offset) == *old(offset) + 4,
{
    let end: usize = buf.len();
    let val: u32 = read_be32(buf, *offset);
    assert(*offset + 4 <= end);
    *offset += 4;
    val
}

/// Writes the 16-bit integer at the offset and moves the offset behind it.
pub fn put_u16(buf: &mut [u8], offset: &mut usize, val: u16)
    requires
        *old(offset) + 2 <= old(buf)@.len(),
    ensures
        final(buf)@ == overwritten(old(buf)@, *old(offset) as int, be16_bytes(val)),
        *final(offset) == *old(offset) + 2,
{
    let at: usize = *offset;
    buf[at] = (val / 256) as u8;
    buf[at + 1] = (val % 256) as u8;
    assert(buf@ =~= overwritten(old(buf)@, at as int, be16_bytes(val)));
    *offset = at + 2;
}

/// Writes the 32-bit integer at the offset and moves the offset behind it.
pub fn put_u32(buf: &mut [u8], offset: &mut usize, val: u32)
    requires
        *old(offset) + 4 <= old(buf)@.len(),
    ensures
        final(buf)@ == overwritten(old(buf)@, *old(offset) as int, be32_bytes(val)),
        *final(offset) == *old(offset) + 4,
{
    let at: usize = *offset;
    buf[at] = (val / 0x100_0000) as u8;
    buf[at + 1] = (val / 0x1_0000 % 256) as u8;
    buf[at + 2] = (val / 0x100 % 256) as u8;
    buf[at + 3] = (val % 256) as u8;
    assert(buf@ =~= overwritten(old(buf)@, at as int, be32_bytes(val)));
    *offset = at + 4;
}

/// An integer that is written at an offset is read back there, and nothing else changes.
pub proof fn law_put_then_get(s: Seq<u8>, i: int, a: u16, b: u32)
    requires
        0 <= i,
    ensures
        i + 2 <= s.len() ==> be16(overwritten(s, i, be16_bytes(a)), i) == a,
        i + 4 <= s.len() ==> be32(overwritten(s, i, be32_bytes(b)), i) == b,
        i + 2 <= s.len() ==> forall|j: int|
            0 <= j < s.len() && (j < i || j >= i + 2) ==> overwritten(s, i, be16_bytes(a))[j] == s[j],
        i + 4 <= s.len() ==> forall|j: int|
            0 <= j < s.len() && (j < i || j >= i + 4) ==> overwritten(s, i, be32_bytes(b))[j] == s[j],
{
}

/// Whether `len` bytes from `pp` on end within the `plen` bytes that start at `header_offset`. Sums past
/// the largest `usize` count as that.
pub open spec fn len_fits(header_offset: usize, pp: usize, plen: usize, len: usize) -> bool {
    let used = if pp >= header_offset {
        pp - header_offset
    } else {
        0
    };
    used + len <= plen || plen == usize::MAX
}

/// Whether `len` bytes from `pp` on end within the packet.
pub fn check_len(header_offset: usize, pp: usize, plen: usize, len: usize) -> (r: bool)
    ensures
        r == len_fits(header_offset, pp, plen, len),
{
    let used: usize = if pp >= header_offset {
        pp - header_offset
    } else {
        0
    };
    plen == usize::MAX || (used <= plen && len <= plen - used)
}

/// Moves `pp` over `len` bytes where they end within the packet.
pub fn add_rdlen(header_offset: usize, pp: &mut usize, plen: usize, len: usize) -> (r: bool)
    requires
        *old(pp) + len <= usize::MAX || !len_fits(header_offset, *old(pp), plen, len),
    ensures
        r == len_fits(header_offset, *old(pp), plen, len),
        r ==> *final(pp) == *old(pp) + len,
        !r ==> *final(pp) == *old(pp),
{
    if !check_len(header_offset, *pp, plen, len) {
        return false;
    }
    *pp += len;
    true
}

} // verus!
