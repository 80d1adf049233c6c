//! DNS protocol constants, wire values and the packet header.

pub mod packet;

use crate::text::{decimal, plus, to_decimal};
use crate::wire::{be16, be16_bytes, read_be16};
use vstd::prelude::*;

verus! {

pub const NAMESERVER_PORT: u16 = 53;
pub const TFTP_PORT: u16 = 69;
pub const MIN_PORT: u16 = 1024;
pub const MAX_PORT: u16 = 65535;
pub const IN6ADDRSZ: usize = 16;
pub const INADDRSZ: usize = 4;
pub const PACKETSZ: usize = 512;
pub const MAXDNAME: usize = 1025;
pub const RRFIXEDSZ: usize = 10;
pub const MAXLABEL: usize = 63;

/// The byte that escapes a character in the internal form of a name.
pub const NAME_ESCAPE: u8 = 1;
pub const EDNS0_OPTION_MAC: u16 = 65001;
pub const EDNS0_OPTION_CLIENT_SUBNET: u16 = 8;
pub const EDNS0_OPTION_EDE: u16 = 15;
pub const EDNS0_OPTION_NOMDEVICEID: u16 = 65073;
pub const EDNS0_OPTION_NOMCPEID: u16 = 65074;
pub const EDNS0_OPTION_UMBRELLA: u16 = 20292;
pub const HB3_QR: u8 = 0x80;
pub const HB3_OPCODE: u8 = 0x78;
pub const HB3_AA: u8 = 0x04;
pub const HB3_TC: u8 = 0x02;
pub const HB3_RD: u8 = 0x01;
pub const HB4_RA: u8 = 0x80;
pub const HB4_AD: u8 = 0x20;
pub const HB4_CD: u8 = 0x10;
pub const HB4_RCODE: u8 = 0x0f;

/// A number on the wire that stands for none of the known values.
#[derive(Debug, Clone, Copy, PartialEq, Eq, Structural)]
pub struct InvalidWireValue(pub u16);

impl InvalidWireValue {
    /// The error as text.
    pub fn message(&self) -> (s: String)
        ensures
            s@ == "unrecognized DNS wire value: "@ + decimal(self.0 as nat),
    {
        let n: String = to_decimal(self.0 as u64);
        plus(String::from_str("unrecognized DNS wire value: "), n.as_str())
    }
}

/// The response codes of DNS.
#[derive(Debug, Clone, Copy, PartialEq, Eq, Structural)]
pub enum Rcode {
    NoError,
    FormErr,
    ServFail,
    NxDomain,
    NotImpl,
    Refused,
}

impl Rcode {
    /// The number that stands for the value on the wire.
    pub open spec fn code(self) -> u8 {
        match self {
            Rcode::NoError => 0,
            Rcode::FormErr => 1,
            Rcode::ServFail => 2,
            Rcode::NxDomain => 3,
            Rcode::NotImpl => 4,
            Rcode::Refused => 5,
        }
    }

    /// The number that stands for the value on the wire.
    pub fn as_u8(&self) -> (r: u8)
        ensures
            r == self.code(),
    {
        match self {
            Rcode::NoError => 0,
            Rcode::FormErr => 1,
            Rcode::ServFail => 2,
            Rcode::NxDomain => 3,
            Rcode::NotImpl => 4,
            Rcode::Refused => 5,
        }
    }
}

/// The value that the number `v` stands for, if there is one.
pub open spec fn rcode_of(v: u8) -> Option<Rcode> {
    if v == 0 {
        Some(Rcode::NoError)
    } else if v == 1 {
        Some(Rcode::FormErr)
    } else if v == 2 {
        Some(Rcode::ServFail)
    } else if v == 3 {
        Some(Rcode::NxDomain)
    } else if v == 4 {
        Some(Rcode::NotImpl)
    } else if v == 5 {
        Some(Rcode::Refused)
    } else {
        None
    }
}

impl TryFrom<u8> for Rcode {
    type Error = InvalidWireValue;

    fn try_from(v: u8) -> (r: Result<Self, InvalidWireValue>) {
        match v {
            0 => Ok(Rcode::NoError),
            1 => Ok(Rcode::FormErr),
            2 => Ok(Rcode::ServFail),
            3 => Ok(Rcode::NxDomain),
            4 => Ok(Rcode::NotImpl),
            5 => Ok(Rcode::Refused),
            _ => Err(InvalidWireValue(v as u16)),
        }
    }
}

impl vstd::std_specs::convert::TryFromSpecImpl<u8> for Rcode {
    open spec fn obeys_try_from_spec() -> bool {
        true
    }

    open spec fn try_from_spec(v: u8) -> Result<Self, InvalidWireValue> {
        match rcode_of(v) {
            Some(x) => Ok(x),
            None => Err(InvalidWireValue(v as u16)),
        }
    }
}

/// A number stands for a value exactly where it is that value's code.
pub proof fn law_rcode_of(v: u8, x: Rcode)
    ensures
        rcode_of(v) == Some(x) <==> x.code() == v,
{
}

/// The operation codes of DNS.
#[derive(Debug, Clone, Copy, PartialEq, Eq, Structural)]
pub enum Opcode {
    Query,
    IQuery,
    Status,
    Notify,
    Update,
}

impl Opcode {
    /// The number that stands for the value on the wire.
    pub open spec fn code(self) -> u8 {
        match self {
            Opcode::Query => 0,
            Opcode::IQuery => 1,
            Opcode::Status => 2,
            Opcode::Notify => 4,
            Opcode::Update => 5,
        }
    }

    /// The number that stands for the value on the wire.
    pub fn as_u8(&self) -> (r: u8)
        ensures
            r == self.code(),
    {
        match self {
            Opcode::Query => 0,
            Opcode::IQuery => 1,
            Opcode::Status => 2,
            Opcode::Notify => 4,
            Opcode::Update => 5,
        }
    }
}

/// The value that the number `v` stands for, if there is one.
pub open spec fn opcode_of(v: u8) -> Option<Opcode> {
    if v == 0 {
        Some(Opcode::Query)
    } else if v == 1 {
        Some(Opcode::IQuery)
    } else if v == 2 {
        Some(Opcode::Status)
    } else if v == 4 {
        Some(Opcode::Notify)
    } else if v == 5 {
        Some(Opcode::Update)
    } else {
        None
    }
}

impl TryFrom<u8> for Opcode {
    type Error = InvalidWireValue;

    fn try_from(v: u8) -> (r: Result<Self, InvalidWireValue>) {
        match v {
            0 => Ok(Opcode::Query),
            1 => Ok(Opcode::IQuery),
            2 => Ok(Opcode::Status),
            4 => Ok(Opcode::Notify),
            5 => Ok(Opcode::Update),
            _ => Err(InvalidWireValue(v as u16)),
        }
    }
}

impl vstd::std_specs::convert::TryFromSpecImpl<u8> for Opcode {
    open spec fn obeys_try_from_spec() -> bool {
        true
    }

    open spec fn try_from_spec(v: u8) -> Result<Self, InvalidWireValue> {
        match opcode_of(v) {
            Some(x) => Ok(x),
            None => Err(InvalidWireValue(v as u16)),
        }
    }
}

/// A number stands for a value exactly where it is that value's code.
pub proof fn law_opcode_of(v: u8, x: Opcode)
    ensures
        opcode_of(v) == Some(x) <==> x.code() == v,
{
}

/// The classes of queries and records.
#[derive(Debug, Clone, Copy, PartialEq, Eq, Structural)]
pub enum Class {
    IN,
    CHAOS,
    HESIOD,
    ANY,
}

impl Class {
    /// The number that stands for the value on the wire.
    pub open spec fn code(self) -> u16 {
        match self {
            Class::IN => 1,
            Class::CHAOS => 3,
            Class::HESIOD => 4,
            Class::ANY => 255,
        }
    }

    /// The number that stands for the value on the wire.
    pub fn as_u16(&self) -> (r: u16)
        ensures
            r == self.code(),
    {
        match self {
            Class::IN => 1,
            Class::CHAOS => 3,
            Class::HESIOD => 4,
            Class::ANY => 255,
        }
    }
}

/// The value that the number `v` stands for, if there is one.
pub open spec fn class_of(v: u16) -> Option<Class> {
    if v == 1 {
        Some(Class::IN)
    } else if v == 3 {
        Some(Class::CHAOS)
    } else if v == 4 {
        Some(Class::HESIOD)
    } else if v == 255 {
        Some(Class::ANY)
    } else {
        None
    }
}

impl TryFrom<u16> for Class {
    type Error = InvalidWireValue;

    fn try_from(v: u16) -> (r: Result<Self, InvalidWireValue>) {
        match v {
            1 => Ok(Class::IN),
            3 => Ok(Class::CHAOS),
            4 => Ok(Class::HESIOD),
            255 => Ok(Class::ANY),
            _ => Err(InvalidWireValue(v)),
        }
    }
}

impl vstd::std_specs::convert::TryFromSpecImpl<u16> for Class {
    open spec fn obeys_try_from_spec() -> bool {
        true
    }

    open spec fn try_from_spec(v: u16) -> Result<Self, InvalidWireValue> {
        match class_of(v) {
            Some(x) => Ok(x),
            None => Err(InvalidWireValue(v)),
        }
    }
}

/// A number stands for a value exactly where it is that value's code.
pub proof fn law_class_of(v: u16, x: Class)
    ensures
        class_of(v) == Some(x) <==> x.code() == v,
{
}

/// The types of resource records.
#[derive(Debug, Clone, Copy, PartialEq, Eq, Hash, Structural)]
pub enum RrType {
    A,
    NS,
    MD,
    MF,
    CNAME,
    SOA,
    MB,
    MG,
    MR,
    PTR,
    MINFO,
    MX,
    TXT,
    RP,
    AFSDB,
    RT,
    SIG,
    PX,
    AAAA,
    NXT,
    SRV,
    NAPTR,
    KX,
    DNAME,
    OPT,
    DS,
    RRSIG,
    NSEC,
    DNSKEY,
    NSEC3,
    TKEY,
    TSIG,
    AXFR,
    MAILB,
    ANY,
    CAA,
}

impl RrType {
    /// The number that stands for the value on the wire.
    pub open spec fn code(self) -> u16 {
        match self {
            RrType::A => 1,
            RrType::NS => 2,
            RrType::MD => 3,
            RrType::MF => 4,
            RrType::CNAME => 5,
            RrType::SOA => 6,
            RrType::MB => 7,
            RrType::MG => 8,
            RrType::MR => 9,
            RrType::PTR => 12,
            RrType::MINFO => 14,
            RrType::MX => 15,
            RrType::TXT => 16,
            RrType::RP => 17,
            RrType::AFSDB => 18,
            RrType::RT => 21,
            RrType::SIG => 24,
            RrType::PX => 26,
            RrType::AAAA => 28,
            RrType::NXT => 30,
            RrType::SRV => 33,
            RrType::NAPTR => 35,
            RrType::KX => 36,
            RrType::DNAME => 39,
            RrType::OPT => 41,
            RrType::DS => 43,
            RrType::RRSIG => 46,
            RrType::NSEC => 47,
            RrType::DNSKEY => 48,
            RrType::NSEC3 => 50,
            RrType::TKEY => 249,
            RrType::TSIG => 250,
            RrType::AXFR => 252,
            RrType::MAILB => 253,
            RrType::ANY => 255,
            RrType::CAA => 257,
        }
    }

    /// The number that stands for the value on the wire.
    pub fn as_u16(&self) -> (r: u16)
        ensures
            r == self.code(),
    {
        match self {
            RrType::A => 1,
            RrType::NS => 2,
            RrType::MD => 3,
            RrType::MF => 4,
            RrType::CNAME => 5,
            RrType::SOA => 6,
            RrType::MB => 7,
            RrType::MG => 8,
            RrType::MR => 9,
            RrType::PTR => 12,
            RrType::MINFO => 14,
            RrType::MX => 15,
            RrType::TXT => 16,
            RrType::RP => 17,
            RrType::AFSDB => 18,
            RrType::RT => 21,
            RrType::SIG => 24,
            RrType::PX => 26,
            RrType::AAAA => 28,
            RrType::NXT => 30,
            RrType::SRV => 33,
            RrType::NAPTR => 35,
            RrType::KX => 36,
            RrType::DNAME => 39,
            RrType::OPT => 41,
            RrType::DS => 43,
            RrType::RRSIG => 46,
            RrType::NSEC => 47,
            RrType::DNSKEY => 48,
            RrType::NSEC3 => 50,
            RrType::TKEY => 249,
            RrType::TSIG => 250,
            RrType::AXFR => 252,
            RrType::MAILB => 253,
            RrType::ANY => 255,
            RrType::CAA => 257,
        }
    }

    /// The record type that the number `v` stands for, if there is one.
    pub fn from_u16(v: u16) -> (r: Option<Self>)
        ensures
            r == rrtype_of(v),
    {
        match Self::try_from(v) {
            Ok(t) => Some(t),
            Err(_) => None,
        }
    }
}

/// The value that the number `v` stands for, if there is one.
pub open spec fn rrtype_of(v: u16) -> Option<RrType> {
    if v == 1 {
        Some(RrType::A)
    } else if v == 2 {
        Some(RrType::NS)
    } else if v == 3 {
        Some(RrType::MD)
    } else if v == 4 {
        Some(RrType::MF)
    } else if v == 5 {
        Some(RrType::CNAME)
    } else if v == 6 {
        Some(RrType::SOA)
    } else if v == 7 {
        Some(RrType::MB)
    } else if v == 8 {
        Some(RrType::MG)
    } else if v == 9 {
        Some(RrType::MR)
    } else if v == 12 {
        Some(RrType::PTR)
    } else if v == 14 {
        Some(RrType::MINFO)
    } else if v == 15 {
        Some(RrType::MX)
    } else if v == 16 {
        Some(RrType::TXT)
    } else if v == 17 {
        Some(RrType::RP)
    } else if v == 18 {
        Some(RrType::AFSDB)
    } else if v == 21 {
        Some(RrType::RT)
    } else if v == 24 {
        Some(RrType::SIG)
    } else if v == 26 {
        Some(RrType::PX)
    } else if v == 28 {
        Some(RrType::AAAA)
    } else if v == 30 {
        Some(RrType::NXT)
    } else if v == 33 {
        Some(RrType::SRV)
    } else if v == 35 {
        Some(RrType::NAPTR)
    } else if v == 36 {
        Some(RrType::KX)
    } else if v == 39 {
        Some(RrType::DNAME)
    } else if v == 41 {
        Some(RrType::OPT)
    } else if v == 43 {
        Some(RrType::DS)
    } else if v == 46 {
        Some(RrType::RRSIG)
    } else if v == 47 {
        Some(RrType::NSEC)
    } else if v == 48 {
        Some(RrType::DNSKEY)
    } else if v == 50 {
        Some(RrType::NSEC3)
    } else if v == 249 {
        Some(RrType::TKEY)
    } else if v == 250 {
        Some(RrType::TSIG)
    } else if v == 252 {
        Some(RrType::AXFR)
    } else if v == 253 {
        Some(RrType::MAILB)
    } else if v == 255 {
        Some(RrType::ANY)
    } else if v == 257 {
        Some(RrType::CAA)
    } else {
        None
    }
}

impl TryFrom<u16> for RrType {
    type Error = InvalidWireValue;

    fn try_from(v: u16) -> (r: Result<Self, InvalidWireValue>) {
        match v {
            1 => Ok(RrType::A),
            2 => Ok(RrType::NS),
            3 => Ok(RrType::MD),
            4 => Ok(RrType::MF),
            5 => Ok(RrType::CNAME),
            6 => Ok(RrType::SOA),
            7 => Ok(RrType::MB),
            8 => Ok(RrType::MG),
            9 => Ok(RrType::MR),
            12 => Ok(RrType::PTR),
            14 => Ok(RrType::MINFO),
            15 => Ok(RrType::MX),
            16 => Ok(RrType::TXT),
            17 => Ok(RrType::RP),
            18 => Ok(RrType::AFSDB),
            21 => Ok(RrType::RT),
            24 => Ok(RrType::SIG),
            26 => Ok(RrType::PX),
            28 => Ok(RrType::AAAA),
            30 => Ok(RrType::NXT),
            33 => Ok(RrType::SRV),
            35 => Ok(RrType::NAPTR),
            36 => Ok(RrType::KX),
            39 => Ok(RrType::DNAME),
            41 => Ok(RrType::OPT),
            43 => Ok(RrType::DS),
            46 => Ok(RrType::RRSIG),
            47 => Ok(RrType::NSEC),
            48 => Ok(RrType::DNSKEY),
            50 => Ok(RrType::NSEC3),
            249 => Ok(RrType::TKEY),
            250 => Ok(RrType::TSIG),
            252 => Ok(RrType::AXFR),
            253 => Ok(RrType::MAILB),
            255 => Ok(RrType::ANY),
            257 => Ok(RrType::CAA),
            _ => Err(InvalidWireValue(v)),
        }
    }
}

impl vstd::std_specs::convert::TryFromSpecImpl<u16> for RrType {
    open spec fn obeys_try_from_spec() -> bool {
        true
    }

    open spec fn try_from_spec(v: u16) -> Result<Self, InvalidWireValue> {
        match rrtype_of(v) {
            Some(x) => Ok(x),
            None => Err(InvalidWireValue(v)),
        }
    }
}

/// A number stands for a value exactly where it is that value's code.
pub proof fn law_rrtype_of(v: u16, x: RrType)
    ensures
        rrtype_of(v) == Some(x) <==> x.code() == v,
{
}

/// Extended DNS errors (RFC 8914); the negative ones are internal.
#[derive(Debug, Clone, Copy, PartialEq, Eq, Structural)]
pub enum Ede {
    UsServFail,
    Unset,
    Other,
    UsupDnskey,
    UsupDs,
    Stale,
    Forged,
    DnssecInd,
    DnssecBogus,
    SigExp,
    SigNyv,
    NoDnskey,
    NoRrsig,
    NoZonekey,
    NoNsec,
    CachedErr,
    NotReady,
    Blocked,
    Censored,
    Filtered,
    Prohibited,
    StaleNxd,
    NotAuth,
    NotSup,
    NoAuth,
    Neterr,
    InvalidData,
    SigEBV,
    TooEarly,
    UnsNs3Iter,
    UnablePolicy,
    Synthesized,
}

impl Ede {
    /// The number that stands for the value on the wire.
    pub open spec fn code(self) -> i16 {
        match self {
            Ede::UsServFail => -2i16,
            Ede::Unset => -1i16,
            Ede::Other => 0,
            Ede::UsupDnskey => 1,
            Ede::UsupDs => 2,
            Ede::Stale => 3,
            Ede::Forged => 4,
            Ede::DnssecInd => 5,
            Ede::DnssecBogus => 6,
            Ede::SigExp => 7,
            Ede::SigNyv => 8,
            Ede::NoDnskey => 9,
            Ede::NoRrsig => 10,
            Ede::NoZonekey => 11,
            Ede::NoNsec => 12,
            Ede::CachedErr => 13,
            Ede::NotReady => 14,
            Ede::Blocked => 15,
            Ede::Censored => 16,
            Ede::Filtered => 17,
            Ede::Prohibited => 18,
            Ede::StaleNxd => 19,
            Ede::NotAuth => 20,
            Ede::NotSup => 21,
            Ede::NoAuth => 22,
            Ede::Neterr => 23,
            Ede::InvalidData => 24,
            Ede::SigEBV => 25,
            Ede::TooEarly => 26,
            Ede::UnsNs3Iter => 27,
            Ede::UnablePolicy => 28,
            Ede::Synthesized => 29,
        }
    }

    /// The number that stands for the value on the wire.
    pub fn as_i16(&self) -> (r: i16)
        ensures
            r == self.code(),
    {
        match self {
            Ede::UsServFail => -2,
            Ede::Unset => -1,
            Ede::Other => 0,
            Ede::UsupDnskey => 1,
            Ede::UsupDs => 2,
            Ede::Stale => 3,
            Ede::Forged => 4,
            Ede::DnssecInd => 5,
            Ede::DnssecBogus => 6,
            Ede::SigExp => 7,
            Ede::SigNyv => 8,
            Ede::NoDnskey => 9,
            Ede::NoRrsig => 10,
            Ede::NoZonekey => 11,
            Ede::NoNsec => 12,
            Ede::CachedErr => 13,
            Ede::NotReady => 14,
            Ede::Blocked => 15,
            Ede::Censored => 16,
            Ede::Filtered => 17,
            Ede::Prohibited => 18,
            Ede::StaleNxd => 19,
            Ede::NotAuth => 20,
            Ede::NotSup => 21,
            Ede::NoAuth => 22,
            Ede::Neterr => 23,
            Ede::InvalidData => 24,
            Ede::SigEBV => 25,
            Ede::TooEarly => 26,
            Ede::UnsNs3Iter => 27,
            Ede::UnablePolicy => 28,
            Ede::Synthesized => 29,
        }
    }
}

/// The header of a DNS packet.
#[derive(Debug, Clone, Copy)]
pub struct DnsHeader {
    pub id: u16,
    pub hb3: u8,
    pub hb4: u8,
    pub qdcount: u16,
    pub ancount: u16,
    pub nscount: u16,
    pub arcount: u16,
}

impl Default for DnsHeader {
    fn default() -> (h: Self)
        ensures
            h == (DnsHeader { id: 0, hb3: 0, hb4: 0, qdcount: 0, ancount: 0, nscount: 0, arcount: 0 }),
    {
        DnsHeader { id: 0, hb3: 0, hb4: 0, qdcount: 0, ancount: 0, nscount: 0, arcount: 0 }
    }
}

/// The operation code in the third byte of a header: bits 3 to 6.
pub open spec fn opcode_bits(hb3: u8) -> u8 {
    (hb3 / 8 % 16) as u8
}

/// The response code in the fourth byte of a header: the low four bits.
pub open spec fn rcode_bits(hb4: u8) -> u8 {
    hb4 % 16
}

/// The twelve bytes of a header.
pub open spec fn header_bytes(h: DnsHeader) -> Seq<u8> {
    be16_bytes(h.id) + seq![h.hb3, h.hb4] + be16_bytes(h.qdcount) + be16_bytes(h.ancount) + be16_bytes(h.nscount)
        + be16_bytes(h.arcount)
}

/// The header that starts `b`, if there are twelve bytes.
pub open spec fn header_of(b: Seq<u8>) -> Option<DnsHeader> {
    if b.len() < 12 {
        None
    } else {
        Some(
            DnsHeader {
                id: be16(b, 0),
                hb3: b[2],
                hb4: b[3],
                qdcount: be16(b, 4),
                ancount: be16(b, 6),
                nscount: be16(b, 8),
                arcount: be16(b, 10),
            },
        )
    }
}

/// A header that is written and read back is the same, whatever follows it.
pub proof fn law_header_round_trip(h: DnsHeader, rest: Seq<u8>)
    ensures
        header_bytes(h).len() == 12,
        header_of(header_bytes(h) + rest) == Some(h),
{
}

impl DnsHeader {
    /// The operation code.
    pub fn opcode(&self) -> (r: u8)
        ensures
            r == opcode_bits(self.hb3),
    {
        let x: u8 = self.hb3;
        assert((x & 0x78) >> 3 == x / 8 % 16) by (bit_vector);
        (x & HB3_OPCODE) >> 3
    }

    /// Replaces the operation code. A code of sixteen or more spills over into the response bit.
    pub fn set_opcode(&mut self, code: u8)
        ensures
            *final(self) == (DnsHeader { hb3: final(self).hb3, ..*old(self) }),
            final(self).hb3 == (old(self).hb3 & 0x87) | (code << 3),
            code < 16 ==> opcode_bits(final(self).hb3) == code,
            code < 16 ==> final(self).hb3 % 8 == old(self).hb3 % 8,
            code < 16 ==> final(self).hb3 / 128 == old(self).hb3 / 128,
    {
        let x: u8 = self.hb3;
        let y: u8 = (x & !HB3_OPCODE) | (code << 3);
        assert(!0x78u8 == 0x87u8) by (bit_vector);
        assert(code < 16 ==> y / 8 % 16 == code && y % 8 == x % 8 && y / 128 == x / 128) by (bit_vector)
            requires
                y == (x & 0x87) | (code << 3),
        ;
        self.hb3 = y;
    }

    /// The response code.
    pub fn rcode(&self) -> (r: u8)
        ensures
            r == rcode_bits(self.hb4),
    {
        let x: u8 = self.hb4;
        assert(x & 0x0f == x % 16) by (bit_vector);
        x & HB4_RCODE
    }

    /// Replaces the response code. A code of sixteen or more spills over into the flags above it.
    pub fn set_rcode(&mut self, code: u8)
        ensures
            *final(self) == (DnsHeader { hb4: final(self).hb4, ..*old(self) }),
            final(self).hb4 == (old(self).hb4 & 0xf0) | code,
            code < 16 ==> rcode_bits(final(self).hb4) == code,
            code < 16 ==> final(self).hb4 / 16 == old(self).hb4 / 16,
    {
        let x: u8 = self.hb4;
        let y: u8 = (x & !HB4_RCODE) | code;
        assert(!0x0fu8 == 0xf0u8) by (bit_vector);
        assert(code < 16 ==> y % 16 == code && y / 16 == x / 16) by (bit_vector)
            requires
                y == (x & 0xf0) | code,
        ;
        self.hb4 = y;
    }

    /// Whether the packet is a query.
    pub fn is_query(&self) -> (r: bool)
        ensures
            r == (self.hb3 / 128 % 2 == 0),
    {
        let x: u8 = self.hb3;
        assert((x & 0x80 != 0) == (x / 128 % 2 == 1)) by (bit_vector);
        x & HB3_QR == 0
    }

    /// Whether the packet is a response.
    pub fn is_response(&self) -> (r: bool)
        ensures
            r == (self.hb3 / 128 % 2 == 1),
    {
        let x: u8 = self.hb3;
        assert((x & 0x80 != 0) == (x / 128 % 2 == 1)) by (bit_vector);
        x & HB3_QR != 0
    }

    /// Whether the answer is authoritative.
    pub fn is_aa(&self) -> (r: bool)
        ensures
            r == (self.hb3 / 4 % 2 == 1),
    {
        let x: u8 = self.hb3;
        assert((x & 0x4 != 0) == (x / 4 % 2 == 1)) by (bit_vector);
        x & HB3_AA != 0
    }

    /// Whether the packet was truncated.
    pub fn is_tc(&self) -> (r: bool)
        ensures
            r == (self.hb3 / 2 % 2 == 1),
    {
        let x: u8 = self.hb3;
        assert((x & 0x2 != 0) == (x / 2 % 2 == 1)) by (bit_vector);
        x & HB3_TC != 0
    }

    /// Whether recursion is desired.
    pub fn is_rd(&self) -> (r: bool)
        ensures
            r == (self.hb3 / 1 % 2 == 1),
    {
        let x: u8 = self.hb3;
        assert((x & 0x1 != 0) == (x / 1 % 2 == 1)) by (bit_vector);
        x & HB3_RD != 0
    }

    /// Whether recursion is available.
    pub fn is_ra(&self) -> (r: bool)
        ensures
            r == (self.hb4 / 128 % 2 == 1),
    {
        let x: u8 = self.hb4;
        assert((x & 0x80 != 0) == (x / 128 % 2 == 1)) by (bit_vector);
        x & HB4_RA != 0
    }

    /// Whether the data is authenticated.
    pub fn is_ad(&self) -> (r: bool)
        ensures
            r == (self.hb4 / 32 % 2 == 1),
    {
        let x: u8 = self.hb4;
        assert((x & 0x20 != 0) == (x / 32 % 2 == 1)) by (bit_vector);
        x & HB4_AD != 0
    }

    /// Whether checking is disabled.
    pub fn is_cd(&self) -> (r: bool)
        ensures
            r == (self.hb4 / 16 % 2 == 1),
    {
        let x: u8 = self.hb4;
        assert((x & 0x10 != 0) == (x / 16 % 2 == 1)) by (bit_vector);
        x & HB4_CD != 0
    }

    /// Reads a header from the start of `buf`.
    pub fn from_bytes(buf: &[u8]) -> (r: Option<Self>)
        ensures
            r == header_of(buf@),
    {
        if buf.len() < 12 {
            return None;
        }
        Some(
            DnsHeader {
                id: read_be16(buf, 0),
                hb3: buf[2],
                hb4: buf[3],
                qdcount: read_be16(buf, 4),
                ancount: read_be16(buf, 6),
                nscount: read_be16(buf, 8),
                arcount: read_be16(buf, 10),
            },
        )
    }

    /// Writes the header as twelve bytes.
    pub fn to_bytes(&self) -> (b: [u8; 12])
        ensures
            b@ == header_bytes(*self),
    {
        let b: [u8; 12] = [
            (self.id / 256) as u8,
            (self.id % 256) as u8,
            self.hb3,
            self.hb4,
            (self.qdcount / 256) as u8,
            (self.qdcount % 256) as u8,
            (self.ancount / 256) as u8,
            (self.ancount % 256) as u8,
            (self.nscount / 256) as u8,
            (self.nscount % 256) as u8,
            (self.arcount / 256) as u8,
            (self.arcount % 256) as u8,
        ];
        assert(b@ =~= header_bytes(*self));
        b
    }
}

} // verus!
