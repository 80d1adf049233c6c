//! Tests of the numbers and headers of the protocols.

use dnsmasq::dhcp6_protocol::{Dhcp6MsgType, Dhcp6Status, DHCPV6_CLIENT_PORT, DHCPV6_SERVER_PORT};
use dnsmasq::dhcp_protocol::{DhcpMsgType, DHCP_COOKIE};
use dnsmasq::dns_protocol::packet;
use dnsmasq::dns_protocol::{
    Class, DnsHeader, Ede, InvalidWireValue, Opcode, Rcode, RrType, HB3_QR, HB3_RD, HB4_RA,
};

#[test]
fn header_roundtrip() {
    let mut h = DnsHeader::default();
    h.id = 0xABCD;
    h.hb3 = HB3_QR | HB3_RD;
    h.hb4 = HB4_RA;
    h.qdcount = 1;
    let bytes = h.to_bytes();
    let h2 = DnsHeader::from_bytes(&bytes).unwrap();
    assert_eq!(h2.id, 0xABCD);
    assert!(h2.is_response());
    assert!(h2.is_rd());
    assert!(h2.is_ra());
    assert_eq!(h2.qdcount, 1);
}

#[test]
fn opcode_roundtrip() {
    let mut h = DnsHeader::default();
    h.set_opcode(4);
    assert_eq!(h.opcode(), 4);
}

#[test]
fn rcode_roundtrip() {
    let mut h = DnsHeader::default();
    h.set_rcode(Rcode::ServFail.as_u8());
    assert_eq!(h.rcode(), Rcode::ServFail.as_u8());
}

#[test]
fn header_too_short_returns_none() {
    assert!(DnsHeader::from_bytes(&[0u8; 11]).is_none());
}

#[test]
fn rrtype_from_u16() {
    assert_eq!(RrType::from_u16(1), Some(RrType::A));
    assert_eq!(RrType::from_u16(28), Some(RrType::AAAA));
    assert_eq!(RrType::from_u16(9999), None);
}

#[test]
fn rrtype_from_u16_legacy_types() {
    assert_eq!(RrType::from_u16(1), Some(RrType::A));
    assert_eq!(RrType::from_u16(2), Some(RrType::NS));
    assert_eq!(RrType::from_u16(3), Some(RrType::MD));
    assert_eq!(RrType::from_u16(4), Some(RrType::MF));
    assert_eq!(RrType::from_u16(5), Some(RrType::CNAME));
    assert_eq!(RrType::from_u16(6), Some(RrType::SOA));
    assert_eq!(RrType::from_u16(7), Some(RrType::MB));
    assert_eq!(RrType::from_u16(8), Some(RrType::MG));
    assert_eq!(RrType::from_u16(9), Some(RrType::MR));
    assert_eq!(RrType::from_u16(12), Some(RrType::PTR));
    assert_eq!(RrType::from_u16(14), Some(RrType::MINFO));
    assert_eq!(RrType::from_u16(15), Some(RrType::MX));
    assert_eq!(RrType::from_u16(16), Some(RrType::TXT));
    assert_eq!(RrType::from_u16(17), Some(RrType::RP));
    assert_eq!(RrType::from_u16(18), Some(RrType::AFSDB));
    assert_eq!(RrType::from_u16(21), Some(RrType::RT));
    assert_eq!(RrType::from_u16(24), Some(RrType::SIG));
    assert_eq!(RrType::from_u16(26), Some(RrType::PX));
    assert_eq!(RrType::from_u16(30), Some(RrType::NXT));
    assert_eq!(RrType::from_u16(36), Some(RrType::KX));
    assert_eq!(RrType::from_u16(39), Some(RrType::DNAME));
    assert_eq!(RrType::from_u16(249), Some(RrType::TKEY));
    assert_eq!(RrType::from_u16(250), Some(RrType::TSIG));
    assert_eq!(RrType::from_u16(253), Some(RrType::MAILB));
}

#[test]
fn rrtype_try_from_matches_from_u16() {
    assert_eq!(RrType::try_from(1u16), Ok(RrType::A));
    assert_eq!(RrType::try_from(9999u16), Err(InvalidWireValue(9999)));
}

#[test]
fn rcode_try_from_valid_and_invalid() {
    assert_eq!(Rcode::try_from(0u8), Ok(Rcode::NoError));
    assert_eq!(Rcode::try_from(3u8), Ok(Rcode::NxDomain));
    assert_eq!(Rcode::try_from(6u8), Err(InvalidWireValue(6)));
}

#[test]
fn opcode_try_from_valid_and_invalid() {
    assert_eq!(Opcode::try_from(0u8), Ok(Opcode::Query));
    assert_eq!(Opcode::try_from(5u8), Ok(Opcode::Update));
    assert_eq!(Opcode::try_from(3u8), Err(InvalidWireValue(3)));
}

#[test]
fn class_try_from_valid_and_invalid() {
    assert_eq!(Class::try_from(1u16), Ok(Class::IN));
    assert_eq!(Class::try_from(255u16), Ok(Class::ANY));
    assert_eq!(Class::try_from(2u16), Err(InvalidWireValue(2)));
}

#[test]
fn dhcp_msg_type_roundtrip() {
    for v in 1u8..=13 {
        assert!(DhcpMsgType::from_u8(v).is_some(), "missing type {v}");
    }
    assert!(DhcpMsgType::from_u8(0).is_none());
    assert!(DhcpMsgType::from_u8(14).is_none());
}

#[test]
fn cookie_value() {
    assert_eq!(DHCP_COOKIE, 0x63825363);
}

#[test]
fn msg_type_roundtrip() {
    for v in 1u8..=13 {
        assert!(Dhcp6MsgType::from_u8(v).is_some(), "missing type {v}");
    }
    assert!(Dhcp6MsgType::from_u8(0).is_none());
}

#[test]
fn ports() {
    assert_eq!(DHCPV6_SERVER_PORT, 547);
    assert_eq!(DHCPV6_CLIENT_PORT, 546);
}

#[test]
fn every_rcode_comes_back_from_its_number() {
    for v in 0u8..=255 {
        if let Ok(code) = Rcode::try_from(v) {
            assert_eq!(code.as_u8(), v);
        }
    }
}

#[test]
fn every_opcode_comes_back_from_its_number() {
    for v in 0u8..=255 {
        if let Ok(code) = Opcode::try_from(v) {
            assert_eq!(code.as_u8(), v);
        }
    }
}

#[test]
fn every_class_and_type_comes_back_from_its_number() {
    for v in 0u16..=65535 {
        if let Ok(class) = Class::try_from(v) {
            assert_eq!(class.as_u16(), v);
        }
        if let Some(t) = RrType::from_u16(v) {
            assert_eq!(t.as_u16(), v);
        }
    }
}

#[test]
fn every_message_type_comes_back_from_its_number() {
    for v in 1u8..=13 {
        assert_eq!(DhcpMsgType::from_u8(v).unwrap().as_u8(), v);
        assert_eq!(Dhcp6MsgType::from_u8(v).unwrap().as_u8(), v);
    }
    assert_eq!(Dhcp6Status::NotOnLink.as_u16(), 4);
}

#[test]
fn an_unknown_number_is_named_in_the_error() {
    assert_eq!(InvalidWireValue(9999).message(), "unrecognized DNS wire value: 9999");
}

#[test]
fn extended_errors_have_their_numbers() {
    assert_eq!(Ede::Unset.as_i16(), -1);
}

#[test]
fn header_bytes_are_in_network_order() {
    let mut h = DnsHeader::default();
    h.id = 0x1234;
    h.arcount = 0x0102;
    let b = h.to_bytes();
    assert_eq!(b[0], 0x12);
    assert_eq!(b[1], 0x34);
    assert_eq!(b[10], 1);
    assert_eq!(b[11], 2);
}

#[test]
fn an_opcode_of_sixteen_spills_over() {
    let mut h = DnsHeader::default();
    h.set_opcode(16);
    assert!(h.is_response());
    assert_eq!(h.opcode(), 0);
}

#[test]
fn packet_header_keeps_the_other_bits() {
    let mut h = packet::DnsHeader { id: 1, hb3: 0x81, hb4: 0x80, qdcount: 0, ancount: 0, nscount: 0, arcount: 0 };
    h.set_opcode(0x14);
    assert_eq!(h.hb3, 0x81 | (4 << 3));
    assert_eq!(h.opcode(), 4);
    h.set_rcode(0x13);
    assert_eq!(h.hb4, 0x83);
    assert_eq!(h.rcode(), 3);
}

#[test]
fn what_was_put_is_got() {
    let mut buf = vec![0u8; 8];
    let mut at: usize = 1;
    packet::put_u16(&mut buf, &mut at, 0xABCD);
    packet::put_u32(&mut buf, &mut at, 0x01020304);
    assert_eq!(at, 7);
    assert_eq!(buf, vec![0, 0xAB, 0xCD, 1, 2, 3, 4, 0]);
    let mut from: usize = 1;
    assert_eq!(packet::get_u16(&buf, &mut from), 0xABCD);
    assert_eq!(packet::get_u32(&buf, &mut from), 0x01020304);
    assert_eq!(from, 7);
}

#[test]
fn record_data_must_fit_the_packet() {
    assert!(packet::check_len(0, 12, 20, 8));
    assert!(!packet::check_len(0, 12, 20, 9));
    let mut pp: usize = 12;
    assert!(packet::add_rdlen(0, &mut pp, 20, 8));
    assert_eq!(pp, 20);
    assert!(!packet::add_rdlen(0, &mut pp, 20, 1));
    assert_eq!(pp, 20);
}

#[test]
fn each_flag_of_a_header_is_one_bit() {
    let header = |hb3: u8, hb4: u8| DnsHeader { hb3, hb4, ..DnsHeader::default() };
    let flags = |h: DnsHeader| {
        [h.is_response(), h.is_aa(), h.is_tc(), h.is_rd(), h.is_ra(), h.is_ad(), h.is_cd()]
    };
    assert_eq!(flags(header(0, 0)), [false; 7]);
    assert_eq!(flags(header(0xff, 0xff)), [true; 7]);
    let single = [(0x80, 0), (0x04, 0), (0x02, 0), (0x01, 0), (0, 0x80), (0, 0x20), (0, 0x10)];
    for (i, (hb3, hb4)) in single.into_iter().enumerate() {
        let mut expected = [false; 7];
        expected[i] = true;
        assert_eq!(flags(header(hb3, hb4)), expected);
        assert_eq!(header(hb3, hb4).is_query(), i != 0);
    }
}
