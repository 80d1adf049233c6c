//! Tests of the DHCPv6 server.

use dnsmasq::addr::{AllAddr, Ip4, Ip6, SockAddr};
use dnsmasq::daemon::Daemon;
use dnsmasq::dhcp6::pool::{addr6_with_host, addr6part};
use dnsmasq::dhcp6::{
    address6_allocate, address6_available, address6_valid, classify_addr6, complete_context6, config_find_by_address6,
    dhcp6_reply_dest, dhcp_construct_contexts, dispatch_dhcp6, find_option6, hash_to_addr6, is_same_net6, make_duid,
    parse_dhcp6_packet, sdbm_hash64, serve_datagram, Addr6Class, Dhcp6Packet, Dhcp6Reply, DuidMacSource, LiveAddr6, DUID_EN, DUID_LL,
    DUID_LLT,
};
use dnsmasq::dhcp6_protocol::{
    Dhcp6MsgType, OPTION6_CLIENT_ID, OPTION6_IAADDR, OPTION6_IA_NA, OPTION6_RAPID_COMMIT, OPTION6_SERVER_ID,
    OPTION6_STATUS_CODE,
};
use dnsmasq::dhcp_types::{AddrList, ConfigFlags, ContextFlags, DhcpConfig, DhcpContext, DhcpNetid};
use dnsmasq::lease::{LeaseDb, LEASE_NA};
use dnsmasq::rfc3315::{
    calculate_times, STATUS_NOT_ON_LINK, STATUS_NO_ADDRS_AVAIL, STATUS_NO_BINDING, STATUS_SUCCESS, STATUS_UNSPEC_FAIL,
};

/// An IPv6 address from its text.
fn ip6(text: &str) -> Ip6 {
    let (head, tail) = match text.split_once("::") {
        Some((h, t)) => (h, Some(t)),
        None => (text, None),
    };
    let words = |s: &str| -> Vec<u128> {
        s.split(':').filter(|w| !w.is_empty()).map(|w| u128::from_str_radix(w, 16).unwrap()).collect()
    };
    let front = words(head);
    let back = words(tail.unwrap_or(""));
    let mut bits: u128 = 0;
    for i in 0..8usize {
        let word = if i < front.len() {
            front[i]
        } else if i + back.len() >= 8 {
            back[i + back.len() - 8]
        } else {
            0
        };
        bits = bits * 65536 + word;
    }
    Ip6 { bits }
}

fn solicit_pkt(xid: u32) -> Vec<u8> {
    let mut v = Vec::new();
    v.push(Dhcp6MsgType::Solicit.as_u8());
    v.push(((xid >> 16) & 0xFF) as u8);
    v.push(((xid >>  8) & 0xFF) as u8);
    v.push(( xid        & 0xFF) as u8);
    v
}

fn solicit_with_ia(xid: u32, iaid: [u8; 4]) -> Vec<u8> {
    let mut v = solicit_pkt(xid);
    v.extend_from_slice(&OPTION6_CLIENT_ID.to_be_bytes());
    v.extend_from_slice(&4u16.to_be_bytes());
    v.extend_from_slice(&[0xAA, 0xBB, 0xCC, 0xDD]);
    v.extend_from_slice(&OPTION6_IA_NA.to_be_bytes());
    v.extend_from_slice(&12u16.to_be_bytes());
    v.extend_from_slice(&iaid);
    v.extend_from_slice(&0u32.to_be_bytes());
    v.extend_from_slice(&0u32.to_be_bytes());
    v
}

#[test]
fn parse_solicit_ok() {
    let data = solicit_pkt(0xABCD12);
    let pkt = parse_dhcp6_packet(&data).unwrap();
    assert_eq!(pkt.msg_type, Dhcp6MsgType::Solicit);
    assert_eq!(pkt.xid, 0xABCD12);
}

#[test]
fn parse_short_returns_err() {
    assert!(parse_dhcp6_packet(&[1, 2, 3]).is_err());
}

#[test]
fn parse_unknown_type_returns_err() {
    assert!(parse_dhcp6_packet(&[0xFF, 0, 0, 0]).is_err());
}

#[test]
fn solicit_dispatches_to_advertise() {
    let data = solicit_pkt(0x1234);
    let pkt = parse_dhcp6_packet(&data).unwrap();
    let duid = vec![0x00, 0x03, 0x00, 0x01, 0xAA, 0xBB, 0xCC, 0xDD, 0xEE, 0xFF];
    let mut db = LeaseDb::new();
    let reply = dispatch_dhcp6(&pkt, &duid, &[], &[], &mut db, false, 0);
    assert!(reply.is_some());
    assert_eq!(reply.unwrap().msg_type, Dhcp6MsgType::Advertise);
}

#[test]
fn request_dispatches_to_reply() {
    let mut data = solicit_pkt(0x5678);
    data[0] = Dhcp6MsgType::Request.as_u8();
    let pkt = parse_dhcp6_packet(&data).unwrap();
    let duid = vec![0x00, 0x03, 0x00, 0x01, 0xAA, 0xBB, 0xCC, 0xDD, 0xEE, 0xFF];
    let mut db = LeaseDb::new();
    let reply = dispatch_dhcp6(&pkt, &duid, &[], &[], &mut db, false, 0);
    assert_eq!(reply.unwrap().msg_type, Dhcp6MsgType::Reply);
}

#[test]
fn find_option6_present() {
    let opts = [0, 1, 0, 2, 0xAB, 0xCD, 0, 2, 0, 1, 0xFF];
    let val = find_option6(&opts, 1).unwrap();
    assert_eq!(val, &[0xAB, 0xCD]);
}

#[test]
fn find_option6_missing() {
    let opts = [0, 1, 0, 2, 0xAB, 0xCD];
    assert!(find_option6(&opts, 99).is_none());
}

#[test]
fn reply_to_wire_roundtrip() {
    let reply = Dhcp6Reply {
        msg_type: Dhcp6MsgType::Advertise,
        xid:      0xAABBCC,
        options:  vec![0x00, 0x01, 0x00, 0x00],
    };
    let wire = reply.to_wire();
    assert_eq!(wire[0], Dhcp6MsgType::Advertise.as_u8());
    assert_eq!(wire[1], 0xAA);
    assert_eq!(wire[2], 0xBB);
    assert_eq!(wire[3], 0xCC);
}

#[test]
fn parse_relay_forw() {
    let mut data = vec![0u8; 34];
    data[0] = Dhcp6MsgType::RelayForw.as_u8();
    data[1] = 5;
    let result = parse_dhcp6_packet(&data);
    assert!(result.is_err());
    let relay = result.err().unwrap().unwrap();
    assert_eq!(relay.msg_type, Dhcp6MsgType::RelayForw);
    assert_eq!(relay.hop_count, 5);
}

#[test]
fn is_same_net6_same_prefix() {
    let a: Ip6 = ip6("2001:db8::1");
    let b: Ip6 = ip6("2001:db8::ffff");
    assert!(is_same_net6(&a, &b, 64));
}

#[test]
fn is_same_net6_different_prefix() {
    let a: Ip6 = ip6("2001:db8:1::1");
    let b: Ip6 = ip6("2001:db8:2::1");
    assert!(!is_same_net6(&a, &b, 48));
}

#[test]
fn is_same_net6_exact_match() {
    let a: Ip6 = ip6("2001:db8::1");
    let b: Ip6 = ip6("2001:db8::1");
    assert!(is_same_net6(&a, &b, 128));
}

#[test]
fn is_same_net6_exact_mismatch() {
    let a: Ip6 = ip6("2001:db8::1");
    let b: Ip6 = ip6("2001:db8::2");
    assert!(!is_same_net6(&a, &b, 128));
}

#[test]
fn is_same_net6_zero_prefix() {
    let a: Ip6 = ip6("2001:db8::1");
    let b: Ip6 = ip6("fe80::1");
    assert!(is_same_net6(&a, &b, 0));
}

#[test]
fn addr6part_extracts_low64() {
    let a: Ip6 = ip6("2001:db8::42");
    assert_eq!(addr6part(&a), 0x42);
}

#[test]
fn addr6part_max() {
    let a: Ip6 = ip6("::ffff:ffff:ffff:ffff");
    assert_eq!(addr6part(&a), u64::MAX);
}
fn make_v6_ctx(start6: Ip6, end6: Ip6, prefix: i32, flags: ContextFlags) -> DhcpContext {
    DhcpContext {
        start: Ip4::unspecified(),
        end: Ip4::unspecified(),
        router: Ip4::unspecified(),
        flags,
        netmask: Ip4::new(0,0,0,0),
        broadcast: Ip4::new(0,0,0,0),
        local: Ip4::new(0,0,0,0),
        lease_time: 3600,
        addr_epoch: 0,
        netid: DhcpNetid { net: String::new() },
        filter: vec![],
        start6,
        end6,
        local6: Ip6::unspecified(),
        prefix,
        if_index: 0,
        valid: 0,
        preferred: 0,
        ra_time: 0,
        ra_short_period_start: 0,
        saved_valid: 0,
        address_lost_time: 0,
    }
}
#[test]
fn address6_available_in_range() {
    let ctx = make_v6_ctx(
        ip6("2001:db8::100"),
        ip6("2001:db8::200"),
        64, ContextFlags::empty(),
    );
    assert!(address6_available(&[ctx], &ip6("2001:db8::150")));
}
#[test]
fn address6_available_out_of_range() {
    let ctx = make_v6_ctx(
        ip6("2001:db8::100"),
        ip6("2001:db8::200"),
        64, ContextFlags::empty(),
    );
    assert!(!address6_available(&[ctx], &ip6("2001:db8::50")));
}
#[test]
fn address6_available_skips_static() {
    let ctx = make_v6_ctx(
        ip6("2001:db8::100"),
        ip6("2001:db8::200"),
        64, ContextFlags { static_only: true, ..ContextFlags::empty() },
    );
    assert!(!address6_available(&[ctx], &ip6("2001:db8::150")));
}
#[test]
fn address6_valid_on_prefix() {
    let ctx = make_v6_ctx(
        ip6("2001:db8::100"),
        ip6("2001:db8::200"),
        64, ContextFlags::empty(),
    );
    assert!(address6_valid(&[ctx], &ip6("2001:db8::999")));
}
#[test]
fn address6_valid_wrong_prefix() {
    let ctx = make_v6_ctx(
        ip6("2001:db8:1::100"),
        ip6("2001:db8:1::200"),
        48, ContextFlags::empty(),
    );
    assert!(!address6_valid(&[ctx], &ip6("2001:db8:2::1")));
}

#[test]
fn sdbm_hash64_deterministic() {
    let clid = [0x01, 0x02, 0x03, 0x04];
    assert_eq!(sdbm_hash64(&clid, 1), sdbm_hash64(&clid, 1));
}

#[test]
fn sdbm_hash64_different_clids_differ() {
    let h1 = sdbm_hash64(&[0x01, 0x02], 1);
    let h2 = sdbm_hash64(&[0xAA, 0xBB], 1);
    assert_ne!(h1, h2);
}

#[test]
fn sdbm_hash64_different_iaids_differ() {
    let clid = [0x01, 0x02, 0x03];
    assert_ne!(sdbm_hash64(&clid, 1), sdbm_hash64(&clid, 2));
}

#[test]
fn hash_to_addr6_in_range() {
    let start = 0x100u64;
    let end = 0x200u64;
    let result = hash_to_addr6(42, 0, start, end);
    assert!(result >= start && result <= end);
}

#[test]
fn hash_to_addr6_single_address() {
    let result = hash_to_addr6(999, 0, 0x42, 0x42);
    assert_eq!(result, 0x42);
}

#[test]
fn hash_to_addr6_epoch_shifts() {
    let a1 = hash_to_addr6(42, 0, 0x100, 0x200);
    let a2 = hash_to_addr6(42, 1, 0x100, 0x200);
    assert_ne!(a1, a2);
}

#[test]
fn hash_to_addr6_full_range() {
    let result = hash_to_addr6(42, 0, 0, u64::MAX);
    let _ = result;
}

#[test]
fn address6_allocate_finds_free_address() {
    let ctx = make_v6_ctx(
        ip6("2001:db8::1"),
        ip6("2001:db8::10"),
        64, ContextFlags::empty(),
    );
    let in_use = |_: &Ip6| false;
    let addr = address6_allocate(&[ctx], &[0x01, 0x02], 1, &[], in_use);
    assert!(addr.is_some());
    let a = addr.unwrap();
    assert!(is_same_net6(&a, &ip6("2001:db8::1"), 64));
}

#[test]
fn address6_allocate_skips_collision_and_finds_next() {
    let start: Ip6 = ip6("2001:db8::1");
    let end: Ip6 = ip6("2001:db8::10");
    let ctx = make_v6_ctx(start, end, 64, ContextFlags::empty());
    let clid = [0x01, 0x02];
    let iaid = 1u32;

    let hash = sdbm_hash64(&clid, iaid);
    let predicted_host = hash_to_addr6(hash, 0, addr6part(&start), addr6part(&end));
    let predicted = addr6_with_host(&start, predicted_host);

    let in_use = |a: &Ip6| *a == predicted;
    let addr = address6_allocate(&[ctx], &clid, iaid, &[], in_use).unwrap();
    assert_ne!(addr, predicted);
}

#[test]
fn address6_allocate_skips_static_context() {
    let ctx = make_v6_ctx(
        ip6("2001:db8::1"),
        ip6("2001:db8::10"),
        64, ContextFlags { static_only: true, ..ContextFlags::empty() },
    );
    let in_use = |_: &Ip6| false;
    assert!(address6_allocate(&[ctx], &[0x01], 1, &[], in_use).is_none());
}

#[test]
fn address6_allocate_returns_none_when_full() {
    let ctx = make_v6_ctx(
        ip6("2001:db8::1"),
        ip6("2001:db8::1"),
        128, ContextFlags::empty(),
    );
    let in_use = |_: &Ip6| true;
    assert!(address6_allocate(&[ctx], &[0x01], 1, &[], in_use).is_none());
}

#[test]
fn address6_allocate_skips_server_own_local6() {
    let mut ctx = make_v6_ctx(
        ip6("2001:db8::1"),
        ip6("2001:db8::1"),
        128, ContextFlags::empty(),
    );
    ctx.local6 = ip6("2001:db8::1");
    let in_use = |_: &Ip6| false;
    assert!(address6_allocate(&[ctx], &[0x01], 1, &[], in_use).is_none());
}

#[test]
fn classify_addr6_loopback() {
    assert_eq!(classify_addr6(&ip6("::1")), Addr6Class::Loopback);
}

#[test]
fn classify_addr6_link_local() {
    assert_eq!(classify_addr6(&ip6("fe80::1")), Addr6Class::LinkLocal);
}

#[test]
fn classify_addr6_ula() {
    assert_eq!(classify_addr6(&ip6("fc00::1")), Addr6Class::Ula);
    assert_eq!(classify_addr6(&ip6("fd00::1")), Addr6Class::Ula);
}

#[test]
fn classify_addr6_multicast() {
    assert_eq!(classify_addr6(&ip6("ff02::1")), Addr6Class::Multicast);
}

#[test]
fn classify_addr6_global() {
    assert_eq!(classify_addr6(&ip6("2001:db8::1")), Addr6Class::Global);
}

#[test]
fn complete_context6_matches_and_fills_fields() {
    let ctx = make_v6_ctx(
        ip6("2001:db8:1::"),
        ip6("2001:db8:1::ffff"),
        64, ContextFlags { dhcp: true, ..ContextFlags::empty() },
    );
    let live = LiveAddr6 {
        addr: ip6("2001:db8:1::1"),
        prefix: 64,
        if_index: 3,
        preferred: 500,
        valid: 1000,
        deprecated: false,
    };
    let chain = complete_context6(&live, &[ctx]);
    assert_eq!(chain.len(), 1);
    assert_eq!(chain[0].local6, live.addr);
    assert_eq!(chain[0].if_index, 3);
    assert_eq!(chain[0].preferred, 0xffff_ffff);
    assert_eq!(chain[0].valid, 0xffff_ffff);
}

#[test]
fn complete_context6_constructed_uses_interface_lifetimes() {
    let ctx = make_v6_ctx(
        ip6("2001:db8:1::"),
        ip6("2001:db8:1::ffff"),
        64, ContextFlags { dhcp: true, constructed: true, ..ContextFlags::empty() },
    );
    let live = LiveAddr6 {
        addr: ip6("2001:db8:1::1"),
        prefix: 64,
        if_index: 3,
        preferred: 500,
        valid: 1000,
        deprecated: false,
    };
    let chain = complete_context6(&live, &[ctx]);
    assert_eq!(chain[0].preferred, 500);
    assert_eq!(chain[0].valid, 1000);
}

#[test]
fn complete_context6_skips_link_local() {
    let ctx = make_v6_ctx(
        ip6("fe80::"),
        ip6("fe80::ffff"),
        64, ContextFlags { dhcp: true, ..ContextFlags::empty() },
    );
    let live = LiveAddr6 {
        addr: ip6("fe80::1"),
        prefix: 64, if_index: 1, preferred: 100, valid: 100, deprecated: false,
    };
    assert!(complete_context6(&live, &[ctx]).is_empty());
}

#[test]
fn complete_context6_orders_by_preferred_descending() {
    let ctx_a = make_v6_ctx(
        ip6("2001:db8:1::"), ip6("2001:db8:1::ffff"),
        64, ContextFlags { dhcp: true, constructed: true, ..ContextFlags::empty() },
    );
    let ctx_b = make_v6_ctx(
        ip6("2001:db8:1::"), ip6("2001:db8:1::ffff"),
        64, ContextFlags { dhcp: true, constructed: true, ..ContextFlags::empty() },
    );
    let live = LiveAddr6 {
        addr: ip6("2001:db8:1::1"),
        prefix: 64, if_index: 1, preferred: 100, valid: 200, deprecated: false,
    };
    let chain = complete_context6(&live, &[ctx_a, ctx_b]);
    assert_eq!(chain.len(), 2);
    assert!(chain[0].preferred >= chain[1].preferred);
}

#[test]
fn dhcp_construct_contexts_fills_if_index_and_local6() {
    let ctx = make_v6_ctx(
        ip6("2001:db8::"), ip6("2001:db8::ffff"),
        64, ContextFlags { dhcp: true, ..ContextFlags::empty() },
    );
    let mut contexts = vec![ctx];
    let live = LiveAddr6 {
        addr: ip6("2001:db8::42"),
        prefix: 64, if_index: 7, preferred: 100, valid: 200, deprecated: false,
    };
    dhcp_construct_contexts(&mut contexts, &[live.clone()]);
    assert_eq!(contexts[0].if_index, 7);
    assert_eq!(contexts[0].local6, live.addr);
}

#[test]
fn dhcp_construct_contexts_skips_template_contexts() {
    let ctx = make_v6_ctx(
        ip6("2001:db8::"), ip6("2001:db8::ffff"),
        64, ContextFlags { dhcp: true, template: true, ..ContextFlags::empty() },
    );
    let mut contexts = vec![ctx];
    let live = LiveAddr6 {
        addr: ip6("2001:db8::42"),
        prefix: 64, if_index: 7, preferred: 100, valid: 200, deprecated: false,
    };
    dhcp_construct_contexts(&mut contexts, &[live]);
    assert_eq!(contexts[0].if_index, 0);
}

#[test]
fn dhcp_construct_contexts_skips_link_local_live_addr() {
    let ctx = make_v6_ctx(
        ip6("2001:db8::"), ip6("2001:db8::ffff"),
        64, ContextFlags { dhcp: true, ..ContextFlags::empty() },
    );
    let mut contexts = vec![ctx];
    let live = LiveAddr6 {
        addr: ip6("fe80::1"),
        prefix: 64, if_index: 7, preferred: 100, valid: 200, deprecated: false,
    };
    dhcp_construct_contexts(&mut contexts, &[live]);
    assert_eq!(contexts[0].if_index, 0);
}

#[test]
fn make_duid_prefers_configured_en() {
    let mut d = Daemon::default();
    d.duid_config = Some(vec![0xAA, 0xBB]);
    d.duid_enterprise = 9;
    make_duid(&mut d, None, true, 1_000_000_000).unwrap();
    let duid = d.duid.unwrap();
    assert_eq!(u16::from_be_bytes([duid[0], duid[1]]), DUID_EN);
    assert_eq!(u32::from_be_bytes([duid[2], duid[3], duid[4], duid[5]]), 9);
    assert_eq!(&duid[6..], &[0xAA, 0xBB]);
}

#[test]
fn make_duid_builds_llt_from_mac_when_stable() {
    let mut d = Daemon::default();
    let mac = vec![0x01, 0x02, 0x03, 0x04, 0x05, 0x06];
    make_duid(&mut d, Some(DuidMacSource { hw_type: 1, mac: mac.clone() }), true, 1_000_000_000).unwrap();
    let duid = d.duid.unwrap();
    assert_eq!(u16::from_be_bytes([duid[0], duid[1]]), DUID_LLT);
    assert_eq!(u16::from_be_bytes([duid[2], duid[3]]), 1);
    assert_eq!(&duid[8..], &mac[..]);
}

#[test]
fn make_duid_builds_ll_when_not_stable() {
    let mut d = Daemon::default();
    let mac = vec![0xAA; 6];
    make_duid(&mut d, Some(DuidMacSource { hw_type: 1, mac: mac.clone() }), false, 0).unwrap();
    let duid = d.duid.unwrap();
    assert_eq!(u16::from_be_bytes([duid[0], duid[1]]), DUID_LL);
    assert_eq!(duid.len(), 4 + mac.len());
}

#[test]
fn make_duid_errs_without_config_or_mac() {
    let mut d = Daemon::default();
    assert!(make_duid(&mut d, None, true, 0).is_err());
    assert!(d.duid.is_none());
}

#[test]
fn make_duid_skips_high_hw_type() {
    let mut d = Daemon::default();
    let mac = vec![0x01; 6];
    let err = make_duid(&mut d, Some(DuidMacSource { hw_type: 300, mac }), true, 0);
    assert!(err.is_err());
}

#[test]
fn make_duid_is_stable_across_calls() {
    let mut d = Daemon::default();
    let mac = vec![0x01, 0x02, 0x03, 0x04, 0x05, 0x06];
    make_duid(&mut d, Some(DuidMacSource { hw_type: 1, mac: mac.clone() }), true, 1_000_000_000).unwrap();
    let first = d.duid.clone();
    make_duid(&mut d, Some(DuidMacSource { hw_type: 1, mac }), true, 1_000_000_000).unwrap();
    assert_eq!(d.duid, first);
}

fn dispatch(
    pkt: &Dhcp6Packet,
    duid: &[u8],
    contexts: &[DhcpContext],
    lease_db: &mut LeaseDb,
) -> Option<Dhcp6Reply> {
    dispatch_dhcp6(pkt, duid, contexts, &[], lease_db, false, 0)
}

#[test]
fn dispatch_dhcp6_solicit_returns_advertise_with_allocated_address() {
    let ctx = make_v6_ctx(
        ip6("2001:db8::1"), ip6("2001:db8::ff"),
        64, ContextFlags { dhcp: true, ..ContextFlags::empty() },
    );
    let data = solicit_with_ia(0x1234, [0, 0, 0, 1]);
    let pkt = parse_dhcp6_packet(&data).unwrap();
    let duid = vec![0x00, 0x03, 0x00, 0x01, 1, 2, 3, 4, 5, 6];
    let mut db = LeaseDb::new();

    let reply = dispatch(&pkt, &duid, &[ctx], &mut db).unwrap();
    assert_eq!(reply.msg_type, Dhcp6MsgType::Advertise);
    assert_eq!(reply.xid, 0x1234);

    assert_eq!(find_option6(&reply.options, OPTION6_SERVER_ID), Some(duid.as_slice()));

    let ia_data = find_option6(&reply.options, OPTION6_IA_NA).unwrap();
    assert!(ia_data.len() > 12);
    let suboptions = &ia_data[12..];
    let iaaddr = find_option6(suboptions, OPTION6_IAADDR).expect("IAADDR sub-option present");
    assert_eq!(iaaddr.len(), 24);
    let addr = Ip6 { bits: u128::from_be_bytes(iaaddr[0..16].try_into().unwrap()) };
    assert!(is_same_net6(&addr, &ip6("2001:db8::1"), 64));

    assert_eq!(db.count(), 0);
}

#[test]
fn dispatch_dhcp6_solicit_lifetimes_come_from_context_lease_time_not_hardcoded() {
    let mut ctx = make_v6_ctx(
        ip6("2001:db8::1"), ip6("2001:db8::ff"),
        64, ContextFlags { dhcp: true, ..ContextFlags::empty() },
    );
    ctx.lease_time = 100;
    let data = solicit_with_ia(0x1234, [0, 0, 0, 1]);
    let pkt = parse_dhcp6_packet(&data).unwrap();
    let duid = vec![0x00, 0x03];
    let mut db = LeaseDb::new();

    let reply = dispatch(&pkt, &duid, &[ctx], &mut db).unwrap();
    let ia_data = find_option6(&reply.options, OPTION6_IA_NA).unwrap();
    let iaaddr = find_option6(&ia_data[12..], OPTION6_IAADDR).unwrap();
    let preferred = u32::from_be_bytes(iaaddr[16..20].try_into().unwrap());
    let valid = u32::from_be_bytes(iaaddr[20..24].try_into().unwrap());
    assert_eq!(preferred, 100);
    assert_eq!(valid, 100);
}

#[test]
fn dispatch_dhcp6_solicit_rapid_commit_persists_and_replies() {
    let ctx = make_v6_ctx(
        ip6("2001:db8::1"), ip6("2001:db8::ff"),
        64, ContextFlags { dhcp: true, ..ContextFlags::empty() },
    );
    let mut data = solicit_with_ia(0x42, [0, 0, 0, 9]);
    data.extend_from_slice(&OPTION6_RAPID_COMMIT.to_be_bytes());
    data.extend_from_slice(&0u16.to_be_bytes());
    let pkt = parse_dhcp6_packet(&data).unwrap();
    let duid = vec![0x00, 0x03];
    let mut db = LeaseDb::new();

    let reply = dispatch(&pkt, &duid, &[ctx], &mut db).unwrap();
    assert_eq!(reply.msg_type, Dhcp6MsgType::Reply);
    assert!(find_option6(&reply.options, OPTION6_RAPID_COMMIT).is_some());
    assert_eq!(db.count(), 1, "rapid-commit must persist the lease");
}

#[test]
fn dispatch_dhcp6_solicit_no_context_reports_no_addrs_available() {
    let data = solicit_with_ia(0x1, [0, 0, 0, 1]);
    let pkt = parse_dhcp6_packet(&data).unwrap();
    let duid = vec![0x00, 0x03];
    let mut db = LeaseDb::new();

    let reply = dispatch(&pkt, &duid, &[], &mut db).unwrap();
    let ia_data = find_option6(&reply.options, OPTION6_IA_NA).unwrap();
    let suboptions = &ia_data[12..];
    assert!(find_option6(suboptions, OPTION6_STATUS_CODE).is_some());
    assert!(find_option6(suboptions, OPTION6_IAADDR).is_none());
}

#[test]
fn dispatch_dhcp6_request_returns_reply_with_allocated_address_and_persists() {
    let ctx = make_v6_ctx(
        ip6("2001:db8::1"), ip6("2001:db8::ff"),
        64, ContextFlags { dhcp: true, ..ContextFlags::empty() },
    );
    let mut data = solicit_with_ia(0x99, [0, 0, 0, 2]);
    data[0] = Dhcp6MsgType::Request.as_u8();
    let pkt = parse_dhcp6_packet(&data).unwrap();
    let duid = vec![0x00, 0x03, 0x00, 0x01, 1, 2, 3, 4, 5, 6];
    let mut db = LeaseDb::new();

    let reply = dispatch(&pkt, &duid, &[ctx], &mut db).unwrap();
    assert_eq!(reply.msg_type, Dhcp6MsgType::Reply);
    let ia_data = find_option6(&reply.options, OPTION6_IA_NA).unwrap();
    assert!(find_option6(&ia_data[12..], OPTION6_IAADDR).is_some());
    assert_eq!(db.count(), 1, "Request always persists on success");
}

#[test]
fn dispatch_dhcp6_request_empty_ia_redirects_like_rapid_commit_solicit() {
    let ctx = make_v6_ctx(
        ip6("2001:db8::1"), ip6("2001:db8::ff"),
        64, ContextFlags { dhcp: true, ..ContextFlags::empty() },
    );
    let mut data = vec![Dhcp6MsgType::Request.as_u8(), 0, 0, 1];
    data.extend_from_slice(&OPTION6_CLIENT_ID.to_be_bytes());
    data.extend_from_slice(&4u16.to_be_bytes());
    data.extend_from_slice(&[0xAA, 0xBB, 0xCC, 0xDD]);
    data.extend_from_slice(&OPTION6_IA_NA.to_be_bytes());
    data.extend_from_slice(&12u16.to_be_bytes());
    data.extend_from_slice(&[0, 0, 0, 3]);
    data.extend_from_slice(&0u32.to_be_bytes());
    data.extend_from_slice(&0u32.to_be_bytes());
    let pkt = parse_dhcp6_packet(&data).unwrap();
    let duid = vec![0x00, 0x03];
    let mut db = LeaseDb::new();

    let reply = dispatch(&pkt, &duid, &[ctx], &mut db).unwrap();
    assert_eq!(reply.msg_type, Dhcp6MsgType::Reply);
    let ia_data = find_option6(&reply.options, OPTION6_IA_NA).unwrap();
    assert!(find_option6(&ia_data[12..], OPTION6_IAADDR).is_some());
    assert_eq!(db.count(), 1);
}

#[test]
fn dispatch_dhcp6_request_address_leased_to_other_client_is_unspec_fail() {
    let ctx = make_v6_ctx(
        ip6("2001:db8::1"), ip6("2001:db8::ff"),
        64, ContextFlags { dhcp: true, ..ContextFlags::empty() },
    );
    let taken: Ip6 = ip6("2001:db8::5");
    let mut db = LeaseDb::new();
    db.bind_v6(taken, &[0xFF, 0xFF], 999, LEASE_NA, None);

    let mut data = solicit_pkt(1);
    data[0] = Dhcp6MsgType::Request.as_u8();
    data.extend_from_slice(&OPTION6_CLIENT_ID.to_be_bytes());
    data.extend_from_slice(&4u16.to_be_bytes());
    data.extend_from_slice(&[0xAA, 0xBB, 0xCC, 0xDD]);
    data.extend_from_slice(&OPTION6_IA_NA.to_be_bytes());
    data.extend_from_slice(&40u16.to_be_bytes());
    data.extend_from_slice(&[0, 0, 0, 1]);
    data.extend_from_slice(&0u32.to_be_bytes());
    data.extend_from_slice(&0u32.to_be_bytes());
    data.extend_from_slice(&OPTION6_IAADDR.to_be_bytes());
    data.extend_from_slice(&24u16.to_be_bytes());
    data.extend_from_slice(&taken.bits.to_be_bytes());
    data.extend_from_slice(&0u32.to_be_bytes());
    data.extend_from_slice(&0u32.to_be_bytes());
    let pkt = parse_dhcp6_packet(&data).unwrap();

    let reply = dispatch(&pkt, &[0x00, 0x03], &[ctx], &mut db).unwrap();
    let ia_data = find_option6(&reply.options, OPTION6_IA_NA).unwrap();
    let status = find_option6(&ia_data[12..], OPTION6_STATUS_CODE).unwrap();
    let code = u16::from_be_bytes([status[0], status[1]]);
    assert_eq!(code, STATUS_UNSPEC_FAIL);
}

#[test]
fn dispatch_dhcp6_request_address_off_link_is_not_on_link() {
    let mut data = solicit_pkt(1);
    data[0] = Dhcp6MsgType::Request.as_u8();
    data.extend_from_slice(&OPTION6_CLIENT_ID.to_be_bytes());
    data.extend_from_slice(&4u16.to_be_bytes());
    data.extend_from_slice(&[0xAA, 0xBB, 0xCC, 0xDD]);
    data.extend_from_slice(&OPTION6_IA_NA.to_be_bytes());
    data.extend_from_slice(&40u16.to_be_bytes());
    data.extend_from_slice(&[0, 0, 0, 1]);
    data.extend_from_slice(&0u32.to_be_bytes());
    data.extend_from_slice(&0u32.to_be_bytes());
    data.extend_from_slice(&OPTION6_IAADDR.to_be_bytes());
    data.extend_from_slice(&24u16.to_be_bytes());
    data.extend_from_slice(&ip6("2001:db8:9999::1").bits.to_be_bytes());
    data.extend_from_slice(&0u32.to_be_bytes());
    data.extend_from_slice(&0u32.to_be_bytes());
    let pkt = parse_dhcp6_packet(&data).unwrap();
    let mut db = LeaseDb::new();

    let reply = dispatch(&pkt, &[0x00, 0x03], &[], &mut db).unwrap();
    let ia_data = find_option6(&reply.options, OPTION6_IA_NA).unwrap();
    let status = find_option6(&ia_data[12..], OPTION6_STATUS_CODE).unwrap();
    let code = u16::from_be_bytes([status[0], status[1]]);
    assert_eq!(code, STATUS_NOT_ON_LINK);
}

fn renew_pkt(msg_type: Dhcp6MsgType, iaid: [u8; 4], addr: Ip6) -> Vec<u8> {
    let mut data = vec![msg_type.as_u8(), 0, 0, 2];
    data.extend_from_slice(&OPTION6_CLIENT_ID.to_be_bytes());
    data.extend_from_slice(&4u16.to_be_bytes());
    data.extend_from_slice(&[0xAA, 0xBB, 0xCC, 0xDD]);
    data.extend_from_slice(&OPTION6_IA_NA.to_be_bytes());
    data.extend_from_slice(&40u16.to_be_bytes());
    data.extend_from_slice(&iaid);
    data.extend_from_slice(&0u32.to_be_bytes());
    data.extend_from_slice(&0u32.to_be_bytes());
    data.extend_from_slice(&OPTION6_IAADDR.to_be_bytes());
    data.extend_from_slice(&24u16.to_be_bytes());
    data.extend_from_slice(&addr.bits.to_be_bytes());
    data.extend_from_slice(&0u32.to_be_bytes());
    data.extend_from_slice(&0u32.to_be_bytes());
    data
}

#[test]
fn dispatch_dhcp6_renew_extends_existing_lease() {
    let mut ctx = make_v6_ctx(
        ip6("2001:db8::1"), ip6("2001:db8::ff"),
        64, ContextFlags { dhcp: true, ..ContextFlags::empty() },
    );
    ctx.lease_time = 200;
    let addr: Ip6 = ip6("2001:db8::5");
    let clid = vec![0xAA, 0xBB, 0xCC, 0xDD];
    let mut db = LeaseDb::new();
    db.bind_v6(addr, &clid, 2, LEASE_NA, None);

    let data = renew_pkt(Dhcp6MsgType::Renew, [0, 0, 0, 2], addr);
    let pkt = parse_dhcp6_packet(&data).unwrap();
    let reply = dispatch(&pkt, &[0x00, 0x03], &[ctx], &mut db).unwrap();

    assert_eq!(reply.msg_type, Dhcp6MsgType::Reply);
    let ia_data = find_option6(&reply.options, OPTION6_IA_NA).unwrap();
    let iaaddr = find_option6(&ia_data[12..], OPTION6_IAADDR).unwrap();
    let preferred = u32::from_be_bytes(iaaddr[16..20].try_into().unwrap());
    assert_eq!(preferred, 200);
    assert!(db.find_v6_by_clid_iaid(&clid, 2, &addr).unwrap().expires.is_some());
}

#[test]
fn dispatch_dhcp6_renew_no_lease_is_no_binding_and_not_top_level_error() {
    let addr: Ip6 = ip6("2001:db8::5");
    let data = renew_pkt(Dhcp6MsgType::Renew, [0, 0, 0, 2], addr);
    let pkt = parse_dhcp6_packet(&data).unwrap();
    let mut db = LeaseDb::new();

    let reply = dispatch(&pkt, &[0x00, 0x03], &[], &mut db).unwrap();
    let ia_data = find_option6(&reply.options, OPTION6_IA_NA).unwrap();
    let status = find_option6(&ia_data[12..], OPTION6_STATUS_CODE).unwrap();
    let code = u16::from_be_bytes([status[0], status[1]]);
    assert_eq!(code, STATUS_NO_BINDING);
    assert!(find_option6(&reply.options, OPTION6_STATUS_CODE).is_none());
}

#[test]
fn dispatch_dhcp6_rebind_no_lease_not_authoritative_reports_no_addrs() {
    let addr: Ip6 = ip6("2001:db8::5");
    let data = renew_pkt(Dhcp6MsgType::Rebind, [0, 0, 0, 2], addr);
    let pkt = parse_dhcp6_packet(&data).unwrap();
    let mut db = LeaseDb::new();

    let reply = dispatch_dhcp6(&pkt, &[0x00, 0x03], &[], &[], &mut db, false, 0).unwrap();
    let top_status = find_option6(&reply.options, OPTION6_STATUS_CODE).unwrap();
    let code = u16::from_be_bytes([top_status[0], top_status[1]]);
    assert_eq!(code, STATUS_NO_ADDRS_AVAIL);
}

#[test]
fn dispatch_dhcp6_rebind_no_lease_authoritative_creates_lease() {
    let ctx = make_v6_ctx(
        ip6("2001:db8::1"), ip6("2001:db8::ff"),
        64, ContextFlags { dhcp: true, ..ContextFlags::empty() },
    );
    let addr: Ip6 = ip6("2001:db8::5");
    let data = renew_pkt(Dhcp6MsgType::Rebind, [0, 0, 0, 2], addr);
    let pkt = parse_dhcp6_packet(&data).unwrap();
    let mut db = LeaseDb::new();

    let reply = dispatch_dhcp6(&pkt, &[0x00, 0x03], &[ctx], &[], &mut db, true, 0).unwrap();
    let ia_data = find_option6(&reply.options, OPTION6_IA_NA).unwrap();
    assert!(find_option6(&ia_data[12..], OPTION6_IAADDR).is_some());
    assert_eq!(db.count(), 1);
}

#[test]
fn dispatch_dhcp6_confirm_no_addresses_returns_none() {
    let data = solicit_pkt(1);
    let mut data = data;
    data[0] = Dhcp6MsgType::Confirm.as_u8();
    let pkt = parse_dhcp6_packet(&data).unwrap();
    let mut db = LeaseDb::new();
    assert!(dispatch(&pkt, &[0x00, 0x03], &[], &mut db).is_none());
}

#[test]
fn dispatch_dhcp6_confirm_valid_address_is_success() {
    let ctx = make_v6_ctx(
        ip6("2001:db8::1"), ip6("2001:db8::ff"),
        64, ContextFlags { dhcp: true, ..ContextFlags::empty() },
    );
    let addr: Ip6 = ip6("2001:db8::5");
    let mut data = renew_pkt(Dhcp6MsgType::Confirm, [0, 0, 0, 2], addr);
    data[0] = Dhcp6MsgType::Confirm.as_u8();
    let pkt = parse_dhcp6_packet(&data).unwrap();
    let mut db = LeaseDb::new();

    let reply = dispatch(&pkt, &[0x00, 0x03], &[ctx], &mut db).unwrap();
    let status = find_option6(&reply.options, OPTION6_STATUS_CODE).unwrap();
    let code = u16::from_be_bytes([status[0], status[1]]);
    assert_eq!(code, STATUS_SUCCESS);
}

#[test]
fn dispatch_dhcp6_confirm_invalid_address_is_not_on_link() {
    let addr: Ip6 = ip6("2001:db8::5");
    let mut data = renew_pkt(Dhcp6MsgType::Confirm, [0, 0, 0, 2], addr);
    data[0] = Dhcp6MsgType::Confirm.as_u8();
    let pkt = parse_dhcp6_packet(&data).unwrap();
    let mut db = LeaseDb::new();

    let reply = dispatch(&pkt, &[0x00, 0x03], &[], &mut db).unwrap();
    let status = find_option6(&reply.options, OPTION6_STATUS_CODE).unwrap();
    let code = u16::from_be_bytes([status[0], status[1]]);
    assert_eq!(code, STATUS_NOT_ON_LINK);
}

#[test]
fn dispatch_dhcp6_release_removes_lease_and_frees_address() {
    let addr: Ip6 = ip6("2001:db8::5");
    let clid = vec![0xAA, 0xBB, 0xCC, 0xDD];
    let mut db = LeaseDb::new();
    db.bind_v6(addr, &clid, 2, LEASE_NA, None);

    let mut data = renew_pkt(Dhcp6MsgType::Release, [0, 0, 0, 2], addr);
    data[0] = Dhcp6MsgType::Release.as_u8();
    let pkt = parse_dhcp6_packet(&data).unwrap();
    let reply = dispatch(&pkt, &[0x00, 0x03], &[], &mut db).unwrap();

    assert_eq!(reply.msg_type, Dhcp6MsgType::Reply);
    let status = find_option6(&reply.options, OPTION6_STATUS_CODE).unwrap();
    assert_eq!(u16::from_be_bytes([status[0], status[1]]), STATUS_SUCCESS);
    assert!(db.find_v6_by_addr(&addr).is_none(), "released lease must be freed");
}

#[test]
fn dispatch_dhcp6_release_unknown_lease_reports_no_binding_but_top_level_success() {
    let addr: Ip6 = ip6("2001:db8::5");
    let mut data = renew_pkt(Dhcp6MsgType::Release, [0, 0, 0, 2], addr);
    data[0] = Dhcp6MsgType::Release.as_u8();
    let pkt = parse_dhcp6_packet(&data).unwrap();
    let mut db = LeaseDb::new();

    let reply = dispatch(&pkt, &[0x00, 0x03], &[], &mut db).unwrap();
    let ia_data = find_option6(&reply.options, OPTION6_IA_NA).unwrap();
    let ia_status = find_option6(&ia_data[12..], OPTION6_STATUS_CODE).unwrap();
    assert_eq!(u16::from_be_bytes([ia_status[0], ia_status[1]]), STATUS_NO_BINDING);
    let top_status = find_option6(&reply.options, OPTION6_STATUS_CODE).unwrap();
    assert_eq!(u16::from_be_bytes([top_status[0], top_status[1]]), STATUS_SUCCESS);
}

#[test]
fn dispatch_dhcp6_decline_removes_lease() {
    let addr: Ip6 = ip6("2001:db8::5");
    let clid = vec![0xAA, 0xBB, 0xCC, 0xDD];
    let mut db = LeaseDb::new();
    db.bind_v6(addr, &clid, 2, LEASE_NA, None);

    let mut data = renew_pkt(Dhcp6MsgType::Decline, [0, 0, 0, 2], addr);
    data[0] = Dhcp6MsgType::Decline.as_u8();
    let pkt = parse_dhcp6_packet(&data).unwrap();
    let reply = dispatch(&pkt, &[0x00, 0x03], &[], &mut db).unwrap();

    assert_eq!(reply.msg_type, Dhcp6MsgType::Reply);
    assert!(db.find_v6_by_addr(&addr).is_none(), "declined lease must be freed");
}

#[test]
fn dispatch_dhcp6_inforeq_without_ia_gets_reply() {
    let mut data = solicit_pkt(1);
    data[0] = Dhcp6MsgType::InfoReq.as_u8();
    data.extend_from_slice(&OPTION6_CLIENT_ID.to_be_bytes());
    data.extend_from_slice(&4u16.to_be_bytes());
    data.extend_from_slice(&[0xAA, 0xBB, 0xCC, 0xDD]);
    let pkt = parse_dhcp6_packet(&data).unwrap();
    let mut db = LeaseDb::new();
    let reply = dispatch(&pkt, &[0x00, 0x03], &[], &mut db).unwrap();
    assert_eq!(reply.msg_type, Dhcp6MsgType::Reply);
}

#[test]
fn dispatch_dhcp6_inforeq_with_ia_is_dropped() {
    let mut data = solicit_with_ia(1, [0, 0, 0, 1]);
    data[0] = Dhcp6MsgType::InfoReq.as_u8();
    let pkt = parse_dhcp6_packet(&data).unwrap();
    let mut db = LeaseDb::new();
    assert!(dispatch(&pkt, &[0x00, 0x03], &[], &mut db).is_none());
}

#[test]
fn the_only_address_is_given_once() {
    let ctx = make_v6_ctx(
        ip6("2001:db8::1"),
        ip6("2001:db8::1"),
        128,
        ContextFlags { dhcp: true, ..ContextFlags::empty() },
    );
    let mut db = LeaseDb::new();
    let mut first = solicit_with_ia(1, [0, 0, 0, 1]);
    first[0] = Dhcp6MsgType::Request.as_u8();
    let pkt = parse_dhcp6_packet(&first).unwrap();
    let reply = dispatch_dhcp6(&pkt, &[0, 3], &[ctx], &[], &mut db, true, 0).unwrap();
    let ia = find_option6(&reply.options, OPTION6_IA_NA).unwrap();
    assert!(find_option6(&ia[12..], OPTION6_IAADDR).is_some());
    assert_eq!(db.count(), 1);

    let again = make_v6_ctx(
        ip6("2001:db8::1"),
        ip6("2001:db8::1"),
        128,
        ContextFlags { dhcp: true, ..ContextFlags::empty() },
    );
    let mut second = solicit_with_ia(2, [0, 0, 0, 2]);
    second[0] = Dhcp6MsgType::Request.as_u8();
    let pkt = parse_dhcp6_packet(&second).unwrap();
    let reply = dispatch_dhcp6(&pkt, &[0, 3], &[again], &[], &mut db, true, 0).unwrap();
    let ia = find_option6(&reply.options, OPTION6_IA_NA).unwrap();
    assert!(find_option6(&ia[12..], OPTION6_IAADDR).is_none());
    assert!(find_option6(&ia[12..], OPTION6_STATUS_CODE).is_some());
    assert_eq!(db.count(), 1);
}

#[test]
fn a_reply_names_the_client_and_the_server() {
    let data = solicit_with_ia(7, [0, 0, 0, 1]);
    let pkt = parse_dhcp6_packet(&data).unwrap();
    let mut db = LeaseDb::new();
    let reply = dispatch(&pkt, &[0, 3, 9], &[], &mut db).unwrap();
    assert_eq!(find_option6(&reply.options, OPTION6_CLIENT_ID), Some([0xAA, 0xBB, 0xCC, 0xDD].as_ref()));
    assert_eq!(find_option6(&reply.options, OPTION6_SERVER_ID), Some([0, 3, 9].as_ref()));
}

#[test]
fn what_is_sent_is_read_back() {
    let reply = Dhcp6Reply {
        msg_type: Dhcp6MsgType::Reply,
        xid: 0x010203,
        options: vec![0, 1, 0, 2, 5, 6],
    };
    let back = parse_dhcp6_packet(&reply.to_wire()).unwrap();
    assert_eq!(back.msg_type, Dhcp6MsgType::Reply);
    assert_eq!(back.xid, 0x010203);
    assert_eq!(back.options, vec![0, 1, 0, 2, 5, 6]);
}

#[test]
fn replies_go_back_to_the_client() {
    let to = dhcp6_reply_dest(SockAddr::V6 { ip: ip6("fe80::5"), port: 546, scope_id: 3 }, None);
    assert_eq!(to, SockAddr::V6 { ip: ip6("fe80::5"), port: 546, scope_id: 3 });
    let moved = dhcp6_reply_dest(SockAddr::V6 { ip: ip6("fe80::5"), port: 9, scope_id: 3 }, Some(1546));
    assert_eq!(moved, SockAddr::V6 { ip: ip6("fe80::5"), port: 1546, scope_id: 3 });
    let all = dhcp6_reply_dest(SockAddr::V6 { ip: Ip6::unspecified(), port: 546, scope_id: 3 }, None);
    assert_eq!(all, SockAddr::V6 { ip: ip6("ff02::1"), port: 546, scope_id: 0 });
}

#[test]
fn a_lease_is_renewed_halfway_and_rebound_later() {
    assert_eq!(calculate_times(800), (800, 800, 400, 700));
    assert_eq!(calculate_times(u32::MAX), (u32::MAX, u32::MAX, u32::MAX, u32::MAX));
}

#[test]
fn the_host_part_is_replaced() {
    let a = addr6_with_host(&ip6("2001:db8::1"), 0xABCD);
    assert_eq!(a, ip6("2001:db8::abcd"));
    assert_eq!(addr6part(&a), 0xABCD);
}

#[test]
fn hashes_are_those_of_sdbm() {
    assert_eq!(sdbm_hash64(&[], 5), 5);
    assert_eq!(sdbm_hash64(&[1], 2), 131199);
}

#[test]
fn an_address_is_found_among_the_configured() {
    let config = DhcpConfig {
        flags: ConfigFlags { addr6: true, ..ConfigFlags::empty() },
        clid: None,
        hostname: None,
        domain: None,
        netid: vec![],
        filter: vec![],
        addr: Ip4::unspecified(),
        decline_time: None,
        lease_time: 0,
        hwaddrs: vec![],
        addr6: vec![AddrList { addr: AllAddr::Addr6(ip6("2001:db8::7")), prefixlen: 128 }],
    };
    assert!(config_find_by_address6(&[config.clone()], &ip6("2001:db8::7")));
    assert!(!config_find_by_address6(&[config], &ip6("2001:db8::8")));
}

#[test]
fn a_lease_is_found_until_it_is_given_back() {
    let mut db = LeaseDb::new();
    let addr = ip6("2001:db8::5");
    db.bind_v6(addr, &[1, 2], 3, LEASE_NA, Some(100));
    assert_eq!(db.find_v6_by_addr(&addr).unwrap().expires, Some(100));
    assert!(db.find_v6_by_client_iaid(&[1, 2], 3).is_some());
    assert!(db.find_v6_by_clid_iaid(&[1, 2], 4, &addr).is_none());
    assert!(!db.remove_v6_by_clid_iaid_addr(&[9], 3, &addr));
    assert!(db.remove_v6_by_clid_iaid_addr(&[1, 2], 3, &addr));
    assert!(db.find_v6_by_addr(&addr).is_none());
    assert_eq!(db.count(), 0);
}

/// A message of a client that names the server and an address.
fn message(kind: Dhcp6MsgType, client: &[u8], server: &[u8], iaid: u32, addr: Ip6) -> Vec<u8> {
    let mut v = vec![kind.as_u8(), 0, 0, 9];
    let mut option = |code: u16, data: &[u8]| {
        v.extend_from_slice(&code.to_be_bytes());
        v.extend_from_slice(&(data.len() as u16).to_be_bytes());
        v.extend_from_slice(data);
    };
    option(OPTION6_CLIENT_ID, client);
    option(OPTION6_SERVER_ID, server);
    let mut ia = iaid.to_be_bytes().to_vec();
    ia.extend_from_slice(&[0; 8]);
    ia.extend_from_slice(&OPTION6_IAADDR.to_be_bytes());
    ia.extend_from_slice(&24u16.to_be_bytes());
    ia.extend_from_slice(&addr.bits.to_be_bytes());
    ia.extend_from_slice(&[0; 8]);
    option(OPTION6_IA_NA, &ia);
    v
}

/// The range that the tests below serve.
fn served_range() -> DhcpContext {
    make_v6_ctx(
        ip6("2001:db8::100"),
        ip6("2001:db8::1ff"),
        64,
        ContextFlags { dhcp: true, ..ContextFlags::empty() },
    )
}

#[test]
fn the_lease_of_another_client_stays() {
    let addr = ip6("2001:db8::150");
    let mut db = LeaseDb::new();
    db.bind_v6(addr, &[1], 1, LEASE_NA, Some(1000));
    let kinds =
        [Dhcp6MsgType::Request, Dhcp6MsgType::Renew, Dhcp6MsgType::Release, Dhcp6MsgType::Decline];
    for kind in kinds {
        let pkt = parse_dhcp6_packet(&message(kind, &[2], &[0, 3], 1, addr)).unwrap();
        dispatch_dhcp6(&pkt, &[0, 3], &[served_range()], &[], &mut db, false, 0);
        let lease = db.find_v6_by_addr(&addr).unwrap();
        assert_eq!(lease.clid, Some(vec![1]), "{kind:?}");
        assert_eq!(lease.expires, Some(1000), "{kind:?}");
    }
}

#[test]
fn rebinding_makes_a_lease_only_where_the_server_is_authoritative() {
    let addr = ip6("2001:db8::150");
    let pkt = parse_dhcp6_packet(&message(Dhcp6MsgType::Rebind, &[1], &[0, 3], 1, addr)).unwrap();
    let mut db = LeaseDb::new();
    dispatch_dhcp6(&pkt, &[0, 3], &[served_range()], &[], &mut db, false, 0);
    assert_eq!(db.count(), 0);
    dispatch_dhcp6(&pkt, &[0, 3], &[served_range()], &[], &mut db, true, 0);
    assert_eq!(db.count(), 1);
    assert_eq!(db.find_v6_by_addr(&addr).unwrap().clid, Some(vec![1]));
}

#[test]
fn an_address_that_is_released_can_be_asked_for() {
    let addr = ip6("2001:db8::150");
    let mut db = LeaseDb::new();
    db.bind_v6(addr, &[1], 1, LEASE_NA, None);
    let pkt = parse_dhcp6_packet(&message(Dhcp6MsgType::Release, &[1], &[0, 3], 1, addr)).unwrap();
    dispatch_dhcp6(&pkt, &[0, 3], &[served_range()], &[], &mut db, false, 0);
    assert!(db.find_v6_by_addr(&addr).is_none());
    let pkt = parse_dhcp6_packet(&message(Dhcp6MsgType::Request, &[2], &[0, 3], 1, addr)).unwrap();
    dispatch_dhcp6(&pkt, &[0, 3], &[served_range()], &[], &mut db, false, 0);
    assert_eq!(db.find_v6_by_addr(&addr).unwrap().clid, Some(vec![2]));
}

#[test]
fn a_datagram_is_answered_to_where_it_came_from() {
    let src = SockAddr::V6 { ip: ip6("fe80::9"), port: 546, scope_id: 2 };
    let mut db = LeaseDb::new();
    let (bytes, to) = serve_datagram(
        &solicit_with_ia(0x010203, [0, 0, 0, 1]),
        src,
        &[0, 3],
        &[served_range()],
        &[],
        &mut db,
        false,
        0,
        None,
    )
    .unwrap();
    assert_eq!(to, src);
    assert_eq!(bytes[..4], [Dhcp6MsgType::Advertise.as_u8(), 1, 2, 3]);
    assert_eq!(db.count(), 0);

    let mut serve = |data: &[u8]| serve_datagram(data, src, &[0, 3], &[], &[], &mut db, false, 0, None);
    assert!(serve(&[]).is_none());
    assert!(serve(&[1, 2, 3]).is_none());
    assert!(serve(&[Dhcp6MsgType::Reply.as_u8(), 1, 2, 3]).is_none());
}

#[test]
fn ranges_learn_the_interface_whose_network_they_are_on() {
    let live = |addr: &str, if_index: u32| LiveAddr6 {
        addr: ip6(addr),
        prefix: 64,
        if_index,
        preferred: 10,
        valid: 20,
        deprecated: false,
    };
    let mut pattern = served_range();
    pattern.flags.template = true;
    let mut ranges = [served_range(), pattern];
    dhcp_construct_contexts(&mut ranges, &[live("fe80::1", 7), live("2001:db8:1::1", 8), live("::1", 9)]);
    assert_eq!(ranges[0].if_index, served_range().if_index);
    dhcp_construct_contexts(&mut ranges, &[live("2001:db8::1", 5)]);
    assert_eq!(ranges[0].if_index, 5);
    assert_eq!(ranges[0].local6, ip6("2001:db8::1"));
    assert_eq!(ranges[1].if_index, served_range().if_index);
}

#[test]
fn an_address_is_asked_for_until_one_is_not_in_use() {
    let asked = std::cell::RefCell::new(Vec::new());
    let found = address6_allocate(&[served_range()], &[1], 1, &[], |a: &Ip6| {
        asked.borrow_mut().push(*a);
        asked.borrow().len() < 3
    });
    assert_eq!(asked.borrow().len(), 3);
    assert_eq!(found, asked.borrow().last().copied());
    let all = std::cell::RefCell::new(0);
    let none = address6_allocate(&[served_range()], &[1], 1, &[], |_: &Ip6| {
        *all.borrow_mut() += 1;
        true
    });
    assert_eq!(none, None);
    assert_eq!(*all.borrow(), 256);
}
