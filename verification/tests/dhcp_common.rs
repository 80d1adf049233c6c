//! Tests of what the DHCP servers have in common.

use dnsmasq::addr::{AllAddr, Ip4, Ip6, IpAddress};
use dnsmasq::cache::DnsCache;
use dnsmasq::dhcp_common::opttab::opttab;
use dnsmasq::dhcp_common::{
    after_receive, bind_dhcp_devices, build_options, config_has_mac, dhcp_update_configs, display_opts, display_opts6, find_config,
    find_option, format_time, get_message_type, grown_buffer, get_vendor_class, log_context, log_relay, log_tags, lookup_dhcp_len,
    lookup_dhcp_opt, match_bytes, match_netid, match_netid_wild, option_filter, option_string, option_string_ex, pxe_ok,
    run_tag_if, strip_hostname, whichdevice, BindOutcome, Receipt, Received, TagIf, OT_ADDR_LIST,
};
use dnsmasq::dhcp_protocol::{DhcpMsgType, OPTION_END, OPTION_MESSAGE_TYPE};
use dnsmasq::dhcp_types::{
    ConfigFlags, ContextFlags, DhOptFlags, DhcpConfig, DhcpContext, DhcpNetid, DhcpOpt, DhcpRelay, HwaddrConfig,
};
use dnsmasq::util::{match_masked, prettyprint_time, wildcard_matchn};

/// An IPv6 address from its text.
fn ip6(text: &str) -> Ip6 {
    let (head, tail) = match text.split_once("::") {
        Some((h, t)) => (h, Some(t)),
        None => (text, None),
    };
    let words = |s: &str| -> Vec<u128> {
        s.split(':').filter(|w| !w.is_empty()).map(|w| u128::from_str_radix(w, 16).unwrap()).collect()
    };
    let front = words(head);
    let back = words(tail.unwrap_or(""));
    let mut bits: u128 = 0;
    for i in 0..8usize {
        let word = if i < front.len() {
            front[i]
        } else if i + back.len() >= 8 {
            back[i + back.len() - 8]
        } else {
            0
        };
        bits = bits * 65536 + word;
    }
    Ip6 { bits }
}

fn make_options(code: u8, data: &[u8]) -> Vec<u8> {
    let mut opts = vec![code, data.len() as u8];
    opts.extend_from_slice(data);
    opts.push(OPTION_END);
    opts
}

#[test]
fn find_option_found() {
    let opts = make_options(12, b"myhost");
    assert_eq!(find_option(&opts, 12), Some(b"myhost".as_ref()));
}

#[test]
fn find_option_missing() {
    let opts = make_options(12, b"myhost");
    assert!(find_option(&opts, 15).is_none());
}

#[test]
fn get_message_type_correct() {
    let opts = make_options(OPTION_MESSAGE_TYPE, &[1]);
    assert_eq!(get_message_type(&opts), Some(DhcpMsgType::Discover));
}

#[test]
fn match_netid_identical() {
    let a = vec![DhcpNetid { net: "tag1".into() }];
    let b = vec![DhcpNetid { net: "tag1".into() }];
    assert!(match_netid(&a, &b));
}

#[test]
fn match_netid_different() {
    let a = vec![DhcpNetid { net: "tag1".into() }];
    let b = vec![DhcpNetid { net: "tag2".into() }];
    assert!(!match_netid(&a, &b));
}

#[test]
fn build_and_find_roundtrip() {
    let opt = DhcpOpt {
        opt: 12,
        flags: DhOptFlags::empty(),
        val: Some(b"router".to_vec()),
        netid: vec![],
        encap: 0,
        vendor_class: None,
    };
    let built = build_options(&[opt]);
    assert_eq!(find_option(&built, 12), Some(b"router".as_ref()));
}

#[test]
fn opttab_has_expected_entries() {
    let table = opttab();
    let entry = table.iter().find(|e| e.name == "dns-server").unwrap();
    assert_eq!(entry.val, 6);
    assert!((entry.size & OT_ADDR_LIST) != 0);
}

#[test]
fn opttab_internal_entries_not_in_display() {
    let shown = display_opts();
    assert!(!shown.iter().any(|(v, _)| *v == 12), "hostname should be hidden");
    assert!(shown.iter().any(|(v, _)| *v == 6), "dns-server should be shown");
}

#[test]
fn lookup_dhcp_opt_found() {
    assert_eq!(lookup_dhcp_opt(false, "router"), Some(3));
    assert_eq!(lookup_dhcp_opt(false, "ROUTER"), Some(3));
}

#[test]
fn lookup_dhcp_opt_not_found() {
    assert!(lookup_dhcp_opt(false, "nosuchoption").is_none());
}

#[test]
fn lookup_dhcp_len_known_option() {
    let len = lookup_dhcp_len(false, 26);
    assert_eq!(len, 2);
}

#[test]
fn lookup_dhcp_len_unknown_returns_zero() {
    assert_eq!(lookup_dhcp_len(false, 200), 0);
}

#[test]
fn option_string_addr_list() {
    let val = [8, 8, 8, 8, 8, 8, 4, 4];
    let s = option_string(false, 6, &val);
    assert_eq!(s, "8.8.8.8, 8.8.4.4");
}

#[test]
fn option_string_name() {
    let s = option_string(false, 15, b"example.com");
    assert_eq!(s, "example.com");
}

#[test]
fn option_string_dec() {
    let s = option_string(false, 26, &[0x05, 0xDC]);
    assert_eq!(s, "1500");
}

#[test]
fn option_string_time() {
    let s = option_string(false, 58, &[0x00, 0x00, 0x0E, 0x4D]);
    assert_eq!(s, "1h 1m 1s");
}

#[test]
fn option_string_hex_fallback() {
    let s = option_string(false, 200, &[0xDE, 0xAD]);
    assert_eq!(s, "de:ad");
}

#[test]
fn format_time_zero() {
    assert_eq!(format_time(0), "0s");
}

#[test]
fn format_time_exact_hours() {
    assert_eq!(format_time(7200), "2h");
}

#[test]
fn format_time_mixed() {
    assert_eq!(format_time(3661), "1h 1m 1s");
}

#[test]
fn dhcp_update_configs_fills_from_hosts() {

    let mut cache = DnsCache::new();
    cache.add_host("myserver.local", Ip4::new(10, 0, 0, 42));

    let config = DhcpConfig {
        flags: ConfigFlags { name: true, ..ConfigFlags::empty() },
        clid: None,
        hostname: Some("myserver.local".into()),
        domain: None,
        netid: vec![],
        filter: vec![],
        addr: Ip4::unspecified(),
        decline_time: None,
        lease_time: 3600,
        hwaddrs: vec![],
        addr6: vec![],
    };
    let mut configs = vec![config];
    dhcp_update_configs(&mut configs, &cache);

    assert!(configs[0].flags.addr, "CONFIG_ADDR should be set");
    assert!(configs[0].flags.addr_hosts);
    assert_eq!(configs[0].addr, Ip4::new(10, 0, 0, 42));
}

#[test]
fn dhcp_update_configs_skips_if_already_has_addr() {

    let mut cache = DnsCache::new();
    cache.add_host("already.local", Ip4::new(10, 0, 0, 1));

    let explicit_ip = Ip4::new(192, 168, 1, 50);
    let config = DhcpConfig {
        flags: ConfigFlags { name: true, addr: true, ..ConfigFlags::empty() },
        clid: None,
        hostname: Some("already.local".into()),
        domain: None,
        netid: vec![],
        filter: vec![],
        addr: explicit_ip,
        decline_time: None,
        lease_time: 3600,
        hwaddrs: vec![],
        addr6: vec![],
    };
    let mut configs = vec![config];
    dhcp_update_configs(&mut configs, &cache);
    assert_eq!(configs[0].addr, explicit_ip);
}

#[test]
fn whichdevice_no_if_names_returns_none() {
    assert!(whichdevice(&[], &["eth0".to_string()]).is_none());
}

#[test]
fn whichdevice_wildcard_in_if_names_returns_none() {
    let names = vec!["eth*".to_string()];
    let ifaces = vec!["eth0".to_string()];
    assert!(whichdevice(&names, &ifaces).is_none());
}

#[test]
fn whichdevice_single_iface_returns_name() {
    let names  = vec!["eth0".to_string()];
    let ifaces = vec!["eth0".to_string()];
    assert_eq!(whichdevice(&names, &ifaces), Some("eth0".to_string()));
}

#[test]
fn whichdevice_duplicate_iface_same_name_ok() {
    let names  = vec!["eth0".to_string()];
    let ifaces = vec!["eth0".to_string(), "eth0".to_string()];
    assert_eq!(whichdevice(&names, &ifaces), Some("eth0".to_string()));
}

#[test]
fn whichdevice_multiple_distinct_ifaces_returns_none() {
    let names  = vec!["eth0".to_string(), "eth1".to_string()];
    let ifaces = vec!["eth0".to_string(), "eth1".to_string()];
    assert!(whichdevice(&names, &ifaces).is_none());
}

#[test]
fn whichdevice_empty_active_ifaces_returns_none() {
    let names = vec!["eth0".to_string()];
    assert!(whichdevice(&names, &[]).is_none());
}

#[test]
fn bind_dhcp_devices_no_device_returns_zero() {
    let ret = bind_dhcp_devices(None, &[(-1, false)], |_: &str, _: i32| BindOutcome::Bound);
    assert_eq!(ret, 0);
}

#[test]
fn bind_dhcp_devices_no_fds_returns_zero() {
    let ret = bind_dhcp_devices(Some("eth0"), &[], |_: &str, _: i32| BindOutcome::Bound);
    assert_eq!(ret, 0);
}

fn nid(s: &str) -> DhcpNetid { DhcpNetid { net: s.to_string() } }
fn nids(v: &[&str]) -> Vec<DhcpNetid> { v.iter().map(|s| nid(s)).collect() }

#[test]
fn match_netid_wild_exact_positive() {
    assert!(match_netid_wild(&nids(&["lan"]), &nids(&["lan", "wifi"])));
}

#[test]
fn match_netid_wild_exact_missing() {
    assert!(!match_netid_wild(&nids(&["vpn"]), &nids(&["lan", "wifi"])));
}

#[test]
fn match_netid_wild_prefix_wildcard() {
    assert!(match_netid_wild(&nids(&["lan*"]), &nids(&["lan0", "wifi"])));
    assert!(!match_netid_wild(&nids(&["lan*"]), &nids(&["wifi"])));
}

#[test]
fn match_netid_wild_negation() {
    assert!(match_netid_wild(&nids(&["!lan"]), &nids(&["wifi"])));
    assert!(!match_netid_wild(&nids(&["!lan"]), &nids(&["lan", "wifi"])));
}

#[test]
fn match_netid_wild_empty_check_is_true() {
    assert!(match_netid_wild(&[], &nids(&["lan"])));
}

#[test]
fn run_tag_if_injects_tags_when_condition_met() {
    let rules = vec![TagIf {
        tag: nids(&["lan"]),
        set: nids(&["dhcp-extra"]),
    }];
    let result = run_tag_if(nids(&["lan"]), &rules);
    assert!(result.iter().any(|t| t.net == "dhcp-extra"));
}

#[test]
fn run_tag_if_no_injection_when_condition_unmet() {
    let rules = vec![TagIf {
        tag: nids(&["vpn"]),
        set: nids(&["extra"]),
    }];
    let result = run_tag_if(nids(&["lan"]), &rules);
    assert!(!result.iter().any(|t| t.net == "extra"));
}

#[test]
fn run_tag_if_deduplicates() {
    let rules = vec![TagIf {
        tag: nids(&["lan"]),
        set: nids(&["lan"]),
    }];
    let result = run_tag_if(nids(&["lan"]), &rules);
    assert_eq!(result.iter().filter(|t| t.net == "lan").count(), 1);
}

fn make_opt(flags: DhOptFlags) -> DhcpOpt {
    DhcpOpt { opt: 1, flags, val: None, netid: vec![], encap: 0, vendor_class: None }
}

#[test]
fn pxe_ok_non_pxe_opt_mode0() {
    assert!(pxe_ok(&make_opt(DhOptFlags::empty()), 0));
}

#[test]
fn pxe_ok_non_pxe_opt_mode2() {
    assert!(!pxe_ok(&make_opt(DhOptFlags::empty()), 2));
}

#[test]
fn pxe_ok_pxe_opt_mode0() {
    assert!(!pxe_ok(&make_opt(DhOptFlags { pxe_opt: true, ..DhOptFlags::empty() }), 0));
}

#[test]
fn pxe_ok_pxe_opt_mode1() {
    assert!(pxe_ok(&make_opt(DhOptFlags { pxe_opt: true, ..DhOptFlags::empty() }), 1));
}

#[test]
fn strip_hostname_with_domain() {
    let (host, domain) = strip_hostname("myhost.example.com");
    assert_eq!(host, "myhost");
    assert_eq!(domain, Some("example.com"));
}

#[test]
fn strip_hostname_no_dot() {
    let (host, domain) = strip_hostname("myhost");
    assert_eq!(host, "myhost");
    assert!(domain.is_none());
}

#[test]
fn strip_hostname_trailing_dot() {
    let (host, domain) = strip_hostname("myhost.");
    assert_eq!(host, "myhost");
    assert!(domain.is_none());
}

#[test]
fn log_tags_basic() {
    let tags = nids(&["lan", "wifi", "lan"]);
    let s = log_tags(&tags).unwrap();
    assert!(s.contains("lan"));
    assert!(s.contains("wifi"));
    assert_eq!(s.matches("lan").count(), 1, "no duplicate");
}

#[test]
fn log_tags_empty_returns_none() {
    assert!(log_tags(&[]).is_none());
}

fn opt_with_val(val: &[u8], flags: DhOptFlags) -> DhcpOpt {
    DhcpOpt { opt: 43, flags, val: Some(val.to_vec()), netid: vec![], encap: 0, vendor_class: None }
}

#[test]
fn match_bytes_substring_found() {
    let opt = opt_with_val(b"test", DhOptFlags::empty());
    assert!(match_bytes(&opt, b"testXXXXmore"));
}

#[test]
fn match_bytes_not_found() {
    let opt = opt_with_val(b"nope", DhOptFlags::empty());
    assert!(!match_bytes(&opt, b"hello test world"));
}

#[test]
fn match_bytes_empty_val_matches_any() {
    let opt = opt_with_val(b"", DhOptFlags::empty());
    assert!(match_bytes(&opt, b"anything"));
}

#[test]
fn match_bytes_val_longer_than_data_fails() {
    let opt = opt_with_val(b"toolong", DhOptFlags::empty());
    assert!(!match_bytes(&opt, b"sh"));
}

fn make_config_with_mac(mac: &[u8], hw_type: i32) -> DhcpConfig {
    let mut hwaddr = [0u8; 16];
    let len = mac.len().min(16);
    hwaddr[..len].copy_from_slice(&mac[..len]);
    DhcpConfig {
        flags: ConfigFlags::empty(),
        clid: None,
        hostname: None,
        domain: None,
        netid: vec![],
        filter: vec![],
        addr: Ip4::unspecified(),
        decline_time: None,
        lease_time: 0,
        hwaddrs: vec![HwaddrConfig {
            hwaddr,
            hwaddr_len: len as i32,
            hwaddr_type: hw_type,
            wildcard_mask: 0,
        }],
        addr6: vec![],
    }
}

#[test]
fn config_has_mac_exact_match() {
    let cfg = make_config_with_mac(&[0xAA, 0xBB, 0xCC, 0xDD, 0xEE, 0xFF], 1);
    assert!(config_has_mac(&cfg, &[0xAA, 0xBB, 0xCC, 0xDD, 0xEE, 0xFF], 1));
}

#[test]
fn config_has_mac_wrong_addr() {
    let cfg = make_config_with_mac(&[0xAA, 0xBB, 0xCC, 0xDD, 0xEE, 0xFF], 1);
    assert!(!config_has_mac(&cfg, &[0x11, 0x22, 0x33, 0x44, 0x55, 0x66], 1));
}

#[test]
fn config_has_mac_wrong_type() {
    let cfg = make_config_with_mac(&[0xAA, 0xBB, 0xCC, 0xDD, 0xEE, 0xFF], 1);
    assert!(!config_has_mac(&cfg, &[0xAA, 0xBB, 0xCC, 0xDD, 0xEE, 0xFF], 6));
}

#[test]
fn config_has_mac_any_type() {
    let cfg = make_config_with_mac(&[0xAA, 0xBB, 0xCC, 0xDD, 0xEE, 0xFF], 0);
    assert!(config_has_mac(&cfg, &[0xAA, 0xBB, 0xCC, 0xDD, 0xEE, 0xFF], 6));
}

#[test]
fn config_has_mac_wrong_length() {
    let cfg = make_config_with_mac(&[0xAA, 0xBB, 0xCC], 1);
    assert!(!config_has_mac(&cfg, &[0xAA, 0xBB, 0xCC, 0xDD, 0xEE, 0xFF], 1));
}

#[test]
fn find_config_by_clid() {
    let mut cfg = make_config_with_mac(&[0; 6], 1);
    cfg.flags = ConfigFlags { clid: true, ..ConfigFlags::empty() };
    cfg.clid = Some(vec![0x01, 0x02, 0x03]);
    let configs = [cfg];
    assert!(find_config(&configs, Some(&[0x01, 0x02, 0x03]), None, 0, None, &[]).is_some());
}

#[test]
fn find_config_by_mac() {
    let configs = [make_config_with_mac(&[0xAA, 0xBB, 0xCC, 0xDD, 0xEE, 0xFF], 1)];
    assert!(find_config(&configs, None, Some(&[0xAA, 0xBB, 0xCC, 0xDD, 0xEE, 0xFF]), 1, None, &[]).is_some());
}

#[test]
fn find_config_by_hostname() {
    let mut cfg = make_config_with_mac(&[0; 6], 1);
    cfg.flags = ConfigFlags { name: true, ..ConfigFlags::empty() };
    cfg.hostname = Some("myhost".to_string());
    let configs = [cfg];
    assert!(find_config(&configs, None, None, 0, Some("myhost"), &[]).is_some());
}

#[test]
fn find_config_hostname_case_insensitive() {
    let mut cfg = make_config_with_mac(&[0; 6], 1);
    cfg.flags = ConfigFlags { name: true, ..ConfigFlags::empty() };
    cfg.hostname = Some("MyHost".to_string());
    let configs = [cfg];
    assert!(find_config(&configs, None, None, 0, Some("myhost"), &[]).is_some());
}

#[test]
fn find_config_no_match() {
    let configs = [make_config_with_mac(&[0xAA; 6], 1)];
    assert!(find_config(&configs, None, Some(&[0xBB; 6]), 1, None, &[]).is_none());
}

#[test]
fn find_config_clid_dhcpcd_workaround() {
    let mut cfg = make_config_with_mac(&[0; 6], 1);
    cfg.flags = ConfigFlags { clid: true, ..ConfigFlags::empty() };
    cfg.clid = Some(vec![0x01, 0x02]);
    let configs = [cfg];
    assert!(find_config(&configs, Some(&[0x00, 0x01, 0x02]), None, 0, None, &[]).is_some());
}

#[test]
fn find_config_respects_tag_filters() {

    let mut cfg = make_config_with_mac(&[0; 6], 1);
    cfg.flags = ConfigFlags { name: true, ..ConfigFlags::empty() };
    cfg.hostname = Some("myhost".to_string());
    cfg.filter = vec![DhcpNetid { net: "pxe".into() }, DhcpNetid { net: "lab".into() }];
    let configs = [cfg];

    assert!(find_config(&configs, None, None, 0, Some("myhost"), &[DhcpNetid { net: "pxe".into() }]).is_none());
    assert!(find_config(
        &configs,
        None,
        None,
        0,
        Some("myhost"),
        &[DhcpNetid { net: "pxe".into() }, DhcpNetid { net: "lab".into() }]
    ).is_some());
}

#[test]
fn find_config_wildcard_mac_prefers_fewer_wildcards() {
    let mac = [0xAA, 0xBB, 0xCC, 0xDD, 0xEE, 0xFF];

    let mut specific = make_config_with_mac(&mac, 1);
    specific.hwaddrs[0].wildcard_mask = 0b0000_0001;

    let mut loose = make_config_with_mac(&mac, 1);
    loose.hwaddrs[0].wildcard_mask = 0b0000_0111;

    let configs = [loose, specific];
    let found = find_config(&configs, None, Some(&mac), 1, None, &[]).unwrap();
    assert_eq!(found.hwaddrs[0].wildcard_mask, 0b0000_0001);
}

#[test]
fn find_config_wildcard_mac_tie_keeps_earliest_listed() {
    let mac = [0xAA, 0xBB, 0xCC, 0xDD, 0xEE, 0xFF];

    let mut first = make_config_with_mac(&mac, 1);
    first.hwaddrs[0].wildcard_mask = 0b0000_0001;
    first.hostname = Some("first".to_string());

    let mut second = make_config_with_mac(&mac, 1);
    second.hwaddrs[0].wildcard_mask = 0b0000_0001;
    second.hostname = Some("second".to_string());

    let configs = [first, second];
    let found = find_config(&configs, None, Some(&mac), 1, None, &[]).unwrap();
    assert_eq!(found.hostname.as_deref(), Some("first"));
}

#[test]
fn option_string_ex_ipv4_address_list() {
    let val = [8, 8, 8, 8, 8, 8, 4, 4];
    let (name, formatted) = option_string_ex(false, 6, &val);
    assert_eq!(name, "dns-server");
    assert_eq!(formatted, Some("8.8.8.8, 8.8.4.4".to_string()));
}

#[test]
fn option_string_ex_ipv6_address_list() {
    let val = [
        0x20, 0x01, 0x0d, 0xb8, 0x00, 0x00, 0x00, 0x00, 0x00, 0x00, 0x00, 0x00, 0x00, 0x00, 0x00, 0x01,
        0x20, 0x01, 0x0d, 0xb8, 0x00, 0x00, 0x00, 0x00, 0x00, 0x00, 0x00, 0x00, 0x00, 0x00, 0x00, 0x02,
    ];
    let (name, formatted) = option_string_ex(true, 23, &val);
    assert_eq!(name, "dns-server");
    let result = formatted.unwrap();
    assert!(result.contains("2001:db8") || result.contains("2001:db8"), "IPv6 addresses should be formatted");
}

#[test]
fn option_string_ex_name_type() {
    let (name, formatted) = option_string_ex(false, 15, b"example.com");
    assert_eq!(name, "domain-name");
    assert_eq!(formatted, Some("example.com".to_string()));
}

#[test]
fn option_string_ex_decimal() {
    let (name, formatted) = option_string_ex(false, 26, &[0x05, 0xDC]);
    assert_eq!(name, "mtu");
    assert_eq!(formatted, Some("1500".to_string()));
}

#[test]
fn option_string_ex_time() {
    let (name, formatted) = option_string_ex(false, 58, &[0x00, 0x00, 0x0E, 0x4D]);
    assert_eq!(name, "T1");
    assert_eq!(formatted, Some("1h 1m 1s".to_string()));
}

#[test]
fn option_string_ex_hex_truncation() {
    let val: Vec<u8> = (0..21).map(|i| (i % 256) as u8).collect();
    let (name, formatted) = option_string_ex(false, 200, &val);
    assert_eq!(name, "");
    let result = formatted.unwrap();
    assert!(result.ends_with("..."), "Hex output >14 bytes should end with '...'");
    let hex_part = result.trim_end_matches("...");
    let hex_pairs: Vec<&str> = hex_part.split(':').collect();
    assert!(hex_pairs.len() <= 14, "Should truncate to max 14 bytes");
}

#[test]
fn option_string_ex_null_value_returns_name_only() {
    let (name, formatted) = option_string_ex(false, 6, &[]);
    assert_eq!(name, "dns-server");
    let _ = formatted;
}

#[test]
fn option_string_ex_rfc1035_name() {
    let val = vec![7, b'e', b'x', b'a', b'm', b'p', b'l', b'e', 3, b'c', b'o', b'm', 0];
    let (name, formatted) = option_string_ex(true, 24, &val);
    assert_eq!(name, "domain-search");
    if let Some(result) = formatted {
        assert!(result.contains("example"), "Should decode RFC1035 name");
        assert!(result.contains("com"), "Should include domain");
    }
}

#[test]
fn option_string_ex_cstring() {
    let val = vec![0, 5, b'f', b'i', b'r', b's', b't', 0, 6, b's', b'e', b'c', b'o', b'n', b'd'];
    let (name, formatted) = option_string_ex(true, 60, &val);
    assert_eq!(name, "bootfile-param");
    if let Some(result) = formatted {
        assert!(result.contains(",") || result.contains("first") || result.contains("second"),
            "CSTRING should decode length-prefixed strings");
    }
}
fn base_ctx() -> DhcpContext {

    DhcpContext {
        lease_time: 3600,
        addr_epoch: 0,
        netmask: Ip4::new(255, 255, 255, 0),
        broadcast: Ip4::new(192, 168, 1, 255),
        local: Ip4::new(192, 168, 1, 1),
        router: Ip4::new(192, 168, 1, 1),
        start: Ip4::new(192, 168, 1, 100),
        end: Ip4::new(192, 168, 1, 200),
        flags: ContextFlags::empty(),
        netid: DhcpNetid { net: "net".into() },
        filter: vec![],
        start6: ip6("fd00::100"),
        end6: ip6("fd00::200"),
        local6: Ip6::unspecified(),
        prefix: 64,
        if_index: 0,
        valid: 0,
        preferred: 0,
        ra_time: 0,
        ra_short_period_start: 0,
        saved_valid: 0,
        address_lost_time: 0,
    }
}

#[test]
fn log_context_ipv4_plain_range() {

    let ctx = base_ctx();
    let msgs = log_context(IpAddress::V4(Ip4::unspecified()), &ctx, false);
    assert_eq!(msgs, vec!["DHCP, IP range 192.168.1.100 -- 192.168.1.200, lease time 1h".to_string()]);
}

#[test]
fn log_context_ipv4_static_uses_end_addr_not_start() {

    let mut ctx = base_ctx();
    ctx.flags = ContextFlags { static_only: true, ..ContextFlags::empty() };
    let msgs = log_context(IpAddress::V4(Ip4::unspecified()), &ctx, false);
    assert_eq!(msgs, vec!["DHCP, static leases only on 192.168.1.200, lease time 1h".to_string()]);
}

#[test]
fn log_context_ipv4_proxy_has_no_lease_time() {

    let mut ctx = base_ctx();
    ctx.flags = ContextFlags { proxy: true, ..ContextFlags::empty() };
    let msgs = log_context(IpAddress::V4(Ip4::unspecified()), &ctx, false);
    assert_eq!(msgs, vec!["DHCP, proxy on subnet 192.168.1.200".to_string()]);
}

#[test]
fn log_context_skips_old_context() {

    let mut ctx = base_ctx();
    ctx.flags = ContextFlags { old: true, ..ContextFlags::empty() };
    let msgs = log_context(IpAddress::V4(Ip4::unspecified()), &ctx, false);
    assert!(msgs.is_empty(), "CONTEXT_OLD contexts should produce no messages");
}

#[test]
fn log_context_ipv6_plain_range() {

    let mut ctx = base_ctx();
    ctx.flags = ContextFlags { dhcp: true, ..ContextFlags::empty() };
    ctx.lease_time = 7200;
    let msgs = log_context(IpAddress::V6(Ip6::unspecified()), &ctx, false);
    assert_eq!(msgs, vec!["DHCPv6, IP range fd00::100 -- fd00::200, lease time 2h".to_string()]);
}

#[test]
fn log_context_ipv6_deprecated_excludes_lease_time() {

    let mut ctx = base_ctx();
    ctx.flags = ContextFlags { dhcp: true, deprecate: true, ..ContextFlags::empty() };
    let msgs = log_context(IpAddress::V6(Ip6::unspecified()), &ctx, false);
    assert_eq!(msgs, vec!["DHCPv6, IP range fd00::100 -- fd00::200, prefix deprecated".to_string()]);
}

#[test]
fn log_context_ipv6_static_and_proxy() {

    let mut static_ctx = base_ctx();
    static_ctx.flags = ContextFlags { dhcp: true, static_only: true, ..ContextFlags::empty() };
    let msgs = log_context(IpAddress::V6(Ip6::unspecified()), &static_ctx, false);
    assert_eq!(msgs, vec!["DHCPv6, static leases only on fd00::200, lease time 1h".to_string()]);

    let mut proxy_ctx = base_ctx();
    proxy_ctx.flags = ContextFlags { dhcp: true, proxy: true, ..ContextFlags::empty() };
    let msgs = log_context(IpAddress::V6(Ip6::unspecified()), &proxy_ctx, false);
    assert_eq!(msgs, vec!["DHCPv6, proxy on subnet fd00::200".to_string()]);
}

#[test]
fn log_context_ipv6_ra_stateless_uses_subnet() {

    let mut ctx = base_ctx();
    ctx.flags = ContextFlags { dhcp: true, ra_stateless: true, ..ContextFlags::empty() };
    let msgs = log_context(IpAddress::V6(Ip6::unspecified()), &ctx, false);
    assert_eq!(msgs, vec!["DHCPv6 stateless on fd00::".to_string()]);
}

#[test]
fn log_context_ra_name_and_ra_lines() {

    let mut ctx = base_ctx();
    ctx.flags = ContextFlags { ra_name: true, ra: true, ..ContextFlags::empty() };
    let msgs = log_context(IpAddress::V6(Ip6::unspecified()), &ctx, false);
    assert_eq!(
        msgs,
        vec![
            "DHCPv4-derived IPv6 names on fd00::".to_string(),
            "router advertisement on fd00::".to_string(),
        ]
    );
}

#[test]
fn log_context_opt_ra_triggers_ra_line_for_dhcp_context() {

    let mut ctx = base_ctx();
    ctx.flags = ContextFlags { dhcp: true, ..ContextFlags::empty() };
    let msgs = log_context(IpAddress::V6(Ip6::unspecified()), &ctx, true);
    assert!(msgs.iter().any(|m| m == "router advertisement on fd00::"),
        "opt_ra + CONTEXT_DHCP on v6 should emit a router-advertisement line, got {msgs:?}");
}
fn base_relay() -> DhcpRelay {

    DhcpRelay {
        local_addr: AllAddr::Addr4(Ip4::new(192, 168, 1, 1)),
        server_addr: AllAddr::Addr4(Ip4::new(10, 0, 0, 1)),
        uplink_addr: AllAddr::Addr4(Ip4::unspecified()),
        interface: None,
        iface_index: 0,
        port: 67,
        split_mode: 0,
        warned: 0,
        matchcount: 0,
    }
}

#[test]
fn log_relay_ipv4_normal_includes_local_addr() {

    let relay = base_relay();
    let msg = log_relay(IpAddress::V4(Ip4::unspecified()), &relay);
    assert_eq!(msg, "DHCP relay from 192.168.1.1 to 10.0.0.1");
}

#[test]
fn log_relay_with_interface() {

    let mut relay = base_relay();
    relay.interface = Some("eth0".to_string());
    let msg = log_relay(IpAddress::V4(Ip4::unspecified()), &relay);
    assert_eq!(msg, "DHCP relay from 192.168.1.1 to 10.0.0.1 via eth0");
}

#[test]
fn log_relay_broadcast_with_interface_omits_server() {

    let mut relay = base_relay();
    relay.server_addr = AllAddr::Addr4(Ip4::unspecified());
    relay.interface = Some("eth0".to_string());
    let msg = log_relay(IpAddress::V4(Ip4::unspecified()), &relay);
    assert_eq!(msg, "DHCP relay from 192.168.1.1 via eth0");
}

#[test]
fn log_relay_split_mode() {

    let mut relay = base_relay();
    relay.interface = Some("eth0".to_string());
    relay.split_mode = 1;
    let msg = log_relay(IpAddress::V4(Ip4::unspecified()), &relay);
    assert_eq!(msg, "DHCP split-relay from 192.168.1.1 to 10.0.0.1 via eth0");
}

#[test]
fn log_relay_no_interface_ignores_broadcast_flag() {

    let mut relay = base_relay();
    relay.server_addr = AllAddr::Addr4(Ip4::unspecified());
    relay.interface = None;
    let msg = log_relay(IpAddress::V4(Ip4::unspecified()), &relay);
    assert_eq!(msg, "DHCP relay from 192.168.1.1 to 0.0.0.0");
}

#[test]
fn log_relay_non_default_port() {

    let mut relay = base_relay();
    relay.port = 8067;
    let msg = log_relay(IpAddress::V4(Ip4::unspecified()), &relay);
    assert_eq!(msg, "DHCP relay from 192.168.1.1 to 10.0.0.1#8067");
}

#[test]
fn log_relay_ipv6_broadcast_uses_all_servers_multicast() {

    let mut relay = base_relay();
    relay.local_addr = AllAddr::Addr6(ip6("fd00::1"));
    relay.server_addr = AllAddr::Addr6(ip6("FF05::1:3"));
    relay.interface = Some("eth0".to_string());
    relay.port = 547;
    let msg = log_relay(IpAddress::V6(Ip6::unspecified()), &relay);
    assert_eq!(msg, "DHCP relay from fd00::1 via eth0");
}

#[test]
fn vendor_class_is_read_where_it_is_text() {
    let opts = make_options(60, b"PXEClient");
    assert_eq!(get_vendor_class(&opts), Some("PXEClient".to_string()));
    assert_eq!(get_vendor_class(&make_options(60, &[b'a', 0xFF, b'b'])), None);
    assert_eq!(get_vendor_class(&make_options(12, b"x")), None);
}

#[test]
fn find_option_passes_over_padding_and_stops_at_a_cut() {
    assert_eq!(find_option(&[0, 0, 12, 1, 7, 255], 12), Some([7u8].as_ref()));
    assert_eq!(find_option(&[12, 5, 1, 2], 12), None);
    assert_eq!(find_option(&[255, 12, 1, 7], 12), None);
}

#[test]
fn options_are_built_in_order_and_end() {
    let opt = |code: i32, val: &[u8]| DhcpOpt {
        opt: code,
        flags: DhOptFlags::empty(),
        val: Some(val.to_vec()),
        netid: vec![],
        encap: 0,
        vendor_class: None,
    };
    let built = build_options(&[opt(3, &[1, 2]), opt(12, b"h")]);
    assert_eq!(built, vec![3, 2, 1, 2, 12, 1, b'h', 255]);
}

#[test]
fn options_of_the_second_protocol_are_shown_too() {
    assert_eq!(lookup_dhcp_opt(true, "dns-server"), Some(23));
    assert!(display_opts6().iter().any(|(v, n)| *v == 23 && *n == "dns-server"));
}

#[test]
fn a_device_that_cannot_be_bound_is_reported() {
    let fds = [(3, false), (4, true)];
    assert_eq!(bind_dhcp_devices(Some("eth0"), &fds, |_: &str, _: i32| BindOutcome::Bound), 0);
    assert!(bind_dhcp_devices(Some("eth0"), &fds, |_: &str, _: i32| BindOutcome::Failed) != 0);
}

#[test]
fn an_address_is_given_to_one_host_only() {
    let mut cache = DnsCache::new();
    cache.add_host("a.lan", Ip4::new(10, 0, 0, 9));
    cache.add_host("b.lan", Ip4::new(10, 0, 0, 9));
    let mut first = make_config_with_mac(&[1; 6], 1);
    first.flags.name = true;
    first.hostname = Some("a.lan".to_string());
    let mut second = make_config_with_mac(&[2; 6], 1);
    second.flags.name = true;
    second.hostname = Some("b.lan".to_string());
    let mut configs = vec![first, second];
    dhcp_update_configs(&mut configs, &cache);
    assert_eq!(configs[0].addr, Ip4::new(10, 0, 0, 9));
    assert!(configs[0].flags.addr);
    assert!(!configs[1].flags.addr);
}

#[test]
fn rules_add_tags_and_take_none_away() {
    let rules = vec![
        TagIf { tag: nids(&["a"]), set: nids(&["b"]) },
        TagIf { tag: nids(&["b"]), set: nids(&["c"]) },
    ];
    let out = run_tag_if(nids(&["a"]), &rules);
    for want in ["a", "b", "c"] {
        assert!(out.iter().any(|t| t.net == want), "{want}");
    }
}

#[test]
fn only_options_for_the_tags_are_sent() {
    let tagged = |code: i32, tags: &[&str]| DhcpOpt {
        opt: code,
        flags: DhOptFlags::empty(),
        val: Some(vec![1]),
        netid: nids(tags),
        encap: 0,
        vendor_class: None,
    };
    let mut opts = vec![tagged(1, &["lan"]), tagged(2, &["wifi"]), tagged(3, &[])];
    let tags = option_filter(nids(&["lan"]), None, &mut opts, 0, &[]);
    assert!(tags.iter().any(|t| t.net == "lan"));
    assert!(opts[0].flags.tagok);
    assert!(!opts[1].flags.tagok);
    assert!(opts[2].flags.tagok);
}

#[test]
fn a_name_is_split_at_its_first_dot() {
    assert_eq!(strip_hostname("a.b.c"), ("a", Some("b.c")));
}

#[test]
fn addresses_are_written_in_their_shortest_form() {
    assert_eq!(ip6("2001:db8::1").text(), "2001:db8::1");
    assert_eq!(ip6("0:0:1::").text(), "0:0:1::");
    assert_eq!(ip6("::").text(), "::");
    assert_eq!(ip6("::ffff:102:304").text(), "::ffff:1.2.3.4");
    assert_eq!(ip6("1:0:0:2:0:0:0:3").text(), "1:0:0:2::3");
    assert_eq!(Ip4::new(10, 0, 200, 3).text(), "10.0.200.3");
}

#[test]
fn bytes_that_are_no_text_are_replaced_in_names() {
    assert_eq!(option_string(true, 24, &[3, b'a', 0xFF, b'b', 2, b'd', b'e', 0]), "a\u{fffd}b.de");
    assert_eq!(option_string(true, 15, &[0, 2, b'x', 0xC0, 0, 1, b'y']), "x\u{fffd}, y");
    assert_eq!(option_string(true, 24, &[9, b'a']), "09:61");
}

#[test]
fn a_buffer_grows_until_the_packet_fits() {
    assert_eq!(grown_buffer(2000, 1500, false), None);
    assert_eq!(grown_buffer(2000, 1500, true), Some(2100));
    assert_eq!(grown_buffer(1500, 1500, true), Some(1600));
    assert_eq!(after_receive(7, Receipt::Got { len: 5, truncated: false }), Received::Whole(5));
    assert_eq!(after_receive(7, Receipt::Got { len: 5, truncated: true }), Received::Cut);
    assert_eq!(after_receive(7, Receipt::Interrupted), Received::Again);
    assert_eq!(after_receive(7, Receipt::Gone), Received::Whole(7));
    assert_eq!(after_receive(7, Receipt::Failed), Received::Error);
}

#[test]
fn masks_say_which_bytes_count() {
    assert_eq!(match_masked(&[1, 2, 3], &[1, 2, 3], 0), 4);
    assert_eq!(match_masked(&[1, 2, 9], &[1, 2, 3], 1), 3);
    assert_eq!(match_masked(&[1, 2, 9], &[1, 2, 3], 2), 0);
    assert_eq!(match_masked(&[9, 9, 9], &[1, 2, 3], 7), 1);
}

#[test]
fn lease_times_are_written_in_parts() {
    assert_eq!(prettyprint_time(3600), "1h");
    assert_eq!(prettyprint_time(90061), "1d1h1m1s");
    assert_eq!(prettyprint_time(0), "");
    assert_eq!(prettyprint_time(0xffff_ffff), "infinite");
}

#[test]
fn a_star_matches_the_rest_of_a_name() {
    assert!(wildcard_matchn("eth*", "eth0", None));
    assert!(wildcard_matchn("eth0", "eth0", None));
    assert!(!wildcard_matchn("eth0", "eth1", None));
    assert!(!wildcard_matchn("eth", "eth0", None));
    assert!(wildcard_matchn("eth", "eth0", Some(3)));
}

#[test]
fn a_client_is_looked_for_by_its_client_id_first() {
    let mac = [2, 0, 0, 0, 0, 1];
    let mut by_clid = make_config_with_mac(&[2, 0, 0, 0, 0, 9], 1);
    by_clid.flags = ConfigFlags { clid: true, ..ConfigFlags::empty() };
    by_clid.clid = Some(vec![7]);
    by_clid.lease_time = 1;
    let mut by_mac = make_config_with_mac(&mac, 1);
    by_mac.lease_time = 2;
    let mut by_name = make_config_with_mac(&[2, 0, 0, 0, 0, 8], 1);
    by_name.flags = ConfigFlags { name: true, ..ConfigFlags::empty() };
    by_name.hostname = Some("host".to_string());
    by_name.lease_time = 3;
    let mut by_wildcard = make_config_with_mac(&mac, 1);
    by_wildcard.hwaddrs[0].wildcard_mask = 1;
    by_wildcard.lease_time = 4;
    let configs = [by_wildcard, by_name, by_mac, by_clid];
    let found = |n: usize, clid: Option<&[u8]>, name: Option<&str>| {
        find_config(&configs[..n], clid, Some(&mac), 1, name, &[]).map(|c| c.lease_time)
    };
    assert_eq!(found(4, Some(&[7]), Some("host")), Some(1));
    assert_eq!(found(4, Some(&[8]), Some("host")), Some(2));
    assert_eq!(found(2, Some(&[7]), Some("host")), Some(3));
    assert_eq!(found(1, Some(&[7]), Some("host")), Some(4));
    assert_eq!(found(0, Some(&[7]), Some("host")), None);
}

#[test]
fn an_address_longer_than_the_room_is_no_hosts() {
    let configs = [make_config_with_mac(&[2, 0, 0, 0, 0, 1], 1)];
    assert!(!config_has_mac(&configs[0], &[2; 17], 1));
    assert!(find_config(&configs, None, Some(&[2; 17]), 1, None, &[]).is_none());
}

#[test]
fn a_stored_length_beyond_the_room_matches_no_shorter_address() {
    let mut config = make_config_with_mac(&[2, 0, 0, 0, 0, 1], 1);
    config.hwaddrs[0].hwaddr_len = 20;
    assert!(!config_has_mac(&config, &[2, 0, 0, 0, 0, 1], 1));
    assert!(find_config(&[config], None, Some(&[2, 0, 0, 0, 0, 1]), 1, None, &[]).is_none());
}

#[test]
fn every_option_that_is_listed_is_found_by_its_name() {
    for (v, name) in display_opts() {
        assert_eq!(lookup_dhcp_opt(false, name), Some(v));
        assert_eq!(lookup_dhcp_opt(false, &name.to_uppercase()), Some(v));
    }
    for (v, name) in display_opts6() {
        assert_eq!(lookup_dhcp_opt(true, name), Some(v));
        assert_eq!(lookup_dhcp_opt(true, &name.to_uppercase()), Some(v));
    }
}
