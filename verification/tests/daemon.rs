//! Tests of the life of the daemon.

use dnsmasq::addr::{AllAddr, Ip4, Ip6, IpAddress, SockAddr};
use dnsmasq::daemon::{Daemon, Options};
use dnsmasq::dhcp6::{DuidMacSource, LiveAddr6};
use dnsmasq::dhcp_protocol::DHCP_SERVER_PORT;
use dnsmasq::dhcp_types::{ContextFlags, DhcpContext, DhcpNetid, DhcpRelay};
use dnsmasq::dnsmasq::radv::ND_ROUTER_SOLICIT;
use dnsmasq::dnsmasq::{
    advertised_hop_limit, after_bind, answer_nd_packet, bind_dns_listeners, bind_tftp_listeners, check_dns_sockets,
    check_unmatched, check_wildcard, clear_cache_and_reload,
    daemon_cache_size, daemon_dhcp6_runtime_with, daemon_dhcp_runtime, daemon_forward_config, daemon_local_data,
    daemon_radv_config, daemon_tftp_config, dbus_service_name, device_bound, drop_privileges, drop_privileges_with, hosts_paths,
    iface_allowed_config, iface_check_config, init_daemon, init_daemon_with, nd_filter, needed_capabilities,
    next_ra_delay, on_sighup, on_signal, plan_dns_listeners, plan_tftp_listeners, ra_mtu_name, ra_reply_dest, ra_send_addr,
    ra_send_targets, radv_dest_needs_scope_id, read_pid_file, resolve_ra_mtu, resolve_run_as, send_alarm, served_contexts, sock_addr_str, solicitor,
    startup_outcome, startup_plan, startup_steps, stop_after_failure, stop_at_end, wants_echo_replies, write_pid_file,
    write_pid_file_as, Accounts, Arrival, BindTarget, Caught, Command, DaemonEvent, FileTime, FileWrite, GroupLookup, IcmpPinger, Interface,
    ListenOutcome, Listeners, MainEvent, MainLoop, NeededCaps, PingEvent, Plan, PrivStep, RaAnswer, ResolvMonitor, ResolvRead, RunAs,
    RunResult, Running, Step, StopStep, Task, UserLookup, CHGRP, DEFAULT_CACHE_SIZE,
};
use dnsmasq::error::DnsmasqError;
use dnsmasq::records::{
    BogusAddr, BridgeConfig, Cname, DhcpReplyDelay, HostRecord, Iname, InterfaceName, Ipsets, MxSrvRecord, Naptr,
    PtrRecord, RaInterface, RrList, Server, ServerFlags, TxtRecord,
};
use std::cell::RefCell;
use std::time::Duration;

/// An IPv6 address from its text.
fn ip6(text: &str) -> Ip6 {
    let (head, tail) = match text.split_once("::") {
        Some((h, t)) => (h, Some(t)),
        None => (text, None),
    };
    let words = |s: &str| -> Vec<u128> {
        s.split(':').filter(|w| !w.is_empty()).map(|w| u128::from_str_radix(w, 16).unwrap()).collect()
    };
    let front = words(head);
    let back = words(tail.unwrap_or(""));
    let mut bits: u128 = 0;
    for i in 0..8usize {
        let word = if i < front.len() {
            front[i]
        } else if i + back.len() >= 8 {
            back[i + back.len() - 8]
        } else {
            0
        };
        bits = bits * 65536 + word;
    }
    Ip6 { bits }
}

fn v4(a: u8, b: u8, c: u8, d: u8, port: u16) -> SockAddr {
    SockAddr::V4 { ip: Ip4::new(a, b, c, d), port }
}

fn test_server(interface: &str) -> Server {
    Server {
        flags: ServerFlags::empty(),
        domain: String::new(),
        source_addr: v4(8, 8, 8, 8, 53),
        addr: v4(8, 8, 8, 8, 53),
        interface: interface.to_string(),
        ifindex: 0,
        queries: 0,
        failed_queries: 0,
        nxdomain_replies: 0,
        retrys: 0,
        query_latency: 0,
        mma_latency: 0,
        forwardcount: 0,
    }
}

fn context_with(flags: ContextFlags, start: Ip4, end: Ip4, router: Ip4, broadcast: Ip4) -> DhcpContext {
    DhcpContext {
        lease_time: 3600,
        addr_epoch: 0,
        netmask: Ip4::new(255, 255, 255, 0),
        broadcast,
        local: Ip4::unspecified(),
        router,
        start,
        end,
        flags,
        netid: DhcpNetid { net: "default".to_string() },
        filter: vec![],
        start6: Ip6::unspecified(),
        end6: Ip6::unspecified(),
        local6: Ip6::unspecified(),
        prefix: 0,
        if_index: 0,
        valid: 0,
        preferred: 0,
        ra_time: 0,
        ra_short_period_start: 0,
        saved_valid: 0,
        address_lost_time: 0,
    }
}

fn dhcp_flag() -> ContextFlags {
    ContextFlags { dhcp: true, ..ContextFlags::empty() }
}

fn test_dhcp_context() -> DhcpContext {
    context_with(
        dhcp_flag(),
        Ip4::new(10, 0, 0, 100),
        Ip4::new(10, 0, 0, 150),
        Ip4::new(10, 0, 0, 1),
        Ip4::new(10, 0, 0, 255),
    )
}

fn loopback_context() -> DhcpContext {
    context_with(
        dhcp_flag(),
        Ip4::new(127, 0, 0, 10),
        Ip4::new(127, 0, 0, 20),
        Ip4::new(127, 0, 0, 1),
        Ip4::new(127, 0, 0, 255),
    )
}

fn dhcp6_ctx(start6: Ip6, end6: Ip6, prefix: i32) -> DhcpContext {
    let mut ctx = context_with(
        dhcp_flag(),
        Ip4::unspecified(),
        Ip4::unspecified(),
        Ip4::unspecified(),
        Ip4::unspecified(),
    );
    ctx.netmask = Ip4::unspecified();
    ctx.netid = DhcpNetid { net: String::new() };
    ctx.start6 = start6;
    ctx.end6 = end6;
    ctx.prefix = prefix;
    ctx
}

fn relay(local: Ip4, server: Ip4, interface: Option<&str>, iface_index: i32) -> DhcpRelay {
    DhcpRelay {
        local_addr: AllAddr::Addr4(local),
        server_addr: AllAddr::Addr4(server),
        uplink_addr: AllAddr::Addr4(Ip4::unspecified()),
        interface: interface.map(|s| s.to_string()),
        iface_index,
        port: i32::from(DHCP_SERVER_PORT),
        split_mode: 0,
        warned: 0,
        matchcount: 0,
    }
}

fn iname(name: Option<&str>, addr: Option<SockAddr>) -> Iname {
    Iname { name: name.map(|s| s.to_string()), addr, flags: 0 }
}

#[test]
fn init_daemon_with_logs_dhcp_context_and_relay() {
    let mut daemon = Daemon::default();
    daemon.dhcp.push(test_dhcp_context());
    daemon.relay4.push(relay(Ip4::new(10, 0, 0, 1), Ip4::new(10, 0, 0, 2), Some("eth0"), 1));

    let (_, lines) = init_daemon_with(daemon);
    let output = lines.join("\n");
    assert!(
        output.contains("DHCP, IP range 10.0.0.100 -- 10.0.0.150, lease time 1h"),
        "startup log should contain the dhcp-range line, got: {output}"
    );
    assert!(
        output.contains("DHCP relay from 10.0.0.1 to 10.0.0.2 via eth0"),
        "startup log should contain the dhcp-relay line, got: {output}"
    );
}

#[test]
fn init_daemon_with_sets_doing_dhcp6_from_context_flags() {
    let mut daemon = Daemon::default();
    daemon.dhcp6.push(test_dhcp_context());

    let (guard, _) = init_daemon_with(daemon);
    assert!(guard.doing_dhcp6);
    assert!(!guard.doing_ra);
}

#[test]
fn init_daemon_with_sets_doing_ra_from_opt_ra_when_dhcp6_present() {
    let mut daemon = Daemon::default();
    daemon.options.ra = true;
    daemon.dhcp6.push(test_dhcp_context());

    let (guard, _) = init_daemon_with(daemon);
    assert!(guard.doing_ra);
}

#[test]
fn init_daemon_with_sets_doing_ra_from_context_ra_flag() {
    let mut daemon = Daemon::default();
    let mut ctx = test_dhcp_context();
    ctx.flags = ContextFlags { ra: true, ..ContextFlags::empty() };
    daemon.dhcp6.push(ctx);

    let (guard, _) = init_daemon_with(daemon);
    assert!(guard.doing_ra);
}

#[test]
fn init_daemon_with_leaves_doing_flags_false_when_no_dhcp6_contexts() {
    let mut daemon = Daemon::default();
    daemon.options.ra = true;

    let (guard, _) = init_daemon_with(daemon);
    assert!(!guard.doing_ra);
    assert!(!guard.doing_dhcp6);
}

#[test]
fn init_daemon_with_inits_ipset_socket_when_ipsets_configured() {
    let mut daemon = Daemon::default();
    daemon.ipsets.push(Ipsets { sets: vec!["myset".to_string()], domain: "example.com".to_string() });

    let (guard, _) = init_daemon_with(daemon);
    assert_eq!(guard.ipsets.len(), 1);
}

#[test]
fn init_daemon_returns_handle() {
    let guard = init_daemon();
    assert_eq!(guard.port, 53);
}

#[test]
fn write_and_read_pid_file_roundtrip() {
    let file: RefCell<Option<String>> = RefCell::new(None);
    let store = |_: &str, text: &str, _: Option<(u32, u32)>| {
        *file.borrow_mut() = Some(text.to_string());
        FileWrite::Done
    };

    let pid: u32 = 31337;
    write_pid_file("/run/dnsmasq.pid", pid, store).expect("write_pid_file failed");
    let text = file.borrow().clone().unwrap();
    assert_eq!(text, "31337\n");
    let read_back = read_pid_file("/run/dnsmasq.pid", Ok(text)).expect("read_pid_file failed");
    assert_eq!(pid, read_back);
}

#[test]
fn read_pid_file_missing_returns_error() {
    let path = "/tmp/dnsmasq_rs_nonexistent_9999.pid";
    let result = read_pid_file(path, Err("No such file or directory".to_string()));
    assert!(result.is_err());
    let msg = result.unwrap_err().message();
    assert!(msg.contains("pid file error"));
    assert_eq!(msg, format!("pid file error: read {path}: No such file or directory"));
}

#[test]
fn drop_privileges_succeeds_for_the_current_user() {
    assert_eq!(drop_privileges(1000, 1000, 1000, 1000), vec![]);
    assert_eq!(drop_privileges(0, 0, 0, 0), vec![PrivStep::ClearGroups, PrivStep::SetGid(0)]);
}

#[test]
fn drop_privileges_with_empty_run_as_is_a_noop() {
    assert_eq!(drop_privileges_with(1000, 1000, &RunAs::default(), NeededCaps::default()), vec![]);
    assert_eq!(drop_privileges_with(0, 0, &RunAs::default(), NeededCaps::default()), vec![]);
}

#[test]
fn write_pid_file_replaces_an_existing_file() {
    let file: RefCell<String> = RefCell::new("99999\n".to_string());
    let store = |_: &str, text: &str, _: Option<(u32, u32)>| {
        *file.borrow_mut() = text.to_string();
        FileWrite::Done
    };
    write_pid_file("/run/dnsmasq.pid", 4242, store).expect("write_pid_file failed");
    let text = file.borrow().clone();
    assert_eq!(read_pid_file("/run/dnsmasq.pid", Ok(text)).unwrap(), 4242);
}

#[test]
fn write_pid_file_reports_an_unwritable_directory() {
    let err = write_pid_file("/proc/dnsmasq_rs_no_such_dir/pid", 1, |_: &str, _: &str, _: Option<(u32, u32)>| {
        FileWrite::NotCreated("No such file or directory".to_string())
    })
    .unwrap_err();
    assert!(matches!(err, DnsmasqError::PidFile(_)));
}

fn accounts() -> Accounts {
    Accounts {
        user: UserLookup::Unknown,
        group: GroupLookup::Unknown,
        usual_group: GroupLookup::Unknown,
        primary_group: GroupLookup::Unknown,
    }
}

#[test]
fn resolve_run_as_rejects_an_unknown_user() {
    let daemon = Daemon {
        username: Some("dnsmasq-rs-definitely-no-such-user".into()),
        ..Default::default()
    };
    let err = resolve_run_as(&daemon, &accounts()).unwrap_err().message();
    assert!(err.contains("unknown user or group"), "unexpected message: {err}");
}

#[test]
fn resolve_run_as_rejects_an_unknown_group() {
    let daemon = Daemon {
        username: None,
        groupname: Some("dnsmasq-rs-definitely-no-such-group".into()),
        ..Default::default()
    };
    let err = resolve_run_as(&daemon, &accounts()).unwrap_err().message();
    assert!(err.contains("unknown user or group"), "unexpected message: {err}");
}

#[test]
fn resolve_run_as_without_a_user_resolves_no_uid() {
    let mut acc = accounts();
    let run_as = resolve_run_as(&Daemon::default(), &acc).expect("no user is not an error");
    assert_eq!(run_as.uid, None);
    assert_eq!(run_as.username, None);
    assert_eq!(run_as.gid, None, "no {CHGRP} and no user: nothing to fall back to");

    acc.usual_group = GroupLookup::Found { name: CHGRP.to_string(), gid: 30 };
    let run_as = resolve_run_as(&Daemon::default(), &acc).expect("no user is not an error");
    assert_eq!(run_as.uid, None);
    assert_eq!(run_as.gid, Some(30), "expected the {CHGRP} group");
}

#[test]
fn resolve_run_as_resolves_a_known_user_and_defaults_the_group() {
    let daemon = Daemon { username: Some("root".into()), ..Default::default() };
    let mut acc = accounts();
    acc.user = UserLookup::Found { uid: 0, gid: 0 };
    let run_as = resolve_run_as(&daemon, &acc).expect("root should resolve");
    assert_eq!(run_as.uid, Some(0));
    assert_eq!(run_as.username.as_deref(), Some("root"));
    assert!(run_as.gid.is_some(), "the group should have been defaulted");
    assert_eq!(run_as.gid, Some(0), "no {CHGRP} group: expected root's primary group");
}

#[test]
fn resolve_run_as_prefers_an_explicit_group_over_the_default() {
    let daemon = Daemon {
        username: Some("root".into()),
        groupname: Some("wheel".into()),
        ..Default::default()
    };
    let mut acc = accounts();
    acc.user = UserLookup::Found { uid: 0, gid: 7 };
    acc.group = GroupLookup::Found { name: "wheel".to_string(), gid: 0 };
    acc.usual_group = GroupLookup::Found { name: CHGRP.to_string(), gid: 30 };
    let run_as = resolve_run_as(&daemon, &acc).expect("root group should resolve");
    assert_eq!(run_as.gid, Some(0));
    assert_eq!(run_as.groupname.as_deref(), Some("wheel"));
}

#[test]
fn needed_capabilities_empty_for_a_plain_resolver() {
    assert!(needed_capabilities(&Daemon::default()).is_empty());
}

#[test]
fn needed_capabilities_wants_net_raw_for_an_interface_bound_server() {
    let mut daemon = Daemon::default();
    daemon.servers.push(test_server(""));
    assert!(needed_capabilities(&daemon).is_empty(), "a plain server needs nothing");

    daemon.servers.push(test_server("eth0"));
    let caps = needed_capabilities(&daemon);
    assert!(caps.net_raw, "SO_BINDTODEVICE per TCP connection needs CAP_NET_RAW");
    assert!(!caps.net_admin);
}

#[test]
fn needed_capabilities_for_dhcp_follows_no_ping() {
    let mut daemon = Daemon::default();
    daemon.dhcp.push(test_dhcp_context());

    let caps = needed_capabilities(&daemon);
    assert!(caps.net_admin, "ARP injection needs CAP_NET_ADMIN");
    assert!(caps.net_raw, "the conflict-detection ping needs CAP_NET_RAW");

    daemon.options.no_ping = true;
    let caps = needed_capabilities(&daemon);
    assert!(caps.net_admin);
    assert!(!caps.net_raw, "--no-ping removes the only CAP_NET_RAW user");
}

#[test]
fn daemon_local_data_carries_every_record_kind() {
    let mut daemon = Daemon { local_ttl: 60, ..Default::default() };
    daemon.host_records.push(HostRecord {
        ttl: 60,
        flags: 0,
        names: vec!["host.test".into()],
        addr4: Some(Ip4::new(192, 0, 2, 10)),
        addr6: None,
    });
    daemon.cnames.push(Cname { ttl: 60, flag: 0, alias: "alias.test".into(), target: "host.test".into() });
    daemon.txt.push(TxtRecord { name: "txt.test".into(), txt: b"\x05hello".to_vec(), class: 1, stat: 0 });
    daemon.rr.push(TxtRecord { name: "rr.test".into(), txt: vec![0xde, 0xad], class: 99, stat: 0 });
    daemon.mxnames.push(MxSrvRecord {
        name: "mail.test".into(),
        target: "sink.test".into(),
        is_srv: false,
        srv_port: 0,
        priority: 10,
        weight: 0,
        offset: 0,
    });
    daemon.ptr.push(PtrRecord { name: "10.2.0.192.in-addr.arpa".into(), ptr: "host.test".into() });
    daemon.naptr.push(Naptr {
        name: "naptr.test".into(),
        replace: "r.test".into(),
        regexp: String::new(),
        services: "SIP+D2U".into(),
        flags: "s".into(),
        order: 1,
        pref: 2,
    });
    daemon.int_names.push(InterfaceName {
        name: "router.lan".into(),
        intr: "eth0".into(),
        flags: 0,
        proto4: None,
        proto6: None,
        addrs: vec![],
    });

    let local = daemon_local_data(&daemon);
    assert_eq!(local.local_ttl, 60);
    assert_eq!(local.host_records.len(), 1);
    assert_eq!(local.cnames.len(), 1);
    assert_eq!(local.txt_records.len(), 6);
    assert_eq!(local.rr_records.len(), 1);
    assert_eq!(local.mx_records.len(), 1);
    assert_eq!(local.ptr_records.len(), 1);
    assert_eq!(local.naptr_records.len(), 1);
    assert_eq!(local.int_names.len(), 1);
    assert!(!local.is_empty());
}

#[test]
fn daemon_local_data_empty_by_default() {
    let local = daemon_local_data(&Daemon::default());
    assert_eq!(local.txt_records.len(), 5);
    assert!(local.rr_records.is_empty());
    assert!(local.mx_records.is_empty());
    assert!(local.ptr_records.is_empty());
    assert!(local.host_records.is_empty());
    assert!(local.cnames.is_empty());
    assert!(local.naptr_records.is_empty());
    assert!(local.int_names.is_empty());
}

#[test]
fn daemon_local_data_no_ident_suppresses_builtin_stat_records() {
    let mut daemon = Daemon::default();
    daemon.options.no_ident = true;
    let local = daemon_local_data(&daemon);
    assert!(local.txt_records.is_empty());
}

#[test]
fn daemon_forward_config_carries_the_reply_policy() {
    let mut daemon = Daemon::default();
    daemon.bogus_addr.push(BogusAddr { addr: AllAddr::Addr4(Ip4::new(64, 94, 110, 11)), prefix: 32 });
    daemon.ignore_addr.push(BogusAddr { addr: AllAddr::Addr4(Ip4::new(198, 51, 100, 9)), prefix: 32 });
    daemon.rrlist_filter.push(RrList { rr: 257 });
    daemon.rrlist_filter.push(RrList { rr: 28 });
    daemon.options.dnssec_valid = true;
    daemon.options.dnssec_proxy = true;
    daemon.options.no_rebind = true;

    let config = daemon_forward_config(&daemon);
    assert_eq!(config.bogus_addr.len(), 1, "--bogus-nxdomain must reach the reply path");
    assert_eq!(config.ignore_addr.len(), 1, "--ignore-address must reach the reply path");
    assert_eq!(config.filter_rr, vec![257, 28], "--filter-rr and --filter-AAAA both land");
    assert!(config.dnssec_valid, "--dnssec gates the reply-side DNSSEC handling");
    assert!(config.dnssec_proxy, "--proxy-dnssec must be readable");
    assert!(config.check_rebind);
}

#[test]
fn rev_server_delegates_reverse_lookups_to_its_own_upstream() {
    let mut daemon = Daemon::default();
    let mut rev = test_server("");
    rev.addr = v4(10, 0, 0, 1, 53);
    rev.domain = "1.168.192.in-addr.arpa".to_string();
    daemon.servers.push(test_server(""));
    daemon.servers.push(rev);

    let config = daemon_forward_config(&daemon);
    assert_eq!(config.upstreams.len(), 2);
    assert_eq!(config.server_domains, vec![String::new(), "1.168.192.in-addr.arpa".to_string()]);
    assert_eq!(config.upstreams[1], v4(10, 0, 0, 1, 53));
}

#[test]
fn daemon_cache_size_defaults_and_clamps() {
    let mut daemon = Daemon::default();
    assert_eq!(daemon_cache_size(&daemon), daemon.cachesize as usize);
    daemon.cachesize = -1;
    assert_eq!(daemon_cache_size(&daemon), DEFAULT_CACHE_SIZE);
    daemon.cachesize = 0;
    assert_eq!(daemon_cache_size(&daemon), 0);
}

#[test]
fn daemon_dhcp_runtime_none_without_range() {
    let daemon = Daemon::default();
    assert!(daemon_dhcp_runtime(&daemon, 0).is_none());
}

#[test]
fn daemon_dhcp_runtime_uses_first_range_and_rules() {
    let mut daemon = Daemon::default();
    daemon.dhcp.push(test_dhcp_context());
    daemon.dhcp_server_port = 1067;
    daemon.dhcp_reply_delays.push(DhcpReplyDelay {
        delay_secs: 3,
        filter: vec![DhcpNetid { net: "pxe".into() }],
    });

    daemon.lease_file = Some("/tmp/test-dnsmasq.leases".into());

    let runtime = daemon_dhcp_runtime(&daemon, 0).expect("dhcp runtime should be built");
    assert_eq!(runtime.bind_addr, SockAddr::V4 { ip: Ip4::unspecified(), port: 1067 });
    assert_eq!(runtime.server.pool_start, Ip4::new(10, 0, 0, 100));
    assert_eq!(runtime.server.pool_end, Ip4::new(10, 0, 0, 150));
    assert_eq!(runtime.server.server_ip, Ip4::new(10, 0, 0, 1));
    assert_eq!(runtime.server.reply_delays.len(), 1);
    assert_eq!(runtime.loop_opts.reply_port_override, None);
    assert_eq!(runtime.server.lease_file.as_deref(), Some("/tmp/test-dnsmasq.leases"));
}

#[test]
fn daemon_dhcp_runtime_uses_listen_address_interface_and_alt_client_port() {
    let mut daemon = Daemon::default();
    daemon.if_addrs.push(iname(None, Some(v4(127, 0, 0, 1, 0))));
    daemon.if_names.push(iname(Some("eth-test"), None));
    daemon.dhcp.push(loopback_context());
    daemon.dhcp_server_port = 1067;
    daemon.dhcp_client_port = 1068;

    let runtime = daemon_dhcp_runtime(&daemon, 0).expect("dhcp runtime should be built");
    assert_eq!(runtime.bind_addr, v4(127, 0, 0, 1, 1067));
    assert_eq!(runtime.bind_interface.as_deref(), Some("eth-test"));
    assert_eq!(runtime.loop_opts.reply_port_override, Some(1068));
}

#[test]
fn daemon_dhcp_runtime_binds_relay_iface_index_to_matching_local_addr() {
    let mut daemon = Daemon::default();
    daemon.if_addrs.push(iname(None, Some(v4(127, 0, 0, 1, 0))));
    daemon.if_names.push(iname(Some("lo"), None));
    daemon.dhcp.push(loopback_context());
    daemon.relay4.push(relay(Ip4::new(127, 0, 0, 1), Ip4::new(10, 0, 0, 1), None, 0));
    daemon.relay4.push(relay(Ip4::new(10, 9, 9, 9), Ip4::new(10, 0, 0, 1), None, 0));

    let expected_index: i32 = 1;
    let runtime = daemon_dhcp_runtime(&daemon, 1).expect("dhcp runtime should be built");
    assert_eq!(runtime.server.relay4[0].iface_index, expected_index);
    assert_eq!(runtime.server.relay4[1].iface_index, 0);
}

#[test]
fn daemon_dhcp6_runtime_none_without_context() {
    let mut daemon = Daemon::default();
    assert!(daemon_dhcp6_runtime_with(&mut daemon, &[], None, 0).is_none());
}

#[test]
fn daemon_dhcp6_runtime_with_builds_current_chain_from_live_interface() {
    let mut daemon = Daemon::default();
    daemon.lease_file = Some("/tmp/nonexistent-test.leases".into());
    daemon.dhcp6.push(dhcp6_ctx(ip6("2001:db8::1"), ip6("2001:db8::ff"), 64));
    let live = LiveAddr6 {
        addr: ip6("2001:db8::42"),
        prefix: 64,
        if_index: 3,
        preferred: 0xffff_ffff,
        valid: 0xffff_ffff,
        deprecated: false,
    };

    let mac = DuidMacSource { hw_type: 1, mac: vec![1, 2, 3, 4, 5, 6] };
    let runtime = daemon_dhcp6_runtime_with(&mut daemon, &[live], Some(mac), 1_000_000_000)
        .expect("a configured context should produce a runtime");

    assert_eq!(runtime.contexts.len(), 1, "the live address should match the configured context");
    assert_eq!(runtime.contexts[0].if_index, 3);
    assert!(runtime.duid.starts_with(&[0x00, 0x01]), "DUID-LLT type expected");
    assert_eq!(daemon.duid, Some(runtime.duid));
}

#[test]
fn daemon_dhcp6_runtime_with_empty_current_chain_without_matching_interface() {
    let mut daemon = Daemon::default();
    daemon.dhcp6.push(dhcp6_ctx(ip6("2001:db8::1"), ip6("2001:db8::ff"), 64));
    daemon.duid_config = Some(vec![0xAA]);

    let runtime = daemon_dhcp6_runtime_with(&mut daemon, &[], None, 0)
        .expect("DUID-EN config means a runtime is still built");
    assert!(runtime.contexts.is_empty());
}

#[test]
fn daemon_dhcp6_runtime_with_reuses_existing_duid() {
    let mut daemon = Daemon::default();
    daemon.dhcp6.push(dhcp6_ctx(ip6("2001:db8::1"), ip6("2001:db8::ff"), 64));
    daemon.duid = Some(vec![9, 9, 9]);

    let runtime = daemon_dhcp6_runtime_with(&mut daemon, &[], None, 0).unwrap();
    assert_eq!(runtime.duid, vec![9, 9, 9]);
}

#[test]
fn daemon_dhcp6_runtime_with_none_when_duid_cannot_be_built() {
    let mut daemon = Daemon::default();
    daemon.dhcp6.push(dhcp6_ctx(ip6("2001:db8::1"), ip6("2001:db8::ff"), 64));
    assert!(daemon_dhcp6_runtime_with(&mut daemon, &[], None, 0).is_none());
    assert!(daemon.duid.is_none());
}

#[test]
fn on_sighup_does_not_panic() {
    let mut daemon = init_daemon();
    on_sighup(&mut daemon, &vec![]);
}

#[test]
fn daemon_event_variants_are_distinct() {
    let events = [
        DaemonEvent::Reload,
        DaemonEvent::Alarm,
        DaemonEvent::Term,
        DaemonEvent::Child(0),
        DaemonEvent::NewAddr,
        DaemonEvent::Dump,
        DaemonEvent::TimeSet,
    ];
    for e in &events {
        assert_eq!(*e, *e);
    }
    assert_ne!(DaemonEvent::Reload, DaemonEvent::Alarm);
    assert_ne!(DaemonEvent::Term, DaemonEvent::Dump);
    assert_ne!(DaemonEvent::NewAddr, DaemonEvent::TimeSet);
}

#[test]
fn daemon_event_child_carries_status() {
    let e1 = DaemonEvent::Child(0);
    let e2 = DaemonEvent::Child(1);
    let e3 = DaemonEvent::Child(0);
    assert_ne!(e1, e2);
    assert_eq!(e1, e3);
}

#[test]
fn daemon_event_is_copy_and_clone() {
    let e = DaemonEvent::Reload;
    let e2 = e;
    let e3 = e.clone();
    assert_eq!(e, e2);
    assert_eq!(e, e3);
}

#[test]
fn daemon_event_debug_format() {
    let dbg = format!("{:?}", DaemonEvent::Child(42));
    assert!(dbg.contains("Child"));
    assert!(dbg.contains("42"));
}

fn from_resolv(daemon: &Daemon) -> Vec<&Server> {
    daemon.servers.iter().filter(|s| s.flags.from_resolv).collect()
}

fn one_nameserver() -> Vec<ResolvRead> {
    vec![ResolvRead::Servers(vec![v4(198, 51, 100, 9, 53)])]
}

#[test]
fn clear_cache_and_reload_sets_dns_dirty() {
    let mut d = init_daemon();
    assert!(!d.dns_dirty);

    clear_cache_and_reload(&mut d, &vec![]);

    assert!(d.dns_dirty);
}

#[test]
fn clear_cache_and_reload_reloads_resolv_file_servers() {
    let mut d = init_daemon();
    clear_cache_and_reload(&mut d, &one_nameserver());
    assert!(
        d.servers.iter().any(|s| s.flags.from_resolv && s.addr == v4(198, 51, 100, 9, 53)),
        "reload must add the resolv-file server"
    );
}

#[test]
fn clear_cache_and_reload_preserves_servers_when_resolv_file_becomes_unreadable() {
    let mut d = init_daemon();
    clear_cache_and_reload(&mut d, &one_nameserver());
    assert_eq!(from_resolv(&d).len(), 1, "the server must be discovered on the first, successful reload");

    clear_cache_and_reload(&mut d, &vec![ResolvRead::Failed]);
    assert_eq!(
        from_resolv(&d).len(),
        1,
        "a failed resolv-file read must not empty the existing resolv-derived server list"
    );
}

#[test]
fn clear_cache_and_reload_idempotent() {
    let mut d = init_daemon();
    clear_cache_and_reload(&mut d, &vec![]);
    clear_cache_and_reload(&mut d, &vec![]);
    assert!(d.dns_dirty);
}

#[test]
fn clear_cache_and_reload_resolv_servers_do_not_accumulate_across_reloads() {
    let mut d = init_daemon();
    clear_cache_and_reload(&mut d, &one_nameserver());
    clear_cache_and_reload(&mut d, &one_nameserver());
    clear_cache_and_reload(&mut d, &one_nameserver());
    assert_eq!(
        from_resolv(&d).len(),
        1,
        "an unchanged resolv file must not accumulate duplicate server entries"
    );
}

#[test]
fn clear_cache_and_reload_preserves_query_stats_for_unchanged_resolv_server() {
    let mut d = init_daemon();
    clear_cache_and_reload(&mut d, &one_nameserver());
    let server = d
        .servers
        .iter_mut()
        .find(|s| s.flags.from_resolv)
        .expect("resolv-derived server must exist after the first reload");
    server.queries = 42;

    clear_cache_and_reload(&mut d, &one_nameserver());
    assert_eq!(
        from_resolv(&d)[0].queries, 42,
        "reload must reuse the surviving server entry, not rebuild it from scratch"
    );
}

#[test]
fn clear_cache_and_reload_resolv_ipv6_source_addr_matches_family() {
    let mut d = init_daemon();
    d.query_port = 5353;
    clear_cache_and_reload(
        &mut d,
        &vec![ResolvRead::Servers(vec![SockAddr::V6 { ip: ip6("::1"), port: 53, scope_id: 0 }])],
    );
    let server = from_resolv(&d)[0];
    match server.source_addr {
        SockAddr::V6 { port, .. } => assert_eq!(port, 5353, "source_addr must bind to --query-port"),
        other => panic!("an IPv6 nameserver's source_addr must also be IPv6, got {other:?}"),
    }
}

#[test]
fn clear_cache_and_reload_keeps_explicitly_configured_servers() {
    let mut d = init_daemon();
    d.servers.push(test_server("eth0"));
    clear_cache_and_reload(&mut d, &vec![]);
    assert_eq!(d.servers.len(), 1, "an explicit server must not be dropped by reload");
    assert_eq!(d.servers[0].interface, "eth0");
}

#[test]
fn send_alarm_sets_next_alarm() {
    let mut d = init_daemon();
    assert!(d.next_alarm.is_none());
    send_alarm(&mut d, 1000, 60);
    assert_eq!(d.next_alarm, Some(1060));
}

#[test]
fn send_alarm_overwrites_previous() {
    let mut d = init_daemon();
    send_alarm(&mut d, 1000, 120);
    let first = d.next_alarm.unwrap();
    send_alarm(&mut d, 1000, 10);
    let second = d.next_alarm.unwrap();
    assert!(second < first);
}

#[test]
fn send_alarm_zero_seconds() {
    let mut d = init_daemon();
    send_alarm(&mut d, 1000, 0);
    assert_eq!(d.next_alarm, Some(1000));
}

#[test]
fn on_sighup_sets_dns_dirty_and_increments_reload() {
    let mut d = init_daemon();
    assert_eq!(d.reload_count, 0);
    assert!(!d.dns_dirty);
    on_sighup(&mut d, &vec![]);
    assert!(d.dns_dirty);
    assert_eq!(d.reload_count, 1);
}

#[test]
fn on_sighup_increments_reload_count_each_time() {
    let mut d = init_daemon();
    on_sighup(&mut d, &vec![]);
    on_sighup(&mut d, &vec![]);
    on_sighup(&mut d, &vec![]);
    assert_eq!(d.reload_count, 3);
}

fn at(secs: i64) -> Option<FileTime> {
    Some(FileTime { secs, nanos: 0 })
}

#[test]
fn resolv_monitor_no_change_returns_false() {
    let mut monitor = ResolvMonitor::new("/etc/resolv.conf", at(100));
    assert!(!monitor.check(at(100)));
}

#[test]
fn resolv_monitor_detects_file_modification() {
    let mut monitor = ResolvMonitor::new("/etc/resolv.conf", at(100));
    assert!(!monitor.check(at(100)));
    assert!(monitor.check(at(101)));
    assert!(!monitor.check(at(101)));
}

#[test]
fn resolv_monitor_detects_file_deletion() {
    let mut monitor = ResolvMonitor::new("/etc/resolv.conf", at(100));
    assert!(!monitor.check(at(100)));
    assert!(monitor.check(None));
}

#[test]
fn resolv_monitor_detects_file_creation() {
    let mut monitor = ResolvMonitor::new("/etc/resolv.conf", None);
    assert!(!monitor.check(None));
    assert!(monitor.check(at(100)));
}

#[test]
fn resolv_monitor_new_captures_initial_state() {
    let monitor = ResolvMonitor::new("/etc/resolv.conf", at(100));
    assert!(monitor.last_mtime.is_some());
    assert_eq!(monitor.path, "/etc/resolv.conf");
}

#[test]
fn resolv_monitor_nonexistent_path_has_none_mtime() {
    let monitor = ResolvMonitor::new("/tmp/dnsmasq_rs_no_such_file_99999.conf", None);
    assert!(monitor.last_mtime.is_none());
}

#[test]
fn resolv_monitor_repeated_checks_stable() {
    let mut monitor = ResolvMonitor::new("/etc/resolv.conf", at(100));
    for _ in 0..5 {
        assert!(!monitor.check(at(100)));
    }
}

#[test]
fn icmp_pinger_new_sets_timeout() {
    let pinger = IcmpPinger::new(500);
    assert_eq!(Duration::from_millis(pinger.timeout), Duration::from_millis(500));
}

#[test]
fn icmp_pinger_zero_timeout_returns_false() {
    let pinger = IcmpPinger::new(0);
    assert_eq!(Duration::from_millis(pinger.timeout), Duration::from_millis(0));
    assert_eq!(pinger.conclude(Ip4::new(8, 8, 8, 8), PingEvent::Expired), Some(false));
}

#[test]
fn icmp_pinger_large_timeout() {
    let pinger = IcmpPinger::new(30_000);
    assert_eq!(Duration::from_millis(pinger.timeout), Duration::from_secs(30));
}

#[test]
fn ra_reply_dest_bridge_alias_is_always_multicast_direct_reply_unicasts_to_solicitor() {
    let solicitor = Some(ip6("fe80::1"));
    assert_eq!(ra_reply_dest(true, solicitor), None);
    assert_eq!(ra_reply_dest(true, None), None);
    assert_eq!(ra_reply_dest(false, solicitor), solicitor);
    assert_eq!(ra_reply_dest(false, None), None);
}

#[test]
fn radv_dest_needs_scope_id_for_link_local_and_multicast() {
    assert!(radv_dest_needs_scope_id(ip6("fe80::1")));
    assert!(radv_dest_needs_scope_id(ip6("ff02::1")));
    assert!(!radv_dest_needs_scope_id(ip6("2001:db8::1")));
    assert!(!radv_dest_needs_scope_id(ip6("ff0e::1")));
}

fn ra_iface(name: &str, mtu_name: Option<&str>, mtu: i32) -> RaInterface {
    RaInterface {
        name: name.into(),
        mtu_name: mtu_name.map(|s| s.to_string()),
        interval: 0,
        lifetime: -1,
        prio: 0,
        mtu,
    }
}

#[test]
fn resolve_ra_mtu_explicit_value() {
    let ifaces = vec![ra_iface("eth0", None, 1500)];
    assert_eq!(resolve_ra_mtu(&ifaces, "eth0", None), Some(1500));
}

#[test]
fn resolve_ra_mtu_off_is_none() {
    let ifaces = vec![ra_iface("eth0", None, -1)];
    assert_eq!(resolve_ra_mtu(&ifaces, "eth0", None), None);
}

#[test]
fn resolve_ra_mtu_no_config_is_none_off_linux_or_missing_proc_entry() {
    assert_eq!(resolve_ra_mtu(&vec![], "nonexistent-iface-xyz", None), None);
}

#[test]
fn the_mtu_of_an_interface_is_read() {
    let ifaces = vec![ra_iface("eth*", Some("wan0"), 0)];
    assert_eq!(ra_mtu_name(&ifaces, "eth1"), Some("wan0".to_string()));
    assert_eq!(ra_mtu_name(&ifaces, "wlan0"), Some("wlan0".to_string()));
    assert_eq!(ra_mtu_name(&vec![ra_iface("eth0", None, 9)], "eth0"), None);
    assert_eq!(resolve_ra_mtu(&ifaces, "eth1", Some(" 1280\n")), Some(1280));
    assert_eq!(resolve_ra_mtu(&ifaces, "eth1", Some("many")), None);
    assert_eq!(resolve_ra_mtu(&ifaces, "eth1", Some("4294967296")), None);
}

#[test]
fn only_solicitations_and_wanted_echo_replies_pass() {
    let blocked = |f: &[u32; 8], ty: usize| (f[ty / 32] >> (ty % 32)) & 1 == 1;
    let plain = nd_filter(false);
    let echo = nd_filter(true);
    for ty in 0..256usize {
        assert_eq!(blocked(&plain, ty), ty != 133, "{ty}");
        assert_eq!(blocked(&echo, ty), ty != 133 && ty != 129, "{ty}");
    }
}

fn solicitation() -> Vec<u8> {
    vec![ND_ROUTER_SOLICIT, 0, 0, 0, 0, 0, 0, 0]
}

fn good_arrival() -> Arrival {
    Arrival { served: true, excepted: false, well_formed: true }
}

#[test]
fn solicitations_are_answered_through_the_first_bridge_that_is_there() {
    let bridges = vec![
        BridgeConfig { iface: "br0".to_string(), aliases: vec!["eth*".to_string()] },
        BridgeConfig { iface: "br1".to_string(), aliases: vec!["wlan0".to_string(), "eth1".to_string()] },
    ];
    let answer = |data: &[u8], name: Option<&str>, a: Arrival, n: &Vec<u32>| answer_nd_packet(data, name, a, &bridges, n);
    assert_eq!(answer(&solicitation(), Some("eth1"), good_arrival(), &vec![5, 6]), RaAnswer::Bridge(0));
    assert_eq!(answer(&solicitation(), Some("eth1"), good_arrival(), &vec![0, 6]), RaAnswer::Bridge(1));
    assert_eq!(answer(&solicitation(), Some("eth2"), good_arrival(), &vec![0, 6]), RaAnswer::Direct);
    assert_eq!(answer(&solicitation(), None, good_arrival(), &vec![5, 6]), RaAnswer::Ignore);
    assert_eq!(answer(&solicitation()[..7], Some("eth1"), good_arrival(), &vec![5, 6]), RaAnswer::Ignore);
    let mut other = solicitation();
    other[0] = 129;
    assert_eq!(answer(&other, Some("eth1"), good_arrival(), &vec![5, 6]), RaAnswer::Ignore);
    let odd = Arrival { well_formed: false, ..good_arrival() };
    assert_eq!(answer(&solicitation(), Some("eth1"), odd, &vec![5, 6]), RaAnswer::Ignore);
    let off = Arrival { excepted: true, ..good_arrival() };
    assert_eq!(answer(&solicitation(), Some("eth1"), off, &vec![5, 6]), RaAnswer::Ignore);
}

#[test]
fn advertisements_go_out_through_bridged_interfaces_too() {
    let bridges = vec![BridgeConfig { iface: "br0".to_string(), aliases: vec!["eth*".to_string()] }];
    let lives = vec![("br0".to_string(), 5), ("eth0".to_string(), 7), ("wlan0".to_string(), 8), ("eth1".to_string(), 9)];
    assert_eq!(ra_send_targets(5, &bridges, &vec![5], &lives), vec![5, 7, 9]);
    assert_eq!(ra_send_targets(8, &bridges, &vec![5], &lives), vec![8]);
}

#[test]
fn a_solicitor_without_an_address_is_not_known() {
    assert_eq!(solicitor(SockAddr::V6 { ip: ip6("fe80::7"), port: 0, scope_id: 1 }), Some(ip6("fe80::7")));
    assert_eq!(solicitor(SockAddr::V6 { ip: Ip6::unspecified(), port: 0, scope_id: 1 }), None);
    assert_eq!(solicitor(v4(1, 2, 3, 4, 0)), None);
}

#[test]
fn the_hop_limit_and_the_delay_have_bounds() {
    assert_eq!(advertised_hop_limit(-1), 0);
    assert_eq!(advertised_hop_limit(64), 64);
    assert_eq!(advertised_hop_limit(300), 255);
    assert_eq!(next_ra_delay(Some(110), 100), 10);
    assert_eq!(next_ra_delay(Some(90), 100), 1);
    assert_eq!(next_ra_delay(None, 100), 600);
}

#[test]
fn echo_replies_are_wanted_for_names() {
    let mut ctx = test_dhcp_context();
    assert!(!wants_echo_replies(&vec![]));
    ctx.flags.ra_name = true;
    assert!(wants_echo_replies(&vec![test_dhcp_context(), ctx]));
}

#[test]
fn advertisements_are_set_up_where_they_are_on() {
    let mut daemon = Daemon::default();
    assert!(daemon_radv_config(&daemon, vec![]).is_none());
    daemon.doing_ra = true;
    daemon.options.quiet_ra = true;
    let config = daemon_radv_config(&daemon, vec![test_dhcp_context()]).unwrap();
    assert_eq!(config.contexts.len(), 1);
    assert!(config.is_dns_server);
    assert!(config.quiet_ra);
    daemon.port = 5353;
    assert!(!daemon_radv_config(&daemon, vec![]).unwrap().is_dns_server);
}

#[test]
fn a_pid_file_that_cannot_be_written_is_an_error() {
    let err = write_pid_file_as("/x", 1, Some((1, 2)), |_: &str, _: &str, owner: Option<(u32, u32)>| {
        assert_eq!(owner, Some((1, 2)));
        FileWrite::NotWritten("disk full".to_string())
    })
    .unwrap_err();
    assert_eq!(err.message(), "pid file error: write /x: disk full");
    let err = write_pid_file("/x", 1, |_: &str, _: &str, _: Option<(u32, u32)>| {
        FileWrite::NotCreated("denied".to_string())
    })
    .unwrap_err();
    assert_eq!(err.message(), "pid file error: create /x: denied");
}

#[test]
fn a_pid_file_without_a_number_is_an_error() {
    let err = read_pid_file("/x", Ok("pid\n".to_string())).unwrap_err();
    assert_eq!(err.message(), "pid file error: parse pid in /x: invalid digit found in string");
    let err = read_pid_file("/x", Ok(" \n".to_string())).unwrap_err();
    assert_eq!(err.message(), "pid file error: parse pid in /x: cannot parse integer from empty string");
    assert_eq!(read_pid_file("/x", Ok("  77 \n".to_string())).unwrap(), 77);
}

#[test]
fn errors_say_what_they_are() {
    assert_eq!(DnsmasqError::PrivilegeDrop("a".into()).message(), "privilege drop error: a");
    assert_eq!(DnsmasqError::Daemonize("a".into()).message(), "daemonize error: a");
    assert_eq!(DnsmasqError::BadConfig("a".into()).message(), "bad configuration: a");
    assert_eq!(DnsmasqError::BadNet("a".into()).message(), "network error: a");
    assert_eq!(DnsmasqError::Bind("a".into(), "b".into()).message(), "cannot bind a: b");
}

#[test]
fn the_starter_is_told_of_errors_only() {
    assert_eq!(startup_outcome(""), (0, None));
    assert_eq!(startup_outcome("bad\n\n"), (1, Some("dnsmasq-rs: bad".to_string())));
}

#[test]
fn a_probe_counts_replies_of_the_address_only() {
    let p = IcmpPinger::new(1);
    let a = Ip4::new(10, 0, 0, 1);
    assert_eq!(p.conclude(a, PingEvent::Packet { from: Some(a), is_reply: true }), Some(true));
    assert_eq!(p.conclude(a, PingEvent::Packet { from: Some(a), is_reply: false }), None);
    assert_eq!(p.conclude(a, PingEvent::Packet { from: Some(Ip4::new(10, 0, 0, 2)), is_reply: true }), None);
    assert_eq!(p.conclude(a, PingEvent::Packet { from: None, is_reply: true }), None);
    assert_eq!(p.conclude(a, PingEvent::Failed), Some(false));
}

#[test]
fn root_is_given_up_for_good() {
    let run_as = RunAs { uid: Some(5), gid: Some(6), ..RunAs::default() };
    let caps = NeededCaps { net_raw: true, ..NeededCaps::default() };
    assert_eq!(
        drop_privileges_with(0, 0, &run_as, caps),
        vec![
            PrivStep::ClearGroups,
            PrivStep::SetGid(6),
            PrivStep::SetCaps { keep: caps, setuid: true },
            PrivStep::KeepCaps,
            PrivStep::SetUid(5),
            PrivStep::SetCaps { keep: caps, setuid: false },
        ]
    );
}

#[test]
fn a_lookup_that_fails_is_an_error() {
    let mut acc = accounts();
    acc.user = UserLookup::Failed("down".to_string());
    let daemon = Daemon { username: Some("joe".into()), ..Default::default() };
    assert_eq!(resolve_run_as(&daemon, &acc).unwrap_err().message(), "privilege drop error: getpwnam(joe): down");
    acc.group = GroupLookup::Failed("down".to_string());
    let daemon = Daemon { groupname: Some("adm".into()), ..Default::default() };
    assert_eq!(resolve_run_as(&daemon, &acc).unwrap_err().message(), "privilege drop error: getgrnam(adm): down");
}

fn full_plan() -> Plan {
    Plan {
        loop_probes: true,
        dump: true,
        bind: true,
        dbus: true,
        ubus: true,
        tftp: true,
        dhcp: true,
        dhcp_device: true,
        dhcp6: true,
        netlink: true,
        radv: true,
    }
}

#[test]
fn services_start_in_order() {
    let steps = startup_steps(&full_plan());
    assert_eq!(
        steps,
        vec![
            Step::SendLoopProbes,
            Step::OpenDump,
            Step::BindListeners,
            Step::AdoptDns,
            Step::Start(Task::Dbus),
            Step::WatchDirectories,
            Step::Start(Task::Inotify),
            Step::Start(Task::Ubus),
            Step::Start(Task::Forward),
            Step::Start(Task::Arp),
            Step::AdoptTftp,
            Step::Start(Task::Tftp),
            Step::BindDhcp,
            Step::BindDhcpDevice,
            Step::Start(Task::Dhcp),
            Step::BindDhcp6,
            Step::Start(Task::Dhcp6),
            Step::Start(Task::Netlink),
            Step::OpenRadv,
            Step::Start(Task::Radv),
            Step::CatchSignals,
        ]
    );
    let daemon = Daemon::default();
    let plan = startup_plan(&daemon, true, 0, &None, false, false, false);
    assert_eq!(
        startup_steps(&plan),
        vec![
            Step::AdoptDns,
            Step::WatchDirectories,
            Step::Start(Task::Inotify),
            Step::Start(Task::Forward),
            Step::Start(Task::Arp),
            Step::CatchSignals,
        ]
    );
}

#[test]
fn the_device_is_bound_where_that_was_not_done() {
    let mut daemon = Daemon::default();
    daemon.dhcp.push(test_dhcp_context());
    daemon.if_names.push(iname(Some("eth0"), None));
    let runtime = daemon_dhcp_runtime(&daemon, 2);
    assert!(startup_plan(&daemon, true, 0, &runtime, false, false, false).dhcp_device);
    assert!(!startup_plan(&daemon, true, 0, &runtime, true, false, false).dhcp_device);
}

fn all_running() -> Running {
    let mut r = Running::none();
    for step in startup_steps(&full_plan()) {
        if let Step::Start(t) = step {
            r.start(t);
        }
    }
    r
}

const TASKS: [Task; 10] = [
    Task::Dbus,
    Task::Inotify,
    Task::Ubus,
    Task::Forward,
    Task::Arp,
    Task::Tftp,
    Task::Dhcp,
    Task::Dhcp6,
    Task::Netlink,
    Task::Radv,
];

#[test]
fn everything_is_stopped_at_the_end() {
    let running = all_running();
    let stops = stop_at_end(&running);
    for t in TASKS {
        assert!(running.runs(t), "{t:?}");
        assert!(stops.contains(&StopStep::Abort(t)) || stops.contains(&StopStep::Wait(t)), "{t:?}");
    }
    assert_eq!(
        stops[7..],
        [
            StopStep::Signal(Task::Dhcp),
            StopStep::Wait(Task::Dhcp),
            StopStep::Signal(Task::Dhcp6),
            StopStep::Wait(Task::Dhcp6),
            StopStep::Signal(Task::Radv),
            StopStep::Wait(Task::Radv),
        ]
    );
    assert_eq!(stop_at_end(&Running::none()), vec![]);
}

#[test]
fn a_failed_step_stops_what_runs() {
    let running = all_running();
    assert_eq!(stop_after_failure(Step::AdoptDns, &running), vec![]);
    assert_eq!(
        stop_after_failure(Step::AdoptTftp, &running),
        vec![StopStep::Abort(Task::Forward), StopStep::Abort(Task::Arp)]
    );
    assert_eq!(
        stop_after_failure(Step::BindDhcp, &running),
        vec![StopStep::Abort(Task::Forward), StopStep::Abort(Task::Arp), StopStep::Abort(Task::Tftp)]
    );
    assert_eq!(
        stop_after_failure(Step::BindDhcp6, &running),
        vec![
            StopStep::Abort(Task::Forward),
            StopStep::Abort(Task::Arp),
            StopStep::Abort(Task::Tftp),
            StopStep::Signal(Task::Dhcp),
            StopStep::Abort(Task::Dhcp),
        ]
    );
    assert_eq!(
        stop_after_failure(Step::OpenRadv, &running),
        vec![
            StopStep::Abort(Task::Forward),
            StopStep::Signal(Task::Dhcp),
            StopStep::Abort(Task::Dhcp),
            StopStep::Signal(Task::Dhcp6),
            StopStep::Abort(Task::Dhcp6),
        ]
    );
    let stops = stop_after_failure(Step::CatchSignals, &running);
    for t in TASKS {
        assert!(stops.contains(&StopStep::Abort(t)), "{t:?}");
    }
}

#[test]
fn signals_end_the_daemon_or_reload_it() {
    assert_eq!(on_signal(Caught::Terminate), Some(RunResult::Clean));
    assert_eq!(on_signal(Caught::Interrupt), Some(RunResult::Clean));
    assert_eq!(on_signal(Caught::Hangup), None);
}

#[test]
fn the_name_on_the_bus_can_be_configured() {
    let mut daemon = Daemon::default();
    assert_eq!(dbus_service_name(&daemon), "uk.org.thekelleys.dnsmasq");
    daemon.dbus_name = Some("org.example".to_string());
    assert_eq!(dbus_service_name(&daemon), "org.example");
}

fn interface(name: &str, addr: IpAddress, index: u32, dad: bool, tftp_ok: bool) -> Interface {
    Interface { name: name.to_string(), addr, index, dad, tftp_ok }
}

fn three_interfaces() -> Vec<Interface> {
    vec![
        interface("lo", IpAddress::V4(Ip4::new(127, 0, 0, 1)), 1, false, false),
        interface("eth0", IpAddress::V6(ip6("fe80::1")), 2, false, true),
        interface("eth1", IpAddress::V6(ip6("2001:db8::1")), 3, true, true),
    ]
}

#[test]
fn wildcard_sockets_are_the_usual() {
    let daemon = Daemon::default();
    let plan = plan_dns_listeners(&daemon, &three_interfaces()).unwrap();
    assert!(plan.wildcard);
    assert_eq!(plan.port, 53);
    assert!(plan.targets.is_empty());
    assert_eq!(plan.filter.len(), 3);
    assert!(plan_tftp_listeners(&daemon, &three_interfaces()).is_none());
}

#[test]
fn interfaces_are_bound_one_by_one_on_request() {
    let mut daemon = Daemon::default();
    daemon.options.nowild = true;
    daemon.options.tftp = true;
    let plan = plan_dns_listeners(&daemon, &three_interfaces()).unwrap();
    assert!(!plan.wildcard);
    assert_eq!(plan.targets.len(), 2);
    assert_eq!(plan.targets[0].addr, v4(127, 0, 0, 1, 53));
    assert_eq!(plan.targets[1].addr, SockAddr::V6 { ip: ip6("fe80::1"), port: 53, scope_id: 2 });
    assert_eq!(plan.warnings.len(), 1);
    let tftp = plan_tftp_listeners(&daemon, &three_interfaces()).unwrap();
    assert_eq!(tftp.port, 69);
    assert_eq!(tftp.targets.len(), 2);
    assert_eq!(tftp.targets[0].iface, "eth0");
    assert_eq!(tftp.targets[1].iface, "eth1");
    daemon.options.cleverbind = true;
    let err = plan_dns_listeners(&daemon, &three_interfaces()).unwrap_err();
    assert_eq!(err.message(), "bad configuration: cannot set --bind-interfaces and --bind-dynamic");
}

#[test]
fn addresses_that_cannot_be_bound_may_be_tried_later() {
    assert!(after_bind(ListenOutcome::Bound, "1.2.3.4:53", false).unwrap());
    assert!(!after_bind(ListenOutcome::Unsupported, "1.2.3.4:53", true).unwrap());
    assert_eq!(
        after_bind(ListenOutcome::Unsupported, "1.2.3.4:53", false).unwrap_err().message(),
        "cannot bind 1.2.3.4:53: address family not supported"
    );
    assert_eq!(
        after_bind(ListenOutcome::Failed("in use".to_string()), "1.2.3.4:53", true).unwrap_err().message(),
        "cannot bind 1.2.3.4:53: in use"
    );
    assert!(check_unmatched(true, &vec!["eth9".to_string()]).is_ok());
    assert_eq!(
        check_unmatched(false, &vec!["eth9".to_string()]).unwrap_err().message(),
        "network error: unknown interface eth9"
    );
    assert!(check_wildcard(1, 53).is_ok());
    assert_eq!(
        check_wildcard(0, 53).unwrap_err().message(),
        "cannot bind 0.0.0.0:53: could not create any wildcard listener"
    );
}

#[test]
fn arrivals_are_checked_but_on_bound_ipv4_addresses() {
    let addrs = vec![v4(10, 0, 0, 1, 53), SockAddr::V6 { ip: ip6("::1"), port: 53, scope_id: 0 }];
    let bound = Listeners::adopt(&addrs, true);
    assert_eq!(bound.dns_addrs(), addrs);
    assert_eq!(bound.dns_arrival_checks(), vec![(addrs[0], false), (addrs[1], true)]);
    let wild = Listeners::adopt(&addrs, false);
    assert_eq!(wild.dns_arrival_checks(), vec![(addrs[0], true), (addrs[1], true)]);
}

#[test]
fn names_of_interfaces_reach_the_filters() {
    let mut daemon = Daemon::default();
    daemon.if_names.push(iname(Some("eth0"), None));
    daemon.if_names.push(iname(None, None));
    daemon.if_except.push(iname(Some("wlan0"), None));
    daemon.if_addrs.push(iname(None, Some(v4(10, 0, 0, 1, 0))));
    daemon.dhcp_except.push(iname(Some("ppp0"), None));
    daemon.tftp_interfaces.push(iname(Some("tun0"), None));
    let check = iface_check_config(&daemon);
    assert_eq!(check.allow, vec!["eth0".to_string()]);
    assert_eq!(check.deny, vec!["wlan0".to_string()]);
    assert_eq!(check.addrs, vec![IpAddress::V4(Ip4::new(10, 0, 0, 1))]);
    assert!(check.unnamed_iface);
    let allowed = iface_allowed_config(&daemon);
    assert_eq!(allowed.dhcp_except.len(), 1);
    assert_eq!(allowed.tftp_ifaces, vec!["tun0".to_string()]);
    daemon.start_tftp_port = -5;
    daemon.end_tftp_port = 70000;
    let tftp = daemon_tftp_config(&daemon, 4096);
    assert_eq!((tftp.start_port, tftp.end_port), (0, 65535));
    assert_eq!(tftp.packet_buff_sz, 4096);
    assert_eq!(tftp.max_transfers, 50);
}

#[test]
fn hosts_files_are_those_of_the_system_and_the_configured() {
    let mut daemon = Daemon::default();
    daemon.addn_hosts.push("/etc/hosts.lan".to_string());
    assert_eq!(hosts_paths(&daemon), vec!["/etc/hosts".to_string(), "/etc/hosts.lan".to_string()]);
    daemon.options = Options { no_hosts: true, ..Options::none() };
    assert_eq!(hosts_paths(&daemon), vec!["/etc/hosts.lan".to_string()]);
}

#[test]
fn servers_that_vanish_from_resolv_files_go() {
    let mut d = init_daemon();
    d.servers.push(test_server("eth0"));
    clear_cache_and_reload(
        &mut d,
        &vec![ResolvRead::Servers(vec![v4(1, 1, 1, 1, 53), v4(2, 2, 2, 2, 53)]), ResolvRead::Failed],
    );
    assert_eq!(d.servers.len(), 3);
    clear_cache_and_reload(&mut d, &vec![ResolvRead::Servers(vec![v4(2, 2, 2, 2, 53)])]);
    assert_eq!(d.servers.len(), 2);
    assert_eq!(from_resolv(&d)[0].addr, v4(2, 2, 2, 2, 53));
    assert_eq!(d.servers[0].interface, "eth0");
}

/// Runs startup to its end, and gives the steps that were asked for and the command after them.
fn start_up(plan: &Plan) -> (MainLoop, Vec<Step>, Command) {
    let (mut main_loop, mut command) = MainLoop::begin(plan);
    let mut steps = Vec::new();
    while let Command::Do(step) = command {
        steps.push(step);
        command = main_loop.advance(MainEvent::Done);
    }
    (main_loop, steps, command)
}

/// Carries out the stops that follow a command, and gives them and how the daemon ends.
fn wind_down(main_loop: &mut MainLoop, mut command: Command) -> (Vec<StopStep>, RunResult) {
    let mut stops = Vec::new();
    loop {
        match command {
            Command::Stop(s) => stops.push(s),
            Command::Exit(result) => return (stops, result),
            other => panic!("{other:?}"),
        }
        command = main_loop.advance(MainEvent::Done);
    }
}

#[test]
fn the_main_loop_starts_serves_and_stops() {
    let (mut main_loop, steps, command) = start_up(&full_plan());
    assert_eq!(steps, startup_steps(&full_plan()));
    assert_eq!(command, Command::Await);
    assert_eq!(main_loop.advance(MainEvent::Signal(Caught::Hangup)), Command::Reload);
    assert_eq!(main_loop.advance(MainEvent::Done), Command::Await);
    let running = main_loop.running;
    let command = main_loop.advance(MainEvent::Signal(Caught::Terminate));
    let (stops, result) = wind_down(&mut main_loop, command);
    assert_eq!(result, RunResult::Clean);
    assert_eq!(stops, stop_at_end(&running));
    assert_eq!(main_loop.advance(MainEvent::Done), Command::Exit(RunResult::Clean));
}

#[test]
fn a_step_that_fails_ends_the_main_loop() {
    let wanted = startup_steps(&full_plan());
    for failing in 0..wanted.len() {
        let (mut main_loop, mut command) = MainLoop::begin(&full_plan());
        for step in &wanted[..failing] {
            assert_eq!(command, Command::Do(*step));
            command = main_loop.advance(MainEvent::Done);
        }
        let running = main_loop.running;
        let command = main_loop.advance(MainEvent::Failed);
        let (stops, result) = wind_down(&mut main_loop, command);
        assert_eq!(result, RunResult::IoError);
        assert_eq!(stops, stop_after_failure(wanted[failing], &running));
    }
}

#[test]
fn an_interrupt_ends_the_daemon_too() {
    let plan = startup_plan(&Daemon::default(), true, 0, &None, false, false, false);
    let (mut main_loop, _, command) = start_up(&plan);
    assert_eq!(command, Command::Await);
    let command = main_loop.advance(MainEvent::Signal(Caught::Interrupt));
    let (stops, result) = wind_down(&mut main_loop, command);
    assert_eq!(result, RunResult::Clean);
    assert_eq!(
        stops,
        vec![StopStep::Abort(Task::Forward), StopStep::Abort(Task::Inotify), StopStep::Abort(Task::Arp)]
    );
}

#[test]
fn socket_addresses_have_a_text() {
    assert_eq!(sock_addr_str(&v4(192, 168, 0, 1, 53)), "192.168.0.1:53");
    assert_eq!(sock_addr_str(&SockAddr::V6 { ip: ip6("fe80::1"), port: 53, scope_id: 0 }), "[fe80::1]:53");
    assert_eq!(sock_addr_str(&SockAddr::V6 { ip: ip6("fe80::1"), port: 53, scope_id: 2 }), "[fe80::1%2]:53");
}

#[test]
fn wildcard_sockets_are_bound_as_one() {
    let daemon = Daemon::default();
    let bind = |came: Result<Vec<SockAddr>, String>| {
        bind_dns_listeners(
            &daemon,
            &three_interfaces(),
            &vec![],
            &vec![],
            |port: u16| {
                assert_eq!(port, 53);
                came.clone()
            },
            |_: &Vec<BindTarget>| -> Result<Vec<SockAddr>, String> { unreachable!() },
            |_: &SockAddr| -> ListenOutcome { unreachable!() },
        )
    };
    let (listeners, plan) = bind(Ok(vec![v4(0, 0, 0, 0, 53)])).unwrap();
    assert_eq!(listeners.dns.len(), 1);
    assert_eq!(listeners.dns[0].addr, v4(0, 0, 0, 0, 53));
    assert!(plan.wildcard);
    assert_eq!(
        bind(Ok(vec![])).unwrap_err().message(),
        "cannot bind 0.0.0.0:53: could not create any wildcard listener"
    );
    assert_eq!(bind(Err("in use".to_string())).unwrap_err().message(), "cannot bind 0.0.0.0:53: in use");
}

#[test]
fn addresses_that_no_interface_has_are_bound_last() {
    let mut daemon = Daemon::default();
    daemon.options.nowild = true;
    let bind = |daemon: &Daemon, addrs: Vec<IpAddress>, names: Vec<String>, outcome: fn() -> ListenOutcome| {
        bind_dns_listeners(
            daemon,
            &three_interfaces(),
            &addrs,
            &names,
            |_: u16| -> Result<Vec<SockAddr>, String> { unreachable!() },
            |targets: &Vec<BindTarget>| Ok(targets.iter().map(|t| t.addr).collect()),
            |_: &SockAddr| outcome(),
        )
    };
    let lo = IpAddress::V4(Ip4::new(127, 0, 0, 1));
    let other = IpAddress::V4(Ip4::new(10, 0, 0, 9));
    let (listeners, _) = bind(&daemon, vec![lo, other], vec![], || ListenOutcome::Bound).unwrap();
    let addrs: Vec<SockAddr> = listeners.dns.iter().map(|l| l.addr).collect();
    assert_eq!(
        addrs,
        vec![
            v4(127, 0, 0, 1, 53),
            SockAddr::V6 { ip: ip6("fe80::1"), port: 53, scope_id: 2 },
            v4(10, 0, 0, 9, 53)
        ]
    );
    let failed = bind(&daemon, vec![other], vec![], || ListenOutcome::Failed("in use".to_string()));
    assert_eq!(failed.unwrap_err().message(), "cannot bind 10.0.0.9:53: in use");
    let failed = bind(&daemon, vec![other], vec![], || ListenOutcome::Unsupported);
    assert_eq!(failed.unwrap_err().message(), "cannot bind 10.0.0.9:53: address family not supported");
    let failed = bind(&daemon, vec![], vec!["eth9".to_string()], || ListenOutcome::Bound);
    assert_eq!(failed.unwrap_err().message(), "network error: unknown interface eth9");

    let mut daemon = Daemon::default();
    daemon.options.cleverbind = true;
    let (listeners, _) =
        bind(&daemon, vec![other], vec!["eth9".to_string()], || ListenOutcome::Unsupported).unwrap();
    assert_eq!(listeners.dns.len(), 2);
}

#[test]
fn tftp_sockets_are_bound_where_tftp_is_on() {
    let mut daemon = Daemon::default();
    let bind = |daemon: &Daemon, came: Result<Vec<SockAddr>, String>| {
        bind_tftp_listeners(
            daemon,
            &three_interfaces(),
            |_: u16| came.clone(),
            |targets: &Vec<BindTarget>| match &came {
                Ok(_) => Ok(targets.iter().map(|t| t.addr).collect()),
                Err(e) => Err(e.clone()),
            },
        )
    };
    assert_eq!(bind(&daemon, Ok(vec![v4(0, 0, 0, 0, 69)])).unwrap(), vec![]);
    daemon.options.tftp = true;
    assert_eq!(bind(&daemon, Ok(vec![v4(0, 0, 0, 0, 69)])).unwrap(), vec![v4(0, 0, 0, 0, 69)]);
    assert_eq!(bind(&daemon, Err("x".to_string())).unwrap_err().message(), "cannot bind 0.0.0.0:69: x");
    daemon.options.nowild = true;
    assert_eq!(
        bind(&daemon, Ok(vec![])).unwrap(),
        vec![
            SockAddr::V6 { ip: ip6("fe80::1"), port: 69, scope_id: 2 },
            SockAddr::V6 { ip: ip6("2001:db8::1"), port: 69, scope_id: 0 }
        ]
    );
    assert_eq!(bind(&daemon, Err("x".to_string())).unwrap_err().message(), "cannot bind port 69: x");
}

#[test]
fn a_device_may_be_refused_to_a_socket() {
    assert_eq!(device_bound("eth0", Ok(true)).unwrap(), "bound DHCP socket to interface eth0");
    assert_eq!(
        device_bound("eth0", Ok(false)).unwrap(),
        "permission denied binding DHCP socket to interface eth0; continuing"
    );
    assert_eq!(device_bound("eth0", Err("gone".to_string())).unwrap_err().message(), "cannot bind interface eth0: gone");
}

#[test]
fn advertisements_to_all_hosts_name_their_interface() {
    assert_eq!(ra_send_addr(7, None), SockAddr::V6 { ip: ip6("ff02::1"), port: 0, scope_id: 7 });
    assert_eq!(ra_send_addr(7, Some(ip6("fe80::5"))), SockAddr::V6 { ip: ip6("fe80::5"), port: 0, scope_id: 7 });
    assert_eq!(
        ra_send_addr(7, Some(ip6("2001:db8::5"))),
        SockAddr::V6 { ip: ip6("2001:db8::5"), port: 0, scope_id: 0 }
    );
}

#[test]
fn a_reload_with_the_same_servers_changes_nothing() {
    let mut daemon = Daemon::default();
    daemon.servers.push(test_server(""));
    let reads = vec![ResolvRead::Servers(vec![v4(9, 9, 9, 9, 53)]), ResolvRead::Failed];
    clear_cache_and_reload(&mut daemon, &reads);
    assert_eq!(daemon.servers.len(), 2);
    daemon.servers[1].queries = 12;
    clear_cache_and_reload(&mut daemon, &reads);
    assert_eq!(daemon.servers.len(), 2);
    assert_eq!(daemon.servers[1].addr, v4(9, 9, 9, 9, 53));
    assert_eq!(daemon.servers[1].queries, 12);
    clear_cache_and_reload(&mut daemon, &vec![ResolvRead::Failed]);
    assert_eq!(daemon.servers.len(), 2);
}

#[test]
fn without_the_service_no_ranges_are_served() {
    assert!(served_contexts(&None).is_empty());
    let mut daemon = Daemon::default();
    daemon.dhcp6.push(dhcp6_ctx(ip6("2001:db8::1"), ip6("2001:db8::ff"), 64));
    daemon.duid_config = Some(vec![0xAA]);
    let live = LiveAddr6 {
        addr: ip6("2001:db8::42"),
        prefix: 64,
        if_index: 3,
        preferred: 0xffff_ffff,
        valid: 0xffff_ffff,
        deprecated: false,
    };
    let runtime = daemon_dhcp6_runtime_with(&mut daemon, &[live], None, 0);
    let served = served_contexts(&runtime);
    assert_eq!(served.len(), 1);
    assert_eq!(served[0].if_index, 3);
}

#[test]
fn without_dns_sockets_the_daemon_ends() {
    assert_eq!(check_dns_sockets(1), Ok(()));
    assert_eq!(check_dns_sockets(0), Err(RunResult::IoError));
}

#[test]
fn a_second_bind_of_an_address_may_come_to_something_else() {
    let mut daemon = Daemon::default();
    daemon.options.nowild = true;
    let tried: RefCell<Vec<SockAddr>> = RefCell::new(Vec::new());
    let bind = |addrs: Vec<IpAddress>| {
        bind_dns_listeners(
            &daemon,
            &vec![],
            &addrs,
            &vec![],
            |_: u16| -> Result<Vec<SockAddr>, String> { unreachable!() },
            |targets: &Vec<BindTarget>| Ok(targets.iter().map(|t| t.addr).collect()),
            |a: &SockAddr| {
                let again = tried.borrow().contains(a);
                tried.borrow_mut().push(*a);
                if again {
                    ListenOutcome::Failed("in use".to_string())
                } else {
                    ListenOutcome::Bound
                }
            },
        )
    };
    let a = IpAddress::V4(Ip4::new(10, 0, 0, 9));
    let (listeners, _) = bind(vec![a, a]).unwrap();
    assert_eq!(listeners.dns.len(), 1);
    assert_eq!(tried.borrow().len(), 1);
    assert_eq!(bind(vec![a]).unwrap_err().message(), "cannot bind 10.0.0.9:53: in use");
    assert_eq!(bind(vec![]).unwrap().0.dns.len(), 0);
}
