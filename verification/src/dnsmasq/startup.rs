//! What the DHCP servers are given of the configuration, and what is logged of it.

use crate::addr::{AllAddr, Ip4, Ip6, IpAddress, SockAddr};
use crate::daemon::{unconfigured, Daemon};
use crate::dhcp6::duid::{duid_of, make_duid, DuidMacSource};
use crate::dhcp6::live::{
    chain_of, complete_context6, decides, dhcp_construct_contexts, touched_by_all, LiveAddr6,
};
use crate::dhcp6_protocol::DHCPV6_SERVER_PORT;
use crate::dhcp_common::logs::{context_lines, log_context, log_relay, relay_line};
use crate::dhcp_common::tags::TagIf;
use crate::dhcp_types::{context_views, ContextView, DhcpConfig, DhcpContext, DhcpOpt, DhcpRelay};
use crate::dup::{all_views, dup_all, dup_copies, dup_text, opt_bytes, opt_text, Dup};
use crate::records::{
    BogusAddr, BootRule, DhcpRelayView, DhcpReplyDelay, Iname, InameView, NetidList, TagRule,
};
use crate::text::{has_char, same, views};
use vstd::prelude::*;

verus! {

/// The lines to log on ranges.
pub open spec fn range_lines(is_v6: bool, ctxs: Seq<ContextView>, opt_ra: bool) -> Seq<Seq<char>>
    decreases ctxs.len(),
{
    if ctxs.len() == 0 {
        seq![]
    } else {
        range_lines(is_v6, ctxs.drop_last(), opt_ra) + context_lines(is_v6, ctxs.last(), opt_ra)
    }
}

/// The lines to log on relays.
pub open spec fn relay_lines(is_v6: bool, relays: Seq<DhcpRelay>) -> Seq<Seq<char>> {
    relays.map_values(|r: DhcpRelay| relay_line(is_v6, r))
}

/// The lines to log at startup: on the ranges and relays of DHCPv4, then on those of DHCPv6.
pub open spec fn startup_lines(d: Daemon) -> Seq<Seq<char>> {
    range_lines(false, context_views(d.dhcp@), d.options.ra) + relay_lines(false, d.relay4@) + range_lines(
        true,
        context_views(d.dhcp6@),
        d.options.ra,
    ) + relay_lines(true, d.relay6@)
}

/// Adds the lines on ranges.
fn push_range_lines(lines: &mut Vec<String>, family: IpAddress, ctxs: &Vec<DhcpContext>, opt_ra: bool)
    ensures
        views(final(lines)@) == views(old(lines)@) + range_lines(family is V6, context_views(ctxs@), opt_ra),
{
    let ghost start = views(lines@);
    let ghost all = context_views(ctxs@);
    let mut i: usize = 0;
    assert(start + range_lines(family is V6, all.take(0), opt_ra) =~= start);
    while i < ctxs.len()
        invariant
            i <= ctxs@.len(),
            all == context_views(ctxs@),
            views(lines@) == start + range_lines(family is V6, all.take(i as int), opt_ra),
        decreases ctxs@.len() - i,
    {
        proof {
            assert(all.take(i + 1).drop_last() =~= all.take(i as int));
            assert(all.take(i + 1).last() == ctxs@[i as int]@);
        }
        let mut more: Vec<String> = log_context(family, &ctxs[i], opt_ra);
        let ghost before = lines@;
        let ghost added = more@;
        lines.append(&mut more);
        assert(views(before + added) =~= views(before) + views(added));
        assert(views(lines@) =~= start + range_lines(family is V6, all.take(i + 1), opt_ra));
        i += 1;
    }
    assert(all.take(all.len() as int) =~= all);
}

/// Adds the lines on relays.
fn push_relay_lines(lines: &mut Vec<String>, family: IpAddress, relays: &Vec<DhcpRelay>)
    ensures
        views(final(lines)@) == views(old(lines)@) + relay_lines(family is V6, relays@),
{
    let ghost start = views(lines@);
    let ghost all = relay_lines(family is V6, relays@);
    let mut i: usize = 0;
    assert(start + all.take(0) =~= start);
    while i < relays.len()
        invariant
            i <= relays@.len(),
            all == relay_lines(family is V6, relays@),
            views(lines@) == start + all.take(i as int),
        decreases relays@.len() - i,
    {
        let line: String = log_relay(family, &relays[i]);
        proof {
            assert(views(lines@.push(line)) =~= views(lines@).push(line@));
            assert(all.take(i + 1) =~= all.take(i as int).push(all[i as int]));
            assert((start + all.take(i as int)).push(line@) =~= start + all.take(i + 1));
        }
        lines.push(line);
        i += 1;
    }
    assert(all.take(all.len() as int) =~= all);
}

/// Whether some range has router advertisements.
pub open spec fn any_ra(ctxs: Seq<DhcpContext>) -> bool {
    exists|i: int| 0 <= i < ctxs.len() && (#[trigger] ctxs[i]).flags.ra
}

/// Whether some range serves addresses.
pub open spec fn any_dhcp(ctxs: Seq<DhcpContext>) -> bool {
    exists|i: int| 0 <= i < ctxs.len() && (#[trigger] ctxs[i]).flags.dhcp
}

/// The configuration after startup: with DHCPv6 ranges it is known whether there are router
/// advertisements and whether addresses are served.
pub open spec fn started(d: Daemon) -> Daemon {
    if d.dhcp6@.len() == 0 {
        d
    } else {
        Daemon {
            doing_ra: d.options.ra || any_ra(d.dhcp6@),
            doing_dhcp6: d.doing_dhcp6 || any_dhcp(d.dhcp6@),
            ..d
        }
    }
}

/// Completes the configuration at startup, and gives the lines to log on it.
pub fn init_daemon_with(daemon: Daemon) -> (r: (Daemon, Vec<String>))
    ensures
        r.0 == started(daemon),
        views(r.1@) == startup_lines(daemon),
{
    let mut d: Daemon = daemon;
    let mut lines: Vec<String> = Vec::new();
    let opt_ra: bool = d.options.ra;
    let v4: IpAddress = IpAddress::V4(Ip4::unspecified());
    let v6: IpAddress = IpAddress::V6(Ip6::unspecified());
    push_range_lines(&mut lines, v4, &d.dhcp, opt_ra);
    push_relay_lines(&mut lines, v4, &d.relay4);
    push_range_lines(&mut lines, v6, &d.dhcp6, opt_ra);
    push_relay_lines(&mut lines, v6, &d.relay6);
    assert(views(lines@) =~= startup_lines(daemon));
    if d.dhcp6.len() > 0 {
        let mut ra: bool = opt_ra;
        let mut dhcp: bool = d.doing_dhcp6;
        let mut i: usize = 0;
        while i < d.dhcp6.len()
            invariant
                i <= d.dhcp6@.len(),
                ra == (opt_ra || any_ra(d.dhcp6@.take(i as int))),
                dhcp == (d.doing_dhcp6 || any_dhcp(d.dhcp6@.take(i as int))),
            decreases d.dhcp6@.len() - i,
        {
            let ghost before = d.dhcp6@.take(i as int);
            let ghost after = d.dhcp6@.take(i + 1);
            proof {
                assert(after[i as int] == d.dhcp6@[i as int]);
                assert forall|j: int| 0 <= j < i implies before[j] == after[j] by {}
                if any_ra(before) {
                    let j = choose|j: int| 0 <= j < before.len() && (#[trigger] before[j]).flags.ra;
                    assert(after[j].flags.ra);
                }
                if any_dhcp(before) {
                    let j = choose|j: int| 0 <= j < before.len() && (#[trigger] before[j]).flags.dhcp;
                    assert(after[j].flags.dhcp);
                }
                if any_ra(after) && !after[i as int].flags.ra {
                    let j = choose|j: int| 0 <= j < after.len() && (#[trigger] after[j]).flags.ra;
                    assert(before[j].flags.ra);
                }
                if any_dhcp(after) && !after[i as int].flags.dhcp {
                    let j = choose|j: int| 0 <= j < after.len() && (#[trigger] after[j]).flags.dhcp;
                    assert(before[j].flags.dhcp);
                }
            }
            if d.dhcp6[i].flags.dhcp {
                dhcp = true;
            }
            if d.dhcp6[i].flags.ra {
                ra = true;
            }
            i += 1;
        }
        assert(d.dhcp6@.take(d.dhcp6@.len() as int) =~= d.dhcp6@);
        d.doing_ra = ra;
        d.doing_dhcp6 = dhcp;
    }
    (d, lines)
}

/// The configuration of a daemon about which nothing was said.
pub fn init_daemon() -> (d: Daemon)
    ensures
        unconfigured(d),
{
    Daemon::default()
}

/// The first IPv4 address from number `i` on that is listened on.
pub open spec fn first_v4(addrs: Seq<InameView>, i: int) -> Option<Ip4>
    decreases addrs.len() - i,
{
    if !(0 <= i < addrs.len()) {
        None
    } else {
        match addrs[i].addr {
            Some(SockAddr::V4 { ip, .. }) => Some(ip),
            _ => first_v4(addrs, i + 1),
        }
    }
}

/// The first IPv4 address that is listened on.
pub fn first_ipv4_listen_addr(addrs: &Vec<Iname>) -> (r: Option<Ip4>)
    ensures
        r == first_v4(all_views(addrs@), 0),
{
    let ghost all = all_views(addrs@);
    let mut i: usize = 0;
    while i < addrs.len()
        invariant
            i <= addrs@.len(),
            all == all_views(addrs@),
            first_v4(all, 0) == first_v4(all, i as int),
        decreases addrs@.len() - i,
    {
        assert(all[i as int] == addrs@[i as int]@);
        if let Some(SockAddr::V4 { ip, .. }) = addrs[i].addr {
            return Some(ip);
        }
        i += 1;
    }
    None
}

/// Whether an interface is left out by its name.
pub open spec fn is_excepted(name: Seq<char>, except: Seq<InameView>) -> bool {
    exists|i: int| 0 <= i < except.len() && (#[trigger] except[i]).name == Some(name)
}

/// The first interface from number `i` on that has a name without a wildcard and is not left out.
pub open spec fn first_plain(names: Seq<InameView>, except: Seq<InameView>, i: int) -> Option<Seq<char>>
    decreases names.len() - i,
{
    if !(0 <= i < names.len()) {
        None
    } else {
        match names[i].name {
            Some(n) => if !n.contains('*') && !is_excepted(n, except) {
                Some(n)
            } else {
                first_plain(names, except, i + 1)
            },
            None => first_plain(names, except, i + 1),
        }
    }
}

/// Whether an interface is left out by its name.
fn excepted(name: &str, except: &Vec<Iname>) -> (r: bool)
    ensures
        r == is_excepted(name@, all_views(except@)),
{
    let ghost all = all_views(except@);
    let mut i: usize = 0;
    while i < except.len()
        invariant
            i <= except@.len(),
            all == all_views(except@),
            forall|j: int| 0 <= j < i ==> (#[trigger] all[j]).name != Some(name@),
        decreases except@.len() - i,
    {
        assert(all[i as int] == except@[i as int]@);
        if let Some(n) = &except[i].name {
            if same(n.as_str(), name) {
                return true;
            }
        }
        i += 1;
    }
    false
}

/// The first configured interface that DHCP can be bound to.
pub fn first_bind_interface(daemon: &Daemon) -> (r: Option<String>)
    ensures
        opt_text(r) == first_plain(all_views(daemon.if_names@), all_views(daemon.if_except@), 0),
{
    let ghost all = all_views(daemon.if_names@);
    let ghost ex = all_views(daemon.if_except@);
    let mut i: usize = 0;
    while i < daemon.if_names.len()
        invariant
            i <= daemon.if_names@.len(),
            all == all_views(daemon.if_names@),
            ex == all_views(daemon.if_except@),
            first_plain(all, ex, 0) == first_plain(all, ex, i as int),
        decreases daemon.if_names@.len() - i,
    {
        assert(all[i as int] == daemon.if_names@[i as int]@);
        if let Some(n) = &daemon.if_names[i].name {
            if !has_char(n.as_str(), '*') && !excepted(n.as_str(), &daemon.if_except) {
                return Some(n.clone());
            }
        }
        i += 1;
    }
    None
}

/// What the DHCPv4 server runs with.
#[derive(Debug)]
pub struct DhcpServerConfig {
    pub pool_start: Ip4,
    pub pool_end: Ip4,
    pub server_ip: Ip4,
    pub max_packet: usize,
    pub configs: Vec<DhcpConfig>,
    pub vendor_rules: Vec<TagRule>,
    pub user_class_rules: Vec<TagRule>,
    pub mac_rules: Vec<TagRule>,
    pub relay_id_rules: Vec<TagRule>,
    pub reply_delays: Vec<DhcpReplyDelay>,
    pub contexts: Vec<DhcpContext>,
    pub dhcp_opts: Vec<DhcpOpt>,
    pub boot_configs: Vec<BootRule>,
    pub domain_suffix: Option<String>,
    pub lease_file: Option<String>,
    pub lease_change_command: Option<String>,
    pub leasefile_ro: bool,
    pub script_on_renewal: bool,
    pub match_rules: Vec<TagRule>,
    pub name_match_rules: Vec<TagRule>,
    pub tag_rules: Vec<TagIf>,
    pub relay4: Vec<DhcpRelay>,
    pub no_ping: bool,
    pub consec_addr: bool,
    pub dhcp_ignore: Vec<NetidList>,
    pub bootp_dynamic: Vec<NetidList>,
    pub rapid_commit: bool,
    pub leasequery_addr: Vec<BogusAddr>,
    pub leasequery_enabled: bool,
    pub leasequery_source: Ip4,
    pub quiet_dhcp: bool,
}

/// What the DHCPv4 loop runs with.
#[derive(Debug)]
pub struct DhcpLoopOptions {
    /// The port of clients, where it is not the usual one.
    pub reply_port_override: Option<u16>,
    pub relay_iface_addr: Ip4,
    pub relay_iface_index: i32,
    pub relay_iface_name: Option<String>,
    /// The ranges from which clients make IPv6 addresses of their own.
    pub slaac_contexts: Vec<DhcpContext>,
}

/// What the DHCPv4 service needs.
#[derive(Debug)]
pub struct DhcpDaemonRuntime {
    pub bind_addr: SockAddr,
    pub bind_interface: Option<String>,
    pub server: DhcpServerConfig,
    pub loop_opts: DhcpLoopOptions,
}

/// A relay after the interface with address `ip` and number `index` was seen: one that is not split and
/// has that address learns the interface.
pub open spec fn relay_bound(relay: DhcpRelayView, ip: Ip4, index: i32) -> DhcpRelayView {
    if relay.split_mode == 0 && relay.local_addr == AllAddr::Addr4(ip) {
        DhcpRelayView { iface_index: index, ..relay }
    } else {
        relay
    }
}

/// Copies relays, and tells them the interface with an address.
fn bind_relays(relays: &Vec<DhcpRelay>, ip: Ip4, index: i32) -> (r: Vec<DhcpRelay>)
    ensures
        all_views(r@) == all_views(relays@).map_values(|x: DhcpRelayView| relay_bound(x, ip, index)),
{
    let mut r: Vec<DhcpRelay> = Vec::new();
    let mut i: usize = 0;
    while i < relays.len()
        invariant
            i <= relays@.len(),
            r@.len() == i,
            forall|j: int| 0 <= j < i ==> (#[trigger] r@[j])@ == relay_bound(relays@[j]@, ip, index),
        decreases relays@.len() - i,
    {
        let mut relay: DhcpRelay = relays[i].dup();
        if relay.split_mode == 0 {
            if let AllAddr::Addr4(local) = relay.local_addr {
                if local == ip {
                    relay.iface_index = index;
                }
            }
        }
        r.push(relay);
        i += 1;
    }
    assert(all_views(r@) =~= all_views(relays@).map_values(|x: DhcpRelayView| relay_bound(x, ip, index)));
    r
}

/// The address that the DHCPv4 socket is bound to: the first IPv4 address that is listened on, else any.
pub open spec fn dhcp_bind_ip(d: Daemon) -> Ip4 {
    match first_v4(all_views(d.if_addrs@), 0) {
        Some(ip) => ip,
        None => Ip4 { bits: 0 },
    }
}

/// The number of the interface that relays can be bound to; none without an interface.
pub open spec fn relay_index(d: Daemon, index: u32) -> i32 {
    if first_plain(all_views(d.if_names@), all_views(d.if_except@), 0) is Some {
        index as i32
    } else {
        0
    }
}

/// Whether there is a DHCPv4 service: there is a range, and the ports are ports.
pub open spec fn has_dhcp_service(d: Daemon) -> bool {
    d.dhcp@.len() > 0 && 0 <= d.dhcp_server_port <= 0xffff && 0 <= d.dhcp_client_port <= 0xffff
}

/// Whether the DHCPv4 service gets what the configuration says.
pub open spec fn dhcp_runtime_of(d: Daemon, index: u32, r: DhcpDaemonRuntime) -> bool {
    let name = first_plain(all_views(d.if_names@), all_views(d.if_except@), 0);
    let ctx = d.dhcp@[0];
    let s = r.server;
    &&& r.bind_addr == SockAddr::V4 { ip: dhcp_bind_ip(d), port: d.dhcp_server_port as u16 }
    &&& opt_text(r.bind_interface) == name
    &&& r.loop_opts.reply_port_override == if d.dhcp_client_port != 68 {
        Some(d.dhcp_client_port as u16)
    } else {
        None
    }
    &&& r.loop_opts.relay_iface_addr == dhcp_bind_ip(d)
    &&& r.loop_opts.relay_iface_index == relay_index(d, index)
    &&& opt_text(r.loop_opts.relay_iface_name) == name
    &&& r.loop_opts.slaac_contexts@.len() == 0
    &&& s.pool_start == ctx.start
    &&& s.pool_end == ctx.end
    &&& s.server_ip == if ctx.router.bits != 0 {
        ctx.router
    } else {
        ctx.start
    }
    &&& s.max_packet == 1500
    &&& all_views(s.configs@) == all_views(d.dhcp_conf@)
    &&& all_views(s.vendor_rules@) == all_views(d.dhcp_vendors@)
    &&& all_views(s.user_class_rules@) == all_views(d.dhcp_userclasses@)
    &&& all_views(s.mac_rules@) == all_views(d.dhcp_macs@)
    &&& all_views(s.relay_id_rules@) == all_views(d.dhcp_relay_ids@)
    &&& all_views(s.reply_delays@) == all_views(d.dhcp_reply_delays@)
    &&& all_views(s.contexts@) == all_views(d.dhcp@)
    &&& all_views(s.dhcp_opts@) == all_views(d.dhcp_opts@)
    &&& all_views(s.boot_configs@) == all_views(d.boot_config@)
    &&& opt_text(s.domain_suffix) == opt_text(d.domain_suffix)
    &&& opt_text(s.lease_file) == opt_text(d.lease_file)
    &&& opt_text(s.lease_change_command) == opt_text(d.lease_change_command)
    &&& s.leasefile_ro == d.options.lease_ro
    &&& s.script_on_renewal == d.options.lease_renew
    &&& all_views(s.match_rules@) == all_views(d.dhcp_match@)
    &&& all_views(s.name_match_rules@) == all_views(d.dhcp_name_match@)
    &&& all_views(s.tag_rules@) == all_views(d.tag_if@)
    &&& all_views(s.relay4@) == all_views(d.relay4@).map_values(
        |x: DhcpRelayView| relay_bound(x, dhcp_bind_ip(d), relay_index(d, index)),
    )
    &&& s.no_ping == d.options.no_ping
    &&& s.consec_addr == d.options.consec_addr
    &&& all_views(s.dhcp_ignore@) == all_views(d.dhcp_ignore@)
    &&& all_views(s.bootp_dynamic@) == all_views(d.bootp_dynamic@)
    &&& s.rapid_commit == d.options.rapid_commit
    &&& s.leasequery_addr@ == d.leasequery_addr@
    &&& s.leasequery_enabled == d.options.leasequery
    &&& s.leasequery_source.bits == 0
    &&& s.quiet_dhcp == (d.options.quiet_dhcp && !d.options.log_opts)
}

/// Takes what the DHCPv4 service needs out of the configuration, where it has a range and ports that are
/// ports. `iface_index` is the number of the interface that `first_bind_interface` gives.
pub fn daemon_dhcp_runtime(daemon: &Daemon, iface_index: u32) -> (r: Option<DhcpDaemonRuntime>)
    ensures
        r is Some <==> has_dhcp_service(*daemon),
        r matches Some(x) ==> dhcp_runtime_of(*daemon, iface_index, x),
{
    if daemon.dhcp.len() == 0 || daemon.dhcp_server_port < 0 || daemon.dhcp_server_port > 0xffff || daemon.dhcp_client_port
        < 0 || daemon.dhcp_client_port > 0xffff {
        return None;
    }
    let ctx: &DhcpContext = &daemon.dhcp[0];
    let client_port: u16 = daemon.dhcp_client_port as u16;
    let bind_ip: Ip4 = match first_ipv4_listen_addr(&daemon.if_addrs) {
        Some(ip) => ip,
        None => Ip4::unspecified(),
    };
    let bind_interface: Option<String> = first_bind_interface(daemon);
    #[verifier::truncate]
    let number: i32 = iface_index as i32;
    let index: i32 = if bind_interface.is_some() {
        number
    } else {
        0
    };
    let relay_iface_name: Option<String> = dup_text(&bind_interface);
    let relay4: Vec<DhcpRelay> = bind_relays(&daemon.relay4, bind_ip, index);
    Some(
        DhcpDaemonRuntime {
            bind_addr: SockAddr::V4 { ip: bind_ip, port: daemon.dhcp_server_port as u16 },
            bind_interface,
            server: DhcpServerConfig {
                pool_start: ctx.start,
                pool_end: ctx.end,
                server_ip: if ctx.router.bits != 0 {
                    ctx.router
                } else {
                    ctx.start
                },
                max_packet: 1500,
                configs: dup_all(&daemon.dhcp_conf),
                vendor_rules: dup_all(&daemon.dhcp_vendors),
                user_class_rules: dup_all(&daemon.dhcp_userclasses),
                mac_rules: dup_all(&daemon.dhcp_macs),
                relay_id_rules: dup_all(&daemon.dhcp_relay_ids),
                reply_delays: dup_all(&daemon.dhcp_reply_delays),
                contexts: dup_all(&daemon.dhcp),
                dhcp_opts: dup_all(&daemon.dhcp_opts),
                boot_configs: dup_all(&daemon.boot_config),
                domain_suffix: dup_text(&daemon.domain_suffix),
                lease_file: dup_text(&daemon.lease_file),
                lease_change_command: dup_text(&daemon.lease_change_command),
                leasefile_ro: daemon.options.lease_ro,
                script_on_renewal: daemon.options.lease_renew,
                match_rules: dup_all(&daemon.dhcp_match),
                name_match_rules: dup_all(&daemon.dhcp_name_match),
                tag_rules: dup_all(&daemon.tag_if),
                relay4,
                no_ping: daemon.options.no_ping,
                consec_addr: daemon.options.consec_addr,
                dhcp_ignore: dup_all(&daemon.dhcp_ignore),
                bootp_dynamic: dup_all(&daemon.bootp_dynamic),
                rapid_commit: daemon.options.rapid_commit,
                leasequery_addr: dup_copies(&daemon.leasequery_addr),
                leasequery_enabled: daemon.options.leasequery,
                leasequery_source: Ip4::unspecified(),
                quiet_dhcp: daemon.options.quiet_dhcp && !daemon.options.log_opts,
            },
            loop_opts: DhcpLoopOptions {
                reply_port_override: if client_port != 68 {
                    Some(client_port)
                } else {
                    None
                },
                relay_iface_addr: bind_ip,
                relay_iface_index: index,
                relay_iface_name,
                slaac_contexts: Vec::new(),
            },
        },
    )
}

/// What the DHCPv6 service needs.
#[derive(Debug)]
pub struct Dhcp6DaemonRuntime {
    pub bind_addr: SockAddr,
    pub duid: Vec<u8>,
    pub contexts: Vec<DhcpContext>,
    pub configs: Vec<DhcpConfig>,
    pub authoritative: bool,
}

/// The ranges that DHCPv6 serves, of which there are none without the service. Router advertisements are sent for
/// them, and DHCPv4 looks in them for the addresses that its clients make of their own.
pub fn served_contexts(dhcp6: &Option<Dhcp6DaemonRuntime>) -> (r: Vec<DhcpContext>)
    ensures
        all_views(r@) == match *dhcp6 {
            Some(rt) => all_views(rt.contexts@),
            None => seq![],
        },
{
    match dhcp6 {
        Some(rt) => dup_all(&rt.contexts),
        None => {
            let r: Vec<DhcpContext> = Vec::new();
            assert(all_views(r@) =~= seq![]);
            r
        },
    }
}

/// The ranges that are served on the interfaces with these addresses, interface by interface.
pub open spec fn current_chain(lives: Seq<LiveAddr6>, ctxs: Seq<ContextView>) -> Seq<ContextView>
    decreases lives.len(),
{
    if lives.len() == 0 {
        seq![]
    } else {
        current_chain(lives.drop_last(), ctxs) + if decides(lives.last().addr) {
            chain_of(lives.last(), ctxs)
        } else {
            seq![]
        }
    }
}

/// The ranges after interfaces' addresses were seen.
pub open spec fn touched_all(lives: Seq<LiveAddr6>, ctxs: Seq<ContextView>) -> Seq<ContextView> {
    ctxs.map_values(|c: ContextView| touched_by_all(lives, c))
}

/// The DUID of the DHCPv6 server: the one that there is, else a new one.
pub open spec fn server_duid(d: Daemon, source: Option<DuidMacSource>, now_secs: u64) -> Option<Seq<u8>> {
    match d.duid {
        Some(x) => Some(x@),
        None => duid_of(opt_bytes(d.duid_config), d.duid_enterprise, source, d.lease_file is Some, now_secs),
    }
}

/// Lists the ranges that are served on the interfaces with these addresses.
fn list_current(lives: &[LiveAddr6], contexts: &Vec<DhcpContext>) -> (r: Vec<DhcpContext>)
    ensures
        context_views(r@) == current_chain(lives@, context_views(contexts@)),
{
    let ghost all = lives@;
    let ghost ctxs = context_views(contexts@);
    let mut r: Vec<DhcpContext> = Vec::new();
    let mut i: usize = 0;
    assert(context_views(r@) =~= current_chain(all.take(0), ctxs));
    while i < lives.len()
        invariant
            i <= lives@.len(),
            all == lives@,
            ctxs == context_views(contexts@),
            context_views(r@) == current_chain(all.take(i as int), ctxs),
        decreases lives@.len() - i,
    {
        proof {
            assert(all.take(i + 1).drop_last() =~= all.take(i as int));
            assert(all.take(i + 1).last() == lives@[i as int]);
        }
        let mut more: Vec<DhcpContext> = complete_context6(&lives[i], contexts.as_slice());
        let ghost before = r@;
        let ghost added = more@;
        r.append(&mut more);
        assert(context_views(before + added) =~= context_views(before) + context_views(added));
        i += 1;
    }
    assert(all.take(all.len() as int) =~= all);
    r
}

/// Takes what the DHCPv6 service needs out of the configuration and the addresses of the interfaces. A
/// DUID is made and kept where there is none. There is no service without a range, nor without a DUID.
pub fn daemon_dhcp6_runtime_with(
    daemon: &mut Daemon,
    live: &[LiveAddr6],
    mac_source: Option<DuidMacSource>,
    now_secs: u64,
) -> (r: Option<Dhcp6DaemonRuntime>)
    ensures
        r is Some <==> old(daemon).dhcp6@.len() > 0 && server_duid(*old(daemon), mac_source, now_secs) is Some,
        r is None ==> *final(daemon) == *old(daemon),
        r matches Some(x) ==> {
            &&& *final(daemon) == (Daemon { duid: final(daemon).duid, ..*old(daemon) })
            &&& opt_bytes(final(daemon).duid) == server_duid(*old(daemon), mac_source, now_secs)
            &&& Some(x.duid@) == server_duid(*old(daemon), mac_source, now_secs)
            &&& x.bind_addr == SockAddr::V6 { ip: Ip6 { bits: 0 }, port: DHCPV6_SERVER_PORT, scope_id: 0 }
            &&& context_views(x.contexts@) == current_chain(
                live@,
                touched_all(live@, context_views(old(daemon).dhcp6@)),
            )
            &&& all_views(x.configs@) == all_views(old(daemon).dhcp_conf@)
            &&& x.authoritative == old(daemon).options.authoritative
        },
{
    if daemon.dhcp6.len() == 0 {
        return None;
    }
    if daemon.duid.is_none() {
        let use_llt: bool = daemon.lease_file.is_some();
        match make_duid(daemon, mac_source, use_llt, now_secs) {
            Ok(_) => {},
            Err(_) => {
                return None;
            },
        }
    }
    let duid: Vec<u8> = match &daemon.duid {
        Some(d) => dup_copies(d),
        None => {
            return None;
        },
    };
    let mut contexts: Vec<DhcpContext> = dup_all(&daemon.dhcp6);
    let ghost before = contexts@;
    assert(all_views(before) =~= context_views(before));
    assert(all_views(daemon.dhcp6@) =~= context_views(daemon.dhcp6@));
    dhcp_construct_contexts(contexts.as_mut_slice(), live);
    assert(context_views(contexts@) =~= touched_all(live@, context_views(before)));
    let current: Vec<DhcpContext> = list_current(live, &contexts);
    Some(
        Dhcp6DaemonRuntime {
            bind_addr: SockAddr::V6 { ip: Ip6::unspecified(), port: DHCPV6_SERVER_PORT, scope_id: 0 },
            duid,
            contexts: current,
            configs: dup_all(&daemon.dhcp_conf),
            authoritative: daemon.options.authoritative,
        },
    )
}

} // verus!
