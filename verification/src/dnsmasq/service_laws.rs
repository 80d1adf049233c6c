//! What is planned, what runs, which files are read and what comes of sockets.

use super::bind::{adopted, binds_to, bound_result, sock_text, wildcard_result};
use super::forwarding::{forward_config_of, servers_where, ForwardConfig};
use super::identity::{priv_steps, resolved, Accounts, Identity, NeededCaps, PrivStep};
use super::listen::{auth_of, ListenOutcome, ListenPlan, Listeners};
use super::main_loop::{advances, Command, MainEvent, MainView, PhaseView};
use super::process::{pid_file_result, startup_line, FileWrite};
use super::reload::hosts_files;
use super::services::{plan_of, Step, StopStep, Task};
use super::startup::{dhcp_runtime_of, first_plain, is_excepted, relay_index, server_duid, touched_all, DhcpDaemonRuntime};
use super::RunResult;
use crate::addr::{ip4_text, AllAddr, ip6_text, Ip4, Ip6, IpAddress, SockAddr};
use crate::daemon::Daemon;
use crate::dhcp6::duid::DuidMacSource;
use crate::dhcp6::live::{touched_by_all, LiveAddr6};
use crate::dhcp_types::ContextView;
use crate::dup::all_views;
use crate::error::DnsmasqError;
use crate::records::{InameView, ServerView};
use crate::text::{decimal, is_space, views};
use vstd::prelude::*;

verus! {

/// Each part of startup is planned where the configuration asks for it: probes for loops where they are looked for and DNS is
/// on, a dump where it has a file, the bus services where they are on, TFTP where it has a socket, DHCP where it is given what it
/// needs, and router advertisements where they are sent. Sockets are bound where they are not given, and a DHCP socket to its
/// interface where it has one.
pub proof fn law_plan(
    d: Daemon,
    given: bool,
    tftp_sockets: nat,
    dhcp: Option<DhcpDaemonRuntime>,
    dhcp_given: bool,
    dhcp6: bool,
    netlink: bool,
)
    ensures
        ({
            let p = plan_of(d, given, tftp_sockets, dhcp, dhcp_given, dhcp6, netlink);
            &&& p.loop_probes <==> d.options.loop_detect && d.port > 0
            &&& p.dump <==> d.dump_file is Some
            &&& p.bind <==> !given
            &&& p.dbus <==> d.options.dbus
            &&& p.ubus <==> d.options.ubus
            &&& p.tftp <==> tftp_sockets >= 1
            &&& p.dhcp <==> dhcp is Some
            &&& p.dhcp_device <==> (dhcp matches Some(r) && r.bind_interface is Some && !dhcp_given)
            &&& p.dhcp6 <==> dhcp6
            &&& p.netlink <==> netlink
            &&& p.radv <==> d.doing_ra
        }),
{
}

/// A step that starts a service adds it to those that run, and no step does more.
pub proof fn law_services_come_to_run(m: MainView, i: int, n: MainView, c: Command, t: Task)
    requires
        m.phase == PhaseView::Starting(i),
        advances(m, MainEvent::Done, n, c),
    ensures
        m.steps[i] == Step::Start(t) ==> n.running.has(t),
        m.running.has(t) ==> n.running.has(t),
        m.steps[i] != Step::Start(t) ==> n.running.has(t) == m.running.has(t),
{
}

/// What is to be stopped is stopped one by one, in order, and then the daemon ends with the result that it has.
pub proof fn law_stopping_goes_on(m: MainView, e: MainEvent, n: MainView, c: Command, result: RunResult, left: Seq<StopStep>)
    requires
        m.phase == (PhaseView::Stopping { result, left }),
        advances(m, e, n, c),
    ensures
        left.len() > 0 ==> c == Command::Stop(left[0]) && n.phase == (PhaseView::Stopping { result, left: left.skip(1) }),
        left.len() == 0 ==> c == Command::Exit(result) && n.phase == PhaseView::Ended(result),
{
}

/// The hosts files are all those that are configured, in their order, behind the usual one unless that is off.
pub proof fn law_hosts_files(d: Daemon, i: int)
    ensures
        ({
            let files = hosts_files(d);
            &&& d.options.no_hosts ==> files.len() == d.addn_hosts@.len() && (0 <= i < d.addn_hosts@.len() ==> files[i]
                == d.addn_hosts@[i]@)
            &&& !d.options.no_hosts ==> files.len() == d.addn_hosts@.len() + 1 && files[0] == "/etc/hosts"@ && (0 <= i < d.addn_hosts@.len()
                ==> files[i + 1] == d.addn_hosts@[i]@)
        }),
{
    assert(views(d.addn_hosts@).len() == d.addn_hosts@.len());
    if 0 <= i < d.addn_hosts@.len() {
        assert(views(d.addn_hosts@)[i] == d.addn_hosts@[i]@);
    }
}

/// An address and a port are written with a colon between them, an IPv6 address in brackets, and with its interface, if it has one,
/// behind a percent sign.
pub proof fn law_address_and_port(v4: Ip4, v6: Ip6, port: u16, scope: u32)
    ensures
        sock_text(SockAddr::V4 { ip: v4, port }) == ip4_text(v4) + ":"@ + decimal(port as nat),
        sock_text(SockAddr::V6 { ip: v6, port, scope_id: 0 }) == "["@ + ip6_text(v6) + "]:"@ + decimal(port as nat),
        scope > 0 ==> sock_text(SockAddr::V6 { ip: v6, port, scope_id: scope }) == "["@ + ip6_text(v6) + "%"@ + decimal(scope as nat)
            + "]:"@ + decimal(port as nat),
{
    reveal(sock_text);
    let a = "["@ + ip6_text(v6);
    assert(a + ("%"@ + decimal(scope as nat) + "]:"@) + decimal(port as nat) =~= a + "%"@ + decimal(scope as nat) + "]:"@ + decimal(
        port as nat,
    ));
}

/// Wildcard sockets are taken over, all of them, where any was bound; without one there is an error on the port, with the reason
/// where one is known.
pub proof fn law_wildcard_sockets(port: u16, came: Result<Vec<SockAddr>, String>, r: Result<(Listeners, ListenPlan), DnsmasqError>)
    requires
        wildcard_result(port, came, r),
    ensures
        r is Ok <==> (came matches Ok(v) && v@.len() > 0),
        came matches Ok(v) ==> (r matches Ok(x) ==> x.0.dns@.len() == v@.len()),
        r matches Err(e) ==> (e matches DnsmasqError::Bind(t, why) && t@ == "0.0.0.0:"@ + decimal(port as nat) && (came matches Err(w)
            ==> why@ == w@)),
{
}

/// Sockets of interfaces that cannot be bound, or of interfaces that are not there, are errors that name them; else all are taken
/// over.
pub proof fn law_bound_sockets<F: Fn(&SockAddr) -> ListenOutcome>(
    d: Daemon,
    came: Result<Vec<SockAddr>, String>,
    addrs: Seq<IpAddress>,
    names: Seq<String>,
    bind: F,
    r: Result<(Listeners, ListenPlan), DnsmasqError>,
)
    requires
        bound_result(d, came, addrs, names, bind, r),
    ensures
        came is Err ==> r is Err,
        names.len() > 0 && !d.options.cleverbind ==> r is Err,
        r matches Err(DnsmasqError::BadNet(t)) ==> !d.options.cleverbind && names.len() > 0 && t@ == "unknown interface "@ + names[0]@,
        r matches Ok(x) ==> (came matches Ok(v) && exists|all: Seq<SockAddr>| #[trigger]
            binds_to(bind, v@, addrs, 0, d.port, d.options.cleverbind, Ok(all)) && x.0.dns@.len() == all.len() && x.0.dns@ == adopted(
                all,
                d.options.nowild,
            )),
{
    if let Ok(v) = came {
        let res = choose|res: Result<Seq<SockAddr>, (SockAddr, Seq<char>)>| #[trigger]
            binds_to(bind, v@, addrs, 0, d.port, d.options.cleverbind, res) && match res {
                Err((a, why)) => r matches Err(DnsmasqError::Bind(t, e)) && t@ == sock_text(a) && e@ == why,
                Ok(all) => if !d.options.cleverbind && names.len() > 0 {
                    r matches Err(DnsmasqError::BadNet(t)) && t@ == "unknown interface "@ + names[0]@
                } else {
                    r matches Ok(x) && x.0.dns@ == adopted(all, d.options.nowild)
                },
            };
        if let Ok(all) = res {
            assert(binds_to(bind, v@, addrs, 0, d.port, d.options.cleverbind, Ok(all)));
        }
    }
}

/// Interfaces for authoritative DNS are taken over one by one, with their names, addresses and flags.
pub proof fn law_authoritative_interfaces(v: Seq<InameView>, i: int)
    requires
        0 <= i < v.len(),
    ensures
        auth_of(v).len() == v.len(),
        auth_of(v)[i].0 == v[i].name,
        auth_of(v)[i].2 == v[i].flags,
        v[i].addr is None ==> auth_of(v)[i].1 is None,
        v[i].addr matches Some(SockAddr::V4 { ip, .. }) ==> auth_of(v)[i].1 == Some(IpAddress::V4(ip)),
        v[i].addr matches Some(SockAddr::V6 { ip, .. }) ==> auth_of(v)[i].1 == Some(IpAddress::V6(ip)),
{
}

/// A pid file that could not be made or written is an error that says which, of what file, and why.
pub proof fn law_pid_file_errors(path: Seq<char>, w: FileWrite, r: Result<(), DnsmasqError>)
    requires
        pid_file_result(path, w, r),
    ensures
        r is Ok <==> w is Done,
        w matches FileWrite::NotCreated(e) ==> (r matches Err(DnsmasqError::PidFile(t)) && t@ == "create "@ + path + ": "@ + e@),
        w matches FileWrite::NotWritten(e) ==> (r matches Err(DnsmasqError::PidFile(t)) && t@ == "write "@ + path + ": "@ + e@),
{
}

/// What the background process says is told without white space at its end; where it says nothing there is nothing to tell.
pub proof fn law_what_is_told(msg: Seq<char>, after: Seq<char>)
    requires
        msg.len() > 0,
        !is_space(msg.last()),
        forall|i: int| 0 <= i < after.len() ==> is_space(#[trigger] after[i]),
    ensures
        startup_line(msg + after) == Some("dnsmasq-rs: "@ + msg),
        startup_line(Seq::empty()) is None,
{
    lemma_end(msg, after);
}

/// White space at the end is left out.
proof fn lemma_end(msg: Seq<char>, after: Seq<char>)
    requires
        msg.len() > 0,
        !is_space(msg.last()),
        forall|i: int| 0 <= i < after.len() ==> is_space(#[trigger] after[i]),
    ensures
        crate::text::trim_end(msg + after) == msg,
    decreases after.len(),
{
    if after.len() == 0 {
        assert(msg + after =~= msg);
    } else {
        assert((msg + after).last() == after.last());
        assert((msg + after).drop_last() =~= msg + after.drop_last());
        lemma_end(msg, after.drop_last());
    }
}

/// A server that has an identifier keeps it, whatever else there is.
pub proof fn law_identifier_is_kept(d: Daemon, source: Option<DuidMacSource>, now: u64, other: Option<DuidMacSource>, later: u64)
    requires
        d.duid is Some,
    ensures
        server_duid(d, source, now) == Some(d.duid->0@),
        server_duid(d, source, now) == server_duid(d, other, later),
{
}

/// Every range is seen with every address, and none is lost.
pub proof fn law_all_ranges_are_seen(lives: Seq<LiveAddr6>, ctxs: Seq<ContextView>, i: int)
    requires
        0 <= i < ctxs.len(),
    ensures
        touched_all(lives, ctxs).len() == ctxs.len(),
        touched_all(lives, ctxs)[i] == touched_by_all(lives, ctxs[i]),
        touched_all(seq![], ctxs)[i] == ctxs[i],
{
}

/// Relays are bound to the interface with the number that is given, where one is configured by its plain name.
pub proof fn law_interface_of_relays(d: Daemon, index: u32, k: int)
    requires
        index <= i32::MAX,
    ensures
        ({
            let (names, except) = (all_views(d.if_names@), all_views(d.if_except@));
            &&& 0 <= k < names.len() && (names[k].name matches Some(n) && !n.contains('*') && !is_excepted(n, except)) ==> relay_index(
                d,
                index,
            ) == index
            &&& (forall|j: int| 0 <= j < names.len() ==> (#[trigger] names[j]).name is None) ==> relay_index(d, index) == 0
        }),
{
    lemma_some_plain(all_views(d.if_names@), all_views(d.if_except@), 0, k);
    lemma_no_plain(all_views(d.if_names@), all_views(d.if_except@), 0);
}

/// A plain name is found.
proof fn lemma_some_plain(names: Seq<InameView>, except: Seq<InameView>, i: int, k: int)
    requires
        0 <= i,
    ensures
        i <= k < names.len() && (names[k].name matches Some(n) && !n.contains('*') && !is_excepted(n, except)) ==> first_plain(
            names,
            except,
            i,
        ) is Some,
    decreases names.len() - i,
{
    if i < names.len() {
        lemma_some_plain(names, except, i + 1, k);
    }
}

/// Without names none is found.
proof fn lemma_no_plain(names: Seq<InameView>, except: Seq<InameView>, i: int)
    requires
        0 <= i,
    ensures
        (forall|j: int| i <= j < names.len() ==> (#[trigger] names[j]).name is None) ==> first_plain(names, except, i) is None,
    decreases names.len() - i,
{
    if i < names.len() {
        lemma_no_plain(names, except, i + 1);
    }
}

/// What the forwarder does besides is as it is configured: sets of addresses, marks of connections and the names that they allow,
/// what is told to servers of clients' networks and hardware addresses, and which replies are logged.
pub proof fn law_forwarder_takes_over(d: Daemon, c: ForwardConfig)
    requires
        forward_config_of(d, c),
    ensures
        all_views(c.ipsets@) == all_views(d.ipsets@) && all_views(c.nftsets@) == all_views(d.nftsets@),
        c.cmark_alst_en == d.options.cmark_alst_en && all_views(c.allowlists@) == all_views(d.allowlists@) && c.allowlist_mask
            == d.allowlist_mask,
        d.add_subnet4 is None ==> c.add_subnet4 is None,
        d.add_subnet6 is None ==> c.add_subnet6 is None,
        d.add_subnet4 matches Some(n) && 0 <= n.mask <= 255 ==> (c.add_subnet4 matches Some(o) && o.mask == d.add_subnet4->0.mask),
        d.add_subnet6 matches Some(n) && 0 <= n.mask <= 255 ==> (c.add_subnet6 matches Some(o) && o.mask == d.add_subnet6->0.mask),
        c.add_mac == d.options.add_mac && c.mac_b64 == d.options.mac_b64 && c.mac_hex == d.options.mac_hex && c.strip_mac
            == d.options.strip_mac,
        c.local.edns_pktsz == d.edns_pktsz,
        all_views(c.local.synth_domains@) == all_views(d.synth_domains@),
        c.local.log_opts.log == d.options.log && c.local.log_opts.log_only_failed == d.options.log_only_failed && c.local.log_opts.auth_log
            == d.options.auth_log && c.local.log_opts.extralog == d.options.extralog && c.local.log_opts.log_proto == d.options.log_proto,
{
}

/// Queries are forwarded to the servers in the order in which they are configured, and so are those tried that look for loops.
pub proof fn law_servers_keep_their_order(servers: Seq<ServerView>, s: ServerView, literal: bool)
    ensures
        servers_where(seq![], literal) == Seq::<ServerView>::empty(),
        s.flags.literal_address == literal ==> servers_where(servers.push(s), literal) == servers_where(servers, literal).push(s),
        s.flags.literal_address != literal ==> servers_where(servers.push(s), literal) == servers_where(servers, literal),
{
    assert(servers.push(s).drop_last() =~= servers);
}

/// The DHCPv4 service is given every rule, option and file that is configured; each relay of it that has the address of the
/// service is bound to its interface.
pub proof fn law_dhcp_service_takes_over(d: Daemon, index: u32, r: DhcpDaemonRuntime, i: int)
    requires
        dhcp_runtime_of(d, index, r),
    ensures
        all_views(r.server.vendor_rules@) == all_views(d.dhcp_vendors@),
        all_views(r.server.user_class_rules@) == all_views(d.dhcp_userclasses@),
        all_views(r.server.mac_rules@) == all_views(d.dhcp_macs@),
        all_views(r.server.relay_id_rules@) == all_views(d.dhcp_relay_ids@),
        all_views(r.server.match_rules@) == all_views(d.dhcp_match@),
        all_views(r.server.name_match_rules@) == all_views(d.dhcp_name_match@),
        all_views(r.server.reply_delays@) == all_views(d.dhcp_reply_delays@),
        all_views(r.server.boot_configs@) == all_views(d.boot_config@),
        all_views(r.server.bootp_dynamic@) == all_views(d.bootp_dynamic@),
        r.server.leasefile_ro == d.options.lease_ro && r.server.script_on_renewal == d.options.lease_renew,
        r.server.consec_addr == d.options.consec_addr,
        r.server.leasequery_enabled == d.options.leasequery && r.server.leasequery_addr@ == d.leasequery_addr@,
        r.server.max_packet == 1500,
        d.options.quiet_dhcp && !d.options.log_opts ==> r.server.quiet_dhcp,
        d.lease_file is Some <==> r.server.lease_file is Some,
        (d.lease_file matches Some(f) ==> r.server.lease_file->0@ == f@),
        (d.lease_change_command matches Some(f) ==> r.server.lease_change_command is Some && r.server.lease_change_command->0@ == f@),
        (d.domain_suffix matches Some(f) ==> r.server.domain_suffix is Some && r.server.domain_suffix->0@ == f@),
        r.server.relay4@.len() == d.relay4@.len(),
        0 <= i < d.relay4@.len() && d.relay4@[i].split_mode == 0 && (r.bind_addr matches SockAddr::V4 { ip, port } && d.relay4@[i].local_addr
            == AllAddr::Addr4(ip)) ==> r.server.relay4@[i].iface_index == relay_index(d, index),
        r.bind_interface is Some <==> r.loop_opts.relay_iface_name is Some,
        r.bind_addr matches SockAddr::V4 { ip, port } && r.loop_opts.relay_iface_addr == ip,
{
    let (a, b) = (all_views(r.server.relay4@), all_views(d.relay4@));
    assert(a.len() == r.server.relay4@.len());
    assert(b.len() == d.relay4@.len());
    if 0 <= i < d.relay4@.len() {
        assert(a[i] == r.server.relay4@[i]@);
        assert(b[i] == d.relay4@[i]@);
    }
}

/// Without a configured user there is none to change to; the group is the configured one, or the usual one where there is one, and
/// else there is none either. Where the user's own group is taken, its name is that of the user's group.
pub proof fn law_groups_without_a_user(group: Option<Seq<char>>, user: Seq<char>, acc: Accounts)
    ensures
        ({
            let id = resolved(None, group, acc);
            &&& id.username is None && id.uid is None
            &&& group is Some && acc.group is Found ==> id.gid == Some(acc.group->Found_gid)
            &&& group is None && acc.usual_group is Found ==> id.gid == Some(acc.usual_group->Found_gid)
            &&& group is None && !(acc.usual_group is Found) ==> id.gid is None && id.groupname is None
        }),
        acc.user is Found && !(acc.usual_group is Found) && acc.primary_group is Found ==> resolved(Some(user), None, acc).groupname == Some(
            acc.primary_group->name@,
        ),
{
}

/// A process that is given a group alone leaves its groups and takes on that one; with no group and no user, or as root that stays
/// root without a group, there is nothing to do.
pub proof fn law_group_alone(uid: u32, gid: u32, run_as: Identity, caps: NeededCaps, g: u32)
    requires
        run_as.uid is None || run_as.uid == Some(0u32),
    ensures
        uid == 0 && run_as.gid == Some(g) ==> priv_steps(uid, gid, run_as, caps) == seq![PrivStep::ClearGroups, PrivStep::SetGid(g)],
        run_as.gid == Some(g) && g != gid ==> priv_steps(uid, gid, run_as, caps) == seq![PrivStep::ClearGroups, PrivStep::SetGid(g)],
        run_as.gid is None ==> priv_steps(uid, gid, run_as, caps).len() == 0,
{
}

} // verus!
