//! The order of startup, as whom the daemon runs, and what its services are given.

use super::forwarding::{
    cache_size, forward_config_of, literal_domains, local_data_of, servers_where, stat_records, subnet_opt, ForwardConfig, LocalData,
};
use super::identity::{caps_for, priv_steps, resolve_error, resolved, Accounts, Identity, NeededCaps, PrivStep, UserLookup};
use super::main_loop::{advances, Command, MainEvent, MainView, PhaseView};
use super::services::{only, stops_after, stops_at_end, steps_of, Caught, Plan, Running, Step, StopStep, Task};
use super::startup::{
    current_chain, dhcp_runtime_of, first_plain, first_v4, has_dhcp_service, is_excepted, range_lines, relay_bound, started,
    startup_lines, DhcpDaemonRuntime,
};
use crate::addr::{AllAddr, Ip4, IpAddress, SockAddr};
use crate::daemon::Daemon;
use crate::dhcp6::live::{chain_of, decides, LiveAddr6};
use crate::dhcp6::live_laws::{is_completed, is_served, law_every_served_range_is_listed};
use crate::dhcp_common::logs::{context_lines, relay_line};
use crate::dhcp_types::{context_views, ContextView, DhcpRelay};
use crate::dup::all_views;
use crate::records::{DhcpRelayView, InameView, MySubnet, ServerView};
use crate::text::views;
use vstd::prelude::*;

verus! {

/// Whether one step never comes behind another.
pub open spec fn before(s: Seq<Step>, a: Step, b: Step) -> bool {
    forall|i: int, j: int| 0 <= i < s.len() && 0 <= j < s.len() && #[trigger] s[i] == a && #[trigger] s[j] == b ==> i < j
}

/// What is in two sequences after each other is in one of them.
broadcast proof fn lemma_in_both<T>(a: Seq<T>, b: Seq<T>, x: T)
    ensures
        #[trigger] (a + b).contains(x) == (a.contains(x) || b.contains(x)),
{
    let s = a + b;
    if a.contains(x) {
        let i = choose|i: int| 0 <= i < a.len() && a[i] == x;
        assert(s[i] == x);
    }
    if b.contains(x) {
        let i = choose|i: int| 0 <= i < b.len() && b[i] == x;
        assert(s[a.len() + i] == x);
    }
    if s.contains(x) {
        let i = choose|i: int| 0 <= i < s.len() && s[i] == x;
        if i < a.len() {
            assert(a[i] == x);
        } else {
            assert(b[i - a.len()] == x);
        }
    }
}

/// What is in a sequence that holds a step where it is wanted.
broadcast proof fn lemma_in_only<T>(wanted: bool, step: T, x: T)
    ensures
        #[trigger] only(wanted, step).contains(x) == (wanted && x == step),
{
    reveal(only);
    if wanted {
        assert(only(wanted, step)[0] == step);
    }
}

/// How far startup has come with a step.
spec fn rank(s: Step) -> int {
    match s {
        Step::SendLoopProbes => 0,
        Step::OpenDump => 1,
        Step::BindListeners => 2,
        Step::AdoptDns => 3,
        Step::Start(Task::Dbus) => 4,
        Step::WatchDirectories => 5,
        Step::Start(Task::Inotify) => 6,
        Step::Start(Task::Ubus) => 7,
        Step::Start(Task::Forward) => 8,
        Step::Start(Task::Arp) => 9,
        Step::AdoptTftp => 10,
        Step::Start(Task::Tftp) => 11,
        Step::BindDhcp => 12,
        Step::BindDhcpDevice => 13,
        Step::Start(Task::Dhcp) => 14,
        Step::BindDhcp6 => 15,
        Step::Start(Task::Dhcp6) => 16,
        Step::Start(Task::Netlink) => 17,
        Step::OpenRadv => 18,
        Step::Start(Task::Radv) => 19,
        Step::CatchSignals => 20,
    }
}

/// Steps up to one, in order.
#[verifier::opaque]
spec fn ranked(s: Seq<Step>, n: int) -> bool {
    &&& forall|i: int| 0 <= i < s.len() ==> rank(#[trigger] s[i]) < n
    &&& forall|i: int, j: int| 0 <= i < j < s.len() ==> rank(#[trigger] s[i]) < rank(#[trigger] s[j])
}

/// A later step behind others keeps the order.
proof fn lemma_ranked(s: Seq<Step>, wanted: bool, step: Step)
    requires
        ranked(s, rank(step)),
    ensures
        ranked(s + only(wanted, step), rank(step) + 1),
{
    reveal(ranked);
    reveal(only);
}

/// All steps of startup are in order.
proof fn lemma_all_ranked(p: Plan)
    ensures
        ranked(steps_of(p), 21),
{
    let s0 = only(p.loop_probes, Step::SendLoopProbes);
    assert(ranked(s0, 1)) by {
        reveal(ranked);
        reveal(only);
    }
    let s1 = s0 + only(p.dump, Step::OpenDump);
    lemma_ranked(s0, p.dump, Step::OpenDump);
    let s2 = s1 + only(p.bind, Step::BindListeners);
    lemma_ranked(s1, p.bind, Step::BindListeners);
    let s3 = s2 + only(true, Step::AdoptDns);
    lemma_ranked(s2, true, Step::AdoptDns);
    let s4 = s3 + only(p.dbus, Step::Start(Task::Dbus));
    lemma_ranked(s3, p.dbus, Step::Start(Task::Dbus));
    let s5 = s4 + only(true, Step::WatchDirectories);
    lemma_ranked(s4, true, Step::WatchDirectories);
    let s6 = s5 + only(true, Step::Start(Task::Inotify));
    lemma_ranked(s5, true, Step::Start(Task::Inotify));
    let s7 = s6 + only(p.ubus, Step::Start(Task::Ubus));
    lemma_ranked(s6, p.ubus, Step::Start(Task::Ubus));
    let s8 = s7 + only(true, Step::Start(Task::Forward));
    lemma_ranked(s7, true, Step::Start(Task::Forward));
    let s9 = s8 + only(true, Step::Start(Task::Arp));
    lemma_ranked(s8, true, Step::Start(Task::Arp));
    let s10 = s9 + only(p.tftp, Step::AdoptTftp);
    lemma_ranked(s9, p.tftp, Step::AdoptTftp);
    let s11 = s10 + only(p.tftp, Step::Start(Task::Tftp));
    lemma_ranked(s10, p.tftp, Step::Start(Task::Tftp));
    let s12 = s11 + only(p.dhcp, Step::BindDhcp);
    lemma_ranked(s11, p.dhcp, Step::BindDhcp);
    let s13 = s12 + only(p.dhcp && p.dhcp_device, Step::BindDhcpDevice);
    lemma_ranked(s12, p.dhcp && p.dhcp_device, Step::BindDhcpDevice);
    let s14 = s13 + only(p.dhcp, Step::Start(Task::Dhcp));
    lemma_ranked(s13, p.dhcp, Step::Start(Task::Dhcp));
    let s15 = s14 + only(p.dhcp6, Step::BindDhcp6);
    lemma_ranked(s14, p.dhcp6, Step::BindDhcp6);
    let s16 = s15 + only(p.dhcp6, Step::Start(Task::Dhcp6));
    lemma_ranked(s15, p.dhcp6, Step::Start(Task::Dhcp6));
    let s17 = s16 + only(p.netlink, Step::Start(Task::Netlink));
    lemma_ranked(s16, p.netlink, Step::Start(Task::Netlink));
    let s18 = s17 + only(p.radv, Step::OpenRadv);
    lemma_ranked(s17, p.radv, Step::OpenRadv);
    let s19 = s18 + only(p.radv, Step::Start(Task::Radv));
    lemma_ranked(s18, p.radv, Step::Start(Task::Radv));
    lemma_ranked(s19, true, Step::CatchSignals);
}

/// What has a lower rank comes first.
proof fn lemma_before(s: Seq<Step>, a: Step, b: Step)
    requires
        ranked(s, 21),
        rank(a) < rank(b),
    ensures
        before(s, a, b),
{
    reveal(ranked);
    assert forall|i: int, j: int| 0 <= i < s.len() && 0 <= j < s.len() && #[trigger] s[i] == a && #[trigger] s[j] == b implies i < j by {
        if j < i {
            assert(rank(s[j]) < rank(s[i]));
        }
    }
}

/// Sockets are bound before they are taken over, and taken over before the service that uses them starts; the socket for DHCP is
/// bound to its device before DHCP starts; the directories are read before they are watched; and signals are caught when all
/// else is done.
pub proof fn law_startup_order(p: Plan, t: Task)
    ensures
        ({
            let s = steps_of(p);
            &&& before(s, Step::BindListeners, Step::AdoptDns)
            &&& before(s, Step::AdoptDns, Step::Start(Task::Forward))
            &&& before(s, Step::WatchDirectories, Step::Start(Task::Inotify))
            &&& before(s, Step::AdoptTftp, Step::Start(Task::Tftp))
            &&& before(s, Step::BindDhcp, Step::BindDhcpDevice)
            &&& before(s, Step::BindDhcpDevice, Step::Start(Task::Dhcp))
            &&& before(s, Step::BindDhcp, Step::Start(Task::Dhcp))
            &&& before(s, Step::BindDhcp6, Step::Start(Task::Dhcp6))
            &&& before(s, Step::OpenRadv, Step::Start(Task::Radv))
            &&& before(s, Step::Start(t), Step::CatchSignals)
            &&& s.len() > 0
            &&& s.last() == Step::CatchSignals
        }),
{
    let s = steps_of(p);
    lemma_all_ranked(p);
    lemma_before(s, Step::BindListeners, Step::AdoptDns);
    lemma_before(s, Step::AdoptDns, Step::Start(Task::Forward));
    lemma_before(s, Step::WatchDirectories, Step::Start(Task::Inotify));
    lemma_before(s, Step::AdoptTftp, Step::Start(Task::Tftp));
    lemma_before(s, Step::BindDhcp, Step::BindDhcpDevice);
    lemma_before(s, Step::BindDhcpDevice, Step::Start(Task::Dhcp));
    lemma_before(s, Step::BindDhcp, Step::Start(Task::Dhcp));
    lemma_before(s, Step::BindDhcp6, Step::Start(Task::Dhcp6));
    lemma_before(s, Step::OpenRadv, Step::Start(Task::Radv));
    lemma_before(s, Step::Start(t), Step::CatchSignals);
    lemma_last(p);
}

/// Signals are caught last.
proof fn lemma_last(p: Plan)
    ensures
        steps_of(p).len() > 0,
        steps_of(p).last() == Step::CatchSignals,
{
    reveal(only);
}

/// Each step is part of startup where it is planned, and only there.
pub proof fn law_steps_that_are_planned(p: Plan)
    ensures
        ({
            let s = steps_of(p);
            &&& s.contains(Step::SendLoopProbes) == p.loop_probes
            &&& s.contains(Step::OpenDump) == p.dump
            &&& s.contains(Step::BindListeners) == p.bind
            &&& s.contains(Step::AdoptDns)
            &&& s.contains(Step::WatchDirectories)
            &&& s.contains(Step::AdoptTftp) == p.tftp
            &&& s.contains(Step::BindDhcp) == p.dhcp
            &&& s.contains(Step::BindDhcpDevice) == (p.dhcp && p.dhcp_device)
            &&& s.contains(Step::BindDhcp6) == p.dhcp6
            &&& s.contains(Step::OpenRadv) == p.radv
            &&& s.contains(Step::CatchSignals)
        }),
{
    broadcast use {lemma_in_both, lemma_in_only};

}

/// Where a socket cannot be had, the services that started before and hold others are stopped: those for queries and for ARP,
/// and where DHCP fails that for TFTP, and where DHCPv6 fails DHCP, which is asked first. Where router advertisements fail the
/// forwarder and both DHCP services are.
pub proof fn law_failed_step_stops(r: Running)
    ensures
        r.has(Task::Forward) ==> stops_after(Step::AdoptTftp, r).contains(StopStep::Abort(Task::Forward)) && stops_after(
            Step::BindDhcp,
            r,
        ).contains(StopStep::Abort(Task::Forward)) && stops_after(Step::BindDhcpDevice, r).contains(StopStep::Abort(Task::Forward))
            && stops_after(Step::BindDhcp6, r).contains(StopStep::Abort(Task::Forward)) && stops_after(Step::OpenRadv, r).contains(
            StopStep::Abort(Task::Forward),
        ),
        r.has(Task::Arp) ==> stops_after(Step::AdoptTftp, r).contains(StopStep::Abort(Task::Arp)) && stops_after(
            Step::BindDhcp,
            r,
        ).contains(StopStep::Abort(Task::Arp)) && stops_after(Step::BindDhcpDevice, r).contains(StopStep::Abort(Task::Arp))
            && stops_after(Step::BindDhcp6, r).contains(StopStep::Abort(Task::Arp)),
        r.has(Task::Tftp) ==> stops_after(Step::BindDhcp, r).contains(StopStep::Abort(Task::Tftp)) && stops_after(
            Step::BindDhcpDevice,
            r,
        ).contains(StopStep::Abort(Task::Tftp)) && stops_after(Step::BindDhcp6, r).contains(StopStep::Abort(Task::Tftp)),
        r.has(Task::Dhcp) ==> stops_after(Step::BindDhcp6, r).contains(StopStep::Signal(Task::Dhcp)) && stops_after(
            Step::BindDhcp6,
            r,
        ).contains(StopStep::Abort(Task::Dhcp)) && stops_after(Step::OpenRadv, r).contains(StopStep::Signal(Task::Dhcp)) && stops_after(
            Step::OpenRadv,
            r,
        ).contains(StopStep::Abort(Task::Dhcp)),
        r.has(Task::Dhcp6) ==> stops_after(Step::OpenRadv, r).contains(StopStep::Signal(Task::Dhcp6)) && stops_after(
            Step::OpenRadv,
            r,
        ).contains(StopStep::Abort(Task::Dhcp6)),
{
    broadcast use {lemma_in_both, lemma_in_only};

}

/// At the end the DHCP services and the one for router advertisements are asked to end and waited for; all others are stopped at
/// once.
pub proof fn law_how_services_end(r: Running, t: Task)
    requires
        r.has(t),
    ensures
        ({
            let slow = t is Dhcp || t is Dhcp6 || t is Radv;
            &&& slow ==> stops_at_end(r).contains(StopStep::Signal(t)) && stops_at_end(r).contains(StopStep::Wait(t)) && !stops_at_end(
                r,
            ).contains(StopStep::Abort(t))
            &&& !slow ==> stops_at_end(r).contains(StopStep::Abort(t)) && !stops_at_end(r).contains(StopStep::Wait(t))
        }),
{
    broadcast use {lemma_in_both, lemma_in_only};

}

/// Startup asks for each step in turn and then waits for signals; a signal during startup changes nothing, a hangup has the
/// configuration read again while the daemon serves on, and every other signal ends it.
pub proof fn law_main_loop(m: MainView, n: MainView, e: MainEvent, c: Command)
    requires
        advances(m, e, n, c),
    ensures
        m.phase matches PhaseView::Starting(i) ==> {
            &&& e is Done && i + 1 < m.steps.len() ==> c == Command::Do(m.steps[i + 1]) && n.phase == PhaseView::Starting(i + 1)
            &&& e is Done && i + 1 >= m.steps.len() ==> c is Await && n.phase is Serving
            &&& e is Signal ==> c == Command::Do(m.steps[i]) && n == m
            &&& e is Failed ==> !(n.phase is Starting) && !(n.phase is Serving)
        },
        m.phase is Serving ==> {
            &&& e == MainEvent::Signal(Caught::Hangup) ==> c is Reload && n == m
            &&& e == MainEvent::Signal(Caught::Terminate) || e == MainEvent::Signal(Caught::Interrupt) ==> !(n.phase is Serving) && !(
            n.phase is Starting)
            &&& e is Done || e is Failed ==> c is Await && n == m
        },
        m.phase matches PhaseView::Ended(r) ==> n == m && c == Command::Exit(r),
{
}

/// The first IPv4 address that is listened on is the one that is used; none where there is none.
pub proof fn law_first_listen_address(v: Seq<InameView>, i: int, k: int)
    requires
        0 <= i <= v.len(),
    ensures
        i <= k < v.len() && (forall|j: int| i <= j < k ==> !((#[trigger] v[j]).addr matches Some(SockAddr::V4 { .. }))) ==> (
        v[k].addr matches Some(SockAddr::V4 { ip, port }) ==> first_v4(v, i) == Some(ip)),
        (forall|j: int| i <= j < v.len() ==> !((#[trigger] v[j]).addr matches Some(SockAddr::V4 { .. }))) ==> first_v4(v, i) is None,
    decreases v.len() - i,
{
    if i < v.len() {
        if !(v[i].addr matches Some(SockAddr::V4 { .. })) {
            law_first_listen_address(v, i + 1, k);
        }
    }
}

/// DHCP is bound to the first interface that is configured by a name without a star and that is not left out.
pub proof fn law_first_interface(names: Seq<InameView>, except: Seq<InameView>, i: int, k: int, n: Seq<char>)
    requires
        0 <= i <= names.len(),
    ensures
        i <= k < names.len() && names[k].name == Some(n) && !n.contains('*') && (forall|j: int|
            0 <= j < except.len() ==> (#[trigger] except[j]).name != Some(n)) && (forall|j: int|
            i <= j < k && (#[trigger] names[j]).name is Some ==> names[j].name->0.contains('*') || is_excepted(
                names[j].name->0,
                except,
            )) ==> first_plain(names, except, i) == Some(n),
        (forall|j: int|
            i <= j < names.len() && (#[trigger] names[j]).name is Some ==> names[j].name->0.contains('*') || is_excepted(
                names[j].name->0,
                except,
            )) ==> first_plain(names, except, i) is None,
        first_plain(names, except, i) matches Some(x) ==> !x.contains('*') && forall|j: int|
            0 <= j < except.len() ==> (#[trigger] except[j]).name != Some(x),
    decreases names.len() - i,
{
    if i < names.len() {
        law_first_interface(names, except, i + 1, k, n);
        if let Some(x) = names[i].name {
            if !x.contains('*') && !is_excepted(x, except) {
                assert forall|j: int| 0 <= j < except.len() implies (#[trigger] except[j]).name != Some(x) by {}
            }
        }
        assert(names[i].name is Some ==> names[i].name->0 == names[i].name->0);
    }
}

/// The ranges that DHCPv6 serves are all those that are served on some interface whose address can decide, whichever it is.
pub proof fn law_every_served_range_is_current(lives: Seq<LiveAddr6>, ctxs: Seq<ContextView>, n: int, k: int)
    requires
        0 <= n < lives.len(),
        decides(lives[n].addr),
        0 <= k < ctxs.len(),
        is_served(lives[n], ctxs[k]),
    ensures
        exists|i: int|
            0 <= i < current_chain(lives, ctxs).len() && is_completed(lives[n], ctxs[k], #[trigger] current_chain(lives, ctxs)[i]),
    decreases lives.len(),
{
    let d = lives.drop_last();
    let some = current_chain(d, ctxs);
    let all = current_chain(lives, ctxs);
    if n < d.len() {
        assert(d[n] == lives[n]);
        law_every_served_range_is_current(d, ctxs, n, k);
        let i = choose|i: int| 0 <= i < some.len() && is_completed(d[n], ctxs[k], #[trigger] some[i]);
        assert(all[i] == some[i]);
    } else {
        law_every_served_range_is_listed(lives[n], ctxs, k);
        let chain = chain_of(lives[n], ctxs);
        let i = choose|i: int| 0 <= i < chain.len() && is_completed(lives[n], ctxs[k], #[trigger] chain[i]);
        assert(all[some.len() + i] == chain[i]);
    }
}

/// At startup every range and every relay is logged: first the ranges and the relays of DHCPv4, then those of DHCPv6, in their
/// order.
pub proof fn law_everything_is_logged(d: Daemon, v6: bool, ctxs: Seq<ContextView>, c: ContextView, opt_ra: bool)
    ensures
        range_lines(v6, seq![], opt_ra) == Seq::<Seq<char>>::empty(),
        range_lines(v6, ctxs.push(c), opt_ra) == range_lines(v6, ctxs, opt_ra) + context_lines(v6, c, opt_ra),
        startup_lines(d) == range_lines(false, context_views(d.dhcp@), d.options.ra) + d.relay4@.map_values(
            |r: DhcpRelay| relay_line(false, r),
        ) + range_lines(true, context_views(d.dhcp6@), d.options.ra) + d.relay6@.map_values(|r: DhcpRelay| relay_line(true, r)),
{
    assert(ctxs.push(c).drop_last() =~= ctxs);
}

/// With DHCPv6 ranges there are router advertisements where they are on, or on for some range, whichever it is, and addresses are
/// served where some range does; without DHCPv6 ranges nothing changes.
pub proof fn law_startup_completes(d: Daemon, i: int)
    ensures
        d.dhcp6@.len() == 0 ==> started(d) == d,
        0 <= i < d.dhcp6@.len() && d.dhcp6@[i].flags.ra ==> started(d).doing_ra,
        d.dhcp6@.len() > 0 && d.options.ra ==> started(d).doing_ra,
        0 <= i < d.dhcp6@.len() && d.dhcp6@[i].flags.dhcp ==> started(d).doing_dhcp6,
        d.dhcp6@.len() > 0 && !d.options.ra && (forall|j: int| 0 <= j < d.dhcp6@.len() ==> !(#[trigger] d.dhcp6@[j]).flags.ra)
            ==> !started(d).doing_ra,
        !d.doing_dhcp6 && (forall|j: int| 0 <= j < d.dhcp6@.len() ==> !(#[trigger] d.dhcp6@[j]).flags.dhcp) ==> !started(d).doing_dhcp6,
        started(d) == (Daemon { doing_ra: started(d).doing_ra, doing_dhcp6: started(d).doing_dhcp6, ..d }),
{
}

/// A relay that is not split learns the number of the interface that has its own address, and no other relay does.
pub proof fn law_relays_learn_their_interface(relay: DhcpRelayView, ip: Ip4, index: i32)
    ensures
        relay.split_mode == 0 && relay.local_addr == AllAddr::Addr4(ip) ==> relay_bound(relay, ip, index) == (DhcpRelayView {
            iface_index: index,
            ..relay
        }),
        relay.split_mode != 0 || relay.local_addr != AllAddr::Addr4(ip) ==> relay_bound(relay, ip, index) == relay,
{
}

/// The DHCPv4 service listens at the configured port, on the first IPv4 address that is listened on or on any, and serves the
/// first range; it answers as the router of that range, or as its first address where there is no router.
pub proof fn law_dhcp_service(d: Daemon, index: u32, r: DhcpDaemonRuntime)
    requires
        has_dhcp_service(d),
        dhcp_runtime_of(d, index, r),
    ensures
        d.dhcp@.len() > 0,
        r.bind_addr matches SockAddr::V4 { ip, port } && port == d.dhcp_server_port && (first_v4(all_views(d.if_addrs@), 0) matches Some(
            a,
        ) ==> ip == a) && (first_v4(all_views(d.if_addrs@), 0) is None ==> ip.bits == 0),
        d.dhcp_client_port == 68 ==> r.loop_opts.reply_port_override is None,
        d.dhcp_client_port != 68 ==> (r.loop_opts.reply_port_override matches Some(p) && p == d.dhcp_client_port),
        r.server.pool_start == d.dhcp@[0].start && r.server.pool_end == d.dhcp@[0].end,
        d.dhcp@[0].router.bits != 0 ==> r.server.server_ip == d.dhcp@[0].router,
        d.dhcp@[0].router.bits == 0 ==> r.server.server_ip == d.dhcp@[0].start,
        all_views(r.server.contexts@) == all_views(d.dhcp@),
        all_views(r.server.configs@) == all_views(d.dhcp_conf@),
        all_views(r.server.dhcp_opts@) == all_views(d.dhcp_opts@),
        all_views(r.server.tag_rules@) == all_views(d.tag_if@),
        all_views(r.server.dhcp_ignore@) == all_views(d.dhcp_ignore@),
        r.server.no_ping == d.options.no_ping,
        r.server.rapid_commit == d.options.rapid_commit,
        r.server.quiet_dhcp ==> d.options.quiet_dhcp && !d.options.log_opts,
{
}

/// A server that is no answer of its own has queries forwarded to it, at its address and for its domain, and one that is gives
/// its domain; each as many times as it is configured.
pub proof fn law_forwarder_servers(d: Daemon, c: ForwardConfig, i: int)
    requires
        forward_config_of(d, c),
        0 <= i < d.servers@.len(),
    ensures
        c.upstreams@.len() == c.server_domains@.len() == c.loop_servers@.len(),
        !d.servers@[i].flags.literal_address ==> exists|k: int|
            0 <= k < c.upstreams@.len() && #[trigger] c.upstreams@[k] == d.servers@[i].addr && c.server_domains@[k]@
                == d.servers@[i].domain@,
        d.servers@[i].flags.literal_address ==> all_views(c.local.address_server_list@).contains(d.servers@[i]@),
        d.servers@[i].flags.literal_address && d.servers@[i].domain@.len() > 0 ==> views(c.local.literal_domains@).contains(
            d.servers@[i].domain@,
        ),
{
    let all = all_views(d.servers@);
    let some = servers_where(all, false);
    super::forwarding::law_servers_are_split(all);
    assert(all[i] == d.servers@[i]@);
    assert(views(c.server_domains@).len() == c.server_domains@.len());
    assert(all_views(c.loop_servers@).len() == c.loop_servers@.len());
    if !d.servers@[i].flags.literal_address {
        assert(some.contains(all[i]));
        let k = choose|k: int| 0 <= k < some.len() && some[k] == all[i];
        assert(c.upstreams@[k] == some[k].addr);
        assert(views(c.server_domains@)[k] == some[k].domain);
        assert(c.server_domains@[k]@ == views(c.server_domains@)[k]);
    } else {
        assert(servers_where(all, true).contains(all[i]));
        if d.servers@[i].domain@.len() > 0 {
            lemma_literal_domain(all, i);
        }
    }
}

/// The domain of a server that stands for an answer of its own is among those domains.
proof fn lemma_literal_domain(servers: Seq<ServerView>, i: int)
    requires
        0 <= i < servers.len(),
        servers[i].flags.literal_address && servers[i].domain.len() > 0,
    ensures
        literal_domains(servers).contains(servers[i].domain),
    decreases servers.len(),
{
    let d = servers.drop_last();
    let (some, all) = (literal_domains(d), literal_domains(servers));
    if i < d.len() {
        assert(d[i] == servers[i]);
        lemma_literal_domain(d, i);
        let k = choose|k: int| 0 <= k < some.len() && some[k] == servers[i].domain;
        assert(all[k] == servers[i].domain);
    } else {
        assert(all[some.len() as int] == servers[i].domain);
    }
}

/// The limits and switches of the forwarder are those that are configured; a cache of negative size has the usual 150 places, and
/// of forwarded queries and of ports there is at least one.
pub proof fn law_forwarder_limits(d: Daemon, c: ForwardConfig)
    requires
        forward_config_of(d, c),
    ensures
        d.cachesize < 0 ==> c.cache_size == 150,
        d.cachesize >= 0 ==> c.cache_size == d.cachesize,
        c.min_cache_ttl == d.min_cache_ttl && c.max_cache_ttl == d.max_cache_ttl && c.max_ttl == d.max_ttl && c.neg_ttl == d.neg_ttl,
        c.no_neg_cache == d.options.no_neg && c.check_rebind == d.options.no_rebind && c.local_rebind_ok == d.options.local_rebind,
        c.dnssec_valid == d.options.dnssec_valid && c.dnssec_proxy == d.options.dnssec_proxy,
        c.ftabsize >= 1 && c.randport_limit >= 1,
        d.ftabsize >= 1 ==> c.ftabsize == d.ftabsize,
        d.randport_limit >= 1 ==> c.randport_limit == d.randport_limit,
        c.port == d.port,
        forall|i: int| 0 <= i < d.rrlist_filter@.len() ==> #[trigger] c.filter_rr@[i] == d.rrlist_filter@[i].rr,
        forall|i: int| 0 <= i < d.rrlist_cache@.len() ==> #[trigger] c.cache_rr@[i] == d.rrlist_cache@[i].rr,
        c.bogus_addr@ == d.bogus_addr@ && c.ignore_addr@ == d.ignore_addr@,
        views(c.no_rebind@) == views(d.no_rebind@),
        c.loop_detect == d.options.loop_detect && c.conntrack == d.options.conntrack && c.client_subnet == d.options.client_subnet,
{
}

/// What servers are told of a network is the length of its prefix, within what a byte holds, and an address only where one is to
/// stand for all.
pub proof fn law_network_told_to_servers(n: MySubnet)
    ensures
        subnet_opt(None) is None,
        subnet_opt(Some(n)) matches Some(o) && {
            &&& 0 <= n.mask <= 255 ==> o.mask == n.mask
            &&& n.mask < 0 ==> o.mask == 0
            &&& n.mask > 255 ==> o.mask == 255
            &&& !n.addr_used ==> o.const_addr is None
            &&& n.addr_used ==> (match n.addr {
                SockAddr::V4 { ip, .. } => o.const_addr == Some(IpAddress::V4(ip)),
                SockAddr::V6 { ip, .. } => o.const_addr == Some(IpAddress::V6(ip)),
            })
        },
{
}

/// Local data holds every record that is configured, and the records on the daemon itself unless these are off.
pub proof fn law_local_records(d: Daemon, l: LocalData, i: int)
    requires
        local_data_of(d, l),
    ensures
        0 <= i < d.txt@.len() ==> all_views(l.txt_records@)[i] == d.txt@[i]@,
        l.txt_records@.len() == d.txt@.len() + (if d.options.no_ident {
            0int
        } else {
            5
        }),
        !d.options.no_ident && 0 <= i < 5 ==> {
            let r = all_views(l.txt_records@)[d.txt@.len() + i];
            r.class == 3 && r.stat == i + 1
        },
        all_views(l.rr_records@) == all_views(d.rr@) && all_views(l.mx_records@) == all_views(d.mxnames@) && all_views(l.ptr_records@)
            == all_views(d.ptr@) && all_views(l.host_records@) == all_views(d.host_records@) && all_views(l.cnames@) == all_views(d.cnames@)
            && all_views(l.naptr_records@) == all_views(d.naptr@) && all_views(l.int_names@) == all_views(d.int_names@),
        l.local_ttl == d.local_ttl && l.nodots_local == d.options.nodots_local && l.cachesize == d.cachesize,
{
    assert(all_views(l.txt_records@).len() == l.txt_records@.len());
    assert(all_views(d.txt@).len() == d.txt@.len());
    if 0 <= i < d.txt@.len() {
        assert(all_views(d.txt@)[i] == d.txt@[i]@);
    }
    if !d.options.no_ident && 0 <= i < 5 {
        let all = all_views(d.txt@) + stat_records();
        assert(all[d.txt@.len() + i] == stat_records()[i]);
    }
}

/// The daemon runs as the configured user with that user's id. Its group is the configured one; without one the usual group
/// where there is one, else the primary group of the user.
pub proof fn law_whom_the_daemon_runs_as(user: Seq<char>, uid: u32, ugid: u32, group: Option<Seq<char>>, acc: Accounts)
    requires
        acc.user == (UserLookup::Found { uid, gid: ugid }),
    ensures
        ({
            let id = resolved(Some(user), group, acc);
            &&& id.username == Some(user) && id.uid == Some(uid) && id.user_gid == Some(ugid)
            &&& group is Some && acc.group is Found ==> id.gid == Some(acc.group->Found_gid) && id.groupname == group
            &&& group is None && acc.usual_group is Found ==> id.gid == Some(acc.usual_group->Found_gid) && id.groupname == Some(
                acc.usual_group->name@,
            )
            &&& group is None && !(acc.usual_group is Found) ==> id.gid == Some(ugid)
        }),
        resolved(None, group, acc).uid is None && resolved(None, group, acc).user_gid is None,
{
}

/// A configured name that is not known, or that cannot be looked up, is an error; names that were found are none.
pub proof fn law_unknown_names_are_errors(user: Option<Seq<char>>, group: Option<Seq<char>>, acc: Accounts)
    ensures
        user is Some && !(acc.user is Found) ==> resolve_error(user, group, acc) is Some,
        group is Some && !(acc.group is Found) ==> resolve_error(user, group, acc) is Some,
        (user is None || acc.user is Found) && (group is None || acc.group is Found) ==> resolve_error(user, group, acc) is None,
        user is Some && acc.user is Unknown ==> resolve_error(user, group, acc) == Some("unknown user or group: "@ + user->0),
        (user is None || acc.user is Found) && group is Some && acc.group is Unknown ==> resolve_error(user, group, acc) == Some(
            "unknown user or group: "@ + group->0,
        ),
{
}

/// The capabilities that are kept: with DHCP that for the ARP cache, and that for raw sockets unless addresses are not probed;
/// that for raw sockets also where some server, whichever it is, is reached through an interface. None where none of this holds.
pub proof fn law_capabilities_that_are_kept(d: Daemon, i: int)
    ensures
        caps_for(d).net_admin <==> d.dhcp@.len() > 0,
        d.dhcp@.len() > 0 && !d.options.no_ping ==> caps_for(d).net_raw,
        0 <= i < d.servers@.len() && d.servers@[i].interface@.len() > 0 ==> caps_for(d).net_raw,
        (d.dhcp@.len() == 0 || d.options.no_ping) && (forall|j: int| 0 <= j < d.servers@.len() ==> (#[trigger] d.servers@[j]).interface@.len()
            == 0) ==> !caps_for(d).net_raw,
        !caps_for(d).net_bind_service,
{
}

/// A process that is root and is given a user that is not takes on that user's id, once, and keeps the capabilities when it does;
/// its last step leaves it these and not the one to change the user. One that already runs as it should, and is not root, does
/// nothing.
pub proof fn law_privileges_are_dropped(uid: u32, gid: u32, run_as: Identity, caps: NeededCaps, u: u32)
    requires
        run_as.uid == Some(u),
        u != 0,
    ensures
        ({
            let s = priv_steps(uid, gid, run_as, caps);
            &&& uid == 0 || uid != u || (run_as.gid is Some && run_as.gid->0 != gid) ==> {
                &&& s.len() >= 4
                &&& s[s.len() - 4] == (PrivStep::SetCaps { keep: caps, setuid: true })
                &&& s[s.len() - 3] is KeepCaps
                &&& s[s.len() - 2] == PrivStep::SetUid(u)
                &&& s.last() == (PrivStep::SetCaps { keep: caps, setuid: false })
                &&& run_as.gid is Some ==> s.len() == 6
                &&& run_as.gid is None ==> s.len() == 4
            }
            &&& uid != 0 && uid == u && (run_as.gid is None || run_as.gid->0 == gid) ==> s.len() == 0
        }),
{
}

} // verus!
