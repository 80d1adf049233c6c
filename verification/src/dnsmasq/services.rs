//! The services of the daemon: in which order they are started, and how they are stopped.

use crate::daemon::Daemon;
use crate::dhcp_types::DhcpContext;
use crate::dns_protocol::NAMESERVER_PORT;
use crate::dnsmasq::listen::{
    addrs_of, iface_check_config, names_of, some_unnamed, IfaceCheckConfig,
};
use crate::dnsmasq::startup::DhcpDaemonRuntime;
use crate::dnsmasq::RunResult;
use crate::dup::{all_views, dup_all};
use crate::records::{BridgeConfig, Iname, RaInterface};
use crate::text::views;
use vstd::prelude::*;

verus! {

/// The name on the D-Bus where none is configured.
pub const DNSMASQ_DBUS_INTERFACE: &'static str = "uk.org.thekelleys.dnsmasq";

/// The services that run beside each other.
#[derive(Debug, Clone, Copy, PartialEq, Eq, Structural)]
pub enum Task {
    Dbus,
    Inotify,
    Ubus,
    Forward,
    Arp,
    Tftp,
    Dhcp,
    Dhcp6,
    Netlink,
    Radv,
}

/// What is done at startup, one after the other.
#[derive(Debug, Clone, Copy, PartialEq, Eq, Structural)]
pub enum Step {
    /// Ask the servers whether they ask back.
    SendLoopProbes,
    OpenDump,
    /// Bind the sockets, where that was not done before.
    BindListeners,
    /// Take over the sockets for DNS, of which there must be one: `check_dns_sockets` tells.
    AdoptDns,
    /// Read the directories that are watched.
    WatchDirectories,
    AdoptTftp,
    BindDhcp,
    BindDhcpDevice,
    BindDhcp6,
    OpenRadv,
    CatchSignals,
    /// Start a service.
    Start(Task),
}

/// How services are stopped.
#[derive(Debug, Clone, Copy, PartialEq, Eq, Structural)]
pub enum StopStep {
    /// Stop it at once.
    Abort(Task),
    /// Ask it to end.
    Signal(Task),
    /// Wait until it has ended.
    Wait(Task),
}

/// What is wanted at startup.
#[derive(Debug, Clone, Copy, PartialEq, Eq, Structural)]
pub struct Plan {
    pub loop_probes: bool,
    pub dump: bool,
    /// The sockets are not bound yet.
    pub bind: bool,
    pub dbus: bool,
    pub ubus: bool,
    /// There are sockets for TFTP.
    pub tftp: bool,
    pub dhcp: bool,
    /// The socket for DHCP is bound to a device, which was not done before.
    pub dhcp_device: bool,
    pub dhcp6: bool,
    /// The addresses of the network can be watched.
    pub netlink: bool,
    pub radv: bool,
}

/// Which services run.
#[derive(Debug, Clone, Copy, PartialEq, Eq, Structural)]
pub struct Running {
    pub dbus: bool,
    pub inotify: bool,
    pub ubus: bool,
    pub forward: bool,
    pub arp: bool,
    pub tftp: bool,
    pub dhcp: bool,
    pub dhcp6: bool,
    pub netlink: bool,
    pub radv: bool,
}

impl Running {
    /// Whether a service runs.
    pub open spec fn has(self, t: Task) -> bool {
        match t {
            Task::Dbus => self.dbus,
            Task::Inotify => self.inotify,
            Task::Ubus => self.ubus,
            Task::Forward => self.forward,
            Task::Arp => self.arp,
            Task::Tftp => self.tftp,
            Task::Dhcp => self.dhcp,
            Task::Dhcp6 => self.dhcp6,
            Task::Netlink => self.netlink,
            Task::Radv => self.radv,
        }
    }

    /// Nothing runs.
    pub fn none() -> (r: Self)
        ensures
            forall|t: Task| !(#[trigger] r.has(t)),
    {
        Running {
            dbus: false,
            inotify: false,
            ubus: false,
            forward: false,
            arp: false,
            tftp: false,
            dhcp: false,
            dhcp6: false,
            netlink: false,
            radv: false,
        }
    }

    /// One more service runs.
    pub fn start(&mut self, task: Task)
        ensures
            forall|t: Task| #[trigger] final(self).has(t) == (t == task || old(self).has(t)),
    {
        match task {
            Task::Dbus => {
                self.dbus = true;
            },
            Task::Inotify => {
                self.inotify = true;
            },
            Task::Ubus => {
                self.ubus = true;
            },
            Task::Forward => {
                self.forward = true;
            },
            Task::Arp => {
                self.arp = true;
            },
            Task::Tftp => {
                self.tftp = true;
            },
            Task::Dhcp => {
                self.dhcp = true;
            },
            Task::Dhcp6 => {
                self.dhcp6 = true;
            },
            Task::Netlink => {
                self.netlink = true;
            },
            Task::Radv => {
                self.radv = true;
            },
        }
    }

    /// Whether a service runs.
    pub fn runs(&self, t: Task) -> (r: bool)
        ensures
            r == self.has(t),
    {
        match t {
            Task::Dbus => self.dbus,
            Task::Inotify => self.inotify,
            Task::Ubus => self.ubus,
            Task::Forward => self.forward,
            Task::Arp => self.arp,
            Task::Tftp => self.tftp,
            Task::Dhcp => self.dhcp,
            Task::Dhcp6 => self.dhcp6,
            Task::Netlink => self.netlink,
            Task::Radv => self.radv,
        }
    }
}

/// What is wanted at startup. `given` says whether the sockets were bound before, `dhcp_given` whether that
/// for DHCP was among them.
pub open spec fn plan_of(
    d: Daemon,
    given: bool,
    tftp_sockets: nat,
    dhcp: Option<DhcpDaemonRuntime>,
    dhcp_given: bool,
    dhcp6: bool,
    netlink: bool,
) -> Plan {
    Plan {
        loop_probes: d.options.loop_detect && d.port != 0,
        dump: d.dump_file is Some,
        bind: !given,
        dbus: d.options.dbus,
        ubus: d.options.ubus,
        tftp: tftp_sockets > 0,
        dhcp: dhcp is Some,
        dhcp_device: dhcp is Some && dhcp->0.bind_interface is Some && !dhcp_given,
        dhcp6,
        netlink,
        radv: d.doing_ra,
    }
}

/// What is wanted at startup.
pub fn startup_plan(
    daemon: &Daemon,
    given: bool,
    tftp_sockets: usize,
    dhcp: &Option<DhcpDaemonRuntime>,
    dhcp_given: bool,
    dhcp6: bool,
    netlink: bool,
) -> (r: Plan)
    ensures
        r == plan_of(*daemon, given, tftp_sockets as nat, *dhcp, dhcp_given, dhcp6, netlink),
{
    let (has_dhcp, device): (bool, bool) = match dhcp {
        Some(rt) => (true, rt.bind_interface.is_some() && !dhcp_given),
        None => (false, false),
    };
    Plan {
        loop_probes: daemon.options.loop_detect && daemon.port != 0,
        dump: daemon.dump_file.is_some(),
        bind: !given,
        dbus: daemon.options.dbus,
        ubus: daemon.options.ubus,
        tftp: tftp_sockets > 0,
        dhcp: has_dhcp,
        dhcp_device: device,
        dhcp6,
        netlink,
        radv: daemon.doing_ra,
    }
}

/// A step where it is wanted.
#[verifier::opaque]
pub open spec fn only<T>(wanted: bool, step: T) -> Seq<T> {
    if wanted {
        seq![step]
    } else {
        seq![]
    }
}

/// The steps of startup, in order.
pub open spec fn steps_of(p: Plan) -> Seq<Step> {
    only(p.loop_probes, Step::SendLoopProbes)
        + only(p.dump, Step::OpenDump)
        + only(p.bind, Step::BindListeners)
        + only(true, Step::AdoptDns)
        + only(p.dbus, Step::Start(Task::Dbus))
        + only(true, Step::WatchDirectories)
        + only(true, Step::Start(Task::Inotify))
        + only(p.ubus, Step::Start(Task::Ubus))
        + only(true, Step::Start(Task::Forward))
        + only(true, Step::Start(Task::Arp))
        + only(p.tftp, Step::AdoptTftp)
        + only(p.tftp, Step::Start(Task::Tftp))
        + only(p.dhcp, Step::BindDhcp)
        + only(p.dhcp && p.dhcp_device, Step::BindDhcpDevice)
        + only(p.dhcp, Step::Start(Task::Dhcp))
        + only(p.dhcp6, Step::BindDhcp6)
        + only(p.dhcp6, Step::Start(Task::Dhcp6))
        + only(p.netlink, Step::Start(Task::Netlink))
        + only(p.radv, Step::OpenRadv)
        + only(p.radv, Step::Start(Task::Radv))
        + only(true, Step::CatchSignals)
}

/// Adds a step where it is wanted.
fn push_step(v: &mut Vec<Step>, wanted: bool, step: Step)
    ensures
        final(v)@ == old(v)@ + only(wanted, step),
{
    if wanted {
        v.push(step);
    }
    proof {
        reveal(only);
    }
    assert(v@ =~= old(v)@ + only(wanted, step));
}

/// The steps of startup, in order.
pub fn startup_steps(p: &Plan) -> (r: Vec<Step>)
    ensures
        r@ == steps_of(*p),
{
    let mut v: Vec<Step> = Vec::new();
    push_step(&mut v, p.loop_probes, Step::SendLoopProbes);
    assert(v@ =~= only(p.loop_probes, Step::SendLoopProbes));
    push_step(&mut v, p.dump, Step::OpenDump);
    push_step(&mut v, p.bind, Step::BindListeners);
    push_step(&mut v, true, Step::AdoptDns);
    push_step(&mut v, p.dbus, Step::Start(Task::Dbus));
    push_step(&mut v, true, Step::WatchDirectories);
    push_step(&mut v, true, Step::Start(Task::Inotify));
    push_step(&mut v, p.ubus, Step::Start(Task::Ubus));
    push_step(&mut v, true, Step::Start(Task::Forward));
    push_step(&mut v, true, Step::Start(Task::Arp));
    push_step(&mut v, p.tftp, Step::AdoptTftp);
    push_step(&mut v, p.tftp, Step::Start(Task::Tftp));
    push_step(&mut v, p.dhcp, Step::BindDhcp);
    push_step(&mut v, p.dhcp && p.dhcp_device, Step::BindDhcpDevice);
    push_step(&mut v, p.dhcp, Step::Start(Task::Dhcp));
    push_step(&mut v, p.dhcp6, Step::BindDhcp6);
    push_step(&mut v, p.dhcp6, Step::Start(Task::Dhcp6));
    push_step(&mut v, p.netlink, Step::Start(Task::Netlink));
    push_step(&mut v, p.radv, Step::OpenRadv);
    push_step(&mut v, p.radv, Step::Start(Task::Radv));
    push_step(&mut v, true, Step::CatchSignals);
    v
}

/// A service is stopped at once, where it runs.
pub open spec fn abort(r: Running, t: Task) -> Seq<StopStep> {
    only(r.has(t), StopStep::Abort(t))
}

/// A service is asked to end and then stopped, where it runs.
pub open spec fn signal_abort(r: Running, t: Task) -> Seq<StopStep> {
    only(r.has(t), StopStep::Signal(t)) + only(r.has(t), StopStep::Abort(t))
}

/// A service is asked to end and waited for, where it runs.
pub open spec fn signal_wait(r: Running, t: Task) -> Seq<StopStep> {
    only(r.has(t), StopStep::Signal(t)) + only(r.has(t), StopStep::Wait(t))
}

/// What is stopped where a step of startup fails.
pub open spec fn stops_after(step: Step, r: Running) -> Seq<StopStep> {
    match step {
        Step::AdoptTftp => abort(r, Task::Forward) + abort(r, Task::Arp),
        Step::BindDhcp | Step::BindDhcpDevice => abort(r, Task::Forward) + abort(r, Task::Arp) + abort(r, Task::Tftp),
        Step::BindDhcp6 => abort(r, Task::Forward) + abort(r, Task::Arp) + abort(r, Task::Tftp) + signal_abort(
            r,
            Task::Dhcp,
        ),
        Step::OpenRadv => abort(r, Task::Forward) + signal_abort(r, Task::Dhcp) + signal_abort(r, Task::Dhcp6),
        Step::CatchSignals => signal_abort(r, Task::Dhcp) + signal_abort(r, Task::Dhcp6) + signal_abort(r, Task::Radv)
            + abort(r, Task::Netlink) + abort(r, Task::Inotify) + abort(r, Task::Dbus) + abort(r, Task::Tftp) + abort(
            r,
            Task::Ubus,
        ) + abort(r, Task::Forward) + abort(r, Task::Arp),
        _ => seq![],
    }
}

/// What is stopped at the end.
pub open spec fn stops_at_end(r: Running) -> Seq<StopStep> {
    abort(r, Task::Forward) + abort(r, Task::Tftp) + abort(r, Task::Netlink) + abort(r, Task::Inotify) + abort(
        r,
        Task::Dbus,
    ) + abort(r, Task::Arp) + abort(r, Task::Ubus) + signal_wait(r, Task::Dhcp) + signal_wait(r, Task::Dhcp6)
        + signal_wait(r, Task::Radv)
}

/// Stops a service at once, where it runs.
fn push_abort(v: &mut Vec<StopStep>, r: &Running, t: Task)
    ensures
        final(v)@ == old(v)@ + abort(*r, t),
{
    if r.runs(t) {
        v.push(StopStep::Abort(t));
    }
    proof {
        reveal(only);
    }
    assert(v@ =~= old(v)@ + abort(*r, t));
}

/// Asks a service to end and stops it, where it runs.
fn push_signal_abort(v: &mut Vec<StopStep>, r: &Running, t: Task)
    ensures
        final(v)@ == old(v)@ + signal_abort(*r, t),
{
    if r.runs(t) {
        v.push(StopStep::Signal(t));
        v.push(StopStep::Abort(t));
    }
    proof {
        reveal(only);
    }
    assert(v@ =~= old(v)@ + signal_abort(*r, t));
}

/// Asks a service to end and waits for it, where it runs.
fn push_signal_wait(v: &mut Vec<StopStep>, r: &Running, t: Task)
    ensures
        final(v)@ == old(v)@ + signal_wait(*r, t),
{
    if r.runs(t) {
        v.push(StopStep::Signal(t));
        v.push(StopStep::Wait(t));
    }
    proof {
        reveal(only);
    }
    assert(v@ =~= old(v)@ + signal_wait(*r, t));
}

/// What to stop where a step of startup fails. The daemon then ends with an error.
pub fn stop_after_failure(step: Step, running: &Running) -> (r: Vec<StopStep>)
    ensures
        r@ == stops_after(step, *running),
{
    let mut v: Vec<StopStep> = Vec::new();
    match step {
        Step::AdoptTftp => {
            push_abort(&mut v, running, Task::Forward);
            push_abort(&mut v, running, Task::Arp);
        },
        Step::BindDhcp | Step::BindDhcpDevice => {
            push_abort(&mut v, running, Task::Forward);
            push_abort(&mut v, running, Task::Arp);
            push_abort(&mut v, running, Task::Tftp);
        },
        Step::BindDhcp6 => {
            push_abort(&mut v, running, Task::Forward);
            push_abort(&mut v, running, Task::Arp);
            push_abort(&mut v, running, Task::Tftp);
            push_signal_abort(&mut v, running, Task::Dhcp);
        },
        Step::OpenRadv => {
            push_abort(&mut v, running, Task::Forward);
            push_signal_abort(&mut v, running, Task::Dhcp);
            push_signal_abort(&mut v, running, Task::Dhcp6);
        },
        Step::CatchSignals => {
            push_signal_abort(&mut v, running, Task::Dhcp);
            push_signal_abort(&mut v, running, Task::Dhcp6);
            push_signal_abort(&mut v, running, Task::Radv);
            push_abort(&mut v, running, Task::Netlink);
            push_abort(&mut v, running, Task::Inotify);
            push_abort(&mut v, running, Task::Dbus);
            push_abort(&mut v, running, Task::Tftp);
            push_abort(&mut v, running, Task::Ubus);
            push_abort(&mut v, running, Task::Forward);
            push_abort(&mut v, running, Task::Arp);
        },
        _ => {},
    }
    assert(v@ =~= stops_after(step, *running));
    v
}

/// What to stop at the end.
pub fn stop_at_end(running: &Running) -> (r: Vec<StopStep>)
    ensures
        r@ == stops_at_end(*running),
{
    let mut v: Vec<StopStep> = Vec::new();
    push_abort(&mut v, running, Task::Forward);
    push_abort(&mut v, running, Task::Tftp);
    push_abort(&mut v, running, Task::Netlink);
    push_abort(&mut v, running, Task::Inotify);
    push_abort(&mut v, running, Task::Dbus);
    push_abort(&mut v, running, Task::Arp);
    push_abort(&mut v, running, Task::Ubus);
    push_signal_wait(&mut v, running, Task::Dhcp);
    push_signal_wait(&mut v, running, Task::Dhcp6);
    push_signal_wait(&mut v, running, Task::Radv);
    assert(v@ =~= stops_at_end(*running));
    v
}

/// The signals that are caught.
#[derive(Debug, Clone, Copy, PartialEq, Eq, Structural)]
pub enum Caught {
    Terminate,
    Hangup,
    Interrupt,
}

/// What a signal does: the daemon ends, or it goes on after the configuration is read again.
pub fn on_signal(signal: Caught) -> (r: Option<RunResult>)
    ensures
        r == match signal {
            Caught::Terminate | Caught::Interrupt => Some(RunResult::Clean),
            Caught::Hangup => None,
        },
{
    match signal {
        Caught::Terminate | Caught::Interrupt => Some(RunResult::Clean),
        Caught::Hangup => None,
    }
}

/// The name of the daemon on the D-Bus.
pub fn dbus_service_name(daemon: &Daemon) -> (r: String)
    ensures
        r@ == match daemon.dbus_name {
            Some(n) => n@,
            None => DNSMASQ_DBUS_INTERFACE@,
        },
{
    match &daemon.dbus_name {
        Some(n) => n.clone(),
        None => String::from_str(DNSMASQ_DBUS_INTERFACE),
    }
}

/// What router advertisements are sent with.
#[derive(Debug)]
pub struct RadvConfig {
    pub contexts: Vec<DhcpContext>,
    pub ra_interfaces: Vec<RaInterface>,
    pub dhcp_except: Vec<Iname>,
    pub bridges: Vec<BridgeConfig>,
    pub opt_ra: bool,
    /// The daemon answers DNS queries where they are sent to.
    pub is_dns_server: bool,
    /// Solicitations are not logged.
    pub quiet_ra: bool,
    pub iface_check: IfaceCheckConfig,
}

/// What router advertisements are sent with, where there are any. `contexts` are the ranges that
/// `served_contexts` gives.
pub fn daemon_radv_config(daemon: &Daemon, contexts: Vec<DhcpContext>) -> (r: Option<RadvConfig>)
    ensures
        r is Some <==> daemon.doing_ra,
        r matches Some(c) ==> {
            &&& c.contexts == contexts
            &&& all_views(c.ra_interfaces@) == all_views(daemon.ra_interfaces@)
            &&& all_views(c.dhcp_except@) == all_views(daemon.dhcp_except@)
            &&& all_views(c.bridges@) == all_views(daemon.bridges@)
            &&& c.opt_ra == daemon.options.ra
            &&& c.is_dns_server == (daemon.port == NAMESERVER_PORT)
            &&& c.quiet_ra == daemon.options.quiet_ra
            &&& views(c.iface_check.allow@) == names_of(all_views(daemon.if_names@))
            &&& views(c.iface_check.deny@) == names_of(all_views(daemon.if_except@))
            &&& c.iface_check.addrs@ == addrs_of(all_views(daemon.if_addrs@))
            &&& c.iface_check.unnamed_iface == some_unnamed(all_views(daemon.if_names@))
        },
{
    if !daemon.doing_ra {
        return None;
    }
    Some(
        RadvConfig {
            contexts,
            ra_interfaces: dup_all(&daemon.ra_interfaces),
            dhcp_except: dup_all(&daemon.dhcp_except),
            bridges: dup_all(&daemon.bridges),
            opt_ra: daemon.options.ra,
            is_dns_server: daemon.port == NAMESERVER_PORT,
            quiet_ra: daemon.options.quiet_ra,
            iface_check: iface_check_config(daemon),
        },
    )
}

/// Whether some range has names for the addresses that hosts make of their own.
pub open spec fn any_ra_name(ctxs: Seq<DhcpContext>) -> bool {
    exists|i: int| 0 <= i < ctxs.len() && (#[trigger] ctxs[i]).flags.ra_name
}

/// Whether echo replies are wanted: they confirm addresses that hosts made of their own.
pub fn wants_echo_replies(contexts: &Vec<DhcpContext>) -> (r: bool)
    ensures
        r == any_ra_name(contexts@),
{
    let mut i: usize = 0;
    while i < contexts.len()
        invariant
            i <= contexts@.len(),
            forall|j: int| 0 <= j < i ==> !(#[trigger] contexts@[j]).flags.ra_name,
        decreases contexts@.len() - i,
    {
        if contexts[i].flags.ra_name {
            return true;
        }
        i += 1;
    }
    false
}

/// What is in two sequences after each other is in one of them.
broadcast proof fn lemma_contains<T>(a: Seq<T>, b: Seq<T>, x: T)
    ensures
        #[trigger] (a + b).contains(x) == (a.contains(x) || b.contains(x)),
{
    let s = a + b;
    if a.contains(x) {
        let i = choose|i: int| 0 <= i < a.len() && a[i] == x;
        assert(s[i] == x);
    }
    if b.contains(x) {
        let i = choose|i: int| 0 <= i < b.len() && b[i] == x;
        assert(s[a.len() + i] == x);
    }
    if s.contains(x) {
        let i = choose|i: int| 0 <= i < s.len() && s[i] == x;
        if i < a.len() {
            assert(a[i] == x);
        } else {
            assert(b[i - a.len()] == x);
        }
    }
}

/// What is in a sequence that holds a step where it is wanted.
broadcast proof fn lemma_only<T>(wanted: bool, step: T, x: T)
    ensures
        #[trigger] only(wanted, step).contains(x) == (wanted && x == step),
{
    reveal(only);
    if wanted {
        assert(only(wanted, step)[0] == step);
    }
}

/// Whether a service is planned.
pub open spec fn planned(p: Plan, t: Task) -> bool {
    match t {
        Task::Dbus => p.dbus,
        Task::Inotify => true,
        Task::Ubus => p.ubus,
        Task::Forward => true,
        Task::Arp => true,
        Task::Tftp => p.tftp,
        Task::Dhcp => p.dhcp,
        Task::Dhcp6 => p.dhcp6,
        Task::Netlink => p.netlink,
        Task::Radv => p.radv,
    }
}

/// Startup starts the services that are planned, and no others.
pub proof fn law_planned_services_start(p: Plan, t: Task)
    ensures
        steps_of(p).contains(Step::Start(t)) == planned(p, t),
{
    broadcast use {lemma_contains, lemma_only};

}

/// At the end every service that runs is stopped or waited for.
pub proof fn law_end_stops_all(r: Running, t: Task)
    requires
        r.has(t),
    ensures
        stops_at_end(r).contains(StopStep::Abort(t)) || stops_at_end(r).contains(StopStep::Wait(t)),
{
    broadcast use {lemma_contains, lemma_only};

}

/// Where signals cannot be caught, every service that runs is stopped.
pub proof fn law_failed_signals_stop_all(r: Running, t: Task)
    requires
        r.has(t),
    ensures
        stops_after(Step::CatchSignals, r).contains(StopStep::Abort(t)),
{
    broadcast use {lemma_contains, lemma_only};

}

/// The service that a step of stopping is about.
pub open spec fn stopped_task(s: StopStep) -> Task {
    match s {
        StopStep::Abort(t) => t,
        StopStep::Signal(t) => t,
        StopStep::Wait(t) => t,
    }
}

/// Only services that run are stopped, whether startup fails or the daemon ends.
pub proof fn law_only_running_are_stopped(step: Step, r: Running, s: StopStep)
    requires
        stops_after(step, r).contains(s) || stops_at_end(r).contains(s),
    ensures
        r.has(stopped_task(s)),
{
    broadcast use {lemma_contains, lemma_only};

}

/// Whether each service that is waited for was asked to end just before.
pub open spec fn waits_are_asked(s: Seq<StopStep>) -> bool {
    forall|i: int|
        0 <= i < s.len() && #[trigger] s[i] is Wait ==> 0 < i && s[i - 1] == StopStep::Signal(stopped_task(s[i]))
}

/// Two such sequences after each other are one.
broadcast proof fn lemma_asked(a: Seq<StopStep>, b: Seq<StopStep>)
    requires
        waits_are_asked(a),
        waits_are_asked(b),
    ensures
        #[trigger] waits_are_asked(a + b),
{
    let s = a + b;
    assert forall|i: int| 0 <= i < s.len() && #[trigger] s[i] is Wait implies 0 < i && s[i - 1] == StopStep::Signal(
        stopped_task(s[i]),
    ) by {
        if i < a.len() {
            assert(s[i] == a[i]);
            assert(s[i - 1] == a[i - 1]);
        } else {
            assert(s[i] == b[i - a.len()]);
            assert(s[i - 1] == b[i - a.len() - 1]);
        }
    }
}

/// A service that is stopped at once is not waited for.
broadcast proof fn lemma_abort_asked(r: Running, t: Task)
    ensures
        #[trigger] waits_are_asked(abort(r, t)),
{
    reveal(only);
}

/// A service that is asked to end and waited for is asked before.
broadcast proof fn lemma_signal_wait_asked(r: Running, t: Task)
    ensures
        #[trigger] waits_are_asked(signal_wait(r, t)),
{
    reveal(only);
    let s = signal_wait(r, t);
    if r.has(t) {
        assert(s =~= seq![StopStep::Signal(t), StopStep::Wait(t)]);
    }
}

/// At the end each service that is waited for was asked to end just before.
pub proof fn law_waits_are_asked(r: Running)
    ensures
        waits_are_asked(stops_at_end(r)),
{
    broadcast use {lemma_asked, lemma_abort_asked, lemma_signal_wait_asked};

}

} // verus!
