//! What the daemon listens on, and through which interfaces.

use super::forwarding::{ip_of, sock_ip};
use crate::addr::{ip4_text, ip6_text, IpAddress, SockAddr};
use crate::daemon::Daemon;
use crate::dns_protocol::TFTP_PORT;
use crate::dhcp6::live::{class_of, classify_addr6, Addr6Class};
use crate::dnsmasq::RunResult;
use crate::dup::{all_views, dup_text, opt_text, Dup};
use crate::error::DnsmasqError;
use crate::records::{Iname, InameView};
use crate::text::{decimal, plus, to_decimal, views};
use vstd::prelude::*;

verus! {

/// Which interfaces are served.
#[derive(Debug)]
pub struct IfaceCheckConfig {
    /// The names of interfaces that are served.
    pub allow: Vec<String>,
    /// The names of interfaces that are not served.
    pub deny: Vec<String>,
    /// The addresses that are served.
    pub addrs: Vec<IpAddress>,
    /// An interface without a name is among those that are served: only the host itself is.
    pub unnamed_iface: bool,
}

/// The names of interfaces that have one.
pub open spec fn names_of(v: Seq<InameView>) -> Seq<Seq<char>>
    decreases v.len(),
{
    if v.len() == 0 {
        seq![]
    } else {
        match v.last().name {
            Some(n) => names_of(v.drop_last()).push(n),
            None => names_of(v.drop_last()),
        }
    }
}

/// The addresses of interfaces that have one.
pub open spec fn addrs_of(v: Seq<InameView>) -> Seq<IpAddress>
    decreases v.len(),
{
    if v.len() == 0 {
        seq![]
    } else {
        match v.last().addr {
            Some(a) => addrs_of(v.drop_last()).push(ip_of(a)),
            None => addrs_of(v.drop_last()),
        }
    }
}

/// Whether some interface has no name.
pub open spec fn some_unnamed(v: Seq<InameView>) -> bool {
    exists|i: int| 0 <= i < v.len() && (#[trigger] v[i]).name is None
}

/// The names of interfaces that have one.
fn collect_names(v: &Vec<Iname>) -> (r: Vec<String>)
    ensures
        views(r@) == names_of(all_views(v@)),
{
    let ghost all = all_views(v@);
    let mut r: Vec<String> = Vec::new();
    let mut i: usize = 0;
    assert(views(r@) =~= names_of(all.take(0)));
    while i < v.len()
        invariant
            i <= v@.len(),
            all == all_views(v@),
            views(r@) == names_of(all.take(i as int)),
        decreases v@.len() - i,
    {
        proof {
            assert(all.take(i + 1).drop_last() =~= all.take(i as int));
            assert(all.take(i + 1).last() == v@[i as int]@);
        }
        if let Some(n) = &v[i].name {
            let n: String = n.clone();
            assert(views(r@.push(n)) =~= views(r@).push(n@));
            r.push(n);
        }
        i += 1;
    }
    assert(all.take(all.len() as int) =~= all);
    r
}

/// The addresses of interfaces that have one.
fn collect_addrs(v: &Vec<Iname>) -> (r: Vec<IpAddress>)
    ensures
        r@ == addrs_of(all_views(v@)),
{
    let ghost all = all_views(v@);
    let mut r: Vec<IpAddress> = Vec::new();
    let mut i: usize = 0;
    assert(r@ =~= addrs_of(all.take(0)));
    while i < v.len()
        invariant
            i <= v@.len(),
            all == all_views(v@),
            r@ == addrs_of(all.take(i as int)),
        decreases v@.len() - i,
    {
        proof {
            assert(all.take(i + 1).drop_last() =~= all.take(i as int));
            assert(all.take(i + 1).last() == v@[i as int]@);
        }
        if let Some(a) = &v[i].addr {
            r.push(sock_ip(a));
        }
        i += 1;
    }
    assert(all.take(all.len() as int) =~= all);
    r
}

/// Whether some interface has no name.
fn find_unnamed(v: &Vec<Iname>) -> (r: bool)
    ensures
        r == some_unnamed(all_views(v@)),
{
    let ghost all = all_views(v@);
    let mut i: usize = 0;
    while i < v.len()
        invariant
            i <= v@.len(),
            all == all_views(v@),
            forall|j: int| 0 <= j < i ==> (#[trigger] all[j]).name is Some,
        decreases v@.len() - i,
    {
        assert(all[i as int] == v@[i as int]@);
        if v[i].name.is_none() {
            return true;
        }
        i += 1;
    }
    false
}

/// Takes out of the configuration which interfaces are served.
pub fn iface_check_config(daemon: &Daemon) -> (c: IfaceCheckConfig)
    ensures
        views(c.allow@) == names_of(all_views(daemon.if_names@)),
        views(c.deny@) == names_of(all_views(daemon.if_except@)),
        c.addrs@ == addrs_of(all_views(daemon.if_addrs@)),
        c.unnamed_iface == some_unnamed(all_views(daemon.if_names@)),
{
    IfaceCheckConfig {
        allow: collect_names(&daemon.if_names),
        deny: collect_names(&daemon.if_except),
        addrs: collect_addrs(&daemon.if_addrs),
        unnamed_iface: find_unnamed(&daemon.if_names),
    }
}

/// An interface by its name, with what DHCP is not allowed on it.
#[derive(Debug)]
pub struct NamedFlags {
    pub name: String,
    pub flags: u32,
}

impl View for NamedFlags {
    type V = (Seq<char>, u32);

    open spec fn view(&self) -> (Seq<char>, u32) {
        (self.name@, self.flags)
    }
}

/// An interface whose zone the daemon has authority over.
#[derive(Debug)]
pub struct AuthInterface {
    pub name: Option<String>,
    pub addr: Option<IpAddress>,
    pub flags: u32,
}

impl View for AuthInterface {
    type V = (Option<Seq<char>>, Option<IpAddress>, u32);

    open spec fn view(&self) -> (Option<Seq<char>>, Option<IpAddress>, u32) {
        (opt_text(self.name), self.addr, self.flags)
    }
}

/// What is allowed on which interface.
#[derive(Debug)]
pub struct IfaceAllowedConfig {
    pub dhcp_except: Vec<NamedFlags>,
    pub tftp_ifaces: Vec<String>,
    pub auth_interfaces: Vec<AuthInterface>,
}

/// The names and flags of interfaces that have a name.
pub open spec fn named_flags(v: Seq<InameView>) -> Seq<(Seq<char>, u32)>
    decreases v.len(),
{
    if v.len() == 0 {
        seq![]
    } else {
        match v.last().name {
            Some(n) => named_flags(v.drop_last()).push((n, v.last().flags)),
            None => named_flags(v.drop_last()),
        }
    }
}

/// The names, addresses and flags of interfaces.
pub open spec fn auth_of(v: Seq<InameView>) -> Seq<(Option<Seq<char>>, Option<IpAddress>, u32)> {
    v.map_values(
        |i: InameView|
            (
                i.name,
                match i.addr {
                    Some(a) => Some(ip_of(a)),
                    None => None,
                },
                i.flags,
            ),
    )
}

/// The names and flags of interfaces that have a name.
fn collect_flags(v: &Vec<Iname>) -> (r: Vec<NamedFlags>)
    ensures
        all_views(r@) == named_flags(all_views(v@)),
{
    let ghost all = all_views(v@);
    let mut r: Vec<NamedFlags> = Vec::new();
    let mut i: usize = 0;
    assert(all_views(r@) =~= named_flags(all.take(0)));
    while i < v.len()
        invariant
            i <= v@.len(),
            all == all_views(v@),
            all_views(r@) == named_flags(all.take(i as int)),
        decreases v@.len() - i,
    {
        proof {
            assert(all.take(i + 1).drop_last() =~= all.take(i as int));
            assert(all.take(i + 1).last() == v@[i as int]@);
        }
        if let Some(n) = &v[i].name {
            let e: NamedFlags = NamedFlags { name: n.clone(), flags: v[i].flags };
            assert(all_views(r@.push(e)) =~= all_views(r@).push(e@));
            r.push(e);
        }
        i += 1;
    }
    assert(all.take(all.len() as int) =~= all);
    r
}

/// Takes out of the configuration what is allowed on which interface.
pub fn iface_allowed_config(daemon: &Daemon) -> (c: IfaceAllowedConfig)
    ensures
        all_views(c.dhcp_except@) == named_flags(all_views(daemon.dhcp_except@)),
        views(c.tftp_ifaces@) == names_of(all_views(daemon.tftp_interfaces@)),
        all_views(c.auth_interfaces@) == auth_of(all_views(daemon.auth_interfaces@)),
{
    let v: &Vec<Iname> = &daemon.auth_interfaces;
    let mut auth: Vec<AuthInterface> = Vec::new();
    let mut i: usize = 0;
    while i < v.len()
        invariant
            i <= v@.len(),
            auth@.len() == i,
            forall|j: int| 0 <= j < i ==> (#[trigger] auth@[j])@ == auth_of(all_views(v@))[j],
        decreases v@.len() - i,
    {
        let addr: Option<IpAddress> = match &v[i].addr {
            Some(a) => Some(sock_ip(a)),
            None => None,
        };
        auth.push(AuthInterface { name: dup_text(&v[i].name), addr, flags: v[i].flags });
        i += 1;
    }
    assert(all_views(auth@) =~= auth_of(all_views(v@)));
    IfaceAllowedConfig {
        dhcp_except: collect_flags(&daemon.dhcp_except),
        tftp_ifaces: collect_names(&daemon.tftp_interfaces),
        auth_interfaces: auth,
    }
}

/// What the TFTP server runs with.
#[derive(Debug)]
pub struct TftpConfig {
    pub prefix: Option<String>,
    pub secure: bool,
    pub no_blocksize_option: bool,
    pub lowercase: bool,
    pub single_port: bool,
    pub apref_ip: bool,
    pub apref_mac: bool,
    pub quiet: bool,
    pub max_transfers: i32,
    pub mtu_override: i32,
    pub start_port: u16,
    pub end_port: u16,
    pub interfaces: Vec<String>,
    pub packet_buff_sz: usize,
}

/// The port nearest to a number.
pub open spec fn clamp_port(n: i32) -> u16 {
    if n < 0 {
        0
    } else if n > 0xffff {
        0xffff
    } else {
        n as u16
    }
}

/// The port nearest to a number.
fn to_port(n: i32) -> (r: u16)
    ensures
        r == clamp_port(n),
{
    if n < 0 {
        0
    } else if n > 0xffff {
        0xffff
    } else {
        n as u16
    }
}

/// Takes what the TFTP server runs with out of the configuration; `packet_buff_sz` is the size of the
/// daemon's packet buffer.
pub fn daemon_tftp_config(daemon: &Daemon, packet_buff_sz: usize) -> (c: TftpConfig)
    ensures
        opt_text(c.prefix) == opt_text(daemon.tftp_prefix),
        c.secure == daemon.options.tftp_secure,
        c.no_blocksize_option == daemon.options.tftp_noblock,
        c.lowercase == daemon.options.tftp_lc,
        c.single_port == daemon.options.single_port,
        c.apref_ip == daemon.options.tftp_apref_ip,
        c.apref_mac == daemon.options.tftp_apref_mac,
        c.quiet == daemon.options.quiet_tftp,
        c.max_transfers == daemon.tftp_max,
        c.mtu_override == daemon.tftp_mtu,
        c.start_port == clamp_port(daemon.start_tftp_port),
        c.end_port == clamp_port(daemon.end_tftp_port),
        views(c.interfaces@) == names_of(all_views(daemon.tftp_interfaces@)),
        c.packet_buff_sz == packet_buff_sz,
{
    TftpConfig {
        prefix: dup_text(&daemon.tftp_prefix),
        secure: daemon.options.tftp_secure,
        no_blocksize_option: daemon.options.tftp_noblock,
        lowercase: daemon.options.tftp_lc,
        single_port: daemon.options.single_port,
        apref_ip: daemon.options.tftp_apref_ip,
        apref_mac: daemon.options.tftp_apref_mac,
        quiet: daemon.options.quiet_tftp,
        max_transfers: daemon.tftp_max,
        mtu_override: daemon.tftp_mtu,
        start_port: to_port(daemon.start_tftp_port),
        end_port: to_port(daemon.end_tftp_port),
        interfaces: collect_names(&daemon.tftp_interfaces),
        packet_buff_sz,
    }
}

/// An address of an interface that is served.
#[derive(Debug)]
pub struct Interface {
    pub name: String,
    pub addr: IpAddress,
    pub index: u32,
    /// The network has not confirmed yet that the address is free.
    pub dad: bool,
    pub tftp_ok: bool,
}

/// The value of an `Interface`.
#[verifier::ext_equal]
pub struct InterfaceView {
    pub name: Seq<char>,
    pub addr: IpAddress,
    pub index: u32,
    pub dad: bool,
    pub tftp_ok: bool,
}

impl View for Interface {
    type V = InterfaceView;

    open spec fn view(&self) -> InterfaceView {
        InterfaceView {
            name: self.name@,
            addr: self.addr,
            index: self.index,
            dad: self.dad,
            tftp_ok: self.tftp_ok,
        }
    }
}

impl Dup for Interface {
    fn dup(&self) -> (r: Self) {
        Interface {
            name: self.name.clone(),
            addr: self.addr,
            index: self.index,
            dad: self.dad,
            tftp_ok: self.tftp_ok,
        }
    }
}

/// The address that a socket is bound to for an interface: a link-local one needs the number of the
/// interface.
pub open spec fn listen_addr(i: InterfaceView, port: u16) -> SockAddr {
    match i.addr {
        IpAddress::V4(ip) => SockAddr::V4 { ip, port },
        IpAddress::V6(ip) => SockAddr::V6 {
            ip,
            port,
            scope_id: if class_of(ip) is LinkLocal {
                i.index
            } else {
                0
            },
        },
    }
}

impl Interface {
    /// The address that a socket is bound to for the interface.
    pub fn listen_addr(&self, port: u16) -> (r: SockAddr)
        ensures
            r == listen_addr(self@, port),
    {
        match self.addr {
            IpAddress::V4(ip) => SockAddr::V4 { ip, port },
            IpAddress::V6(ip) => SockAddr::V6 {
                ip,
                port,
                scope_id: match classify_addr6(&ip) {
                    Addr6Class::LinkLocal => self.index,
                    _ => 0,
                },
            },
        }
    }
}

/// An address to bind, and the interface that has it.
#[derive(Debug)]
pub struct BindTarget {
    pub addr: SockAddr,
    pub iface: String,
}

impl View for BindTarget {
    type V = (SockAddr, Seq<char>);

    open spec fn view(&self) -> (SockAddr, Seq<char>) {
        (self.addr, self.iface@)
    }
}

/// The addresses to bind: those of the interfaces that are confirmed, or for TFTP those where it is
/// allowed.
pub open spec fn targets(v: Seq<InterfaceView>, port: u16, tftp: bool) -> Seq<(SockAddr, Seq<char>)>
    decreases v.len(),
{
    if v.len() == 0 {
        seq![]
    } else if (if tftp {
        v.last().tftp_ok
    } else {
        !v.last().dad
    }) {
        targets(v.drop_last(), port, tftp).push((listen_addr(v.last(), port), v.last().name))
    } else {
        targets(v.drop_last(), port, tftp)
    }
}

/// The interfaces whose addresses are confirmed.
pub open spec fn confirmed(v: Seq<InterfaceView>) -> Seq<InterfaceView>
    decreases v.len(),
{
    if v.len() == 0 {
        seq![]
    } else if !v.last().dad {
        confirmed(v.drop_last()).push(v.last())
    } else {
        confirmed(v.drop_last())
    }
}

/// An address as text.
pub open spec fn ip_text(a: IpAddress) -> Seq<char> {
    match a {
        IpAddress::V4(ip) => ip4_text(ip),
        IpAddress::V6(ip) => ip6_text(ip),
    }
}

/// The warnings on addresses that are not confirmed.
pub open spec fn dad_warnings(v: Seq<InterfaceView>) -> Seq<Seq<char>>
    decreases v.len(),
{
    if v.len() == 0 {
        seq![]
    } else if v.last().dad {
        dad_warnings(v.drop_last()).push(
            "waiting for DAD to complete on "@ + v.last().name + " before binding "@ + ip_text(v.last().addr),
        )
    } else {
        dad_warnings(v.drop_last())
    }
}

/// The addresses to bind.
fn list_targets(v: &Vec<Interface>, port: u16, tftp: bool) -> (r: Vec<BindTarget>)
    ensures
        all_views(r@) == targets(all_views(v@), port, tftp),
{
    let ghost all = all_views(v@);
    let mut r: Vec<BindTarget> = Vec::new();
    let mut i: usize = 0;
    assert(all_views(r@) =~= targets(all.take(0), port, tftp));
    while i < v.len()
        invariant
            i <= v@.len(),
            all == all_views(v@),
            all_views(r@) == targets(all.take(i as int), port, tftp),
        decreases v@.len() - i,
    {
        proof {
            assert(all.take(i + 1).drop_last() =~= all.take(i as int));
            assert(all.take(i + 1).last() == v@[i as int]@);
        }
        let wanted: bool = if tftp {
            v[i].tftp_ok
        } else {
            !v[i].dad
        };
        if wanted {
            let t: BindTarget = BindTarget { addr: v[i].listen_addr(port), iface: v[i].name.clone() };
            assert(all_views(r@.push(t)) =~= all_views(r@).push(t@));
            r.push(t);
        }
        i += 1;
    }
    assert(all.take(all.len() as int) =~= all);
    r
}

/// The interfaces whose addresses are confirmed.
fn list_confirmed(v: &Vec<Interface>) -> (r: Vec<Interface>)
    ensures
        all_views(r@) == confirmed(all_views(v@)),
{
    let ghost all = all_views(v@);
    let mut r: Vec<Interface> = Vec::new();
    let mut i: usize = 0;
    assert(all_views(r@) =~= confirmed(all.take(0)));
    while i < v.len()
        invariant
            i <= v@.len(),
            all == all_views(v@),
            all_views(r@) == confirmed(all.take(i as int)),
        decreases v@.len() - i,
    {
        proof {
            assert(all.take(i + 1).drop_last() =~= all.take(i as int));
            assert(all.take(i + 1).last() == v@[i as int]@);
        }
        if !v[i].dad {
            let t: Interface = v[i].dup();
            assert(all_views(r@.push(t)) =~= all_views(r@).push(t@));
            r.push(t);
        }
        i += 1;
    }
    assert(all.take(all.len() as int) =~= all);
    r
}

/// The warnings on addresses that are not confirmed.
fn list_dad_warnings(v: &Vec<Interface>) -> (r: Vec<String>)
    ensures
        views(r@) == dad_warnings(all_views(v@)),
{
    let ghost all = all_views(v@);
    let mut r: Vec<String> = Vec::new();
    let mut i: usize = 0;
    assert(views(r@) =~= dad_warnings(all.take(0)));
    while i < v.len()
        invariant
            i <= v@.len(),
            all == all_views(v@),
            views(r@) == dad_warnings(all.take(i as int)),
        decreases v@.len() - i,
    {
        proof {
            assert(all.take(i + 1).drop_last() =~= all.take(i as int));
            assert(all.take(i + 1).last() == v@[i as int]@);
        }
        if v[i].dad {
            let addr: String = match v[i].addr {
                IpAddress::V4(ip) => ip.text(),
                IpAddress::V6(ip) => ip.text(),
            };
            let t: String = plus(
                plus(
                    plus(String::from_str("waiting for DAD to complete on "), v[i].name.as_str()),
                    " before binding ",
                ),
                addr.as_str(),
            );
            assert(views(r@.push(t)) =~= views(r@).push(t@));
            r.push(t);
        }
        i += 1;
    }
    assert(all.take(all.len() as int) =~= all);
    r
}

/// What to bind.
#[derive(Debug)]
pub struct ListenPlan {
    /// Bind the wildcard addresses, and none of the targets.
    pub wildcard: bool,
    pub port: u16,
    pub targets: Vec<BindTarget>,
    pub warnings: Vec<String>,
    /// The interfaces against which arriving packets are checked.
    pub filter: Vec<Interface>,
}

/// Whether both ways to bind the addresses of interfaces are switched on, which cannot be.
pub open spec fn binds_clash(d: Daemon) -> bool {
    d.options.nowild && d.options.cleverbind
}

/// Whether a plan for the DNS sockets does what the configuration says.
pub open spec fn dns_plan_of(d: Daemon, v: Seq<InterfaceView>, p: ListenPlan) -> bool {
    let wildcard = !d.options.nowild && !d.options.cleverbind;
    &&& p.wildcard == wildcard
    &&& p.port == d.port
    &&& all_views(p.targets@) == if wildcard {
        seq![]
    } else {
        targets(v, d.port, false)
    }
    &&& views(p.warnings@) == if d.options.nowild {
        dad_warnings(v)
    } else {
        seq![]
    }
    &&& all_views(p.filter@) == if wildcard {
        v
    } else {
        confirmed(v)
    }
}

/// Plans the DNS sockets. Interfaces are those that are served. Either the wildcard addresses are bound, or
/// the addresses of the interfaces that the network has confirmed; arriving packets are checked against
/// the interfaces either way.
pub fn plan_dns_listeners(daemon: &Daemon, interfaces: &Vec<Interface>) -> (r: Result<ListenPlan, DnsmasqError>)
    ensures
        r is Ok <==> !binds_clash(*daemon),
        r matches Ok(p) ==> dns_plan_of(*daemon, all_views(interfaces@), p),
        r matches Err(e) ==> (e matches DnsmasqError::BadConfig(t) && t@ == "cannot set --bind-interfaces and --bind-dynamic"@),
{
    let nowild: bool = daemon.options.nowild;
    let cleverbind: bool = daemon.options.cleverbind;
    if nowild && cleverbind {
        return Err(DnsmasqError::BadConfig(String::from_str("cannot set --bind-interfaces and --bind-dynamic")));
    }
    if !nowild && !cleverbind {
        let none: Vec<BindTarget> = Vec::new();
        let quiet: Vec<String> = Vec::new();
        let filter: Vec<Interface> = crate::dup::dup_all(interfaces);
        assert(all_views(none@) =~= seq![]);
        assert(views(quiet@) =~= seq![]);
        return Ok(ListenPlan { wildcard: true, port: daemon.port, targets: none, warnings: quiet, filter });
    }
    let warnings: Vec<String> = if nowild {
        list_dad_warnings(interfaces)
    } else {
        let quiet: Vec<String> = Vec::new();
        assert(views(quiet@) =~= seq![]);
        quiet
    };
    Ok(
        ListenPlan {
            wildcard: false,
            port: daemon.port,
            targets: list_targets(interfaces, daemon.port, false),
            warnings,
            filter: list_confirmed(interfaces),
        },
    )
}

/// No address that the network has not confirmed is bound for DNS, whatever the mode, and with an interface that
/// is bound comes its own address.
pub proof fn law_only_confirmed_are_bound(v: Seq<InterfaceView>, port: u16, k: int)
    requires
        0 <= k < targets(v, port, false).len(),
    ensures
        exists|i: int|
            0 <= i < v.len() && !(#[trigger] v[i]).dad && targets(v, port, false)[k] == (
                listen_addr(v[i], port),
                v[i].name,
            ),
    decreases v.len(),
{
    let front = v.drop_last();
    if !v.last().dad && k == targets(v, port, false).len() - 1 {
        assert(!v[v.len() - 1].dad);
    } else {
        law_only_confirmed_are_bound(front, port, k);
        let i = choose|i: int|
            0 <= i < front.len() && !(#[trigger] front[i]).dad && targets(front, port, false)[k] == (
                listen_addr(front[i], port),
                front[i].name,
            );
        assert(v[i] == front[i]);
    }
}

/// Plans the TFTP sockets: nothing where TFTP is off; else as for DNS, on the interfaces that allow it.
pub fn plan_tftp_listeners(daemon: &Daemon, interfaces: &Vec<Interface>) -> (r: Option<ListenPlan>)
    ensures
        r is Some <==> daemon.options.tftp,
        r matches Some(p) ==> {
            let wildcard = !daemon.options.nowild && !daemon.options.cleverbind;
            &&& p.wildcard == wildcard
            &&& p.port == TFTP_PORT
            &&& all_views(p.targets@) == if wildcard {
                seq![]
            } else {
                targets(all_views(interfaces@), TFTP_PORT, true)
            }
            &&& p.warnings@.len() == 0
            &&& p.filter@.len() == 0
        },
{
    if !daemon.options.tftp {
        return None;
    }
    let wildcard: bool = !daemon.options.nowild && !daemon.options.cleverbind;
    let targets: Vec<BindTarget> = if wildcard {
        let none: Vec<BindTarget> = Vec::new();
        assert(all_views(none@) =~= seq![]);
        none
    } else {
        list_targets(interfaces, TFTP_PORT, true)
    };
    Some(ListenPlan { wildcard, port: TFTP_PORT, targets, warnings: Vec::new(), filter: Vec::new() })
}

/// What came of binding an address that no interface has.
#[derive(Debug)]
pub enum ListenOutcome {
    Bound,
    /// The address cannot be bound now.
    Unsupported,
    /// Binding failed, with this reason.
    Failed(String),
}

/// What to do after an address was tried that no interface has: keep the socket, try again later where
/// interfaces come and go, or give up.
pub fn after_bind(outcome: ListenOutcome, addr: &str, cleverbind: bool) -> (r: Result<bool, DnsmasqError>)
    ensures
        match outcome {
            ListenOutcome::Bound => r == Ok::<bool, DnsmasqError>(true),
            ListenOutcome::Unsupported => if cleverbind {
                r == Ok::<bool, DnsmasqError>(false)
            } else {
                r matches Err(DnsmasqError::Bind(a, e)) && a@ == addr@ && e@ == "address family not supported"@
            },
            ListenOutcome::Failed(why) => r matches Err(DnsmasqError::Bind(a, e)) && a@ == addr@ && e@ == why@,
        },
{
    match outcome {
        ListenOutcome::Bound => Ok(true),
        ListenOutcome::Unsupported => {
            if cleverbind {
                Ok(false)
            } else {
                Err(DnsmasqError::Bind(String::from_str(addr), String::from_str("address family not supported")))
            }
        },
        ListenOutcome::Failed(why) => Err(DnsmasqError::Bind(String::from_str(addr), why)),
    }
}

/// Whether all interfaces that were asked for by name are there; that they are not is an error, unless
/// interfaces come and go.
pub fn check_unmatched(cleverbind: bool, unmatched: &Vec<String>) -> (r: Result<(), DnsmasqError>)
    ensures
        r is Ok <==> cleverbind || unmatched@.len() == 0,
        r matches Err(e) ==> (e matches DnsmasqError::BadNet(t) && t@ == "unknown interface "@ + unmatched@[0]@),
{
    if !cleverbind && unmatched.len() > 0 {
        return Err(DnsmasqError::BadNet(plus(String::from_str("unknown interface "), unmatched[0].as_str())));
    }
    Ok(())
}

/// Whether some wildcard socket could be made; that none could is an error.
pub fn check_wildcard(count: usize, port: u16) -> (r: Result<(), DnsmasqError>)
    ensures
        r is Ok <==> count > 0,
        r matches Err(e) ==> (e matches DnsmasqError::Bind(a, t) && a@ == "0.0.0.0:"@ + decimal(port as nat) && t@
            == "could not create any wildcard listener"@),
{
    if count > 0 {
        return Ok(());
    }
    let n: String = to_decimal(port as u64);
    Err(
        DnsmasqError::Bind(
            plus(String::from_str("0.0.0.0:"), n.as_str()),
            String::from_str("could not create any wildcard listener"),
        ),
    )
}

/// Whether some DNS socket was taken over; the daemon ends with an error where none was.
pub fn check_dns_sockets(count: usize) -> (r: Result<(), RunResult>)
    ensures
        r == if count > 0 {
            Ok::<(), RunResult>(())
        } else {
            Err::<(), RunResult>(RunResult::IoError)
        },
{
    if count > 0 {
        Ok(())
    } else {
        Err(RunResult::IoError)
    }
}

/// A DNS socket that is bound.
#[derive(Debug, Clone, Copy)]
pub struct BoundDnsSocket {
    pub addr: SockAddr,
    /// Arriving packets are checked against the interfaces.
    pub check_dst: bool,
}

/// Whether packets that arrive on a socket are checked against the interfaces: always, except on IPv4
/// addresses that were bound one by one.
pub open spec fn checks_arrival(addr: SockAddr, nowild: bool) -> bool {
    !nowild || addr is V6
}

/// The DNS sockets that are bound.
#[derive(Debug)]
pub struct Listeners {
    pub dns: Vec<BoundDnsSocket>,
}

impl Listeners {
    /// Takes over sockets that are bound to these addresses; `nowild` says that the addresses of
    /// interfaces were bound, as they were at the start.
    pub fn adopt(addrs: &Vec<SockAddr>, nowild: bool) -> (r: Self)
        ensures
            r.dns@.len() == addrs@.len(),
            forall|i: int|
                0 <= i < addrs@.len() ==> (#[trigger] r.dns@[i]) == (BoundDnsSocket {
                    addr: addrs@[i],
                    check_dst: checks_arrival(addrs@[i], nowild),
                }),
    {
        let mut dns: Vec<BoundDnsSocket> = Vec::new();
        let mut i: usize = 0;
        while i < addrs.len()
            invariant
                i <= addrs@.len(),
                dns@.len() == i,
                forall|j: int|
                    0 <= j < i ==> (#[trigger] dns@[j]) == (BoundDnsSocket {
                        addr: addrs@[j],
                        check_dst: checks_arrival(addrs@[j], nowild),
                    }),
            decreases addrs@.len() - i,
        {
            let v6: bool = match addrs[i] {
                SockAddr::V6 { .. } => true,
                SockAddr::V4 { .. } => false,
            };
            dns.push(BoundDnsSocket { addr: addrs[i], check_dst: !nowild || v6 });
            i += 1;
        }
        Listeners { dns }
    }

    /// The addresses that the sockets are bound to.
    pub fn dns_addrs(&self) -> (r: Vec<SockAddr>)
        ensures
            r@ == self.dns@.map_values(|l: BoundDnsSocket| l.addr),
    {
        let mut r: Vec<SockAddr> = Vec::new();
        let mut i: usize = 0;
        while i < self.dns.len()
            invariant
                i <= self.dns@.len(),
                r@.len() == i,
                forall|j: int| 0 <= j < i ==> #[trigger] r@[j] == self.dns@[j].addr,
            decreases self.dns@.len() - i,
        {
            r.push(self.dns[i].addr);
            i += 1;
        }
        assert(r@ =~= self.dns@.map_values(|l: BoundDnsSocket| l.addr));
        r
    }

    /// The addresses that the sockets are bound to, and whether arriving packets are checked.
    pub fn dns_arrival_checks(&self) -> (r: Vec<(SockAddr, bool)>)
        ensures
            r@ == self.dns@.map_values(|l: BoundDnsSocket| (l.addr, l.check_dst)),
    {
        let mut r: Vec<(SockAddr, bool)> = Vec::new();
        let mut i: usize = 0;
        while i < self.dns.len()
            invariant
                i <= self.dns@.len(),
                r@.len() == i,
                forall|j: int| 0 <= j < i ==> #[trigger] r@[j] == (self.dns@[j].addr, self.dns@[j].check_dst),
            decreases self.dns@.len() - i,
        {
            r.push((self.dns[i].addr, self.dns[i].check_dst));
            i += 1;
        }
        assert(r@ =~= self.dns@.map_values(|l: BoundDnsSocket| (l.addr, l.check_dst)));
        r
    }
}

} // verus!
