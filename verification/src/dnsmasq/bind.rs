//! Binding the sockets of the daemon.

use crate::addr::{ip4_text, ip6_text, IpAddress, SockAddr};
use crate::daemon::Daemon;
use crate::dns_protocol::TFTP_PORT;
use crate::dnsmasq::listen::{
    after_bind, binds_clash, check_unmatched, check_wildcard, checks_arrival, dns_plan_of, plan_dns_listeners,
    plan_tftp_listeners, targets, BindTarget, BoundDnsSocket, Interface, ListenOutcome, ListenPlan, Listeners,
};
use crate::dup::all_views;
use crate::error::DnsmasqError;
use crate::text::{decimal, plus, to_decimal};
use vstd::prelude::*;

verus! {

/// An address and a port as text.
#[verifier::opaque]
pub open spec fn sock_text(a: SockAddr) -> Seq<char> {
    match a {
        SockAddr::V4 { ip, port } => ip4_text(ip) + ":"@ + decimal(port as nat),
        SockAddr::V6 { ip, port, scope_id } => "["@ + ip6_text(ip) + (if scope_id == 0 {
            "]:"@
        } else {
            "%"@ + decimal(scope_id as nat) + "]:"@
        }) + decimal(port as nat),
    }
}

/// An address and a port as text.
pub fn sock_addr_str(a: &SockAddr) -> (s: String)
    ensures
        s@ == sock_text(*a),
{
    reveal(sock_text);
    match a {
        SockAddr::V4 { ip, port } => {
            let p: String = to_decimal(*port as u64);
            plus(plus(ip.text(), ":"), p.as_str())
        },
        SockAddr::V6 { ip, port, scope_id } => {
            let p: String = to_decimal(*port as u64);
            let t: String = ip.text();
            let start: String = plus(String::from_str("["), t.as_str());
            if *scope_id == 0 {
                let r: String = plus(plus(start, "]:"), p.as_str());
                assert(r@ =~= sock_text(*a));
                r
            } else {
                let n: String = to_decimal(*scope_id as u64);
                let r: String = plus(plus(plus(plus(start, "%"), n.as_str()), "]:"), p.as_str());
                assert(r@ =~= sock_text(*a));
                r
            }
        },
    }
}

/// An address with a port.
pub open spec fn with_port(a: IpAddress, port: u16) -> SockAddr {
    match a {
        IpAddress::V4(ip) => SockAddr::V4 { ip, port },
        IpAddress::V6(ip) => SockAddr::V6 { ip, port, scope_id: 0 },
    }
}

/// What binding an address comes to.
pub enum Attempt {
    Bound,
    Unsupported,
    Failed(Seq<char>),
}

impl View for ListenOutcome {
    type V = Attempt;

    open spec fn view(&self) -> Attempt {
        match *self {
            ListenOutcome::Bound => Attempt::Bound,
            ListenOutcome::Unsupported => Attempt::Unsupported,
            ListenOutcome::Failed(why) => Attempt::Failed(why@),
        }
    }
}

/// Whether `res` is what can come of trying the addresses from number `i` on that no interface has, each of them at
/// most once and in order: the addresses that are bound afterwards, or the one that cannot be bound and why. One that
/// is bound already is passed over. One of a family that is not there is tried later where interfaces come and go.
pub open spec fn binds_to<F: Fn(&SockAddr) -> ListenOutcome>(
    bind: F,
    have: Seq<SockAddr>,
    addrs: Seq<IpAddress>,
    i: int,
    port: u16,
    cleverbind: bool,
    res: Result<Seq<SockAddr>, (SockAddr, Seq<char>)>,
) -> bool
    decreases addrs.len() - i,
{
    if !(0 <= i < addrs.len()) {
        res == Ok::<Seq<SockAddr>, (SockAddr, Seq<char>)>(have)
    } else {
        let a = with_port(addrs[i], port);
        if have.contains(a) {
            binds_to(bind, have, addrs, i + 1, port, cleverbind, res)
        } else {
            exists|x: &SockAddr, o: ListenOutcome|
                *x == a && #[trigger] call_ensures(bind, (x,), o) && match o@ {
                    Attempt::Bound => binds_to(bind, have.push(a), addrs, i + 1, port, cleverbind, res),
                    Attempt::Unsupported => if cleverbind {
                        binds_to(bind, have, addrs, i + 1, port, cleverbind, res)
                    } else {
                        res == Err::<Seq<SockAddr>, (SockAddr, Seq<char>)>((a, "address family not supported"@))
                    },
                    Attempt::Failed(why) => res == Err::<Seq<SockAddr>, (SockAddr, Seq<char>)>((a, why)),
                }
        }
    }
}

/// Whether an address is among some.
fn has_addr(v: &Vec<SockAddr>, a: &SockAddr) -> (r: bool)
    ensures
        r == v@.contains(*a),
{
    let mut i: usize = 0;
    while i < v.len()
        invariant
            i <= v@.len(),
            forall|j: int| 0 <= j < i ==> v@[j] != *a,
        decreases v@.len() - i,
    {
        if v[i] == *a {
            return true;
        }
        i += 1;
    }
    false
}

/// Binds the addresses that no interface has.
fn bind_rest<F: Fn(&SockAddr) -> ListenOutcome>(
    first: Vec<SockAddr>,
    addrs: &Vec<IpAddress>,
    port: u16,
    cleverbind: bool,
    bind: &F,
) -> (r: Result<Vec<SockAddr>, DnsmasqError>)
    requires
        forall|a: &SockAddr| #[trigger] call_requires(bind, (a,)),
    ensures
        exists|res: Result<Seq<SockAddr>, (SockAddr, Seq<char>)>| #[trigger]
            binds_to(*bind, first@, addrs@, 0, port, cleverbind, res) && match res {
                Ok(v) => r matches Ok(x) && x@ == v,
                Err((a, why)) => r matches Err(DnsmasqError::Bind(t, e)) && t@ == sock_text(a) && e@ == why,
            },
{
    let ghost start = first@;
    let mut have: Vec<SockAddr> = first;
    let mut i: usize = 0;
    while i < addrs.len()
        invariant
            i <= addrs@.len(),
            start == first@,
            forall|a: &SockAddr| #[trigger] call_requires(bind, (a,)),
            forall|res: Result<Seq<SockAddr>, (SockAddr, Seq<char>)>| #[trigger]
                binds_to(*bind, have@, addrs@, i as int, port, cleverbind, res) ==> binds_to(
                    *bind,
                    start,
                    addrs@,
                    0,
                    port,
                    cleverbind,
                    res,
                ),
        decreases addrs@.len() - i,
    {
        let a: SockAddr = match addrs[i] {
            IpAddress::V4(ip) => SockAddr::V4 { ip, port },
            IpAddress::V6(ip) => SockAddr::V6 { ip, port, scope_id: 0 },
        };
        assert(a == with_port(addrs@[i as int], port));
        let ghost before = have@;
        if !has_addr(&have, &a) {
            let outcome: ListenOutcome = bind(&a);
            let ghost o = outcome;
            assert(call_ensures(*bind, (&a,), o));
            let text: String = sock_addr_str(&a);
            match after_bind(outcome, text.as_str(), cleverbind) {
                Ok(true) => {
                    have.push(a);
                },
                Ok(false) => {},
                Err(e) => {
                    proof {
                        let why = match o@ {
                            Attempt::Failed(why) => why,
                            _ => "address family not supported"@,
                        };
                        let res = Err::<Seq<SockAddr>, (SockAddr, Seq<char>)>((a, why));
                        assert(binds_to(*bind, before, addrs@, i as int, port, cleverbind, res));
                    }
                    return Err(e);
                },
            }
        }
        assert forall|res: Result<Seq<SockAddr>, (SockAddr, Seq<char>)>| #[trigger]
            binds_to(*bind, have@, addrs@, i + 1, port, cleverbind, res) implies binds_to(
            *bind,
            start,
            addrs@,
            0,
            port,
            cleverbind,
            res,
        ) by {
            assert(binds_to(*bind, before, addrs@, i as int, port, cleverbind, res));
        }
        i += 1;
    }
    assert(binds_to(
        *bind,
        have@,
        addrs@,
        i as int,
        port,
        cleverbind,
        Ok::<Seq<SockAddr>, (SockAddr, Seq<char>)>(have@),
    ));
    Ok(have)
}

/// The DNS sockets that are bound to these addresses.
pub open spec fn adopted(addrs: Seq<SockAddr>, nowild: bool) -> Seq<BoundDnsSocket> {
    addrs.map_values(|a: SockAddr| BoundDnsSocket { addr: a, check_dst: checks_arrival(a, nowild) })
}

/// What binding wildcard addresses comes to, given what came of it.
pub open spec fn wildcard_result(
    port: u16,
    came: Result<Vec<SockAddr>, String>,
    r: Result<(Listeners, ListenPlan), DnsmasqError>,
) -> bool {
    match came {
        Err(why) => r matches Err(DnsmasqError::Bind(t, e)) && t@ == "0.0.0.0:"@ + decimal(port as nat) && e@ == why@,
        Ok(v) => if v@.len() == 0 {
            r matches Err(DnsmasqError::Bind(t, e)) && t@ == "0.0.0.0:"@ + decimal(port as nat) && e@
                == "could not create any wildcard listener"@
        } else {
            r matches Ok(x) && x.0.dns@ == adopted(v@, false)
        },
    }
}

/// What binding the addresses of interfaces comes to, given what came of it.
pub open spec fn bound_result<F: Fn(&SockAddr) -> ListenOutcome>(
    d: Daemon,
    came: Result<Vec<SockAddr>, String>,
    addrs: Seq<IpAddress>,
    names: Seq<String>,
    bind: F,
    r: Result<(Listeners, ListenPlan), DnsmasqError>,
) -> bool {
    match came {
        Err(why) => r matches Err(DnsmasqError::Bind(t, e)) && t@ == "port "@ + decimal(d.port as nat) && e@ == why@,
        Ok(v) => exists|res: Result<Seq<SockAddr>, (SockAddr, Seq<char>)>| #[trigger]
            binds_to(bind, v@, addrs, 0, d.port, d.options.cleverbind, res) && match res {
                Err((a, why)) => r matches Err(DnsmasqError::Bind(t, e)) && t@ == sock_text(a) && e@ == why,
                Ok(all) => if !d.options.cleverbind && names.len() > 0 {
                    r matches Err(DnsmasqError::BadNet(t)) && t@ == "unknown interface "@ + names[0]@
                } else {
                    r matches Ok(x) && x.0.dns@ == adopted(all, d.options.nowild)
                },
            },
    }
}

/// Takes over sockets that are bound.
fn take_over(addrs: &Vec<SockAddr>, nowild: bool) -> (r: Listeners)
    ensures
        r.dns@ == adopted(addrs@, nowild),
{
    let l: Listeners = Listeners::adopt(addrs, nowild);
    assert(l.dns@ =~= adopted(addrs@, nowild));
    l
}

/// Binds the DNS sockets, and gives with them the plan that they follow.
///
/// `interfaces` are those that are served; `addrs` and `names` are the addresses and the interfaces that were asked
/// for and that none of them has. `wildcard` binds the wildcard addresses, `bound` the addresses of interfaces, and
/// `one` any other address.
pub fn bind_dns_listeners<
    W: Fn(u16) -> Result<Vec<SockAddr>, String>,
    B: Fn(&Vec<BindTarget>) -> Result<Vec<SockAddr>, String>,
    O: Fn(&SockAddr) -> ListenOutcome,
>(
    daemon: &Daemon,
    interfaces: &Vec<Interface>,
    addrs: &Vec<IpAddress>,
    names: &Vec<String>,
    wildcard: W,
    bound: B,
    one: O,
) -> (r: Result<(Listeners, ListenPlan), DnsmasqError>)
    requires
        forall|p: u16| #[trigger] call_requires(wildcard, (p,)),
        forall|t: &Vec<BindTarget>| #[trigger] call_requires(bound, (t,)),
        forall|a: &SockAddr| #[trigger] call_requires(one, (a,)),
    ensures
        binds_clash(*daemon) ==> (r matches Err(DnsmasqError::BadConfig(t)) && t@
            == "cannot set --bind-interfaces and --bind-dynamic"@),
        !binds_clash(*daemon) && !daemon.options.nowild && !daemon.options.cleverbind ==> exists|
            came: Result<Vec<SockAddr>, String>,
        | #[trigger] call_ensures(wildcard, (daemon.port,), came) && wildcard_result(daemon.port, came, r),
        !binds_clash(*daemon) && (daemon.options.nowild || daemon.options.cleverbind) ==> exists|
            t: &Vec<BindTarget>,
            came: Result<Vec<SockAddr>, String>,
        | #[trigger]
            call_ensures(bound, (t,), came) && all_views(t@) == targets(all_views(interfaces@), daemon.port, false)
                && bound_result(*daemon, came, addrs@, names@, one, r),
        r matches Ok(x) ==> dns_plan_of(*daemon, all_views(interfaces@), x.1),
{
    let plan: ListenPlan = match plan_dns_listeners(daemon, interfaces) {
        Ok(p) => p,
        Err(e) => {
            return Err(e);
        },
    };
    let port: u16 = daemon.port;
    if plan.wildcard {
        let came: Result<Vec<SockAddr>, String> = wildcard(port);
        let ghost c = came;
        assert(call_ensures(wildcard, (daemon.port,), c));
        return match came {
            Err(why) => {
                let n: String = to_decimal(port as u64);
                Err(DnsmasqError::Bind(plus(String::from_str("0.0.0.0:"), n.as_str()), why))
            },
            Ok(v) => match check_wildcard(v.len(), port) {
                Err(e) => Err(e),
                Ok(_) => Ok((take_over(&v, false), plan)),
            },
        };
    }
    let came: Result<Vec<SockAddr>, String> = bound(&plan.targets);
    let ghost c = came;
    assert(call_ensures(bound, (&plan.targets,), c));
    match came {
        Err(why) => {
            let n: String = to_decimal(port as u64);
            Err(DnsmasqError::Bind(plus(String::from_str("port "), n.as_str()), why))
        },
        Ok(v) => match bind_rest(v, addrs, port, daemon.options.cleverbind, &one) {
            Err(e) => Err(e),
            Ok(all) => match check_unmatched(daemon.options.cleverbind, names) {
                Err(e) => Err(e),
                Ok(_) => Ok((take_over(&all, daemon.options.nowild), plan)),
            },
        },
    }
}

/// Binds the TFTP sockets; there are none where TFTP is off. `wildcard` binds the wildcard addresses, and `bound` the
/// addresses of interfaces.
pub fn bind_tftp_listeners<
    W: Fn(u16) -> Result<Vec<SockAddr>, String>,
    B: Fn(&Vec<BindTarget>) -> Result<Vec<SockAddr>, String>,
>(daemon: &Daemon, interfaces: &Vec<Interface>, wildcard: W, bound: B) -> (r: Result<Vec<SockAddr>, DnsmasqError>)
    requires
        forall|p: u16| #[trigger] call_requires(wildcard, (p,)),
        forall|t: &Vec<BindTarget>| #[trigger] call_requires(bound, (t,)),
    ensures
        !daemon.options.tftp ==> (r matches Ok(v) && v@.len() == 0),
        daemon.options.tftp && !daemon.options.nowild && !daemon.options.cleverbind ==> exists|
            came: Result<Vec<SockAddr>, String>,
        | #[trigger]
            call_ensures(wildcard, (TFTP_PORT,), came) && match came {
                Ok(v) => r matches Ok(x) && x@ == v@,
                Err(why) => r matches Err(DnsmasqError::Bind(t, e)) && t@ == "0.0.0.0:69"@ && e@ == why@,
            },
        daemon.options.tftp && (daemon.options.nowild || daemon.options.cleverbind) ==> exists|
            t: &Vec<BindTarget>,
            came: Result<Vec<SockAddr>, String>,
        | #[trigger]
            call_ensures(bound, (t,), came) && all_views(t@) == targets(all_views(interfaces@), TFTP_PORT, true) && match came {
                Ok(v) => r matches Ok(x) && x@ == v@,
                Err(why) => r matches Err(DnsmasqError::Bind(a, e)) && a@ == "port 69"@ && e@ == why@,
            },
{
    let plan: ListenPlan = match plan_tftp_listeners(daemon, interfaces) {
        Some(p) => p,
        None => {
            return Ok(Vec::new());
        },
    };
    if plan.wildcard {
        let came: Result<Vec<SockAddr>, String> = wildcard(TFTP_PORT);
        let ghost c = came;
        assert(call_ensures(wildcard, (TFTP_PORT,), c));
        return match came {
            Ok(v) => Ok(v),
            Err(why) => Err(DnsmasqError::Bind(String::from_str("0.0.0.0:69"), why)),
        };
    }
    let came: Result<Vec<SockAddr>, String> = bound(&plan.targets);
    let ghost c = came;
    assert(call_ensures(bound, (&plan.targets,), c));
    match came {
        Ok(v) => Ok(v),
        Err(why) => Err(DnsmasqError::Bind(String::from_str("port 69"), why)),
    }
}

/// What to log after a DHCP socket was bound to a device: that it was, or that it was not allowed, which is no error.
/// `came` says whether it was.
pub fn device_bound(device: &str, came: Result<bool, String>) -> (r: Result<String, DnsmasqError>)
    ensures
        match came {
            Ok(true) => r matches Ok(s) && s@ == "bound DHCP socket to interface "@ + device@,
            Ok(false) => r matches Ok(s) && s@ == "permission denied binding DHCP socket to interface "@ + device@
                + "; continuing"@,
            Err(why) => r matches Err(DnsmasqError::Bind(t, e)) && t@ == "interface "@ + device@ && e@ == why@,
        },
{
    match came {
        Ok(true) => Ok(plus(String::from_str("bound DHCP socket to interface "), device)),
        Ok(false) => Ok(
            plus(
                plus(String::from_str("permission denied binding DHCP socket to interface "), device),
                "; continuing",
            ),
        ),
        Err(why) => Err(DnsmasqError::Bind(plus(String::from_str("interface "), device), why)),
    }
}

/// An address that was bound with those of the interfaces stays bound, whatever comes of the others.
pub proof fn law_bound_stays_bound<F: Fn(&SockAddr) -> ListenOutcome>(
    bind: F,
    have: Seq<SockAddr>,
    addrs: Seq<IpAddress>,
    i: int,
    port: u16,
    cleverbind: bool,
    all: Seq<SockAddr>,
)
    requires
        0 <= i,
        binds_to(bind, have, addrs, i, port, cleverbind, Ok(all)),
    ensures
        have.is_prefix_of(all),
    decreases addrs.len() - i,
{
    if i < addrs.len() {
        let a = with_port(addrs[i], port);
        if have.contains(a) {
            law_bound_stays_bound(bind, have, addrs, i + 1, port, cleverbind, all);
        } else if binds_to(bind, have.push(a), addrs, i + 1, port, cleverbind, Ok(all)) {
            law_bound_stays_bound(bind, have.push(a), addrs, i + 1, port, cleverbind, all);
            assert(have =~= all.take(have.len() as int)) by {
                assert(have.push(a) =~= all.take(have.len() as int + 1));
            }
        } else {
            law_bound_stays_bound(bind, have, addrs, i + 1, port, cleverbind, all);
        }
    }
}

} // verus!
