//! The replies of the DHCPv6 server, and what they do to the leases.

use super::packet::{
    addr_option, build_ia_na_option, build_option6, client_id_in, extract_client_id, extract_ia, find_option6, ia_in,
    ia_option, iaaddr_suboption, option6, option6_in, status6, status_option, Dhcp6Packet, Dhcp6Reply, Ia, Reply,
};
use super::pool::{
    address6_allocate, address6_available, address6_valid, allocated, answers, available, config_find_by_address6,
    is_same_net6, law_allocated_address, on_link, reserved, same_net, sdbm,
};
use crate::addr::Ip6;
use crate::dhcp6_protocol::{
    Dhcp6MsgType, OPTION6_CLIENT_ID, OPTION6_IA_NA, OPTION6_IA_TA, OPTION6_PREFERENCE, OPTION6_RAPID_COMMIT,
    OPTION6_SERVER_ID,
};
use crate::dhcp_types::{context_views, nets, ContextView, DhcpConfig, DhcpContext, DhcpNetid};
use crate::lease::{
    at_addr, bound, given_back, held_by, law_bind_then_find, law_given_back_is_free, lemma_at_addr, lemma_of_client_at,
    no_addr_twice, of_client, of_client_at, LeaseDb, LeaseView, LEASE_NA,
};
use crate::rfc3315::{
    calculate_times, times_of, Times, STATUS_NOT_ON_LINK, STATUS_NO_ADDRS_AVAIL, STATUS_NO_BINDING, STATUS_SUCCESS,
    STATUS_UNSPEC_FAIL,
};
use crate::text::{append_bytes, same_bytes};
use vstd::prelude::*;

verus! {

/// What the server knows when a packet comes in, apart from the leases.
pub struct Server {
    pub duid: Seq<u8>,
    pub contexts: Seq<ContextView>,
    pub configs: Seq<DhcpConfig>,
    pub authoritative: bool,
    /// Seconds since the epoch.
    pub now: u64,
}

/// What the server knows when a packet comes in.
pub open spec fn server(
    duid: Seq<u8>,
    contexts: Seq<DhcpContext>,
    configs: Seq<DhcpConfig>,
    authoritative: bool,
    now: u64,
) -> Server {
    Server { duid, contexts: context_views(contexts), configs, authoritative, now }
}

/// A message, the part of it that replies depend on.
pub struct Message {
    pub msg_type: Dhcp6MsgType,
    pub xid: u32,
    pub options: Seq<u8>,
}

impl View for Dhcp6Packet {
    type V = Message;

    open spec fn view(&self) -> Message {
        Message { msg_type: self.msg_type, xid: self.xid, options: self.options@ }
    }
}

/// A reply, if there is one, and the leases after it.
pub struct Outcome {
    pub reply: Option<Reply>,
    pub leases: Seq<LeaseView>,
}

/// The first range from number `i` on whose network an address is on.
pub open spec fn context_at(ctxs: Seq<ContextView>, addr: Ip6, i: int) -> Option<ContextView>
    decreases ctxs.len() - i,
{
    if !(0 <= i < ctxs.len()) {
        None
    } else if same_net(ctxs[i].start6, addr, ctxs[i].prefix) {
        Some(ctxs[i])
    } else {
        context_at(ctxs, addr, i + 1)
    }
}

/// The lifetimes of an address: by the lease time of its range, or an hour where it has none.
pub open spec fn times_for(ctxs: Seq<ContextView>, addr: Ip6) -> Times {
    match context_at(ctxs, addr, 0) {
        Some(c) => times_of(c.lease_time),
        None => times_of(3600),
    }
}

/// When a lease ends: never where its lifetime is unlimited.
pub open spec fn expiry(valid: u32, now: u64) -> Option<u64> {
    if valid == 0xffff_ffff {
        None
    } else if now + valid > u64::MAX {
        Some(u64::MAX)
    } else {
        Some((now + valid) as u64)
    }
}

/// The lease that a client gets of an address.
pub open spec fn lease_for(srv: Server, clid: Seq<u8>, iaid: u32, addr: Ip6) -> LeaseView {
    LeaseView {
        addr6: addr,
        clid: Some(clid),
        iaid,
        kind: LEASE_NA,
        expires: expiry(times_for(srv.contexts, addr).valid, srv.now),
    }
}

/// Whether an address is leased, or reserved for a configured host.
pub open spec fn in_use(ls: Seq<LeaseView>, configs: Seq<DhcpConfig>, addr: Ip6) -> bool {
    at_addr(ls, addr, 0) is Some || reserved(configs, addr)
}

/// The addresses that are leased or reserved.
pub open spec fn used_addrs(ls: Seq<LeaseView>, configs: Seq<DhcpConfig>) -> spec_fn(Ip6) -> bool {
    |a: Ip6| in_use(ls, configs, a)
}

/// Whether an address is not leased to another client, or to this one under another number.
pub open spec fn free_for(ls: Seq<LeaseView>, clid: Seq<u8>, iaid: u32, addr: Ip6) -> bool {
    match at_addr(ls, addr, 0) {
        None => true,
        Some(i) => held_by(ls[i], clid, iaid),
    }
}

/// The address for a client: the one that it asks for where that is on the network, can be given out and
/// is free for it; else the one that it has where that can be given out; else a new one.
pub open spec fn address_for(
    srv: Server,
    ls: Seq<LeaseView>,
    clid: Seq<u8>,
    iaid: u32,
    requested: Option<Ip6>,
) -> Option<Ip6> {
    let own = of_client(ls, clid, iaid, 0);
    if requested is Some && on_link(srv.contexts, requested->0) && available(srv.contexts, requested->0) && free_for(
        ls,
        clid,
        iaid,
        requested->0,
    ) {
        requested
    } else if own is Some && available(srv.contexts, ls[own->0].addr6) {
        Some(ls[own->0].addr6)
    } else {
        allocated(srv.contexts, sdbm(clid, iaid), seq![], used_addrs(ls, srv.configs), 0)
    }
}

/// The options that start every reply: the ids of the client and of the server.
pub open spec fn ids(clid: Seq<u8>, duid: Seq<u8>) -> Seq<u8> {
    option6(OPTION6_CLIENT_ID, clid) + option6(OPTION6_SERVER_ID, duid)
}

/// The status that there are no addresses.
pub open spec fn no_addrs() -> Seq<u8> {
    status6(STATUS_NO_ADDRS_AVAIL, "no addresses available"@)
}

/// The status that all went well.
pub open spec fn success() -> Seq<u8> {
    status6(STATUS_SUCCESS, "success"@)
}

/// The option that gives a client an address.
pub open spec fn granted(srv: Server, iaid: u32, addr: Ip6) -> Seq<u8> {
    let t = times_for(srv.contexts, addr);
    ia_option(iaid, t.t1, t.t2, addr_option(addr, t.preferred, t.valid))
}

/// The option that tells a client why it gets no address.
pub open spec fn refused(iaid: u32, code: u16, message: Seq<char>) -> Seq<u8> {
    ia_option(iaid, 0, 0, status6(code, message))
}

/// The reply that offers or gives an address, or says that there is none, and the leases after it.
pub open spec fn offer(
    srv: Server,
    ls: Seq<LeaseView>,
    m: Message,
    iaid: u32,
    addr: Option<Ip6>,
    persist: bool,
    reply_type: Dhcp6MsgType,
    rapid: bool,
) -> Outcome {
    let clid = client_id_in(m.options);
    let start = if rapid {
        ids(clid, srv.duid) + option6(OPTION6_RAPID_COMMIT, seq![])
    } else {
        ids(clid, srv.duid)
    };
    match addr {
        Some(a) => Outcome {
            reply: Some(
                Reply {
                    msg_type: reply_type,
                    xid: m.xid,
                    options: start + granted(srv, iaid, a) + success() + option6(
                        OPTION6_PREFERENCE,
                        seq![
                            if srv.authoritative {
                                255u8
                            } else {
                                0u8
                            },
                        ],
                    ),
                },
            ),
            leases: if persist {
                bound(ls, lease_for(srv, clid, iaid, a))
            } else {
                ls
            },
        },
        None => Outcome {
            reply: Some(
                Reply {
                    msg_type: reply_type,
                    xid: m.xid,
                    options: start + refused(iaid, STATUS_NO_ADDRS_AVAIL, "address unavailable"@) + no_addrs(),
                },
            ),
            leases: ls,
        },
    }
}

/// A reply that says only what follows the ids; the leases stay.
pub open spec fn plain(srv: Server, ls: Seq<LeaseView>, m: Message, msg_type: Dhcp6MsgType, rest: Seq<u8>) -> Outcome {
    Outcome {
        reply: Some(Reply { msg_type, xid: m.xid, options: ids(client_id_in(m.options), srv.duid) + rest }),
        leases: ls,
    }
}

/// What a SOLICIT message gets: an offer, or with rapid commit an address.
pub open spec fn on_solicit(srv: Server, ls: Seq<LeaseView>, m: Message) -> Outcome {
    let rapid = option6_in(m.options, OPTION6_RAPID_COMMIT) is Some;
    let reply_type = if rapid {
        Dhcp6MsgType::Reply
    } else {
        Dhcp6MsgType::Advertise
    };
    match ia_in(m.options) {
        None => plain(srv, ls, m, reply_type, no_addrs()),
        Some(ia) => offer(
            srv,
            ls,
            m,
            ia.iaid,
            address_for(srv, ls, client_id_in(m.options), ia.iaid, ia.addr),
            rapid,
            reply_type,
            rapid,
        ),
    }
}

/// Why a requested address is refused, if it is.
pub open spec fn request_refusal(srv: Server, ls: Seq<LeaseView>, clid: Seq<u8>, iaid: u32, addr: Ip6) -> Option<
    (u16, Seq<char>),
> {
    if !available(srv.contexts, addr) && !on_link(srv.contexts, addr) {
        Some((STATUS_NOT_ON_LINK, "not on link"@))
    } else if !available(srv.contexts, addr) && !reserved(srv.configs, addr) {
        Some((STATUS_NO_ADDRS_AVAIL, "address unavailable"@))
    } else if !free_for(ls, clid, iaid, addr) {
        Some((STATUS_UNSPEC_FAIL, "address in use"@))
    } else {
        None
    }
}

/// What a REQUEST message gets: the address that it asks for or the reason why not; some address where it
/// asks for none.
pub open spec fn on_request(srv: Server, ls: Seq<LeaseView>, m: Message) -> Outcome {
    let clid = client_id_in(m.options);
    match ia_in(m.options) {
        None => plain(srv, ls, m, Dhcp6MsgType::Reply, no_addrs()),
        Some(ia) => match ia.addr {
            None => offer(
                srv,
                ls,
                m,
                ia.iaid,
                address_for(srv, ls, clid, ia.iaid, None),
                true,
                Dhcp6MsgType::Reply,
                false,
            ),
            Some(a) => match request_refusal(srv, ls, clid, ia.iaid, a) {
                Some((code, message)) => plain(
                    srv,
                    ls,
                    m,
                    Dhcp6MsgType::Reply,
                    refused(ia.iaid, code, message) + no_addrs(),
                ),
                None => Outcome {
                    leases: bound(ls, lease_for(srv, clid, ia.iaid, a)),
                    ..plain(srv, ls, m, Dhcp6MsgType::Reply, granted(srv, ia.iaid, a) + success())
                },
            },
        },
    }
}

/// What a RENEW or REBIND message gets: the address of a lease is renewed, or deprecated where it is on no
/// network any more; without a lease an authoritative server rebinds an address that could be its own.
pub open spec fn on_renew(srv: Server, ls: Seq<LeaseView>, m: Message, is_rebind: bool) -> Outcome {
    let clid = client_id_in(m.options);
    match ia_in(m.options) {
        Some(Ia { iaid, addr: Some(a) }) => {
            let plausible = available(srv.contexts, a) || on_link(srv.contexts, a);
            let leased = of_client_at(ls, clid, iaid, a, 0) is Some;
            if plausible && (leased || (is_rebind && srv.authoritative)) {
                Outcome {
                    leases: bound(ls, lease_for(srv, clid, iaid, a)),
                    ..plain(srv, ls, m, Dhcp6MsgType::Reply, granted(srv, iaid, a) + success())
                }
            } else if leased {
                plain(srv, ls, m, Dhcp6MsgType::Reply, ia_option(iaid, 0, 0, addr_option(a, 0, 0)) + success())
            } else if is_rebind {
                plain(
                    srv,
                    ls,
                    m,
                    Dhcp6MsgType::Reply,
                    refused(iaid, STATUS_NO_BINDING, "no binding found"@) + no_addrs(),
                )
            } else {
                plain(srv, ls, m, Dhcp6MsgType::Reply, refused(iaid, STATUS_NO_BINDING, "no binding found"@))
            }
        },
        _ => Outcome { reply: None, leases: ls },
    }
}

/// What a CONFIRM message gets: whether its address is on the network.
pub open spec fn on_confirm(srv: Server, ls: Seq<LeaseView>, m: Message) -> Outcome {
    match ia_in(m.options) {
        Some(Ia { addr: Some(a), .. }) => plain(
            srv,
            ls,
            m,
            Dhcp6MsgType::Reply,
            if on_link(srv.contexts, a) {
                status6(STATUS_SUCCESS, "all addresses still on link"@)
            } else {
                status6(STATUS_NOT_ON_LINK, "confirm failed"@)
            },
        ),
        _ => Outcome { reply: None, leases: ls },
    }
}

/// What a RELEASE or DECLINE message gets: success; the lease of its address ends.
pub open spec fn on_release(srv: Server, ls: Seq<LeaseView>, m: Message, is_decline: bool) -> Outcome {
    let clid = client_id_in(m.options);
    let done = status6(
        STATUS_SUCCESS,
        if is_decline {
            "success"@
        } else {
            "release received"@
        },
    );
    match ia_in(m.options) {
        Some(Ia { iaid, addr: Some(a) }) => if of_client_at(ls, clid, iaid, a, 0) is Some {
            Outcome { leases: given_back(ls, clid, iaid, a), ..plain(srv, ls, m, Dhcp6MsgType::Reply, done) }
        } else {
            plain(
                srv,
                ls,
                m,
                Dhcp6MsgType::Reply,
                refused(iaid, STATUS_NO_BINDING, "no binding found"@) + done,
            )
        },
        _ => plain(srv, ls, m, Dhcp6MsgType::Reply, done),
    }
}

/// What an INFORMATION-REQUEST message gets: a reply, unless it asks for addresses.
pub open spec fn on_inforeq(srv: Server, ls: Seq<LeaseView>, m: Message) -> Outcome {
    if option6_in(m.options, OPTION6_IA_NA) is Some || option6_in(m.options, OPTION6_IA_TA) is Some {
        Outcome { reply: None, leases: ls }
    } else {
        plain(srv, ls, m, Dhcp6MsgType::Reply, seq![])
    }
}

/// What a message gets. Messages that clients do not send get nothing.
pub open spec fn outcome(srv: Server, ls: Seq<LeaseView>, m: Message) -> Outcome {
    match m.msg_type {
        Dhcp6MsgType::Solicit => on_solicit(srv, ls, m),
        Dhcp6MsgType::Request => on_request(srv, ls, m),
        Dhcp6MsgType::Renew => on_renew(srv, ls, m, false),
        Dhcp6MsgType::Rebind => on_renew(srv, ls, m, true),
        Dhcp6MsgType::Confirm => on_confirm(srv, ls, m),
        Dhcp6MsgType::Release => on_release(srv, ls, m, false),
        Dhcp6MsgType::Decline => on_release(srv, ls, m, true),
        Dhcp6MsgType::InfoReq => on_inforeq(srv, ls, m),
        _ => Outcome { reply: None, leases: ls },
    }
}

/// The value of a reply that may be missing.
pub open spec fn reply_view(r: Option<Dhcp6Reply>) -> Option<Reply> {
    match r {
        Some(x) => Some(x@),
        None => None,
    }
}

/// The lifetimes of an address.
fn compute_times_for_addr(contexts: &[DhcpContext], addr: &Ip6) -> (r: (u32, u32, u32, u32))
    ensures
        ({
            let t = times_for(context_views(contexts@), *addr);
            r == (t.preferred, t.valid, t.t1, t.t2)
        }),
{
    let ghost all = context_views(contexts@);
    let mut i: usize = 0;
    while i < contexts.len()
        invariant
            i <= contexts@.len(),
            all == context_views(contexts@),
            context_at(all, *addr, 0) == context_at(all, *addr, i as int),
        decreases contexts@.len() - i,
    {
        assert(all[i as int] == contexts@[i as int]@);
        if is_same_net6(&contexts[i].start6, addr, contexts[i].prefix) {
            return calculate_times(contexts[i].lease_time);
        }
        i += 1;
    }
    calculate_times(3600)
}

/// Whether an address is leased, or reserved for a configured host.
fn addr_in_use(lease_db: &LeaseDb, configs: &[DhcpConfig], addr: &Ip6) -> (r: bool)
    ensures
        r == in_use(lease_db@, configs@, *addr),
{
    lease_db.find_v6_by_addr(addr).is_some() || config_find_by_address6(configs, addr)
}

/// Whether an address is not leased to another client, or to this one under another number.
fn check_address(lease_db: &LeaseDb, clid: &[u8], iaid: u32, addr: &Ip6) -> (r: bool)
    ensures
        r == free_for(lease_db@, clid@, iaid, *addr),
{
    match lease_db.find_v6_by_addr(addr) {
        None => true,
        Some(l) => {
            match &l.clid {
                Some(c) => same_bytes(c.as_slice(), clid) && l.iaid == iaid,
                None => false,
            }
        },
    }
}

/// Leases an address to a client, and gives its lifetimes.
fn persist_lease(
    lease_db: &mut LeaseDb,
    clid: &[u8],
    iaid: u32,
    addr: Ip6,
    contexts: &[DhcpContext],
    now_secs: u64,
    Ghost(srv): Ghost<Server>,
) -> (r: (u32, u32, u32, u32))
    requires
        srv.contexts == context_views(contexts@),
        srv.now == now_secs,
    ensures
        ({
            let t = times_for(srv.contexts, addr);
            r == (t.preferred, t.valid, t.t1, t.t2)
        }),
        final(lease_db)@ == bound(old(lease_db)@, lease_for(srv, clid@, iaid, addr)),
{
    let (preferred, valid, t1, t2): (u32, u32, u32, u32) = compute_times_for_addr(contexts, &addr);
    let expires: Option<u64> = if valid == 0xffff_ffff {
        None
    } else if now_secs > u64::MAX - valid as u64 {
        Some(u64::MAX)
    } else {
        Some(now_secs + valid as u64)
    };
    lease_db.bind_v6(addr, clid, iaid, LEASE_NA, expires);
    (preferred, valid, t1, t2)
}

/// Chooses the address for a client.
fn select_address_for_ia(
    contexts: &[DhcpContext],
    configs: &[DhcpConfig],
    lease_db: &LeaseDb,
    client_id: &[u8],
    iaid: u32,
    requested: Option<Ip6>,
    Ghost(srv): Ghost<Server>,
) -> (r: Option<Ip6>)
    requires
        srv.contexts == context_views(contexts@),
        srv.configs == configs@,
    ensures
        r == address_for(srv, lease_db@, client_id@, iaid, requested),
{
    if let Some(a) = requested {
        if address6_valid(contexts, &a) && address6_available(contexts, &a) && check_address(
            lease_db,
            client_id,
            iaid,
            &a,
        ) {
            return Some(a);
        }
    }
    if let Some(l) = lease_db.find_v6_by_client_iaid(client_id, iaid) {
        if address6_available(contexts, &l.addr6) {
            return Some(l.addr6);
        }
    }
    let used = |a: &Ip6| -> (b: bool)
        ensures
            b == in_use(lease_db@, configs@, *a),
        { addr_in_use(lease_db, configs, a) };
    let none: Vec<DhcpNetid> = Vec::new();
    let ghost taken = used_addrs(lease_db@, configs@);
    assert(answers(used, taken));
    assert(nets(none@) =~= seq![]);
    let r: Option<Ip6> = address6_allocate(contexts, client_id, iaid, none.as_slice(), used);
    assert(r == allocated(srv.contexts, sdbm(client_id@, iaid), nets(none@), taken, 0));
    r
}

/// The options that start every reply.
fn start_options(client_id: &[u8], duid: &[u8]) -> (v: Vec<u8>)
    ensures
        v@ == ids(client_id@, duid@),
{
    let mut v: Vec<u8> = build_option6(OPTION6_CLIENT_ID, client_id);
    let server_id: Vec<u8> = build_option6(OPTION6_SERVER_ID, duid);
    append_bytes(&mut v, server_id.as_slice());
    v
}

/// Appends the option that gives a client an address.
fn push_granted(v: &mut Vec<u8>, iaid: u32, addr: Ip6, times: (u32, u32, u32, u32), Ghost(srv): Ghost<Server>)
    requires
        ({
            let t = times_for(srv.contexts, addr);
            times == (t.preferred, t.valid, t.t1, t.t2)
        }),
    ensures
        final(v)@ == old(v)@ + granted(srv, iaid, addr),
{
    let sub: Vec<u8> = iaaddr_suboption(addr, times.0, times.1);
    let ia: Vec<u8> = build_ia_na_option(iaid, times.2, times.3, &sub);
    append_bytes(v, ia.as_slice());
}

/// Appends the option that tells a client why it gets no address.
fn push_refused(v: &mut Vec<u8>, iaid: u32, code: u16, message: &str)
    ensures
        final(v)@ == old(v)@ + refused(iaid, code, message@),
{
    let sub: Vec<u8> = status_option(code, message);
    let ia: Vec<u8> = build_ia_na_option(iaid, 0, 0, &sub);
    append_bytes(v, ia.as_slice());
}

/// Appends the option of a status.
fn push_status(v: &mut Vec<u8>, code: u16, message: &str)
    ensures
        final(v)@ == old(v)@ + status6(code, message@),
{
    let s: Vec<u8> = status_option(code, message);
    append_bytes(v, s.as_slice());
}

/// Builds the reply that offers or gives an address, or says that there is none.
fn build_solicit_style_reply(
    pkt: &Dhcp6Packet,
    duid: &[u8],
    client_id: &[u8],
    iaid: u32,
    contexts: &[DhcpContext],
    lease_db: &mut LeaseDb,
    addr: Option<Ip6>,
    persist: bool,
    reply_type: Dhcp6MsgType,
    rapid: bool,
    authoritative: bool,
    now_secs: u64,
    Ghost(srv): Ghost<Server>,
) -> (r: Dhcp6Reply)
    requires
        srv.duid == duid@,
        srv.contexts == context_views(contexts@),
        srv.authoritative == authoritative,
        srv.now == now_secs,
        client_id@ == client_id_in(pkt@.options),
    ensures
        offer(srv, old(lease_db)@, pkt@, iaid, addr, persist, reply_type, rapid) == (Outcome {
            reply: Some(r@),
            leases: final(lease_db)@,
        }),
{
    let mut options: Vec<u8> = start_options(client_id, duid);
    if rapid {
        let none: Vec<u8> = Vec::new();
        assert(none@ =~= seq![]);
        let commit: Vec<u8> = build_option6(OPTION6_RAPID_COMMIT, none.as_slice());
        append_bytes(&mut options, commit.as_slice());
    }
    match addr {
        Some(a) => {
            let times: (u32, u32, u32, u32) = if persist {
                persist_lease(lease_db, client_id, iaid, a, contexts, now_secs, Ghost(srv))
            } else {
                compute_times_for_addr(contexts, &a)
            };
            push_granted(&mut options, iaid, a, times, Ghost(srv));
            push_status(&mut options, STATUS_SUCCESS, "success");
            let mut level: Vec<u8> = Vec::new();
            level.push(
                if authoritative {
                    255
                } else {
                    0
                },
            );
            assert(level@ =~= seq![
                if srv.authoritative {
                    255u8
                } else {
                    0u8
                },
            ]);
            let preference: Vec<u8> = build_option6(OPTION6_PREFERENCE, level.as_slice());
            append_bytes(&mut options, preference.as_slice());
        },
        None => {
            push_refused(&mut options, iaid, STATUS_NO_ADDRS_AVAIL, "address unavailable");
            push_status(&mut options, STATUS_NO_ADDRS_AVAIL, "no addresses available");
        },
    }
    Dhcp6Reply { msg_type: reply_type, xid: pkt.xid, options }
}

/// Answers a SOLICIT message.
fn dispatch_solicit(
    pkt: &Dhcp6Packet,
    duid: &[u8],
    contexts: &[DhcpContext],
    configs: &[DhcpConfig],
    lease_db: &mut LeaseDb,
    authoritative: bool,
    now_secs: u64,
) -> (r: Option<Dhcp6Reply>)
    ensures
        on_solicit(server(duid@, contexts@, configs@, authoritative, now_secs), old(lease_db)@, pkt@) == (Outcome {
            reply: reply_view(r),
            leases: final(lease_db)@,
        }),
{
    let ghost srv = server(duid@, contexts@, configs@, authoritative, now_secs);
    let client_id: Vec<u8> = extract_client_id(pkt);
    let rapid: bool = find_option6(pkt.options.as_slice(), OPTION6_RAPID_COMMIT).is_some();
    let reply_type: Dhcp6MsgType = if rapid {
        Dhcp6MsgType::Reply
    } else {
        Dhcp6MsgType::Advertise
    };
    match extract_ia(pkt) {
        None => {
            let mut options: Vec<u8> = start_options(client_id.as_slice(), duid);
            push_status(&mut options, STATUS_NO_ADDRS_AVAIL, "no addresses available");
            Some(Dhcp6Reply { msg_type: reply_type, xid: pkt.xid, options })
        },
        Some((iaid, requested)) => {
            let addr: Option<Ip6> = select_address_for_ia(
                contexts,
                configs,
                lease_db,
                client_id.as_slice(),
                iaid,
                requested,
                Ghost(srv),
            );
            Some(
                build_solicit_style_reply(
                    pkt,
                    duid,
                    client_id.as_slice(),
                    iaid,
                    contexts,
                    lease_db,
                    addr,
                    rapid,
                    reply_type,
                    rapid,
                    authoritative,
                    now_secs,
                    Ghost(srv),
                ),
            )
        },
    }
}

/// Answers a REQUEST message.
fn dispatch_request(
    pkt: &Dhcp6Packet,
    duid: &[u8],
    contexts: &[DhcpContext],
    configs: &[DhcpConfig],
    lease_db: &mut LeaseDb,
    authoritative: bool,
    now_secs: u64,
) -> (r: Option<Dhcp6Reply>)
    ensures
        on_request(server(duid@, contexts@, configs@, authoritative, now_secs), old(lease_db)@, pkt@) == (Outcome {
            reply: reply_view(r),
            leases: final(lease_db)@,
        }),
{
    let ghost srv = server(duid@, contexts@, configs@, authoritative, now_secs);
    let client_id: Vec<u8> = extract_client_id(pkt);
    let (iaid, requested): (u32, Option<Ip6>) = match extract_ia(pkt) {
        None => {
            let mut options: Vec<u8> = start_options(client_id.as_slice(), duid);
            push_status(&mut options, STATUS_NO_ADDRS_AVAIL, "no addresses available");
            return Some(Dhcp6Reply { msg_type: Dhcp6MsgType::Reply, xid: pkt.xid, options });
        },
        Some(ia) => ia,
    };
    let a: Ip6 = match requested {
        None => {
            let addr: Option<Ip6> = select_address_for_ia(
                contexts,
                configs,
                lease_db,
                client_id.as_slice(),
                iaid,
                None,
                Ghost(srv),
            );
            return Some(
                build_solicit_style_reply(
                    pkt,
                    duid,
                    client_id.as_slice(),
                    iaid,
                    contexts,
                    lease_db,
                    addr,
                    true,
                    Dhcp6MsgType::Reply,
                    false,
                    authoritative,
                    now_secs,
                    Ghost(srv),
                ),
            );
        },
        Some(a) => a,
    };
    let linked: bool = address6_valid(contexts, &a);
    let dynamic: bool = address6_available(contexts, &a);
    let mut options: Vec<u8> = start_options(client_id.as_slice(), duid);
    let ghost head = options@;
    if !dynamic && !linked {
        push_refused(&mut options, iaid, STATUS_NOT_ON_LINK, "not on link");
        push_status(&mut options, STATUS_NO_ADDRS_AVAIL, "no addresses available");
        assert(options@ =~= head + (refused(iaid, STATUS_NOT_ON_LINK, "not on link"@) + no_addrs()));
    } else if !dynamic && !config_find_by_address6(configs, &a) {
        push_refused(&mut options, iaid, STATUS_NO_ADDRS_AVAIL, "address unavailable");
        push_status(&mut options, STATUS_NO_ADDRS_AVAIL, "no addresses available");
        assert(options@ =~= head + (refused(iaid, STATUS_NO_ADDRS_AVAIL, "address unavailable"@) + no_addrs()));
    } else if !check_address(lease_db, client_id.as_slice(), iaid, &a) {
        push_refused(&mut options, iaid, STATUS_UNSPEC_FAIL, "address in use");
        push_status(&mut options, STATUS_NO_ADDRS_AVAIL, "no addresses available");
        assert(options@ =~= head + (refused(iaid, STATUS_UNSPEC_FAIL, "address in use"@) + no_addrs()));
    } else {
        let times: (u32, u32, u32, u32) = persist_lease(
            lease_db,
            client_id.as_slice(),
            iaid,
            a,
            contexts,
            now_secs,
            Ghost(srv),
        );
        push_granted(&mut options, iaid, a, times, Ghost(srv));
        push_status(&mut options, STATUS_SUCCESS, "success");
        assert(options@ =~= head + (granted(srv, iaid, a) + success()));
    }
    Some(Dhcp6Reply { msg_type: Dhcp6MsgType::Reply, xid: pkt.xid, options })
}

/// Answers a RENEW or REBIND message.
fn dispatch_renew_rebind(
    pkt: &Dhcp6Packet,
    duid: &[u8],
    contexts: &[DhcpContext],
    configs: &[DhcpConfig],
    lease_db: &mut LeaseDb,
    is_rebind: bool,
    authoritative: bool,
    now_secs: u64,
) -> (r: Option<Dhcp6Reply>)
    ensures
        on_renew(server(duid@, contexts@, configs@, authoritative, now_secs), old(lease_db)@, pkt@, is_rebind) == (
        Outcome { reply: reply_view(r), leases: final(lease_db)@ }),
{
    let ghost srv = server(duid@, contexts@, configs@, authoritative, now_secs);
    let client_id: Vec<u8> = extract_client_id(pkt);
    let (iaid, requested): (u32, Option<Ip6>) = match extract_ia(pkt) {
        None => {
            return None;
        },
        Some(ia) => ia,
    };
    let a: Ip6 = match requested {
        None => {
            return None;
        },
        Some(a) => a,
    };
    let mut options: Vec<u8> = start_options(client_id.as_slice(), duid);
    let ghost head = options@;
    let leased: bool = lease_db.find_v6_by_clid_iaid(client_id.as_slice(), iaid, &a).is_some();
    let plausible: bool = address6_available(contexts, &a) || address6_valid(contexts, &a);
    if plausible && (leased || (is_rebind && authoritative)) {
        let times: (u32, u32, u32, u32) = persist_lease(
            lease_db,
            client_id.as_slice(),
            iaid,
            a,
            contexts,
            now_secs,
            Ghost(srv),
        );
        push_granted(&mut options, iaid, a, times, Ghost(srv));
        push_status(&mut options, STATUS_SUCCESS, "success");
        assert(options@ =~= head + (granted(srv, iaid, a) + success()));
    } else if leased {
        let sub: Vec<u8> = iaaddr_suboption(a, 0, 0);
        let ia: Vec<u8> = build_ia_na_option(iaid, 0, 0, &sub);
        append_bytes(&mut options, ia.as_slice());
        push_status(&mut options, STATUS_SUCCESS, "success");
        assert(options@ =~= head + (ia_option(iaid, 0, 0, addr_option(a, 0, 0)) + success()));
    } else {
        push_refused(&mut options, iaid, STATUS_NO_BINDING, "no binding found");
        if is_rebind {
            push_status(&mut options, STATUS_NO_ADDRS_AVAIL, "no addresses available");
            assert(options@ =~= head + (refused(iaid, STATUS_NO_BINDING, "no binding found"@) + no_addrs()));
        }
    }
    Some(Dhcp6Reply { msg_type: Dhcp6MsgType::Reply, xid: pkt.xid, options })
}

/// Answers a CONFIRM message.
fn dispatch_confirm(
    pkt: &Dhcp6Packet,
    duid: &[u8],
    contexts: &[DhcpContext],
    Ghost(srv): Ghost<Server>,
    Ghost(ls): Ghost<Seq<LeaseView>>,
) -> (r: Option<Dhcp6Reply>)
    requires
        srv.duid == duid@,
        srv.contexts == context_views(contexts@),
    ensures
        on_confirm(srv, ls, pkt@) == (Outcome { reply: reply_view(r), leases: ls }),
{
    let client_id: Vec<u8> = extract_client_id(pkt);
    let requested: Option<Ip6> = match extract_ia(pkt) {
        None => {
            return None;
        },
        Some((_, addr)) => addr,
    };
    let a: Ip6 = match requested {
        None => {
            return None;
        },
        Some(a) => a,
    };
    let mut options: Vec<u8> = start_options(client_id.as_slice(), duid);
    if address6_valid(contexts, &a) {
        push_status(&mut options, STATUS_SUCCESS, "all addresses still on link");
    } else {
        push_status(&mut options, STATUS_NOT_ON_LINK, "confirm failed");
    }
    Some(Dhcp6Reply { msg_type: Dhcp6MsgType::Reply, xid: pkt.xid, options })
}

/// Answers a RELEASE or DECLINE message.
fn dispatch_release_or_decline(
    pkt: &Dhcp6Packet,
    duid: &[u8],
    lease_db: &mut LeaseDb,
    is_decline: bool,
    Ghost(srv): Ghost<Server>,
) -> (r: Option<Dhcp6Reply>)
    requires
        srv.duid == duid@,
    ensures
        on_release(srv, old(lease_db)@, pkt@, is_decline) == (Outcome {
            reply: reply_view(r),
            leases: final(lease_db)@,
        }),
{
    let client_id: Vec<u8> = extract_client_id(pkt);
    let mut options: Vec<u8> = start_options(client_id.as_slice(), duid);
    let ghost head = options@;
    let ghost done = status6(
        STATUS_SUCCESS,
        if is_decline {
            "success"@
        } else {
            "release received"@
        },
    );
    let ghost mut extra = Seq::<u8>::empty();
    if let Some((iaid, Some(a))) = extract_ia(pkt) {
        if !lease_db.remove_v6_by_clid_iaid_addr(client_id.as_slice(), iaid, &a) {
            push_refused(&mut options, iaid, STATUS_NO_BINDING, "no binding found");
            proof {
                extra = refused(iaid, STATUS_NO_BINDING, "no binding found"@);
            }
        }
    }
    assert(options@ =~= head + extra);
    let message: &str = if is_decline {
        "success"
    } else {
        "release received"
    };
    push_status(&mut options, STATUS_SUCCESS, message);
    assert(options@ =~= head + (extra + done));
    assert(Seq::<u8>::empty() + done =~= done);
    Some(Dhcp6Reply { msg_type: Dhcp6MsgType::Reply, xid: pkt.xid, options })
}

/// Answers an INFORMATION-REQUEST message.
fn dispatch_inforeq(
    pkt: &Dhcp6Packet,
    duid: &[u8],
    Ghost(srv): Ghost<Server>,
    Ghost(ls): Ghost<Seq<LeaseView>>,
) -> (r: Option<Dhcp6Reply>)
    requires
        srv.duid == duid@,
    ensures
        on_inforeq(srv, ls, pkt@) == (Outcome { reply: reply_view(r), leases: ls }),
{
    if find_option6(pkt.options.as_slice(), OPTION6_IA_NA).is_some() || find_option6(
        pkt.options.as_slice(),
        OPTION6_IA_TA,
    ).is_some() {
        return None;
    }
    let client_id: Vec<u8> = extract_client_id(pkt);
    let options: Vec<u8> = start_options(client_id.as_slice(), duid);
    assert(options@ =~= ids(client_id@, duid@) + seq![]);
    Some(Dhcp6Reply { msg_type: Dhcp6MsgType::Reply, xid: pkt.xid, options })
}

/// Answers a message of a client, and updates the leases. `authoritative` says that the server may rebind
/// addresses that it has no lease of; `now_secs` is the time in seconds since the epoch.
pub fn dispatch_dhcp6(
    pkt: &Dhcp6Packet,
    duid: &[u8],
    contexts: &[DhcpContext],
    configs: &[DhcpConfig],
    lease_db: &mut LeaseDb,
    authoritative: bool,
    now_secs: u64,
) -> (r: Option<Dhcp6Reply>)
    ensures
        outcome(server(duid@, contexts@, configs@, authoritative, now_secs), old(lease_db)@, pkt@) == (Outcome {
            reply: reply_view(r),
            leases: final(lease_db)@,
        }),
{
    let ghost srv = server(duid@, contexts@, configs@, authoritative, now_secs);
    let ghost ls = lease_db@;
    match pkt.msg_type {
        Dhcp6MsgType::Solicit => dispatch_solicit(pkt, duid, contexts, configs, lease_db, authoritative, now_secs),
        Dhcp6MsgType::Request => dispatch_request(pkt, duid, contexts, configs, lease_db, authoritative, now_secs),
        Dhcp6MsgType::Renew => dispatch_renew_rebind(
            pkt,
            duid,
            contexts,
            configs,
            lease_db,
            false,
            authoritative,
            now_secs,
        ),
        Dhcp6MsgType::Rebind => dispatch_renew_rebind(
            pkt,
            duid,
            contexts,
            configs,
            lease_db,
            true,
            authoritative,
            now_secs,
        ),
        Dhcp6MsgType::Confirm => dispatch_confirm(pkt, duid, contexts, Ghost(srv), Ghost(ls)),
        Dhcp6MsgType::Release => dispatch_release_or_decline(pkt, duid, lease_db, false, Ghost(srv)),
        Dhcp6MsgType::Decline => dispatch_release_or_decline(pkt, duid, lease_db, true, Ghost(srv)),
        Dhcp6MsgType::InfoReq => dispatch_inforeq(pkt, duid, Ghost(srv), Ghost(ls)),
        _ => None,
    }
}

/// Whether a reply carries the transaction id of its message, and starts with the ids of the client and of
/// the server.
pub open spec fn carries_ids(srv: Server, m: Message, r: Reply) -> bool {
    r.xid == m.xid && ids(client_id_in(m.options), srv.duid).is_prefix_of(r.options)
}

/// Offers carry the ids.
proof fn lemma_offer_carries_ids(
    srv: Server,
    ls: Seq<LeaseView>,
    m: Message,
    iaid: u32,
    addr: Option<Ip6>,
    persist: bool,
    reply_type: Dhcp6MsgType,
    rapid: bool,
)
    ensures
        carries_ids(srv, m, offer(srv, ls, m, iaid, addr, persist, reply_type, rapid).reply->0),
{
    let head = ids(client_id_in(m.options), srv.duid);
    let r = offer(srv, ls, m, iaid, addr, persist, reply_type, rapid).reply->0;
    let commit = option6(OPTION6_RAPID_COMMIT, seq![]);
    let start = if rapid {
        head + commit
    } else {
        head
    };
    assert(head =~= start.take(head.len() as int));
    assert(start =~= r.options.take(start.len() as int));
    assert(head =~= r.options.take(head.len() as int));
}

/// Every reply carries the transaction id of its message, and starts with the ids of the client and of the
/// server.
pub proof fn law_reply_carries_ids(srv: Server, ls: Seq<LeaseView>, m: Message)
    ensures
        outcome(srv, ls, m).reply matches Some(r) ==> carries_ids(srv, m, r),
{
    let clid = client_id_in(m.options);
    let head = ids(clid, srv.duid);
    assert forall|rest: Seq<u8>| head.is_prefix_of(#[trigger] (head + rest)) by {
        assert(head =~= (head + rest).take(head.len() as int));
    }
    if let Some(ia) = ia_in(m.options) {
        if m.msg_type is Solicit {
            let rapid = option6_in(m.options, OPTION6_RAPID_COMMIT) is Some;
            let reply_type = if rapid {
                Dhcp6MsgType::Reply
            } else {
                Dhcp6MsgType::Advertise
            };
            lemma_offer_carries_ids(
                srv,
                ls,
                m,
                ia.iaid,
                address_for(srv, ls, clid, ia.iaid, ia.addr),
                rapid,
                reply_type,
                rapid,
            );
        }
        if m.msg_type is Request && ia.addr is None {
            lemma_offer_carries_ids(
                srv,
                ls,
                m,
                ia.iaid,
                address_for(srv, ls, clid, ia.iaid, None),
                true,
                Dhcp6MsgType::Reply,
                false,
            );
        }
    }
}

/// Only REQUEST, RENEW, REBIND, RELEASE and DECLINE messages change the leases, and SOLICIT messages with
/// rapid commit.
pub proof fn law_leases_stay(srv: Server, ls: Seq<LeaseView>, m: Message)
    requires
        !(m.msg_type is Request) && !(m.msg_type is Renew) && !(m.msg_type is Rebind) && !(m.msg_type is Release) && !(
        m.msg_type is Decline),
        m.msg_type is Solicit ==> option6_in(m.options, OPTION6_RAPID_COMMIT) is None,
    ensures
        outcome(srv, ls, m).leases == ls,
{
}

/// No address is leased twice, whatever messages come in.
pub proof fn law_no_address_leased_twice(srv: Server, ls: Seq<LeaseView>, m: Message)
    requires
        no_addr_twice(ls),
    ensures
        no_addr_twice(outcome(srv, ls, m).leases),
{
    let clid = client_id_in(m.options);
    if let Some(ia) = ia_in(m.options) {
        if let Some(a) = ia.addr {
            law_bind_then_find(ls, lease_for(srv, clid, ia.iaid, a), a);
            if of_client_at(ls, clid, ia.iaid, a, 0) is Some {
                law_given_back_is_free(ls, clid, ia.iaid, a);
            }
        }
        let chosen = address_for(srv, ls, clid, ia.iaid, ia.addr);
        if let Some(a) = chosen {
            law_bind_then_find(ls, lease_for(srv, clid, ia.iaid, a), a);
        }
        let other = address_for(srv, ls, clid, ia.iaid, None);
        if let Some(a) = other {
            law_bind_then_find(ls, lease_for(srv, clid, ia.iaid, a), a);
        }
    }
}

/// A REQUEST for an address that is not refused leases that address to its client, and all other leases
/// stay.
pub proof fn law_granted_request_is_leased(srv: Server, ls: Seq<LeaseView>, m: Message, other: Ip6)
    requires
        m.msg_type is Request,
        no_addr_twice(ls),
        ia_in(m.options) matches Some(ia) && ia.addr matches Some(a) && request_refusal(
            srv,
            ls,
            client_id_in(m.options),
            ia.iaid,
            a,
        ) is None,
    ensures
        ({
            let ia = ia_in(m.options)->0;
            let a = ia.addr->0;
            let after = outcome(srv, ls, m).leases;
            &&& at_addr(after, a, 0) matches Some(i)
            &&& held_by(after[i], client_id_in(m.options), ia.iaid)
            &&& other != a ==> at_addr(after, other, 0) == at_addr(ls, other, 0)
        }),
{
    let ia = ia_in(m.options)->0;
    law_bind_then_find(ls, lease_for(srv, client_id_in(m.options), ia.iaid, ia.addr->0), other);
}

/// A refused REQUEST changes no lease.
pub proof fn law_refused_request_changes_nothing(srv: Server, ls: Seq<LeaseView>, m: Message)
    requires
        m.msg_type is Request,
        ia_in(m.options) matches Some(ia) && ia.addr matches Some(a) && request_refusal(
            srv,
            ls,
            client_id_in(m.options),
            ia.iaid,
            a,
        ) is Some,
    ensures
        outcome(srv, ls, m).leases == ls,
{
}

/// A RENEW message makes no new lease, and neither does a REBIND message where the server is not authoritative.
pub proof fn law_renew_makes_no_lease(srv: Server, ls: Seq<LeaseView>, m: Message)
    requires
        m.msg_type is Renew || (m.msg_type is Rebind && !srv.authoritative),
    ensures
        outcome(srv, ls, m).leases.len() == ls.len(),
{
    let clid = client_id_in(m.options);
    if let Some(ia) = ia_in(m.options) {
        if let Some(a) = ia.addr {
            lemma_at_addr(ls, a, 0);
            lemma_of_client_at(ls, clid, ia.iaid, a, 0);
        }
    }
}

/// After a RELEASE or DECLINE message its client has no lease of the address, and the address can be given
/// to another where the client had it.
pub proof fn law_released_address_is_free(srv: Server, ls: Seq<LeaseView>, m: Message)
    requires
        m.msg_type is Release || m.msg_type is Decline,
        no_addr_twice(ls),
        ia_in(m.options) matches Some(ia) && ia.addr is Some,
    ensures
        ({
            let clid = client_id_in(m.options);
            let ia = ia_in(m.options)->0;
            let a = ia.addr->0;
            let after = outcome(srv, ls, m).leases;
            &&& of_client_at(after, clid, ia.iaid, a, 0) is None
            &&& of_client_at(ls, clid, ia.iaid, a, 0) is Some ==> at_addr(after, a, 0) is None
        }),
{
    let clid = client_id_in(m.options);
    let ia = ia_in(m.options)->0;
    let a = ia.addr->0;
    if of_client_at(ls, clid, ia.iaid, a, 0) is Some {
        law_given_back_is_free(ls, clid, ia.iaid, a);
        let after = outcome(srv, ls, m).leases;
        lemma_at_addr(after, a, 0);
        lemma_of_client_at(after, clid, ia.iaid, a, 0);
    }
}

/// The first lease that a client holds under a number is one that it holds.
proof fn lemma_of_client(ls: Seq<LeaseView>, clid: Seq<u8>, iaid: u32, i: int)
    requires
        0 <= i,
    ensures
        of_client(ls, clid, iaid, i) matches Some(k) ==> i <= k < ls.len() && held_by(ls[k], clid, iaid),
    decreases ls.len() - i,
{
    if i < ls.len() {
        lemma_of_client(ls, clid, iaid, i + 1);
    }
}

/// The address that is chosen for a client is leased to no other client, and not to this one under another
/// number.
pub proof fn law_chosen_address_is_free(
    srv: Server,
    ls: Seq<LeaseView>,
    clid: Seq<u8>,
    iaid: u32,
    requested: Option<Ip6>,
)
    requires
        no_addr_twice(ls),
    ensures
        address_for(srv, ls, clid, iaid, requested) matches Some(a) ==> free_for(ls, clid, iaid, a),
{
    lemma_of_client(ls, clid, iaid, 0);
    law_allocated_address(srv.contexts, sdbm(clid, iaid), seq![], used_addrs(ls, srv.configs), 0);
    if let Some(a) = address_for(srv, ls, clid, iaid, requested) {
        lemma_at_addr(ls, a, 0);
    }
}

/// Binding an address that is free for a client takes no lease from another one.
proof fn lemma_bound_keeps(srv: Server, ls: Seq<LeaseView>, clid: Seq<u8>, iaid: u32, a: Ip6, k: int)
    requires
        0 <= k < ls.len(),
        ls[k].clid != Some(clid),
        free_for(ls, clid, iaid, a),
    ensures
        bound(ls, lease_for(srv, clid, iaid, a)).contains(ls[k]),
{
    lemma_at_addr(ls, a, 0);
    assert(bound(ls, lease_for(srv, clid, iaid, a))[k] == ls[k]);
}

/// A message of one client takes no lease from another client, except that an authoritative server hands over
/// an address to the client that rebinds it.
pub proof fn law_leases_of_others_stay(srv: Server, ls: Seq<LeaseView>, m: Message, k: int)
    requires
        no_addr_twice(ls),
        0 <= k < ls.len(),
        ls[k].clid != Some(client_id_in(m.options)),
        !(m.msg_type is Rebind && srv.authoritative),
    ensures
        outcome(srv, ls, m).leases.contains(ls[k]),
{
    let clid = client_id_in(m.options);
    assert(ls.contains(ls[k]));
    if let Some(ia) = ia_in(m.options) {
        law_chosen_address_is_free(srv, ls, clid, ia.iaid, ia.addr);
        law_chosen_address_is_free(srv, ls, clid, ia.iaid, None);
        if let Some(a) = address_for(srv, ls, clid, ia.iaid, ia.addr) {
            lemma_bound_keeps(srv, ls, clid, ia.iaid, a, k);
        }
        if let Some(a) = address_for(srv, ls, clid, ia.iaid, None) {
            lemma_bound_keeps(srv, ls, clid, ia.iaid, a, k);
        }
        if let Some(a) = ia.addr {
            lemma_at_addr(ls, a, 0);
            lemma_of_client_at(ls, clid, ia.iaid, a, 0);
            if free_for(ls, clid, ia.iaid, a) {
                lemma_bound_keeps(srv, ls, clid, ia.iaid, a, k);
            }
            if let Some(i) = of_client_at(ls, clid, ia.iaid, a, 0) {
                let after = ls.remove(i);
                if k < i {
                    assert(after[k] == ls[k]);
                } else {
                    assert(after[k - 1] == ls[k]);
                }
            }
        }
    }
}

} // verus!
