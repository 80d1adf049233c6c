//! What a client reads in the reply to its message.

use super::dispatch::{
    address_for, context_at, expiry, granted, ids, lease_for, no_addrs, offer, outcome, refused, request_refusal, success, times_for,
    Message, Outcome, Server,
};
use super::laws::{giveable, law_client_keeps_its_address, law_requested_address_is_given};
use super::packet::{
    addr_option, client_id_in, first_option6, ia_in, ia_option, ip6_bytes, law_ip6_round_trip, law_option6_round_trip, option6,
    option6_in, options6_from, status6, Ia, Reply,
};
use super::pool::{available, law_available_is_on_link, on_link, reserved, same_net};
use crate::addr::Ip6;
use crate::dhcp6_protocol::{
    Dhcp6MsgType, OPTION6_CLIENT_ID, OPTION6_IAADDR, OPTION6_IA_NA, OPTION6_PREFERENCE, OPTION6_RAPID_COMMIT, OPTION6_SERVER_ID,
    OPTION6_STATUS_CODE,
};
use crate::dhcp_common::describe::ip6_at;
use crate::dhcp_types::ContextView;
use crate::lease::{at_addr, bound, given_back, lemma_at_addr, lemma_of_client_at, of_client_at, LeaseView};
use crate::rfc3315::status_data;
use crate::wire::{be16, be16_bytes, be32, be32_bytes};
use vstd::prelude::*;
use vstd::utf8::{encode_scalar, encode_utf8};

verus! {

/// What a reply gives a client: an address with its lifetimes, under the number that the client chose, and when to renew
/// and to rebind it.
#[verifier::ext_equal]
pub struct Grant {
    pub iaid: u32,
    pub t1: u32,
    pub t2: u32,
    pub addr: Ip6,
    pub preferred: u32,
    pub valid: u32,
}

/// What a client reads of an address in options: in the first association, the first address.
pub open spec fn grant_in(options: Seq<u8>) -> Option<Grant> {
    match option6_in(options, 3) {
        Some(d) => if d.len() < 12 {
            None
        } else {
            match option6_in(d.skip(12), 5) {
                Some(e) => if e.len() < 24 {
                    None
                } else {
                    Some(
                        Grant {
                            iaid: be32(d, 0),
                            t1: be32(d, 4),
                            t2: be32(d, 8),
                            addr: ip6_at(e, 0),
                            preferred: be32(e, 16),
                            valid: be32(e, 20),
                        },
                    )
                },
                None => None,
            }
        },
        None => None,
    }
}

/// The code in the first status among options.
pub open spec fn status_in(options: Seq<u8>) -> Option<u16> {
    match option6_in(options, 13) {
        Some(d) => if d.len() < 2 {
            None
        } else {
            Some(be16(d, 0))
        },
        None => None,
    }
}

/// The code in the first status in the first association among options, and the number of that association.
pub open spec fn ia_status_in(options: Seq<u8>) -> Option<(u32, u16)> {
    match option6_in(options, 3) {
        Some(d) => if d.len() < 12 {
            None
        } else {
            match status_in(d.skip(12)) {
                Some(code) => Some((be32(d, 0), code)),
                None => None,
            }
        },
        None => None,
    }
}

/// Text takes at most four bytes for each character.
proof fn lemma_text_len(s: Seq<char>)
    ensures
        encode_utf8(s).len() <= 4 * s.len(),
    decreases s.len(),
{
    if s.len() > 0 {
        lemma_text_len(s.drop_first());
        assert(encode_scalar(s[0] as u32).len() <= 4);
    }
}

/// The data of an option fits its length field.
proof fn lemma_option_len(entries: Seq<(u16, Seq<u8>)>, code: u16)
    requires
        forall|k: int| 0 <= k < entries.len() ==> (#[trigger] entries[k]).1.len() < 0x1_0000,
    ensures
        first_option6(entries, code) matches Some(d) ==> d.len() < 0x1_0000,
    decreases entries.len(),
{
    if entries.len() > 0 && entries[0].0 != code {
        assert forall|k: int| 0 <= k < entries.skip(1).len() implies (#[trigger] entries.skip(1)[k]).1.len() < 0x1_0000 by {
            assert(entries[k + 1].1.len() < 0x1_0000);
        }
        lemma_option_len(entries.skip(1), code);
    }
}

/// The data of every option fits its length field.
proof fn lemma_options_len(s: Seq<u8>, i: int)
    ensures
        forall|k: int| 0 <= k < options6_from(s, i).len() ==> (#[trigger] options6_from(s, i)[k]).1.len() < 0x1_0000,
    decreases s.len() - i,
{
    if !(i < 0 || i + 4 > s.len() || i + 4 + be16(s, i + 2) > s.len()) {
        let end = i + 4 + be16(s, i + 2);
        lemma_options_len(s, end);
        let all = options6_from(s, i);
        assert forall|k: int| 0 <= k < all.len() implies (#[trigger] all[k]).1.len() < 0x1_0000 by {
            if k > 0 {
                assert(all[k] == options6_from(s, end)[k - 1]);
            }
        }
    }
}

/// The id of a client fits the length field of its option.
proof fn lemma_client_id_len(options: Seq<u8>)
    ensures
        client_id_in(options).len() < 0x1_0000,
{
    lemma_options_len(options, 0);
    lemma_option_len(options6_from(options, 0), OPTION6_CLIENT_ID);
}

/// What follows the ids in a reply is read as it stands.
proof fn lemma_after_ids(clid: Seq<u8>, duid: Seq<u8>, rest: Seq<u8>, code: u16)
    requires
        clid.len() < 0x1_0000,
        duid.len() < 0x1_0000,
        code != 1 && code != 2,
    ensures
        option6_in(ids(clid, duid) + rest, code) == option6_in(rest, code),
        option6_in(ids(clid, duid) + rest, 1) == Some(clid),
        option6_in(ids(clid, duid) + rest, 2) == Some(duid),
{
    let tail = option6(OPTION6_SERVER_ID, duid) + rest;
    assert(ids(clid, duid) + rest =~= option6(OPTION6_CLIENT_ID, clid) + tail);
    law_option6_round_trip(OPTION6_CLIENT_ID, clid, tail);
    law_option6_round_trip(OPTION6_SERVER_ID, duid, rest);
}

/// The numbers at the start of bytes that were written one after another.
proof fn lemma_words(a: u32, b: u32, c: u32, rest: Seq<u8>)
    ensures
        ({
            let d = be32_bytes(a) + be32_bytes(b) + be32_bytes(c) + rest;
            &&& d.len() == 12 + rest.len()
            &&& be32(d, 0) == a
            &&& be32(d, 4) == b
            &&& be32(d, 8) == c
            &&& d.skip(12) == rest
        }),
{
    let d = be32_bytes(a) + be32_bytes(b) + be32_bytes(c) + rest;
    assert(d[0] == be32_bytes(a)[0] && d[1] == be32_bytes(a)[1] && d[2] == be32_bytes(a)[2] && d[3] == be32_bytes(a)[3]);
    assert(d[4] == be32_bytes(b)[0] && d[5] == be32_bytes(b)[1] && d[6] == be32_bytes(b)[2] && d[7] == be32_bytes(b)[3]);
    assert(d[8] == be32_bytes(c)[0] && d[9] == be32_bytes(c)[1] && d[10] == be32_bytes(c)[2] && d[11] == be32_bytes(c)[3]);
    lemma_word(a);
    lemma_word(b);
    lemma_word(c);
    assert(d.skip(12) =~= rest);
}

/// A number is made of its bytes.
proof fn lemma_word(x: u32)
    ensures
        ({
            let b = be32_bytes(x);
            b[0] * 0x100_0000 + b[1] * 0x1_0000 + b[2] * 0x100 + b[3] == x
        }),
{
    crate::wire::lemma_be32_round_trip(x);
}

/// The data of an address with its lifetimes is read back.
proof fn lemma_addr_data(a: Ip6, preferred: u32, valid: u32)
    ensures
        ({
            let e = ip6_bytes(a) + be32_bytes(preferred) + be32_bytes(valid);
            &&& e.len() == 24
            &&& ip6_at(e, 0) == a
            &&& be32(e, 16) == preferred
            &&& be32(e, 20) == valid
        }),
{
    let e = ip6_bytes(a) + be32_bytes(preferred) + be32_bytes(valid);
    let tail = be32_bytes(preferred) + be32_bytes(valid);
    law_ip6_round_trip(a, tail);
    assert(ip6_bytes(a) + tail =~= e);
    let (p, v) = (be32_bytes(preferred), be32_bytes(valid));
    assert(e[16] == p[0] && e[17] == p[1] && e[18] == p[2] && e[19] == p[3]);
    assert(e[20] == v[0] && e[21] == v[1] && e[22] == v[2] && e[23] == v[3]);
    lemma_word(preferred);
    lemma_word(valid);
}

/// An association that holds an address is read back.
proof fn lemma_ia_addr(iaid: u32, t1: u32, t2: u32, a: Ip6, preferred: u32, valid: u32, rest: Seq<u8>)
    ensures
        ({
            let s = ia_option(iaid, t1, t2, addr_option(a, preferred, valid)) + rest;
            &&& grant_in(s) == Some(Grant { iaid, t1, t2, addr: a, preferred, valid })
            &&& ia_in(s) == Some(Ia { iaid, addr: Some(a) })
            &&& ia_status_in(s) is None
            &&& option6_in(s, 13) == option6_in(rest, 13)
        }),
{
    let e = ip6_bytes(a) + be32_bytes(preferred) + be32_bytes(valid);
    lemma_addr_data(a, preferred, valid);
    let sub = addr_option(a, preferred, valid);
    let none = Seq::<u8>::empty();
    law_option6_round_trip(OPTION6_IAADDR, e, none);
    assert(sub + none =~= sub);
    assert(option6_in(sub, 5) == Some(e));
    assert(option6_in(sub, 13) is None) by {
        assert(option6_in(sub + none, 13) == option6_in(none, 13));
    }
    let d = be32_bytes(iaid) + be32_bytes(t1) + be32_bytes(t2) + sub;
    lemma_words(iaid, t1, t2, sub);
    law_option6_round_trip(OPTION6_IA_NA, d, rest);
}

/// An association that holds a status is read back.
proof fn lemma_ia_status(iaid: u32, code: u16, message: Seq<char>, rest: Seq<u8>)
    requires
        message.len() < 0x1000,
    ensures
        ({
            let s = refused(iaid, code, message) + rest;
            &&& grant_in(s) is None
            &&& ia_status_in(s) == Some((iaid, code))
            &&& option6_in(s, 13) == option6_in(rest, 13)
        }),
{
    lemma_text_len(message);
    let sub = status6(code, message);
    let none = Seq::<u8>::empty();
    lemma_status(code, message, none);
    assert(sub + none =~= sub);
    law_option6_round_trip(OPTION6_STATUS_CODE, status_data(code, message), none);
    assert(option6_in(sub, 5) is None) by {
        assert(option6_in(sub + none, 5) == option6_in(none, 5));
    }
    let d = be32_bytes(iaid) + be32_bytes(0) + be32_bytes(0) + sub;
    lemma_words(iaid, 0, 0, sub);
    law_option6_round_trip(OPTION6_IA_NA, d, rest);
}

/// A status is read back.
proof fn lemma_status(code: u16, message: Seq<char>, rest: Seq<u8>)
    requires
        message.len() < 0x1000,
    ensures
        status_in(status6(code, message) + rest) == Some(code),
        option6_in(status6(code, message) + rest, 3) == option6_in(rest, 3),
        option6_in(status6(code, message) + rest, 14) == option6_in(rest, 14),
{
    lemma_text_len(message);
    let d = status_data(code, message);
    law_option6_round_trip(OPTION6_STATUS_CODE, d, rest);
    assert(d[0] == be16_bytes(code)[0] && d[1] == be16_bytes(code)[1]);
    assert(be16(d, 0) == code);
}

/// The lifetimes by a lease time: the address is preferred and valid for as long; the client is to renew after a half, and
/// to rebind after seven eighths. A lease time of all ones stands for ever.
pub open spec fn lasts(g: Grant, lease_time: u32) -> bool {
    &&& g.preferred == lease_time
    &&& g.valid == lease_time
    &&& lease_time == 0xffff_ffff ==> g.t1 == 0xffff_ffff && g.t2 == 0xffff_ffff
    &&& lease_time != 0xffff_ffff ==> 2 * g.t1 <= lease_time < 2 * g.t1 + 2 && g.t2 % 7 == 0 && 8 * g.t2 <= 7 * lease_time
        < 8 * g.t2 + 56
}

/// Whether the lease time for an address is this one: that of the first range whose network it is on, or an hour where there
/// is no such range.
pub open spec fn lease_time_is(ctxs: Seq<ContextView>, a: Ip6, lease_time: u32) -> bool {
    ||| exists|i: int|
        0 <= i < ctxs.len() && same_net((#[trigger] ctxs[i]).start6, a, ctxs[i].prefix) && ctxs[i].lease_time == lease_time && forall|
            j: int,
        |
            0 <= j < i ==> !same_net((#[trigger] ctxs[j]).start6, a, ctxs[j].prefix)
    ||| lease_time == 3600 && !on_link(ctxs, a)
}

/// When a lease ends that is made now: after its lease time, or never where that stands for ever.
pub open spec fn ends_after(now: u64, lease_time: u32) -> Option<u64> {
    if lease_time == 0xffff_ffff {
        None
    } else if now > u64::MAX - lease_time {
        Some(u64::MAX)
    } else {
        Some((now + lease_time) as u64)
    }
}

/// Where the search for the range of an address ends.
proof fn lemma_context_at(ctxs: Seq<ContextView>, a: Ip6, i: int) -> (k: int)
    requires
        0 <= i <= ctxs.len(),
    ensures
        i <= k <= ctxs.len(),
        forall|j: int| i <= j < k ==> !same_net((#[trigger] ctxs[j]).start6, a, ctxs[j].prefix),
        k < ctxs.len() ==> context_at(ctxs, a, i) == Some(ctxs[k]) && same_net(ctxs[k].start6, a, ctxs[k].prefix),
        k == ctxs.len() ==> context_at(ctxs, a, i) is None,
    decreases ctxs.len() - i,
{
    if i < ctxs.len() && !same_net(ctxs[i].start6, a, ctxs[i].prefix) {
        let k = lemma_context_at(ctxs, a, i + 1);
        assert forall|j: int| i <= j < k implies !same_net((#[trigger] ctxs[j]).start6, a, ctxs[j].prefix) by {
            if j == i {
                assert(!same_net(ctxs[i].start6, a, ctxs[i].prefix));
            }
        }
        k
    } else {
        i
    }
}

/// The lifetimes of an address are by its lease time.
proof fn lemma_times(srv: Server, a: Ip6, lease_time: u32)
    requires
        lease_time_is(srv.contexts, a, lease_time),
    ensures
        ({
            let t = times_for(srv.contexts, a);
            lasts(
                (Grant { iaid: 0, t1: t.t1, t2: t.t2, addr: a, preferred: t.preferred, valid: t.valid }),
                lease_time,
            )
        }),
        expiry(times_for(srv.contexts, a).valid, srv.now) == ends_after(srv.now, lease_time),
{
    let ctxs = srv.contexts;
    let k = lemma_context_at(ctxs, a, 0);
    if exists|i: int|
        0 <= i < ctxs.len() && same_net((#[trigger] ctxs[i]).start6, a, ctxs[i].prefix) && ctxs[i].lease_time == lease_time && forall|
            j: int,
        |
            0 <= j < i ==> !same_net((#[trigger] ctxs[j]).start6, a, ctxs[j].prefix) {
        let i = choose|i: int|
            0 <= i < ctxs.len() && same_net((#[trigger] ctxs[i]).start6, a, ctxs[i].prefix) && ctxs[i].lease_time == lease_time
                && forall|j: int| 0 <= j < i ==> !same_net((#[trigger] ctxs[j]).start6, a, ctxs[j].prefix);
        if k < i {
            assert(!same_net(ctxs[k].start6, a, ctxs[k].prefix));
        }
        if i < k {
            assert(!same_net(ctxs[i].start6, a, ctxs[i].prefix));
        }
        assert(k == i);
    } else {
        if k < ctxs.len() {
            assert(same_net(ctxs[k].start6, a, ctxs[k].prefix));
        }
        assert(k == ctxs.len());
    }
    let l = lease_time as int;
    assert(2 * (l / 2) <= l < 2 * (l / 2) + 2);
    assert(8 * (l / 8 * 7) <= 7 * l < 8 * (l / 8 * 7) + 56);
    assert((l / 8 * 7) % 7 == 0);
}

/// Whether a reply gives a client an address under its number, for the lease time.
pub open spec fn gives(r: Reply, iaid: u32, a: Ip6, lease_time: u32) -> bool {
    grant_in(r.options) matches Some(g) && g.iaid == iaid && g.addr == a && lasts(g, lease_time)
}

/// Whether a client has a lease of an address that was made now, for the lease time.
pub open spec fn leased_now(ls: Seq<LeaseView>, m: Message, iaid: u32, a: Ip6, now: u64, lease_time: u32) -> bool {
    exists|k: int|
        0 <= k < ls.len() && (#[trigger] ls[k]).addr6 == a && ls[k].clid == Some(client_id_in(m.options)) && ls[k].iaid == iaid
            && ls[k].expires == ends_after(now, lease_time)
}

/// What stands after the ids and a rapid commit, if any, is read as it stands.
proof fn lemma_after_head(clid: Seq<u8>, duid: Seq<u8>, head: Seq<u8>, body: Seq<u8>, code: u16)
    requires
        clid.len() < 0x1_0000,
        duid.len() < 0x1_0000,
        head == Seq::<u8>::empty() || head == option6(OPTION6_RAPID_COMMIT, seq![]),
        code != 1 && code != 2,
    ensures
        code != 14 ==> option6_in(ids(clid, duid) + head + body, code) == option6_in(body, code),
        head == Seq::<u8>::empty() ==> option6_in(ids(clid, duid) + head + body, 14) == option6_in(body, 14),
        head != Seq::<u8>::empty() ==> option6_in(ids(clid, duid) + head + body, 14) is Some,
{
    let start = ids(clid, duid);
    assert(start + head + body =~= start + (head + body));
    lemma_after_ids(clid, duid, head + body, code);
    lemma_after_ids(clid, duid, head + body, 14);
    if head == Seq::<u8>::empty() {
        assert(head + body =~= body);
    } else {
        law_option6_round_trip(OPTION6_RAPID_COMMIT, seq![], body);
    }
}

/// What gives an address is read back.
proof fn lemma_granted_body(srv: Server, iaid: u32, a: Ip6, lease_time: u32, rest: Seq<u8>)
    requires
        lease_time_is(srv.contexts, a, lease_time),
    ensures
        ({
            let body = granted(srv, iaid, a) + success() + rest;
            &&& grant_in(body) matches Some(g) && g.iaid == iaid && g.addr == a && lasts(g, lease_time)
            &&& ia_status_in(body) is None
            &&& status_in(body) == Some(0u16)
            &&& option6_in(body, 14) == option6_in(rest, 14)
        }),
{
    reveal_strlit("success");
    lemma_times(srv, a, lease_time);
    let t = times_for(srv.contexts, a);
    let tail = success() + rest;
    let gift = granted(srv, iaid, a);
    assert(gift + success() + rest =~= gift + tail);
    lemma_ia_addr(iaid, t.t1, t.t2, a, t.preferred, t.valid, tail);
    lemma_status(0, "success"@, rest);
    lemma_ia_other(iaid, t.t1, t.t2, a, t.preferred, t.valid, tail, 14);
}

/// What stands after the ids, and gives an address, is read back.
proof fn lemma_granted(srv: Server, m: Message, iaid: u32, a: Ip6, lease_time: u32, head: Seq<u8>, rest: Seq<u8>)
    requires
        srv.duid.len() < 0x1_0000,
        lease_time_is(srv.contexts, a, lease_time),
        head == Seq::<u8>::empty() || head == option6(OPTION6_RAPID_COMMIT, seq![]),
    ensures
        ({
            let options = ids(client_id_in(m.options), srv.duid) + head + granted(srv, iaid, a) + success() + rest;
            &&& grant_in(options) matches Some(g) && g.iaid == iaid && g.addr == a && lasts(g, lease_time)
            &&& ia_status_in(options) is None
            &&& status_in(options) == Some(0u16)
            &&& head == Seq::<u8>::empty() ==> option6_in(options, 14) == option6_in(rest, 14)
            &&& head != Seq::<u8>::empty() ==> option6_in(options, 14) is Some
        }),
{
    lemma_client_id_len(m.options);
    let clid = client_id_in(m.options);
    let start = ids(clid, srv.duid);
    let gift = granted(srv, iaid, a);
    let done = success();
    let body = gift + done + rest;
    assert(start + head + gift + done + rest =~= start + head + body);
    lemma_after_head(clid, srv.duid, head, body, 3);
    lemma_after_head(clid, srv.duid, head, body, 13);
    lemma_granted_body(srv, iaid, a, lease_time, rest);
}

/// An association hides no other option.
proof fn lemma_ia_other(iaid: u32, t1: u32, t2: u32, a: Ip6, preferred: u32, valid: u32, rest: Seq<u8>, code: u16)
    requires
        code != 3,
    ensures
        option6_in(ia_option(iaid, t1, t2, addr_option(a, preferred, valid)) + rest, code) == option6_in(rest, code),
{
    let sub = addr_option(a, preferred, valid);
    lemma_addr_data(a, preferred, valid);
    lemma_words(iaid, t1, t2, sub);
    law_option6_round_trip(OPTION6_IA_NA, be32_bytes(iaid) + be32_bytes(t1) + be32_bytes(t2) + sub, rest);
}

/// A lease that is bound is there.
proof fn lemma_bound(srv: Server, ls: Seq<LeaseView>, m: Message, iaid: u32, a: Ip6, lease_time: u32)
    requires
        lease_time_is(srv.contexts, a, lease_time),
    ensures
        leased_now(bound(ls, lease_for(srv, client_id_in(m.options), iaid, a)), m, iaid, a, srv.now, lease_time),
{
    lemma_times(srv, a, lease_time);
    lemma_at_addr(ls, a, 0);
    let l = lease_for(srv, client_id_in(m.options), iaid, a);
    let after = bound(ls, l);
    match at_addr(ls, a, 0) {
        Some(i) => {
            assert(after[i] == l);
        },
        None => {
            assert(after[ls.len() as int] == l);
        },
    }
}

/// What gives a client an address: a reply that says so, and a lease.
spec fn grants(srv: Server, ls: Seq<LeaseView>, m: Message, iaid: u32, a: Ip6) -> Outcome {
    Outcome {
        reply: Some(
            Reply {
                msg_type: Dhcp6MsgType::Reply,
                xid: m.xid,
                options: ids(client_id_in(m.options), srv.duid) + (granted(srv, iaid, a) + success()),
            },
        ),
        leases: bound(ls, lease_for(srv, client_id_in(m.options), iaid, a)),
    }
}

/// A reply that gives a client an address is read so.
proof fn lemma_granted_reply(srv: Server, ls: Seq<LeaseView>, m: Message, iaid: u32, a: Ip6, lease_time: u32)
    requires
        srv.duid.len() < 0x1_0000,
        lease_time_is(srv.contexts, a, lease_time),
    ensures
        ({
            let out = grants(srv, ls, m, iaid, a);
            &&& out.reply matches Some(r)
            &&& gives(r, iaid, a, lease_time)
            &&& status_in(r.options) == Some(0u16)
            &&& leased_now(out.leases, m, iaid, a, srv.now, lease_time)
        }),
{
    let clid = client_id_in(m.options);
    let none = Seq::<u8>::empty();
    lemma_granted(srv, m, iaid, a, lease_time, none, none);
    lemma_bound(srv, ls, m, iaid, a, lease_time);
    let r = grants(srv, ls, m, iaid, a).reply->0;
    assert(ids(clid, srv.duid) + none + granted(srv, iaid, a) + success() + none =~= r.options);
}

/// What stands after the ids, and refuses an address, is read back.
proof fn lemma_refused(srv: Server, m: Message, iaid: u32, code: u16, message: Seq<char>, head: Seq<u8>, rest: Seq<u8>)
    requires
        srv.duid.len() < 0x1_0000,
        message.len() < 0x1000,
        head == Seq::<u8>::empty() || head == option6(OPTION6_RAPID_COMMIT, seq![]),
    ensures
        ({
            let options = ids(client_id_in(m.options), srv.duid) + head + refused(iaid, code, message) + rest;
            &&& grant_in(options) is None
            &&& ia_status_in(options) == Some((iaid, code))
            &&& status_in(options) == status_in(rest)
        }),
{
    lemma_client_id_len(m.options);
    let clid = client_id_in(m.options);
    let start = ids(clid, srv.duid);
    let answer = refused(iaid, code, message);
    let body = answer + rest;
    assert(start + head + answer + rest =~= start + head + body);
    lemma_after_head(clid, srv.duid, head, body, 3);
    lemma_after_head(clid, srv.duid, head, body, 13);
    lemma_ia_status(iaid, code, message, rest);
}

/// How much a server wants to be chosen: an authoritative one before all others.
pub open spec fn preference_of(srv: Server) -> u8 {
    if srv.authoritative {
        255
    } else {
        0
    }
}

/// The preference at the end of an offer is read back.
proof fn lemma_preference(srv: Server, m: Message, iaid: u32, a: Ip6, head: Seq<u8>, pref: Seq<u8>)
    requires
        srv.duid.len() < 0x1_0000,
        pref.len() == 1,
        head == Seq::<u8>::empty() || head == option6(OPTION6_RAPID_COMMIT, seq![]),
    ensures
        option6_in(
            ids(client_id_in(m.options), srv.duid) + head + granted(srv, iaid, a) + success() + option6(OPTION6_PREFERENCE, pref),
            7,
        ) == Some(pref),
{
    reveal_strlit("success");
    lemma_client_id_len(m.options);
    let clid = client_id_in(m.options);
    let start = ids(clid, srv.duid);
    let rest = option6(OPTION6_PREFERENCE, pref);
    let tail = success() + rest;
    let gift = granted(srv, iaid, a);
    let t = times_for(srv.contexts, a);
    assert(start + head + gift + success() + rest =~= start + head + (gift + tail));
    lemma_after_head(clid, srv.duid, head, gift + tail, 7);
    lemma_ia_other(iaid, t.t1, t.t2, a, t.preferred, t.valid, tail, 7);
    lemma_text_len("success"@);
    law_option6_round_trip(OPTION6_STATUS_CODE, status_data(0, "success"@), rest);
    law_option6_round_trip(OPTION6_PREFERENCE, pref, seq![]);
    assert(rest + seq![] =~= rest);
}

/// What an offer says.
proof fn lemma_offer(
    srv: Server,
    ls: Seq<LeaseView>,
    m: Message,
    iaid: u32,
    addr: Option<Ip6>,
    persist: bool,
    reply_type: Dhcp6MsgType,
    rapid: bool,
    lease_time: u32,
)
    requires
        srv.duid.len() < 0x1_0000,
        addr matches Some(a) ==> lease_time_is(srv.contexts, a, lease_time),
    ensures
        ({
            let out = offer(srv, ls, m, iaid, addr, persist, reply_type, rapid);
            &&& out.reply matches Some(r)
            &&& r.xid == m.xid
            &&& r.msg_type == reply_type
            &&& match addr {
                Some(a) => {
                    &&& gives(r, iaid, a, lease_time)
                    &&& status_in(r.options) == Some(0u16)
                    &&& option6_in(r.options, 14) is Some <==> rapid
                    &&& option6_in(r.options, 7) == Some(seq![preference_of(srv)])
                    &&& persist ==> leased_now(out.leases, m, iaid, a, srv.now, lease_time)
                    &&& !persist ==> out.leases == ls
                },
                None => {
                    &&& grant_in(r.options) is None
                    &&& ia_status_in(r.options) == Some((iaid, 2u16))
                    &&& status_in(r.options) == Some(2u16)
                    &&& out.leases == ls
                },
            }
        }),
{
    let clid = client_id_in(m.options);
    let start = ids(clid, srv.duid);
    let none = Seq::<u8>::empty();
    let head = if rapid {
        option6(OPTION6_RAPID_COMMIT, seq![])
    } else {
        none
    };
    assert(rapid ==> head != none) by {
        if rapid {
            assert(head.len() > 0);
        }
    }
    assert(start + none =~= start);
    match addr {
        Some(a) => {
            let pref = seq![
                if srv.authoritative {
                    255u8
                } else {
                    0u8
                },
            ];
            let rest = option6(OPTION6_PREFERENCE, pref);
            lemma_granted(srv, m, iaid, a, lease_time, head, rest);
            lemma_preference(srv, m, iaid, a, head, pref);
            lemma_bound(srv, ls, m, iaid, a, lease_time);
            assert(option6_in(rest, 14) is None) by {
                law_option6_round_trip(OPTION6_PREFERENCE, pref, none);
                assert(rest + none =~= rest);
                assert(option6_in(rest + none, 14) == option6_in(none, 14));
            }
        },
        None => {
            reveal_strlit("address unavailable");
            reveal_strlit("no addresses available");
            lemma_refused(srv, m, iaid, 2, "address unavailable"@, head, no_addrs());
            lemma_status(2, "no addresses available"@, none);
            assert(no_addrs() + none =~= no_addrs());
        },
    }
}

/// A SOLICIT message with an association is answered with its transaction id: by an offer of the address that is chosen for
/// the client, which changes no lease, or with rapid commit by that address itself, which is then leased. Where there is no
/// address, the client reads that there is none, and no lease changes.
pub proof fn law_solicit_is_answered(srv: Server, ls: Seq<LeaseView>, m: Message, lease_time: u32)
    requires
        m.msg_type is Solicit,
        srv.duid.len() < 0x1_0000,
        ia_in(m.options) is Some,
        address_for(srv, ls, client_id_in(m.options), ia_in(m.options)->0.iaid, ia_in(m.options)->0.addr) matches Some(a)
            ==> lease_time_is(srv.contexts, a, lease_time),
    ensures
        ({
            let ia = ia_in(m.options)->0;
            let rapid = option6_in(m.options, 14) is Some;
            let out = outcome(srv, ls, m);
            &&& out.reply matches Some(r)
            &&& r.xid == m.xid
            &&& r.msg_type is Reply <==> rapid
            &&& r.msg_type is Advertise <==> !rapid
            &&& match address_for(srv, ls, client_id_in(m.options), ia.iaid, ia.addr) {
                Some(a) => {
                    &&& gives(r, ia.iaid, a, lease_time)
                    &&& status_in(r.options) == Some(0u16)
                    &&& option6_in(r.options, 14) is Some <==> rapid
                    &&& option6_in(r.options, 7) == Some(seq![preference_of(srv)])
                    &&& rapid ==> leased_now(out.leases, m, ia.iaid, a, srv.now, lease_time)
                    &&& !rapid ==> out.leases == ls
                },
                None => {
                    &&& grant_in(r.options) is None
                    &&& ia_status_in(r.options) == Some((ia.iaid, 2u16))
                    &&& status_in(r.options) == Some(2u16)
                    &&& out.leases == ls
                },
            }
        }),
{
    let clid = client_id_in(m.options);
    let ia = ia_in(m.options)->0;
    let rapid = option6_in(m.options, OPTION6_RAPID_COMMIT) is Some;
    let reply_type = if rapid {
        Dhcp6MsgType::Reply
    } else {
        Dhcp6MsgType::Advertise
    };
    let addr = address_for(srv, ls, clid, ia.iaid, ia.addr);
    lemma_offer(srv, ls, m, ia.iaid, addr, rapid, reply_type, rapid, lease_time);
}

/// A client that solicits an address, and asks for none that it can get, is offered the one of its own lease, where that is
/// in a range; one that asks for an address that can be given to it is offered that one.
pub proof fn law_solicit_offers_what_is_asked_for_or_held(srv: Server, ls: Seq<LeaseView>, m: Message, lease_time: u32, a: Ip6, k: int)
    requires
        m.msg_type is Solicit,
        srv.duid.len() < 0x1_0000,
        lease_time_is(srv.contexts, a, lease_time),
        ia_in(m.options) matches Some(ia) && {
            ||| ia.addr == Some(a) && giveable(srv, ls, client_id_in(m.options), ia.iaid, a)
            ||| {
                &&& ia.addr is None || !available(srv.contexts, ia.addr->0)
                &&& 0 <= k < ls.len()
                &&& ls[k].addr6 == a && ls[k].clid == Some(client_id_in(m.options)) && ls[k].iaid == ia.iaid
                &&& forall|j: int|
                    0 <= j < k ==> !((#[trigger] ls[j]).clid == Some(client_id_in(m.options)) && ls[j].iaid == ia.iaid)
                &&& available(srv.contexts, a)
            }
        },
    ensures
        outcome(srv, ls, m).reply matches Some(r) && gives(r, ia_in(m.options)->0.iaid, a, lease_time),
{
    let clid = client_id_in(m.options);
    let ia = ia_in(m.options)->0;
    if ia.addr == Some(a) && giveable(srv, ls, clid, ia.iaid, a) {
        law_requested_address_is_given(srv, ls, clid, ia.iaid, a);
    } else {
        law_client_keeps_its_address(srv, ls, clid, ia.iaid, ia.addr, k);
    }
    law_solicit_is_answered(srv, ls, m, lease_time);
}

/// A REQUEST message that names no address is given the one that is chosen for the client, which is then leased; where there is
/// none, the client reads so, and no lease changes.
pub proof fn law_request_without_address(srv: Server, ls: Seq<LeaseView>, m: Message, lease_time: u32)
    requires
        m.msg_type is Request,
        srv.duid.len() < 0x1_0000,
        ia_in(m.options) matches Some(ia) && ia.addr is None,
        address_for(srv, ls, client_id_in(m.options), ia_in(m.options)->0.iaid, None) matches Some(a) ==> lease_time_is(
            srv.contexts,
            a,
            lease_time,
        ),
    ensures
        ({
            let iaid = ia_in(m.options)->0.iaid;
            let out = outcome(srv, ls, m);
            &&& out.reply matches Some(r)
            &&& r.xid == m.xid
            &&& r.msg_type is Reply
            &&& match address_for(srv, ls, client_id_in(m.options), iaid, None) {
                Some(a) => {
                    &&& gives(r, iaid, a, lease_time)
                    &&& status_in(r.options) == Some(0u16)
                    &&& leased_now(out.leases, m, iaid, a, srv.now, lease_time)
                },
                None => {
                    &&& grant_in(r.options) is None
                    &&& ia_status_in(r.options) == Some((iaid, 2u16))
                    &&& status_in(r.options) == Some(2u16)
                    &&& out.leases == ls
                },
            }
        }),
{
    let iaid = ia_in(m.options)->0.iaid;
    let addr = address_for(srv, ls, client_id_in(m.options), iaid, None);
    lemma_offer(srv, ls, m, iaid, addr, true, Dhcp6MsgType::Reply, false, lease_time);
}

/// A message without an address to speak of changes no lease. Where it wants one, in SOLICIT and REQUEST messages without an
/// association, the client reads that there is none; a RENEW, REBIND or CONFIRM message is not answered; and one that gives
/// nothing back is told that all is well.
#[verifier::rlimit(40)]
pub proof fn law_messages_without_address(srv: Server, ls: Seq<LeaseView>, m: Message)
    requires
        srv.duid.len() < 0x1_0000,
    ensures
        ({
            let out = outcome(srv, ls, m);
            let none = ia_in(m.options) is None;
            let bare = none || ia_in(m.options)->0.addr is None;
            &&& (m.msg_type is Solicit || m.msg_type is Request) && none ==> out.leases == ls && (out.reply matches Some(r) && r.xid
                == m.xid && status_in(r.options) == Some(2u16) && option6_in(r.options, 3) is None)
            &&& (m.msg_type is Renew || m.msg_type is Rebind || m.msg_type is Confirm) && bare ==> out.leases == ls && out.reply is None
            &&& (m.msg_type is Release || m.msg_type is Decline) && bare ==> out.leases == ls && (out.reply matches Some(r) && r.xid
                == m.xid && status_in(r.options) == Some(0u16) && option6_in(r.options, 3) is None)
            &&& (m.msg_type is Advertise || m.msg_type is Reply || m.msg_type is Reconfigure || m.msg_type is RelayForw || m.msg_type is RelayRepl)
                ==> out.leases == ls && out.reply is None
        }),
{
    reveal_strlit("no addresses available");
    reveal_strlit("success");
    reveal_strlit("release received");
    lemma_client_id_len(m.options);
    let clid = client_id_in(m.options);
    let empty = Seq::<u8>::empty();
    assert(no_addrs() + empty =~= no_addrs());
    lemma_status(2, "no addresses available"@, empty);
    lemma_after_ids(clid, srv.duid, no_addrs(), 13);
    lemma_after_ids(clid, srv.duid, no_addrs(), 3);
    let (done, got) = (status6(0, "success"@), status6(0, "release received"@));
    assert(done + empty =~= done);
    assert(got + empty =~= got);
    lemma_status(0, "success"@, empty);
    lemma_status(0, "release received"@, empty);
    lemma_after_ids(clid, srv.duid, done, 13);
    lemma_after_ids(clid, srv.duid, done, 3);
    lemma_after_ids(clid, srv.duid, got, 13);
    lemma_after_ids(clid, srv.duid, got, 3);
}

/// Leases that are not given back stay.
proof fn lemma_others_stay(ls: Seq<LeaseView>, clid: Seq<u8>, iaid: u32, a: Ip6, i: int)
    requires
        0 <= i < ls.len(),
        ls[i].addr6 != a || ls[i].clid != Some(clid) || ls[i].iaid != iaid,
    ensures
        given_back(ls, clid, iaid, a).contains(ls[i]),
{
    lemma_of_client_at(ls, clid, iaid, a, 0);
    let after = given_back(ls, clid, iaid, a);
    match of_client_at(ls, clid, iaid, a, 0) {
        Some(k) => {
            if i < k {
                assert(after[i] == ls[i]);
            } else {
                assert(after[i - 1] == ls[i]);
            }
        },
        None => {
            assert(after[i] == ls[i]);
        },
    }
}

/// A lease that is given back is the only one that goes: every other stays.
#[verifier::rlimit(40)]
pub proof fn law_release_keeps_the_others(srv: Server, ls: Seq<LeaseView>, m: Message, a: Ip6, i: int)
    requires
        m.msg_type is Release || m.msg_type is Decline,
        ia_in(m.options) matches Some(ia) && ia.addr == Some(a),
        0 <= i < ls.len(),
        ls[i].addr6 != a || ls[i].clid != Some(client_id_in(m.options)) || ls[i].iaid != ia_in(m.options)->0.iaid,
    ensures
        outcome(srv, ls, m).leases.contains(ls[i]),
{
    lemma_others_stay(ls, client_id_in(m.options), ia_in(m.options)->0.iaid, a, i);
    assert(ls.contains(ls[i]));
    let (l, r) = (outcome(srv, ls, m).leases, given_back(ls, client_id_in(m.options), ia_in(m.options)->0.iaid, a));
    assert(l == r || l == ls);
}

/// A REQUEST message for an address that is in a range, or on the network and that of a configured host, is granted where no
/// one else has a lease of the address: the client reads the address, and has a lease of it from now on.
#[verifier::rlimit(40)]
pub proof fn law_request_is_granted(srv: Server, ls: Seq<LeaseView>, m: Message, lease_time: u32, a: Ip6)
    requires
        m.msg_type is Request,
        srv.duid.len() < 0x1_0000,
        lease_time_is(srv.contexts, a, lease_time),
        ia_in(m.options) matches Some(ia) && ia.addr == Some(a) && {
            &&& available(srv.contexts, a) || (on_link(srv.contexts, a) && reserved(srv.configs, a))
            &&& forall|k: int|
                0 <= k < ls.len() && (#[trigger] ls[k]).addr6 == a ==> ls[k].clid == Some(client_id_in(m.options)) && ls[k].iaid
                    == ia.iaid
        },
    ensures
        ({
            let out = outcome(srv, ls, m);
            let iaid = ia_in(m.options)->0.iaid;
            &&& out.reply matches Some(r)
            &&& r.xid == m.xid
            &&& r.msg_type is Reply
            &&& gives(r, iaid, a, lease_time)
            &&& status_in(r.options) == Some(0u16)
            &&& leased_now(out.leases, m, iaid, a, srv.now, lease_time)
        }),
{
    let ia = ia_in(m.options)->0;
    let clid = client_id_in(m.options);
    lemma_at_addr(ls, a, 0);
    assert(request_refusal(srv, ls, clid, ia.iaid, a) is None);
    lemma_granted_reply(srv, ls, m, ia.iaid, a, lease_time);
    assert(outcome(srv, ls, m) == grants(srv, ls, m, ia.iaid, a));
}

/// A REQUEST message for an address that cannot be had is refused, and changes no lease. The client reads why: that the
/// address is not on the network, that it is on the network but outside the ranges and no configured host's, or that its
/// lease is another's.
#[verifier::rlimit(40)]
pub proof fn law_request_is_refused(srv: Server, ls: Seq<LeaseView>, m: Message, a: Ip6, k: int)
    requires
        m.msg_type is Request,
        srv.duid.len() < 0x1_0000,
        ia_in(m.options) matches Some(ia) && ia.addr == Some(a),
    ensures
        ({
            let out = outcome(srv, ls, m);
            let iaid = ia_in(m.options)->0.iaid;
            let on = on_link(srv.contexts, a);
            let given = available(srv.contexts, a) || (on && reserved(srv.configs, a));
            let others = 0 <= k < ls.len() && ls[k].addr6 == a && !(ls[k].clid == Some(client_id_in(m.options)) && ls[k].iaid
                == iaid) && forall|n: int| 0 <= n < k ==> (#[trigger] ls[n]).addr6 != a;
            !given || others ==> {
                &&& out.leases == ls
                &&& out.reply matches Some(r)
                &&& r.xid == m.xid
                &&& r.msg_type is Reply
                &&& grant_in(r.options) is None
                &&& status_in(r.options) == Some(2u16)
                &&& !on ==> ia_status_in(r.options) == Some((iaid, 4u16))
                &&& on && !given ==> ia_status_in(r.options) == Some((iaid, 2u16))
                &&& given ==> ia_status_in(r.options) == Some((iaid, 1u16))
            }
        }),
{
    let ia = ia_in(m.options)->0;
    let clid = client_id_in(m.options);
    lemma_at_addr(ls, a, 0);
    if available(srv.contexts, a) {
        law_available_is_on_link(srv.contexts, a);
    }
    if let Some((code, message)) = request_refusal(srv, ls, clid, ia.iaid, a) {
        reveal_strlit("not on link");
        reveal_strlit("address unavailable");
        reveal_strlit("address in use");
        reveal_strlit("no addresses available");
        let none = Seq::<u8>::empty();
        lemma_refused(srv, m, ia.iaid, code, message, none, no_addrs());
        lemma_status(2, "no addresses available"@, none);
        assert(no_addrs() + none =~= no_addrs());
        let r = outcome(srv, ls, m).reply->0;
        assert(ids(clid, srv.duid) + none + refused(ia.iaid, code, message) + no_addrs() =~= r.options);
    }
}

/// A RENEW or REBIND message for an address of which the client has a lease, and that is still on the network, is answered
/// with the lifetimes anew, and the lease ends that much after now. An authoritative server answers a REBIND message for an
/// address on the network in this way even where there is no lease.
#[verifier::rlimit(40)]
pub proof fn law_renewal_is_granted(srv: Server, ls: Seq<LeaseView>, m: Message, lease_time: u32, a: Ip6, k: int)
    requires
        m.msg_type is Renew || m.msg_type is Rebind,
        srv.duid.len() < 0x1_0000,
        lease_time_is(srv.contexts, a, lease_time),
        on_link(srv.contexts, a),
        ia_in(m.options) matches Some(ia) && ia.addr == Some(a) && {
            ||| 0 <= k < ls.len() && ls[k].addr6 == a && ls[k].clid == Some(client_id_in(m.options)) && ls[k].iaid == ia.iaid
            ||| m.msg_type is Rebind && srv.authoritative
        },
    ensures
        ({
            let out = outcome(srv, ls, m);
            let iaid = ia_in(m.options)->0.iaid;
            &&& out.reply matches Some(r)
            &&& r.xid == m.xid
            &&& r.msg_type is Reply
            &&& gives(r, iaid, a, lease_time)
            &&& status_in(r.options) == Some(0u16)
            &&& leased_now(out.leases, m, iaid, a, srv.now, lease_time)
        }),
{
    let ia = ia_in(m.options)->0;
    let clid = client_id_in(m.options);
    lemma_of_client_at(ls, clid, ia.iaid, a, 0);
    lemma_granted_reply(srv, ls, m, ia.iaid, a, lease_time);
    assert(outcome(srv, ls, m) == grants(srv, ls, m, ia.iaid, a));
}

/// A RENEW or REBIND message for an address that is on no network any more ends the address where the client has a lease of
/// it: the client reads it with lifetimes of nothing. Where the client has no lease, and the server does not rebind, it reads
/// that there is no binding. No lease changes.
#[verifier::rlimit(40)]
pub proof fn law_renewal_is_not_granted(srv: Server, ls: Seq<LeaseView>, m: Message, a: Ip6)
    requires
        m.msg_type is Renew || m.msg_type is Rebind,
        srv.duid.len() < 0x1_0000,
        ia_in(m.options) matches Some(ia) && ia.addr == Some(a),
        ({
            let iaid = ia_in(m.options)->0.iaid;
            let leased = exists|k: int|
                0 <= k < ls.len() && (#[trigger] ls[k]).addr6 == a && ls[k].clid == Some(client_id_in(m.options)) && ls[k].iaid
                    == iaid;
            !on_link(srv.contexts, a) || (!leased && !(m.msg_type is Rebind && srv.authoritative))
        }),
    ensures
        ({
            let out = outcome(srv, ls, m);
            let iaid = ia_in(m.options)->0.iaid;
            let leased = exists|k: int|
                0 <= k < ls.len() && (#[trigger] ls[k]).addr6 == a && ls[k].clid == Some(client_id_in(m.options)) && ls[k].iaid
                    == iaid;
            &&& out.leases == ls
            &&& out.reply matches Some(r)
            &&& r.xid == m.xid
            &&& r.msg_type is Reply
            &&& leased ==> grant_in(r.options) == Some(Grant { iaid, t1: 0, t2: 0, addr: a, preferred: 0, valid: 0 })
            &&& !leased ==> grant_in(r.options) is None && ia_status_in(r.options) == Some((iaid, 3u16))
        }),
{
    reveal_strlit("no binding found");
    let ia = ia_in(m.options)->0;
    let clid = client_id_in(m.options);
    lemma_of_client_at(ls, clid, ia.iaid, a, 0);
    if available(srv.contexts, a) {
        law_available_is_on_link(srv.contexts, a);
    }
    let none = Seq::<u8>::empty();
    let r = outcome(srv, ls, m).reply->0;
    let leased = exists|k: int|
        0 <= k < ls.len() && (#[trigger] ls[k]).addr6 == a && ls[k].clid == Some(clid) && ls[k].iaid == ia.iaid;
    if leased {
        lemma_client_id_len(m.options);
        let body = ia_option(ia.iaid, 0, 0, addr_option(a, 0, 0)) + success();
        lemma_after_ids(clid, srv.duid, body, 3);
        lemma_ia_addr(ia.iaid, 0, 0, a, 0, 0, success());
        let k = choose|k: int|
            0 <= k < ls.len() && (#[trigger] ls[k]).addr6 == a && ls[k].clid == Some(clid) && ls[k].iaid == ia.iaid;
        assert(of_client_at(ls, clid, ia.iaid, a, 0) is Some);
        assert(r.options == ids(clid, srv.duid) + body);
    } else {
        assert(of_client_at(ls, clid, ia.iaid, a, 0) is None);
        lemma_refused(srv, m, ia.iaid, 3, "no binding found"@, none, none);
        lemma_refused(srv, m, ia.iaid, 3, "no binding found"@, none, no_addrs());
        if m.msg_type is Rebind {
            assert(r.options =~= ids(clid, srv.duid) + none + refused(ia.iaid, 3, "no binding found"@) + no_addrs());
        } else {
            assert(r.options =~= ids(clid, srv.duid) + none + refused(ia.iaid, 3, "no binding found"@) + none);
        }
    }
}

/// A CONFIRM message with an address is told whether the address is on the network; no lease changes.
pub proof fn law_confirm_tells_what_is_on_link(srv: Server, ls: Seq<LeaseView>, m: Message, a: Ip6)
    requires
        m.msg_type is Confirm,
        srv.duid.len() < 0x1_0000,
        ia_in(m.options) matches Some(ia) && ia.addr == Some(a),
    ensures
        ({
            let out = outcome(srv, ls, m);
            &&& out.leases == ls
            &&& out.reply matches Some(r)
            &&& r.xid == m.xid
            &&& r.msg_type is Reply
            &&& status_in(r.options) == Some(
                if on_link(srv.contexts, a) {
                    0u16
                } else {
                    4u16
                },
            )
        }),
{
    reveal_strlit("all addresses still on link");
    reveal_strlit("confirm failed");
    lemma_client_id_len(m.options);
    let clid = client_id_in(m.options);
    let none = Seq::<u8>::empty();
    let yes = status6(0, "all addresses still on link"@);
    let no = status6(4, "confirm failed"@);
    lemma_status(0, "all addresses still on link"@, none);
    lemma_status(4, "confirm failed"@, none);
    assert(yes + none =~= yes);
    assert(no + none =~= no);
    lemma_after_ids(clid, srv.duid, yes, 13);
    lemma_after_ids(clid, srv.duid, no, 13);
}

/// A RELEASE or DECLINE message gets the status of success. Where the client has a lease of the address that it gives back,
/// that lease is gone; where it has none, no lease changes, and it reads that there is no binding.
#[verifier::rlimit(40)]
pub proof fn law_release_is_answered(srv: Server, ls: Seq<LeaseView>, m: Message, a: Ip6)
    requires
        m.msg_type is Release || m.msg_type is Decline,
        srv.duid.len() < 0x1_0000,
        ia_in(m.options) matches Some(ia) && ia.addr == Some(a),
    ensures
        ({
            let out = outcome(srv, ls, m);
            let iaid = ia_in(m.options)->0.iaid;
            let leased = exists|k: int|
                0 <= k < ls.len() && (#[trigger] ls[k]).addr6 == a && ls[k].clid == Some(client_id_in(m.options)) && ls[k].iaid
                    == iaid;
            &&& out.reply matches Some(r)
            &&& r.xid == m.xid
            &&& r.msg_type is Reply
            &&& status_in(r.options) == Some(0u16)
            &&& leased ==> out.leases.len() == ls.len() - 1 && ia_status_in(r.options) is None
            &&& !leased ==> out.leases == ls && ia_status_in(r.options) == Some((iaid, 3u16))
        }),
{
    reveal_strlit("no binding found");
    reveal_strlit("success");
    reveal_strlit("release received");
    lemma_client_id_len(m.options);
    let ia = ia_in(m.options)->0;
    let clid = client_id_in(m.options);
    lemma_of_client_at(ls, clid, ia.iaid, a, 0);
    let text = if m.msg_type is Decline {
        "success"@
    } else {
        "release received"@
    };
    let none = Seq::<u8>::empty();
    let done = status6(0, text);
    lemma_status(0, text, none);
    assert(done + none =~= done);
    lemma_after_ids(clid, srv.duid, done, 13);
    lemma_after_ids(clid, srv.duid, done, 3);
    assert(option6_in(none, 3) is None);
    let r = outcome(srv, ls, m).reply->0;
    let leased = exists|k: int|
        0 <= k < ls.len() && (#[trigger] ls[k]).addr6 == a && ls[k].clid == Some(clid) && ls[k].iaid == ia.iaid;
    if leased {
        let k = choose|k: int|
            0 <= k < ls.len() && (#[trigger] ls[k]).addr6 == a && ls[k].clid == Some(clid) && ls[k].iaid == ia.iaid;
        assert(of_client_at(ls, clid, ia.iaid, a, 0) is Some);
        assert(r.options == ids(clid, srv.duid) + done);
    } else {
        lemma_refused(srv, m, ia.iaid, 3, "no binding found"@, none, done);
        assert(r.options =~= ids(clid, srv.duid) + none + refused(ia.iaid, 3, "no binding found"@) + done);
    }
}

/// An INFORMATION-REQUEST message is answered where it asks for no addresses, and only then; no lease changes.
pub proof fn law_information_request_is_answered(srv: Server, ls: Seq<LeaseView>, m: Message)
    requires
        m.msg_type is InfoReq,
    ensures
        ({
            let out = outcome(srv, ls, m);
            &&& out.leases == ls
            &&& out.reply is Some <==> option6_in(m.options, 3) is None && option6_in(m.options, 4) is None
            &&& out.reply matches Some(r) ==> r.msg_type is Reply && r.xid == m.xid
        }),
{
}

/// The first options of every reply are the id of the client and that of the server, as they are.
pub proof fn law_ids_are_read_back(srv: Server, ls: Seq<LeaseView>, m: Message)
    requires
        srv.duid.len() < 0x1_0000,
    ensures
        outcome(srv, ls, m).reply matches Some(r) ==> {
            &&& r.xid == m.xid
            &&& option6_in(r.options, 1) == Some(client_id_in(m.options))
            &&& option6_in(r.options, 2) == Some(srv.duid)
        },
{
    super::dispatch::law_reply_carries_ids(srv, ls, m);
    lemma_client_id_len(m.options);
    let clid = client_id_in(m.options);
    if let Some(r) = outcome(srv, ls, m).reply {
        let head = ids(clid, srv.duid);
        let rest = r.options.skip(head.len() as int);
        assert(head + rest =~= r.options);
        lemma_after_ids(clid, srv.duid, rest, 3);
    }
}

/// The association in a message is read as it was written: its number, and the first address in it.
pub proof fn law_association_is_read(iaid: u32, t1: u32, t2: u32, addr: Ip6, life: Seq<u8>, more: Seq<u8>, rest: Seq<u8>)
    requires
        life.len() + more.len() < 0x1000,
    ensures
        ({
            let sub = option6(5, ip6_bytes(addr) + life) + more;
            &&& ia_in(option6(3, be32_bytes(iaid) + be32_bytes(t1) + be32_bytes(t2) + sub) + rest) == Some(Ia { iaid, addr: Some(addr) })
            &&& ia_in(option6(3, be32_bytes(iaid) + be32_bytes(t1) + be32_bytes(t2) + Seq::<u8>::empty()) + rest) == Some(
                Ia { iaid, addr: None },
            )
        }),
{
    let sub = option6(5, ip6_bytes(addr) + life) + more;
    law_ip6_round_trip(addr, life);
    law_option6_round_trip(5, ip6_bytes(addr) + life, more);
    lemma_words(iaid, t1, t2, sub);
    law_option6_round_trip(3, be32_bytes(iaid) + be32_bytes(t1) + be32_bytes(t2) + sub, rest);
    lemma_words(iaid, t1, t2, Seq::empty());
    law_option6_round_trip(3, be32_bytes(iaid) + be32_bytes(t1) + be32_bytes(t2) + Seq::<u8>::empty(), rest);
}

} // verus!
