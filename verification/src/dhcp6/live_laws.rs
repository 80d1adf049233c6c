//! Which ranges are served on an interface, and what the server is known by.

use super::dispatch::{outcome, Message, Server};
use super::duid::{duid_en, duid_ll, duid_llt, duid_of, duid_time, DuidMacSource};
use super::live::{chain_of, class_of, completed, covers, decides, place_in, served, touched_by_all, LiveAddr6};
use super::packet::{law_reply_round_trip, parsed, reply_bytes, reply_dest, Parsed};
use super::pool::same_net;
use super::serve;
use crate::addr::{Ip4, Ip6, SockAddr};
use crate::dhcp_types::ContextView;
use crate::lease::LeaseView;
use crate::wire::{be16, be32, be32_bytes};
use vstd::prelude::*;

verus! {

/// What an address is used for, by the range of addresses that it is in: link-local from `fe80::` to before `fec0::`, unique
/// local from `fc00::` to before `fe00::`, multicast from `ff00::` on, loopback `::1` alone, and global elsewhere.
pub proof fn law_classes_are_ranges(a: Ip6)
    ensures
        class_of(a) is Loopback <==> a.bits == 1,
        class_of(a) is LinkLocal <==> 0xfe80_0000_0000_0000_0000_0000_0000_0000 <= a.bits < 0xfec0_0000_0000_0000_0000_0000_0000_0000,
        class_of(a) is Ula <==> 0xfc00_0000_0000_0000_0000_0000_0000_0000 <= a.bits < 0xfe00_0000_0000_0000_0000_0000_0000_0000,
        class_of(a) is Multicast <==> 0xff00_0000_0000_0000_0000_0000_0000_0000 <= a.bits,
        decides(a) <==> class_of(a) is Ula || class_of(a) is Global,
{
}

/// Whether a range is served on the interface with this address: it is for addresses, no pattern and not an old one, and both
/// its ends are on the network of the address, of which the prefix is not longer than the range's.
pub open spec fn is_served(live: LiveAddr6, ctx: ContextView) -> bool {
    &&& ctx.flags.dhcp
    &&& !ctx.flags.template
    &&& !ctx.flags.old
    &&& live.prefix <= ctx.prefix
    &&& same_net(live.addr, ctx.start6, ctx.prefix)
    &&& same_net(live.addr, ctx.end6, ctx.prefix)
}

/// Whether a range is one that was configured, with the address and the index of the interface. The lifetimes are unlimited;
/// those of a range that was made from a pattern are the address's; and the preferred one is none where the range, or the
/// address of one made from a pattern, is deprecated.
pub open spec fn is_completed(live: LiveAddr6, ctx: ContextView, c: ContextView) -> bool {
    &&& c == (ContextView { local6: live.addr, if_index: live.if_index as i32, preferred: c.preferred, valid: c.valid, ..ctx })
    &&& !ctx.flags.constructed ==> c.valid == 0xffff_ffff
    &&& ctx.flags.constructed ==> c.valid == live.valid
    &&& ctx.flags.deprecate ==> c.preferred == 0
    &&& ctx.flags.constructed && live.deprecated ==> c.preferred == 0
    &&& ctx.flags.constructed && !live.deprecated && !ctx.flags.deprecate ==> c.preferred == live.preferred
    &&& !ctx.flags.constructed && !ctx.flags.deprecate ==> c.preferred == 0xffff_ffff
}

/// How many of the ranges are served.
pub open spec fn served_count(live: LiveAddr6, ctxs: Seq<ContextView>) -> nat
    decreases ctxs.len(),
{
    if ctxs.len() == 0 {
        0
    } else {
        served_count(live, ctxs.drop_last()) + (if is_served(live, ctxs.last()) {
            1nat
        } else {
            0nat
        })
    }
}

/// A place among ranges is one of them or the end.
proof fn lemma_place(chain: Seq<ContextView>, preferred: u32, i: int)
    requires
        0 <= i <= chain.len(),
    ensures
        i <= place_in(chain, preferred, i) <= chain.len(),
    decreases chain.len() - i,
{
    if i < chain.len() && chain[i].preferred > preferred {
        lemma_place(chain, preferred, i + 1);
    }
}

/// Every range that is served on an interface is listed for it, completed, and there are as many as are served.
pub proof fn law_every_served_range_is_listed(live: LiveAddr6, ctxs: Seq<ContextView>, k: int)
    ensures
        chain_of(live, ctxs).len() == served_count(live, ctxs),
        0 <= k < ctxs.len() && is_served(live, ctxs[k]) ==> exists|i: int|
            0 <= i < chain_of(live, ctxs).len() && is_completed(live, ctxs[k], #[trigger] chain_of(live, ctxs)[i]),
    decreases ctxs.len(),
{
    if ctxs.len() > 0 {
        let d = ctxs.drop_last();
        law_every_served_range_is_listed(live, d, k);
        let rest = chain_of(live, d);
        let all = chain_of(live, ctxs);
        let last = ctxs.last();
        if served(live, last) {
            let c = completed(live, last);
            let p = place_in(rest, c.preferred, 0);
            lemma_place(rest, c.preferred, 0);
            assert(all[p] == c);
            assert(is_completed(live, last, c));
            if 0 <= k < d.len() && is_served(live, ctxs[k]) {
                assert(d[k] == ctxs[k]);
                let i = choose|i: int| 0 <= i < rest.len() && is_completed(live, d[k], #[trigger] rest[i]);
                if i < p {
                    assert(all[i] == rest[i]);
                } else {
                    assert(all[i + 1] == rest[i]);
                }
            }
        } else if 0 <= k < d.len() && is_served(live, ctxs[k]) {
            assert(d[k] == ctxs[k]);
        }
    }
}

/// A range that is not made from a pattern learns the interface of the last of the addresses that can decide and on whose
/// network it lies.
pub proof fn law_last_address_tells_the_interface(lives: Seq<LiveAddr6>, ctx: ContextView, k: int)
    requires
        0 <= k < lives.len(),
        !ctx.flags.template && !ctx.flags.constructed,
        decides(lives[k].addr) && lives[k].prefix <= ctx.prefix && same_net(lives[k].addr, ctx.start6, ctx.prefix) && same_net(
            lives[k].addr,
            ctx.end6,
            ctx.prefix,
        ),
        forall|j: int| k < j < lives.len() ==> !decides((#[trigger] lives[j]).addr) || !covers(lives[j], ctx),
    ensures
        touched_by_all(lives, ctx) == (ContextView { local6: lives[k].addr, if_index: lives[k].if_index as i32, ..ctx }),
    decreases lives.len(),
{
    let d = lives.drop_last();
    super::live::law_ranges_learn_their_interface(d, ctx);
    let before = touched_by_all(d, ctx);
    if k == lives.len() - 1 {
        assert(covers(lives.last(), before));
    } else {
        assert forall|j: int| k < j < d.len() implies !decides((#[trigger] d[j]).addr) || !covers(d[j], ctx) by {
            assert(d[j] == lives[j]);
        }
        law_last_address_tells_the_interface(d, ctx, k);
        assert(!decides(lives[lives.len() - 1].addr) || !covers(lives[lives.len() - 1], ctx));
        assert(!covers(lives.last(), before) || !decides(lives.last().addr));
    }
}

/// The identifier of the server is read back: its type, and behind it the enterprise number and what is configured, or the type
/// of the hardware, the seconds since 2000, and the hardware address. There is none where nothing is configured and no
/// interface has an address of a known type.
pub proof fn law_server_identifier_is_read_back(
    config: Option<Seq<u8>>,
    enterprise: u32,
    source: Option<DuidMacSource>,
    use_llt: bool,
    now: u64,
)
    ensures
        match duid_of(config, enterprise, source, use_llt, now) {
            Some(d) => {
                &&& config matches Some(id) ==> d.len() == 6 + id.len() && be16(d, 0) == 2 && be32(d, 2) == enterprise && d.skip(6) == id
                &&& config is None ==> source is Some && source->0.hw_type < 256 && be16(d, 2) == source->0.hw_type
                &&& config is None && use_llt ==> be16(d, 0) == 1 && d.skip(8) == source->0.mac@ && (now >= 946_684_800 ==> be32(d, 4)
                    == (now - 946_684_800) % 0x1_0000_0000)
                &&& config is None && !use_llt ==> be16(d, 0) == 3 && d.skip(4) == source->0.mac@
            },
            None => config is None && (source is None || source->0.hw_type >= 256),
        },
{
    if let Some(id) = config {
        let d = duid_en(enterprise, id);
        assert(d.skip(6) =~= id);
        let e = be32_bytes(enterprise);
        assert(d[2] == e[0] && d[3] == e[1] && d[4] == e[2] && d[5] == e[3]);
        crate::wire::lemma_be32_round_trip(enterprise);
        assert(d[0] == 0 && d[1] == 2);
    } else if source is Some && source->0.hw_type < 256 {
        let s = source->0;
        if use_llt {
            let t = duid_time(now);
            let d = duid_llt(s.hw_type, s.mac@, t);
            assert(d.skip(8) =~= s.mac@);
            let e = be32_bytes(t);
            assert(d[4] == e[0] && d[5] == e[1] && d[6] == e[2] && d[7] == e[3]);
            crate::wire::lemma_be32_round_trip(t);
            assert(d[0] == 0 && d[1] == 1);
            assert(d[2] == (s.hw_type / 256) as u8 && d[3] == (s.hw_type % 256) as u8);
        } else {
            let d = duid_ll(s.hw_type, s.mac@);
            assert(d.skip(4) =~= s.mac@);
            assert(d[0] == 0 && d[1] == 3);
            assert(d[2] == (s.hw_type / 256) as u8 && d[3] == (s.hw_type % 256) as u8);
        }
    }
}

/// What is sent in answer to a message of a client is read as the reply that the message gets, and goes to where the message
/// came from, at the port of clients or the one given instead; the leases are those after the reply.
pub proof fn law_answer_is_the_reply(
    srv: Server,
    ls: Seq<LeaseView>,
    data: Seq<u8>,
    ip: Ip6,
    from_port: u16,
    scope_id: u32,
    port: Option<u16>,
)
    requires
        parsed(data) is Message,
        ip.bits != 0,
    ensures
        ({
            let m = Message {
                msg_type: parsed(data)->Message_msg_type,
                xid: parsed(data)->xid,
                options: parsed(data)->Message_options,
            };
            let out = outcome(srv, ls, m);
            let (answer, after) = serve::served(srv, ls, data, (SockAddr::V6 { ip, port: from_port, scope_id }), port);
            &&& after == out.leases
            &&& answer is Some <==> out.reply is Some
            &&& answer matches Some((bytes, to)) ==> {
                &&& to == (SockAddr::V6 {
                    ip,
                    port: match port {
                        Some(p) => p,
                        None => 546,
                    },
                    scope_id,
                })
                &&& bytes.len() >= 4
                &&& bytes.skip(4) == out.reply->0.options
                &&& out.reply->0.xid < 0x100_0000 && !(out.reply->0.msg_type is RelayForw) && !(out.reply->0.msg_type is RelayRepl)
                    ==> parsed(bytes) == (Parsed::Message {
                    msg_type: out.reply->0.msg_type,
                    xid: out.reply->0.xid,
                    options: out.reply->0.options,
                })
            }
        }),
{
    let m = Message {
        msg_type: parsed(data)->Message_msg_type,
        xid: parsed(data)->xid,
        options: parsed(data)->Message_options,
    };
    if let Some(r) = outcome(srv, ls, m).reply {
        assert(reply_bytes(r).skip(4) =~= r.options);
        if r.xid < 0x100_0000 && !(r.msg_type is RelayForw) && !(r.msg_type is RelayRepl) {
            law_reply_round_trip(r);
        }
    }
}

/// A reply goes back to where the message came from, at the port of clients or the one that is given instead; where that is no
/// address of one, it goes to all nodes.
pub proof fn law_reply_goes_back(ip: Ip6, from: u16, scope: u32, v4: Ip4, port: Option<u16>)
    ensures
        ({
            let to = match port {
                Some(p) => p,
                None => 546u16,
            };
            let all = Ip6 { bits: 0xff02_0000_0000_0000_0000_0000_0000_0001 };
            &&& ip.bits != 0 ==> reply_dest(SockAddr::V6 { ip, port: from, scope_id: scope }, port) == (SockAddr::V6 {
                ip,
                port: to,
                scope_id: scope,
            })
            &&& ip.bits == 0 ==> reply_dest(SockAddr::V6 { ip, port: from, scope_id: scope }, port) == (SockAddr::V6 {
                ip: all,
                port: to,
                scope_id: 0,
            })
            &&& reply_dest(SockAddr::V4 { ip: v4, port: from }, port) == (SockAddr::V6 { ip: all, port: to, scope_id: 0 })
        }),
{
}

} // verus!
