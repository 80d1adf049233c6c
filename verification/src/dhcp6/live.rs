//! Which address ranges belong to the addresses that the server's interfaces have.

use super::pool::{is_same_net6, same_net};
use crate::addr::Ip6;
use crate::dhcp_types::{context_views, ContextView, DhcpContext};
use vstd::prelude::*;

verus! {

/// What an address is used for.
#[derive(Debug, Clone, Copy, PartialEq, Eq, Structural)]
pub enum Addr6Class {
    Loopback,
    LinkLocal,
    /// A unique local address.
    Ula,
    Multicast,
    Global,
}

/// What an address is used for: `::1`, `fe80::/10`, `ff00::/8`, `fc00::/7`, or none of these.
pub open spec fn class_of(a: Ip6) -> Addr6Class {
    if a.bits == 1 {
        Addr6Class::Loopback
    } else if a.bits / 0x40_0000_0000_0000_0000_0000_0000_0000 == 0x3fa {
        Addr6Class::LinkLocal
    } else if a.bits / 0x100_0000_0000_0000_0000_0000_0000_0000 == 0xff {
        Addr6Class::Multicast
    } else if a.bits / 0x200_0000_0000_0000_0000_0000_0000_0000 == 0x7e {
        Addr6Class::Ula
    } else {
        Addr6Class::Global
    }
}

/// Tells what an address is used for.
pub fn classify_addr6(addr: &Ip6) -> (r: Addr6Class)
    ensures
        r == class_of(*addr),
{
    if addr.bits == 1 {
        Addr6Class::Loopback
    } else if addr.bits / 0x40_0000_0000_0000_0000_0000_0000_0000 == 0x3fa {
        Addr6Class::LinkLocal
    } else if addr.bits / 0x100_0000_0000_0000_0000_0000_0000_0000 == 0xff {
        Addr6Class::Multicast
    } else if addr.bits / 0x200_0000_0000_0000_0000_0000_0000_0000 == 0x7e {
        Addr6Class::Ula
    } else {
        Addr6Class::Global
    }
}

/// An address that an interface has.
#[derive(Debug, Clone)]
pub struct LiveAddr6 {
    pub addr: Ip6,
    pub prefix: i32,
    pub if_index: u32,
    pub preferred: u32,
    pub valid: u32,
    pub deprecated: bool,
}

/// Whether an address can decide which ranges are served on its interface.
pub open spec fn decides(a: Ip6) -> bool {
    class_of(a) is Ula || class_of(a) is Global
}

/// Whether an address can decide which ranges are served on its interface.
fn is_deciding(a: &Ip6) -> (r: bool)
    ensures
        r == decides(*a),
{
    match classify_addr6(a) {
        Addr6Class::Ula => true,
        Addr6Class::Global => true,
        _ => false,
    }
}

/// Whether a range lies on the network of an interface's address.
pub open spec fn covers(live: LiveAddr6, ctx: ContextView) -> bool {
    live.prefix <= ctx.prefix && same_net(live.addr, ctx.start6, ctx.prefix) && same_net(live.addr, ctx.end6, ctx.prefix)
}

/// Whether a range lies on the network of an interface's address.
fn is_covered(live: &LiveAddr6, ctx: &DhcpContext) -> (r: bool)
    ensures
        r == covers(*live, ctx@),
{
    live.prefix <= ctx.prefix && is_same_net6(&live.addr, &ctx.start6, ctx.prefix) && is_same_net6(
        &live.addr,
        &ctx.end6,
        ctx.prefix,
    )
}

/// Whether a range is served on the interface that has this address.
pub open spec fn served(live: LiveAddr6, ctx: ContextView) -> bool {
    ctx.flags.dhcp && !ctx.flags.template && !ctx.flags.old && covers(live, ctx)
}

/// The preferred lifetime of addresses of a range: unlimited, except that a range made from a pattern has
/// that of the interface's address, and that deprecated ranges have none.
pub open spec fn preferred_time(live: LiveAddr6, ctx: ContextView) -> u32 {
    if ctx.flags.deprecate || (ctx.flags.constructed && live.deprecated) {
        0
    } else if ctx.flags.constructed {
        live.preferred
    } else {
        0xffff_ffff
    }
}

/// A range as it is served on an interface.
pub open spec fn completed(live: LiveAddr6, ctx: ContextView) -> ContextView {
    ContextView {
        local6: live.addr,
        preferred: preferred_time(live, ctx),
        valid: if ctx.flags.constructed {
            live.valid
        } else {
            0xffff_ffff
        },
        if_index: live.if_index as i32,
        ..ctx
    }
}

/// The place of a range among those ordered by their preferred lifetimes, before the first from number `i`
/// on that has none longer.
pub open spec fn place_in(chain: Seq<ContextView>, preferred: u32, i: int) -> int
    decreases chain.len() - i,
{
    if !(0 <= i < chain.len()) {
        chain.len() as int
    } else if chain[i].preferred <= preferred {
        i
    } else {
        place_in(chain, preferred, i + 1)
    }
}

/// The ranges that are served on an interface, those with the longest preferred lifetime first.
pub open spec fn chain_of(live: LiveAddr6, ctxs: Seq<ContextView>) -> Seq<ContextView>
    decreases ctxs.len(),
{
    if ctxs.len() == 0 {
        seq![]
    } else {
        let rest = chain_of(live, ctxs.drop_last());
        if served(live, ctxs.last()) {
            let c = completed(live, ctxs.last());
            rest.insert(place_in(rest, c.preferred, 0), c)
        } else {
            rest
        }
    }
}

/// Where the place of a range lies.
proof fn lemma_place_in(chain: Seq<ContextView>, preferred: u32, i: int)
    requires
        0 <= i <= chain.len(),
    ensures
        i <= place_in(chain, preferred, i) <= chain.len(),
        forall|j: int| i <= j < place_in(chain, preferred, i) ==> (#[trigger] chain[j]).preferred > preferred,
        place_in(chain, preferred, i) < chain.len() ==> chain[place_in(chain, preferred, i)].preferred <= preferred,
    decreases chain.len() - i,
{
    if i < chain.len() {
        lemma_place_in(chain, preferred, i + 1);
    }
}

/// The place of a range among those ordered by their preferred lifetimes.
fn find_place(chain: &Vec<DhcpContext>, preferred: u32) -> (i: usize)
    ensures
        i <= chain@.len(),
        i == place_in(context_views(chain@), preferred, 0),
{
    let ghost all = context_views(chain@);
    let mut i: usize = 0;
    while i < chain.len()
        invariant
            i <= chain@.len(),
            all == context_views(chain@),
            place_in(all, preferred, 0) == place_in(all, preferred, i as int),
        decreases chain@.len() - i,
    {
        assert(all[i as int] == chain@[i as int]@);
        if chain[i].preferred <= preferred {
            return i;
        }
        i += 1;
    }
    i
}

/// Lists the ranges that are served on the interface that has an address, those with the longest
/// preferred lifetime first, with the interface's address, index and lifetimes filled in. Loopback,
/// link-local and multicast addresses have no ranges.
pub fn complete_context6(live: &LiveAddr6, contexts: &[DhcpContext]) -> (r: Vec<DhcpContext>)
    ensures
        context_views(r@) == if decides(live.addr) {
            chain_of(*live, context_views(contexts@))
        } else {
            seq![]
        },
{
    let mut current: Vec<DhcpContext> = Vec::new();
    if !is_deciding(&live.addr) {
        assert(context_views(current@) =~= seq![]);
        return current;
    }
    let ghost all = context_views(contexts@);
    let mut i: usize = 0;
    assert(context_views(current@) =~= chain_of(*live, all.take(0)));
    while i < contexts.len()
        invariant
            i <= contexts@.len(),
            all == context_views(contexts@),
            context_views(current@) == chain_of(*live, all.take(i as int)),
        decreases contexts@.len() - i,
    {
        let ctx: &DhcpContext = &contexts[i];
        proof {
            assert(all.take(i + 1).drop_last() =~= all.take(i as int));
            assert(all.take(i + 1).last() == ctx@);
        }
        if ctx.flags.dhcp && !ctx.flags.template && !ctx.flags.old && is_covered(live, ctx) {
            let preferred: u32 = if ctx.flags.deprecate || (ctx.flags.constructed && live.deprecated) {
                0
            } else if ctx.flags.constructed {
                live.preferred
            } else {
                0xffff_ffff
            };
            let mut matched: DhcpContext = ctx.clone();
            matched.local6 = live.addr;
            matched.preferred = preferred;
            matched.valid = if ctx.flags.constructed {
                live.valid
            } else {
                0xffff_ffff
            };
            #[verifier::truncate]
            let index: i32 = live.if_index as i32;
            matched.if_index = index;
            let ghost m = matched@;
            assert(m == completed(*live, ctx@));
            let pos: usize = find_place(&current, preferred);
            let ghost before = current@;
            current.insert(pos, matched);
            assert(context_views(current@) =~= context_views(before).insert(pos as int, m));
        }
        i += 1;
    }
    assert(all.take(all.len() as int) =~= all);
    current
}

/// The ranges served on an interface are ordered by their preferred lifetimes, the longest first, and each
/// is a configured range that is served there.
pub proof fn law_chain_is_ordered(live: LiveAddr6, ctxs: Seq<ContextView>)
    ensures
        forall|i: int, j: int|
            0 <= i <= j < chain_of(live, ctxs).len() ==> (#[trigger] chain_of(live, ctxs)[i]).preferred >= (
            #[trigger] chain_of(live, ctxs)[j]).preferred,
        forall|i: int|
            0 <= i < chain_of(live, ctxs).len() ==> exists|k: int|
                0 <= k < ctxs.len() && served(live, #[trigger] ctxs[k]) && #[trigger] chain_of(live, ctxs)[i] == completed(
                    live,
                    ctxs[k],
                ),
    decreases ctxs.len(),
{
    if ctxs.len() > 0 {
        law_chain_is_ordered(live, ctxs.drop_last());
        let rest = chain_of(live, ctxs.drop_last());
        let all = chain_of(live, ctxs);
        if served(live, ctxs.last()) {
            let c = completed(live, ctxs.last());
            let p = place_in(rest, c.preferred, 0);
            lemma_place_in(rest, c.preferred, 0);
            assert forall|i: int, j: int| 0 <= i <= j < all.len() implies (#[trigger] all[i]).preferred >= (
            #[trigger] all[j]).preferred by {
                let a = if i < p {
                    i
                } else {
                    i - 1
                };
                let b = if j < p {
                    j
                } else {
                    j - 1
                };
                if i != p {
                    assert(all[i] == rest[a]);
                }
                if j != p {
                    assert(all[j] == rest[b]);
                }
                if i != p && j != p {
                    assert(rest[a].preferred >= rest[b].preferred);
                } else if i == p && j > p {
                    assert(rest[p].preferred >= rest[b].preferred);
                }
            }
        }
        assert forall|i: int| 0 <= i < all.len() implies exists|k: int|
            0 <= k < ctxs.len() && served(live, #[trigger] ctxs[k]) && #[trigger] all[i] == completed(live, ctxs[k]) by {
            let c = completed(live, ctxs.last());
            let p = place_in(rest, c.preferred, 0);
            lemma_place_in(rest, c.preferred, 0);
            if served(live, ctxs.last()) && i == p {
                assert(served(live, ctxs[ctxs.len() - 1]));
            } else {
                let a = if !served(live, ctxs.last()) || i < p {
                    i
                } else {
                    i - 1
                };
                assert(all[i] == rest[a]);
                let k = choose|k: int|
                    0 <= k < ctxs.drop_last().len() && served(live, #[trigger] ctxs.drop_last()[k]) && rest[a] == completed(
                        live,
                        ctxs.drop_last()[k],
                    );
                assert(ctxs[k] == ctxs.drop_last()[k]);
            }
        }
    }
}

/// A range after an interface's address was seen: ranges that are patterns or come from patterns stay as
/// they are; others on its network learn the address and the interface.
pub open spec fn touched(live: LiveAddr6, ctx: ContextView) -> ContextView {
    if decides(live.addr) && !ctx.flags.template && !ctx.flags.constructed && covers(live, ctx) {
        ContextView { if_index: live.if_index as i32, local6: live.addr, ..ctx }
    } else {
        ctx
    }
}

/// A range after interfaces' addresses were seen, in order.
pub open spec fn touched_by_all(lives: Seq<LiveAddr6>, ctx: ContextView) -> ContextView
    decreases lives.len(),
{
    if lives.len() == 0 {
        ctx
    } else {
        touched(lives.last(), touched_by_all(lives.drop_last(), ctx))
    }
}

/// A range learns nothing but its interface and local address, and only from an address that can decide and on whose
/// network it lies. Loopback, link-local and multicast addresses teach it nothing; ranges that are patterns or come
/// from patterns learn nothing.
pub proof fn law_ranges_learn_their_interface(lives: Seq<LiveAddr6>, ctx: ContextView)
    ensures
        ({
            let after = touched_by_all(lives, ctx);
            &&& after == ContextView { if_index: after.if_index, local6: after.local6, ..ctx }
            &&& ctx.flags.template || ctx.flags.constructed ==> after == ctx
            &&& after != ctx ==> exists|i: int|
                0 <= i < lives.len() && decides((#[trigger] lives[i]).addr) && covers(lives[i], ctx) && after.local6
                    == lives[i].addr && after.if_index == lives[i].if_index as i32
        }),
    decreases lives.len(),
{
    if lives.len() > 0 {
        let rest = lives.drop_last();
        law_ranges_learn_their_interface(rest, ctx);
        let before = touched_by_all(rest, ctx);
        let after = touched_by_all(lives, ctx);
        let last = lives.last();
        if decides(last.addr) && !before.flags.template && !before.flags.constructed && covers(last, before) {
            assert(covers(last, ctx));
            assert(lives[lives.len() - 1] == last);
        } else {
            assert(after == before);
            if after != ctx {
                let i = choose|i: int|
                    0 <= i < rest.len() && decides((#[trigger] rest[i]).addr) && covers(rest[i], ctx) && after.local6
                        == rest[i].addr && after.if_index == rest[i].if_index as i32;
                assert(lives[i] == rest[i]);
            }
        }
    }
}

/// Fills in the interface and the local address of the ranges that lie on the network of an interface's
/// address.
pub fn dhcp_construct_contexts(contexts: &mut [DhcpContext], live_addrs: &[LiveAddr6])
    ensures
        final(contexts)@.len() == old(contexts)@.len(),
        forall|i: int|
            0 <= i < old(contexts)@.len() ==> (#[trigger] final(contexts)@[i])@ == touched_by_all(
                live_addrs@,
                old(contexts)@[i]@,
            ),
{
    let ghost start = contexts@;
    let ghost lives = live_addrs@;
    let mut k: usize = 0;
    assert(lives.take(0) =~= Seq::<LiveAddr6>::empty());
    while k < live_addrs.len()
        invariant
            k <= live_addrs@.len(),
            lives == live_addrs@,
            start == old(contexts)@,
            contexts@.len() == start.len(),
            forall|i: int|
                0 <= i < start.len() ==> (#[trigger] contexts@[i])@ == touched_by_all(lives.take(k as int), start[i]@),
        decreases live_addrs@.len() - k,
    {
        let live: &LiveAddr6 = &live_addrs[k];
        let deciding: bool = is_deciding(&live.addr);
        proof {
            assert(lives.take(k + 1).drop_last() =~= lives.take(k as int));
            assert(lives.take(k + 1).last() == *live);
        }
        let mut i: usize = 0;
        while i < contexts.len()
            invariant
                i <= contexts@.len(),
                k < live_addrs@.len(),
                lives == live_addrs@,
                *live == lives[k as int],
                lives.take(k + 1).drop_last() == lives.take(k as int),
                lives.take(k + 1).last() == *live,
                deciding == decides(live.addr),
                contexts@.len() == start.len(),
                forall|j: int|
                    0 <= j < i ==> (#[trigger] contexts@[j])@ == touched_by_all(lives.take(k + 1), start[j]@),
                forall|j: int|
                    i <= j < start.len() ==> (#[trigger] contexts@[j])@ == touched_by_all(lives.take(k as int), start[j]@),
            decreases contexts@.len() - i,
        {
            if deciding && !contexts[i].flags.template && !contexts[i].flags.constructed && is_covered(live, &contexts[i]) {
                #[verifier::truncate]
                let index: i32 = live.if_index as i32;
                contexts[i].if_index = index;
                contexts[i].local6 = live.addr;
            }
            i += 1;
        }
        k += 1;
    }
    assert(lives.take(lives.len() as int) =~= lives);
}

} // verus!
