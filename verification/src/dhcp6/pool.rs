//! The addresses that the DHCPv6 server can give out.

use crate::addr::{AllAddr, Ip6};
use crate::dhcp_common::tags::{match_netid, share_tag};
use crate::dhcp_types::{context_views, nets, ContextView, DhcpConfig, DhcpContext, DhcpNetid};
use vstd::arithmetic::div_mod::lemma_div_denominator;
use vstd::arithmetic::power2::{lemma_pow2_adds, lemma_pow2_pos, pow2};
use vstd::bits::lemma_u128_shr_is_div;
use vstd::prelude::*;

verus! {

/// The lower half of an address, which tells the host.
pub open spec fn host_part(a: Ip6) -> u64 {
    (a.bits % 0x1_0000_0000_0000_0000) as u64
}

/// An address with another lower half.
pub open spec fn with_host(base: Ip6, host: u64) -> Ip6 {
    Ip6 { bits: (base.bits - base.bits % 0x1_0000_0000_0000_0000 + host) as u128 }
}

/// The lower half of an address.
pub fn addr6part(a: &Ip6) -> (r: u64)
    ensures
        r == host_part(*a),
{
    (a.bits % 0x1_0000_0000_0000_0000) as u64
}

/// An address with another lower half.
pub fn addr6_with_host(base: &Ip6, host: u64) -> (r: Ip6)
    ensures
        r == with_host(*base, host),
{
    Ip6 { bits: base.bits - base.bits % 0x1_0000_0000_0000_0000 + host as u128 }
}

/// The lower half that was put into an address is its lower half, and the upper half stays.
pub proof fn law_host_of_address(base: Ip6, host: u64)
    ensures
        host_part(with_host(base, host)) == host,
        with_host(base, host).bits / 0x1_0000_0000_0000_0000 == base.bits / 0x1_0000_0000_0000_0000,
        with_host(base, host_part(base)) == base,
{
}

/// Whether two addresses agree in their first `prefix_len` bits. A length below 0 or above 128 asks for
/// all bits.
pub open spec fn same_net(a: Ip6, b: Ip6, prefix_len: i32) -> bool {
    if prefix_len == 0 {
        true
    } else if 0 < prefix_len < 128 {
        a.bits as int / pow2((128 - prefix_len) as nat) as int == b.bits as int / pow2((128 - prefix_len) as nat) as int
    } else {
        a == b
    }
}

/// Whether two addresses agree in their first `prefix_len` bits.
pub fn is_same_net6(a: &Ip6, b: &Ip6, prefix_len: i32) -> (r: bool)
    ensures
        r == same_net(*a, *b, prefix_len),
{
    if prefix_len == 0 {
        true
    } else if 0 < prefix_len && prefix_len < 128 {
        let shift: u128 = (128 - prefix_len) as u128;
        proof {
            lemma_u128_shr_is_div(a.bits, shift);
            lemma_u128_shr_is_div(b.bits, shift);
        }
        (a.bits >> shift) == (b.bits >> shift)
    } else {
        a.bits == b.bits
    }
}

/// Being on the same network is an equivalence.
pub proof fn law_same_net_is_equivalence(a: Ip6, b: Ip6, c: Ip6, prefix_len: i32)
    ensures
        same_net(a, a, prefix_len),
        same_net(a, b, prefix_len) == same_net(b, a, prefix_len),
        same_net(a, b, prefix_len) && same_net(b, c, prefix_len) ==> same_net(a, c, prefix_len),
{
}

/// Addresses on the same network are on the same network with a shorter prefix.
pub proof fn law_shorter_prefix(a: Ip6, b: Ip6, long: i32, short: i32)
    requires
        0 <= short <= long,
        same_net(a, b, long),
    ensures
        same_net(a, b, short),
{
    if 0 < short < 128 && long < 128 {
        let m = (128 - long) as nat;
        let d = (long - short) as nat;
        lemma_pow2_adds(m, d);
        lemma_pow2_pos(m);
        lemma_pow2_pos(d);
        lemma_div_denominator(a.bits as int, pow2(m) as int, pow2(d) as int);
        lemma_div_denominator(b.bits as int, pow2(m) as int, pow2(d) as int);
        assert(m + d == 128 - short);
    }
}

/// Whether a range can give out an address by itself: it is not for fixed addresses only, the address is
/// on its network, and the lower half lies in it.
pub open spec fn offers(ctx: ContextView, addr: Ip6) -> bool {
    !ctx.flags.static_only && !ctx.flags.ra_stateless && same_net(ctx.start6, addr, ctx.prefix) && host_part(
        ctx.start6,
    ) <= host_part(addr) <= host_part(ctx.end6)
}

/// Whether some range can give out an address by itself.
pub open spec fn available(ctxs: Seq<ContextView>, addr: Ip6) -> bool {
    exists|i: int| 0 <= i < ctxs.len() && offers(#[trigger] ctxs[i], addr)
}

/// Whether an address is on the network of some range.
pub open spec fn on_link(ctxs: Seq<ContextView>, addr: Ip6) -> bool {
    exists|i: int| 0 <= i < ctxs.len() && same_net((#[trigger] ctxs[i]).start6, addr, ctxs[i].prefix)
}

/// Whether an address can be given out by some range.
pub fn address6_available(contexts: &[DhcpContext], addr: &Ip6) -> (r: bool)
    ensures
        r == available(context_views(contexts@), *addr),
{
    let ghost all = context_views(contexts@);
    let a: u64 = addr6part(addr);
    let mut i: usize = 0;
    while i < contexts.len()
        invariant
            i <= contexts@.len(),
            all == context_views(contexts@),
            a == host_part(*addr),
            forall|j: int| 0 <= j < i ==> !offers(#[trigger] all[j], *addr),
        decreases contexts@.len() - i,
    {
        let ctx: &DhcpContext = &contexts[i];
        assert(all[i as int] == ctx@);
        if !ctx.flags.static_only && !ctx.flags.ra_stateless && is_same_net6(&ctx.start6, addr, ctx.prefix) && addr6part(
            &ctx.start6,
        ) <= a && a <= addr6part(&ctx.end6) {
            assert(offers(all[i as int], *addr));
            return true;
        }
        i += 1;
    }
    false
}

/// Whether an address is on the network of some range.
pub fn address6_valid(contexts: &[DhcpContext], addr: &Ip6) -> (r: bool)
    ensures
        r == on_link(context_views(contexts@), *addr),
{
    let ghost all = context_views(contexts@);
    let mut i: usize = 0;
    while i < contexts.len()
        invariant
            i <= contexts@.len(),
            all == context_views(contexts@),
            forall|j: int| 0 <= j < i ==> !same_net((#[trigger] all[j]).start6, *addr, all[j].prefix),
        decreases contexts@.len() - i,
    {
        assert(all[i as int] == contexts@[i as int]@);
        if is_same_net6(&contexts[i].start6, addr, contexts[i].prefix) {
            return true;
        }
        i += 1;
    }
    false
}

/// An address that a range can give out is on the network of a range.
pub proof fn law_available_is_on_link(ctxs: Seq<ContextView>, addr: Ip6)
    requires
        available(ctxs, addr),
    ensures
        on_link(ctxs, addr),
{
    let i = choose|i: int| 0 <= i < ctxs.len() && offers(#[trigger] ctxs[i], addr);
    assert(same_net(ctxs[i].start6, addr, ctxs[i].prefix));
}

/// Whether a host has this IPv6 address.
pub open spec fn has_addr6(c: DhcpConfig, addr: Ip6) -> bool {
    c.flags.addr6 && exists|k: int| 0 <= k < c.addr6@.len() && (#[trigger] c.addr6@[k]).addr == AllAddr::Addr6(addr)
}

/// Whether some host has this IPv6 address.
pub open spec fn reserved(configs: Seq<DhcpConfig>, addr: Ip6) -> bool {
    exists|i: int| 0 <= i < configs.len() && has_addr6(#[trigger] configs[i], addr)
}

/// Whether some configured host has this address.
pub fn config_find_by_address6(configs: &[DhcpConfig], addr: &Ip6) -> (r: bool)
    ensures
        r == reserved(configs@, *addr),
{
    let mut i: usize = 0;
    while i < configs.len()
        invariant
            i <= configs@.len(),
            forall|j: int| 0 <= j < i ==> !has_addr6(#[trigger] configs@[j], *addr),
        decreases configs@.len() - i,
    {
        if configs[i].flags.addr6 {
            let mut k: usize = 0;
            while k < configs[i].addr6.len()
                invariant
                    i < configs@.len(),
                    configs@[i as int].flags.addr6,
                    k <= configs@[i as int].addr6@.len(),
                    forall|j: int| 0 <= j < k ==> (#[trigger] configs@[i as int].addr6@[j]).addr != AllAddr::Addr6(*addr),
                decreases configs@[i as int].addr6@.len() - k,
            {
                if let AllAddr::Addr6(a) = configs[i].addr6[k].addr {
                    if is_same_net6(&a, addr, 128) {
                        assert(configs@[i as int].addr6@[k as int].addr == AllAddr::Addr6(*addr));
                        assert(has_addr6(configs@[i as int], *addr));
                        return true;
                    }
                }
                k += 1;
            }
        }
        i += 1;
    }
    false
}

/// The hash of a client id from which the search for an address starts.
pub open spec fn sdbm(clid: Seq<u8>, iaid: u32) -> u64
    decreases clid.len(),
{
    if clid.len() == 0 {
        iaid as u64
    } else {
        ((clid.last() + 65599 * sdbm(clid.drop_last(), iaid)) % 0x1_0000_0000_0000_0000) as u64
    }
}

/// Hashes a client id, starting from the client's number for its addresses.
pub fn sdbm_hash64(clid: &[u8], iaid: u32) -> (j: u64)
    ensures
        j == sdbm(clid@, iaid),
{
    let mut j: u64 = iaid as u64;
    let mut i: usize = 0;
    assert(clid@.take(0) =~= Seq::<u8>::empty());
    while i < clid.len()
        invariant
            i <= clid@.len(),
            j == sdbm(clid@.take(i as int), iaid),
        decreases clid@.len() - i,
    {
        proof {
            assert(clid@.take(i + 1).drop_last() =~= clid@.take(i as int));
            assert(clid@.take(i + 1).last() == clid@[i as int]);
        }
        let wide: u128 = clid[i] as u128 + 65599 * (j as u128);
        j = (wide % 0x1_0000_0000_0000_0000) as u64;
        i += 1;
    }
    assert(clid@.take(clid@.len() as int) =~= clid@);
    j
}

/// How many lower halves a range has. One whose end is before its start runs through the largest number.
pub open spec fn range_size(start: u64, end: u64) -> int {
    if start <= end {
        end - start + 1
    } else {
        0x1_0000_0000_0000_0000 - start + end + 1
    }
}

/// The place in a range where the search for an address starts.
pub open spec fn first_place(hash: u64, epoch: u32, start: u64, end: u64) -> int {
    ((hash + epoch) % 0x1_0000_0000_0000_0000) % range_size(start, end)
}

/// The lower half at a place of a range; after the largest number comes 0.
pub open spec fn host_at(start: u64, place: int) -> u64 {
    if start + place <= u64::MAX {
        (start + place) as u64
    } else {
        (start + place - 0x1_0000_0000_0000_0000) as u64
    }
}

/// The lower half where the search for an address starts.
pub fn hash_to_addr6(hash: u64, epoch: u32, start_low: u64, end_low: u64) -> (r: u64)
    ensures
        r == host_at(start_low, first_place(hash, epoch, start_low, end_low)),
{
    let size: u128 = if start_low <= end_low {
        end_low as u128 - start_low as u128 + 1
    } else {
        0x1_0000_0000_0000_0000 - start_low as u128 + end_low as u128 + 1
    };
    let offset: u128 = (hash as u128 + epoch as u128) % 0x1_0000_0000_0000_0000;
    let place: u128 = offset % size;
    assert(place < size);
    let sum: u128 = start_low as u128 + place;
    if sum <= u64::MAX as u128 {
        sum as u64
    } else {
        (sum - 0x1_0000_0000_0000_0000) as u64
    }
}

/// The search for an address starts within the range.
pub proof fn law_hash_in_range(hash: u64, epoch: u32, start: u64, end: u64)
    requires
        start <= end,
    ensures
        start <= host_at(start, first_place(hash, epoch, start, end)) <= end,
{
    lemma_first_place(hash, epoch, start, end);
}

/// Whether a range takes part in the search for a client with these tags.
pub open spec fn searchable(ctx: ContextView, netids: Seq<Seq<char>>) -> bool {
    !ctx.flags.deprecate && !ctx.flags.static_only && !ctx.flags.ra_stateless && !ctx.flags.used && (ctx.filter.len() == 0
        || share_tag(ctx.filter, netids))
}

/// Whether the server itself has this lower half on some network.
pub open spec fn is_servers(ctxs: Seq<ContextView>, host: u64) -> bool {
    exists|i: int| 0 <= i < ctxs.len() && host_part((#[trigger] ctxs[i]).local6) == host
}

/// The lower half of the candidate after `k` steps: the search runs to the end of the range and goes on at
/// its start.
pub open spec fn host_after(start: u64, end: u64, first: int, k: int) -> u64 {
    let size = range_size(start, end);
    host_at(
        start,
        if first + k < size {
            first + k
        } else {
            first + k - size
        },
    )
}

/// The candidate after `k` steps.
pub open spec fn candidate(ctx: ContextView, first: int, k: int) -> Ip6 {
    with_host(ctx.start6, host_after(host_part(ctx.start6), host_part(ctx.end6), first, k))
}

/// Whether a candidate can be given out.
pub open spec fn free(ctxs: Seq<ContextView>, a: Ip6, taken: spec_fn(Ip6) -> bool) -> bool {
    !is_servers(ctxs, host_part(a)) && !taken(a)
}

/// The first candidate of a range, from step `k` on, that can be given out.
pub open spec fn first_free(
    ctxs: Seq<ContextView>,
    ctx: ContextView,
    first: int,
    taken: spec_fn(Ip6) -> bool,
    k: int,
) -> Option<Ip6>
    decreases range_size(host_part(ctx.start6), host_part(ctx.end6)) - k,
{
    if k >= range_size(host_part(ctx.start6), host_part(ctx.end6)) {
        None
    } else if free(ctxs, candidate(ctx, first, k), taken) {
        Some(candidate(ctx, first, k))
    } else {
        first_free(ctxs, ctx, first, taken, k + 1)
    }
}

/// The place in a range where the search for a client's address starts.
pub open spec fn client_place(ctx: ContextView, hash: u64) -> int {
    first_place(hash, ctx.addr_epoch, host_part(ctx.start6), host_part(ctx.end6))
}

/// The address that a client gets from the ranges from number `i` on: the first that is free.
pub open spec fn allocated(
    ctxs: Seq<ContextView>,
    hash: u64,
    netids: Seq<Seq<char>>,
    taken: spec_fn(Ip6) -> bool,
    i: int,
) -> Option<Ip6>
    decreases ctxs.len() - i,
{
    if !(0 <= i < ctxs.len()) {
        None
    } else {
        let found = if searchable(ctxs[i], netids) {
            first_free(ctxs, ctxs[i], client_place(ctxs[i], hash), taken, 0)
        } else {
            None
        };
        if found is Some {
            found
        } else {
            allocated(ctxs, hash, netids, taken, i + 1)
        }
    }
}

/// Whether `in_use` answers as `taken` says.
pub open spec fn answers<F: Fn(&Ip6) -> bool>(in_use: F, taken: spec_fn(Ip6) -> bool) -> bool {
    forall|a: Ip6, b: bool| #[trigger] call_ensures(in_use, (&a,), b) ==> b == taken(a)
}

/// Whether `res` is what can come of a search of a range from step `k` on, in which `in_use` is asked of each candidate
/// that is none of the server's own: the first candidate that it does not report.
pub open spec fn finds<F: Fn(&Ip6) -> bool>(
    in_use: F,
    ctxs: Seq<ContextView>,
    ctx: ContextView,
    first: int,
    k: int,
    res: Option<Ip6>,
) -> bool
    decreases range_size(host_part(ctx.start6), host_part(ctx.end6)) - k,
{
    if k >= range_size(host_part(ctx.start6), host_part(ctx.end6)) {
        res is None
    } else {
        let a = candidate(ctx, first, k);
        if is_servers(ctxs, host_part(a)) {
            finds(in_use, ctxs, ctx, first, k + 1, res)
        } else {
            exists|x: &Ip6, b: bool|
                *x == a && #[trigger] call_ensures(in_use, (x,), b) && if b {
                    finds(in_use, ctxs, ctx, first, k + 1, res)
                } else {
                    res == Some(a)
                }
        }
    }
}

/// Whether `res` is what a client can get from the ranges from number `i` on: what is found in the first of them in
/// which something is.
pub open spec fn allocates<F: Fn(&Ip6) -> bool>(
    in_use: F,
    ctxs: Seq<ContextView>,
    hash: u64,
    netids: Seq<Seq<char>>,
    i: int,
    res: Option<Ip6>,
) -> bool
    decreases ctxs.len() - i,
{
    if !(0 <= i < ctxs.len()) {
        res is None
    } else if searchable(ctxs[i], netids) {
        exists|found: Option<Ip6>| #[trigger]
            finds(in_use, ctxs, ctxs[i], client_place(ctxs[i], hash), 0, found) && if found is Some {
                res == found
            } else {
                allocates(in_use, ctxs, hash, netids, i + 1, res)
            }
    } else {
        allocates(in_use, ctxs, hash, netids, i + 1, res)
    }
}

/// Where `in_use` always answers the same, a search of a range finds the first candidate that is free.
proof fn lemma_finds_first_free<F: Fn(&Ip6) -> bool>(
    in_use: F,
    taken: spec_fn(Ip6) -> bool,
    ctxs: Seq<ContextView>,
    ctx: ContextView,
    first: int,
    k: int,
    res: Option<Ip6>,
)
    requires
        answers(in_use, taken),
        finds(in_use, ctxs, ctx, first, k, res),
    ensures
        res == first_free(ctxs, ctx, first, taken, k),
    decreases range_size(host_part(ctx.start6), host_part(ctx.end6)) - k,
{
    if k < range_size(host_part(ctx.start6), host_part(ctx.end6)) {
        if !free(ctxs, candidate(ctx, first, k), taken) {
            lemma_finds_first_free(in_use, taken, ctxs, ctx, first, k + 1, res);
        }
    }
}

/// Where `in_use` always answers the same, a client gets the first address that is free.
proof fn lemma_allocates_first_free<F: Fn(&Ip6) -> bool>(
    in_use: F,
    taken: spec_fn(Ip6) -> bool,
    ctxs: Seq<ContextView>,
    hash: u64,
    netids: Seq<Seq<char>>,
    i: int,
    res: Option<Ip6>,
)
    requires
        0 <= i,
        answers(in_use, taken),
        allocates(in_use, ctxs, hash, netids, i, res),
    ensures
        res == allocated(ctxs, hash, netids, taken, i),
    decreases ctxs.len() - i,
{
    if i < ctxs.len() {
        if searchable(ctxs[i], netids) {
            let place = client_place(ctxs[i], hash);
            let found = choose|found: Option<Ip6>| #[trigger]
                finds(in_use, ctxs, ctxs[i], place, 0, found) && if found is Some {
                    res == found
                } else {
                    allocates(in_use, ctxs, hash, netids, i + 1, res)
                };
            lemma_finds_first_free(in_use, taken, ctxs, ctxs[i], place, 0, found);
            if found is None {
                lemma_allocates_first_free(in_use, taken, ctxs, hash, netids, i + 1, res);
            }
        } else {
            lemma_allocates_first_free(in_use, taken, ctxs, hash, netids, i + 1, res);
        }
    }
}

/// Whether the server itself has this lower half on some network.
fn is_server_host(contexts: &[DhcpContext], host: u64) -> (r: bool)
    ensures
        r == is_servers(context_views(contexts@), host),
{
    let ghost all = context_views(contexts@);
    let mut i: usize = 0;
    while i < contexts.len()
        invariant
            i <= contexts@.len(),
            all == context_views(contexts@),
            forall|j: int| 0 <= j < i ==> host_part((#[trigger] all[j]).local6) != host,
        decreases contexts@.len() - i,
    {
        assert(all[i as int] == contexts@[i as int]@);
        if addr6part(&contexts[i].local6) == host {
            return true;
        }
        i += 1;
    }
    false
}

/// Whether a range takes part in the search for a client with these tags.
fn is_searchable(ctx: &DhcpContext, netids: &[DhcpNetid]) -> (r: bool)
    ensures
        r == searchable(ctx@, nets(netids@)),
{
    !ctx.flags.deprecate && !ctx.flags.static_only && !ctx.flags.ra_stateless && !ctx.flags.used && (ctx.filter.len() == 0
        || match_netid(ctx.filter.as_slice(), netids))
}

/// The lower half after the one at hand.
pub open spec fn next_host(start: u64, end: u64, host: u64) -> u64 {
    if host == end {
        start
    } else if host == u64::MAX {
        0
    } else {
        (host + 1) as u64
    }
}

/// The search goes from one candidate to the next, and comes back to the first after going round once.
proof fn lemma_next_host(start: u64, end: u64, first: int, k: int)
    requires
        0 <= first < range_size(start, end),
        0 <= k < range_size(start, end),
    ensures
        k + 1 < range_size(start, end) ==> next_host(start, end, host_after(start, end, first, k)) == host_after(
            start,
            end,
            first,
            k + 1,
        ),
        k + 1 < range_size(start, end) ==> host_after(start, end, first, k + 1) != host_after(start, end, first, 0),
        k + 1 == range_size(start, end) ==> next_host(start, end, host_after(start, end, first, k)) == host_after(
            start,
            end,
            first,
            0,
        ),
{
}

/// The place where a search starts lies in the range.
proof fn lemma_first_place(hash: u64, epoch: u32, start: u64, end: u64)
    ensures
        0 <= first_place(hash, epoch, start, end) < range_size(start, end),
{
    let size = range_size(start, end);
    let x = (hash + epoch) % 0x1_0000_0000_0000_0000;
    assert(0 <= x % size < size) by (nonlinear_arith)
        requires
            size > 0,
            0 <= x,
    ;
}

/// Looks for an address in one range.
fn search_range<F: Fn(&Ip6) -> bool>(contexts: &[DhcpContext], ctx: &DhcpContext, hash: u64, in_use: &F) -> (r: Option<Ip6>)
    requires
        forall|a: &Ip6| #[trigger] call_requires(*in_use, (a,)),
    ensures
        finds(*in_use, context_views(contexts@), ctx@, client_place(ctx@, hash), 0, r),
        r matches Some(a) ==> call_ensures(*in_use, (&a,), false) && !is_servers(context_views(contexts@), host_part(a)),
{
    let ghost all = context_views(contexts@);
    let ghost c = ctx@;
    let start: u64 = addr6part(&ctx.start6);
    let end: u64 = addr6part(&ctx.end6);
    let from: u64 = hash_to_addr6(hash, ctx.addr_epoch, start, end);
    let ghost first = client_place(c, hash);
    let ghost size = range_size(start, end);
    proof {
        lemma_first_place(hash, ctx.addr_epoch, start, end);
    }
    let mut host: u64 = from;
    let ghost mut k: int = 0;
    loop
        invariant
            all == context_views(contexts@),
            c == ctx@,
            start == host_part(c.start6),
            end == host_part(c.end6),
            size == range_size(start, end),
            first == client_place(c, hash),
            0 <= first < size,
            from == host_after(start, end, first, 0),
            0 <= k < size,
            host == host_after(start, end, first, k),
            forall|a: &Ip6| #[trigger] call_requires(*in_use, (a,)),
            forall|res: Option<Ip6>| #[trigger]
                finds(*in_use, all, c, first, k, res) ==> finds(*in_use, all, c, first, 0, res),
        decreases size - k,
    {
        let a: Ip6 = addr6_with_host(&ctx.start6, host);
        assert(a == candidate(c, first, k));
        proof {
            law_host_of_address(c.start6, host);
        }
        if !is_server_host(contexts, host) {
            let used: bool = in_use(&a);
            assert(call_ensures(*in_use, (&a,), used));
            if !used {
                assert(finds(*in_use, all, c, first, k, Some(a)));
                return Some(a);
            }
        }
        proof {
            assert forall|res: Option<Ip6>| #[trigger] finds(*in_use, all, c, first, k + 1, res) implies finds(
                *in_use,
                all,
                c,
                first,
                0,
                res,
            ) by {
                assert(finds(*in_use, all, c, first, k, res));
            }
            lemma_next_host(start, end, first, k);
            k = k + 1;
        }
        host = if host == end {
            start
        } else if host == u64::MAX {
            0
        } else {
            host + 1
        };
        if host == from {
            assert(finds(*in_use, all, c, first, k, None));
            return None;
        }
    }
}

/// Looks for an address for a client. Ranges that are deprecated, for fixed addresses only, stateless or
/// used up are passed over, and those whose tags the client does not share. In each other range the
/// search starts at a place that comes from the client's id, and goes once round the range, for an address
/// whose lower half is none of the server's own and that `in_use` does not report.
pub fn address6_allocate<F: Fn(&Ip6) -> bool>(
    contexts: &[DhcpContext],
    clid: &[u8],
    iaid: u32,
    netids: &[DhcpNetid],
    in_use: F,
) -> (r: Option<Ip6>)
    requires
        forall|a: &Ip6| #[trigger] call_requires(in_use, (a,)),
    ensures
        allocates(in_use, context_views(contexts@), sdbm(clid@, iaid), nets(netids@), 0, r),
        forall|taken: spec_fn(Ip6) -> bool|
            answers(in_use, taken) ==> r == #[trigger] allocated(
                context_views(contexts@),
                sdbm(clid@, iaid),
                nets(netids@),
                taken,
                0,
            ),
        r matches Some(a) ==> call_ensures(in_use, (&a,), false) && !is_servers(context_views(contexts@), host_part(a)),
{
    let ghost all = context_views(contexts@);
    let ghost tags = nets(netids@);
    let hash: u64 = sdbm_hash64(clid, iaid);
    let mut r: Option<Ip6> = None;
    let mut i: usize = 0;
    while i < contexts.len() && r.is_none()
        invariant
            i <= contexts@.len(),
            all == context_views(contexts@),
            tags == nets(netids@),
            forall|a: &Ip6| #[trigger] call_requires(in_use, (a,)),
            r is None ==> forall|res: Option<Ip6>| #[trigger]
                allocates(in_use, all, hash, tags, i as int, res) ==> allocates(in_use, all, hash, tags, 0, res),
            r is Some ==> allocates(in_use, all, hash, tags, 0, r),
            r matches Some(a) ==> call_ensures(in_use, (&a,), false) && !is_servers(all, host_part(a)),
        decreases contexts@.len() - i,
    {
        let ctx: &DhcpContext = &contexts[i];
        assert(all[i as int] == ctx@);
        if is_searchable(ctx, netids) {
            r = search_range(contexts, ctx, hash, &in_use);
        }
        proof {
            if r is Some {
                assert(allocates(in_use, all, hash, tags, i as int, r));
            } else {
                assert forall|res: Option<Ip6>| #[trigger]
                    allocates(in_use, all, hash, tags, i + 1, res) implies allocates(
                    in_use,
                    all,
                    hash,
                    tags,
                    0,
                    res,
                ) by {
                    assert(allocates(in_use, all, hash, tags, i as int, res));
                }
            }
        }
        i += 1;
    }
    proof {
        if r is None {
            assert(allocates(in_use, all, hash, tags, i as int, None));
        }
        assert forall|taken: spec_fn(Ip6) -> bool| answers(in_use, taken) implies r == #[trigger] allocated(
            all,
            hash,
            tags,
            taken,
            0,
        ) by {
            lemma_allocates_first_free(in_use, taken, all, hash, tags, 0, r);
        }
    }
    r
}

/// Where a search in a range ends: with an address of the range that can be given out.
proof fn lemma_first_free(ctxs: Seq<ContextView>, ctx: ContextView, first: int, taken: spec_fn(Ip6) -> bool, k: int)
    requires
        0 <= k,
    ensures
        first_free(ctxs, ctx, first, taken, k) matches Some(a) ==> free(ctxs, a, taken) && exists|n: int|
            k <= n < range_size(host_part(ctx.start6), host_part(ctx.end6)) && a == #[trigger] candidate(ctx, first, n),
    decreases range_size(host_part(ctx.start6), host_part(ctx.end6)) - k,
{
    if k < range_size(host_part(ctx.start6), host_part(ctx.end6)) {
        if !free(ctxs, candidate(ctx, first, k), taken) {
            lemma_first_free(ctxs, ctx, first, taken, k + 1);
        }
    }
}

/// An address that was found for a client is not in use, and its lower half is none of the server's own.
pub proof fn law_allocated_address(
    ctxs: Seq<ContextView>,
    hash: u64,
    netids: Seq<Seq<char>>,
    taken: spec_fn(Ip6) -> bool,
    i: int,
)
    requires
        0 <= i,
    ensures
        allocated(ctxs, hash, netids, taken, i) matches Some(a) ==> !taken(a) && !is_servers(ctxs, host_part(a)),
    decreases ctxs.len() - i,
{
    if i < ctxs.len() {
        law_allocated_address(ctxs, hash, netids, taken, i + 1);
        let c = ctxs[i];
        lemma_first_place(hash, c.addr_epoch, host_part(c.start6), host_part(c.end6));
        lemma_first_free(ctxs, c, client_place(c, hash), taken, 0);
    }
}

/// Where every range is written the right way round, an address that was found for a client lies in a range
/// that takes part in the search.
pub proof fn law_allocated_in_range(
    ctxs: Seq<ContextView>,
    hash: u64,
    netids: Seq<Seq<char>>,
    taken: spec_fn(Ip6) -> bool,
    i: int,
)
    requires
        0 <= i,
        forall|j: int| 0 <= j < ctxs.len() ==> host_part((#[trigger] ctxs[j]).start6) <= host_part(ctxs[j].end6),
    ensures
        allocated(ctxs, hash, netids, taken, i) matches Some(a) ==> exists|j: int|
            i <= j < ctxs.len() && searchable(#[trigger] ctxs[j], netids) && host_part(ctxs[j].start6) <= host_part(a)
                <= host_part(ctxs[j].end6) && a.bits / 0x1_0000_0000_0000_0000 == ctxs[j].start6.bits
                / 0x1_0000_0000_0000_0000,
    decreases ctxs.len() - i,
{
    if i < ctxs.len() {
        law_allocated_in_range(ctxs, hash, netids, taken, i + 1);
        let c = ctxs[i];
        let start = host_part(c.start6);
        let size = range_size(start, host_part(c.end6));
        let first = client_place(c, hash);
        lemma_first_place(hash, c.addr_epoch, start, host_part(c.end6));
        lemma_first_free(ctxs, c, first, taken, 0);
        if searchable(c, netids) && first_free(ctxs, c, first, taken, 0) is Some {
            let a = first_free(ctxs, c, first, taken, 0)->0;
            let n = choose|n: int| 0 <= n < size && a == #[trigger] candidate(c, first, n);
            let place = if first + n < size {
                first + n
            } else {
                first + n - size
            };
            law_host_of_address(c.start6, host_at(start, place));
            assert(start <= host_part(a) <= host_part(c.end6));
            assert(searchable(ctxs[i], netids));
        }
    }
}

} // verus!
