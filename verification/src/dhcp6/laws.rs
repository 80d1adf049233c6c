//! Which address a client gets.

use super::dispatch::{address_for, in_use, used_addrs, Server};
use super::pool::{
    allocated, available, candidate, client_place, first_free, free, has_addr6, host_after, host_part, is_servers,
    law_allocated_address, law_allocated_in_range, law_host_of_address, offers, on_link, range_size, reserved, same_net, sdbm,
    searchable,
};
use crate::addr::Ip6;
use crate::dhcp_common::message_laws::law_common_tag;
use crate::dhcp_types::ContextView;
use crate::lease::{held_by, lemma_at_addr, of_client, LeaseView};
use vstd::arithmetic::power2::{lemma_pow2_pos, pow2};
use vstd::prelude::*;

verus! {

/// The first lease of a client is where the search for it ends.
proof fn lemma_own_lease(ls: Seq<LeaseView>, clid: Seq<u8>, iaid: u32, i: int, k: int)
    requires
        0 <= i <= k < ls.len(),
        held_by(ls[k], clid, iaid),
        forall|j: int| i <= j < k ==> !held_by(#[trigger] ls[j], clid, iaid),
    ensures
        of_client(ls, clid, iaid, i) == Some(k),
    decreases k - i,
{
    if i < k {
        assert(!held_by(ls[i], clid, iaid));
        lemma_own_lease(ls, clid, iaid, i + 1, k);
    }
}

/// A client without a lease has none from any number on.
proof fn lemma_no_own_lease(ls: Seq<LeaseView>, clid: Seq<u8>, iaid: u32, i: int)
    requires
        0 <= i,
        forall|j: int| i <= j < ls.len() ==> !held_by(#[trigger] ls[j], clid, iaid),
    ensures
        of_client(ls, clid, iaid, i) is None,
    decreases ls.len() - i,
{
    if i < ls.len() {
        assert(!held_by(ls[i], clid, iaid));
        lemma_no_own_lease(ls, clid, iaid, i + 1);
    }
}

/// Whether an address can be given to a client that asks for it: it is in a range, and no one else has a lease of it.
pub open spec fn giveable(srv: Server, ls: Seq<LeaseView>, clid: Seq<u8>, iaid: u32, a: Ip6) -> bool {
    &&& available(srv.contexts, a)
    &&& forall|k: int| 0 <= k < ls.len() && (#[trigger] ls[k]).addr6 == a ==> ls[k].clid == Some(clid) && ls[k].iaid == iaid
}

/// A client gets the address that it asks for where that is in a range and no one else has a lease of it.
pub proof fn law_requested_address_is_given(srv: Server, ls: Seq<LeaseView>, clid: Seq<u8>, iaid: u32, a: Ip6)
    requires
        giveable(srv, ls, clid, iaid, a),
    ensures
        address_for(srv, ls, clid, iaid, Some(a)) == Some(a),
{
    lemma_at_addr(ls, a, 0);
    let i = choose|i: int| 0 <= i < srv.contexts.len() && offers(#[trigger] srv.contexts[i], a);
    assert(same_net(srv.contexts[i].start6, a, srv.contexts[i].prefix));
}

/// A client that asks for no address, or for one that is outside the ranges, or that is leased to someone else alone,
/// gets the address that it has, where that is in a range.
pub proof fn law_client_keeps_its_address(
    srv: Server,
    ls: Seq<LeaseView>,
    clid: Seq<u8>,
    iaid: u32,
    requested: Option<Ip6>,
    k: int,
)
    requires
        0 <= k < ls.len(),
        ls[k].clid == Some(clid) && ls[k].iaid == iaid,
        forall|j: int| 0 <= j < k ==> !((#[trigger] ls[j]).clid == Some(clid) && ls[j].iaid == iaid),
        available(srv.contexts, ls[k].addr6),
        requested matches Some(a) ==> {
            ||| !available(srv.contexts, a)
            ||| exists|j: int|
                0 <= j < ls.len() && (#[trigger] ls[j]).addr6 == a && !(ls[j].clid == Some(clid) && ls[j].iaid == iaid) && forall|
                    n: int,
                |
                    0 <= n < j ==> (#[trigger] ls[n]).addr6 != a
        },
    ensures
        address_for(srv, ls, clid, iaid, requested) == Some(ls[k].addr6),
{
    assert forall|j: int| 0 <= j < k implies !held_by(#[trigger] ls[j], clid, iaid) by {
        assert(!(ls[j].clid == Some(clid) && ls[j].iaid == iaid));
    }
    lemma_own_lease(ls, clid, iaid, 0, k);
    if let Some(a) = requested {
        lemma_at_addr(ls, a, 0);
    }
}

/// Every lower half of a range is that of a candidate.
proof fn lemma_candidates_cover(start: u64, end: u64, first: int, host: u64) -> (k: int)
    requires
        start <= host <= end,
        0 <= first < range_size(start, end),
    ensures
        0 <= k < range_size(start, end),
        host_after(start, end, first, k) == host,
{
    let place = host - start;
    if place >= first {
        place - first
    } else {
        place - first + range_size(start, end)
    }
}

/// A search of a range that finds nothing has seen no candidate that is free.
proof fn lemma_none_free(ctxs: Seq<ContextView>, ctx: ContextView, first: int, taken: spec_fn(Ip6) -> bool, i: int, k: int)
    requires
        i <= k < range_size(host_part(ctx.start6), host_part(ctx.end6)),
        first_free(ctxs, ctx, first, taken, i) is None,
    ensures
        !free(ctxs, candidate(ctx, first, k), taken),
    decreases k - i,
{
    if i < k {
        lemma_none_free(ctxs, ctx, first, taken, i + 1, k);
    }
}

/// The place where a search starts lies in the range.
proof fn lemma_place_in_range(ctx: ContextView, hash: u64)
    requires
        host_part(ctx.start6) <= host_part(ctx.end6),
    ensures
        0 <= client_place(ctx, hash) < range_size(host_part(ctx.start6), host_part(ctx.end6)),
{
    let size = range_size(host_part(ctx.start6), host_part(ctx.end6));
    let x = (hash + ctx.addr_epoch) % 0x1_0000_0000_0000_0000;
    assert(0 <= x % size < size) by (nonlinear_arith)
        requires
            size > 0,
    ;
}

/// Where nothing is found for a client, every address of every range that takes part in the search is taken, or is one
/// of the server's own.
pub proof fn law_nothing_is_overlooked(
    ctxs: Seq<ContextView>,
    hash: u64,
    netids: Seq<Seq<char>>,
    taken: spec_fn(Ip6) -> bool,
    i: int,
    j: int,
    a: Ip6,
)
    requires
        0 <= i <= j < ctxs.len(),
        searchable(ctxs[j], netids),
        host_part(ctxs[j].start6) <= host_part(a) <= host_part(ctxs[j].end6),
        a.bits / 0x1_0000_0000_0000_0000 == ctxs[j].start6.bits / 0x1_0000_0000_0000_0000,
        allocated(ctxs, hash, netids, taken, i) is None,
    ensures
        taken(a) || is_servers(ctxs, host_part(a)),
    decreases j - i,
{
    if i < j {
        law_nothing_is_overlooked(ctxs, hash, netids, taken, i + 1, j, a);
    } else {
        let ctx = ctxs[j];
        let first = client_place(ctx, hash);
        lemma_place_in_range(ctx, hash);
        let k = lemma_candidates_cover(host_part(ctx.start6), host_part(ctx.end6), first, host_part(a));
        lemma_none_free(ctxs, ctx, first, taken, 0, k);
        let c = candidate(ctx, first, k);
        law_host_of_address(ctx.start6, host_part(a));
        assert(c == a);
    }
}

/// A client without a lease that asks for nothing it can get is given a new address: one that no one has a lease of, that
/// no configured host has, whose lower half is none of the server's own, and that lies in a range that is open to every
/// client. There is no such address where it gets none. The ranges are written the right way round.
pub proof fn law_new_client_gets_a_free_address(
    srv: Server,
    ls: Seq<LeaseView>,
    clid: Seq<u8>,
    iaid: u32,
    requested: Option<Ip6>,
    j: int,
    a: Ip6,
)
    requires
        forall|k: int| 0 <= k < ls.len() ==> !((#[trigger] ls[k]).clid == Some(clid) && ls[k].iaid == iaid),
        forall|n: int|
            0 <= n < srv.contexts.len() ==> host_part((#[trigger] srv.contexts[n]).start6) <= host_part(srv.contexts[n].end6),
        requested matches Some(r) ==> !available(srv.contexts, r) || exists|k: int|
            0 <= k < ls.len() && (#[trigger] ls[k]).addr6 == r,
    ensures
        match address_for(srv, ls, clid, iaid, requested) {
            Some(got) => {
                &&& forall|k: int| 0 <= k < ls.len() ==> (#[trigger] ls[k]).addr6 != got
                &&& forall|k: int| 0 <= k < srv.configs.len() ==> !has_addr6(#[trigger] srv.configs[k], got)
                &&& forall|n: int|
                    0 <= n < srv.contexts.len() ==> host_part((#[trigger] srv.contexts[n]).local6) != host_part(got)
                &&& exists|n: int|
                    0 <= n < srv.contexts.len() && searchable(#[trigger] srv.contexts[n], seq![]) && host_part(
                        srv.contexts[n].start6,
                    ) <= host_part(got) <= host_part(srv.contexts[n].end6) && got.bits / 0x1_0000_0000_0000_0000
                        == srv.contexts[n].start6.bits / 0x1_0000_0000_0000_0000
            },
            None => {
                (0 <= j < srv.contexts.len() && searchable(srv.contexts[j], seq![]) && host_part(srv.contexts[j].start6)
                    <= host_part(a) <= host_part(srv.contexts[j].end6) && a.bits / 0x1_0000_0000_0000_0000
                    == srv.contexts[j].start6.bits / 0x1_0000_0000_0000_0000) ==> {
                    ||| exists|k: int| 0 <= k < ls.len() && (#[trigger] ls[k]).addr6 == a
                    ||| reserved(srv.configs, a)
                    ||| is_servers(srv.contexts, host_part(a))
                }
            },
        },
{
    assert forall|k: int| 0 <= k < ls.len() implies !held_by(#[trigger] ls[k], clid, iaid) by {
        assert(!(ls[k].clid == Some(clid) && ls[k].iaid == iaid));
    }
    lemma_no_own_lease(ls, clid, iaid, 0);
    if let Some(r) = requested {
        lemma_at_addr(ls, r, 0);
    }
    let taken = used_addrs(ls, srv.configs);
    let hash = sdbm(clid, iaid);
    let none = Seq::<Seq<char>>::empty();
    assert(address_for(srv, ls, clid, iaid, requested) == allocated(srv.contexts, hash, none, taken, 0));
    law_allocated_address(srv.contexts, hash, none, taken, 0);
    law_allocated_in_range(srv.contexts, hash, none, taken, 0);
    match address_for(srv, ls, clid, iaid, requested) {
        Some(got) => {
            assert(!in_use(ls, srv.configs, got));
            lemma_at_addr(ls, got, 0);
            assert forall|k: int| 0 <= k < srv.configs.len() implies !has_addr6(#[trigger] srv.configs[k], got) by {}
        },
        None => {
            if 0 <= j < srv.contexts.len() && searchable(srv.contexts[j], seq![]) && host_part(srv.contexts[j].start6) <= host_part(
                a,
            ) <= host_part(srv.contexts[j].end6) && a.bits / 0x1_0000_0000_0000_0000 == srv.contexts[j].start6.bits
                / 0x1_0000_0000_0000_0000 {
                law_nothing_is_overlooked(srv.contexts, hash, none, taken, 0, j, a);
                lemma_at_addr(ls, a, 0);
            }
        },
    }
}

/// Whether an address lies in block number `n`, of blocks of this size.
pub open spec fn in_block(a: Ip6, n: int, size: nat) -> bool {
    n * size <= a.bits < n * size + size
}

/// Two addresses agree in their first bits where they lie in one block of the addresses that have these bits in common:
/// of half of all addresses for one bit, and of two for 127.
pub proof fn law_network_is_a_block(a: Ip6, b: Ip6, prefix_len: i32)
    requires
        0 < prefix_len < 128,
    ensures
        same_net(a, b, prefix_len) <==> exists|n: int| #[trigger]
            in_block(a, n, pow2((128 - prefix_len) as nat)) && in_block(b, n, pow2((128 - prefix_len) as nat)),
{
    let each = pow2((128 - prefix_len) as nat);
    let size = each as int;
    lemma_pow2_pos((128 - prefix_len) as nat);
    let (x, y) = (a.bits as int, b.bits as int);
    if same_net(a, b, prefix_len) {
        let n = x / size;
        assert(n * size <= x < n * size + size) by (nonlinear_arith)
            requires
                size > 0,
                n == x / size,
        ;
        assert(n * size <= y < n * size + size) by (nonlinear_arith)
            requires
                size > 0,
                n == y / size,
        ;
        assert(in_block(a, n, each) && in_block(b, n, each));
    }
    if exists|n: int| #[trigger] in_block(a, n, each) && in_block(b, n, each) {
        let n = choose|n: int| #[trigger] in_block(a, n, each) && in_block(b, n, each);
        assert(x / size == n) by (nonlinear_arith)
            requires
                size > 0,
                n * size <= x < n * size + size,
        ;
        assert(y / size == n) by (nonlinear_arith)
            requires
                size > 0,
                n * size <= y < n * size + size,
        ;
        assert(same_net(a, b, prefix_len));
    }
}

/// An address is on the network of a range of 64 bits where its upper half is that of the range, and the range can give it
/// out by itself where besides its lower half is from the first to the last of the range, and the range is not for fixed
/// addresses only.
pub proof fn law_range_of_64_bits(ctx: ContextView, a: Ip6)
    requires
        ctx.prefix == 64,
    ensures
        same_net(ctx.start6, a, 64) <==> ctx.start6.bits / 0x1_0000_0000_0000_0000 == a.bits / 0x1_0000_0000_0000_0000,
        on_link(seq![ctx], a) <==> ctx.start6.bits / 0x1_0000_0000_0000_0000 == a.bits / 0x1_0000_0000_0000_0000,
        !ctx.flags.static_only && !ctx.flags.ra_stateless && ctx.start6.bits / 0x1_0000_0000_0000_0000 == ctx.end6.bits
            / 0x1_0000_0000_0000_0000 ==> (available(seq![ctx], a) <==> ctx.start6.bits <= a.bits <= ctx.end6.bits),
        ctx.flags.static_only || ctx.flags.ra_stateless ==> !available(seq![ctx], a),
{
    vstd::arithmetic::power2::lemma2_to64();
    assert(pow2(64) == 0x1_0000_0000_0000_0000);
    assert((128 - 64) as nat == 64);
    let one = seq![ctx];
    assert(one[0] == ctx);
    let m = 0x1_0000_0000_0000_0000int;
    assert(ctx.start6.bits == ctx.start6.bits as int / m * m + host_part(ctx.start6));
    assert(ctx.end6.bits == ctx.end6.bits as int / m * m + host_part(ctx.end6));
    assert(a.bits == a.bits as int / m * m + host_part(a));
    assert(same_net(one[0].start6, a, one[0].prefix) ==> on_link(one, a));
    assert(offers(one[0], a) ==> available(one, a));
}

/// More ranges make no address unavailable: an address is available, or on a network, where one of two lists of ranges
/// says so.
pub proof fn law_every_range_counts(c: Seq<ContextView>, d: Seq<ContextView>, a: Ip6)
    ensures
        available(c + d, a) <==> available(c, a) || available(d, a),
        on_link(c + d, a) <==> on_link(c, a) || on_link(d, a),
{
    let all = c + d;
    if available(c, a) {
        let i = choose|i: int| 0 <= i < c.len() && offers(#[trigger] c[i], a);
        assert(offers(all[i], a));
    }
    if available(d, a) {
        let i = choose|i: int| 0 <= i < d.len() && offers(#[trigger] d[i], a);
        assert(offers(all[c.len() + i], a));
    }
    if available(all, a) {
        let i = choose|i: int| 0 <= i < all.len() && offers(#[trigger] all[i], a);
        if i < c.len() {
            assert(offers(c[i], a));
        } else {
            assert(offers(d[i - c.len()], a));
        }
    }
    if on_link(c, a) {
        let i = choose|i: int| 0 <= i < c.len() && same_net((#[trigger] c[i]).start6, a, c[i].prefix);
        assert(same_net(all[i].start6, a, all[i].prefix));
    }
    if on_link(d, a) {
        let i = choose|i: int| 0 <= i < d.len() && same_net((#[trigger] d[i]).start6, a, d[i].prefix);
        assert(same_net(all[c.len() + i].start6, a, all[c.len() + i].prefix));
    }
    if on_link(all, a) {
        let i = choose|i: int| 0 <= i < all.len() && same_net((#[trigger] all[i]).start6, a, all[i].prefix);
        if i < c.len() {
            assert(same_net(c[i].start6, a, c[i].prefix));
        } else {
            assert(same_net(d[i - c.len()].start6, a, d[i - c.len()].prefix));
        }
    }
}

/// A range takes part in the search for an address unless it is deprecated, for fixed addresses only, for stateless clients or
/// set aside; one with tags takes part where the client has one of them.
pub proof fn law_ranges_that_are_searched(ctx: ContextView, netids: Seq<Seq<char>>, i: int, j: int)
    ensures
        ctx.flags.deprecate || ctx.flags.static_only || ctx.flags.ra_stateless || ctx.flags.used ==> !searchable(ctx, netids),
        !ctx.flags.deprecate && !ctx.flags.static_only && !ctx.flags.ra_stateless && !ctx.flags.used ==> {
            &&& ctx.filter.len() == 0 ==> searchable(ctx, netids)
            &&& 0 <= i < ctx.filter.len() && 0 <= j < netids.len() && ctx.filter[i] == netids[j] ==> searchable(ctx, netids)
            &&& ctx.filter.len() > 0 && (forall|a: int, b: int|
                0 <= a < ctx.filter.len() && 0 <= b < netids.len() ==> #[trigger] ctx.filter[a] != #[trigger] netids[b]) ==> !searchable(
                ctx,
                netids,
            )
        },
{
    law_common_tag(ctx.filter, netids, i, j);
}

/// The address that is so many places behind that of a client in a range: its places go round.
pub open spec fn place_of(ctx: ContextView, hash: u64, k: int) -> Ip6 {
    let (start, end) = (ctx.start6.bits as int % 0x1_0000_0000_0000_0000, ctx.end6.bits as int % 0x1_0000_0000_0000_0000);
    let size = end - start + 1;
    let place = ((hash + ctx.addr_epoch) % 0x1_0000_0000_0000_0000 % size + k) % size;
    Ip6 { bits: (ctx.start6.bits as int / 0x1_0000_0000_0000_0000 * 0x1_0000_0000_0000_0000 + start + place) as u128 }
}

/// The candidates are the places of the range, in their order.
proof fn lemma_candidate(ctx: ContextView, hash: u64, k: int)
    requires
        host_part(ctx.start6) <= host_part(ctx.end6),
        0 <= k < range_size(host_part(ctx.start6), host_part(ctx.end6)),
    ensures
        candidate(ctx, client_place(ctx, hash), k) == place_of(ctx, hash, k),
{
    let (start, end) = (ctx.start6.bits as int % 0x1_0000_0000_0000_0000, ctx.end6.bits as int % 0x1_0000_0000_0000_0000);
    let size = end - start + 1;
    let first = (hash + ctx.addr_epoch) % 0x1_0000_0000_0000_0000 % size;
    assert(client_place(ctx, hash) == first);
    assert(0 <= first < size);
    let place = if first + k < size {
        first + k
    } else {
        first + k - size
    };
    assert((first + k) % size == place) by {
        lemma_wrap(first, k, size);
    }
}

/// One turn at most.
proof fn lemma_wrap(first: int, k: int, size: int)
    by (nonlinear_arith)
    requires
        0 <= first < size,
        0 <= k < size,
    ensures
        first + k < size ==> (first + k) % size == first + k,
        first + k >= size ==> (first + k) % size == first + k - size,
{
    if first + k >= size {
        assert((first + k) == size * 1 + (first + k - size));
        vstd::arithmetic::div_mod::lemma_fundamental_div_mod_converse(first + k, size, 1, first + k - size);
    } else {
        vstd::arithmetic::div_mod::lemma_small_mod((first + k) as nat, size as nat);
    }
}

/// What comes first is found.
proof fn lemma_first_free(ctxs: Seq<ContextView>, ctx: ContextView, hash: u64, taken: spec_fn(Ip6) -> bool, n: int, k: int)
    requires
        host_part(ctx.start6) <= host_part(ctx.end6),
        0 <= n <= k < range_size(host_part(ctx.start6), host_part(ctx.end6)),
        free(ctxs, place_of(ctx, hash, k), taken),
        forall|j: int| n <= j < k ==> !free(ctxs, #[trigger] place_of(ctx, hash, j), taken),
    ensures
        first_free(ctxs, ctx, client_place(ctx, hash), taken, n) == Some(place_of(ctx, hash, k)),
    decreases k - n,
{
    lemma_candidate(ctx, hash, n);
    if n < k {
        assert(!free(ctxs, place_of(ctx, hash, n), taken));
        lemma_first_free(ctxs, ctx, hash, taken, n + 1, k);
    }
}

/// Whether an address can be found: no one has it, and its lower half is none of the server's own.
pub open spec fn can_be_found(ctxs: Seq<ContextView>, a: Ip6, taken: spec_fn(Ip6) -> bool) -> bool {
    &&& !taken(a)
    &&& forall|n: int|
        0 <= n < ctxs.len() ==> (#[trigger] ctxs[n]).local6.bits as int % 0x1_0000_0000_0000_0000 != a.bits as int
            % 0x1_0000_0000_0000_0000
}

/// The search goes through the ranges in their order, and in a range from the client's own place round to it again: the first
/// address that can be found is.
pub proof fn law_first_free_address_is_found(
    ctxs: Seq<ContextView>,
    hash: u64,
    netids: Seq<Seq<char>>,
    taken: spec_fn(Ip6) -> bool,
    i: int,
    r: int,
    k: int,
)
    requires
        0 <= i <= r < ctxs.len(),
        searchable(ctxs[r], netids),
        host_part(ctxs[r].start6) <= host_part(ctxs[r].end6),
        0 <= k <= host_part(ctxs[r].end6) - host_part(ctxs[r].start6),
        can_be_found(ctxs, place_of(ctxs[r], hash, k), taken),
        forall|j: int| 0 <= j < k ==> !can_be_found(ctxs, #[trigger] place_of(ctxs[r], hash, j), taken),
        forall|n: int| i <= n < r ==> !searchable(#[trigger] ctxs[n], netids),
    ensures
        allocated(ctxs, hash, netids, taken, i) == Some(place_of(ctxs[r], hash, k)),
    decreases r - i,
{
    if i < r {
        assert(!searchable(ctxs[i], netids));
        law_first_free_address_is_found(ctxs, hash, netids, taken, i + 1, r, k);
    } else {
        assert forall|j: int| 0 <= j <= k implies free(ctxs, #[trigger] place_of(ctxs[r], hash, j), taken) == can_be_found(
            ctxs,
            place_of(ctxs[r], hash, j),
            taken,
        ) by {
            let a = place_of(ctxs[r], hash, j);
            if can_be_found(ctxs, a, taken) {
                assert(!is_servers(ctxs, host_part(a)));
            }
            if free(ctxs, a, taken) {
                assert forall|n: int| 0 <= n < ctxs.len() implies (#[trigger] ctxs[n]).local6.bits as int % 0x1_0000_0000_0000_0000
                    != a.bits as int % 0x1_0000_0000_0000_0000 by {
                    assert(host_part(ctxs[n].local6) != host_part(a));
                }
            }
        }
        lemma_first_free(ctxs, ctxs[r], hash, taken, 0, k);
    }
}

/// A client's bytes as one number, to the base 65599, behind the number of its association.
pub open spec fn client_number(clid: Seq<u8>, so_far: int) -> int
    decreases clid.len(),
{
    if clid.len() == 0 {
        so_far
    } else {
        client_number(clid.skip(1), so_far * 65599 + clid[0])
    }
}

/// The place of a client comes from its whole id and the number of its association: they make a number, of which 64 bits count.
pub proof fn law_hash_of_client(clid: Seq<u8>, iaid: u32)
    ensures
        sdbm(clid, iaid) == client_number(clid, iaid as int) % 0x1_0000_0000_0000_0000,
    decreases clid.len(),
{
    if clid.len() > 0 {
        law_hash_of_client(clid.drop_last(), iaid);
        lemma_number_from_the_end(clid, iaid as int);
        lemma_low_bits(client_number(clid.drop_last(), iaid as int), clid.last() as int);
    }
}

/// The last byte counts once.
proof fn lemma_number_from_the_end(clid: Seq<u8>, so_far: int)
    requires
        clid.len() > 0,
    ensures
        client_number(clid, so_far) == client_number(clid.drop_last(), so_far) * 65599 + clid.last(),
    decreases clid.len(),
{
    if clid.len() == 1 {
        assert(clid.skip(1).len() == 0);
        assert(clid.drop_last().len() == 0);
        assert(client_number(clid.skip(1), so_far * 65599 + clid[0]) == so_far * 65599 + clid[0]);
    } else {
        lemma_number_from_the_end(clid.skip(1), so_far * 65599 + clid[0]);
        assert(clid.skip(1).drop_last() =~= clid.drop_last().skip(1));
    }
}

/// The low bits of a number decide those of its multiples.
proof fn lemma_low_bits(x: int, b: int)
    ensures
        (b + 65599 * (x % 0x1_0000_0000_0000_0000)) % 0x1_0000_0000_0000_0000 == (x * 65599 + b) % 0x1_0000_0000_0000_0000,
{
    let m = 0x1_0000_0000_0000_0000int;
    let q = x / m;
    assert(x == m * q + x % m);
    assert(x * 65599 + b == (b + 65599 * (x % m)) + m * (65599 * q));
}

/// Whether an address is free for a new client: no one has a lease of it, no configured host has it, and its lower half is none of
/// the server's own.
pub open spec fn is_open(srv: Server, ls: Seq<LeaseView>, a: Ip6) -> bool {
    &&& forall|k: int| 0 <= k < ls.len() ==> (#[trigger] ls[k]).addr6 != a
    &&& forall|k: int| 0 <= k < srv.configs.len() ==> !has_addr6(#[trigger] srv.configs[k], a)
    &&& forall|n: int|
        0 <= n < srv.contexts.len() ==> (#[trigger] srv.contexts[n]).local6.bits as int % 0x1_0000_0000_0000_0000 != a.bits as int
            % 0x1_0000_0000_0000_0000
}

/// A client without a lease that names no address is given the first that is free from its own place on, in the first range that
/// is open to every client; its place comes from its id and the number of its association.
pub proof fn law_new_client_starts_at_its_place(srv: Server, ls: Seq<LeaseView>, clid: Seq<u8>, iaid: u32, r: int, k: int)
    requires
        forall|n: int| 0 <= n < ls.len() ==> !((#[trigger] ls[n]).clid == Some(clid) && ls[n].iaid == iaid),
        0 <= r < srv.contexts.len(),
        searchable(srv.contexts[r], seq![]),
        forall|n: int| 0 <= n < r ==> !searchable(#[trigger] srv.contexts[n], seq![]),
        host_part(srv.contexts[r].start6) <= host_part(srv.contexts[r].end6),
        0 <= k <= host_part(srv.contexts[r].end6) - host_part(srv.contexts[r].start6),
        ({
            let hash = (client_number(clid, iaid as int) % 0x1_0000_0000_0000_0000) as u64;
            &&& is_open(srv, ls, place_of(srv.contexts[r], hash, k))
            &&& forall|j: int| 0 <= j < k ==> !is_open(srv, ls, #[trigger] place_of(srv.contexts[r], hash, j))
        }),
    ensures
        address_for(srv, ls, clid, iaid, None) == Some(
            place_of(srv.contexts[r], (client_number(clid, iaid as int) % 0x1_0000_0000_0000_0000) as u64, k),
        ),
{
    let hash = sdbm(clid, iaid);
    law_hash_of_client(clid, iaid);
    lemma_no_lease(ls, clid, iaid, 0);
    let taken = used_addrs(ls, srv.configs);
    assert forall|j: int| 0 <= j <= k implies can_be_found(srv.contexts, #[trigger] place_of(srv.contexts[r], hash, j), taken) == is_open(
        srv,
        ls,
        place_of(srv.contexts[r], hash, j),
    ) by {
        lemma_used(srv, ls, place_of(srv.contexts[r], hash, j));
    }
    law_first_free_address_is_found(srv.contexts, hash, seq![], taken, 0, r, k);
}

/// A client without a lease has none.
proof fn lemma_no_lease(ls: Seq<LeaseView>, clid: Seq<u8>, iaid: u32, i: int)
    requires
        0 <= i,
        forall|n: int| 0 <= n < ls.len() ==> !((#[trigger] ls[n]).clid == Some(clid) && ls[n].iaid == iaid),
    ensures
        of_client(ls, clid, iaid, i) is None,
    decreases ls.len() - i,
{
    if i < ls.len() {
        lemma_no_lease(ls, clid, iaid, i + 1);
    }
}

/// An address is in use where a lease or a configured host has it.
proof fn lemma_used(srv: Server, ls: Seq<LeaseView>, a: Ip6)
    ensures
        used_addrs(ls, srv.configs)(a) == !((forall|k: int| 0 <= k < ls.len() ==> (#[trigger] ls[k]).addr6 != a) && (forall|k: int|
            0 <= k < srv.configs.len() ==> !has_addr6(#[trigger] srv.configs[k], a))),
{
    lemma_at_addr(ls, a, 0);
}

} // verus!
