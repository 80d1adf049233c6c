//! What is listened on, what is bound, and what is advertised.

use super::bind::{adopted, binds_to, with_port};
use super::listen::{
    addrs_of, clamp_port, confirmed, dad_warnings, dns_plan_of, ip_text, listen_addr, named_flags, names_of, targets, InterfaceView,
    ListenOutcome, ListenPlan,
};
use super::radv::{
    alias_numbers, answer_to, blocks, bridge_for, bridged, bridged_numbers, mtu_of, needs_scope_id, param_for, Arrival, Mtu, RaAnswer,
};
use crate::addr::{Ip6, IpAddress, SockAddr};
use crate::daemon::Daemon;
use crate::dup::all_views;
use crate::records::{BridgeConfigView, InameView, RaInterfaceView};
use crate::text::views;
use crate::util::wild_match;
use vstd::prelude::*;

verus! {

/// Every name, with its flags, and every address that is configured is taken over, in its order, and no other.
pub proof fn law_names_and_addresses_are_taken_over(v: Seq<InameView>, i: InameView)
    ensures
        names_of(seq![]) == Seq::<Seq<char>>::empty(),
        addrs_of(seq![]) == Seq::<IpAddress>::empty(),
        named_flags(seq![]) == Seq::<(Seq<char>, u32)>::empty(),
        match i.name {
            Some(n) => names_of(v.push(i)) == names_of(v).push(n) && named_flags(v.push(i)) == named_flags(v).push((n, i.flags)),
            None => names_of(v.push(i)) == names_of(v) && named_flags(v.push(i)) == named_flags(v),
        },
        match i.addr {
            Some(SockAddr::V4 { ip, port }) => addrs_of(v.push(i)) == addrs_of(v).push(IpAddress::V4(ip)),
            Some(SockAddr::V6 { ip, port, scope_id }) => addrs_of(v.push(i)) == addrs_of(v).push(IpAddress::V6(ip)),
            None => addrs_of(v.push(i)) == addrs_of(v),
        },
{
    assert(v.push(i).drop_last() =~= v);
}

/// Every interface whose address is confirmed is bound for DNS and checked against, and every interface that allows TFTP is
/// bound for that, each at its own address and with the number of the interface where that is link-local. For every address
/// that is not confirmed there is a warning.
pub proof fn law_every_interface_is_bound(v: Seq<InterfaceView>, port: u16, i: int)
    requires
        0 <= i < v.len(),
    ensures
        ({
            let at = match v[i].addr {
                IpAddress::V4(ip) => SockAddr::V4 { ip, port },
                IpAddress::V6(ip) => SockAddr::V6 {
                    ip,
                    port,
                    scope_id: if 0xfe80_0000_0000_0000_0000_0000_0000_0000 <= ip.bits < 0xfec0_0000_0000_0000_0000_0000_0000_0000 {
                        v[i].index
                    } else {
                        0
                    },
                },
            };
            &&& !v[i].dad ==> targets(v, port, false).contains((at, v[i].name)) && confirmed(v).contains(v[i])
            &&& v[i].tftp_ok ==> targets(v, port, true).contains((at, v[i].name))
            &&& v[i].dad ==> dad_warnings(v).contains(
                "waiting for DAD to complete on "@ + v[i].name + " before binding "@ + ip_text(v[i].addr),
            )
        }),
    decreases v.len(),
{
    let d = v.drop_last();
    let t = (listen_addr(v[i], port), v[i].name);
    let text = "waiting for DAD to complete on "@ + v[i].name + " before binding "@ + ip_text(v[i].addr);
    if i < d.len() {
        law_every_interface_is_bound(d, port, i);
        assert(d[i] == v[i]);
        if !v[i].dad {
            let k = choose|k: int| 0 <= k < targets(d, port, false).len() && targets(d, port, false)[k] == t;
            assert(targets(v, port, false)[k] == t);
            let j = choose|j: int| 0 <= j < confirmed(d).len() && confirmed(d)[j] == v[i];
            assert(confirmed(v)[j] == v[i]);
        } else {
            let k = choose|k: int| 0 <= k < dad_warnings(d).len() && dad_warnings(d)[k] == text;
            assert(dad_warnings(v)[k] == text);
        }
        if v[i].tftp_ok {
            let k = choose|k: int| 0 <= k < targets(d, port, true).len() && targets(d, port, true)[k] == t;
            assert(targets(v, port, true)[k] == t);
        }
    } else {
        if !v[i].dad {
            assert(targets(v, port, false)[targets(d, port, false).len() as int] == t);
            assert(confirmed(v)[confirmed(d).len() as int] == v[i]);
        } else {
            assert(dad_warnings(v)[dad_warnings(d).len() as int] == text);
        }
        if v[i].tftp_ok {
            assert(targets(v, port, true)[targets(d, port, true).len() as int] == t);
        }
    }
}

/// Only interfaces that allow it are bound for TFTP, and only confirmed ones are checked against; each that is not is warned of
/// once.
pub proof fn law_only_such_interfaces(v: Seq<InterfaceView>, port: u16, k: int)
    ensures
        0 <= k < targets(v, port, true).len() ==> exists|i: int|
            0 <= i < v.len() && (#[trigger] v[i]).tftp_ok && targets(v, port, true)[k].1 == v[i].name && targets(v, port, true)[k].0
                == listen_addr(v[i], port),
        0 <= k < confirmed(v).len() ==> !confirmed(v)[k].dad && v.contains(confirmed(v)[k]),
        confirmed(v).len() + dad_warnings(v).len() == v.len(),
    decreases v.len(),
{
    if v.len() > 0 {
        let d = v.drop_last();
        law_only_such_interfaces(d, port, k);
        if 0 <= k < targets(v, port, true).len() {
            if k < targets(d, port, true).len() {
                let i = choose|i: int|
                    0 <= i < d.len() && (#[trigger] d[i]).tftp_ok && targets(d, port, true)[k].1 == d[i].name && targets(
                        d,
                        port,
                        true,
                    )[k].0 == listen_addr(d[i], port);
                assert(v[i] == d[i]);
            } else {
                assert(v[v.len() - 1].tftp_ok);
            }
        }
        if 0 <= k < confirmed(v).len() {
            if k < confirmed(d).len() {
                let i = choose|i: int| 0 <= i < d.len() && d[i] == confirmed(d)[k];
                assert(v[i] == d[i]);
            } else {
                assert(v[v.len() - 1] == confirmed(v)[k]);
            }
        }
    }
}

/// Where binding comes to an end without an error, and interfaces do not come and go, every address that was asked for is bound.
pub proof fn law_every_address_is_bound<F: Fn(&SockAddr) -> ListenOutcome>(
    bind: F,
    have: Seq<SockAddr>,
    addrs: Seq<IpAddress>,
    i: int,
    port: u16,
    all: Seq<SockAddr>,
    k: int,
)
    requires
        0 <= i <= k < addrs.len(),
        binds_to(bind, have, addrs, i, port, false, Ok(all)),
    ensures
        all.contains(
            match addrs[k] {
                IpAddress::V4(ip) => SockAddr::V4 { ip, port },
                IpAddress::V6(ip) => SockAddr::V6 { ip, port, scope_id: 0 },
            },
        ),
    decreases addrs.len() - i,
{
    let a = with_port(addrs[i], port);
    if have.contains(a) {
        if i == k {
            super::bind::law_bound_stays_bound(bind, have, addrs, i + 1, port, false, all);
            let j = choose|j: int| 0 <= j < have.len() && have[j] == a;
            assert(all[j] == a);
        } else {
            law_every_address_is_bound(bind, have, addrs, i + 1, port, all, k);
        }
    } else {
        let now = have.push(a);
        assert(binds_to(bind, now, addrs, i + 1, port, false, Ok(all)));
        if i == k {
            super::bind::law_bound_stays_bound(bind, now, addrs, i + 1, port, false, all);
            assert(now[have.len() as int] == a);
            assert(all[have.len() as int] == a);
        } else {
            law_every_address_is_bound(bind, now, addrs, i + 1, port, all, k);
        }
    }
}

/// No address is bound twice, and none but those that were bound before or asked for.
pub proof fn law_no_address_is_bound_twice<F: Fn(&SockAddr) -> ListenOutcome>(
    bind: F,
    have: Seq<SockAddr>,
    addrs: Seq<IpAddress>,
    i: int,
    port: u16,
    cleverbind: bool,
    all: Seq<SockAddr>,
)
    requires
        0 <= i,
        have.no_duplicates(),
        binds_to(bind, have, addrs, i, port, cleverbind, Ok(all)),
    ensures
        all.no_duplicates(),
        forall|k: int|
            0 <= k < all.len() ==> have.contains(#[trigger] all[k]) || exists|j: int|
                i <= j < addrs.len() && all[k] == with_port(#[trigger] addrs[j], port),
    decreases addrs.len() - i,
{
    if i < addrs.len() {
        let a = with_port(addrs[i], port);
        let now = have.push(a);
        if have.contains(a) {
            law_no_address_is_bound_twice(bind, have, addrs, i + 1, port, cleverbind, all);
        } else if binds_to(bind, now, addrs, i + 1, port, cleverbind, Ok(all)) {
            law_no_address_is_bound_twice(bind, now, addrs, i + 1, port, cleverbind, all);
            assert forall|k: int| 0 <= k < all.len() implies have.contains(#[trigger] all[k]) || exists|j: int|
                i <= j < addrs.len() && all[k] == with_port(#[trigger] addrs[j], port) by {
                if now.contains(all[k]) && !have.contains(all[k]) {
                    let m = choose|m: int| 0 <= m < now.len() && now[m] == all[k];
                    if m < have.len() {
                        assert(have[m] == all[k]);
                    }
                    assert(all[k] == with_port(addrs[i], port));
                }
            }
        } else {
            law_no_address_is_bound_twice(bind, have, addrs, i + 1, port, cleverbind, all);
        }
    } else {
        assert forall|k: int| 0 <= k < all.len() implies have.contains(#[trigger] all[k]) || exists|j: int|
            i <= j < addrs.len() && all[k] == with_port(#[trigger] addrs[j], port) by {
            assert(have[k] == all[k]);
        }
    }
}

/// Every socket is taken over. Packets are checked on arrival at all of them, but for IPv4 addresses that were bound one by one.
pub proof fn law_sockets_are_taken_over(addrs: Seq<SockAddr>, nowild: bool, i: int)
    requires
        0 <= i < addrs.len(),
    ensures
        adopted(addrs, nowild).len() == addrs.len(),
        adopted(addrs, nowild)[i].addr == addrs[i],
        addrs[i] is V6 || !nowild ==> adopted(addrs, nowild)[i].check_dst,
        addrs[i] is V4 && nowild ==> !adopted(addrs, nowild)[i].check_dst,
{
}

/// A plan to bind wildcard addresses has no other address in it and checks against all interfaces; one to bind the addresses of
/// interfaces checks against the confirmed ones.
pub proof fn law_plan_is_wildcard_or_not(d: Daemon, v: Seq<InterfaceView>, p: ListenPlan, i: int)
    requires
        dns_plan_of(d, v, p),
        0 <= i < v.len(),
    ensures
        p.port == d.port,
        p.wildcard <==> !d.options.nowild && !d.options.cleverbind,
        p.wildcard ==> p.targets@.len() == 0 && all_views(p.filter@) == v,
        !p.wildcard && !v[i].dad ==> all_views(p.filter@).contains(v[i]) && all_views(p.targets@).contains(
            (listen_addr(v[i], d.port), v[i].name),
        ),
        d.options.nowild && v[i].dad ==> p.warnings@.len() > 0,
        !d.options.nowild ==> p.warnings@.len() == 0,
{
    law_every_interface_is_bound(v, d.port, i);
    assert(all_views(p.targets@).len() == p.targets@.len());
    assert(views(p.warnings@).len() == p.warnings@.len());
    if v[i].dad && d.options.nowild {
        let w = views(p.warnings@);
        let text = "waiting for DAD to complete on "@ + v[i].name + " before binding "@ + ip_text(v[i].addr);
        assert(w.contains(text));
        let k = choose|k: int| 0 <= k < w.len() && w[k] == text;
    }
}

/// A number that is no port becomes the nearest port.
pub proof fn law_nearest_port(n: i32)
    ensures
        0 <= n <= 0xffff ==> clamp_port(n) == n,
        n < 0 ==> clamp_port(n) == 0,
        n > 0xffff ==> clamp_port(n) == 0xffff,
{
}

/// What is advertised on an interface is the first entry whose name matches; none where none does.
pub proof fn law_first_matching_entry(v: Seq<RaInterfaceView>, name: Seq<char>, i: int, k: int)
    requires
        0 <= i <= v.len(),
    ensures
        i <= k < v.len() && wild_match(v[k].name, name, -1) && (forall|j: int| i <= j < k ==> !wild_match((#[trigger] v[j]).name, name, -1))
            ==> param_for(v, name, i) == Some(v[k]),
        (forall|j: int| i <= j < v.len() ==> !wild_match((#[trigger] v[j]).name, name, -1)) ==> param_for(v, name, i) is None,
    decreases v.len() - i,
{
    if i < v.len() && !wild_match(v[i].name, name, -1) {
        law_first_matching_entry(v, name, i + 1, k);
    }
}

/// The MTU that is advertised: the configured one where it is positive, none where it is negative, and else that of the
/// interface that is configured for it, or of the interface itself; that of the interface also where nothing is configured.
pub proof fn law_mtu_that_is_advertised(v: Seq<RaInterfaceView>, name: Seq<char>, k: int)
    ensures
        0 <= k < v.len() && wild_match(v[k].name, name, -1) && (forall|j: int| 0 <= j < k ==> !wild_match(
            (#[trigger] v[j]).name,
            name,
            -1,
        )) ==> {
            &&& v[k].mtu < 0 ==> mtu_of(v, name) is Off
            &&& v[k].mtu > 0 ==> mtu_of(v, name) == Mtu::Value(v[k].mtu as u32)
            &&& v[k].mtu == 0 && v[k].mtu_name is Some ==> mtu_of(v, name) == Mtu::Of(v[k].mtu_name->0)
            &&& v[k].mtu == 0 && v[k].mtu_name is None ==> mtu_of(v, name) == Mtu::Of(name)
        },
        (forall|j: int| 0 <= j < v.len() ==> !wild_match((#[trigger] v[j]).name, name, -1)) ==> mtu_of(v, name) == Mtu::Of(name),
{
    law_first_matching_entry(v, name, 0, k);
}

/// The bridge for an interface is the first that is there and has an alias that matches its name, whichever alias that is.
proof fn lemma_bridge(v: Seq<BridgeConfigView>, numbers: Seq<u32>, name: Seq<char>, i: int, k: int)
    requires
        0 <= i <= k <= v.len(),
        k < v.len() ==> numbers[k] != 0 && bridged(v[k], name),
        forall|j: int| i <= j < k ==> !(#[trigger] numbers[j] != 0 && bridged(v[j], name)),
    ensures
        k < v.len() ==> bridge_for(v, numbers, name, i) == Some(k),
        k == v.len() ==> bridge_for(v, numbers, name, i) is None,
    decreases k - i,
{
    if i < k {
        assert(!(numbers[i] != 0 && bridged(v[i], name)));
        lemma_bridge(v, numbers, name, i + 1, k);
    }
}

/// A router solicitation that came through an interface that is served, with DHCP on and with options that make sense, is
/// answered: from the first bridge that is there and of which an alias matches the interface, else from the interface itself.
/// Nothing else is answered.
pub proof fn law_solicitations_are_answered(
    data: Seq<u8>,
    name: Seq<char>,
    arrival: Arrival,
    bridges: Seq<BridgeConfigView>,
    numbers: Seq<u32>,
    k: int,
    alias: int,
)
    requires
        bridges.len() == numbers.len(),
        bridges.len() <= usize::MAX,
    ensures
        ({
            let asked = data.len() >= 8 && data[0] == 133 && data[1] == 0 && arrival.served && !arrival.excepted && arrival.well_formed;
            let answer = answer_to(data, Some(name), arrival, bridges, numbers);
            &&& !asked ==> answer is Ignore
            &&& answer_to(data, None, arrival, bridges, numbers) is Ignore
            &&& asked ==> !(answer is Ignore)
            &&& asked && 0 <= k < bridges.len() && numbers[k] != 0 && 0 <= alias < bridges[k].aliases.len() && wild_match(
                bridges[k].aliases[alias],
                name,
                16,
            ) && (forall|j: int| 0 <= j < k ==> !(#[trigger] numbers[j] != 0 && bridged(bridges[j], name))) ==> answer
                == RaAnswer::Bridge(k as usize)
            &&& asked && (forall|j: int| 0 <= j < bridges.len() ==> !(#[trigger] numbers[j] != 0 && bridged(bridges[j], name)))
                ==> answer is Direct
        }),
{
    if 0 <= k < bridges.len() && numbers[k] != 0 && 0 <= alias < bridges[k].aliases.len() && wild_match(bridges[k].aliases[alias], name, 16)
        && (forall|j: int| 0 <= j < k ==> !(#[trigger] numbers[j] != 0 && bridged(bridges[j], name))) {
        assert(bridged(bridges[k], name));
        lemma_bridge(bridges, numbers, name, 0, k);
    }
    if forall|j: int| 0 <= j < bridges.len() ==> !(#[trigger] numbers[j] != 0 && bridged(bridges[j], name)) {
        lemma_bridge(bridges, numbers, name, 0, bridges.len() as int);
    }
}

/// The interfaces that are bridged to a bridge are all those that match an alias of it.
proof fn lemma_aliases(b: BridgeConfigView, lives: Seq<(Seq<char>, u32)>, n: u32)
    ensures
        alias_numbers(b, lives).contains(n) <==> exists|i: int|
            0 <= i < lives.len() && (#[trigger] lives[i]).1 == n && bridged(b, lives[i].0),
    decreases lives.len(),
{
    if lives.len() > 0 {
        let d = lives.drop_last();
        lemma_aliases(b, d, n);
        let (some, all) = (alias_numbers(b, d), alias_numbers(b, lives));
        if all.contains(n) {
            let j = choose|j: int| 0 <= j < all.len() && all[j] == n;
            if j < some.len() {
                assert(some[j] == n);
                let i = choose|i: int| 0 <= i < d.len() && (#[trigger] d[i]).1 == n && bridged(b, d[i].0);
                assert(lives[i] == d[i]);
            } else {
                assert(lives[lives.len() - 1].1 == n);
            }
        }
        if exists|i: int| 0 <= i < lives.len() && (#[trigger] lives[i]).1 == n && bridged(b, lives[i].0) {
            let i = choose|i: int| 0 <= i < lives.len() && (#[trigger] lives[i]).1 == n && bridged(b, lives[i].0);
            if i < d.len() {
                assert(d[i] == lives[i]);
                let j = choose|j: int| 0 <= j < some.len() && some[j] == n;
                assert(all[j] == n);
            } else {
                assert(all[some.len() as int] == n);
            }
        }
    }
}

/// An advertisement for an interface is sent besides through every interface of the host that is bridged to a bridge with its
/// number, whichever bridge it is, and through no other.
pub proof fn law_bridged_interfaces_get_advertisements(
    number: u32,
    v: Seq<BridgeConfigView>,
    numbers: Seq<u32>,
    lives: Seq<(Seq<char>, u32)>,
    n: u32,
)
    requires
        v.len() <= numbers.len(),
    ensures
        bridged_numbers(number, v, numbers, lives).contains(n) <==> exists|k: int, i: int|
            0 <= k < v.len() && numbers[k] == number && 0 <= i < lives.len() && #[trigger] bridged(v[k], lives[i].0) && lives[i].1 == n,
    decreases v.len(),
{
    if v.len() > 0 {
        let d = v.drop_last();
        law_bridged_interfaces_get_advertisements(number, d, numbers, lives, n);
        lemma_aliases(v.last(), lives, n);
        let (some, more) = (bridged_numbers(number, d, numbers, lives), alias_numbers(v.last(), lives));
        let all = bridged_numbers(number, v, numbers, lives);
        if all.contains(n) {
            let j = choose|j: int| 0 <= j < all.len() && all[j] == n;
            if j < some.len() {
                assert(some[j] == n);
                let (k, i) = choose|k: int, i: int|
                    0 <= k < d.len() && numbers[k] == number && 0 <= i < lives.len() && #[trigger] bridged(d[k], lives[i].0)
                        && lives[i].1 == n;
                assert(bridged(v[k], lives[i].0));
            } else {
                assert(more[j - some.len()] == n);
                let i = choose|i: int| 0 <= i < lives.len() && (#[trigger] lives[i]).1 == n && bridged(v.last(), lives[i].0);
                assert(bridged(v[v.len() - 1], lives[i].0));
            }
        }
        if exists|k: int, i: int|
            0 <= k < v.len() && numbers[k] == number && 0 <= i < lives.len() && #[trigger] bridged(v[k], lives[i].0) && lives[i].1 == n {
            let (k, i) = choose|k: int, i: int|
                0 <= k < v.len() && numbers[k] == number && 0 <= i < lives.len() && #[trigger] bridged(v[k], lives[i].0) && lives[i].1
                    == n;
            if k < d.len() {
                assert(bridged(d[k], lives[i].0));
                let j = choose|j: int| 0 <= j < some.len() && some[j] == n;
                assert(all[j] == n);
            } else {
                assert(lives[i].1 == n && bridged(v.last(), lives[i].0));
                let j = choose|j: int| 0 <= j < more.len() && more[j] == n;
                assert(all[some.len() + j] == n);
            }
        }
    }
}

/// The number of an interface goes with the link-local addresses of one host, from `fe80::` to before `fec0::`, and with those of
/// many, whose second byte ends in 2.
pub proof fn law_addresses_with_an_interface(a: Ip6)
    ensures
        needs_scope_id(a) <==> 0xfe80_0000_0000_0000_0000_0000_0000_0000 <= a.bits < 0xfec0_0000_0000_0000_0000_0000_0000_0000 || (a.bits
            / 0x100_0000_0000_0000_0000_0000_0000_0000 == 0xff && a.bits / 0x1_0000_0000_0000_0000_0000_0000_0000 % 16 == 2),
{
    let m = 0x40_0000_0000_0000_0000_0000_0000_0000int;
    let x = a.bits as int;
    assert(x / m == 0x3fa <==> 0x3fa * m <= x < 0x3fb * m);
}

/// A type of packet is blocked by the bit that is its own, and by no other: setting it blocks the type, and clearing it lets it
/// through, whatever else is blocked.
pub proof fn law_filter_bits(filter: Seq<u32>, ty: u8, other: u8, word: u32)
    requires
        filter.len() == 8,
    ensures
        ({
            let (at, bit) = (ty as int / 32, 1u32 << (ty % 32) as u32);
            &&& blocks(filter.update(at, word | bit), ty)
            &&& !blocks(filter.update(at, word & !bit), ty)
            &&& other as int / 32 != at ==> blocks(filter.update(at, word), other) == blocks(filter, other)
        }),
{
    let n = (ty % 32) as u32;
    assert(n < 32);
    assert(((word | (1u32 << n)) >> n) & 1 == 1 && ((word & !(1u32 << n)) >> n) & 1 == 0) by (bit_vector)
        requires
            n < 32,
    ;
}

} // verus!
