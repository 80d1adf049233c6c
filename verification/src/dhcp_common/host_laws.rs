//! Which configured host a client is, and which addresses hosts have.

use super::config::{
    addr_taken, best_score, filled, filled_at, filter_ok, first_host, has_clid, has_key, has_mac, has_name, host_of, host_score,
    hosts_addr, hw_equal, law_fewest_wildcards_win, updated, wild_score, without_hosts_addr, ClientKeys, HostKey,
};
use super::tags::all_satisfied;
use crate::addr::Ip4;
use crate::cache::{host_addr, HostEntry};
use crate::dhcp_types::{nets, DhcpConfig, HwaddrConfig};
use crate::text::lower;
use crate::util::{checked_bytes, is_wild, masked_equal};
use vstd::prelude::*;

verus! {

/// Whether a host may be a client with these tags: it asks for none, or those that it asks for are given.
pub open spec fn open_to(c: DhcpConfig, tags: Seq<Seq<char>>) -> bool {
    c.filter@.len() == 0 || all_satisfied(nets(c.filter@), tags)
}

/// Whether a host was configured with this client id, or with what follows a zero byte in it.
pub open spec fn is_clid_of(c: DhcpConfig, clid: Seq<u8>) -> bool {
    c.flags.clid && c.clid is Some && (c.clid->0@ == clid || (clid.len() > 1 && clid == seq![0u8] + c.clid->0@))
}

/// Whether a host was configured with this hardware address, of this type or of any, and without wildcards.
pub open spec fn is_mac_of(c: DhcpConfig, hwaddr: Seq<u8>, hw_type: i32) -> bool {
    exists|i: int|
        0 <= i < c.hwaddrs@.len() && (#[trigger] c.hwaddrs@[i]).wildcard_mask == 0 && c.hwaddrs@[i].hwaddr_len == hwaddr.len() && (
        c.hwaddrs@[i].hwaddr_type == 0 || c.hwaddrs@[i].hwaddr_type == hw_type) && forall|k: int|
            0 <= k < hwaddr.len() ==> c.hwaddrs@[i].hwaddr@[k] == #[trigger] hwaddr[k]
}

/// Whether a host was configured with this name, case aside.
pub open spec fn is_name_of(c: DhcpConfig, name: Seq<char>) -> bool {
    c.flags.name && c.hostname is Some && lower(c.hostname->0@) == lower(name)
}

/// The first host with a key is where the search for it ends.
proof fn lemma_first(configs: Seq<DhcpConfig>, key: HostKey, tags: Seq<Seq<char>>, i: int, k: int)
    requires
        0 <= i <= k < configs.len(),
        filter_ok(configs[k], tags) && has_key(configs[k], key),
        forall|j: int| i <= j < k ==> !(filter_ok(#[trigger] configs[j], tags) && has_key(configs[j], key)),
    ensures
        first_host(configs, key, tags, i) == Some(k),
    decreases k - i,
{
    if i < k {
        assert(!(filter_ok(configs[i], tags) && has_key(configs[i], key)));
        lemma_first(configs, key, tags, i + 1, k);
    }
}

/// No host has a key.
proof fn lemma_none(configs: Seq<DhcpConfig>, key: HostKey, tags: Seq<Seq<char>>, i: int)
    requires
        0 <= i,
        forall|j: int| i <= j < configs.len() ==> !(filter_ok(#[trigger] configs[j], tags) && has_key(configs[j], key)),
    ensures
        first_host(configs, key, tags, i) is None,
    decreases configs.len() - i,
{
    if i < configs.len() {
        assert(!(filter_ok(configs[i], tags) && has_key(configs[i], key)));
        lemma_none(configs, key, tags, i + 1);
    }
}

/// What the keys of a host are.
proof fn lemma_keys(c: DhcpConfig, clid: Seq<u8>, hwaddr: Seq<u8>, hw_type: i32, name: Seq<char>)
    requires
        hwaddr.len() <= 16,
    ensures
        has_clid(c, clid) <==> is_clid_of(c, clid),
        has_mac(c, hwaddr, hw_type) <==> is_mac_of(c, hwaddr, hw_type),
        has_name(c, name) <==> is_name_of(c, name),
{
    if let Some(own) = c.clid {
        if clid.len() > 1 && clid[0] == 0 && own@ == clid.skip(1) {
            assert(clid =~= seq![0u8] + own@);
        }
        if clid.len() > 1 && clid == seq![0u8] + own@ {
            assert(clid[0] == 0);
            assert(clid.skip(1) =~= own@);
        }
    }
    if has_mac(c, hwaddr, hw_type) {
        let i = choose|i: int| 0 <= i < c.hwaddrs@.len() && hw_equal(#[trigger] c.hwaddrs@[i], hwaddr, hw_type);
        let h = c.hwaddrs@[i];
        assert forall|k: int| 0 <= k < hwaddr.len() implies h.hwaddr@[k] == #[trigger] hwaddr[k] by {
            assert(h.hwaddr@.take(hwaddr.len() as int)[k] == hwaddr[k]);
        }
        assert(h.wildcard_mask == 0);
    }
    if is_mac_of(c, hwaddr, hw_type) {
        let i = choose|i: int|
            0 <= i < c.hwaddrs@.len() && (#[trigger] c.hwaddrs@[i]).wildcard_mask == 0 && c.hwaddrs@[i].hwaddr_len == hwaddr.len() && (
            c.hwaddrs@[i].hwaddr_type == 0 || c.hwaddrs@[i].hwaddr_type == hw_type) && forall|k: int|
                0 <= k < hwaddr.len() ==> c.hwaddrs@[i].hwaddr@[k] == #[trigger] hwaddr[k];
        let h = c.hwaddrs@[i];
        assert(h.hwaddr@.take(hwaddr.len() as int) =~= hwaddr) by {
            assert forall|k: int| 0 <= k < hwaddr.len() implies h.hwaddr@.take(hwaddr.len() as int)[k] == hwaddr[k] by {
                assert(h.hwaddr@[k] == hwaddr[k]);
            }
        }
        assert(hw_equal(c.hwaddrs@[i], hwaddr, hw_type));
    }
}

/// How well a host goes with a client, the least number being best: 1 by the client id, 2 by the hardware address, 3 by the name;
/// 4 where none of these goes, or the host is not open to the client.
pub open spec fn key_rank(c: DhcpConfig, k: ClientKeys) -> int {
    if !open_to(c, k.tags) {
        4
    } else if k.clid is Some && is_clid_of(c, k.clid->0) {
        1
    } else if k.hwaddr is Some && is_mac_of(c, k.hwaddr->0, k.hw_type) {
        2
    } else if k.hostname is Some && is_name_of(c, k.hostname->0) {
        3
    } else {
        4
    }
}

/// A client is the host that goes best with it, and the first of those that go best: by its client id, else by its hardware
/// address, else by its name.
pub proof fn law_best_host_is_found(configs: Seq<DhcpConfig>, k: ClientKeys, i: int)
    requires
        0 <= i < configs.len(),
        k.hwaddr matches Some(h) ==> h.len() <= 16,
        key_rank(configs[i], k) < 4,
        forall|j: int|
            0 <= j < configs.len() && j != i ==> key_rank(#[trigger] configs[j], k) > key_rank(configs[i], k) || (key_rank(configs[j], k)
                == key_rank(configs[i], k) && j > i),
    ensures
        host_of(configs, k) == Some(i),
{
    let r = key_rank(configs[i], k);
    assert forall|j: int| 0 <= j < configs.len() implies {
        let c = #[trigger] configs[j];
        &&& filter_ok(c, k.tags) == open_to(c, k.tags)
        &&& k.clid matches Some(x) ==> has_clid(c, x) == is_clid_of(c, x)
        &&& k.hwaddr matches Some(x) ==> has_mac(c, x, k.hw_type) == is_mac_of(c, x, k.hw_type)
        &&& k.hostname matches Some(x) ==> has_name(c, x) == is_name_of(c, x)
    } by {
        let clid = match k.clid {
            Some(x) => x,
            None => seq![],
        };
        let hw = match k.hwaddr {
            Some(x) => x,
            None => seq![],
        };
        let name = match k.hostname {
            Some(x) => x,
            None => seq![],
        };
        lemma_keys(configs[j], clid, hw, k.hw_type, name);
    }
    if let Some(clid) = k.clid {
        let key = HostKey::Clid(clid);
        if r == 1 {
            assert forall|j: int| 0 <= j < i implies !(filter_ok(#[trigger] configs[j], k.tags) && has_key(configs[j], key)) by {
                assert(key_rank(configs[j], k) > 1);
            }
            lemma_first(configs, key, k.tags, 0, i);
        } else {
            assert forall|j: int| 0 <= j < configs.len() implies !(filter_ok(#[trigger] configs[j], k.tags) && has_key(
                configs[j],
                key,
            )) by {
                assert(key_rank(configs[j], k) > 1);
            }
            lemma_none(configs, key, k.tags, 0);
        }
    }
    if r >= 2 {
        if let Some(hw) = k.hwaddr {
            let key = HostKey::Mac(hw, k.hw_type);
            if r == 2 {
                assert forall|j: int| 0 <= j < i implies !(filter_ok(#[trigger] configs[j], k.tags) && has_key(configs[j], key)) by {
                    assert(key_rank(configs[j], k) > 2);
                }
                lemma_first(configs, key, k.tags, 0, i);
            } else {
                assert forall|j: int| 0 <= j < configs.len() implies !(filter_ok(#[trigger] configs[j], k.tags) && has_key(
                    configs[j],
                    key,
                )) by {
                    assert(key_rank(configs[j], k) > 2);
                }
                lemma_none(configs, key, k.tags, 0);
            }
        }
    }
    if r == 3 {
        let key = HostKey::Name(k.hostname->0);
        assert forall|j: int| 0 <= j < i implies !(filter_ok(#[trigger] configs[j], k.tags) && has_key(configs[j], key)) by {
            assert(key_rank(configs[j], k) > 3);
        }
        lemma_first(configs, key, k.tags, 0, i);
    }
}

/// Whether a hardware address with wildcards matches: the bytes without a wildcard are those of the address.
pub open spec fn wild_matches(h: HwaddrConfig, hwaddr: Seq<u8>, hw_type: i32) -> bool {
    &&& h.wildcard_mask != 0
    &&& h.hwaddr_len == hwaddr.len()
    &&& h.hwaddr_type == 0 || h.hwaddr_type == hw_type
    &&& forall|k: int| 0 <= k < hwaddr.len() && !is_wild(h.wildcard_mask, hwaddr.len() as int, k) ==> h.hwaddr@[k] == #[trigger] hwaddr[k]
}

/// Where no host goes with a client by its id, its hardware address or its name, a host is found by a hardware address with
/// wildcards where one that is open to the client has one that matches, whichever host it is; the one that is found has.
pub proof fn law_host_is_found_by_wildcard(configs: Seq<DhcpConfig>, k: ClientKeys, i: int, n: int)
    requires
        0 <= i < configs.len(),
        k.hwaddr matches Some(h) && h.len() <= 16,
        forall|j: int| 0 <= j < configs.len() ==> key_rank(#[trigger] configs[j], k) == 4,
        open_to(configs[i], k.tags),
        0 <= n < configs[i].hwaddrs@.len(),
        wild_matches(configs[i].hwaddrs@[n], k.hwaddr->0, k.hw_type),
    ensures
        host_of(configs, k) matches Some(f) && 0 <= f < configs.len() && open_to(configs[f], k.tags) && host_score(
            configs[f],
            k.hwaddr->0,
            k.hw_type,
            k.tags,
        ) >= wild_score(configs[i].hwaddrs@[n], k.hwaddr->0, k.hw_type) > 0,
{
    let hw = k.hwaddr->0;
    assert forall|j: int| 0 <= j < configs.len() implies {
        let c = #[trigger] configs[j];
        &&& k.clid matches Some(x) ==> !(filter_ok(c, k.tags) && has_clid(c, x))
        &&& !(filter_ok(c, k.tags) && has_mac(c, hw, k.hw_type))
        &&& k.hostname matches Some(x) ==> !(filter_ok(c, k.tags) && has_name(c, x))
    } by {
        let clid = match k.clid {
            Some(x) => x,
            None => seq![],
        };
        let name = match k.hostname {
            Some(x) => x,
            None => seq![],
        };
        lemma_keys(configs[j], clid, hw, k.hw_type, name);
        assert(key_rank(configs[j], k) == 4);
    }
    if let Some(clid) = k.clid {
        lemma_none(configs, HostKey::Clid(clid), k.tags, 0);
    }
    lemma_none(configs, HostKey::Mac(hw, k.hw_type), k.tags, 0);
    if let Some(name) = k.hostname {
        lemma_none(configs, HostKey::Name(name), k.tags, 0);
    }
    law_fewest_wildcards_win(configs, hw, k.hw_type, k.tags);
    let h = configs[i].hwaddrs@[n];
    assert(masked_equal(h.hwaddr@.take(hw.len() as int), hw, h.wildcard_mask)) by {
        assert forall|b: int| 0 <= b < hw.len() && !is_wild(h.wildcard_mask, hw.len() as int, b) implies #[trigger] h.hwaddr@.take(
            hw.len() as int,
        )[b] == hw[b] by {
            assert(h.hwaddr@[b] == hw[b]);
        }
    }
    lemma_best_score(configs[i].hwaddrs@, hw, k.hw_type, n);
}

/// No hardware address scores more than the best.
proof fn lemma_best_score(hs: Seq<HwaddrConfig>, hwaddr: Seq<u8>, hw_type: i32, n: int)
    requires
        0 <= n < hs.len(),
    ensures
        best_score(hs, hwaddr, hw_type) >= wild_score(hs[n], hwaddr, hw_type),
    decreases hs.len(),
{
    if n < hs.len() - 1 {
        lemma_best_score(hs.drop_last(), hwaddr, hw_type, n);
        assert(hs.drop_last()[n] == hs[n]);
    }
}

/// The first record of a name in the hosts files gives its address, case aside; a name without a record has none.
pub proof fn law_first_record_gives_the_address(hosts: Seq<HostEntry>, name: Seq<char>, i: int, k: int)
    requires
        0 <= i <= hosts.len(),
    ensures
        i <= k < hosts.len() && lower(hosts[k].name@) == lower(name) && (forall|j: int|
            i <= j < k ==> lower((#[trigger] hosts[j]).name@) != lower(name)) ==> host_addr(hosts, name, i) == Some(hosts[k].addr),
        (forall|j: int| i <= j < hosts.len() ==> lower((#[trigger] hosts[j]).name@) != lower(name)) ==> host_addr(hosts, name, i) is None,
    decreases hosts.len() - i,
{
    if i < hosts.len() {
        if lower(hosts[i].name@) != lower(name) {
            law_first_record_gives_the_address(hosts, name, i + 1, k);
        }
    }
}

/// A host after the first `n` got their addresses: only its address and what is said of that can have changed, and only when
/// its turn came.
proof fn lemma_filled(configs: Seq<DhcpConfig>, n: int, hosts: Seq<HostEntry>, i: int)
    requires
        0 <= n <= configs.len(),
        0 <= i < configs.len(),
    ensures
        filled(configs, n, hosts).len() == configs.len(),
        i >= n ==> filled(configs, n, hosts)[i] == configs[i],
        i < n ==> filled(configs, n, hosts)[i] == filled(configs, i + 1, hosts)[i],
        filled(configs, n, hosts)[i].hostname == configs[i].hostname,
        filled(configs, n, hosts)[i].flags.name == configs[i].flags.name,
        filled(configs, n, hosts)[i].flags.addr && !configs[i].flags.addr ==> configs[i].flags.name && configs[i].hostname is Some
            && host_addr(hosts, configs[i].hostname->0@, 0) == Some(filled(configs, n, hosts)[i].addr) && filled(
            configs,
            n,
            hosts,
        )[i].flags.addr_hosts,
        configs[i].flags.addr ==> filled(configs, n, hosts)[i] == configs[i],
        !filled(configs, n, hosts)[i].flags.addr ==> filled(configs, n, hosts)[i] == configs[i],
    decreases n,
{
    if n > 0 {
        lemma_filled(configs, n - 1, hosts, i);
        lemma_filled(configs, n - 1, hosts, n - 1);
        if i < n - 1 {
        } else if i == n - 1 {
        }
    }
}

/// A host that has a name and no address of its own gets the address that the hosts files have for the name, where no other
/// host has that address of its own and no host before it has a name with that address. An address that a host has from the
/// hosts files is the one that they have for its name now; one that they have no more is gone.
pub proof fn law_hosts_files_give_addresses(configs: Seq<DhcpConfig>, hosts: Seq<HostEntry>, i: int, a: Ip4)
    requires
        0 <= i < configs.len(),
    ensures
        ({
            let own = |c: DhcpConfig| c.flags.addr && !c.flags.addr_hosts;
            let now = updated(configs, hosts)[i];
            &&& own(configs[i]) ==> now == configs[i]
            &&& !own(configs[i]) && now.flags.addr ==> configs[i].flags.name && configs[i].hostname is Some && host_addr(
                hosts,
                configs[i].hostname->0@,
                0,
            ) == Some(now.addr) && now.flags.addr_hosts
            &&& !own(configs[i]) && configs[i].flags.name && configs[i].hostname is Some && host_addr(
                hosts,
                configs[i].hostname->0@,
                0,
            ) == Some(a) && (forall|j: int|
                0 <= j < configs.len() && j != i ==> !(own(#[trigger] configs[j]) && configs[j].addr == a)) && (forall|j: int|
                0 <= j < i && (#[trigger] configs[j]).hostname is Some ==> host_addr(hosts, configs[j].hostname->0@, 0) != Some(a)) ==> {
                &&& now.flags.addr
                &&& now.addr == a
                &&& now.flags.addr_hosts
            }
        }),
{
    let start = configs.map_values(|c: DhcpConfig| without_hosts_addr(c));
    let own = |c: DhcpConfig| c.flags.addr && !c.flags.addr_hosts;
    let n = configs.len() as int;
    lemma_filled(start, n, hosts, i);
    lemma_filled(start, i + 1, hosts, i);
    let mid = filled(start, i, hosts);
    lemma_filled(start, i, hosts, i);
    assert forall|j: int| 0 <= j < configs.len() implies (#[trigger] start[j]).flags.addr == own(configs[j]) && start[j].addr
        == configs[j].addr && start[j].hostname == configs[j].hostname && start[j].flags.name == configs[j].flags.name by {}
    if !own(configs[i]) && configs[i].flags.name && configs[i].hostname is Some && host_addr(hosts, configs[i].hostname->0@, 0) == Some(
        a,
    ) && (forall|j: int| 0 <= j < configs.len() && j != i ==> !(own(#[trigger] configs[j]) && configs[j].addr == a)) && (forall|j: int|
        0 <= j < i && (#[trigger] configs[j]).hostname is Some ==> host_addr(hosts, configs[j].hostname->0@, 0) != Some(a)) {
        assert(!addr_taken(mid, i, a)) by {
            if addr_taken(mid, i, a) {
                let j = choose|j: int|
                    0 <= j < mid.len() && j != i && (#[trigger] mid[j]).flags.addr && mid[j].addr == a;
                lemma_filled(start, i, hosts, j);
                assert(start[j].flags.addr == own(configs[j]));
                if start[j].flags.addr {
                    assert(!(own(configs[j]) && configs[j].addr == a));
                } else {
                    if j >= i {
                        assert(mid[j] == start[j]);
                    }
                    assert(configs[j].hostname is Some);
                }
            }
        }
        assert(start[i].flags.addr == own(configs[i]));
        assert(hosts_addr(mid, i, hosts) == Some(a));
        assert(filled(start, i + 1, hosts) == filled_at(mid, i, hosts));
    }
}

/// The bytes that a match compares: one for each that has no wildcard. Without wildcards that is all of them.
pub proof fn law_bytes_that_are_compared(mask: u32, n: int, k: int)
    requires
        0 <= k <= n,
    ensures
        checked_bytes(mask, n, k) <= k,
        (forall|i: int| n - k <= i < n ==> !#[trigger] is_wild(mask, n, i)) ==> checked_bytes(mask, n, k) == k,
        (forall|i: int| n - k <= i < n ==> #[trigger] is_wild(mask, n, i)) ==> checked_bytes(mask, n, k) == 0,
    decreases k,
{
    if k > 0 {
        law_bytes_that_are_compared(mask, n, k - 1);
        if forall|i: int| n - k <= i < n ==> !#[trigger] is_wild(mask, n, i) {
            assert(!is_wild(mask, n, n - k));
        }
        if forall|i: int| n - k <= i < n ==> #[trigger] is_wild(mask, n, i) {
            assert(is_wild(mask, n, n - k));
        }
    }
}

} // verus!
