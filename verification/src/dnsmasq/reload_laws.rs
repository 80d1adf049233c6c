//! What reloading does to the servers.

use super::reload::{
    any_read, found_in, law_reload_is_stable, reloaded, resolv_addrs, servers_after, ResolvRead,
};
use crate::addr::SockAddr;
use crate::records::{ServerFlags, ServerView};
use vstd::prelude::*;

verus! {

/// The addresses that were read from one file: none where it could not be read.
pub open spec fn read_addrs(r: ResolvRead) -> Seq<SockAddr> {
    match r {
        ResolvRead::Servers(v) => v@,
        ResolvRead::Failed => seq![],
    }
}

/// How many addresses were read from all files.
pub open spec fn how_many(reads: Seq<ResolvRead>) -> nat
    decreases reads.len(),
{
    if reads.len() == 0 {
        0
    } else {
        read_addrs(reads[0]).len() + how_many(reads.skip(1))
    }
}

/// The addresses of all files stand one after another.
proof fn lemma_found(reads: Seq<ResolvRead>)
    ensures
        found_in(reads) == reads.map_values(|r: ResolvRead| read_addrs(r)).flatten(),
    decreases reads.len(),
{
    let f = |r: ResolvRead| read_addrs(r);
    if reads.len() == 0 {
        assert(reads.map_values(f).flatten() =~= seq![]);
    } else {
        lemma_found(reads.drop_last());
        assert(reads.map_values(f) =~= reads.drop_last().map_values(f).push(f(reads.last())));
        reads.drop_last().map_values(f).lemma_flatten_push(f(reads.last()));
        assert(found_in(reads) =~= found_in(reads.drop_last()) + read_addrs(reads.last()));
    }
}

/// The addresses in the files before and after one file stand around those in it.
proof fn lemma_found_around(reads: Seq<ResolvRead>, i: int)
    requires
        0 <= i < reads.len(),
    ensures
        found_in(reads) == found_in(reads.take(i)) + read_addrs(reads[i]) + found_in(reads.skip(i + 1)),
    decreases reads.len(),
{
    let d = reads.drop_last();
    let n = reads.len() - 1;
    if i == n {
        assert(d =~= reads.take(i));
        assert(reads.skip(i + 1) =~= Seq::<ResolvRead>::empty());
        assert(found_in(reads) =~= found_in(reads.take(i)) + read_addrs(reads[i]) + found_in(reads.skip(i + 1)));
    } else {
        lemma_found_around(d, i);
        assert(d.take(i) =~= reads.take(i));
        assert(d.skip(i + 1) =~= reads.skip(i + 1).drop_last());
        assert(reads.skip(i + 1).last() == reads.last());
        assert(found_in(reads) =~= found_in(d) + read_addrs(reads.last()));
        assert(found_in(reads.skip(i + 1)) =~= found_in(d.skip(i + 1)) + read_addrs(reads.last()));
        assert(found_in(reads) =~= found_in(reads.take(i)) + read_addrs(reads[i]) + found_in(reads.skip(i + 1)));
    }
}

/// How many addresses stand one after another.
proof fn lemma_how_many(reads: Seq<ResolvRead>)
    ensures
        found_in(reads).len() == how_many(reads),
    decreases reads.len(),
{
    if reads.len() > 0 {
        lemma_found_around(reads, 0);
        assert(reads.take(0) =~= Seq::<ResolvRead>::empty());
        lemma_how_many(reads.skip(1));
    }
}

/// After a reload in which some file could be read, the servers from resolv files are those in all the files that could be
/// read, in the order of the files: each address of each file stands among them, behind those of the files before, and
/// there are as many of them as there are addresses in the files.
pub proof fn law_every_file_counts(servers: Seq<ServerView>, reads: Seq<ResolvRead>, query_port: u16, i: int, k: int)
    requires
        any_read(reads),
    ensures
        resolv_addrs(servers_after(servers, reads, query_port)) == reads.map_values(|r: ResolvRead| read_addrs(r)).flatten(),
        resolv_addrs(servers_after(servers, reads, query_port)).len() == how_many(reads),
        0 <= i < reads.len() && reads[i] is Servers && 0 <= k < reads[i]->Servers_0@.len() ==> {
            let now = resolv_addrs(servers_after(servers, reads, query_port));
            let at = how_many(reads.take(i)) + k;
            &&& at < now.len()
            &&& now[at] == reads[i]->Servers_0@[k]
            &&& now.contains(reads[i]->Servers_0@[k])
        },
{
    law_reload_is_stable(servers, found_in(reads), query_port);
    lemma_found(reads);
    lemma_how_many(reads);
    if 0 <= i < reads.len() && reads[i] is Servers && 0 <= k < reads[i]->Servers_0@.len() {
        lemma_found_around(reads, i);
        lemma_how_many(reads.take(i));
        let now = found_in(reads);
        assert(now[how_many(reads.take(i)) + k] == reads[i]->Servers_0@[k]);
    }
}

/// Where no file could be read, the servers stay as they are.
pub proof fn law_unreadable_files_change_nothing(servers: Seq<ServerView>, reads: Seq<ResolvRead>, query_port: u16)
    requires
        forall|i: int| 0 <= i < reads.len() ==> (#[trigger] reads[i]) is Failed,
    ensures
        servers_after(servers, reads, query_port) == servers,
{
}

/// Whether a server is one from a resolv file as it should be: queries go out from any address of the family of the server,
/// with the configured port, the flags tell that family, and it is bound to no interface.
pub open spec fn is_from_resolv(s: ServerView, query_port: u16) -> bool {
    &&& s.flags.from_resolv
    &&& !s.flags.literal_address
    &&& !s.flags.mark
    &&& s.flags.addr4 != s.flags.addr6
    &&& s.interface.len() == 0
    &&& match s.addr {
        SockAddr::V4 { .. } => s.flags.addr4 && (s.source_addr matches SockAddr::V4 { ip, port } && ip.bits == 0 && port
            == query_port),
        SockAddr::V6 { .. } => s.flags.addr6 && (s.source_addr matches SockAddr::V6 { ip, port, scope_id } && ip.bits == 0 && port
            == query_port && scope_id == 0),
    }
}

/// Every server after a reload is one that was configured, or is one from a resolv file as it should be.
pub proof fn law_reloaded_servers(servers: Seq<ServerView>, found: Seq<SockAddr>, query_port: u16, k: int)
    requires
        0 <= k < reloaded(servers, found, query_port).len(),
    ensures
        ({
            let s = reloaded(servers, found, query_port)[k];
            &&& s.flags.from_resolv ==> is_from_resolv(s, query_port)
            &&& !s.flags.from_resolv ==> exists|i: int|
                0 <= i < servers.len() && !servers[i].flags.from_resolv && s == (ServerView {
                    flags: ServerFlags { mark: false, ..servers[i].flags },
                    ..#[trigger] servers[i]
                })
        }),
    decreases servers.len(),
{
    let after = reloaded(servers, found, query_port);
    if servers.len() > 0 {
        let s = servers[0];
        let rest = servers.skip(1);
        let takes = s.flags.from_resolv && s.domain.len() == 0 && found.len() > 0;
        let left = if takes {
            found.skip(1)
        } else {
            found
        };
        let tail = reloaded(rest, left, query_port);
        if !s.flags.from_resolv || takes {
            if k > 0 {
                assert(after[k] == tail[k - 1]);
                law_reloaded_servers(rest, left, query_port, k - 1);
            } else {
                assert(after[0].flags.from_resolv ==> is_from_resolv(after[0], query_port));
                assert(!s.flags.from_resolv ==> after[0] == (ServerView {
                    flags: ServerFlags { mark: false, ..servers[0].flags },
                    ..servers[0]
                }));
            }
        } else {
            law_reloaded_servers(rest, left, query_port, k);
        }
        if !after[k].flags.from_resolv && !(k == 0 && !s.flags.from_resolv) {
            let i = choose|i: int|
                0 <= i < rest.len() && !rest[i].flags.from_resolv && after[k] == (ServerView {
                    flags: ServerFlags { mark: false, ..rest[i].flags },
                    ..#[trigger] rest[i]
                });
            assert(rest[i] == servers[i + 1]);
        }
    }
}

/// How many of the servers came from resolv files and serve every domain.
pub open spec fn takers(servers: Seq<ServerView>) -> nat
    decreases servers.len(),
{
    if servers.len() == 0 {
        0
    } else if servers.last().flags.from_resolv && servers.last().domain.len() == 0 {
        takers(servers.drop_last()) + 1
    } else {
        takers(servers.drop_last())
    }
}

/// The takers of a list, counted from its front.
proof fn lemma_takers_front(servers: Seq<ServerView>)
    requires
        servers.len() > 0,
    ensures
        takers(servers) == takers(servers.skip(1)) + (if servers[0].flags.from_resolv && servers[0].domain.len() == 0 {
            1nat
        } else {
            0nat
        }),
    decreases servers.len(),
{
    if servers.len() == 1 {
        assert(servers.skip(1) =~= Seq::<ServerView>::empty());
        assert(servers.drop_last() =~= Seq::<ServerView>::empty());
    } else {
        lemma_takers_front(servers.drop_last());
        assert(servers.drop_last().skip(1) =~= servers.skip(1).drop_last());
        assert(servers.skip(1).last() == servers.last());
    }
}

/// A server that was configured stays, as it is but for its mark. Of those that came from resolv files and serve every
/// domain, each takes over the address that has its place among the addresses that were read, and keeps what was counted
/// of it.
pub proof fn law_reload_keeps_servers(servers: Seq<ServerView>, found: Seq<SockAddr>, query_port: u16, i: int)
    requires
        0 <= i < servers.len(),
    ensures
        !servers[i].flags.from_resolv ==> reloaded(servers, found, query_port).contains(
            ServerView { flags: ServerFlags { mark: false, ..servers[i].flags }, ..servers[i] },
        ),
        servers[i].flags.from_resolv && servers[i].domain.len() == 0 && takers(servers.take(i)) < found.len() ==> exists|k: int|
            0 <= k < reloaded(servers, found, query_port).len() && {
                let s = #[trigger] reloaded(servers, found, query_port)[k];
                &&& s.addr == found[takers(servers.take(i)) as int]
                &&& is_from_resolv(s, query_port)
                &&& s == (ServerView {
                    flags: s.flags,
                    addr: s.addr,
                    source_addr: s.source_addr,
                    interface: s.interface,
                    ..servers[i]
                })
            },
    decreases servers.len(),
{
    let after = reloaded(servers, found, query_port);
    let s = servers[0];
    let rest = servers.skip(1);
    let takes = s.flags.from_resolv && s.domain.len() == 0 && found.len() > 0;
    let left = if takes {
        found.skip(1)
    } else {
        found
    };
    let tail = reloaded(rest, left, query_port);
    let shift: int = if !s.flags.from_resolv || takes {
        1
    } else {
        0
    };
    assert(forall|k: int| 0 <= k < tail.len() ==> #[trigger] tail[k] == after[k + shift]);
    if i == 0 {
        assert(servers.take(0) =~= Seq::<ServerView>::empty());
        if !s.flags.from_resolv {
            assert(after[0] == (ServerView { flags: ServerFlags { mark: false, ..servers[0].flags }, ..servers[0] }));
        } else if takes {
            assert(after[0].addr == found[0]);
        }
    } else {
        law_reload_keeps_servers(rest, left, query_port, i - 1);
        assert(rest[i - 1] == servers[i]);
        let before = servers.take(i);
        lemma_takers_front(before);
        assert(before.skip(1) =~= rest.take(i - 1));
        if !servers[i].flags.from_resolv {
            let goal = (ServerView { flags: ServerFlags { mark: false, ..servers[i].flags }, ..servers[i] });
            let k = choose|k: int| 0 <= k < tail.len() && tail[k] == goal;
            assert(after[k + shift] == goal);
        } else if servers[i].domain.len() == 0 && takers(before) < found.len() {
            let at = takers(rest.take(i - 1)) as int;
            assert(at < left.len());
            assert(left[at] == found[takers(before) as int]);
            let k = choose|k: int|
                0 <= k < tail.len() && {
                    let t = #[trigger] tail[k];
                    &&& t.addr == left[at]
                    &&& is_from_resolv(t, query_port)
                    &&& t == (ServerView {
                        flags: t.flags,
                        addr: t.addr,
                        source_addr: t.source_addr,
                        interface: t.interface,
                        ..rest[i - 1]
                    })
                };
            assert(after[k + shift] == tail[k]);
        }
    }
}

} // verus!
