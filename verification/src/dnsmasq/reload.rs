//! Reloading of what is read from files, and what is due later.

use crate::addr::{Ip4, Ip6, SockAddr};
use crate::daemon::Daemon;
use crate::dup::{all_views, dup_strings, Dup};
use crate::records::{Server, ServerFlags, ServerView};
use crate::text::{same, views};
use vstd::prelude::*;

verus! {

/// The hosts files: the usual one, unless it is off, and those that were configured.
pub open spec fn hosts_files(d: Daemon) -> Seq<Seq<char>> {
    if d.options.no_hosts {
        views(d.addn_hosts@)
    } else {
        seq!["/etc/hosts"@] + views(d.addn_hosts@)
    }
}

/// The paths of the hosts files.
pub fn hosts_paths(daemon: &Daemon) -> (r: Vec<String>)
    ensures
        views(r@) == hosts_files(*daemon),
{
    let mut r: Vec<String> = Vec::new();
    if !daemon.options.no_hosts {
        r.push(String::from_str("/etc/hosts"));
    }
    let mut more: Vec<String> = dup_strings(&daemon.addn_hosts);
    let ghost before = r@;
    let ghost added = more@;
    r.append(&mut more);
    assert(views(before + added) =~= views(before) + views(added));
    assert(views(r@) =~= hosts_files(*daemon));
    r
}

/// The source of queries to a server: any address of the same family, with the configured port.
pub open spec fn source_for(addr: SockAddr, query_port: u16) -> SockAddr {
    match addr {
        SockAddr::V4 { .. } => SockAddr::V4 { ip: Ip4 { bits: 0 }, port: query_port },
        SockAddr::V6 { .. } => SockAddr::V6 { ip: Ip6 { bits: 0 }, port: query_port, scope_id: 0 },
    }
}

/// The flags of a server that was read from a resolv file.
pub open spec fn resolv_flags(addr: SockAddr) -> ServerFlags {
    ServerFlags {
        literal_address: false,
        from_resolv: true,
        addr4: addr is V4,
        addr6: addr is V6,
        mark: false,
    }
}

/// A server that was read from a resolv file, and not there before.
pub open spec fn new_server(addr: SockAddr, query_port: u16) -> ServerView {
    ServerView {
        flags: resolv_flags(addr),
        domain: seq![],
        addr,
        source_addr: source_for(addr, query_port),
        interface: seq![],
        ifindex: 0,
        queries: 0,
        failed_queries: 0,
        nxdomain_replies: 0,
        retrys: 0,
        query_latency: 0,
        mma_latency: 0,
        forwardcount: 0,
    }
}

/// A server that stays, with the address that was read for it. What was counted of it stays too.
pub open spec fn renewed(s: ServerView, addr: SockAddr, query_port: u16) -> ServerView {
    ServerView {
        flags: resolv_flags(addr),
        addr,
        source_addr: source_for(addr, query_port),
        interface: seq![],
        ..s
    }
}

/// A server that was configured, which a reload leaves as it is.
pub open spec fn kept(s: ServerView) -> ServerView {
    ServerView { flags: ServerFlags { mark: false, ..s.flags }, ..s }
}

/// The servers after these addresses were read from resolv files. Servers that were configured stay. Those
/// that came from resolv files take over the addresses in order; where there are more of them they go, and
/// where there are fewer new ones are made.
pub open spec fn reloaded(servers: Seq<ServerView>, found: Seq<SockAddr>, query_port: u16) -> Seq<ServerView>
    decreases servers.len(),
{
    if servers.len() == 0 {
        found.map_values(|a: SockAddr| new_server(a, query_port))
    } else {
        let s = servers[0];
        let rest = servers.skip(1);
        if !s.flags.from_resolv {
            seq![kept(s)] + reloaded(rest, found, query_port)
        } else if s.domain.len() == 0 && found.len() > 0 {
            seq![renewed(s, found[0], query_port)] + reloaded(rest, found.skip(1), query_port)
        } else {
            reloaded(rest, found, query_port)
        }
    }
}

/// The source of queries to a server.
fn make_source(addr: &SockAddr, query_port: u16) -> (r: SockAddr)
    ensures
        r == source_for(*addr, query_port),
{
    match addr {
        SockAddr::V4 { .. } => SockAddr::V4 { ip: Ip4::unspecified(), port: query_port },
        SockAddr::V6 { .. } => SockAddr::V6 { ip: Ip6::unspecified(), port: query_port, scope_id: 0 },
    }
}

/// The flags of a server that was read from a resolv file.
fn make_flags(addr: &SockAddr) -> (r: ServerFlags)
    ensures
        r == resolv_flags(*addr),
{
    let v6: bool = match addr {
        SockAddr::V6 { .. } => true,
        SockAddr::V4 { .. } => false,
    };
    ServerFlags { literal_address: false, from_resolv: true, addr4: !v6, addr6: v6, mark: false }
}

/// Makes a server that was read from a resolv file.
fn make_server(addr: SockAddr, query_port: u16) -> (r: Server)
    ensures
        r@ == new_server(addr, query_port),
{
    let r: Server = Server {
        flags: make_flags(&addr),
        domain: String::new(),
        addr,
        source_addr: make_source(&addr, query_port),
        interface: String::new(),
        ifindex: 0,
        queries: 0,
        failed_queries: 0,
        nxdomain_replies: 0,
        retrys: 0,
        query_latency: 0,
        mma_latency: 0,
        forwardcount: 0,
    };
    assert(r@.domain =~= seq![]);
    assert(r@.interface =~= seq![]);
    r
}

/// The servers after these addresses were read from resolv files.
pub fn reload_servers(servers: &Vec<Server>, found: &Vec<SockAddr>, query_port: u16) -> (r: Vec<Server>)
    ensures
        all_views(r@) == reloaded(all_views(servers@), found@, query_port),
{
    let ghost all = all_views(servers@);
    let ghost goal = reloaded(all, found@, query_port);
    let mut r: Vec<Server> = Vec::new();
    let mut i: usize = 0;
    let mut k: usize = 0;
    proof {
        reveal_strlit("");
        assert(all.skip(0) =~= all);
        assert(found@.skip(0) =~= found@);
        assert(all_views(r@) + goal =~= goal);
    }
    while i < servers.len()
        invariant
            i <= servers@.len(),
            k <= found@.len(),
            ""@.len() == 0,
            all == all_views(servers@),
            goal == all_views(r@) + reloaded(all.skip(i as int), found@.skip(k as int), query_port),
        decreases servers@.len() - i,
    {
        let ghost here = all.skip(i as int);
        let ghost left = found@.skip(k as int);
        let ghost before = all_views(r@);
        proof {
            assert(here[0] == servers@[i as int]@);
            assert(here.skip(1) =~= all.skip(i + 1));
            if servers@[i as int].domain@.len() == 0 {
                assert(servers@[i as int].domain@ =~= ""@);
            }
        }
        if !servers[i].flags.from_resolv {
            let mut s: Server = servers[i].dup();
            let mut flags: ServerFlags = s.flags;
            flags.mark = false;
            s.flags = flags;
            proof {
                assert(s@ == kept(here[0]));
                assert(all_views(r@.push(s)) =~= before.push(s@));
                assert(before + (seq![s@] + reloaded(all.skip(i + 1), left, query_port)) =~= before.push(s@) + reloaded(
                    all.skip(i + 1),
                    left,
                    query_port,
                ));
            }
            r.push(s);
        } else if same(servers[i].domain.as_str(), "") && k < found.len() {
            let addr: SockAddr = found[k];
            let mut s: Server = servers[i].dup();
            s.flags = make_flags(&addr);
            s.addr = addr;
            s.source_addr = make_source(&addr, query_port);
            s.interface = String::new();
            proof {
                assert(left[0] == addr);
                assert(left.skip(1) =~= found@.skip(k + 1));
                assert(s@.interface =~= seq![]);
                assert(s@ == renewed(here[0], addr, query_port));
                assert(all_views(r@.push(s)) =~= before.push(s@));
                let rest = reloaded(all.skip(i + 1), found@.skip(k + 1), query_port);
                assert(before + (seq![s@] + rest) =~= before.push(s@) + rest);
            }
            r.push(s);
            k += 1;
        }
        i += 1;
    }
    let ghost news = |a: SockAddr| new_server(a, query_port);
    assert(all.skip(i as int) =~= Seq::<ServerView>::empty());
    while k < found.len()
        invariant
            k <= found@.len(),
            news == (|a: SockAddr| new_server(a, query_port)),
            goal == all_views(r@) + found@.skip(k as int).map_values(news),
        decreases found@.len() - k,
    {
        let s: Server = make_server(found[k], query_port);
        proof {
            let left = found@.skip(k as int).map_values(news);
            let rest = found@.skip(k + 1).map_values(news);
            assert(left =~= seq![s@] + rest);
            assert(all_views(r@.push(s)) =~= all_views(r@).push(s@));
            assert(all_views(r@) + (seq![s@] + rest) =~= all_views(r@).push(s@) + rest);
        }
        r.push(s);
        k += 1;
    }
    assert(all_views(r@) + found@.skip(k as int).map_values(news) =~= all_views(r@));
    r
}

/// The servers that were configured.
pub open spec fn configured(servers: Seq<ServerView>) -> Seq<ServerView>
    decreases servers.len(),
{
    if servers.len() == 0 {
        seq![]
    } else if !servers[0].flags.from_resolv {
        seq![kept(servers[0])] + configured(servers.skip(1))
    } else {
        configured(servers.skip(1))
    }
}

/// The addresses of the servers that came from resolv files.
pub open spec fn resolv_addrs(servers: Seq<ServerView>) -> Seq<SockAddr>
    decreases servers.len(),
{
    if servers.len() == 0 {
        seq![]
    } else if servers[0].flags.from_resolv {
        seq![servers[0].addr] + resolv_addrs(servers.skip(1))
    } else {
        resolv_addrs(servers.skip(1))
    }
}

/// What is known of new servers.
proof fn lemma_new_servers(found: Seq<SockAddr>, query_port: u16)
    ensures
        ({
            let news = found.map_values(|a: SockAddr| new_server(a, query_port));
            &&& configured(news) == Seq::<ServerView>::empty()
            &&& resolv_addrs(news) == found
            &&& reloaded(news, found, query_port) == news
        }),
    decreases found.len(),
{
    let make = |a: SockAddr| new_server(a, query_port);
    let news = found.map_values(make);
    if found.len() > 0 {
        let rest = found.skip(1);
        lemma_new_servers(rest, query_port);
        assert(news.skip(1) =~= rest.map_values(make));
        assert(news[0] == new_server(found[0], query_port));
        assert(found =~= seq![found[0]] + rest);
        assert(renewed(news[0], found[0], query_port) == news[0]);
        assert(news =~= seq![news[0]] + rest.map_values(make));
    } else {
        assert(news =~= seq![]);
        assert(found =~= seq![]);
    }
}

/// A reload keeps the servers that were configured, in their order, and leaves exactly the servers that
/// were read besides them. Reading the same files again changes nothing, so that what was counted of the
/// servers stays.
pub proof fn law_reload_is_stable(servers: Seq<ServerView>, found: Seq<SockAddr>, query_port: u16)
    ensures
        configured(reloaded(servers, found, query_port)) == configured(servers),
        resolv_addrs(reloaded(servers, found, query_port)) == found,
        reloaded(reloaded(servers, found, query_port), found, query_port) == reloaded(servers, found, query_port),
    decreases servers.len(),
{
    let after = reloaded(servers, found, query_port);
    if servers.len() == 0 {
        lemma_new_servers(found, query_port);
    } else {
        let s = servers[0];
        let rest = servers.skip(1);
        if !s.flags.from_resolv {
            law_reload_is_stable(rest, found, query_port);
            let tail = reloaded(rest, found, query_port);
            assert(after[0] == kept(s));
            assert(after.skip(1) =~= tail);
            assert(kept(kept(s)) == kept(s));
        } else if s.domain.len() == 0 && found.len() > 0 {
            law_reload_is_stable(rest, found.skip(1), query_port);
            let tail = reloaded(rest, found.skip(1), query_port);
            let r = renewed(s, found[0], query_port);
            assert(after[0] == r);
            assert(after.skip(1) =~= tail);
            assert(renewed(r, found[0], query_port) == r);
            assert(found =~= seq![found[0]] + found.skip(1));
        } else {
            law_reload_is_stable(rest, found, query_port);
        }
    }
}

/// What came of reading a resolv file.
#[derive(Debug)]
pub enum ResolvRead {
    /// The addresses of the servers in it.
    Servers(Vec<SockAddr>),
    Failed,
}

/// Whether some file could be read.
pub open spec fn any_read(reads: Seq<ResolvRead>) -> bool {
    exists|i: int| 0 <= i < reads.len() && (#[trigger] reads[i]) is Servers
}

/// The addresses in the files that could be read.
pub open spec fn found_in(reads: Seq<ResolvRead>) -> Seq<SockAddr>
    decreases reads.len(),
{
    if reads.len() == 0 {
        seq![]
    } else {
        match reads.last() {
            ResolvRead::Servers(v) => found_in(reads.drop_last()) + v@,
            ResolvRead::Failed => found_in(reads.drop_last()),
        }
    }
}

/// The servers after resolv files were read: as before where none could be read.
pub open spec fn servers_after(servers: Seq<ServerView>, reads: Seq<ResolvRead>, query_port: u16) -> Seq<ServerView> {
    if any_read(reads) {
        reloaded(servers, found_in(reads), query_port)
    } else {
        servers
    }
}

/// Takes over what was read from the resolv files, and notes that DNS data changed.
pub fn clear_cache_and_reload(daemon: &mut Daemon, reads: &Vec<ResolvRead>)
    ensures
        *final(daemon) == (Daemon { servers: final(daemon).servers, dns_dirty: true, ..*old(daemon) }),
        all_views(final(daemon).servers@) == servers_after(all_views(old(daemon).servers@), reads@, old(daemon).query_port),
        !any_read(reads@) ==> final(daemon).servers == old(daemon).servers,
{
    let ghost all = reads@;
    let mut any: bool = false;
    let mut found: Vec<SockAddr> = Vec::new();
    let mut i: usize = 0;
    assert(found@ =~= found_in(all.take(0)));
    while i < reads.len()
        invariant
            i <= reads@.len(),
            all == reads@,
            any ==> any_read(all),
            !any ==> forall|j: int| 0 <= j < i ==> (#[trigger] all[j]) is Failed,
            found@ == found_in(all.take(i as int)),
        decreases reads@.len() - i,
    {
        proof {
            assert(all.take(i + 1).drop_last() =~= all.take(i as int));
            assert(all.take(i + 1).last() == all[i as int]);
        }
        match &reads[i] {
            ResolvRead::Servers(v) => {
                assert(all[i as int] is Servers);
                any = true;
                let mut more: Vec<SockAddr> = crate::dup::dup_copies(v);
                found.append(&mut more);
            },
            ResolvRead::Failed => {},
        }
        i += 1;
    }
    assert(all.take(all.len() as int) =~= all);
    if any {
        let servers: Vec<Server> = reload_servers(&daemon.servers, &found, daemon.query_port);
        daemon.servers = servers;
    }
    daemon.dns_dirty = true;
}

/// Reloads on request, and counts the reloads.
pub fn on_sighup(daemon: &mut Daemon, reads: &Vec<ResolvRead>)
    ensures
        *final(daemon) == (Daemon {
            servers: final(daemon).servers,
            dns_dirty: true,
            reload_count: if old(daemon).reload_count == u32::MAX {
                0
            } else {
                (old(daemon).reload_count + 1) as u32
            },
            ..*old(daemon)
        }),
        all_views(final(daemon).servers@) == servers_after(all_views(old(daemon).servers@), reads@, old(daemon).query_port),
{
    clear_cache_and_reload(daemon, reads);
    daemon.reload_count = if daemon.reload_count == u32::MAX {
        0
    } else {
        daemon.reload_count + 1
    };
}

/// Notes when the next alarm is due: so many seconds from now.
pub fn send_alarm(daemon: &mut Daemon, now_secs: u64, next_event_secs: u64)
    requires
        now_secs + next_event_secs <= u64::MAX,
    ensures
        *final(daemon) == (Daemon { next_alarm: Some((now_secs + next_event_secs) as u64), ..*old(daemon) }),
{
    daemon.next_alarm = Some(now_secs + next_event_secs);
}

/// When a file was last modified.
#[derive(Debug, Clone, Copy, PartialEq, Eq, Structural)]
pub struct FileTime {
    pub secs: i64,
    pub nanos: u32,
}

/// Watches a file for changes.
#[derive(Debug)]
pub struct ResolvMonitor {
    pub path: String,
    /// When the file was modified, as far as was seen; nothing where it was not there.
    pub last_mtime: Option<FileTime>,
}

impl ResolvMonitor {
    /// Watches the file at `path`, which was modified at `mtime`, if it is there.
    pub fn new(path: &str, mtime: Option<FileTime>) -> (m: Self)
        ensures
            m.path@ == path@,
            m.last_mtime == mtime,
    {
        ResolvMonitor { path: String::from_str(path), last_mtime: mtime }
    }

    /// Whether the file changed, appeared or disappeared since it was last looked at; `mtime` is when it
    /// was modified, if it is there.
    pub fn check(&mut self, mtime: Option<FileTime>) -> (r: bool)
        ensures
            r == (mtime != old(self).last_mtime),
            *final(self) == (ResolvMonitor { last_mtime: mtime, ..*old(self) }),
    {
        let unchanged: bool = match (mtime, self.last_mtime) {
            (Some(a), Some(b)) => a == b,
            (None, None) => true,
            _ => false,
        };
        self.last_mtime = mtime;
        !unchanged
    }
}

} // verus!
