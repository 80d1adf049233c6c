//! As whom the daemon runs, and with which capabilities.

use crate::daemon::Daemon;
use crate::dup::opt_text;
use crate::error::DnsmasqError;
use crate::records::Server;
use crate::text::{plus, same};
use vstd::prelude::*;

verus! {

/// The group that the daemon runs as where no other is configured.
pub const CHGRP: &'static str = "dip";

/// The user and group that the daemon runs as once it has given up root.
#[derive(Debug, Clone, PartialEq, Eq)]
pub struct RunAs {
    /// The name of the user.
    pub username: Option<String>,
    pub uid: Option<u32>,
    /// The name of the group.
    pub groupname: Option<String>,
    pub gid: Option<u32>,
    /// The primary group of the user, which owns the pid file.
    pub user_gid: Option<u32>,
}

/// The value of a `RunAs`.
#[verifier::ext_equal]
pub struct Identity {
    pub username: Option<Seq<char>>,
    pub uid: Option<u32>,
    pub groupname: Option<Seq<char>>,
    pub gid: Option<u32>,
    pub user_gid: Option<u32>,
}

impl View for RunAs {
    type V = Identity;

    open spec fn view(&self) -> Identity {
        Identity {
            username: opt_text(self.username),
            uid: self.uid,
            groupname: opt_text(self.groupname),
            gid: self.gid,
            user_gid: self.user_gid,
        }
    }
}

impl Default for RunAs {
    fn default() -> (r: Self)
        ensures
            r@ == (Identity { username: None, uid: None, groupname: None, gid: None, user_gid: None }),
    {
        RunAs { username: None, uid: None, groupname: None, gid: None, user_gid: None }
    }
}

/// What came of looking up a user.
#[derive(Debug, Clone)]
pub enum UserLookup {
    Found { uid: u32, gid: u32 },
    Unknown,
    /// The lookup itself failed, with this reason.
    Failed(String),
}

/// What came of looking up a group.
#[derive(Debug, Clone)]
pub enum GroupLookup {
    Found { name: String, gid: u32 },
    Unknown,
    /// The lookup itself failed, with this reason.
    Failed(String),
}

/// What came of looking up the users and groups that can matter.
#[derive(Debug, Clone)]
pub struct Accounts {
    /// The configured user.
    pub user: UserLookup,
    /// The configured group.
    pub group: GroupLookup,
    /// The usual group.
    pub usual_group: GroupLookup,
    /// The primary group of the configured user.
    pub primary_group: GroupLookup,
}

/// The text of the error that a name is not known.
pub open spec fn unknown_text(name: Seq<char>) -> Seq<char> {
    "unknown user or group: "@ + name
}

/// Why the user and group cannot be resolved, if so: a configured name is unknown, or looking it up failed.
pub open spec fn resolve_error(username: Option<Seq<char>>, groupname: Option<Seq<char>>, acc: Accounts) -> Option<
    Seq<char>,
> {
    let user_error = match (username, acc.user) {
        (Some(n), UserLookup::Unknown) => Some(unknown_text(n)),
        (Some(n), UserLookup::Failed(e)) => Some("getpwnam("@ + n + "): "@ + e@),
        _ => None,
    };
    let group_error = match (groupname, acc.group) {
        (Some(n), GroupLookup::Unknown) => Some(unknown_text(n)),
        (Some(n), GroupLookup::Failed(e)) => Some("getgrnam("@ + n + "): "@ + e@),
        _ => None,
    };
    if user_error is Some {
        user_error
    } else {
        group_error
    }
}

/// The user and group that the daemon runs as: the configured ones; without a group the usual one where it
/// exists, else the primary group of the user.
pub open spec fn resolved(username: Option<Seq<char>>, groupname: Option<Seq<char>>, acc: Accounts) -> Identity {
    let (uid, user_gid) = match (username, acc.user) {
        (Some(_), UserLookup::Found { uid, gid }) => (Some(uid), Some(gid)),
        _ => (None, None),
    };
    let (group, gid) = match groupname {
        Some(n) => (
            Some(n),
            match acc.group {
                GroupLookup::Found { gid, .. } => Some(gid),
                _ => None,
            },
        ),
        None => match acc.usual_group {
            GroupLookup::Found { name, gid } => (Some(name@), Some(gid)),
            _ => (
                match (user_gid, acc.primary_group) {
                    (Some(_), GroupLookup::Found { name, .. }) => Some(name@),
                    _ => None,
                },
                user_gid,
            ),
        },
    };
    Identity { username, uid, groupname: group, gid, user_gid }
}

/// Resolves the configured user and group into ids. A name that is not known is an error, so that the
/// daemon does not go on as root by mistake.
pub fn resolve_run_as(daemon: &Daemon, acc: &Accounts) -> (r: Result<RunAs, DnsmasqError>)
    ensures
        match resolve_error(opt_text(daemon.username), opt_text(daemon.groupname), *acc) {
            Some(text) => r matches Err(DnsmasqError::PrivilegeDrop(e)) && e@ == text,
            None => r matches Ok(run_as) && run_as@ == resolved(opt_text(daemon.username), opt_text(daemon.groupname), *acc),
        },
{
    let mut run_as: RunAs = RunAs::default();
    if let Some(name) = &daemon.username {
        match &acc.user {
            UserLookup::Found { uid, gid } => {
                run_as.username = Some(name.clone());
                run_as.uid = Some(*uid);
                run_as.user_gid = Some(*gid);
            },
            UserLookup::Unknown => {
                return Err(
                    DnsmasqError::PrivilegeDrop(plus(String::from_str("unknown user or group: "), name.as_str())),
                );
            },
            UserLookup::Failed(e) => {
                return Err(
                    DnsmasqError::PrivilegeDrop(
                        plus(plus(plus(String::from_str("getpwnam("), name.as_str()), "): "), e.as_str()),
                    ),
                );
            },
        }
    }
    match &daemon.groupname {
        Some(name) => {
            match &acc.group {
                GroupLookup::Found { gid, .. } => {
                    run_as.groupname = Some(name.clone());
                    run_as.gid = Some(*gid);
                },
                GroupLookup::Unknown => {
                    return Err(
                        DnsmasqError::PrivilegeDrop(plus(String::from_str("unknown user or group: "), name.as_str())),
                    );
                },
                GroupLookup::Failed(e) => {
                    return Err(
                        DnsmasqError::PrivilegeDrop(
                            plus(plus(plus(String::from_str("getgrnam("), name.as_str()), "): "), e.as_str()),
                        ),
                    );
                },
            }
        },
        None => {
            if let GroupLookup::Found { name, gid } = &acc.usual_group {
                run_as.groupname = Some(name.clone());
                run_as.gid = Some(*gid);
            } else if let Some(gid) = run_as.user_gid {
                if let GroupLookup::Found { name, .. } = &acc.primary_group {
                    run_as.groupname = Some(name.clone());
                }
                run_as.gid = Some(gid);
            }
        },
    }
    Ok(run_as)
}

/// The capabilities that the daemon keeps when it gives up root.
#[derive(Debug, Clone, Copy, PartialEq, Eq, Structural)]
pub struct NeededCaps {
    /// To put entries into the ARP cache.
    pub net_admin: bool,
    /// To probe addresses, and to bind sockets to devices.
    pub net_raw: bool,
    /// To bind privileged ports.
    pub net_bind_service: bool,
}

impl Default for NeededCaps {
    fn default() -> (r: Self)
        ensures
            r == (NeededCaps { net_admin: false, net_raw: false, net_bind_service: false }),
    {
        NeededCaps { net_admin: false, net_raw: false, net_bind_service: false }
    }
}

impl NeededCaps {
    /// Whether no capability is kept.
    pub fn is_empty(&self) -> (r: bool)
        ensures
            r == (*self == (NeededCaps { net_admin: false, net_raw: false, net_bind_service: false })),
    {
        !self.net_admin && !self.net_raw && !self.net_bind_service
    }
}

/// Whether some server is reached through an interface of its own.
pub open spec fn has_bound_server(servers: Seq<Server>) -> bool {
    exists|i: int| 0 <= i < servers.len() && (#[trigger] servers[i]).interface@.len() > 0
}

/// The capabilities that the configuration asks for.
pub open spec fn caps_for(daemon: Daemon) -> NeededCaps {
    NeededCaps {
        net_admin: daemon.dhcp@.len() > 0,
        net_raw: (daemon.dhcp@.len() > 0 && !daemon.options.no_ping) || has_bound_server(daemon.servers@),
        net_bind_service: false,
    }
}

/// Works out which capabilities are needed without root: DHCP probes addresses, unless that is off, and
/// fills the ARP cache; sockets to servers with an interface are bound to it.
pub fn needed_capabilities(daemon: &Daemon) -> (caps: NeededCaps)
    ensures
        caps == caps_for(*daemon),
{
    let mut caps: NeededCaps = NeededCaps::default();
    if daemon.dhcp.len() > 0 {
        if !daemon.options.no_ping {
            caps.net_raw = true;
        }
        caps.net_admin = true;
    }
    let mut i: usize = 0;
    let mut bound: bool = false;
    while i < daemon.servers.len() && !bound
        invariant
            i <= daemon.servers@.len(),
            bound ==> has_bound_server(daemon.servers@),
            !bound ==> forall|j: int| 0 <= j < i ==> (#[trigger] daemon.servers@[j]).interface@.len() == 0,
        decreases daemon.servers@.len() - i, (if bound {
            0int
        } else {
            1
        }),
    {
        if !same(daemon.servers[i].interface.as_str(), "") {
            proof {
                reveal_strlit("");
                if daemon.servers@[i as int].interface@.len() == 0 {
                    assert(daemon.servers@[i as int].interface@ =~= ""@);
                }
            }
            bound = true;
        } else {
            proof {
                reveal_strlit("");
            }
            i += 1;
        }
    }
    if bound {
        caps.net_raw = true;
    }
    caps
}

/// A step on the way out of root.
#[derive(Debug, Clone, Copy, PartialEq, Eq, Structural)]
pub enum PrivStep {
    /// Leave all supplementary groups.
    ClearGroups,
    SetGid(u32),
    /// Restrict the effective set, then the permitted set, to these and, where `setuid` says so, to the
    /// capability to change the user.
    SetCaps { keep: NeededCaps, setuid: bool },
    /// Keep the permitted set when the user changes.
    KeepCaps,
    SetUid(u32),
}

/// Whether a process already runs as it should.
pub open spec fn already_there(uid: u32, gid: u32, run_as: Identity) -> bool {
    (run_as.uid is None || run_as.uid == Some(uid)) && (run_as.gid is None || run_as.gid == Some(gid))
}

/// The steps that a process with these ids takes to run as it should.
pub open spec fn priv_steps(uid: u32, gid: u32, run_as: Identity, caps: NeededCaps) -> Seq<PrivStep> {
    if already_there(uid, gid, run_as) && uid != 0 {
        seq![]
    } else {
        let group_steps = match run_as.gid {
            Some(g) => seq![PrivStep::ClearGroups, PrivStep::SetGid(g)],
            None => seq![],
        };
        let user_steps = match run_as.uid {
            Some(u) => if u != 0 {
                seq![
                    PrivStep::SetCaps { keep: caps, setuid: true },
                    PrivStep::KeepCaps,
                    PrivStep::SetUid(u),
                    PrivStep::SetCaps { keep: caps, setuid: false },
                ]
            } else {
                seq![]
            },
            None => seq![],
        };
        group_steps + user_steps
    }
}

/// The steps that a process with these ids takes to run as it should, keeping some capabilities. There are
/// none where it already does and is not root; as root it leaves its groups all the same.
pub fn drop_privileges_with(current_uid: u32, current_gid: u32, run_as: &RunAs, caps: NeededCaps) -> (steps: Vec<
    PrivStep,
>)
    ensures
        steps@ == priv_steps(current_uid, current_gid, run_as@, caps),
{
    let mut steps: Vec<PrivStep> = Vec::new();
    let uid_there: bool = match run_as.uid {
        Some(u) => u == current_uid,
        None => true,
    };
    let gid_there: bool = match run_as.gid {
        Some(g) => g == current_gid,
        None => true,
    };
    if uid_there && gid_there && current_uid != 0 {
        assert(steps@ =~= seq![]);
        return steps;
    }
    if let Some(gid) = run_as.gid {
        steps.push(PrivStep::ClearGroups);
        steps.push(PrivStep::SetGid(gid));
    }
    if let Some(uid) = run_as.uid {
        if uid != 0 {
            steps.push(PrivStep::SetCaps { keep: caps, setuid: true });
            steps.push(PrivStep::KeepCaps);
            steps.push(PrivStep::SetUid(uid));
            steps.push(PrivStep::SetCaps { keep: caps, setuid: false });
        }
    }
    assert(steps@ =~= priv_steps(current_uid, current_gid, run_as@, caps));
    steps
}

/// The steps that a process with these ids takes to run as a user and a group, keeping no capability.
pub fn drop_privileges(current_uid: u32, current_gid: u32, uid: u32, gid: u32) -> (steps: Vec<PrivStep>)
    ensures
        steps@ == priv_steps(
            current_uid,
            current_gid,
            (Identity { username: None, uid: Some(uid), groupname: None, gid: Some(gid), user_gid: None }),
            (NeededCaps { net_admin: false, net_raw: false, net_bind_service: false }),
        ),
{
    let mut run_as: RunAs = RunAs::default();
    run_as.uid = Some(uid);
    run_as.gid = Some(gid);
    drop_privileges_with(current_uid, current_gid, &run_as, NeededCaps::default())
}

/// A process that changes its user first leaves its groups and changes its group, where a group is given,
/// and afterwards cannot change its user again.
pub proof fn law_no_way_back_to_root(uid: u32, gid: u32, run_as: Identity, caps: NeededCaps)
    requires
        run_as.uid is Some,
        run_as.uid->0 != 0,
        !(already_there(uid, gid, run_as) && uid != 0),
    ensures
        ({
            let steps = priv_steps(uid, gid, run_as, caps);
            &&& steps.last() == PrivStep::SetCaps { keep: caps, setuid: false }
            &&& steps[steps.len() - 2] == PrivStep::SetUid(run_as.uid->0)
            &&& run_as.gid matches Some(g) ==> steps[0] == PrivStep::ClearGroups && steps[1] == PrivStep::SetGid(g)
        }),
{
}

} // verus!
