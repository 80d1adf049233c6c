//! The life of the daemon: startup, the services it runs, reloads and shutdown.

pub mod bind;
pub mod forwarding;
pub mod identity;
pub mod listen;
pub mod listen_laws;
pub mod main_loop;
pub mod process;
pub mod radv;
pub mod reload;
pub mod reload_laws;
pub mod service_laws;
pub mod services;
pub mod startup;
pub mod startup_laws;

use vstd::prelude::*;

pub use bind::{bind_dns_listeners, bind_tftp_listeners, device_bound, sock_addr_str};
pub use forwarding::{
    daemon_cache_size, daemon_forward_config, daemon_local_data, ForwardConfig, LocalData, DEFAULT_CACHE_SIZE,
};
pub use identity::{
    drop_privileges, drop_privileges_with, needed_capabilities, resolve_run_as, Accounts, GroupLookup, NeededCaps,
    PrivStep, RunAs, UserLookup, CHGRP,
};
pub use listen::{
    after_bind, check_dns_sockets, check_unmatched, check_wildcard, daemon_tftp_config, iface_allowed_config, iface_check_config,
    plan_dns_listeners, plan_tftp_listeners, BindTarget, BoundDnsSocket, IfaceAllowedConfig, IfaceCheckConfig, Interface,
    ListenOutcome, ListenPlan, Listeners, TftpConfig,
};
pub use main_loop::{Command, MainEvent, MainLoop, Phase};
pub use process::{
    read_pid_file, startup_outcome, write_pid_file, write_pid_file_as, FileWrite, IcmpPinger, PingEvent,
};
pub use radv::{
    advertised_hop_limit, answer_nd_packet, nd_filter, next_ra_delay, ra_mtu_name, ra_reply_dest, ra_send_addr,
    ra_send_targets, radv_dest_needs_scope_id, resolve_ra_mtu, solicitor, Arrival, RaAnswer,
};
pub use reload::{
    clear_cache_and_reload, hosts_paths, on_sighup, reload_servers, send_alarm, FileTime, ResolvMonitor, ResolvRead,
};
pub use services::{
    daemon_radv_config, dbus_service_name, on_signal, startup_plan, startup_steps, stop_after_failure, stop_at_end,
    wants_echo_replies, Caught, Plan, RadvConfig, Running, Step, StopStep, Task, DNSMASQ_DBUS_INTERFACE,
};
pub use startup::{
    daemon_dhcp6_runtime_with, daemon_dhcp_runtime, first_bind_interface, first_ipv4_listen_addr, init_daemon,
    init_daemon_with, served_contexts, Dhcp6DaemonRuntime, DhcpDaemonRuntime, DhcpLoopOptions, DhcpServerConfig,
};

verus! {

/// What the main loop can be told.
#[derive(Debug, Clone, Copy, PartialEq, Eq, Structural)]
pub enum DaemonEvent {
    /// Read the configuration files again, and flush the cache.
    Reload,
    /// Do what is due from time to time.
    Alarm,
    /// Shut down.
    Term,
    /// A child process ended with this status.
    Child(i32),
    /// The addresses of the network changed.
    NewAddr,
    /// Write the cache to the log.
    Dump,
    /// The clock was set.
    TimeSet,
}

/// How the main loop ended.
#[derive(Debug, Clone, Copy, PartialEq, Eq, Structural)]
pub enum RunResult {
    /// It was told to.
    Clean,
    /// Something that it needs failed.
    IoError,
}

} // verus!
