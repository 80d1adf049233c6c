//! The errors of the daemon.

use crate::text::plus;
use vstd::prelude::*;

verus! {

/// What went wrong.
#[derive(Debug)]
pub enum DnsmasqError {
    /// Privileges could not be dropped.
    PrivilegeDrop(String),
    /// The pid file could not be written or read.
    PidFile(String),
    /// The process could not be put into the background.
    Daemonize(String),
    /// The configuration contradicts itself.
    BadConfig(String),
    /// The network is not as the configuration says.
    BadNet(String),
    /// A socket could not be bound: to what, and why.
    Bind(String, String),
}

/// The text of an error.
pub open spec fn error_text(e: DnsmasqError) -> Seq<char> {
    match e {
        DnsmasqError::PrivilegeDrop(s) => "privilege drop error: "@ + s@,
        DnsmasqError::PidFile(s) => "pid file error: "@ + s@,
        DnsmasqError::Daemonize(s) => "daemonize error: "@ + s@,
        DnsmasqError::BadConfig(s) => "bad configuration: "@ + s@,
        DnsmasqError::BadNet(s) => "network error: "@ + s@,
        DnsmasqError::Bind(a, s) => "cannot bind "@ + a@ + ": "@ + s@,
    }
}

impl DnsmasqError {
    /// The text of the error.
    pub fn message(&self) -> (r: String)
        ensures
            r@ == error_text(*self),
    {
        match self {
            DnsmasqError::PrivilegeDrop(s) => plus(String::from_str("privilege drop error: "), s.as_str()),
            DnsmasqError::PidFile(s) => plus(String::from_str("pid file error: "), s.as_str()),
            DnsmasqError::Daemonize(s) => plus(String::from_str("daemonize error: "), s.as_str()),
            DnsmasqError::BadConfig(s) => plus(String::from_str("bad configuration: "), s.as_str()),
            DnsmasqError::BadNet(s) => plus(String::from_str("network error: "), s.as_str()),
            DnsmasqError::Bind(a, s) => plus(
                plus(plus(String::from_str("cannot bind "), a.as_str()), ": "),
                s.as_str(),
            ),
        }
    }
}

} // verus!
