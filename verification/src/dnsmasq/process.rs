//! The pid file, the pipe to the process that was started, and the probes of addresses.

use crate::addr::Ip4;
use crate::error::DnsmasqError;
use crate::text::{
    decimal, digits_value, is_space, number_error, number_error_text, parse_u32, plus, to_decimal, to_trim, to_trim_end,
    trim_end, trim_start, u32_of,
};
use vstd::prelude::*;

verus! {

/// What is written to the pid file.
pub open spec fn pid_text(pid: u32) -> Seq<char> {
    decimal(pid as nat) + "\n"@
}

/// What came of writing a file.
#[derive(Debug)]
pub enum FileWrite {
    Done,
    /// The file could not be made, for this reason.
    NotCreated(String),
    /// The file could not be written, for this reason.
    NotWritten(String),
}

/// The result of writing the pid file, for what came of it.
pub open spec fn pid_file_result(path: Seq<char>, w: FileWrite, r: Result<(), DnsmasqError>) -> bool {
    match w {
        FileWrite::Done => r is Ok,
        FileWrite::NotCreated(e) => r matches Err(DnsmasqError::PidFile(t)) && t@ == "create "@ + path + ": "@ + e@,
        FileWrite::NotWritten(e) => r matches Err(DnsmasqError::PidFile(t)) && t@ == "write "@ + path + ": "@ + e@,
    }
}

/// Writes the pid file with `store`, which gets the path, the text and the owner of the file.
pub fn write_pid_file_as<F: Fn(&str, &str, Option<(u32, u32)>) -> FileWrite>(
    path: &str,
    pid: u32,
    owner: Option<(u32, u32)>,
    store: F,
) -> (r: Result<(), DnsmasqError>)
    requires
        forall|p: &str, t: &str, o: Option<(u32, u32)>| #[trigger] call_requires(store, (p, t, o)),
    ensures
        exists|t: &str, w: FileWrite| #[trigger]
            call_ensures(store, (path, t, owner), w) && t@ == pid_text(pid) && pid_file_result(path@, w, r),
{
    let number: String = to_decimal(pid as u64);
    let line: String = plus(number, "\n");
    let text: &str = line.as_str();
    let w: FileWrite = store(path, text, owner);
    let ghost was = w;
    assert(call_ensures(store, (path, text, owner), was));
    match w {
        FileWrite::Done => Ok(()),
        FileWrite::NotCreated(e) => {
            let t: String = plus(plus(plus(String::from_str("create "), path), ": "), e.as_str());
            Err(DnsmasqError::PidFile(t))
        },
        FileWrite::NotWritten(e) => {
            let t: String = plus(plus(plus(String::from_str("write "), path), ": "), e.as_str());
            Err(DnsmasqError::PidFile(t))
        },
    }
}

/// Writes the pid file with `store`, and leaves its owner alone.
pub fn write_pid_file<F: Fn(&str, &str, Option<(u32, u32)>) -> FileWrite>(path: &str, pid: u32, store: F) -> (r: Result<
    (),
    DnsmasqError,
>)
    requires
        forall|p: &str, t: &str, o: Option<(u32, u32)>| #[trigger] call_requires(store, (p, t, o)),
    ensures
        exists|t: &str, w: FileWrite| #[trigger]
            call_ensures(store, (path, t, None::<(u32, u32)>), w) && t@ == pid_text(pid) && pid_file_result(path@, w, r),
{
    write_pid_file_as(path, pid, None, store)
}

/// The pid that the text of a pid file holds.
pub open spec fn pid_in(text: Seq<char>) -> Option<u32> {
    u32_of(trim_start(trim_end(text)))
}

/// Reads the pid from what came of reading the pid file.
pub fn read_pid_file(path: &str, text: Result<String, String>) -> (r: Result<u32, DnsmasqError>)
    ensures
        match text {
            Ok(t) => match pid_in(t@) {
                Some(pid) => r == Ok::<u32, DnsmasqError>(pid),
                None => r matches Err(DnsmasqError::PidFile(e)) && e@ == "parse pid in "@ + path@ + ": "@ + number_error_text(
                    trim_start(trim_end(t@)),
                ),
            },
            Err(why) => r matches Err(DnsmasqError::PidFile(e)) && e@ == "read "@ + path@ + ": "@ + why@,
        },
{
    match text {
        Ok(t) => {
            let trimmed: String = to_trim(t.as_str());
            match parse_u32(trimmed.as_str()) {
                Some(pid) => Ok(pid),
                None => {
                    let why: String = number_error(trimmed.as_str());
                    let e: String = plus(plus(plus(String::from_str("parse pid in "), path), ": "), why.as_str());
                    Err(DnsmasqError::PidFile(e))
                },
            }
        },
        Err(why) => {
            let e: String = plus(plus(plus(String::from_str("read "), path), ": "), why.as_str());
            Err(DnsmasqError::PidFile(e))
        },
    }
}

/// The digits of a number stand for it.
proof fn lemma_decimal_value(n: nat)
    ensures
        decimal(n).len() > 0,
        digits_value(decimal(n)) == Some(n),
        forall|i: int| 0 <= i < decimal(n).len() ==> '0' <= #[trigger] decimal(n)[i] <= '9',
    decreases n,
{
    let d = decimal(n);
    if n >= 10 {
        lemma_decimal_value(n / 10);
        assert(d.drop_last() =~= decimal(n / 10));
        assert forall|i: int| 0 <= i < d.len() implies '0' <= #[trigger] d[i] <= '9' by {
            if i < d.len() - 1 {
                assert(d[i] == decimal(n / 10)[i]);
            }
        }
    } else {
        assert(d.drop_last() =~= Seq::<char>::empty());
        assert(digits_value(d.drop_last()) == Some(0nat));
    }
}

/// The pid that was written to the pid file is read back.
pub proof fn law_pid_file_round_trip(pid: u32)
    ensures
        pid_in(pid_text(pid)) == Some(pid),
{
    reveal_strlit("\n");
    let d = decimal(pid as nat);
    lemma_decimal_value(pid as nat);
    let t = pid_text(pid);
    assert(t.drop_last() =~= d);
    assert(t.last() == '\n');
    assert(is_space('\n'));
    assert(!is_space(d.last()));
    reveal_with_fuel(trim_end, 2);
    assert(trim_end(t) == d);
    assert(!is_space(d[0]));
    assert(trim_start(d) == d);
    assert(d[0] != '+');
}

/// What the process that the user started is told by the one in the background, which then says nothing
/// when it is up.
pub open spec fn startup_line(msg: Seq<char>) -> Option<Seq<char>> {
    if msg.len() == 0 {
        None
    } else {
        Some("dnsmasq-rs: "@ + trim_end(msg))
    }
}

/// What the process that the user started says and how it ends: with success and nothing where it was told
/// nothing, else with the error that it was told.
pub fn startup_outcome(msg: &str) -> (r: (i32, Option<String>))
    ensures
        match startup_line(msg@) {
            None => r.0 == 0 && r.1 is None,
            Some(line) => r.0 == 1 && r.1 is Some && r.1->0@ == line,
        },
{
    let chars: Vec<char> = crate::text::to_chars(msg);
    if chars.len() == 0 {
        return (0, None);
    }
    let t: String = to_trim_end(msg);
    (1, Some(plus(String::from_str("dnsmasq-rs: "), t.as_str())))
}

/// Probes whether an address is in use.
#[derive(Debug, Clone, Copy, PartialEq, Eq, Structural)]
pub struct IcmpPinger {
    /// How long to wait for a reply, in milliseconds.
    pub timeout: u64,
}

/// What a probe sees next.
#[derive(Debug, Clone, Copy, PartialEq, Eq, Structural)]
pub enum PingEvent {
    /// The time is over.
    Expired,
    /// A packet came from this address; `is_reply` says whether it answers the request.
    Packet { from: Option<Ip4>, is_reply: bool },
    /// Nothing could be received.
    Failed,
}

impl IcmpPinger {
    /// A probe that waits so many milliseconds.
    pub fn new(timeout_ms: u64) -> (p: Self)
        ensures
            p.timeout == timeout_ms,
    {
        IcmpPinger { timeout: timeout_ms }
    }

    /// What a probe of an address concludes: whether the address is in use, or nothing yet. Only a reply
    /// from the address itself shows that it is.
    pub fn conclude(&self, addr: Ip4, event: PingEvent) -> (r: Option<bool>)
        ensures
            r == match event {
                PingEvent::Expired => Some(false),
                PingEvent::Failed => Some(false),
                PingEvent::Packet { from, is_reply } => if from == Some(addr) && is_reply {
                    Some(true)
                } else {
                    None
                },
            },
    {
        match event {
            PingEvent::Expired => Some(false),
            PingEvent::Failed => Some(false),
            PingEvent::Packet { from, is_reply } => {
                match from {
                    Some(a) => {
                        if a == addr && is_reply {
                            Some(true)
                        } else {
                            None
                        }
                    },
                    None => None,
                }
            },
        }
    }
}

} // verus!
