//! From a datagram to the datagram that answers it.

use super::dispatch::{dispatch_dhcp6, outcome, server, Message, Server};
use super::packet::{
    dhcp6_reply_dest, parse_dhcp6_packet, parsed, reply_bytes, reply_dest, Dhcp6Packet, Dhcp6Reply, Parsed,
};
use crate::addr::SockAddr;
use crate::dhcp_types::{DhcpConfig, DhcpContext};
use crate::lease::{LeaseDb, LeaseView};
use vstd::prelude::*;

verus! {

/// What is sent in answer to a datagram, and where to, and the leases afterwards. Datagrams that are no
/// messages of clients are not answered.
pub open spec fn served(
    srv: Server,
    ls: Seq<LeaseView>,
    data: Seq<u8>,
    src: SockAddr,
    port_override: Option<u16>,
) -> (Option<(Seq<u8>, SockAddr)>, Seq<LeaseView>) {
    match parsed(data) {
        Parsed::Message { msg_type, xid, options } => {
            let o = outcome(srv, ls, (Message { msg_type, xid, options }));
            (
                match o.reply {
                    Some(r) => Some((reply_bytes(r), reply_dest(src, port_override))),
                    None => None,
                },
                o.leases,
            )
        },
        _ => (None, ls),
    }
}

/// Answers a datagram: what to send, and where to. The port is that of clients, or the one given instead.
pub fn serve_datagram(
    data: &[u8],
    src: SockAddr,
    duid: &[u8],
    contexts: &[DhcpContext],
    configs: &[DhcpConfig],
    lease_db: &mut LeaseDb,
    authoritative: bool,
    now_secs: u64,
    port_override: Option<u16>,
) -> (r: Option<(Vec<u8>, SockAddr)>)
    ensures
        ({
            let (answer, ls) = served(
                server(duid@, contexts@, configs@, authoritative, now_secs),
                old(lease_db)@,
                data@,
                src,
                port_override,
            );
            &&& final(lease_db)@ == ls
            &&& match r {
                Some((bytes, to)) => answer == Some((bytes@, to)),
                None => answer is None,
            }
        }),
{
    let pkt: Dhcp6Packet = match parse_dhcp6_packet(data) {
        Ok(p) => p,
        Err(_) => {
            return None;
        },
    };
    let reply: Option<Dhcp6Reply> = dispatch_dhcp6(
        &pkt,
        duid,
        contexts,
        configs,
        lease_db,
        authoritative,
        now_secs,
    );
    match reply {
        Some(answer) => {
            let bytes: Vec<u8> = answer.to_wire();
            Some((bytes, dhcp6_reply_dest(src, port_override)))
        },
        None => None,
    }
}

/// A datagram that is no message of a client is not answered and changes no lease.
pub proof fn law_others_are_ignored(srv: Server, ls: Seq<LeaseView>, data: Seq<u8>, src: SockAddr, port: Option<u16>)
    requires
        !(parsed(data) is Message),
    ensures
        served(srv, ls, data, src, port) == (None::<(Seq<u8>, SockAddr)>, ls),
{
}

} // verus!
