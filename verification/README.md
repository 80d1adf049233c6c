# dnsmasq

The rules by which a small DNS forwarder and DHCP server works, written in
[Verus](https://github.com/verus-lang/verus) and proved against their contracts.

- `src/` is the library. Every function states what it returns or changes, and Verus checks it. It does no
  input or output.
- `app/` is the daemon around the library: sockets, files, processes, signals and tasks.
- `tests/` runs the library on concrete values.

## Modules

| Module | What it holds |
| --- | --- |
| `dns_protocol` | numbers, flags and headers of DNS messages |
| `wire`, `names`, `text`, `addr` | names, texts, integers and addresses, and how they are written |
| `rfc1035`, `records` | resource records and configured records |
| `dnssec` | parsing, canonical forms, signatures, denial of existence, and the validation of replies |
| `crypto` | digests and signatures, computed by outside crates |
| `dhcp_protocol`, `dhcp6_protocol` | numbers of DHCP messages and options |
| `dhcp_common`, `dhcp_types` | options, tags, host configurations, and what is logged of ranges |
| `dhcp6`, `lease`, `rfc3315` | the DHCPv6 server: address pools, leases, messages and replies |
| `daemon`, `dnsmasq` | the configuration, startup and shutdown, listeners, privileges, reloads and router advertisements |

## Laws

Besides the contracts, public proof functions whose names begin with `law_` state what holds of several functions
together: that names come back from the wire, that a reply is secure only where every part of it is signed, that no
address is leased twice, that a reload keeps what was configured, that every service that was started is stopped.

## What is trusted

Digests and signatures come from `sha1`, `sha2`, `rsa`, `p256`, `p384` and `ed25519-dalek`. A few functions on strings
come from the standard library. Each is called in one place, in a function marked `external_body` whose comment says
what is taken for granted.
