//! Network addresses and their text form.

use crate::text::{decimal, hex, join_strings, join_with, plus, to_decimal, to_hex, views};
use vstd::prelude::*;

verus! {

/// An IPv4 address, its first octet in the highest bits.
#[derive(Debug, Clone, Copy, PartialEq, Eq, Structural)]
pub struct Ip4 {
    pub bits: u32,
}

/// An IPv6 address, its first octet in the highest bits.
#[derive(Debug, Clone, Copy, PartialEq, Eq, Structural)]
pub struct Ip6 {
    pub bits: u128,
}

/// An address of either family.
#[derive(Debug, Clone, Copy, PartialEq, Eq, Structural)]
pub enum IpAddress {
    V4(Ip4),
    V6(Ip6),
}

/// An address and a port.
#[derive(Debug, Clone, Copy, PartialEq, Eq, Structural)]
pub enum SockAddr {
    V4 { ip: Ip4, port: u16 },
    V6 { ip: Ip6, port: u16, scope_id: u32 },
}

/// The address that a configuration entry or a record holds.
#[derive(Debug, Clone, Copy, PartialEq, Eq, Structural)]
pub enum AllAddr {
    Addr4(Ip4),
    Addr6(Ip6),
    /// The entry holds something other than an address.
    Other,
}

/// Octet `i` of an IPv4 address.
pub open spec fn octet4(a: Ip4, i: int) -> u8 {
    if i == 0 {
        (a.bits / 0x100_0000) as u8
    } else if i == 1 {
        (a.bits / 0x1_0000 % 256) as u8
    } else if i == 2 {
        (a.bits / 0x100 % 256) as u8
    } else {
        (a.bits % 256) as u8
    }
}

impl Ip4 {
    /// The address 0.0.0.0.
    pub fn unspecified() -> (r: Self)
        ensures
            r.bits == 0,
    {
        Ip4 { bits: 0 }
    }

    /// The address with these octets.
    pub fn new(a: u8, b: u8, c: u8, d: u8) -> (r: Self)
        ensures
            r.bits == a * 0x100_0000 + b * 0x1_0000 + c * 0x100 + d,
    {
        Ip4 { bits: a as u32 * 0x100_0000 + b as u32 * 0x1_0000 + c as u32 * 0x100 + d as u32 }
    }

    /// The address in dotted decimal.
    pub fn text(&self) -> (s: String)
        ensures
            s@ == ip4_text(*self),
    {
        let mut parts: Vec<String> = Vec::new();
        parts.push(to_decimal((self.bits / 0x100_0000) as u64));
        parts.push(to_decimal((self.bits / 0x1_0000 % 256) as u64));
        parts.push(to_decimal((self.bits / 0x100 % 256) as u64));
        parts.push(to_decimal((self.bits % 256) as u64));
        assert(views(parts@) =~= Seq::new(4, |i: int| decimal(octet4(*self, i) as nat)));
        join_strings(&parts, ".")
    }
}

/// An IPv4 address in dotted decimal.
pub open spec fn ip4_text(a: Ip4) -> Seq<char> {
    join_with(Seq::new(4, |i: int| decimal(octet4(a, i) as nat)), "."@)
}

/// The eight 16-bit groups of an IPv6 address.
pub open spec fn groups(a: Ip6) -> Seq<u16> {
    seq![
        (a.bits / 0x1_0000_0000_0000_0000_0000_0000_0000) as u16,
        (a.bits / 0x1_0000_0000_0000_0000_0000_0000 % 0x1_0000) as u16,
        (a.bits / 0x1_0000_0000_0000_0000_0000 % 0x1_0000) as u16,
        (a.bits / 0x1_0000_0000_0000_0000 % 0x1_0000) as u16,
        (a.bits / 0x1_0000_0000_0000 % 0x1_0000) as u16,
        (a.bits / 0x1_0000_0000 % 0x1_0000) as u16,
        (a.bits / 0x1_0000 % 0x1_0000) as u16,
        (a.bits % 0x1_0000) as u16,
    ]
}

/// How many groups from number `i` on are zero.
pub open spec fn zero_run(g: Seq<u16>, i: int) -> nat
    decreases g.len() - i,
{
    if 0 <= i < g.len() && g[i] == 0 {
        1 + zero_run(g, i + 1)
    } else {
        0
    }
}

/// The start and length of the longest run of zero groups that starts at number `i` or later, the
/// first of several.
pub open spec fn longest_run(g: Seq<u16>, i: int) -> (int, nat)
    decreases g.len() - i,
{
    if !(0 <= i < g.len()) {
        (g.len() as int, 0)
    } else {
        let later = longest_run(g, i + 1);
        if zero_run(g, i) >= later.1 {
            (i, zero_run(g, i))
        } else {
            later
        }
    }
}

/// Groups in hexadecimal with colons between them.
pub open spec fn groups_text(g: Seq<u16>) -> Seq<char> {
    join_with(Seq::new(g.len(), |i: int| hex(g[i] as nat)), ":"@)
}

/// An IPv6 address in its canonical text form (RFC 5952): the longest run of two or more zero groups
/// is written `::`, and an IPv4-mapped address ends in dotted decimal.
pub open spec fn ip6_text(a: Ip6) -> Seq<char> {
    if a.bits / 0x1_0000_0000 == 0xffff {
        "::ffff:"@ + ip4_text(Ip4 { bits: (a.bits % 0x1_0000_0000) as u32 })
    } else {
        let g = groups(a);
        let (start, len) = longest_run(g, 0);
        if len > 1 {
            groups_text(g.take(start)) + "::"@ + groups_text(g.skip(start + len))
        } else {
            groups_text(g)
        }
    }
}

/// Groups in hexadecimal with colons between them.
fn write_groups(g: &Vec<u16>, from: usize, to: usize) -> (s: String)
    requires
        from <= to <= g@.len(),
    ensures
        s@ == groups_text(g@.subrange(from as int, to as int)),
{
    let ghost sub = g@.subrange(from as int, to as int);
    let ghost all = Seq::new(sub.len(), |i: int| hex(sub[i] as nat));
    let mut parts: Vec<String> = Vec::new();
    let mut i: usize = from;
    assert(views(parts@) =~= all.take(0));
    while i < to
        invariant
            from <= i <= to <= g@.len(),
            sub == g@.subrange(from as int, to as int),
            all == Seq::new(sub.len(), |i: int| hex(sub[i] as nat)),
            views(parts@) == all.take(i - from),
        decreases to - i,
    {
        let h: String = to_hex(g[i]);
        proof {
            assert(views(parts@.push(h)) =~= views(parts@).push(h@));
            assert(all.take(i - from + 1) =~= all.take(i - from).push(all[i - from]));
        }
        parts.push(h);
        i += 1;
    }
    assert(all.take(all.len() as int) =~= all);
    join_strings(&parts, ":")
}

/// A run of zero groups lies inside the groups.
proof fn lemma_longest_run_fits(g: Seq<u16>, i: int)
    requires
        0 <= i <= g.len(),
    ensures
        i <= longest_run(g, i).0 <= g.len(),
        longest_run(g, i).0 + longest_run(g, i).1 <= g.len(),
        i + zero_run(g, i) <= g.len(),
    decreases g.len() - i,
{
    if i < g.len() {
        lemma_longest_run_fits(g, i + 1);
    }
}

impl Ip6 {
    /// The address `::`.
    pub fn unspecified() -> (r: Self)
        ensures
            r.bits == 0,
    {
        Ip6 { bits: 0 }
    }

    /// The eight 16-bit groups of the address.
    pub fn segments(&self) -> (g: Vec<u16>)
        ensures
            g@ == groups(*self),
    {
        let mut g: Vec<u16> = Vec::new();
        g.push((self.bits / 0x1_0000_0000_0000_0000_0000_0000_0000) as u16);
        g.push((self.bits / 0x1_0000_0000_0000_0000_0000_0000 % 0x1_0000) as u16);
        g.push((self.bits / 0x1_0000_0000_0000_0000_0000 % 0x1_0000) as u16);
        g.push((self.bits / 0x1_0000_0000_0000_0000 % 0x1_0000) as u16);
        g.push((self.bits / 0x1_0000_0000_0000 % 0x1_0000) as u16);
        g.push((self.bits / 0x1_0000_0000 % 0x1_0000) as u16);
        g.push((self.bits / 0x1_0000 % 0x1_0000) as u16);
        g.push((self.bits % 0x1_0000) as u16);
        assert(g@ =~= groups(*self));
        g
    }

    /// The address in its canonical text form.
    pub fn text(&self) -> (s: String)
        ensures
            s@ == ip6_text(*self),
    {
        if self.bits / 0x1_0000_0000 == 0xffff {
            let low: Ip4 = Ip4 { bits: (self.bits % 0x1_0000_0000) as u32 };
            let t: String = low.text();
            return plus(String::from_str("::ffff:"), t.as_str());
        }
        let g: Vec<u16> = self.segments();
        let mut start: usize = 8;
        let mut len: usize = 0;
        let mut run: usize = 0;
        let mut i: usize = 8;
        while i > 0
            invariant
                i <= 8,
                g@.len() == 8,
                run == zero_run(g@, i as int),
                run <= 8 - i,
                (start as int, len as nat) == longest_run(g@, i as int),
            decreases i,
        {
            i -= 1;
            if g[i] == 0 {
                run += 1;
            } else {
                run = 0;
            }
            if run >= len {
                start = i;
                len = run;
            }
        }
        proof {
            lemma_longest_run_fits(g@, 0);
        }
        if len > 1 {
            let head: String = write_groups(&g, 0, start);
            let tail: String = write_groups(&g, start + len, 8);
            proof {
                assert(g@.subrange(0, start as int) =~= g@.take(start as int));
                assert(g@.subrange(start + len, 8) =~= g@.skip(start + len));
            }
            plus(plus(head, "::"), tail.as_str())
        } else {
            assert(g@.subrange(0, 8) =~= g@);
            write_groups(&g, 0, 8)
        }
    }
}

/// An address in text form.
pub open spec fn addr_text(a: AllAddr) -> Seq<char> {
    match a {
        AllAddr::Addr4(x) => ip4_text(x),
        AllAddr::Addr6(x) => ip6_text(x),
        AllAddr::Other => "unknown"@,
    }
}

/// An address in text form, for log messages.
pub fn all_addr_str(addr: &AllAddr) -> (s: String)
    ensures
        s@ == addr_text(*addr),
{
    match addr {
        AllAddr::Addr4(a) => a.text(),
        AllAddr::Addr6(a) => a.text(),
        AllAddr::Other => String::from_str("unknown"),
    }
}

} // verus!
