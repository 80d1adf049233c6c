//! How options are read, and how values are written.

use super::describe::{
    address_texts, be_value, hex_dump, hex_text, ip6_at, labels_from, printable, strings_from, tail_value, time_parts, time_text,
};
use super::logs::{context_lines, range_line, subnet6};
use super::options::{option_in, options_from};
use super::opttab::{has_flag, row_named, row_numbered, shown, Row, OT_INTERNAL};
use crate::addr::{ip4_text, ip6_text, Ip4, Ip6};
use crate::dhcp_types::ContextView;
use crate::text::{decimal, digits_value, hex_byte, hex_char, join_with, lower, utf8_lossy};
use crate::util::{lease_time_text, wild_match};
use crate::wire::{be16, be16_bytes, be32};
use vstd::prelude::*;

verus! {

/// Options that stand behind other bytes are the same options.
proof fn lemma_options_after(before: Seq<u8>, s: Seq<u8>, i: int)
    requires
        0 <= i,
    ensures
        options_from(before + s, before.len() + i) == options_from(s, i),
    decreases s.len() - i,
{
    let all = before + s;
    let at = before.len() + i;
    if i < s.len() {
        assert(all[at as int] == s[i]);
        if s[i] == 255 {
        } else if s[i] == 0 {
            lemma_options_after(before, s, i + 1);
        } else if i + 1 < s.len() {
            assert(all[at + 1] == s[i + 1]);
            if i + 2 + s[i + 1] <= s.len() {
                let end = i + 2 + s[i + 1];
                lemma_options_after(before, s, end);
                assert(all.subrange(at + 2, before.len() + end) =~= s.subrange(i + 2, end));
            }
        }
    }
}

/// An option is found by its code where it is the first with it: one at the start of an options field hides later ones with its
/// code and no others, padding is passed over, nothing is found behind the end marker, and an option that is cut off is not
/// found, nor what follows it.
pub proof fn law_option_is_found(code: u8, data: Seq<u8>, rest: Seq<u8>, other: u8, cut: Seq<u8>)
    requires
        code != 0 && code != 255,
        data.len() <= 255,
        cut.len() < data.len(),
    ensures
        option_in(seq![code, data.len() as u8] + data + rest, code) == Some(data),
        other != code ==> option_in(seq![code, data.len() as u8] + data + rest, other) == option_in(rest, other),
        option_in(seq![0u8] + rest, other) == option_in(rest, other),
        option_in(seq![255u8] + rest, other) is None,
        option_in(seq![code, data.len() as u8] + cut, other) is None,
        option_in(seq![code], other) is None,
        option_in(seq![], other) is None,
{
    let head = seq![code, data.len() as u8];
    let s = head + data + rest;
    lemma_options_after(head + data, rest, 0);
    assert(s.subrange(2, 2 + data.len() as int) =~= data);
    assert(s[0] == code && s[1] == data.len());
    let entries = options_from(s, 0);
    assert(entries =~= seq![(code, data)] + options_from(rest, 0));
    assert(entries.skip(1) =~= options_from(rest, 0));
    lemma_options_after(seq![0u8], rest, 0);
    let padded = seq![0u8] + rest;
    assert(padded[0] == 0);
    assert(options_from(padded, 0) == options_from(padded, 1));
    let ended = seq![255u8] + rest;
    assert(ended[0] == 255);
    let short = head + cut;
    assert(short[0] == code && short[1] == data.len());
    assert(seq![code][0] == code);
}

/// A number in decimal is read back, and has no zero in front but for zero itself.
pub proof fn law_decimal_is_read_back(n: nat)
    ensures
        digits_value(decimal(n)) == Some(n),
        decimal(n).len() > 0,
        n > 0 ==> decimal(n)[0] != '0',
    decreases n,
{
    if n < 10 {
        let s = decimal(n);
        assert(s.drop_last() =~= Seq::<char>::empty());
        assert(digits_value(s.drop_last()) == Some(0nat));
    } else {
        law_decimal_is_read_back(n / 10);
        let s = decimal(n);
        assert(s.drop_last() =~= decimal(n / 10));
        assert(n == n / 10 * 10 + n % 10);
    }
}

/// The value of a hexadecimal digit.
pub open spec fn hex_value(c: char) -> int {
    if '0' <= c <= '9' {
        c as int - 48
    } else if 'a' <= c <= 'f' {
        c as int - 87
    } else {
        -1
    }
}

/// A byte in hexadecimal is two digits in lower case, of which it is read back.
pub proof fn law_hex_is_read_back(b: u8)
    ensures
        hex_byte(b).len() == 2,
        0 <= hex_value(hex_byte(b)[0]) < 16,
        0 <= hex_value(hex_byte(b)[1]) < 16,
        hex_value(hex_byte(b)[0]) * 16 + hex_value(hex_byte(b)[1]) == b,
{
    lemma_hex_char((b / 16) as nat);
    lemma_hex_char((b % 16) as nat);
}

/// A hexadecimal digit is read back.
proof fn lemma_hex_char(d: nat)
    requires
        d < 16,
    ensures
        hex_value(hex_char(d)) == d,
{
    if d < 10 {
        assert(hex_char(d) as int == 48 + d);
    } else {
        assert(hex_char(d) as int == 87 + d);
    }
}

/// Parts are joined from the front as well: the first, the separator, and the rest.
pub proof fn law_join_from_the_front(first: Seq<char>, rest: Seq<Seq<char>>, sep: Seq<char>)
    ensures
        join_with(seq![], sep) == Seq::<char>::empty(),
        join_with(seq![first], sep) == first,
        rest.len() > 0 ==> join_with(seq![first] + rest, sep) == first + sep + join_with(rest, sep),
    decreases rest.len(),
{
    if rest.len() > 0 {
        let all = seq![first] + rest;
        assert(all.last() == rest.last());
        if rest.len() == 1 {
            assert(all.drop_last() =~= seq![first]);
            assert(rest.last() == rest[0]);
        } else {
            assert(all.drop_last() =~= seq![first] + rest.drop_last());
            law_join_from_the_front(first, rest.drop_last(), sep);
            assert(join_with(all, sep) =~= first + sep + join_with(rest, sep));
        }
    }
}

/// A duration is written as the hours, minutes and seconds of which it is made, without those that are none.
pub proof fn law_duration_text(h: u32, m: u32, s: u32)
    requires
        m < 60 && s < 60,
        h * 3600 + m * 60 + s <= u32::MAX,
    ensures
        ({
            let secs = (h * 3600 + m * 60 + s) as u32;
            &&& h > 0 && m > 0 && s > 0 ==> time_parts(secs) == seq![
                decimal(h as nat) + "h"@,
                decimal(m as nat) + "m"@,
                decimal(s as nat) + "s"@,
            ]
            &&& h > 0 && m > 0 && s == 0 ==> time_parts(secs) == seq![decimal(h as nat) + "h"@, decimal(m as nat) + "m"@]
            &&& h > 0 && m == 0 && s > 0 ==> time_parts(secs) == seq![decimal(h as nat) + "h"@, decimal(s as nat) + "s"@]
            &&& h == 0 && m > 0 && s > 0 ==> time_parts(secs) == seq![decimal(m as nat) + "m"@, decimal(s as nat) + "s"@]
            &&& h > 0 && m == 0 && s == 0 ==> time_text(secs) == decimal(h as nat) + "h"@
            &&& h == 0 && m > 0 && s == 0 ==> time_text(secs) == decimal(m as nat) + "m"@
            &&& h == 0 && m == 0 && s > 0 ==> time_text(secs) == decimal(s as nat) + "s"@
            &&& h == 0 && m == 0 && s == 0 ==> time_text(secs) == "0s"@
            &&& secs > 0 ==> time_text(secs) == join_with(time_parts(secs), " "@)
        }),
{
    let secs = (h * 3600 + m * 60 + s) as u32;
    assert(secs / 3600 == h) by {
        assert((h * 3600 + (m * 60 + s)) / 3600 == h) by (nonlinear_arith)
            requires
                0 <= m * 60 + s < 3600,
                h >= 0,
        ;
    }
    assert(secs % 3600 == m * 60 + s);
    assert(secs % 3600 / 60 == m);
    assert(secs % 60 == s);
    let t = time_parts(secs);
    assert(h > 0 && m > 0 && s > 0 ==> t =~= seq![
        decimal(h as nat) + "h"@,
        decimal(m as nat) + "m"@,
        decimal(s as nat) + "s"@,
    ]);
    assert(h > 0 && m > 0 && s == 0 ==> t =~= seq![decimal(h as nat) + "h"@, decimal(m as nat) + "m"@]);
    assert(h > 0 && m == 0 && s > 0 ==> t =~= seq![decimal(h as nat) + "h"@, decimal(s as nat) + "s"@]);
    assert(h == 0 && m > 0 && s > 0 ==> t =~= seq![decimal(m as nat) + "m"@, decimal(s as nat) + "s"@]);
    assert(h > 0 && m == 0 && s == 0 ==> t =~= seq![decimal(h as nat) + "h"@]);
    assert(h == 0 && m > 0 && s == 0 ==> t =~= seq![decimal(m as nat) + "m"@]);
    assert(h == 0 && m == 0 && s > 0 ==> t =~= seq![decimal(s as nat) + "s"@]);
}

/// A lease time is written as the days, hours, minutes and seconds of which it is made, one after another, without those that
/// are none; the one that stands for ever as `infinite`.
pub proof fn law_lease_time_text(d: u32, h: u32, m: u32, s: u32)
    requires
        h < 24 && m < 60 && s < 60,
        d * 86400 + h * 3600 + m * 60 + s < 0xffff_ffff,
    ensures
        lease_time_text(0xffff_ffff) == "infinite"@,
        ({
            let part = |n: u32, unit: Seq<char>|
                if n == 0 {
                    Seq::<char>::empty()
                } else {
                    decimal(n as nat) + unit
                };
            lease_time_text((d * 86400 + h * 3600 + m * 60 + s) as u32) == part(d, "d"@) + part(h, "h"@) + part(m, "m"@) + part(s, "s"@)
        }),
{
    let t = (d * 86400 + h * 3600 + m * 60 + s) as u32;
    let (dd, hh, mm, ss) = (d as int, h as int, m as int, s as int);
    assert(t / 86400 == d) by {
        assert((dd * 86400 + (hh * 3600 + mm * 60 + ss)) / 86400 == dd) by (nonlinear_arith)
            requires
                0 <= hh * 3600 + mm * 60 + ss < 86400,
                dd >= 0,
        ;
    }
    assert(t / 3600 == d * 24 + h) by {
        assert(((dd * 24 + hh) * 3600 + (mm * 60 + ss)) / 3600 == dd * 24 + hh) by (nonlinear_arith)
            requires
                0 <= mm * 60 + ss < 3600,
                dd * 24 + hh >= 0,
        ;
        assert(t == (dd * 24 + hh) * 3600 + (mm * 60 + ss));
    }
    assert(t / 60 == d * 1440 + h * 60 + m);
    assert(t / 3600 % 24 == h);
    assert(t / 60 % 60 == m);
    assert(t % 60 == s);
}

/// The number in bytes counts each byte 256 times as much as the next; of more than four bytes the last four count.
pub proof fn law_number_in_bytes(s: Seq<u8>, b: u8)
    ensures
        be_value(seq![]) == 0,
        be_value(s.push(b)) == be_value(s) * 256 + b,
        s.len() == 4 ==> tail_value(s) == be32(s, 0),
        s.len() > 4 ==> tail_value(s) == be32(s, s.len() - 4),
{
    assert(s.push(b).drop_last() =~= s);
    if s.len() == 4 {
        lemma_four(s);
    }
    if s.len() > 4 {
        let t = s.skip(s.len() - 4);
        lemma_four(t);
        assert(be32(t, 0) == be32(s, s.len() - 4));
    }
}

/// The number in four bytes.
proof fn lemma_four(s: Seq<u8>)
    requires
        s.len() == 4,
    ensures
        be_value(s) == be32(s, 0),
{
    reveal_with_fuel(be_value, 5);
    let a = s.drop_last();
    let b = a.drop_last();
    let c = b.drop_last();
    assert(c.drop_last() =~= Seq::<u8>::empty());
    assert(c.last() == s[0] && b.last() == s[1] && a.last() == s[2] && s.last() == s[3]);
}

/// The printable bytes of two strings are those of the first and those of the second; a byte is printable from the space to the
/// tilde.
pub proof fn law_printable_bytes(a: Seq<u8>, b: Seq<u8>, x: u8)
    ensures
        printable(a + b) == printable(a) + printable(b),
        0x20 <= x <= 0x7e ==> printable(seq![x]) == seq![x as char],
        !(0x20 <= x <= 0x7e) ==> printable(seq![x]) == Seq::<char>::empty(),
    decreases b.len(),
{
    let one = seq![x];
    assert(one.drop_last() =~= Seq::<u8>::empty());
    assert(printable(one.drop_last()) =~= Seq::<char>::empty());
    assert(0x20 <= x <= 0x7e ==> printable(one) =~= seq![x as char]);
    if b.len() == 0 {
        assert(a + b =~= a);
        assert(printable(b) =~= Seq::<char>::empty());
        assert(printable(a) + printable(b) =~= printable(a));
    } else {
        law_printable_bytes(a, b.drop_last(), x);
        assert((a + b).drop_last() =~= a + b.drop_last());
        assert((a + b).last() == b.last());
        assert(printable(a + b) =~= printable(a) + printable(b));
    }
}

/// A list of addresses is written one by one: the first sixteen or four bytes, and then the rest. Bytes that make up no address
/// are left out.
pub proof fn law_addresses_one_by_one(val: Seq<u8>, rest: Seq<u8>)
    ensures
        val.len() == 16 ==> address_texts(true, val + rest) == seq![ip6_text(ip6_at(val, 0))] + address_texts(true, rest),
        val.len() < 16 ==> address_texts(true, val) == Seq::<Seq<char>>::empty(),
        val.len() == 4 ==> address_texts(false, val + rest) == seq![ip4_text(Ip4 { bits: be32(val, 0) })] + address_texts(false, rest),
        val.len() < 4 ==> address_texts(false, val) == Seq::<Seq<char>>::empty(),
{
    let all = val + rest;
    if val.len() == 16 {
        assert(all.len() / 16 == 1 + rest.len() / 16);
        let (x, y) = (address_texts(true, all), seq![ip6_text(ip6_at(val, 0))] + address_texts(true, rest));
        assert forall|i: int| 0 <= i < x.len() implies x[i] == y[i] by {
            if i == 0 {
                assert(all.subrange(0, 16) =~= val.subrange(0, 16));
                lemma_ip6_same(all, 0, val, 0);
            } else {
                let (p, q) = (16 * i, 16 * (i - 1));
                assert(all.subrange(p, p + 16) =~= rest.subrange(q, q + 16));
                lemma_ip6_same(all, p, rest, q);
            }
        }
        assert(x =~= y);
    }
    if val.len() == 4 {
        assert(all.len() / 4 == 1 + rest.len() / 4);
        let (x, y) = (address_texts(false, all), seq![ip4_text(Ip4 { bits: be32(val, 0) })] + address_texts(false, rest));
        assert forall|i: int| 0 <= i < x.len() implies x[i] == y[i] by {
            if i == 0 {
                assert(be32(all, 0) == be32(val, 0));
            } else {
                let (p, q) = (4 * i, 4 * (i - 1));
                assert(all[p] == rest[q] && all[p + 1] == rest[q + 1] && all[p + 2] == rest[q + 2] && all[p + 3] == rest[q + 3]);
                assert(be32(all, p) == be32(rest, q));
            }
        }
        assert(x =~= y);
    }
    assert(val.len() < 16 ==> address_texts(true, val) =~= Seq::<Seq<char>>::empty());
    assert(val.len() < 4 ==> address_texts(false, val) =~= Seq::<Seq<char>>::empty());
}

/// The same bytes are the same address.
proof fn lemma_ip6_same(s: Seq<u8>, i: int, t: Seq<u8>, j: int)
    requires
        0 <= i && i + 16 <= s.len(),
        0 <= j && j + 16 <= t.len(),
        s.subrange(i, i + 16) == t.subrange(j, j + 16),
    ensures
        ip6_at(s, i) == ip6_at(t, j),
{
    lemma_ip6_alone(s, i);
    lemma_ip6_alone(t, j);
}

/// An address is that of its own sixteen bytes.
proof fn lemma_ip6_alone(s: Seq<u8>, i: int)
    requires
        0 <= i && i + 16 <= s.len(),
    ensures
        ip6_at(s, i) == ip6_at(s.subrange(i, i + 16), 0),
{
    let a = s.subrange(i, i + 16);
    assert(be32(a, 0) == be32(s, i));
    assert(be32(a, 4) == be32(s, i + 4));
    assert(be32(a, 8) == be32(s, i + 8));
    assert(be32(a, 12) == be32(s, i + 12));
}

/// Labels behind other bytes are the same labels.
proof fn lemma_labels_after(before: Seq<u8>, s: Seq<u8>, i: int)
    requires
        0 <= i,
    ensures
        labels_from(before + s, before.len() + i) == labels_from(s, i),
    decreases s.len() - i,
{
    let all = before + s;
    if i < s.len() {
        assert(all[before.len() + i] == s[i]);
        if s[i] != 0 && i + 1 + s[i] <= s.len() {
            let end = i + 1 + s[i];
            lemma_labels_after(before, s, end);
            assert(all.subrange(before.len() + i + 1, before.len() + end) =~= s.subrange(i + 1, end));
        }
    }
}

/// Labels that stand behind their lengths are read one by one, up to an empty one; a name in which one is cut off is not read.
pub proof fn law_labels_one_by_one(label: Seq<u8>, rest: Seq<u8>)
    requires
        0 < label.len() <= 255,
    ensures
        labels_from(seq![label.len() as u8] + label + rest, 0) == (match labels_from(rest, 0) {
            Some(more) => Some(seq![utf8_lossy(label)] + more),
            None => None,
        }),
        labels_from(seq![0u8] + rest, 0) == Some(Seq::<Seq<char>>::empty()),
        labels_from(seq![], 0) == Some(Seq::<Seq<char>>::empty()),
        labels_from(seq![label.len() as u8] + label.drop_last(), 0) is None,
{
    let head = seq![label.len() as u8] + label;
    let all = head + rest;
    lemma_labels_after(head, rest, 0);
    assert(all[0] == label.len());
    assert(all.subrange(1, 1 + label.len() as int) =~= label);
    let zero = seq![0u8] + rest;
    assert(zero[0] == 0);
    let cut = seq![label.len() as u8] + label.drop_last();
    assert(cut[0] == label.len());
}

/// Strings behind other bytes are the same strings.
proof fn lemma_strings_after(before: Seq<u8>, s: Seq<u8>, i: int)
    requires
        0 <= i,
    ensures
        strings_from(before + s, before.len() + i) == strings_from(s, i),
    decreases s.len() - i,
{
    let all = before + s;
    let at = before.len() + i;
    if i + 2 <= s.len() {
        assert(all[at as int] == s[i] && all[at + 1] == s[i + 1]);
        assert(be16(all, at as int) == be16(s, i));
        if i + 2 + be16(s, i) <= s.len() {
            let end = i + 2 + be16(s, i);
            lemma_strings_after(before, s, end);
            assert(all.subrange(at + 2, before.len() + end) =~= s.subrange(i + 2, end));
        }
    }
}

/// Strings that stand behind their lengths are read one by one, up to the end or to one that is cut off.
pub proof fn law_strings_one_by_one(text: Seq<u8>, rest: Seq<u8>)
    requires
        text.len() <= 0xffff,
    ensures
        strings_from(be16_bytes(text.len() as u16) + text + rest, 0) == seq![utf8_lossy(text)] + strings_from(rest, 0),
        rest.len() < 2 ==> strings_from(rest, 0) == Seq::<Seq<char>>::empty(),
{
    let head = be16_bytes(text.len() as u16) + text;
    let all = head + rest;
    lemma_strings_after(head, rest, 0);
    let n = text.len() as u16;
    assert(all[0] == (n / 256) as u8 && all[1] == (n % 256) as u8);
    assert(be16(all, 0) == n);
    assert(all.subrange(2, 2 + text.len() as int) =~= text);
}

/// More than fourteen bytes are written as the first fourteen and three dots.
pub proof fn law_long_values_are_cut(val: Seq<u8>)
    ensures
        val.len() <= 14 ==> hex_dump(val) == hex_text(val),
        val.len() > 14 ==> hex_dump(val) == hex_text(val.take(14)) + "..."@,
        val.len() == 1 ==> hex_text(val) == hex_byte(val[0]),
        val.len() > 1 ==> hex_text(val) == hex_byte(val[0]) + ":"@ + hex_text(val.skip(1)),
{
    let f = |s: Seq<u8>| Seq::new(s.len(), |i: int| hex_byte(s[i]));
    if val.len() >= 1 {
        let rest = val.skip(1);
        assert(f(val) =~= seq![hex_byte(val[0])] + f(rest));
        law_join_from_the_front(hex_byte(val[0]), f(rest), ":"@);
        if val.len() == 1 {
            assert(f(val) =~= seq![hex_byte(val[0])]);
        }
    }
}

/// The row of an option is the first with its number, or name, case aside; there is one where some row has it.
pub proof fn law_row_is_found(t: Seq<Row>, i: int, k: int, name: Seq<char>, val: u16)
    requires
        0 <= i <= t.len(),
    ensures
        i <= k < t.len() && t[k].val == val && (forall|j: int| i <= j < k ==> (#[trigger] t[j]).val != val) ==> row_numbered(t, val, i)
            == Some(t[k]),
        (forall|j: int| i <= j < t.len() ==> (#[trigger] t[j]).val != val) ==> row_numbered(t, val, i) is None,
        i <= k < t.len() && lower(t[k].name) == lower(name) && (forall|j: int| i <= j < k ==> lower((#[trigger] t[j]).name) != lower(
            name,
        )) ==> row_named(t, name, i) == Some(t[k]),
        (forall|j: int| i <= j < t.len() ==> lower((#[trigger] t[j]).name) != lower(name)) ==> row_named(t, name, i) is None,
    decreases t.len() - i,
{
    if i < t.len() {
        law_row_is_found(t, i + 1, k, name, val);
        assert(t[i] == t[i]);
    }
}

/// The options that are listed are those that can be configured, all of them and in the order of the table.
pub proof fn law_options_that_are_listed(t: Seq<Row>, r: Row)
    ensures
        shown(t.push(r)) == (if has_flag(r.size, OT_INTERNAL) {
            shown(t)
        } else {
            shown(t).push((r.val, r.name))
        }),
        shown(seq![]) == Seq::<(u16, Seq<char>)>::empty(),
{
    assert(t.push(r).drop_last() =~= t);
}

/// A range of DHCPv4 gets exactly one line unless it is an old one; a range of DHCPv6 gets one on its addresses where it serves
/// any, one on names where it derives any, and one on router advertisements where it sends any, in this order.
pub proof fn law_lines_on_a_range(ctx: ContextView, opt_ra: bool)
    ensures
        ({
            let v4 = context_lines(false, ctx, opt_ra);
            let v6 = context_lines(true, ctx, opt_ra);
            let net = ip6_text(Ip6 { bits: (ctx.start6.bits / 0x1_0000_0000_0000_0000 * 0x1_0000_0000_0000_0000) as u128 });
            let serves = ctx.flags.dhcp && !ctx.flags.old;
            let names = ctx.flags.ra_name && !ctx.flags.old;
            let adverts = ctx.flags.ra || (opt_ra && ctx.flags.dhcp);
            &&& ctx.flags.old ==> v4 == Seq::<Seq<char>>::empty()
            &&& !ctx.flags.old ==> v4 == seq![range_line(false, ctx)]
            &&& v6.len() == (if serves {
                1int
            } else {
                0
            }) + (if names {
                1int
            } else {
                0
            }) + (if adverts {
                1int
            } else {
                0
            })
            &&& serves ==> v6[0] == range_line(true, ctx)
            &&& names ==> v6.contains("DHCPv4-derived IPv6 names on "@ + net)
            &&& adverts ==> v6.last() == "router advertisement on "@ + net
        }),
{
    let v6 = context_lines(true, ctx, opt_ra);
    let m = 0x1_0000_0000_0000_0000int;
    assert(ctx.start6.bits as int == ctx.start6.bits as int / m * m + ctx.start6.bits as int % m);
    let net = ip6_text(Ip6 { bits: (ctx.start6.bits / 0x1_0000_0000_0000_0000 * 0x1_0000_0000_0000_0000) as u128 });
    assert(subnet6(ctx.start6).bits == ctx.start6.bits / 0x1_0000_0000_0000_0000 * 0x1_0000_0000_0000_0000);
    assert(!ctx.flags.old ==> context_lines(false, ctx, opt_ra) =~= seq![range_line(false, ctx)]);
    assert(ctx.flags.old ==> context_lines(false, ctx, opt_ra) =~= Seq::<Seq<char>>::empty());
    if ctx.flags.ra_name && !ctx.flags.old {
        let at: int = if ctx.flags.dhcp {
            1
        } else {
            0
        };
        assert(v6[at] == "DHCPv4-derived IPv6 names on "@ + net);
    }
}

/// A pattern without a star matches the name that it is, and no other; one with a star at its end matches the names that start
/// like it and go on. With a limit only so many characters count.
pub proof fn law_pattern_with_a_star(p: Seq<char>, name: Seq<char>, limit: int)
    requires
        !p.contains('*'),
    ensures
        limit < 0 || limit > p.len() ==> (wild_match(p, name, limit) <==> p == name),
        limit < 0 || limit > p.len() ==> (wild_match(p.push('*'), name, limit) <==> name.len() > p.len() && p.is_prefix_of(name)),
        0 <= limit <= p.len() && limit <= name.len() ==> (wild_match(p, name, limit) <==> p.take(limit) == name.take(limit)),
    decreases p.len(),
{
    let star = p.push('*');
    if p.len() == 0 {
        assert(star[0] == '*');
        if name.len() > 0 {
            assert(p =~= name.take(0));
        }
        if limit < 0 || limit > 0 {
            assert(p == name <==> name.len() == 0) by {
                if name.len() == 0 {
                    assert(p =~= name);
                }
            }
        } else {
            assert(p.take(0) =~= name.take(0));
        }
    } else if name.len() == 0 {
        if limit == 0 {
            assert(p.take(0) =~= name.take(0));
        }
    } else {
        let (q, rest) = (p.skip(1), name.skip(1));
        assert(p[0] != '*') by {
            assert(p.contains(p[0]));
        }
        assert(!q.contains('*')) by {
            if q.contains('*') {
                let i = choose|i: int| 0 <= i < q.len() && q[i] == '*';
                assert(p[i + 1] == '*');
            }
        }
        law_pattern_with_a_star(q, rest, limit - 1);
        assert(star.skip(1) =~= q.push('*'));
        assert(star[0] == p[0]);
        if p[0] == name[0] {
            assert(p =~= seq![p[0]] + q);
            assert(name =~= seq![name[0]] + rest);
            assert(q == rest ==> p == name);
            assert(p == name ==> q =~= rest);
            if name.len() > p.len() {
                if q.is_prefix_of(rest) {
                    assert(p =~= name.take(p.len() as int)) by {
                        assert forall|i: int| 0 <= i < p.len() implies p[i] == name[i] by {
                            if i > 0 {
                                assert(q[i - 1] == rest[i - 1]);
                            }
                        }
                    }
                }
                if p.is_prefix_of(name) {
                    assert(q =~= rest.take(q.len() as int)) by {
                        assert forall|i: int| 0 <= i < q.len() implies q[i] == rest[i] by {
                            assert(p[i + 1] == name[i + 1]);
                        }
                    }
                }
            }
            if 1 <= limit <= p.len() && limit <= name.len() {
                assert(p.take(limit) =~= seq![p[0]] + q.take(limit - 1));
                assert(name.take(limit) =~= seq![name[0]] + rest.take(limit - 1));
                if p.take(limit) == name.take(limit) {
                    assert(q.take(limit - 1) =~= p.take(limit).skip(1));
                    assert(rest.take(limit - 1) =~= name.take(limit).skip(1));
                }
            }
            if limit == 0 {
                assert(p.take(0) =~= name.take(0));
            }
        } else {
            if limit == 0 {
                assert(p.take(0) =~= name.take(0));
            } else if 1 <= limit <= p.len() && limit <= name.len() {
                assert(p.take(limit)[0] != name.take(limit)[0]);
            }
            if p.is_prefix_of(name) {
                assert(p[0] == name[0]);
            }
        }
    }
}

} // verus!
