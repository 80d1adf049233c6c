//! How addresses, numbers and texts are written and read.

use crate::addr::{groups, groups_text, ip4_text, ip6_text, longest_run, octet4, zero_run, Ip4, Ip6};
use crate::dhcp_common::value_laws::law_join_from_the_front;
use crate::text::{
    decimal, digits_value, hex, hex_char, is_space, join_with, lower, lower_char, select, signed_decimal, trim_end, trim_start, u32_of,
};
use vstd::prelude::*;

verus! {

/// The octets of an address that is made of four bytes.
proof fn lemma_octets(a: u8, b: u8, c: u8, d: u8, ip: Ip4)
    requires
        ip.bits == a * 0x100_0000 + b * 0x1_0000 + c * 0x100 + d,
    ensures
        octet4(ip, 0) == a,
        octet4(ip, 1) == b,
        octet4(ip, 2) == c,
        octet4(ip, 3) == d,
{
    let x = ip.bits as int;
    assert(x / 0x100 == a * 0x1_0000 + b * 0x100 + c);
    assert(x / 0x1_0000 == a * 0x100 + b);
    assert(x / 0x100_0000 == a);
}

/// Four parts with something between them.
proof fn lemma_four_parts(a: Seq<char>, b: Seq<char>, c: Seq<char>, d: Seq<char>, sep: Seq<char>)
    ensures
        join_with(seq![a, b, c, d], sep) == a + sep + b + sep + c + sep + d,
{
    assert(seq![a] + seq![b, c, d] =~= seq![a, b, c, d]);
    assert(seq![b] + seq![c, d] =~= seq![b, c, d]);
    assert(seq![c] + seq![d] =~= seq![c, d]);
    law_join_from_the_front(a, seq![b, c, d], sep);
    law_join_from_the_front(b, seq![c, d], sep);
    law_join_from_the_front(c, seq![d], sep);
    law_join_from_the_front(d, seq![], sep);
    assert(join_with(seq![a, b, c, d], sep) =~= a + sep + b + sep + c + sep + d);
}

/// An IPv4 address is written as its four octets in decimal, the highest first, with dots between them.
pub proof fn law_dotted_decimal(a: u8, b: u8, c: u8, d: u8)
    ensures
        ip4_text(Ip4 { bits: (a * 0x100_0000 + b * 0x1_0000 + c * 0x100 + d) as u32 }) == decimal(a as nat) + "."@ + decimal(b as nat)
            + "."@ + decimal(c as nat) + "."@ + decimal(d as nat),
{
    let ip = Ip4 { bits: (a * 0x100_0000 + b * 0x1_0000 + c * 0x100 + d) as u32 };
    lemma_octets(a, b, c, d, ip);
    let parts = Seq::new(4, |i: int| decimal(octet4(ip, i) as nat));
    assert(parts =~= seq![decimal(a as nat), decimal(b as nat), decimal(c as nat), decimal(d as nat)]);
    lemma_four_parts(decimal(a as nat), decimal(b as nat), decimal(c as nat), decimal(d as nat), "."@);
}

/// Eight places of a number.
proof fn lemma_places(x: int)
    requires
        0 <= x,
    ensures
        x == (x / 0x1_0000_0000_0000_0000) * 0x1_0000_0000_0000_0000 + (x / 0x1_0000_0000_0000 % 0x1_0000) * 0x1_0000_0000_0000 + (x
            / 0x1_0000_0000 % 0x1_0000) * 0x1_0000_0000 + (x / 0x1_0000 % 0x1_0000) * 0x1_0000 + x % 0x1_0000,
{
    let q1 = x / 0x1_0000;
    let q2 = q1 / 0x1_0000;
    let q3 = q2 / 0x1_0000;
    let q4 = q3 / 0x1_0000;
    assert(q2 == x / 0x1_0000_0000);
    assert(q3 == x / 0x1_0000_0000_0000);
    assert(q4 == x / 0x1_0000_0000_0000_0000);
}

/// The address is made of its groups: each counts as many times as its place says.
pub proof fn law_groups_make_the_address(a: Ip6)
    ensures
        ({
            let g = groups(a);
            &&& g.len() == 8
            &&& a.bits == g[0] * 0x1_0000_0000_0000_0000_0000_0000_0000 + g[1] * 0x1_0000_0000_0000_0000_0000_0000 + g[2]
                * 0x1_0000_0000_0000_0000_0000 + g[3] * 0x1_0000_0000_0000_0000 + g[4] * 0x1_0000_0000_0000 + g[5] * 0x1_0000_0000 + g[6]
                * 0x1_0000 + g[7]
        }),
{
    let x = a.bits as int;
    lemma_places(x);
    let y = x / 0x1_0000_0000_0000_0000;
    lemma_places(y);
    assert(y < 0x1_0000_0000_0000_0000);
    assert(y / 0x1_0000_0000_0000 == x / 0x1_0000_0000_0000_0000_0000_0000_0000);
    assert(y / 0x1_0000_0000 == x / 0x1_0000_0000_0000_0000_0000_0000);
    assert(y / 0x1_0000 == x / 0x1_0000_0000_0000_0000_0000);
}

/// A run of zeros is no longer than what is counted.
proof fn lemma_zero_run(g: Seq<u16>, i: int, n: nat)
    requires
        0 <= i,
        i + n <= g.len(),
        forall|k: int| i <= k < i + n ==> #[trigger] g[k] == 0,
    ensures
        n <= zero_run(g, i),
    decreases n,
{
    if n > 0 {
        assert(g[i] == 0);
        lemma_zero_run(g, i + 1, (n - 1) as nat);
    }
}

/// What is counted are zeros, as many as there are.
proof fn lemma_zeros(g: Seq<u16>, i: int)
    requires
        0 <= i <= g.len(),
    ensures
        i + zero_run(g, i) <= g.len(),
        forall|k: int| i <= k < i + zero_run(g, i) ==> #[trigger] g[k] == 0,
    decreases g.len() - i,
{
    if i < g.len() && g[i] == 0 {
        lemma_zeros(g, i + 1);
        assert forall|k: int| i <= k < i + zero_run(g, i) implies #[trigger] g[k] == 0 by {}
    }
}

/// No run of zeros is longer than the longest, and none of its length starts before it; it is itself made of zeros.
pub proof fn law_longest_run(g: Seq<u16>, from: int, i: int, n: nat)
    requires
        0 <= from <= g.len(),
    ensures
        ({
            let (start, len) = longest_run(g, from);
            &&& from <= start && start + len <= g.len()
            &&& forall|k: int| start <= k < start + len ==> #[trigger] g[k] == 0
            &&& from <= i && i + n <= g.len() && n > 0 && (forall|k: int| i <= k < i + n ==> #[trigger] g[k] == 0) ==> n < len || (n == len
                && start <= i)
        }),
    decreases g.len() - from,
{
    if from < g.len() {
        law_longest_run(g, from + 1, i, n);
        lemma_zeros(g, from);
        if from <= i && i + n <= g.len() && n > 0 && (forall|k: int| i <= k < i + n ==> #[trigger] g[k] == 0) {
            lemma_zero_run(g, i, n);
        }
    }
}

/// Whether there is a run of zero groups of this length at a place.
pub open spec fn zeros_at(g: Seq<u16>, i: int, n: nat) -> bool {
    0 <= i && 0 < n && i + n <= g.len() && forall|k: int| i <= k < i + n ==> #[trigger] g[k] == 0
}

/// An IPv6 address is written as its groups in hexadecimal with colons between them. Of the runs of two or more zero groups the
/// longest, and of several such the first, is written as two colons alone.
pub proof fn law_ip6_text(a: Ip6, start: int, len: nat)
    requires
        a.bits / 0x1_0000_0000 != 0xffff,
        0 <= start,
        start + len <= 8,
        len >= 2,
        forall|k: int| start <= k < start + len ==> #[trigger] groups(a)[k] == 0,
        forall|i: int, n: nat| #[trigger] zeros_at(groups(a), i, n) ==> n < len || (n == len && start <= i),
    ensures
        ip6_text(a) == groups_text(groups(a).take(start)) + "::"@ + groups_text(groups(a).skip(start + len)),
{
    let g = groups(a);
    let (s, l) = longest_run(g, 0);
    law_longest_run(g, 0, start, len);
    assert(zeros_at(g, s, l));
    assert(s == start && l == len);
}

/// Without two zero groups next to each other all groups are written.
pub proof fn law_ip6_text_in_full(a: Ip6)
    requires
        a.bits / 0x1_0000_0000 != 0xffff,
        forall|i: int, j: int| 0 <= i && j == i + 1 && j < 8 ==> #[trigger] groups(a)[i] != 0 || #[trigger] groups(a)[j] != 0,
    ensures
        ip6_text(a) == groups_text(groups(a)),
{
    let g = groups(a);
    let (s, l) = longest_run(g, 0);
    law_longest_run(g, 0, 0, 0);
    if l > 1 {
        assert(g[s] == 0);
        assert(g[s + 1] == 0);
    }
}

/// An IPv4 address inside an IPv6 one is written in dotted decimal.
pub proof fn law_mapped_address(v4: u32)
    ensures
        ip6_text(Ip6 { bits: (0xffff * 0x1_0000_0000 + v4) as u128 }) == "::ffff:"@ + ip4_text(Ip4 { bits: v4 }),
{
}

/// Groups are written one by one.
pub proof fn law_groups_one_by_one(first: u16, rest: Seq<u16>)
    ensures
        groups_text(seq![]) == Seq::<char>::empty(),
        groups_text(seq![first]) == hex(first as nat),
        rest.len() > 0 ==> groups_text(seq![first] + rest) == hex(first as nat) + ":"@ + groups_text(rest),
{
    let f = |g: Seq<u16>| Seq::new(g.len(), |i: int| hex(g[i] as nat));
    assert(f(seq![]) =~= seq![]);
    assert(f(seq![first]) =~= seq![hex(first as nat)]);
    assert(f(seq![first] + rest) =~= seq![hex(first as nat)] + f(rest));
    law_join_from_the_front(hex(first as nat), f(rest), ":"@);
}

/// The value of hexadecimal digits in lower case.
pub open spec fn hex_value(s: Seq<char>) -> nat
    decreases s.len(),
{
    if s.len() == 0 {
        0
    } else {
        let c = s.last() as nat;
        hex_value(s.drop_last()) * 16 + (if c < 58 {
            (c - 48) as nat
        } else {
            (c - 87) as nat
        })
    }
}

/// A number in hexadecimal stands for itself and has no zero in front, unless it is zero.
pub proof fn law_hexadecimal(n: nat)
    ensures
        hex_value(hex(n)) == n,
        hex(n).len() > 0,
        n > 0 ==> hex(n)[0] != '0',
        forall|i: int| 0 <= i < hex(n).len() ==> '0' <= #[trigger] hex(n)[i] <= '9' || 'a' <= hex(n)[i] <= 'f',
    decreases n,
{
    if n >= 16 {
        law_hexadecimal(n / 16);
        let c = hex_char(n % 16);
        assert(hex(n).drop_last() =~= hex(n / 16));
        assert(hex(n).last() == c);
        assert(hex(n)[0] == hex(n / 16)[0]);
        assert forall|i: int| 0 <= i < hex(n).len() implies '0' <= #[trigger] hex(n)[i] <= '9' || 'a' <= hex(n)[i] <= 'f' by {
            if i < hex(n / 16).len() {
                assert(hex(n)[i] == hex(n / 16)[i]);
            }
        }
    } else {
        assert(hex(n).drop_last() =~= seq![]);
        assert(hex_value(hex(n).drop_last()) == 0);
    }
}

/// A negative number is written as its distance from zero behind a minus sign.
pub proof fn law_signed_decimal(n: nat)
    ensures
        signed_decimal(n as int) == decimal(n),
        n > 0 ==> signed_decimal(-(n as int)) == "-"@ + decimal(n),
{
}

/// A text without white space at its ends is what is left of it when there is some round it; nothing inside it is lost.
pub proof fn law_trimmed(before: Seq<char>, s: Seq<char>, after: Seq<char>)
    requires
        forall|i: int| 0 <= i < before.len() ==> is_space(#[trigger] before[i]),
        forall|i: int| 0 <= i < after.len() ==> is_space(#[trigger] after[i]),
        s.len() > 0 ==> !is_space(s[0]) && !is_space(s.last()),
        s.len() == 0 ==> before.len() == 0,
    ensures
        trim_end(s + after) == s,
        trim_start(before + s) == s,
        trim_start(trim_end(before + s + after)) == s,
    decreases before.len() + after.len(),
{
    lemma_trim_end(s, after);
    lemma_trim_start(before, s);
    lemma_trim_end(before + s, after);
}

/// White space at the end is dropped.
proof fn lemma_trim_end(s: Seq<char>, after: Seq<char>)
    requires
        forall|i: int| 0 <= i < after.len() ==> is_space(#[trigger] after[i]),
        s.len() > 0 ==> !is_space(s.last()),
    ensures
        trim_end(s + after) == s,
    decreases after.len(),
{
    if after.len() == 0 {
        assert(s + after =~= s);
    } else {
        assert((s + after).last() == after.last());
        assert((s + after).drop_last() =~= s + after.drop_last());
        lemma_trim_end(s, after.drop_last());
    }
}

/// White space at the start is dropped.
proof fn lemma_trim_start(before: Seq<char>, s: Seq<char>)
    requires
        forall|i: int| 0 <= i < before.len() ==> is_space(#[trigger] before[i]),
        s.len() > 0 ==> !is_space(s[0]),
    ensures
        trim_start(before + s) == s,
    decreases before.len(),
{
    if before.len() == 0 {
        assert(before + s =~= s);
    } else {
        assert((before + s)[0] == before[0]);
        assert((before + s).skip(1) =~= before.skip(1) + s);
        lemma_trim_start(before.skip(1), s);
    }
}

/// Blanks, tabs and the ends of lines are white space; letters, digits and signs are not.
pub proof fn law_white_space(c: char)
    ensures
        is_space(' ') && is_space('\t') && is_space('\n') && is_space('\r'),
        0x20 < c as u32 && (c as u32) < 0x85 ==> !is_space(c),
{
}

/// A number is read from its decimal digits, with a plus sign in front or without; one that does not fit is not read.
pub proof fn law_number_is_read_back(n: nat)
    ensures
        n <= u32::MAX ==> u32_of(decimal(n)) == Some(n as u32) && u32_of(seq!['+'] + decimal(n)) == Some(n as u32),
        n > u32::MAX ==> u32_of(decimal(n)) is None && u32_of(seq!['+'] + decimal(n)) is None,
        u32_of(seq![]) is None,
        u32_of(seq!['-'] + decimal(n)) is None,
{
    lemma_digits(n);
    let s = decimal(n);
    assert((seq!['+'] + s).skip(1) =~= s);
    assert((seq!['+'] + s)[0] == '+');
    assert((seq!['-'] + s)[0] == '-');
    lemma_no_digit(seq!['-'] + s, 0);
}

/// The digits of a number stand for it.
proof fn lemma_digits(n: nat)
    ensures
        digits_value(decimal(n)) == Some(n),
        decimal(n).len() > 0,
        '0' <= decimal(n)[0] <= '9',
    decreases n,
{
    if n >= 10 {
        lemma_digits(n / 10);
        assert(decimal(n).drop_last() =~= decimal(n / 10));
        assert(decimal(n)[0] == decimal(n / 10)[0]);
    } else {
        assert(decimal(n).drop_last() =~= seq![]);
        assert(digits_value(decimal(n).drop_last()) == Some(0nat));
    }
}

/// What holds another character is no number.
proof fn lemma_no_digit(s: Seq<char>, i: int)
    requires
        0 <= i < s.len(),
        !('0' <= s[i] <= '9'),
    ensures
        digits_value(s) is None,
    decreases s.len(),
{
    if i < s.len() - 1 {
        lemma_no_digit(s.drop_last(), i);
    }
}

/// A text with anything but digits behind its sign is no number.
pub proof fn law_other_texts_are_no_numbers(s: Seq<char>, i: int)
    requires
        0 <= i < s.len(),
        !('0' <= s[i] <= '9'),
        i > 0 || s[i] != '+',
    ensures
        u32_of(s) is None,
{
    if s[0] == '+' {
        assert(s.skip(1)[i - 1] == s[i]);
        lemma_no_digit(s.skip(1), i - 1);
    } else {
        lemma_no_digit(s, i);
    }
}

/// In lower case the 26 letters stand for themselves in small, and everything else for itself.
pub proof fn law_lower_case(s: Seq<char>, i: int)
    ensures
        lower(s).len() == s.len(),
        0 <= i < s.len() && 'A' <= s[i] <= 'Z' ==> lower(s)[i] as int == s[i] as int + 32,
        0 <= i < s.len() && !('A' <= s[i] <= 'Z') ==> lower(s)[i] == s[i],
        lower(lower(s)) == lower(s),
{
    assert forall|k: int| 0 <= k < s.len() implies lower(lower(s))[k] == lower(s)[k] by {
        assert(lower_char(lower_char(s[k])) == lower_char(s[k]));
    }
    assert(lower(lower(s)) =~= lower(s));
}

/// What is selected is everything that qualifies, and nothing else.
pub proof fn law_selected<A>(s: Seq<A>, p: spec_fn(A) -> bool, x: A)
    ensures
        select(s, p).contains(x) == (s.contains(x) && p(x)),
        select(s, p).len() <= s.len(),
        (forall|i: int| 0 <= i < s.len() ==> p(#[trigger] s[i])) ==> select(s, p) == s,
    decreases s.len(),
{
    if s.len() > 0 {
        let d = s.drop_last();
        law_selected(d, p, x);
        let some = select(d, p);
        assert(s =~= d.push(s.last()));
        if d.contains(x) {
            let i = choose|i: int| 0 <= i < d.len() && d[i] == x;
            assert(s[i] == x);
        }
        if s.contains(x) && x != s.last() {
            let i = choose|i: int| 0 <= i < s.len() && s[i] == x;
            assert(d[i] == x);
        }
        if some.contains(x) {
            let i = choose|i: int| 0 <= i < some.len() && some[i] == x;
            assert(some.push(s.last())[i] == x);
        }
        assert(some.push(s.last())[some.len() as int] == s.last());
        if forall|i: int| 0 <= i < s.len() ==> p(#[trigger] s[i]) {
            assert forall|i: int| 0 <= i < d.len() implies p(#[trigger] d[i]) by {
                assert(d[i] == s[i]);
            }
            assert(p(s[s.len() - 1]));
        }
    }
}

} // verus!
