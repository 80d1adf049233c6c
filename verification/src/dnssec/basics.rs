//! Counters, serial numbers, encodings and codes used by the validator.

use crate::names::{find_char, lemma_find_char, lemma_find_char_at, split};
use crate::text::{append_bytes, to_chars};
use crate::wire::{name_to_wire, wire_of};
use vstd::prelude::*;

verus! {

/// The number of dots in `s`.
pub open spec fn dots(s: Seq<char>) -> nat
    decreases s.len(),
{
    if s.len() == 0 {
        0
    } else {
        dots(s.drop_last()) + if s.last() == '.' {
            1nat
        } else {
            0nat
        }
    }
}

/// The number of labels of a dotted name: none for the root; a leading dot starts no label.
pub open spec fn label_count(s: Seq<char>) -> nat {
    if s.len() == 0 {
        0
    } else if s[0] == '.' {
        dots(s)
    } else {
        dots(s) + 1
    }
}

/// The number of labels, held in 32 bits.
pub open spec fn labels32(s: Seq<char>) -> u32 {
    (label_count(s) % 0x1_0000_0000) as u32
}

/// Counts the labels of a dotted name. The root has none, and a leading dot starts no label.
pub fn count_labels(name: &str) -> (r: u32)
    ensures
        r == labels32(name@),
{
    let v: Vec<char> = to_chars(name);
    if v.len() == 0 {
        return 0;
    }
    let mut n: u32 = 0;
    let mut i: usize = 0;
    while i < v.len()
        invariant
            i <= v@.len(),
            v@ == name@,
            n == dots(v@.take(i as int)) % 0x1_0000_0000,
        decreases v@.len() - i,
    {
        assert(v@.take(i + 1).drop_last() =~= v@.take(i as int));
        if v[i] == '.' {
            n = n.wrapping_add(1);
        }
        i += 1;
    }
    assert(v@.take(v@.len() as int) =~= v@);
    if v[0] == '.' {
        n
    } else {
        n.wrapping_add(1)
    }
}

/// Dots of a concatenation.
pub proof fn lemma_dots_concat(a: Seq<char>, b: Seq<char>)
    ensures
        dots(a + b) == dots(a) + dots(b),
    decreases b.len(),
{
    if b.len() == 0 {
        assert(a + b =~= a);
    } else {
        assert((a + b).drop_last() =~= a + b.drop_last());
        lemma_dots_concat(a, b.drop_last());
    }
}

/// A string without a dot.
pub proof fn lemma_dots_none(s: Seq<char>)
    requires
        forall|i: int| 0 <= i < s.len() ==> s[i] != '.',
    ensures
        dots(s) == 0,
    decreases s.len(),
{
    if s.len() > 0 {
        lemma_dots_none(s.drop_last());
    }
}

/// A name has one more dot-separated part than it has dots.
pub proof fn lemma_split_dots(s: Seq<char>)
    ensures
        split(s).len() == dots(s) + 1,
    decreases s.len(),
{
    let k = find_char(s, '.');
    lemma_find_char(s, '.');
    if 0 <= k < s.len() {
        lemma_split_dots(s.skip(k + 1));
        lemma_dots_none(s.take(k));
        lemma_dots_concat(s.take(k), seq!['.']);
        lemma_dots_concat(s.take(k) + seq!['.'], s.skip(k + 1));
        assert(s.take(k) + seq!['.'] + s.skip(k + 1) =~= s);
        reveal_with_fuel(dots, 2);
        assert(dots(seq!['.']) == 1);
    } else {
        lemma_dots_none(s);
    }
}

/// A name has at least as many dot-separated parts as `count_labels` gives.
pub proof fn lemma_labels_le_parts(s: Seq<char>)
    ensures
        labels32(s) <= split(s).len(),
{
    lemma_split_dots(s);
}

/// How two serial numbers compare.
#[derive(Debug, Clone, Copy, PartialEq, Eq, Structural)]
pub enum SerialCmp {
    Equal,
    Less,
    Greater,
    /// The numbers are exactly half the number space apart.
    Undefined,
}

/// How `s1` compares to `s2` as 32-bit serial numbers (RFC 1982, section 3.2): by the distance
/// from `s1` up to `s2`, modulo 2^32.
pub open spec fn serial_order(s1: u32, s2: u32) -> SerialCmp {
    let d = (s2 - s1) % 0x1_0000_0000;
    if d == 0 {
        SerialCmp::Equal
    } else if d < 0x8000_0000 {
        SerialCmp::Less
    } else if d == 0x8000_0000 {
        SerialCmp::Undefined
    } else {
        SerialCmp::Greater
    }
}

/// Compares two 32-bit serial numbers (RFC 1982).
pub fn serial_compare_32(s1: u32, s2: u32) -> (r: SerialCmp)
    ensures
        r == serial_order(s1, s2),
{
    let d: u32 = s2.wrapping_sub(s1);
    if d == 0 {
        SerialCmp::Equal
    } else if d < 0x8000_0000 {
        SerialCmp::Less
    } else if d == 0x8000_0000 {
        SerialCmp::Undefined
    } else {
        SerialCmp::Greater
    }
}

/// Swapping the numbers turns `Less` into `Greater` and back, and leaves the other outcomes.
pub proof fn law_serial_order_swaps(s1: u32, s2: u32)
    ensures
        serial_order(s1, s2) is Less <==> serial_order(s2, s1) is Greater,
        serial_order(s1, s2) is Equal <==> serial_order(s2, s1) is Equal,
        serial_order(s1, s2) is Undefined <==> serial_order(s2, s1) is Undefined,
        serial_order(s1, s2) is Equal <==> s1 == s2,
{
}

/// A work counter after one unit of work: 0 stays, the lowest value wraps round.
pub open spec fn dec(counter: i32) -> i32 {
    if counter == 0 {
        0
    } else if counter == i32::MIN {
        i32::MAX
    } else {
        (counter - 1) as i32
    }
}

/// Takes one unit off a work budget; `true` when the budget was used up already.
pub fn dec_counter(counter: &mut i32) -> (r: bool)
    ensures
        r == (*old(counter) == 0),
        *final(counter) == dec(*old(counter)),
{
    if *counter == 0 {
        return true;
    }
    *counter = (*counter).wrapping_sub(1);
    false
}

/// The value of a base-32 digit in the extended-hex alphabet, in either case.
pub open spec fn b32_digit(c: char) -> Option<nat> {
    if '0' <= c && c <= '9' {
        Some((c as u32 - '0' as u32) as nat)
    } else if 'a' <= c && c <= 'v' {
        Some((c as u32 - 'a' as u32 + 10) as nat)
    } else if 'A' <= c && c <= 'V' {
        Some((c as u32 - 'A' as u32 + 10) as nat)
    } else {
        None
    }
}

/// Whether every character of `s` is a base-32 digit.
pub open spec fn all_b32(s: Seq<char>) -> bool {
    forall|i: int| 0 <= i < s.len() ==> (#[trigger] b32_digit(s[i])) is Some
}

/// The number that the base-32 digits `s` stand for.
pub open spec fn b32_value(s: Seq<char>) -> nat
    decreases s.len(),
{
    if s.len() == 0 {
        0
    } else {
        b32_value(s.drop_last()) * 32 + b32_digit(s.last())->0
    }
}

/// The number that the bytes `b` stand for, most significant first.
pub open spec fn byte_value(b: Seq<u8>) -> nat
    decreases b.len(),
{
    if b.len() == 0 {
        0
    } else {
        byte_value(b.drop_last()) * 256 + b.last() as nat
    }
}

/// Powers of two up to the seventh.
spec fn small_pow(n: u32) -> nat {
    match n {
        0 => 1,
        1 => 2,
        2 => 4,
        3 => 8,
        4 => 16,
        5 => 32,
        6 => 64,
        _ => 128,
    }
}

fn digit_value(c: char) -> (r: Option<u32>)
    ensures
        r is Some <==> b32_digit(c) is Some,
        r matches Some(d) ==> d == b32_digit(c)->0 && d < 32,
{
    if '0' <= c && c <= '9' {
        Some(c as u32 - '0' as u32)
    } else if 'a' <= c && c <= 'v' {
        Some(c as u32 - 'a' as u32 + 10)
    } else if 'A' <= c && c <= 'V' {
        Some(c as u32 - 'A' as u32 + 10)
    } else {
        None
    }
}

/// The pending bits split into a whole byte and what is left of them.
fn take_byte(acc: u32, left: u32) -> (r: (u8, u32))
    requires
        left < 5,
        acc < 256 * small_pow(left),
    ensures
        acc == r.0 * small_pow(left) + r.1,
        r.1 < small_pow(left),
{
    if left == 0 {
        (acc as u8, 0)
    } else if left == 1 {
        ((acc / 2) as u8, acc % 2)
    } else if left == 2 {
        ((acc / 4) as u8, acc % 4)
    } else if left == 3 {
        ((acc / 8) as u8, acc % 8)
    } else {
        ((acc / 16) as u8, acc % 16)
    }
}

/// Whether all characters before the first dot are digits, and they fill whole bytes.
pub open spec fn b32_valid(input: Seq<char>) -> bool {
    let t = input.take(find_char(input, '.'));
    all_b32(t) && (5 * t.len()) % 8 == 0
}

/// Whether `b` stands for the same number as the base-32 digits of `input`, in as many bits.
pub open spec fn is_b32_of(b: Seq<u8>, input: Seq<char>) -> bool {
    b.len() * 8 == 5 * find_char(input, '.') && byte_value(b) == b32_value(input.take(find_char(input, '.')))
}

/// The bytes that a base-32 string holds up to its first dot, when it holds whole bytes.
pub open spec fn b32_bytes(input: Seq<char>) -> Option<Seq<u8>> {
    if b32_valid(input) {
        Some(choose|b: Seq<u8>| is_b32_of(b, input))
    } else {
        None
    }
}

/// Decodes base 32 with the extended-hex alphabet (RFC 4648, section 7), up to the first dot.
pub fn base32_decode(input: &str) -> (r: Option<Vec<u8>>)
    ensures
        r is Some <==> b32_valid(input@),
        r matches Some(out) ==> is_b32_of(out@, input@) && b32_bytes(input@) == Some(out@),
{
    let v: Vec<char> = to_chars(input);
    let mut out: Vec<u8> = Vec::new();
    let mut acc: u32 = 0;
    let mut bits: u32 = 0;
    let mut i: usize = 0;
    let ghost t = input@.take(find_char(input@, '.'));
    proof {
        lemma_find_char(input@, '.');
        assert(t.take(0) =~= Seq::<char>::empty());
    }
    while i < v.len() && v[i] != '.'
        invariant
            i <= v@.len(),
            v@ == input@,
            forall|j: int| 0 <= j < i ==> v@[j] != '.',
            t == input@.take(find_char(input@, '.')),
            0 <= find_char(input@, '.') <= input@.len(),
            forall|j: int| 0 <= j < find_char(input@, '.') ==> input@[j] != '.',
            find_char(input@, '.') < input@.len() ==> input@[find_char(input@, '.')] == '.',
            i <= t.len(),
            all_b32(t.take(i as int)),
            bits < 8,
            acc < small_pow(bits),
            5 * i == 8 * out@.len() + bits,
            b32_value(t.take(i as int)) == byte_value(out@) * small_pow(bits) + acc,
        decreases v@.len() - i,
    {
        proof {
            if i >= find_char(input@, '.') {
                assert(find_char(input@, '.') == i);
            }
            assert(t[i as int] == v@[i as int]);
        }
        let d: u32 = match digit_value(v[i]) {
            Some(d) => d,
            None => {
                proof {
                    assert(b32_digit(t[i as int]) is None);
                }
                return None;
            },
        };
        proof {
            assert(t.take(i + 1).drop_last() =~= t.take(i as int));
            assert(t.take(i + 1).last() == t[i as int]);
            assert forall|j: int| 0 <= j < i + 1 implies (#[trigger] b32_digit(t.take(i + 1)[j])) is Some by {
                if j < i {
                    assert(t.take(i + 1)[j] == t.take(i as int)[j]);
                }
            }
        }
        let ghost before = byte_value(out@);
        let wide: u32 = acc * 32 + d;
        proof {
            assert(b32_value(t.take(i + 1)) == (before * small_pow(bits) + acc) * 32 + d);
        }
        if bits < 3 {
            proof {
                assert((before * small_pow(bits) + acc) * 32 + d == before * small_pow((bits + 5) as u32) + wide) by {
                    if bits == 0 {
                        assert(small_pow(bits) == 1 && small_pow((bits + 5) as u32) == 32);
                    } else if bits == 1 {
                        assert(small_pow(bits) == 2 && small_pow((bits + 5) as u32) == 64);
                    } else {
                        assert(small_pow(bits) == 4 && small_pow((bits + 5) as u32) == 128);
                    }
                }
            }
            acc = wide;
            bits = bits + 5;
        } else {
            let (b, rest) = take_byte(wide, bits - 3);
            proof {
                assert(out@.push(b).drop_last() =~= out@);
                let left = (bits - 3) as u32;
                assert((before * small_pow(bits) + acc) * 32 + d == (before * 256 + b) * small_pow(left) + rest) by {
                    if bits == 3 {
                    } else if bits == 4 {
                    } else if bits == 5 {
                    } else if bits == 6 {
                    } else {
                        assert(bits == 7);
                    }
                }
            }
            out.push(b);
            acc = rest;
            bits = bits - 3;
        }
        i += 1;
    }
    proof {
        lemma_find_char_at(input@, '.', i as int);
        assert(t.take(i as int) =~= t);
    }
    if bits != 0 {
        return None;
    }
    proof {
        let whole = byte_value(out@);
        let unit = small_pow(bits);
        assert(unit == 1);
        assert(whole * unit == whole) by (nonlinear_arith)
            requires
                unit == 1,
        ;
        assert(is_b32_of(out@, input@));
        lemma_byte_value_injective(out@, choose|b: Seq<u8>| is_b32_of(b, input@));
    }
    Some(out)
}

/// Byte strings of one length that stand for the same number are equal: the value and the length
/// that `base32_decode` promises determine its result.
pub proof fn lemma_byte_value_injective(a: Seq<u8>, b: Seq<u8>)
    requires
        a.len() == b.len(),
        byte_value(a) == byte_value(b),
    ensures
        a == b,
    decreases a.len(),
{
    if a.len() == 0 {
        assert(a =~= b);
    } else {
        lemma_byte_value_injective(a.drop_last(), b.drop_last());
        assert(a =~= a.drop_last().push(a.last()));
        assert(b =~= b.drop_last().push(b.last()));
    }
}

/// Whether `out` is what `f` may return for `input`, fed its own results with `salt` behind them
/// `n` more times.
pub open spec fn hash_steps<F: Fn(&[u8]) -> Vec<u8>>(f: F, input: Seq<u8>, salt: Seq<u8>, n: nat, out: Seq<u8>) -> bool
    decreases n,
{
    exists|x: &[u8], y: Vec<u8>|
        {
            &&& x@ == input
            &&& #[trigger] call_ensures(f, (x,), y)
            &&& if n == 0 {
                out == y@
            } else {
                hash_steps(f, y@ + salt, salt, (n - 1) as nat, out)
            }
        }
}

/// Hashes an owner name for NSEC3 (RFC 5155, section 5): the wire form of the name and the salt are
/// hashed, and the digest and the salt are hashed `iterations` more times.
pub fn hash_name<F: Fn(&[u8]) -> Vec<u8>>(name: &str, salt: &[u8], iterations: u32, hash_fn: F) -> (r: Option<Vec<u8>>)
    requires
        forall|x: &[u8]| call_requires(hash_fn, (x,)),
    ensures
        match r {
            Some(d) => wire_of(name@) is Some && hash_steps(
                hash_fn,
                wire_of(name@)->0 + salt@,
                salt@,
                iterations as nat,
                d@,
            ),
            None => wire_of(name@) is None,
        },
{
    let wire: Vec<u8> = match name_to_wire(name) {
        Some(w) => w,
        None => {
            return None;
        },
    };
    let ghost first = wire@ + salt@;
    let mut input: Vec<u8> = wire;
    append_bytes(&mut input, salt);
    let mut digest: Vec<u8> = hash_fn(input.as_slice());
    let mut k: u32 = 0;
    let ghost n = iterations as nat;
    while k < iterations
        invariant
            k <= iterations,
            n == iterations,
            forall|x: &[u8]| call_requires(hash_fn, (x,)),
            forall|out: Seq<u8>|
                (if k == iterations {
                    out == digest@
                } else {
                    hash_steps(hash_fn, digest@ + salt@, salt@, (n - k - 1) as nat, out)
                }) ==> #[trigger] hash_steps(hash_fn, first, salt@, n, out),
        decreases iterations - k,
    {
        let ghost before = digest@;
        let mut next: Vec<u8> = digest;
        append_bytes(&mut next, salt);
        let fed: &[u8] = next.as_slice();
        digest = hash_fn(fed);
        proof {
            let m = (n - k - 1) as nat;
            assert forall|out: Seq<u8>|
                (if k + 1 == iterations {
                    out == digest@
                } else {
                    hash_steps(hash_fn, digest@ + salt@, salt@, (n - (k + 1) - 1) as nat, out)
                }) implies #[trigger] hash_steps(hash_fn, first, salt@, n, out) by {
                assert(call_ensures(hash_fn, (fed,), digest));
                assert(hash_steps(hash_fn, before + salt@, salt@, m, out));
            }
        }
        k += 1;
    }
    Some(digest)
}

} // verus!
