//! Codes, digits and the layout of records that deny.

use super::basics::{all_b32, b32_bytes, b32_digit, b32_value, byte_value, hash_steps, is_b32_of, lemma_byte_value_injective};
use super::codes::{ede_decides, ede_table};
use super::nsec::{nsec3_of, nsec_of, Nsec3RawView};
use super::reply::{ds_outcome, ds_reply, keys_added, reply_status};
use super::store::{DnssecCache, DsKnown, Status};
use crate::names::{find_char, lemma_find_char, norm, trim_dots};
use crate::rfc1035::RrView;
use crate::wire::{be16, law_wire_name_round_trip, name_labels, name_wire};
use vstd::prelude::*;
use vstd::utf8::encode_utf8;

verus! {

/// The failures that have a code of their own, by their flags, the most urgent first.
pub open spec fn failures() -> Seq<u32> {
    seq![1, 2, 4, 8, 16, 32, 64, 128, 256, 512, 1024]
}

/// Of several failures the most urgent gives the code: trouble upstream, a signature that is not yet valid or not any more, a key
/// that is not supported, no zone key, no key at all, a DS record that is not supported, too many iterations, no record that
/// denies, an open end, and no signature. Without any of these there is no code.
pub proof fn law_most_urgent_failure(status: u32, i: int)
    requires
        0 <= i < 11,
        status & failures()[i] != 0,
        forall|j: int| 0 <= j < i ==> status & #[trigger] failures()[j] == 0,
    ensures
        ede_decides(status, i),
        ede_table().len() == 11,
        ede_table()[i].1 == seq![23u16, 8, 7, 11, 9, 10, 12, 27, 14, 13, 15][i],
{
    let t = ede_table();
    assert(t[0].0 == 1 && t[1].0 == 2 && t[2].0 == 4 && t[3].0 == 8 && t[4].0 == 16 && t[5].0 == 32);
    assert(t[6].0 == 64 && t[7].0 == 128 && t[8].0 == 256 && t[9].0 == 512 && t[10].0 == 1024);
    assert forall|j: int| 0 <= j < i implies status & (#[trigger] ede_table()[j]).0 == 0 by {
        assert(t[j].0 == failures()[j]);
    }
    assert(t[i].0 == failures()[i]);
}

/// The digits from 0 to 9 stand for themselves, and the letters from a to v, in either case, for what follows; no other character
/// is a digit.
pub proof fn law_base32_digits(k: u8, c: char)
    ensures
        k < 10 ==> b32_digit((48 + k) as u8 as char) == Some(k as nat),
        10 <= k < 32 ==> b32_digit((87 + k) as u8 as char) == Some(k as nat) && b32_digit((55 + k) as u8 as char) == Some(k as nat),
        !('0' <= c <= '9') && !('a' <= c <= 'v') && !('A' <= c <= 'V') ==> b32_digit(c) is None,
{
}

/// One more digit.
proof fn lemma_next_digit(s: Seq<char>, i: int)
    requires
        0 <= i < s.len(),
    ensures
        b32_value(s.take(i + 1)) == b32_value(s.take(i)) * 32 + b32_digit(s[i])->0,
{
    assert(s.take(i + 1).drop_last() =~= s.take(i));
}

/// One more byte.
proof fn lemma_next_byte(s: Seq<u8>, i: int)
    requires
        0 <= i < s.len(),
    ensures
        byte_value(s.take(i + 1)) == byte_value(s.take(i)) * 256 + s[i],
{
    assert(s.take(i + 1).drop_last() =~= s.take(i));
}

/// Eight digits behind others count thirty-two times less, one by one.
proof fn lemma_eight(pre: Seq<char>, s: Seq<char>)
    requires
        s.len() == 8,
    ensures
        b32_value(pre + s) == ((((((((b32_value(pre) * 32 + b32_digit(s[0])->0) * 32 + b32_digit(s[1])->0) * 32 + b32_digit(s[2])->0) * 32
            + b32_digit(s[3])->0) * 32 + b32_digit(s[4])->0) * 32 + b32_digit(s[5])->0) * 32 + b32_digit(s[6])->0) * 32 + b32_digit(
            s[7],
        )->0) as nat,
{
    let all = pre + s;
    let n = pre.len() as int;
    assert(all.take(n) =~= pre);
    lemma_next_digit(all, n);
    lemma_next_digit(all, n + 1);
    lemma_next_digit(all, n + 2);
    lemma_next_digit(all, n + 3);
    lemma_next_digit(all, n + 4);
    lemma_next_digit(all, n + 5);
    lemma_next_digit(all, n + 6);
    lemma_next_digit(all, n + 7);
    assert(all.take(n + 8) =~= all);
}

/// Five bytes behind others count so many times less, one by one.
proof fn lemma_five(pre: Seq<u8>, b: Seq<u8>)
    requires
        b.len() == 5,
    ensures
        byte_value(pre + b) == (((((byte_value(pre) * 256 + b[0]) * 256 + b[1]) * 256 + b[2]) * 256 + b[3]) * 256 + b[4]) as nat,
{
    let all = pre + b;
    let n = pre.len() as int;
    assert(all.take(n) =~= pre);
    lemma_next_byte(all, n);
    lemma_next_byte(all, n + 1);
    lemma_next_byte(all, n + 2);
    lemma_next_byte(all, n + 3);
    lemma_next_byte(all, n + 4);
    assert(all.take(n + 5) =~= all);
}

/// Whether five bytes hold the bits of eight digits of five bits each, in order.
pub open spec fn same_bits(d: Seq<nat>, b: Seq<u8>) -> bool {
    &&& d.len() == 8 && b.len() == 5
    &&& forall|i: int| 0 <= i < 8 ==> #[trigger] d[i] < 32
    &&& b[0] == d[0] * 8 + d[1] / 4
    &&& b[1] == d[1] % 4 * 64 + d[2] * 2 + d[3] / 16
    &&& b[2] == d[3] % 16 * 16 + d[4] / 2
    &&& b[3] == d[4] % 2 * 128 + d[5] * 4 + d[6] / 8
    &&& b[4] == d[6] % 8 * 32 + d[7]
}

/// Eight digits in base 32 hold five bytes, bit by bit, whatever stands before them; what follows a dot does not count.
pub proof fn law_base32_holds_the_bits(pre: Seq<char>, s: Seq<char>, d: Seq<nat>, b: Seq<u8>, after: Seq<char>)
    requires
        s.len() == 8,
        pre.len() % 8 == 0,
        all_b32(pre),
        forall|i: int| 0 <= i < 8 ==> b32_digit(#[trigger] s[i]) == Some(d[i]),
        same_bits(d, b),
        after.len() == 0 || after[0] == '.',
    ensures
        b32_bytes(pre) matches Some(p) && b32_bytes(pre + s + after) == Some(p + b),
        b32_bytes(Seq::empty()) == Some(Seq::<u8>::empty()),
{
    lemma_plain(pre, Seq::empty());
    lemma_whole(pre);
    let p = b32_bytes(pre)->0;
    assert forall|i: int| 0 <= i < (pre + s).len() implies (#[trigger] b32_digit((pre + s)[i])) is Some by {
        if i < pre.len() {
            assert(b32_digit(pre[i]) is Some);
            assert((pre + s)[i] == pre[i]);
        } else {
            assert((pre + s)[i] == s[i - pre.len()]);
        }
    }
    lemma_plain(pre + s, after);
    let input = pre + s + after;
    assert(is_b32_of(p + b, input)) by {
        lemma_eight(pre, s);
        lemma_five(p, b);
        lemma_same_number(d, b, b32_value(pre) as int);
        assert(pre + Seq::<char>::empty() =~= pre);
    }
    let q = choose|q: Seq<u8>| is_b32_of(q, input);
    lemma_byte_value_injective(q, p + b);
    let e = Seq::<char>::empty();
    lemma_plain(e, e);
    assert(e + e =~= e);
    assert(is_b32_of(Seq::<u8>::empty(), e));
    let z = choose|z: Seq<u8>| is_b32_of(z, e);
    lemma_byte_value_injective(z, Seq::<u8>::empty());
}

/// The same bits make the same number.
proof fn lemma_same_number(d: Seq<nat>, b: Seq<u8>, x: int)
    requires
        same_bits(d, b),
    ensures
        (((((((x * 32 + d[0]) * 32 + d[1]) * 32 + d[2]) * 32 + d[3]) * 32 + d[4]) * 32 + d[5]) * 32 + d[6]) * 32 + d[7] == ((((x * 256
            + b[0]) * 256 + b[1]) * 256 + b[2]) * 256 + b[3]) * 256 + b[4],
{
    assert(d[1] == 4 * (d[1] / 4) + d[1] % 4);
    assert(d[3] == 16 * (d[3] / 16) + d[3] % 16);
    assert(d[4] == 2 * (d[4] / 2) + d[4] % 2);
    assert(d[6] == 8 * (d[6] / 8) + d[6] % 8);
}

/// Digits end where a dot follows them.
proof fn lemma_plain(s: Seq<char>, after: Seq<char>)
    requires
        all_b32(s),
        after.len() == 0 || after[0] == '.',
    ensures
        find_char(s + after, '.') == s.len(),
        (s + after).take(s.len() as int) == s,
        find_char(s, '.') == s.len(),
        s.take(s.len() as int) == s,
{
    lemma_find_char(s + after, '.');
    lemma_find_char(s, '.');
    assert((s + after).take(s.len() as int) =~= s);
    assert(s.take(s.len() as int) =~= s);
    let n = find_char(s + after, '.');
    if n < s.len() {
        assert((s + after)[n] == s[n]);
        assert(b32_digit(s[n]) is Some);
    }
    let k = find_char(s, '.');
    if k < s.len() {
        assert(b32_digit(s[k]) is Some);
    }
    if after.len() > 0 {
        assert((s + after)[s.len() as int] == '.');
    }
}

/// Whole bytes can be read from digits that fill them.
proof fn lemma_whole(s: Seq<char>)
    requires
        all_b32(s),
        s.len() % 8 == 0,
    ensures
        b32_bytes(s) is Some,
        is_b32_of(b32_bytes(s)->0, s),
    decreases s.len(),
{
    lemma_plain(s, Seq::empty());
    if s.len() == 0 {
        assert(is_b32_of(Seq::<u8>::empty(), s));
    } else {
        let n = s.len() - 8;
        let (pre, tail) = (s.take(n), s.skip(n));
        assert(pre + tail =~= s);
        assert forall|i: int| 0 <= i < pre.len() implies (#[trigger] b32_digit(pre[i])) is Some by {
            assert(pre[i] == s[i]);
        }
        lemma_plain(pre, Seq::empty());
        lemma_whole(pre);
        let d = Seq::new(8, |i: int| b32_digit(tail[i])->0);
        assert forall|i: int| 0 <= i < 8 implies #[trigger] d[i] < 32 by {
            assert(tail[i] == s[n + i]);
            assert(b32_digit(s[n + i]) is Some);
        }
        let b = seq![
            (d[0] * 8 + d[1] / 4) as u8,
            (d[1] % 4 * 64 + d[2] * 2 + d[3] / 16) as u8,
            (d[3] % 16 * 16 + d[4] / 2) as u8,
            (d[4] % 2 * 128 + d[5] * 4 + d[6] / 8) as u8,
            (d[6] % 8 * 32 + d[7]) as u8,
        ];
        lemma_eight(pre, tail);
        lemma_five(b32_bytes(pre)->0, b);
        lemma_same_number(d, b, b32_value(pre) as int);
        assert(is_b32_of(b32_bytes(pre)->0 + b, s));
    }
}

/// An NSEC3 record is read as it was written: algorithm, flags, iterations, the salt and the next hash each behind its length,
/// and the bitmap. One that ends too soon is not read.
pub proof fn law_nsec3_is_read_back(
    algo: u8,
    flags: u8,
    hi: u8,
    lo: u8,
    salt: Seq<u8>,
    next: Seq<u8>,
    bitmap: Seq<u8>,
    owner_hash: Seq<u8>,
    short: int,
)
    requires
        salt.len() < 256,
        next.len() < 256,
    ensures
        ({
            let head = seq![algo, flags, hi, lo, salt.len() as u8] + salt + seq![next.len() as u8] + next;
            &&& nsec3_of(head + bitmap, owner_hash) == Some(
                Nsec3RawView {
                    algo,
                    flags,
                    iterations: (hi * 256 + lo) as u32,
                    salt,
                    owner_hash,
                    next_hashed: next,
                    bitmap,
                },
            )
            &&& 0 <= short < head.len() ==> nsec3_of(head.take(short), owner_hash) is None
        }),
{
    let head = seq![algo, flags, hi, lo, salt.len() as u8] + salt + seq![next.len() as u8] + next;
    let s = head + bitmap;
    let end = 5 + salt.len() as int;
    assert(s[0] == algo && s[1] == flags && s[2] == hi && s[3] == lo && s[4] == salt.len());
    assert(s[end] == next.len());
    assert(be16(s, 2) == hi * 256 + lo);
    assert(s.subrange(5, end) =~= salt);
    assert(s.subrange(end + 1, end + 1 + next.len() as int) =~= next);
    assert(s.skip(end + 1 + next.len() as int) =~= bitmap);
    if 0 <= short < head.len() {
        let t = head.take(short);
        if short >= 5 {
            assert(t[4] == salt.len());
            if short >= end + 1 {
                assert(t[end] == next.len());
            }
        }
    }
}

/// An NSEC record is read as it was written: the next name, and the bitmap behind it.
pub proof fn law_nsec_is_read_back(next: Seq<char>, bitmap: Seq<u8>)
    requires
        forall|i: int| 0 <= i < name_labels(next).len() ==> 1 <= encode_utf8(#[trigger] name_labels(next)[i]).len() <= 63,
    ensures
        nsec_of(name_wire(next) + bitmap) == Some((trim_dots(next), bitmap)),
{
    law_wire_name_round_trip(next, bitmap);
    let s = name_wire(next) + bitmap;
    assert(s.skip(name_wire(next).len() as int) =~= bitmap);
}

/// Whether each of these is what a function may give for the one before with the salt behind it, and the first what it may give
/// for the input.
pub open spec fn is_chain<F: Fn(&[u8]) -> Vec<u8>>(f: F, input: Seq<u8>, salt: Seq<u8>, chain: Seq<Seq<u8>>) -> bool {
    forall|k: int| 0 <= k < chain.len() ==> gives(
        f,
        if k == 0 {
            input
        } else {
            chain[k - 1] + salt
        },
        #[trigger] chain[k],
    )
}

/// Whether a function may give this for an input.
pub open spec fn gives<F: Fn(&[u8]) -> Vec<u8>>(f: F, input: Seq<u8>, out: Seq<u8>) -> bool {
    exists|x: &[u8], y: Vec<u8>| x@ == input && #[trigger] call_ensures(f, (x,), y) && y@ == out
}

/// A hash that is iterated so many times is the last of as many results and one more, each of which is the hash of the one before
/// with the salt behind it.
pub proof fn law_hash_is_iterated<F: Fn(&[u8]) -> Vec<u8>>(f: F, input: Seq<u8>, salt: Seq<u8>, n: nat, out: Seq<u8>)
    requires
        hash_steps(f, input, salt, n, out),
    ensures
        exists|chain: Seq<Seq<u8>>| chain.len() == n + 1 && chain.last() == out && #[trigger] is_chain(f, input, salt, chain),
    decreases n,
{
    let (x, y) = choose|x: &[u8], y: Vec<u8>|
        {
            &&& x@ == input
            &&& #[trigger] call_ensures(f, (x,), y)
            &&& if n == 0 {
                out == y@
            } else {
                hash_steps(f, y@ + salt, salt, (n - 1) as nat, out)
            }
        };
    assert(gives(f, input, y@));
    if n == 0 {
        let chain = seq![out];
        assert(is_chain(f, input, salt, chain));
    } else {
        law_hash_is_iterated(f, y@ + salt, salt, (n - 1) as nat, out);
        let rest = choose|c: Seq<Seq<u8>>| c.len() == n && c.last() == out && #[trigger] is_chain(f, y@ + salt, salt, c);
        let chain = seq![y@] + rest;
        assert forall|k: int| 0 <= k < chain.len() implies gives(
            f,
            if k == 0 {
                input
            } else {
                chain[k - 1] + salt
            },
            #[trigger] chain[k],
        ) by {
            if k > 0 {
                assert(chain[k] == rest[k - 1]);
                if k > 1 {
                    assert(chain[k - 1] == rest[k - 2]);
                }
            }
        }
        assert(is_chain(f, input, salt, chain));
        assert(chain.last() == rest.last());
    }
}

/// The reply to a DS query is judged as any reply, by its answer and its authority section; only where the server failed, which
/// has the code 2, nothing is judged, and the name is taken to be no zone cut.
pub proof fn law_ds_reply(
    answer: Seq<RrView>,
    auth: Seq<RrView>,
    name: Seq<char>,
    class: u16,
    rcode: u8,
    now: u32,
    cache: DnssecCache,
    counter: i32,
    limit: u32,
)
    ensures
        rcode == 2 ==> ds_reply(answer, auth, name, class, rcode, now, cache, counter, limit) == (
            Ok::<DsKnown, Status>(DsKnown::NegNotZoneCut),
            counter,
        ),
        rcode != 2 ==> ({
            let (rc, nons, left) = reply_status(answer, auth, name, 43, class, rcode, now, cache, counter, false, Some(false), limit);
            let got = ds_reply(answer, auth, name, class, rcode, now, cache, counter, limit);
            got.1 == left && got.0 == ds_outcome(answer, name, class, false, rc, nons->0)
        }),
{
}

/// Keys that are added to a store are found under their name, in whatever case it is written, behind those that were there; all
/// other names know what they knew.
pub proof fn law_added_keys_are_found(a: DnssecCache, b: DnssecCache, name: Seq<char>, keys: Seq<(Seq<u8>, u16)>, n: Seq<char>, i: int)
    requires
        keys_added(a, b, name, keys),
    ensures
        norm(n) == norm(name) && 0 <= i < keys.len() ==> a.keys_of_name(n)[b.keys_of_name(n).len() + i] == keys[i],
        norm(n) == norm(name) && 0 <= i < b.keys_of_name(n).len() ==> a.keys_of_name(n)[i] == b.keys_of_name(n)[i],
        norm(n) != norm(name) ==> a.keys_of_name(n) == b.keys_of_name(n),
        a.ds_of_name(n) == b.ds_of_name(n),
{
}

} // verus!
