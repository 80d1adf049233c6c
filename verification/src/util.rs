//! Small helpers of the DHCP code.

use crate::text::{decimal, plus, to_chars, to_decimal};
use vstd::prelude::*;

verus! {

/// Whether byte `i` of `n` may be anything: the lowest bit of `mask` stands for the last byte, and there
/// is none for bytes before the last 32.
pub open spec fn is_wild(mask: u32, n: int, i: int) -> bool {
    0 <= n - 1 - i < 32 && (mask >> ((n - 1 - i) as u32)) & 1 == 1
}

/// Whether the bytes agree wherever the mask asks for it.
pub open spec fn masked_equal(a: Seq<u8>, b: Seq<u8>, mask: u32) -> bool {
    forall|i: int| 0 <= i < a.len() && !is_wild(mask, a.len() as int, i) ==> #[trigger] a[i] == b[i]
}

/// How many of the first `k` bytes of `n`, counted from the last, the mask asks to agree.
pub open spec fn checked_bytes(mask: u32, n: int, k: int) -> nat
    decreases k,
{
    if k <= 0 {
        0
    } else if is_wild(mask, n, n - k) {
        checked_bytes(mask, n, k - 1)
    } else {
        checked_bytes(mask, n, k - 1) + 1
    }
}

/// Compares the bytes of `a` with those of `b` that stand at the same places, except where `mask` has a
/// bit. Gives 0 where they differ, else one more than the number of bytes that were compared, so that a
/// closer match gives a larger number.
pub fn match_masked(a: &[u8], b: &[u8], mask: u32) -> (r: usize)
    requires
        a@.len() <= b@.len(),
        a@.len() < usize::MAX,
    ensures
        r == if masked_equal(a@, b@, mask) {
            checked_bytes(mask, a@.len() as int, a@.len() as int) + 1
        } else {
            0
        },
{
    let n: usize = a.len();
    let mut count: usize = 1;
    let mut k: usize = 0;
    while k < n
        invariant
            k <= n,
            n == a@.len(),
            n < usize::MAX,
            a@.len() <= b@.len(),
            count <= k + 1,
            count == checked_bytes(mask, n as int, k as int) + 1,
            forall|i: int| n - k <= i < n && !is_wild(mask, n as int, i) ==> #[trigger] a@[i] == b@[i],
        decreases n - k,
    {
        let i: usize = n - 1 - k;
        let wild: bool = k < 32 && (mask >> (k as u32)) & 1 == 1;
        assert(wild == is_wild(mask, n as int, i as int));
        if !wild {
            if a[i] != b[i] {
                assert(a@[i as int] != b@[i as int]);
                return 0;
            }
            count += 1;
        }
        k += 1;
    }
    count
}

/// A part of a duration, nothing where it is zero.
pub open spec fn time_part(n: u32, unit: Seq<char>) -> Seq<char> {
    if n > 0 {
        decimal(n as nat) + unit
    } else {
        seq![]
    }
}

/// A lease time as text: days, hours, minutes and seconds without those that are zero.
pub open spec fn lease_time_text(t: u32) -> Seq<char> {
    if t == 0xffff_ffff {
        "infinite"@
    } else {
        time_part(t / 86400, "d"@) + time_part(t / 3600 % 24, "h"@) + time_part(t / 60 % 60, "m"@) + time_part(
            t % 60,
            "s"@,
        )
    }
}

/// Writes a part of a duration.
fn write_part(n: u32, unit: &str) -> (s: String)
    ensures
        s@ == time_part(n, unit@),
{
    if n > 0 {
        plus(to_decimal(n as u64), unit)
    } else {
        let s: String = String::new();
        assert(s@ =~= seq![]);
        s
    }
}

/// Writes a lease time, such as `1h` or `infinite`.
pub fn prettyprint_time(t: u32) -> (s: String)
    ensures
        s@ == lease_time_text(t),
{
    if t == 0xffff_ffff {
        return String::from_str("infinite");
    }
    let d: String = write_part(t / 86400, "d");
    let h: String = write_part(t / 3600 % 24, "h");
    let m: String = write_part(t / 60 % 60, "m");
    let s: String = write_part(t % 60, "s");
    plus(plus(plus(d, h.as_str()), m.as_str()), s.as_str())
}

/// Whether a pattern matches a name: character by character up to a star, which matches at least one
/// character and all after it. Where `limit` is not negative, only so many characters count.
pub open spec fn wild_match(pattern: Seq<char>, name: Seq<char>, limit: int) -> bool
    decreases pattern.len(),
{
    if limit == 0 {
        true
    } else if pattern.len() == 0 || name.len() == 0 {
        pattern.len() == name.len()
    } else if pattern[0] == '*' {
        true
    } else if pattern[0] != name[0] {
        false
    } else {
        wild_match(pattern.skip(1), name.skip(1), limit - 1)
    }
}

/// Whether a pattern matches a name, of which only `limit` characters count.
pub fn wildcard_matchn(pattern: &str, name: &str, limit: Option<usize>) -> (r: bool)
    ensures
        r == wild_match(
            pattern@,
            name@,
            match limit {
                Some(n) => n as int,
                None => -1,
            },
        ),
{
    let p: Vec<char> = to_chars(pattern);
    let n: Vec<char> = to_chars(name);
    let ghost left: int = match limit {
        Some(k) => k as int,
        None => -1,
    };
    let ghost goal = wild_match(pattern@, name@, left);
    let mut i: usize = 0;
    assert(p@.skip(0) =~= p@);
    assert(n@.skip(0) =~= n@);
    loop
        invariant
            i <= p@.len(),
            i <= n@.len(),
            left == (match limit {
                Some(k) => k as int,
                None => -1,
            }),
            limit matches Some(k) ==> i <= k,
            p@ == pattern@,
            n@ == name@,
            goal == wild_match(pattern@, name@, left),
            goal == wild_match(p@.skip(i as int), n@.skip(i as int), left - i),
        decreases p@.len() - i,
    {
        if let Some(k) = limit {
            if i == k {
                return true;
            }
        }
        if i == p.len() || i == n.len() {
            return p.len() == n.len();
        }
        if p[i] == '*' {
            return true;
        }
        if p[i] != n[i] {
            return false;
        }
        proof {
            assert(p@.skip(i as int).skip(1) =~= p@.skip(i + 1));
            assert(n@.skip(i as int).skip(1) =~= n@.skip(i + 1));
        }
        i += 1;
    }
}

} // verus!
