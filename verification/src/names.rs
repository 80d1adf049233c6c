//! Domain names in dotted form: labels, suffixes and canonical order.

use crate::text::{from_chars, lower, to_chars, to_lower, views};
use vstd::prelude::*;

verus! {

/// The position of the first `c` in `s`, or the length of `s` when there is none.
pub open spec fn find_char(s: Seq<char>, c: char) -> int
    decreases s.len(),
{
    if s.len() == 0 || s[0] == c {
        0
    } else {
        1 + find_char(s.skip(1), c)
    }
}

/// The dot-separated labels of `s`; a name without a dot is one label.
pub open spec fn split(s: Seq<char>) -> Seq<Seq<char>>
    decreases s.len(),
{
    let k = find_char(s, '.');
    if 0 <= k < s.len() {
        seq![s.take(k)] + split(s.skip(k + 1))
    } else {
        seq![s]
    }
}

/// The labels joined by dots.
pub open spec fn join(parts: Seq<Seq<char>>) -> Seq<char>
    decreases parts.len(),
{
    if parts.len() == 0 {
        seq![]
    } else if parts.len() == 1 {
        parts[0]
    } else {
        join(parts.drop_last()).push('.') + parts.last()
    }
}

/// `s` without its trailing dots.
pub open spec fn trim_dots(s: Seq<char>) -> Seq<char>
    decreases s.len(),
{
    if s.len() > 0 && s.last() == '.' {
        trim_dots(s.drop_last())
    } else {
        s
    }
}

/// The form of a name under which it is looked up: lower case, no trailing dot.
pub open spec fn norm(s: Seq<char>) -> Seq<char> {
    lower(trim_dots(s))
}

/// `find_char` gives the first position that holds `c`.
pub proof fn lemma_find_char(s: Seq<char>, c: char)
    ensures
        0 <= find_char(s, c) <= s.len(),
        forall|i: int| 0 <= i < find_char(s, c) ==> s[i] != c,
        find_char(s, c) < s.len() ==> s[find_char(s, c)] == c,
    decreases s.len(),
{
    if s.len() == 0 || s[0] == c {
    } else {
        lemma_find_char(s.skip(1), c);
        assert forall|i: int| 0 <= i < find_char(s, c) implies s[i] != c by {
            if i > 0 {
                assert(s.skip(1)[i - 1] == s[i]);
            }
        }
    }
}

/// The first position that holds `c` is the one before which `c` does not occur.
pub proof fn lemma_find_char_at(s: Seq<char>, c: char, k: int)
    requires
        0 <= k <= s.len(),
        forall|i: int| 0 <= i < k ==> s[i] != c,
        k < s.len() ==> s[k] == c,
    ensures
        find_char(s, c) == k,
{
    lemma_find_char(s, c);
    let f = find_char(s, c);
    if f < k {
        assert(s[f] == c);
    }
    if k < f {
        assert(s[k] != c);
    }
}

/// A name has at least one label.
pub proof fn lemma_split_len(s: Seq<char>)
    ensures
        split(s).len() >= 1,
    decreases s.len(),
{
    let k = find_char(s, '.');
    if 0 <= k < s.len() {
        lemma_split_len(s.skip(k + 1));
    }
}

/// Joining a label to the front of a list of labels.
pub proof fn lemma_join_front(first: Seq<char>, rest: Seq<Seq<char>>)
    requires
        rest.len() >= 1,
    ensures
        join(seq![first] + rest) == first.push('.') + join(rest),
    decreases rest.len(),
{
    let all = seq![first] + rest;
    assert(all.last() == rest.last());
    assert(all.drop_last() == seq![first] + rest.drop_last());
    if rest.len() == 1 {
        assert(all.drop_last() == seq![first]);
        assert(rest.last() == rest[0]);
        assert(join(all.drop_last()) == first);
    } else {
        lemma_join_front(first, rest.drop_last());
        assert(join(all) == (first.push('.') + join(rest.drop_last())).push('.') + rest.last());
        assert(join(all) =~= first.push('.') + (join(rest.drop_last()).push('.') + rest.last()));
    }
}

/// Joining the labels of a name gives the name back.
pub proof fn lemma_join_split(s: Seq<char>)
    ensures
        join(split(s)) == s,
    decreases s.len(),
{
    let k = find_char(s, '.');
    lemma_find_char(s, '.');
    if 0 <= k < s.len() {
        lemma_join_split(s.skip(k + 1));
        lemma_split_len(s.skip(k + 1));
        lemma_join_front(s.take(k), split(s.skip(k + 1)));
        assert(s.take(k).push('.') + s.skip(k + 1) =~= s);
    }
}

/// Labels that hold no dot come back from the name that they were joined into.
pub proof fn lemma_split_join(parts: Seq<Seq<char>>)
    requires
        parts.len() >= 1,
        forall|i: int| 0 <= i < parts.len() ==> !(#[trigger] parts[i]).contains('.'),
    ensures
        split(join(parts)) == parts,
    decreases parts.len(),
{
    let first = parts[0];
    assert(!parts[0].contains('.'));
    if parts.len() == 1 {
        lemma_find_char_at(first, '.', first.len() as int);
        assert(split(first) =~= parts);
    } else {
        let rest = parts.skip(1);
        assert(parts == seq![first] + rest);
        assert forall|i: int| 0 <= i < rest.len() implies !(#[trigger] rest[i]).contains('.') by {
            assert(rest[i] == parts[i + 1]);
        }
        lemma_split_join(rest);
        lemma_join_front(first, rest);
        let s = join(parts);
        assert(s == first.push('.') + join(rest));
        lemma_find_char_at(s, '.', first.len() as int);
        assert(s.take(first.len() as int) =~= first);
        assert(s.skip(first.len() as int + 1) =~= join(rest));
    }
}

/// Splits a name at its dots.
pub fn split_labels(name: &str) -> (parts: Vec<String>)
    ensures
        views(parts@) == split(name@),
        parts@.len() >= 1,
{
    let v: Vec<char> = to_chars(name);
    let mut parts: Vec<String> = Vec::new();
    let mut start: usize = 0;
    let mut i: usize = 0;
    assert(v@.skip(0) =~= v@);
    assert(views(parts@) + split(v@.skip(0)) =~= split(v@));
    while i < v.len()
        invariant
            start <= i <= v@.len(),
            v@ == name@,
            views(parts@) + split(v@.skip(start as int)) == split(v@),
            forall|j: int| start <= j < i ==> v@[j] != '.',
        decreases v@.len() - i,
    {
        if v[i] == '.' {
            let label: String = from_chars(v.as_slice(), start, i);
            proof {
                let rest = v@.skip(start as int);
                let k = i - start;
                lemma_find_char_at(rest, '.', k);
                assert(rest.take(k) =~= label@);
                assert(rest.skip(k + 1) =~= v@.skip(i + 1));
                assert(views(parts@.push(label)) =~= views(parts@).push(label@));
                assert(views(parts@).push(label@) + split(v@.skip(i + 1)) =~= views(parts@) + (seq![label@] + split(
                    v@.skip(i + 1),
                )));
            }
            parts.push(label);
            start = i + 1;
        }
        i += 1;
    }
    let label: String = from_chars(v.as_slice(), start, v.len());
    proof {
        let rest = v@.skip(start as int);
        lemma_find_char_at(rest, '.', rest.len() as int);
        assert(rest =~= label@);
        assert(views(parts@.push(label)) =~= views(parts@) + seq![label@]);
    }
    parts.push(label);
    parts
}

/// Joins the labels `parts[from..]` with dots.
pub fn join_labels(parts: &Vec<String>, from: usize) -> (s: String)
    requires
        from <= parts@.len(),
    ensures
        s@ == join(views(parts@).skip(from as int)),
{
    let mut s = String::new();
    let mut i: usize = from;
    let ghost all = views(parts@);
    assert(all.subrange(from as int, from as int) =~= Seq::<Seq<char>>::empty());
    while i < parts.len()
        invariant
            from <= i <= parts@.len(),
            all == views(parts@),
            s@ == join(all.subrange(from as int, i as int)),
        decreases parts@.len() - i,
    {
        let ghost before = s@;
        if i > from {
            s.push('.');
        }
        s.append(parts[i].as_str());
        proof {
            let more = all.subrange(from as int, i + 1);
            assert(more.drop_last() =~= all.subrange(from as int, i as int));
            assert(more.last() == all[i as int]);
            assert(all[i as int] == parts@[i as int]@);
            if i == from {
                assert(s@ =~= all[i as int]);
            }
        }
        i += 1;
    }
    assert(all.subrange(from as int, all.len() as int) =~= all.skip(from as int));
    s
}

/// The name without its trailing dots.
pub fn trim_end_dots(name: &str) -> (r: String)
    ensures
        r@ == trim_dots(name@),
{
    let v: Vec<char> = to_chars(name);
    let mut n: usize = v.len();
    assert(v@.take(n as int) =~= v@);
    while n > 0 && v[n - 1] == '.'
        invariant
            n <= v@.len(),
            v@ == name@,
            trim_dots(v@.take(n as int)) == trim_dots(name@),
        decreases n,
    {
        assert(v@.take(n as int).drop_last() =~= v@.take(n - 1));
        n -= 1;
    }
    assert(v@.take(n as int) =~= v@.subrange(0, n as int));
    from_chars(v.as_slice(), 0, n)
}

/// Normalises a name for use as a lookup key: lower case, no trailing dot.
pub fn norm_name(name: &str) -> (r: String)
    ensures
        r@ == norm(name@),
{
    let t: String = trim_end_dots(name);
    to_lower(t.as_str())
}

} // verus!
