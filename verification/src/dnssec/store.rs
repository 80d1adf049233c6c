//! What is known of DS and DNSKEY records, and the signing status of zones.

use super::records::{DsData, DsView};
use crate::crypto::{algo_supported, algorithm_of, digest_supported, ds_digest_supported};
use crate::names::{join, join_labels, norm, norm_name, split, split_labels};
use crate::text::{same, views};
use vstd::prelude::*;

verus! {

/// The outcome of a validation.
#[derive(Debug, Clone, PartialEq, Eq)]
pub enum StatCode {
    Secure,
    Insecure,
    Bogus,
    /// The DNSKEY records of `name` and `class` are needed to go on.
    NeedKey { name: String, class: u16 },
    /// The DS records of `name` and `class` are needed to go on.
    NeedDs { name: String, class: u16 },
    /// The work limit was reached.
    Abandoned,
}

/// The outcome of a validation and the failure flags that explain it.
#[derive(Debug, Clone, PartialEq, Eq)]
pub struct ValidateStatus {
    pub code: StatCode,
    pub fail: u32,
}

/// The model of a `StatCode`.
pub enum Code {
    Secure,
    Insecure,
    Bogus,
    NeedKey { name: Seq<char>, class: u16 },
    NeedDs { name: Seq<char>, class: u16 },
    Abandoned,
}

/// The model of a `ValidateStatus`.
pub struct Status {
    pub code: Code,
    pub fail: u32,
}

impl View for StatCode {
    type V = Code;

    open spec fn view(&self) -> Code {
        match *self {
            StatCode::Secure => Code::Secure,
            StatCode::Insecure => Code::Insecure,
            StatCode::Bogus => Code::Bogus,
            StatCode::NeedKey { name, class } => Code::NeedKey { name: name@, class },
            StatCode::NeedDs { name, class } => Code::NeedDs { name: name@, class },
            StatCode::Abandoned => Code::Abandoned,
        }
    }
}

impl View for ValidateStatus {
    type V = Status;

    open spec fn view(&self) -> Status {
        Status { code: self.code@, fail: self.fail }
    }
}

/// An outcome without failure flags.
pub open spec fn plain(code: Code) -> Status {
    Status { code, fail: 0 }
}

/// A bogus outcome with failure flags.
pub open spec fn bogus_status(fail: u32) -> Status {
    Status { code: Code::Bogus, fail }
}

impl ValidateStatus {
    pub fn secure() -> (r: Self)
        ensures
            r@ == plain(Code::Secure),
    {
        Self { code: StatCode::Secure, fail: 0 }
    }

    pub fn insecure() -> (r: Self)
        ensures
            r@ == plain(Code::Insecure),
    {
        Self { code: StatCode::Insecure, fail: 0 }
    }

    pub fn bogus(fail: u32) -> (r: Self)
        ensures
            r@ == bogus_status(fail),
    {
        Self { code: StatCode::Bogus, fail }
    }

    pub fn need_key(name: &str, class: u16) -> (r: Self)
        ensures
            r@ == plain(Code::NeedKey { name: name@, class }),
    {
        Self { code: StatCode::NeedKey { name: String::from_str(name), class }, fail: 0 }
    }

    pub fn need_ds(name: &str, class: u16) -> (r: Self)
        ensures
            r@ == plain(Code::NeedDs { name: name@, class }),
    {
        Self { code: StatCode::NeedDs { name: String::from_str(name), class }, fail: 0 }
    }

    pub fn abandoned() -> (r: Self)
        ensures
            r@ == plain(Code::Abandoned),
    {
        Self { code: StatCode::Abandoned, fail: 0 }
    }

    /// Whether the outcome is secure.
    pub fn is_secure(&self) -> (r: bool)
        ensures
            r == (self@.code is Secure),
    {
        match &self.code {
            StatCode::Secure => true,
            _ => false,
        }
    }
}

/// What is known of the DS records of a name.
#[derive(Debug, Clone)]
pub enum DsState {
    /// DS records, each with its class.
    Positive(Vec<(DsData, u16)>),
    /// There are none, and the name is a zone cut: the zone is not signed.
    NegInsecure,
    /// There are none, and the name is no zone cut.
    NegNotZoneCut,
}

/// The model of a `DsState`.
pub enum DsKnown {
    Positive(Seq<(DsView, u16)>),
    NegInsecure,
    NegNotZoneCut,
}

/// The models of DS records with their classes.
pub open spec fn entry_views(v: Seq<(DsData, u16)>) -> Seq<(DsView, u16)> {
    v.map_values(|e: (DsData, u16)| (e.0@, e.1))
}

/// The models of keys with their classes.
pub open spec fn keyed_views(v: Seq<(Vec<u8>, u16)>) -> Seq<(Seq<u8>, u16)> {
    v.map_values(|e: (Vec<u8>, u16)| (e.0@, e.1))
}

/// The views of byte slices.
pub open spec fn slice_views(v: Seq<&[u8]>) -> Seq<Seq<u8>> {
    v.map_values(|b: &[u8]| b@)
}

impl View for DsState {
    type V = DsKnown;

    open spec fn view(&self) -> DsKnown {
        match *self {
            DsState::Positive(v) => DsKnown::Positive(entry_views(v@)),
            DsState::NegInsecure => DsKnown::NegInsecure,
            DsState::NegNotZoneCut => DsKnown::NegNotZoneCut,
        }
    }
}

/// Copies DS records with their classes.
pub(crate) fn clone_entries(v: &Vec<(DsData, u16)>) -> (r: Vec<(DsData, u16)>)
    ensures
        entry_views(r@) == entry_views(v@),
{
    let mut r: Vec<(DsData, u16)> = Vec::new();
    let mut i: usize = 0;
    while i < v.len()
        invariant
            i <= v@.len(),
            entry_views(r@) == entry_views(v@).take(i as int),
        decreases v@.len() - i,
    {
        let c: DsData = v[i].0.clone();
        let class: u16 = v[i].1;
        proof {
            assert(entry_views(r@.push((c, class))) =~= entry_views(r@).push((c@, class)));
            assert(entry_views(v@).take(i + 1) =~= entry_views(v@).take(i as int).push((c@, class)));
        }
        r.push((c, class));
        i += 1;
    }
    assert(entry_views(v@).take(v@.len() as int) =~= entry_views(v@));
    r
}

/// What the last entry for `key` says.
spec fn ds_lookup(s: Seq<(String, DsState)>, key: Seq<char>) -> Option<DsKnown>
    decreases s.len(),
{
    if s.len() == 0 {
        None
    } else if s.last().0@ == key {
        Some(s.last().1@)
    } else {
        ds_lookup(s.drop_last(), key)
    }
}

/// What the last entry for `key` says.
spec fn key_lookup(s: Seq<(String, Vec<(Vec<u8>, u16)>)>, key: Seq<char>) -> Seq<(Seq<u8>, u16)>
    decreases s.len(),
{
    if s.len() == 0 {
        seq![]
    } else if s.last().0@ == key {
        keyed_views(s.last().1@)
    } else {
        key_lookup(s.drop_last(), key)
    }
}

/// The entry that decides for a key.
proof fn lemma_ds_lookup_at(s: Seq<(String, DsState)>, i: int)
    requires
        0 <= i < s.len(),
        forall|j: int| i < j < s.len() ==> (#[trigger] s[j]).0@ != s[i].0@,
    ensures
        ds_lookup(s, s[i].0@) == Some(s[i].1@),
    decreases s.len(),
{
    if i < s.len() - 1 {
        assert(s.last().0@ != s[i].0@);
        assert forall|j: int| i < j < s.drop_last().len() implies (#[trigger] s.drop_last()[j]).0@ != s.drop_last()[i].0@ by {
            assert(s[j].0@ != s[i].0@);
        }
        lemma_ds_lookup_at(s.drop_last(), i);
    }
}

/// A key without an entry.
proof fn lemma_ds_lookup_none(s: Seq<(String, DsState)>, key: Seq<char>)
    requires
        forall|j: int| 0 <= j < s.len() ==> (#[trigger] s[j]).0@ != key,
    ensures
        ds_lookup(s, key) is None,
    decreases s.len(),
{
    if s.len() > 0 {
        assert(s.last().0@ != key);
        assert forall|j: int| 0 <= j < s.drop_last().len() implies (#[trigger] s.drop_last()[j]).0@ != key by {
            assert(s[j].0@ != key);
        }
        lemma_ds_lookup_none(s.drop_last(), key);
    }
}

/// Replacing the entry that decides for its key changes what is known of that key alone.
proof fn lemma_ds_update(s: Seq<(String, DsState)>, i: int, e: (String, DsState), key: Seq<char>)
    requires
        0 <= i < s.len(),
        e.0@ == s[i].0@,
        forall|j: int| i < j < s.len() ==> (#[trigger] s[j]).0@ != s[i].0@,
    ensures
        ds_lookup(s.update(i, e), key) == if key == e.0@ {
            Some(e.1@)
        } else {
            ds_lookup(s, key)
        },
    decreases s.len(),
{
    let t = s.update(i, e);
    if i == s.len() - 1 {
        assert(t.drop_last() =~= s.drop_last());
    } else {
        assert(t.drop_last() =~= s.drop_last().update(i, e));
        assert(s.last().0@ != s[i].0@);
        assert forall|j: int| i < j < s.drop_last().len() implies (#[trigger] s.drop_last()[j]).0@ != s.drop_last()[i].0@ by {
            assert(s[j].0@ != s[i].0@);
        }
        lemma_ds_update(s.drop_last(), i, e, key);
    }
}

/// The entry that decides for a key.
proof fn lemma_key_lookup_at(s: Seq<(String, Vec<(Vec<u8>, u16)>)>, i: int)
    requires
        0 <= i < s.len(),
        forall|j: int| i < j < s.len() ==> (#[trigger] s[j]).0@ != s[i].0@,
    ensures
        key_lookup(s, s[i].0@) == keyed_views(s[i].1@),
    decreases s.len(),
{
    if i < s.len() - 1 {
        assert(s.last().0@ != s[i].0@);
        assert forall|j: int| i < j < s.drop_last().len() implies (#[trigger] s.drop_last()[j]).0@ != s.drop_last()[i].0@ by {
            assert(s[j].0@ != s[i].0@);
        }
        lemma_key_lookup_at(s.drop_last(), i);
    }
}

/// A key without an entry.
proof fn lemma_key_lookup_none(s: Seq<(String, Vec<(Vec<u8>, u16)>)>, key: Seq<char>)
    requires
        forall|j: int| 0 <= j < s.len() ==> (#[trigger] s[j]).0@ != key,
    ensures
        key_lookup(s, key) == Seq::<(Seq<u8>, u16)>::empty(),
    decreases s.len(),
{
    if s.len() > 0 {
        assert(s.last().0@ != key);
        assert forall|j: int| 0 <= j < s.drop_last().len() implies (#[trigger] s.drop_last()[j]).0@ != key by {
            assert(s[j].0@ != key);
        }
        lemma_key_lookup_none(s.drop_last(), key);
    }
}

/// Replacing the entry that decides for its key changes what is known of that key alone.
proof fn lemma_key_update(
    s: Seq<(String, Vec<(Vec<u8>, u16)>)>,
    i: int,
    e: (String, Vec<(Vec<u8>, u16)>),
    key: Seq<char>,
)
    requires
        0 <= i < s.len(),
        e.0@ == s[i].0@,
        forall|j: int| i < j < s.len() ==> (#[trigger] s[j]).0@ != s[i].0@,
    ensures
        key_lookup(s.update(i, e), key) == if key == e.0@ {
            keyed_views(e.1@)
        } else {
            key_lookup(s, key)
        },
    decreases s.len(),
{
    let t = s.update(i, e);
    if i == s.len() - 1 {
        assert(t.drop_last() =~= s.drop_last());
    } else {
        assert(t.drop_last() =~= s.drop_last().update(i, e));
        assert(s.last().0@ != s[i].0@);
        assert forall|j: int| i < j < s.drop_last().len() implies (#[trigger] s.drop_last()[j]).0@ != s.drop_last()[i].0@ by {
            assert(s[j].0@ != s[i].0@);
        }
        lemma_key_update(s.drop_last(), i, e, key);
    }
}

/// The DS and DNSKEY records that validation has established. Names are looked up in lower case
/// and without trailing dots.
#[derive(Debug, Clone)]
pub struct DnssecCache {
    ds: Vec<(String, DsState)>,
    dnskey: Vec<(String, Vec<(Vec<u8>, u16)>)>,
}

impl Default for DnssecCache {
    fn default() -> (r: Self)
        ensures
            forall|name: Seq<char>| #[trigger] r.ds_of_name(name) is None,
            forall|name: Seq<char>| #[trigger] r.keys_of_name(name) == Seq::<(Seq<u8>, u16)>::empty(),
    {
        DnssecCache { ds: Vec::new(), dnskey: Vec::new() }
    }
}

impl DnssecCache {
    /// What is known of the DS records of `name`.
    pub closed spec fn ds_of_name(&self, name: Seq<char>) -> Option<DsKnown> {
        ds_lookup(self.ds@, norm(name))
    }

    /// The keys known for `name`, with their classes, in the order in which they were added.
    pub closed spec fn keys_of_name(&self, name: Seq<char>) -> Seq<(Seq<u8>, u16)> {
        key_lookup(self.dnskey@, norm(name))
    }

    /// Whether this is `before` with the DS knowledge of `name` replaced by `known`.
    pub open spec fn ds_replaced(&self, before: DnssecCache, name: Seq<char>, known: DsKnown) -> bool {
        &&& forall|n: Seq<char>|
            #[trigger] self.ds_of_name(n) == if norm(n) == norm(name) {
                Some(known)
            } else {
                before.ds_of_name(n)
            }
        &&& forall|n: Seq<char>| #[trigger] self.keys_of_name(n) == before.keys_of_name(n)
    }

    /// Whether this is `before` with a key added for `name`.
    pub open spec fn key_added(&self, before: DnssecCache, name: Seq<char>, rdata: Seq<u8>, class: u16) -> bool {
        &&& forall|n: Seq<char>| #[trigger] self.ds_of_name(n) == before.ds_of_name(n)
        &&& forall|n: Seq<char>|
            #[trigger] self.keys_of_name(n) == if norm(n) == norm(name) {
                before.keys_of_name(n).push((rdata, class))
            } else {
                before.keys_of_name(n)
            }
    }

    /// An empty store.
    pub fn new() -> (r: Self)
        ensures
            forall|name: Seq<char>| #[trigger] r.ds_of_name(name) is None,
            forall|name: Seq<char>| #[trigger] r.keys_of_name(name) == Seq::<(Seq<u8>, u16)>::empty(),
    {
        Self::default()
    }

    /// The last entry for `key`.
    fn ds_position(&self, key: &str) -> (r: Option<usize>)
        ensures
            match r {
                Some(i) => i < self.ds@.len() && self.ds@[i as int].0@ == key@ && forall|j: int|
                    i < j < self.ds@.len() ==> (#[trigger] self.ds@[j]).0@ != key@,
                None => forall|j: int| 0 <= j < self.ds@.len() ==> (#[trigger] self.ds@[j]).0@ != key@,
            },
    {
        let mut i: usize = self.ds.len();
        while i > 0
            invariant
                i <= self.ds@.len(),
                forall|j: int| i <= j < self.ds@.len() ==> (#[trigger] self.ds@[j]).0@ != key@,
            decreases i,
        {
            if same(self.ds[i - 1].0.as_str(), key) {
                return Some(i - 1);
            }
            i -= 1;
        }
        None
    }

    /// The last entry for `key`.
    fn key_position(&self, key: &str) -> (r: Option<usize>)
        ensures
            match r {
                Some(i) => i < self.dnskey@.len() && self.dnskey@[i as int].0@ == key@ && forall|j: int|
                    i < j < self.dnskey@.len() ==> (#[trigger] self.dnskey@[j]).0@ != key@,
                None => forall|j: int| 0 <= j < self.dnskey@.len() ==> (#[trigger] self.dnskey@[j]).0@ != key@,
            },
    {
        let mut i: usize = self.dnskey.len();
        while i > 0
            invariant
                i <= self.dnskey@.len(),
                forall|j: int| i <= j < self.dnskey@.len() ==> (#[trigger] self.dnskey@[j]).0@ != key@,
            decreases i,
        {
            if same(self.dnskey[i - 1].0.as_str(), key) {
                return Some(i - 1);
            }
            i -= 1;
        }
        None
    }

    /// Replaces what is known of the DS records of `name`.
    fn put_ds(&mut self, name: &str, state: DsState)
        ensures
            final(self).ds_replaced(*old(self), name@, state@),
    {
        let key: String = norm_name(name);
        match self.ds_position(key.as_str()) {
            Some(i) => {
                let ghost before = self.ds@;
                let ghost e = (key, state);
                self.ds.set(i, (key, state));
                proof {
                    assert forall|n: Seq<char>|
                        #[trigger] self.ds_of_name(n) == if norm(n) == norm(name@) {
                            Some(state@)
                        } else {
                            old(self).ds_of_name(n)
                        } by {
                        lemma_ds_update(before, i as int, e, norm(n));
                    }
                }
            },
            None => {
                let ghost before = self.ds@;
                let ghost e = (key, state);
                self.ds.push((key, state));
                proof {
                    assert forall|n: Seq<char>|
                        #[trigger] self.ds_of_name(n) == if norm(n) == norm(name@) {
                            Some(state@)
                        } else {
                            old(self).ds_of_name(n)
                        } by {
                        assert(self.ds@.drop_last() =~= before);
                    }
                }
            },
        }
    }

    /// Adds a configured trust anchor to the DS records of `name`; what was known of it otherwise
    /// is replaced.
    pub fn insert_trust_anchor(&mut self, name: &str, ds: DsData, class: u16)
        ensures
            final(self).ds_replaced(
                *old(self),
                name@,
                DsKnown::Positive(
                    match old(self).ds_of_name(name@) {
                        Some(DsKnown::Positive(v)) => v.push((ds@, class)),
                        _ => seq![(ds@, class)],
                    },
                ),
            ),
    {
        let mut entries: Vec<(DsData, u16)> = match self.find_ds(name) {
            Some(DsState::Positive(v)) => clone_entries(v),
            _ => Vec::new(),
        };
        let ghost kept = entry_views(entries@);
        proof {
            assert(entry_views(entries@.push((ds, class))) =~= kept.push((ds@, class)));
            if !(self.ds_of_name(name@) is Some && self.ds_of_name(name@)->0 is Positive) {
                assert(kept.push((ds@, class)) =~= seq![(ds@, class)]);
            }
        }
        entries.push((ds, class));
        self.put_ds(name, DsState::Positive(entries));
    }

    /// Records the DS records of `name`.
    pub fn insert_ds_positive(&mut self, name: &str, entries: Vec<(DsData, u16)>)
        ensures
            final(self).ds_replaced(*old(self), name@, DsKnown::Positive(entry_views(entries@))),
    {
        self.put_ds(name, DsState::Positive(entries));
    }

    /// Records that `name` is the cut of an unsigned zone.
    pub fn insert_ds_neg_insecure(&mut self, name: &str)
        ensures
            final(self).ds_replaced(*old(self), name@, DsKnown::NegInsecure),
    {
        self.put_ds(name, DsState::NegInsecure);
    }

    /// Records that `name` has no DS records and is no zone cut.
    pub fn insert_ds_neg_not_zone_cut(&mut self, name: &str)
        ensures
            final(self).ds_replaced(*old(self), name@, DsKnown::NegNotZoneCut),
    {
        self.put_ds(name, DsState::NegNotZoneCut);
    }

    /// What is known of the DS records of `name`.
    pub fn find_ds(&self, name: &str) -> (r: Option<&DsState>)
        ensures
            match r {
                Some(s) => self.ds_of_name(name@) == Some(s@),
                None => self.ds_of_name(name@) is None,
            },
    {
        let key: String = norm_name(name);
        match self.ds_position(key.as_str()) {
            Some(i) => {
                proof {
                    lemma_ds_lookup_at(self.ds@, i as int);
                }
                Some(&self.ds[i].1)
            },
            None => {
                proof {
                    lemma_ds_lookup_none(self.ds@, key@);
                }
                None
            },
        }
    }

    /// Adds a validated DNSKEY for `name` and `class`.
    pub fn insert_dnskey(&mut self, name: &str, rdata: Vec<u8>, class: u16)
        ensures
            final(self).key_added(*old(self), name@, rdata@, class),
    {
        let key: String = norm_name(name);
        let ghost before = self.dnskey@;
        match self.key_position(key.as_str()) {
            Some(i) => {
                let mut keys: Vec<(Vec<u8>, u16)> = Vec::new();
                let mut k: usize = 0;
                while k < self.dnskey[i].1.len()
                    invariant
                        i < self.dnskey@.len(),
                        self.dnskey@ == before,
                        k <= self.dnskey@[i as int].1@.len(),
                        keyed_views(keys@) == keyed_views(self.dnskey@[i as int].1@).take(k as int),
                    decreases self.dnskey@[i as int].1@.len() - k,
                {
                    let have: &Vec<u8> = &self.dnskey[i].1[k].0;
                    let copy: Vec<u8> = crate::text::copy_range(have.as_slice(), 0, have.len());
                    let c: u16 = self.dnskey[i].1[k].1;
                    proof {
                        assert(copy@ =~= have@);
                        let v = keyed_views(self.dnskey@[i as int].1@);
                        assert(keyed_views(keys@.push((copy, c))) =~= keyed_views(keys@).push((copy@, c)));
                        assert(v.take(k + 1) =~= v.take(k as int).push((copy@, c)));
                    }
                    keys.push((copy, c));
                    k += 1;
                }
                proof {
                    let v = keyed_views(self.dnskey@[i as int].1@);
                    assert(v.take(v.len() as int) =~= v);
                    assert(keyed_views(keys@.push((rdata, class))) =~= v.push((rdata@, class)));
                    lemma_key_lookup_at(before, i as int);
                }
                keys.push((rdata, class));
                let ghost e = (key, keys);
                self.dnskey.set(i, (key, keys));
                proof {
                    assert forall|n: Seq<char>|
                        #[trigger] self.keys_of_name(n) == if norm(n) == norm(name@) {
                            old(self).keys_of_name(n).push((rdata@, class))
                        } else {
                            old(self).keys_of_name(n)
                        } by {
                        lemma_key_update(before, i as int, e, norm(n));
                    }
                }
            },
            None => {
                let mut keys: Vec<(Vec<u8>, u16)> = Vec::new();
                keys.push((rdata, class));
                let ghost e = (key, keys);
                self.dnskey.push((key, keys));
                proof {
                    lemma_key_lookup_none(before, key@);
                    assert forall|n: Seq<char>|
                        #[trigger] self.keys_of_name(n) == if norm(n) == norm(name@) {
                            old(self).keys_of_name(n).push((rdata@, class))
                        } else {
                            old(self).keys_of_name(n)
                        } by {
                        assert(self.dnskey@.drop_last() =~= before);
                        assert(keyed_views(keys@) =~= Seq::<(Seq<u8>, u16)>::empty().push((rdata@, class)));
                    }
                }
            },
        }
    }

    /// The keys known for `name` and `class`.
    pub fn find_dnskeys(&self, name: &str, class: u16) -> (r: Vec<&[u8]>)
        ensures
            slice_views(r@) == keys_of_class(self.keys_of_name(name@), class),
    {
        let key: String = norm_name(name);
        let mut r: Vec<&[u8]> = Vec::new();
        match self.key_position(key.as_str()) {
            None => {
                proof {
                    lemma_key_lookup_none(self.dnskey@, key@);
                }
                assert(slice_views(r@) =~= Seq::<Seq<u8>>::empty());
                r
            },
            Some(i) => {
                proof {
                    lemma_key_lookup_at(self.dnskey@, i as int);
                }
                let ghost all = keyed_views(self.dnskey@[i as int].1@);
                let mut k: usize = 0;
                assert(slice_views(r@) =~= keys_of_class(all.take(0), class));
                while k < self.dnskey[i].1.len()
                    invariant
                        i < self.dnskey@.len(),
                        all == keyed_views(self.dnskey@[i as int].1@),
                        k <= all.len(),
                        slice_views(r@) == keys_of_class(all.take(k as int), class),
                    decreases all.len() - k,
                {
                    proof {
                        assert(all.take(k + 1).drop_last() =~= all.take(k as int));
                    }
                    if self.dnskey[i].1[k].1 == class {
                        let b: &[u8] = self.dnskey[i].1[k].0.as_slice();
                        assert(slice_views(r@.push(b)) =~= slice_views(r@).push(b@));
                        r.push(b);
                    }
                    k += 1;
                }
                assert(all.take(all.len() as int) =~= all);
                r
            },
        }
    }
}

/// The keys of one class, in order.
pub open spec fn keys_of_class(keys: Seq<(Seq<u8>, u16)>, class: u16) -> Seq<Seq<u8>>
    decreases keys.len(),
{
    if keys.len() == 0 {
        seq![]
    } else if keys.last().1 == class {
        keys_of_class(keys.drop_last(), class).push(keys.last().0)
    } else {
        keys_of_class(keys.drop_last(), class)
    }
}

/// A key that was added for a name and class is the last one found there, whatever the case of the
/// name and its trailing dots; the keys of other names stay as they were.
pub proof fn law_added_key_is_found(
    before: DnssecCache,
    after: DnssecCache,
    name: Seq<char>,
    other: Seq<char>,
    rdata: Seq<u8>,
    class: u16,
)
    requires
        after.key_added(before, name, rdata, class),
    ensures
        norm(other) == norm(name) ==> keys_of_class(after.keys_of_name(other), class) == keys_of_class(
            before.keys_of_name(other),
            class,
        ).push(rdata),
        norm(other) != norm(name) ==> after.keys_of_name(other) == before.keys_of_name(other),
{
    let k = before.keys_of_name(other);
    assert(k.push((rdata, class)).drop_last() =~= k);
}

/// The suffixes of a normalised name from the root to the name itself.
pub open spec fn suffixes(name: Seq<char>) -> Seq<Seq<char>> {
    let n = norm(name);
    let parts = split(n);
    if n.len() == 0 {
        seq![Seq::<char>::empty()]
    } else {
        Seq::new(
            parts.len() + 1,
            |i: int|
                if i == 0 {
                    Seq::<char>::empty()
                } else {
                    join(parts.skip(parts.len() - i))
                },
        )
    }
}

/// The suffixes of `name` from the root to the full name.
pub fn dns_suffixes(name: &str) -> (r: Vec<String>)
    ensures
        views(r@) == suffixes(name@),
{
    let n: String = norm_name(name);
    let mut out: Vec<String> = Vec::new();
    out.push(String::new());
    if n.as_str().is_empty() {
        assert(views(out@) =~= suffixes(name@));
        return out;
    }
    let parts: Vec<String> = split_labels(n.as_str());
    let ghost all = suffixes(name@);
    let mut i: usize = parts.len();
    assert(views(out@) =~= all.take(1));
    while i > 0
        invariant
            i <= parts@.len(),
            views(parts@) == split(norm(name@)),
            norm(name@).len() > 0,
            all == suffixes(name@),
            views(out@) == all.take(parts@.len() - i + 1),
        decreases i,
    {
        i -= 1;
        let s: String = join_labels(&parts, i);
        proof {
            let k = parts@.len() - i;
            assert(all[k] == s@);
            assert(views(out@.push(s)) =~= views(out@).push(s@));
            assert(all.take(k + 1) =~= all.take(k).push(all[k]));
        }
        out.push(s);
    }
    assert(all.take(all.len() as int) =~= all);
    out
}

/// Whether a DS record can be used: its digest and its algorithm are supported.
pub open spec fn usable(ds: DsView) -> bool {
    digest_supported(ds.digest_type) && algorithm_of(ds.algorithm) is Some
}

/// Whether some record for `class` can be used.
pub open spec fn any_usable(entries: Seq<(DsView, u16)>, class: u16) -> bool {
    exists|i: int| 0 <= i < entries.len() && (#[trigger] entries[i]).1 == class && usable(entries[i].0)
}

/// Whether a DS record can be used: its digest and its algorithm are supported.
pub fn ds_entry_supported(ds: &DsData) -> (r: bool)
    ensures
        r == usable(ds@),
{
    ds_digest_supported(ds.digest_type) && algo_supported(ds.algorithm)
}

/// The number of the longest of the first `n` suffixes with DS knowledge; the root when there is none.
pub open spec fn anchor(cache: DnssecCache, sufs: Seq<Seq<char>>, n: int) -> int
    decreases n,
{
    if n <= 0 {
        0
    } else if cache.ds_of_name(sufs[n - 1]) is Some {
        n - 1
    } else {
        anchor(cache, sufs, n - 1)
    }
}

/// The status of a walk down the suffixes from number `i` on.
pub open spec fn walk(cache: DnssecCache, sufs: Seq<Seq<char>>, i: int, class: u16) -> Status
    decreases sufs.len() - i,
{
    if !(0 <= i < sufs.len()) {
        plain(Code::Secure)
    } else {
        match cache.ds_of_name(sufs[i]) {
            None => plain(Code::NeedDs { name: sufs[i], class }),
            Some(DsKnown::NegInsecure) => plain(Code::Insecure),
            Some(DsKnown::NegNotZoneCut) => walk(cache, sufs, i + 1, class),
            Some(DsKnown::Positive(entries)) => if any_usable(entries, class) {
                walk(cache, sufs, i + 1, class)
            } else {
                plain(Code::Insecure)
            },
        }
    }
}

/// The signing status of `name`: a walk from the longest suffix with DS knowledge down to the name.
pub open spec fn zone(cache: DnssecCache, name: Seq<char>, class: u16) -> Status {
    let sufs = suffixes(name);
    walk(cache, sufs, anchor(cache, sufs, sufs.len() as int), class)
}

/// Whether some record for `class` can be used.
fn some_usable(entries: &Vec<(DsData, u16)>, class: u16) -> (r: bool)
    ensures
        r == any_usable(entry_views(entries@), class),
{
    let ghost all = entry_views(entries@);
    let mut i: usize = 0;
    while i < entries.len()
        invariant
            i <= entries@.len(),
            all == entry_views(entries@),
            forall|j: int| 0 <= j < i ==> !((#[trigger] all[j]).1 == class && usable(all[j].0)),
        decreases entries@.len() - i,
    {
        assert(all[i as int] == (entries@[i as int].0@, entries@[i as int].1));
        if entries[i].1 == class && ds_entry_supported(&entries[i].0) {
            return true;
        }
        i += 1;
    }
    false
}

/// Checks the signing status of `name`.
///
/// The walk starts at the longest suffix of which the DS records are known, or at the root, and
/// goes down to the name: an unknown level asks for its DS records, a level that is proved unsigned
/// or that has no usable DS record makes the name insecure, and a level that is no zone cut is
/// passed over.
pub fn zone_status(name: &str, class: u16, cache: &DnssecCache) -> (r: ValidateStatus)
    ensures
        r@ == zone(*cache, name@, class),
{
    let sufs: Vec<String> = dns_suffixes(name);
    let ghost all = suffixes(name@);
    let mut n: usize = sufs.len();
    while n > 0
        invariant
            n <= sufs@.len(),
            views(sufs@) == all,
            anchor(*cache, all, all.len() as int) == anchor(*cache, all, n as int),
        ensures
            n <= sufs@.len(),
            anchor(*cache, all, all.len() as int) == if n == 0 {
                0
            } else {
                n - 1
            },
        decreases n,
    {
        assert(all[n - 1] == sufs@[n - 1]@);
        if cache.find_ds(sufs[n - 1].as_str()).is_some() {
            break;
        }
        n -= 1;
    }
    let mut i: usize = if n == 0 {
        0
    } else {
        n - 1
    };
    while i < sufs.len()
        invariant
            views(sufs@) == all,
            i <= sufs@.len(),
            all == suffixes(name@),
            zone(*cache, name@, class) == walk(*cache, all, i as int, class),
        decreases sufs@.len() - i,
    {
        assert(all[i as int] == sufs@[i as int]@);
        match cache.find_ds(sufs[i].as_str()) {
            None => {
                return ValidateStatus::need_ds(sufs[i].as_str(), class);
            },
            Some(DsState::NegInsecure) => {
                return ValidateStatus::insecure();
            },
            Some(DsState::NegNotZoneCut) => {},
            Some(DsState::Positive(entries)) => {
                if !some_usable(entries, class) {
                    return ValidateStatus::insecure();
                }
            },
        }
        i += 1;
    }
    ValidateStatus::secure()
}

} // verus!
