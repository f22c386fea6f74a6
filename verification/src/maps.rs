//! Association maps used throughout the toolchain.
//!
//! Variable tables, phi tables and function tables are maps with a small
//! number of entries. They are kept as vectors of key/value pairs with unique
//! keys, preserving insertion order, which keeps lookups, fresh-id allocation
//! (`len`) and serialization fully specified.

use vstd::prelude::*;

verus! {

/// The value stored under `key` in an entry sequence: the first entry whose
/// key matches, if any.
pub open spec fn assoc_get<V>(s: Seq<(usize, V)>, key: usize) -> Option<V>
    decreases s.len(),
{
    if s.len() == 0 {
        None
    } else if s[0].0 == key {
        Some(s[0].1)
    } else {
        assoc_get(s.drop_first(), key)
    }
}

/// The entry sequence after storing `value` under `key`: the first entry with
/// that key is replaced, or a new entry is appended.
pub open spec fn assoc_insert<V>(s: Seq<(usize, V)>, key: usize, value: V) -> Seq<(usize, V)>
    decreases s.len(),
{
    if s.len() == 0 {
        seq![(key, value)]
    } else if s[0].0 == key {
        seq![(key, value)] + s.drop_first()
    } else {
        seq![s[0]] + assoc_insert(s.drop_first(), key, value)
    }
}

/// A map from variable or block ids to values, as an association vector with
/// unique keys in insertion order.
#[derive(Debug)]
pub struct VarMap<V> {
    pub entries: Vec<(usize, V)>,
}

impl<V> VarMap<V> {
    /// Keys are unique, so `len` counts distinct keys as a hash map would.
    pub open spec fn wf(self) -> bool {
        forall|i: int, j: int|
            0 <= i < j < self.entries@.len() ==> (#[trigger] self.entries@[i]).0 != (
            #[trigger] self.entries@[j]).0
    }

    pub open spec fn spec_get(self, key: usize) -> Option<V> {
        assoc_get(self.entries@, key)
    }

    pub open spec fn spec_len(self) -> nat {
        self.entries@.len()
    }

    pub open spec fn contains_key(self, key: usize) -> bool {
        self.spec_get(key) is Some
    }

    pub fn new() -> (m: Self)
        ensures
            m.entries@ =~= Seq::<(usize, V)>::empty(),
            m.wf(),
    {
        VarMap { entries: Vec::new() }
    }

    pub fn len(&self) -> (n: usize)
        ensures
            n == self.spec_len(),
    {
        self.entries.len()
    }

    pub fn get(&self, key: usize) -> (r: Option<&V>)
        ensures
            match r {
                Some(v) => self.spec_get(key) == Some(*v),
                None => self.spec_get(key) is None,
            },
    {
        let n = self.entries.len();
        let mut i: usize = 0;
        proof {
            assert(self.entries@.skip(0) =~= self.entries@);
        }
        while i < n
            invariant
                n == self.entries@.len(),
                i <= n,
                assoc_get(self.entries@, key) == assoc_get(self.entries@.skip(i as int), key),
            decreases n - i,
        {
            proof {
                assert(self.entries@.skip(i as int).drop_first() =~= self.entries@.skip(
                    i as int + 1,
                ));
            }
            if self.entries[i].0 == key {
                return Some(&self.entries[i].1);
            }
            i += 1;
        }
        proof {
            assert(self.entries@.skip(n as int) =~= Seq::<(usize, V)>::empty());
        }
        None
    }

    pub fn insert(&mut self, key: usize, value: V)
        ensures
            final(self).entries@ == assoc_insert(old(self).entries@, key, value),
            final(self).spec_get(key) == Some(value),
            forall|k2: usize| k2 != key ==> final(self).spec_get(k2) == old(self).spec_get(k2),
            old(self).wf() ==> final(self).wf(),
            final(self).spec_len() == if old(self).contains_key(key) {
                old(self).spec_len()
            } else {
                old(self).spec_len() + 1
            },
    {
        let n = self.entries.len();
        let mut i: usize = 0;
        while i < n
            invariant
                self.entries@ == old(self).entries@,
                n == self.entries@.len(),
                i <= n,
                forall|j: int| 0 <= j < i ==> (#[trigger] self.entries@[j]).0 != key,
            decreases n - i,
        {
            if self.entries[i].0 == key {
                self.entries[i] = (key, value);
                proof {
                    lemma_assoc_insert_found(old(self).entries@, key, value, i as int);
                    lemma_assoc_insert_get(old(self).entries@, key, value);
                    if old(self).wf() {
                        lemma_assoc_insert_unique(old(self).entries@, key, value);
                    }
                }
                return ;
            }
            i += 1;
        }
        self.entries.push((key, value));
        proof {
            lemma_assoc_insert_missing(old(self).entries@, key, value);
            lemma_assoc_insert_get(old(self).entries@, key, value);
            if old(self).wf() {
                lemma_assoc_insert_unique(old(self).entries@, key, value);
            }
        }
    }
}

/// When no entry in `s` has `key`, inserting appends.
proof fn lemma_assoc_insert_missing<V>(s: Seq<(usize, V)>, key: usize, value: V)
    requires
        forall|j: int| 0 <= j < s.len() ==> (#[trigger] s[j]).0 != key,
    ensures
        assoc_insert(s, key, value) == s.push((key, value)),
    decreases s.len(),
{
    if s.len() == 0 {
        assert(assoc_insert(s, key, value) =~= s.push((key, value)));
    } else {
        assert(forall|j: int|
            0 <= j < s.drop_first().len() ==> (#[trigger] s.drop_first()[j]).0 != key);
        lemma_assoc_insert_missing(s.drop_first(), key, value);
        assert(seq![s[0]] + assoc_insert(s.drop_first(), key, value) =~= s.push((key, value)));
    }
}

/// When the first entry with `key` sits at index `i`, inserting updates it in
/// place.
proof fn lemma_assoc_insert_found<V>(s: Seq<(usize, V)>, key: usize, value: V, i: int)
    requires
        0 <= i < s.len(),
        s[i].0 == key,
        forall|j: int| 0 <= j < i ==> (#[trigger] s[j]).0 != key,
    ensures
        assoc_insert(s, key, value) == s.update(i, (key, value)),
    decreases s.len(),
{
    if i == 0 {
        assert(seq![(key, value)] + s.drop_first() =~= s.update(0, (key, value)));
    } else {
        assert(s.drop_first()[i - 1].0 == key);
        assert(forall|j: int| 0 <= j < i - 1 ==> (#[trigger] s.drop_first()[j]).0 != key);
        lemma_assoc_insert_found(s.drop_first(), key, value, i - 1);
        assert(seq![s[0]] + s.drop_first().update(i - 1, (key, value)) =~= s.update(
            i,
            (key, value),
        ));
    }
}

/// What `assoc_insert` does to lookups and to the entry count.
proof fn lemma_assoc_insert_get<V>(s: Seq<(usize, V)>, key: usize, value: V)
    ensures
        assoc_get(assoc_insert(s, key, value), key) == Some(value),
        forall|k2: usize|
            k2 != key ==> #[trigger] assoc_get(assoc_insert(s, key, value), k2) == assoc_get(
                s,
                k2,
            ),
        assoc_insert(s, key, value).len() == if assoc_get(s, key) is Some {
            s.len()
        } else {
            s.len() + 1
        },
    decreases s.len(),
{
    if s.len() == 0 {
        let t = assoc_insert(s, key, value);
        assert(t.drop_first() =~= Seq::<(usize, V)>::empty());
        assert forall|k2: usize| k2 != key implies #[trigger] assoc_get(t, k2) == assoc_get(
            s,
            k2,
        ) by {
            assert(t[0].0 == key);
            assert(assoc_get(t, k2) == assoc_get(t.drop_first(), k2));
        }
    } else if s[0].0 == key {
        let t = seq![(key, value)] + s.drop_first();
        assert(t.drop_first() =~= s.drop_first());
        assert(t[0] == (key, value));
        assert forall|k2: usize| k2 != key implies #[trigger] assoc_get(t, k2) == assoc_get(
            s,
            k2,
        ) by {
            assert(assoc_get(t, k2) == assoc_get(s.drop_first(), k2));
            assert(assoc_get(s, k2) == assoc_get(s.drop_first(), k2));
        }
    } else {
        lemma_assoc_insert_get(s.drop_first(), key, value);
        let t = seq![s[0]] + assoc_insert(s.drop_first(), key, value);
        assert(t.drop_first() =~= assoc_insert(s.drop_first(), key, value));
        assert(t[0] == s[0]);
        assert forall|k2: usize| k2 != key implies #[trigger] assoc_get(t, k2) == assoc_get(
            s,
            k2,
        ) by {
            if t[0].0 == k2 {
            } else {
                assert(assoc_get(t, k2) == assoc_get(assoc_insert(s.drop_first(), key, value), k2));
                assert(assoc_get(s, k2) == assoc_get(s.drop_first(), k2));
            }
        }
    }
}

/// Every key of `assoc_insert(s, key, value)` is `key` or occurs in `s`.
proof fn lemma_assoc_insert_keys<V>(s: Seq<(usize, V)>, key: usize, value: V)
    ensures
        forall|j: int|
            0 <= j < assoc_insert(s, key, value).len() ==> (#[trigger] assoc_insert(
                s,
                key,
                value,
            )[j]).0 == key || exists|i: int| 0 <= i < s.len() && (#[trigger] s[i]).0
                == assoc_insert(s, key, value)[j].0,
    decreases s.len(),
{
    let t = assoc_insert(s, key, value);
    if s.len() == 0 {
    } else if s[0].0 == key {
        assert forall|j: int| 0 <= j < t.len() implies (#[trigger] t[j]).0 == key || exists|i: int|
            0 <= i < s.len() && (#[trigger] s[i]).0 == t[j].0 by {
            if j > 0 {
                assert(t[j] == s[j]);
                assert(s[j].0 == t[j].0);
            }
        }
    } else {
        lemma_assoc_insert_keys(s.drop_first(), key, value);
        let u = assoc_insert(s.drop_first(), key, value);
        assert forall|j: int| 0 <= j < t.len() implies (#[trigger] t[j]).0 == key || exists|i: int|
            0 <= i < s.len() && (#[trigger] s[i]).0 == t[j].0 by {
            if j == 0 {
                assert(s[0].0 == t[0].0);
            } else {
                assert(t[j] == u[j - 1]);
                if u[j - 1].0 != key {
                    let i = choose|i: int|
                        0 <= i < s.drop_first().len() && (#[trigger] s.drop_first()[i]).0 == u[j
                            - 1].0;
                    assert(s[i + 1].0 == t[j].0);
                }
            }
        }
    }
}

/// `assoc_insert` keeps keys unique.
proof fn lemma_assoc_insert_unique<V>(s: Seq<(usize, V)>, key: usize, value: V)
    requires
        forall|i: int, j: int| 0 <= i < j < s.len() ==> (#[trigger] s[i]).0 != (#[trigger] s[j]).0,
    ensures
        forall|i: int, j: int|
            0 <= i < j < assoc_insert(s, key, value).len() ==> (#[trigger] assoc_insert(
                s,
                key,
                value,
            )[i]).0 != (#[trigger] assoc_insert(s, key, value)[j]).0,
    decreases s.len(),
{
    let t = assoc_insert(s, key, value);
    if s.len() == 0 {
    } else if s[0].0 == key {
        assert forall|i: int, j: int| 0 <= i < j < t.len() implies (#[trigger] t[i]).0 != (
        #[trigger] t[j]).0 by {
            if i == 0 {
                assert(t[j] == s[j]);
                assert(s[0].0 != s[j].0);
            } else {
                assert(t[i] == s[i]);
                assert(t[j] == s[j]);
            }
        }
    } else {
        assert(forall|i: int, j: int|
            0 <= i < j < s.drop_first().len() ==> (#[trigger] s.drop_first()[i]).0 != (
            #[trigger] s.drop_first()[j]).0);
        lemma_assoc_insert_unique(s.drop_first(), key, value);
        lemma_assoc_insert_keys(s.drop_first(), key, value);
        let u = assoc_insert(s.drop_first(), key, value);
        assert forall|i: int, j: int| 0 <= i < j < t.len() implies (#[trigger] t[i]).0 != (
        #[trigger] t[j]).0 by {
            if i == 0 {
                assert(t[j] == u[j - 1]);
                if u[j - 1].0 == key {
                    assert(s[0].0 != key);
                } else {
                    let m = choose|m: int|
                        0 <= m < s.drop_first().len() && (#[trigger] s.drop_first()[m]).0 == u[j
                            - 1].0;
                    assert(s[m + 1].0 == u[j - 1].0);
                    assert(s[0].0 != s[m + 1].0);
                }
            } else {
                assert(t[i] == u[i - 1]);
                assert(t[j] == u[j - 1]);
            }
        }
    }
}

/// A key that `assoc_get` finds occurs in the sequence.
proof fn lemma_assoc_get_some_means_present<V>(s: Seq<(usize, V)>, key: usize)
    requires
        assoc_get(s, key) is Some,
    ensures
        exists|i: int| 0 <= i < s.len() && (#[trigger] s[i]).0 == key,
    decreases s.len(),
{
    if s.len() == 0 {
    } else if s[0].0 == key {
        assert(s[0].0 == key);
    } else {
        lemma_assoc_get_some_means_present(s.drop_first(), key);
        let i = choose|i: int| 0 <= i < s.drop_first().len() && (#[trigger] s.drop_first()[i]).0
            == key;
        assert(s[i + 1].0 == key);
    }
}

} // verus!

// The same association-map shape, keyed by name. A name key is compared by
// its character content, so the specification is phrased over `Seq<char>`.
use vstd::prelude::*;

verus! {

/// The value stored under a name key: the first entry whose key has exactly
/// the characters of `key`.
pub open spec fn nassoc_get<V>(s: Seq<(String, V)>, key: Seq<char>) -> Option<V>
    decreases s.len(),
{
    if s.len() == 0 {
        None
    } else if s[0].0@ == key {
        Some(s[0].1)
    } else {
        nassoc_get(s.drop_first(), key)
    }
}

/// The entry sequence after storing `value` under a name whose characters are
/// `key`: the first entry with that name is replaced in place (keeping the
/// stored `String`), or the pair is appended.
pub open spec fn nassoc_insert<V>(
    s: Seq<(String, V)>,
    name: String,
    key: Seq<char>,
    value: V,
) -> Seq<(String, V)>
    decreases s.len(),
{
    if s.len() == 0 {
        seq![(name, value)]
    } else if s[0].0@ == key {
        seq![(name, value)] + s.drop_first()
    } else {
        seq![s[0]] + nassoc_insert(s.drop_first(), name, key, value)
    }
}

/// The entry sequence with the first entry named `key` removed, if any.
pub open spec fn nassoc_remove<V>(s: Seq<(String, V)>, key: Seq<char>) -> Seq<(String, V)>
    decreases s.len(),
{
    if s.len() == 0 {
        s
    } else if s[0].0@ == key {
        s.drop_first()
    } else {
        seq![s[0]] + nassoc_remove(s.drop_first(), key)
    }
}

/// A map from names to values, as an association vector with unique names in
/// insertion order.
#[derive(Debug)]
pub struct NameMap<V> {
    pub entries: Vec<(String, V)>,
}

impl<V> NameMap<V> {
    /// Names are unique by character content.
    pub open spec fn wf(self) -> bool {
        forall|i: int, j: int|
            0 <= i < j < self.entries@.len() ==> (#[trigger] self.entries@[i]).0@ != (
            #[trigger] self.entries@[j]).0@
    }

    pub open spec fn spec_get(self, key: Seq<char>) -> Option<V> {
        nassoc_get(self.entries@, key)
    }

    pub open spec fn spec_len(self) -> nat {
        self.entries@.len()
    }

    pub open spec fn contains_key(self, key: Seq<char>) -> bool {
        self.spec_get(key) is Some
    }

    pub fn new() -> (m: Self)
        ensures
            m.entries@ =~= Seq::<(String, V)>::empty(),
            m.wf(),
    {
        NameMap { entries: Vec::new() }
    }

    pub fn len(&self) -> (n: usize)
        ensures
            n == self.spec_len(),
    {
        self.entries.len()
    }

    pub fn get(&self, key: &String) -> (r: Option<&V>)
        ensures
            match r {
                Some(v) => self.spec_get(key@) == Some(*v),
                None => self.spec_get(key@) is None,
            },
    {
        let n = self.entries.len();
        let mut i: usize = 0;
        proof {
            assert(self.entries@.skip(0) =~= self.entries@);
        }
        while i < n
            invariant
                n == self.entries@.len(),
                i <= n,
                nassoc_get(self.entries@, key@) == nassoc_get(
                    self.entries@.skip(i as int),
                    key@,
                ),
            decreases n - i,
        {
            proof {
                assert(self.entries@.skip(i as int).drop_first() =~= self.entries@.skip(
                    i as int + 1,
                ));
            }
            if self.entries[i].0 == *key {
                return Some(&self.entries[i].1);
            }
            i += 1;
        }
        proof {
            assert(self.entries@.skip(n as int) =~= Seq::<(String, V)>::empty());
        }
        None
    }

    pub fn insert(&mut self, name: String, value: V)
        ensures
            final(self).entries@ == nassoc_insert(old(self).entries@, name, name@, value),
            final(self).spec_get(name@) == Some(value),
            forall|k2: Seq<char>|
                k2 != name@ ==> final(self).spec_get(k2) == old(self).spec_get(k2),
            old(self).wf() ==> final(self).wf(),
            final(self).spec_len() == if old(self).contains_key(name@) {
                old(self).spec_len()
            } else {
                old(self).spec_len() + 1
            },
    {
        let n = self.entries.len();
        let mut i: usize = 0;
        while i < n
            invariant
                self.entries@ == old(self).entries@,
                n == self.entries@.len(),
                i <= n,
                forall|j: int| 0 <= j < i ==> (#[trigger] self.entries@[j]).0@ != name@,
            decreases n - i,
        {
            if self.entries[i].0 == name {
                self.entries[i] = (name, value);
                proof {
                    lemma_nassoc_insert_found(old(self).entries@, name, value, i as int);
                    lemma_nassoc_insert_get(old(self).entries@, name, value);
                    if old(self).wf() {
                        lemma_nassoc_insert_unique(old(self).entries@, name, value);
                    }
                }
                return ;
            }
            i += 1;
        }
        self.entries.push((name, value));
        proof {
            lemma_nassoc_insert_missing(old(self).entries@, name, value);
            lemma_nassoc_insert_get(old(self).entries@, name, value);
            if old(self).wf() {
                lemma_nassoc_insert_unique(old(self).entries@, name, value);
            }
        }
    }

    pub fn remove(&mut self, key: &String) -> (r: Option<V>)
        ensures
            final(self).entries@ == nassoc_remove(old(self).entries@, key@),
            r == old(self).spec_get(key@),
            old(self).wf() ==> final(self).wf(),
    {
        let n = self.entries.len();
        let mut i: usize = 0;
        while i < n
            invariant
                self.entries@ == old(self).entries@,
                n == self.entries@.len(),
                i <= n,
                forall|j: int| 0 <= j < i ==> (#[trigger] self.entries@[j]).0@ != key@,
            decreases n - i,
        {
            if self.entries[i].0 == *key {
                let pair = self.entries.remove(i);
                proof {
                    lemma_nassoc_remove_found(old(self).entries@, key@, i as int);
                    lemma_nassoc_get_found(old(self).entries@, key@, i as int);
                    if old(self).wf() {
                        lemma_nassoc_remove_unique(old(self).entries@, key@);
                    }
                }
                return Some(pair.1);
            }
            i += 1;
        }
        proof {
            lemma_nassoc_remove_missing(old(self).entries@, key@);
        }
        None
    }
}

/// Removing a missing name changes nothing and the lookup misses.
proof fn lemma_nassoc_remove_missing<V>(s: Seq<(String, V)>, key: Seq<char>)
    requires
        forall|j: int| 0 <= j < s.len() ==> (#[trigger] s[j]).0@ != key,
    ensures
        nassoc_remove(s, key) == s,
        nassoc_get(s, key) is None,
    decreases s.len(),
{
    if s.len() == 0 {
    } else {
        assert(forall|j: int|
            0 <= j < s.drop_first().len() ==> (#[trigger] s.drop_first()[j]).0@ != key);
        lemma_nassoc_remove_missing(s.drop_first(), key);
        assert(seq![s[0]] + s.drop_first() =~= s);
    }
}

/// Removing a name found first at index `i` deletes that entry.
proof fn lemma_nassoc_remove_found<V>(s: Seq<(String, V)>, key: Seq<char>, i: int)
    requires
        0 <= i < s.len(),
        s[i].0@ == key,
        forall|j: int| 0 <= j < i ==> (#[trigger] s[j]).0@ != key,
    ensures
        nassoc_remove(s, key) == s.remove(i),
    decreases s.len(),
{
    if i == 0 {
        assert(s.drop_first() =~= s.remove(0));
    } else {
        assert(s.drop_first()[i - 1].0@ == key);
        assert(forall|j: int| 0 <= j < i - 1 ==> (#[trigger] s.drop_first()[j]).0@ != key);
        lemma_nassoc_remove_found(s.drop_first(), key, i - 1);
        assert(seq![s[0]] + s.drop_first().remove(i - 1) =~= s.remove(i));
    }
}

/// The lookup of a name found first at index `i` yields that entry's value.
proof fn lemma_nassoc_get_found<V>(s: Seq<(String, V)>, key: Seq<char>, i: int)
    requires
        0 <= i < s.len(),
        s[i].0@ == key,
        forall|j: int| 0 <= j < i ==> (#[trigger] s[j]).0@ != key,
    ensures
        nassoc_get(s, key) == Some(s[i].1),
    decreases s.len(),
{
    if i == 0 {
    } else {
        assert(s.drop_first()[i - 1].0@ == key);
        assert(forall|j: int| 0 <= j < i - 1 ==> (#[trigger] s.drop_first()[j]).0@ != key);
        lemma_nassoc_get_found(s.drop_first(), key, i - 1);
    }
}

/// Removing keeps names unique.
proof fn lemma_nassoc_remove_unique<V>(s: Seq<(String, V)>, key: Seq<char>)
    requires
        forall|i: int, j: int| 0 <= i < j < s.len() ==> (#[trigger] s[i]).0@ != (
        #[trigger] s[j]).0@,
    ensures
        forall|i: int, j: int|
            0 <= i < j < nassoc_remove(s, key).len() ==> (#[trigger] nassoc_remove(s, key)[i]).0@
                != (#[trigger] nassoc_remove(s, key)[j]).0@,
    decreases s.len(),
{
    let t = nassoc_remove(s, key);
    if s.len() == 0 {
    } else if s[0].0@ == key {
        assert forall|i: int, j: int| 0 <= i < j < t.len() implies (#[trigger] t[i]).0@ != (
        #[trigger] t[j]).0@ by {
            assert(t[i] == s[i + 1]);
            assert(t[j] == s[j + 1]);
        }
    } else {
        assert(forall|i: int, j: int|
            0 <= i < j < s.drop_first().len() ==> (#[trigger] s.drop_first()[i]).0@ != (
            #[trigger] s.drop_first()[j]).0@);
        lemma_nassoc_remove_unique(s.drop_first(), key);
        lemma_nassoc_remove_subset(s.drop_first(), key);
        let u = nassoc_remove(s.drop_first(), key);
        assert forall|i: int, j: int| 0 <= i < j < t.len() implies (#[trigger] t[i]).0@ != (
        #[trigger] t[j]).0@ by {
            if i == 0 {
                assert(t[j] == u[j - 1]);
                let m = choose|m: int|
                    0 <= m < s.drop_first().len() && (#[trigger] s.drop_first()[m]) == u[j - 1];
                assert(s[m + 1] == u[j - 1]);
                assert(s[0].0@ != s[m + 1].0@);
            } else {
                assert(t[i] == u[i - 1]);
                assert(t[j] == u[j - 1]);
            }
        }
    }
}

/// Every entry of `nassoc_remove(s, key)` occurs in `s`.
proof fn lemma_nassoc_remove_subset<V>(s: Seq<(String, V)>, key: Seq<char>)
    ensures
        forall|j: int|
            0 <= j < nassoc_remove(s, key).len() ==> exists|i: int|
                0 <= i < s.len() && (#[trigger] s[i]) == (#[trigger] nassoc_remove(s, key)[j]),
    decreases s.len(),
{
    let t = nassoc_remove(s, key);
    if s.len() == 0 {
    } else if s[0].0@ == key {
        assert forall|j: int| 0 <= j < t.len() implies exists|i: int|
            0 <= i < s.len() && (#[trigger] s[i]) == (#[trigger] t[j]) by {
            assert(s[j + 1] == t[j]);
        }
    } else {
        lemma_nassoc_remove_subset(s.drop_first(), key);
        let u = nassoc_remove(s.drop_first(), key);
        assert forall|j: int| 0 <= j < t.len() implies exists|i: int|
            0 <= i < s.len() && (#[trigger] s[i]) == (#[trigger] t[j]) by {
            if j == 0 {
                assert(s[0] == t[0]);
            } else {
                assert(t[j] == u[j - 1]);
                let m = choose|m: int|
                    0 <= m < s.drop_first().len() && (#[trigger] s.drop_first()[m]) == u[j - 1];
                assert(s[m + 1] == t[j]);
            }
        }
    }
}

/// When no entry has the name, inserting appends.
proof fn lemma_nassoc_insert_missing<V>(s: Seq<(String, V)>, name: String, value: V)
    requires
        forall|j: int| 0 <= j < s.len() ==> (#[trigger] s[j]).0@ != name@,
    ensures
        nassoc_insert(s, name, name@, value) == s.push((name, value)),
    decreases s.len(),
{
    if s.len() == 0 {
        assert(nassoc_insert(s, name, name@, value) =~= s.push((name, value)));
    } else {
        assert(forall|j: int|
            0 <= j < s.drop_first().len() ==> (#[trigger] s.drop_first()[j]).0@ != name@);
        lemma_nassoc_insert_missing(s.drop_first(), name, value);
        assert(seq![s[0]] + nassoc_insert(s.drop_first(), name, name@, value) =~= s.push(
            (name, value),
        ));
    }
}

/// When the first entry with the name sits at index `i`, inserting updates it
/// in place.
proof fn lemma_nassoc_insert_found<V>(s: Seq<(String, V)>, name: String, value: V, i: int)
    requires
        0 <= i < s.len(),
        s[i].0@ == name@,
        forall|j: int| 0 <= j < i ==> (#[trigger] s[j]).0@ != name@,
    ensures
        nassoc_insert(s, name, name@, value) == s.update(i, (name, value)),
    decreases s.len(),
{
    if i == 0 {
        assert(seq![(name, value)] + s.drop_first() =~= s.update(0, (name, value)));
    } else {
        assert(s.drop_first()[i - 1].0@ == name@);
        assert(forall|j: int| 0 <= j < i - 1 ==> (#[trigger] s.drop_first()[j]).0@ != name@);
        lemma_nassoc_insert_found(s.drop_first(), name, value, i - 1);
        assert(seq![s[0]] + s.drop_first().update(i - 1, (name, value)) =~= s.update(
            i,
            (name, value),
        ));
    }
}

/// What `nassoc_insert` does to lookups and to the entry count.
proof fn lemma_nassoc_insert_get<V>(s: Seq<(String, V)>, name: String, value: V)
    ensures
        nassoc_get(nassoc_insert(s, name, name@, value), name@) == Some(value),
        forall|k2: Seq<char>|
            k2 != name@ ==> #[trigger] nassoc_get(nassoc_insert(s, name, name@, value), k2)
                == nassoc_get(s, k2),
        nassoc_insert(s, name, name@, value).len() == if nassoc_get(s, name@) is Some {
            s.len()
        } else {
            s.len() + 1
        },
    decreases s.len(),
{
    if s.len() == 0 {
        let t = nassoc_insert(s, name, name@, value);
        assert(t.drop_first() =~= Seq::<(String, V)>::empty());
        assert forall|k2: Seq<char>| k2 != name@ implies #[trigger] nassoc_get(t, k2)
            == nassoc_get(s, k2) by {
            assert(t[0].0@ == name@);
            assert(nassoc_get(t, k2) == nassoc_get(t.drop_first(), k2));
        }
    } else if s[0].0@ == name@ {
        let t = seq![(name, value)] + s.drop_first();
        assert(t.drop_first() =~= s.drop_first());
        assert(t[0] == (name, value));
        assert forall|k2: Seq<char>| k2 != name@ implies #[trigger] nassoc_get(t, k2)
            == nassoc_get(s, k2) by {
            assert(nassoc_get(t, k2) == nassoc_get(s.drop_first(), k2));
            assert(nassoc_get(s, k2) == nassoc_get(s.drop_first(), k2));
        }
    } else {
        lemma_nassoc_insert_get(s.drop_first(), name, value);
        let t = seq![s[0]] + nassoc_insert(s.drop_first(), name, name@, value);
        assert(t.drop_first() =~= nassoc_insert(s.drop_first(), name, name@, value));
        assert(t[0] == s[0]);
        assert forall|k2: Seq<char>| k2 != name@ implies #[trigger] nassoc_get(t, k2)
            == nassoc_get(s, k2) by {
            if t[0].0@ == k2 {
            } else {
                assert(nassoc_get(t, k2) == nassoc_get(
                    nassoc_insert(s.drop_first(), name, name@, value),
                    k2,
                ));
                assert(nassoc_get(s, k2) == nassoc_get(s.drop_first(), k2));
            }
        }
    }
}

/// Every name of `nassoc_insert(s, name, name@, value)` is `name@` or occurs
/// in `s`.
proof fn lemma_nassoc_insert_keys<V>(s: Seq<(String, V)>, name: String, value: V)
    ensures
        forall|j: int|
            0 <= j < nassoc_insert(s, name, name@, value).len() ==> (#[trigger] nassoc_insert(
                s,
                name,
                name@,
                value,
            )[j]).0@ == name@ || exists|i: int| 0 <= i < s.len() && (#[trigger] s[i]).0@
                == nassoc_insert(s, name, name@, value)[j].0@,
    decreases s.len(),
{
    let t = nassoc_insert(s, name, name@, value);
    if s.len() == 0 {
    } else if s[0].0@ == name@ {
        assert forall|j: int| 0 <= j < t.len() implies (#[trigger] t[j]).0@ == name@ || exists|
            i: int,
        | 0 <= i < s.len() && (#[trigger] s[i]).0@ == t[j].0@ by {
            if j > 0 {
                assert(t[j] == s[j]);
                assert(s[j].0@ == t[j].0@);
            }
        }
    } else {
        lemma_nassoc_insert_keys(s.drop_first(), name, value);
        let u = nassoc_insert(s.drop_first(), name, name@, value);
        assert forall|j: int| 0 <= j < t.len() implies (#[trigger] t[j]).0@ == name@ || exists|
            i: int,
        | 0 <= i < s.len() && (#[trigger] s[i]).0@ == t[j].0@ by {
            if j == 0 {
                assert(s[0].0@ == t[0].0@);
            } else {
                assert(t[j] == u[j - 1]);
                if u[j - 1].0@ != name@ {
                    let i = choose|i: int|
                        0 <= i < s.drop_first().len() && (#[trigger] s.drop_first()[i]).0@ == u[j
                            - 1].0@;
                    assert(s[i + 1].0@ == t[j].0@);
                }
            }
        }
    }
}

/// Inserting keeps names unique.
proof fn lemma_nassoc_insert_unique<V>(s: Seq<(String, V)>, name: String, value: V)
    requires
        forall|i: int, j: int| 0 <= i < j < s.len() ==> (#[trigger] s[i]).0@ != (
        #[trigger] s[j]).0@,
    ensures
        forall|i: int, j: int|
            0 <= i < j < nassoc_insert(s, name, name@, value).len() ==> (#[trigger] nassoc_insert(
                s,
                name,
                name@,
                value,
            )[i]).0@ != (#[trigger] nassoc_insert(s, name, name@, value)[j]).0@,
    decreases s.len(),
{
    let t = nassoc_insert(s, name, name@, value);
    if s.len() == 0 {
    } else if s[0].0@ == name@ {
        assert forall|i: int, j: int| 0 <= i < j < t.len() implies (#[trigger] t[i]).0@ != (
        #[trigger] t[j]).0@ by {
            if i == 0 {
                assert(t[j] == s[j]);
                assert(s[0].0@ != s[j].0@);
            } else {
                assert(t[i] == s[i]);
                assert(t[j] == s[j]);
            }
        }
    } else {
        assert(forall|i: int, j: int|
            0 <= i < j < s.drop_first().len() ==> (#[trigger] s.drop_first()[i]).0@ != (
            #[trigger] s.drop_first()[j]).0@);
        lemma_nassoc_insert_unique(s.drop_first(), name, value);
        lemma_nassoc_insert_keys(s.drop_first(), name, value);
        let u = nassoc_insert(s.drop_first(), name, name@, value);
        assert forall|i: int, j: int| 0 <= i < j < t.len() implies (#[trigger] t[i]).0@ != (
        #[trigger] t[j]).0@ by {
            if i == 0 {
                assert(t[j] == u[j - 1]);
                if u[j - 1].0@ == name@ {
                    assert(s[0].0@ != name@);
                } else {
                    let m = choose|m: int|
                        0 <= m < s.drop_first().len() && (#[trigger] s.drop_first()[m]).0@ == u[j
                            - 1].0@;
                    assert(s[m + 1].0@ == u[j - 1].0@);
                    assert(s[0].0@ != s[m + 1].0@);
                }
            } else {
                assert(t[i] == u[i - 1]);
                assert(t[j] == u[j - 1]);
            }
        }
    }
}

} // verus!
