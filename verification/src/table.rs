//! Tables that keep their entries in order.

use vstd::laws_eq::obeys_concrete_eq;
use vstd::prelude::*;

verus! {

/// No key occurs twice among `entries`.
pub open spec fn keys_distinct<K, V>(entries: Seq<(K, V)>) -> bool {
    forall|i: int, j: int|
        0 <= i < j < entries.len() ==> #[trigger] entries[i].0 != #[trigger] entries[j].0
}

/// Some entry has the key `key`.
pub open spec fn has_key<K, V>(entries: Seq<(K, V)>, key: K) -> bool {
    exists|i: int| 0 <= i < entries.len() && #[trigger] entries[i].0 == key
}

/// The value of an entry with the key `key`, if there is one.
pub open spec fn lookup<K, V>(entries: Seq<(K, V)>, key: K) -> Option<V> {
    if has_key(entries, key) {
        let i = choose|i: int| 0 <= i < entries.len() && #[trigger] entries[i].0 == key;
        Some(entries[i].1)
    } else {
        None
    }
}

/// The entries as a map.
pub open spec fn map_of<K, V>(entries: Seq<(K, V)>) -> Map<K, V> {
    Map::new(|key: K| has_key(entries, key), |key: K| lookup(entries, key)->0)
}

/// The keys of the entries, in the same order.
pub open spec fn keys_of<K, V>(entries: Seq<(K, V)>) -> Seq<K> {
    entries.map_values(|entry: (K, V)| entry.0)
}

/// The entries whose key is not `key`, in the same order.
pub open spec fn without_key<K, V>(entries: Seq<(K, V)>, key: K) -> Seq<(K, V)> {
    entries.filter(|entry: (K, V)| entry.0 != key)
}

/// The entries with `value` under `key`: in the place of what was there, or at the end.
pub open spec fn with_entry<K, V>(entries: Seq<(K, V)>, key: K, value: V) -> Seq<(K, V)> {
    if has_key(entries, key) {
        entries.map_values(
            |entry: (K, V)|
                if entry.0 == key {
                    (key, value)
                } else {
                    entry
                },
        )
    } else {
        entries.push((key, value))
    }
}

/// An entry's value is what its key looks up.
pub proof fn lemma_lookup<K, V>(entries: Seq<(K, V)>, i: int)
    requires
        keys_distinct(entries),
        0 <= i < entries.len(),
    ensures
        has_key(entries, entries[i].0),
        lookup(entries, entries[i].0) == Some(entries[i].1),
        map_of(entries)[entries[i].0] == entries[i].1,
{
    let key = entries[i].0;
    assert(has_key(entries, key));
    let j = choose|j: int| 0 <= j < entries.len() && #[trigger] entries[j].0 == key;
    assert(i == j);
}

/// Where the keys are distinct, leaving out one key is leaving out its one entry.
pub proof fn lemma_without_key_at<K, V>(entries: Seq<(K, V)>, i: int)
    requires
        keys_distinct(entries),
        0 <= i < entries.len(),
    ensures
        without_key(entries, entries[i].0) == entries.remove(i),
    decreases entries.len(),
{
    reveal(Seq::filter);
    let key = entries[i].0;
    let init = entries.drop_last();
    if i == entries.len() - 1 {
        assert(!has_key(init, key));
        lemma_without_absent_key(init, key);
        assert(entries.remove(i) =~= init);
    } else {
        assert(init[i] == entries[i]);
        lemma_without_key_at(init, i);
        assert(entries.last().0 != key);
        assert(entries.remove(i) =~= init.remove(i).push(entries.last()));
    }
}

/// Leaving out a key that no entry has changes nothing.
pub proof fn lemma_without_absent_key<K, V>(entries: Seq<(K, V)>, key: K)
    requires
        !has_key(entries, key),
    ensures
        without_key(entries, key) == entries,
    decreases entries.len(),
{
    reveal(Seq::filter);
    if entries.len() != 0 {
        let init = entries.drop_last();
        assert forall|i: int| 0 <= i < init.len() implies #[trigger] init[i].0 != key by {
            assert(entries[i].0 != key);
        }
        lemma_without_absent_key(init, key);
        assert(entries[entries.len() - 1].0 != key);
        assert(init.push(entries.last()) =~= entries);
    }
}

/// Leaving out a key removes it from the map, and the rest stays as it was.
pub proof fn lemma_without_key<K, V>(entries: Seq<(K, V)>, key: K)
    requires
        keys_distinct(entries),
    ensures
        keys_distinct(without_key(entries, key)),
        map_of(without_key(entries, key)) == map_of(entries).remove(key),
        !has_key(without_key(entries, key), key),
        forall|other: K|
            other != key ==> (has_key(without_key(entries, key), other) <==> has_key(
                entries,
                other,
            )),
{
    if has_key(entries, key) {
        let i = choose|i: int| 0 <= i < entries.len() && #[trigger] entries[i].0 == key;
        lemma_without_key_at(entries, i);
        let rest = entries.remove(i);
        assert forall|a: int, b: int| 0 <= a < b < rest.len() implies #[trigger] rest[a].0
            != #[trigger] rest[b].0 by {
            let a0 = if a < i { a } else { a + 1 };
            let b0 = if b < i { b } else { b + 1 };
            assert(rest[a] == entries[a0]);
            assert(rest[b] == entries[b0]);
        }
        assert(!has_key(rest, key)) by {
            if has_key(rest, key) {
                let a = choose|a: int| 0 <= a < rest.len() && #[trigger] rest[a].0 == key;
                let a0 = if a < i { a } else { a + 1 };
                assert(rest[a] == entries[a0]);
            }
        }
        assert forall|other: K| other != key && has_key(entries, other) implies has_key(
            rest,
            other,
        ) && lookup(rest, other) == lookup(entries, other) by {
            let c = choose|c: int| 0 <= c < entries.len() && #[trigger] entries[c].0 == other;
            let c1 = if c < i { c } else { c - 1 };
            assert(rest[c1] == entries[c]);
            lemma_lookup(rest, c1);
            lemma_lookup(entries, c);
        }
        assert forall|other: K| has_key(rest, other) implies has_key(entries, other) by {
            let a = choose|a: int| 0 <= a < rest.len() && #[trigger] rest[a].0 == other;
            let a0 = if a < i { a } else { a + 1 };
            assert(rest[a] == entries[a0]);
        }
        assert(map_of(rest) =~= map_of(entries).remove(key));
    } else {
        lemma_without_absent_key(entries, key);
        assert(map_of(entries) =~= map_of(entries).remove(key));
    }
}

/// Setting a key sets it in the map, and the rest stays as it was.
pub proof fn lemma_with_entry<K, V>(entries: Seq<(K, V)>, key: K, value: V)
    requires
        keys_distinct(entries),
    ensures
        keys_distinct(with_entry(entries, key, value)),
        map_of(with_entry(entries, key, value)) == map_of(entries).insert(key, value),
        has_key(with_entry(entries, key, value), key),
        forall|other: K|
            other != key ==> (has_key(with_entry(entries, key, value), other) <==> has_key(
                entries,
                other,
            )),
{
    let after = with_entry(entries, key, value);
    assert(forall|i: int| 0 <= i < entries.len() ==> #[trigger] after[i].0 == entries[i].0);
    assert(keys_distinct(after)) by {
        assert forall|i: int, j: int| 0 <= i < j < after.len() implies #[trigger] after[i].0
            != #[trigger] after[j].0 by {
            assert(after[i].0 == entries[i].0);
            if j < entries.len() {
                assert(after[j].0 == entries[j].0);
            }
        }
    }
    assert(has_key(after, key)) by {
        if has_key(entries, key) {
            let i = choose|i: int| 0 <= i < entries.len() && #[trigger] entries[i].0 == key;
            assert(after[i].0 == key);
        } else {
            assert(after[entries.len() as int].0 == key);
        }
    }
    assert(lookup(after, key) == Some(value)) by {
        let i = choose|i: int| 0 <= i < after.len() && #[trigger] after[i].0 == key;
        if i < entries.len() {
            assert(entries[i].0 == key);
        }
    }
    assert forall|other: K| other != key && has_key(entries, other) implies has_key(
        after,
        other,
    ) && lookup(after, other) == lookup(entries, other) by {
        let c = choose|c: int| 0 <= c < entries.len() && #[trigger] entries[c].0 == other;
        assert(after[c] == entries[c]);
        lemma_lookup(after, c);
        lemma_lookup(entries, c);
    }
    assert forall|other: K| other != key && has_key(after, other) implies has_key(
        entries,
        other,
    ) by {
        let a = choose|a: int| 0 <= a < after.len() && #[trigger] after[a].0 == other;
        assert(a < entries.len());
        assert(entries[a].0 == other);
    }
    assert(map_of(after) =~= map_of(entries).insert(key, value));
}

/// A table in which no key occurs twice, in the order in which the keys came.
pub struct Table<K, V> {
    entries: Vec<(K, V)>,
}

impl<K, V> View for Table<K, V> {
    type V = Map<K, V>;

    open spec fn view(&self) -> Map<K, V> {
        map_of(self.entries())
    }
}

impl<K, V> Table<K, V> {
    /// The entries, in the order in which their keys came.
    pub closed spec fn entries(&self) -> Seq<(K, V)> {
        self.entries@
    }

    /// No key occurs twice.
    pub open spec fn wf(&self) -> bool {
        keys_distinct(self.entries())
    }

    /// An empty table.
    pub fn new() -> (table: Self)
        ensures
            table.wf(),
            table.entries() == Seq::<(K, V)>::empty(),
            table@ == Map::<K, V>::empty(),
    {
        let table = Table { entries: Vec::new() };
        assert(table@ =~= Map::<K, V>::empty());
        table
    }

    /// The number of entries.
    pub fn len(&self) -> (len: usize)
        ensures
            len == self.entries().len(),
    {
        self.entries.len()
    }

    /// The value of the entry at `index`.
    pub fn value_at(&self, index: usize) -> (value: &V)
        requires
            index < self.entries().len(),
        ensures
            *value == self.entries()[index as int].1,
    {
        &self.entries[index].1
    }

    /// The value of the entry at `index`, to be changed.
    pub fn value_at_mut(&mut self, index: usize) -> (value: &mut V)
        requires
            index < old(self).entries().len(),
        ensures
            *value == old(self).entries()[index as int].1,
            final(self).entries() == old(self).entries().update(
                index as int,
                (old(self).entries()[index as int].0, *final(value)),
            ),
    {
        &mut self.entries[index].1
    }
}

/// Keys are compared with `==`, which has to be identity.
impl<K: PartialEq, V> Table<K, V> {
    /// The place of the entry with the key `key`.
    pub fn find(&self, key: &K) -> (index: Option<usize>)
        requires
            obeys_concrete_eq::<K>(),
        ensures
            index is Some <==> has_key(self.entries(), *key),
            index matches Some(i) ==> i < self.entries().len() && self.entries()[i as int].0
                == *key,
    {
        let mut i: usize = 0;
        while i < self.entries.len()
            invariant
                obeys_concrete_eq::<K>(),
                i <= self.entries@.len(),
                forall|j: int| 0 <= j < i ==> #[trigger] self.entries@[j].0 != *key,
            decreases self.entries@.len() - i,
        {
            proof {
                reveal(obeys_concrete_eq);
            }
            if self.entries[i].0 == *key {
                return Some(i);
            }
            i = i + 1;
        }
        None
    }

    /// Whether there is an entry with the key `key`.
    pub fn contains_key(&self, key: &K) -> (found: bool)
        requires
            obeys_concrete_eq::<K>(),
        ensures
            found == has_key(self.entries(), *key),
            found == self@.contains_key(*key),
    {
        self.find(key).is_some()
    }

    /// The value under `key`.
    pub fn get(&self, key: &K) -> (value: Option<&V>)
        requires
            obeys_concrete_eq::<K>(),
            self.wf(),
        ensures
            match value {
                Some(v) => lookup(self.entries(), *key) == Some(*v) && self@.contains_key(*key)
                    && self@[*key] == *v,
                None => !self@.contains_key(*key),
            },
    {
        match self.find(key) {
            Some(i) => {
                proof {
                    lemma_lookup(self.entries(), i as int);
                }
                Some(&self.entries[i].1)
            },
            None => None,
        }
    }

    /// Puts `value` under `key`, in place of what was there.
    pub fn insert(&mut self, key: K, value: V)
        requires
            obeys_concrete_eq::<K>(),
            old(self).wf(),
        ensures
            final(self).wf(),
            final(self).entries() == with_entry(old(self).entries(), key, value),
            final(self)@ == old(self)@.insert(key, value),
    {
        let ghost before = self.entries();
        proof {
            lemma_with_entry(before, key, value);
        }
        match self.find(&key) {
            Some(i) => {
                self.entries[i] = (key, value);
                assert(self.entries() =~= with_entry(before, key, value));
            },
            None => {
                self.entries.push((key, value));
            },
        }
    }

    /// Takes out the value under `key`, if there is one.
    pub fn remove(&mut self, key: &K) -> (value: Option<V>)
        requires
            obeys_concrete_eq::<K>(),
            old(self).wf(),
        ensures
            final(self).wf(),
            final(self).entries() == without_key(old(self).entries(), *key),
            final(self)@ == old(self)@.remove(*key),
            value == lookup(old(self).entries(), *key),
            match value {
                Some(v) => old(self)@.contains_key(*key) && old(self)@[*key] == v,
                None => !old(self)@.contains_key(*key),
            },
    {
        let ghost before = self.entries();
        proof {
            lemma_without_key(before, *key);
        }
        match self.find(key) {
            Some(i) => {
                proof {
                    lemma_lookup(before, i as int);
                    lemma_without_key_at(before, i as int);
                }
                let (_, value) = self.entries.remove(i);
                Some(value)
            },
            None => {
                proof {
                    lemma_without_absent_key(before, *key);
                }
                None
            },
        }
    }
}

impl<K: Copy, V> Table<K, V> {
    /// The key of the entry at `index`.
    pub fn key_at(&self, index: usize) -> (key: K)
        requires
            index < self.entries().len(),
        ensures
            key == self.entries()[index as int].0,
    {
        self.entries[index].0
    }

    /// The keys, in the order in which they came.
    pub fn keys(&self) -> (keys: Vec<K>)
        ensures
            keys@ == keys_of(self.entries()),
    {
        let mut keys: Vec<K> = Vec::new();
        let mut i: usize = 0;
        while i < self.entries.len()
            invariant
                i <= self.entries@.len(),
                keys@.len() == i,
                forall|j: int| 0 <= j < i ==> #[trigger] keys@[j] == self.entries@[j].0,
            decreases self.entries@.len() - i,
        {
            keys.push(self.entries[i].0);
            i = i + 1;
        }
        keys
    }
}

/// A key is in a table if and only if one of the entries has it, and then looks up the value of that
/// entry.
pub proof fn law_lookup_finds_the_entry<K, V>(entries: Seq<(K, V)>, key: K, i: int)
    requires
        keys_distinct(entries),
    ensures
        0 <= i < entries.len() && entries[i].0 == key ==> has_key(entries, key) && lookup(
            entries,
            key,
        ) == Some(entries[i].1) && map_of(entries).contains_key(key) && map_of(entries)[key]
            == entries[i].1,
        (forall|k: int| 0 <= k < entries.len() ==> (#[trigger] entries[k]).0 != key) ==> !has_key(
            entries,
            key,
        ) && lookup(entries, key) is None && !map_of(entries).contains_key(key),
        keys_of(entries).len() == entries.len(),
        0 <= i < entries.len() ==> keys_of(entries)[i] == entries[i].0,
        forall|k: int|
            0 <= k < entries.len() && 0 <= i < entries.len() && (#[trigger] entries[k]).0
                == entries[i].0 ==> k == i,
{
    if 0 <= i < entries.len() {
        lemma_lookup(entries, i);
    }
}

/// Setting a key changes the value of its entry and nothing else; where there is none, one entry is
/// added at the end.
pub proof fn law_setting_changes_one_entry<K, V>(
    entries: Seq<(K, V)>,
    key: K,
    value: V,
    i: int,
    at: int,
)
    requires
        keys_distinct(entries),
        0 <= i < entries.len(),
    ensures
        ({
            let after = with_entry(entries, key, value);
            &&& after[i] == if entries[i].0 == key {
                (key, value)
            } else {
                entries[i]
            }
            &&& 0 <= at < entries.len() && entries[at].0 == key ==> after.len() == entries.len()
            &&& (forall|k: int| 0 <= k < entries.len() ==> (#[trigger] entries[k]).0 != key)
                ==> after.len() == entries.len() + 1 && after.last() == (key, value)
        }),
        with_entry(Seq::<(K, V)>::empty(), key, value) == seq![(key, value)],
{
    let none = Seq::<(K, V)>::empty();
    assert(!has_key(none, key));
    assert(with_entry(none, key, value) =~= seq![(key, value)]);
}

/// Leaving out a key removes its one entry, keeps the others in order, and does nothing where there
/// is none.
pub proof fn law_leaving_out_removes_one_entry<K, V>(entries: Seq<(K, V)>, key: K, i: int)
    requires
        keys_distinct(entries),
    ensures
        0 <= i < entries.len() && entries[i].0 == key ==> without_key(entries, key)
            == entries.remove(i),
        (forall|k: int| 0 <= k < entries.len() ==> (#[trigger] entries[k]).0 != key)
            ==> without_key(entries, key) == entries,
{
    if 0 <= i < entries.len() && entries[i].0 == key {
        lemma_without_key_at(entries, i);
    }
    if forall|k: int| 0 <= k < entries.len() ==> (#[trigger] entries[k]).0 != key {
        lemma_without_absent_key(entries, key);
    }
}

/// No key occurs twice just where any two entries have different keys.
pub proof fn law_distinct_keys<K, V>(entries: Seq<(K, V)>)
    ensures
        keys_distinct(entries) <==> (forall|i: int, j: int|
            0 <= i < entries.len() && 0 <= j < entries.len() && i != j ==> (#[trigger] entries[i]).0
                != (#[trigger] entries[j]).0),
{
    if keys_distinct(entries) {
        assert forall|i: int, j: int|
            0 <= i < entries.len() && 0 <= j < entries.len() && i != j implies (
        #[trigger] entries[i]).0 != (#[trigger] entries[j]).0 by {
            if i < j {
                assert(entries[i].0 != entries[j].0);
            } else {
                assert(entries[j].0 != entries[i].0);
            }
        }
    }
}

} // verus!
