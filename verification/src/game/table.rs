use vstd::prelude::*;

use super::ids::Key;

verus! {

/// The position of the first entry of `entries` whose key is `key`, or -1 when there is none.
pub open spec fn key_position<A, B>(entries: Seq<(A, B)>, key: A) -> int
    decreases entries.len(),
{
    if entries.len() == 0 {
        -1
    } else if entries[0].0 == key {
        0
    } else {
        let rest = key_position(entries.drop_first(), key);
        if rest < 0 {
            -1
        } else {
            rest + 1
        }
    }
}

/// Whether some entry of `entries` has the key `key`.
pub open spec fn has_key<A, B>(entries: Seq<(A, B)>, key: A) -> bool {
    key_position(entries, key) >= 0
}

/// The value of the first entry of `entries` whose key is `key`.
pub open spec fn lookup<A, B>(entries: Seq<(A, B)>, key: A) -> Option<B> {
    let p = key_position(entries, key);
    if p >= 0 {
        Some(entries[p].1)
    } else {
        None
    }
}

/// The entries after `key` is set to `value`: the first entry with that key gets the new
/// value in place, and a key that is not there is appended at the end.
pub open spec fn table_insert<A, B>(entries: Seq<(A, B)>, key: A, value: B) -> Seq<(A, B)> {
    let p = key_position(entries, key);
    if p >= 0 {
        entries.update(p, (key, value))
    } else {
        entries.push((key, value))
    }
}

/// Whether no two entries share a key.
pub open spec fn keys_unique<A, B>(entries: Seq<(A, B)>) -> bool {
    forall|i: int, j: int| 0 <= i < j < entries.len() ==> entries[i].0 != entries[j].0
}

/// Setting a key keeps the keys unique.
pub proof fn lemma_insert_keeps_unique<A, B>(entries: Seq<(A, B)>, key: A, value: B)
    requires
        keys_unique(entries),
    ensures
        keys_unique(table_insert(entries, key, value)),
{
    lemma_key_position_found(entries, key);
    let r = table_insert(entries, key, value);
    assert forall|i: int, j: int| 0 <= i < j < r.len() implies r[i].0 != r[j].0 by {
        if j == entries.len() {
            assert(r[j].0 == key);
            assert(r[i] == entries[i]);
        }
    }
}

/// The keys of `entries` in order.
pub open spec fn table_keys<A, B>(entries: Seq<(A, B)>) -> Seq<A> {
    entries.map_values(|e: (A, B)| e.0)
}

/// The first match found scanning from the front is the first match.
pub proof fn lemma_key_position_scan<A, B>(entries: Seq<(A, B)>, key: A, i: int)
    requires
        0 <= i <= entries.len(),
        forall|j: int| 0 <= j < i ==> entries[j].0 != key,
    ensures
        i < entries.len() && entries[i].0 == key ==> key_position(entries, key) == i,
        i == entries.len() ==> key_position(entries, key) == -1,
    decreases i,
{
    if i > 0 {
        let rest = entries.drop_first();
        assert forall|j: int| 0 <= j < i - 1 implies rest[j].0 != key by {
            assert(rest[j] == entries[j + 1]);
        }
        lemma_key_position_scan(rest, key, i - 1);
        if i < entries.len() {
            assert(rest[i - 1] == entries[i]);
        }
    } else {
        if entries.len() > 0 && i == 0 && entries[0].0 == key {
        } else if entries.len() == 0 {
        }
    }
}

/// A found position is a position whose entry has the key, with no earlier entry having it.
pub proof fn lemma_key_position_found<A, B>(entries: Seq<(A, B)>, key: A)
    ensures
        -1 <= key_position(entries, key) < entries.len(),
        key_position(entries, key) >= 0 ==> entries[key_position(entries, key)].0 == key,
        forall|j: int|
            0 <= j < entries.len() && (key_position(entries, key) < 0 || j < key_position(
                entries,
                key,
            )) ==> entries[j].0 != key,
    decreases entries.len(),
{
    if entries.len() > 0 {
        let rest = entries.drop_first();
        lemma_key_position_found(rest, key);
        assert forall|j: int|
            0 <= j < entries.len() && (key_position(entries, key) < 0 || j < key_position(
                entries,
                key,
            )) implies entries[j].0 != key by {
            if j > 0 {
                assert(entries[j] == rest[j - 1]);
            }
        }
    }
}

/// A finite association list from keys to values, searched by key view. Setting a key
/// that is present replaces its value in place; a new key goes to the end, so the
/// entries keep the order in which their keys were first set.
#[derive(Debug, PartialEq, Eq)]
pub struct Table<K: Key, V: View> {
    keys: Vec<K>,
    values: Vec<V>,
}

impl<K: Key, V: View> View for Table<K, V> {
    type V = Seq<(K::V, V::V)>;

    closed spec fn view(&self) -> Seq<(K::V, V::V)> {
        Seq::new(self.keys@.len(), |i: int| (self.keys@[i]@, self.values@[i]@))
    }
}

impl<K: Key, V: View> Table<K, V> {
    /// The invariant of a table: a value for each key, and no two keys alike.
    #[verifier::type_invariant]
    pub closed spec fn unique_keys(self) -> bool {
        &&& self.keys@.len() == self.values@.len()
        &&& forall|i: int, j: int|
            0 <= i < j < self.keys@.len() ==> self.keys@[i]@ != self.keys@[j]@
    }

    /// The invariant, in terms of the view.
    pub proof fn lemma_unique(table: &Self)
        requires
            table.unique_keys(),
        ensures
            keys_unique(table@),
    {
        assert forall|i: int, j: int| 0 <= i < j < table@.len() implies table@[i].0
            != table@[j].0 by {
            assert(table@[i].0 == table.keys@[i]@);
            assert(table@[j].0 == table.keys@[j]@);
        }
    }

    /// A table with the given keys and values, which must keep the invariant.
    fn from_parts(keys: Vec<K>, values: Vec<V>) -> (table: Self)
        requires
            keys@.len() == values@.len(),
            forall|i: int, j: int| 0 <= i < j < keys@.len() ==> keys@[i]@ != keys@[j]@,
        ensures
            table@ == Seq::new(keys@.len(), |i: int| (keys@[i]@, values@[i]@)),
    {
        Table { keys, values }
    }

    /// Takes the keys and values out, leaving the table empty.
    fn take_parts(&mut self) -> (parts: (Vec<K>, Vec<V>))
        ensures
            final(self)@ == Seq::<(K::V, V::V)>::empty(),
            parts.0@.len() == parts.1@.len(),
            forall|i: int, j: int|
                0 <= i < j < parts.0@.len() ==> parts.0@[i]@ != parts.0@[j]@,
            old(self)@ == Seq::new(parts.0@.len(), |i: int| (parts.0@[i]@, parts.1@[i]@)),
    {
        proof {
            use_type_invariant(&*self);
        }
        let mut other = Table::new();
        std::mem::swap(self, &mut other);
        let Table { keys, values } = other;
        (keys, values)
    }

    /// An empty table.
    pub fn new() -> (table: Self)
        ensures
            table@ == Seq::<(K::V, V::V)>::empty(),
    {
        let table = Table { keys: Vec::new(), values: Vec::new() };
        assert(table@ =~= Seq::<(K::V, V::V)>::empty());
        table
    }

    /// The number of entries.
    pub fn len(&self) -> (n: usize)
        ensures
            n == self@.len(),
    {
        self.keys.len()
    }

    /// Whether the table has no entries.
    pub fn is_empty(&self) -> (empty: bool)
        ensures
            empty == (self@.len() == 0),
    {
        self.keys.len() == 0
    }

    /// The key of the entry at `index`.
    pub fn key_at(&self, index: usize) -> (key: &K)
        requires
            index < self@.len(),
        ensures
            key@ == self@[index as int].0,
    {
        &self.keys[index]
    }

    /// The value of the entry at `index`.
    pub fn value_at(&self, index: usize) -> (value: &V)
        requires
            index < self@.len(),
        ensures
            value@ == self@[index as int].1,
    {
        proof {
            use_type_invariant(self);
        }
        &self.values[index]
    }

    /// The position of the entry with key `key`, if any.
    pub fn position(&self, key: &K) -> (position: Option<usize>)
        ensures
            match position {
                Some(p) => key_position(self@, key@) == p as int,
                None => key_position(self@, key@) == -1,
            },
    {
        let n = self.keys.len();
        let mut i: usize = 0;
        while i < n
            invariant
                0 <= i <= n,
                n == self@.len(),
                forall|j: int| 0 <= j < i ==> self@[j].0 != key@,
            decreases n - i,
        {
            assert(self@[i as int].0 == self.keys@[i as int]@);
            if self.keys[i].same_key(key) {
                proof {
                    lemma_key_position_scan(self@, key@, i as int);
                }
                return Some(i);
            }
            i = i + 1;
        }
        proof {
            lemma_key_position_scan(self@, key@, i as int);
        }
        None
    }

    /// The value stored under `key`, if any.
    pub fn get(&self, key: &K) -> (value: Option<&V>)
        ensures
            match value {
                Some(v) => lookup(self@, key@) == Some(v@),
                None => lookup(self@, key@) is None,
            },
    {
        proof {
            use_type_invariant(self);
            lemma_key_position_found(self@, key@);
        }
        match self.position(key) {
            Some(p) => Some(&self.values[p]),
            None => None,
        }
    }

    /// The value stored under `key`, if any, to be changed in place; what it is changed to
    /// becomes the value stored under `key`.
    pub fn get_mut(&mut self, key: &K) -> (value: Option<&mut V>)
        ensures
            match value {
                Some(v) => lookup(old(self)@, key@) == Some((*v)@) && final(self)@ == table_insert(
                    old(self)@,
                    key@,
                    (*final(v))@,
                ),
                None => lookup(old(self)@, key@) is None && final(self)@ == old(self)@,
            },
    {
        proof {
            use_type_invariant(&*self);
            lemma_key_position_found(self@, key@);
        }
        match self.position(key) {
            Some(p) => {
                assert(self@[p as int].0 == self.keys@[p as int]@);
                Some(&mut self.values[p])
            },
            None => None,
        }
    }

    /// Whether some entry has key `key`.
    pub fn contains_key(&self, key: &K) -> (found: bool)
        ensures
            found == has_key(self@, key@),
    {
        self.position(key).is_some()
    }

    /// Sets the value stored under `key`.
    pub fn insert(&mut self, key: K, value: V)
        ensures
            final(self)@ == table_insert(old(self)@, key@, value@),
    {
        proof {
            use_type_invariant(&*self);
            lemma_key_position_found(self@, key@);
        }
        let position = self.position(&key);
        let ghost before = self@;
        let (mut keys, mut values) = self.take_parts();
        match position {
            Some(p) => {
                assert(before[p as int].0 == keys@[p as int]@);
                keys.set(p, key);
                values.set(p, value);
                proof {
                    assert forall|i: int, j: int| 0 <= i < j < keys@.len() implies keys@[i]@
                        != keys@[j]@ by {
                        assert(before[i].0 == old(self)@[i].0);
                        assert(before[j].0 == old(self)@[j].0);
                    }
                }
            },
            None => {
                proof {
                    assert forall|i: int| 0 <= i < keys@.len() implies keys@[i]@ != key@ by {
                        assert(before[i].0 == keys@[i]@);
                    }
                }
                keys.push(key);
                values.push(value);
            },
        }
        let table = Table::from_parts(keys, values);
        assert(table@ =~= table_insert(before, key@, value@));
        *self = table;
    }

    /// Takes out the entry with key `key`, returning its value; the other entries keep their
    /// order.
    pub fn remove(&mut self, key: &K) -> (removed: Option<V>)
        ensures
            match removed {
                Some(v) => {
                    &&& has_key(old(self)@, key@)
                    &&& v@ == old(self)@[key_position(old(self)@, key@)].1
                    &&& final(self)@ == old(self)@.remove(key_position(old(self)@, key@))
                },
                None => !has_key(old(self)@, key@) && final(self)@ == old(self)@,
            },
    {
        proof {
            use_type_invariant(&*self);
            lemma_key_position_found(self@, key@);
        }
        match self.position(key) {
            Some(p) => {
                let ghost before = self@;
                let (mut keys, mut values) = self.take_parts();
                let ghost old_keys = keys@;
                keys.remove(p);
                let value = values.remove(p);
                proof {
                    assert forall|i: int, j: int| 0 <= i < j < keys@.len() implies keys@[i]@
                        != keys@[j]@ by {
                        let oi = if i < p { i } else { i + 1 };
                        let oj = if j < p { j } else { j + 1 };
                        assert(keys@[i] == old_keys[oi]);
                        assert(keys@[j] == old_keys[oj]);
                    }
                }
                let table = Table::from_parts(keys, values);
                assert(table@ =~= before.remove(p as int));
                *self = table;
                Some(value)
            },
            None => None,
        }
    }

    /// References to the values, in entry order.
    pub fn values(&self) -> (values: Vec<&V>)
        ensures
            values.len() == self@.len(),
            forall|i: int| 0 <= i < values.len() ==> values[i]@ == #[trigger] self@[i].1,
    {
        proof {
            use_type_invariant(self);
        }
        let mut values: Vec<&V> = Vec::new();
        let n = self.keys.len();
        for i in 0..n
            invariant
                n == self@.len(),
                n == self.values@.len(),
                values.len() == i,
                forall|j: int| 0 <= j < i ==> values[j]@ == #[trigger] self@[j].1,
        {
            values.push(&self.values[i]);
        }
        values
    }
}

/// A finite set of keys, kept in the order in which they were first added.
#[derive(Debug, Clone, PartialEq, Eq)]
pub struct KeySet<K> {
    members: Vec<K>,
}

impl<K: Key> View for KeySet<K> {
    type V = Seq<K::V>;

    closed spec fn view(&self) -> Seq<K::V> {
        self.members@.map_values(|k: K| k@)
    }
}

impl<K: Key> KeySet<K> {
    /// An empty set.
    pub fn new() -> (set: Self)
        ensures
            set@ == Seq::<K::V>::empty(),
    {
        let set = KeySet { members: Vec::new() };
        assert(set@ =~= Seq::<K::V>::empty());
        set
    }

    /// The number of members.
    pub fn len(&self) -> (n: usize)
        ensures
            n == self@.len(),
    {
        self.members.len()
    }

    /// Whether the set has no members.
    pub fn is_empty(&self) -> (empty: bool)
        ensures
            empty == (self@.len() == 0),
    {
        self.members.len() == 0
    }

    /// The member at `index`.
    pub fn member_at(&self, index: usize) -> (member: &K)
        requires
            index < self@.len(),
        ensures
            member@ == self@[index as int],
    {
        &self.members[index]
    }

    /// Whether `key` is a member.
    pub fn contains(&self, key: &K) -> (found: bool)
        ensures
            found == self@.contains(key@),
    {
        let n = self.members.len();
        let mut i: usize = 0;
        while i < n
            invariant
                0 <= i <= n,
                n == self@.len(),
                forall|j: int| 0 <= j < i ==> self@[j] != key@,
            decreases n - i,
        {
            if self.members[i].same_key(key) {
                assert(self@[i as int] == key@);
                return true;
            }
            i = i + 1;
        }
        false
    }

    /// Adds `key`; returns whether it was not already a member.
    pub fn insert(&mut self, key: K) -> (added: bool)
        ensures
            added == !old(self)@.contains(key@),
            final(self)@ == if added {
                old(self)@.push(key@)
            } else {
                old(self)@
            },
    {
        if self.contains(&key) {
            false
        } else {
            self.members.push(key);
            assert(self@ =~= old(self)@.push(key@));
            true
        }
    }
}

} // verus!
