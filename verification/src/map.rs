//! `PhfMap`: an immutable hash map whose perfect-hash table is built ahead
//! of time, and its iterators.

use vstd::prelude::*;

use crate::hashing::{displace, hash, spec_displace, spec_hash};
use crate::keys::str_eq;

verus! {

/// An immutable map whose table was built ahead of time.
///
/// A key is placed by hashing it into `(g, f1, f2)`, taking the displacement
/// pair `(d1, d2) = disps[g % disps.len()]` and looking at
/// `entries[displace(f1, f2, d1, d2) % entries.len()]`.
///
/// The fields are public so that a generator can fill them in; they are
/// subject to change and should not be read directly.
pub struct PhfMap<K: 'static, V: 'static> {
    pub k1: u64,
    pub k2: u64,
    pub disps: &'static [(usize, usize)],
    pub entries: &'static [(K, V)],
}

impl<K, V> PhfMap<K, V> {
    /// The number of entries in the map.
    pub fn len(&self) -> (n: usize)
        ensures
            n == self.entries@.len(),
    {
        self.entries.len()
    }

    /// An iterator over the key/value pairs, in the order of the table.
    pub fn entries(&self) -> (it: PhfMapEntries<K, V>)
        ensures
            it@ == self.entries@,
    {
        PhfMapEntries { entries: self.entries, pos: 0 }
    }

    /// An iterator over the keys, in the order of the table.
    pub fn keys(&self) -> (it: PhfMapKeys<K, V>)
        ensures
            it@ == self.entries@.map_values(|e: (K, V)| e.0),
    {
        PhfMapKeys { iter: self.entries() }
    }

    /// An iterator over the values, in the order of the table.
    pub fn values(&self) -> (it: PhfMapValues<K, V>)
        ensures
            it@ == self.entries@.map_values(|e: (K, V)| e.1),
    {
        PhfMapValues { iter: self.entries() }
    }
}

impl<V> PhfMap<&'static str, V> {
    /// A lookup indexes both tables modulo their lengths, so neither may be
    /// empty.
    pub open spec fn can_look_up(&self) -> bool {
        &&& self.disps@.len() > 0
        &&& self.entries@.len() > 0
    }

    /// The table position for the hash coordinates `h = (g, f1, f2)`.
    pub open spec fn slot_of_hash(&self, h: (int, int, int)) -> int {
        let d = self.disps@[h.0 % self.disps@.len() as int];
        spec_displace(h.1, h.2, d.0 as int, d.1 as int) % self.entries@.len() as int
    }

    /// The table position that the characters `key` hash to.
    pub open spec fn slot(&self, key: Seq<char>) -> int {
        self.slot_of_hash(spec_hash(key, self.k1, self.k2))
    }

    /// Where a lookup of `key` ends: the position it hashes to, if the entry
    /// stored there has that key.
    pub open spec fn probe(&self, key: Seq<char>) -> Option<int> {
        let i = self.slot(key);
        if self.entries@[i].0@ == key {
            Some(i)
        } else {
            None
        }
    }

    /// The table was built for its keys: every entry sits at the position
    /// its own key hashes to.
    pub open spec fn is_perfect(&self) -> bool {
        &&& self.can_look_up()
        &&& forall|i: int| 0 <= i < self.entries@.len() ==> #[trigger] self.slot(self.entries@[i].0@) == i
    }

    /// Whether some entry has the key `key`.
    pub open spec fn has_key(&self, key: Seq<char>) -> bool {
        exists|i: int| 0 <= i < self.entries@.len() && #[trigger] self.entries@[i].0@ == key
    }

    /// The entry at the table position for the hash coordinates
    /// `(g, f1, f2)`, if it has the key `key`.
    pub fn get_entry_hashed(&self, key: &str, g: usize, f1: usize, f2: usize) -> (r: Option<
        &'static (&'static str, V),
    >)
        requires
            self.can_look_up(),
        ensures
            ({
                let i = self.slot_of_hash((g as int, f1 as int, f2 as int));
                if self.entries@[i].0@ == key@ {
                    r == Some(&self.entries@[i])
                } else {
                    r is None
                }
            }),
    {
        let entries: &'static [(&'static str, V)] = self.entries;
        let (d1, d2) = self.disps[g % self.disps.len()];
        let i = displace(f1, f2, d1, d2) % entries.len();
        let entry: &'static (&'static str, V) = &entries[i];
        if str_eq(entry.0, key) {
            Some(entry)
        } else {
            None
        }
    }

    fn get_entry(&self, key: &str) -> (r: Option<&'static (&'static str, V)>)
        requires
            self.can_look_up(),
        ensures
            match self.probe(key@) {
                Some(i) => r == Some(&self.entries@[i]),
                None => r is None,
            },
    {
        let (g, f1, f2) = hash(key, self.k1, self.k2);
        self.get_entry_hashed(key, g, f1, f2)
    }

    fn get_key(&self, key: &str) -> (r: Option<&'static &'static str>)
        requires
            self.can_look_up(),
        ensures
            match self.probe(key@) {
                Some(i) => r == Some(&self.entries@[i].0),
                None => r is None,
            },
    {
        match self.get_entry(key) {
            Some(entry) => Some(&entry.0),
            None => None,
        }
    }

    fn get_value(&self, key: &str) -> (r: Option<&'static V>)
        requires
            self.can_look_up(),
        ensures
            match self.probe(key@) {
                Some(i) => r == Some(&self.entries@[i].1),
                None => r is None,
            },
    {
        match self.get_entry(key) {
            Some(entry) => Some(&entry.1),
            None => None,
        }
    }

    /// The value stored under `key`, if the position `key` hashes to holds
    /// that key.
    pub fn find(&self, key: &&str) -> (r: Option<&'static V>)
        requires
            self.can_look_up(),
        ensures
            match self.probe(key@) {
                Some(i) => r == Some(&self.entries@[i].1),
                None => r is None,
            },
    {
        self.get_value(*key)
    }

    /// Whether `find` would return a value for `key`.
    pub fn contains_key(&self, key: &&str) -> (r: bool)
        requires
            self.can_look_up(),
        ensures
            r == self.probe(key@) is Some,
    {
        self.find(key).is_some()
    }

    /// The map's own stored instance of `key`, useful for interning.
    pub fn find_key(&self, key: &&str) -> (r: Option<&'static &'static str>)
        requires
            self.can_look_up(),
        ensures
            match self.probe(key@) {
                Some(i) => r == Some(&self.entries@[i].0),
                None => r is None,
            },
    {
        self.get_key(*key)
    }

    /// `find` for an owned string with the same characters as a key.
    pub fn find_equiv(&self, key: &String) -> (r: Option<&'static V>)
        requires
            self.can_look_up(),
        ensures
            match self.probe(key@) {
                Some(i) => r == Some(&self.entries@[i].1),
                None => r is None,
            },
    {
        self.get_value(key.as_str())
    }

    /// `find_key` for an owned string with the same characters as a key.
    pub fn find_key_equiv(&self, key: &String) -> (r: Option<&'static &'static str>)
        requires
            self.can_look_up(),
        ensures
            match self.probe(key@) {
                Some(i) => r == Some(&self.entries@[i].0),
                None => r is None,
            },
    {
        self.get_key(key.as_str())
    }
}

/// A lookup reads the table at the position the key's hash selects: with
/// `(g, f1, f2)` the hash coordinates and `(d1, d2) = disps[g % disps.len()]`,
/// the position `displace(f1, f2, d1, d2) % entries.len()`, which lies in the
/// table.
pub proof fn lemma_slot_of_hash<V>(map: PhfMap<&'static str, V>, h: (int, int, int))
    requires
        map.can_look_up(),
    ensures
        map.slot_of_hash(h) == spec_displace(
            h.1,
            h.2,
            map.disps@[h.0 % map.disps@.len() as int].0 as int,
            map.disps@[h.0 % map.disps@.len() as int].1 as int,
        ) % map.entries@.len() as int,
        0 <= map.slot_of_hash(h) < map.entries@.len(),
{
}

/// A lookup of `key` ends at the position its hash selects (see
/// `lemma_slot_of_hash`): it finds that entry when the entry there has the
/// key, and nothing when the entry there has another key.
pub proof fn lemma_lookup_position<V>(map: PhfMap<&'static str, V>, key: Seq<char>)
    requires
        map.can_look_up(),
    ensures
        ({
            let h = spec_hash(key, map.k1, map.k2);
            let d = map.disps@[h.0 % map.disps@.len() as int];
            let pos = spec_displace(h.1, h.2, d.0 as int, d.1 as int) % map.entries@.len() as int;
            &&& 0 <= pos < map.entries@.len()
            &&& map.entries@[pos].0@ == key ==> map.probe(key) == Some(pos)
            &&& map.entries@[pos].0@ != key ==> map.probe(key) is None
        }),
{
}

/// A table in which every entry sits at the position its own key's hash
/// selects, over non-empty tables, was built for its keys.
pub proof fn lemma_perfect_intro<V>(map: PhfMap<&'static str, V>)
    requires
        map.disps@.len() > 0,
        map.entries@.len() > 0,
        forall|i: int|
            0 <= i < map.entries@.len() ==> {
                let h = #[trigger] spec_hash(map.entries@[i].0@, map.k1, map.k2);
                let d = map.disps@[h.0 % map.disps@.len() as int];
                spec_displace(h.1, h.2, d.0 as int, d.1 as int) % map.entries@.len() as int == i
            },
    ensures
        map.is_perfect(),
{
}

/// In a map whose table was built for its keys, a lookup of the key of any
/// entry ends at that entry, a lookup finds something exactly when some entry
/// has the key, and no two entries share a key. So `find` returns the value
/// stored with the key, and `None` for any key not in the map.
pub proof fn lemma_perfect_lookup<V>(map: PhfMap<&'static str, V>, key: Seq<char>)
    requires
        map.is_perfect(),
    ensures
        forall|i: int|
            0 <= i < map.entries@.len() && #[trigger] map.entries@[i].0@ == key ==> map.probe(key) == Some(i),
        map.probe(key) is Some <==> map.has_key(key),
        map.probe(key) matches Some(i) ==> 0 <= i < map.entries@.len() && map.entries@[i].0@ == key,
        forall|i: int, j: int|
            0 <= i < map.entries@.len() && 0 <= j < map.entries@.len()
                && #[trigger] map.entries@[i].0@ == #[trigger] map.entries@[j].0@ ==> i == j,
{
    let n = map.entries@.len() as int;
    assert(0 <= map.slot(key) < n);
    if map.has_key(key) {
        let i = choose|i: int| 0 <= i < n && #[trigger] map.entries@[i].0@ == key;
        assert(map.slot(map.entries@[i].0@) == i);
    }
    assert forall|i: int, j: int|
        0 <= i < n && 0 <= j < n && #[trigger] map.entries@[i].0@ == #[trigger] map.entries@[j].0@ implies i == j by {
        assert(map.slot(map.entries@[i].0@) == i);
        assert(map.slot(map.entries@[j].0@) == j);
    }
}

/// An iterator over the key/value pairs of a `PhfMap`.
pub struct PhfMapEntries<K: 'static, V: 'static> {
    entries: &'static [(K, V)],
    pos: usize,
}

impl<K, V> PhfMapEntries<K, V> {
    #[verifier::type_invariant]
    spec fn inv(self) -> bool {
        self.pos <= self.entries@.len()
    }
}

impl<K, V> View for PhfMapEntries<K, V> {
    type V = Seq<(K, V)>;

    /// The entries not yet returned.
    closed spec fn view(&self) -> Seq<(K, V)> {
        self.entries@.subrange(self.pos as int, self.entries@.len() as int)
    }
}

impl<K, V> PhfMapEntries<K, V> {
    /// The next key/value pair, or `None` once all have been returned.
    pub fn next(&mut self) -> (r: Option<(&'static K, &'static V)>)
        ensures
            old(self)@.len() == 0 ==> r is None && final(self)@ == old(self)@,
            old(self)@.len() > 0 ==> r == Some((&old(self)@[0].0, &old(self)@[0].1))
                && final(self)@ == old(self)@.drop_first(),
    {
        proof {
            use_type_invariant(&*self);
        }
        if self.pos < self.entries.len() {
            let entries: &'static [(K, V)] = self.entries;
            let e: &'static (K, V) = &entries[self.pos];
            self.pos = self.pos + 1;
            Some((&e.0, &e.1))
        } else {
            None
        }
    }

    /// The exact number of pairs left, as both bounds.
    pub fn size_hint(&self) -> (r: (usize, Option<usize>))
        ensures
            r.0 == self@.len(),
            r.1 == Some(r.0),
    {
        proof {
            use_type_invariant(self);
        }
        let n = self.entries.len() - self.pos;
        (n, Some(n))
    }
}

/// An iterator over the keys of a `PhfMap`.
pub struct PhfMapKeys<K: 'static, V: 'static> {
    iter: PhfMapEntries<K, V>,
}

impl<K, V> View for PhfMapKeys<K, V> {
    type V = Seq<K>;

    /// The keys not yet returned.
    closed spec fn view(&self) -> Seq<K> {
        self.iter@.map_values(|e: (K, V)| e.0)
    }
}

impl<K, V> PhfMapKeys<K, V> {
    /// The next key, or `None` once all have been returned.
    pub fn next(&mut self) -> (r: Option<&'static K>)
        ensures
            old(self)@.len() == 0 ==> r is None && final(self)@ == old(self)@,
            old(self)@.len() > 0 ==> r == Some(&old(self)@[0]) && final(self)@ == old(self)@.drop_first(),
    {
        let r = match self.iter.next() {
            Some((k, _)) => Some(k),
            None => None,
        };
        proof {
            assert(self@ =~= old(self)@.drop_first() || old(self)@.len() == 0);
        }
        r
    }

    /// The exact number of keys left, as both bounds.
    pub fn size_hint(&self) -> (r: (usize, Option<usize>))
        ensures
            r.0 == self@.len(),
            r.1 == Some(r.0),
    {
        self.iter.size_hint()
    }
}

/// An iterator over the values of a `PhfMap`.
pub struct PhfMapValues<K: 'static, V: 'static> {
    iter: PhfMapEntries<K, V>,
}

impl<K, V> View for PhfMapValues<K, V> {
    type V = Seq<V>;

    /// The values not yet returned.
    closed spec fn view(&self) -> Seq<V> {
        self.iter@.map_values(|e: (K, V)| e.1)
    }
}

impl<K, V> PhfMapValues<K, V> {
    /// The next value, or `None` once all have been returned.
    pub fn next(&mut self) -> (r: Option<&'static V>)
        ensures
            old(self)@.len() == 0 ==> r is None && final(self)@ == old(self)@,
            old(self)@.len() > 0 ==> r == Some(&old(self)@[0]) && final(self)@ == old(self)@.drop_first(),
    {
        let r = match self.iter.next() {
            Some((_, v)) => Some(v),
            None => None,
        };
        proof {
            assert(self@ =~= old(self)@.drop_first() || old(self)@.len() == 0);
        }
        r
    }

    /// The exact number of values left, as both bounds.
    pub fn size_hint(&self) -> (r: (usize, Option<usize>))
        ensures
            r.0 == self@.len(),
            r.1 == Some(r.0),
    {
        self.iter.size_hint()
    }
}

} // verus!
