//! `PhfOrderedMap`: an immutable string-keyed map that keeps its entries in
//! the order they were listed, and its iterators.

use vstd::prelude::*;

use crate::hashing::{displace, hash, spec_displace, spec_hash};
use crate::keys::str_eq;

verus! {

/// An immutable map from strings, whose table was built ahead of time and
/// whose entries stay in the order they were listed.
///
/// A key is placed by hashing it into `(g, f1, f2)`, taking the displacement
/// pair `(d1, d2) = disps[g % disps.len()]`, reading the entry index
/// `idxs[displace(f1, f2, d1, d2) % idxs.len()]` and looking at that entry.
///
/// The fields are public so that a generator can fill them in; they are
/// subject to change and should not be read directly.
pub struct PhfOrderedMap<T: 'static> {
    pub k1: u64,
    pub k2: u64,
    pub disps: &'static [(usize, usize)],
    pub idxs: &'static [usize],
    pub entries: &'static [(&'static str, T)],
}

impl<T> PhfOrderedMap<T> {
    /// The position in `idxs` for the hash coordinates `h = (g, f1, f2)`.
    pub open spec fn slot_of_hash(&self, h: (int, int, int)) -> int {
        let d = self.disps@[h.0 % self.disps@.len() as int];
        spec_displace(h.1, h.2, d.0 as int, d.1 as int) % self.idxs@.len() as int
    }

    /// The position in `idxs` that the characters `key` hash to.
    pub open spec fn slot(&self, key: Seq<char>) -> int {
        self.slot_of_hash(spec_hash(key, self.k1, self.k2))
    }

    /// A lookup of `key` indexes `disps` and `idxs` modulo their lengths, so
    /// neither may be empty, and then reads the entry that `idxs` names, which
    /// must exist.
    pub open spec fn can_look_up(&self, key: Seq<char>) -> bool {
        &&& self.disps@.len() > 0
        &&& self.idxs@.len() > 0
        &&& self.idxs@[self.slot(key)] < self.entries@.len()
    }

    /// Where a lookup of `key` ends: the entry named at the position `key`
    /// hashes to, if that entry has the key.
    pub open spec fn probe(&self, key: Seq<char>) -> Option<int> {
        let j = self.idxs@[self.slot(key)] as int;
        if self.entries@[j].0@ == key {
            Some(j)
        } else {
            None
        }
    }

    /// The table was built for its keys: both tables are non-empty, every
    /// index in `idxs` names an entry, and the position each entry's key
    /// hashes to names that entry.
    pub open spec fn is_perfect(&self) -> bool {
        &&& self.disps@.len() > 0
        &&& self.idxs@.len() > 0
        &&& forall|s: int| 0 <= s < self.idxs@.len() ==> #[trigger] self.idxs@[s] < self.entries@.len()
        &&& forall|i: int|
            0 <= i < self.entries@.len() ==> self.idxs@[#[trigger] self.slot(self.entries@[i].0@)] == i
    }

    /// Whether some entry has the key `key`.
    pub open spec fn has_key(&self, key: Seq<char>) -> bool {
        exists|i: int| 0 <= i < self.entries@.len() && #[trigger] self.entries@[i].0@ == key
    }

    /// The number of entries in the map.
    pub fn len(&self) -> (n: usize)
        ensures
            n == self.entries@.len(),
    {
        self.entries.len()
    }

    /// The entry that `idxs` names at the position for the hash coordinates
    /// `(g, f1, f2)`, if it has the key `key`.
    pub fn find_entry_hashed(&self, key: &str, g: usize, f1: usize, f2: usize) -> (r: Option<
        &'static (&'static str, T),
    >)
        requires
            self.disps@.len() > 0,
            self.idxs@.len() > 0,
            self.idxs@[self.slot_of_hash((g as int, f1 as int, f2 as int))] < self.entries@.len(),
        ensures
            ({
                let j = self.idxs@[self.slot_of_hash((g as int, f1 as int, f2 as int))] as int;
                if self.entries@[j].0@ == key@ {
                    r == Some(&self.entries@[j])
                } else {
                    r is None
                }
            }),
    {
        let entries: &'static [(&'static str, T)] = self.entries;
        let (d1, d2) = self.disps[g % self.disps.len()];
        let idx = self.idxs[displace(f1, f2, d1, d2) % self.idxs.len()];
        let entry: &'static (&'static str, T) = &entries[idx];
        if str_eq(entry.0, key) {
            Some(entry)
        } else {
            None
        }
    }

    fn find_entry(&self, key: &&str) -> (r: Option<&'static (&'static str, T)>)
        requires
            self.can_look_up(key@),
        ensures
            match self.probe(key@) {
                Some(j) => r == Some(&self.entries@[j]),
                None => r is None,
            },
    {
        let (g, f1, f2) = hash(*key, self.k1, self.k2);
        self.find_entry_hashed(*key, g, f1, f2)
    }

    /// A lookup of `key` that reports, instead of failing, a table it cannot
    /// be looked up in: `None` exactly when `can_look_up(key)` fails (a table
    /// is empty, or `idxs` names an entry that does not exist), and otherwise
    /// what `find_entry` gives: the entry the lookup ends at, if any.
    pub fn checked_find_entry(&self, key: &&str) -> (r: Option<Option<&'static (&'static str, T)>>)
        ensures
            r is None <==> !self.can_look_up(key@),
            r matches Some(found) ==> match self.probe(key@) {
                Some(j) => found == Some(&self.entries@[j]),
                None => found is None,
            },
    {
        if self.disps.len() == 0 || self.idxs.len() == 0 {
            return None;
        }
        let (g, f1, f2) = hash(*key, self.k1, self.k2);
        let (d1, d2) = self.disps[g % self.disps.len()];
        let idx = self.idxs[displace(f1, f2, d1, d2) % self.idxs.len()];
        if idx < self.entries.len() {
            Some(self.find_entry_hashed(*key, g, f1, f2))
        } else {
            None
        }
    }

    /// The value stored under `key`, if the entry named at the position
    /// `key` hashes to has that key.
    pub fn find(&self, key: &&str) -> (r: Option<&'static T>)
        requires
            self.can_look_up(key@),
        ensures
            match self.probe(key@) {
                Some(j) => r == Some(&self.entries@[j].1),
                None => r is None,
            },
    {
        match self.find_entry(key) {
            Some(entry) => Some(&entry.1),
            None => None,
        }
    }

    /// Whether `find` would return a value for `key`.
    pub fn contains_key(&self, key: &&str) -> (r: bool)
        requires
            self.can_look_up(key@),
        ensures
            r == self.probe(key@) is Some,
    {
        self.find(key).is_some()
    }

    /// The map's own stored instance of `key`, useful for interning.
    pub fn find_key(&self, key: &&str) -> (r: Option<&'static str>)
        requires
            self.can_look_up(key@),
        ensures
            match self.probe(key@) {
                Some(j) => r == Some(self.entries@[j].0),
                None => r is None,
            },
    {
        match self.find_entry(key) {
            Some(entry) => Some(entry.0),
            None => None,
        }
    }

    /// An iterator over the key/value pairs, in the order they were listed.
    pub fn entries<'a>(&'a self) -> (it: PhfOrderedMapEntries<'a, T>)
        ensures
            it@ == self.entries@,
    {
        PhfOrderedMapEntries { entries: self.entries, front: 0, back: self.entries.len() }
    }

    /// An iterator over the keys, in the order they were listed.
    pub fn keys<'a>(&'a self) -> (it: PhfOrderedMapKeys<'a, T>)
        ensures
            it@ == self.entries@.map_values(|e: (&'static str, T)| e.0),
    {
        PhfOrderedMapKeys { iter: self.entries() }
    }

    /// An iterator over the values, in the order they were listed.
    pub fn values<'a>(&'a self) -> (it: PhfOrderedMapValues<'a, T>)
        ensures
            it@ == self.entries@.map_values(|e: (&'static str, T)| e.1),
    {
        PhfOrderedMapValues { iter: self.entries() }
    }
}

/// A lookup reads `idxs` at the position the key's hash selects: with
/// `(g, f1, f2)` the hash coordinates and `(d1, d2) = disps[g % disps.len()]`,
/// the position `displace(f1, f2, d1, d2) % idxs.len()`, which lies in `idxs`.
pub proof fn lemma_slot_of_hash<T>(map: PhfOrderedMap<T>, h: (int, int, int))
    requires
        map.disps@.len() > 0,
        map.idxs@.len() > 0,
    ensures
        map.slot_of_hash(h) == spec_displace(
            h.1,
            h.2,
            map.disps@[h.0 % map.disps@.len() as int].0 as int,
            map.disps@[h.0 % map.disps@.len() as int].1 as int,
        ) % map.idxs@.len() as int,
        0 <= map.slot_of_hash(h) < map.idxs@.len(),
{
}

/// A lookup of `key` ends at the entry that `idxs` names at the position its
/// hash selects (see `lemma_slot_of_hash`): it can be made when that entry
/// exists, finds it when it has the key, and finds nothing when it has
/// another key.
pub proof fn lemma_lookup_position<T>(map: PhfOrderedMap<T>, key: Seq<char>)
    requires
        map.disps@.len() > 0,
        map.idxs@.len() > 0,
    ensures
        ({
            let h = spec_hash(key, map.k1, map.k2);
            let d = map.disps@[h.0 % map.disps@.len() as int];
            let pos = spec_displace(h.1, h.2, d.0 as int, d.1 as int) % map.idxs@.len() as int;
            let j = map.idxs@[pos] as int;
            &&& 0 <= pos < map.idxs@.len()
            &&& map.can_look_up(key) <==> j < map.entries@.len()
            &&& j < map.entries@.len() && map.entries@[j].0@ == key ==> map.probe(key) == Some(j)
            &&& j < map.entries@.len() && map.entries@[j].0@ != key ==> map.probe(key) is None
        }),
{
}

/// A table whose `idxs` all name entries, and in which the position each
/// entry's key hash selects names that entry, over non-empty tables, was
/// built for its keys.
pub proof fn lemma_perfect_intro<T>(map: PhfOrderedMap<T>)
    requires
        map.disps@.len() > 0,
        map.idxs@.len() > 0,
        forall|s: int| 0 <= s < map.idxs@.len() ==> #[trigger] map.idxs@[s] < map.entries@.len(),
        forall|i: int|
            0 <= i < map.entries@.len() ==> {
                let h = #[trigger] spec_hash(map.entries@[i].0@, map.k1, map.k2);
                let d = map.disps@[h.0 % map.disps@.len() as int];
                map.idxs@[spec_displace(h.1, h.2, d.0 as int, d.1 as int) % map.idxs@.len() as int] == i
            },
    ensures
        map.is_perfect(),
{
}

/// In an ordered map whose table was built for its keys, every key can be
/// looked up, a lookup of the key of any entry ends at that entry, a lookup
/// finds something exactly when some entry has the key, and no two entries
/// share a key. So `find` returns the value stored with the key, and `None`
/// for any key not in the map.
pub proof fn lemma_perfect_lookup<T>(map: PhfOrderedMap<T>, key: Seq<char>)
    requires
        map.is_perfect(),
    ensures
        map.can_look_up(key),
        forall|i: int|
            0 <= i < map.entries@.len() && #[trigger] map.entries@[i].0@ == key ==> map.probe(key) == Some(i),
        map.probe(key) is Some <==> map.has_key(key),
        map.probe(key) matches Some(i) ==> 0 <= i < map.entries@.len() && map.entries@[i].0@ == key,
        forall|i: int, j: int|
            0 <= i < map.entries@.len() && 0 <= j < map.entries@.len()
                && #[trigger] map.entries@[i].0@ == #[trigger] map.entries@[j].0@ ==> i == j,
{
    let n = map.entries@.len() as int;
    let s = map.slot(key);
    assert(0 <= s < map.idxs@.len());
    assert(map.idxs@[s] < n);
    if map.has_key(key) {
        let i = choose|i: int| 0 <= i < n && #[trigger] map.entries@[i].0@ == key;
        assert(map.idxs@[map.slot(map.entries@[i].0@)] == i);
    }
    assert forall|i: int, j: int|
        0 <= i < n && 0 <= j < n && #[trigger] map.entries@[i].0@ == #[trigger] map.entries@[j].0@ implies i == j by {
        assert(map.idxs@[map.slot(map.entries@[i].0@)] == i);
        assert(map.idxs@[map.slot(map.entries@[j].0@)] == j);
    }
}

/// An iterator over the entries of a `PhfOrderedMap`, from either end or by
/// position.
pub struct PhfOrderedMapEntries<'a, T: 'static> {
    entries: &'a [(&'static str, T)],
    front: usize,
    back: usize,
}

impl<'a, T> PhfOrderedMapEntries<'a, T> {
    #[verifier::type_invariant]
    spec fn inv(self) -> bool {
        self.front <= self.back <= self.entries@.len()
    }
}

impl<'a, T> View for PhfOrderedMapEntries<'a, T> {
    type V = Seq<(&'static str, T)>;

    /// The entries not yet returned, from the front to the back.
    closed spec fn view(&self) -> Seq<(&'static str, T)> {
        self.entries@.subrange(self.front as int, self.back as int)
    }
}

impl<'a, T> PhfOrderedMapEntries<'a, T> {
    /// The entry at the front, or `None` once all have been returned.
    pub fn next(&mut self) -> (r: Option<(&'static str, &'a T)>)
        ensures
            old(self)@.len() == 0 ==> r is None && final(self)@ == old(self)@,
            old(self)@.len() > 0 ==> r == Some((old(self)@[0].0, &old(self)@[0].1))
                && final(self)@ == old(self)@.drop_first(),
    {
        proof {
            use_type_invariant(&*self);
        }
        if self.front < self.back {
            let entries: &'a [(&'static str, T)] = self.entries;
            let e: &'a (&'static str, T) = &entries[self.front];
            self.front = self.front + 1;
            proof {
                assert(self@ =~= old(self)@.drop_first());
            }
            Some((e.0, &e.1))
        } else {
            None
        }
    }

    /// The entry at the back, or `None` once all have been returned.
    pub fn next_back(&mut self) -> (r: Option<(&'static str, &'a T)>)
        ensures
            old(self)@.len() == 0 ==> r is None && final(self)@ == old(self)@,
            old(self)@.len() > 0 ==> r == Some((old(self)@.last().0, &old(self)@.last().1))
                && final(self)@ == old(self)@.drop_last(),
    {
        proof {
            use_type_invariant(&*self);
        }
        if self.front < self.back {
            let entries: &'a [(&'static str, T)] = self.entries;
            let e: &'a (&'static str, T) = &entries[self.back - 1];
            self.back = self.back - 1;
            proof {
                assert(self@ =~= old(self)@.drop_last());
            }
            Some((e.0, &e.1))
        } else {
            None
        }
    }

    /// The exact number of entries left, as both bounds.
    pub fn size_hint(&self) -> (r: (usize, Option<usize>))
        ensures
            r.0 == self@.len(),
            r.1 == Some(r.0),
    {
        proof {
            use_type_invariant(self);
        }
        let n = self.back - self.front;
        (n, Some(n))
    }

    /// How many entries can be reached by position: those left.
    pub fn indexable(&self) -> (n: usize)
        ensures
            n == self@.len(),
    {
        proof {
            use_type_invariant(self);
        }
        self.back - self.front
    }

    /// The entry `index` places after the front, without moving the
    /// iterator.
    pub fn idx(&mut self, index: usize) -> (r: Option<(&'static str, &'a T)>)
        ensures
            final(self)@ == old(self)@,
            index < old(self)@.len() ==> r == Some((old(self)@[index as int].0, &old(self)@[index as int].1)),
            index >= old(self)@.len() ==> r is None,
    {
        proof {
            use_type_invariant(&*self);
        }
        if index < self.back - self.front {
            let entries: &'a [(&'static str, T)] = self.entries;
            let e: &'a (&'static str, T) = &entries[self.front + index];
            Some((e.0, &e.1))
        } else {
            None
        }
    }
}

/// An iterator over the keys of a `PhfOrderedMap`.
pub struct PhfOrderedMapKeys<'a, T: 'static> {
    iter: PhfOrderedMapEntries<'a, T>,
}

impl<'a, T> View for PhfOrderedMapKeys<'a, T> {
    type V = Seq<&'static str>;

    /// The keys not yet returned, from the front to the back.
    closed spec fn view(&self) -> Seq<&'static str> {
        self.iter@.map_values(|e: (&'static str, T)| e.0)
    }
}

impl<'a, T> PhfOrderedMapKeys<'a, T> {
    /// The key at the front, or `None` once all have been returned.
    pub fn next(&mut self) -> (r: Option<&'static str>)
        ensures
            old(self)@.len() == 0 ==> r is None && final(self)@ == old(self)@,
            old(self)@.len() > 0 ==> r == Some(old(self)@[0]) && final(self)@ == old(self)@.drop_first(),
    {
        let r = match self.iter.next() {
            Some((k, _)) => Some(k),
            None => None,
        };
        proof {
            assert(self@ =~= old(self)@.drop_first() || old(self)@.len() == 0);
        }
        r
    }

    /// The key at the back, or `None` once all have been returned.
    pub fn next_back(&mut self) -> (r: Option<&'static str>)
        ensures
            old(self)@.len() == 0 ==> r is None && final(self)@ == old(self)@,
            old(self)@.len() > 0 ==> r == Some(old(self)@.last()) && final(self)@ == old(self)@.drop_last(),
    {
        let r = match self.iter.next_back() {
            Some((k, _)) => Some(k),
            None => None,
        };
        proof {
            assert(self@ =~= old(self)@.drop_last() || old(self)@.len() == 0);
        }
        r
    }

    /// The exact number of keys left, as both bounds.
    pub fn size_hint(&self) -> (r: (usize, Option<usize>))
        ensures
            r.0 == self@.len(),
            r.1 == Some(r.0),
    {
        self.iter.size_hint()
    }

    /// How many keys can be reached by position: those left.
    pub fn indexable(&self) -> (n: usize)
        ensures
            n == self@.len(),
    {
        self.iter.indexable()
    }

    /// The key `index` places after the front, without moving the iterator.
    pub fn idx(&mut self, index: usize) -> (r: Option<&'static str>)
        ensures
            final(self)@ == old(self)@,
            index < old(self)@.len() ==> r == Some(old(self)@[index as int]),
            index >= old(self)@.len() ==> r is None,
    {
        match self.iter.idx(index) {
            Some((k, _)) => Some(k),
            None => None,
        }
    }
}

/// An iterator over the values of a `PhfOrderedMap`.
pub struct PhfOrderedMapValues<'a, T: 'static> {
    iter: PhfOrderedMapEntries<'a, T>,
}

impl<'a, T> View for PhfOrderedMapValues<'a, T> {
    type V = Seq<T>;

    /// The values not yet returned, from the front to the back.
    closed spec fn view(&self) -> Seq<T> {
        self.iter@.map_values(|e: (&'static str, T)| e.1)
    }
}

impl<'a, T> PhfOrderedMapValues<'a, T> {
    /// The value at the front, or `None` once all have been returned.
    pub fn next(&mut self) -> (r: Option<&'a T>)
        ensures
            old(self)@.len() == 0 ==> r is None && final(self)@ == old(self)@,
            old(self)@.len() > 0 ==> r == Some(&old(self)@[0]) && final(self)@ == old(self)@.drop_first(),
    {
        let r = match self.iter.next() {
            Some((_, v)) => Some(v),
            None => None,
        };
        proof {
            assert(self@ =~= old(self)@.drop_first() || old(self)@.len() == 0);
        }
        r
    }

    /// The value at the back, or `None` once all have been returned.
    pub fn next_back(&mut self) -> (r: Option<&'a T>)
        ensures
            old(self)@.len() == 0 ==> r is None && final(self)@ == old(self)@,
            old(self)@.len() > 0 ==> r == Some(&old(self)@.last()) && final(self)@ == old(self)@.drop_last(),
    {
        let r = match self.iter.next_back() {
            Some((_, v)) => Some(v),
            None => None,
        };
        proof {
            assert(self@ =~= old(self)@.drop_last() || old(self)@.len() == 0);
        }
        r
    }

    /// The exact number of values left, as both bounds.
    pub fn size_hint(&self) -> (r: (usize, Option<usize>))
        ensures
            r.0 == self@.len(),
            r.1 == Some(r.0),
    {
        self.iter.size_hint()
    }

    /// How many values can be reached by position: those left.
    pub fn indexable(&self) -> (n: usize)
        ensures
            n == self@.len(),
    {
        self.iter.indexable()
    }

    /// The value `index` places after the front, without moving the
    /// iterator.
    pub fn idx(&mut self, index: usize) -> (r: Option<&'a T>)
        ensures
            final(self)@ == old(self)@,
            index < old(self)@.len() ==> r == Some(&old(self)@[index as int]),
            index >= old(self)@.len() ==> r is None,
    {
        match self.iter.idx(index) {
            Some((_, v)) => Some(v),
            None => None,
        }
    }
}

} // verus!
