//! `PhfSet`: an immutable hash set whose perfect-hash table is built ahead
//! of time, and its iterator.

use vstd::prelude::*;
use vstd::string::StringExecFns;

use crate::map::{PhfMap, PhfMapKeys};

use crate::show::{show_set, spec_braced};

verus! {

/// An immutable set whose table was built ahead of time; a `PhfMap` from
/// the members to `()`.
///
/// The field is public so that a generator can fill it in; it is subject to
/// change and should not be read directly.
pub struct PhfSet<T: 'static> {
    pub map: PhfMap<T, ()>,
}

impl<T> PhfSet<T> {
    /// The members in the order of the table.
    pub open spec fn members(&self) -> Seq<T> {
        self.map.entries@.map_values(|e: (T, ())| e.0)
    }

    /// The number of members.
    pub fn len(&self) -> (n: usize)
        ensures
            n == self.map.entries@.len(),
    {
        self.map.len()
    }

    /// An iterator over the members, in the order of the table.
    pub fn iter(&self) -> (it: PhfSetValues<T>)
        ensures
            it@ == self.members(),
    {
        PhfSetValues { iter: self.map.keys() }
    }
}

impl PhfSet<&'static str> {
    /// Whether a lookup of `value` in this set finds it.
    pub open spec fn spec_contains(&self, value: Seq<char>) -> bool {
        self.map.probe(value) is Some
    }

    /// No member of `self` is found by a lookup in `other`.
    pub open spec fn spec_is_disjoint(&self, other: &PhfSet<&'static str>) -> bool {
        forall|i: int| 0 <= i < self.map.entries@.len() ==> !other.spec_contains(#[trigger] self.map.entries@[i].0@)
    }

    /// Every member of `self` is found by a lookup in `other`.
    pub open spec fn spec_is_subset(&self, other: &PhfSet<&'static str>) -> bool {
        forall|i: int| 0 <= i < self.map.entries@.len() ==> other.spec_contains(#[trigger] self.map.entries@[i].0@)
    }

    /// The set in text: its members in the order of the table, separated by
    /// `", "` between braces.
    pub fn show(&self) -> (s: String)
        ensures
            s@ == spec_braced(self.members().map_values(|k: &'static str| k@)),
    {
        let entries = self.map.entries;
        let n = entries.len();
        let mut items: Vec<String> = Vec::new();
        let mut i: usize = 0;
        while i < n
            invariant
                entries@ == self.map.entries@,
                n == entries@.len(),
                i <= n,
                items@.len() == i,
                forall|j: int| 0 <= j < i ==> #[trigger] items@[j]@ == entries@[j].0@,
            decreases n - i,
        {
            items.push(String::from_str(entries[i].0));
            i = i + 1;
        }
        assert(items@.map_values(|x: String| x@) =~= self.members().map_values(|k: &'static str| k@));
        show_set(&items)
    }

    /// Whether a lookup of `value` finds it.
    pub fn contains(&self, value: &&str) -> (r: bool)
        requires
            self.map.can_look_up(),
        ensures
            r == self.spec_contains(value@),
    {
        self.map.contains_key(value)
    }

    /// Whether no member of `self` is a member of `other`; `other` is only
    /// looked into when `self` has members.
    pub fn is_disjoint(&self, other: &PhfSet<&'static str>) -> (r: bool)
        requires
            self.map.entries@.len() > 0 ==> other.map.can_look_up(),
        ensures
            r == self.spec_is_disjoint(other),
    {
        let entries = self.map.entries;
        let n = entries.len();
        let mut i: usize = 0;
        while i < n
            invariant
                entries@ == self.map.entries@,
                n == entries@.len(),
                i <= n,
                n > 0 ==> other.map.can_look_up(),
                forall|j: int| 0 <= j < i ==> !other.spec_contains(#[trigger] entries@[j].0@),
            decreases n - i,
        {
            if other.contains(&entries[i].0) {
                return false;
            }
            i = i + 1;
        }
        true
    }

    /// Whether every member of `self` is a member of `other`; `other` is
    /// only looked into when `self` has members.
    pub fn is_subset(&self, other: &PhfSet<&'static str>) -> (r: bool)
        requires
            self.map.entries@.len() > 0 ==> other.map.can_look_up(),
        ensures
            r == self.spec_is_subset(other),
    {
        let entries = self.map.entries;
        let n = entries.len();
        let mut i: usize = 0;
        while i < n
            invariant
                entries@ == self.map.entries@,
                n == entries@.len(),
                i <= n,
                n > 0 ==> other.map.can_look_up(),
                forall|j: int| 0 <= j < i ==> other.spec_contains(#[trigger] entries@[j].0@),
            decreases n - i,
        {
            if !other.contains(&entries[i].0) {
                return false;
            }
            i = i + 1;
        }
        true
    }

    /// The set's own stored instance of `key`, useful for interning.
    pub fn find_key(&self, key: &&str) -> (r: Option<&'static &'static str>)
        requires
            self.map.can_look_up(),
        ensures
            match self.map.probe(key@) {
                Some(i) => r == Some(&self.map.entries@[i].0),
                None => r is None,
            },
    {
        self.map.find_key(key)
    }
}

/// In a set whose table was built for its members, a lookup finds a value
/// exactly when some member has the same characters.
pub proof fn lemma_perfect_contains(set: PhfSet<&'static str>, value: Seq<char>)
    requires
        set.map.is_perfect(),
    ensures
        set.spec_contains(value) <==> set.map.has_key(value),
{
    crate::map::lemma_perfect_lookup(set.map, value);
}

/// Against a set `b` whose table was built for its members, `a` is a subset
/// exactly when every member of `a` has the same characters as some member of
/// `b`.
pub proof fn lemma_subset_members(a: PhfSet<&'static str>, b: PhfSet<&'static str>)
    requires
        b.map.is_perfect(),
    ensures
        a.spec_is_subset(&b) <==> forall|i: int|
            0 <= i < a.map.entries@.len() ==> exists|j: int|
                0 <= j < b.map.entries@.len() && #[trigger] b.map.entries@[j].0@ == #[trigger] a.map.entries@[i].0@,
{
    assert forall|i: int| 0 <= i < a.map.entries@.len() implies (b.spec_contains(
        #[trigger] a.map.entries@[i].0@,
    ) <==> exists|j: int|
        0 <= j < b.map.entries@.len() && #[trigger] b.map.entries@[j].0@ == a.map.entries@[i].0@) by {
        crate::map::lemma_perfect_lookup(b.map, a.map.entries@[i].0@);
    }
}

/// Against a set `b` whose table was built for its members, `a` is disjoint
/// exactly when no member of `a` has the same characters as a member of `b`.
pub proof fn lemma_disjoint_members(a: PhfSet<&'static str>, b: PhfSet<&'static str>)
    requires
        b.map.is_perfect(),
    ensures
        a.spec_is_disjoint(&b) <==> forall|i: int, j: int|
            0 <= i < a.map.entries@.len() && 0 <= j < b.map.entries@.len() ==> #[trigger] b.map.entries@[j].0@
                != #[trigger] a.map.entries@[i].0@,
{
    assert forall|i: int| 0 <= i < a.map.entries@.len() implies (b.spec_contains(
        #[trigger] a.map.entries@[i].0@,
    ) <==> exists|j: int|
        0 <= j < b.map.entries@.len() && #[trigger] b.map.entries@[j].0@ == a.map.entries@[i].0@) by {
        crate::map::lemma_perfect_lookup(b.map, a.map.entries@[i].0@);
    }
}

/// Every set whose table was built for its members is a subset of itself.
pub proof fn lemma_subset_reflexive(set: PhfSet<&'static str>)
    requires
        set.map.is_perfect(),
    ensures
        set.spec_is_subset(&set),
{
    assert forall|i: int| 0 <= i < set.map.entries@.len() implies set.spec_contains(
        #[trigger] set.map.entries@[i].0@,
    ) by {
        crate::map::lemma_perfect_lookup(set.map, set.map.entries@[i].0@);
    }
}

/// Being a subset is transitive, provided the middle set's table was built
/// for its members.
pub proof fn lemma_subset_transitive(a: PhfSet<&'static str>, b: PhfSet<&'static str>, c: PhfSet<&'static str>)
    requires
        b.map.is_perfect(),
        a.spec_is_subset(&b),
        b.spec_is_subset(&c),
    ensures
        a.spec_is_subset(&c),
{
    assert forall|i: int| 0 <= i < a.map.entries@.len() implies c.spec_contains(
        #[trigger] a.map.entries@[i].0@,
    ) by {
        let key = a.map.entries@[i].0@;
        crate::map::lemma_perfect_lookup(b.map, key);
        let j = choose|j: int| 0 <= j < b.map.entries@.len() && #[trigger] b.map.entries@[j].0@ == key;
        assert(c.spec_contains(b.map.entries@[j].0@));
    }
}

/// For sets whose tables were built for their members, being disjoint is
/// symmetric.
pub proof fn lemma_disjoint_symmetric(a: PhfSet<&'static str>, b: PhfSet<&'static str>)
    requires
        a.map.is_perfect(),
        b.map.is_perfect(),
    ensures
        a.spec_is_disjoint(&b) == b.spec_is_disjoint(&a),
{
    if !a.spec_is_disjoint(&b) {
        let i = choose|i: int| 0 <= i < a.map.entries@.len() && b.spec_contains(#[trigger] a.map.entries@[i].0@);
        let key = a.map.entries@[i].0@;
        crate::map::lemma_perfect_lookup(b.map, key);
        let j = choose|j: int| 0 <= j < b.map.entries@.len() && #[trigger] b.map.entries@[j].0@ == key;
        crate::map::lemma_perfect_lookup(a.map, key);
        assert(a.spec_contains(b.map.entries@[j].0@));
    }
    if !b.spec_is_disjoint(&a) {
        let i = choose|i: int| 0 <= i < b.map.entries@.len() && a.spec_contains(#[trigger] b.map.entries@[i].0@);
        let key = b.map.entries@[i].0@;
        crate::map::lemma_perfect_lookup(a.map, key);
        let j = choose|j: int| 0 <= j < a.map.entries@.len() && #[trigger] a.map.entries@[j].0@ == key;
        crate::map::lemma_perfect_lookup(b.map, key);
        assert(b.spec_contains(a.map.entries@[j].0@));
    }
}

/// A set whose table was built for its members is disjoint from itself
/// exactly when it is empty.
pub proof fn lemma_disjoint_self(set: PhfSet<&'static str>)
    requires
        set.map.is_perfect(),
    ensures
        set.spec_is_disjoint(&set) <==> set.map.entries@.len() == 0,
{
    if set.map.entries@.len() > 0 {
        crate::map::lemma_perfect_lookup(set.map, set.map.entries@[0].0@);
    }
}

/// An iterator over the members of a `PhfSet`.
pub struct PhfSetValues<T: 'static> {
    iter: PhfMapKeys<T, ()>,
}

impl<T> View for PhfSetValues<T> {
    type V = Seq<T>;

    /// The members not yet returned.
    closed spec fn view(&self) -> Seq<T> {
        self.iter@
    }
}

impl<T> PhfSetValues<T> {
    /// The next member, or `None` once all have been returned.
    pub fn next(&mut self) -> (r: Option<&'static T>)
        ensures
            old(self)@.len() == 0 ==> r is None && final(self)@ == old(self)@,
            old(self)@.len() > 0 ==> r == Some(&old(self)@[0]) && final(self)@ == old(self)@.drop_first(),
    {
        self.iter.next()
    }

    /// The exact number of members left, as both bounds.
    pub fn size_hint(&self) -> (r: (usize, Option<usize>))
        ensures
            r.0 == self@.len(),
            r.1 == Some(r.0),
    {
        self.iter.size_hint()
    }
}

} // verus!
