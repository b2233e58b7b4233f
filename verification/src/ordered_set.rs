//! `PhfOrderedSet`: an immutable set of strings that keeps its members in
//! the order they were listed, and its iterator.

use vstd::prelude::*;
use vstd::string::StringExecFns;

use crate::ordered_map::{PhfOrderedMap, PhfOrderedMapKeys};

use crate::show::{show_set, spec_braced};

verus! {

/// An immutable set of strings whose table was built ahead of time and whose
/// members stay in the order they were listed; a `PhfOrderedMap` to `()`.
///
/// The field is public so that a generator can fill it in; it is subject to
/// change and should not be read directly.
pub struct PhfOrderedSet {
    pub map: PhfOrderedMap<()>,
}

impl PhfOrderedSet {
    /// The members in the order they were listed.
    pub open spec fn members(&self) -> Seq<&'static str> {
        self.map.entries@.map_values(|e: (&'static str, ())| e.0)
    }

    /// Whether a lookup of `value` in this set finds it.
    pub open spec fn spec_contains(&self, value: Seq<char>) -> bool {
        self.map.probe(value) is Some
    }

    /// `is_disjoint` looks each member of `self` up in `other` until one is
    /// found: every member it reaches can be looked up there.
    pub open spec fn disjoint_lookups_ok(&self, other: &PhfOrderedSet) -> bool {
        forall|i: int|
            0 <= i < self.map.entries@.len() && (forall|j: int|
                0 <= j < i ==> !other.spec_contains(#[trigger] self.map.entries@[j].0@))
                ==> other.map.can_look_up(#[trigger] self.map.entries@[i].0@)
    }

    /// `is_subset` looks each member of `self` up in `other` until one is
    /// missing: every member it reaches can be looked up there.
    pub open spec fn subset_lookups_ok(&self, other: &PhfOrderedSet) -> bool {
        forall|i: int|
            0 <= i < self.map.entries@.len() && (forall|j: int|
                0 <= j < i ==> other.spec_contains(#[trigger] self.map.entries@[j].0@))
                ==> other.map.can_look_up(#[trigger] self.map.entries@[i].0@)
    }

    /// No member of `self` is found by a lookup in `other`.
    pub open spec fn spec_is_disjoint(&self, other: &PhfOrderedSet) -> bool {
        forall|i: int| 0 <= i < self.map.entries@.len() ==> !other.spec_contains(#[trigger] self.map.entries@[i].0@)
    }

    /// Every member of `self` is found by a lookup in `other`.
    pub open spec fn spec_is_subset(&self, other: &PhfOrderedSet) -> bool {
        forall|i: int| 0 <= i < self.map.entries@.len() ==> other.spec_contains(#[trigger] self.map.entries@[i].0@)
    }

    /// The number of members.
    pub fn len(&self) -> (n: usize)
        ensures
            n == self.map.entries@.len(),
    {
        self.map.len()
    }

    /// The set in text: its members in the order of the table, separated by
    /// `", "` between braces.
    pub fn show(&self) -> (s: String)
        ensures
            s@ == spec_braced(self.members().map_values(|k: &'static str| k@)),
    {
        let entries = self.map.entries;
        let n = entries.len();
        let mut items: Vec<String> = Vec::new();
        let mut i: usize = 0;
        while i < n
            invariant
                entries@ == self.map.entries@,
                n == entries@.len(),
                i <= n,
                items@.len() == i,
                forall|j: int| 0 <= j < i ==> #[trigger] items@[j]@ == entries@[j].0@,
            decreases n - i,
        {
            items.push(String::from_str(entries[i].0));
            i = i + 1;
        }
        assert(items@.map_values(|x: String| x@) =~= self.members().map_values(|k: &'static str| k@));
        show_set(&items)
    }

    /// Whether a lookup of `value` finds it.
    pub fn contains(&self, value: &&str) -> (r: bool)
        requires
            self.map.can_look_up(value@),
        ensures
            r == self.spec_contains(value@),
    {
        self.map.contains_key(value)
    }

    /// `contains` that reports, instead of failing, a table `value` cannot be
    /// looked up in: `None` exactly when `can_look_up(value)` fails, and
    /// otherwise whether the lookup finds `value`.
    pub fn checked_contains(&self, value: &&str) -> (r: Option<bool>)
        ensures
            r is None <==> !self.map.can_look_up(value@),
            r matches Some(b) ==> b == self.spec_contains(value@),
    {
        match self.map.checked_find_entry(value) {
            Some(found) => Some(found.is_some()),
            None => None,
        }
    }

    /// Whether no member of `self` is a member of `other`; stops at the
    /// first member found in `other`.
    pub fn is_disjoint(&self, other: &PhfOrderedSet) -> (r: bool)
        requires
            self.disjoint_lookups_ok(other),
        ensures
            r == self.spec_is_disjoint(other),
    {
        let entries = self.map.entries;
        let n = entries.len();
        let mut i: usize = 0;
        while i < n
            invariant
                entries@ == self.map.entries@,
                n == entries@.len(),
                i <= n,
                self.disjoint_lookups_ok(other),
                forall|j: int| 0 <= j < i ==> !other.spec_contains(#[trigger] entries@[j].0@),
            decreases n - i,
        {
            if other.contains(&entries[i].0) {
                return false;
            }
            i = i + 1;
        }
        true
    }

    /// Whether every member of `self` is a member of `other`; stops at the
    /// first member missing from `other`.
    pub fn is_subset(&self, other: &PhfOrderedSet) -> (r: bool)
        requires
            self.subset_lookups_ok(other),
        ensures
            r == self.spec_is_subset(other),
    {
        let entries = self.map.entries;
        let n = entries.len();
        let mut i: usize = 0;
        while i < n
            invariant
                entries@ == self.map.entries@,
                n == entries@.len(),
                i <= n,
                self.subset_lookups_ok(other),
                forall|j: int| 0 <= j < i ==> other.spec_contains(#[trigger] entries@[j].0@),
            decreases n - i,
        {
            if !other.contains(&entries[i].0) {
                return false;
            }
            i = i + 1;
        }
        true
    }

    /// The set's own stored instance of `key`, useful for interning.
    pub fn find_key(&self, key: &&str) -> (r: Option<&'static str>)
        requires
            self.map.can_look_up(key@),
        ensures
            match self.map.probe(key@) {
                Some(j) => r == Some(self.map.entries@[j].0),
                None => r is None,
            },
    {
        self.map.find_key(key)
    }

    /// An iterator over the members, in the order they were listed.
    pub fn iter<'a>(&'a self) -> (it: PhfOrderedSetValues<'a>)
        ensures
            it@ == self.members(),
    {
        PhfOrderedSetValues { iter: self.map.keys() }
    }
}

/// In a set whose table was built for its members, a lookup finds a value
/// exactly when some member has the same characters.
pub proof fn lemma_perfect_contains(set: PhfOrderedSet, value: Seq<char>)
    requires
        set.map.is_perfect(),
    ensures
        set.spec_contains(value) <==> set.map.has_key(value),
{
    crate::ordered_map::lemma_perfect_lookup(set.map, value);
}

/// Against a set `b` whose table was built for its members, `a` is a subset
/// exactly when every member of `a` has the same characters as some member of
/// `b`.
pub proof fn lemma_subset_members(a: PhfOrderedSet, b: PhfOrderedSet)
    requires
        b.map.is_perfect(),
    ensures
        a.spec_is_subset(&b) <==> forall|i: int|
            0 <= i < a.map.entries@.len() ==> exists|j: int|
                0 <= j < b.map.entries@.len() && #[trigger] b.map.entries@[j].0@ == #[trigger] a.map.entries@[i].0@,
{
    assert forall|i: int| 0 <= i < a.map.entries@.len() implies (b.spec_contains(
        #[trigger] a.map.entries@[i].0@,
    ) <==> exists|j: int|
        0 <= j < b.map.entries@.len() && #[trigger] b.map.entries@[j].0@ == a.map.entries@[i].0@) by {
        crate::ordered_map::lemma_perfect_lookup(b.map, a.map.entries@[i].0@);
    }
}

/// Against a set `b` whose table was built for its members, `a` is disjoint
/// exactly when no member of `a` has the same characters as a member of `b`.
pub proof fn lemma_disjoint_members(a: PhfOrderedSet, b: PhfOrderedSet)
    requires
        b.map.is_perfect(),
    ensures
        a.spec_is_disjoint(&b) <==> forall|i: int, j: int|
            0 <= i < a.map.entries@.len() && 0 <= j < b.map.entries@.len() ==> #[trigger] b.map.entries@[j].0@
                != #[trigger] a.map.entries@[i].0@,
{
    assert forall|i: int| 0 <= i < a.map.entries@.len() implies (b.spec_contains(
        #[trigger] a.map.entries@[i].0@,
    ) <==> exists|j: int|
        0 <= j < b.map.entries@.len() && #[trigger] b.map.entries@[j].0@ == a.map.entries@[i].0@) by {
        crate::ordered_map::lemma_perfect_lookup(b.map, a.map.entries@[i].0@);
    }
}

/// Every set whose table was built for its members is a subset of itself.
pub proof fn lemma_subset_reflexive(set: PhfOrderedSet)
    requires
        set.map.is_perfect(),
    ensures
        set.spec_is_subset(&set),
{
    assert forall|i: int| 0 <= i < set.map.entries@.len() implies set.spec_contains(
        #[trigger] set.map.entries@[i].0@,
    ) by {
        crate::ordered_map::lemma_perfect_lookup(set.map, set.map.entries@[i].0@);
    }
}

/// Being a subset is transitive, provided the middle set's table was built
/// for its members.
pub proof fn lemma_subset_transitive(a: PhfOrderedSet, b: PhfOrderedSet, c: PhfOrderedSet)
    requires
        b.map.is_perfect(),
        a.spec_is_subset(&b),
        b.spec_is_subset(&c),
    ensures
        a.spec_is_subset(&c),
{
    assert forall|i: int| 0 <= i < a.map.entries@.len() implies c.spec_contains(
        #[trigger] a.map.entries@[i].0@,
    ) by {
        let key = a.map.entries@[i].0@;
        crate::ordered_map::lemma_perfect_lookup(b.map, key);
        let j = choose|j: int| 0 <= j < b.map.entries@.len() && #[trigger] b.map.entries@[j].0@ == key;
        assert(c.spec_contains(b.map.entries@[j].0@));
    }
}

/// For sets whose tables were built for their members, being disjoint is
/// symmetric.
pub proof fn lemma_disjoint_symmetric(a: PhfOrderedSet, b: PhfOrderedSet)
    requires
        a.map.is_perfect(),
        b.map.is_perfect(),
    ensures
        a.spec_is_disjoint(&b) == b.spec_is_disjoint(&a),
{
    if !a.spec_is_disjoint(&b) {
        let i = choose|i: int| 0 <= i < a.map.entries@.len() && b.spec_contains(#[trigger] a.map.entries@[i].0@);
        let key = a.map.entries@[i].0@;
        crate::ordered_map::lemma_perfect_lookup(b.map, key);
        let j = choose|j: int| 0 <= j < b.map.entries@.len() && #[trigger] b.map.entries@[j].0@ == key;
        crate::ordered_map::lemma_perfect_lookup(a.map, key);
        assert(a.spec_contains(b.map.entries@[j].0@));
    }
    if !b.spec_is_disjoint(&a) {
        let i = choose|i: int| 0 <= i < b.map.entries@.len() && a.spec_contains(#[trigger] b.map.entries@[i].0@);
        let key = b.map.entries@[i].0@;
        crate::ordered_map::lemma_perfect_lookup(a.map, key);
        let j = choose|j: int| 0 <= j < a.map.entries@.len() && #[trigger] a.map.entries@[j].0@ == key;
        crate::ordered_map::lemma_perfect_lookup(b.map, key);
        assert(b.spec_contains(a.map.entries@[j].0@));
    }
}

/// A set whose table was built for its members is disjoint from itself
/// exactly when it is empty.
pub proof fn lemma_disjoint_self(set: PhfOrderedSet)
    requires
        set.map.is_perfect(),
    ensures
        set.spec_is_disjoint(&set) <==> set.map.entries@.len() == 0,
{
    if set.map.entries@.len() > 0 {
        crate::ordered_map::lemma_perfect_lookup(set.map, set.map.entries@[0].0@);
    }
}

/// An iterator over the members of a `PhfOrderedSet`, from either end or by
/// position.
pub struct PhfOrderedSetValues<'a> {
    iter: PhfOrderedMapKeys<'a, ()>,
}

impl<'a> View for PhfOrderedSetValues<'a> {
    type V = Seq<&'static str>;

    /// The members not yet returned, from the front to the back.
    closed spec fn view(&self) -> Seq<&'static str> {
        self.iter@
    }
}

impl<'a> PhfOrderedSetValues<'a> {
    /// The member at the front, or `None` once all have been returned.
    pub fn next(&mut self) -> (r: Option<&'static str>)
        ensures
            old(self)@.len() == 0 ==> r is None && final(self)@ == old(self)@,
            old(self)@.len() > 0 ==> r == Some(old(self)@[0]) && final(self)@ == old(self)@.drop_first(),
    {
        self.iter.next()
    }

    /// The member at the back, or `None` once all have been returned.
    pub fn next_back(&mut self) -> (r: Option<&'static str>)
        ensures
            old(self)@.len() == 0 ==> r is None && final(self)@ == old(self)@,
            old(self)@.len() > 0 ==> r == Some(old(self)@.last()) && final(self)@ == old(self)@.drop_last(),
    {
        self.iter.next_back()
    }

    /// The exact number of members left, as both bounds.
    pub fn size_hint(&self) -> (r: (usize, Option<usize>))
        ensures
            r.0 == self@.len(),
            r.1 == Some(r.0),
    {
        self.iter.size_hint()
    }

    /// How many members can be reached by position: those left.
    pub fn indexable(&self) -> (n: usize)
        ensures
            n == self@.len(),
    {
        self.iter.indexable()
    }

    /// The member `index` places after the front, without moving the
    /// iterator.
    pub fn idx(&mut self, index: usize) -> (r: Option<&'static str>)
        ensures
            final(self)@ == old(self)@,
            index < old(self)@.len() ==> r == Some(old(self)@[index as int]),
            index >= old(self)@.len() ==> r is None,
    {
        self.iter.idx(index)
    }
}

} // verus!
