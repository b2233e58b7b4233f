use phf::{displace, hash, split_digest, PhfMap, PhfOrderedMap, PhfOrderedSet, PhfSet};

const K1: u64 = 0x0123_4567_89ab_cdef;
const K2: u64 = 0xfedc_ba98_7654_3210;

fn leak<T>(v: Vec<T>) -> &'static [T] {
    Vec::leak(v)
}

/// Builds the displacement table for `keys` over `n` positions, bucket by
/// bucket from the fullest, trying pairs `(d1, d2)` until every key of the
/// bucket lands on a free position; returns the table and each key's position.
fn find_disps(keys: &[&'static str], n: usize) -> (Vec<(usize, usize)>, Vec<usize>) {
    let hashes: Vec<(usize, usize, usize)> = keys.iter().map(|k| hash(k, K1, K2)).collect();
    let nb = n;
    let mut buckets: Vec<Vec<usize>> = vec![Vec::new(); nb];
    for (i, h) in hashes.iter().enumerate() {
        buckets[h.0 % nb].push(i);
    }
    let mut order: Vec<usize> = (0..nb).collect();
    order.sort_by_key(|b| std::cmp::Reverse(buckets[*b].len()));
    let mut disps = vec![(0usize, 0usize); nb];
    let mut taken = vec![false; n];
    let mut slots = vec![usize::MAX; keys.len()];
    'bucket: for b in order {
        if buckets[b].is_empty() {
            continue;
        }
        for d1 in 0..n {
            for d2 in 0..n {
                let pos: Vec<usize> = buckets[b]
                    .iter()
                    .map(|&i| displace(hashes[i].1, hashes[i].2, d1, d2) % n)
                    .collect();
                let mut ok = pos.iter().all(|p| !taken[*p]);
                for x in 0..pos.len() {
                    for y in 0..x {
                        ok &= pos[x] != pos[y];
                    }
                }
                if ok {
                    for (j, &i) in buckets[b].iter().enumerate() {
                        taken[pos[j]] = true;
                        slots[i] = pos[j];
                    }
                    disps[b] = (d1, d2);
                    continue 'bucket;
                }
            }
        }
        panic!("no displacement found");
    }
    (disps, slots)
}

fn build_map<V: Clone + 'static>(pairs: &[(&'static str, V)]) -> PhfMap<&'static str, V> {
    let keys: Vec<&'static str> = pairs.iter().map(|p| p.0).collect();
    let (disps, slots) = find_disps(&keys, pairs.len());
    let mut entries: Vec<Option<(&'static str, V)>> = vec![None; pairs.len()];
    for (i, p) in pairs.iter().enumerate() {
        entries[slots[i]] = Some(p.clone());
    }
    PhfMap {
        k1: K1,
        k2: K2,
        disps: leak(disps),
        entries: leak(entries.into_iter().map(|e| e.unwrap()).collect()),
    }
}

fn build_ordered_map<T: 'static>(pairs: Vec<(&'static str, T)>) -> PhfOrderedMap<T> {
    let keys: Vec<&'static str> = pairs.iter().map(|p| p.0).collect();
    let (disps, slots) = find_disps(&keys, pairs.len());
    let mut idxs = vec![0usize; pairs.len()];
    for (i, s) in slots.iter().enumerate() {
        idxs[*s] = i;
    }
    PhfOrderedMap { k1: K1, k2: K2, disps: leak(disps), idxs: leak(idxs), entries: leak(pairs) }
}

fn build_set(keys: &[&'static str]) -> PhfSet<&'static str> {
    let pairs: Vec<(&'static str, ())> = keys.iter().map(|k| (*k, ())).collect();
    PhfSet { map: build_map(&pairs) }
}

fn build_ordered_set(keys: &[&'static str]) -> PhfOrderedSet {
    PhfOrderedSet { map: build_ordered_map(keys.iter().map(|k| (*k, ())).collect()) }
}

#[test]
fn hash_of_hello_with_zero_keys() {
    assert_eq!(hash("hello", 0, 0), (523071, 143732, 1029664));
}

#[test]
fn hash_of_world_with_keys_one_two() {
    assert_eq!(hash("world", 1, 2), (176867, 1782114, 1182161));
}

#[test]
fn hash_of_empty_string() {
    assert_eq!(hash("", 0, 0), (1413362, 1415660, 538451));
}

#[test]
fn hash_components_below_max_size() {
    for s in ["a", "bc", "a longer key than eight bytes", "ünïcödé"] {
        let (g, f1, f2) = hash(s, K1, K2);
        assert!(g < 1 << 21 && f1 < 1 << 21 && f2 < 1 << 21);
    }
}

#[test]
fn hash_depends_on_the_keys() {
    assert_ne!(hash("hello", 0, 0), hash("hello", 1, 0));
}

#[test]
fn displace_small_values() {
    assert_eq!(displace(1, 2, 3, 4), 9);
    assert_eq!(displace(0, 0, 0, 0), 0);
    assert_eq!(displace(5, 7, 11, 13), 13 + 5 * 11 + 7);
}

#[test]
fn displace_wraps_around() {
    assert_eq!(displace(usize::MAX, 0, 2, 0), usize::MAX - 1);
    assert_eq!(displace(0, 1, 0, usize::MAX), 0);
    assert_eq!(displace(2, 3, usize::MAX, 1), 2);
}

#[test]
fn map_finds_every_key() {
    let map = build_map(&[("hello", 10), ("world", 11), ("foo", 12), ("bar", 13)]);
    assert_eq!(map.len(), 4);
    assert_eq!(map.find(&"hello"), Some(&10));
    assert_eq!(map.find(&"world"), Some(&11));
    assert_eq!(map.find(&"foo"), Some(&12));
    assert_eq!(map.find(&"bar"), Some(&13));
    assert!(map.contains_key(&"foo"));
}

#[test]
fn map_misses_absent_keys() {
    let map = build_map(&[("hello", 10), ("world", 11), ("foo", 12), ("bar", 13)]);
    assert_eq!(map.find(&"baz"), None);
    assert_eq!(map.find(&""), None);
    assert_eq!(map.find(&"Hello"), None);
    assert!(!map.contains_key(&"qux"));
}

#[test]
fn map_find_key_returns_stored_instance() {
    let map = build_map(&[("hello", 10), ("world", 11)]);
    let owned = String::from("world");
    let stored = map.find_key(&owned.as_str()).unwrap();
    assert_eq!(*stored, "world");
    assert!(std::ptr::eq(*stored, map.entries.iter().find(|e| e.0 == "world").unwrap().0));
    assert_eq!(map.find_key(&"nope"), None);
}

#[test]
fn map_equiv_lookups_with_owned_strings() {
    let map = build_map(&[("hello", 10), ("world", 11), ("foo", 12)]);
    assert_eq!(map.find_equiv(&String::from("foo")), Some(&12));
    assert_eq!(map.find_equiv(&String::from("fo")), None);
    assert_eq!(map.find_key_equiv(&String::from("hello")), Some(&"hello"));
    assert_eq!(map.find_key_equiv(&String::from("nope")), None);
    assert_eq!(map.find_equiv(&String::from("world")), map.find(&"world"));
}

#[test]
fn map_iterators_follow_the_table() {
    let map = build_map(&[("a", 1), ("b", 2), ("c", 3)]);
    let mut it = map.entries();
    assert_eq!(it.size_hint(), (3, Some(3)));
    let mut seen = Vec::new();
    while let Some((k, v)) = it.next() {
        seen.push((*k, *v));
    }
    assert_eq!(it.size_hint(), (0, Some(0)));
    assert_eq!(it.next(), None);
    let table: Vec<(&str, i32)> = map.entries.to_vec();
    assert_eq!(seen, table);

    let mut keys = map.keys();
    let mut values = map.values();
    for (k, v) in table {
        assert_eq!(keys.next(), Some(&k));
        assert_eq!(values.next(), Some(&v));
    }
    assert_eq!(keys.next(), None);
    assert_eq!(values.next(), None);
    assert_eq!(keys.size_hint(), (0, Some(0)));
    assert_eq!(values.size_hint(), (0, Some(0)));
}

#[test]
fn set_membership() {
    let set = build_set(&["hello", "world"]);
    assert_eq!(set.len(), 2);
    assert!(set.contains(&"hello"));
    assert!(set.contains(&"world"));
    assert!(!set.contains(&"other"));
    assert_eq!(set.find_key(&"hello"), Some(&"hello"));
    assert_eq!(set.find_key(&"other"), None);
}

#[test]
fn set_subset_and_disjoint() {
    let a = build_set(&["a", "b"]);
    let b = build_set(&["a", "b", "c"]);
    let c = build_set(&["x", "y"]);
    assert!(a.is_subset(&b));
    assert!(!b.is_subset(&a));
    assert!(a.is_subset(&a));
    assert!(!a.is_disjoint(&b));
    assert!(a.is_disjoint(&c));
    assert!(c.is_disjoint(&a));
    assert!(!a.is_disjoint(&a));
}

#[test]
fn empty_set_against_any_table() {
    let empty: PhfSet<&'static str> = PhfSet { map: PhfMap { k1: 0, k2: 0, disps: leak(vec![]), entries: leak(vec![]) } };
    let other = build_set(&["a"]);
    assert_eq!(empty.len(), 0);
    assert!(empty.is_subset(&other));
    assert!(empty.is_disjoint(&other));
    assert!(empty.is_subset(&empty));
    assert!(empty.is_disjoint(&empty));
    assert_eq!(empty.show(), "{}");
}

#[test]
fn set_iterator_yields_table_order() {
    let set = build_set(&["p", "q", "r"]);
    let mut it = set.iter();
    assert_eq!(it.size_hint(), (3, Some(3)));
    let mut got = Vec::new();
    while let Some(k) = it.next() {
        got.push(*k);
    }
    let table: Vec<&str> = set.map.entries.iter().map(|e| e.0).collect();
    assert_eq!(got, table);
    assert_eq!(it.next(), None);
}

#[test]
fn set_show_lists_members_in_table_order() {
    let set = build_set(&["hello", "world"]);
    let expected = format!("{{{}, {}}}", set.map.entries[0].0, set.map.entries[1].0);
    assert_eq!(set.show(), expected);
}

#[test]
fn ordered_map_finds_and_keeps_order() {
    let map = build_ordered_map(vec![("hello", 10), ("world", 11), ("foo", 12), ("bar", 13)]);
    assert_eq!(map.len(), 4);
    assert_eq!(map.find(&"hello"), Some(&10));
    assert_eq!(map.find(&"bar"), Some(&13));
    assert_eq!(map.find(&"baz"), None);
    assert!(map.contains_key(&"world"));
    assert!(!map.contains_key(&"World"));
    assert_eq!(map.find_key(&"foo"), Some("foo"));
    assert_eq!(map.find_key(&"nope"), None);

    let mut keys = map.keys();
    assert_eq!(keys.next(), Some("hello"));
    assert_eq!(keys.next_back(), Some("bar"));
    assert_eq!(keys.size_hint(), (2, Some(2)));
    assert_eq!(keys.indexable(), 2);
    assert_eq!(keys.idx(0), Some("world"));
    assert_eq!(keys.idx(1), Some("foo"));
    assert_eq!(keys.idx(2), None);
    assert_eq!(keys.next(), Some("world"));
    assert_eq!(keys.next(), Some("foo"));
    assert_eq!(keys.next(), None);
    assert_eq!(keys.next_back(), None);
}

#[test]
fn ordered_map_entries_and_values() {
    let map = build_ordered_map(vec![("one", 1), ("two", 2), ("three", 3)]);
    let mut it = map.entries();
    assert_eq!(it.next(), Some(("one", &1)));
    assert_eq!(it.next_back(), Some(("three", &3)));
    assert_eq!(it.idx(0), Some(("two", &2)));
    assert_eq!(it.idx(1), None);
    assert_eq!(it.indexable(), 1);
    assert_eq!(it.size_hint(), (1, Some(1)));
    assert_eq!(it.next(), Some(("two", &2)));
    assert_eq!(it.next(), None);

    let mut values = map.values();
    assert_eq!(values.size_hint(), (3, Some(3)));
    assert_eq!(values.idx(2), Some(&3));
    assert_eq!(values.next_back(), Some(&3));
    assert_eq!(values.next(), Some(&1));
    assert_eq!(values.indexable(), 1);
    assert_eq!(values.next(), Some(&2));
    assert_eq!(values.next(), None);
}

#[test]
fn ordered_set_membership_and_order() {
    let set = build_ordered_set(&["hello", "world", "again"]);
    assert_eq!(set.len(), 3);
    assert!(set.contains(&"world"));
    assert!(!set.contains(&"nope"));
    assert_eq!(set.find_key(&"again"), Some("again"));
    assert_eq!(set.find_key(&"nope"), None);
    let mut it = set.iter();
    assert_eq!(it.size_hint(), (3, Some(3)));
    assert_eq!(it.indexable(), 3);
    assert_eq!(it.idx(1), Some("world"));
    assert_eq!(it.next_back(), Some("again"));
    assert_eq!(it.next(), Some("hello"));
    assert_eq!(it.next(), Some("world"));
    assert_eq!(it.next(), None);
    assert_eq!(it.idx(0), None);
    assert_eq!(set.show(), "{hello, world, again}");
}

#[test]
fn ordered_set_subset_and_disjoint() {
    let a = build_ordered_set(&["a", "b"]);
    let b = build_ordered_set(&["c", "b", "a"]);
    let c = build_ordered_set(&["x"]);
    assert!(a.is_subset(&b));
    assert!(!b.is_subset(&a));
    assert!(b.is_subset(&b));
    assert!(a.is_disjoint(&c));
    assert!(c.is_disjoint(&a));
    assert!(!a.is_disjoint(&b));
    assert!(!b.is_disjoint(&a));
}

#[test]
fn show_set_and_map_framing() {
    assert_eq!(phf::show::show_set(&vec![]), "{}");
    assert_eq!(phf::show::show_set(&vec!["x".to_string()]), "{x}");
    assert_eq!(phf::show::show_set(&vec!["x".to_string(), "y".to_string(), "z".to_string()]), "{x, y, z}");
    assert_eq!(phf::show::show_map(&vec![]), "{}");
    assert_eq!(
        phf::show::show_map(&vec![("hello".to_string(), "10".to_string()), ("world".to_string(), "11".to_string())]),
        "{hello: 10, world: 11}"
    );
}

#[test]
fn subset_is_transitive_on_examples() {
    let a = build_set(&["k"]);
    let b = build_set(&["k", "l"]);
    let c = build_set(&["j", "k", "l", "m"]);
    assert!(a.is_subset(&b) && b.is_subset(&c));
    assert!(a.is_subset(&c));
    let oa = build_ordered_set(&["k"]);
    let ob = build_ordered_set(&["l", "k"]);
    let oc = build_ordered_set(&["m", "l", "k"]);
    assert!(oa.is_subset(&ob) && ob.is_subset(&oc));
    assert!(oa.is_subset(&oc));
}

#[test]
fn nonempty_sets_meet_themselves() {
    let s = build_set(&["only"]);
    assert!(!s.is_disjoint(&s));
    assert_eq!(s.show(), "{only}");
    let o = build_ordered_set(&["only", "two"]);
    assert!(!o.is_disjoint(&o));
    assert!(o.is_subset(&o));
}

#[test]
fn ordered_lookup_of_every_listed_key() {
    let words = ["alpha", "beta", "gamma", "delta", "epsilon", "zeta", "eta"];
    let map = build_ordered_map(words.iter().enumerate().map(|(i, w)| (*w, i)).collect());
    for (i, w) in words.iter().enumerate() {
        assert_eq!(map.find(w), Some(&i));
        assert_eq!(map.find_key(w), Some(*w));
    }
    assert_eq!(map.find(&"theta"), None);
}

#[test]
fn split_digest_takes_three_21_bit_fields() {
    assert_eq!(split_digest((5u64 << 42) | (7u64 << 21) | 9), (9, 7, 5));
    assert_eq!(split_digest(u64::MAX), (2097151, 2097151, 2097151));
    assert_eq!(split_digest(0), (0, 0, 0));
    assert_eq!(split_digest(4528510464237763391), (523071, 143732, 1029664));
}

#[test]
fn lookup_by_hash_coordinates() {
    let map: PhfMap<&'static str, i32> = PhfMap {
        k1: 0,
        k2: 0,
        disps: leak(vec![(1, 0), (0, 1)]),
        entries: leak(vec![("a", 1), ("b", 2), ("c", 3)]),
    };
    assert_eq!(map.get_entry_hashed("b", 0, 1, 0), Some(&("b", 2)));
    assert_eq!(map.get_entry_hashed("a", 0, 1, 0), None);
    assert_eq!(map.get_entry_hashed("b", 1, 5, 0), Some(&("b", 2)));
    assert_eq!(map.get_entry_hashed("a", 3, 2, 2), Some(&("a", 1)));
    assert_eq!(map.get_entry_hashed("c", 0, 2, 0), Some(&("c", 3)));
}

#[test]
fn ordered_lookup_by_hash_coordinates() {
    let map: PhfOrderedMap<i32> = PhfOrderedMap {
        k1: 0,
        k2: 0,
        disps: leak(vec![(1, 0)]),
        idxs: leak(vec![2, 0, 1]),
        entries: leak(vec![("x", 10), ("y", 20), ("z", 30)]),
    };
    assert_eq!(map.find_entry_hashed("x", 0, 1, 0), Some(&("x", 10)));
    assert_eq!(map.find_entry_hashed("y", 0, 1, 0), None);
    assert_eq!(map.find_entry_hashed("z", 7, 0, 0), Some(&("z", 30)));
    assert_eq!(map.find_entry_hashed("y", 0, 2, 0), Some(&("y", 20)));
}

#[test]
fn checked_lookup_reports_unusable_tables() {
    let bad_idx: PhfOrderedMap<i32> = PhfOrderedMap {
        k1: 0,
        k2: 0,
        disps: leak(vec![(0, 0)]),
        idxs: leak(vec![5]),
        entries: leak(vec![("x", 1)]),
    };
    assert_eq!(bad_idx.checked_find_entry(&"x"), None);
    let no_disps: PhfOrderedMap<i32> =
        PhfOrderedMap { k1: 0, k2: 0, disps: leak(vec![]), idxs: leak(vec![0]), entries: leak(vec![("x", 1)]) };
    assert_eq!(no_disps.checked_find_entry(&"x"), None);
    let one: PhfOrderedMap<i32> =
        PhfOrderedMap { k1: 0, k2: 0, disps: leak(vec![(0, 0)]), idxs: leak(vec![0]), entries: leak(vec![("x", 1)]) };
    assert_eq!(one.checked_find_entry(&"x"), Some(Some(&("x", 1))));
    assert_eq!(one.checked_find_entry(&"y"), Some(None));
    let set = PhfOrderedSet { map: PhfOrderedMap { k1: 0, k2: 0, disps: leak(vec![(0, 0)]), idxs: leak(vec![0]), entries: leak(vec![("x", ())]) } };
    assert_eq!(set.checked_contains(&"x"), Some(true));
    assert_eq!(set.checked_contains(&"y"), Some(false));
    let bad_set = PhfOrderedSet { map: PhfOrderedMap { k1: 0, k2: 0, disps: leak(vec![(0, 0)]), idxs: leak(vec![3]), entries: leak(vec![("x", ())]) } };
    assert_eq!(bad_set.checked_contains(&"x"), None);
}
