# phf

Immutable maps and sets over perfect-hash tables that a generator builds
ahead of time, with their lookups and iterators proved in Verus.

- `src/hashing.rs`: the SipHash-2-4 digest of a key (taken from std and
  named, not restated), its split into the coordinates `(g, f1, f2)`, and the
  wrapping displacement `d2 + f1 * d1 + f2`.
- `src/map.rs`, `src/set.rs`: `PhfMap` and `PhfSet`, keyed by strings for
  lookups, with iterators in table order.
- `src/ordered_map.rs`, `src/ordered_set.rs`: `PhfOrderedMap` and
  `PhfOrderedSet`, whose entries keep the order they were listed in.
- `src/show.rs`: the `{a, b}` and `{k: v}` text forms.
- `app/lib.rs`: `Display` and `Iterator` on wrappers of the library's types.

Each lookup is specified as the probe of the position its key hashes to; the
`lemma_perfect_lookup` laws show that, in a table built for its keys, the
probe finds exactly the keys stored and returns their values.
