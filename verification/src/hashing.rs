//! The hash that places a key in a table, and the displacement step.

use std::hash::{Hash, Hasher};
use vstd::prelude::*;

verus! {

/// Every hash component is below this bound, `2^21`: each is 21 bits wide.
pub const MAX_SIZE: usize = 2097152;

/// The 64-bit SipHash-2-4 digest, under the keys `k1` and `k2`, of a string
/// that holds the characters `key`, fed to the hasher as `str` feeds itself.
pub uninterp spec fn str_sip_hash(k1: u64, k2: u64, key: Seq<char>) -> u64;

/// Hashes `key` with `std::hash::SipHasher::new_with_keys(k1, k2)`: the
/// string's `Hash` impl writes it into the hasher and `finish` reads the
/// digest out. The digest is named by `str_sip_hash`; nothing more of it is
/// claimed.
#[verifier::external_body]
#[allow(deprecated)]
fn sip_hash_str(key: &str, k1: u64, k2: u64) -> (digest: u64)
    ensures
        digest == str_sip_hash(k1, k2, key@),
{
    let mut hasher = std::hash::SipHasher::new_with_keys(k1, k2);
    key.hash(&mut hasher);
    hasher.finish()
}

/// The three table coordinates drawn from a 64-bit digest: its low 21 bits,
/// the 21 bits above them, and the 21 bits above those.
pub open spec fn spec_split_digest(digest: u64) -> (int, int, int) {
    (
        digest as int % MAX_SIZE as int,
        (digest as int / MAX_SIZE as int) % MAX_SIZE as int,
        (digest as int / (MAX_SIZE as int * MAX_SIZE as int)) % MAX_SIZE as int,
    )
}

/// The coordinates `(g, f1, f2)` of `key` under the keys `k1` and `k2`.
pub open spec fn spec_hash(key: Seq<char>, k1: u64, k2: u64) -> (int, int, int) {
    spec_split_digest(str_sip_hash(k1, k2, key))
}

/// The displacement formula in machine words: `d2 + f1 * d1 + f2`, wrapping
/// around at the width of `usize`.
pub open spec fn spec_displace(f1: int, f2: int, d1: int, d2: int) -> int {
    (d2 + f1 * d1 + f2) % (usize::MAX as int + 1)
}

proof fn lemma_split_digest(digest: u64)
    ensures
        digest & 0x1f_ffff == digest as int % MAX_SIZE as int,
        (digest >> 21u64) & 0x1f_ffff == (digest as int / MAX_SIZE as int) % MAX_SIZE as int,
        (digest >> 42u64) & 0x1f_ffff == (digest as int / (MAX_SIZE as int * MAX_SIZE as int))
            % MAX_SIZE as int,
{
    assert(digest & 0x1f_ffff == digest % 0x20_0000) by (bit_vector);
    assert((digest >> 21u64) & 0x1f_ffff == (digest / 0x20_0000) % 0x20_0000) by (bit_vector);
    assert((digest >> 42u64) & 0x1f_ffff == (digest / 0x400_0000_0000) % 0x20_0000)
        by (bit_vector);
}

/// Splits a 64-bit digest into the coordinates `(g, f1, f2)`: its low 21
/// bits, the 21 bits above them, and the 21 bits above those.
pub fn split_digest(digest: u64) -> (r: (usize, usize, usize))
    ensures
        r.0 as int == spec_split_digest(digest).0,
        r.1 as int == spec_split_digest(digest).1,
        r.2 as int == spec_split_digest(digest).2,
        r.0 < MAX_SIZE && r.1 < MAX_SIZE && r.2 < MAX_SIZE,
{
    let mask: u64 = 0x1f_ffff;
    proof {
        lemma_split_digest(digest);
    }
    let g = digest & mask;
    let f1 = (digest >> 21u64) & mask;
    let f2 = (digest >> 42u64) & mask;
    (g as usize, f1 as usize, f2 as usize)
}

/// Hashes `s` under the keys `k1` and `k2` and splits the digest into the
/// coordinates `(g, f1, f2)`, each below `MAX_SIZE`.
pub fn hash(s: &str, k1: u64, k2: u64) -> (r: (usize, usize, usize))
    ensures
        r.0 as int == spec_hash(s@, k1, k2).0,
        r.1 as int == spec_hash(s@, k1, k2).1,
        r.2 as int == spec_hash(s@, k1, k2).2,
        r.0 < MAX_SIZE && r.1 < MAX_SIZE && r.2 < MAX_SIZE,
{
    split_digest(sip_hash_str(s, k1, k2))
}

/// The displaced table position `d2 + f1 * d1 + f2`, wrapping around at the
/// width of `usize`.
pub fn displace(f1: usize, f2: usize, d1: usize, d2: usize) -> (r: usize)
    ensures
        r as int == spec_displace(f1 as int, f2 as int, d1 as int, d2 as int),
        d2 + f1 * d1 + f2 <= usize::MAX ==> r == d2 + f1 * d1 + f2,
{
    let p = f1.wrapping_mul(d1);
    let s = d2.wrapping_add(p);
    let r = s.wrapping_add(f2);
    proof {
        lemma_wrapping_displace(f1 as int, f2 as int, d1 as int, d2 as int, p as int, s as int, r as int);
        let sum = d2 + f1 * d1 + f2;
        if sum <= usize::MAX {
            vstd::arithmetic::mul::lemma_mul_nonnegative(f1 as int, d1 as int);
            vstd::arithmetic::div_mod::lemma_small_mod(sum as nat, (usize::MAX as int + 1) as nat);
        }
    }
    r
}

proof fn lemma_wrapping_displace(f1: int, f2: int, d1: int, d2: int, p: int, s: int, r: int)
    requires
        0 <= f1 <= usize::MAX,
        0 <= f2 <= usize::MAX,
        0 <= d1 <= usize::MAX,
        0 <= d2 <= usize::MAX,
        p == (f1 * d1) % (usize::MAX as int + 1),
        s == (d2 + p) % (usize::MAX as int + 1),
        r == (s + f2) % (usize::MAX as int + 1),
    ensures
        r == spec_displace(f1, f2, d1, d2),
{
    let m = usize::MAX as int + 1;
    vstd::arithmetic::div_mod::lemma_add_mod_noop(d2, f1 * d1, m);
    vstd::arithmetic::div_mod::lemma_mod_twice(d2 + f1 * d1, m);
    vstd::arithmetic::div_mod::lemma_add_mod_noop(d2 + f1 * d1, f2, m);
    vstd::arithmetic::div_mod::lemma_mod_twice(f2, m);
    vstd::arithmetic::div_mod::lemma_small_mod(d2 as nat, m as nat);
    vstd::arithmetic::div_mod::lemma_small_mod(f2 as nat, m as nat);
    vstd::arithmetic::div_mod::lemma_add_mod_noop(s, f2, m);
}

} // verus!
