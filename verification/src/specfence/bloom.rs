//! Presence filter for location hashes.
//!
//! Two hashed bits per location. A set pair is a maybe; a clear bit is a
//! definite no: the location was never inserted.

use vstd::prelude::*;
use vstd::arithmetic::power2::{pow2, lemma_pow2, lemma_pow2_unfold};
use vstd::arithmetic::power::lemma_pow0;
use super::deque::is_least_pow2_at_least;

verus! {

/// Multiplier of the first hash.
pub const BLOOM_MUL: u64 = 0x9E37_79B9_7F4A_7C15;

/// First hash of a location: the product with [`BLOOM_MUL`] modulo 2^64.
pub open spec fn hash1(location: u64) -> u64 {
    ((location as int * BLOOM_MUL as int) % 0x1_0000_0000_0000_0000) as u64
}

/// Second hash: the first rotated left by 17, xor the location.
pub open spec fn hash2(location: u64) -> u64 {
    let h1 = hash1(location);
    ((h1 << 17u64) | (h1 >> 47u64)) ^ location
}

/// The two bit indexes of a location under `mask`.
pub open spec fn bloom_indexes(location: u64, mask: usize) -> (usize, usize) {
    ((hash1(location) as usize) & mask, (hash2(location) as usize) & mask)
}

/// Bit `t` of `w`.
pub open spec fn word_bit(w: u64, t: u64) -> bool {
    (w & (1u64 << t)) != 0
}

proof fn lemma_or_bit(w: u64, s: u64, t: u64)
    requires
        s < 64,
        t < 64,
    ensures
        word_bit(w | (1u64 << s), t) == (s == t || word_bit(w, t)),
{
    assert(((w | (1u64 << s)) & (1u64 << t) != 0) == (s == t || (w & (1u64 << t)) != 0))
        by (bit_vector)
        requires
            s < 64,
            t < 64,
    ;
}

proof fn lemma_mask_below(x: usize, mask: usize)
    ensures
        x & mask <= mask,
{
    assert(x & mask <= mask) by (bit_vector);
}

/// Presence filter over location hashes.
pub struct LocBloom {
    bits: Vec<u64>,
    mask: usize,
}

impl LocBloom {
    /// Well-formedness: the mask covers exactly the bits of the words, and
    /// the bit count is a power of two of at least 64.
    pub closed spec fn wf(self) -> bool {
        &&& self.bits@.len() >= 1
        &&& self.mask as int + 1 == self.bits@.len() * 64
        &&& exists|e: nat| #[trigger] pow2(e) == self.mask as int + 1
    }

    /// Number of bits of the filter.
    pub closed spec fn nbits(self) -> nat {
        self.bits@.len() * 64
    }

    /// Mask applied to both hashes.
    pub closed spec fn mask_spec(self) -> usize {
        self.mask
    }

    /// Bit `b` of the filter is set.
    pub closed spec fn bit(self, b: int) -> bool {
        0 <= b < self.nbits() && word_bit(self.bits@[b / 64], (b % 64) as u64)
    }

    /// Empty filter with the least power of two of bits above `min_bits`,
    /// and at least 64.
    pub fn new(min_bits: usize) -> (r: Self)
        requires
            min_bits <= usize::MAX / 2,
        ensures
            r.wf(),
            r.mask_spec() + 1 == r.nbits(),
            forall|b: int| !#[trigger] r.bit(b),
            forall|y: u64| !#[trigger] answers(r, y),
            exists|p: nat| #[trigger] is_least_pow2_at_least(p, min_bits as nat) && r.nbits() == (
            if p >= 64 {
                p
            } else {
                64
            }),
    {
        let mut p: usize = 1;
        let ghost mut e: nat = 0;
        proof {
            lemma_pow2(0);
            lemma_pow0(2);
        }
        while p < min_bits
            invariant
                min_bits <= usize::MAX / 2,
                1 <= p,
                p == pow2(e),
                e == 0 || pow2((e - 1) as nat) < min_bits,
                p == 1 || p == 2 || p == 4 || p == 8 || p == 16 || p == 32 || p % 64 == 0,
                p == 1 || p < 2 * min_bits,
            decreases usize::MAX - p,
        {
            proof {
                lemma_pow2_unfold(e + 1);
            }
            p = p * 2;
            proof {
                e = e + 1;
            }
        }
        proof {
            assert(pow2(e) == p as nat && p as nat >= min_bits as nat && (e == 0 || pow2(
                (e - 1) as nat,
            ) < min_bits as nat));
            assert(is_least_pow2_at_least(p as nat, min_bits as nat));
        }
        let nbits: usize = if p >= 64 { p } else { 64 };
        let ghost en: nat = if p >= 64 { e } else { 6 };
        proof {
            if p < 64 {
                lemma_pow2(6);
                assert(pow2(6) == 64) by {
                    lemma_pow2_unfold(6);
                    lemma_pow2_unfold(5);
                    lemma_pow2_unfold(4);
                    lemma_pow2_unfold(3);
                    lemma_pow2_unfold(2);
                    lemma_pow2_unfold(1);
                }
            }
        }
        let words = nbits / 64;
        let mut bits: Vec<u64> = Vec::new();
        while bits.len() < words
            invariant
                bits@.len() <= words,
                forall|i: int| 0 <= i < bits@.len() ==> bits@[i] == 0,
            decreases words - bits.len(),
        {
            bits.push(0);
        }
        let r = LocBloom { bits, mask: nbits - 1 };
        proof {
            assert(pow2(en) == r.mask as int + 1);
            assert forall|b: int| !#[trigger] r.bit(b) by {
                if 0 <= b < r.nbits() {
                    let t = (b % 64) as u64;
                    assert(r.bits@[b / 64] == 0);
                    assert((0u64 & (1u64 << t)) == 0) by (bit_vector);
                }
            }
        }
        r
    }

    /// Set one bit; every other bit is unchanged.
    fn set(&mut self, bit: usize)
        requires
            old(self).wf(),
            bit < old(self).nbits(),
        ensures
            final(self).wf(),
            final(self).mask == old(self).mask,
            forall|b: int| #[trigger] final(self).bit(b) == (b == bit || old(self).bit(b)),
    {
        let word = bit / 64;
        let sh = (bit % 64) as u64;
        let m = 1u64 << sh;
        let cur = self.bits[word];
        if cur & m == 0 {
            self.bits.set(word, cur | m);
        }
        proof {
            assert forall|b: int| #[trigger] self.bit(b) == (b == bit || old(self).bit(b)) by {
                if 0 <= b < self.nbits() {
                    let t = (b % 64) as u64;
                    if b / 64 == word as int {
                        lemma_or_bit(cur, sh, t);
                        if cur & m != 0 && t == sh {
                            assert(word_bit(cur, sh));
                        }
                    }
                }
            }
        }
    }

    /// Read one bit.
    fn get(&self, bit: usize) -> (r: bool)
        requires
            self.wf(),
            bit < self.nbits(),
        ensures
            r == self.bit(bit as int),
    {
        let word = bit / 64;
        let sh = (bit % 64) as u64;
        let m = 1u64 << sh;
        self.bits[word] & m != 0
    }

    /// Mark `location` present: its two bits are set; no bit is cleared.
    pub fn insert(&mut self, location: u64)
        requires
            old(self).wf(),
        ensures
            final(self).wf(),
            final(self).mask_spec() == old(self).mask_spec(),
            forall|b: int| #[trigger] final(self).bit(b) == (old(self).bit(b) || b == bloom_indexes(
                location,
                old(self).mask_spec(),
            ).0 || b == bloom_indexes(location, old(self).mask_spec()).1),
            insert_step(*old(self), *final(self), location),
    {
        let (a, b) = indexes(location, self.mask);
        self.set(a);
        self.set(b);
    }

    /// `false` only when `location` was certainly never inserted.
    pub fn may_contain(&self, location: u64) -> (r: bool)
        requires
            self.wf(),
        ensures
            r == (self.bit(bloom_indexes(location, self.mask_spec()).0 as int) && self.bit(
                bloom_indexes(location, self.mask_spec()).1 as int,
            )),
            r == answers(*self, location),
    {
        let (a, b) = indexes(location, self.mask);
        self.get(a) && self.get(b)
    }
}

/// The two bit indexes of `location` under `mask`.
pub fn indexes(location: u64, mask: usize) -> (r: (usize, usize))
    ensures
        r == bloom_indexes(location, mask),
        r.0 <= mask,
        r.1 <= mask,
{
    let h1 = location.wrapping_mul(BLOOM_MUL);
    let h2 = ((h1 << 17u64) | (h1 >> 47u64)) ^ location;
    proof {
        lemma_mask_below(h1 as usize, mask);
        lemma_mask_below(h2 as usize, mask);
    }
    ((h1 as usize) & mask, (h2 as usize) & mask)
}

/// No false negatives: once a location is inserted, the filter answers
/// "maybe" for it, and later inserts never take that back (bits are only
/// ever set).
pub proof fn law_inserted_is_visible(before: LocBloom, after: LocBloom, location: u64)
    requires
        before.wf(),
        after.wf(),
        after.mask_spec() == before.mask_spec(),
        forall|b: int| #[trigger] after.bit(b) == (before.bit(b) || b == bloom_indexes(
            location,
            before.mask_spec(),
        ).0 || b == bloom_indexes(location, before.mask_spec()).1),
    ensures
        after.bit(bloom_indexes(location, after.mask_spec()).0 as int) && after.bit(
            bloom_indexes(location, after.mask_spec()).1 as int,
        ),
        forall|b: int| before.bit(b) ==> #[trigger] after.bit(b),
{
}

/// What `may_contain(location)` answers on `f`: both of its bits are set.
pub open spec fn answers(f: LocBloom, location: u64) -> bool {
    f.bit(bloom_indexes(location, f.mask_spec()).0 as int) && f.bit(bloom_indexes(location, f.mask_spec()).1 as int)
}

/// `after` is `before` with `location` inserted: same mask, and exactly its
/// two bits added.
pub open spec fn insert_step(before: LocBloom, after: LocBloom, location: u64) -> bool {
    &&& after.wf()
    &&& after.mask_spec() == before.mask_spec()
    &&& forall|b: int| #[trigger] after.bit(b) == (before.bit(b) || b == bloom_indexes(
        location,
        before.mask_spec(),
    ).0 || b == bloom_indexes(location, before.mask_spec()).1)
}

/// A filter used over a run: `run[i + 1]` is `run[i]` after inserting
/// `locs[i]`.
pub open spec fn insert_run(run: Seq<LocBloom>, locs: Seq<u64>) -> bool {
    &&& run.len() == locs.len() + 1
    &&& run[0].wf()
    &&& forall|i: int| 0 <= i < locs.len() ==> insert_step(#[trigger] run[i], run[i + 1], locs[i])
}

/// Over any run of inserts: no false negatives (every inserted location is
/// answered "maybe" from then on, whatever is inserted before or after it),
/// no answer ever turns from "maybe" back to "no", and the mask never
/// changes.
pub proof fn law_no_false_negatives(run: Seq<LocBloom>, locs: Seq<u64>)
    requires
        insert_run(run, locs),
    ensures
        forall|i: int, j: int| 0 <= i < j < run.len() ==> #[trigger] answers(run[j], locs[i]),
        forall|i: int, j: int, y: u64| 0 <= i <= j < run.len() && #[trigger] answers(run[i], y) ==> #[trigger] answers(run[j], y),
        forall|i: int| 0 <= i < run.len() ==> #[trigger] run[i].mask_spec() == run[0].mask_spec(),
{
    assert forall|i: int, j: int| 0 <= i < j < run.len() implies #[trigger] answers(run[j], locs[i]) by {
        lemma_step(run[i], run[i + 1], locs[i]);
        lemma_mono(run, locs, i + 1, j, locs[i]);
    }
    assert forall|i: int, j: int, y: u64| 0 <= i <= j < run.len() && #[trigger] answers(run[i], y) implies #[trigger] answers(run[j], y) by {
        lemma_mono(run, locs, i, j, y);
    }
    assert forall|i: int| 0 <= i < run.len() implies #[trigger] run[i].mask_spec() == run[0].mask_spec() by {
        lemma_mask(run, locs, i);
    }
}

proof fn lemma_step(before: LocBloom, after: LocBloom, location: u64)
    requires
        insert_step(before, after, location),
    ensures
        answers(after, location),
        after.mask_spec() == before.mask_spec(),
        forall|y: u64| #[trigger] answers(before, y) ==> answers(after, y),
{
    assert forall|y: u64| #[trigger] answers(before, y) implies answers(after, y) by {
        let (a, b) = bloom_indexes(y, before.mask_spec());
        assert(after.bit(a as int) == (before.bit(a as int) || a as int == bloom_indexes(location, before.mask_spec()).0 || a as int == bloom_indexes(location, before.mask_spec()).1));
        assert(after.bit(b as int) == (before.bit(b as int) || b as int == bloom_indexes(location, before.mask_spec()).0 || b as int == bloom_indexes(location, before.mask_spec()).1));
    }
    let (a, b) = bloom_indexes(location, before.mask_spec());
    assert(after.bit(a as int) == (before.bit(a as int) || a as int == a as int || a as int == b as int));
    assert(after.bit(b as int) == (before.bit(b as int) || b as int == a as int || b as int == b as int));
}

proof fn lemma_mono(run: Seq<LocBloom>, locs: Seq<u64>, i: int, j: int, y: u64)
    requires
        insert_run(run, locs),
        0 <= i <= j < run.len(),
        answers(run[i], y),
    ensures
        answers(run[j], y),
    decreases j - i,
{
    if i < j {
        assert(insert_step(run[i], run[i + 1], locs[i]));
        lemma_step(run[i], run[i + 1], locs[i]);
        lemma_mono(run, locs, i + 1, j, y);
    }
}

proof fn lemma_mask(run: Seq<LocBloom>, locs: Seq<u64>, j: int)
    requires
        insert_run(run, locs),
        0 <= j < run.len(),
    ensures
        run[j].mask_spec() == run[0].mask_spec(),
    decreases j,
{
    if j > 0 {
        assert(insert_step(run[j - 1], run[j], locs[j - 1]));
        lemma_mask(run, locs, j - 1);
    }
}

} // verus!
