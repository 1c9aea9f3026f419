//! Bloom filters over byte strings: each item sets a few bits chosen by
//! seeded hashes, and an item whose bits are all set may have been added.

use vstd::prelude::*;
use std::collections::hash_map::DefaultHasher;
use std::hash::Hasher;
use vstd::std_specs::hash::DefaultHasherAdditionalSpecFns;

verus! {

/// The eight little-endian bytes of a number.
pub open spec fn le_bytes(x: u64) -> Seq<u8> {
    Seq::new(8, |i: int| ((x >> (8 * i) as u64) & 0xff) as u8)
}

/// The eight little-endian bytes of a number, computed.
pub fn u64_le_bytes(x: u64) -> (r: [u8; 8])
    ensures
        r@ == le_bytes(x),
{
    let r = [
        (x & 0xff) as u8,
        ((x >> 8u64) & 0xff) as u8,
        ((x >> 16u64) & 0xff) as u8,
        ((x >> 24u64) & 0xff) as u8,
        ((x >> 32u64) & 0xff) as u8,
        ((x >> 40u64) & 0xff) as u8,
        ((x >> 48u64) & 0xff) as u8,
        ((x >> 56u64) & 0xff) as u8,
    ];
    proof {
        assert(x >> 0u64 == x) by (bit_vector);
        assert(r@ =~= le_bytes(x));
    }
    r
}

/// The bit that the hash with a seed picks for an item among `num_bits`:
/// the default hasher fed the seed's bytes and then the item.
pub open spec fn bloom_position(item: Seq<u8>, seed: u64, num_bits: usize) -> int {
    ((DefaultHasher::spec_finish(seq![le_bytes(seed), item]) as usize) % num_bits) as int
}

/// Whether bit `pos` of a list of 64-bit words is set.
pub open spec fn bit_at(words: Seq<u64>, pos: int) -> bool {
    (words[pos / 64] >> ((pos % 64) as u64)) & 1 == 1
}

/// Whether every bit that the filter's hashes pick for an item is set.
pub open spec fn all_bits_set(words: Seq<u64>, item: Seq<u8>, num_bits: usize, num_hashes: usize) -> bool {
    forall|i: int| 0 <= i < num_hashes ==> #[trigger] bit_at(words, bloom_position(item, i as u64, num_bits))
}

proof fn lemma_set_bit(w: u64, k: u64, j: u64)
    requires
        k < 64,
        j < 64,
    ensures
        ((w | (1u64 << k)) >> k) & 1 == 1,
        (w >> j) & 1 == 1 ==> ((w | (1u64 << k)) >> j) & 1 == 1,
        (w & (1u64 << k) == 0) <==> ((w >> k) & 1 != 1),
{
    assert(((w | (1u64 << k)) >> k) & 1 == 1) by (bit_vector)
        requires k < 64;
    assert((w >> j) & 1 == 1 ==> ((w | (1u64 << k)) >> j) & 1 == 1) by (bit_vector)
        requires k < 64, j < 64;
    assert((w & (1u64 << k) == 0) <==> ((w >> k) & 1 != 1)) by (bit_vector)
        requires k < 64;
}

/// A Bloom filter of `num_bits` bits kept in 64-bit words, with
/// `num_hashes` seeded hashes per item.
#[derive(Debug, Clone)]
pub struct BloomFilter {
    bit_array: Vec<u64>,
    num_bits: usize,
    num_hashes: usize,
}

impl BloomFilter {
    /// The words that hold the bits.
    pub closed spec fn words(&self) -> Seq<u64> {
        self.bit_array@
    }

    /// The number of bits.
    pub closed spec fn spec_num_bits(&self) -> usize {
        self.num_bits
    }

    /// The number of hashes per item.
    pub closed spec fn spec_num_hashes(&self) -> usize {
        self.num_hashes
    }

    /// Whether the words hold every bit.
    pub open spec fn covers_bits(&self) -> bool {
        self.words().len() * 64 >= self.spec_num_bits()
    }

    /// Whether the filter has at least one bit and words for all of them.
    pub open spec fn wf(&self) -> bool {
        self.spec_num_bits() >= 1 && self.covers_bits()
    }

    /// Whether every bit that the hashes pick for the item is set.
    pub open spec fn may_hold(&self, item: Seq<u8>) -> bool {
        all_bits_set(self.words(), item, self.spec_num_bits(), self.spec_num_hashes())
    }

    /// An empty filter of the given size: at least one bit and one hash,
    /// in as many words as the bits need (at least one).
    pub fn from_sizes(num_bits: usize, num_hashes: usize) -> (r: Self)
        ensures
            r.spec_num_bits() == if num_bits == 0 { 1 } else { num_bits },
            r.spec_num_hashes() == if num_hashes == 0 { 1 } else { num_hashes },
            r.words().len() == if num_bits == 0 { 1 } else { (num_bits + 63) / 64 },
            forall|i: int| 0 <= i < r.words().len() ==> r.words()[i] == 0,
            r.wf(),
    {
        let num_words = num_bits / 64 + if num_bits % 64 == 0 { 0 } else { 1 };
        let num_words = if num_words == 0 { 1 } else { num_words };
        let mut bit_array: Vec<u64> = Vec::new();
        let mut i: usize = 0;
        while i < num_words
            invariant
                i <= num_words,
                bit_array@.len() == i,
                forall|j: int| 0 <= j < i ==> bit_array@[j] == 0,
            decreases num_words - i,
        {
            bit_array.push(0);
            i = i + 1;
        }
        let nb = if num_bits == 0 { 1 } else { num_bits };
        let nh = if num_hashes == 0 { 1 } else { num_hashes };
        BloomFilter { bit_array, num_bits: nb, num_hashes: nh }
    }

    /// The words that hold the bits.
    pub fn get_bit_array(&self) -> (r: &Vec<u64>)
        ensures
            r@ == self.words(),
    {
        &self.bit_array
    }

    /// Replaces the words that hold the bits.
    pub fn set_bit_array(&mut self, bit_array: Vec<u64>)
        ensures
            final(self).words() == bit_array@,
            final(self).spec_num_bits() == old(self).spec_num_bits(),
            final(self).spec_num_hashes() == old(self).spec_num_hashes(),
    {
        self.bit_array = bit_array;
    }

    fn hash(&self, item: &[u8], seed: u64) -> (r: usize)
        requires
            self.spec_num_bits() >= 1,
        ensures
            r == bloom_position(item@, seed, self.spec_num_bits()),
            r < self.spec_num_bits(),
    {
        let mut hasher = DefaultHasher::new();
        let seed_bytes = u64_le_bytes(seed);
        hasher.write(&seed_bytes);
        hasher.write(item);
        proof { assert(hasher@ =~= seq![le_bytes(seed), item@]); }
        (hasher.finish() as usize) % self.num_bits
    }

    /// Adds an item: sets the bit that each hash picks for it.
    pub fn insert(&mut self, item: &[u8])
        requires
            old(self).wf(),
        ensures
            final(self).wf(),
            final(self).spec_num_bits() == old(self).spec_num_bits(),
            final(self).spec_num_hashes() == old(self).spec_num_hashes(),
            final(self).words().len() == old(self).words().len(),
            final(self).may_hold(item@),
            forall|p: int| 0 <= p < old(self).spec_num_bits() && #[trigger] bit_at(old(self).words(), p) ==> bit_at(final(self).words(), p),
    {
        let ghost start = self.bit_array@;
        let mut i: usize = 0;
        while i < self.num_hashes
            invariant
                self.num_bits == old(self).num_bits,
                self.num_hashes == old(self).num_hashes,
                self.num_bits >= 1,
                self.bit_array@.len() == start.len(),
                self.bit_array@.len() * 64 >= self.num_bits,
                i <= self.num_hashes,
                forall|j: int| 0 <= j < i ==> #[trigger] bit_at(self.bit_array@, bloom_position(item@, j as u64, self.num_bits)),
                forall|p: int| 0 <= p < self.num_bits && #[trigger] bit_at(start, p) ==> bit_at(self.bit_array@, p),
            decreases self.num_hashes - i,
        {
            let pos = self.hash(item, i as u64);
            let w = pos / 64;
            let k = (pos % 64) as u64;
            let ghost before = self.bit_array@;
            let old_word = self.bit_array[w];
            let new_word = old_word | (1u64 << k);
            let mut bits: Vec<u64> = Vec::new();
            std::mem::swap(&mut bits, &mut self.bit_array);
            bits.set(w, new_word);
            self.bit_array = bits;
            proof {
                lemma_set_bit(old_word, k, k);
                assert(bit_at(self.bit_array@, pos as int));
                assert forall|j: int| 0 <= j <= i implies #[trigger] bit_at(self.bit_array@, bloom_position(item@, j as u64, self.num_bits)) by {
                    let q = bloom_position(item@, j as u64, self.num_bits);
                    if j < i {
                        assert(bit_at(before, q));
                        if q / 64 == w as int {
                            lemma_set_bit(old_word, k, (q % 64) as u64);
                        }
                    }
                }
                assert forall|p: int| 0 <= p < self.num_bits && #[trigger] bit_at(start, p) implies bit_at(self.bit_array@, p) by {
                    assert(bit_at(before, p));
                    if p / 64 == w as int {
                        lemma_set_bit(old_word, k, (p % 64) as u64);
                    }
                }
            }
            i = i + 1;
        }
    }

    /// Whether the item may have been added: whether every bit that its
    /// hashes pick is set.
    pub fn contains(&self, item: &[u8]) -> (r: bool)
        requires
            self.wf(),
        ensures
            r == self.may_hold(item@),
    {
        let mut i: usize = 0;
        while i < self.num_hashes
            invariant
                self.num_bits >= 1,
                self.bit_array@.len() * 64 >= self.num_bits,
                i <= self.num_hashes,
                forall|j: int| 0 <= j < i ==> #[trigger] bit_at(self.bit_array@, bloom_position(item@, j as u64, self.num_bits)),
            decreases self.num_hashes - i,
        {
            let pos = self.hash(item, i as u64);
            let k = (pos % 64) as u64;
            let word = self.bit_array[pos / 64];
            proof { lemma_set_bit(word, k, k); }
            if word & (1u64 << k) == 0 {
                assert(!bit_at(self.bit_array@, bloom_position(item@, i as u64, self.num_bits)));
                return false;
            }
            i = i + 1;
        }
        true
    }

    /// Clears every bit.
    pub fn clear(&mut self)
        ensures
            final(self).words().len() == old(self).words().len(),
            forall|i: int| 0 <= i < final(self).words().len() ==> final(self).words()[i] == 0,
            final(self).spec_num_bits() == old(self).spec_num_bits(),
            final(self).spec_num_hashes() == old(self).spec_num_hashes(),
    {
        let n = self.bit_array.len();
        let mut bits: Vec<u64> = Vec::new();
        let mut i: usize = 0;
        while i < n
            invariant
                i <= n,
                bits@.len() == i,
                forall|j: int| 0 <= j < i ==> bits@[j] == 0,
            decreases n - i,
        {
            bits.push(0);
            i = i + 1;
        }
        self.bit_array = bits;
    }

    /// The number of bits.
    pub fn len(&self) -> (r: usize)
        ensures
            r == self.spec_num_bits(),
    {
        self.num_bits
    }

    /// Whether the filter has no bits.
    pub fn is_empty(&self) -> (r: bool)
        ensures
            r == (self.spec_num_bits() == 0),
    {
        self.num_bits == 0
    }
}

/// A Bloom filter has no false negatives: an item that was added is
/// reported as possibly present, and so are the items added before it,
/// whatever was added after.
pub proof fn law_added_items_stay_present(before: Seq<u64>, after: Seq<u64>, item: Seq<u8>, num_bits: usize, num_hashes: usize)
    requires
        num_bits >= 1,
        all_bits_set(before, item, num_bits, num_hashes),
        forall|p: int| 0 <= p < num_bits && #[trigger] bit_at(before, p) ==> bit_at(after, p),
    ensures
        all_bits_set(after, item, num_bits, num_hashes),
{
    assert forall|i: int| 0 <= i < num_hashes implies #[trigger] bit_at(after, bloom_position(item, i as u64, num_bits)) by {
        let q = bloom_position(item, i as u64, num_bits);
        assert(bit_at(before, q));
        assert(0 <= q < num_bits);
    }
}

/// A cleared filter reports no item as possibly present: with every word
/// zero, no bit that a hash picks is set.
pub proof fn law_cleared_filter_holds_nothing(words: Seq<u64>, item: Seq<u8>, num_bits: usize, num_hashes: usize)
    requires
        num_bits >= 1,
        num_hashes >= 1,
        words.len() * 64 >= num_bits,
        forall|i: int| 0 <= i < words.len() ==> words[i] == 0,
    ensures
        !all_bits_set(words, item, num_bits, num_hashes),
{
    let q = bloom_position(item, (0int) as u64, num_bits);
    assert(0 <= q < num_bits);
    assert(0 <= q / 64 < words.len()) by (nonlinear_arith)
        requires 0 <= q < num_bits, words.len() * 64 >= num_bits;
    let k = (q % 64) as u64;
    assert(words[q / 64] == 0);
    assert((0u64 >> k) & 1 != 1) by (bit_vector);
    assert(!bit_at(words, q));
    if all_bits_set(words, item, num_bits, num_hashes) {
        assert(bit_at(words, bloom_position(item, (0int) as u64, num_bits)));
    }
}

} // verus!
