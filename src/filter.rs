//! The counting Bloom filter and its operations.

use vstd::prelude::*;

use crate::hashing::{digest, probe_digest};

verus! {

/// The mathematical content of a filter: its counters and the two
/// parameters fixed when it was made.
pub struct FilterModel {
    pub counters: Seq<u32>,
    pub size: usize,
    pub num_hashes: usize,
}

/// The probe number that is mixed into the digest for the `i`-th probe.
pub open spec fn probe_of(i: int) -> u32 {
    (i % 0x1_0000_0000) as u32
}

/// The slot that the `i`-th probe of `key` lands on.
pub open spec fn slot(key: Seq<char>, i: int, size: usize) -> int {
    (probe_digest(key, probe_of(i)) as int) % (size as int)
}

/// How many of the first `n` probes of `key` land on slot `j`.
pub open spec fn hits(key: Seq<char>, n: int, size: usize, j: int) -> nat
    decreases n,
{
    if n <= 0 {
        0
    } else {
        hits(key, n - 1, size, j) + if slot(key, n - 1, size) == j {
            1nat
        } else {
            0nat
        }
    }
}

/// A counter value clamped to the range of `u32`.
pub open spec fn clamp(x: int) -> u32 {
    if x > u32::MAX {
        u32::MAX
    } else if x < 0 {
        0
    } else {
        x as u32
    }
}

/// The sum of all counters.
pub open spec fn total(c: Seq<u32>) -> int
    decreases c.len(),
{
    if c.len() == 0 {
        0
    } else {
        total(c.drop_last()) + c.last()
    }
}

impl FilterModel {
    /// The counter array has exactly `size` slots.
    pub open spec fn wf(self) -> bool {
        self.counters.len() == self.size
    }

    /// Probing is possible: there is a slot to land on, or no probe at all.
    pub open spec fn can_probe(self) -> bool {
        self.size > 0 || self.num_hashes == 0
    }

    /// How many probes of `key` land on slot `j`.
    pub open spec fn hit_count(self, key: Seq<char>, j: int) -> nat {
        hits(key, self.num_hashes as int, self.size, j)
    }

    /// The filter after one insertion of `key`: each slot rises by the
    /// number of probes that land on it, clamped at the counter maximum.
    pub open spec fn inserted(self, key: Seq<char>) -> FilterModel {
        FilterModel {
            counters: Seq::new(
                self.counters.len(),
                |j: int| clamp(self.counters[j] + self.hit_count(key, j)),
            ),
            ..self
        }
    }

    /// The filter after one removal of `key`: each slot falls by the number
    /// of probes that land on it, stopping at zero.
    pub open spec fn removed(self, key: Seq<char>) -> FilterModel {
        FilterModel {
            counters: Seq::new(
                self.counters.len(),
                |j: int| clamp(self.counters[j] - self.hit_count(key, j)),
            ),
            ..self
        }
    }

    /// Every probe of `key` lands on a non-zero counter.
    pub open spec fn holds(self, key: Seq<char>) -> bool {
        forall|i: int|
            0 <= i < self.num_hashes ==> #[trigger] self.counters[slot(key, i, self.size)] > 0
    }
}

/// A counting Bloom filter over string keys.
///
/// Counters are `u32` so that a key may be inserted more than once; they
/// saturate at `u32::MAX` and never go below zero.
pub struct CountingBloomFilter {
    counters: Vec<u32>,
    size: usize,
    num_hashes: usize,
}

impl View for CountingBloomFilter {
    type V = FilterModel;

    closed spec fn view(&self) -> FilterModel {
        FilterModel { counters: self.counters@, size: self.size, num_hashes: self.num_hashes }
    }
}

impl CountingBloomFilter {
    /// Creates a filter of `size` counters, all zero, probed `num_hashes`
    /// times per key.
    pub fn new(size: usize, num_hashes: usize) -> (r: Self)
        ensures
            r@.wf(),
            r@.size == size,
            r@.num_hashes == num_hashes,
            r@.counters == Seq::new(size as nat, |j: int| 0u32),
    {
        let counters = vec![0u32; size];
        let r = CountingBloomFilter { counters, size, num_hashes };
        assert(r@.counters =~= Seq::new(size as nat, |j: int| 0u32));
        r
    }

    /// Assembles a filter from its fields as decoded.
    pub(crate) fn from_parts(counters: Vec<u32>, size: usize, num_hashes: usize) -> (r: Self)
        ensures
            r@ == (FilterModel { counters: counters@, size, num_hashes }),
    {
        CountingBloomFilter { counters, size, num_hashes }
    }

    /// The number of counter slots.
    pub fn size(&self) -> (r: usize)
        ensures
            r == self@.size,
    {
        self.size
    }

    /// The number of probes per key.
    pub fn num_hashes(&self) -> (r: usize)
        ensures
            r == self@.num_hashes,
    {
        self.num_hashes
    }

    /// The counters, in slot order.
    pub fn counters(&self) -> (r: &Vec<u32>)
        ensures
            r@ == self@.counters,
    {
        &self.counters
    }

    /// The sum of all counters: the fill level from which the expected
    /// false-positive rate is estimated.
    pub fn counter_total(&self) -> (r: u128)
        ensures
            r == total(self@.counters),
    {
        let mut sum: u128 = 0;
        let mut i: usize = 0;
        while i < self.counters.len()
            invariant
                i <= self.counters@.len(),
                sum == total(self.counters@.subrange(0, i as int)),
                sum <= i * 0xffff_ffffu128,
            decreases self.counters@.len() - i,
        {
            proof {
                assert(self.counters@.subrange(0, i + 1).drop_last() =~= self.counters@.subrange(
                    0,
                    i as int,
                ));
                assert(i * 0xffff_ffffu128 <= 0xffff_ffff_ffff_ffffu128 * 0xffff_ffffu128)
                    by (nonlinear_arith)
                    requires
                        i <= 0xffff_ffff_ffff_ffffu128,
                ;
            }
            sum = sum + self.counters[i] as u128;
            i = i + 1;
        }
        assert(self.counters@.subrange(0, i as int) =~= self.counters@);
        sum
    }

    /// The slots of the probes of `item`, in probe order.
    fn get_hash_indices(&self, item: &str) -> (r: Vec<usize>)
        requires
            self@.can_probe(),
        ensures
            r@.len() == self@.num_hashes,
            forall|i: int| 0 <= i < r@.len() ==> r@[i] as int == slot(item@, i, self@.size),
    {
        let mut r: Vec<usize> = Vec::new();
        let mut i: usize = 0;
        while i < self.num_hashes
            invariant
                self@.can_probe(),
                i <= self@.num_hashes,
                r@.len() == i,
                forall|k: int| 0 <= k < i ==> r@[k] as int == slot(item@, k, self@.size),
            decreases self.num_hashes - i,
        {
            let probe = (i as u64 % 0x1_0000_0000u64) as u32;
            let d = digest(item, probe);
            r.push((d % self.size as u64) as usize);
            i = i + 1;
        }
        r
    }

    /// Adds one occurrence of `item`.
    pub fn insert(&mut self, item: &str)
        requires
            old(self)@.wf(),
            old(self)@.can_probe(),
        ensures
            final(self)@ == old(self)@.inserted(item@),
    {
        let indices = self.get_hash_indices(item);
        let mut k: usize = 0;
        while k < indices.len()
            invariant
                indices@.len() == self@.num_hashes,
                forall|i: int|
                    0 <= i < indices@.len() ==> indices@[i] as int == slot(item@, i, self@.size),
                self@.size == old(self)@.size,
                self@.num_hashes == old(self)@.num_hashes,
                self@.wf(),
                old(self)@.wf(),
                old(self)@.can_probe(),
                k <= indices@.len(),
                forall|j: int|
                    0 <= j < self@.size ==> #[trigger] self@.counters[j] == clamp(
                        old(self)@.counters[j] + hits(item@, k as int, self@.size, j),
                    ),
            decreases indices@.len() - k,
        {
            let index = indices[k];
            let c = self.counters[index];
            self.counters.set(index, c.saturating_add(1));
            k = k + 1;
        }
        assert(self@.counters =~= old(self)@.inserted(item@).counters);
    }

    /// Removes one occurrence of `item`; counters already at zero stay there.
    pub fn remove(&mut self, item: &str)
        requires
            old(self)@.wf(),
            old(self)@.can_probe(),
        ensures
            final(self)@ == old(self)@.removed(item@),
    {
        let indices = self.get_hash_indices(item);
        let mut k: usize = 0;
        while k < indices.len()
            invariant
                indices@.len() == self@.num_hashes,
                forall|i: int|
                    0 <= i < indices@.len() ==> indices@[i] as int == slot(item@, i, self@.size),
                self@.size == old(self)@.size,
                self@.num_hashes == old(self)@.num_hashes,
                self@.wf(),
                old(self)@.wf(),
                old(self)@.can_probe(),
                k <= indices@.len(),
                forall|j: int|
                    0 <= j < self@.size ==> #[trigger] self@.counters[j] == clamp(
                        old(self)@.counters[j] - hits(item@, k as int, self@.size, j),
                    ),
            decreases indices@.len() - k,
        {
            let index = indices[k];
            let c = self.counters[index];
            if c > 0 {
                self.counters.set(index, c - 1);
            }
            k = k + 1;
        }
        assert(self@.counters =~= old(self)@.removed(item@).counters);
    }

    /// Whether `item` may be present: every probe of it lands on a non-zero
    /// counter.
    pub fn contains(&self, item: &str) -> (r: bool)
        requires
            self@.wf(),
            self@.can_probe(),
        ensures
            r == self@.holds(item@),
    {
        let indices = self.get_hash_indices(item);
        let mut k: usize = 0;
        while k < indices.len()
            invariant
                indices@.len() == self@.num_hashes,
                forall|i: int|
                    0 <= i < indices@.len() ==> indices@[i] as int == slot(item@, i, self@.size),
                self@.wf(),
                self@.can_probe(),
                k <= indices@.len(),
                forall|i: int| 0 <= i < k ==> self@.counters[slot(item@, i, self@.size)] > 0,
            decreases indices@.len() - k,
        {
            let index = indices[k];
            if self.counters[index] == 0 {
                assert(self@.counters[slot(item@, k as int, self@.size)] == 0);
                return false;
            }
            k = k + 1;
        }
        true
    }
}

} // verus!
