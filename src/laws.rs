//! Properties that relate several operations of the filter.

use vstd::prelude::*;

use crate::codec::{
    counters_le, decode, encode, lemma_counters_le_at, lemma_counters_le_len,
    lemma_u32_le_round_trip, lemma_u64_le_round_trip, read_u32_le, read_u64_le, u32_le, u64_le,
};
use crate::filter::{clamp, hits, slot, FilterModel};

verus! {

/// The filter after `n` insertions of `key`.
pub open spec fn inserted_times(m: FilterModel, key: Seq<char>, n: nat) -> FilterModel
    decreases n,
{
    if n == 0 {
        m
    } else {
        inserted_times(m, key, (n - 1) as nat).inserted(key)
    }
}

/// The filter after `n` removals of `key`.
pub open spec fn removed_times(m: FilterModel, key: Seq<char>, n: nat) -> FilterModel
    decreases n,
{
    if n == 0 {
        m
    } else {
        removed_times(m, key, (n - 1) as nat).removed(key)
    }
}

/// Decoding the encoding of a well-formed filter gives back the same size,
/// number of probes and counters, and hence the same answer for every key.
pub proof fn lemma_round_trip(m: FilterModel)
    requires
        m.wf(),
    ensures
        decode(encode(m)) == Ok::<FilterModel, crate::codec::DeserializeError>(m),
        forall|key: Seq<char>| decode(encode(m))->Ok_0.holds(key) == m.holds(key),
{
    let b = encode(m);
    let h1 = u64_le(m.size as u64);
    let h2 = u64_le(m.num_hashes as u64);
    let body = counters_le(m.counters);
    lemma_counters_le_len(m.counters);
    lemma_u64_le_round_trip(m.size as u64);
    lemma_u64_le_round_trip(m.num_hashes as u64);
    assert(b.subrange(0, 8) =~= h1);
    assert(b.subrange(8, 16) =~= h2);
    assert(read_u64_le(b, 0) == read_u64_le(h1, 0));
    assert(read_u64_le(b, 8) == read_u64_le(h2, 0));
    let c = Seq::new(m.size as nat, |i: int| read_u32_le(b, 16 + 4 * i));
    assert forall|i: int| 0 <= i < m.size implies c[i] == m.counters[i] by {
        lemma_counters_le_at(m.counters, i, 0);
        lemma_counters_le_at(m.counters, i, 1);
        lemma_counters_le_at(m.counters, i, 2);
        lemma_counters_le_at(m.counters, i, 3);
        lemma_u32_le_round_trip(m.counters[i]);
        assert(read_u32_le(b, 16 + 4 * i) == read_u32_le(u32_le(m.counters[i]), 0));
    }
    assert(c =~= m.counters);
}

/// Any buffer shorter than the sixteen-byte header is rejected, and so is
/// the encoding of any filter with its last byte cut off.
pub proof fn lemma_malformed_rejected(m: FilterModel, short: Seq<u8>)
    requires
        m.wf(),
        short.len() < 16,
    ensures
        decode(short) is Err,
        decode(encode(m).drop_last()) is Err,
{
    let b = encode(m);
    let t = b.drop_last();
    lemma_counters_le_len(m.counters);
    lemma_round_trip(m);
    if t.len() >= 16 {
        assert(read_u64_le(t, 0) == read_u64_le(b, 0));
    }
}

/// Inserting `key` `n` times raises each slot by `n` times its number of
/// probe hits, clamped at `u32::MAX` rather than wrapping.
pub proof fn lemma_repeated_insert_saturates(m: FilterModel, key: Seq<char>, n: nat)
    requires
        m.wf(),
    ensures
        inserted_times(m, key, n).wf(),
        inserted_times(m, key, n).size == m.size,
        inserted_times(m, key, n).num_hashes == m.num_hashes,
        forall|j: int|
            0 <= j < m.size ==> #[trigger] inserted_times(m, key, n).counters[j] == clamp(
                m.counters[j] + n * m.hit_count(key, j),
            ),
    decreases n,
{
    if n > 0 {
        lemma_repeated_insert_saturates(m, key, (n - 1) as nat);
        assert forall|j: int| 0 <= j < m.size implies #[trigger] inserted_times(
            m,
            key,
            n,
        ).counters[j] == clamp(m.counters[j] + n * m.hit_count(key, j)) by {
            let h = m.hit_count(key, j);
            assert(n * h == (n - 1) * h + h) by (nonlinear_arith);
            assert((n - 1) * h >= 0) by (nonlinear_arith)
                requires
                    n >= 1,
            ;
        }
    }
}

/// Removing `key` `n` times lowers each slot by `n` times its number of
/// probe hits, stopping at zero rather than going below it.
pub proof fn lemma_repeated_remove_floors(m: FilterModel, key: Seq<char>, n: nat)
    requires
        m.wf(),
    ensures
        removed_times(m, key, n).wf(),
        removed_times(m, key, n).size == m.size,
        removed_times(m, key, n).num_hashes == m.num_hashes,
        forall|j: int|
            0 <= j < m.size ==> #[trigger] removed_times(m, key, n).counters[j] == clamp(
                m.counters[j] - n * m.hit_count(key, j),
            ),
    decreases n,
{
    if n > 0 {
        lemma_repeated_remove_floors(m, key, (n - 1) as nat);
        assert forall|j: int| 0 <= j < m.size implies #[trigger] removed_times(
            m,
            key,
            n,
        ).counters[j] == clamp(m.counters[j] - n * m.hit_count(key, j)) by {
            let h = m.hit_count(key, j);
            assert(n * h == (n - 1) * h + h) by (nonlinear_arith);
            assert((n - 1) * h >= 0) by (nonlinear_arith)
                requires
                    n >= 1,
            ;
        }
    }
}

/// Every probe among the first `n` counts as a hit on its own slot, and no
/// slot is hit more than `n` times.
pub proof fn lemma_hits_bounds(key: Seq<char>, n: int, size: usize, i: int, j: int)
    requires
        0 <= i < n,
    ensures
        hits(key, n, size, slot(key, i, size)) >= 1,
        hits(key, n, size, j) <= n,
    decreases n,
{
    assert(hits(key, 0, size, j) == 0);
    if n > 1 {
        if i < n - 1 {
            lemma_hits_bounds(key, n - 1, size, i, j);
        } else {
            lemma_hits_bounds(key, n - 1, size, 0, j);
        }
    }
}

/// A key inserted `n` times and then removed fewer than `n` times is still
/// reported present. The removals must not be able to empty a saturated
/// counter, which `removals * num_hashes < u32::MAX` ensures.
pub proof fn lemma_no_false_negatives(
    m: FilterModel,
    key: Seq<char>,
    insertions: nat,
    removals: nat,
)
    requires
        m.wf(),
        m.can_probe(),
        removals < insertions,
        removals * m.num_hashes < u32::MAX,
    ensures
        removed_times(inserted_times(m, key, insertions), key, removals).holds(key),
{
    let a = inserted_times(m, key, insertions);
    let z = removed_times(a, key, removals);
    lemma_repeated_insert_saturates(m, key, insertions);
    lemma_repeated_remove_floors(a, key, removals);
    assert forall|i: int| 0 <= i < z.num_hashes implies #[trigger] z.counters[slot(
        key,
        i,
        z.size,
    )] > 0 by {
        let s = slot(key, i, m.size);
        lemma_hits_bounds(key, m.num_hashes as int, m.size, i, s);
        let h = m.hit_count(key, s);
        assert(a.hit_count(key, s) == h);
        assert(0 <= s < m.size);
        let c0 = m.counters[s] as int;
        assert(insertions * h >= removals * h + h) by (nonlinear_arith)
            requires
                removals < insertions,
                h >= 1,
        ;
        assert(removals * h <= removals * m.num_hashes) by (nonlinear_arith)
            requires
                h <= m.num_hashes,
        ;
    }
}

/// Right after `key` is inserted, it is reported present.
pub proof fn lemma_inserted_key_present(m: FilterModel, key: Seq<char>)
    requires
        m.wf(),
        m.can_probe(),
    ensures
        m.inserted(key).holds(key),
{
    lemma_no_false_negatives(m, key, 1, 0);
    assert(inserted_times(m, key, 0) == m);
    assert(removed_times(m.inserted(key), key, 0) == m.inserted(key));
}

/// Inserting any key keeps every key that was reported present reported
/// present: insertion never lowers a counter.
pub proof fn lemma_insert_keeps_present(m: FilterModel, key: Seq<char>, other: Seq<char>)
    requires
        m.wf(),
        m.can_probe(),
        m.holds(key),
    ensures
        m.inserted(other).holds(key),
{
    let a = m.inserted(other);
    assert forall|i: int| 0 <= i < a.num_hashes implies #[trigger] a.counters[slot(
        key,
        i,
        a.size,
    )] > 0 by {
        assert(m.counters[slot(key, i, m.size)] > 0);
    }
}

} // verus!
