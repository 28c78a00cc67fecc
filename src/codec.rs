//! The wire format of a filter: `size` and `num_hashes` as little-endian
//! 64-bit integers, then each counter as a little-endian 32-bit integer.

use vstd::prelude::*;

use crate::filter::{CountingBloomFilter, FilterModel};

verus! {

/// Why a byte buffer is not an encoded filter.
#[derive(Debug, PartialEq, Eq, Structural, Clone, Copy)]
pub enum DeserializeError {
    /// Fewer than sixteen bytes: the header is incomplete.
    TooShort,
    /// The buffer's length differs from what the header's `size` implies.
    LengthMismatch,
}

/// The eight little-endian bytes of `v`.
pub open spec fn u64_le(v: u64) -> Seq<u8> {
    seq![
        (v & 0xff) as u8,
        ((v >> 8) & 0xff) as u8,
        ((v >> 16) & 0xff) as u8,
        ((v >> 24) & 0xff) as u8,
        ((v >> 32) & 0xff) as u8,
        ((v >> 40) & 0xff) as u8,
        ((v >> 48) & 0xff) as u8,
        ((v >> 56) & 0xff) as u8,
    ]
}

/// The four little-endian bytes of `v`.
pub open spec fn u32_le(v: u32) -> Seq<u8> {
    seq![(v & 0xff) as u8, ((v >> 8) & 0xff) as u8, ((v >> 16) & 0xff) as u8, ((v >> 24) & 0xff) as u8]
}

/// The little-endian `u64` held in `b[at..at + 8]`.
pub open spec fn read_u64_le(b: Seq<u8>, at: int) -> u64 {
    (b[at] as u64) | ((b[at + 1] as u64) << 8) | ((b[at + 2] as u64) << 16) | ((b[at + 3] as u64)
        << 24) | ((b[at + 4] as u64) << 32) | ((b[at + 5] as u64) << 40) | ((b[at + 6] as u64)
        << 48) | ((b[at + 7] as u64) << 56)
}

/// The little-endian `u32` held in `b[at..at + 4]`.
pub open spec fn read_u32_le(b: Seq<u8>, at: int) -> u32 {
    (b[at] as u32) | ((b[at + 1] as u32) << 8) | ((b[at + 2] as u32) << 16) | ((b[at + 3] as u32)
        << 24)
}

/// The counters, four bytes each, in order.
pub open spec fn counters_le(c: Seq<u32>) -> Seq<u8>
    decreases c.len(),
{
    if c.len() == 0 {
        Seq::empty()
    } else {
        counters_le(c.drop_last()) + u32_le(c.last())
    }
}

/// The encoding of a filter.
pub open spec fn encode(m: FilterModel) -> Seq<u8> {
    u64_le(m.size as u64) + u64_le(m.num_hashes as u64) + counters_le(m.counters)
}

/// What a byte buffer decodes to.
pub open spec fn decode(b: Seq<u8>) -> Result<FilterModel, DeserializeError> {
    if b.len() < 16 {
        Err(DeserializeError::TooShort)
    } else {
        let size = read_u64_le(b, 0);
        if b.len() != 16 + 4 * size {
            Err(DeserializeError::LengthMismatch)
        } else {
            Ok(
                FilterModel {
                    counters: Seq::new(size as nat, |i: int| read_u32_le(b, 16 + 4 * i)),
                    size: size as usize,
                    num_hashes: read_u64_le(b, 8) as usize,
                },
            )
        }
    }
}

/// Each counter takes four bytes.
pub proof fn lemma_counters_le_len(c: Seq<u32>)
    ensures
        counters_le(c).len() == 4 * c.len(),
    decreases c.len(),
{
    if c.len() > 0 {
        lemma_counters_le_len(c.drop_last());
    }
}

/// Counter `i` sits at bytes `4 * i .. 4 * i + 4` of the counter encoding.
pub proof fn lemma_counters_le_at(c: Seq<u32>, i: int, k: int)
    requires
        0 <= i < c.len(),
        0 <= k < 4,
    ensures
        counters_le(c)[4 * i + k] == u32_le(c[i])[k],
    decreases c.len(),
{
    lemma_counters_le_len(c.drop_last());
    if i < c.len() - 1 {
        lemma_counters_le_at(c.drop_last(), i, k);
    }
}

/// Reading back the eight bytes of `v` gives `v`.
pub proof fn lemma_u64_le_round_trip(v: u64)
    ensures
        read_u64_le(u64_le(v), 0) == v,
{
    assert(v == ((v & 0xff) as u8 as u64) | ((((v >> 8) & 0xff) as u8 as u64) << 8) | ((((v
        >> 16) & 0xff) as u8 as u64) << 16) | ((((v >> 24) & 0xff) as u8 as u64) << 24) | ((((v
        >> 32) & 0xff) as u8 as u64) << 32) | ((((v >> 40) & 0xff) as u8 as u64) << 40) | ((((v
        >> 48) & 0xff) as u8 as u64) << 48) | ((((v >> 56) & 0xff) as u8 as u64) << 56))
        by (bit_vector);
}

/// Reading back the four bytes of `v` gives `v`.
pub proof fn lemma_u32_le_round_trip(v: u32)
    ensures
        read_u32_le(u32_le(v), 0) == v,
{
    assert(v == ((v & 0xff) as u8 as u32) | ((((v >> 8) & 0xff) as u8 as u32) << 8) | ((((v
        >> 16) & 0xff) as u8 as u32) << 16) | ((((v >> 24) & 0xff) as u8 as u32) << 24))
        by (bit_vector);
}

/// Appends the eight little-endian bytes of `v`.
fn push_u64_le(buf: &mut Vec<u8>, v: u64)
    ensures
        final(buf)@ == old(buf)@ + u64_le(v),
{
    buf.push((v & 0xff) as u8);
    buf.push(((v >> 8) & 0xff) as u8);
    buf.push(((v >> 16) & 0xff) as u8);
    buf.push(((v >> 24) & 0xff) as u8);
    buf.push(((v >> 32) & 0xff) as u8);
    buf.push(((v >> 40) & 0xff) as u8);
    buf.push(((v >> 48) & 0xff) as u8);
    buf.push(((v >> 56) & 0xff) as u8);
    assert(final(buf)@ =~= old(buf)@ + u64_le(v));
}

/// Appends the four little-endian bytes of `v`.
fn push_u32_le(buf: &mut Vec<u8>, v: u32)
    ensures
        final(buf)@ == old(buf)@ + u32_le(v),
{
    buf.push((v & 0xff) as u8);
    buf.push(((v >> 8) & 0xff) as u8);
    buf.push(((v >> 16) & 0xff) as u8);
    buf.push(((v >> 24) & 0xff) as u8);
    assert(final(buf)@ =~= old(buf)@ + u32_le(v));
}

/// Reads the little-endian `u64` at `data[at..at + 8]`.
fn get_u64_le(data: &[u8], at: usize) -> (r: u64)
    requires
        at + 8 <= data@.len(),
    ensures
        r == read_u64_le(data@, at as int),
{
    (data[at] as u64) | ((data[at + 1] as u64) << 8) | ((data[at + 2] as u64) << 16) | ((data[at
        + 3] as u64) << 24) | ((data[at + 4] as u64) << 32) | ((data[at + 5] as u64) << 40) | ((
    data[at + 6] as u64) << 48) | ((data[at + 7] as u64) << 56)
}

/// Reads the little-endian `u32` at `data[at..at + 4]`.
fn get_u32_le(data: &[u8], at: usize) -> (r: u32)
    requires
        at + 4 <= data@.len(),
    ensures
        r == read_u32_le(data@, at as int),
{
    (data[at] as u32) | ((data[at + 1] as u32) << 8) | ((data[at + 2] as u32) << 16) | ((data[at
        + 3] as u32) << 24)
}

impl CountingBloomFilter {
    /// Encodes the filter: `size` and `num_hashes` as eight little-endian
    /// bytes each, then every counter as four little-endian bytes.
    pub fn serialize(&self) -> (r: Vec<u8>)
        requires
            self@.wf(),
        ensures
            r@ == encode(self@),
    {
        let mut buf: Vec<u8> = Vec::new();
        push_u64_le(&mut buf, self.size() as u64);
        push_u64_le(&mut buf, self.num_hashes() as u64);
        let counters = self.counters();
        let mut i: usize = 0;
        while i < counters.len()
            invariant
                counters@ == self@.counters,
                i <= counters@.len(),
                buf@ == u64_le(self@.size as u64) + u64_le(self@.num_hashes as u64) + counters_le(
                    counters@.subrange(0, i as int),
                ),
            decreases counters@.len() - i,
        {
            proof {
                assert(counters@.subrange(0, i + 1).drop_last() =~= counters@.subrange(0, i as int));
            }
            push_u32_le(&mut buf, counters[i]);
            i = i + 1;
        }
        assert(counters@.subrange(0, counters@.len() as int) =~= counters@);
        buf
    }

    /// Decodes a filter from the format that `serialize` writes. Fails with
    /// `TooShort` below sixteen bytes, and with `LengthMismatch` when the
    /// length is not sixteen plus four bytes per counter that the header
    /// declares.
    pub fn deserialize(data: &[u8]) -> (r: Result<Self, DeserializeError>)
        ensures
            match decode(data@) {
                Ok(m) => r is Ok && r->Ok_0@ == m,
                Err(e) => r == Err::<Self, DeserializeError>(e),
            },
            r is Ok ==> r->Ok_0@.wf(),
    {
        if data.len() < 16 {
            return Err(DeserializeError::TooShort);
        }
        let size = get_u64_le(data, 0);
        let num_hashes = get_u64_le(data, 8);
        let body = data.len() - 16;
        if body % 4 != 0 || (body / 4) as u64 != size {
            return Err(DeserializeError::LengthMismatch);
        }
        assert(data@.len() == 16 + 4 * size);
        let size = size as usize;
        let mut counters: Vec<u32> = Vec::new();
        let mut i: usize = 0;
        while i < size
            invariant
                data@.len() == 16 + 4 * size,
                data@.len() <= usize::MAX,
                i <= size,
                counters@.len() == i,
                forall|k: int| 0 <= k < i ==> counters@[k] == read_u32_le(data@, 16 + 4 * k),
            decreases size - i,
        {
            counters.push(get_u32_le(data, 16 + 4 * i));
            i = i + 1;
        }
        let r = CountingBloomFilter::from_parts(
            counters,
            size,
            #[verifier::truncate]
            (num_hashes as usize),
        );
        assert(r@.counters =~= decode(data@)->Ok_0.counters);
        Ok(r)
    }
}

} // verus!
