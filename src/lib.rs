//! A counting Bloom filter with a byte-exact wire format.
//!
//! The filter keeps one saturating 32-bit counter per slot. Each key is
//! mapped to `num_hashes` slots; inserting a key raises those counters,
//! removing it lowers them, and a key is reported present when all of its
//! slots are non-zero.

pub mod codec;
pub mod filter;
pub mod hashing;
pub mod laws;

pub use codec::DeserializeError;
pub use filter::CountingBloomFilter;
