//! The digest that places a key's probes.

use vstd::prelude::*;

verus! {

/// The 64-bit digest of the pair `(key, probe)` under std's `DefaultHasher`.
pub uninterp spec fn probe_digest(key: Seq<char>, probe: u32) -> u64;

/// Relies on `BuildHasher::hash_one` with `BuildHasherDefault<DefaultHasher>`:
/// a `DefaultHasher` built this way always starts from the same fixed keys,
/// so the digest is a function of `key` and `probe` alone.
#[verifier::external_body]
pub(crate) fn digest(key: &str, probe: u32) -> (r: u64)
    ensures
        r == probe_digest(key@, probe),
{
    let builder = std::hash::BuildHasherDefault::<std::collections::hash_map::DefaultHasher>::default();
    std::hash::BuildHasher::hash_one(&builder, (key, probe))
}

} // verus!
