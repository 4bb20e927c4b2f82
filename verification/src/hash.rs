//! The FNV-1a hash and the checksums built on it.

use vstd::prelude::*;

verus! {

/// Initial state of the 64-bit FNV-1a hash.
pub const FNV_OFFSET: u64 = 0xcbf2_9ce4_8422_2325;

/// Multiplier of the 64-bit FNV-1a hash.
pub const FNV_PRIME: u64 = 0x0000_0100_0000_01b3;

/// Feeds one byte into the hash.
pub open spec fn fnv_step(state: u64, byte: u8) -> u64 {
    (state ^ (byte as u64)).wrapping_mul(FNV_PRIME)
}

/// Feeds bytes into the hash, the first one first.
pub open spec fn fnv_fold(state: u64, bytes: Seq<u8>) -> u64
    decreases bytes.len(),
{
    if bytes.len() == 0 {
        state
    } else {
        fnv_step(fnv_fold(state, bytes.drop_last()), bytes.last())
    }
}

/// The FNV-1a hash of a byte string.
pub open spec fn fnv(bytes: Seq<u8>) -> u64 {
    fnv_fold(FNV_OFFSET, bytes)
}

/// Feeding a concatenation is feeding its parts in turn.
pub proof fn lemma_fnv_fold_concat(state: u64, a: Seq<u8>, b: Seq<u8>)
    ensures
        fnv_fold(state, a + b) == fnv_fold(fnv_fold(state, a), b),
    decreases b.len(),
{
    if b.len() == 0 {
        assert(a + b =~= a);
    } else {
        assert((a + b).drop_last() =~= a + b.drop_last());
        lemma_fnv_fold_concat(state, a, b.drop_last());
    }
}

/// Feeds bytes into the hash.
pub fn fnv_update(state: u64, bytes: &[u8]) -> (r: u64)
    ensures
        r == fnv_fold(state, bytes@),
{
    let mut hash: u64 = state;
    let mut i: usize = 0;
    while i < bytes.len()
        invariant
            i <= bytes.len(),
            hash == fnv_fold(state, bytes@.take(i as int)),
        decreases bytes.len() - i,
    {
        assert(bytes@.take(i + 1).drop_last() =~= bytes@.take(i as int));
        hash = (hash ^ (bytes[i] as u64)).wrapping_mul(FNV_PRIME);
        i += 1;
    }
    assert(bytes@.take(bytes@.len() as int) =~= bytes@);
    hash
}

/// The checksum of a payload.
pub fn checksum(payload: &[u8]) -> (r: u64)
    ensures
        r == fnv(payload@),
{
    fnv_update(FNV_OFFSET, payload)
}

/// Folds the checksum of one more record into a running checksum: the running value
/// rotated left by seven bits, then combined bitwise.
pub open spec fn combined(current: u64, next: u64) -> u64 {
    ((current << 7u64) | (current >> 57u64)) ^ next
}

/// Folds the checksum of one more record into a running checksum.
pub fn combine_checksum(current: u64, next: u64) -> (r: u64)
    ensures
        r == combined(current, next),
{
    ((current << 7u64) | (current >> 57u64)) ^ next
}

// ---------------------------------------------------------------------------
// Laws
// ---------------------------------------------------------------------------

/// The hash is the 64-bit FNV-1a: the one function of byte strings that starts at the offset
/// basis and, for each further byte, combines the state with the byte and multiplies by the
/// prime. So it depends on every byte, in order.
pub proof fn law_fnv_is_a_fold(h: spec_fn(Seq<u8>) -> u64, bytes: Seq<u8>)
    requires
        h(Seq::empty()) == 0xcbf2_9ce4_8422_2325u64,
        forall|s: Seq<u8>, b: u8| #[trigger] h(s.push(b)) == (h(s) ^ (b as u64)).wrapping_mul(0x100_0000_01b3u64),
    ensures
        fnv(bytes) == h(bytes),
    decreases bytes.len(),
{
    if bytes.len() == 0 {
        assert(bytes =~= Seq::empty());
    } else {
        let front = bytes.drop_last();
        law_fnv_is_a_fold(h, front);
        assert(bytes =~= front.push(bytes.last()));
        assert(h(front.push(bytes.last())) == (h(front) ^ (bytes.last() as u64)).wrapping_mul(0x100_0000_01b3u64));
    }
}

/// One more byte feeds that byte into the hash of those before it, and no byte leaves the
/// offset basis.
pub proof fn law_fnv_of_one_more(bytes: Seq<u8>, byte: u8)
    ensures
        fnv(Seq::empty()) == 0xcbf2_9ce4_8422_2325u64,
        fnv(bytes.push(byte)) == (fnv(bytes) ^ (byte as u64)).wrapping_mul(0x100_0000_01b3u64),
{
    assert(bytes.push(byte).drop_last() =~= bytes);
}

/// A running checksum loses nothing of what it was or of what is folded in: it is the old
/// value with its seven highest bits moved to the low end, combined with the new one, and
/// either can be had back from the other two.
pub proof fn law_combined_checksums(current: u64, next: u64)
    ensures
        combined(0, next) == next,
        (combined(current, next) ^ next) >> 7u64 == current & 0x1ff_ffff_ffff_ffffu64,
        (combined(current, next) ^ next) & 0x7fu64 == current >> 57u64,
{
    assert(((0u64 << 7u64) | (0u64 >> 57u64)) ^ next == next) by (bit_vector);
    assert(((((current << 7u64) | (current >> 57u64)) ^ next) ^ next) >> 7u64 == current & 0x1ff_ffff_ffff_ffffu64)
        by (bit_vector);
    assert(((((current << 7u64) | (current >> 57u64)) ^ next) ^ next) & 0x7fu64 == current >> 57u64) by (bit_vector);
}

} // verus!
