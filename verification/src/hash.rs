//! The 64-bit FNV-1a hash by which clipboard contents are told apart.
use vstd::prelude::*;

verus! {

/// The FNV-1a 64-bit offset basis.
pub const FNV_OFFSET_BASIS: u64 = 0xcbf2_9ce4_8422_2325;

/// The FNV-1a 64-bit prime.
pub const FNV_PRIME: u64 = 0x0000_0100_0000_01b3;

/// One FNV-1a step: mix a byte into the state, then multiply modulo 2^64.
pub open spec fn fnv1a_step(h: u64, b: u8) -> u64 {
    (h ^ (b as u64)).wrapping_mul(FNV_PRIME)
}

/// FNV-1a over a byte sequence, folded from the first byte to the last.
pub open spec fn spec_fnv1a(bytes: Seq<u8>) -> u64
    decreases bytes.len(),
{
    if bytes.len() == 0 {
        FNV_OFFSET_BASIS
    } else {
        fnv1a_step(spec_fnv1a(bytes.drop_last()), bytes.last())
    }
}

/// Hashes `bytes` with 64-bit FNV-1a.
pub fn fnv1a(bytes: &[u8]) -> (h: u64)
    ensures
        h == spec_fnv1a(bytes@),
{
    let mut h: u64 = FNV_OFFSET_BASIS;
    let n = bytes.len();
    let mut i: usize = 0;
    while i < n
        invariant
            n == bytes@.len(),
            0 <= i <= n,
            h == spec_fnv1a(bytes@.take(i as int)),
        decreases n - i,
    {
        assert(bytes@.take(i + 1).drop_last() =~= bytes@.take(i as int));
        h = h ^ (bytes[i] as u64);
        h = h.wrapping_mul(FNV_PRIME);
        i = i + 1;
    }
    assert(bytes@.take(n as int) =~= bytes@);
    h
}

/// FNV-1a folds in every byte, at any length: the hash of no bytes is the
/// offset basis 0xcbf29ce484222325, and the hash of `bytes` followed by `b`
/// is the hash of `bytes` xor `b`, times 0x100000001b3, modulo 2^64.
pub proof fn law_fnv1a_folds_every_byte(bytes: Seq<u8>, b: u8)
    ensures
        spec_fnv1a(Seq::<u8>::empty()) == 0xcbf2_9ce4_8422_2325u64,
        spec_fnv1a(bytes.push(b)) as int == ((spec_fnv1a(bytes) ^ (b as u64)) as int * 0x100_0000_01b3int)
            % 0x1_0000_0000_0000_0000int,
{
    assert(bytes.push(b).drop_last() =~= bytes);
    assert(bytes.push(b).last() == b);
}

} // verus!
