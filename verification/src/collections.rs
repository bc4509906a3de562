//! Hashing for keys that are hashes already.

use std::hash::Hasher;

use vstd::prelude::*;

verus! {

/// A hasher for type identifiers. These are already thoroughly hashed by the compiler, so their
/// bits are simply forwarded.
pub struct TypeIdHasher(u64);

/// What `state` becomes when one more byte is folded into it.
pub open spec fn fold_byte(state: u64, byte: u8) -> u64 {
    ((state << 8) | (state >> 56)) ^ (byte as u64)
}

/// What `state` becomes when `bytes` are folded into it, in order.
pub open spec fn fold_bytes(state: u64, bytes: Seq<u8>) -> u64
    decreases bytes.len(),
{
    if bytes.len() == 0 {
        state
    } else {
        fold_byte(fold_bytes(state, bytes.drop_last()), bytes.last())
    }
}

impl TypeIdHasher {
    /// The bits held.
    pub closed spec fn state(self) -> u64 {
        self.0
    }
}

impl Default for TypeIdHasher {
    /// A hasher that holds nothing yet.
    fn default() -> (hasher: TypeIdHasher)
        ensures
            hasher.state() == 0,
    {
        TypeIdHasher(0)
    }
}

impl Hasher for TypeIdHasher {
    /// The bits held.
    fn finish(&self) -> (hash: u64)
        ensures
            hash == self.state(),
    {
        self.0
    }

    /// Folds raw bytes in deterministically, should an identifier ever be hashed that way.
    fn write(&mut self, bytes: &[u8])
        ensures
            final(self).state() == fold_bytes(old(self).state(), bytes@),
    {
        let mut i: usize = 0;
        proof {
            assert(bytes@.take(0).len() == 0);
        }
        while i < bytes.len()
            invariant
                i <= bytes@.len(),
                self.state() == fold_bytes(old(self).state(), bytes@.take(i as int)),
            decreases bytes@.len() - i,
        {
            proof {
                assert(bytes@.take(i + 1).drop_last() =~= bytes@.take(i as int));
            }
            self.0 = ((self.0 << 8) | (self.0 >> 56)) ^ (bytes[i] as u64);
            i = i + 1;
        }
        proof {
            assert(bytes@.take(i as int) =~= bytes@);
        }
    }

    /// Forwards the identifier's bits.
    fn write_u64(&mut self, value: u64)
        ensures
            final(self).state() == value,
    {
        self.0 = value;
    }

    /// Forwards the low half of the identifier's bits.
    fn write_u128(&mut self, value: u128)
        ensures
            final(self).state() == (value % 0x1_0000_0000_0000_0000) as u64,
    {
        assert(value as u64 == (value % 0x1_0000_0000_0000_0000) as u64) by (bit_vector);
        self.0 = value as u64;
    }
}

/// Folding a byte in loses nothing: two states that become one by one byte were one, and two bytes
/// that take one state to one state are one.
pub proof fn law_folding_loses_nothing(state: u64, other: u64, byte: u8, another: u8)
    ensures
        fold_byte(state, byte) == fold_byte(other, byte) ==> state == other,
        fold_byte(state, byte) == fold_byte(state, another) ==> byte == another,
        fold_byte(0, byte) == byte,
{
    assert((((state << 8) | (state >> 56)) ^ (byte as u64)) == (((other << 8) | (other >> 56)) ^ (
    byte as u64)) ==> state == other) by (bit_vector);
    assert((((state << 8) | (state >> 56)) ^ (byte as u64)) == (((state << 8) | (state >> 56)) ^ (
    another as u64)) ==> byte == another) by (bit_vector);
    assert((((0u64 << 8) | (0u64 >> 56)) ^ (byte as u64)) == byte) by (bit_vector);
}

/// Bytes are folded in one after the other: folding two runs of bytes is folding the first and then
/// the second, and folding none changes nothing.
pub proof fn law_bytes_are_folded_in_order(state: u64, one: Seq<u8>, two: Seq<u8>, byte: u8)
    ensures
        fold_bytes(state, one + two) == fold_bytes(fold_bytes(state, one), two),
        fold_bytes(state, seq![byte]) == fold_byte(state, byte),
        fold_bytes(state, Seq::empty()) == state,
    decreases two.len(),
{
    reveal_with_fuel(fold_bytes, 2);
    assert(seq![byte].drop_last() =~= Seq::<u8>::empty());
    if two.len() == 0 {
        assert(one + two =~= one);
    } else {
        law_bytes_are_folded_in_order(state, one, two.drop_last(), byte);
        assert((one + two).drop_last() =~= one + two.drop_last());
    }
}

} // verus!
