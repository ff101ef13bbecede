//! The capability a type must supply before the arena can place a value of it:
//! a fixed size, a fixed alignment, and a raw byte representation of exactly
//! that size, recoverable from the bytes alone.

use vstd::prelude::*;

verus! {

/// A value that can be placed in an arena.
///
/// A placeable type has a size and an alignment fixed at the type level, and
/// every value of it can be turned into a byte representation of exactly that
/// size and rebuilt from such bytes. The arena itself stays agnostic to the
/// concrete type: it only moves these bytes in and out of its buffer.
pub trait ByteRepr: Sized {
    /// The byte length of the representation of every value of this type.
    spec fn spec_size() -> nat;

    /// The alignment every placement of this type must satisfy.
    spec fn spec_align() -> nat;

    /// The raw byte representation of this value.
    spec fn repr(&self) -> Seq<u8>;

    /// The representation really has `spec_size` bytes, and the alignment is
    /// at least one.
    proof fn repr_properties(&self)
        ensures
            self.repr().len() == Self::spec_size(),
            Self::spec_align() >= 1,
    ;

    /// The byte length of the representation, as a machine integer.
    fn size_of_value() -> (n: usize)
        ensures
            n == Self::spec_size(),
    ;

    /// The required alignment, as a machine integer.
    fn align_of_value() -> (a: usize)
        ensures
            a == Self::spec_align(),
            a >= 1,
    ;

    /// The representation of this value.
    fn to_bytes(&self) -> (b: Vec<u8>)
        ensures
            b@ == self.repr(),
    ;

    /// The value whose representation is `b`.
    fn of_bytes(b: &[u8]) -> (v: Self)
        requires
            b@.len() == Self::spec_size(),
        ensures
            v.repr() == b@,
    ;
}

impl ByteRepr for u8 {
    open spec fn spec_size() -> nat {
        1
    }

    open spec fn spec_align() -> nat {
        1
    }

    open spec fn repr(&self) -> Seq<u8> {
        seq![*self]
    }

    proof fn repr_properties(&self) {
    }

    fn size_of_value() -> usize {
        1
    }

    fn align_of_value() -> usize {
        1
    }

    fn to_bytes(&self) -> (b: Vec<u8>) {
        let mut b: Vec<u8> = Vec::new();
        b.push(*self);
        proof {
            assert(b@ =~= seq![*self]);
        }
        b
    }

    fn of_bytes(b: &[u8]) -> (v: Self) {
        let v = *vstd::slice::slice_index_get(b, 0);
        proof {
            assert(v.repr() =~= b@);
        }
        v
    }
}

impl ByteRepr for u32 {
    open spec fn spec_size() -> nat {
        4
    }

    open spec fn spec_align() -> nat {
        4
    }

    open spec fn repr(&self) -> Seq<u8> {
        vstd::bytes::spec_u32_to_le_bytes(*self)
    }

    proof fn repr_properties(&self) {
        vstd::bytes::lemma_auto_spec_u32_to_from_le_bytes();
    }

    fn size_of_value() -> usize {
        4
    }

    fn align_of_value() -> usize {
        4
    }

    fn to_bytes(&self) -> (b: Vec<u8>) {
        vstd::bytes::u32_to_le_bytes(*self)
    }

    fn of_bytes(b: &[u8]) -> (v: Self) {
        let v = vstd::bytes::u32_from_le_bytes(b);
        proof {
            vstd::bytes::lemma_auto_spec_u32_to_from_le_bytes();
        }
        v
    }
}

impl ByteRepr for u64 {
    open spec fn spec_size() -> nat {
        8
    }

    open spec fn spec_align() -> nat {
        8
    }

    open spec fn repr(&self) -> Seq<u8> {
        vstd::bytes::spec_u64_to_le_bytes(*self)
    }

    proof fn repr_properties(&self) {
        vstd::bytes::lemma_auto_spec_u64_to_from_le_bytes();
    }

    fn size_of_value() -> usize {
        8
    }

    fn align_of_value() -> usize {
        8
    }

    fn to_bytes(&self) -> (b: Vec<u8>) {
        vstd::bytes::u64_to_le_bytes(*self)
    }

    fn of_bytes(b: &[u8]) -> (v: Self) {
        let v = vstd::bytes::u64_from_le_bytes(b);
        proof {
            vstd::bytes::lemma_auto_spec_u64_to_from_le_bytes();
        }
        v
    }
}

} // verus!
