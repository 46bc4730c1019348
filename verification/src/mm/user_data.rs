//! Values that travel between kernel and user memory, as bytes.
use vstd::prelude::*;

verus! {

/// A value with a byte representation, as long for every value of the type.
pub trait ToBytes: Sized {
    /// Number of bytes in the representation of each value.
    spec fn size() -> nat;

    /// The representation, in the order of memory.
    spec fn bytes(&self) -> Seq<u8>;

    /// The representation, in the order of memory.
    fn to_bytes(&self) -> (bytes: Vec<u8>)
        ensures
            bytes@ == self.bytes(),
    ;

    /// Every representation has the same length.
    proof fn lemma_bytes_len(&self)
        ensures
            self.bytes().len() == Self::size(),
    ;
}

/// A value that any bytes of the right number represent.
pub trait FromBytes: ToBytes {
    /// Number of bytes in the representation.
    fn size_of() -> (n: usize)
        ensures
            n == Self::size(),
    ;

    /// The value that `bytes` represents.
    fn from_bytes(bytes: &Vec<u8>) -> (value: Self)
        requires
            bytes@.len() == Self::size(),
        ensures
            value.bytes() == bytes@,
    ;

    /// The representation determines the value.
    proof fn lemma_bytes_injective(&self, other: &Self)
        requires
            self.bytes() == other.bytes(),
        ensures
            *self == *other,
    ;
}

impl ToBytes for u8 {
    open spec fn size() -> nat {
        1
    }

    open spec fn bytes(&self) -> Seq<u8> {
        seq![*self]
    }

    fn to_bytes(&self) -> (bytes: Vec<u8>) {
        let mut bytes: Vec<u8> = Vec::new();
        bytes.push(*self);
        assert(bytes@ =~= self.bytes());
        bytes
    }

    proof fn lemma_bytes_len(&self) {
    }
}

impl FromBytes for u8 {
    fn size_of() -> (n: usize) {
        1
    }

    fn from_bytes(bytes: &Vec<u8>) -> (value: u8) {
        let value: u8 = bytes[0];
        assert(value.bytes() =~= bytes@);
        value
    }

    proof fn lemma_bytes_injective(&self, other: &u8) {
        assert(self.bytes()[0] == *self);
        assert(other.bytes()[0] == *other);
    }
}

} // verus!
