//! Tagged pointers: a word-aligned address with a type tag in its low bits.

use vstd::prelude::*;
use crate::values::{lemma_ptr_word, ptr_word, Tag, LOWTAG_MASK};

verus! {

/// A tagged pointer.
#[derive(Copy, Clone, Debug, PartialEq, Eq, Structural)]
pub struct Ptr(pub u64);

impl Ptr {
    /// A pointer to nowhere in particular, with the symbol tag.
    pub fn test_ptr() -> (p: Ptr)
        ensures
            p == Ptr(0xAAAABADD8),
    {
        Ptr(0xAAAABADD8)
    }

    /// The pointer to `address` with type `tag`. The address must be
    /// word-aligned.
    pub fn new(tag: Tag, address: u64) -> (p: Ptr)
        requires
            address & LOWTAG_MASK == 0,
        ensures
            p.0 == ptr_word(tag, address),
            p.spec_to_raw() == (tag, address),
    {
        let code = tag.code();
        proof {
            lemma_ptr_word(address, code);
        }
        Ptr(address | code)
    }

    /// The word of the pointer.
    pub fn to_bits(&self) -> (bits: u64)
        ensures
            bits == self.0,
    {
        self.0
    }

    /// The tag and the address of the pointer.
    pub open spec fn spec_to_raw(self) -> (Tag, u64) {
        (Tag::spec_from_code(self.0 & LOWTAG_MASK), self.0 & !LOWTAG_MASK)
    }

    /// Takes the pointer apart into its tag and its address.
    pub fn to_raw(&self) -> (r: (Tag, u64))
        ensures
            r == self.spec_to_raw(),
    {
        let w: u64 = self.0;
        assert(w & 0b111 < 8) by (bit_vector);
        let tag = crate::values::byte_to_tag((self.0 & LOWTAG_MASK) as u8);
        (tag, self.0 & !LOWTAG_MASK)
    }
}

} // verus!
