//! The values of number literals. The reader interns the digits of a number
//! like a name; the double that the digits denote comes from the host, which
//! records its bit pattern here before the emitter runs.

use vstd::prelude::*;
use super::idents::Ident;

verus! {

/// The bit patterns of the doubles that number literals denote, by the
/// identifier under which the reader interned their digits.
pub struct Numbers {
    bits: Vec<Option<u64>>,
}

/// The bit pattern recorded for `id`, if one was.
pub open spec fn number_bits(numbers: Seq<Option<u64>>, id: Ident) -> Option<u64> {
    if id.0 < numbers.len() {
        numbers[id.0 as int]
    } else {
        None
    }
}

impl View for Numbers {
    type V = Seq<Option<u64>>;

    closed spec fn view(&self) -> Seq<Option<u64>> {
        self.bits@
    }
}

impl Numbers {
    /// No literal has a value yet.
    pub fn new() -> (n: Numbers)
        ensures
            forall|id: Ident| number_bits(n@, id) is None,
    {
        Numbers { bits: Vec::new() }
    }

    /// Records `bits` as the value of the literal `id`.
    pub fn set(&mut self, id: Ident, bits: u64)
        ensures
            number_bits(final(self)@, id) == Some(bits),
            forall|other: Ident|
                other != id ==> number_bits(final(self)@, other) == number_bits(old(self)@, other),
    {
        while self.bits.len() <= id.0
            invariant
                forall|other: Ident| number_bits(self@, other) == number_bits(old(self)@, other),
            decreases id.0 + 1 - self.bits.len(),
        {
            self.bits.push(None);
        }
        self.bits[id.0] = Some(bits);
    }

    /// The value recorded for the literal `id`.
    pub fn get(&self, id: Ident) -> (r: Option<u64>)
        ensures
            r == number_bits(self@, id),
    {
        if id.0 < self.bits.len() {
            self.bits[id.0]
        } else {
            None
        }
    }
}

} // verus!
