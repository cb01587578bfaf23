//! The tagged value word. Every runtime value fits in 64 bits:
//!
//! * high 16 bits all one: a 32-bit signed integer in the low half;
//! * high 16 bits all zero: a heap address with a 3-bit type tag in the low bits;
//! * anything else: a double whose IEEE-754 bit pattern was moved up by 2^48.
//!
//! Doubles are handled as bit patterns only; arithmetic on them belongs to the host.

use vstd::prelude::*;

pub mod boolean;
pub mod closures;
pub mod maps;
pub mod native_fns;
pub mod symbols;
pub mod vectors;

pub use closures::Closure;
pub use maps::ValMap;
pub use native_fns::{Intrinsic, NativeFn};
pub use symbols::{Symbol, SymbolTable};
pub use vectors::Vector;

verus! {

/// Mask of the sixteen bits that tell integers, pointers and doubles apart.
pub const HIGHTAG_MASK: u64 = 0xFFFF_0000_0000_0000;

/// Mask of the three type-tag bits of a pointer word.
pub const LOWTAG_MASK: u64 = 0b111;

/// Amount by which the bit pattern of a double is moved to leave the pointer
/// and integer patterns free.
pub const NUM_ROTATION: u64 = 0x0001_0000_0000_0000;

/// First double bit pattern that no value word can hold: the patterns from
/// here up would land on the pointer or integer encodings.
pub const NUM_LIMIT: u64 = 0xFFFE_0000_0000_0000;

/// Heap addresses must stay below this bound to leave the high tag clear.
pub const ADDRESS_LIMIT: u64 = 0x0001_0000_0000_0000;

/// What a pointer word points to.
#[derive(Copy, Clone, Debug, PartialEq, Eq, Structural)]
pub enum Tag {
    Symbol,
    Function,
    Cons,
    Vector,
    ValMap,
    Object,
    Error,
    NativeFn,
}

impl Tag {
    /// The three-bit code of the tag.
    pub open spec fn spec_code(self) -> u64 {
        match self {
            Tag::Symbol => 0,
            Tag::Function => 1,
            Tag::Cons => 2,
            Tag::Vector => 3,
            Tag::ValMap => 4,
            Tag::Object => 5,
            Tag::Error => 6,
            Tag::NativeFn => 7,
        }
    }

    /// The tag with a given three-bit code.
    pub open spec fn spec_from_code(code: u64) -> Tag {
        if code == 0 {
            Tag::Symbol
        } else if code == 1 {
            Tag::Function
        } else if code == 2 {
            Tag::Cons
        } else if code == 3 {
            Tag::Vector
        } else if code == 4 {
            Tag::ValMap
        } else if code == 5 {
            Tag::Object
        } else if code == 6 {
            Tag::Error
        } else {
            Tag::NativeFn
        }
    }

    pub fn code(self) -> (c: u64)
        ensures
            c == self.spec_code(),
            c <= 7,
    {
        match self {
            Tag::Symbol => 0,
            Tag::Function => 1,
            Tag::Cons => 2,
            Tag::Vector => 3,
            Tag::ValMap => 4,
            Tag::Object => 5,
            Tag::Error => 6,
            Tag::NativeFn => 7,
        }
    }
}

/// The tag whose code is `byte`.
pub fn byte_to_tag(byte: u8) -> (tag: Tag)
    requires
        byte < 8,
    ensures
        tag == Tag::spec_from_code(byte as u64),
        tag.spec_code() == byte,
{
    if byte == 0 {
        Tag::Symbol
    } else if byte == 1 {
        Tag::Function
    } else if byte == 2 {
        Tag::Cons
    } else if byte == 3 {
        Tag::Vector
    } else if byte == 4 {
        Tag::ValMap
    } else if byte == 5 {
        Tag::Object
    } else if byte == 6 {
        Tag::Error
    } else {
        Tag::NativeFn
    }
}

/// A value word taken apart.
#[derive(Copy, Clone, Debug, PartialEq, Eq, Structural)]
pub enum Cases {
    /// A 32-bit integer.
    Int(i32),
    /// A double, as its IEEE-754 bit pattern.
    Num(u64),
    /// A symbol, or one of the sentinels `nil` and `t`.
    Symbol(Symbol),
    /// The address of a closure record.
    Function(u64),
    Cons(u64),
    /// The address of a vector object.
    Vector(u64),
    /// The address of a map object.
    ValMap(u64),
    /// The address of a code object.
    Object(u64),
    Error(u64),
    /// The handle of a host function.
    NativeFn(u64),
}

/// One machine word holding an integer, a double or a tagged pointer.
#[derive(Copy, Clone, Debug, PartialEq, Eq, Structural, Hash)]
pub struct Val(pub u64);

/// The word that encodes the integer `i`: the sign-extended integer under an
/// all-one high tag.
pub open spec fn int_word(i: i32) -> u64 {
    ((i as i64) as u64) | HIGHTAG_MASK
}

/// The word that encodes the double with bit pattern `bits`.
pub open spec fn num_word(bits: u64) -> u64 {
    if bits < HIGHTAG_MASK {
        (bits + NUM_ROTATION) as u64
    } else {
        (bits - HIGHTAG_MASK) as u64
    }
}

/// The word that encodes a pointer to `addr` with type `tag`.
pub open spec fn ptr_word(tag: Tag, addr: u64) -> u64 {
    addr | tag.spec_code()
}

impl Val {
    pub open spec fn spec_is_int(self) -> bool {
        self.0 & HIGHTAG_MASK == HIGHTAG_MASK
    }

    pub open spec fn spec_is_ptr(self) -> bool {
        self.0 & HIGHTAG_MASK == 0
    }

    pub open spec fn spec_is_num(self) -> bool {
        self.0 & HIGHTAG_MASK != HIGHTAG_MASK && self.0 & HIGHTAG_MASK != 0
    }

    /// The integer held by an integer word.
    pub open spec fn int_value(self) -> i32 {
        (self.0 & !HIGHTAG_MASK) as i32
    }

    /// The bit pattern of the double held by a number word.
    pub open spec fn num_bits(self) -> u64 {
        (self.0 - NUM_ROTATION) as u64
    }

    /// The type tag of a pointer word.
    pub open spec fn tag(self) -> Tag {
        Tag::spec_from_code(self.0 & LOWTAG_MASK)
    }

    /// The address of a pointer word.
    pub open spec fn addr(self) -> u64 {
        self.0 & !LOWTAG_MASK
    }

    /// The word that stands for the value where it is hashed: the integer
    /// of an integer word, the bit pattern of the double of a number word,
    /// and the word itself of a pointer.
    pub open spec fn spec_hash_word(self) -> u64 {
        if self.spec_is_int() {
            (self.int_value() as u32) as u64
        } else if self.spec_is_num() {
            self.num_bits()
        } else {
            self.0
        }
    }

    /// The word taken apart: an integer, a double, or a pointer by its tag.
    pub open spec fn classify(self) -> Cases {
        if self.spec_is_int() {
            Cases::Int(self.int_value())
        } else if self.spec_is_num() {
            Cases::Num(self.num_bits())
        } else {
            match self.tag() {
                Tag::Symbol => Cases::Symbol(Symbol(self.addr())),
                Tag::Function => Cases::Function(self.addr()),
                Tag::Cons => Cases::Cons(self.addr()),
                Tag::Vector => Cases::Vector(self.addr()),
                Tag::ValMap => Cases::ValMap(self.addr()),
                Tag::Object => Cases::Object(self.addr()),
                Tag::Error => Cases::Error(self.addr()),
                Tag::NativeFn => Cases::NativeFn(self.addr()),
            }
        }
    }

    /// The address part of the word.
    pub fn get_addr(&self) -> (a: u64)
        ensures
            a == self.addr(),
    {
        self.0 & !LOWTAG_MASK
    }

    /// The tagged pointer in a pointer word; none for other words.
    pub fn get_ptr(&self) -> (r: Option<crate::ptr::Ptr>)
        ensures
            r == (if self.spec_is_ptr() {
                Some(crate::ptr::Ptr(self.0))
            } else {
                None
            }),
    {
        if self.is_ptr() {
            Some(crate::ptr::Ptr(self.0))
        } else {
            None
        }
    }

    /// The raw word.
    pub fn bits(&self) -> (b: u64)
        ensures
            b == self.0,
    {
        self.0
    }

    /// The word for the double with bit pattern `bits`. The result is a
    /// number, and gives `bits` back, for every pattern below `NUM_LIMIT`;
    /// the patterns above it are negative NaNs, which the encoding cannot hold.
    pub fn from_num(bits: u64) -> (v: Val)
        ensures
            v.0 == num_word(bits),
            bits < NUM_LIMIT ==> v.spec_is_num() && v.num_bits() == bits,
            bits >= NUM_LIMIT ==> !v.spec_is_num(),
    {
        proof {
            lemma_num_word(bits);
        }
        if bits < HIGHTAG_MASK {
            Val(bits + NUM_ROTATION)
        } else {
            Val(bits - HIGHTAG_MASK)
        }
    }

    pub fn is_num(&self) -> (b: bool)
        ensures
            b == self.spec_is_num(),
    {
        self.0 & HIGHTAG_MASK != HIGHTAG_MASK && self.0 & HIGHTAG_MASK != 0
    }

    /// The bit pattern of the double in a number word; none for other words.
    pub fn get_num(&self) -> (r: Option<u64>)
        ensures
            r == (if self.spec_is_num() { Some(self.num_bits()) } else { None }),
    {
        if self.is_num() {
            let w: u64 = self.0;
            assert(w >= 0x0001_0000_0000_0000) by (bit_vector)
                requires
                    w & 0xFFFF_0000_0000_0000 != 0,
            ;
            Some(w - NUM_ROTATION)
        } else {
            None
        }
    }

    /// The word for the integer `i`.
    pub fn from_int(i: i32) -> (v: Val)
        ensures
            v.0 == int_word(i),
            v.spec_is_int(),
            v.int_value() == i,
    {
        proof {
            lemma_int_word(i);
        }
        Val(((i as i64) as u64) | HIGHTAG_MASK)
    }

    pub fn is_int(&self) -> (b: bool)
        ensures
            b == self.spec_is_int(),
    {
        self.0 & HIGHTAG_MASK == HIGHTAG_MASK
    }

    /// The integer in an integer word; none for other words.
    pub fn get_int(&self) -> (r: Option<i32>)
        ensures
            r == (if self.spec_is_int() { Some(self.int_value()) } else { None }),
    {
        if self.is_int() {
            Some((self.0 & !HIGHTAG_MASK) as i32)
        } else {
            None
        }
    }

    /// The word for a pointer to `addr` with type `tag`. The address must be
    /// word-aligned, so that the tag bits are free.
    pub fn from_ptr(tag: Tag, addr: u64) -> (v: Val)
        requires
            addr & LOWTAG_MASK == 0,
        ensures
            v.0 == ptr_word(tag, addr),
            v.tag() == tag,
            v.addr() == addr,
            addr < ADDRESS_LIMIT <==> v.spec_is_ptr(),
    {
        let code = tag.code();
        proof {
            lemma_ptr_word(addr, code);
        }
        Val(addr | code)
    }

    pub fn is_ptr(&self) -> (b: bool)
        ensures
            b == self.spec_is_ptr(),
    {
        self.0 & HIGHTAG_MASK == 0
    }

    /// Takes the word apart.
    pub fn get(&self) -> (c: Cases)
        ensures
            c == self.classify(),
    {
        if self.is_int() {
            return Cases::Int((self.0 & !HIGHTAG_MASK) as i32);
        }
        if self.is_num() {
            let w: u64 = self.0;
            assert(w >= 0x0001_0000_0000_0000) by (bit_vector)
                requires
                    w & 0xFFFF_0000_0000_0000 != 0,
            ;
            return Cases::Num(w - NUM_ROTATION);
        }
        let w: u64 = self.0;
        assert(w & 0b111 < 8) by (bit_vector);
        let tag_bits = (self.0 & LOWTAG_MASK) as u8;
        let addr = self.0 & !LOWTAG_MASK;
        match byte_to_tag(tag_bits) {
            Tag::Symbol => Cases::Symbol(Symbol(addr)),
            Tag::Function => Cases::Function(addr),
            Tag::Cons => Cases::Cons(addr),
            Tag::Vector => Cases::Vector(addr),
            Tag::ValMap => Cases::ValMap(addr),
            Tag::Object => Cases::Object(addr),
            Tag::Error => Cases::Error(addr),
            Tag::NativeFn => Cases::NativeFn(addr),
        }
    }

    /// The word to hash the value by. Values that are equal, which is to
    /// say whose words are equal, are hashed by the same word.
    pub fn hash_word(&self) -> (w: u64)
        ensures
            w == self.spec_hash_word(),
    {
        match self.get() {
            Cases::Int(i) => (i as u32) as u64,
            Cases::Num(bits) => bits,
            _ => self.0,
        }
    }

    /// The sentinel `nil`: the all-zero word.
    pub fn nil() -> (v: Val)
        ensures
            v == Val(0),
    {
        Val(0)
    }

    /// The sentinel `t`.
    pub fn t() -> (v: Val)
        ensures
            v == Val(0x10),
    {
        Val(0x10)
    }
}

/// How the integer encoding behaves on the bit level.
pub proof fn lemma_int_word(i: i32)
    ensures
        int_word(i) & HIGHTAG_MASK == HIGHTAG_MASK,
        (int_word(i) & !HIGHTAG_MASK) as i32 == i,
{
    assert((((i as i64) as u64) | 0xFFFF_0000_0000_0000) & 0xFFFF_0000_0000_0000
        == 0xFFFF_0000_0000_0000) by (bit_vector);
    assert(((((i as i64) as u64) | 0xFFFF_0000_0000_0000) & !0xFFFF_0000_0000_0000u64) as i32
        == i) by (bit_vector);
}

/// How the number encoding behaves on the bit level.
pub proof fn lemma_num_word(bits: u64)
    ensures
        bits < NUM_LIMIT ==> num_word(bits) & HIGHTAG_MASK != HIGHTAG_MASK && num_word(bits)
            & HIGHTAG_MASK != 0 && num_word(bits) - NUM_ROTATION == bits,
        bits >= NUM_LIMIT ==> num_word(bits) & HIGHTAG_MASK == HIGHTAG_MASK || num_word(bits)
            & HIGHTAG_MASK == 0,
{
    if bits < HIGHTAG_MASK {
        let w = (bits + NUM_ROTATION) as u64;
        assert(bits < 0xFFFE_0000_0000_0000 ==> w & 0xFFFF_0000_0000_0000 != 0xFFFF_0000_0000_0000
            && w & 0xFFFF_0000_0000_0000 != 0) by (bit_vector)
            requires
                bits < 0xFFFF_0000_0000_0000,
                w == bits + 0x0001_0000_0000_0000,
        ;
        assert(bits >= 0xFFFE_0000_0000_0000 ==> w & 0xFFFF_0000_0000_0000
            == 0xFFFF_0000_0000_0000) by (bit_vector)
            requires
                bits < 0xFFFF_0000_0000_0000,
                w == bits + 0x0001_0000_0000_0000,
        ;
    } else {
        let w = (bits - HIGHTAG_MASK) as u64;
        assert(w & 0xFFFF_0000_0000_0000 == 0) by (bit_vector)
            requires
                bits >= 0xFFFF_0000_0000_0000,
                w == bits - 0xFFFF_0000_0000_0000,
        ;
    }
}

/// How the pointer encoding behaves on the bit level.
pub proof fn lemma_ptr_word(addr: u64, code: u64)
    requires
        addr & LOWTAG_MASK == 0,
        code <= 7,
    ensures
        (addr | code) & LOWTAG_MASK == code,
        (addr | code) & !LOWTAG_MASK == addr,
        addr < ADDRESS_LIMIT <==> (addr | code) & HIGHTAG_MASK == 0,
{
    assert((addr | code) & 0b111 == code) by (bit_vector)
        requires
            addr & 0b111 == 0,
            code <= 7,
    ;
    assert((addr | code) & !0b111u64 == addr) by (bit_vector)
        requires
            addr & 0b111 == 0,
            code <= 7,
    ;
    assert(addr < 0x0001_0000_0000_0000 <==> (addr | code) & 0xFFFF_0000_0000_0000 == 0)
        by (bit_vector)
        requires
            code <= 7,
    ;
}

/// Every word is exactly one of integer, number and pointer.
pub proof fn lemma_kinds_exclusive(v: Val)
    ensures
        v.spec_is_int() || v.spec_is_num() || v.spec_is_ptr(),
        !(v.spec_is_int() && v.spec_is_num()),
        !(v.spec_is_int() && v.spec_is_ptr()),
        !(v.spec_is_num() && v.spec_is_ptr()),
{
}

} // verus!
