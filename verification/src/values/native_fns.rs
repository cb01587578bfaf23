//! Host functions as values. A host function is known by a small handle,
//! which a pointer word with the native-function tag carries in place of an
//! address.

use vstd::prelude::*;
use super::{Tag, Val};

verus! {

/// Whether a host function asks the machine to stop.
pub type ShouldHalt = bool;

/// The host functions that the machine knows.
#[derive(Copy, Clone, Debug, PartialEq, Eq, Structural)]
pub enum Intrinsic {
    Print,
    Exit,
    VectorPush,
    VectorLength,
    VectorSet,
    VectorGet,
    VectorPop,
    MapPut,
    MapGet,
    MapLength,
    MapRemove,
    MapClear,
}

/// The number of host functions.
pub const NUM_INTRINSICS: u64 = 12;

impl Intrinsic {
    /// The place of the function in the table of host functions.
    pub open spec fn spec_index(self) -> u64 {
        match self {
            Intrinsic::Print => 0,
            Intrinsic::Exit => 1,
            Intrinsic::VectorPush => 2,
            Intrinsic::VectorLength => 3,
            Intrinsic::VectorSet => 4,
            Intrinsic::VectorGet => 5,
            Intrinsic::VectorPop => 6,
            Intrinsic::MapPut => 7,
            Intrinsic::MapGet => 8,
            Intrinsic::MapLength => 9,
            Intrinsic::MapRemove => 10,
            Intrinsic::MapClear => 11,
        }
    }

    /// The function at a place of the table.
    pub open spec fn spec_from_index(index: u64) -> Intrinsic {
        if index == 0 {
            Intrinsic::Print
        } else if index == 1 {
            Intrinsic::Exit
        } else if index == 2 {
            Intrinsic::VectorPush
        } else if index == 3 {
            Intrinsic::VectorLength
        } else if index == 4 {
            Intrinsic::VectorSet
        } else if index == 5 {
            Intrinsic::VectorGet
        } else if index == 6 {
            Intrinsic::VectorPop
        } else if index == 7 {
            Intrinsic::MapPut
        } else if index == 8 {
            Intrinsic::MapGet
        } else if index == 9 {
            Intrinsic::MapLength
        } else if index == 10 {
            Intrinsic::MapRemove
        } else {
            Intrinsic::MapClear
        }
    }

    /// The handle of the function: eight times its place, plus eight, so
    /// that it is aligned like an address and never zero.
    pub open spec fn spec_addr(self) -> u64 {
        ((self.spec_index() + 1) * 8) as u64
    }

    pub fn index(self) -> (i: u64)
        ensures
            i == self.spec_index(),
            i < NUM_INTRINSICS,
    {
        match self {
            Intrinsic::Print => 0,
            Intrinsic::Exit => 1,
            Intrinsic::VectorPush => 2,
            Intrinsic::VectorLength => 3,
            Intrinsic::VectorSet => 4,
            Intrinsic::VectorGet => 5,
            Intrinsic::VectorPop => 6,
            Intrinsic::MapPut => 7,
            Intrinsic::MapGet => 8,
            Intrinsic::MapLength => 9,
            Intrinsic::MapRemove => 10,
            Intrinsic::MapClear => 11,
        }
    }

    pub fn from_index(index: u64) -> (f: Intrinsic)
        requires
            index < NUM_INTRINSICS,
        ensures
            f == Intrinsic::spec_from_index(index),
            f.spec_index() == index,
    {
        if index == 0 {
            Intrinsic::Print
        } else if index == 1 {
            Intrinsic::Exit
        } else if index == 2 {
            Intrinsic::VectorPush
        } else if index == 3 {
            Intrinsic::VectorLength
        } else if index == 4 {
            Intrinsic::VectorSet
        } else if index == 5 {
            Intrinsic::VectorGet
        } else if index == 6 {
            Intrinsic::VectorPop
        } else if index == 7 {
            Intrinsic::MapPut
        } else if index == 8 {
            Intrinsic::MapGet
        } else if index == 9 {
            Intrinsic::MapLength
        } else if index == 10 {
            Intrinsic::MapRemove
        } else {
            Intrinsic::MapClear
        }
    }

    /// The name under which the function is bound.
    pub fn name(self) -> (n: &'static str)
        ensures
            n@ == self.spec_name(),
    {
        match self {
            Intrinsic::Print => "print",
            Intrinsic::Exit => "exit",
            Intrinsic::VectorPush => "vector-push!",
            Intrinsic::VectorLength => "vector-length",
            Intrinsic::VectorSet => "vector-set!",
            Intrinsic::VectorGet => "vector-get",
            Intrinsic::VectorPop => "vector-pop!",
            Intrinsic::MapPut => "map-put!",
            Intrinsic::MapGet => "map-get",
            Intrinsic::MapLength => "map-length",
            Intrinsic::MapRemove => "map-remove!",
            Intrinsic::MapClear => "map-clear!",
        }
    }

    pub open spec fn spec_name(self) -> Seq<char> {
        match self {
            Intrinsic::Print => "print"@,
            Intrinsic::Exit => "exit"@,
            Intrinsic::VectorPush => "vector-push!"@,
            Intrinsic::VectorLength => "vector-length"@,
            Intrinsic::VectorSet => "vector-set!"@,
            Intrinsic::VectorGet => "vector-get"@,
            Intrinsic::VectorPop => "vector-pop!"@,
            Intrinsic::MapPut => "map-put!"@,
            Intrinsic::MapGet => "map-get"@,
            Intrinsic::MapLength => "map-length"@,
            Intrinsic::MapRemove => "map-remove!"@,
            Intrinsic::MapClear => "map-clear!"@,
        }
    }

    /// The handle of the function.
    pub fn addr(&self) -> (a: u64)
        ensures
            a == self.spec_addr(),
    {
        (self.index() + 1) * 8
    }
}

/// The host function with a given handle, if the handle is one.
pub open spec fn intrinsic_at(addr: u64) -> Option<Intrinsic> {
    if addr % 8 == 0 && 8 <= addr <= NUM_INTRINSICS * 8 {
        Some(Intrinsic::spec_from_index((addr / 8 - 1) as u64))
    } else {
        None
    }
}

/// A host function as a value.
#[derive(Copy, Clone, Debug, PartialEq, Eq, Structural)]
pub struct NativeFn(pub Intrinsic);

impl NativeFn {
    /// The handle of the function.
    pub fn addr(&self) -> (a: u64)
        ensures
            a == self.0.spec_addr(),
    {
        self.0.addr()
    }

    /// The pointer word that carries the handle under the native-function tag.
    pub fn to_val(&self) -> (v: Val)
        ensures
            v.0 == crate::values::ptr_word(Tag::NativeFn, self.0.spec_addr()),
            v.spec_is_ptr(),
            v.tag() == Tag::NativeFn,
            v.addr() == self.0.spec_addr(),
            intrinsic_at(v.addr()) == Some(self.0),
    {
        let a = self.0.addr();
        assert(a & 0b111 == 0) by (bit_vector)
            requires
                a % 8 == 0,
        ;
        Val::from_ptr(Tag::NativeFn, a)
    }

    /// The host function with handle `addr`, if the handle is one.
    pub fn from_addr(addr: u64) -> (r: Option<NativeFn>)
        ensures
            match r {
                Some(f) => intrinsic_at(addr) == Some(f.0),
                None => intrinsic_at(addr) is None,
            },
    {
        if addr % 8 == 0 && 8 <= addr && addr <= NUM_INTRINSICS * 8 {
            Some(NativeFn(Intrinsic::from_index(addr / 8 - 1)))
        } else {
            None
        }
    }
}

} // verus!
