//! The booleans `t` and `nil` are symbol constants.

use vstd::prelude::*;
use super::Val;

verus! {

/// The value `nil`: the all-zero word.
pub fn nil() -> (v: Val)
    ensures
        v == Val(0),
{
    Val(0)
}

/// The value `t`.
pub fn t() -> (v: Val)
    ensures
        v == Val(0x10),
{
    Val(0x10)
}

/// The boolean value of a condition.
pub fn from_bool(b: bool) -> (v: Val)
    ensures
        v == (if b {
            Val(0x10)
        } else {
            Val(0)
        }),
{
    if b {
        t()
    } else {
        nil()
    }
}

} // verus!
