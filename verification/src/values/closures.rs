//! Closures: a captured environment and the code object that runs in it.

use vstd::prelude::*;
use super::Val;

verus! {

/// A function value: the values it captured, and the address of its code
/// object.
#[derive(Debug)]
pub struct Closure {
    pub env: Vec<Val>,
    pub code_obj: u64,
}

} // verus!
