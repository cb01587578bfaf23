//! Runtime core of a small Lisp-family language: a NaN-boxed value word, a
//! size-classed page allocator, a reader, parser and bytecode emitter, and a
//! frame-stacked virtual machine.
//!
//! The logic carries contracts that Verus proves. Three things are left to
//! others. The vectors and hash tables behind the language's collections
//! are those of the `allocator_api2` and `hashbrown` crates, and a few
//! questions about characters are answered by the standard library: these
//! calls stand behind small wrappers whose contracts are taken on trust.
//! And doubles are handled here as bit patterns only: the host does the
//! arithmetic on them, tells what a number literal denotes, and prints.

pub mod assembler;
pub mod bytecode;
pub mod compiler;
pub mod global;
pub mod intrinsics;
pub mod memory;
pub mod ptr;
pub mod text;
pub mod values;
pub mod vm;

pub use global::Global;
pub use vm::Vm;
