//! The page allocator: arenas of pages, spans of equally sized slots, and
//! the heap that hands the slots out by size class. Addresses are plain
//! numbers; what lives at an address is the business of the object store.

pub mod arena;
pub mod bitmap;
pub mod heap;
pub mod sizes;
pub mod span;

pub use arena::Arena;
pub use span::Span;
pub use heap::{Heap, HeapInner, SpanSet};
pub use sizes::{get_alloc_pages, get_obj_size, get_size_class};
