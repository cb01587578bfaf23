//! The global context: the heap, the symbol table, and the objects that live
//! at the addresses the heap has handed out.

use vstd::prelude::*;
use std::collections::HashMap;
use crate::bytecode::ByteCode;
use crate::memory::heap::{alloc_fn, lemma_alloc_fn, lemma_alloc_none, Heap, HeapView};
use crate::memory::sizes::ARENA_SIZE;
use crate::values::symbols::{cell_bytes, symbol_of, CellView, Symbol, SymbolTable};
use crate::values::maps::spec_map_limit;
use crate::values::vectors::spec_vector_limit;
use crate::values::ptr_word;
use crate::values::{Closure, Tag, Val, ValMap, Vector, ADDRESS_LIMIT};

verus! {

broadcast use vstd::std_specs::hash::group_hash_axioms;

/// Bytes that the record of a vector takes on the heap.
pub const VECTOR_BYTES: usize = 24;

/// Bytes that the record of a map takes on the heap.
pub const MAP_BYTES: usize = 512;

/// Bytes that the record of a closure takes on the heap.
pub const CLOSURE_BYTES: usize = 32;

/// Bytes that the record of a code object takes on the heap.
pub const CODE_BYTES: usize = 32;

/// What can live at a heap address.
pub enum HeapObject {
    Vector(Vector),
    Table(ValMap),
    Closure(Closure),
    Code(ByteCode),
}

/// A heap object as plain data.
pub ghost enum ObjectView {
    Vector(Seq<Val>),
    Table { entries: Map<Val, Val>, len: nat, small: bool },
    Closure { env: Seq<Val>, code_obj: u64 },
    Code { consts: Seq<Val>, code: Seq<u8> },
}

impl View for HeapObject {
    type V = ObjectView;

    open spec fn view(&self) -> ObjectView {
        match self {
            HeapObject::Vector(v) => ObjectView::Vector(v@),
            HeapObject::Table(m) => ObjectView::Table {
                entries: m.model(),
                len: m.spec_len(),
                small: m.is_small(),
            },
            HeapObject::Closure(c) => ObjectView::Closure { env: c.env@, code_obj: c.code_obj },
            HeapObject::Code(b) => ObjectView::Code { consts: b.consts@, code: b.code@ },
        }
    }
}

impl HeapObject {
    /// The invariant of the object inside.
    pub open spec fn wf(&self) -> bool {
        match self {
            HeapObject::Vector(v) => v.wf(),
            HeapObject::Table(m) => m.wf(),
            _ => true,
        }
    }

    /// The tag of a pointer to the object.
    pub open spec fn spec_tag(&self) -> Tag {
        match self {
            HeapObject::Vector(_) => Tag::Vector,
            HeapObject::Table(_) => Tag::ValMap,
            HeapObject::Closure(_) => Tag::Function,
            HeapObject::Code(_) => Tag::Object,
        }
    }

    /// The bytes that the record of the object takes on the heap.
    pub open spec fn spec_bytes(&self) -> usize {
        match self {
            HeapObject::Vector(_) => VECTOR_BYTES,
            HeapObject::Table(_) => MAP_BYTES,
            HeapObject::Closure(_) => CLOSURE_BYTES,
            HeapObject::Code(_) => CODE_BYTES,
        }
    }

    pub fn tag(&self) -> (t: Tag)
        ensures
            t == self.spec_tag(),
    {
        match self {
            HeapObject::Vector(_) => Tag::Vector,
            HeapObject::Table(_) => Tag::ValMap,
            HeapObject::Closure(_) => Tag::Function,
            HeapObject::Code(_) => Tag::Object,
        }
    }

    pub fn bytes(&self) -> (n: usize)
        ensures
            n == self.spec_bytes(),
    {
        match self {
            HeapObject::Vector(_) => VECTOR_BYTES,
            HeapObject::Table(_) => MAP_BYTES,
            HeapObject::Closure(_) => CLOSURE_BYTES,
            HeapObject::Code(_) => CODE_BYTES,
        }
    }
}

/// The global context.
pub struct Global {
    heap: Heap,
    st: SymbolTable,
    objects: HashMap<u64, HeapObject>,
}

/// The global context as plain data.
pub ghost struct GlobalView {
    pub heap: HeapView,
    pub symbols: Seq<CellView>,
    pub objects: Map<u64, ObjectView>,
}

/// The context `after` holds what `before` held: every object at its
/// address, and every symbol in its place with its value.
pub open spec fn kept(before: GlobalView, after: GlobalView) -> bool {
    &&& forall|a: u64| #[trigger]
        before.objects.contains_key(a) ==> after.objects.contains_key(a) && after.objects[a]
            == before.objects[a]
    &&& before.symbols.len() <= after.symbols.len()
    &&& forall|i: int|
        0 <= i < before.symbols.len() ==> #[trigger] after.symbols[i] == before.symbols[i]
}

impl ObjectView {
    /// What every object keeps: a vector and a map their bounds, and a map
    /// a count that is the number of its keys.
    pub open spec fn wf(self) -> bool {
        match self {
            ObjectView::Vector(items) => items.len() <= spec_vector_limit(),
            ObjectView::Table { entries, len, small } => {
                &&& entries.dom().finite()
                &&& len == entries.dom().len()
                &&& len <= spec_map_limit()
            },
            _ => true,
        }
    }
}

impl GlobalView {
    /// The invariant of the global context, as far as plain data shows it.
    pub open spec fn wf(self) -> bool {
        &&& self.heap.wf()
        &&& forall|i: int|
            0 <= i < self.symbols.len() ==> (#[trigger] self.symbols[i]).addr % 16 == 0
                && ARENA_SIZE <= self.symbols[i].addr < ADDRESS_LIMIT
        &&& crate::values::symbols::distinct_addrs(self.symbols)
        &&& crate::values::symbols::cells_live(self.symbols, self.heap)
        &&& forall|a: u64| self.objects.contains_key(a) ==> (#[trigger] self.objects[a]).wf()
        &&& forall|a: u64| #[trigger] self.objects.contains_key(a) ==> self.heap.live(a as int)
    }

    /// The context after `name` was interned, and the symbol it was interned
    /// as: the one it had, or a new one whose cell the heap served; none if
    /// the heap could not serve the cell.
    pub open spec fn intern(self, name: Seq<char>) -> (GlobalView, Option<Symbol>) {
        match symbol_of(self.symbols, name) {
            Some(sym) => (self, Some(sym)),
            None => {
                let (heap, r) = alloc_fn(self.heap, cell_bytes(name));
                match r {
                    Some(addr) => (
                        GlobalView {
                            heap,
                            symbols: self.symbols.push(CellView { name, addr, value: None }),
                            objects: self.objects,
                        },
                        Some(Symbol(addr)),
                    ),
                    None => (self, None),
                }
            },
        }
    }

    /// The context after an object was put on the heap, and the pointer to
    /// the object; none if the heap could not serve its record.
    pub open spec fn new_object(self, obj: ObjectView, bytes: int, tag: Tag) -> (
        GlobalView,
        Option<Val>,
    ) {
        let (heap, r) = alloc_fn(self.heap, bytes);
        match r {
            Some(addr) => (
                GlobalView { heap, symbols: self.symbols, objects: self.objects.insert(addr, obj) },
                Some(Val(ptr_word(tag, addr))),
            ),
            None => (self, None),
        }
    }
}

/// Interning is idempotent: a name that was interned is interned again as
/// the same symbol, and the second time changes nothing.
pub proof fn lemma_intern_idempotent(g: GlobalView, name: Seq<char>)
    requires
        g.intern(name).1 is Some,
    ensures
        g.intern(name).0.intern(name) == g.intern(name),
{
    let (g1, r) = g.intern(name);
    if symbol_of(g.symbols, name) is None {
        let sym = r->0;
        let addr = sym.0;
        let cell = CellView { name, addr, value: None };
        crate::values::symbols::lemma_name_index(g.symbols, name, 0);
        crate::values::symbols::lemma_name_index_push(g.symbols, cell, name, 0);
        assert(g1.symbols == g.symbols.push(cell));
        assert(g1.symbols[g.symbols.len() as int] == cell);
    }
}

/// The views of the objects in a store.
pub open spec fn object_views(objects: Map<u64, HeapObject>) -> Map<u64, ObjectView> {
    Map::new(|a: u64| objects.contains_key(a), |a: u64| objects[a]@)
}

impl View for Global {
    type V = GlobalView;

    closed spec fn view(&self) -> GlobalView {
        GlobalView {
            heap: self.heap@,
            symbols: self.st@,
            objects: object_views(self.objects@),
        }
    }
}

impl Global {
    /// The invariant of the global context.
    pub closed spec fn wf(&self) -> bool {
        &&& self.heap.wf()
        &&& self.st.wf()
        &&& crate::values::symbols::cells_live(self.st@, self.heap@)
        &&& forall|a: u64| self.objects@.contains_key(a) ==> (#[trigger] self.objects@[a]).wf()
        &&& forall|a: u64| #[trigger] self.objects@.contains_key(a) ==> self.heap@.live(a as int)
    }

    /// A well-formed context shows well-formed data.
    pub proof fn lemma_wf(&self)
        requires
            self.wf(),
        ensures
            self@.wf(),
    {
        assert forall|a: u64| self@.objects.contains_key(a) implies (
        #[trigger] self@.objects[a]).wf() by {
            let obj = self.objects@[a];
            assert(obj.wf());
            match obj {
                HeapObject::Table(m) => {
                    crate::values::maps::lemma_map_len(&m);
                },
                _ => {},
            }
        }
    }

    /// A context with a fresh heap, no symbols and no objects.
    pub fn new() -> (g: Global)
        ensures
            g.wf(),
            g@.symbols == Seq::<CellView>::empty(),
            g@.objects == Map::<u64, ObjectView>::empty(),
    {
        let g = Global { heap: Heap::new(), st: SymbolTable::new(), objects: HashMap::new() };
        assert(g@.objects =~= Map::<u64, ObjectView>::empty());
        g
    }

    /// The symbol called `name`; see `SymbolTable::intern`. A new symbol lies
    /// at an address at which nothing lay.
    pub fn intern(&mut self, name: &str) -> (r: Option<Symbol>)
        requires
            old(self).wf(),
        ensures
            final(self).wf(),
            final(self)@.objects == old(self)@.objects,
            (final(self)@, r) == old(self)@.intern(name@),
            r matches Some(sym) ==> symbol_of(final(self)@.symbols, name@) == Some(sym) && sym.0
                % 16 == 0 && ARENA_SIZE <= sym.0 < ADDRESS_LIMIT,
            r is Some && symbol_of(old(self)@.symbols, name@) is None
                ==> !crate::values::symbols::has_cell(old(self)@.symbols, r->0) && !old(self)@.objects.contains_key((r->0).0),
    {
        let r = self.st.intern(name, &mut self.heap);
        proof {
            if symbol_of(old(self)@.symbols, name@) is None {
                let addr = match r {
                    Some(sym) => Some(sym.0),
                    None => None,
                };
                lemma_alloc_fn(old(self)@.heap, cell_bytes(name@), self@.heap, addr);
                if addr is None {
                    lemma_alloc_none(old(self)@.heap, cell_bytes(name@), self@.heap);
                    assert(self@ == old(self)@);
                }
            }
        }
        r
    }

    /// Serves `size` bytes from the heap; see `Heap::allocate`.
    pub fn allocate(&mut self, size: usize) -> (r: Option<u64>)
        requires
            old(self).wf(),
        ensures
            final(self).wf(),
            final(self)@.symbols == old(self)@.symbols,
            final(self)@.objects == old(self)@.objects,
            old(self)@.heap.alloc_effect(size as int, final(self)@.heap, r),
            r matches Some(addr) ==> addr % 16 == 0 && ARENA_SIZE <= addr < ADDRESS_LIMIT,
            r matches Some(addr) ==> !old(self)@.heap.live(addr as int) && !old(self)@.objects.contains_key(addr),
    {
        self.heap.allocate(size)
    }

    /// Puts `obj` on the heap and returns the pointer to it, tagged by its
    /// kind. None, and no change, if the heap cannot serve its record.
    pub fn new_object(&mut self, obj: HeapObject) -> (r: Option<Val>)
        requires
            old(self).wf(),
            obj.wf(),
        ensures
            final(self).wf(),
            final(self)@.symbols == old(self)@.symbols,
            match r {
                Some(v) => {
                    &&& old(self)@.heap.alloc_effect(
                        obj.spec_bytes() as int,
                        final(self)@.heap,
                        Some(v.addr()),
                    )
                    &&& v.spec_is_ptr()
                    &&& v.tag() == obj.spec_tag()
                    &&& v.addr() % 16 == 0
                    &&& ARENA_SIZE <= v.addr() < ADDRESS_LIMIT
                    &&& !old(self)@.objects.contains_key(v.addr())
                    &&& final(self)@.objects == old(self)@.objects.insert(v.addr(), obj@)
                },
                None => {
                    &&& old(self)@.heap.alloc_effect(
                        obj.spec_bytes() as int,
                        final(self)@.heap,
                        None,
                    )
                    &&& final(self)@.objects == old(self)@.objects
                },
            },
            (final(self)@, r) == old(self)@.new_object(
                obj@,
                obj.spec_bytes() as int,
                obj.spec_tag(),
            ),
    {
        let tag = obj.tag();
        let ghost size = obj.spec_bytes() as int;
        match self.heap.allocate(obj.bytes()) {
            Some(addr) => {
                assert(addr & 0b111 == 0) by (bit_vector)
                    requires
                        addr % 16 == 0,
                ;
                let ghost before = self.objects@;
                let ghost view = obj@;
                self.objects.insert(addr, obj);
                assert(self@.objects =~= object_views(before).insert(addr, view));
                proof {
                    lemma_alloc_fn(old(self)@.heap, size, self@.heap, Some(addr));
                }
                Some(Val::from_ptr(tag, addr))
            },
            None => {
                proof {
                    lemma_alloc_fn(old(self)@.heap, size, self@.heap, None);
                    lemma_alloc_none(old(self)@.heap, size, self@.heap);
                    assert(self@ == old(self)@);
                }
                None
            },
        }
    }

    /// The object at `addr`, if there is one.
    pub fn object(&self, addr: u64) -> (r: Option<&HeapObject>)
        requires
            self.wf(),
        ensures
            match r {
                Some(obj) => self@.objects.contains_key(addr) && obj@ == self@.objects[addr]
                    && obj.wf(),
                None => !self@.objects.contains_key(addr),
            },
    {
        self.objects.get(&addr)
    }

    /// Takes the object at `addr` out of the store, to be put back after a
    /// change.
    pub fn take(&mut self, addr: u64) -> (r: Option<HeapObject>)
        requires
            old(self).wf(),
        ensures
            final(self).wf(),
            final(self)@.heap == old(self)@.heap,
            final(self)@.symbols == old(self)@.symbols,
            final(self)@.objects == old(self)@.objects.remove(addr),
            match r {
                Some(obj) => old(self)@.objects.contains_key(addr) && obj@ == old(self)@.objects[addr] && obj.wf() && final(self)@.heap.live(addr as int),
                None => !old(self)@.objects.contains_key(addr),
            },
    {
        let ghost before = self.objects@;
        let r = self.objects.remove(&addr);
        assert(self@.objects =~= object_views(before).remove(addr));
        r
    }

    /// Puts `obj` at `addr`, in place of what was there.
    pub fn put(&mut self, addr: u64, obj: HeapObject)
        requires
            old(self).wf(),
            obj.wf(),
            old(self)@.heap.live(addr as int),
        ensures
            final(self).wf(),
            final(self)@.heap == old(self)@.heap,
            final(self)@.symbols == old(self)@.symbols,
            final(self)@.objects == old(self)@.objects.insert(addr, obj@),
    {
        let ghost before = self.objects@;
        let ghost view = obj@;
        self.objects.insert(addr, obj);
        assert(self@.objects =~= object_views(before).insert(addr, view));
    }

    /// The value slot of `sym`; see `SymbolTable::get`.
    pub fn symbol_value(&self, sym: Symbol) -> (r: Option<Val>)
        ensures
            r == crate::values::symbols::value_of(self@.symbols, sym),
    {
        self.st.get(sym)
    }

    /// The name of `sym`; see `SymbolTable::get_name`.
    pub fn symbol_name(&self, sym: Symbol) -> (r: Option<String>)
        ensures
            r is Some <==> sym.0 == crate::values::symbols::NIL || sym.0
                == crate::values::symbols::T || crate::values::symbols::has_cell(
                self@.symbols,
                sym,
            ),
            r matches Some(name) ==> name@ == crate::values::symbols::name_of(self@.symbols, sym),
    {
        self.st.get_name(sym)
    }

    /// Whether `sym` has a cell.
    pub fn has_symbol(&self, sym: Symbol) -> (b: bool)
        ensures
            b == crate::values::symbols::has_cell(self@.symbols, sym),
    {
        self.st.has_cell(sym)
    }

    /// Writes the value slot of `sym`; see `SymbolTable::set`.
    pub fn set_symbol(&mut self, sym: Symbol, value: Val)
        requires
            old(self).wf(),
            sym.0 != crate::values::symbols::NIL,
            sym.0 != crate::values::symbols::T,
            crate::values::symbols::has_cell(old(self)@.symbols, sym),
        ensures
            final(self).wf(),
            final(self)@.heap == old(self)@.heap,
            final(self)@.objects == old(self)@.objects,
            final(self)@.symbols == crate::values::symbols::with_value(
                old(self)@.symbols,
                sym,
                value,
            ),
    {
        proof {
            crate::values::symbols::lemma_with_value_live(self.st@, sym, value, self.heap@);
        }
        self.st.set(sym, value)
    }
}

} // verus!
