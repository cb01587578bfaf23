//! Symbols: interned names, each with a cell on the heap that holds the
//! name and a value slot. The sentinels `nil` and `t` are symbols without a
//! cell.

use vstd::prelude::*;
use super::{Cases, Val, ADDRESS_LIMIT};
use crate::memory::heap::{Heap, HeapView};
use crate::memory::sizes::{ARENA_SIZE, MAX_SMALL_OBJ_SIZE};

verus! {

/// Address of the sentinel `nil`.
pub const NIL: u64 = 0;

/// Address of the sentinel `t`.
pub const T: u64 = 0x10;

/// Bytes of a cell, without the name.
pub const CELL_SIZE: usize = 32;

/// A symbol, named by the address of its cell. The addresses `NIL` and `T`
/// are the two sentinels.
#[derive(Copy, Clone, Debug, PartialEq, Eq, Structural, Hash)]
pub struct Symbol(pub u64);

impl Symbol {
    /// The value `t`.
    pub fn t() -> (v: Val)
        ensures
            v == Val(T),
    {
        Val(T)
    }

    /// The value `nil`.
    pub fn nil() -> (v: Val)
        ensures
            v == Val(NIL),
    {
        Val(NIL)
    }

    /// The address of the cell.
    pub fn addr(&self) -> (a: u64)
        ensures
            a == self.0,
    {
        self.0
    }

    /// The symbol as a value word: a pointer with the symbol tag, which is
    /// the address itself.
    pub fn as_val(&self) -> (v: Val)
        ensures
            v == Val(self.0),
            self.0 % 8 == 0 && self.0 < ADDRESS_LIMIT ==> v.classify() == Cases::Symbol(*self),
    {
        proof {
            lemma_symbol_word(self.0);
        }
        Val(self.0)
    }

    pub fn is_nil(&self) -> (b: bool)
        ensures
            b == (self.0 == NIL),
    {
        self.0 == NIL
    }

    pub fn is_t(&self) -> (b: bool)
        ensures
            b == (self.0 == T),
    {
        self.0 == T
    }
}

/// An aligned address below the limit is a pointer word with the symbol tag.
pub proof fn lemma_symbol_word(addr: u64)
    ensures
        addr % 8 == 0 && addr < ADDRESS_LIMIT ==> Val(addr).classify() == Cases::Symbol(
            Symbol(addr),
        ),
{
    if addr % 8 == 0 && addr < ADDRESS_LIMIT {
        assert(addr & 0xFFFF_0000_0000_0000 == 0 && addr & 0b111 == 0 && addr & !0b111u64 == addr)
            by (bit_vector)
            requires
                addr % 8 == 0,
                addr < 0x0001_0000_0000_0000,
        ;
    }
}

/// The cell of a symbol.
pub struct Cell {
    pub name: String,
    pub addr: u64,
    pub value: Option<Val>,
}

/// A cell as plain data.
pub ghost struct CellView {
    pub name: Seq<char>,
    pub addr: u64,
    pub value: Option<Val>,
}

impl View for Cell {
    type V = CellView;

    open spec fn view(&self) -> CellView {
        CellView { name: self.name@, addr: self.addr, value: self.value }
    }
}

/// The views of a run of cells.
pub open spec fn cell_views(cells: Seq<Cell>) -> Seq<CellView> {
    Seq::new(cells.len(), |i: int| cells[i]@)
}

/// The first cell from `i` on that is called `name`, or the number of cells.
pub open spec fn name_index_from(cells: Seq<CellView>, name: Seq<char>, i: int) -> int
    decreases cells.len() - i,
{
    if i >= cells.len() {
        cells.len() as int
    } else if cells[i].name == name {
        i
    } else {
        name_index_from(cells, name, i + 1)
    }
}

/// The first cell from `i` on that lies at `addr`, or the number of cells.
pub open spec fn addr_index_from(cells: Seq<CellView>, addr: u64, i: int) -> int
    decreases cells.len() - i,
{
    if i >= cells.len() {
        cells.len() as int
    } else if cells[i].addr == addr {
        i
    } else {
        addr_index_from(cells, addr, i + 1)
    }
}

/// The symbol that `name` was interned as, if it was.
pub open spec fn symbol_of(cells: Seq<CellView>, name: Seq<char>) -> Option<Symbol> {
    let i = name_index_from(cells, name, 0);
    if i < cells.len() {
        Some(Symbol(cells[i].addr))
    } else {
        None
    }
}

/// Whether `sym` has a cell.
pub open spec fn has_cell(cells: Seq<CellView>, sym: Symbol) -> bool {
    addr_index_from(cells, sym.0, 0) < cells.len()
}

/// The value slot of `sym`: the sentinels stand for themselves, a symbol
/// with a cell has what was last set, and any other has nothing.
pub open spec fn value_of(cells: Seq<CellView>, sym: Symbol) -> Option<Val> {
    if sym.0 == NIL {
        Some(Val(NIL))
    } else if sym.0 == T {
        Some(Val(T))
    } else if has_cell(cells, sym) {
        cells[addr_index_from(cells, sym.0, 0)].value
    } else {
        None
    }
}

/// The name of `sym`: `nil` and `t` for the sentinels, and for any other
/// symbol the name in its cell.
pub open spec fn name_of(cells: Seq<CellView>, sym: Symbol) -> Seq<char> {
    if sym.0 == NIL {
        "nil"@
    } else if sym.0 == T {
        "t"@
    } else {
        cells[addr_index_from(cells, sym.0, 0)].name
    }
}

/// The cells after the slot of `sym` was set to `value`.
pub open spec fn with_value(cells: Seq<CellView>, sym: Symbol, value: Val) -> Seq<CellView> {
    let i = addr_index_from(cells, sym.0, 0);
    if i < cells.len() {
        cells.update(i, CellView { value: Some(value), ..cells[i] })
    } else {
        cells
    }
}

/// The bytes that the cell of a symbol called `name` takes on the heap.
pub open spec fn cell_bytes(name: Seq<char>) -> int {
    let bytes = vstd::utf8::encode_utf8(name).len() as usize;
    if bytes > MAX_SMALL_OBJ_SIZE {
        MAX_SMALL_OBJ_SIZE + CELL_SIZE
    } else {
        CELL_SIZE + bytes
    }
}

/// The cells after `name` was interned as a new symbol `sym`, or could not
/// be.
pub open spec fn interned(cells: Seq<CellView>, name: Seq<char>, sym: Option<Symbol>) -> Seq<
    CellView,
> {
    match sym {
        Some(s) => cells.push(CellView { name, addr: s.0, value: None }),
        None => cells,
    }
}

/// Every cell lies at an address that the heap has handed out.
pub open spec fn cells_live(cells: Seq<CellView>, heap: HeapView) -> bool {
    forall|i: int| 0 <= i < cells.len() ==> heap.live((#[trigger] cells[i]).addr as int)
}

/// An address at which no cell lies is the address of no symbol.
pub proof fn lemma_no_cell(cells: Seq<CellView>, addr: u64, i: int)
    requires
        0 <= i <= cells.len(),
        forall|k: int| 0 <= k < cells.len() ==> cells[k].addr != addr,
    ensures
        addr_index_from(cells, addr, i) == cells.len(),
    decreases cells.len() - i,
{
    if i < cells.len() {
        lemma_no_cell(cells, addr, i + 1);
    }
}

/// No two cells lie at one address.
pub open spec fn distinct_addrs(cells: Seq<CellView>) -> bool {
    forall|i: int, j: int| 0 <= i < j < cells.len() ==> cells[i].addr != cells[j].addr
}

/// A cell added at the end does not move the cells found before.
pub proof fn lemma_addr_index_push(cells: Seq<CellView>, cell: CellView, addr: u64, i: int)
    requires
        0 <= i <= cells.len(),
    ensures
        addr_index_from(cells, addr, i) < cells.len() ==> addr_index_from(
            cells.push(cell),
            addr,
            i,
        ) == addr_index_from(cells, addr, i),
        addr_index_from(cells, addr, i) == cells.len() && cell.addr == addr ==> addr_index_from(
            cells.push(cell),
            addr,
            i,
        ) == cells.len(),
    decreases cells.len() - i,
{
    if i < cells.len() {
        assert(cells.push(cell)[i] == cells[i]);
        if cells[i].addr != addr {
            lemma_addr_index_push(cells, cell, addr, i + 1);
        }
    } else {
        assert(cells.push(cell)[i] == cell);
    }
}

/// Where the first cell with a name lies.
pub proof fn lemma_name_index(cells: Seq<CellView>, name: Seq<char>, i: int)
    requires
        0 <= i <= cells.len(),
    ensures
        i <= name_index_from(cells, name, i) <= cells.len(),
        name_index_from(cells, name, i) < cells.len() ==> cells[name_index_from(
            cells,
            name,
            i,
        )].name == name,
        forall|j: int| i <= j < name_index_from(cells, name, i) ==> cells[j].name != name,
    decreases cells.len() - i,
{
    if i < cells.len() && cells[i].name != name {
        lemma_name_index(cells, name, i + 1);
    }
}

/// Where the first cell at an address lies.
pub proof fn lemma_addr_index(cells: Seq<CellView>, addr: u64, i: int)
    requires
        0 <= i <= cells.len(),
    ensures
        i <= addr_index_from(cells, addr, i) <= cells.len(),
        addr_index_from(cells, addr, i) < cells.len() ==> cells[addr_index_from(
            cells,
            addr,
            i,
        )].addr == addr,
        forall|j: int| i <= j < addr_index_from(cells, addr, i) ==> cells[j].addr != addr,
    decreases cells.len() - i,
{
    if i < cells.len() && cells[i].addr != addr {
        lemma_addr_index(cells, addr, i + 1);
    }
}

/// A search that has passed `j` cells without a match goes on from `j`.
pub proof fn lemma_name_index_skip(cells: Seq<CellView>, name: Seq<char>, i: int, j: int)
    requires
        0 <= i <= j <= cells.len(),
        forall|k: int| i <= k < j ==> cells[k].name != name,
    ensures
        name_index_from(cells, name, i) == name_index_from(cells, name, j),
    decreases j - i,
{
    if i < j {
        lemma_name_index_skip(cells, name, i + 1, j);
    }
}

pub proof fn lemma_addr_index_skip(cells: Seq<CellView>, addr: u64, i: int, j: int)
    requires
        0 <= i <= j <= cells.len(),
        forall|k: int| i <= k < j ==> cells[k].addr != addr,
    ensures
        addr_index_from(cells, addr, i) == addr_index_from(cells, addr, j),
    decreases j - i,
{
    if i < j {
        lemma_addr_index_skip(cells, addr, i + 1, j);
    }
}

/// A cell added at the end does not move the cells found before.
pub proof fn lemma_name_index_push(cells: Seq<CellView>, cell: CellView, name: Seq<char>, i: int)
    requires
        0 <= i <= cells.len(),
    ensures
        name_index_from(cells, name, i) < cells.len() ==> name_index_from(
            cells.push(cell),
            name,
            i,
        ) == name_index_from(cells, name, i),
        name_index_from(cells, name, i) == cells.len() && cell.name == name ==> name_index_from(
            cells.push(cell),
            name,
            i,
        ) == cells.len(),
    decreases cells.len() - i,
{
    if i < cells.len() {
        assert(cells.push(cell)[i] == cells[i]);
        if cells[i].name != name {
            lemma_name_index_push(cells, cell, name, i + 1);
        }
    }
}

/// The symbols interned so far, in the order of interning. A name is
/// looked up by a search from the front: of a hash table keyed by strings
/// Verus would know too little to prove that a name is interned once.
pub struct SymbolTable {
    cells: Vec<Cell>,
}

impl View for SymbolTable {
    type V = Seq<CellView>;

    closed spec fn view(&self) -> Seq<CellView> {
        cell_views(self.cells@)
    }
}

impl SymbolTable {
    /// The invariant of the table: every cell lies at a heap address that a
    /// pointer word can hold.
    pub open spec fn wf(&self) -> bool {
        &&& forall|i: int|
            0 <= i < self@.len() ==> (#[trigger] self@[i]).addr % 16 == 0 && ARENA_SIZE
                <= self@[i].addr < ADDRESS_LIMIT
        &&& distinct_addrs(self@)
    }

    /// A table without symbols.
    pub fn new() -> (table: SymbolTable)
        ensures
            table@ == Seq::<CellView>::empty(),
            table.wf(),
    {
        let table = SymbolTable { cells: Vec::new() };
        assert(table@ =~= Seq::<CellView>::empty());
        table
    }

    /// The number of symbols with a cell.
    pub fn len(&self) -> (n: usize)
        ensures
            n == self@.len(),
    {
        self.cells.len()
    }

    fn find_name(&self, name: &String) -> (r: usize)
        ensures
            r == name_index_from(self@, name@, 0),
            r <= self@.len(),
    {
        let mut i: usize = 0;
        while i < self.cells.len()
            invariant
                i <= self.cells.len(),
                forall|k: int| 0 <= k < i ==> self@[k].name != name@,
            decreases self.cells.len() - i,
        {
            if self.cells[i].name == *name {
                proof {
                    lemma_name_index_skip(self@, name@, 0, i as int);
                }
                return i;
            }
            i += 1;
        }
        proof {
            lemma_name_index_skip(self@, name@, 0, i as int);
        }
        i
    }

    fn find_addr(&self, addr: u64) -> (r: usize)
        ensures
            r == addr_index_from(self@, addr, 0),
            r <= self@.len(),
    {
        let mut i: usize = 0;
        while i < self.cells.len()
            invariant
                i <= self.cells.len(),
                forall|k: int| 0 <= k < i ==> self@[k].addr != addr,
            decreases self.cells.len() - i,
        {
            if self.cells[i].addr == addr {
                proof {
                    lemma_addr_index_skip(self@, addr, 0, i as int);
                }
                return i;
            }
            i += 1;
        }
        proof {
            lemma_addr_index_skip(self@, addr, 0, i as int);
        }
        i
    }

    /// The symbol called `name`: the one that the name was interned as
    /// before, or a new one, whose cell is allocated on `heap` and holds a
    /// copy of the name and an empty slot. None, and no change, if the heap
    /// cannot serve the cell.
    pub fn intern(&mut self, name: &str, heap: &mut Heap) -> (r: Option<Symbol>)
        requires
            old(self).wf(),
            old(heap).wf(),
            cells_live(old(self)@, old(heap)@),
        ensures
            final(self).wf(),
            final(heap).wf(),
            cells_live(final(self)@, final(heap)@),
            forall|x: int| old(heap)@.live(x) ==> final(heap)@.live(x),
            match symbol_of(old(self)@, name@) {
                Some(sym) => {
                    &&& r == Some(sym)
                    &&& final(self)@ == old(self)@
                    &&& final(heap)@ == old(heap)@
                },
                None => {
                    &&& old(heap)@.alloc_effect(
                        cell_bytes(name@),
                        final(heap)@,
                        match r {
                            Some(sym) => Some(sym.0),
                            None => None,
                        },
                    )
                    &&& final(self)@ == interned(old(self)@, name@, r)
                    &&& r matches Some(sym) ==> !has_cell(old(self)@, sym) && !old(heap)@.live(
                        sym.0 as int,
                    )
                },
            },
            r matches Some(sym) ==> symbol_of(final(self)@, name@) == Some(sym) && sym.0 % 16 == 0
                && ARENA_SIZE <= sym.0 < ADDRESS_LIMIT,
    {
        let owned = name.to_owned();
        let i = self.find_name(&owned);
        proof {
            lemma_name_index(self@, name@, 0);
        }
        if i < self.cells.len() {
            assert(self@[i as int].addr == self.cells[i as int].addr);
            return Some(Symbol(self.cells[i].addr));
        }
        let bytes = name.len();
        let size = if bytes > MAX_SMALL_OBJ_SIZE {
            MAX_SMALL_OBJ_SIZE + CELL_SIZE
        } else {
            CELL_SIZE + bytes
        };
        match heap.allocate(size) {
            Some(addr) => {
                let ghost before = self@;
                let ghost cell = CellView { name: name@, addr, value: None };
                self.cells.push(Cell { name: owned, addr, value: None });
                proof {
                    assert(self@ =~= before.push(cell));
                    lemma_name_index_push(before, cell, name@, 0);
                    assert forall|k: int| 0 <= k < before.len() implies before[k].addr
                        != addr by {
                        assert(old(heap)@.live(before[k].addr as int));
                    }
                    lemma_no_cell(before, addr, 0);
                    assert forall|k: int| 0 <= k < self@.len() implies (#[trigger] self@[k]).addr
                        % 16 == 0 && ARENA_SIZE <= self@[k].addr < ADDRESS_LIMIT by {
                        if k < before.len() {
                            assert(self@[k] == before[k]);
                        }
                    }
                    assert forall|a: int, b: int| 0 <= a < b < self@.len() implies self@[a].addr
                        != self@[b].addr by {
                        assert(self@[a] == before[a]);
                        if b < before.len() {
                            assert(self@[b] == before[b]);
                        }
                    }
                    assert forall|k: int| 0 <= k < self@.len() implies heap@.live(
                        (#[trigger] self@[k]).addr as int,
                    ) by {
                        if k < before.len() {
                            assert(self@[k] == before[k]);
                            assert(old(heap)@.live(before[k].addr as int));
                        }
                    }
                }
                Some(Symbol(addr))
            },
            None => None,
        }
    }

    /// The name of `sym`, if it is a sentinel or has a cell.
    pub fn get_name(&self, sym: Symbol) -> (r: Option<String>)
        ensures
            r matches Some(name) ==> name@ == name_of(self@, sym),
            r is Some <==> sym.0 == NIL || sym.0 == T || has_cell(self@, sym),
    {
        if sym.0 == NIL {
            return Some("nil".to_owned());
        }
        if sym.0 == T {
            return Some("t".to_owned());
        }
        let i = self.find_addr(sym.0);
        if i < self.cells.len() {
            Some(self.cells[i].name.clone())
        } else {
            None
        }
    }

    /// Whether `sym` has a cell in this table.
    pub fn has_cell(&self, sym: Symbol) -> (b: bool)
        ensures
            b == has_cell(self@, sym),
    {
        let i = self.find_addr(sym.0);
        i < self.cells.len()
    }

    /// The value slot of `sym`.
    pub fn get(&self, sym: Symbol) -> (r: Option<Val>)
        ensures
            r == value_of(self@, sym),
    {
        if sym.0 == NIL {
            return Some(Val(NIL));
        }
        if sym.0 == T {
            return Some(Val(T));
        }
        let i = self.find_addr(sym.0);
        if i < self.cells.len() {
            self.cells[i].value
        } else {
            None
        }
    }

    /// Writes the value slot of `sym`. The sentinels cannot be assigned to,
    /// and a symbol without a cell has no slot.
    pub fn set(&mut self, sym: Symbol, value: Val)
        requires
            old(self).wf(),
            sym.0 != NIL,
            sym.0 != T,
            has_cell(old(self)@, sym),
        ensures
            final(self).wf(),
            final(self)@ == with_value(old(self)@, sym, value),
            value_of(final(self)@, sym) == Some(value),
    {
        let i = self.find_addr(sym.0);
        let ghost before = self@;
        self.cells[i].value = Some(value);
        proof {
            lemma_addr_index(before, sym.0, 0);
            assert(self@ =~= with_value(before, sym, value));
            lemma_with_value(before, sym, value, sym);
            assert forall|k: int| 0 <= k < self@.len() implies (#[trigger] self@[k]).addr % 16
                == 0 && ARENA_SIZE <= self@[k].addr < ADDRESS_LIMIT by {
                assert(self@[k].addr == before[k].addr);
            }
            assert forall|a: int, b: int| 0 <= a < b < self@.len() implies self@[a].addr
                != self@[b].addr by {
                assert(self@[a].addr == before[a].addr);
                assert(self@[b].addr == before[b].addr);
            }
        }
    }
}

/// Setting the slot of one symbol leaves the names and addresses, and the
/// slots of the other symbols, as they were.
pub proof fn lemma_with_value(cells: Seq<CellView>, sym: Symbol, value: Val, other: Symbol)
    requires
        has_cell(cells, sym),
        sym.0 != NIL,
        sym.0 != T,
    ensures
        has_cell(with_value(cells, sym, value), other) == has_cell(cells, other),
        other == sym ==> value_of(with_value(cells, sym, value), other) == Some(value),
        other != sym ==> value_of(with_value(cells, sym, value), other) == value_of(cells, other),
        forall|name: Seq<char>|
            symbol_of(with_value(cells, sym, value), name) == symbol_of(cells, name),
{
    let after = with_value(cells, sym, value);
    lemma_addr_index(cells, sym.0, 0);
    lemma_same_addrs(cells, after, other.0, 0);
    lemma_addr_index(cells, other.0, 0);
    assert forall|name: Seq<char>| symbol_of(after, name) == symbol_of(cells, name) by {
        lemma_same_names(cells, after, name, 0);
        lemma_name_index(cells, name, 0);
    }
}

/// Setting a slot moves no cell.
pub proof fn lemma_with_value_live(cells: Seq<CellView>, sym: Symbol, value: Val, heap: HeapView)
    requires
        cells_live(cells, heap),
    ensures
        cells_live(with_value(cells, sym, value), heap),
{
    let after = with_value(cells, sym, value);
    lemma_addr_index(cells, sym.0, 0);
    assert forall|i: int| 0 <= i < after.len() implies heap.live(
        (#[trigger] after[i]).addr as int,
    ) by {
        assert(after[i].addr == cells[i].addr);
        assert(heap.live(cells[i].addr as int));
    }
}

/// Cells with the same addresses are found at the same places.
pub proof fn lemma_same_addrs(a: Seq<CellView>, b: Seq<CellView>, addr: u64, i: int)
    requires
        a.len() == b.len(),
        forall|k: int| 0 <= k < a.len() ==> a[k].addr == b[k].addr,
        0 <= i <= a.len(),
    ensures
        addr_index_from(a, addr, i) == addr_index_from(b, addr, i),
    decreases a.len() - i,
{
    if i < a.len() && a[i].addr != addr {
        lemma_same_addrs(a, b, addr, i + 1);
    }
}

/// Cells with the same names are found at the same places.
pub proof fn lemma_same_names(a: Seq<CellView>, b: Seq<CellView>, name: Seq<char>, i: int)
    requires
        a.len() == b.len(),
        forall|k: int| 0 <= k < a.len() ==> a[k].name == b[k].name,
        0 <= i <= a.len(),
    ensures
        name_index_from(a, name, i) == name_index_from(b, name, i),
    decreases a.len() - i,
{
    if i < a.len() && a[i].name != name {
        lemma_same_names(a, b, name, i + 1);
    }
}

/// Interning is idempotent: a name that was interned is found again, as the
/// same symbol, whatever was interned in between.
pub proof fn lemma_intern_stable(cells: Seq<CellView>, name: Seq<char>, cell: CellView)
    requires
        symbol_of(cells, name) is Some,
    ensures
        symbol_of(cells.push(cell), name) == symbol_of(cells, name),
{
    lemma_name_index(cells, name, 0);
    lemma_name_index_push(cells, cell, name, 0);
}

} // verus!
