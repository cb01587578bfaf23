//! The host functions: what the machine offers beyond its opcodes. Each
//! takes the arguments of a call and the global context, and returns a value
//! and whether the machine should halt.
//!
//! Printing, and turning a double into an index, are the host's business: a
//! function that needs one of them says so in place of a value.
//!
//! An index outside a vector, and a pop of an empty vector, are fatal: the
//! vector functions are not to be called on them. `call` looks before it
//! calls, and ends such a call as a failure of the machine.

use vstd::prelude::*;
use crate::global::{Global, GlobalView, HeapObject, ObjectView};
use crate::values::maps::{map_limit, spec_map_limit};
use crate::values::vectors::{spec_vector_limit, vector_limit};
use crate::values::{int_word, Cases, Intrinsic, Val, ValMap, Vector};

verus! {

/// What can go wrong while the machine runs.
#[derive(Copy, Clone, Debug, PartialEq, Eq, Structural)]
pub enum ErrorKind {
    /// An operation found fewer values on the stack than it takes.
    StackUnderflow,
    /// A `Ret` with no frame to return to.
    FrameUnderflow,
    /// The instruction pointer left the code, or the code object is none.
    BadCode,
    /// A byte that encodes no operation.
    BadOpcode,
    /// A constant index past the end of the pool.
    BadConstant,
    /// A slot past the top of the stack.
    BadSlot,
    /// An operand of the wrong kind.
    TypeError,
    /// A call of something that is no function.
    NotCallable,
    /// A host function called with the wrong number of arguments.
    BadArity,
    /// A vector index below zero or past the end.
    IndexOutOfBounds,
    /// A pop of an empty vector.
    EmptyVector,
    /// A symbol without a value.
    Unbound,
    /// An assignment to `nil` or `t`.
    AssignToConstant,
    /// Integer arithmetic that leaves the 32 bits of an integer word.
    IntegerOverflow,
    DivisionByZero,
    /// The heap, a vector or a map cannot grow.
    OutOfMemory,
}

/// What a host function does besides changing the global context.
#[derive(Copy, Clone, Debug, PartialEq, Eq, Structural)]
pub enum Outcome {
    /// The call returns a value, and may stop the machine.
    Return(Val, bool),
    /// The host is to print the value; the call returns `nil`.
    Print(Val),
    /// The index of a vector operation is a double: the host is to turn it
    /// into an integer and make the call again.
    NeedsIndex,
    Failed(ErrorKind),
}

/// The vector that `v` points to.
pub open spec fn vector_at(g: GlobalView, v: Val) -> Option<Seq<Val>> {
    match v.classify() {
        Cases::Vector(addr) => if g.objects.contains_key(addr) {
            match g.objects[addr] {
                ObjectView::Vector(items) => Some(items),
                _ => None,
            }
        } else {
            None
        },
        _ => None,
    }
}

/// The map that `v` points to.
pub open spec fn map_at(g: GlobalView, v: Val) -> Option<ObjectView> {
    match v.classify() {
        Cases::ValMap(addr) => if g.objects.contains_key(addr) {
            match g.objects[addr] {
                ObjectView::Table { entries, len, small } => Some(g.objects[addr]),
                _ => None,
            }
        } else {
            None
        },
        _ => None,
    }
}

/// The context with `obj` at the address of `v`.
pub open spec fn with_object(g: GlobalView, v: Val, obj: ObjectView) -> GlobalView {
    GlobalView { objects: g.objects.insert(v.addr(), obj), ..g }
}

/// What an index argument stands for.
pub ghost enum IndexArg {
    At(int),
    Negative,
    Double,
    NoNumber,
}

pub open spec fn index_arg(v: Val) -> IndexArg {
    match v.classify() {
        Cases::Int(i) => if i < 0 {
            IndexArg::Negative
        } else {
            IndexArg::At(i as int)
        },
        Cases::Num(_) => IndexArg::Double,
        _ => IndexArg::NoNumber,
    }
}

/// The map after `key` was set to `value`.
pub open spec fn table_put(m: ObjectView, key: Val, value: Val) -> ObjectView {
    match m {
        ObjectView::Table { entries, len, small } => ObjectView::Table {
            entries: entries.insert(key, value),
            len: if entries.contains_key(key) {
                len
            } else {
                len + 1
            },
            small: small && (entries.contains_key(key) || len < 31),
        },
        _ => m,
    }
}

/// The map after `key` was removed.
pub open spec fn table_remove(m: ObjectView, key: Val) -> ObjectView {
    match m {
        ObjectView::Table { entries, len, small } => ObjectView::Table {
            entries: entries.remove(key),
            len: if entries.contains_key(key) {
                (len - 1) as nat
            } else {
                len
            },
            small,
        },
        _ => m,
    }
}

/// The value under `key`, or `nil`.
pub open spec fn table_get(m: ObjectView, key: Val) -> Val {
    match m {
        ObjectView::Table { entries, len, small } => if entries.contains_key(key) {
            entries[key]
        } else {
            Val(0)
        },
        _ => Val(0),
    }
}

/// Whether `key` is one of the keys.
pub open spec fn table_has(m: ObjectView, key: Val) -> bool {
    match m {
        ObjectView::Table { entries, len, small } => entries.contains_key(key),
        _ => false,
    }
}

pub open spec fn table_len(m: ObjectView) -> nat {
    match m {
        ObjectView::Table { entries, len, small } => len,
        _ => 0,
    }
}

/// The empty map.
pub open spec fn empty_table() -> ObjectView {
    ObjectView::Table { entries: Map::empty(), len: 0, small: true }
}

/// Whether `index` lies outside a vector of `n` items.
pub open spec fn outside_spec(index: Val, n: nat) -> bool {
    match index_arg(index) {
        IndexArg::Negative => true,
        IndexArg::At(i) => i >= n,
        _ => false,
    }
}

/// Whether a call of the host function `f` on `args` is fatal, and why: an
/// integer index of a vector below zero or past its end, and a pop of an
/// empty vector, are.
pub open spec fn vector_fault(f: Intrinsic, args: Seq<Val>, g: GlobalView) -> Option<ErrorKind> {
    let indexed = (f == Intrinsic::VectorGet && args.len() == 2) || (f == Intrinsic::VectorSet
        && args.len() == 3);
    let popped = f == Intrinsic::VectorPop && args.len() == 1;
    if indexed || popped {
        match vector_at(g, args[0]) {
            None => None,
            Some(items) => if indexed && outside_spec(args[1], items.len()) {
                Some(ErrorKind::IndexOutOfBounds)
            } else if popped && items.len() == 0 {
                Some(ErrorKind::EmptyVector)
            } else {
                None
            },
        }
    } else {
        None
    }
}

/// What the host function `f` does on `args`: the global context after the
/// call, and the outcome. A call that is fatal fails and changes nothing.
pub open spec fn native_spec(f: Intrinsic, args: Seq<Val>, g: GlobalView) -> (GlobalView, Outcome) {
    match f {
        Intrinsic::Print => if args.len() != 1 {
            (g, Outcome::Failed(ErrorKind::BadArity))
        } else {
            (g, Outcome::Print(args[0]))
        },
        Intrinsic::Exit => if args.len() != 1 {
            (g, Outcome::Failed(ErrorKind::BadArity))
        } else if args[0].spec_is_ptr() {
            (g, Outcome::Failed(ErrorKind::TypeError))
        } else {
            (g, Outcome::Return(args[0], true))
        },
        Intrinsic::VectorPush => if args.len() != 2 {
            (g, Outcome::Failed(ErrorKind::BadArity))
        } else {
            match vector_at(g, args[0]) {
                None => (g, Outcome::Failed(ErrorKind::TypeError)),
                Some(items) => if items.len() >= spec_vector_limit() {
                    (g, Outcome::Failed(ErrorKind::OutOfMemory))
                } else {
                    (
                        with_object(g, args[0], ObjectView::Vector(items.push(args[1]))),
                        Outcome::Return(Val(0), false),
                    )
                },
            }
        },
        Intrinsic::VectorLength => if args.len() != 1 {
            (g, Outcome::Failed(ErrorKind::BadArity))
        } else {
            match vector_at(g, args[0]) {
                None => (g, Outcome::Failed(ErrorKind::TypeError)),
                Some(items) => (g, Outcome::Return(Val(int_word(items.len() as i32)), false)),
            }
        },
        Intrinsic::VectorSet => if args.len() != 3 {
            (g, Outcome::Failed(ErrorKind::BadArity))
        } else {
            match vector_at(g, args[0]) {
                None => (g, Outcome::Failed(ErrorKind::TypeError)),
                Some(items) => match index_arg(args[1]) {
                    IndexArg::NoNumber => (g, Outcome::Failed(ErrorKind::TypeError)),
                    IndexArg::Double => (g, Outcome::NeedsIndex),
                    IndexArg::Negative => (g, Outcome::Failed(ErrorKind::IndexOutOfBounds)),
                    IndexArg::At(i) => if i >= items.len() {
                        (g, Outcome::Failed(ErrorKind::IndexOutOfBounds))
                    } else {
                        (
                            with_object(g, args[0], ObjectView::Vector(items.update(i, args[2]))),
                            Outcome::Return(Val(0), false),
                        )
                    },
                },
            }
        },
        Intrinsic::VectorGet => if args.len() != 2 {
            (g, Outcome::Failed(ErrorKind::BadArity))
        } else {
            match vector_at(g, args[0]) {
                None => (g, Outcome::Failed(ErrorKind::TypeError)),
                Some(items) => match index_arg(args[1]) {
                    IndexArg::NoNumber => (g, Outcome::Failed(ErrorKind::TypeError)),
                    IndexArg::Double => (g, Outcome::NeedsIndex),
                    IndexArg::Negative => (g, Outcome::Failed(ErrorKind::IndexOutOfBounds)),
                    IndexArg::At(i) => if i >= items.len() {
                        (g, Outcome::Failed(ErrorKind::IndexOutOfBounds))
                    } else {
                        (g, Outcome::Return(items[i], false))
                    },
                },
            }
        },
        Intrinsic::VectorPop => if args.len() != 1 {
            (g, Outcome::Failed(ErrorKind::BadArity))
        } else {
            match vector_at(g, args[0]) {
                None => (g, Outcome::Failed(ErrorKind::TypeError)),
                Some(items) => if items.len() == 0 {
                    (g, Outcome::Failed(ErrorKind::EmptyVector))
                } else {
                    (
                        with_object(g, args[0], ObjectView::Vector(items.drop_last())),
                        Outcome::Return(items.last(), false),
                    )
                },
            }
        },
        Intrinsic::MapPut => if args.len() != 3 {
            (g, Outcome::Failed(ErrorKind::BadArity))
        } else {
            match map_at(g, args[0]) {
                None => (g, Outcome::Failed(ErrorKind::TypeError)),
                Some(m) => if table_len(m) >= spec_map_limit() && !table_has(m, args[1]) {
                    (g, Outcome::Failed(ErrorKind::OutOfMemory))
                } else {
                    (
                        with_object(g, args[0], table_put(m, args[1], args[2])),
                        Outcome::Return(table_get(m, args[1]), false),
                    )
                },
            }
        },
        Intrinsic::MapGet => if args.len() != 2 {
            (g, Outcome::Failed(ErrorKind::BadArity))
        } else {
            match map_at(g, args[0]) {
                None => (g, Outcome::Failed(ErrorKind::TypeError)),
                Some(m) => (g, Outcome::Return(table_get(m, args[1]), false)),
            }
        },
        Intrinsic::MapLength => if args.len() != 1 {
            (g, Outcome::Failed(ErrorKind::BadArity))
        } else {
            match map_at(g, args[0]) {
                None => (g, Outcome::Failed(ErrorKind::TypeError)),
                Some(m) => (g, Outcome::Return(Val(int_word(table_len(m) as i32)), false)),
            }
        },
        Intrinsic::MapRemove => if args.len() != 2 {
            (g, Outcome::Failed(ErrorKind::BadArity))
        } else {
            match map_at(g, args[0]) {
                None => (g, Outcome::Failed(ErrorKind::TypeError)),
                Some(m) => (
                    with_object(g, args[0], table_remove(m, args[1])),
                    Outcome::Return(table_get(m, args[1]), false),
                ),
            }
        },
        Intrinsic::MapClear => if args.len() != 1 {
            (g, Outcome::Failed(ErrorKind::BadArity))
        } else {
            match map_at(g, args[0]) {
                None => (g, Outcome::Failed(ErrorKind::TypeError)),
                Some(m) => (with_object(g, args[0], empty_table()), Outcome::Return(Val(0), false)),
            }
        },
    }
}

/// Takes the vector that `v` points to out of the store.
fn take_vector(global: &mut Global, v: Val) -> (r: Option<Vector>)
    requires
        old(global).wf(),
    ensures
        final(global).wf(),
        match r {
            Some(vector) => {
                &&& vector_at(old(global)@, v) == Some(vector@)
                &&& vector.wf()
                &&& final(global)@.heap == old(global)@.heap
                &&& final(global)@.symbols == old(global)@.symbols
                &&& final(global)@.objects == old(global)@.objects.remove(v.addr())
                &&& old(global)@.objects.contains_key(v.addr())
                &&& old(global)@.objects[v.addr()] == ObjectView::Vector(vector@)
                &&& final(global)@.heap.live(v.addr() as int)
            },
            None => vector_at(old(global)@, v) is None && final(global)@ == old(global)@,
        },
{
    let ghost before = global@;
    match v.get() {
        Cases::Vector(addr) => {
            let is_vector = match global.object(addr) {
                Some(HeapObject::Vector(_)) => true,
                _ => false,
            };
            if !is_vector {
                return None;
            }
            match global.take(addr) {
                Some(HeapObject::Vector(vector)) => Some(vector),
                Some(other) => {
                    global.put(addr, other);
                    assert(global@.objects =~= before.objects);
                    None
                },
                None => None,
            }
        },
        _ => None,
    }
}

/// Takes the map that `v` points to out of the store.
fn take_map(global: &mut Global, v: Val) -> (r: Option<ValMap>)
    requires
        old(global).wf(),
    ensures
        final(global).wf(),
        match r {
            Some(map) => {
                &&& map_at(old(global)@, v) == Some(HeapObject::Table(map)@)
                &&& map.wf()
                &&& final(global)@.heap == old(global)@.heap
                &&& final(global)@.symbols == old(global)@.symbols
                &&& final(global)@.objects == old(global)@.objects.remove(v.addr())
                &&& old(global)@.objects.contains_key(v.addr())
                &&& old(global)@.objects[v.addr()] == HeapObject::Table(map)@
                &&& final(global)@.heap.live(v.addr() as int)
            },
            None => map_at(old(global)@, v) is None && final(global)@ == old(global)@,
        },
{
    let ghost before = global@;
    match v.get() {
        Cases::ValMap(addr) => {
            let is_map = match global.object(addr) {
                Some(HeapObject::Table(_)) => true,
                _ => false,
            };
            if !is_map {
                return None;
            }
            match global.take(addr) {
                Some(HeapObject::Table(map)) => Some(map),
                Some(other) => {
                    global.put(addr, other);
                    assert(global@.objects =~= before.objects);
                    None
                },
                None => None,
            }
        },
        _ => None,
    }
}

/// `(exit value)`: stops the machine with `value`, which must be a number.
pub fn exit(args: &[Val], global: &mut Global) -> (r: Outcome)
    requires
        old(global).wf(),
    ensures
        final(global).wf(),
        (final(global)@, r) == native_spec(Intrinsic::Exit, args@, old(global)@),
{
    if args.len() != 1 {
        return Outcome::Failed(ErrorKind::BadArity);
    }
    let placeholder = args[0];
    if placeholder.is_ptr() {
        Outcome::Failed(ErrorKind::TypeError)
    } else {
        Outcome::Return(placeholder, true)
    }
}

/// `(print value)`: hands `value` to the host for printing.
pub fn print(args: &[Val], global: &mut Global) -> (r: Outcome)
    requires
        old(global).wf(),
    ensures
        final(global).wf(),
        (final(global)@, r) == native_spec(Intrinsic::Print, args@, old(global)@),
{
    if args.len() != 1 {
        return Outcome::Failed(ErrorKind::BadArity);
    }
    Outcome::Print(args[0])
}

/// `(vector-push! vector value)`: adds `value` at the end; returns `nil`.
pub fn vector_push(args: &[Val], global: &mut Global) -> (r: Outcome)
    requires
        old(global).wf(),
    ensures
        final(global).wf(),
        (final(global)@, r) == native_spec(Intrinsic::VectorPush, args@, old(global)@),
{
    if args.len() != 2 {
        return Outcome::Failed(ErrorKind::BadArity);
    }
    let ghost before = global@;
    match take_vector(global, args[0]) {
        None => Outcome::Failed(ErrorKind::TypeError),
        Some(mut vector) => {
            let addr = args[0].get_addr();
            if vector.count() >= vector_limit() {
                global.put(addr, HeapObject::Vector(vector));
                assert(global@.objects =~= before.objects);
                assert(global@ == before);
                return Outcome::Failed(ErrorKind::OutOfMemory);
            }
            vector.push(args[1]);
            global.put(addr, HeapObject::Vector(vector));
            assert(global@.objects =~= before.objects.insert(addr, ObjectView::Vector(vector@)));
            Outcome::Return(Val::nil(), false)
        },
    }
}

/// `(vector-length vector)`: the number of items, as an integer.
pub fn vector_len(args: &[Val], global: &mut Global) -> (r: Outcome)
    requires
        old(global).wf(),
    ensures
        final(global).wf(),
        (final(global)@, r) == native_spec(Intrinsic::VectorLength, args@, old(global)@),
{
    if args.len() != 1 {
        return Outcome::Failed(ErrorKind::BadArity);
    }
    let ghost before = global@;
    match take_vector(global, args[0]) {
        None => Outcome::Failed(ErrorKind::TypeError),
        Some(mut vector) => {
            let addr = args[0].get_addr();
            let len = vector.len();
            {
                global.put(addr, HeapObject::Vector(vector));
                assert(global@.objects =~= before.objects);
                assert(global@ == before);
            }
            Outcome::Return(len, false)
        },
    }
}

/// `(vector-get vector index)`: item `index`. The index must lie in the
/// vector.
pub fn vector_get(args: &[Val], global: &mut Global) -> (r: Outcome)
    requires
        old(global).wf(),
        vector_fault(Intrinsic::VectorGet, args@, old(global)@) is None,
    ensures
        final(global).wf(),
        (final(global)@, r) == native_spec(Intrinsic::VectorGet, args@, old(global)@),
{
    if args.len() != 2 {
        return Outcome::Failed(ErrorKind::BadArity);
    }
    let ghost before = global@;
    match take_vector(global, args[0]) {
        None => Outcome::Failed(ErrorKind::TypeError),
        Some(mut vector) => {
            let addr = args[0].get_addr();
            let r = match args[1].get() {
                Cases::Int(index) => {
                    if index < 0 {
                        Outcome::Failed(ErrorKind::IndexOutOfBounds)
                    } else {
                        match vector.get(index as usize) {
                            Some(item) => Outcome::Return(item, false),
                            None => Outcome::Failed(ErrorKind::IndexOutOfBounds),
                        }
                    }
                },
                Cases::Num(_) => Outcome::NeedsIndex,
                _ => Outcome::Failed(ErrorKind::TypeError),
            };
            {
                global.put(addr, HeapObject::Vector(vector));
                assert(global@.objects =~= before.objects);
                assert(global@ == before);
            }
            r
        },
    }
}

/// `(vector-pop! vector)`: takes the last item off and returns it. The
/// vector must not be empty.
pub fn vector_pop(args: &[Val], global: &mut Global) -> (r: Outcome)
    requires
        old(global).wf(),
        vector_fault(Intrinsic::VectorPop, args@, old(global)@) is None,
    ensures
        final(global).wf(),
        (final(global)@, r) == native_spec(Intrinsic::VectorPop, args@, old(global)@),
{
    if args.len() != 1 {
        return Outcome::Failed(ErrorKind::BadArity);
    }
    let ghost before = global@;
    match take_vector(global, args[0]) {
        None => Outcome::Failed(ErrorKind::TypeError),
        Some(mut vector) => {
            let addr = args[0].get_addr();
            match vector.pop() {
                Some(item) => {
                    global.put(addr, HeapObject::Vector(vector));
                    assert(global@.objects =~= before.objects.insert(addr, ObjectView::Vector(vector@)));
                    Outcome::Return(item, false)
                },
                None => {
                    global.put(addr, HeapObject::Vector(vector));
                    assert(global@.objects =~= before.objects);
                    assert(global@ == before);
                    Outcome::Failed(ErrorKind::EmptyVector)
                },
            }
        },
    }
}

/// `(vector-set! vector index value)`: overwrites item `index`; returns
/// `nil`. The index must lie in the vector.
pub fn vector_set(args: &[Val], global: &mut Global) -> (r: Outcome)
    requires
        old(global).wf(),
        vector_fault(Intrinsic::VectorSet, args@, old(global)@) is None,
    ensures
        final(global).wf(),
        (final(global)@, r) == native_spec(Intrinsic::VectorSet, args@, old(global)@),
{
    if args.len() != 3 {
        return Outcome::Failed(ErrorKind::BadArity);
    }
    let ghost before = global@;
    match take_vector(global, args[0]) {
        None => Outcome::Failed(ErrorKind::TypeError),
        Some(mut vector) => {
            let addr = args[0].get_addr();
            let r = match args[1].get() {
                Cases::Int(index) => {
                    if index < 0 {
                        Outcome::Failed(ErrorKind::IndexOutOfBounds)
                    } else {
                        match vector.set(index as usize, args[2]) {
                            Some(_) => Outcome::Return(Val::nil(), false),
                            None => Outcome::Failed(ErrorKind::IndexOutOfBounds),
                        }
                    }
                },
                Cases::Num(_) => Outcome::NeedsIndex,
                _ => Outcome::Failed(ErrorKind::TypeError),
            };
            global.put(addr, HeapObject::Vector(vector));
            assert(global@.objects =~= before.objects.insert(addr, ObjectView::Vector(vector@)));
            proof {
                if !(r matches Outcome::Return(_, _)) {
                    assert(global@.objects =~= before.objects);
                }
            }
            r
        },
    }
}

/// `(map-put! map key value)`: sets `key` to `value`; returns the old value
/// or `nil`. A map that holds as many entries as a map can takes no new key.
pub fn map_put(args: &[Val], global: &mut Global) -> (r: Outcome)
    requires
        old(global).wf(),
    ensures
        final(global).wf(),
        (final(global)@, r) == native_spec(Intrinsic::MapPut, args@, old(global)@),
{
    if args.len() != 3 {
        return Outcome::Failed(ErrorKind::BadArity);
    }
    let ghost before = global@;
    match take_map(global, args[0]) {
        None => Outcome::Failed(ErrorKind::TypeError),
        Some(mut map) => {
            let addr = args[0].get_addr();
            if map.len() >= map_limit() && !map.has_key(args[1]) {
                global.put(addr, HeapObject::Table(map));
                assert(global@.objects =~= before.objects);
                assert(global@ == before);
                return Outcome::Failed(ErrorKind::OutOfMemory);
            }
            let old_value = map.insert(args[1], args[2]);
            global.put(addr, HeapObject::Table(map));
            assert(global@.objects =~= before.objects.insert(addr, HeapObject::Table(map)@));
            Outcome::Return(old_value, false)
        },
    }
}

/// `(map-get map key)`: the value under `key`, or `nil`.
pub fn map_get(args: &[Val], global: &mut Global) -> (r: Outcome)
    requires
        old(global).wf(),
    ensures
        final(global).wf(),
        (final(global)@, r) == native_spec(Intrinsic::MapGet, args@, old(global)@),
{
    if args.len() != 2 {
        return Outcome::Failed(ErrorKind::BadArity);
    }
    let ghost before = global@;
    match take_map(global, args[0]) {
        None => Outcome::Failed(ErrorKind::TypeError),
        Some(mut map) => {
            let addr = args[0].get_addr();
            let value = map.get(args[1]);
            global.put(addr, HeapObject::Table(map));
            assert(global@.objects =~= before.objects);
            assert(global@ == before);
            Outcome::Return(value, false)
        },
    }
}

/// `(map-remove! map key)`: takes `key` out; returns the old value or `nil`.
pub fn map_remove(args: &[Val], global: &mut Global) -> (r: Outcome)
    requires
        old(global).wf(),
    ensures
        final(global).wf(),
        (final(global)@, r) == native_spec(Intrinsic::MapRemove, args@, old(global)@),
{
    if args.len() != 2 {
        return Outcome::Failed(ErrorKind::BadArity);
    }
    let ghost before = global@;
    match take_map(global, args[0]) {
        None => Outcome::Failed(ErrorKind::TypeError),
        Some(mut map) => {
            let addr = args[0].get_addr();
            let old_value = map.remove(args[1]);
            global.put(addr, HeapObject::Table(map));
            assert(global@.objects =~= before.objects.insert(addr, HeapObject::Table(map)@));
            Outcome::Return(old_value, false)
        },
    }
}

/// `(map-length map)`: the number of entries, as an integer.
pub fn map_length(args: &[Val], global: &mut Global) -> (r: Outcome)
    requires
        old(global).wf(),
    ensures
        final(global).wf(),
        (final(global)@, r) == native_spec(Intrinsic::MapLength, args@, old(global)@),
{
    if args.len() != 1 {
        return Outcome::Failed(ErrorKind::BadArity);
    }
    let ghost before = global@;
    match take_map(global, args[0]) {
        None => Outcome::Failed(ErrorKind::TypeError),
        Some(mut map) => {
            let addr = args[0].get_addr();
            let n = map.len();
            proof {
                crate::values::maps::lemma_map_len(&map);
            }
            global.put(addr, HeapObject::Table(map));
            assert(global@.objects =~= before.objects);
            assert(global@ == before);
            Outcome::Return(Val::from_int(n as i32), false)
        },
    }
}

/// `(map-clear! map)`: empties the map; returns `nil`.
pub fn map_clear(args: &[Val], global: &mut Global) -> (r: Outcome)
    requires
        old(global).wf(),
    ensures
        final(global).wf(),
        (final(global)@, r) == native_spec(Intrinsic::MapClear, args@, old(global)@),
{
    if args.len() != 1 {
        return Outcome::Failed(ErrorKind::BadArity);
    }
    let ghost before = global@;
    match take_map(global, args[0]) {
        None => Outcome::Failed(ErrorKind::TypeError),
        Some(mut map) => {
            let addr = args[0].get_addr();
            map.clear();
            global.put(addr, HeapObject::Table(map));
            assert(global@.objects =~= before.objects.insert(addr, empty_table()));
            Outcome::Return(Val::nil(), false)
        },
    }
}

/// In a store, a get after a put of the same key in the same map returns
/// what was put; a second put of the key overwrites the first and leaves
/// the length as the first left it.
pub proof fn lemma_store_put_get(g: GlobalView, m: Val, key: Val, first: Val, second: Val)
    requires
        g.wf(),
        map_at(g, m) is Some,
        table_len(map_at(g, m)->0) < spec_map_limit(),
    ensures
        ({
            let g1 = native_spec(Intrinsic::MapPut, seq![m, key, first], g).0;
            let g2 = native_spec(Intrinsic::MapPut, seq![m, key, second], g1).0;
            &&& map_at(g1, m) is Some
            &&& map_at(g2, m) is Some
            &&& native_spec(Intrinsic::MapGet, seq![m, key], g1).1 == Outcome::Return(first, false)
            &&& native_spec(Intrinsic::MapPut, seq![m, key, second], g1).1 == Outcome::Return(
                first,
                false,
            )
            &&& native_spec(Intrinsic::MapGet, seq![m, key], g2).1 == Outcome::Return(
                second,
                false,
            )
            &&& native_spec(Intrinsic::MapLength, seq![m], g2).1 == native_spec(
                Intrinsic::MapLength,
                seq![m],
                g1,
            ).1
        }),
{
}

/// In a store, a pop after a push on the same vector returns what was
/// pushed and leaves the vector as it was before the push; and a get after
/// a set of an item returns what was set.
pub proof fn lemma_store_push_pop(g: GlobalView, v: Val, x: Val, i: i32)
    requires
        g.wf(),
        vector_at(g, v) is Some,
        vector_at(g, v)->0.len() < spec_vector_limit(),
    ensures
        ({
            let g1 = native_spec(Intrinsic::VectorPush, seq![v, x], g).0;
            let (g2, r) = native_spec(Intrinsic::VectorPop, seq![v], g1);
            &&& vector_fault(Intrinsic::VectorPop, seq![v], g1) is None
            &&& r == Outcome::Return(x, false)
            &&& vector_at(g2, v) == vector_at(g, v)
        }),
        0 <= i < vector_at(g, v)->0.len() ==> ({
            let at = Val(int_word(i));
            let g1 = native_spec(Intrinsic::VectorSet, seq![v, at, x], g).0;
            &&& vector_fault(Intrinsic::VectorSet, seq![v, at, x], g) is None
            &&& vector_fault(Intrinsic::VectorGet, seq![v, at], g1) is None
            &&& native_spec(Intrinsic::VectorGet, seq![v, at], g1).1 == Outcome::Return(x, false)
            &&& vector_at(g1, v) == Some(vector_at(g, v)->0.update(i as int, x))
        }),
{
    let items = vector_at(g, v)->0;
    assert(items.push(x).drop_last() =~= items);
    crate::values::lemma_int_word(i);
}

/// In a store, after a key was removed from a map a get of it returns
/// `nil`, and the map counts one entry less if it held the key.
pub proof fn lemma_store_remove_get(g: GlobalView, m: Val, key: Val)
    requires
        g.wf(),
        map_at(g, m) is Some,
    ensures
        ({
            let g1 = native_spec(Intrinsic::MapRemove, seq![m, key], g).0;
            &&& map_at(g1, m) is Some
            &&& native_spec(Intrinsic::MapGet, seq![m, key], g1).1 == Outcome::Return(Val(0), false)
            &&& table_has(map_at(g, m)->0, key) ==> table_len(map_at(g1, m)->0) == table_len(
                map_at(g, m)->0,
            ) - 1
            &&& !table_has(map_at(g, m)->0, key) ==> table_len(map_at(g1, m)->0) == table_len(
                map_at(g, m)->0,
            )
        }),
{
    let t = map_at(g, m)->0;
    assert(g.objects[m.addr()].wf());
    match t {
        ObjectView::Table { entries, len, small } => {
            crate::values::maps::lemma_changes_keep_count(
                crate::values::maps::MapModel { entries, len },
                key,
                Val(0),
            );
        },
        _ => {},
    }
}

/// The number of items of the vector that `v` points to.
fn vector_count(global: &Global, v: Val) -> (r: Option<usize>)
    requires
        global.wf(),
    ensures
        match r {
            Some(n) => vector_at(global@, v) is Some && vector_at(global@, v)->0.len() == n,
            None => vector_at(global@, v) is None,
        },
{
    match v.get() {
        Cases::Vector(addr) => match global.object(addr) {
            Some(HeapObject::Vector(vector)) => Some(vector.count()),
            _ => None,
        },
        _ => None,
    }
}

/// Whether an index lies outside a vector of `n` items.
fn outside(index: Val, n: usize) -> (b: bool)
    ensures
        b == outside_spec(index, n as nat),
{
    match index.get() {
        Cases::Int(i) => i < 0 || i as usize >= n,
        _ => false,
    }
}

/// Tells whether a call of the host function `f` on `args` is fatal, and
/// why.
pub fn fault(f: Intrinsic, args: &[Val], global: &Global) -> (r: Option<ErrorKind>)
    requires
        global.wf(),
    ensures
        r == vector_fault(f, args@, global@),
{
    match f {
        Intrinsic::VectorGet => {
            if args.len() != 2 {
                return None;
            }
            match vector_count(global, args[0]) {
                Some(n) => if outside(args[1], n) {
                    Some(ErrorKind::IndexOutOfBounds)
                } else {
                    None
                },
                None => None,
            }
        },
        Intrinsic::VectorSet => {
            if args.len() != 3 {
                return None;
            }
            match vector_count(global, args[0]) {
                Some(n) => if outside(args[1], n) {
                    Some(ErrorKind::IndexOutOfBounds)
                } else {
                    None
                },
                None => None,
            }
        },
        Intrinsic::VectorPop => {
            if args.len() != 1 {
                return None;
            }
            match vector_count(global, args[0]) {
                Some(n) => if n == 0 {
                    Some(ErrorKind::EmptyVector)
                } else {
                    None
                },
                None => None,
            }
        },
        _ => None,
    }
}

/// Calls the host function `f` on `args`, unless the call is fatal: then
/// it fails, and nothing is changed.
pub fn call(f: Intrinsic, args: &[Val], global: &mut Global) -> (r: Outcome)
    requires
        old(global).wf(),
    ensures
        final(global).wf(),
        (final(global)@, r) == native_spec(f, args@, old(global)@),
        vector_fault(f, args@, old(global)@) matches Some(kind) ==> r == Outcome::Failed(kind)
            && final(global)@ == old(global)@,
{
    if let Some(kind) = fault(f, args, global) {
        return Outcome::Failed(kind);
    }
    match f {
        Intrinsic::Print => print(args, global),
        Intrinsic::Exit => exit(args, global),
        Intrinsic::VectorPush => vector_push(args, global),
        Intrinsic::VectorLength => vector_len(args, global),
        Intrinsic::VectorSet => vector_set(args, global),
        Intrinsic::VectorGet => vector_get(args, global),
        Intrinsic::VectorPop => vector_pop(args, global),
        Intrinsic::MapPut => map_put(args, global),
        Intrinsic::MapGet => map_get(args, global),
        Intrinsic::MapLength => map_length(args, global),
        Intrinsic::MapRemove => map_remove(args, global),
        Intrinsic::MapClear => map_clear(args, global),
    }
}

} // verus!
