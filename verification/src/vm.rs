//! The virtual machine: one value stack shared by all frames, a current
//! frame, and a back-stack of suspended frames.
//!
//! The machine runs until it halts, fails or needs the host: arithmetic on
//! doubles, printing, and turning a double into a vector index are not done
//! here. The machine hands the operands out and goes on when the host has
//! pushed the result.

use vstd::prelude::*;
use crate::bytecode::{spec_to_op, to_op, OpCode, NUM_OPCODES};
use crate::global::{Global, GlobalView, HeapObject, ObjectView, CLOSURE_BYTES, MAP_BYTES, VECTOR_BYTES};
use crate::intrinsics::{call, empty_table, native_spec, ErrorKind, Outcome};
use crate::values::native_fns::intrinsic_at;
use crate::values::symbols::{has_cell, value_of, with_value, Symbol, NIL, T};
use crate::values::{int_word, Cases, Closure, Intrinsic, NativeFn, Tag, Val, ValMap, Vector};

verus! {

/// What a step of the machine ends in.
#[derive(Copy, Clone, Debug, PartialEq, Eq, Structural)]
pub enum Event {
    /// The instruction is done; the next one can run.
    Next,
    /// The machine has stopped with a result.
    Halted(Val),
    /// An arithmetic operation or comparison with a double among its
    /// operands, which were popped: the host is to push the result.
    Arith { op: OpCode, left: Val, right: Val },
    /// The host is to print the value; `nil` was pushed as the result.
    Print(Val),
    /// A host function was called with a double as the index; its `argc`
    /// arguments are still on the stack. The host is to turn the double
    /// into an integer and resume the call.
    NeedsIndex { f: Intrinsic, argc: u8 },
    /// The machine cannot go on.
    Failed(ErrorKind),
}

/// A failure, with the place of the instruction that failed.
#[derive(Copy, Clone, Debug, PartialEq, Eq, Structural)]
pub struct VmError {
    pub kind: ErrorKind,
    pub ip: usize,
}

/// The record of a call: where it runs, and where its slots begin.
#[derive(Copy, Clone, Debug, PartialEq, Eq, Structural)]
pub struct Frame {
    pub ip: usize,
    pub base: usize,
    /// The address of the code object; its constant pool is the frame's.
    pub code: u64,
    /// The address of the closure that was called, or zero at the top level.
    pub env: u64,
}

/// The virtual machine.
pub struct Vm {
    fp: Frame,
    frames: Vec<Frame>,
    values: Vec<Val>,
    debug: bool,
}

/// The machine as plain data.
pub ghost struct VmView {
    pub fp: Frame,
    pub frames: Seq<Frame>,
    pub values: Seq<Val>,
    pub debug: bool,
}

/// The machine together with the global context.
pub ghost struct Machine {
    pub vm: VmView,
    pub global: GlobalView,
}

impl View for Vm {
    type V = VmView;

    closed spec fn view(&self) -> VmView {
        VmView { fp: self.fp, frames: self.frames@, values: self.values@, debug: self.debug }
    }
}

/// What an operation on two values comes to.
pub ghost enum Binary {
    Value(Val),
    Host,
    Fail(ErrorKind),
}

/// The boolean `b` as a value.
pub open spec fn bool_val(b: bool) -> Val {
    if b {
        Val(T)
    } else {
        Val(NIL)
    }
}

/// The quotient of two integers, rounded towards zero.
pub open spec fn trunc_div(a: int, b: int) -> int {
    if (a >= 0) == (b > 0) {
        (if a >= 0 {
            a
        } else {
            -a
        }) / (if b >= 0 {
            b
        } else {
            -b
        })
    } else {
        -((if a >= 0 {
            a
        } else {
            -a
        }) / (if b >= 0 {
            b
        } else {
            -b
        }))
    }
}

/// An integer as a value, if it fits.
pub open spec fn int_result(n: int) -> Binary {
    if -0x8000_0000 <= n <= 0x7FFF_FFFF {
        Binary::Value(Val(int_word(n as i32)))
    } else {
        Binary::Fail(ErrorKind::IntegerOverflow)
    }
}

/// An operation on two integers.
pub open spec fn int_binary(op: OpCode, a: int, b: int) -> Binary {
    match op {
        OpCode::Add => int_result(a + b),
        OpCode::Sub => int_result(a - b),
        OpCode::Mul => int_result(a * b),
        OpCode::Div => if b == 0 {
            Binary::Fail(ErrorKind::DivisionByZero)
        } else {
            int_result(trunc_div(a, b))
        },
        OpCode::Lt => Binary::Value(bool_val(a < b)),
        OpCode::Gt => Binary::Value(bool_val(a > b)),
        OpCode::Lte => Binary::Value(bool_val(a <= b)),
        OpCode::Gte => Binary::Value(bool_val(a >= b)),
        _ => Binary::Fail(ErrorKind::BadOpcode),
    }
}

/// An arithmetic operation or comparison: `Eq` compares the words; a
/// pointer among the operands is a type error; two integers are handled
/// here; anything with a double goes to the host.
pub open spec fn binary(op: OpCode, left: Val, right: Val) -> Binary {
    if op == OpCode::Eq {
        Binary::Value(bool_val(left == right))
    } else if left.spec_is_ptr() || right.spec_is_ptr() {
        Binary::Fail(ErrorKind::TypeError)
    } else if left.spec_is_int() && right.spec_is_int() {
        int_binary(op, left.int_value() as int, right.int_value() as int)
    } else {
        Binary::Host
    }
}

/// The code and the constants of the frame's code object.
pub open spec fn code_of(m: Machine) -> Option<(Seq<Val>, Seq<u8>)> {
    if m.global.objects.contains_key(m.vm.fp.code) {
        match m.global.objects[m.vm.fp.code] {
            ObjectView::Code { consts, code } => Some((consts, code)),
            _ => None,
        }
    } else {
        None
    }
}

/// An instruction as it was fetched.
pub ghost struct Fetched {
    pub op: OpCode,
    pub arg: u8,
    pub next: nat,
}

/// The instruction at the instruction pointer.
pub open spec fn fetch(m: Machine) -> Result<Fetched, ErrorKind> {
    match code_of(m) {
        None => Err(ErrorKind::BadCode),
        Some((consts, code)) => {
            let ip = m.vm.fp.ip as int;
            if ip >= code.len() {
                Err(ErrorKind::BadCode)
            } else if code[ip] >= NUM_OPCODES {
                Err(ErrorKind::BadOpcode)
            } else {
                let op = spec_to_op(code[ip]);
                if op.spec_has_immediate() {
                    if ip + 1 >= code.len() {
                        Err(ErrorKind::BadCode)
                    } else {
                        Ok(Fetched { op, arg: code[ip + 1], next: (ip + 2) as nat })
                    }
                } else {
                    Ok(Fetched { op, arg: 0, next: (ip + 1) as nat })
                }
            }
        },
    }
}

impl Machine {
    pub open spec fn with_values(self, values: Seq<Val>) -> Machine {
        Machine { vm: VmView { values, ..self.vm }, ..self }
    }

    pub open spec fn with_ip(self, ip: int) -> Machine {
        Machine { vm: VmView { fp: Frame { ip: ip as usize, ..self.vm.fp }, ..self.vm }, ..self }
    }

    pub open spec fn pushed(self, v: Val) -> Machine {
        self.with_values(self.vm.values.push(v))
    }

    /// The stack without its top `n` values.
    pub open spec fn dropped(self, n: int) -> Machine {
        self.with_values(self.vm.values.take(self.vm.values.len() - n))
    }

    pub open spec fn depth(self) -> int {
        self.vm.values.len() as int
    }

    /// The value `i` places below the top.
    pub open spec fn top(self, i: int) -> Val {
        self.vm.values[self.vm.values.len() - 1 - i]
    }
}

pub open spec fn failed(m: Machine, kind: ErrorKind) -> (Machine, Event) {
    (m, Event::Failed(kind))
}

/// `Const i`: push constant `i`.
pub open spec fn op_const(m: Machine, i: int) -> (Machine, Event) {
    match code_of(m) {
        None => failed(m, ErrorKind::BadCode),
        Some((consts, code)) => if i >= consts.len() {
            failed(m, ErrorKind::BadConstant)
        } else {
            (m.pushed(consts[i]), Event::Next)
        },
    }
}

/// `Pop k`: drop `k` values.
pub open spec fn op_pop(m: Machine, k: int) -> (Machine, Event) {
    if m.depth() < k {
        failed(m, ErrorKind::StackUnderflow)
    } else {
        (m.dropped(k), Event::Next)
    }
}

/// `PopSave k`: drop the `k` values below the top.
pub open spec fn op_pop_save(m: Machine, k: int) -> (Machine, Event) {
    if m.depth() < k + 1 {
        failed(m, ErrorKind::StackUnderflow)
    } else {
        (m.dropped(k + 1).pushed(m.top(0)), Event::Next)
    }
}

/// `Dup n`: push a copy of slot `n` of the frame.
pub open spec fn op_dup(m: Machine, n: int) -> (Machine, Event) {
    if m.vm.fp.base + n >= m.depth() {
        failed(m, ErrorKind::BadSlot)
    } else {
        (m.pushed(m.vm.values[m.vm.fp.base + n]), Event::Next)
    }
}

/// An arithmetic operation or comparison: pop right, pop left, push the
/// result or hand the operands to the host.
pub open spec fn op_binary(m: Machine, op: OpCode) -> (Machine, Event) {
    if m.depth() < 2 {
        failed(m, ErrorKind::StackUnderflow)
    } else {
        let left = m.top(1);
        let right = m.top(0);
        match binary(op, left, right) {
            Binary::Value(v) => (m.dropped(2).pushed(v), Event::Next),
            Binary::Host => (m.dropped(2), Event::Arith { op, left, right }),
            Binary::Fail(kind) => failed(m, kind),
        }
    }
}

/// `BrNil offset`: pop a value; if it is `nil`, skip `offset` bytes.
pub open spec fn op_br_nil(m: Machine, offset: int) -> (Machine, Event) {
    if m.depth() < 1 {
        failed(m, ErrorKind::StackUnderflow)
    } else if m.top(0) == Val(NIL) {
        if m.vm.fp.ip + offset > usize::MAX {
            failed(m, ErrorKind::BadCode)
        } else {
            (m.dropped(1).with_ip(m.vm.fp.ip + offset), Event::Next)
        }
    } else {
        (m.dropped(1), Event::Next)
    }
}

/// `Jmp offset`: go on `offset` bytes after the offset byte itself, which
/// lies just before the place that the instruction pointer has reached.
pub open spec fn op_jmp(m: Machine, offset: int) -> (Machine, Event) {
    if m.vm.fp.ip + offset < 1 || m.vm.fp.ip + offset - 1 > usize::MAX {
        failed(m, ErrorKind::BadCode)
    } else {
        (m.with_ip(m.vm.fp.ip + offset - 1), Event::Next)
    }
}

/// The closure that `v` points to.
pub open spec fn closure_at(g: GlobalView, v: Val) -> Option<u64> {
    match v.classify() {
        Cases::Function(addr) => if g.objects.contains_key(addr) {
            match g.objects[addr] {
                ObjectView::Closure { env, code_obj } => Some(code_obj),
                _ => None,
            }
        } else {
            None
        },
        _ => None,
    }
}

/// The host function that `v` stands for.
pub open spec fn native_at(v: Val) -> Option<Intrinsic> {
    match v.classify() {
        Cases::NativeFn(addr) => intrinsic_at(addr),
        _ => None,
    }
}

/// The machine after the host function `f` ran on the top `n` values.
pub open spec fn finish_native(m: Machine, f: Intrinsic, n: int, args: Seq<Val>) -> (
    Machine,
    Event,
) {
    let (global, outcome) = native_spec(f, args, m.global);
    let m1 = Machine { vm: m.vm, global };
    match outcome {
        Outcome::Return(v, halt) => if halt {
            (m1.dropped(n), Event::Halted(v))
        } else {
            (m1.dropped(n).pushed(v), Event::Next)
        },
        Outcome::Print(v) => (m1.dropped(n).pushed(Val(NIL)), Event::Print(v)),
        Outcome::NeedsIndex => (m1, Event::NeedsIndex { f, argc: n as u8 }),
        Outcome::Failed(kind) => failed(m, kind),
    }
}

/// `Call n`: pop the callee. A closure gets a new frame whose slots are the
/// `n` values below the callee; a host function runs on them at once.
pub open spec fn op_call(m: Machine, n: int) -> (Machine, Event) {
    if m.depth() < n + 1 {
        failed(m, ErrorKind::StackUnderflow)
    } else {
        let callee = m.top(0);
        let m1 = m.dropped(1);
        match closure_at(m.global, callee) {
            Some(code_obj) => (
                Machine {
                    vm: VmView {
                        fp: Frame {
                            ip: 0,
                            base: (m1.depth() - n) as usize,
                            code: code_obj,
                            env: callee.addr(),
                        },
                        frames: m.vm.frames.push(m.vm.fp),
                        ..m1.vm
                    },
                    ..m1
                },
                Event::Next,
            ),
            None => match native_at(callee) {
                Some(f) => finish_native(
                    m1,
                    f,
                    n,
                    m1.vm.values.subrange(m1.depth() - n, m1.depth()),
                ),
                None => failed(m, ErrorKind::NotCallable),
            },
        }
    }
}

/// `Ret n`: leave the frame with the value in slot `n`: everything from the
/// frame base up is dropped, the value is pushed, and the frame that called
/// goes on.
pub open spec fn op_ret(m: Machine, n: int) -> (Machine, Event) {
    let base = m.vm.fp.base as int;
    if base + n >= m.depth() {
        failed(m, ErrorKind::BadSlot)
    } else if m.vm.frames.len() == 0 {
        failed(m, ErrorKind::FrameUnderflow)
    } else {
        (
            Machine {
                vm: VmView {
                    fp: m.vm.frames.last(),
                    frames: m.vm.frames.drop_last(),
                    values: m.vm.values.take(base).push(m.vm.values[base + n]),
                    ..m.vm
                },
                ..m
            },
            Event::Next,
        )
    }
}

/// `Halt`: stop. The result is the value in slot 0 of the frame, which is
/// where the value of a program lies when the program is done; the stack
/// stays as it is.
pub open spec fn op_halt(m: Machine) -> (Machine, Event) {
    if m.vm.fp.base >= m.depth() {
        failed(m, ErrorKind::StackUnderflow)
    } else {
        (m, Event::Halted(m.vm.values[m.vm.fp.base as int]))
    }
}

/// A new object is put on the heap and the pointer to it is pushed.
pub open spec fn op_new(m: Machine, obj: ObjectView, bytes: int, tag: Tag) -> (Machine, Event) {
    let (global, v) = m.global.new_object(obj, bytes, tag);
    match v {
        None => failed(m, ErrorKind::OutOfMemory),
        Some(ptr) => ((Machine { vm: m.vm, global }).pushed(ptr), Event::Next),
    }
}

/// `Closure i`: push a new closure over the code object that constant `i`
/// points to.
pub open spec fn op_closure(m: Machine, i: int) -> (Machine, Event) {
    match code_of(m) {
        None => failed(m, ErrorKind::BadCode),
        Some((consts, code)) => if i >= consts.len() {
            failed(m, ErrorKind::BadConstant)
        } else {
            match consts[i].classify() {
                Cases::Object(addr) => op_new(
                    m,
                    ObjectView::Closure { env: Seq::empty(), code_obj: addr },
                    CLOSURE_BYTES as int,
                    Tag::Function,
                ),
                _ => failed(m, ErrorKind::TypeError),
            }
        },
    }
}

/// An operation on a map or a vector: the host function `f` runs on the top
/// `n` values, which are dropped; its result is pushed if `push` says so. An
/// index must be an integer.
pub open spec fn op_object(m: Machine, f: Intrinsic, n: int, push: bool) -> (Machine, Event) {
    if m.depth() < n {
        failed(m, ErrorKind::StackUnderflow)
    } else {
        let args = m.vm.values.subrange(m.depth() - n, m.depth());
        let (global, outcome) = native_spec(f, args, m.global);
        let m1 = Machine { vm: m.vm, global };
        match outcome {
            Outcome::Return(v, halt) => if push {
                (m1.dropped(n).pushed(v), Event::Next)
            } else {
                (m1.dropped(n), Event::Next)
            },
            Outcome::Failed(kind) => failed(m, kind),
            _ => failed(m, ErrorKind::TypeError),
        }
    }
}

/// `SymGet`: pop a symbol and push its value.
pub open spec fn op_sym_get(m: Machine) -> (Machine, Event) {
    if m.depth() < 1 {
        failed(m, ErrorKind::StackUnderflow)
    } else {
        match m.top(0).classify() {
            Cases::Symbol(sym) => match value_of(m.global.symbols, sym) {
                Some(v) => (m.dropped(1).pushed(v), Event::Next),
                None => failed(m, ErrorKind::Unbound),
            },
            _ => failed(m, ErrorKind::TypeError),
        }
    }
}

/// `SymSet`: pop a value and a symbol, write the value to the symbol's slot,
/// and push the value.
pub open spec fn op_sym_set(m: Machine) -> (Machine, Event) {
    if m.depth() < 2 {
        failed(m, ErrorKind::StackUnderflow)
    } else {
        let value = m.top(0);
        match m.top(1).classify() {
            Cases::Symbol(sym) => if sym.0 == NIL || sym.0 == T {
                failed(m, ErrorKind::AssignToConstant)
            } else if !has_cell(m.global.symbols, sym) {
                failed(m, ErrorKind::Unbound)
            } else {
                (
                    (Machine {
                        vm: m.vm,
                        global: GlobalView {
                            symbols: with_value(m.global.symbols, sym, value),
                            ..m.global
                        },
                    }).dropped(2).pushed(value),
                    Event::Next,
                )
            },
            _ => failed(m, ErrorKind::TypeError),
        }
    }
}

/// What instruction `op` with immediate `arg` does.
pub open spec fn execute(m: Machine, op: OpCode, arg: int) -> (Machine, Event) {
    match op {
        OpCode::Const => op_const(m, arg),
        OpCode::Pop => op_pop(m, arg),
        OpCode::PopSave => op_pop_save(m, arg),
        OpCode::Dup => op_dup(m, arg),
        OpCode::Add
        | OpCode::Sub
        | OpCode::Mul
        | OpCode::Div
        | OpCode::Lt
        | OpCode::Gt
        | OpCode::Lte
        | OpCode::Gte
        | OpCode::Eq => op_binary(m, op),
        OpCode::BrNil => op_br_nil(m, arg),
        OpCode::Jmp => op_jmp(m, arg),
        OpCode::Call => op_call(m, arg),
        OpCode::Ret => op_ret(m, arg),
        OpCode::MapNew => op_new(m, empty_table(), MAP_BYTES as int, Tag::ValMap),
        OpCode::MapGet => op_object(m, Intrinsic::MapGet, 2, true),
        OpCode::MapSet => op_object(m, Intrinsic::MapPut, 3, false),
        OpCode::MapDel => op_object(m, Intrinsic::MapRemove, 2, true),
        OpCode::VecNew => op_new(
            m,
            ObjectView::Vector(Seq::empty()),
            VECTOR_BYTES as int,
            Tag::Vector,
        ),
        OpCode::VecGet => op_object(m, Intrinsic::VectorGet, 2, true),
        OpCode::VecSet => op_object(m, Intrinsic::VectorSet, 3, false),
        OpCode::VecPush => op_object(m, Intrinsic::VectorPush, 2, false),
        OpCode::VecPop => op_object(m, Intrinsic::VectorPop, 1, true),
        OpCode::SymGet => op_sym_get(m),
        OpCode::SymSet => op_sym_set(m),
        OpCode::Closure => op_closure(m, arg),
        OpCode::Halt => op_halt(m),
    }
}

/// One step of the machine: the instruction at the instruction pointer is
/// fetched, the pointer moves past it, and the instruction runs.
pub open spec fn step_spec(m: Machine) -> (Machine, Event) {
    match fetch(m) {
        Err(kind) => failed(m, kind),
        Ok(f) => if f.next > usize::MAX {
            failed(m, ErrorKind::BadCode)
        } else {
            execute(m.with_ip(f.next as int), f.op, f.arg as int)
        },
    }
}

/// The machine after at most `fuel` steps: it runs until a step ends in
/// something other than `Next`.
pub open spec fn run_spec(m: Machine, fuel: nat) -> (Machine, Event)
    decreases fuel,
{
    if fuel == 0 {
        (m, Event::Next)
    } else {
        let (m1, e) = step_spec(m);
        if e == Event::Next {
            run_spec(m1, (fuel - 1) as nat)
        } else {
            (m1, e)
        }
    }
}

/// The place of the instruction at which a run of at most `fuel` steps
/// ends, if it ends before the fuel is used up.
pub open spec fn last_ip(m: Machine, fuel: nat) -> usize
    decreases fuel,
{
    if fuel == 0 {
        m.vm.fp.ip
    } else {
        let (m1, e) = step_spec(m);
        if e == Event::Next {
            last_ip(m1, (fuel - 1) as nat)
        } else {
            m.vm.fp.ip
        }
    }
}

/// A call pushes a frame, and the return from it pops the frame again and
/// leaves the stack at its length before the call less the `n` arguments:
/// the callee and the arguments are gone, the value of the slot that was
/// returned is on top, and the caller goes on where it was. Below the
/// result lies what lay below the frame at the return: what the caller had
/// there, where the code that ran in between left it alone.
pub proof fn lemma_call_return(m: Machine, n: int, inside: Machine, slot: int)
    requires
        0 <= n,
        m.depth() <= usize::MAX,
        op_call(m, n).1 == Event::Next,
        closure_at(m.global, m.top(0)) is Some,
        inside.vm.fp.base == op_call(m, n).0.vm.fp.base,
        inside.vm.frames == op_call(m, n).0.vm.frames,
        inside.depth() >= inside.vm.fp.base,
        op_ret(inside, slot).1 == Event::Next,
    ensures
        op_ret(inside, slot).0.depth() == m.depth() - n,
        op_ret(inside, slot).0.vm.fp == m.vm.fp,
        op_ret(inside, slot).0.vm.frames == m.vm.frames,
        op_ret(inside, slot).0.top(0) == inside.vm.values[inside.vm.fp.base + slot],
        op_ret(inside, slot).0.vm.values.take(m.depth() - n - 1) == inside.vm.values.take(
            m.depth() - n - 1,
        ),
        inside.vm.values.take(m.depth() - n - 1) == m.vm.values.take(m.depth() - n - 1) ==> op_ret(
            inside,
            slot,
        ).0.vm.values == m.vm.values.take(m.depth() - n - 1).push(
            inside.vm.values[inside.vm.fp.base + slot],
        ),
{
    let called = op_call(m, n).0;
    assert(called.vm.frames.drop_last() =~= m.vm.frames);
    let base = m.depth() - n - 1;
    assert(inside.vm.fp.base == base);
    assert(op_ret(inside, slot).0.vm.values.take(base) =~= inside.vm.values.take(base));
}

/// A symbol that was interned has a cell.
pub proof fn lemma_interned_has_cell(
    cells: Seq<crate::values::symbols::CellView>,
    name: Seq<char>,
    sym: Symbol,
)
    requires
        crate::values::symbols::symbol_of(cells, name) == Some(sym),
    ensures
        has_cell(cells, sym),
{
    crate::values::symbols::lemma_name_index(cells, name, 0);
    crate::values::symbols::lemma_addr_index(cells, sym.0, 0);
    let i = crate::values::symbols::name_index_from(cells, name, 0);
    let j = crate::values::symbols::addr_index_from(cells, sym.0, 0);
    if j > i {
        assert(cells[i].addr != sym.0);
    }
}

/// The host functions have names of their own.
pub proof fn lemma_names_distinct(a: Intrinsic, b: Intrinsic)
    requires
        a != b,
    ensures
        a.spec_name() != b.spec_name(),
{
    reveal_strlit("print");
    reveal_strlit("exit");
    reveal_strlit("vector-push!");
    reveal_strlit("vector-length");
    reveal_strlit("vector-set!");
    reveal_strlit("vector-get");
    reveal_strlit("vector-pop!");
    reveal_strlit("map-put!");
    reveal_strlit("map-get");
    reveal_strlit("map-length");
    reveal_strlit("map-remove!");
    reveal_strlit("map-clear!");
    assert(Intrinsic::Print.spec_name().len() == 5);
    assert(Intrinsic::Exit.spec_name().len() == 4);
    assert(Intrinsic::VectorPush.spec_name().len() == 12);
    assert(Intrinsic::VectorLength.spec_name().len() == 13);
    assert(Intrinsic::VectorSet.spec_name().len() == 11);
    assert(Intrinsic::VectorGet.spec_name().len() == 10);
    assert(Intrinsic::VectorPop.spec_name().len() == 11);
    assert(Intrinsic::MapPut.spec_name().len() == 8);
    assert(Intrinsic::MapGet.spec_name().len() == 7);
    assert(Intrinsic::MapLength.spec_name().len() == 10);
    assert(Intrinsic::MapRemove.spec_name().len() == 11);
    assert(Intrinsic::MapClear.spec_name().len() == 10);
    assert("vector-get"@[0] != "map-length"@[0]);
    assert("vector-get"@[0] != "map-clear!"@[0]);
    assert("map-length"@[4] != "map-clear!"@[4]);
    assert("vector-set!"@[7] != "vector-pop!"@[7]);
    assert("vector-set!"@[0] != "map-remove!"@[0]);
    assert("vector-pop!"@[0] != "map-remove!"@[0]);
}

/// A symbol keeps its name and its value when another name is interned and
/// given a value.
pub proof fn lemma_binding_stays(
    before: Seq<crate::values::symbols::CellView>,
    mid: Seq<crate::values::symbols::CellView>,
    name: Seq<char>,
    sym: Symbol,
    v: Val,
    other_name: Seq<char>,
    other: Symbol,
)
    requires
        crate::values::symbols::distinct_addrs(before),
        crate::values::symbols::symbol_of(before, other_name) == Some(other),
        other.0 != NIL,
        other.0 != T,
        sym.0 != NIL,
        sym.0 != T,
        name != other_name,
        mid == before || (!has_cell(before, sym) && mid == before.push(
            crate::values::symbols::CellView { name, addr: sym.0, value: None },
        )),
        crate::values::symbols::symbol_of(mid, name) == Some(sym),
    ensures
        crate::values::symbols::symbol_of(with_value(mid, sym, v), other_name) == Some(other),
        value_of(with_value(mid, sym, v), other) == value_of(before, other),
        crate::values::symbols::symbol_of(with_value(mid, sym, v), name) == Some(sym),
        value_of(with_value(mid, sym, v), sym) == Some(v),
{
    lemma_binding_kept_by_intern(before, mid, name, sym, other_name, other);
    lemma_interned_has_cell(mid, name, sym);
    crate::values::symbols::lemma_with_value(mid, sym, v, other);
    crate::values::symbols::lemma_with_value(mid, sym, v, sym);
}

/// The steps of `lemma_binding_stays` that concern the state before the
/// value is set.
pub proof fn lemma_binding_kept_by_intern(
    before: Seq<crate::values::symbols::CellView>,
    mid: Seq<crate::values::symbols::CellView>,
    name: Seq<char>,
    sym: Symbol,
    other_name: Seq<char>,
    other: Symbol,
)
    requires
        crate::values::symbols::distinct_addrs(before),
        crate::values::symbols::symbol_of(before, other_name) == Some(other),
        other.0 != NIL,
        other.0 != T,
        name != other_name,
        mid == before || (!has_cell(before, sym) && mid == before.push(
            crate::values::symbols::CellView { name, addr: sym.0, value: None },
        )),
        crate::values::symbols::symbol_of(mid, name) == Some(sym),
    ensures
        crate::values::symbols::symbol_of(mid, other_name) == Some(other),
        value_of(mid, other) == value_of(before, other),
        other != sym,
{
    let cell = crate::values::symbols::CellView { name, addr: sym.0, value: None };
    lemma_interned_has_cell(before, other_name, other);
    crate::values::symbols::lemma_name_index(before, other_name, 0);
    crate::values::symbols::lemma_name_index(before, name, 0);
    crate::values::symbols::lemma_addr_index(before, other.0, 0);
    if mid == before {
        let i = crate::values::symbols::name_index_from(before, other_name, 0);
        let j = crate::values::symbols::name_index_from(before, name, 0);
        if i < j {
            assert(before[i].addr != before[j].addr);
        } else if j < i {
            assert(before[j].addr != before[i].addr);
        }
    } else {
        crate::values::symbols::lemma_intern_stable(before, other_name, cell);
        crate::values::symbols::lemma_addr_index_push(before, cell, other.0, 0);
        let k = crate::values::symbols::addr_index_from(before, other.0, 0);
        assert(before.push(cell)[k] == before[k]);
    }
}

/// The word of the host function `f` as a value.
pub open spec fn native_val(f: Intrinsic) -> Val {
    Val(crate::values::ptr_word(Tag::NativeFn, f.spec_addr()))
}

/// The global context after the host function `f` was bound to its name;
/// none if its name could not be interned.
pub open spec fn bind_spec(g: GlobalView, f: Intrinsic) -> Option<GlobalView> {
    let (g1, sym) = g.intern(f.spec_name());
    match sym {
        None => None,
        Some(s) => Some(GlobalView { symbols: with_value(g1.symbols, s, native_val(f)), ..g1 }),
    }
}

/// The global context after the first `n` host functions were bound.
pub open spec fn install_spec(g: GlobalView, n: nat) -> Option<GlobalView>
    decreases n,
{
    if n == 0 {
        Some(g)
    } else {
        match install_spec(g, (n - 1) as nat) {
            None => None,
            Some(g1) => bind_spec(g1, Intrinsic::spec_from_index((n - 1) as u64)),
        }
    }
}

/// Once a host function could not be bound, none of the later ones is.
pub proof fn lemma_install_fails(g: GlobalView, k: nat, n: nat)
    requires
        k <= n,
        install_spec(g, k) is None,
    ensures
        install_spec(g, n) is None,
    decreases n - k,
{
    if k < n {
        lemma_install_fails(g, k, (n - 1) as nat);
    }
}

/// What a step left and returned is what the model of the machine says.
pub open spec fn agrees(vm: VmView, global: GlobalView, e: Event, model: (Machine, Event)) -> bool {
    (Machine { vm, global }, e) == model
}

impl Vm {
    /// The machine and the global context as one state.
    pub open spec fn machine(&self, global: &Global) -> Machine {
        Machine { vm: self@, global: global@ }
    }

    /// A machine that will run the code object `entrypoint` on a stack that
    /// holds `initargs`. Every host function is bound to its name first;
    /// where the heap cannot serve the name of one, those before it stay
    /// bound and there is no machine.
    pub fn new(global: &mut Global, entrypoint: Val, initargs: &[Val], debug: bool) -> (r: Result<
        Vm,
        ErrorKind,
    >)
        requires
            old(global).wf(),
        ensures
            final(global).wf(),
            final(global)@.objects == old(global)@.objects,
            match r {
                Ok(vm) => {
                    &&& entrypoint.classify() is Object
                    &&& vm@ == (VmView {
                        fp: Frame { ip: 0, base: 0, code: entrypoint.addr(), env: 0 },
                        frames: Seq::empty(),
                        values: initargs@,
                        debug,
                    })
                    &&& install_spec(old(global)@, 12) == Some(final(global)@)
                    &&& forall|i: u64|
                        i < crate::values::native_fns::NUM_INTRINSICS ==> bound(
                            final(global)@,
                            Intrinsic::spec_from_index(i),
                        )
                },
                Err(kind) => if entrypoint.classify() is Object {
                    &&& kind == ErrorKind::OutOfMemory
                    &&& install_spec(old(global)@, 12) is None
                    &&& exists|k: nat|
                        k < 12 && #[trigger] install_spec(old(global)@, k) == Some(final(global)@)
                } else {
                    kind == ErrorKind::TypeError && final(global)@ == old(global)@
                },
            },
    {
        let code = match entrypoint.get() {
            Cases::Object(addr) => addr,
            _ => {
                return Err(ErrorKind::TypeError);
            },
        };
        proof {
            global.lemma_wf();
        }
        let mut i: u64 = 0;
        while i < crate::values::native_fns::NUM_INTRINSICS
            invariant
                i <= crate::values::native_fns::NUM_INTRINSICS,
                global.wf(),
                global@.wf(),
                entrypoint.classify() is Object,
                global@.objects == old(global)@.objects,
                install_spec(old(global)@, i as nat) == Some(global@),
                forall|k: u64| k < i ==> bound(global@, Intrinsic::spec_from_index(k)),
            decreases crate::values::native_fns::NUM_INTRINSICS - i,
        {
            let f = Intrinsic::from_index(i);
            let ghost before = global@;
            match global.intern(f.name()) {
                None => {
                    proof {
                        assert(bind_spec(before, f) is None);
                        assert(install_spec(old(global)@, (i + 1) as nat) is None);
                        lemma_install_fails(old(global)@, (i + 1) as nat, 12);
                        assert(install_spec(old(global)@, i as nat) == Some(global@));
                    }
                    return Err(ErrorKind::OutOfMemory);
                },
                Some(sym) => {
                    let ghost mid = global@;
                    proof {
                        lemma_interned_has_cell(mid.symbols, f.spec_name(), sym);
                        global.lemma_wf();
                    }
                    let value = NativeFn(f).to_val();
                    global.set_symbol(sym, value);
                    proof {
                        assert(value == native_val(f));
                        assert(bind_spec(before, f) == Some(global@));
                        assert(crate::values::symbols::distinct_addrs(before.symbols));
                        crate::values::symbols::lemma_with_value(mid.symbols, sym, value, sym);
                        assert forall|k: u64| k < i + 1 implies bound(
                            global@,
                            Intrinsic::spec_from_index(k),
                        ) by {
                            let fk = Intrinsic::spec_from_index(k);
                            if k < i {
                                assert(bound(before, fk));
                                lemma_names_distinct(f, fk);
                                let other = crate::values::symbols::symbol_of(
                                    before.symbols,
                                    fk.spec_name(),
                                )->0;
                                crate::values::symbols::lemma_name_index(
                                    before.symbols,
                                    fk.spec_name(),
                                    0,
                                );
                                lemma_binding_stays(
                                    before.symbols,
                                    mid.symbols,
                                    f.spec_name(),
                                    sym,
                                    value,
                                    fk.spec_name(),
                                    other,
                                );
                            }
                        }
                    }
                },
            }
            proof {
                global.lemma_wf();
            }
            i += 1;
        }
        let mut values: Vec<Val> = Vec::new();
        let mut j: usize = 0;
        while j < initargs.len()
            invariant
                j <= initargs.len(),
                values@ == initargs@.take(j as int),
            decreases initargs.len() - j,
        {
            values.push(initargs[j]);
            assert(values@ =~= initargs@.take(j + 1));
            j += 1;
        }
        assert(initargs@.take(initargs.len() as int) =~= initargs@);
        Ok(Vm { fp: Frame { ip: 0, base: 0, code, env: 0 }, frames: Vec::new(), values, debug })
    }

    /// Takes the top of the stack off.
    pub fn pop(&mut self) -> (v: Val)
        requires
            old(self)@.values.len() > 0,
        ensures
            v == old(self)@.values.last(),
            final(self)@ == (VmView { values: old(self)@.values.drop_last(), ..old(self)@ }),
    {
        self.values.pop().unwrap()
    }

    /// Puts `v` on top of the stack.
    pub fn push(&mut self, v: Val)
        ensures
            final(self)@ == (VmView { values: old(self)@.values.push(v), ..old(self)@ }),
    {
        self.values.push(v)
    }

    /// The number of values on the stack.
    pub fn depth(&self) -> (n: usize)
        ensures
            n == self@.values.len(),
    {
        self.values.len()
    }

    /// The value `i` places below the top of the stack.
    pub fn peek(&self, i: usize) -> (v: Val)
        requires
            i < self@.values.len(),
        ensures
            v == self@.values[self@.values.len() - 1 - i],
    {
        self.values[self.values.len() - 1 - i]
    }

    /// The place of the next instruction.
    pub fn ip(&self) -> (ip: usize)
        ensures
            ip == self@.fp.ip,
    {
        self.fp.ip
    }

    /// Whether tracing was asked for.
    pub fn debug(&self) -> (b: bool)
        ensures
            b == self@.debug,
    {
        self.debug
    }

    /// Fetches the instruction at the instruction pointer.
    fn fetch(&self, global: &Global) -> (r: Result<(OpCode, u8, usize), ErrorKind>)
        requires
            global.wf(),
        ensures
            match r {
                Ok((op, arg, next)) => fetch(self.machine(global)) == Ok::<Fetched, ErrorKind>(
                    Fetched { op, arg, next: next as nat },
                ),
                Err(kind) => fetch(self.machine(global)) == Err::<Fetched, ErrorKind>(kind),
            },
    {
        match global.object(self.fp.code) {
            Some(HeapObject::Code(bytecode)) => {
                let ip = self.fp.ip;
                if ip >= bytecode.code.len() {
                    return Err(ErrorKind::BadCode);
                }
                let byte = bytecode.code[ip];
                if byte >= NUM_OPCODES {
                    return Err(ErrorKind::BadOpcode);
                }
                let op = to_op(byte);
                if op.has_immediate() {
                    if ip + 1 >= bytecode.code.len() {
                        return Err(ErrorKind::BadCode);
                    }
                    Ok((op, bytecode.code[ip + 1], ip + 2))
                } else {
                    Ok((op, 0, ip + 1))
                }
            },
            _ => Err(ErrorKind::BadCode),
        }
    }

    /// Drops the top `n` values.
    fn drop_values(&mut self, n: usize)
        requires
            n <= old(self)@.values.len(),
        ensures
            final(self)@ == (VmView {
                values: old(self)@.values.take(old(self)@.values.len() - n),
                ..old(self)@
            }),
    {
        let len = self.values.len();
        self.values.truncate(len - n);
    }

    fn constant(&self, global: &Global, i: usize) -> (r: Result<Val, ErrorKind>)
        requires
            global.wf(),
        ensures
            match code_of(self.machine(global)) {
                None => r == Err::<Val, ErrorKind>(ErrorKind::BadCode),
                Some((consts, code)) => if i >= consts.len() {
                    r == Err::<Val, ErrorKind>(ErrorKind::BadConstant)
                } else {
                    r == Ok::<Val, ErrorKind>(consts[i as int])
                },
            },
    {
        match global.object(self.fp.code) {
            Some(HeapObject::Code(bytecode)) => {
                if i >= bytecode.consts.len() {
                    Err(ErrorKind::BadConstant)
                } else {
                    Ok(bytecode.consts[i])
                }
            },
            _ => Err(ErrorKind::BadCode),
        }
    }

    fn do_const(&mut self, global: &mut Global, i: u8) -> (e: Event)
        requires
            old(global).wf(),
        ensures
            final(global).wf(),
            agrees(
                final(self)@,
                final(global)@,
                e,
                op_const(old(self).machine(old(global)), i as int),
            ),
    {
        match self.constant(global, i as usize) {
            Ok(v) => {
                self.values.push(v);
                Event::Next
            },
            Err(kind) => Event::Failed(kind),
        }
    }

    fn do_pop(&mut self, global: &mut Global, k: u8) -> (e: Event)
        requires
            old(global).wf(),
        ensures
            final(global).wf(),
            agrees(final(self)@, final(global)@, e, op_pop(old(self).machine(old(global)), k as int)),
    {
        if self.values.len() < k as usize {
            return Event::Failed(ErrorKind::StackUnderflow);
        }
        self.drop_values(k as usize);
        Event::Next
    }

    fn do_pop_save(&mut self, global: &mut Global, k: u8) -> (e: Event)
        requires
            old(global).wf(),
        ensures
            final(global).wf(),
            agrees(
                final(self)@,
                final(global)@,
                e,
                op_pop_save(old(self).machine(old(global)), k as int),
            ),
    {
        if self.values.len() < k as usize + 1 {
            return Event::Failed(ErrorKind::StackUnderflow);
        }
        let top = self.values[self.values.len() - 1];
        self.drop_values(k as usize + 1);
        self.values.push(top);
        Event::Next
    }

    fn do_dup(&mut self, global: &mut Global, n: u8) -> (e: Event)
        requires
            old(global).wf(),
        ensures
            final(global).wf(),
            agrees(final(self)@, final(global)@, e, op_dup(old(self).machine(old(global)), n as int)),
    {
        let len = self.values.len();
        if self.fp.base >= len || n as usize >= len - self.fp.base {
            return Event::Failed(ErrorKind::BadSlot);
        }
        let v = self.values[self.fp.base + n as usize];
        self.values.push(v);
        Event::Next
    }

    fn do_binary(&mut self, global: &mut Global, op: OpCode) -> (e: Event)
        requires
            old(global).wf(),
        ensures
            final(global).wf(),
            agrees(final(self)@, final(global)@, e, op_binary(old(self).machine(old(global)), op)),
    {
        let len = self.values.len();
        if len < 2 {
            return Event::Failed(ErrorKind::StackUnderflow);
        }
        let right = self.values[len - 1];
        let left = self.values[len - 2];
        match compute(op, left, right) {
            Computed::Value(v) => {
                self.drop_values(2);
                self.values.push(v);
                Event::Next
            },
            Computed::Host => {
                self.drop_values(2);
                Event::Arith { op, left, right }
            },
            Computed::Fail(kind) => Event::Failed(kind),
        }
    }

    fn do_br_nil(&mut self, global: &mut Global, offset: u8) -> (e: Event)
        requires
            old(global).wf(),
        ensures
            final(global).wf(),
            agrees(
                final(self)@,
                final(global)@,
                e,
                op_br_nil(old(self).machine(old(global)), offset as int),
            ),
    {
        let len = self.values.len();
        if len < 1 {
            return Event::Failed(ErrorKind::StackUnderflow);
        }
        let v = self.values[len - 1];
        if v.0 == NIL {
            if offset as usize > usize::MAX - self.fp.ip {
                return Event::Failed(ErrorKind::BadCode);
            }
            self.drop_values(1);
            self.fp.ip = self.fp.ip + offset as usize;
        } else {
            self.drop_values(1);
        }
        Event::Next
    }

    fn do_jmp(&mut self, global: &mut Global, offset: u8) -> (e: Event)
        requires
            old(global).wf(),
        ensures
            final(global).wf(),
            agrees(
                final(self)@,
                final(global)@,
                e,
                op_jmp(old(self).machine(old(global)), offset as int),
            ),
    {
        if offset == 0 {
            if self.fp.ip == 0 {
                return Event::Failed(ErrorKind::BadCode);
            }
            self.fp.ip = self.fp.ip - 1;
        } else {
            if offset as usize - 1 > usize::MAX - self.fp.ip {
                return Event::Failed(ErrorKind::BadCode);
            }
            self.fp.ip = self.fp.ip + (offset as usize - 1);
        }
        Event::Next
    }

    fn do_ret(&mut self, global: &mut Global, n: u8) -> (e: Event)
        requires
            old(global).wf(),
        ensures
            final(global).wf(),
            agrees(final(self)@, final(global)@, e, op_ret(old(self).machine(old(global)), n as int)),
    {
        let len = self.values.len();
        let base = self.fp.base;
        if base >= len || n as usize >= len - base {
            return Event::Failed(ErrorKind::BadSlot);
        }
        if self.frames.len() == 0 {
            return Event::Failed(ErrorKind::FrameUnderflow);
        }
        let value = self.values[base + n as usize];
        self.values.truncate(base);
        self.values.push(value);
        self.fp = self.frames.pop().unwrap();
        Event::Next
    }

    fn do_halt(&mut self, global: &mut Global) -> (e: Event)
        requires
            old(global).wf(),
        ensures
            final(global).wf(),
            agrees(final(self)@, final(global)@, e, op_halt(old(self).machine(old(global)))),
    {
        if self.fp.base >= self.values.len() {
            return Event::Failed(ErrorKind::StackUnderflow);
        }
        Event::Halted(self.values[self.fp.base])
    }

    fn do_new(&mut self, global: &mut Global, obj: HeapObject) -> (e: Event)
        requires
            old(global).wf(),
            obj.wf(),
        ensures
            final(global).wf(),
            agrees(
                final(self)@,
                final(global)@,
                e,
                op_new(
                    old(self).machine(old(global)),
                    obj@,
                    obj.spec_bytes() as int,
                    obj.spec_tag(),
                ),
            ),
    {
        match global.new_object(obj) {
            None => Event::Failed(ErrorKind::OutOfMemory),
            Some(ptr) => {
                self.values.push(ptr);
                Event::Next
            },
        }
    }

    fn do_closure(&mut self, global: &mut Global, i: u8) -> (e: Event)
        requires
            old(global).wf(),
        ensures
            final(global).wf(),
            agrees(
                final(self)@,
                final(global)@,
                e,
                op_closure(old(self).machine(old(global)), i as int),
            ),
    {
        match self.constant(global, i as usize) {
            Err(kind) => Event::Failed(kind),
            Ok(v) => match v.get() {
                Cases::Object(addr) => self.do_new(
                    global,
                    HeapObject::Closure(Closure { env: Vec::new(), code_obj: addr }),
                ),
                _ => Event::Failed(ErrorKind::TypeError),
            },
        }
    }

    fn do_object(&mut self, global: &mut Global, f: Intrinsic, n: usize, push: bool) -> (e: Event)
        requires
            old(global).wf(),
        ensures
            final(global).wf(),
            agrees(
                final(self)@,
                final(global)@,
                e,
                op_object(old(self).machine(old(global)), f, n as int, push),
            ),
    {
        let len = self.values.len();
        if len < n {
            return Event::Failed(ErrorKind::StackUnderflow);
        }
        let outcome = call(f, vstd::slice::slice_subrange(self.values.as_slice(), len - n, len), global);
        match outcome {
            Outcome::Return(v, _) => {
                self.drop_values(n);
                if push {
                    self.values.push(v);
                }
                Event::Next
            },
            Outcome::Failed(kind) => Event::Failed(kind),
            _ => Event::Failed(ErrorKind::TypeError),
        }
    }

    fn do_sym_get(&mut self, global: &mut Global) -> (e: Event)
        requires
            old(global).wf(),
        ensures
            final(global).wf(),
            agrees(final(self)@, final(global)@, e, op_sym_get(old(self).machine(old(global)))),
    {
        let len = self.values.len();
        if len < 1 {
            return Event::Failed(ErrorKind::StackUnderflow);
        }
        match self.values[len - 1].get() {
            Cases::Symbol(sym) => match global.symbol_value(sym) {
                Some(v) => {
                    self.drop_values(1);
                    self.values.push(v);
                    Event::Next
                },
                None => Event::Failed(ErrorKind::Unbound),
            },
            _ => Event::Failed(ErrorKind::TypeError),
        }
    }

    fn do_sym_set(&mut self, global: &mut Global) -> (e: Event)
        requires
            old(global).wf(),
        ensures
            final(global).wf(),
            agrees(final(self)@, final(global)@, e, op_sym_set(old(self).machine(old(global)))),
    {
        let len = self.values.len();
        if len < 2 {
            return Event::Failed(ErrorKind::StackUnderflow);
        }
        let value = self.values[len - 1];
        match self.values[len - 2].get() {
            Cases::Symbol(sym) => {
                if sym.0 == NIL || sym.0 == T {
                    return Event::Failed(ErrorKind::AssignToConstant);
                }
                if !global.has_symbol(sym) {
                    return Event::Failed(ErrorKind::Unbound);
                }
                global.set_symbol(sym, value);
                self.drop_values(2);
                self.values.push(value);
                Event::Next
            },
            _ => Event::Failed(ErrorKind::TypeError),
        }
    }

    /// Runs the host function `f` on the top `n` values.
    fn do_native(&mut self, global: &mut Global, f: Intrinsic, n: u8) -> (e: Event)
        requires
            old(global).wf(),
            n <= old(self)@.values.len(),
        ensures
            final(global).wf(),
            agrees(
                final(self)@,
                final(global)@,
                e,
                finish_native(
                    old(self).machine(old(global)),
                    f,
                    n as int,
                    old(self)@.values.subrange(
                        old(self)@.values.len() - n,
                        old(self)@.values.len() as int,
                    ),
                ),
            ),
    {
        let len = self.values.len();
        let outcome = call(
            f,
            vstd::slice::slice_subrange(self.values.as_slice(), len - n as usize, len),
            global,
        );
        match outcome {
            Outcome::Return(v, halt) => {
                self.drop_values(n as usize);
                if halt {
                    Event::Halted(v)
                } else {
                    self.values.push(v);
                    Event::Next
                }
            },
            Outcome::Print(v) => {
                self.drop_values(n as usize);
                self.values.push(Val::nil());
                Event::Print(v)
            },
            Outcome::NeedsIndex => Event::NeedsIndex { f, argc: n },
            Outcome::Failed(kind) => Event::Failed(kind),
        }
    }

    fn do_call(&mut self, global: &mut Global, n: u8) -> (e: Event)
        requires
            old(global).wf(),
        ensures
            final(global).wf(),
            agrees(final(self)@, final(global)@, e, op_call(old(self).machine(old(global)), n as int)),
    {
        let len = self.values.len();
        if len < n as usize + 1 {
            return Event::Failed(ErrorKind::StackUnderflow);
        }
        let callee = self.values[len - 1];
        match callee.get() {
            Cases::Function(addr) => {
                let code_obj = match global.object(addr) {
                    Some(HeapObject::Closure(closure)) => closure.code_obj,
                    _ => {
                        return Event::Failed(ErrorKind::NotCallable);
                    },
                };
                self.drop_values(1);
                self.frames.push(self.fp);
                self.fp = Frame { ip: 0, base: len - 1 - n as usize, code: code_obj, env: addr };
                Event::Next
            },
            Cases::NativeFn(addr) => {
                match NativeFn::from_addr(addr) {
                    None => Event::Failed(ErrorKind::NotCallable),
                    Some(native) => {
                        self.drop_values(1);
                        let e = self.do_native(global, native.0, n);
                        e
                    },
                }
            },
            _ => Event::Failed(ErrorKind::NotCallable),
        }
    }

    /// Runs one instruction.
    pub fn step(&mut self, global: &mut Global) -> (e: Event)
        requires
            old(global).wf(),
        ensures
            final(global).wf(),
            agrees(final(self)@, final(global)@, e, step_spec(old(self).machine(old(global)))),
    {
        let ghost m0 = self.machine(global);
        let (op, arg, next) = match self.fetch(global) {
            Ok(f) => f,
            Err(kind) => {
                return Event::Failed(kind);
            },
        };
        self.fp.ip = next;
        assert(self.machine(global) == m0.with_ip(next as int));
        assert(step_spec(m0) == execute(m0.with_ip(next as int), op, arg as int));
        match op {
            OpCode::Const => self.do_const(global, arg),
            OpCode::Pop => self.do_pop(global, arg),
            OpCode::PopSave => self.do_pop_save(global, arg),
            OpCode::Dup => self.do_dup(global, arg),
            OpCode::Add
            | OpCode::Sub
            | OpCode::Mul
            | OpCode::Div
            | OpCode::Lt
            | OpCode::Gt
            | OpCode::Lte
            | OpCode::Gte
            | OpCode::Eq => self.do_binary(global, op),
            OpCode::BrNil => self.do_br_nil(global, arg),
            OpCode::Jmp => self.do_jmp(global, arg),
            OpCode::Call => self.do_call(global, arg),
            OpCode::Ret => self.do_ret(global, arg),
            OpCode::MapNew => self.do_new(global, HeapObject::Table(ValMap::new())),
            OpCode::MapGet => self.do_object(global, Intrinsic::MapGet, 2, true),
            OpCode::MapSet => self.do_object(global, Intrinsic::MapPut, 3, false),
            OpCode::MapDel => self.do_object(global, Intrinsic::MapRemove, 2, true),
            OpCode::VecNew => self.do_new(global, HeapObject::Vector(Vector::new())),
            OpCode::VecGet => self.do_object(global, Intrinsic::VectorGet, 2, true),
            OpCode::VecSet => self.do_object(global, Intrinsic::VectorSet, 3, false),
            OpCode::VecPush => self.do_object(global, Intrinsic::VectorPush, 2, false),
            OpCode::VecPop => self.do_object(global, Intrinsic::VectorPop, 1, true),
            OpCode::SymGet => self.do_sym_get(global),
            OpCode::SymSet => self.do_sym_set(global),
            OpCode::Closure => self.do_closure(global, arg),
            OpCode::Halt => self.do_halt(global),
        }
    }

    /// Runs until a step ends in something other than `Next`, for at most
    /// `fuel` steps. `Next` is returned when the fuel is used up; a failure
    /// comes with the place of the instruction that failed.
    pub fn run(&mut self, global: &mut Global, fuel: usize) -> (r: Result<Event, VmError>)
        requires
            old(global).wf(),
        ensures
            final(global).wf(),
            (Machine { vm: final(self)@, global: final(global)@ }, match r {
                Ok(e) => e,
                Err(err) => Event::Failed(err.kind),
            }) == run_spec(old(self).machine(old(global)), fuel as nat),
            r is Ok ==> !(r->Ok_0 is Failed),
            r matches Err(err) ==> err.ip == last_ip(old(self).machine(old(global)), fuel as nat),
    {
        let ghost m0 = self.machine(global);
        let mut left = fuel;
        while left > 0
            invariant
                left <= fuel,
                global.wf(),
                m0 == old(self).machine(old(global)),
                run_spec(m0, fuel as nat) == run_spec(self.machine(global), left as nat),
                last_ip(m0, fuel as nat) == last_ip(self.machine(global), left as nat),
            decreases left,
        {
            let ip = self.fp.ip;
            let e = self.step(global);
            match e {
                Event::Next => {},
                Event::Failed(kind) => {
                    return Err(VmError { kind, ip });
                },
                _ => {
                    return Ok(e);
                },
            }
            left -= 1;
        }
        Ok(Event::Next)
    }

    /// Resumes the call of the host function `f` that stopped for want of an
    /// integer index: `index` takes the place of the double, which is the
    /// second of the `argc` arguments on the stack.
    pub fn resume_native(&mut self, global: &mut Global, f: Intrinsic, argc: u8, index: i32) -> (e:
        Event)
        requires
            old(global).wf(),
        ensures
            final(global).wf(),
            old(self)@.values.len() < argc || argc < 2 ==> e == Event::Failed(
                ErrorKind::StackUnderflow,
            ),
            old(self)@.values.len() >= argc && argc >= 2 ==> agrees(
                final(self)@,
                final(global)@,
                e,
                finish_native(
                    old(self).machine(old(global)).with_values(
                        old(self)@.values.update(
                            old(self)@.values.len() - argc + 1,
                            Val(int_word(index)),
                        ),
                    ),
                    f,
                    argc as int,
                    old(self)@.values.update(
                        old(self)@.values.len() - argc + 1,
                        Val(int_word(index)),
                    ).subrange(old(self)@.values.len() - argc, old(self)@.values.len() as int),
                ),
            ),
    {
        let len = self.values.len();
        if len < argc as usize || argc < 2 {
            return Event::Failed(ErrorKind::StackUnderflow);
        }
        self.values[len - argc as usize + 1] = Val::from_int(index);
        self.do_native(global, f, argc)
    }
}

/// What an operation on two values comes to.
pub enum Computed {
    Value(Val),
    Host,
    Fail(ErrorKind),
}

/// The executable result as the model names it.
pub open spec fn computed(c: Computed) -> Binary {
    match c {
        Computed::Value(v) => Binary::Value(v),
        Computed::Host => Binary::Host,
        Computed::Fail(kind) => Binary::Fail(kind),
    }
}

/// An integer as a value, if it fits in 32 bits.
fn int_value(n: i64) -> (c: Computed)
    ensures
        computed(c) == int_result(n as int),
{
    if n < -0x8000_0000 || n > 0x7FFF_FFFF {
        Computed::Fail(ErrorKind::IntegerOverflow)
    } else {
        Computed::Value(Val::from_int(n as i32))
    }
}

/// Computes an arithmetic operation or comparison, as far as it needs no
/// doubles.
pub fn compute(op: OpCode, left: Val, right: Val) -> (c: Computed)
    ensures
        computed(c) == binary(op, left, right),
{
    if let OpCode::Eq = op {
        return Computed::Value(crate::values::boolean::from_bool(left.0 == right.0));
    }
    if left.is_ptr() || right.is_ptr() {
        return Computed::Fail(ErrorKind::TypeError);
    }
    match (left.get_int(), right.get_int()) {
        (Some(x), Some(y)) => {
            let a = x as i64;
            let b = y as i64;
            match op {
                OpCode::Add => int_value(a + b),
                OpCode::Sub => int_value(a - b),
                OpCode::Mul => {
                    assert(-0x4000_0000_0000_0000 <= a * b <= 0x4000_0000_0000_0000)
                        by (nonlinear_arith)
                        requires
                            -0x8000_0000 <= a <= 0x7FFF_FFFF,
                            -0x8000_0000 <= b <= 0x7FFF_FFFF,
                    ;
                    int_value(a * b)
                },
                OpCode::Div => {
                    if b == 0 {
                        Computed::Fail(ErrorKind::DivisionByZero)
                    } else {
                        let na: u64 = if a >= 0 {
                            a as u64
                        } else {
                            (-a) as u64
                        };
                        let nb: u64 = if b >= 0 {
                            b as u64
                        } else {
                            (-b) as u64
                        };
                        let q = (na / nb) as i64;
                        if (a >= 0) == (b > 0) {
                            int_value(q)
                        } else {
                            int_value(-q)
                        }
                    }
                },
                OpCode::Lt => Computed::Value(crate::values::boolean::from_bool(a < b)),
                OpCode::Gt => Computed::Value(crate::values::boolean::from_bool(a > b)),
                OpCode::Lte => Computed::Value(crate::values::boolean::from_bool(a <= b)),
                OpCode::Gte => Computed::Value(crate::values::boolean::from_bool(a >= b)),
                _ => Computed::Fail(ErrorKind::BadOpcode),
            }
        },
        _ => Computed::Host,
    }
}

/// The host function `f` is bound: the symbol of its name holds it.
pub open spec fn bound(g: GlobalView, f: Intrinsic) -> bool {
    match crate::values::symbols::symbol_of(g.symbols, f.spec_name()) {
        Some(sym) => value_of(g.symbols, sym) is Some && native_at(
            value_of(g.symbols, sym)->0,
        ) == Some(f),
        None => false,
    }
}

} // verus!
