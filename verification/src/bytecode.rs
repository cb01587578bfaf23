//! The instruction set and the code object.
//!
//! Every instruction is one opcode byte; `Const`, `Pop`, `PopSave`, `Dup`,
//! `BrNil`, `Jmp`, `Call`, `Ret` and `Closure` are followed by one more byte,
//! their immediate.

use vstd::prelude::*;
use crate::values::Val;

verus! {

/// The operations of the virtual machine.
#[derive(Copy, Clone, Debug, PartialEq, Eq, Structural)]
pub enum OpCode {
    /// Push `consts[i]`.
    Const,
    /// Drop `k` values.
    Pop,
    /// Drop the `k` values below the top, keeping the top.
    PopSave,
    /// Push a copy of slot `n` of the current frame.
    Dup,
    Add,
    Sub,
    Mul,
    Div,
    Lt,
    Gt,
    Lte,
    Gte,
    Eq,
    /// Pop a value; if it is `nil`, go on by the immediate, counted from the
    /// byte after the immediate.
    BrNil,
    /// Go on by the immediate, counted from the immediate byte itself.
    Jmp,
    /// Pop the callee and call it with the `n` values below it.
    Call,
    /// Leave the frame with the value in slot `n`.
    Ret,
    MapNew,
    MapGet,
    MapSet,
    MapDel,
    VecNew,
    VecGet,
    VecSet,
    VecPush,
    VecPop,
    SymGet,
    SymSet,
    /// Push a new closure over the code object `consts[i]`.
    Closure,
    /// Stop; the value in slot 0 of the frame is the result.
    Halt,
}

/// The number of opcodes; the bytes below it are the valid ones.
pub const NUM_OPCODES: u8 = 30;

impl OpCode {
    /// The byte that encodes the operation.
    pub open spec fn spec_code(self) -> u8 {
        match self {
            OpCode::Const => 0,
            OpCode::Pop => 1,
            OpCode::PopSave => 2,
            OpCode::Dup => 3,
            OpCode::Add => 4,
            OpCode::Sub => 5,
            OpCode::Mul => 6,
            OpCode::Div => 7,
            OpCode::Lt => 8,
            OpCode::Gt => 9,
            OpCode::Lte => 10,
            OpCode::Gte => 11,
            OpCode::Eq => 12,
            OpCode::BrNil => 13,
            OpCode::Jmp => 14,
            OpCode::Call => 15,
            OpCode::Ret => 16,
            OpCode::MapNew => 17,
            OpCode::MapGet => 18,
            OpCode::MapSet => 19,
            OpCode::MapDel => 20,
            OpCode::VecNew => 21,
            OpCode::VecGet => 22,
            OpCode::VecSet => 23,
            OpCode::VecPush => 24,
            OpCode::VecPop => 25,
            OpCode::SymGet => 26,
            OpCode::SymSet => 27,
            OpCode::Closure => 28,
            OpCode::Halt => 29,
        }
    }

    /// Whether the operation is followed by an immediate byte.
    pub open spec fn spec_has_immediate(self) -> bool {
        match self {
            OpCode::Const
            | OpCode::Pop
            | OpCode::PopSave
            | OpCode::Dup
            | OpCode::BrNil
            | OpCode::Jmp
            | OpCode::Call
            | OpCode::Ret
            | OpCode::Closure => true,
            _ => false,
        }
    }

    pub fn code(self) -> (c: u8)
        ensures
            c == self.spec_code(),
            c < NUM_OPCODES,
    {
        match self {
            OpCode::Const => 0,
            OpCode::Pop => 1,
            OpCode::PopSave => 2,
            OpCode::Dup => 3,
            OpCode::Add => 4,
            OpCode::Sub => 5,
            OpCode::Mul => 6,
            OpCode::Div => 7,
            OpCode::Lt => 8,
            OpCode::Gt => 9,
            OpCode::Lte => 10,
            OpCode::Gte => 11,
            OpCode::Eq => 12,
            OpCode::BrNil => 13,
            OpCode::Jmp => 14,
            OpCode::Call => 15,
            OpCode::Ret => 16,
            OpCode::MapNew => 17,
            OpCode::MapGet => 18,
            OpCode::MapSet => 19,
            OpCode::MapDel => 20,
            OpCode::VecNew => 21,
            OpCode::VecGet => 22,
            OpCode::VecSet => 23,
            OpCode::VecPush => 24,
            OpCode::VecPop => 25,
            OpCode::SymGet => 26,
            OpCode::SymSet => 27,
            OpCode::Closure => 28,
            OpCode::Halt => 29,
        }
    }

    pub fn has_immediate(self) -> (b: bool)
        ensures
            b == self.spec_has_immediate(),
    {
        match self {
            OpCode::Const
            | OpCode::Pop
            | OpCode::PopSave
            | OpCode::Dup
            | OpCode::BrNil
            | OpCode::Jmp
            | OpCode::Call
            | OpCode::Ret
            | OpCode::Closure => true,
            _ => false,
        }
    }
}

/// The operation that a byte encodes.
pub open spec fn spec_to_op(code: u8) -> OpCode {
    if code == 0 {
        OpCode::Const
    } else if code == 1 {
        OpCode::Pop
    } else if code == 2 {
        OpCode::PopSave
    } else if code == 3 {
        OpCode::Dup
    } else if code == 4 {
        OpCode::Add
    } else if code == 5 {
        OpCode::Sub
    } else if code == 6 {
        OpCode::Mul
    } else if code == 7 {
        OpCode::Div
    } else if code == 8 {
        OpCode::Lt
    } else if code == 9 {
        OpCode::Gt
    } else if code == 10 {
        OpCode::Lte
    } else if code == 11 {
        OpCode::Gte
    } else if code == 12 {
        OpCode::Eq
    } else if code == 13 {
        OpCode::BrNil
    } else if code == 14 {
        OpCode::Jmp
    } else if code == 15 {
        OpCode::Call
    } else if code == 16 {
        OpCode::Ret
    } else if code == 17 {
        OpCode::MapNew
    } else if code == 18 {
        OpCode::MapGet
    } else if code == 19 {
        OpCode::MapSet
    } else if code == 20 {
        OpCode::MapDel
    } else if code == 21 {
        OpCode::VecNew
    } else if code == 22 {
        OpCode::VecGet
    } else if code == 23 {
        OpCode::VecSet
    } else if code == 24 {
        OpCode::VecPush
    } else if code == 25 {
        OpCode::VecPop
    } else if code == 26 {
        OpCode::SymGet
    } else if code == 27 {
        OpCode::SymSet
    } else if code == 28 {
        OpCode::Closure
    } else {
        OpCode::Halt
    }
}

/// Decodes an opcode byte. Bytes from `NUM_OPCODES` up encode nothing.
pub fn to_op(code: u8) -> (op: OpCode)
    requires
        code < NUM_OPCODES,
    ensures
        op == spec_to_op(code),
        op.spec_code() == code,
{
    if code == 0 {
        OpCode::Const
    } else if code == 1 {
        OpCode::Pop
    } else if code == 2 {
        OpCode::PopSave
    } else if code == 3 {
        OpCode::Dup
    } else if code == 4 {
        OpCode::Add
    } else if code == 5 {
        OpCode::Sub
    } else if code == 6 {
        OpCode::Mul
    } else if code == 7 {
        OpCode::Div
    } else if code == 8 {
        OpCode::Lt
    } else if code == 9 {
        OpCode::Gt
    } else if code == 10 {
        OpCode::Lte
    } else if code == 11 {
        OpCode::Gte
    } else if code == 12 {
        OpCode::Eq
    } else if code == 13 {
        OpCode::BrNil
    } else if code == 14 {
        OpCode::Jmp
    } else if code == 15 {
        OpCode::Call
    } else if code == 16 {
        OpCode::Ret
    } else if code == 17 {
        OpCode::MapNew
    } else if code == 18 {
        OpCode::MapGet
    } else if code == 19 {
        OpCode::MapSet
    } else if code == 20 {
        OpCode::MapDel
    } else if code == 21 {
        OpCode::VecNew
    } else if code == 22 {
        OpCode::VecGet
    } else if code == 23 {
        OpCode::VecSet
    } else if code == 24 {
        OpCode::VecPush
    } else if code == 25 {
        OpCode::VecPop
    } else if code == 26 {
        OpCode::SymGet
    } else if code == 27 {
        OpCode::SymSet
    } else if code == 28 {
        OpCode::Closure
    } else {
        OpCode::Halt
    }
}

/// Decoding undoes encoding.
pub proof fn lemma_op_code_round_trip(op: OpCode)
    ensures
        spec_to_op(op.spec_code()) == op,
        op.spec_code() < NUM_OPCODES,
{
}

/// A code object: a constant pool and the instruction bytes that index it.
#[derive(Clone, Debug)]
pub struct ByteCode {
    pub consts: Vec<Val>,
    pub code: Vec<u8>,
}

} // verus!
