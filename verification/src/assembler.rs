//! The assembler: a textual form of bytecode, one instruction to the line.
//!
//! The mnemonics are the opcode names in lower case. A line that begins
//! with `.` defines a label; `brnil` and `jmp` take a label that lies
//! further down, and are given the offset that takes the machine there. `#n` is an immediate byte. A constant is an unsigned
//! integer, a number (whose value the host has recorded), `%bits` for a raw
//! word, or `:name` for a symbol.

use vstd::prelude::*;
use crate::bytecode::{ByteCode, OpCode};
use crate::compiler::idents::{intern_index, intern_names, names_kept, Ident, IdentTable};
use crate::compiler::numbers::{number_bits, Numbers};
use crate::global::{kept, Global, GlobalView};
use crate::text::{
    chars_of, digit_value, is_ascii_digit, is_digit, is_unicode_whitespace, string_from_chars,
    unicode_whitespace,
};
use crate::values::{int_word, num_word, Val};

verus! {

/// Why the text could not be assembled. An identifier stands for text that
/// was interned: the line, the operand or the label at fault.
#[derive(Copy, Clone, Debug, PartialEq, Eq, Structural)]
pub enum AsmError {
    UnknownInstruction(Ident),
    InvalidConstant(Ident),
    InvalidImmediate(Ident),
    MissingOperand,
    TooManyConstants,
    TooManyInstructions,
    UnknownLabel(Ident),
    /// A label that lies before the place its jump counts from, or more than
    /// 255 bytes after it.
    LabelOutOfRange(Ident),
    OutOfMemory,
}

/// The opcode that a mnemonic names.
pub open spec fn mnemonic(name: Seq<char>) -> Option<OpCode> {
    if name == "const"@ {
        Some(OpCode::Const)
    } else if name == "pop"@ {
        Some(OpCode::Pop)
    } else if name == "popsave"@ {
        Some(OpCode::PopSave)
    } else if name == "dup"@ {
        Some(OpCode::Dup)
    } else if name == "add"@ {
        Some(OpCode::Add)
    } else if name == "sub"@ {
        Some(OpCode::Sub)
    } else if name == "mul"@ {
        Some(OpCode::Mul)
    } else if name == "div"@ {
        Some(OpCode::Div)
    } else if name == "lt"@ {
        Some(OpCode::Lt)
    } else if name == "gt"@ {
        Some(OpCode::Gt)
    } else if name == "lte"@ {
        Some(OpCode::Lte)
    } else if name == "gte"@ {
        Some(OpCode::Gte)
    } else if name == "eq"@ {
        Some(OpCode::Eq)
    } else if name == "brnil"@ {
        Some(OpCode::BrNil)
    } else if name == "jmp"@ {
        Some(OpCode::Jmp)
    } else if name == "call"@ {
        Some(OpCode::Call)
    } else if name == "ret"@ {
        Some(OpCode::Ret)
    } else if name == "mapnew"@ {
        Some(OpCode::MapNew)
    } else if name == "mapget"@ {
        Some(OpCode::MapGet)
    } else if name == "mapset"@ {
        Some(OpCode::MapSet)
    } else if name == "mapdel"@ {
        Some(OpCode::MapDel)
    } else if name == "vecnew"@ {
        Some(OpCode::VecNew)
    } else if name == "vecget"@ {
        Some(OpCode::VecGet)
    } else if name == "vecset"@ {
        Some(OpCode::VecSet)
    } else if name == "vecpush"@ {
        Some(OpCode::VecPush)
    } else if name == "vecpop"@ {
        Some(OpCode::VecPop)
    } else if name == "symget"@ {
        Some(OpCode::SymGet)
    } else if name == "symset"@ {
        Some(OpCode::SymSet)
    } else if name == "closure"@ {
        Some(OpCode::Closure)
    } else if name == "halt"@ {
        Some(OpCode::Halt)
    } else {
        None
    }
}

fn is_word(word: &String, name: &str) -> (b: bool)
    ensures
        b == (word@ == name@),
{
    name.to_owned() == *word
}

/// The opcode that `word` names.
pub fn opcode_of(word: &String) -> (r: Option<OpCode>)
    ensures
        r == mnemonic(word@),
{
    if is_word(word, "const") {
        Some(OpCode::Const)
    } else if is_word(word, "pop") {
        Some(OpCode::Pop)
    } else if is_word(word, "popsave") {
        Some(OpCode::PopSave)
    } else if is_word(word, "dup") {
        Some(OpCode::Dup)
    } else if is_word(word, "add") {
        Some(OpCode::Add)
    } else if is_word(word, "sub") {
        Some(OpCode::Sub)
    } else if is_word(word, "mul") {
        Some(OpCode::Mul)
    } else if is_word(word, "div") {
        Some(OpCode::Div)
    } else if is_word(word, "lt") {
        Some(OpCode::Lt)
    } else if is_word(word, "gt") {
        Some(OpCode::Gt)
    } else if is_word(word, "lte") {
        Some(OpCode::Lte)
    } else if is_word(word, "gte") {
        Some(OpCode::Gte)
    } else if is_word(word, "eq") {
        Some(OpCode::Eq)
    } else if is_word(word, "brnil") {
        Some(OpCode::BrNil)
    } else if is_word(word, "jmp") {
        Some(OpCode::Jmp)
    } else if is_word(word, "call") {
        Some(OpCode::Call)
    } else if is_word(word, "ret") {
        Some(OpCode::Ret)
    } else if is_word(word, "mapnew") {
        Some(OpCode::MapNew)
    } else if is_word(word, "mapget") {
        Some(OpCode::MapGet)
    } else if is_word(word, "mapset") {
        Some(OpCode::MapSet)
    } else if is_word(word, "mapdel") {
        Some(OpCode::MapDel)
    } else if is_word(word, "vecnew") {
        Some(OpCode::VecNew)
    } else if is_word(word, "vecget") {
        Some(OpCode::VecGet)
    } else if is_word(word, "vecset") {
        Some(OpCode::VecSet)
    } else if is_word(word, "vecpush") {
        Some(OpCode::VecPush)
    } else if is_word(word, "vecpop") {
        Some(OpCode::VecPop)
    } else if is_word(word, "symget") {
        Some(OpCode::SymGet)
    } else if is_word(word, "symset") {
        Some(OpCode::SymSet)
    } else if is_word(word, "closure") {
        Some(OpCode::Closure)
    } else if is_word(word, "halt") {
        Some(OpCode::Halt)
    } else {
        None
    }
}

/// Whether every character is a decimal digit.
pub open spec fn all_digits(s: Seq<char>) -> bool {
    forall|i: int| 0 <= i < s.len() ==> is_digit(s[i])
}

/// The number that decimal digits denote.
pub open spec fn decimal_value(s: Seq<char>) -> nat
    decreases s.len(),
{
    if s.len() == 0 {
        0
    } else {
        10 * decimal_value(s.drop_last()) + (s.last() as u32 - '0' as u32) as nat
    }
}

/// The number that `text` denotes, if it is decimal digits after at most
/// one plus sign and denotes no more than `max`.
pub open spec fn parse_unsigned(text: Seq<char>, max: nat) -> Option<nat> {
    let digits = if text.len() > 0 && text[0] == '+' {
        text.skip(1)
    } else {
        text
    };
    if digits.len() > 0 && all_digits(digits) && decimal_value(digits) <= max {
        Some(decimal_value(digits))
    } else {
        None
    }
}

/// Parses the decimal number in `chars[from..to]`.
pub fn parse_decimal(chars: &Vec<char>, from: usize, to: usize, max: u64) -> (r: Option<u64>)
    requires
        from <= to <= chars.len(),
    ensures
        match r {
            Some(n) => parse_unsigned(chars@.subrange(from as int, to as int), max as nat) == Some(
                n as nat,
            ),
            None => parse_unsigned(chars@.subrange(from as int, to as int), max as nat) is None,
        },
{
    let ghost text = chars@.subrange(from as int, to as int);
    let start = if from < to && chars[from] == '+' {
        from + 1
    } else {
        from
    };
    let ghost digits = chars@.subrange(start as int, to as int);
    assert(start > from ==> digits =~= text.skip(1));
    assert(start == from ==> digits =~= text);
    let ghost chosen = if text.len() > 0 && text[0] == '+' {
        text.skip(1)
    } else {
        text
    };
    assert(digits == chosen);
    if start == to {
        return None;
    }
    let mut acc: u64 = 0;
    let mut over = false;
    let mut i: usize = start;
    assert(digits.take(0) =~= Seq::<char>::empty());
    while i < to
        invariant
            start <= i <= to <= chars.len(),
            digits == chars@.subrange(start as int, to as int),
            text == chars@.subrange(from as int, to as int),
            digits == chosen,
            chosen == (if text.len() > 0 && text[0] == '+' {
                text.skip(1)
            } else {
                text
            }),
            all_digits(digits.take(i - start)),
            !over ==> acc == decimal_value(digits.take(i - start)) && acc <= max,
            over ==> decimal_value(digits.take(i - start)) > max,
        decreases to - i,
    {
        let c = chars[i];
        let ghost prefix = digits.take(i - start);
        let ghost next = digits.take(i + 1 - start);
        assert(next.drop_last() =~= prefix);
        assert(next.last() == c);
        if !is_ascii_digit(c) {
            assert(!all_digits(digits)) by {
                assert(digits[i - start] == c);
            }
            return None;
        }
        assert(all_digits(next)) by {
            assert forall|k: int| 0 <= k < next.len() implies is_digit(next[k]) by {
                if k < prefix.len() {
                    assert(next[k] == prefix[k]);
                }
            }
        }
        let d = digit_value(c) as u64;
        if !over {
            if max < d || acc > (max - d) / 10 {
                over = true;
                assert(10 * acc + d > max) by (nonlinear_arith)
                    requires
                        max < d || acc > (max - d) / 10,
                        acc >= 0,
                        d >= 0,
                ;
            } else {
                assert(10 * acc + d <= max) by (nonlinear_arith)
                    requires
                        acc <= (max - d) / 10,
                        max >= d,
                ;
                acc = 10 * acc + d;
            }
        }
        i += 1;
    }
    assert(digits.take(to - start) =~= digits);
    if over {
        None
    } else {
        Some(acc)
    }
}

/// The immediate that `text` denotes: `#` and a number up to 255.
pub open spec fn immediate_of(text: Seq<char>) -> Option<u8> {
    if text.len() > 0 && text[0] == '#' {
        match parse_unsigned(text.skip(1), 255) {
            Some(n) => Some(n as u8),
            None => None,
        }
    } else {
        None
    }
}

/// Parses an immediate operand in `chars[from..to]`.
fn immediate_at(chars: &Vec<char>, from: usize, to: usize) -> (r: Option<u8>)
    requires
        from <= to <= chars.len(),
    ensures
        r == immediate_of(chars@.subrange(from as int, to as int)),
{
    let ghost text = chars@.subrange(from as int, to as int);
    if from < to && chars[from] == '#' {
        assert(chars@.subrange(from + 1, to as int) =~= text.skip(1));
        match parse_decimal(chars, from + 1, to, 255) {
            Some(n) => Some(n as u8),
            None => None,
        }
    } else {
        None
    }
}

/// Parses an immediate operand: `#` and a number up to 255.
pub fn parse_immediate(s: &str) -> (r: Option<u8>)
    ensures
        r == immediate_of(s@),
{
    let chars = chars_of(s);
    assert(chars@.subrange(0, chars.len() as int) =~= s@);
    immediate_at(&chars, 0, chars.len())
}

/// What kind of operand an instruction takes in assembly text.
#[derive(Copy, Clone, Debug, PartialEq, Eq, Structural)]
pub enum OperandKind {
    Nothing,
    Immediate,
    Constant,
    Label,
}

pub open spec fn spec_operand_kind(op: OpCode) -> OperandKind {
    match op {
        OpCode::Const | OpCode::Closure => OperandKind::Constant,
        OpCode::BrNil | OpCode::Jmp => OperandKind::Label,
        OpCode::Pop | OpCode::PopSave | OpCode::Dup | OpCode::Call | OpCode::Ret => {
            OperandKind::Immediate
        },
        _ => OperandKind::Nothing,
    }
}

pub fn operand_kind(op: OpCode) -> (k: OperandKind)
    ensures
        k == spec_operand_kind(op),
{
    match op {
        OpCode::Const | OpCode::Closure => OperandKind::Constant,
        OpCode::BrNil | OpCode::Jmp => OperandKind::Label,
        OpCode::Pop | OpCode::PopSave | OpCode::Dup | OpCode::Call | OpCode::Ret => {
            OperandKind::Immediate
        },
        _ => OperandKind::Nothing,
    }
}

/// What the text of a constant is.
pub ghost enum ConstKind {
    Raw(u64),
    Int(i32),
    Number,
    Keyword,
    Invalid,
}

pub open spec fn const_kind(text: Seq<char>) -> ConstKind {
    if text.len() == 0 {
        ConstKind::Invalid
    } else if text[0] == '%' {
        match parse_unsigned(text.skip(1), u64::MAX as nat) {
            Some(n) => ConstKind::Raw(n as u64),
            None => ConstKind::Invalid,
        }
    } else if text[0] == ':' {
        if text.len() > 1 {
            ConstKind::Keyword
        } else {
            ConstKind::Invalid
        }
    } else if text[0] == '-' || is_digit(text[0]) {
        match parse_unsigned(text, 0x7FFF_FFFF) {
            Some(n) => ConstKind::Int(n as i32),
            None => ConstKind::Number,
        }
    } else {
        ConstKind::Invalid
    }
}

/// The code object under assembly, as plain data.
pub ghost struct AsmView {
    pub code: Seq<u8>,
    pub consts: Seq<Val>,
    pub labels: Seq<(Ident, usize)>,
    pub refs: Seq<(usize, Ident, usize)>,
}

/// The assembler together with the tables it interns into.
pub ghost struct AsmState {
    pub unit: AsmView,
    pub names: Seq<Seq<char>>,
    pub global: GlobalView,
}

pub type Assembled = Result<AsmState, AsmError>;

/// The number of whitespace characters from `pos` on, before `end`.
pub open spec fn ws_run(chars: Seq<char>, pos: nat, end: nat) -> nat
    decreases end - pos,
{
    if pos < end && pos < chars.len() && unicode_whitespace(chars[pos as int]) {
        1 + ws_run(chars, pos + 1, end)
    } else {
        0
    }
}

/// The number of characters of a word from `pos` on, before `end`.
pub open spec fn word_run(chars: Seq<char>, pos: nat, end: nat) -> nat
    decreases end - pos,
{
    if pos < end && pos < chars.len() && !unicode_whitespace(chars[pos as int]) {
        1 + word_run(chars, pos + 1, end)
    } else {
        0
    }
}

/// The number of characters from `pos` up to the end of the line.
pub open spec fn line_run(chars: Seq<char>, pos: nat) -> nat
    decreases chars.len() - pos,
{
    if pos < chars.len() && chars[pos as int] != '\n' {
        1 + line_run(chars, pos + 1)
    } else {
        0
    }
}

/// The state with `text` interned, and the identifier of `text`.
pub open spec fn with_name(st: AsmState, text: Seq<char>) -> (AsmState, Ident) {
    (
        AsmState { names: intern_names(st.names, text), ..st },
        Ident(intern_index(st.names, text) as usize),
    )
}

/// The value of the constant `text`.
pub open spec fn constant(text: Seq<char>, st: AsmState, numbers: Seq<Option<u64>>) -> Result<
    (Val, AsmState),
    AsmError,
> {
    match const_kind(text) {
        ConstKind::Raw(w) => Ok((Val(w), st)),
        ConstKind::Int(i) => Ok((Val(int_word(i)), st)),
        ConstKind::Number => {
            let (st1, id) = with_name(st, text);
            match number_bits(numbers, id) {
                Some(bits) => Ok((Val(num_word(bits)), st1)),
                None => Err(AsmError::InvalidConstant(id)),
            }
        },
        ConstKind::Keyword => {
            let (global, sym) = st.global.intern(text.skip(1));
            match sym {
                Some(s) => Ok((Val(s.0), AsmState { global, ..st })),
                None => Err(AsmError::OutOfMemory),
            }
        },
        ConstKind::Invalid => Err(AsmError::InvalidConstant(with_name(st, text).1)),
    }
}

/// The state after the instruction `op` with operand text `w1` (empty if
/// the line has no second word) was assembled.
pub open spec fn instruction(
    op: OpCode,
    w1: Seq<char>,
    st: AsmState,
    numbers: Seq<Option<u64>>,
) -> Assembled {
    let code = st.unit.code.push(op.spec_code());
    match spec_operand_kind(op) {
        OperandKind::Nothing => Ok(AsmState { unit: AsmView { code, ..st.unit }, ..st }),
        kind => if w1.len() == 0 {
            Err(AsmError::MissingOperand)
        } else {
            match kind {
                OperandKind::Immediate => match immediate_of(w1) {
                    Some(n) => Ok(AsmState { unit: AsmView { code: code.push(n), ..st.unit }, ..st }),
                    None => Err(AsmError::InvalidImmediate(with_name(st, w1).1)),
                },
                OperandKind::Constant => match constant(w1, st, numbers) {
                    Err(e) => Err(e),
                    Ok((v, st1)) => Ok(
                        AsmState {
                            unit: AsmView {
                                code: code.push(st.unit.consts.len() as u8),
                                consts: st.unit.consts.push(v),
                                ..st1.unit
                            },
                            ..st1
                        },
                    ),
                },
                _ => {
                    let (st1, id) = with_name(st, w1);
                    Ok(
                        AsmState {
                            unit: AsmView {
                                code: code.push(0),
                                refs: st.unit.refs.push(
                                    (code.len() as usize, id, jump_base(op, code.len() as int)),
                                ),
                                ..st1.unit
                            },
                            ..st1
                        },
                    )
                },
            }
        },
    }
}

/// A code object holds at most 255 constants and 255 bytes of code.
pub open spec fn within_limits(r: Assembled) -> Assembled {
    match r {
        Err(e) => Err(e),
        Ok(st) => if st.unit.consts.len() > 255 {
            Err(AsmError::TooManyConstants)
        } else if st.unit.code.len() > 255 {
            Err(AsmError::TooManyInstructions)
        } else {
            Ok(st)
        },
    }
}

/// The state after the line `chars[ls..le]` was assembled: a blank line
/// changes nothing, a word that begins with a dot defines a label at the
/// place reached in the code, and anything else is an instruction.
pub open spec fn asm_line(
    chars: Seq<char>,
    ls: nat,
    le: nat,
    st: AsmState,
    numbers: Seq<Option<u64>>,
) -> Assembled {
    let a0 = ls + ws_run(chars, ls, le);
    let b0 = a0 + word_run(chars, a0, le);
    let a1 = b0 + ws_run(chars, b0, le);
    let b1 = a1 + word_run(chars, a1, le);
    let w0 = chars.subrange(a0 as int, b0 as int);
    let w1 = chars.subrange(a1 as int, b1 as int);
    if b0 == a0 {
        Ok(st)
    } else if w0[0] == '.' {
        let (st1, id) = with_name(st, w0);
        Ok(
            AsmState {
                unit: AsmView {
                    labels: st.unit.labels.push((id, st.unit.code.len() as usize)),
                    ..st1.unit
                },
                ..st1
            },
        )
    } else {
        match mnemonic(w0) {
            None => Err(
                AsmError::UnknownInstruction(
                    with_name(st, chars.subrange(ls as int, le as int)).1,
                ),
            ),
            Some(op) => within_limits(instruction(op, w1, st, numbers)),
        }
    }
}

/// The state after the lines from `pos` on were assembled.
pub open spec fn asm_lines(chars: Seq<char>, pos: nat, st: AsmState, numbers: Seq<Option<u64>>) -> Assembled
    decreases chars.len() - pos,
{
    if pos >= chars.len() {
        Ok(st)
    } else {
        let le = pos + line_run(chars, pos);
        match asm_line(chars, pos, le, st, numbers) {
            Err(e) => Err(e),
            Ok(st1) => if le >= chars.len() {
                Ok(st1)
            } else {
                asm_lines(chars, le + 1, st1, numbers)
            },
        }
    }
}

/// The place that the last definition of label `id` gave it.
pub open spec fn label_target(labels: Seq<(Ident, usize)>, id: Ident) -> Option<usize>
    decreases labels.len(),
{
    if labels.len() == 0 {
        None
    } else if labels.last().0 == id {
        Some(labels.last().1)
    } else {
        label_target(labels.drop_last(), id)
    }
}

/// The place from which the offset of a jump counts, given the place `at`
/// of its offset byte: `Jmp` counts from the offset byte itself, `BrNil`
/// from the byte after it.
pub open spec fn jump_base(op: OpCode, at: int) -> usize {
    if op == OpCode::Jmp {
        at as usize
    } else {
        (at + 1) as usize
    }
}

/// The code with the first `k` jumps given their offsets: the distance from
/// the place the jump counts from to the label.
pub open spec fn patched(
    code: Seq<u8>,
    refs: Seq<(usize, Ident, usize)>,
    labels: Seq<(Ident, usize)>,
    k: int,
) -> Result<Seq<u8>, AsmError>
    decreases k,
{
    if k <= 0 || k > refs.len() {
        Ok(code)
    } else {
        match patched(code, refs, labels, k - 1) {
            Err(e) => Err(e),
            Ok(done) => {
                let (at, id, from) = refs[k - 1];
                match label_target(labels, id) {
                    None => Err(AsmError::UnknownLabel(id)),
                    Some(target) => if target < from || target - from > 255 {
                        Err(AsmError::LabelOutOfRange(id))
                    } else {
                        Ok(done.update(at as int, (target - from) as u8))
                    },
                }
            },
        }
    }
}

/// An assembler that has assembled nothing.
pub open spec fn empty_asm() -> AsmView {
    AsmView { code: Seq::empty(), consts: Seq::empty(), labels: Seq::empty(), refs: Seq::empty() }
}

/// The state after `text` was assembled, with every jump patched.
pub open spec fn assemble_spec(
    text: Seq<char>,
    names: Seq<Seq<char>>,
    global: GlobalView,
    numbers: Seq<Option<u64>>,
) -> Assembled {
    match asm_lines(text, 0, AsmState { unit: empty_asm(), names, global }, numbers) {
        Err(e) => Err(e),
        Ok(st) => match patched(
            st.unit.code,
            st.unit.refs,
            st.unit.labels,
            st.unit.refs.len() as int,
        ) {
            Err(e) => Err(e),
            Ok(code) => Ok(AsmState { unit: AsmView { code, ..st.unit }, ..st }),
        },
    }
}

/// An error among the first jumps is the error of all of them.
pub proof fn lemma_patched_err(
    code: Seq<u8>,
    refs: Seq<(usize, Ident, usize)>,
    labels: Seq<(Ident, usize)>,
    k: int,
    n: int,
)
    requires
        0 <= k <= n <= refs.len(),
        patched(code, refs, labels, k) is Err,
    ensures
        patched(code, refs, labels, n) == patched(code, refs, labels, k),
    decreases n - k,
{
    if k < n {
        lemma_patched_err(code, refs, labels, k, n - 1);
    }
}

/// Every jump recorded lies in the code.
pub open spec fn refs_in_code(unit: AsmView) -> bool {
    forall|k: int| 0 <= k < unit.refs.len() ==> (#[trigger] unit.refs[k]).0 < unit.code.len()
}

/// The code object under assembly.
pub struct Assembler {
    code: Vec<u8>,
    consts: Vec<Val>,
    labels: Vec<(Ident, usize)>,
    refs: Vec<(usize, Ident, usize)>,
}

impl View for Assembler {
    type V = AsmView;

    closed spec fn view(&self) -> AsmView {
        AsmView { code: self.code@, consts: self.consts@, labels: self.labels@, refs: self.refs@ }
    }
}

/// What a step of the assembler returns, as an outcome of its model.
pub open spec fn asm_outcome(
    r: Result<(), AsmError>,
    unit: AsmView,
    names: Seq<Seq<char>>,
    global: GlobalView,
) -> Assembled {
    match r {
        Ok(_) => Ok(AsmState { unit, names, global }),
        Err(e) => Err(e),
    }
}

/// Where the run of whitespace (or of word characters) that begins at
/// `pos` ends, before `end`.
fn skip_run(chars: &Vec<char>, pos: usize, end: usize, ws: bool) -> (r: usize)
    requires
        pos <= end <= chars.len(),
    ensures
        pos <= r <= end,
        r == pos + (if ws {
            ws_run(chars@, pos as nat, end as nat)
        } else {
            word_run(chars@, pos as nat, end as nat)
        }),
{
    let mut i: usize = pos;
    while i < end && is_unicode_whitespace(chars[i]) == ws
        invariant
            pos <= i <= end <= chars.len(),
            ws ==> ws_run(chars@, pos as nat, end as nat) == (i - pos) + ws_run(
                chars@,
                i as nat,
                end as nat,
            ),
            !ws ==> word_run(chars@, pos as nat, end as nat) == (i - pos) + word_run(
                chars@,
                i as nat,
                end as nat,
            ),
        decreases end - i,
    {
        i += 1;
    }
    i
}

/// Where the line that begins at `pos` ends.
fn line_end(chars: &Vec<char>, pos: usize) -> (r: usize)
    requires
        pos <= chars.len(),
    ensures
        pos <= r <= chars.len(),
        r == pos + line_run(chars@, pos as nat),
{
    let mut i: usize = pos;
    while i < chars.len() && chars[i] != '\n'
        invariant
            pos <= i <= chars.len(),
            line_run(chars@, pos as nat) == (i - pos) + line_run(chars@, i as nat),
        decreases chars.len() - i,
    {
        i += 1;
    }
    i
}

/// Interns `chars[from..to]`.
fn intern_range(chars: &Vec<char>, from: usize, to: usize, idents: &mut IdentTable) -> (id: Ident)
    requires
        from <= to <= chars.len(),
        old(idents).wf(),
    ensures
        final(idents).wf(),
        final(idents)@ == intern_names(old(idents)@, chars@.subrange(from as int, to as int)),
        id.0 == intern_index(old(idents)@, chars@.subrange(from as int, to as int)),
{
    let text = string_from_chars(vstd::slice::slice_subrange(chars.as_slice(), from, to));
    idents.intern(text.as_str())
}

/// Parses the constant in `chars[from..to]`.
fn parse_val(
    chars: &Vec<char>,
    from: usize,
    to: usize,
    idents: &mut IdentTable,
    numbers: &Numbers,
    global: &mut Global,
    Ghost(unit): Ghost<AsmView>,
) -> (r: Result<Val, AsmError>)
    requires
        from <= to <= chars.len(),
        old(idents).wf(),
        old(global).wf(),
    ensures
        final(idents).wf(),
        names_kept(old(idents)@, final(idents)@),
        final(global).wf(),
        kept(old(global)@, final(global)@),
        match r {
            Ok(v) => constant(
                chars@.subrange(from as int, to as int),
                AsmState { unit, names: old(idents)@, global: old(global)@ },
                numbers@,
            ) == Ok::<(Val, AsmState), AsmError>(
                (v, AsmState { unit, names: final(idents)@, global: final(global)@ }),
            ),
            Err(e) => constant(
                chars@.subrange(from as int, to as int),
                AsmState { unit, names: old(idents)@, global: old(global)@ },
                numbers@,
            ) == Err::<(Val, AsmState), AsmError>(e),
        },
{
    let ghost text = chars@.subrange(from as int, to as int);
    if from == to {
        let id = intern_range(chars, from, to, idents);
        return Err(AsmError::InvalidConstant(id));
    }
    let first = chars[from];
    assert(text[0] == first);
    if first == '%' {
        assert(chars@.subrange(from + 1, to as int) =~= text.skip(1));
        match parse_decimal(chars, from + 1, to, u64::MAX) {
            Some(raw) => Ok(Val(raw)),
            None => {
                let id = intern_range(chars, from, to, idents);
                Err(AsmError::InvalidConstant(id))
            },
        }
    } else if first == ':' {
        if to - from > 1 {
            assert(chars@.subrange(from + 1, to as int) =~= text.skip(1));
            let name = string_from_chars(
                vstd::slice::slice_subrange(chars.as_slice(), from + 1, to),
            );
            match global.intern(name.as_str()) {
                Some(sym) => Ok(sym.as_val()),
                None => Err(AsmError::OutOfMemory),
            }
        } else {
            let id = intern_range(chars, from, to, idents);
            Err(AsmError::InvalidConstant(id))
        }
    } else if first == '-' || is_ascii_digit(first) {
        match parse_decimal(chars, from, to, 0x7FFF_FFFF) {
            Some(i) => Ok(Val::from_int(i as i32)),
            None => {
                let id = intern_range(chars, from, to, idents);
                match numbers.get(id) {
                    Some(bits) => Ok(Val::from_num(bits)),
                    None => Err(AsmError::InvalidConstant(id)),
                }
            },
        }
    } else {
        let id = intern_range(chars, from, to, idents);
        Err(AsmError::InvalidConstant(id))
    }
}

impl Assembler {
    /// The invariant between lines: the code object is within its limits.
    pub closed spec fn wf(&self) -> bool {
        self.code.len() <= 255 && self.consts.len() <= 255
    }

    /// An assembler that has assembled nothing.
    pub fn new() -> (a: Assembler)
        ensures
            a.wf(),
            a@ == empty_asm(),
    {
        Assembler { code: Vec::new(), consts: Vec::new(), labels: Vec::new(), refs: Vec::new() }
    }

    /// Assembles the instruction `op`, whose operand is `chars[a1..b1]`.
    fn instruction(
        &mut self,
        op: OpCode,
        chars: &Vec<char>,
        a1: usize,
        b1: usize,
        idents: &mut IdentTable,
        numbers: &Numbers,
        global: &mut Global,
    ) -> (r: Result<(), AsmError>)
        requires
            old(self).wf(),
            refs_in_code(old(self)@),
            a1 <= b1 <= chars.len(),
            old(idents).wf(),
            old(global).wf(),
        ensures
            final(idents).wf(),
            names_kept(old(idents)@, final(idents)@),
            final(global).wf(),
            kept(old(global)@, final(global)@),
            r is Ok ==> final(self).code.len() <= 257 && final(self).consts.len() <= 256
                && refs_in_code(final(self)@),
            asm_outcome(r, final(self)@, final(idents)@, final(global)@) == instruction(
                op,
                chars@.subrange(a1 as int, b1 as int),
                AsmState { unit: old(self)@, names: old(idents)@, global: old(global)@ },
                numbers@,
            ),
    {
        match operand_kind(op) {
            OperandKind::Nothing => {
                self.code.push(op.code());
                Ok(())
            },
            OperandKind::Immediate => {
                if a1 == b1 {
                    return Err(AsmError::MissingOperand);
                }
                match immediate_at(chars, a1, b1) {
                    Some(n) => {
                        self.code.push(op.code());
                        self.code.push(n);
                        Ok(())
                    },
                    None => {
                        let id = intern_range(chars, a1, b1, idents);
                        Err(AsmError::InvalidImmediate(id))
                    },
                }
            },
            OperandKind::Constant => {
                if a1 == b1 {
                    return Err(AsmError::MissingOperand);
                }
                let v = parse_val(chars, a1, b1, idents, numbers, global, Ghost(self@))?;
                let i = self.consts.len();
                self.consts.push(v);
                self.code.push(op.code());
                self.code.push(i as u8);
                Ok(())
            },
            OperandKind::Label => {
                if a1 == b1 {
                    return Err(AsmError::MissingOperand);
                }
                let id = intern_range(chars, a1, b1, idents);
                self.code.push(op.code());
                let at = self.code.len();
                let from = match op {
                    OpCode::Jmp => at,
                    _ => at + 1,
                };
                self.refs.push((at, id, from));
                self.code.push(0);
                Ok(())
            },
        }
    }

    /// Assembles the line `chars[ls..le]`.
    fn line(
        &mut self,
        chars: &Vec<char>,
        ls: usize,
        le: usize,
        idents: &mut IdentTable,
        numbers: &Numbers,
        global: &mut Global,
    ) -> (r: Result<(), AsmError>)
        requires
            old(self).wf(),
            refs_in_code(old(self)@),
            ls <= le <= chars.len(),
            old(idents).wf(),
            old(global).wf(),
        ensures
            final(idents).wf(),
            names_kept(old(idents)@, final(idents)@),
            final(global).wf(),
            kept(old(global)@, final(global)@),
            r is Ok ==> final(self).wf() && refs_in_code(final(self)@),
            asm_outcome(r, final(self)@, final(idents)@, final(global)@) == asm_line(
                chars@,
                ls as nat,
                le as nat,
                AsmState { unit: old(self)@, names: old(idents)@, global: old(global)@ },
                numbers@,
            ),
    {
        let a0 = skip_run(chars, ls, le, true);
        let b0 = skip_run(chars, a0, le, false);
        let a1 = skip_run(chars, b0, le, true);
        let b1 = skip_run(chars, a1, le, false);
        if b0 == a0 {
            return Ok(());
        }
        if chars[a0] == '.' {
            let id = intern_range(chars, a0, b0, idents);
            self.labels.push((id, self.code.len()));
            return Ok(());
        }
        let word = string_from_chars(vstd::slice::slice_subrange(chars.as_slice(), a0, b0));
        match opcode_of(&word) {
            None => {
                let id = intern_range(chars, ls, le, idents);
                Err(AsmError::UnknownInstruction(id))
            },
            Some(op) => {
                self.instruction(op, chars, a1, b1, idents, numbers, global)?;
                if self.consts.len() > 255 {
                    return Err(AsmError::TooManyConstants);
                }
                if self.code.len() > 255 {
                    return Err(AsmError::TooManyInstructions);
                }
                Ok(())
            },
        }
    }

    /// The place that the last definition of label `id` gave it.
    fn find_label(&self, id: Ident) -> (r: Option<usize>)
        ensures
            r == label_target(self@.labels, id),
    {
        let mut i: usize = self.labels.len();
        assert(self.labels@.take(i as int) =~= self.labels@);
        while i > 0
            invariant
                i <= self.labels.len(),
                label_target(self.labels@, id) == label_target(self.labels@.take(i as int), id),
            decreases i,
        {
            i -= 1;
            assert(self.labels@.take(i + 1).drop_last() =~= self.labels@.take(i as int));
            if self.labels[i].0.0 == id.0 {
                return Some(self.labels[i].1);
            }
        }
        None
    }

    /// Gives every jump its offset.
    fn patch(&mut self) -> (r: Result<(), AsmError>)
        requires
            refs_in_code(old(self)@),
        ensures
            match r {
                Ok(_) => patched(
                    old(self)@.code,
                    old(self)@.refs,
                    old(self)@.labels,
                    old(self)@.refs.len() as int,
                ) == Ok::<Seq<u8>, AsmError>(final(self)@.code) && final(self)@ == (AsmView {
                    code: final(self)@.code,
                    ..old(self)@
                }),
                Err(e) => patched(
                    old(self)@.code,
                    old(self)@.refs,
                    old(self)@.labels,
                    old(self)@.refs.len() as int,
                ) == Err::<Seq<u8>, AsmError>(e),
            },
    {
        let ghost before = self@;
        let mut k: usize = 0;
        while k < self.refs.len()
            invariant
                k <= self.refs.len(),
                before == old(self)@,
                self@.refs == before.refs,
                self@.labels == before.labels,
                self@.consts == before.consts,
                self@.code.len() == before.code.len(),
                refs_in_code(before),
                patched(before.code, before.refs, before.labels, k as int) == Ok::<
                    Seq<u8>,
                    AsmError,
                >(self@.code),
            decreases self.refs.len() - k,
        {
            let (at, id, from) = self.refs[k];
            assert(before.refs[k as int].0 < before.code.len());
            assert(at < self.code.len());
            match self.find_label(id) {
                None => {
                    proof {
                        lemma_patched_err(
                            before.code,
                            before.refs,
                            before.labels,
                            k + 1,
                            before.refs.len() as int,
                        );
                    }
                    return Err(AsmError::UnknownLabel(id));
                },
                Some(target) => {
                    if target < from || target - from > 255 {
                        proof {
                            lemma_patched_err(
                                before.code,
                                before.refs,
                                before.labels,
                                k + 1,
                                before.refs.len() as int,
                            );
                        }
                        return Err(AsmError::LabelOutOfRange(id));
                    }
                    self.code[at] = (target - from) as u8;
                },
            }
            k += 1;
        }
        Ok(())
    }
}

/// Assembles `text` into a code object. Names, labels and the text of
/// numbers are interned in `idents`; the value of a number is taken from
/// `numbers`; a `:name` constant is interned in `global`.
pub fn compile(text: &str, idents: &mut IdentTable, numbers: &Numbers, global: &mut Global) -> (r:
    Result<ByteCode, AsmError>)
    requires
        old(idents).wf(),
        old(global).wf(),
    ensures
        final(idents).wf(),
        names_kept(old(idents)@, final(idents)@),
        final(global).wf(),
        kept(old(global)@, final(global)@),
        match r {
            Ok(bytecode) => {
                let done = assemble_spec(text@, old(idents)@, old(global)@, numbers@);
                &&& done is Ok
                &&& done->Ok_0.unit.code == bytecode.code@
                &&& done->Ok_0.unit.consts == bytecode.consts@
                &&& done->Ok_0.names == final(idents)@
                &&& done->Ok_0.global == final(global)@
            },
            Err(e) => assemble_spec(text@, old(idents)@, old(global)@, numbers@) == Err::<
                AsmState,
                AsmError,
            >(e),
        },
{
    let chars = chars_of(text);
    let mut unit = Assembler::new();
    let ghost st0 = AsmState { unit: unit@, names: idents@, global: global@ };
    let mut pos: usize = 0;
    while pos < chars.len()
        invariant
            chars@ == text@,
            unit.wf(),
            idents.wf(),
            names_kept(old(idents)@, idents@),
            global.wf(),
            kept(old(global)@, global@),
            st0 == (AsmState { unit: empty_asm(), names: old(idents)@, global: old(global)@ }),
            refs_in_code(unit@),
            asm_lines(chars@, 0, st0, numbers@) == asm_lines(
                chars@,
                pos as nat,
                AsmState { unit: unit@, names: idents@, global: global@ },
                numbers@,
            ),
        decreases chars.len() + 1 - pos,
    {
        let le = line_end(&chars, pos);
        unit.line(&chars, pos, le, idents, numbers, global)?;
        if le >= chars.len() {
            pos = chars.len();
        } else {
            pos = le + 1;
        }
    }
    unit.patch()?;
    Ok(ByteCode { consts: unit.consts, code: unit.code })
}

} // verus!
