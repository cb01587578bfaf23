//! Walks a syntax tree and emits bytecode for it.
//!
//! The emitter keeps a model of the machine's stack: `sp` is the number of
//! values above the frame base at the instruction that is emitted next. The
//! code for an expression leaves exactly one value, which the emitter that
//! asked for the expression accounts for.

use vstd::prelude::*;
use super::idents::{Ident, IdentTable};
use super::numbers::{number_bits, Numbers};
use super::parse::{
    binding_views, expr_pair_views, expr_views, lemma_expr_view, Expr, ExprView, Primitives,
};
use crate::bytecode::{ByteCode, OpCode};
use crate::global::{kept, Global, GlobalView, HeapObject, ObjectView, CODE_BYTES};
use crate::values::vectors::{
    spec_vector_limit, word_vec_as_slice, word_vec_items, word_vec_len, word_vec_new,
    word_vec_pop, word_vec_push, WordVec,
};
use crate::values::{num_word, Tag, Val};

verus! {

/// What can go wrong while emitting.
#[derive(Copy, Clone, Debug, PartialEq, Eq, Structural)]
pub enum EmitError {
    /// A slot, an argument count or a binding count that does not fit in the
    /// byte that an instruction has for it.
    SlotTooLarge(usize),
    /// More than 256 constants in one code object.
    TooManyConstants,
    /// More than 256 bytes of instructions in one code object.
    TooManyInstructions,
    /// An identifier that the identifier table does not hold.
    UnknownIdent(Ident),
    /// A primitive operation whose operator names no primitive.
    UnknownPrimitive(Ident),
    /// A number literal whose value was not recorded.
    UnresolvedNumber(Ident),
    /// An assignment to a name that is bound in the scope.
    CannotSetLocal(Ident),
    /// A `cond`, for which there is no code.
    CondNotSupported,
    /// The heap could not serve a symbol or a code object.
    OutOfMemory,
}

/// The most entries of a code object's constant pool, and the most bytes of
/// its instructions.
pub const CODE_LIMIT: usize = 256;

/// The largest value that an immediate byte holds.
pub const MAX_OPERAND: usize = 255;

/// The bindings in scope, innermost last: identifiers in one vector of the
/// `allocator_api2` crate, their slots in another.
pub struct Scope {
    idents: WordVec,
    slots: WordVec,
}

/// The bindings as pairs of identifier and slot.
pub open spec fn scope_pairs(idents: Seq<u64>, slots: Seq<u64>) -> Seq<(u64, u64)> {
    Seq::new(idents.len(), |i: int| (idents[i], slots[i]))
}

/// The slot of the innermost binding of `sym`.
pub open spec fn lookup(scope: Seq<(u64, u64)>, sym: u64) -> Option<u64>
    decreases scope.len(),
{
    if scope.len() == 0 {
        None
    } else if scope.last().0 == sym {
        Some(scope.last().1)
    } else {
        lookup(scope.drop_last(), sym)
    }
}

impl View for Scope {
    type V = Seq<(u64, u64)>;

    closed spec fn view(&self) -> Seq<(u64, u64)> {
        scope_pairs(word_vec_items(self.idents), word_vec_items(self.slots))
    }
}

impl Scope {
    /// The invariant of a scope.
    pub closed spec fn wf(&self) -> bool {
        &&& word_vec_items(self.idents).len() == word_vec_items(self.slots).len()
        &&& word_vec_items(self.idents).len() <= spec_vector_limit()
        &&& forall|i: int|
            0 <= i < word_vec_items(self.slots).len() ==> word_vec_items(self.slots)[i]
                <= usize::MAX
    }

    /// The empty scope.
    pub fn new() -> (scope: Scope)
        ensures
            scope.wf(),
            scope@ == Seq::<(u64, u64)>::empty(),
    {
        let scope = Scope { idents: word_vec_new(), slots: word_vec_new() };
        assert(scope@ =~= Seq::<(u64, u64)>::empty());
        scope
    }

    /// The number of bindings.
    pub fn len(&self) -> (n: usize)
        requires
            self.wf(),
        ensures
            n == self@.len(),
            n <= spec_vector_limit(),
    {
        word_vec_len(&self.idents)
    }

    /// Binds `sym` to `slot`, hiding any binding of `sym` made before. The
    /// scope must hold fewer bindings than a vector can.
    pub fn push(&mut self, sym: &Ident, slot: usize)
        requires
            old(self).wf(),
            old(self)@.len() < spec_vector_limit(),
        ensures
            final(self).wf(),
            final(self)@ == old(self)@.push((sym.0 as u64, slot as u64)),
    {
        word_vec_push(&mut self.idents, sym.0 as u64);
        word_vec_push(&mut self.slots, slot as u64);
        assert(self@ =~= old(self)@.push((sym.0 as u64, slot as u64)));
    }

    /// Drops the innermost binding.
    pub fn pop(&mut self)
        requires
            old(self).wf(),
            old(self)@.len() > 0,
        ensures
            final(self).wf(),
            final(self)@ == old(self)@.drop_last(),
    {
        let _ = word_vec_pop(&mut self.idents);
        let _ = word_vec_pop(&mut self.slots);
        assert(self@ =~= old(self)@.drop_last());
    }

    /// The slot of the innermost binding of `symbol`.
    pub fn lookup(&self, symbol: &Ident) -> (r: Option<u64>)
        requires
            self.wf(),
        ensures
            r == lookup(self@, symbol.0 as u64),
            r matches Some(slot) ==> slot <= usize::MAX,
    {
        let idents = word_vec_as_slice(&self.idents);
        let slots = word_vec_as_slice(&self.slots);
        let mut i: usize = idents.len();
        assert(self@.take(i as int) =~= self@);
        while i > 0
            invariant
                i <= idents.len(),
                self.wf(),
                idents@ == word_vec_items(self.idents),
                slots@ == word_vec_items(self.slots),
                idents@.len() == slots@.len(),
                lookup(self@, symbol.0 as u64) == lookup(self@.take(i as int), symbol.0 as u64),
            decreases i,
        {
            i -= 1;
            assert(self@.take(i + 1).drop_last() =~= self@.take(i as int));
            if idents[i] == symbol.0 as u64 {
                return Some(slots[i]);
            }
        }
        None
    }
}

/// A code object under construction, as plain data.
pub ghost struct EmitterView {
    pub is_fn: bool,
    pub arity: nat,
    pub consts: Seq<Val>,
    pub code: Seq<u8>,
    pub sp: nat,
    pub scope: Seq<(u64, u64)>,
    pub code_objs: Seq<Val>,
}

/// What the emitter reads but does not change.
pub ghost struct EmitEnv {
    pub names: Seq<Seq<char>>,
    pub prims: Primitives,
    pub numbers: Seq<Option<u64>>,
}

/// The emitter together with the global context it interns into.
pub ghost struct EmitState {
    pub em: EmitterView,
    pub global: GlobalView,
}

pub type Emitted = Result<EmitState, EmitError>;

/// The state with one more byte of code.
pub open spec fn push_code(st: EmitState, byte: u8) -> Emitted {
    if st.em.code.len() >= CODE_LIMIT {
        Err(EmitError::TooManyInstructions)
    } else {
        Ok(EmitState { em: EmitterView { code: st.em.code.push(byte), ..st.em }, ..st })
    }
}

/// The state with one more constant.
pub open spec fn push_const(st: EmitState, v: Val) -> Emitted {
    if st.em.consts.len() >= CODE_LIMIT {
        Err(EmitError::TooManyConstants)
    } else {
        Ok(EmitState { em: EmitterView { consts: st.em.consts.push(v), ..st.em }, ..st })
    }
}

pub open spec fn then_code(r: Emitted, byte: u8) -> Emitted {
    match r {
        Err(e) => Err(e),
        Ok(st) => push_code(st, byte),
    }
}

pub open spec fn then_op(r: Emitted, op: OpCode) -> Emitted {
    then_code(r, op.spec_code())
}

/// One more byte of code that holds the number `n`, which must fit.
pub open spec fn then_operand(r: Emitted, n: int) -> Emitted {
    match r {
        Err(e) => Err(e),
        Ok(st) => if n > MAX_OPERAND {
            Err(EmitError::SlotTooLarge(n as usize))
        } else {
            push_code(st, n as u8)
        },
    }
}

/// The model of the stack grows or shrinks by `delta`.
pub open spec fn then_sp(r: Emitted, delta: int) -> Emitted {
    match r {
        Err(e) => Err(e),
        Ok(st) => Ok(EmitState { em: EmitterView { sp: (st.em.sp + delta) as nat, ..st.em }, ..st }),
    }
}

/// `Const i` for a new constant `v`.
pub open spec fn then_const(r: Emitted, v: Val) -> Emitted {
    match r {
        Err(e) => Err(e),
        Ok(st) => if st.em.consts.len() >= CODE_LIMIT {
            Err(EmitError::TooManyConstants)
        } else {
            match then_code(push_code(st, OpCode::Const.spec_code()), st.em.consts.len() as u8) {
                Err(e) => Err(e),
                Ok(st2) => push_const(st2, v),
            }
        },
    }
}

/// `Const i` for the symbol called by the name of `id`, interned now.
pub open spec fn then_symbol(r: Emitted, id: Ident, env: EmitEnv) -> Emitted {
    match r {
        Err(e) => Err(e),
        Ok(st) => if id.0 >= env.names.len() {
            Err(EmitError::UnknownIdent(id))
        } else {
            let (global, sym) = st.global.intern(env.names[id.0 as int]);
            match sym {
                None => Err(EmitError::OutOfMemory),
                Some(s) => then_const(Ok(EmitState { em: st.em, global }), Val(s.0)),
            }
        },
    }
}

/// The byte at `index` overwritten.
pub open spec fn then_write(r: Emitted, index: int, byte: u8) -> Emitted {
    match r {
        Err(e) => Err(e),
        Ok(st) => Ok(
            EmitState { em: EmitterView { code: st.em.code.update(index, byte), ..st.em }, ..st },
        ),
    }
}

/// The scope with the bindings of a `let`, whose values lie in the slots
/// from `base` on.
pub open spec fn with_bindings(
    scope: Seq<(u64, u64)>,
    bindings: Seq<(Ident, ExprView)>,
    base: nat,
    n: int,
) -> Seq<(u64, u64)>
    decreases n,
{
    if n <= 0 {
        scope
    } else {
        with_bindings(scope, bindings, base, n - 1).push(
            (bindings[n - 1].0.0 as u64, (base + n - 1) as u64),
        )
    }
}

/// The scope of a function body: its parameters in the slots from 0 on.
pub open spec fn param_scope(params: Seq<Ident>, n: int) -> Seq<(u64, u64)>
    decreases n,
{
    if n <= 0 {
        Seq::empty()
    } else {
        param_scope(params, n - 1).push((params[n - 1].0 as u64, (n - 1) as u64))
    }
}

/// The emitter of a function body with `params`.
pub open spec fn child_emitter(params: Seq<Ident>) -> EmitterView {
    EmitterView {
        is_fn: true,
        arity: params.len(),
        consts: Seq::empty(),
        code: Seq::empty(),
        sp: params.len(),
        scope: param_scope(params, params.len() as int),
        code_objs: Seq::empty(),
    }
}

/// The emitter of a top-level expression.
pub open spec fn top_emitter() -> EmitterView {
    EmitterView {
        is_fn: false,
        arity: 0,
        consts: Seq::empty(),
        code: Seq::empty(),
        sp: 0,
        scope: Seq::empty(),
        code_objs: Seq::empty(),
    }
}

/// The code object is put on the heap and added to the list of those made.
pub open spec fn then_finish(r: Emitted) -> Emitted {
    let r1 = match r {
        Err(e) => Err(e),
        Ok(st) => if st.em.is_fn {
            Ok(st)
        } else {
            then_op(Ok(st), OpCode::Halt)
        },
    };
    match r1 {
        Err(e) => Err(e),
        Ok(st) => {
            let (global, obj) = st.global.new_object(
                ObjectView::Code { consts: st.em.consts, code: st.em.code },
                CODE_BYTES as int,
                Tag::Object,
            );
            match obj {
                None => Err(EmitError::OutOfMemory),
                Some(v) => Ok(
                    EmitState {
                        em: EmitterView { code_objs: st.em.code_objs.push(v), ..st.em },
                        global,
                    },
                ),
            }
        },
    }
}

/// The items of a vector literal: each is pushed onto the vector in `slot`.
pub open spec fn emit_vec_items(
    items: Seq<ExprView>,
    n: int,
    slot: int,
    st: EmitState,
    env: EmitEnv,
) -> Emitted
    decreases items, 2int, n,
{
    if n <= 0 || n > items.len() {
        Ok(st)
    } else {
        let r = emit_vec_items(items, n - 1, slot, st, env);
        then_sp(
            then_op(
                (match then_sp(then_operand(then_op(r, OpCode::Dup), slot), 1) { Err(err) => Err(err), Ok(s) => emit_spec(items[n - 1], s, env) }),
                OpCode::VecPush,
            ),
            -1,
        )
    }
}

/// The entries of a map literal: each is set in the map in `slot`.
pub open spec fn emit_map_items(
    items: Seq<(ExprView, ExprView)>,
    n: int,
    slot: int,
    st: EmitState,
    env: EmitEnv,
) -> Emitted
    decreases items, 2int, n,
{
    if n <= 0 || n > items.len() {
        Ok(st)
    } else {
        let r = emit_map_items(items, n - 1, slot, st, env);
        then_sp(
            then_op(
                (match then_sp(
                        (match then_sp(then_operand(then_op(r, OpCode::Dup), slot), 1) { Err(err) => Err(err), Ok(s) => emit_spec(items[n - 1].0, s, env) }),
                        1,
                    ) { Err(err) => Err(err), Ok(s) => emit_spec(items[n - 1].1, s, env) }),
                OpCode::MapSet,
            ),
            -2,
        )
    }
}

/// The arguments of a call, left to right.
pub open spec fn emit_args(args: Seq<ExprView>, n: int, st: EmitState, env: EmitEnv) -> Emitted
    decreases args, 2int, n,
{
    if n <= 0 || n > args.len() {
        Ok(st)
    } else {
        then_sp((match emit_args(args, n - 1, st, env) { Err(err) => Err(err), Ok(s) => emit_spec(args[n - 1], s, env) }), 1)
    }
}

/// The initialisers of a `let`, left to right.
pub open spec fn emit_inits(
    bindings: Seq<(Ident, ExprView)>,
    n: int,
    st: EmitState,
    env: EmitEnv,
) -> Emitted
    decreases bindings, 2int, n,
{
    if n <= 0 || n > bindings.len() {
        Ok(st)
    } else {
        then_sp((match emit_inits(bindings, n - 1, st, env) { Err(err) => Err(err), Ok(s) => emit_spec(bindings[n - 1].1, s, env) }), 1)
    }
}

/// The expressions of a `do` up to the `n`th: between two of them, the
/// value of the first is dropped.
pub open spec fn emit_do(exprs: Seq<ExprView>, n: int, st: EmitState, env: EmitEnv) -> Emitted
    decreases exprs, 2int, n,
{
    if n <= 0 || n > exprs.len() {
        Ok(st)
    } else if n == 1 {
        emit_spec(exprs[0], st, env)
    } else {
        (match then_code(then_op(emit_do(exprs, n - 1, st, env), OpCode::Pop), 1) { Err(err) => Err(err), Ok(s) => emit_spec(exprs[n - 1], s, env) })
    }
}

/// The state after the code for `e` was emitted, or the first error met.
pub open spec fn emit_spec(e: ExprView, st: EmitState, env: EmitEnv) -> Emitted
    decreases e, 0int, 0int,
{
    match e {
        ExprView::NumLiteral(id) => match number_bits(env.numbers, id) {
            None => Err(EmitError::UnresolvedNumber(id)),
            Some(bits) => then_const(Ok(st), Val(num_word(bits))),
        },
        ExprView::VectorLiteral(items) => {
            let slot = st.em.sp as int;
            match then_sp(then_op(Ok(st), OpCode::VecNew), 1) {
                Err(err) => Err(err),
                Ok(st1) => then_sp(emit_vec_items(items, items.len() as int, slot, st1, env), -1),
            }
        },
        ExprView::MapLiteral(items) => {
            let slot = st.em.sp as int;
            match then_sp(then_op(Ok(st), OpCode::MapNew), 1) {
                Err(err) => Err(err),
                Ok(st1) => then_sp(emit_map_items(items, items.len() as int, slot, st1, env), -1),
            }
        },
        ExprView::Ident(id) => match lookup(st.em.scope, id.0 as u64) {
            Some(slot) => then_operand(then_op(Ok(st), OpCode::Dup), slot as int),
            None => then_op(then_symbol(Ok(st), id, env), OpCode::SymGet),
        },
        ExprView::Keyword(id) => then_symbol(Ok(st), id, env),
        ExprView::PrimOp { op, left, right } => match env.prims.lookup(op) {
            None => Err(EmitError::UnknownPrimitive(op)),
            Some(opcode) => then_sp(
                then_op(
                    (match then_sp(emit_spec(*left, st, env), 1) { Err(err) => Err(err), Ok(s) => emit_spec(*right, s, env) }),
                    opcode,
                ),
                -1,
            ),
        },
        ExprView::Apply { _fn, args } => then_sp(
            then_operand(
                then_op(
                    (match emit_args(args, args.len() as int, st, env) { Err(err) => Err(err), Ok(s) => emit_spec(*_fn, s, env) }),
                    OpCode::Call,
                ),
                args.len() as int,
            ),
            -(args.len() as int),
        ),
        ExprView::Let { bindings, body } => {
            let k = bindings.len() as int;
            match emit_inits(bindings, k, st, env) {
                Err(err) => Err(err),
                Ok(st1) => {
                    let scoped = EmitState {
                        em: EmitterView {
                            scope: with_bindings(st.em.scope, bindings, st.em.sp, k),
                            ..st1.em
                        },
                        ..st1
                    };
                    match emit_spec(*body, scoped, env) {
                        Err(err) => Err(err),
                        Ok(st2) => then_operand(
                            then_op(
                                Ok(
                                    EmitState {
                                        em: EmitterView {
                                            scope: st.em.scope,
                                            sp: (st2.em.sp - k) as nat,
                                            ..st2.em
                                        },
                                        ..st2
                                    },
                                ),
                                OpCode::PopSave,
                            ),
                            k,
                        ),
                    }
                },
            }
        },
        ExprView::Fn { bindings, body } => {
            if bindings.len() > MAX_OPERAND {
                Err(EmitError::SlotTooLarge(bindings.len() as usize))
            } else {
                let child = EmitState { em: child_emitter(bindings), global: st.global };
                match then_finish(
                    then_operand(
                        then_op(emit_spec(*body, child, env), OpCode::Ret),
                        bindings.len() as int,
                    ),
                ) {
                    Err(err) => Err(err),
                    Ok(done) => {
                        let parent = EmitState { em: st.em, global: done.global };
                        if parent.em.consts.len() >= CODE_LIMIT {
                            Err(EmitError::TooManyConstants)
                        } else {
                            match then_code(
                                then_op(Ok(parent), OpCode::Closure),
                                parent.em.consts.len() as u8,
                            ) {
                                Err(err) => Err(err),
                                Ok(st1) => match push_const(st1, done.em.code_objs.last()) {
                                    Err(err) => Err(err),
                                    Ok(st2) => Ok(
                                        EmitState {
                                            em: EmitterView {
                                                code_objs: st2.em.code_objs + done.em.code_objs,
                                                ..st2.em
                                            },
                                            ..st2
                                        },
                                    ),
                                },
                            }
                        }
                    },
                }
            }
        },
        ExprView::Do(exprs) => {
            if exprs.len() == 0 {
                then_const(Ok(st), Val(0))
            } else {
                emit_do(exprs, exprs.len() as int, st, env)
            }
        },
        ExprView::If { condition, resultant, else_branch } => {
            match then_op(emit_spec(*condition, st, env), OpCode::BrNil) {
                Err(err) => Err(err),
                Ok(st1) => {
                    let br = st1.em.code.len() as int;
                    match then_op(
                        (match then_code(Ok(st1), 0) { Err(err) => Err(err), Ok(s) => emit_spec(*resultant, s, env) }),
                        OpCode::Jmp,
                    ) {
                        Err(err) => Err(err),
                        Ok(st2) => {
                            let jmp = st2.em.code.len() as int;
                            match (match then_code(Ok(st2), 0) { Err(err) => Err(err), Ok(s) => emit_spec(*else_branch, s, env) }) {
                                Err(err) => Err(err),
                                Ok(st3) => {
                                    let end = st3.em.code.len() as int;
                                    then_write(
                                        then_write(Ok(st3), br, (jmp - br) as u8),
                                        jmp,
                                        (end - jmp) as u8,
                                    )
                                },
                            }
                        },
                    }
                },
            }
        },
        ExprView::Assign(id, value) => match lookup(st.em.scope, id.0 as u64) {
            Some(slot) => Err(EmitError::CannotSetLocal(id)),
            None => then_sp(
                then_op(
                    (match then_sp(then_symbol(Ok(st), id, env), 1) { Err(err) => Err(err), Ok(s) => emit_spec(*value, s, env) }),
                    OpCode::SymSet,
                ),
                -1,
            ),
        },
        ExprView::Ret(value) => match emit_spec(*value, st, env) {
            Err(err) => Err(err),
            Ok(st1) => then_operand(then_op(Ok(st1), OpCode::Ret), st1.em.sp as int),
        },
        ExprView::Cond(cases) => Err(EmitError::CondNotSupported),
    }
}

/// An error among the first items is the error of all of them.
pub proof fn lemma_vec_items_err(
    items: Seq<ExprView>,
    k: int,
    n: int,
    slot: int,
    st: EmitState,
    env: EmitEnv,
)
    requires
        0 <= k <= n <= items.len(),
        emit_vec_items(items, k, slot, st, env) is Err,
    ensures
        emit_vec_items(items, n, slot, st, env) == emit_vec_items(items, k, slot, st, env),
    decreases n - k,
{
    if k < n {
        lemma_vec_items_err(items, k, n - 1, slot, st, env);
    }
}

pub proof fn lemma_map_items_err(
    items: Seq<(ExprView, ExprView)>,
    k: int,
    n: int,
    slot: int,
    st: EmitState,
    env: EmitEnv,
)
    requires
        0 <= k <= n <= items.len(),
        emit_map_items(items, k, slot, st, env) is Err,
    ensures
        emit_map_items(items, n, slot, st, env) == emit_map_items(items, k, slot, st, env),
    decreases n - k,
{
    if k < n {
        lemma_map_items_err(items, k, n - 1, slot, st, env);
    }
}

pub proof fn lemma_args_err(args: Seq<ExprView>, k: int, n: int, st: EmitState, env: EmitEnv)
    requires
        0 <= k <= n <= args.len(),
        emit_args(args, k, st, env) is Err,
    ensures
        emit_args(args, n, st, env) == emit_args(args, k, st, env),
    decreases n - k,
{
    if k < n {
        lemma_args_err(args, k, n - 1, st, env);
    }
}

pub proof fn lemma_inits_err(
    bindings: Seq<(Ident, ExprView)>,
    k: int,
    n: int,
    st: EmitState,
    env: EmitEnv,
)
    requires
        0 <= k <= n <= bindings.len(),
        emit_inits(bindings, k, st, env) is Err,
    ensures
        emit_inits(bindings, n, st, env) == emit_inits(bindings, k, st, env),
    decreases n - k,
{
    if k < n {
        lemma_inits_err(bindings, k, n - 1, st, env);
    }
}

pub proof fn lemma_do_err(exprs: Seq<ExprView>, k: int, n: int, st: EmitState, env: EmitEnv)
    requires
        1 <= k <= n <= exprs.len(),
        emit_do(exprs, k, st, env) is Err,
    ensures
        emit_do(exprs, n, st, env) == emit_do(exprs, k, st, env),
    decreases n - k,
{
    if k < n {
        lemma_do_err(exprs, k, n - 1, st, env);
    }
}

impl EmitterView {
    /// The bounds that the emitter keeps: code and constants within their
    /// limits, and a stack model that the code so far can have built.
    pub open spec fn wf(self) -> bool {
        &&& self.code.len() <= CODE_LIMIT
        &&& self.consts.len() <= CODE_LIMIT
        &&& self.arity <= MAX_OPERAND
        &&& self.sp <= self.arity + self.code.len()
        &&& self.scope.len() <= self.sp
    }
}

/// The state in which the then-branch of an `if` is emitted: the condition,
/// `BrNil` and its offset byte are in place.
pub open spec fn if_branch_state(e: ExprView, st: EmitState, env: EmitEnv) -> Emitted {
    match e {
        ExprView::If { condition, resultant, else_branch } => then_code(
            then_op(emit_spec(*condition, st, env), OpCode::BrNil),
            0,
        ),
        _ => Ok(st),
    }
}

/// The state in which the else-branch of an `if` is emitted: the then-branch,
/// `Jmp` and its offset byte are in place.
pub open spec fn if_jump_state(e: ExprView, st: EmitState, env: EmitEnv) -> Emitted {
    match e {
        ExprView::If { condition, resultant, else_branch } => match if_branch_state(e, st, env) {
            Err(err) => Err(err),
            Ok(s) => then_code(then_op(emit_spec(*resultant, s, env), OpCode::Jmp), 0),
        },
        _ => Ok(st),
    }
}

/// Where the jumps of an emitted `if` land. The offset byte of `BrNil` is
/// the last byte emitted before the then-branch, that of `Jmp` the last
/// before the else-branch, and in the finished code each still follows its
/// opcode. The offset of `BrNil` is the distance from its
/// offset byte to that of `Jmp`: counted from the byte after the offset
/// byte, it leads to the first byte of the else-branch. The offset of `Jmp`
/// is the distance from its offset byte to the end of the else-branch:
/// counted from the offset byte, it leads to the first byte after the
/// else-branch.
pub open spec fn branches_land(e: ExprView, st: EmitState, env: EmitEnv) -> bool {
    let s1 = if_branch_state(e, st, env);
    let s2 = if_jump_state(e, st, env);
    let s3 = emit_spec(e, st, env);
    &&& s1 is Ok
    &&& s2 is Ok
    &&& s3 is Ok
    &&& {
        let br = s1->Ok_0.em.code.len() - 1;
        let jmp = s2->Ok_0.em.code.len() - 1;
        let code = s3->Ok_0.em.code;
        &&& st.em.code.len() < br < jmp < code.len()
        &&& code[br - 1] == OpCode::BrNil.spec_code()
        &&& code[jmp - 1] == OpCode::Jmp.spec_code()
        &&& br + 1 + code[br] == s2->Ok_0.em.code.len()
        &&& jmp + code[jmp] == code.len()
    }
}

/// The code of an emitted `let` of `k` names ends in `PopSave k`.
pub open spec fn ends_in_pop_save(code: Seq<u8>, k: int) -> bool {
    &&& code.len() >= 2
    &&& code[code.len() - 2] == OpCode::PopSave.spec_code()
    &&& code[code.len() - 1] == k
}

/// A code object under construction.
pub struct Emitter {
    is_fn: bool,
    arity: usize,
    consts: Vec<Val>,
    code: Vec<u8>,
    sp: usize,
    scope: Scope,
    code_objs: Vec<Val>,
}

impl View for Emitter {
    type V = EmitterView;

    closed spec fn view(&self) -> EmitterView {
        EmitterView {
            is_fn: self.is_fn,
            arity: self.arity as nat,
            consts: self.consts@,
            code: self.code@,
            sp: self.sp as nat,
            scope: self.scope@,
            code_objs: self.code_objs@,
        }
    }
}

/// What a step of the emitter returns, as an outcome of its model.
pub open spec fn outcome(r: Result<(), EmitError>, em: EmitterView, global: GlobalView) -> Emitted {
    match r {
        Ok(_) => Ok(EmitState { em, global }),
        Err(e) => Err(e),
    }
}

/// What the emitter reads, as plain data.
pub open spec fn env_of(idents: &IdentTable, primitives: &Primitives, numbers: &Numbers) -> EmitEnv {
    EmitEnv { names: idents@, prims: *primitives, numbers: numbers@ }
}

/// The code `after` begins with the code `before`.
pub open spec fn appended(before: Seq<u8>, after: Seq<u8>) -> bool {
    &&& before.len() <= after.len()
    &&& forall|i: int| 0 <= i < before.len() ==> #[trigger] after[i] == before[i]
}

/// What a step that succeeds leaves alone: the frame, and the code that
/// was there, after which it has written its own.
pub open spec fn same_frame(before: EmitterView, after: EmitterView) -> bool {
    &&& after.sp == before.sp
    &&& after.scope == before.scope
    &&& after.arity == before.arity
    &&& after.is_fn == before.is_fn
    &&& after.code.len() > before.code.len()
    &&& appended(before.code, after.code)
}

impl Emitter {
    /// The invariant of the emitter.
    pub closed spec fn wf(&self) -> bool {
        self.scope.wf() && self@.wf()
    }

    /// The emitter of a top-level expression.
    pub fn new() -> (em: Emitter)
        ensures
            em.wf(),
            em@ == top_emitter(),
    {
        Emitter {
            is_fn: false,
            consts: Vec::new(),
            code: Vec::new(),
            sp: 0,
            arity: 0,
            scope: Scope::new(),
            code_objs: Vec::new(),
        }
    }

    /// The emitter of the body of a function with `params`.
    pub fn new_fn(params: &Vec<Ident>) -> (em: Emitter)
        requires
            params.len() <= MAX_OPERAND,
        ensures
            em.wf(),
            em@ == child_emitter(params@),
    {
        let mut scope = Scope::new();
        let mut i: usize = 0;
        while i < params.len()
            invariant
                i <= params.len() <= MAX_OPERAND,
                scope.wf(),
                scope@ == param_scope(params@, i as int),
                scope@.len() == i,
            decreases params.len() - i,
        {
            scope.push(&params[i], i);
            i += 1;
        }
        Emitter {
            is_fn: true,
            consts: Vec::new(),
            code: Vec::new(),
            sp: params.len(),
            arity: params.len(),
            scope,
            code_objs: Vec::new(),
        }
    }

    /// Adds a byte of code.
    fn push_code(&mut self, byte: u8, Ghost(g): Ghost<GlobalView>) -> (r: Result<(), EmitError>)
        requires
            old(self).wf(),
        ensures
            outcome(r, final(self)@, g) == push_code(EmitState { em: old(self)@, global: g }, byte),
            r is Ok ==> final(self).wf(),
    {
        if self.code.len() >= CODE_LIMIT {
            return Err(EmitError::TooManyInstructions);
        }
        self.code.push(byte);
        Ok(())
    }

    /// Adds a constant.
    fn push_const(&mut self, v: Val, Ghost(g): Ghost<GlobalView>) -> (r: Result<(), EmitError>)
        requires
            old(self).wf(),
        ensures
            outcome(r, final(self)@, g) == push_const(EmitState { em: old(self)@, global: g }, v),
            r is Ok ==> final(self).wf(),
    {
        if self.consts.len() >= CODE_LIMIT {
            return Err(EmitError::TooManyConstants);
        }
        self.consts.push(v);
        Ok(())
    }

    /// Adds an opcode.
    fn push_op(&mut self, op: OpCode, Ghost(g): Ghost<GlobalView>) -> (r: Result<(), EmitError>)
        requires
            old(self).wf(),
        ensures
            outcome(r, final(self)@, g) == then_op(
                Ok(EmitState { em: old(self)@, global: g }),
                op,
            ),
            r is Ok ==> final(self).wf(),
    {
        self.push_code(op.code(), Ghost(g))
    }

    /// Adds an immediate byte that holds `n`.
    fn push_operand(&mut self, n: usize, Ghost(g): Ghost<GlobalView>) -> (r: Result<(), EmitError>)
        requires
            old(self).wf(),
        ensures
            outcome(r, final(self)@, g) == then_operand(
                Ok(EmitState { em: old(self)@, global: g }),
                n as int,
            ),
            r is Ok ==> final(self).wf(),
    {
        if n > MAX_OPERAND {
            return Err(EmitError::SlotTooLarge(n));
        }
        self.push_code(n as u8, Ghost(g))
    }

    /// Adds `v` to the constants and emits the `Const` that loads it.
    fn emit_const(&mut self, v: Val, Ghost(g): Ghost<GlobalView>) -> (r: Result<(), EmitError>)
        requires
            old(self).wf(),
        ensures
            outcome(r, final(self)@, g) == then_const(
                Ok(EmitState { em: old(self)@, global: g }),
                v,
            ),
            r is Ok ==> final(self).wf() && same_frame(old(self)@, final(self)@),
    {
        if self.consts.len() >= CODE_LIMIT {
            return Err(EmitError::TooManyConstants);
        }
        let index = self.consts.len() as u8;
        self.push_code(OpCode::Const.code(), Ghost(g))?;
        self.push_code(index, Ghost(g))?;
        self.push_const(v, Ghost(g))
    }

    /// Interns the name of `id` and emits the `Const` that loads the symbol.
    fn emit_symbol(&mut self, id: Ident, idents: &IdentTable, global: &mut Global, Ghost(env): Ghost<EmitEnv>) -> (r:
        Result<(), EmitError>)
        requires
            old(self).wf(),
            old(global).wf(),
            env.names == idents@,
        ensures
            final(global).wf(),
            kept(old(global)@, final(global)@),
            outcome(r, final(self)@, final(global)@) == then_symbol(
                Ok(EmitState { em: old(self)@, global: old(global)@ }),
                id,
                env,
            ),
            r is Ok ==> final(self).wf() && same_frame(old(self)@, final(self)@),
    {
        if id.0 >= idents.len() {
            return Err(EmitError::UnknownIdent(id));
        }
        let name = idents.get_name(id);
        match global.intern(name) {
            None => Err(EmitError::OutOfMemory),
            Some(sym) => self.emit_const(sym.as_val(), Ghost(global@)),
        }
    }

    /// Puts the code object on the heap and returns the code objects made,
    /// this one last. A top-level code object ends in `Halt`.
    fn finish(self, global: &mut Global) -> (r: Result<Vec<Val>, EmitError>)
        requires
            self.wf(),
            old(global).wf(),
        ensures
            final(global).wf(),
            kept(old(global)@, final(global)@),
            match r {
                Ok(objs) => {
                    let done = then_finish(Ok((EmitState { em: self@, global: old(global)@ })));
                    &&& done is Ok
                    &&& done->Ok_0.global == final(global)@
                    &&& done->Ok_0.em.code_objs == objs@
                    &&& objs@.len() > 0
                },
                Err(e) => then_finish(Ok((EmitState { em: self@, global: old(global)@ }))) == Err::<
                    EmitState,
                    EmitError,
                >(e),
            },
    {
        let ghost before = self@;
        let mut em = self;
        if !em.is_fn {
            em.push_op(OpCode::Halt, Ghost(global@))?;
        }
        let mut objs = em.code_objs;
        let code_obj = ByteCode { consts: em.consts, code: em.code };
        match global.new_object(HeapObject::Code(code_obj)) {
            None => Err(EmitError::OutOfMemory),
            Some(v) => {
                objs.push(v);
                Ok(objs)
            },
        }
    }
}

impl Emitter {
    /// Emits the code for `expr`. The code leaves one value on the stack;
    /// the model of the stack and the scope are afterwards what they were
    /// before, so that whoever asked for the expression counts its value.
    pub fn emit(
        &mut self,
        expr: &Expr,
        idents: &IdentTable,
        primitives: &Primitives,
        numbers: &Numbers,
        global: &mut Global,
    ) -> (r: Result<(), EmitError>)
        requires
            old(self).wf(),
            old(global).wf(),
        ensures
            final(global).wf(),
            kept(old(global)@, final(global)@),
            outcome(r, final(self)@, final(global)@) == emit_spec(
                expr@,
                EmitState { em: old(self)@, global: old(global)@ },
                env_of(idents, primitives, numbers),
            ),
            r is Ok ==> final(self).wf() && same_frame(old(self)@, final(self)@),
            r is Ok && expr is If ==> branches_land(
                expr@,
                EmitState { em: old(self)@, global: old(global)@ },
                env_of(idents, primitives, numbers),
            ),
            r is Ok && expr is Let ==> ends_in_pop_save(
                final(self)@.code,
                expr->Let_bindings.len() as int,
            ),
        decreases expr, 1int,
    {
        let ghost env = env_of(idents, primitives, numbers);
        match expr {
            Expr::NumLiteral(id) => {
                match numbers.get(*id) {
                    None => Err(EmitError::UnresolvedNumber(*id)),
                    Some(bits) => self.emit_const(Val::from_num(bits), Ghost(global@)),
                }
            },
            Expr::Ident(symbol) => {
                match self.scope.lookup(symbol) {
                    Some(slot) => {
                        self.push_op(OpCode::Dup, Ghost(global@))?;
                        self.push_operand(slot as usize, Ghost(global@))
                    },
                    None => {
                        self.emit_symbol(*symbol, idents, global, Ghost(env))?;
                        self.push_op(OpCode::SymGet, Ghost(global@))
                    },
                }
            },
            Expr::Keyword(ident) => self.emit_symbol(*ident, idents, global, Ghost(env)),
            Expr::VectorLiteral(_) => self.emit_vector(expr, idents, primitives, numbers, global),
            Expr::MapLiteral(_) => self.emit_map(expr, idents, primitives, numbers, global),
            Expr::PrimOp { .. } => self.emit_prim_op(expr, idents, primitives, numbers, global),
            Expr::Apply { .. } => self.emit_apply(expr, idents, primitives, numbers, global),
            Expr::Let { .. } => self.emit_let(expr, idents, primitives, numbers, global),
            Expr::Fn { .. } => self.emit_fn(expr, idents, primitives, numbers, global),
            Expr::Do(_) => self.emit_do(expr, idents, primitives, numbers, global),
            Expr::If { .. } => self.emit_if(expr, idents, primitives, numbers, global),
            Expr::Assign(..) => self.emit_assign(expr, idents, primitives, numbers, global),
            Expr::Ret(_) => self.emit_ret(expr, idents, primitives, numbers, global),
            Expr::Cond(_) => Err(EmitError::CondNotSupported),
        }
    }

    /// A vector literal: a new vector, and each item pushed onto it.
    fn emit_vector(
        &mut self,
        expr: &Expr,
        idents: &IdentTable,
        primitives: &Primitives,
        numbers: &Numbers,
        global: &mut Global,
    ) -> (r: Result<(), EmitError>)
        requires
            old(self).wf(),
            old(global).wf(),
            expr is VectorLiteral,
        ensures
            final(global).wf(),
            kept(old(global)@, final(global)@),
            outcome(r, final(self)@, final(global)@) == emit_spec(
                expr@,
                EmitState { em: old(self)@, global: old(global)@ },
                env_of(idents, primitives, numbers),
            ),
            r is Ok ==> final(self).wf() && same_frame(old(self)@, final(self)@),
        decreases expr, 0int,
    {
        proof {
            lemma_expr_view(expr);
        }
        match expr {
            Expr::VectorLiteral(items) => {
                let vec_slot = self.sp;
                self.push_op(OpCode::VecNew, Ghost(global@))?;
                self.sp = self.sp + 1;
                self.emit_vec_items(items, vec_slot, idents, primitives, numbers, global)?;
                self.sp = self.sp - 1;
                Ok(())
            },
            _ => {
                Ok(())
            },
        }
    }

    /// A map literal: a new map, and each entry set in it.
    fn emit_map(
        &mut self,
        expr: &Expr,
        idents: &IdentTable,
        primitives: &Primitives,
        numbers: &Numbers,
        global: &mut Global,
    ) -> (r: Result<(), EmitError>)
        requires
            old(self).wf(),
            old(global).wf(),
            expr is MapLiteral,
        ensures
            final(global).wf(),
            kept(old(global)@, final(global)@),
            outcome(r, final(self)@, final(global)@) == emit_spec(
                expr@,
                EmitState { em: old(self)@, global: old(global)@ },
                env_of(idents, primitives, numbers),
            ),
            r is Ok ==> final(self).wf() && same_frame(old(self)@, final(self)@),
        decreases expr, 0int,
    {
        proof {
            lemma_expr_view(expr);
        }
        match expr {
            Expr::MapLiteral(items) => {
                let map_slot = self.sp;
                self.push_op(OpCode::MapNew, Ghost(global@))?;
                self.sp = self.sp + 1;
                self.emit_map_items(items, map_slot, idents, primitives, numbers, global)?;
                self.sp = self.sp - 1;
                Ok(())
            },
            _ => {
                Ok(())
            },
        }
    }

    /// A primitive operation: left, right, opcode.
    fn emit_prim_op(
        &mut self,
        expr: &Expr,
        idents: &IdentTable,
        primitives: &Primitives,
        numbers: &Numbers,
        global: &mut Global,
    ) -> (r: Result<(), EmitError>)
        requires
            old(self).wf(),
            old(global).wf(),
            expr is PrimOp,
        ensures
            final(global).wf(),
            kept(old(global)@, final(global)@),
            outcome(r, final(self)@, final(global)@) == emit_spec(
                expr@,
                EmitState { em: old(self)@, global: old(global)@ },
                env_of(idents, primitives, numbers),
            ),
            r is Ok ==> final(self).wf() && same_frame(old(self)@, final(self)@),
        decreases expr, 0int,
    {
        proof {
            lemma_expr_view(expr);
        }
        match expr {
            Expr::PrimOp { op, left, right } => {
                match primitives.get(*op) {
                    None => Err(EmitError::UnknownPrimitive(*op)),
                    Some(opcode) => {
                        self.emit(left, idents, primitives, numbers, global)?;
                        self.sp = self.sp + 1;
                        self.emit(right, idents, primitives, numbers, global)?;
                        self.push_op(opcode, Ghost(global@))?;
                        self.sp = self.sp - 1;
                        Ok(())
                    },
                }
            },
            _ => {
                Ok(())
            },
        }
    }

    /// A call: the arguments left to right, the callee, `Call n`.
    fn emit_apply(
        &mut self,
        expr: &Expr,
        idents: &IdentTable,
        primitives: &Primitives,
        numbers: &Numbers,
        global: &mut Global,
    ) -> (r: Result<(), EmitError>)
        requires
            old(self).wf(),
            old(global).wf(),
            expr is Apply,
        ensures
            final(global).wf(),
            kept(old(global)@, final(global)@),
            outcome(r, final(self)@, final(global)@) == emit_spec(
                expr@,
                EmitState { em: old(self)@, global: old(global)@ },
                env_of(idents, primitives, numbers),
            ),
            r is Ok ==> final(self).wf() && same_frame(old(self)@, final(self)@),
        decreases expr, 0int,
    {
        proof {
            lemma_expr_view(expr);
        }
        match expr {
            Expr::Apply { _fn, args } => {
                self.emit_args(args, idents, primitives, numbers, global)?;
                self.emit(_fn, idents, primitives, numbers, global)?;
                self.push_op(OpCode::Call, Ghost(global@))?;
                self.push_operand(args.len(), Ghost(global@))?;
                self.sp = self.sp - args.len();
                Ok(())
            },
            _ => {
                Ok(())
            },
        }
    }

    /// A `let`: the initialisers, the body with the names in scope, and `PopSave k` to drop the bound values below the result.
    fn emit_let(
        &mut self,
        expr: &Expr,
        idents: &IdentTable,
        primitives: &Primitives,
        numbers: &Numbers,
        global: &mut Global,
    ) -> (r: Result<(), EmitError>)
        requires
            old(self).wf(),
            old(global).wf(),
            expr is Let,
        ensures
            final(global).wf(),
            kept(old(global)@, final(global)@),
            outcome(r, final(self)@, final(global)@) == emit_spec(
                expr@,
                EmitState { em: old(self)@, global: old(global)@ },
                env_of(idents, primitives, numbers),
            ),
            r is Ok ==> final(self).wf() && same_frame(old(self)@, final(self)@),
            r is Ok ==> ends_in_pop_save(final(self)@.code, expr->Let_bindings.len() as int),
        decreases expr, 0int,
    {
        let ghost st0 = EmitState { em: self@, global: global@ };
        proof {
            lemma_expr_view(expr);
        }
        match expr {
            Expr::Let { bindings, body } => {
                let k = bindings.len();
                let sp0 = self.sp;
                self.emit_inits(bindings, idents, primitives, numbers, global)?;
                self.bind(bindings, sp0);
                self.emit(body, idents, primitives, numbers, global)?;
                self.unbind(bindings, Ghost(st0.em.scope), Ghost(st0.em.sp));
                self.sp = self.sp - k;
                self.push_op(OpCode::PopSave, Ghost(global@))?;
                self.push_operand(k, Ghost(global@))
            },
            _ => {
                Ok(())
            },
        }
    }

    /// A `fn`: the body goes into a code object of its own, which ends in `Ret arity`; here a `Closure` over it is emitted.
    fn emit_fn(
        &mut self,
        expr: &Expr,
        idents: &IdentTable,
        primitives: &Primitives,
        numbers: &Numbers,
        global: &mut Global,
    ) -> (r: Result<(), EmitError>)
        requires
            old(self).wf(),
            old(global).wf(),
            expr is Fn,
        ensures
            final(global).wf(),
            kept(old(global)@, final(global)@),
            outcome(r, final(self)@, final(global)@) == emit_spec(
                expr@,
                EmitState { em: old(self)@, global: old(global)@ },
                env_of(idents, primitives, numbers),
            ),
            r is Ok ==> final(self).wf() && same_frame(old(self)@, final(self)@),
        decreases expr, 0int,
    {
        proof {
            lemma_expr_view(expr);
        }
        match expr {
            Expr::Fn { bindings, body } => {
                let n = bindings.len();
                if n > MAX_OPERAND {
                    return Err(EmitError::SlotTooLarge(n));
                }
                let mut child = Emitter::new_fn(bindings);
                child.emit(body, idents, primitives, numbers, global)?;
                child.push_op(OpCode::Ret, Ghost(global@))?;
                child.push_operand(n, Ghost(global@))?;
                let mut objs = child.finish(global)?;
                if self.consts.len() >= CODE_LIMIT {
                    return Err(EmitError::TooManyConstants);
                }
                let index = self.consts.len() as u8;
                self.push_op(OpCode::Closure, Ghost(global@))?;
                self.push_code(index, Ghost(global@))?;
                let code_obj = objs[objs.len() - 1];
                self.push_const(code_obj, Ghost(global@))?;
                self.code_objs.append(&mut objs);
                Ok(())
            },
            _ => {
                Ok(())
            },
        }
    }

    /// A `do`: the expressions in turn, each value but the last dropped.
    fn emit_do(
        &mut self,
        expr: &Expr,
        idents: &IdentTable,
        primitives: &Primitives,
        numbers: &Numbers,
        global: &mut Global,
    ) -> (r: Result<(), EmitError>)
        requires
            old(self).wf(),
            old(global).wf(),
            expr is Do,
        ensures
            final(global).wf(),
            kept(old(global)@, final(global)@),
            outcome(r, final(self)@, final(global)@) == emit_spec(
                expr@,
                EmitState { em: old(self)@, global: old(global)@ },
                env_of(idents, primitives, numbers),
            ),
            r is Ok ==> final(self).wf() && same_frame(old(self)@, final(self)@),
        decreases expr, 0int,
    {
        proof {
            lemma_expr_view(expr);
        }
        match expr {
            Expr::Do(exprs) => {
                if exprs.len() == 0 {
                    return self.emit_const(Val::nil(), Ghost(global@));
                }
                self.emit_do_items(exprs, idents, primitives, numbers, global)
            },
            _ => {
                Ok(())
            },
        }
    }

    /// An `if`: the condition, `BrNil` to the else branch, the then branch,
    /// `Jmp` past the else branch, the else branch.
    #[verifier::rlimit(40)]
    fn emit_if(
        &mut self,
        expr: &Expr,
        idents: &IdentTable,
        primitives: &Primitives,
        numbers: &Numbers,
        global: &mut Global,
    ) -> (r: Result<(), EmitError>)
        requires
            old(self).wf(),
            old(global).wf(),
            expr is If,
        ensures
            final(global).wf(),
            kept(old(global)@, final(global)@),
            outcome(r, final(self)@, final(global)@) == emit_spec(
                expr@,
                EmitState { em: old(self)@, global: old(global)@ },
                env_of(idents, primitives, numbers),
            ),
            r is Ok ==> final(self).wf() && same_frame(old(self)@, final(self)@),
            r is Ok ==> branches_land(
                expr@,
                EmitState { em: old(self)@, global: old(global)@ },
                env_of(idents, primitives, numbers),
            ),
        decreases expr, 0int,
    {
        let ghost env = env_of(idents, primitives, numbers);
        let ghost st0 = EmitState { em: self@, global: global@ };
        proof {
            lemma_expr_view(expr);
        }
        match expr {
            Expr::If { condition, resultant, else_branch } => {
                self.emit(condition, idents, primitives, numbers, global)?;
                self.push_op(OpCode::BrNil, Ghost(global@))?;
                let br_on_false_param = self.code.len();
                self.push_code(0, Ghost(global@))?;
                let ghost s1 = EmitState { em: self@, global: global@ };
                assert(if_branch_state(expr@, st0, env) == Ok::<EmitState, EmitError>(s1));
                self.emit(resultant, idents, primitives, numbers, global)?;
                self.push_op(OpCode::Jmp, Ghost(global@))?;
                let jmp_exit_on_true_param = self.code.len();
                self.push_code(0, Ghost(global@))?;
                let ghost s2 = EmitState { em: self@, global: global@ };
                assert(if_jump_state(expr@, st0, env) == Ok::<EmitState, EmitError>(s2));
                self.emit(else_branch, idents, primitives, numbers, global)?;
                let ghost s3 = EmitState { em: self@, global: global@ };
                let end = self.code.len();
                let to_else = (jmp_exit_on_true_param - br_on_false_param) as u8;
                let to_end = (end - jmp_exit_on_true_param) as u8;
                self.code[br_on_false_param] = to_else;
                self.code[jmp_exit_on_true_param] = to_end;
                proof {
                    let done = EmitState { em: self@, global: global@ };
                    assert(done.em.code =~= s3.em.code.update(
                        br_on_false_param as int,
                        to_else,
                    ).update(jmp_exit_on_true_param as int, to_end));
                    assert(emit_spec(expr@, st0, env) == Ok::<EmitState, EmitError>(done));
                    assert(done.em.code[br_on_false_param as int] == to_else);
                    assert(done.em.code[jmp_exit_on_true_param as int] == to_end);
                }
                Ok(())
            },
            _ => {
                Ok(())
            },
        }
    }

    /// An assignment to a global name: the symbol, the value, `SymSet`.
    fn emit_assign(
        &mut self,
        expr: &Expr,
        idents: &IdentTable,
        primitives: &Primitives,
        numbers: &Numbers,
        global: &mut Global,
    ) -> (r: Result<(), EmitError>)
        requires
            old(self).wf(),
            old(global).wf(),
            expr is Assign,
        ensures
            final(global).wf(),
            kept(old(global)@, final(global)@),
            outcome(r, final(self)@, final(global)@) == emit_spec(
                expr@,
                EmitState { em: old(self)@, global: old(global)@ },
                env_of(idents, primitives, numbers),
            ),
            r is Ok ==> final(self).wf() && same_frame(old(self)@, final(self)@),
        decreases expr, 0int,
    {
        let ghost env = env_of(idents, primitives, numbers);
        proof {
            lemma_expr_view(expr);
        }
        match expr {
            Expr::Assign(symbol, value) => {
                match self.scope.lookup(symbol) {
                    Some(_) => Err(EmitError::CannotSetLocal(*symbol)),
                    None => {
                        self.emit_symbol(*symbol, idents, global, Ghost(env))?;
                        self.sp = self.sp + 1;
                        self.emit(value, idents, primitives, numbers, global)?;
                        self.push_op(OpCode::SymSet, Ghost(global@))?;
                        self.sp = self.sp - 1;
                        Ok(())
                    },
                }
            },
            _ => {
                Ok(())
            },
        }
    }

    /// A `return`: the value, and `Ret` with the slot it lies in.
    fn emit_ret(
        &mut self,
        expr: &Expr,
        idents: &IdentTable,
        primitives: &Primitives,
        numbers: &Numbers,
        global: &mut Global,
    ) -> (r: Result<(), EmitError>)
        requires
            old(self).wf(),
            old(global).wf(),
            expr is Ret,
        ensures
            final(global).wf(),
            kept(old(global)@, final(global)@),
            outcome(r, final(self)@, final(global)@) == emit_spec(
                expr@,
                EmitState { em: old(self)@, global: old(global)@ },
                env_of(idents, primitives, numbers),
            ),
            r is Ok ==> final(self).wf() && same_frame(old(self)@, final(self)@),
        decreases expr, 0int,
    {
        proof {
            lemma_expr_view(expr);
        }
        match expr {
            Expr::Ret(value) => {
                self.emit(value, idents, primitives, numbers, global)?;
                self.push_op(OpCode::Ret, Ghost(global@))?;
                self.push_operand(self.sp, Ghost(global@))
            },
            _ => {
                Ok(())
            },
        }
    }

    /// Emits the code that pushes each of `items` onto the vector in `slot`.
    fn emit_vec_items(
        &mut self,
        items: &Vec<Expr>,
        slot: usize,
        idents: &IdentTable,
        primitives: &Primitives,
        numbers: &Numbers,
        global: &mut Global,
    ) -> (r: Result<(), EmitError>)
        requires
            old(self).wf(),
            old(global).wf(),
        ensures
            final(global).wf(),
            kept(old(global)@, final(global)@),
            outcome(r, final(self)@, final(global)@) == emit_vec_items(
                expr_views(items@),
                items.len() as int,
                slot as int,
                EmitState { em: old(self)@, global: old(global)@ },
                env_of(idents, primitives, numbers),
            ),
            r is Ok ==> final(self).wf() && final(self)@.sp == old(self)@.sp && final(self)@.scope
                == old(self)@.scope && final(self)@.arity == old(self)@.arity && final(self)@.is_fn == old(self)@.is_fn && final(self)@.code.len() >= old(self)@.code.len() && appended(old(self)@.code, final(self)@.code),
        decreases items, 3int,
    {
        let ghost env = env_of(idents, primitives, numbers);
        let ghost st1 = EmitState { em: self@, global: global@ };
        let ghost views = expr_views(items@);
        let mut i: usize = 0;
        while i < items.len()
            invariant
                i <= items.len(),
                views == expr_views(items@),
                env == env_of(idents, primitives, numbers),
                st1 == (EmitState { em: old(self)@, global: old(global)@ }),
                self.wf(),
                global.wf(),
                kept(old(global)@, global@),
                self@.sp == st1.em.sp,
                self@.scope == st1.em.scope,
                self@.arity == st1.em.arity,
                self@.is_fn == st1.em.is_fn,
                self@.code.len() >= st1.em.code.len(),
                appended(st1.em.code, self@.code),
                emit_vec_items(views, i as int, slot as int, st1, env) == Ok::<
                    EmitState,
                    EmitError,
                >(EmitState { em: self@, global: global@ }),
            decreases items.len() - i,
        {
            let r = self.emit_vec_item(&items[i], slot, idents, primitives, numbers, global);
            proof {
                assert(views[i as int] == items[i as int]@);
                assert(emit_vec_items(views, i + 1, slot as int, st1, env) == outcome(
                    r,
                    self@,
                    global@,
                ));
            }
            if let Err(e) = r {
                proof {
                    lemma_vec_items_err(views, i + 1, items.len() as int, slot as int, st1, env);
                }
                return Err(e);
            }
            i += 1;
        }
        Ok(())
    }

    fn emit_vec_item(
        &mut self,
        item: &Expr,
        slot: usize,
        idents: &IdentTable,
        primitives: &Primitives,
        numbers: &Numbers,
        global: &mut Global,
    ) -> (r: Result<(), EmitError>)
        requires
            old(self).wf(),
            old(global).wf(),
        ensures
            final(global).wf(),
            kept(old(global)@, final(global)@),
            outcome(r, final(self)@, final(global)@) == then_sp(
                then_op(
                    (match then_sp(
                            then_operand(
                                then_op(
                                    Ok(EmitState { em: old(self)@, global: old(global)@ }),
                                    OpCode::Dup,
                                ),
                                slot as int,
                            ),
                            1,
                        ) { Err(err) => Err(err), Ok(s) => emit_spec(item@, s, env_of(idents, primitives, numbers)) }),
                    OpCode::VecPush,
                ),
                -1,
            ),
            r is Ok ==> final(self).wf() && same_frame(old(self)@, final(self)@),
        decreases item, 2int,
    {
        self.push_op(OpCode::Dup, Ghost(global@))?;
        self.push_operand(slot, Ghost(global@))?;
        self.sp = self.sp + 1;
        self.emit(item, idents, primitives, numbers, global)?;
        self.push_op(OpCode::VecPush, Ghost(global@))?;
        self.sp = self.sp - 1;
        Ok(())
    }

    /// Emits the code that sets each of `items` in the map in `slot`.
    fn emit_map_items(
        &mut self,
        items: &Vec<(Expr, Expr)>,
        slot: usize,
        idents: &IdentTable,
        primitives: &Primitives,
        numbers: &Numbers,
        global: &mut Global,
    ) -> (r: Result<(), EmitError>)
        requires
            old(self).wf(),
            old(global).wf(),
        ensures
            final(global).wf(),
            kept(old(global)@, final(global)@),
            outcome(r, final(self)@, final(global)@) == emit_map_items(
                expr_pair_views(items@),
                items.len() as int,
                slot as int,
                EmitState { em: old(self)@, global: old(global)@ },
                env_of(idents, primitives, numbers),
            ),
            r is Ok ==> final(self).wf() && final(self)@.sp == old(self)@.sp && final(self)@.scope
                == old(self)@.scope && final(self)@.arity == old(self)@.arity && final(self)@.is_fn == old(self)@.is_fn && final(self)@.code.len() >= old(self)@.code.len() && appended(old(self)@.code, final(self)@.code),
        decreases items, 3int,
    {
        let ghost env = env_of(idents, primitives, numbers);
        let ghost st1 = EmitState { em: self@, global: global@ };
        let ghost views = expr_pair_views(items@);
        let mut i: usize = 0;
        while i < items.len()
            invariant
                i <= items.len(),
                views == expr_pair_views(items@),
                env == env_of(idents, primitives, numbers),
                st1 == (EmitState { em: old(self)@, global: old(global)@ }),
                self.wf(),
                global.wf(),
                kept(old(global)@, global@),
                self@.sp == st1.em.sp,
                self@.scope == st1.em.scope,
                self@.arity == st1.em.arity,
                self@.is_fn == st1.em.is_fn,
                self@.code.len() >= st1.em.code.len(),
                appended(st1.em.code, self@.code),
                emit_map_items(views, i as int, slot as int, st1, env) == Ok::<
                    EmitState,
                    EmitError,
                >(EmitState { em: self@, global: global@ }),
            decreases items.len() - i,
        {
            let r = self.emit_map_item(&items[i], slot, idents, primitives, numbers, global);
            proof {
                assert(views[i as int] == (items[i as int].0@, items[i as int].1@));
                assert(emit_map_items(views, i + 1, slot as int, st1, env) == outcome(
                    r,
                    self@,
                    global@,
                ));
            }
            if let Err(e) = r {
                proof {
                    lemma_map_items_err(views, i + 1, items.len() as int, slot as int, st1, env);
                }
                return Err(e);
            }
            i += 1;
        }
        Ok(())
    }

    fn emit_map_item(
        &mut self,
        item: &(Expr, Expr),
        slot: usize,
        idents: &IdentTable,
        primitives: &Primitives,
        numbers: &Numbers,
        global: &mut Global,
    ) -> (r: Result<(), EmitError>)
        requires
            old(self).wf(),
            old(global).wf(),
        ensures
            final(global).wf(),
            kept(old(global)@, final(global)@),
            outcome(r, final(self)@, final(global)@) == then_sp(
                then_op(
                    (match then_sp(
                            (match then_sp(
                                    then_operand(
                                        then_op(
                                            Ok(EmitState { em: old(self)@, global: old(global)@ }),
                                            OpCode::Dup,
                                        ),
                                        slot as int,
                                    ),
                                    1,
                                ) { Err(err) => Err(err), Ok(s) => emit_spec(item.0@, s, env_of(idents, primitives, numbers)) }),
                            1,
                        ) { Err(err) => Err(err), Ok(s) => emit_spec(item.1@, s, env_of(idents, primitives, numbers)) }),
                    OpCode::MapSet,
                ),
                -2,
            ),
            r is Ok ==> final(self).wf() && same_frame(old(self)@, final(self)@),
        decreases item, 1int,
    {
        self.push_op(OpCode::Dup, Ghost(global@))?;
        self.push_operand(slot, Ghost(global@))?;
        self.sp = self.sp + 1;
        self.emit(&item.0, idents, primitives, numbers, global)?;
        self.sp = self.sp + 1;
        self.emit(&item.1, idents, primitives, numbers, global)?;
        self.push_op(OpCode::MapSet, Ghost(global@))?;
        self.sp = self.sp - 2;
        Ok(())
    }

    /// Emits the arguments of a call, left to right.
    fn emit_args(
        &mut self,
        args: &Vec<Expr>,
        idents: &IdentTable,
        primitives: &Primitives,
        numbers: &Numbers,
        global: &mut Global,
    ) -> (r: Result<(), EmitError>)
        requires
            old(self).wf(),
            old(global).wf(),
        ensures
            final(global).wf(),
            kept(old(global)@, final(global)@),
            outcome(r, final(self)@, final(global)@) == emit_args(
                expr_views(args@),
                args.len() as int,
                EmitState { em: old(self)@, global: old(global)@ },
                env_of(idents, primitives, numbers),
            ),
            r is Ok ==> final(self).wf() && final(self)@.sp == old(self)@.sp + args.len()
                && final(self)@.scope == old(self)@.scope && final(self)@.arity == old(self)@.arity && final(self)@.is_fn == old(self)@.is_fn && final(self)@.code.len() >= old(self)@.code.len() + args.len() && appended(old(self)@.code, final(self)@.code),
        decreases args, 3int,
    {
        let ghost env = env_of(idents, primitives, numbers);
        let ghost st0 = EmitState { em: self@, global: global@ };
        let ghost views = expr_views(args@);
        let mut i: usize = 0;
        while i < args.len()
            invariant
                i <= args.len(),
                views == expr_views(args@),
                env == env_of(idents, primitives, numbers),
                st0 == (EmitState { em: old(self)@, global: old(global)@ }),
                self.wf(),
                global.wf(),
                kept(old(global)@, global@),
                self@.sp == st0.em.sp + i,
                self@.scope == st0.em.scope,
                self@.arity == st0.em.arity,
                self@.is_fn == st0.em.is_fn,
                self@.code.len() >= st0.em.code.len() + i,
                appended(st0.em.code, self@.code),
                emit_args(views, i as int, st0, env) == Ok::<EmitState, EmitError>(
                    EmitState { em: self@, global: global@ },
                ),
            decreases args.len() - i,
        {
            let ghost cur = EmitState { em: self@, global: global@ };
            match self.emit(&args[i], idents, primitives, numbers, global) {
                Err(e) => {
                    proof {
                        assert(views[i as int] == args[i as int]@);
                        assert(emit_spec(views[i as int], cur, env) == Err::<EmitState, EmitError>(
                            e,
                        ));
                        assert(emit_args(views, i + 1, st0, env) == Err::<EmitState, EmitError>(
                            e,
                        ));
                        lemma_args_err(views, i + 1, args.len() as int, st0, env);
                    }
                    return Err(e);
                },
                Ok(_) => {},
            }
            self.sp = self.sp + 1;
            i += 1;
        }
        Ok(())
    }

    /// Emits the initialisers of a `let`, left to right.
    fn emit_inits(
        &mut self,
        bindings: &Vec<(Ident, Expr)>,
        idents: &IdentTable,
        primitives: &Primitives,
        numbers: &Numbers,
        global: &mut Global,
    ) -> (r: Result<(), EmitError>)
        requires
            old(self).wf(),
            old(global).wf(),
        ensures
            final(global).wf(),
            kept(old(global)@, final(global)@),
            outcome(r, final(self)@, final(global)@) == emit_inits(
                binding_views(bindings@),
                bindings.len() as int,
                EmitState { em: old(self)@, global: old(global)@ },
                env_of(idents, primitives, numbers),
            ),
            r is Ok ==> final(self).wf() && final(self)@.sp == old(self)@.sp + bindings.len()
                && final(self)@.scope == old(self)@.scope && final(self)@.arity == old(self)@.arity && final(self)@.is_fn == old(self)@.is_fn && final(self)@.code.len() >= old(self)@.code.len() + bindings.len() && appended(old(self)@.code, final(self)@.code),
        decreases bindings, 3int,
    {
        let ghost env = env_of(idents, primitives, numbers);
        let ghost st0 = EmitState { em: self@, global: global@ };
        let ghost views = binding_views(bindings@);
        let mut i: usize = 0;
        while i < bindings.len()
            invariant
                i <= bindings.len(),
                views == binding_views(bindings@),
                env == env_of(idents, primitives, numbers),
                st0 == (EmitState { em: old(self)@, global: old(global)@ }),
                self.wf(),
                global.wf(),
                kept(old(global)@, global@),
                self@.sp == st0.em.sp + i,
                self@.scope == st0.em.scope,
                self@.arity == st0.em.arity,
                self@.is_fn == st0.em.is_fn,
                self@.code.len() >= st0.em.code.len() + i,
                appended(st0.em.code, self@.code),
                emit_inits(views, i as int, st0, env) == Ok::<EmitState, EmitError>(
                    EmitState { em: self@, global: global@ },
                ),
            decreases bindings.len() - i,
        {
            let ghost cur = EmitState { em: self@, global: global@ };
            match self.emit(&bindings[i].1, idents, primitives, numbers, global) {
                Err(e) => {
                    proof {
                        assert(views[i as int].1 == bindings[i as int].1@);
                        assert(emit_spec(views[i as int].1, cur, env) == Err::<
                            EmitState,
                            EmitError,
                        >(e));
                        assert(emit_inits(views, i + 1, st0, env) == Err::<EmitState, EmitError>(
                            e,
                        ));
                        lemma_inits_err(views, i + 1, bindings.len() as int, st0, env);
                    }
                    return Err(e);
                },
                Ok(_) => {},
            }
            self.sp = self.sp + 1;
            i += 1;
        }
        Ok(())
    }

    /// Brings the names of a `let` into scope, in the slots from `base` on.
    fn bind(&mut self, bindings: &Vec<(Ident, Expr)>, base: usize)
        requires
            old(self).wf(),
            base + bindings.len() == old(self)@.sp,
            old(self)@.scope.len() <= base,
        ensures
            final(self).wf(),
            final(self)@ == (EmitterView {
                scope: with_bindings(
                    old(self)@.scope,
                    binding_views(bindings@),
                    base as nat,
                    bindings.len() as int,
                ),
                ..old(self)@
            }),
            final(self)@.scope.len() == old(self)@.scope.len() + bindings.len(),
    {
        let ghost views = binding_views(bindings@);
        let ghost before = self@;
        let mut j: usize = 0;
        while j < bindings.len()
            invariant
                j <= bindings.len(),
                views == binding_views(bindings@),
                self.scope.wf(),
                before.wf(),
                base + bindings.len() == before.sp,
                before.scope.len() <= base,
                self@ == (EmitterView {
                    scope: with_bindings(before.scope, views, base as nat, j as int),
                    ..before
                }),
                self@.scope.len() == before.scope.len() + j,
            decreases bindings.len() - j,
        {
            self.scope.push(&bindings[j].0, base + j);
            j += 1;
        }
    }

    /// Takes the names of a `let` out of scope again.
    fn unbind(
        &mut self,
        bindings: &Vec<(Ident, Expr)>,
        Ghost(scope): Ghost<Seq<(u64, u64)>>,
        Ghost(base): Ghost<nat>,
    )
        requires
            old(self).scope.wf(),
            old(self)@.scope == with_bindings(
                scope,
                binding_views(bindings@),
                base,
                bindings.len() as int,
            ),
            old(self)@.scope.len() == scope.len() + bindings.len(),
        ensures
            final(self).scope.wf(),
            final(self)@ == (EmitterView { scope, ..old(self)@ }),
    {
        let ghost views = binding_views(bindings@);
        let ghost before = self@;
        let k = bindings.len();
        let mut j: usize = 0;
        while j < k
            invariant
                j <= k,
                k == bindings.len(),
                self.scope.wf(),
                self@ == (EmitterView {
                    scope: with_bindings(scope, views, base, k - j),
                    ..before
                }),
                self@.scope.len() == scope.len() + k - j,
            decreases k - j,
        {
            proof {
                assert(with_bindings(scope, views, base, k - j).drop_last() =~= with_bindings(
                    scope,
                    views,
                    base,
                    k - j - 1,
                ));
            }
            self.scope.pop();
            j += 1;
        }
    }

    /// Emits the expressions of a `do`: between two of them, the value of
    /// the first is dropped.
    fn emit_do_items(
        &mut self,
        exprs: &Vec<Expr>,
        idents: &IdentTable,
        primitives: &Primitives,
        numbers: &Numbers,
        global: &mut Global,
    ) -> (r: Result<(), EmitError>)
        requires
            old(self).wf(),
            old(global).wf(),
            exprs.len() > 0,
        ensures
            final(global).wf(),
            kept(old(global)@, final(global)@),
            outcome(r, final(self)@, final(global)@) == emit_do(
                expr_views(exprs@),
                exprs.len() as int,
                EmitState { em: old(self)@, global: old(global)@ },
                env_of(idents, primitives, numbers),
            ),
            r is Ok ==> final(self).wf() && same_frame(old(self)@, final(self)@),
        decreases exprs, 3int,
    {
        let ghost env = env_of(idents, primitives, numbers);
        let ghost st0 = EmitState { em: self@, global: global@ };
        let ghost views = expr_views(exprs@);
        let mut i: usize = 0;
        while i < exprs.len()
            invariant
                i <= exprs.len(),
                exprs.len() > 0,
                views == expr_views(exprs@),
                env == env_of(idents, primitives, numbers),
                st0 == (EmitState { em: old(self)@, global: old(global)@ }),
                self.wf(),
                global.wf(),
                kept(old(global)@, global@),
                self@.sp == st0.em.sp,
                self@.scope == st0.em.scope,
                self@.arity == st0.em.arity,
                self@.is_fn == st0.em.is_fn,
                self@.code.len() >= st0.em.code.len() + i,
                appended(st0.em.code, self@.code),
                emit_do(views, i as int, st0, env) == Ok::<EmitState, EmitError>(
                    EmitState { em: self@, global: global@ },
                ),
            decreases exprs.len() - i,
        {
            let r = self.emit_do_item(&exprs[i], i == 0, idents, primitives, numbers, global);
            proof {
                assert(views[i as int] == exprs[i as int]@);
                assert(emit_do(views, i + 1, st0, env) == outcome(r, self@, global@));
            }
            if let Err(e) = r {
                proof {
                    lemma_do_err(views, i + 1, exprs.len() as int, st0, env);
                }
                return Err(e);
            }
            i += 1;
        }
        Ok(())
    }

    fn emit_do_item(
        &mut self,
        item: &Expr,
        first: bool,
        idents: &IdentTable,
        primitives: &Primitives,
        numbers: &Numbers,
        global: &mut Global,
    ) -> (r: Result<(), EmitError>)
        requires
            old(self).wf(),
            old(global).wf(),
        ensures
            final(global).wf(),
            kept(old(global)@, final(global)@),
            outcome(r, final(self)@, final(global)@) == (if first {
                emit_spec(
                    item@,
                    EmitState { em: old(self)@, global: old(global)@ },
                    env_of(idents, primitives, numbers),
                )
            } else {
                (match then_code(
                        then_op(
                            Ok(EmitState { em: old(self)@, global: old(global)@ }),
                            OpCode::Pop,
                        ),
                        1,
                    ) { Err(err) => Err(err), Ok(s) => emit_spec(item@, s, env_of(idents, primitives, numbers)) })
            }),
            r is Ok ==> final(self).wf() && same_frame(old(self)@, final(self)@),
        decreases item, 2int,
    {
        if !first {
            self.push_op(OpCode::Pop, Ghost(global@))?;
            self.push_code(1, Ghost(global@))?;
        }
        self.emit(item, idents, primitives, numbers, global)
    }
}

/// Compiles `expr` as a top-level expression: returns the pointers to the
/// code objects made, those of the functions in `expr` first and that of the
/// expression itself, which ends in `Halt`, last.
pub fn emit(
    idents: &IdentTable,
    primitives: &Primitives,
    numbers: &Numbers,
    global: &mut Global,
    expr: &Expr,
) -> (r: Result<Vec<Val>, EmitError>)
    requires
        old(global).wf(),
    ensures
        final(global).wf(),
        kept(old(global)@, final(global)@),
        match r {
            Ok(objs) => {
                let done = compile_spec(expr@, old(global)@, env_of(idents, primitives, numbers));
                &&& done is Ok
                &&& done->Ok_0.global == final(global)@
                &&& done->Ok_0.em.code_objs == objs@
                &&& objs@.len() > 0
            },
            Err(e) => compile_spec(expr@, old(global)@, env_of(idents, primitives, numbers))
                == Err::<EmitState, EmitError>(e),
        },
{
    let mut emitter = Emitter::new();
    emitter.emit(expr, idents, primitives, numbers, global)?;
    emitter.finish(global)
}

/// The state after `e` was compiled as a top-level expression.
pub open spec fn compile_spec(e: ExprView, global: GlobalView, env: EmitEnv) -> Emitted {
    then_finish(emit_spec(e, EmitState { em: top_emitter(), global }, env))
}

} // verus!
