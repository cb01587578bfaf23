//! The front end: reader, parser and bytecode emitter.

use vstd::prelude::*;

pub mod emit;
pub mod idents;
pub mod numbers;
pub mod parse;
pub mod read;
pub mod sexp;

pub use crate::assembler::compile as assemble;
pub use emit::{emit, EmitError};
pub use idents::{Ident, IdentTable};
pub use numbers::Numbers;
pub use parse::{parse, Expr, ParseError, Primitives, Specials};
pub use read::{ReadError, ReadErrorReason, Reader};
pub use sexp::Sexp;

verus! {

/// Why a form could not be compiled.
#[derive(Copy, Clone, Debug, PartialEq, Eq, Structural)]
pub enum CompileError {
    Parse(ParseError),
    Emit(EmitError),
}

/// What compiling a form comes to: the parse, and the emission of what was
/// parsed.
pub open spec fn compile_form_spec(
    form: sexp::SexpView,
    specials: Specials,
    global: crate::global::GlobalView,
    env: emit::EmitEnv,
) -> Result<emit::EmitState, CompileError> {
    match parse::parse_spec(form, specials, env.prims) {
        Err(e) => Err(CompileError::Parse(e)),
        Ok(tree) => match emit::compile_spec(tree, global, env) {
            Err(e) => Err(CompileError::Emit(e)),
            Ok(done) => Ok(done),
        },
    }
}

/// Compiles a form that was read: parses it and emits its code. Returns the
/// pointers to the code objects made, that of the form itself last. The
/// values of the numbers in the form must have been recorded in `numbers`.
/// A form that does not parse leaves the global context as it was; whatever
/// else happens, the context keeps the objects and symbols that it held.
pub fn compile(
    form: &Sexp,
    idents: &IdentTable,
    specials: &Specials,
    primitives: &Primitives,
    numbers: &Numbers,
    global: &mut crate::global::Global,
) -> (r: Result<Vec<crate::values::Val>, CompileError>)
    requires
        old(global).wf(),
    ensures
        final(global).wf(),
        match r {
            Ok(objs) => {
                let done = compile_form_spec(
                    form@,
                    *specials,
                    old(global)@,
                    emit::env_of(idents, primitives, numbers),
                );
                &&& done is Ok
                &&& done->Ok_0.global == final(global)@
                &&& done->Ok_0.em.code_objs == objs@
                &&& objs@.len() > 0
            },
            Err(e) => compile_form_spec(
                form@,
                *specials,
                old(global)@,
                emit::env_of(idents, primitives, numbers),
            ) == Err::<emit::EmitState, CompileError>(e),
        },
        r matches Err(CompileError::Parse(_)) ==> final(global)@ == old(global)@,
        crate::global::kept(old(global)@, final(global)@),
{
    let tree = match parse(form, specials, primitives) {
        Ok(tree) => tree,
        Err(e) => {
            return Err(CompileError::Parse(e));
        },
    };
    match emit(idents, primitives, numbers, global, &tree) {
        Ok(objs) => Ok(objs),
        Err(e) => Err(CompileError::Emit(e)),
    }
}

} // verus!
