//! A tiny interpreter for a Lua-like scripting subset: a byte-oriented lexer,
//! a single-pass compiler that lowers the token stream straight to bytecode
//! with a deduplicated constant pool, and a register-based virtual machine
//! that executes the bytecode against a global table and a value stack.

use vstd::prelude::*;

mod bytecode;
mod lex;
mod lossy;
mod parse;
mod strlit;
mod value;
mod vm;

pub use crate::bytecode::{ByteCode, ByteCodeStack};
pub use crate::lex::{LexError, Lexer, Token, TokenModel};
pub use crate::lossy::LossyStr;
pub use crate::parse::{ParseError, ParseProto, ProtoModel, UnexpectedTokenError};
pub use crate::value::{LuaFunc, Value, ValueModel};
pub use crate::vm::{ExeState, RuntimeError, VmModel};

verus! {

use vstd::string::StringSliceAdditionalSpecFns;
use crate::parse::{parse_sp, ParseR};
use crate::vm::{check_program, lemma_scan_safe_run, program_safe, run_sp, RunR};

/// What running a chunk can fail with: a compilation error, a runtime error,
/// or a chunk whose compiled form does not fit the u8-indexed instruction
/// encoding (more than 256 pooled constants or locals make register and pool
/// indices wrap).
#[derive(Debug)]
pub enum RuaError {
    Parse(ParseError),
    Runtime(RuntimeError),
    Capacity,
}

/// The chunk model a compilation starts from: nothing pooled, nothing
/// emitted, no locals.
pub open spec fn empty_chunk() -> ProtoModel {
    ProtoModel {
        consts: Seq::<ValueModel>::empty(),
        codes: Seq::<ByteCode>::empty(),
        locals: Seq::<Seq<u8>>::empty(),
    }
}

/// Compiles and executes one chunk of source text: the result is success or
/// exactly the error that the compilation spec (`parse_sp`) or the execution
/// spec (`run_sp`, from a fresh machine) describes. Printing happens as a
/// side effect of execution.
pub fn rua(source: &str) -> (r: Result<(), RuaError>)
    ensures
        match parse_sp(empty_chunk(), source.spec_bytes(), 0) {
            ParseR::LexE(p) => r matches Err(RuaError::Parse(ParseError::Lex(le))) && le.pos as int
                == p,
            ParseR::TokE(a, d) => r matches Err(RuaError::Parse(ParseError::Token(u))) && u.actual@
                == a && u.expected@ == d,
            ParseR::Done(m) => if program_safe(m.consts, m.codes) {
                match run_sp(m.consts, ExeState::init_model(), m.codes) {
                    RunR::Done(_) => r is Ok,
                    RunR::Fail(_, v) => r matches Err(RuaError::Runtime(re)) && re.value@ == v,
                    RunR::Bad => false,
                }
            } else {
                r matches Err(RuaError::Capacity)
            },
        },
{
    let proto = match ParseProto::new(source).parse() {
        Ok(p) => p,
        Err(e) => {
            return Err(RuaError::Parse(e));
        },
    };
    if !check_program(&proto) {
        return Err(RuaError::Capacity);
    }
    let mut state = ExeState::new();
    proof {
        lemma_scan_safe_run(proto.model().consts, state.model(), proto.model().codes);
    }
    match state.execute(proto) {
        Ok(()) => Ok(()),
        Err(e) => Err(RuaError::Runtime(e)),
    }
}

} // verus!
