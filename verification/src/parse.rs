//! The single-pass compiler: pulls tokens from the lexer and lowers each
//! top-level statement directly into bytecode, with no intermediate syntax
//! tree.
//!
//! `parse_sp` is the mathematical description of the whole pass; the
//! executable compiler is proved to produce exactly the constant pool,
//! bytecode sequence and locals table it describes, or exactly the error.

use vstd::prelude::*;

verus! {

use crate::bytecode::ByteCode;
use vstd::string::StringSliceAdditionalSpecFns;
use crate::lex::{
    lemma_lex_bounds, lex_spec, ws_end, LexError, Lexer, Token, TokenModel,
};
use crate::lossy::LossyStr;
use crate::value::{Value, ValueModel};

/// The mathematical model of a chunk under compilation: the constant pool,
/// the emitted instructions, and the declared locals in declaration order (a
/// local's index is its stack register).
#[verifier::ext_equal]
pub struct ProtoModel {
    pub consts: Seq<ValueModel>,
    pub codes: Seq<ByteCode>,
    pub locals: Seq<Seq<u8>>,
}

// ---------------------------------------------------------------------------
// Constant pool and locals, mathematically
// ---------------------------------------------------------------------------

/// Index of the first pool entry equal to `v` at or after `i`, or -1.
pub open spec fn const_pos(cs: Seq<ValueModel>, v: ValueModel, i: int) -> int
    decreases cs.len() - i,
{
    if !(0 <= i < cs.len()) {
        -1
    } else if cs[i] == v {
        i
    } else {
        const_pos(cs, v, i + 1)
    }
}

/// Adding a constant reuses the first structurally equal entry's index, or
/// appends: first-seen order is preserved and equal constants are pooled
/// once.
pub open spec fn add_const_sp(cs: Seq<ValueModel>, v: ValueModel) -> (Seq<ValueModel>, int) {
    let p = const_pos(cs, v, 0);
    if p >= 0 {
        (cs, p)
    } else {
        (cs.push(v), cs.len() as int)
    }
}

/// Index of the most recently declared local with the given name, or -1:
/// the newest declaration wins, so shadowed locals stay on their registers
/// but become unreachable by name.
pub open spec fn local_rpos(ls: Seq<Seq<u8>>, n: Seq<u8>) -> int
    decreases ls.len(),
{
    if ls.len() == 0 {
        -1
    } else if ls.last() == n {
        ls.len() - 1
    } else {
        local_rpos(ls.drop_last(), n)
    }
}


/// Strengthened search facts: where the scan stops, and that a failed scan
/// really saw no equal entry.
pub proof fn lemma_const_pos_full(cs: Seq<ValueModel>, v: ValueModel, i: int)
    requires
        0 <= i,
    ensures
        const_pos(cs, v, i) == -1 || const_pos(cs, v, i) >= 0,
        const_pos(cs, v, i) == -1 ==> forall|j: int| i <= j < cs.len() ==> cs[j] != v,
        const_pos(cs, v, i) >= 0 ==> i <= const_pos(cs, v, i) < cs.len() && cs[const_pos(cs, v, i)]
            == v && (forall|j: int| i <= j < const_pos(cs, v, i) ==> cs[j] != v),
    decreases cs.len() - i,
{
    if 0 <= i < cs.len() && cs[i] != v {
        lemma_const_pos_full(cs, v, i + 1);
    }
}

/// The scan finds exactly the first equal entry.
pub proof fn lemma_const_pos_exact(cs: Seq<ValueModel>, v: ValueModel, i: int, j: int)
    requires
        0 <= i <= j < cs.len(),
        cs[j] == v,
        forall|m: int| i <= m < j ==> cs[m] != v,
    ensures
        const_pos(cs, v, i) == j,
    decreases j - i,
{
    if i < j {
        lemma_const_pos_exact(cs, v, i + 1, j);
    }
}

/// Constant pool deduplication: pooling a constant and then pooling an equal
/// one anywhere later in the same chunk yields the same index and adds no
/// second entry, so both occurrences reference one pool slot.
pub proof fn lemma_constant_pool_dedup(cs: Seq<ValueModel>, v: ValueModel)
    ensures
        ({
            let (cs1, i1) = add_const_sp(cs, v);
            let (cs2, i2) = add_const_sp(cs1, v);
            cs2 == cs1 && i2 == i1 && 0 <= i1 < cs1.len() && cs1[i1] == v
        }),
{
    lemma_const_pos_full(cs, v, 0);
    let p = const_pos(cs, v, 0);
    if p < 0 {
        let cs1 = cs.push(v);
        assert(cs1[cs.len() as int] == v);
        assert forall|m: int| 0 <= m < cs.len() implies #[trigger] cs1[m] != v by {
            assert(cs1[m] == cs[m]);
            assert(cs[m] != v);
        };
        lemma_const_pos_exact(cs1, v, 0, cs.len() as int);
    }
}

// ---------------------------------------------------------------------------
// Statement lowering, mathematically
// ---------------------------------------------------------------------------

/// Result of lowering one expression or assignment: the new constant pool
/// and the emitted instruction, or the error.
pub enum ExpR {
    Emit(Seq<ValueModel>, ByteCode, int),
    LexE(int),
    TokE(TokenModel, Seq<char>),
}

/// Result of lowering a call statement: the new pool, the instructions to
/// append, and the position after the statement, or the error.
pub enum CallR {
    Emit(Seq<ValueModel>, Seq<ByteCode>, int),
    LexE(int),
    TokE(TokenModel, Seq<char>),
}

/// Result of compiling a whole chunk.
pub enum ParseR {
    Done(ProtoModel),
    LexE(int),
    TokE(TokenModel, Seq<char>),
}

/// Resolving a name for reading: a known local is a register move, anything
/// else is a global read through a pooled `Identifier` constant.
pub open spec fn load_var_sp(
    cs: Seq<ValueModel>,
    ls: Seq<Seq<u8>>,
    dst: u8,
    n: Seq<u8>,
) -> (Seq<ValueModel>, ByteCode) {
    let p = local_rpos(ls, n);
    if p >= 0 {
        (cs, ByteCode::Move(dst, p as u8))
    } else {
        let (cs2, k) = add_const_sp(cs, ValueModel::Ident(n));
        (cs2, ByteCode::GetGlobal(dst, k as u8))
    }
}

/// Lowering one expression token into the instruction that loads it into
/// register `dst`: small integers load directly, other literals through the
/// pool, names by `load_var_sp`.
pub open spec fn load_exp_sp(
    cs: Seq<ValueModel>,
    ls: Seq<Seq<u8>>,
    s: Seq<u8>,
    i: int,
    dst: u8,
) -> ExpR {
    match lex_spec(s, i) {
        None => ExpR::LexE(ws_end(s, i)),
        Some((t, e)) => match t {
            TokenModel::Nil => ExpR::Emit(cs, ByteCode::LoadNil(dst), e),
            TokenModel::True => ExpR::Emit(cs, ByteCode::LoadBool(dst, true), e),
            TokenModel::False => ExpR::Emit(cs, ByteCode::LoadBool(dst, false), e),
            TokenModel::Integer(v) => if -32768 <= v <= 32767 {
                ExpR::Emit(cs, ByteCode::LoadInt(dst, v as i16), e)
            } else {
                let (cs2, k) = add_const_sp(cs, ValueModel::Int(v));
                ExpR::Emit(cs2, ByteCode::LoadConst(dst, k as u8), e)
            },
            TokenModel::Float(x) => {
                let (cs2, k) = add_const_sp(cs, ValueModel::Float(x));
                ExpR::Emit(cs2, ByteCode::LoadConst(dst, k as u8), e)
            },
            TokenModel::String(x) => {
                let (cs2, k) = add_const_sp(cs, ValueModel::Str(x));
                ExpR::Emit(cs2, ByteCode::LoadConst(dst, k as u8), e)
            },
            TokenModel::Name(n) => {
                let (cs2, c) = load_var_sp(cs, ls, dst, n);
                ExpR::Emit(cs2, c, e)
            },
            _ => ExpR::TokE(t, "<expression>"@),
        },
    }
}

/// Lowering `<name> = <expr>`: an assignment to a known local evaluates the
/// expression straight into the local's register; an assignment to a global
/// pools the name and lowers each right-hand-side form to its dedicated
/// instruction, so no temporary register is needed.
pub open spec fn assign_sp(
    cs: Seq<ValueModel>,
    ls: Seq<Seq<u8>>,
    s: Seq<u8>,
    i: int,
    name: Seq<u8>,
) -> ExpR {
    let p = local_rpos(ls, name);
    if p >= 0 {
        load_exp_sp(cs, ls, s, i, p as u8)
    } else {
        let (cs1, gi) = add_const_sp(cs, ValueModel::Ident(name));
        match lex_spec(s, i) {
            None => ExpR::LexE(ws_end(s, i)),
            Some((t, e)) => match t {
                TokenModel::Nil => {
                    let (cs2, k) = add_const_sp(cs1, ValueModel::Nil);
                    ExpR::Emit(cs2, ByteCode::SetGlobalConst(gi as u8, k as u8), e)
                },
                TokenModel::True => {
                    let (cs2, k) = add_const_sp(cs1, ValueModel::Bool(true));
                    ExpR::Emit(cs2, ByteCode::SetGlobalConst(gi as u8, k as u8), e)
                },
                TokenModel::False => {
                    let (cs2, k) = add_const_sp(cs1, ValueModel::Bool(false));
                    ExpR::Emit(cs2, ByteCode::SetGlobalConst(gi as u8, k as u8), e)
                },
                TokenModel::Integer(v) => {
                    let (cs2, k) = add_const_sp(cs1, ValueModel::Int(v));
                    ExpR::Emit(cs2, ByteCode::SetGlobalConst(gi as u8, k as u8), e)
                },
                TokenModel::Float(x) => {
                    let (cs2, k) = add_const_sp(cs1, ValueModel::Float(x));
                    ExpR::Emit(cs2, ByteCode::SetGlobalConst(gi as u8, k as u8), e)
                },
                TokenModel::String(x) => {
                    let (cs2, k) = add_const_sp(cs1, ValueModel::Str(x));
                    ExpR::Emit(cs2, ByteCode::SetGlobalConst(gi as u8, k as u8), e)
                },
                TokenModel::Name(n2) => {
                    let p2 = local_rpos(ls, n2);
                    if p2 >= 0 {
                        ExpR::Emit(cs1, ByteCode::SetGlobalLocal(gi as u8, p2 as u8), e)
                    } else {
                        let (cs2, k) = add_const_sp(cs1, ValueModel::Ident(n2));
                        ExpR::Emit(cs2, ByteCode::SetGlobalGlobal(gi as u8, k as u8), e)
                    }
                },
                _ => ExpR::TokE(t, "<expression>"@),
            },
        }
    }
}

/// Lowering a call statement `<name>(<expr>)` or `<name> "<string>"`: the
/// callee is resolved into the next free register, the single argument into
/// the one after it, then the call is emitted. `t` is the token found after
/// the name and `i` the position after `t`.
pub open spec fn call_sp(
    cs: Seq<ValueModel>,
    ls: Seq<Seq<u8>>,
    s: Seq<u8>,
    i: int,
    t: TokenModel,
    name: Seq<u8>,
) -> CallR {
    let ifunc = ls.len() as u8;
    let iarg: u8 = if ifunc == 255 { 0u8 } else { (ifunc + 1) as u8 };
    match t {
        TokenModel::ParL => {
            let (cs1, code1) = load_var_sp(cs, ls, ifunc, name);
            match load_exp_sp(cs1, ls, s, i, iarg) {
                ExpR::Emit(cs2, code2, e2) => match lex_spec(s, e2) {
                    None => CallR::LexE(ws_end(s, e2)),
                    Some((t2, e3)) => if t2 is ParR {
                        CallR::Emit(cs2, seq![code1, code2, ByteCode::Call(ifunc, 1)], e3)
                    } else {
                        CallR::TokE(t2, "`)`"@)
                    },
                },
                ExpR::LexE(p) => CallR::LexE(p),
                ExpR::TokE(a, x) => CallR::TokE(a, x),
            }
        },
        TokenModel::String(sv) => {
            let (cs1, code1) = load_var_sp(cs, ls, ifunc, name);
            let (cs2, k) = add_const_sp(cs1, ValueModel::Str(sv));
            CallR::Emit(
                cs2,
                seq![code1, ByteCode::LoadConst(iarg, k as u8), ByteCode::Call(ifunc, 1)],
                i,
            )
        },
        _ => CallR::TokE(t, "`(<expression>)` or string"@),
    }
}

/// A successful expression lowering consumes at least one token.
pub proof fn lemma_load_exp_bounds(
    cs: Seq<ValueModel>,
    ls: Seq<Seq<u8>>,
    s: Seq<u8>,
    i: int,
    dst: u8,
)
    requires
        0 <= i <= s.len(),
        load_exp_sp(cs, ls, s, i, dst) is Emit,
    ensures
        i < load_exp_sp(cs, ls, s, i, dst)->Emit_2 <= s.len(),
{
    lemma_lex_bounds(s, i);
}

/// A successful assignment lowering consumes at least one token.
pub proof fn lemma_assign_bounds(
    cs: Seq<ValueModel>,
    ls: Seq<Seq<u8>>,
    s: Seq<u8>,
    i: int,
    name: Seq<u8>,
)
    requires
        0 <= i <= s.len(),
        assign_sp(cs, ls, s, i, name) is Emit,
    ensures
        i < assign_sp(cs, ls, s, i, name)->Emit_2 <= s.len(),
{
    let p = local_rpos(ls, name);
    if p >= 0 {
        lemma_load_exp_bounds(cs, ls, s, i, p as u8);
    } else {
        lemma_lex_bounds(s, i);
    }
}

/// A successful call lowering never moves the cursor backwards.
pub proof fn lemma_call_bounds(
    cs: Seq<ValueModel>,
    ls: Seq<Seq<u8>>,
    s: Seq<u8>,
    i: int,
    t: TokenModel,
    name: Seq<u8>,
)
    requires
        0 <= i <= s.len(),
        call_sp(cs, ls, s, i, t, name) is Emit,
    ensures
        i <= call_sp(cs, ls, s, i, t, name)->Emit_2 <= s.len(),
{
    let ifunc = ls.len() as u8;
    let iarg: u8 = if ifunc == 255 { 0u8 } else { (ifunc + 1) as u8 };
    if t is ParL {
        let (cs1, code1) = load_var_sp(cs, ls, ifunc, name);
        lemma_load_exp_bounds(cs1, ls, s, i, iarg);
        let e2 = load_exp_sp(cs1, ls, s, i, iarg)->Emit_2;
        lemma_lex_bounds(s, e2);
    }
}

/// Compiling from position `i`: each statement is recognized by its leading
/// token and lowered immediately; a comment is skipped; end of input ends
/// the chunk.
pub open spec fn parse_sp(m: ProtoModel, s: Seq<u8>, i: int) -> ParseR
    decreases s.len() - i,
    when 0 <= i <= s.len()
    via parse_sp_decreases
{
    match lex_spec(s, i) {
        None => ParseR::LexE(ws_end(s, i)),
        Some((t, e)) => match t {
            TokenModel::Eof => ParseR::Done(m),
            TokenModel::Comment => parse_sp(m, s, e),
            TokenModel::Local => match lex_spec(s, e) {
                None => ParseR::LexE(ws_end(s, e)),
                Some((t1, e1)) => match t1 {
                    TokenModel::Name(var) => match lex_spec(s, e1) {
                        None => ParseR::LexE(ws_end(s, e1)),
                        Some((t2, e2)) => if t2 is Assign {
                            match load_exp_sp(m.consts, m.locals, s, e2, m.locals.len() as u8) {
                                ExpR::Emit(cs2, code, e3) => parse_sp(
                                    ProtoModel {
                                        consts: cs2,
                                        codes: m.codes.push(code),
                                        locals: m.locals.push(var),
                                    },
                                    s,
                                    e3,
                                ),
                                ExpR::LexE(p) => ParseR::LexE(p),
                                ExpR::TokE(a, x) => ParseR::TokE(a, x),
                            }
                        } else {
                            ParseR::TokE(t2, "`=`"@)
                        },
                    },
                    _ => ParseR::TokE(t1, "<variable>"@),
                },
            },
            TokenModel::Name(name) => match lex_spec(s, e) {
                None => ParseR::LexE(ws_end(s, e)),
                Some((t1, e1)) => if t1 is Assign {
                    match assign_sp(m.consts, m.locals, s, e1, name) {
                        ExpR::Emit(cs2, code, e2) => parse_sp(
                            ProtoModel { consts: cs2, codes: m.codes.push(code), locals: m.locals },
                            s,
                            e2,
                        ),
                        ExpR::LexE(p) => ParseR::LexE(p),
                        ExpR::TokE(a, x) => ParseR::TokE(a, x),
                    }
                } else {
                    match call_sp(m.consts, m.locals, s, e1, t1, name) {
                        CallR::Emit(cs2, codes, e2) => parse_sp(
                            ProtoModel { consts: cs2, codes: m.codes + codes, locals: m.locals },
                            s,
                            e2,
                        ),
                        CallR::LexE(p) => ParseR::LexE(p),
                        CallR::TokE(a, x) => ParseR::TokE(a, x),
                    }
                },
            },
            _ => ParseR::TokE(t, Seq::empty()),
        },
    }
}

#[via_fn]
proof fn parse_sp_decreases(m: ProtoModel, s: Seq<u8>, i: int) {
    if lex_spec(s, i) is Some {
        lemma_lex_bounds(s, i);
        let (t, e) = lex_spec(s, i)->Some_0;
        match t {
            TokenModel::Local => {
                if lex_spec(s, e) is Some {
                    lemma_lex_bounds(s, e);
                    let (t1, e1) = lex_spec(s, e)->Some_0;
                    if t1 is Name && lex_spec(s, e1) is Some {
                        lemma_lex_bounds(s, e1);
                        let (t2, e2) = lex_spec(s, e1)->Some_0;
                        if t2 is Assign && load_exp_sp(
                            m.consts,
                            m.locals,
                            s,
                            e2,
                            m.locals.len() as u8,
                        ) is Emit {
                            lemma_load_exp_bounds(
                                m.consts,
                                m.locals,
                                s,
                                e2,
                                m.locals.len() as u8,
                            );
                        }
                    }
                }
            },
            TokenModel::Name(name) => {
                if lex_spec(s, e) is Some {
                    lemma_lex_bounds(s, e);
                    let (t1, e1) = lex_spec(s, e)->Some_0;
                    if t1 is Assign {
                        if assign_sp(m.consts, m.locals, s, e1, name) is Emit {
                            lemma_assign_bounds(m.consts, m.locals, s, e1, name);
                        }
                    } else {
                        if call_sp(m.consts, m.locals, s, e1, t1, name) is Emit {
                            lemma_call_bounds(m.consts, m.locals, s, e1, t1, name);
                        }
                    }
                }
            },
            _ => {},
        }
    }
}

// ---------------------------------------------------------------------------
// Errors
// ---------------------------------------------------------------------------

/// A syntactic error: the token actually found and, where one was
/// anticipated, a description of the expected alternative (empty when none
/// was).
#[derive(Debug)]
pub struct UnexpectedTokenError {
    pub actual: Token,
    pub expected: &'static str,
}

/// A compilation error: a lexical failure propagated verbatim, or an
/// unexpected token. Both are terminal; no partial program is returned.
#[derive(Debug)]
pub enum ParseError {
    Lex(LexError),
    Token(UnexpectedTokenError),
}

/// Correspondence between an executable error and a modelled expression
/// error.
pub open spec fn exp_err_matches(x: ExpR, e: ParseError) -> bool {
    match (x, e) {
        (ExpR::LexE(p), ParseError::Lex(le)) => le.pos as int == p,
        (ExpR::TokE(a, d), ParseError::Token(u)) => u.actual@ == a && u.expected@ == d,
        _ => false,
    }
}

/// Correspondence between an executable error and a modelled call error.
pub open spec fn call_err_matches(x: CallR, e: ParseError) -> bool {
    match (x, e) {
        (CallR::LexE(p), ParseError::Lex(le)) => le.pos as int == p,
        (CallR::TokE(a, d), ParseError::Token(u)) => u.actual@ == a && u.expected@ == d,
        _ => false,
    }
}

// ---------------------------------------------------------------------------
// The executable compiler
// ---------------------------------------------------------------------------

/// A chunk under compilation: the constant pool, the bytecode emitted so
/// far, the lexer it pulls from, and the declared locals.
#[derive(Debug)]
pub struct ParseProto {
    pub constants: Vec<Value>,
    pub bytecodes: Vec<ByteCode>,
    pub lexer: Lexer,
    pub locals: Vec<Vec<u8>>,
}

impl ParseProto {
    /// The chunk's mathematical model.
    pub open spec fn model(&self) -> ProtoModel {
        ProtoModel {
            consts: self.constants@.map_values(|v: Value| v@),
            codes: self.bytecodes@,
            locals: self.locals@.map_values(|n: Vec<u8>| n@),
        }
    }

    pub open spec fn wf(&self) -> bool {
        self.lexer.wf() && forall|k: int|
            0 <= k < self.constants@.len() ==> (#[trigger] self.constants@[k]).wf()
    }

    pub fn new(source: &str) -> (r: ParseProto)
        ensures
            r.wf(),
            r.model() == (ProtoModel {
                consts: Seq::<ValueModel>::empty(),
                codes: Seq::<ByteCode>::empty(),
                locals: Seq::<Seq<u8>>::empty(),
            }),
            r.lexer.input() == source.spec_bytes(),
            r.lexer.at() == 0,
    {
        let r = ParseProto {
            constants: Vec::new(),
            bytecodes: Vec::new(),
            lexer: Lexer::new(source),
            locals: Vec::new(),
        };
        proof {
            assert(r.model() =~= ProtoModel {
                consts: Seq::<ValueModel>::empty(),
                codes: Seq::<ByteCode>::empty(),
                locals: Seq::<Seq<u8>>::empty(),
            });
        }
        r
    }

    /// Pools a constant, reusing the first structurally equal entry.
    fn add_const(&mut self, value: Value) -> (k: usize)
        requires
            old(self).wf(),
            value.wf(),
        ensures
            final(self).wf(),
            final(self).lexer == old(self).lexer,
            final(self).bytecodes == old(self).bytecodes,
            final(self).locals == old(self).locals,
            ({
                let (cs2, kk) = add_const_sp(old(self).model().consts, value@);
                final(self).model().consts == cs2 && k as int == kk
            }),
    {
        let ghost csm = self.model().consts;
        let ghost vm = value@;
        let n = self.constants.len();
        let mut i: usize = 0;
        while i < n
            invariant
                i <= n,
                n == self.constants@.len(),
                self.wf(),
                value.wf(),
                csm == self.model().consts,
                vm == value@,
                const_pos(csm, vm, 0) == const_pos(csm, vm, i as int),
            decreases n - i,
        {
            if self.constants[i].equals(&value) {
                return i;
            }
            i += 1;
        }
        self.constants.push(value);
        proof {
            assert(const_pos(csm, vm, n as int) == -1);
            assert(self.model().consts =~= csm.push(vm));
        }
        n
    }

    /// Pools a constant and emits the instruction loading it into `dst`.
    fn load_const(&mut self, dst: u8, constant: Value) -> (r: ByteCode)
        requires
            old(self).wf(),
            constant.wf(),
        ensures
            final(self).wf(),
            final(self).lexer == old(self).lexer,
            final(self).bytecodes == old(self).bytecodes,
            final(self).locals == old(self).locals,
            ({
                let (cs2, kk) = add_const_sp(old(self).model().consts, constant@);
                final(self).model().consts == cs2 && r == ByteCode::LoadConst(dst, kk as u8)
            }),
    {
        let k = self.add_const(constant);
        ByteCode::LoadConst(dst, #[verifier::truncate] (k as u8))
    }

    /// Rightmost-match lookup in the locals table: the most recent
    /// declaration of a name wins (shadowing).
    pub fn local_var(&self, name: &Vec<u8>) -> (r: Option<usize>)
        ensures
            match r {
                Some(p) => p as int == local_rpos(self.model().locals, name@),
                None => local_rpos(self.model().locals, name@) == -1,
            },
    {
        let ghost ls = self.model().locals;
        let mut i: usize = self.locals.len();
        proof {
            assert(ls.take(i as int) =~= ls);
        }
        while i > 0
            invariant
                i <= self.locals@.len(),
                ls == self.model().locals,
                local_rpos(ls, name@) == local_rpos(ls.take(i as int), name@),
            decreases i,
        {
            i = i - 1;
            if crate::value::bytes_eq(self.locals[i].as_slice(), name.as_slice()) {
                proof {
                    assert(ls.take(i as int + 1).last() == ls[i as int]);
                    assert(local_rpos(ls.take(i as int + 1), name@) == i as int);
                }
                return Some(i);
            }
            proof {
                assert(ls.take(i as int + 1).last() == ls[i as int]);
                assert(ls.take(i as int + 1).drop_last() =~= ls.take(i as int));
            }
        }
        proof {
            assert(ls.take(0) =~= Seq::<Seq<u8>>::empty());
        }
        None
    }

    /// Resolves a name for reading into register `dst`.
    fn load_var(&mut self, dst: u8, name: Vec<u8>) -> (r: ByteCode)
        requires
            old(self).wf(),
        ensures
            final(self).wf(),
            final(self).lexer == old(self).lexer,
            final(self).bytecodes == old(self).bytecodes,
            final(self).locals == old(self).locals,
            ({
                let (cs2, code) = load_var_sp(
                    old(self).model().consts,
                    old(self).model().locals,
                    dst,
                    name@,
                );
                final(self).model().consts == cs2 && r == code
            }),
    {
        match self.local_var(&name) {
            Some(src) => ByteCode::Move(dst, #[verifier::truncate] (src as u8)),
            None => {
                let k = self.add_const(Value::Identifier(name));
                ByteCode::GetGlobal(dst, #[verifier::truncate] (k as u8))
            },
        }
    }

    /// Lowers one expression token into the instruction that loads it into
    /// register `dst`.
    fn load_exp(&mut self, dst: u8) -> (r: Result<ByteCode, ParseError>)
        requires
            old(self).wf(),
        ensures
            final(self).wf(),
            final(self).lexer.input() == old(self).lexer.input(),
            final(self).bytecodes == old(self).bytecodes,
            final(self).locals == old(self).locals,
            match r {
                Ok(code) => load_exp_sp(
                    old(self).model().consts,
                    old(self).model().locals,
                    old(self).lexer.input(),
                    old(self).lexer.at(),
                    dst,
                ) == ExpR::Emit(final(self).model().consts, code, final(self).lexer.at()),
                Err(e) => exp_err_matches(
                    load_exp_sp(
                        old(self).model().consts,
                        old(self).model().locals,
                        old(self).lexer.input(),
                        old(self).lexer.at(),
                        dst,
                    ),
                    e,
                ),
            },
    {
        let tok = match self.lexer.next() {
            Ok(t) => t,
            Err(le) => {
                return Err(ParseError::Lex(le));
            },
        };
        let code = match tok {
            Token::Nil => ByteCode::LoadNil(dst),
            Token::True => ByteCode::LoadBool(dst, true),
            Token::False => ByteCode::LoadBool(dst, false),
            Token::Integer(i) => {
                if -32768 <= i && i <= 32767 {
                    ByteCode::LoadInt(dst, i as i16)
                } else {
                    self.load_const(dst, Value::Integer(i))
                }
            },
            Token::Float(x) => self.load_const(dst, Value::Float(x)),
            Token::String(s) => self.load_const(dst, Value::String(LossyStr::from_bytes(s))),
            Token::Name(name) => self.load_var(dst, name),
            t => {
                return Err(ParseError::Token(UnexpectedTokenError {
                    actual: t,
                    expected: "<expression>",
                }));
            },
        };
        Ok(code)
    }

    /// Lowers `<name> = <expr>`.
    fn assign(&mut self, var: Vec<u8>) -> (r: Result<ByteCode, ParseError>)
        requires
            old(self).wf(),
        ensures
            final(self).wf(),
            final(self).lexer.input() == old(self).lexer.input(),
            final(self).bytecodes == old(self).bytecodes,
            final(self).locals == old(self).locals,
            match r {
                Ok(code) => assign_sp(
                    old(self).model().consts,
                    old(self).model().locals,
                    old(self).lexer.input(),
                    old(self).lexer.at(),
                    var@,
                ) == ExpR::Emit(final(self).model().consts, code, final(self).lexer.at()),
                Err(e) => exp_err_matches(
                    assign_sp(
                        old(self).model().consts,
                        old(self).model().locals,
                        old(self).lexer.input(),
                        old(self).lexer.at(),
                        var@,
                    ),
                    e,
                ),
            },
    {
        match self.local_var(&var) {
            Some(src) => self.load_exp(#[verifier::truncate] (src as u8)),
            None => {
                let gi = self.add_const(Value::Identifier(var));
                let gi8 = #[verifier::truncate] (gi as u8);
                let tok = match self.lexer.next() {
                    Ok(t) => t,
                    Err(le) => {
                        return Err(ParseError::Lex(le));
                    },
                };
                let code = match tok {
                    Token::Nil => {
                        let k = self.add_const(Value::Nil);
                        ByteCode::SetGlobalConst(gi8, #[verifier::truncate] (k as u8))
                    },
                    Token::True => {
                        let k = self.add_const(Value::Boolean(true));
                        ByteCode::SetGlobalConst(gi8, #[verifier::truncate] (k as u8))
                    },
                    Token::False => {
                        let k = self.add_const(Value::Boolean(false));
                        ByteCode::SetGlobalConst(gi8, #[verifier::truncate] (k as u8))
                    },
                    Token::Integer(i) => {
                        let k = self.add_const(Value::Integer(i));
                        ByteCode::SetGlobalConst(gi8, #[verifier::truncate] (k as u8))
                    },
                    Token::Float(x) => {
                        let k = self.add_const(Value::Float(x));
                        ByteCode::SetGlobalConst(gi8, #[verifier::truncate] (k as u8))
                    },
                    Token::String(sv) => {
                        let k = self.add_const(Value::String(LossyStr::from_bytes(sv)));
                        ByteCode::SetGlobalConst(gi8, #[verifier::truncate] (k as u8))
                    },
                    Token::Name(n2) => match self.local_var(&n2) {
                        Some(src) => ByteCode::SetGlobalLocal(
                            gi8,
                            #[verifier::truncate] (src as u8),
                        ),
                        None => {
                            let k = self.add_const(Value::Identifier(n2));
                            ByteCode::SetGlobalGlobal(gi8, #[verifier::truncate] (k as u8))
                        },
                    },
                    t => {
                        return Err(ParseError::Token(UnexpectedTokenError {
                            actual: t,
                            expected: "<expression>",
                        }));
                    },
                };
                Ok(code)
            },
        }
    }

    /// Lowers a call statement: pushes the callee and argument loads itself
    /// and returns the final `Call` instruction for the caller to push.
    fn call_function(&mut self, token: Token, name: Vec<u8>) -> (r: Result<ByteCode, ParseError>)
        requires
            old(self).wf(),
        ensures
            final(self).wf(),
            final(self).lexer.input() == old(self).lexer.input(),
            final(self).locals == old(self).locals,
            match r {
                Ok(code) => match call_sp(
                    old(self).model().consts,
                    old(self).model().locals,
                    old(self).lexer.input(),
                    old(self).lexer.at(),
                    token@,
                    name@,
                ) {
                    CallR::Emit(cs2, codes, e2) => final(self).model().consts == cs2
                        && final(self).bytecodes@ == old(self).bytecodes@ + codes.drop_last()
                        && code == codes.last() && final(self).lexer.at() == e2,
                    _ => false,
                },
                Err(e) => call_err_matches(
                    call_sp(
                        old(self).model().consts,
                        old(self).model().locals,
                        old(self).lexer.input(),
                        old(self).lexer.at(),
                        token@,
                        name@,
                    ),
                    e,
                ),
            },
    {
        let ifunc = #[verifier::truncate] (self.locals.len() as u8);
        let iarg: u8 = if ifunc == 255 {
            0
        } else {
            ifunc + 1
        };
        match token {
            Token::ParL => {
                let code1 = self.load_var(ifunc, name);
                self.bytecodes.push(code1);
                let code2 = match self.load_exp(iarg) {
                    Ok(c) => c,
                    Err(e) => {
                        return Err(e);
                    },
                };
                self.bytecodes.push(code2);
                let tok = match self.lexer.next() {
                    Ok(t) => t,
                    Err(le) => {
                        return Err(ParseError::Lex(le));
                    },
                };
                match tok {
                    Token::ParR => {},
                    t => {
                        return Err(ParseError::Token(UnexpectedTokenError {
                            actual: t,
                            expected: "`)`",
                        }));
                    },
                }
                proof {
                    let codes = seq![
                        code1,
                        code2,
                        ByteCode::Call(ifunc, 1),
                    ];
                    assert(self.bytecodes@ =~= old(self).bytecodes@ + codes.drop_last());
                }
                Ok(ByteCode::Call(ifunc, 1))
            },
            Token::String(sv) => {
                let code1 = self.load_var(ifunc, name);
                self.bytecodes.push(code1);
                let code2 = self.load_const(iarg, Value::String(LossyStr::from_bytes(sv)));
                self.bytecodes.push(code2);
                proof {
                    let codes = seq![
                        code1,
                        code2,
                        ByteCode::Call(ifunc, 1),
                    ];
                    assert(self.bytecodes@ =~= old(self).bytecodes@ + codes.drop_last());
                }
                Ok(ByteCode::Call(ifunc, 1))
            },
            t => Err(ParseError::Token(UnexpectedTokenError {
                actual: t,
                expected: "`(<expression>)` or string",
            })),
        }
    }

    /// Compiles the whole chunk: the result is exactly what `parse_sp`
    /// describes of the source, or exactly the error it describes.
    #[verifier::rlimit(100)]
    #[verifier::loop_isolation(false)]
    pub fn parse(self) -> (r: Result<ParseProto, ParseError>)
        requires
            self.wf(),
        ensures
            match r {
                Ok(p) => parse_sp(self.model(), self.lexer.input(), self.lexer.at())
                    == ParseR::Done(p.model()) && p.wf() && p.lexer.input() == self.lexer.input(),
                Err(e) => match parse_sp(self.model(), self.lexer.input(), self.lexer.at()) {
                    ParseR::Done(_) => false,
                    ParseR::LexE(p) => e matches ParseError::Lex(le) && le.pos as int == p,
                    ParseR::TokE(a, d) => e matches ParseError::Token(u) && u.actual@ == a
                        && u.expected@ == d,
                },
            },
    {
        let ghost m0 = self.model();
        let ghost s = self.lexer.input();
        let ghost i0 = self.lexer.at();
        let mut this = self;
        proof {
            this.lexer.lemma_wf();
        }
        loop
            invariant
                this.wf(),
                this.lexer.input() == s,
                0 <= this.lexer.at() <= s.len(),
                parse_sp(m0, s, i0) == parse_sp(this.model(), s, this.lexer.at()),
            decreases s.len() - this.lexer.at(),
        {
            let ghost m_it = this.model();
            let ghost i_it = this.lexer.at();
            let ghost step = parse_sp(m_it, s, i_it);
            let tok = match this.lexer.next() {
                Ok(t) => t,
                Err(le) => {
                    proof {
                        assert(step == ParseR::LexE(ws_end(s, i_it)));
                    }
                    return Err(ParseError::Lex(le));
                },
            };
            let ghost tokm = tok@;
            let ghost e0 = this.lexer.at();
            proof {
                lemma_lex_bounds(s, i_it);
                assert(lex_spec(s, i_it) == Some((tokm, e0)));
            }
            let code = match tok {
                Token::Local => {
                    let tok1 = match this.lexer.next() {
                        Ok(t) => t,
                        Err(le) => {
                            proof {
                                assert(step == ParseR::LexE(ws_end(s, e0)));
                            }
                            return Err(ParseError::Lex(le));
                        },
                    };
                    let ghost tok1m = tok1@;
                    let ghost e1 = this.lexer.at();
                    proof {
                        lemma_lex_bounds(s, e0);
                    }
                    let var = match tok1 {
                        Token::Name(v) => v,
                        t => {
                            proof {
                                assert(step == ParseR::TokE(tok1m, "<variable>"@));
                            }
                            return Err(ParseError::Token(UnexpectedTokenError {
                                actual: t,
                                expected: "<variable>",
                            }));
                        },
                    };
                    let tok2 = match this.lexer.next() {
                        Ok(t) => t,
                        Err(le) => {
                            proof {
                                assert(step == ParseR::LexE(ws_end(s, e1)));
                            }
                            return Err(ParseError::Lex(le));
                        },
                    };
                    let ghost tok2m = tok2@;
                    let ghost e2 = this.lexer.at();
                    proof {
                        lemma_lex_bounds(s, e1);
                    }
                    match tok2 {
                        Token::Assign => {},
                        t => {
                            proof {
                                assert(step == ParseR::TokE(tok2m, "`=`"@));
                            }
                            return Err(ParseError::Token(UnexpectedTokenError {
                                actual: t,
                                expected: "`=`",
                            }));
                        },
                    }
                    let dst = #[verifier::truncate] (this.locals.len() as u8);
                    proof {
                        assert(dst == m_it.locals.len() as u8);
                    }
                    let code = match this.load_exp(dst) {
                        Ok(c) => c,
                        Err(e) => {
                            proof {
                                let x = load_exp_sp(m_it.consts, m_it.locals, s, e2, dst);
                                assert(exp_err_matches(x, e));
                                match x {
                                    ExpR::Emit(_, _, _) => {
                                        assert(false);
                                    },
                                    ExpR::LexE(pp) => {
                                        assert(step == ParseR::LexE(pp));
                                    },
                                    ExpR::TokE(a, d) => {
                                        assert(step == ParseR::TokE(a, d));
                                    },
                                }
                            }
                            return Err(e);
                        },
                    };
                    proof {
                        lemma_load_exp_bounds(m_it.consts, m_it.locals, s, e2, dst);
                    }
                    this.locals.push(var);
                    proof {
                        assert(this.model().locals =~= m_it.locals.push(var@));
                    }
                    code
                },
                Token::Name(name) => {
                    let ghost namem = name@;
                    let tok1 = match this.lexer.next() {
                        Ok(t) => t,
                        Err(le) => {
                            proof {
                                assert(step == ParseR::LexE(ws_end(s, e0)));
                            }
                            return Err(ParseError::Lex(le));
                        },
                    };
                    let ghost tok1m = tok1@;
                    let ghost e1 = this.lexer.at();
                    proof {
                        lemma_lex_bounds(s, e0);
                    }
                    match tok1 {
                        Token::Assign => {
                            let code = match this.assign(name) {
                                Ok(c) => c,
                                Err(e) => {
                                    proof {
                                        let x = assign_sp(m_it.consts, m_it.locals, s, e1, namem);
                                        assert(exp_err_matches(x, e));
                                        match x {
                                            ExpR::Emit(_, _, _) => {
                                                assert(false);
                                            },
                                            ExpR::LexE(pp) => {
                                                assert(step == ParseR::LexE(pp));
                                            },
                                            ExpR::TokE(a, d) => {
                                                assert(step == ParseR::TokE(a, d));
                                            },
                                        }
                                    }
                                    return Err(e);
                                },
                            };
                            proof {
                                lemma_assign_bounds(m_it.consts, m_it.locals, s, e1, namem);
                            }
                            code
                        },
                        t2 => {
                            let ghost t2m = t2@;
                            let ghost csp = call_sp(m_it.consts, m_it.locals, s, e1, t2m, namem);
                            let c = match this.call_function(t2, name) {
                                Ok(c) => c,
                                Err(e) => {
                                    proof {
                                        assert(call_err_matches(csp, e));
                                        match csp {
                                            CallR::Emit(_, _, _) => {
                                                assert(false);
                                            },
                                            CallR::LexE(pp) => {
                                                assert(step == ParseR::LexE(pp));
                                            },
                                            CallR::TokE(a, d) => {
                                                assert(step == ParseR::TokE(a, d));
                                            },
                                        }
                                    }
                                    return Err(e);
                                },
                            };
                            this.bytecodes.push(c);
                            proof {
                                lemma_call_bounds(m_it.consts, m_it.locals, s, e1, t2m, namem);
                                match csp {
                                    CallR::Emit(cs2, codes, e2) => {
                                        assert(this.bytecodes@ =~= m_it.codes + codes);
                                        assert(this.model() =~= (ProtoModel {
                                            consts: cs2,
                                            codes: m_it.codes + codes,
                                            locals: m_it.locals,
                                        }));
                                        assert(step == parse_sp(this.model(), s, this.lexer.at()));
                                    },
                                    _ => {
                                        assert(false);
                                    },
                                }
                            }
                            continue ;
                        },
                    }
                },
                Token::Eof => {
                    proof {
                        assert(step == ParseR::Done(m_it));
                    }
                    return Ok(this);
                },
                Token::Comment => {
                    proof {
                        assert(step == parse_sp(m_it, s, e0));
                    }
                    continue ;
                },
                t => {
                    proof {
                        assert(step == ParseR::TokE(tokm, Seq::<char>::empty()));
                        reveal_strlit("");
                        assert(""@ =~= Seq::<char>::empty());
                    }
                    return Err(ParseError::Token(UnexpectedTokenError {
                        actual: t,
                        expected: "",
                    }));
                },
            };
            this.bytecodes.push(code);
            proof {
                assert(this.model().codes =~= m_it.codes.push(code));
                assert(this.model() =~= (ProtoModel {
                    consts: this.model().consts,
                    codes: m_it.codes.push(code),
                    locals: this.model().locals,
                }));
                assert(step == parse_sp(this.model(), s, this.lexer.at()));
            }
        }
    }
}

} // verus!
