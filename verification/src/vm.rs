//! The virtual machine: executes a compiled chunk's instructions strictly in
//! order against a register stack and a global table pre-seeded with the
//! host builtins.
//!
//! `step_sp` is the mathematical meaning of one instruction and `run_sp` of
//! a whole instruction sequence; the executable interpreter is proved to
//! agree with them exactly. `Bad` marks a chunk that breaks the VM's
//! register-contiguity or constant-pool invariants; `program_safe` is a
//! static check that rules it out before execution.

use std::io::Write;

use vstd::prelude::*;

verus! {

use vstd::string::{StrSliceExecFns, StringExecFns, StringSliceAdditionalSpecFns};
use crate::bytecode::ByteCode;
use crate::lossy::{lossy_string, lossy_text_of};
use crate::parse::ParseProto;
use crate::value::{LuaFunc, Value, ValueModel};

// ---------------------------------------------------------------------------
// Rendering values as text
// ---------------------------------------------------------------------------

/// The decimal digit character for one digit value.
pub open spec fn digit_char(d: int) -> char {
    if d == 0 { '0' }
    else if d == 1 { '1' }
    else if d == 2 { '2' }
    else if d == 3 { '3' }
    else if d == 4 { '4' }
    else if d == 5 { '5' }
    else if d == 6 { '6' }
    else if d == 7 { '7' }
    else if d == 8 { '8' }
    else { '9' }
}

/// The decimal digits of a non-negative integer, most significant first.
pub open spec fn dec_digits(n: int) -> Seq<char>
    decreases n,
{
    if n < 10 {
        seq![digit_char(n)]
    } else {
        dec_digits(n / 10).push(digit_char(n % 10))
    }
}

/// The decimal rendering of an integer, with a leading minus sign when
/// negative.
pub open spec fn int_text(i: int) -> Seq<char> {
    if i < 0 {
        seq!['-'] + dec_digits(-i)
    } else {
        dec_digits(i)
    }
}

/// The fixed per-variant textual form of a value, as the `print` builtin
/// shows it. A float literal is echoed as spelled; string bytes are decoded
/// lossily.
pub open spec fn render_sp(v: ValueModel) -> Seq<char> {
    match v {
        ValueModel::Nil => "nil"@,
        ValueModel::Bool(b) => if b {
            "true"@
        } else {
            "false"@
        },
        ValueModel::Int(i) => int_text(i),
        ValueModel::Float(text) => lossy_text_of(text),
        ValueModel::Str(bytes) => lossy_text_of(bytes),
        ValueModel::Ident(n) => lossy_text_of(n),
        ValueModel::Func(_) => "function: print"@,
    }
}

fn digit_str(d: u64) -> (r: &'static str)
    requires
        d < 10,
    ensures
        r@ == seq![digit_char(d as int)],
{
    let r: &'static str = if d == 0 { "0" }
    else if d == 1 { "1" }
    else if d == 2 { "2" }
    else if d == 3 { "3" }
    else if d == 4 { "4" }
    else if d == 5 { "5" }
    else if d == 6 { "6" }
    else if d == 7 { "7" }
    else if d == 8 { "8" }
    else { "9" };
    proof {
        reveal_strlit("0");
        reveal_strlit("1");
        reveal_strlit("2");
        reveal_strlit("3");
        reveal_strlit("4");
        reveal_strlit("5");
        reveal_strlit("6");
        reveal_strlit("7");
        reveal_strlit("8");
        reveal_strlit("9");
        assert(r@ =~= seq![digit_char(d as int)]);
    }
    r
}

fn push_digits(n: u64, out: &mut String)
    ensures
        final(out)@ == old(out)@ + dec_digits(n as int),
    decreases n,
{
    let ghost before = out@;
    if n >= 10 {
        push_digits(n / 10, out);
    }
    out.append(digit_str(n % 10));
    proof {
        if n >= 10 {
            assert(out@ =~= before + dec_digits(n as int));
        } else {
            assert(out@ =~= before + dec_digits(n as int));
        }
    }
}

/// Renders an integer in decimal.
pub(crate) fn int_to_string(i: i64) -> (r: String)
    ensures
        r@ == int_text(i as int),
{
    let mut out = String::new();
    if i < 0 {
        out.append("-");
        proof {
            reveal_strlit("-");
        }
        let m: u64 = if i == i64::MIN {
            9223372036854775808u64
        } else {
            (-i) as u64
        };
        push_digits(m, &mut out);
        proof {
            assert("-"@ =~= seq!['-']);
            assert(out@ =~= int_text(i as int));
        }
    } else {
        push_digits(i as u64, &mut out);
        proof {
            assert(out@ =~= int_text(i as int));
        }
    }
    out
}

pub(crate) fn str_to_string(s: &str) -> (r: String)
    ensures
        r@ == s@,
{
    let mut out = String::new();
    out.append(s);
    proof {
        assert(out@ =~= s@);
    }
    out
}

/// Renders a value in its fixed textual form.
pub fn render_value(v: &Value) -> (r: String)
    requires
        v.wf(),
    ensures
        r@ == render_sp(v@),
{
    match v {
        Value::Nil => str_to_string("nil"),
        Value::Boolean(b) => if *b {
            str_to_string("true")
        } else {
            str_to_string("false")
        },
        Value::Integer(i) => int_to_string(*i),
        Value::Float(text) => lossy_string(text.as_slice()),
        Value::String(s) => s.to_str(),
        Value::Identifier(n) => lossy_string(n.as_slice()),
        Value::Function(_) => str_to_string("function: print"),
    }
}

// ---------------------------------------------------------------------------
// The machine's mathematical model
// ---------------------------------------------------------------------------

/// The VM state: the global table, the register stack, the base register of
/// the call being dispatched, and the transcript of lines printed so far.
#[verifier::ext_equal]
pub struct VmModel {
    pub globals: Map<Seq<u8>, ValueModel>,
    pub stack: Seq<ValueModel>,
    pub func_index: int,
    pub output: Seq<Seq<char>>,
}

/// Result of one instruction: the next state, a fatal runtime error carrying
/// the non-callable value, or an invariant violation (`Bad`).
pub enum StepR {
    Next(VmModel),
    Halt(VmModel, ValueModel),
    Bad,
}

/// Result of running a whole instruction sequence.
pub enum RunR {
    Done(VmModel),
    Fail(VmModel, ValueModel),
    Bad,
}

/// A missing global reads as `Nil`, not as an error.
pub open spec fn global_get(g: Map<Seq<u8>, ValueModel>, k: Seq<u8>) -> ValueModel {
    if g.contains_key(k) {
        g[k]
    } else {
        ValueModel::Nil
    }
}

/// Writing a register: in place below the stack top, growing the stack by
/// exactly one at the top, and an invariant violation past it.
pub open spec fn set_stack_sp(m: VmModel, dst: u8, v: ValueModel) -> StepR {
    if (dst as int) < m.stack.len() {
        StepR::Next(VmModel { stack: m.stack.update(dst as int, v), ..m })
    } else if dst as int == m.stack.len() {
        StepR::Next(VmModel { stack: m.stack.push(v), ..m })
    } else {
        StepR::Bad
    }
}

/// The meaning of one instruction against constants `cs` and state `m`.
pub open spec fn step_sp(cs: Seq<ValueModel>, m: VmModel, c: ByteCode) -> StepR {
    match c {
        ByteCode::GetGlobal(dst, ki) => if (ki as int) < cs.len() && cs[ki as int] is Ident {
            set_stack_sp(m, dst, global_get(m.globals, cs[ki as int]->Ident_0))
        } else {
            StepR::Bad
        },
        ByteCode::Move(dst, src) => if (src as int) < m.stack.len() {
            set_stack_sp(m, dst, m.stack[src as int])
        } else {
            StepR::Bad
        },
        ByteCode::LoadConst(dst, ki) => if (ki as int) < cs.len() {
            set_stack_sp(m, dst, cs[ki as int])
        } else {
            StepR::Bad
        },
        ByteCode::LoadNil(dst) => set_stack_sp(m, dst, ValueModel::Nil),
        ByteCode::LoadBool(dst, b) => set_stack_sp(m, dst, ValueModel::Bool(b)),
        ByteCode::LoadInt(dst, i) => set_stack_sp(m, dst, ValueModel::Int(i as int)),
        ByteCode::Call(f, _) => if (f as int) < m.stack.len() {
            let m1 = VmModel { func_index: f as int, ..m };
            match m.stack[f as int] {
                ValueModel::Func(func) => if (f as int) + 1 < m.stack.len() {
                    match func {
                        LuaFunc::Print => StepR::Next(
                            VmModel {
                                output: m1.output.push(render_sp(m.stack[f as int + 1])),
                                ..m1
                            },
                        ),
                    }
                } else {
                    StepR::Bad
                },
                v => StepR::Halt(m1, v),
            }
        } else {
            StepR::Bad
        },
        ByteCode::SetGlobalConst(gi, ki) => if (gi as int) < cs.len() && cs[gi as int] is Ident && (
        ki as int) < cs.len() {
            StepR::Next(
                VmModel { globals: m.globals.insert(cs[gi as int]->Ident_0, cs[ki as int]), ..m },
            )
        } else {
            StepR::Bad
        },
        ByteCode::SetGlobalLocal(gi, src) => if (gi as int) < cs.len() && cs[gi as int] is Ident
            && (src as int) < m.stack.len() {
            StepR::Next(
                VmModel {
                    globals: m.globals.insert(cs[gi as int]->Ident_0, m.stack[src as int]),
                    ..m
                },
            )
        } else {
            StepR::Bad
        },
        ByteCode::SetGlobalGlobal(gi, ki) => if (gi as int) < cs.len() && cs[gi as int] is Ident
            && (ki as int) < cs.len() && cs[ki as int] is Ident {
            StepR::Next(
                VmModel {
                    globals: m.globals.insert(
                        cs[gi as int]->Ident_0,
                        global_get(m.globals, cs[ki as int]->Ident_0),
                    ),
                    ..m
                },
            )
        } else {
            StepR::Bad
        },
    }
}

/// Running a sequence of instructions strictly in order: there are no jumps
/// or branches, so control flow is always "next instruction" until the
/// sequence ends or a runtime error halts it.
pub open spec fn run_sp(cs: Seq<ValueModel>, m: VmModel, codes: Seq<ByteCode>) -> RunR
    decreases codes.len(),
{
    if codes.len() == 0 {
        RunR::Done(m)
    } else {
        match step_sp(cs, m, codes[0]) {
            StepR::Next(m2) => run_sp(cs, m2, codes.drop_first()),
            StepR::Halt(m2, v) => RunR::Fail(m2, v),
            StepR::Bad => RunR::Bad,
        }
    }
}

// ---------------------------------------------------------------------------
// Static safety of a chunk
// ---------------------------------------------------------------------------

/// Whether one instruction respects the pool and register invariants when
/// the stack holds `sl` values.
pub open spec fn code_safe(cs: Seq<ValueModel>, c: ByteCode, sl: int) -> bool {
    match c {
        ByteCode::GetGlobal(dst, ki) => (ki as int) < cs.len() && cs[ki as int] is Ident && (
        dst as int) <= sl,
        ByteCode::Move(dst, src) => (src as int) < sl && (dst as int) <= sl,
        ByteCode::LoadConst(dst, ki) => (ki as int) < cs.len() && (dst as int) <= sl,
        ByteCode::LoadNil(dst) => (dst as int) <= sl,
        ByteCode::LoadBool(dst, _) => (dst as int) <= sl,
        ByteCode::LoadInt(dst, _) => (dst as int) <= sl,
        ByteCode::Call(f, _) => (f as int) + 1 < sl,
        ByteCode::SetGlobalConst(gi, ki) => (gi as int) < cs.len() && cs[gi as int] is Ident && (
        ki as int) < cs.len(),
        ByteCode::SetGlobalLocal(gi, src) => (gi as int) < cs.len() && cs[gi as int] is Ident && (
        src as int) < sl,
        ByteCode::SetGlobalGlobal(gi, ki) => (gi as int) < cs.len() && cs[gi as int] is Ident && (
        ki as int) < cs.len() && cs[ki as int] is Ident,
    }
}

/// The stack length after one instruction: writes to the next free register
/// grow the stack by one, everything else keeps it.
pub open spec fn next_len(c: ByteCode, sl: int) -> int {
    match c {
        ByteCode::GetGlobal(dst, _) => if dst as int == sl { sl + 1 } else { sl },
        ByteCode::Move(dst, _) => if dst as int == sl { sl + 1 } else { sl },
        ByteCode::LoadConst(dst, _) => if dst as int == sl { sl + 1 } else { sl },
        ByteCode::LoadNil(dst) => if dst as int == sl { sl + 1 } else { sl },
        ByteCode::LoadBool(dst, _) => if dst as int == sl { sl + 1 } else { sl },
        ByteCode::LoadInt(dst, _) => if dst as int == sl { sl + 1 } else { sl },
        _ => sl,
    }
}

/// A linear scan simulating stack growth: when it accepts, every
/// instruction's operands stay within bounds during any run.
pub open spec fn scan_safe(cs: Seq<ValueModel>, codes: Seq<ByteCode>, sl: int) -> bool
    decreases codes.len(),
{
    codes.len() == 0 || (code_safe(cs, codes[0], sl) && scan_safe(
        cs,
        codes.drop_first(),
        next_len(codes[0], sl),
    ))
}

/// Whether a compiled chunk can be executed from a fresh state without ever
/// violating the VM's invariants.
pub open spec fn program_safe(cs: Seq<ValueModel>, codes: Seq<ByteCode>) -> bool {
    scan_safe(cs, codes, 0)
}

/// A chunk the scan accepts never reaches `Bad`, from any state whose stack
/// length matches the scan's.
pub proof fn lemma_scan_safe_run(cs: Seq<ValueModel>, m: VmModel, codes: Seq<ByteCode>)
    requires
        scan_safe(cs, codes, m.stack.len() as int),
    ensures
        !(run_sp(cs, m, codes) is Bad),
    decreases codes.len(),
{
    if codes.len() > 0 {
        let c = codes[0];
        match step_sp(cs, m, c) {
            StepR::Next(m2) => {
                assert(m2.stack.len() as int == next_len(c, m.stack.len() as int));
                lemma_scan_safe_run(cs, m2, codes.drop_first());
            },
            StepR::Halt(_, _) => {},
            StepR::Bad => {
                assert(code_safe(cs, c, m.stack.len() as int));
                assert(false);
            },
        }
    }
}

// ---------------------------------------------------------------------------
// The global table as an association list
// ---------------------------------------------------------------------------

/// The mapping an association list denotes; a later entry would win, and the
/// table keeps keys unique.
pub open spec fn assoc_map(es: Seq<(Seq<u8>, ValueModel)>) -> Map<Seq<u8>, ValueModel>
    decreases es.len(),
{
    if es.len() == 0 {
        Map::empty()
    } else {
        assoc_map(es.drop_last()).insert(es.last().0, es.last().1)
    }
}

proof fn lemma_assoc_contains(es: Seq<(Seq<u8>, ValueModel)>, k: Seq<u8>)
    ensures
        assoc_map(es).contains_key(k) <==> exists|i: int| 0 <= i < es.len() && es[i].0 == k,
    decreases es.len(),
{
    if es.len() > 0 {
        lemma_assoc_contains(es.drop_last(), k);
        if es.last().0 == k {
            assert(es[es.len() - 1].0 == k);
        } else if assoc_map(es).contains_key(k) {
            let i = choose|i: int| 0 <= i < es.drop_last().len() && es.drop_last()[i].0 == k;
            assert(es[i].0 == k);
        } else {
            assert(forall|i: int|
                0 <= i < es.drop_last().len() ==> es.drop_last()[i].0 == es[i].0);
        }
    }
}

proof fn lemma_assoc_get(es: Seq<(Seq<u8>, ValueModel)>, i: int)
    requires
        0 <= i < es.len(),
        forall|a: int, b: int| 0 <= a < b < es.len() ==> (#[trigger] es[a]).0 != (#[trigger] es[b]).0,
    ensures
        assoc_map(es).contains_key(es[i].0),
        assoc_map(es)[es[i].0] == es[i].1,
    decreases es.len(),
{
    if i == es.len() - 1 {
    } else {
        lemma_assoc_get(es.drop_last(), i);
        assert(es.drop_last()[i] == es[i]);
        assert(es.last().0 != es[i].0);
    }
}

// ---------------------------------------------------------------------------
// Errors and the executable machine
// ---------------------------------------------------------------------------

/// A fatal runtime error: a call was attempted on a value that is not a
/// host function. Execution aborts immediately; side effects already
/// performed stand.
#[derive(Debug)]
pub struct RuntimeError {
    pub value: Value,
}

impl RuntimeError {
    /// The error's descriptive message, identifying the offending value.
    pub fn text(&self) -> (r: String)
        requires
            self.value.wf(),
        ensures
            r@ == render_sp(self.value@) + " is not a function"@,
    {
        let mut out = render_value(&self.value);
        out.append(" is not a function");
        out
    }
}

/// Relies on `std::io::Write` through `writeln!`: emits one line of text on
/// standard output.
#[verifier::external_body]
fn emit_line(s: &String) {
    let _ = writeln!(std::io::stdout(), "{}", s);
}

/// The VM state: a global table (name to value, last write wins), a value
/// stack indexed by register number, the base register of the call being
/// dispatched, and the transcript of every line printed so far.
pub struct ExeState {
    globals: Vec<(Vec<u8>, Value)>,
    stack: Vec<Value>,
    func_index: usize,
    output: Vec<String>,
}

impl ExeState {
    pub closed spec fn glob_entries(&self) -> Seq<(Seq<u8>, ValueModel)> {
        self.globals@.map_values(|p: (Vec<u8>, Value)| (p.0@, p.1@))
    }

    /// The machine's mathematical model.
    pub closed spec fn model(&self) -> VmModel {
        VmModel {
            globals: assoc_map(self.glob_entries()),
            stack: self.stack@.map_values(|v: Value| v@),
            func_index: self.func_index as int,
            output: self.output@.map_values(|s: String| s@),
        }
    }

    /// Global keys are unique and every held value is well formed.
    pub closed spec fn wf(&self) -> bool {
        (forall|a: int, b: int|
            0 <= a < b < self.globals@.len() ==> (#[trigger] self.globals@[a]).0@ != (
            #[trigger] self.globals@[b]).0@) && (forall|i: int|
            0 <= i < self.globals@.len() ==> (#[trigger] self.globals@[i]).1.wf()) && (forall|
            i: int,
        |
            0 <= i < self.stack@.len() ==> (#[trigger] self.stack@[i]).wf())
    }

    /// The state a fresh machine starts from: the global table holds the
    /// host `print` builtin and nothing else.
    pub open spec fn init_model() -> VmModel {
        VmModel {
            globals: Map::<Seq<u8>, ValueModel>::empty().insert(
                "print".spec_bytes(),
                ValueModel::Func(LuaFunc::Print),
            ),
            stack: Seq::empty(),
            func_index: 0,
            output: Seq::empty(),
        }
    }

    /// A fresh machine, its global table pre-seeded with the host builtins.
    pub fn new() -> (r: ExeState)
        ensures
            r.wf(),
            r.model() == Self::init_model(),
    {
        let mut globals: Vec<(Vec<u8>, Value)> = Vec::new();
        globals.push(("print".as_bytes_vec(), Value::Function(LuaFunc::Print)));
        let r = ExeState { globals, stack: Vec::new(), func_index: 0, output: Vec::new() };
        proof {
            let es = r.glob_entries();
            assert(es =~= seq![("print".spec_bytes(), ValueModel::Func(LuaFunc::Print))]);
            assert(es.drop_last() =~= Seq::<(Seq<u8>, ValueModel)>::empty());
            assert(assoc_map(es.drop_last()) =~= Map::<Seq<u8>, ValueModel>::empty());
            assert(es.last() == ("print".spec_bytes(), ValueModel::Func(LuaFunc::Print)));
            assert(r.model().globals =~= Self::init_model().globals);
            assert(r.model() =~= Self::init_model());
        }
        r
    }

    /// The transcript: each line the `print` builtin has emitted, in order.
    pub fn output(&self) -> (r: &Vec<String>)
        ensures
            r@.map_values(|s: String| s@) == self.model().output,
    {
        &self.output
    }

    /// Reads a global; a missing one reads as `Nil`.
    #[verifier::loop_isolation(false)]
    fn get_global(&self, k: &[u8]) -> (r: Value)
        requires
            self.wf(),
        ensures
            r@ == global_get(self.model().globals, k@),
            r.wf(),
    {
        let ghost es = self.glob_entries();
        let n = self.globals.len();
        let mut i: usize = 0;
        while i < n
            invariant
                i <= n,
                n == self.globals@.len(),
                self.wf(),
                es == self.glob_entries(),
                forall|m: int| 0 <= m < i ==> (#[trigger] es[m]).0 != k@,
            decreases n - i,
        {
            if crate::value::bytes_eq(self.globals[i].0.as_slice(), k) {
                proof {
                    lemma_assoc_get(es, i as int);
                }
                return self.globals[i].1.clone();
            }
            i += 1;
        }
        proof {
            lemma_assoc_contains(es, k@);
        }
        Value::Nil
    }

    /// Upserts a global: last write wins.
    #[verifier::loop_isolation(false)]
    fn set_global(&mut self, name: Vec<u8>, v: Value)
        requires
            old(self).wf(),
            v.wf(),
        ensures
            final(self).wf(),
            final(self).model() == (VmModel {
                globals: old(self).model().globals.insert(name@, v@),
                ..old(self).model()
            }),
    {
        let ghost es = self.glob_entries();
        let n = self.globals.len();
        let mut i: usize = 0;
        while i < n
            invariant
                i <= n,
                n == self.globals@.len(),
                self.wf(),
                v.wf(),
                self.globals@ == old(self).globals@,
                self.stack@ == old(self).stack@,
                self.output@ == old(self).output@,
                self.func_index == old(self).func_index,
                es == self.glob_entries(),
                forall|m: int| 0 <= m < i ==> (#[trigger] es[m]).0 != name@,
            decreases n - i,
        {
            if crate::value::bytes_eq(self.globals[i].0.as_slice(), name.as_slice()) {
                self.globals[i] = (name, v);
                proof {
                    assert(name@ == es[i as int].0);
                    assert(self.glob_entries() =~= es.update(i as int, (es[i as int].0, v@)));
                    assert(forall|m: int|
                        0 <= m < self.globals@.len() ==> (#[trigger] self.globals@[m]).0@
                            == old(self).globals@[m].0@);
                    lemma_assoc_update(es, i as int, v@);
                    assert(self.model() =~= (VmModel {
                        globals: assoc_map(es).insert(es[i as int].0, v@),
                        ..old(self).model()
                    }));
                }
                return ;
            }
            i += 1;
        }
        self.globals.push((name, v));
        proof {
            let es2 = self.glob_entries();
            assert(es2 =~= es.push((name@, v@)));
            assert(es2.drop_last() =~= es);
            assert(es2.last() == (name@, v@));
            assert(assoc_map(es2) =~= assoc_map(es).insert(name@, v@));
            assert forall|a: int, b: int|
                0 <= a < b < self.globals@.len() implies (#[trigger] self.globals@[a]).0@ != (
            #[trigger] self.globals@[b]).0@ by {
                if b < es.len() {
                    assert(old(self).globals@[a] == self.globals@[a]);
                    assert(old(self).globals@[b] == self.globals@[b]);
                } else {
                    assert(es[a].0 != name@);
                    assert(es[a].0 == self.globals@[a].0@);
                    assert(self.globals@[b].0@ == name@);
                }
            };
            assert(self.model() =~= (VmModel {
                globals: assoc_map(es).insert(name@, v@),
                ..old(self).model()
            }));
        }
    }

    /// Writes a register, growing the stack by one when the destination is
    /// the next unused slot.
    fn set_stack(&mut self, dst: u8, value: Value)
        requires
            old(self).wf(),
            value.wf(),
            dst as int <= old(self).model().stack.len(),
        ensures
            final(self).wf(),
            StepR::Next(final(self).model()) == set_stack_sp(old(self).model(), dst, value@),
    {
        if (dst as usize) < self.stack.len() {
            self.stack[dst as usize] = value;
            proof {
                assert(self.stack@.map_values(|v: Value| v@) =~= old(self).model().stack.update(
                    dst as int,
                    value@,
                ));
                assert(self.model() =~= (VmModel {
                    stack: old(self).model().stack.update(dst as int, value@),
                    ..old(self).model()
                }));
            }
        } else {
            self.stack.push(value);
            proof {
                assert(self.stack@.map_values(|v: Value| v@) =~= old(self).model().stack.push(
                    value@,
                ));
                assert(self.model() =~= (VmModel {
                    stack: old(self).model().stack.push(value@),
                    ..old(self).model()
                }));
            }
        }
    }

    /// Executes a compiled chunk: exactly the run `run_sp` describes, ending
    /// in success or in the runtime error carrying the offending value. The
    /// chunk must not violate the VM's invariants (see `program_safe`).
    #[verifier::loop_isolation(false)]
    #[verifier::rlimit(100)]
    pub fn execute(&mut self, proto: ParseProto) -> (r: Result<(), RuntimeError>)
        requires
            old(self).wf(),
            proto.wf(),
            !(run_sp(proto.model().consts, old(self).model(), proto.model().codes) is Bad),
        ensures
            final(self).wf(),
            match r {
                Ok(()) => run_sp(proto.model().consts, old(self).model(), proto.model().codes)
                    == RunR::Done(final(self).model()),
                Err(e) => run_sp(proto.model().consts, old(self).model(), proto.model().codes)
                    == RunR::Fail(final(self).model(), e.value@) && e.value.wf(),
            },
    {
        let ghost cs = proto.model().consts;
        let ghost codes0 = proto.model().codes;
        let ghost m0 = old(self).model();
        let n = proto.bytecodes.len();
        let mut ip: usize = 0;
        proof {
            assert(codes0.skip(0) =~= codes0);
        }
        while ip < n
            invariant
                ip <= n,
                n == proto.bytecodes@.len(),
                self.wf(),
                proto.wf(),
                cs == proto.model().consts,
                codes0 == proto.model().codes,
                run_sp(cs, m0, codes0) == run_sp(cs, self.model(), codes0.skip(ip as int)),
                !(run_sp(cs, self.model(), codes0.skip(ip as int)) is Bad),
            decreases n - ip,
        {
            let ghost m_it = self.model();
            let ghost rem = codes0.skip(ip as int);
            let code = proto.bytecodes[ip];
            proof {
                assert(rem[0] == code);
                assert(rem.drop_first() =~= codes0.skip(ip as int + 1));
                assert(!(step_sp(cs, m_it, code) is Bad));
            }
            match code {
                ByteCode::GetGlobal(dst, ki) => {
                    let key = match proto.constants[ki as usize].as_identifier() {
                        Some(k) => k,
                        None => {
                            proof {
                                assert(false);
                            }
                            return Err(RuntimeError { value: Value::Nil });
                        },
                    };
                    let v = self.get_global(key.as_slice());
                    self.set_stack(dst, v);
                },
                ByteCode::Move(dst, src) => {
                    let v = self.stack[src as usize].clone();
                    self.set_stack(dst, v);
                },
                ByteCode::LoadNil(dst) => {
                    self.set_stack(dst, Value::Nil);
                },
                ByteCode::LoadBool(dst, b) => {
                    self.set_stack(dst, Value::Boolean(b));
                },
                ByteCode::LoadInt(dst, i) => {
                    self.set_stack(dst, Value::Integer(i as i64));
                },
                ByteCode::LoadConst(dst, ki) => {
                    let v = proto.constants[ki as usize].clone();
                    self.set_stack(dst, v);
                },
                ByteCode::Call(f, _) => {
                    self.func_index = f as usize;
                    let ghost m1 = self.model();
                    proof {
                        assert(m1 =~= (VmModel { func_index: f as int, ..m_it }));
                    }
                    let is_func = match &self.stack[f as usize] {
                        Value::Function(_) => true,
                        _ => false,
                    };
                    if !is_func {
                        let offending = self.stack[f as usize].clone();
                        return Err(RuntimeError { value: offending });
                    }
                    // the only host builtin is `print`: it reads its single
                    // argument from the register after the call base and
                    // emits its textual form
                    let line = render_value(&self.stack[f as usize + 1]);
                    emit_line(&line);
                    self.output.push(line);
                    proof {
                        assert(self.model().output =~= m1.output.push(
                            render_sp(m_it.stack[f as int + 1]),
                        ));
                        assert(self.model() =~= (VmModel {
                            output: m1.output.push(render_sp(m_it.stack[f as int + 1])),
                            ..m1
                        }));
                    }
                },
                ByteCode::SetGlobalConst(gi, ki) => {
                    let name = match proto.constants[gi as usize].as_identifier() {
                        Some(k) => k.clone(),
                        None => {
                            proof {
                                assert(false);
                            }
                            return Err(RuntimeError { value: Value::Nil });
                        },
                    };
                    let v = proto.constants[ki as usize].clone();
                    self.set_global(name, v);
                },
                ByteCode::SetGlobalLocal(gi, src) => {
                    let name = match proto.constants[gi as usize].as_identifier() {
                        Some(k) => k.clone(),
                        None => {
                            proof {
                                assert(false);
                            }
                            return Err(RuntimeError { value: Value::Nil });
                        },
                    };
                    let v = self.stack[src as usize].clone();
                    self.set_global(name, v);
                },
                ByteCode::SetGlobalGlobal(gi, ki) => {
                    let name = match proto.constants[gi as usize].as_identifier() {
                        Some(k) => k.clone(),
                        None => {
                            proof {
                                assert(false);
                            }
                            return Err(RuntimeError { value: Value::Nil });
                        },
                    };
                    let rhs_name = match proto.constants[ki as usize].as_identifier() {
                        Some(k) => k,
                        None => {
                            proof {
                                assert(false);
                            }
                            return Err(RuntimeError { value: Value::Nil });
                        },
                    };
                    let rhs = self.get_global(rhs_name.as_slice());
                    self.set_global(name, rhs);
                },
            }
            ip += 1;
        }
        proof {
            assert(codes0.skip(n as int) =~= Seq::<ByteCode>::empty());
        }
        Ok(())
    }
}

/// Replacing the value at an existing key rewrites the mapping exactly as an
/// insert at that key does.
proof fn lemma_assoc_update(es: Seq<(Seq<u8>, ValueModel)>, i: int, v: ValueModel)
    requires
        0 <= i < es.len(),
        forall|a: int, b: int| 0 <= a < b < es.len() ==> (#[trigger] es[a]).0 != (#[trigger] es[b]).0,
    ensures
        assoc_map(es.update(i, (es[i].0, v))) == assoc_map(es).insert(es[i].0, v),
    decreases es.len(),
{
    let es2 = es.update(i, (es[i].0, v));
    if i == es.len() - 1 {
        assert(es2.drop_last() =~= es.drop_last());
        assert(assoc_map(es2) =~= assoc_map(es).insert(es[i].0, v));
    } else {
        assert(es2.drop_last() =~= es.drop_last().update(i, (es[i].0, v)));
        lemma_assoc_update(es.drop_last(), i, v);
        assert(es.last().0 != es[i].0);
        assert(assoc_map(es2) =~= assoc_map(es).insert(es[i].0, v));
    }
}

/// Decides whether a pooled constant is an `Identifier`.
fn const_is_ident(proto: &ParseProto, ki: u8) -> (b: bool)
    requires
        (ki as int) < proto.model().consts.len(),
    ensures
        b == (proto.model().consts[ki as int] is Ident),
{
    proto.constants[ki as usize].as_identifier().is_some()
}

/// Statically checks a compiled chunk against the VM's invariants: `true`
/// exactly when executing it from a fresh state can never write past the
/// stack top, reference the pool out of bounds, or read a name slot that is
/// not an `Identifier`.
#[verifier::loop_isolation(false)]
pub fn check_program(proto: &ParseProto) -> (b: bool)
    ensures
        b == program_safe(proto.model().consts, proto.model().codes),
{
    let ghost cs = proto.model().consts;
    let ghost codes0 = proto.model().codes;
    let n = proto.bytecodes.len();
    let nc = proto.constants.len();
    let mut ip: usize = 0;
    let mut sl: usize = 0;
    proof {
        assert(codes0.skip(0) =~= codes0);
    }
    while ip < n
        invariant
            ip <= n,
            sl <= ip,
            program_safe(cs, codes0) == scan_safe(cs, codes0.skip(ip as int), sl as int),
        decreases n - ip,
    {
        let ghost rem = codes0.skip(ip as int);
        proof {
            assert(rem[0] == codes0[ip as int]);
            assert(rem.drop_first() =~= codes0.skip(ip as int + 1));
        }
        let code = proto.bytecodes[ip];
        let ok = match code {
            ByteCode::GetGlobal(dst, ki) => (ki as usize) < nc && const_is_ident(proto, ki) && (
            dst as usize) <= sl,
            ByteCode::Move(dst, src) => (src as usize) < sl && (dst as usize) <= sl,
            ByteCode::LoadConst(dst, ki) => (ki as usize) < nc && (dst as usize) <= sl,
            ByteCode::LoadNil(dst) => (dst as usize) <= sl,
            ByteCode::LoadBool(dst, _) => (dst as usize) <= sl,
            ByteCode::LoadInt(dst, _) => (dst as usize) <= sl,
            ByteCode::Call(f, _) => (f as usize) + 1 < sl,
            ByteCode::SetGlobalConst(gi, ki) => (gi as usize) < nc && const_is_ident(proto, gi)
                && (ki as usize) < nc,
            ByteCode::SetGlobalLocal(gi, src) => (gi as usize) < nc && const_is_ident(proto, gi)
                && (src as usize) < sl,
            ByteCode::SetGlobalGlobal(gi, ki) => (gi as usize) < nc && const_is_ident(proto, gi)
                && (ki as usize) < nc && const_is_ident(proto, ki),
        };
        if !ok {
            return false;
        }
        sl = match code {
            ByteCode::GetGlobal(dst, _) => if (dst as usize) == sl { sl + 1 } else { sl },
            ByteCode::Move(dst, _) => if (dst as usize) == sl { sl + 1 } else { sl },
            ByteCode::LoadConst(dst, _) => if (dst as usize) == sl { sl + 1 } else { sl },
            ByteCode::LoadNil(dst) => if (dst as usize) == sl { sl + 1 } else { sl },
            ByteCode::LoadBool(dst, _) => if (dst as usize) == sl { sl + 1 } else { sl },
            ByteCode::LoadInt(dst, _) => if (dst as usize) == sl { sl + 1 } else { sl },
            _ => sl,
        };
        ip += 1;
    }
    proof {
        assert(codes0.skip(n as int) =~= Seq::<ByteCode>::empty());
    }
    true
}

} // verus!
