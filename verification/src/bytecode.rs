//! The instruction set of the compiled chunk.

use vstd::prelude::*;

verus! {

use vstd::string::StringExecFns;
use crate::vm::{int_text, int_to_string};

/// One bytecode instruction. Operands name destination/source registers or
/// constant-pool indices.
#[derive(Clone, Copy, PartialEq, Eq, Structural, Debug)]
pub enum ByteCode {
    /// `R[A] := G[K[Bx]]`
    GetGlobal(u8, u8),
    /// `R[A] := R[B]`
    Move(u8, u8),
    /// `R[A] := K[Bx]`
    LoadConst(u8, u8),
    /// `R[A] := nil`
    LoadNil(u8),
    /// `R[A] := B`
    LoadBool(u8, bool),
    /// `R[A] := B`
    LoadInt(u8, i16),
    /// `R[A](R[A+1])`
    Call(u8, u8),
    /// `G[K[Ax]] := K[Bx]`
    SetGlobalConst(u8, u8),
    /// `G[K[Ax]] := R[B]`
    SetGlobalLocal(u8, u8),
    /// `G[K[Ax]] := G[K[Bx]]`
    SetGlobalGlobal(u8, u8),
}

/// A view over a compiled instruction sequence, for diagnostic rendering.
pub struct ByteCodeStack<'a>(pub &'a [ByteCode]);

/// The diagnostic line for one instruction.
pub open spec fn code_text(c: ByteCode) -> Seq<char> {
    match c {
        ByteCode::GetGlobal(a, b) => "    GetGlobal("@ + int_text(a as int) + ", "@ + int_text(
            b as int,
        ) + ")\n"@,
        ByteCode::Move(a, b) => "    Move("@ + int_text(a as int) + ", "@ + int_text(b as int)
            + ")\n"@,
        ByteCode::LoadConst(a, b) => "    LoadConst("@ + int_text(a as int) + ", "@ + int_text(
            b as int,
        ) + ")\n"@,
        ByteCode::LoadNil(a) => "    LoadNil("@ + int_text(a as int) + ")\n"@,
        ByteCode::LoadBool(a, b) => "    LoadBool("@ + int_text(a as int) + ", "@ + (if b {
            "true"@
        } else {
            "false"@
        }) + ")\n"@,
        ByteCode::LoadInt(a, b) => "    LoadInt("@ + int_text(a as int) + ", "@ + int_text(
            b as int,
        ) + ")\n"@,
        ByteCode::Call(a, b) => "    Call("@ + int_text(a as int) + ", "@ + int_text(b as int)
            + ")\n"@,
        ByteCode::SetGlobalConst(a, b) => "    SetGlobalConst("@ + int_text(a as int) + ", "@
            + int_text(b as int) + ")\n"@,
        ByteCode::SetGlobalLocal(a, b) => "    SetGlobalLocal("@ + int_text(a as int) + ", "@
            + int_text(b as int) + ")\n"@,
        ByteCode::SetGlobalGlobal(a, b) => "    SetGlobalGlobal("@ + int_text(a as int) + ", "@
            + int_text(b as int) + ")\n"@,
    }
}

/// The diagnostic text of a whole instruction sequence, one line each.
pub open spec fn stack_text(codes: Seq<ByteCode>) -> Seq<char>
    decreases codes.len(),
{
    if codes.len() == 0 {
        Seq::empty()
    } else {
        code_text(codes[0]) + stack_text(codes.drop_first())
    }
}

fn code_string(c: &ByteCode) -> (r: String)
    ensures
        r@ == code_text(*c),
{
    let mut out = String::new();
    match c {
        ByteCode::GetGlobal(a, b) => {
            out.append("    GetGlobal(");
            out.append(int_to_string(*a as i64).as_str());
            out.append(", ");
            out.append(int_to_string(*b as i64).as_str());
        },
        ByteCode::Move(a, b) => {
            out.append("    Move(");
            out.append(int_to_string(*a as i64).as_str());
            out.append(", ");
            out.append(int_to_string(*b as i64).as_str());
        },
        ByteCode::LoadConst(a, b) => {
            out.append("    LoadConst(");
            out.append(int_to_string(*a as i64).as_str());
            out.append(", ");
            out.append(int_to_string(*b as i64).as_str());
        },
        ByteCode::LoadNil(a) => {
            out.append("    LoadNil(");
            out.append(int_to_string(*a as i64).as_str());
        },
        ByteCode::LoadBool(a, b) => {
            out.append("    LoadBool(");
            out.append(int_to_string(*a as i64).as_str());
            out.append(", ");
            out.append(if *b { "true" } else { "false" });
        },
        ByteCode::LoadInt(a, b) => {
            out.append("    LoadInt(");
            out.append(int_to_string(*a as i64).as_str());
            out.append(", ");
            out.append(int_to_string(*b as i64).as_str());
        },
        ByteCode::Call(a, b) => {
            out.append("    Call(");
            out.append(int_to_string(*a as i64).as_str());
            out.append(", ");
            out.append(int_to_string(*b as i64).as_str());
        },
        ByteCode::SetGlobalConst(a, b) => {
            out.append("    SetGlobalConst(");
            out.append(int_to_string(*a as i64).as_str());
            out.append(", ");
            out.append(int_to_string(*b as i64).as_str());
        },
        ByteCode::SetGlobalLocal(a, b) => {
            out.append("    SetGlobalLocal(");
            out.append(int_to_string(*a as i64).as_str());
            out.append(", ");
            out.append(int_to_string(*b as i64).as_str());
        },
        ByteCode::SetGlobalGlobal(a, b) => {
            out.append("    SetGlobalGlobal(");
            out.append(int_to_string(*a as i64).as_str());
            out.append(", ");
            out.append(int_to_string(*b as i64).as_str());
        },
    }
    out.append(")\n");
    proof {
        assert(out@ =~= code_text(*c));
    }
    out
}

impl<'a> ByteCodeStack<'a> {
    /// Renders the instruction sequence for diagnostics, one indented line
    /// per instruction.
    #[verifier::loop_isolation(false)]
    pub fn to_text(&self) -> (r: String)
        ensures
            r@ == stack_text(self.0@),
    {
        let mut out = String::new();
        let n = self.0.len();
        let mut i: usize = 0;
        proof {
            assert(self.0@.skip(0) =~= self.0@);
        }
        while i < n
            invariant
                i <= n,
                n == self.0@.len(),
                stack_text(self.0@) == out@ + stack_text(self.0@.skip(i as int)),
            decreases n - i,
        {
            let ghost rem = self.0@.skip(i as int);
            let line = code_string(vstd::slice::slice_index_get(self.0, i));
            out.append(line.as_str());
            proof {
                assert(rem[0] == self.0@[i as int]);
                assert(rem.drop_first() =~= self.0@.skip(i as int + 1));
                assert(out@ =~= (out@.subrange(0, out@.len() - line@.len() as int)) + line@);
                assert(stack_text(self.0@) == out@ + stack_text(self.0@.skip(i as int + 1)));
            }
            i += 1;
        }
        proof {
            assert(self.0@.skip(n as int) =~= Seq::<ByteCode>::empty());
            assert(out@ =~= stack_text(self.0@));
        }
        out
    }
}

} // verus!
