//! The tagged union of runtime values shared by the compiler's constant pool
//! and the virtual machine's stack.

use vstd::prelude::*;

verus! {

use crate::lossy::LossyStr;

/// A host-provided callable the virtual machine can invoke. Host functions
/// compare by identity; the interpreter currently installs a single
/// `print`-like builtin.
#[derive(Clone, Copy, PartialEq, Eq, Structural, Debug)]
pub enum LuaFunc {
    Print,
}

/// The mathematical model of a runtime value. A float is carried as its
/// literal's spelled text; strings and identifiers as raw byte sequences.
pub enum ValueModel {
    Nil,
    Bool(bool),
    Int(int),
    Float(Seq<u8>),
    Str(Seq<u8>),
    Func(LuaFunc),
    Ident(Seq<u8>),
}

/// A runtime value. `Identifier` carries a global variable's name inside the
/// constant pool and never appears on the execution stack. `Float` holds a
/// float literal's spelled text: the language subset gives floats no
/// operations, so the value is only ever stored, compared and echoed.
#[derive(Debug)]
pub enum Value {
    Nil,
    Boolean(bool),
    Integer(i64),
    Float(Vec<u8>),
    String(LossyStr),
    Function(LuaFunc),
    Identifier(Vec<u8>),
}

impl View for Value {
    type V = ValueModel;

    open spec fn view(&self) -> ValueModel {
        match self {
            Value::Nil => ValueModel::Nil,
            Value::Boolean(b) => ValueModel::Bool(*b),
            Value::Integer(i) => ValueModel::Int(*i as int),
            Value::Float(text) => ValueModel::Float(text@),
            Value::String(s) => ValueModel::Str(s@),
            Value::Function(f) => ValueModel::Func(*f),
            Value::Identifier(n) => ValueModel::Ident(n@),
        }
    }
}

impl Value {
    /// Every string payload keeps its canonical representation.
    pub open spec fn wf(&self) -> bool {
        match self {
            Value::String(s) => s.wf(),
            _ => true,
        }
    }

    /// The interned name carried by an `Identifier`, if this is one.
    pub fn as_identifier(&self) -> (r: Option<&Vec<u8>>)
        ensures
            match r {
                Some(n) => self@ matches ValueModel::Ident(m) && m == n@,
                None => !(self@ matches ValueModel::Ident(_)),
            },
    {
        match self {
            Value::Identifier(n) => Some(n),
            _ => None,
        }
    }

    /// Structural equality on the value model: every variant compares by
    /// content, and `Function` by identity of the host callable.
    pub fn equals(&self, other: &Value) -> (r: bool)
        requires
            self.wf(),
            other.wf(),
        ensures
            r == (self@ == other@),
    {
        match (self, other) {
            (Value::Nil, Value::Nil) => true,
            (Value::Boolean(a), Value::Boolean(b)) => a == b,
            (Value::Integer(a), Value::Integer(b)) => a == b,
            (Value::Float(a), Value::Float(b)) => bytes_eq(a.as_slice(), b.as_slice()),
            (Value::String(a), Value::String(b)) => bytes_eq(a.as_bytes(), b.as_bytes()),
            (Value::Function(a), Value::Function(b)) => match (a, b) {
                (LuaFunc::Print, LuaFunc::Print) => true,
            },
            (Value::Identifier(a), Value::Identifier(b)) => bytes_eq(a.as_slice(), b.as_slice()),
            _ => false,
        }
    }
}

/// Byte-sequence equality, element by element.
pub fn bytes_eq(a: &[u8], b: &[u8]) -> (r: bool)
    ensures
        r == (a@ == b@),
{
    if a.len() != b.len() {
        proof {
            assert(a@ != b@);
        }
        return false;
    }
    let mut i: usize = 0;
    while i < a.len()
        invariant
            i <= a@.len(),
            a@.len() == b@.len(),
            forall|k: int| 0 <= k < i ==> a@[k] == b@[k],
        decreases a@.len() - i,
    {
        if *vstd::slice::slice_index_get(a, i) != *vstd::slice::slice_index_get(b, i) {
            return false;
        }
        i += 1;
    }
    proof {
        assert(a@ =~= b@);
    }
    true
}

impl Clone for Value {
    /// Cloning preserves the modelled value; string payloads share their
    /// buffer rather than copying it.
    fn clone(&self) -> (r: Self)
        ensures
            r@ == self@,
            self.wf() ==> r.wf(),
    {
        match self {
            Value::Nil => Value::Nil,
            Value::Boolean(b) => Value::Boolean(*b),
            Value::Integer(i) => Value::Integer(*i),
            Value::Float(text) => Value::Float(text.clone()),
            Value::String(s) => Value::String(s.clone()),
            Value::Function(f) => Value::Function(*f),
            Value::Identifier(n) => Value::Identifier(n.clone()),
        }
    }
}

impl Default for Value {
    /// The default value is `Nil`.
    fn default() -> (r: Self)
        ensures
            r@ == ValueModel::Nil,
    {
        Value::Nil
    }
}

} // verus!
