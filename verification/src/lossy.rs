//! An immutable byte-string value with a small-string representation.
//!
//! Byte sequences of at most [`INLINE_CAP`] bytes are stored inline without
//! allocating; longer ones live in a reference-counted heap buffer, so that
//! cloning a value never copies the bytes. The buffer is never mutated after
//! construction, which is what makes the shared ownership safe.

use vstd::prelude::*;

verus! {

use std::rc::Rc;
use vstd::slice::slice_subrange;

/// The number of bytes a `LossyStr` stores inline without allocating.
pub const INLINE_CAP: usize = 23;

#[derive(Debug)]
enum Repr {
    Inline { len: u8, buf: [u8; 23] },
    Heap(Rc<Vec<u8>>),
}

/// An immutable byte sequence, not necessarily valid text; it is rendered
/// lossily when displayed.
#[derive(Debug)]
pub struct LossyStr(Repr);

impl View for LossyStr {
    type V = Seq<u8>;

    closed spec fn view(&self) -> Seq<u8> {
        match self.0 {
            Repr::Inline { len, buf } => buf@.take(len as int),
            Repr::Heap(v) => v@,
        }
    }
}

/// What `String::from_utf8_lossy` yields on the given bytes: a pure function
/// of the byte sequence alone.
pub uninterp spec fn lossy_text_of(bytes: Seq<u8>) -> Seq<char>;

/// Relies on `String::from_utf8_lossy`: the result depends on the bytes alone,
/// and ASCII bytes decode to themselves.
#[verifier::external_body]
pub fn lossy_string(b: &[u8]) -> (r: String)
    ensures
        r@ == lossy_text_of(b@),
        (forall|i: int| 0 <= i < b@.len() ==> b@[i] < 128) ==> r@ == Seq::new(
            b@.len(),
            |i: int| b@[i] as char,
        ),
{
    String::from_utf8_lossy(b).into_owned()
}

/// Relies on `Rc::clone`: the clone is a handle to the same allocation.
#[verifier::external_body]
fn rc_clone(v: &Rc<Vec<u8>>) -> (r: Rc<Vec<u8>>)
    ensures
        r == *v,
{
    Rc::clone(v)
}

impl LossyStr {
    /// The representation is canonical: short sequences are always inline,
    /// long ones always on the heap.
    pub closed spec fn wf(&self) -> bool {
        match self.0 {
            Repr::Inline { len, buf } => len as int <= INLINE_CAP as int,
            Repr::Heap(v) => v@.len() > INLINE_CAP as int,
        }
    }

    /// Wraps the given bytes, storing them inline when they fit.
    pub fn from_bytes(v: Vec<u8>) -> (r: LossyStr)
        ensures
            r@ == v@,
            r.wf(),
    {
        if v.len() <= INLINE_CAP {
            let mut buf = [0u8; 23];
            let mut i: usize = 0;
            while i < v.len()
                invariant
                    i <= v@.len() <= 23,
                    forall|k: int| 0 <= k < i ==> buf@[k] == v@[k],
                decreases v@.len() - i,
            {
                buf[i] = v[i];
                i += 1;
            }
            let r = LossyStr(Repr::Inline { len: v.len() as u8, buf });
            proof {
                assert(r@ =~= v@);
            }
            r
        } else {
            LossyStr(Repr::Heap(Rc::new(v)))
        }
    }

    /// Renders the bytes as text, lossily where they are not valid UTF-8.
    pub fn to_str(&self) -> (r: String)
        requires
            self.wf(),
        ensures
            r@ == lossy_text_of(self@),
    {
        lossy_string(self.as_bytes())
    }

    /// The raw decoded bytes.
    pub fn as_bytes(&self) -> (r: &[u8])
        requires
            self.wf(),
        ensures
            r@ == self@,
    {
        match &self.0 {
            Repr::Inline { len, buf } => {
                let s = buf.as_slice();
                let r = slice_subrange(s, 0, *len as usize);
                proof {
                    assert(r@ =~= self@);
                }
                r
            },
            Repr::Heap(v) => {
                let inner: &Vec<u8> = &**v;
                inner.as_slice()
            },
        }
    }
}

impl Clone for LossyStr {
    /// The clone shares the heap buffer instead of copying it.
    fn clone(&self) -> (r: Self)
        ensures
            r@ == self@,
            self.wf() ==> r.wf(),
    {
        match &self.0 {
            Repr::Inline { len, buf } => LossyStr(Repr::Inline { len: *len, buf: *buf }),
            Repr::Heap(v) => LossyStr(Repr::Heap(rc_clone(v))),
        }
    }
}

} // verus!
