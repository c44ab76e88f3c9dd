//! The string-literal sub-lexer: a fragment-based decoder for quoted string
//! literals.
//!
//! A literal is delimited by double quotes and decoded by repeatedly
//! consuming one of: a maximal run of bytes containing neither backslash nor
//! quote (copied verbatim); a backslash escape producing exactly one decoded
//! byte (`n` `r` `t` `a` `b` `v` `f` `\` `'` `"`, a decimal byte escape of
//! one to three digits, or `x` followed by one or two hex digits); or a
//! backslash followed by whitespace, which is discarded. The result is a raw
//! byte sequence, not necessarily valid text.

use vstd::prelude::*;

verus! {

use vstd::slice::slice_subrange;
use crate::lex::{
    digits_end, dec_val, is_digit, is_ws, lemma_dec_val_nonneg, lemma_digits_end, lemma_ws_end,
    ws_end, Token, TokenModel,
};

/// An ASCII hexadecimal digit.
pub open spec fn is_hex(b: u8) -> bool {
    is_digit(b) || (97 <= b <= 102) || (65 <= b <= 70)
}

/// The value of one hexadecimal digit byte.
pub open spec fn hex_digit_val(b: u8) -> int {
    if is_digit(b) {
        b - 48
    } else if 97 <= b <= 102 {
        b - 87
    } else {
        b - 55
    }
}

/// End of the maximal run of plain literal bytes (neither `"` nor `\`)
/// starting at `i`.
pub open spec fn chunk_end(s: Seq<u8>, i: int) -> int
    decreases s.len() - i,
{
    if 0 <= i < s.len() && s[i] != 34 && s[i] != 92 {
        chunk_end(s, i + 1)
    } else {
        i
    }
}

pub proof fn lemma_chunk_end(s: Seq<u8>, i: int)
    requires
        0 <= i <= s.len(),
    ensures
        i <= chunk_end(s, i) <= s.len(),
    decreases s.len() - i,
{
    if i < s.len() && s[i] != 34 && s[i] != 92 {
        lemma_chunk_end(s, i + 1);
    }
}

/// Decodes one backslash escape whose body starts at `i` (the byte after the
/// backslash): the bytes it contributes and the position after it, or `None`
/// when the escape is not recognized.
pub open spec fn escape_spec(s: Seq<u8>, i: int) -> Option<(Seq<u8>, int)> {
    if i < 0 || i >= s.len() {
        None
    } else if s[i] == 110 {  // n
        Some((seq![10u8], i + 1))
    } else if s[i] == 114 {  // r
        Some((seq![13u8], i + 1))
    } else if s[i] == 116 {  // t
        Some((seq![9u8], i + 1))
    } else if s[i] == 97 {  // a
        Some((seq![7u8], i + 1))
    } else if s[i] == 98 {  // b
        Some((seq![8u8], i + 1))
    } else if s[i] == 118 {  // v
        Some((seq![11u8], i + 1))
    } else if s[i] == 102 {  // f
        Some((seq![12u8], i + 1))
    } else if is_digit(s[i]) {
        // a decimal byte escape: up to three digits, value at most 255
        let j = if digits_end(s, i) < i + 3 {
            digits_end(s, i)
        } else {
            i + 3
        };
        let v = dec_val(s, i, j);
        if v <= 255 {
            Some((seq![v as u8], j))
        } else {
            None
        }
    } else if s[i] == 120 {  // x, followed by one or two hex digits
        if i + 1 < s.len() && is_hex(s[i + 1]) {
            if i + 2 < s.len() && is_hex(s[i + 2]) {
                Some((seq![(hex_digit_val(s[i + 1]) * 16 + hex_digit_val(s[i + 2])) as u8], i + 3))
            } else {
                Some((seq![hex_digit_val(s[i + 1]) as u8], i + 2))
            }
        } else {
            None
        }
    } else if s[i] == 92 {  // backslash
        Some((seq![92u8], i + 1))
    } else if s[i] == 39 {  // single quote
        Some((seq![39u8], i + 1))
    } else if s[i] == 34 {  // double quote
        Some((seq![34u8], i + 1))
    } else if is_ws(s[i]) {
        // escaped whitespace: the whole run is discarded
        Some((Seq::empty(), ws_end(s, i)))
    } else {
        None
    }
}

pub proof fn lemma_escape_bounds(s: Seq<u8>, i: int)
    requires
        0 <= i <= s.len(),
        escape_spec(s, i) is Some,
    ensures
        i < escape_spec(s, i)->Some_0.1 <= s.len(),
{
    if i < s.len() {
        if is_digit(s[i]) {
            lemma_digits_end(s, i);
        } else if is_ws(s[i]) {
            lemma_ws_end(s, i);
        }
    }
}

/// Decodes the body of a string literal from `i` (the position after the
/// opening quote) up to and including the closing quote: the decoded bytes
/// and the position after the closing quote, or `None` when the literal is
/// unterminated or contains an unrecognized escape.
pub open spec fn str_body(s: Seq<u8>, i: int) -> Option<(Seq<u8>, int)>
    decreases s.len() - i,
    when 0 <= i
    via str_body_decreases
{
    if i >= s.len() {
        None
    } else if s[i] == 34 {
        Some((Seq::empty(), i + 1))
    } else if s[i] == 92 {
        match escape_spec(s, i + 1) {
            Some((bytes, e)) => match str_body(s, e) {
                Some((rest, end)) => Some((bytes + rest, end)),
                None => None,
            },
            None => None,
        }
    } else {
        let j = chunk_end(s, i);
        match str_body(s, j) {
            Some((rest, end)) => Some((s.subrange(i, j) + rest, end)),
            None => None,
        }
    }
}

#[via_fn]
proof fn str_body_decreases(s: Seq<u8>, i: int) {
    if 0 <= i < s.len() {
        if s[i] == 92 {
            if escape_spec(s, i + 1) is Some {
                lemma_escape_bounds(s, i + 1);
            }
        } else if s[i] != 34 {
            lemma_chunk_end(s, i + 1);
            assert(chunk_end(s, i) == chunk_end(s, i + 1));
        }
    }
}

/// A decoded literal ends strictly after it starts and within the input.
pub proof fn lemma_str_body_bounds(s: Seq<u8>, i: int)
    requires
        0 <= i <= s.len(),
        str_body(s, i) is Some,
    ensures
        i < str_body(s, i)->Some_0.1 <= s.len(),
    decreases s.len() - i,
{
    if i < s.len() {
        if s[i] == 34 {
        } else if s[i] == 92 {
            if escape_spec(s, i + 1) is Some {
                lemma_escape_bounds(s, i + 1);
                let e = escape_spec(s, i + 1)->Some_0.1;
                lemma_str_body_bounds(s, e);
            }
        } else {
            lemma_chunk_end(s, i + 1);
            assert(chunk_end(s, i) == chunk_end(s, i + 1));
            lemma_str_body_bounds(s, chunk_end(s, i));
        }
    }
}

/// Decodes one backslash escape starting at `i` (the byte after the
/// backslash). `Some((Some(byte), e))` contributes one byte, `Some((None,
/// e))` none (escaped whitespace).
fn lex_escape(b: &Vec<u8>, i: usize) -> (r: Option<(Option<u8>, usize)>)
    requires
        i <= b@.len(),
    ensures
        match r {
            Some((prod, e)) => {
                let bytes = match prod {
                    Some(x) => seq![x],
                    None => Seq::<u8>::empty(),
                };
                escape_spec(b@, i as int) == Some((bytes, e as int)) && i <= e <= b@.len()
            },
            None => escape_spec(b@, i as int) is None,
        },
{
    let ghost s = b@;
    if i >= b.len() {
        return None;
    }
    let c = b[i];
    if c == 110 { return Some((Some(10), i + 1)); }
    if c == 114 { return Some((Some(13), i + 1)); }
    if c == 116 { return Some((Some(9), i + 1)); }
    if c == 97 { return Some((Some(7), i + 1)); }
    if c == 98 { return Some((Some(8), i + 1)); }
    if c == 118 { return Some((Some(11), i + 1)); }
    if c == 102 { return Some((Some(12), i + 1)); }
    if 48 <= c && c <= 57 {
        let de = crate::lex::scan_digits(b, i);
        proof {
            lemma_digits_end(s, i as int);
        }
        let j = if de - i < 3 {
            de
        } else {
            i + 3
        };
        // at most three digits: the value is at most 999
        let mut v: u32 = 0;
        let mut k = i;
        while k < j
            invariant
                i <= k <= j,
                j <= b@.len(),
                j - i <= 3,
                s == b@,
                forall|m: int| i <= m < j ==> is_digit(s[m]),
                v as int == dec_val(s, i as int, k as int),
                k - i == 0 ==> v == 0,
                k - i == 1 ==> v <= 9,
                k - i == 2 ==> v <= 99,
                k - i == 3 ==> v <= 999,
        decreases j - k,
        {
            proof {
                lemma_dec_val_nonneg(s, i as int, k as int);
            }
            v = v * 10 + ((b[k] - 48) as u32);
            k += 1;
        }
        if v <= 255 {
            return Some((Some(v as u8), j));
        } else {
            return None;
        }
    }
    if c == 120 {
        if i + 1 < b.len() && is_hex_x(b[i + 1]) {
            let h1 = hex_val_x(b[i + 1]);
            if i + 2 < b.len() && is_hex_x(b[i + 2]) {
                let h2 = hex_val_x(b[i + 2]);
                return Some((Some(h1 * 16 + h2), i + 3));
            } else {
                return Some((Some(h1), i + 2));
            }
        } else {
            return None;
        }
    }
    if c == 92 { return Some((Some(92), i + 1)); }
    if c == 39 { return Some((Some(39), i + 1)); }
    if c == 34 { return Some((Some(34), i + 1)); }
    if c == 32 || c == 9 || c == 10 || c == 13 {
        let e = crate::lex::scan_ws(b, i);
        return Some((None, e));
    }
    None
}

/// Finds the end of the maximal plain-literal run starting at `i`.
fn scan_chunk(b: &Vec<u8>, i: usize) -> (j: usize)
    requires
        i <= b@.len(),
    ensures
        j as int == chunk_end(b@, i as int),
        i <= j <= b@.len(),
{
    let mut j = i;
    while j < b.len() && b[j] != 34 && b[j] != 92
        invariant
            i <= j <= b@.len(),
            chunk_end(b@, i as int) == chunk_end(b@, j as int),
        decreases b@.len() - j,
    {
        j += 1;
    }
    j
}

fn is_hex_x(b: u8) -> (r: bool)
    ensures
        r == is_hex(b),
{
    (48 <= b && b <= 57) || (97 <= b && b <= 102) || (65 <= b && b <= 70)
}

fn hex_val_x(b: u8) -> (r: u8)
    requires
        is_hex(b),
    ensures
        r as int == hex_digit_val(b),
        r < 16,
{
    if 48 <= b && b <= 57 {
        b - 48
    } else if 97 <= b && b <= 102 {
        b - 87
    } else {
        b - 55
    }
}

/// Lexes the string literal whose opening quote stands at `pos`: the decoded
/// token and the position after the closing quote, exactly as `str_body`
/// describes.
pub fn lex_string(b: &Vec<u8>, pos: usize) -> (r: Option<(Token, usize)>)
    requires
        pos < b@.len(),
        b@[pos as int] == 34,
    ensures
        match r {
            Some((t, e)) => str_body(b@, pos + 1) matches Some((bytes, end)) && t@
                == TokenModel::String(bytes) && e as int == end && e <= b@.len(),
            None => str_body(b@, pos + 1) is None,
        },
{
    let ghost s = b@;
    let n = b.len();
    let mut out: Vec<u8> = Vec::new();
    let mut i: usize = pos + 1;
    loop
        invariant
            pos + 1 <= i <= b@.len(),
            s == b@,
            pos < b@.len(),
            (match str_body(s, i as int) {
                Some((rest, end)) => str_body(s, pos + 1) == Some((out@ + rest, end)),
                None => str_body(s, pos + 1) is None,
            }),
        decreases b@.len() - i,
    {
        if i >= b.len() {
            return None;
        }
        let c = b[i];
        if c == 34 {
            proof {
                assert(str_body(s, i as int) == Some((Seq::<u8>::empty(), i + 1)));
                assert(out@ + Seq::<u8>::empty() =~= out@);
            }
            return Some((Token::String(out), i + 1));
        }
        if c == 92 {
            match lex_escape(b, i + 1) {
                Some((prod, e)) => {
                    let ghost bytes: Seq<u8> = match prod {
                        Some(x) => seq![x],
                        None => Seq::<u8>::empty(),
                    };
                    let ghost out_old = out@;
                    match prod {
                        Some(x) => out.push(x),
                        None => {},
                    }
                    proof {
                        assert(out@ =~= out_old + bytes);
                        lemma_escape_bounds(s, i as int + 1);
                        match str_body(s, e as int) {
                            Some((rest, end)) => {
                                assert(str_body(s, i as int) == Some((bytes + rest, end)));
                                assert(out_old + (bytes + rest) =~= (out_old + bytes) + rest);
                            },
                            None => {
                                assert(str_body(s, i as int) is None);
                            },
                        }
                    }
                    i = e;
                },
                None => {
                    proof {
                        assert(str_body(s, i as int) is None);
                    }
                    return None;
                },
            }
        } else {
            let j = scan_chunk(b, i);
            proof {
                lemma_chunk_end(s, i as int + 1);
                assert(chunk_end(s, i as int) == chunk_end(s, i as int + 1));
            }
            let ghost out_old = out@;
            out.extend_from_slice(slice_subrange(b.as_slice(), i, j));
            proof {
                match str_body(s, j as int) {
                    Some((rest, end)) => {
                        assert(str_body(s, i as int) == Some(
                            (s.subrange(i as int, j as int) + rest, end),
                        ));
                        assert(out_old + (s.subrange(i as int, j as int) + rest) =~= (out_old
                            + s.subrange(i as int, j as int)) + rest);
                    },
                    None => {
                        assert(str_body(s, i as int) is None);
                    },
                }
            }
            i = j;
        }
    }
}

} // verus!
