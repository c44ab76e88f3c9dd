//! The lexer: turns source bytes into tokens, one per call.
//!
//! `lex_spec` is the mathematical description of one lexing step. It consumes
//! leading whitespace and then tries, in priority order: a quoted string
//! literal, a line comment, a float literal, an integer literal, a word
//! (keyword or name), a multi- or single-character operator, and end of
//! input. The executable lexer is proved to agree with it exactly.

use vstd::prelude::*;

verus! {

use vstd::string::{StrSliceExecFns, StringSliceAdditionalSpecFns};
use crate::strlit;

/// One lexical token. `Float` holds the matched literal's spelled text: the
/// subset gives floats no operations, so a float is only ever stored,
/// compared and echoed, never computed with. `String` holds the decoded
/// bytes of a string literal; `Name` holds an identifier's text.
#[derive(Clone, PartialEq, Debug)]
pub enum Token {
    // keywords
    And, Break, Do, Else, Elseif, End,
    False, For, Function, Goto, If, In,
    Local, Nil, Not, Or, Repeat, Return,
    Then, True, Until, While,
    // operators and punctuation
    Add, Sub, Mul, Div, Mod, Pow, Len,
    BitAnd, BitXor, BitOr, ShiftL, ShiftR, Idiv,
    Equal, NotEq, LesEq, GreEq, Less, Greater, Assign,
    ParL, ParR, CurlyL, CurlyR, SqurL, SqurR, DoubColon,
    SemiColon, Colon, Comma, Dot, Concat, Dots,
    // constant values
    Integer(i64),
    Float(Vec<u8>),
    String(Vec<u8>),
    // name of variables or table keys
    Name(Vec<u8>),
    // end of input
    Eof,
    // a line comment; produced by the lexer, skipped by the compiler
    Comment,
}

/// The mathematical model of a token: heap payloads become sequences and the
/// integer payload a mathematical integer.
pub enum TokenModel {
    And, Break, Do, Else, Elseif, End,
    False, For, Function, Goto, If, In,
    Local, Nil, Not, Or, Repeat, Return,
    Then, True, Until, While,
    Add, Sub, Mul, Div, Mod, Pow, Len,
    BitAnd, BitXor, BitOr, ShiftL, ShiftR, Idiv,
    Equal, NotEq, LesEq, GreEq, Less, Greater, Assign,
    ParL, ParR, CurlyL, CurlyR, SqurL, SqurR, DoubColon,
    SemiColon, Colon, Comma, Dot, Concat, Dots,
    Integer(int),
    Float(Seq<u8>),
    String(Seq<u8>),
    Name(Seq<u8>),
    Eof,
    Comment,
}

impl View for Token {
    type V = TokenModel;

    open spec fn view(&self) -> TokenModel {
        match self {
            Token::And => TokenModel::And,
            Token::Break => TokenModel::Break,
            Token::Do => TokenModel::Do,
            Token::Else => TokenModel::Else,
            Token::Elseif => TokenModel::Elseif,
            Token::End => TokenModel::End,
            Token::False => TokenModel::False,
            Token::For => TokenModel::For,
            Token::Function => TokenModel::Function,
            Token::Goto => TokenModel::Goto,
            Token::If => TokenModel::If,
            Token::In => TokenModel::In,
            Token::Local => TokenModel::Local,
            Token::Nil => TokenModel::Nil,
            Token::Not => TokenModel::Not,
            Token::Or => TokenModel::Or,
            Token::Repeat => TokenModel::Repeat,
            Token::Return => TokenModel::Return,
            Token::Then => TokenModel::Then,
            Token::True => TokenModel::True,
            Token::Until => TokenModel::Until,
            Token::While => TokenModel::While,
            Token::Add => TokenModel::Add,
            Token::Sub => TokenModel::Sub,
            Token::Mul => TokenModel::Mul,
            Token::Div => TokenModel::Div,
            Token::Mod => TokenModel::Mod,
            Token::Pow => TokenModel::Pow,
            Token::Len => TokenModel::Len,
            Token::BitAnd => TokenModel::BitAnd,
            Token::BitXor => TokenModel::BitXor,
            Token::BitOr => TokenModel::BitOr,
            Token::ShiftL => TokenModel::ShiftL,
            Token::ShiftR => TokenModel::ShiftR,
            Token::Idiv => TokenModel::Idiv,
            Token::Equal => TokenModel::Equal,
            Token::NotEq => TokenModel::NotEq,
            Token::LesEq => TokenModel::LesEq,
            Token::GreEq => TokenModel::GreEq,
            Token::Less => TokenModel::Less,
            Token::Greater => TokenModel::Greater,
            Token::Assign => TokenModel::Assign,
            Token::ParL => TokenModel::ParL,
            Token::ParR => TokenModel::ParR,
            Token::CurlyL => TokenModel::CurlyL,
            Token::CurlyR => TokenModel::CurlyR,
            Token::SqurL => TokenModel::SqurL,
            Token::SqurR => TokenModel::SqurR,
            Token::DoubColon => TokenModel::DoubColon,
            Token::SemiColon => TokenModel::SemiColon,
            Token::Colon => TokenModel::Colon,
            Token::Comma => TokenModel::Comma,
            Token::Dot => TokenModel::Dot,
            Token::Concat => TokenModel::Concat,
            Token::Dots => TokenModel::Dots,
            Token::Integer(i) => TokenModel::Integer(*i as int),
            Token::Float(text) => TokenModel::Float(text@),
            Token::String(s) => TokenModel::String(s@),
            Token::Name(n) => TokenModel::Name(n@),
            Token::Eof => TokenModel::Eof,
            Token::Comment => TokenModel::Comment,
        }
    }
}

// ---------------------------------------------------------------------------
// Byte classes and maximal runs
// ---------------------------------------------------------------------------

/// Whitespace: space, tab, line feed, carriage return.
pub open spec fn is_ws(b: u8) -> bool {
    b == 32 || b == 9 || b == 10 || b == 13
}

/// An ASCII decimal digit.
pub open spec fn is_digit(b: u8) -> bool {
    48 <= b <= 57
}

/// A byte that may appear in a word: ASCII alphanumeric or underscore.
pub open spec fn is_word_byte(b: u8) -> bool {
    is_digit(b) || (97 <= b <= 122) || (65 <= b <= 90) || b == 95
}

/// End of the maximal run of whitespace starting at `i`.
pub open spec fn ws_end(s: Seq<u8>, i: int) -> int
    decreases s.len() - i,
{
    if 0 <= i < s.len() && is_ws(s[i]) {
        ws_end(s, i + 1)
    } else {
        i
    }
}

/// End of the maximal run of decimal digits starting at `i`.
pub open spec fn digits_end(s: Seq<u8>, i: int) -> int
    decreases s.len() - i,
{
    if 0 <= i < s.len() && is_digit(s[i]) {
        digits_end(s, i + 1)
    } else {
        i
    }
}

/// End of the maximal run of word bytes starting at `i`.
pub open spec fn word_end(s: Seq<u8>, i: int) -> int
    decreases s.len() - i,
{
    if 0 <= i < s.len() && is_word_byte(s[i]) {
        word_end(s, i + 1)
    } else {
        i
    }
}

/// End of the maximal run of bytes other than a line feed starting at `i`.
pub open spec fn nonnl_end(s: Seq<u8>, i: int) -> int
    decreases s.len() - i,
{
    if 0 <= i < s.len() && s[i] != 10 {
        nonnl_end(s, i + 1)
    } else {
        i
    }
}

pub proof fn lemma_ws_end(s: Seq<u8>, i: int)
    requires
        0 <= i <= s.len(),
    ensures
        i <= ws_end(s, i) <= s.len(),
        forall|k: int| i <= k < ws_end(s, i) ==> is_ws(s[k]),
        ws_end(s, i) < s.len() ==> !is_ws(s[ws_end(s, i)]),
    decreases s.len() - i,
{
    if i < s.len() && is_ws(s[i]) {
        lemma_ws_end(s, i + 1);
    }
}

pub proof fn lemma_digits_end(s: Seq<u8>, i: int)
    requires
        0 <= i <= s.len(),
    ensures
        i <= digits_end(s, i) <= s.len(),
        forall|k: int| i <= k < digits_end(s, i) ==> is_digit(s[k]),
        digits_end(s, i) < s.len() ==> !is_digit(s[digits_end(s, i)]),
    decreases s.len() - i,
{
    if i < s.len() && is_digit(s[i]) {
        lemma_digits_end(s, i + 1);
    }
}

pub proof fn lemma_word_end(s: Seq<u8>, i: int)
    requires
        0 <= i <= s.len(),
    ensures
        i <= word_end(s, i) <= s.len(),
        forall|k: int| i <= k < word_end(s, i) ==> is_word_byte(s[k]),
        word_end(s, i) < s.len() ==> !is_word_byte(s[word_end(s, i)]),
    decreases s.len() - i,
{
    if i < s.len() && is_word_byte(s[i]) {
        lemma_word_end(s, i + 1);
    }
}

pub proof fn lemma_nonnl_end(s: Seq<u8>, i: int)
    requires
        0 <= i <= s.len(),
    ensures
        i <= nonnl_end(s, i) <= s.len(),
    decreases s.len() - i,
{
    if i < s.len() && s[i] != 10 {
        lemma_nonnl_end(s, i + 1);
    }
}

// ---------------------------------------------------------------------------
// Numeric literals
// ---------------------------------------------------------------------------

/// The value of the decimal digit bytes `s[i..j]`.
pub open spec fn dec_val(s: Seq<u8>, i: int, j: int) -> int
    decreases j - i,
{
    if i < j {
        dec_val(s, i, j - 1) * 10 + (s[j - 1] - 48)
    } else {
        0
    }
}

pub proof fn lemma_dec_val_nonneg(s: Seq<u8>, i: int, j: int)
    requires
        forall|k: int| i <= k < j ==> is_digit(s[k]),
    ensures
        dec_val(s, i, j) >= 0,
    decreases j - i,
{
    if i < j {
        lemma_dec_val_nonneg(s, i, j - 1);
    }
}

/// Reading more digits never decreases the value.
pub proof fn lemma_dec_val_mono(s: Seq<u8>, i: int, k: int, j: int)
    requires
        i <= k <= j,
        forall|m: int| i <= m < j ==> is_digit(s[m]),
    ensures
        dec_val(s, i, j) >= dec_val(s, i, k),
    decreases j - k,
{
    if k < j {
        lemma_dec_val_mono(s, i, k, j - 1);
        lemma_dec_val_nonneg(s, i, j - 1);
    }
}

/// End of an integer literal at `i` (an optional minus sign followed by at
/// least one digit), or `i` if none matches.
pub open spec fn int_end(s: Seq<u8>, i: int) -> int {
    let d = if 0 <= i < s.len() && s[i] == 45 {
        i + 1
    } else {
        i
    };
    if d < s.len() && is_digit(s[d]) {
        digits_end(s, d)
    } else {
        i
    }
}

/// The mathematical value of the integer literal at `i`.
pub open spec fn int_val(s: Seq<u8>, i: int) -> int {
    if 0 <= i < s.len() && s[i] == 45 {
        -dec_val(s, i + 1, int_end(s, i))
    } else {
        dec_val(s, i, int_end(s, i))
    }
}

/// Whether a mathematical integer fits a signed 64-bit integer; a literal
/// whose value does not fit is not an integer token (the word or operator
/// alternatives apply instead).
pub open spec fn int_fits(v: int) -> bool {
    i64::MIN <= v <= i64::MAX
}

/// End of an optional exponent part at `i` (`e`/`E`, an optional sign, at
/// least one digit), or `i` when it does not match.
pub open spec fn exp_end_opt(s: Seq<u8>, i: int) -> int {
    if 0 <= i < s.len() && (s[i] == 101 || s[i] == 69) {
        let d = if i + 1 < s.len() && (s[i + 1] == 43 || s[i + 1] == 45) {
            i + 2
        } else {
            i + 1
        };
        if d < s.len() && is_digit(s[d]) {
            digits_end(s, d)
        } else {
            i
        }
    } else {
        i
    }
}

/// End of a float literal at `i`, or `i` if none matches. The grammar is
/// tried in priority order: `.` digits with an optional exponent; digits,
/// an optional fraction and a required exponent; digits, a dot and an
/// optional fraction. A float always contains a dot or an exponent, so float
/// lexing takes precedence over integer lexing exactly there.
pub open spec fn float_end(s: Seq<u8>, i: int) -> int {
    if 0 <= i < s.len() && s[i] == 46 && i + 1 < s.len() && is_digit(s[i + 1]) {
        exp_end_opt(s, digits_end(s, i + 1))
    } else if 0 <= i < s.len() && is_digit(s[i]) {
        let d = digits_end(s, i);
        let m = if d < s.len() && s[d] == 46 && d + 1 < s.len() && is_digit(s[d + 1]) {
            digits_end(s, d + 1)
        } else {
            d
        };
        if exp_end_opt(s, m) > m {
            exp_end_opt(s, m)
        } else if d < s.len() && s[d] == 46 {
            if d + 1 < s.len() && is_digit(s[d + 1]) {
                digits_end(s, d + 1)
            } else {
                d + 1
            }
        } else {
            i
        }
    } else {
        i
    }
}

// ---------------------------------------------------------------------------
// Keywords and operators
// ---------------------------------------------------------------------------

/// The keyword token for a word, if the word is one of the fixed keyword
/// spellings.
pub open spec fn keyword_of(w: Seq<u8>) -> Option<TokenModel> {
    if w == "and".spec_bytes() { Some(TokenModel::And) }
    else if w == "break".spec_bytes() { Some(TokenModel::Break) }
    else if w == "do".spec_bytes() { Some(TokenModel::Do) }
    else if w == "else".spec_bytes() { Some(TokenModel::Else) }
    else if w == "elseif".spec_bytes() { Some(TokenModel::Elseif) }
    else if w == "end".spec_bytes() { Some(TokenModel::End) }
    else if w == "false".spec_bytes() { Some(TokenModel::False) }
    else if w == "for".spec_bytes() { Some(TokenModel::For) }
    else if w == "function".spec_bytes() { Some(TokenModel::Function) }
    else if w == "goto".spec_bytes() { Some(TokenModel::Goto) }
    else if w == "if".spec_bytes() { Some(TokenModel::If) }
    else if w == "in".spec_bytes() { Some(TokenModel::In) }
    else if w == "local".spec_bytes() { Some(TokenModel::Local) }
    else if w == "nil".spec_bytes() { Some(TokenModel::Nil) }
    else if w == "not".spec_bytes() { Some(TokenModel::Not) }
    else if w == "or".spec_bytes() { Some(TokenModel::Or) }
    else if w == "repeat".spec_bytes() { Some(TokenModel::Repeat) }
    else if w == "return".spec_bytes() { Some(TokenModel::Return) }
    else if w == "then".spec_bytes() { Some(TokenModel::Then) }
    else if w == "true".spec_bytes() { Some(TokenModel::True) }
    else if w == "until".spec_bytes() { Some(TokenModel::Until) }
    else if w == "while".spec_bytes() { Some(TokenModel::While) }
    else { None }
}

/// The token for a two-character operator, if the pair is one. The pair
/// `..` is matched before `...` is ever considered, so `...` lexes as `..`
/// followed by `.`.
pub open spec fn op2_of(a: u8, b: u8) -> Option<TokenModel> {
    if a == 60 && b == 60 { Some(TokenModel::ShiftL) }
    else if a == 62 && b == 62 { Some(TokenModel::ShiftR) }
    else if a == 47 && b == 47 { Some(TokenModel::Idiv) }
    else if a == 61 && b == 61 { Some(TokenModel::Equal) }
    else if a == 126 && b == 61 { Some(TokenModel::NotEq) }
    else if a == 60 && b == 61 { Some(TokenModel::LesEq) }
    else if a == 62 && b == 61 { Some(TokenModel::GreEq) }
    else if a == 58 && b == 58 { Some(TokenModel::DoubColon) }
    else if a == 46 && b == 46 { Some(TokenModel::Concat) }
    else { None }
}

/// The token for a single-character operator or punctuation byte, if any.
pub open spec fn op1_of(a: u8) -> Option<TokenModel> {
    if a == 43 { Some(TokenModel::Add) }
    else if a == 45 { Some(TokenModel::Sub) }
    else if a == 42 { Some(TokenModel::Mul) }
    else if a == 47 { Some(TokenModel::Div) }
    else if a == 37 { Some(TokenModel::Mod) }
    else if a == 94 { Some(TokenModel::Pow) }
    else if a == 35 { Some(TokenModel::Len) }
    else if a == 38 { Some(TokenModel::BitAnd) }
    else if a == 126 { Some(TokenModel::BitXor) }
    else if a == 124 { Some(TokenModel::BitOr) }
    else if a == 60 { Some(TokenModel::Less) }
    else if a == 62 { Some(TokenModel::Greater) }
    else if a == 61 { Some(TokenModel::Assign) }
    else if a == 40 { Some(TokenModel::ParL) }
    else if a == 41 { Some(TokenModel::ParR) }
    else if a == 123 { Some(TokenModel::CurlyL) }
    else if a == 125 { Some(TokenModel::CurlyR) }
    else if a == 91 { Some(TokenModel::SqurL) }
    else if a == 93 { Some(TokenModel::SqurR) }
    else if a == 59 { Some(TokenModel::SemiColon) }
    else if a == 58 { Some(TokenModel::Colon) }
    else if a == 44 { Some(TokenModel::Comma) }
    else if a == 46 { Some(TokenModel::Dot) }
    else { None }
}

// ---------------------------------------------------------------------------
// Comments
// ---------------------------------------------------------------------------

/// A line comment at `i`: `--`, at least one byte that is not a line feed,
/// and the terminating line feed, which is consumed.
pub open spec fn comment_matches(s: Seq<u8>, i: int) -> bool {
    0 <= i && i + 1 < s.len() && s[i] == 45 && s[i + 1] == 45 && {
        let e = nonnl_end(s, i + 2);
        e > i + 2 && e < s.len() && s[e] == 10
    }
}

/// Position after the comment's terminating line feed.
pub open spec fn comment_end(s: Seq<u8>, i: int) -> int {
    nonnl_end(s, i + 2) + 1
}

// ---------------------------------------------------------------------------
// One lexing step
// ---------------------------------------------------------------------------

/// One lexing step on `s` starting at `i`: the token found and the position
/// after it, or `None` when no alternative matches (a lexical error).
/// Opaque: callers reason through the lexer's contract; proofs about the
/// step itself reveal it.
#[verifier::opaque]
pub open spec fn lex_spec(s: Seq<u8>, i: int) -> Option<(TokenModel, int)> {
    let j = ws_end(s, i);
    if j < s.len() && s[j] == 34 {
        match strlit::str_body(s, j + 1) {
            Some((bytes, e)) => Some((TokenModel::String(bytes), e)),
            None => None,
        }
    } else if comment_matches(s, j) {
        Some((TokenModel::Comment, comment_end(s, j)))
    } else if float_end(s, j) > j {
        Some((TokenModel::Float(s.subrange(j, float_end(s, j))), float_end(s, j)))
    } else if int_end(s, j) > j && int_fits(int_val(s, j)) {
        Some((TokenModel::Integer(int_val(s, j)), int_end(s, j)))
    } else if j < s.len() && is_word_byte(s[j]) {
        let w = s.subrange(j, word_end(s, j));
        match keyword_of(w) {
            Some(t) => Some((t, word_end(s, j))),
            None => Some((TokenModel::Name(w), word_end(s, j))),
        }
    } else if j + 1 < s.len() && op2_of(s[j], s[j + 1]) is Some {
        match op2_of(s[j], s[j + 1]) {
            Some(t) => Some((t, j + 2)),
            None => None,
        }
    } else if j < s.len() && op1_of(s[j]) is Some {
        match op1_of(s[j]) {
            Some(t) => Some((t, j + 1)),
            None => None,
        }
    } else if j == s.len() {
        Some((TokenModel::Eof, j))
    } else {
        None
    }
}

/// A successful lexing step stays within the input, and every token except
/// end-of-input consumes at least one byte.
pub proof fn lemma_lex_bounds(s: Seq<u8>, i: int)
    requires
        0 <= i <= s.len(),
        lex_spec(s, i) is Some,
    ensures
        ({
            let (t, e) = lex_spec(s, i)->Some_0;
            i <= e <= s.len() && (!(t is Eof) ==> e > i) && (t is Eof ==> e == s.len())
        }),
{
    reveal(lex_spec);
    let j = ws_end(s, i);
    lemma_ws_end(s, i);
    if j < s.len() && s[j] == 34 {
        strlit::lemma_str_body_bounds(s, j + 1);
    } else if comment_matches(s, j) {
        lemma_nonnl_end(s, j + 2);
    } else if float_end(s, j) > j {
        lemma_float_end_bounds(s, j);
    } else if int_end(s, j) > j && int_fits(int_val(s, j)) {
        if j < s.len() && s[j] == 45 {
            lemma_digits_end(s, j + 1);
        } else {
            lemma_digits_end(s, j);
        }
    } else if j < s.len() && is_word_byte(s[j]) {
        lemma_word_end(s, j);
    }
}

/// The float-literal end stays within the input.
pub proof fn lemma_float_end_bounds(s: Seq<u8>, i: int)
    requires
        0 <= i <= s.len(),
    ensures
        float_end(s, i) == i || (i < float_end(s, i) <= s.len()),
{
    if 0 <= i < s.len() {
        lemma_digits_end(s, i);
        lemma_digits_end(s, i + 1);
        let d = digits_end(s, i);
        if d < s.len() {
            lemma_digits_end(s, d + 1);
            let m = if d < s.len() && s[d] == 46 && d + 1 < s.len() && is_digit(s[d + 1]) {
                digits_end(s, d + 1)
            } else {
                d
            };
            lemma_exp_end_bounds(s, m);
        }
        lemma_exp_end_bounds(s, d);
        lemma_exp_end_bounds(s, digits_end(s, i + 1));
    }
}

/// The exponent end stays within the input.
pub proof fn lemma_exp_end_bounds(s: Seq<u8>, i: int)
    requires
        0 <= i <= s.len(),
    ensures
        i <= exp_end_opt(s, i) <= s.len(),
{
    if 0 <= i < s.len() && (s[i] == 101 || s[i] == 69) {
        let d = if i + 1 < s.len() && (s[i + 1] == 43 || s[i + 1] == 45) {
            i + 2
        } else {
            i + 1
        };
        if d < s.len() && is_digit(s[d]) {
            lemma_digits_end(s, d);
        }
    }
}

// ---------------------------------------------------------------------------
// The executable lexer
// ---------------------------------------------------------------------------

/// A lexical error, identifying the offending byte offset in the source.
#[derive(Clone, Copy, PartialEq, Eq, Structural, Debug)]
pub struct LexError {
    pub pos: usize,
}

/// The lexer: the source bytes and a cursor. Tokens are produced lazily, one
/// per `next` call; there is no token buffer.
#[derive(Debug)]
pub struct Lexer {
    bytes: Vec<u8>,
    pos: usize,
}

impl Lexer {
    /// The whole source, as bytes.
    pub closed spec fn input(&self) -> Seq<u8> {
        self.bytes@
    }

    /// The cursor: the offset of the first unconsumed byte.
    pub closed spec fn at(&self) -> int {
        self.pos as int
    }

    pub closed spec fn wf(&self) -> bool {
        self.pos <= self.bytes@.len()
    }

    pub fn new(s: &str) -> (r: Lexer)
        ensures
            r.input() == s.spec_bytes(),
            r.at() == 0,
            r.wf(),
    {
        Lexer { bytes: s.as_bytes_vec(), pos: 0 }
    }

    /// A well-formed lexer's cursor lies within its input.
    pub proof fn lemma_wf(&self)
        requires
            self.wf(),
        ensures
            0 <= self.at() <= self.input().len(),
    {
    }

    /// Produces the next token, advancing the cursor past it, exactly as
    /// `lex_spec` describes; on a lexical error the cursor does not move and
    /// the error names the position of the offending byte.
    pub fn next(&mut self) -> (r: Result<Token, LexError>)
        requires
            old(self).wf(),
        ensures
            final(self).wf(),
            final(self).input() == old(self).input(),
            match r {
                Ok(t) => lex_spec(old(self).input(), old(self).at()) == Some(
                    (t@, final(self).at()),
                ),
                Err(e) => lex_spec(old(self).input(), old(self).at()) is None && final(self).at()
                    == old(self).at() && e.pos as int == ws_end(
                    old(self).input(),
                    old(self).at(),
                ),
            },
    {
        proof {
            reveal(lex_spec);
        }
        let ghost s = self.bytes@;
        let ghost i0 = self.pos as int;
        let j = scan_ws(&self.bytes, self.pos);
        proof {
            lemma_ws_end(s, i0);
        }
        let n = self.bytes.len();
        if j == n {
            self.pos = j;
            return Ok(Token::Eof);
        }
        let c = self.bytes[j];
        if c == 34 {
            match strlit::lex_string(&self.bytes, j) {
                Some((t, e)) => {
                    self.pos = e;
                    return Ok(t);
                },
                None => {
                    return Err(LexError { pos: j });
                },
            }
        }
        // line comment
        if c == 45 && j + 1 < n && self.bytes[j + 1] == 45 {
            let e = scan_nonnl(&self.bytes, j + 2);
            proof {
                lemma_nonnl_end(s, j + 2);
            }
            if e > j + 2 && e < n && self.bytes[e] == 10 {
                self.pos = e + 1;
                return Ok(Token::Comment);
            }
        }
        // float literal
        let fe = scan_float(&self.bytes, j);
        proof {
            lemma_float_end_bounds(s, j as int);
        }
        if fe > j {
            let lit = vstd::slice::slice_subrange(self.bytes.as_slice(), j, fe);
            self.pos = fe;
            return Ok(Token::Float(vstd::slice::slice_to_vec(lit)));
        }
        // integer literal
        match scan_int(&self.bytes, j) {
            Some((v, e)) => {
                self.pos = e;
                return Ok(Token::Integer(v));
            },
            None => {},
        }
        // word: keyword or name
        if is_word_byte_x(c) {
            let e = scan_word(&self.bytes, j);
            proof {
                lemma_word_end(s, j as int);
            }
            let w = vstd::slice::slice_subrange(self.bytes.as_slice(), j, e);
            let t = match keyword_token(w) {
                Some(t) => t,
                None => Token::Name(vstd::slice::slice_to_vec(w)),
            };
            self.pos = e;
            return Ok(t);
        }
        // operators and punctuation
        if j + 1 < n {
            match op2_token(c, self.bytes[j + 1]) {
                Some(t) => {
                    self.pos = j + 2;
                    return Ok(t);
                },
                None => {},
            }
        }
        match op1_token(c) {
            Some(t) => {
                self.pos = j + 1;
                return Ok(t);
            },
            None => {},
        }
        Err(LexError { pos: j })
    }
}

fn is_word_byte_x(b: u8) -> (r: bool)
    ensures
        r == is_word_byte(b),
{
    (48 <= b && b <= 57) || (97 <= b && b <= 122) || (65 <= b && b <= 90) || b == 95
}

/// Skips the maximal whitespace run starting at `i`.
pub fn scan_ws(b: &Vec<u8>, i: usize) -> (j: usize)
    requires
        i <= b@.len(),
    ensures
        j as int == ws_end(b@, i as int),
        i <= j <= b@.len(),
{
    let mut j = i;
    while j < b.len() && (b[j] == 32 || b[j] == 9 || b[j] == 10 || b[j] == 13)
        invariant
            i <= j <= b@.len(),
            ws_end(b@, i as int) == ws_end(b@, j as int),
        decreases b@.len() - j,
    {
        j += 1;
    }
    j
}

/// Finds the end of the maximal digit run starting at `i`.
pub fn scan_digits(b: &Vec<u8>, i: usize) -> (j: usize)
    requires
        i <= b@.len(),
    ensures
        j as int == digits_end(b@, i as int),
        i <= j <= b@.len(),
{
    let mut j = i;
    while j < b.len() && 48 <= b[j] && b[j] <= 57
        invariant
            i <= j <= b@.len(),
            digits_end(b@, i as int) == digits_end(b@, j as int),
        decreases b@.len() - j,
    {
        j += 1;
    }
    j
}

/// Finds the end of the maximal word-byte run starting at `i`.
pub fn scan_word(b: &Vec<u8>, i: usize) -> (j: usize)
    requires
        i <= b@.len(),
    ensures
        j as int == word_end(b@, i as int),
        i <= j <= b@.len(),
{
    let mut j = i;
    while j < b.len() && is_word_byte_x(b[j])
        invariant
            i <= j <= b@.len(),
            word_end(b@, i as int) == word_end(b@, j as int),
        decreases b@.len() - j,
    {
        j += 1;
    }
    j
}

/// Finds the end of the maximal run of bytes that are not a line feed.
pub fn scan_nonnl(b: &Vec<u8>, i: usize) -> (j: usize)
    requires
        i <= b@.len(),
    ensures
        j as int == nonnl_end(b@, i as int),
        i <= j <= b@.len(),
{
    let mut j = i;
    while j < b.len() && b[j] != 10
        invariant
            i <= j <= b@.len(),
            nonnl_end(b@, i as int) == nonnl_end(b@, j as int),
        decreases b@.len() - j,
    {
        j += 1;
    }
    j
}

/// Finds the end of an optional exponent part at `i`.
fn scan_exp_opt(b: &Vec<u8>, i: usize) -> (j: usize)
    requires
        i <= b@.len(),
    ensures
        j as int == exp_end_opt(b@, i as int),
        i <= j <= b@.len(),
{
    if i < b.len() && (b[i] == 101 || b[i] == 69) {
        let d = if i + 1 < b.len() && (b[i + 1] == 43 || b[i + 1] == 45) {
            i + 2
        } else {
            i + 1
        };
        if d < b.len() && 48 <= b[d] && b[d] <= 57 {
            scan_digits(b, d)
        } else {
            i
        }
    } else {
        i
    }
}

/// Finds the end of a float literal at `i`, or returns `i` when none
/// matches.
fn scan_float(b: &Vec<u8>, i: usize) -> (j: usize)
    requires
        i <= b@.len(),
    ensures
        j as int == float_end(b@, i as int),
        i <= j <= b@.len(),
{
    proof {
        lemma_float_end_bounds(b@, i as int);
    }
    if i < b.len() && b[i] == 46 && i + 1 < b.len() && 48 <= b[i + 1] && b[i + 1] <= 57 {
        let d = scan_digits(b, i + 1);
        scan_exp_opt(b, d)
    } else if i < b.len() && 48 <= b[i] && b[i] <= 57 {
        let d = scan_digits(b, i);
        let m = if d < b.len() && b[d] == 46 && d + 1 < b.len() && 48 <= b[d + 1] && b[d + 1]
            <= 57 {
            scan_digits(b, d + 1)
        } else {
            d
        };
        let x = scan_exp_opt(b, m);
        if x > m {
            x
        } else if d < b.len() && b[d] == 46 {
            if d + 1 < b.len() && 48 <= b[d + 1] && b[d + 1] <= 57 {
                scan_digits(b, d + 1)
            } else {
                d + 1
            }
        } else {
            i
        }
    } else {
        i
    }
}

/// Lexes an integer literal at `j`: `Some` exactly when the integer
/// alternative matches and its value fits a signed 64-bit integer.
fn scan_int(b: &Vec<u8>, j: usize) -> (r: Option<(i64, usize)>)
    requires
        j <= b@.len(),
    ensures
        match r {
            Some((v, e)) => int_end(b@, j as int) > j && int_fits(int_val(b@, j as int)) && v as int
                == int_val(b@, j as int) && e as int == int_end(b@, j as int) && j < e <= b@.len(),
            None => !(int_end(b@, j as int) > j && int_fits(int_val(b@, j as int))),
        },
{
    let ghost s = b@;
    let neg = j < b.len() && b[j] == 45;
    let d: usize = if neg {
        j + 1
    } else {
        j
    };
    if !(d < b.len() && 48 <= b[d] && b[d] <= 57) {
        return None;
    }
    let end = scan_digits(b, d);
    proof {
        lemma_digits_end(s, d as int);
    }
    let mut v: u64 = 0;
    let mut k = d;
    while k < end
        invariant
            d <= k <= end,
            end <= b@.len(),
            end as int == digits_end(s, d as int),
            s == b@,
            j as int <= s.len(),
            neg == ((j as int) < s.len() && s[j as int] == 45),
            d as int == (if neg { j as int + 1 } else { j as int }),
            d < end,
            forall|m: int| d <= m < end ==> is_digit(s[m]),
            v as int == dec_val(s, d as int, k as int),
        decreases end - k,
    {
        let dig = (b[k] - 48) as u64;
        if v > (u64::MAX - dig) / 10 {
            // the remaining digits can only make the value larger
            proof {
                lemma_dec_val_nonneg(s, d as int, k as int);
                lemma_dec_val_mono(s, d as int, k as int + 1, end as int);
                assert(dec_val(s, d as int, k as int + 1) == v * 10 + dig);
                assert(dec_val(s, d as int, end as int) > u64::MAX);
                assert(int_end(s, j as int) == end as int);
                if neg {
                    assert(int_val(s, j as int) == -dec_val(s, d as int, end as int));
                } else {
                    assert(int_val(s, j as int) == dec_val(s, d as int, end as int));
                }
                assert(!int_fits(int_val(s, j as int)));
            }
            return None;
        }
        v = v * 10 + dig;
        k += 1;
    }
    if neg {
        if v <= 9223372036854775808u64 {
            let out: i64 = if v == 9223372036854775808u64 {
                i64::MIN
            } else {
                -(v as i64)
            };
            Some((out, end))
        } else {
            None
        }
    } else {
        if v <= 9223372036854775807u64 {
            Some((v as i64, end))
        } else {
            None
        }
    }
}

/// Matches a word against the fixed keyword spellings.
fn keyword_token(w: &[u8]) -> (r: Option<Token>)
    ensures
        match r {
            Some(t) => keyword_of(w@) == Some(t@),
            None => keyword_of(w@) is None,
        },
{
    if bytes_eq_str(w, "and") { Some(Token::And) }
    else if bytes_eq_str(w, "break") { Some(Token::Break) }
    else if bytes_eq_str(w, "do") { Some(Token::Do) }
    else if bytes_eq_str(w, "else") { Some(Token::Else) }
    else if bytes_eq_str(w, "elseif") { Some(Token::Elseif) }
    else if bytes_eq_str(w, "end") { Some(Token::End) }
    else if bytes_eq_str(w, "false") { Some(Token::False) }
    else if bytes_eq_str(w, "for") { Some(Token::For) }
    else if bytes_eq_str(w, "function") { Some(Token::Function) }
    else if bytes_eq_str(w, "goto") { Some(Token::Goto) }
    else if bytes_eq_str(w, "if") { Some(Token::If) }
    else if bytes_eq_str(w, "in") { Some(Token::In) }
    else if bytes_eq_str(w, "local") { Some(Token::Local) }
    else if bytes_eq_str(w, "nil") { Some(Token::Nil) }
    else if bytes_eq_str(w, "not") { Some(Token::Not) }
    else if bytes_eq_str(w, "or") { Some(Token::Or) }
    else if bytes_eq_str(w, "repeat") { Some(Token::Repeat) }
    else if bytes_eq_str(w, "return") { Some(Token::Return) }
    else if bytes_eq_str(w, "then") { Some(Token::Then) }
    else if bytes_eq_str(w, "true") { Some(Token::True) }
    else if bytes_eq_str(w, "until") { Some(Token::Until) }
    else if bytes_eq_str(w, "while") { Some(Token::While) }
    else { None }
}

fn bytes_eq_str(w: &[u8], s: &str) -> (r: bool)
    ensures
        r == (w@ == s.spec_bytes()),
{
    crate::value::bytes_eq(w, s.as_bytes())
}

fn op2_token(a: u8, b: u8) -> (r: Option<Token>)
    ensures
        match r {
            Some(t) => op2_of(a, b) == Some(t@),
            None => op2_of(a, b) is None,
        },
{
    if a == 60 && b == 60 { Some(Token::ShiftL) }
    else if a == 62 && b == 62 { Some(Token::ShiftR) }
    else if a == 47 && b == 47 { Some(Token::Idiv) }
    else if a == 61 && b == 61 { Some(Token::Equal) }
    else if a == 126 && b == 61 { Some(Token::NotEq) }
    else if a == 60 && b == 61 { Some(Token::LesEq) }
    else if a == 62 && b == 61 { Some(Token::GreEq) }
    else if a == 58 && b == 58 { Some(Token::DoubColon) }
    else if a == 46 && b == 46 { Some(Token::Concat) }
    else { None }
}

fn op1_token(a: u8) -> (r: Option<Token>)
    ensures
        match r {
            Some(t) => op1_of(a) == Some(t@),
            None => op1_of(a) is None,
        },
{
    if a == 43 { Some(Token::Add) }
    else if a == 45 { Some(Token::Sub) }
    else if a == 42 { Some(Token::Mul) }
    else if a == 47 { Some(Token::Div) }
    else if a == 37 { Some(Token::Mod) }
    else if a == 94 { Some(Token::Pow) }
    else if a == 35 { Some(Token::Len) }
    else if a == 38 { Some(Token::BitAnd) }
    else if a == 126 { Some(Token::BitXor) }
    else if a == 124 { Some(Token::BitOr) }
    else if a == 60 { Some(Token::Less) }
    else if a == 62 { Some(Token::Greater) }
    else if a == 61 { Some(Token::Assign) }
    else if a == 40 { Some(Token::ParL) }
    else if a == 41 { Some(Token::ParR) }
    else if a == 123 { Some(Token::CurlyL) }
    else if a == 125 { Some(Token::CurlyR) }
    else if a == 91 { Some(Token::SqurL) }
    else if a == 93 { Some(Token::SqurR) }
    else if a == 59 { Some(Token::SemiColon) }
    else if a == 58 { Some(Token::Colon) }
    else if a == 44 { Some(Token::Comma) }
    else if a == 46 { Some(Token::Dot) }
    else { None }
}

} // verus!
