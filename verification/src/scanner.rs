//! Lexical analysis: turns a byte source into a stream of postfix tokens.
//!
//! The scanner owns its input and exactly one buffered lookahead byte (or the
//! end-of-input sentinel `None`). Each `get_token` call consumes a maximal run
//! of leading spaces, then one token, and leaves the lookahead at the first
//! unconsumed byte.

use vstd::prelude::*;

verus! {

use vstd::wrapping::i64_specs;
use crate::arith::lemma_crop_digit_step;
use crate::arith::lemma_crop_in_range;
use crate::arith::lemma_crop_unwrap_add;

/// A binary arithmetic operator of the postfix language: a closed enumeration,
/// so that an invalid operator is unrepresentable.
#[derive(Clone, Copy, Debug, PartialEq, Eq, Structural)]
pub enum Op {
    Add,
    Subtract,
    Multiply,
    Divide,
    Modulo,
}

/// The smallest classified lexical unit the scanner produces.
#[derive(Clone, Copy, Debug, PartialEq, Eq, Structural)]
pub enum Token {
    /// An operator symbol: one of `+ - * / %`.
    BinOp(Op),
    /// A maximal run of decimal digits, read as a base-10 value.
    Number(i64),
    /// A newline.
    EOL,
    /// End of the input; repeats forever once reached.
    EOF,
}

/// The scanner's only failure: a byte outside the recognized token alphabet.
#[derive(Clone, Copy, Debug, PartialEq, Eq, Structural)]
pub enum LexError {
    UnknownSymbol,
}

/// Whether `b` is an ASCII decimal digit.
pub open spec fn is_digit(b: u8) -> bool {
    48 <= b <= 57
}

/// The number of consecutive digit bytes in `s` starting at index `i`.
pub open spec fn digit_run_len(s: Seq<u8>, i: int) -> int
    decreases s.len() - i,
{
    if 0 <= i < s.len() && is_digit(s[i]) {
        1 + digit_run_len(s, i + 1)
    } else {
        0
    }
}

/// The base-10 value of a sequence of digit bytes.
pub open spec fn digits_value(s: Seq<u8>) -> int
    decreases s.len(),
{
    if s.len() == 0 {
        0
    } else {
        digits_value(s.drop_last()) * 10 + (s.last() - 48)
    }
}

/// The token found in `s` at index `i`, together with the index of the first
/// byte after it: spaces are skipped, `+ - * / %` and newline are one byte
/// each, a digit starts a maximal digit run, any index at or past the end
/// yields `EOF` without moving, and any other byte is consumed and rejected.
/// A `Number` carries the digit run's base-10 value reduced into `i64`'s
/// range by wrap-around.
pub open spec fn spec_scan(s: Seq<u8>, i: int) -> (Result<Token, LexError>, int)
    decreases s.len() - i,
{
    if !(0 <= i < s.len()) {
        (Ok(Token::EOF), i)
    } else if s[i] == 32 {
        spec_scan(s, i + 1)
    } else if s[i] == 43 {
        (Ok(Token::BinOp(Op::Add)), i + 1)
    } else if s[i] == 45 {
        (Ok(Token::BinOp(Op::Subtract)), i + 1)
    } else if s[i] == 42 {
        (Ok(Token::BinOp(Op::Multiply)), i + 1)
    } else if s[i] == 47 {
        (Ok(Token::BinOp(Op::Divide)), i + 1)
    } else if s[i] == 37 {
        (Ok(Token::BinOp(Op::Modulo)), i + 1)
    } else if s[i] == 10 {
        (Ok(Token::EOL), i + 1)
    } else if is_digit(s[i]) {
        let k = digit_run_len(s, i);
        (
            Ok(Token::Number(i64_specs::signed_crop(digits_value(s.subrange(i, i + k))))),
            i + k,
        )
    } else {
        (Err(LexError::UnknownSymbol), i + 1)
    }
}

/// The byte that spells each operator.
pub open spec fn op_symbol(op: Op) -> u8 {
    match op {
        Op::Add => 43,  // '+'
        Op::Subtract => 45,  // '-'
        Op::Multiply => 42,  // '*'
        Op::Divide => 47,  // '/'
        Op::Modulo => 37,  // '%'
    }
}

/// A run of `l` digits at `i`, delimited by a non-digit byte or the end of
/// the source, is exactly what `digit_run_len` measures.
pub proof fn lemma_digit_run_len_exact(s: Seq<u8>, i: int, l: int)
    requires
        0 <= i,
        0 <= l,
        i + l <= s.len(),
        forall|t: int| i <= t < i + l ==> is_digit(#[trigger] s[t]),
        i + l < s.len() ==> !is_digit(s[i + l]),
    ensures
        digit_run_len(s, i) == l,
    decreases l,
{
    if l > 0 {
        lemma_digit_run_len_exact(s, i + 1, l - 1);
    }
}

/// The digit run at `i` is maximal: it consists of digits only and ends at
/// the end of the source or at a non-digit byte.
pub proof fn lemma_digit_run_maximal(s: Seq<u8>, i: int)
    requires
        0 <= i <= s.len(),
    ensures
        ({
            let k = digit_run_len(s, i);
            &&& 0 <= k <= s.len() - i
            &&& forall|t: int| i <= t < i + k ==> is_digit(#[trigger] s[t])
            &&& i + k < s.len() ==> !is_digit(s[i + k])
        }),
    decreases s.len() - i,
{
    if i < s.len() && is_digit(s[i]) {
        lemma_digit_run_maximal(s, i + 1);
    }
}

/// Scanning consumes at least the token it returns: the resting position
/// never moves backwards, never passes the end, and strictly advances unless
/// the scan reports end of input, in which case it rests at the end.
pub proof fn lemma_scan_advances(s: Seq<u8>, i: int)
    requires
        0 <= i <= s.len(),
    ensures
        ({
            let (t, j) = spec_scan(s, i);
            &&& i <= j <= s.len()
            &&& t != Ok::<Token, LexError>(Token::EOF) ==> i < j
            &&& t == Ok::<Token, LexError>(Token::EOF) ==> j == s.len()
        }),
    decreases s.len() - i,
{
    if i < s.len() {
        if s[i] == 32 {
            lemma_scan_advances(s, i + 1);
        } else if is_digit(s[i]) {
            lemma_digit_run_maximal(s, i);
            lemma_digit_run_maximal(s, i + 1);
        }
    }
}

/// Law: whitespace before a token is immaterial — scanning from the start of
/// a run of spaces returns the same token, resting at the same position, as
/// scanning from the first byte after the spaces.
pub proof fn lemma_spaces_skipped(s: Seq<u8>, i: int, k: int)
    requires
        0 <= i,
        0 <= k,
        i + k <= s.len(),
        forall|t: int| i <= t < i + k ==> #[trigger] s[t] == 32,
    ensures
        spec_scan(s, i) == spec_scan(s, i + k),
    decreases k,
{
    if k > 0 {
        lemma_spaces_skipped(s, i + 1, k - 1);
    }
}

/// The base-10 value of a sequence of digit bytes is never negative.
pub proof fn lemma_digits_value_nonneg(s: Seq<u8>)
    requires
        forall|t: int| 0 <= t < s.len() ==> is_digit(#[trigger] s[t]),
    ensures
        digits_value(s) >= 0,
    decreases s.len(),
{
    if s.len() > 0 {
        lemma_digits_value_nonneg(s.drop_last());
    }
}

/// Law: at a digit, the scanner returns `Number` holding the base-10 value of
/// the maximal digit run (wrapped into `i64`'s range, which leaves any value
/// up to `i64::MAX` exact), consumes exactly that run, and leaves the first
/// non-digit byte — if any — as the next lookahead.
pub proof fn lemma_digit_scan(s: Seq<u8>, i: int)
    requires
        0 <= i < s.len(),
        is_digit(s[i]),
    ensures
        ({
            let k = digit_run_len(s, i);
            let (t, j) = spec_scan(s, i);
            &&& 1 <= k
            &&& j == i + k
            &&& t == Ok::<Token, LexError>(
                Token::Number(i64_specs::signed_crop(digits_value(s.subrange(i, i + k)))),
            )
            &&& digits_value(s.subrange(i, i + k)) <= i64::MAX ==> t == Ok::<Token, LexError>(
                Token::Number(digits_value(s.subrange(i, i + k)) as i64),
            )
            &&& j < s.len() ==> !is_digit(s[j])
        }),
{
    lemma_digit_run_maximal(s, i);
    lemma_digit_run_maximal(s, i + 1);
    let k = digit_run_len(s, i);
    let run = s.subrange(i, i + k);
    assert(forall|t: int| 0 <= t < run.len() ==> is_digit(#[trigger] run[t]));
    lemma_digits_value_nonneg(run);
    if digits_value(run) <= i64::MAX {
        lemma_crop_in_range(digits_value(run));
    }
}

/// Law: end of input is absorbing — once a scan returns `EOF`, scanning again
/// from where it rested returns `EOF` from that same position, forever.
pub proof fn lemma_eof_idempotent(s: Seq<u8>, i: int)
    requires
        0 <= i,
        spec_scan(s, i).0 == Ok::<Token, LexError>(Token::EOF),
    ensures
        spec_scan(s, spec_scan(s, i).1) == spec_scan(s, i),
    decreases s.len() - i,
{
    if i < s.len() {
        lemma_eof_idempotent(s, i + 1);
    }
}

/// One-token-lookahead scanner over an exclusively owned byte source.
pub struct Scanner {
    input: Vec<u8>,
    pos: usize,
    curr_char: Option<u8>,
}

impl Scanner {
    /// The full byte source this scanner reads.
    pub closed spec fn source(self) -> Seq<u8> {
        self.input@
    }

    /// The index of the buffered lookahead byte within the source: everything
    /// before it has been consumed.
    pub closed spec fn at(self) -> int {
        self.pos as int
    }

    /// Well-formedness: the buffered lookahead holds the next unconsumed byte,
    /// or the sentinel once the input is exhausted.
    pub closed spec fn inv(self) -> bool {
        &&& self.pos <= self.input.len()
        &&& self.curr_char == (if self.pos < self.input.len() {
            Some(self.input[self.pos as int])
        } else {
            None::<u8>
        })
    }

    /// Takes ownership of the input and primes the lookahead with its first
    /// byte; an empty input is captured as the end-of-input sentinel.
    pub fn new(input: Vec<u8>) -> (s: Scanner)
        ensures
            s.inv(),
            s.source() == input@,
            s.at() == 0,
    {
        let curr: Option<u8> = if input.len() > 0 {
            Some(input[0])
        } else {
            None
        };
        Scanner { input, pos: 0, curr_char: curr }
    }

    /// Advance the lookahead by one byte; once the input is exhausted the
    /// sentinel is held permanently.
    fn get_char(&mut self)
        requires
            old(self).inv(),
        ensures
            final(self).inv(),
            final(self).source() == old(self).source(),
            final(self).at() == if old(self).at() < old(self).source().len() {
                old(self).at() + 1
            } else {
                old(self).at()
            },
    {
        if self.pos < self.input.len() {
            self.pos = self.pos + 1;
        }
        self.curr_char = if self.pos < self.input.len() {
            Some(self.input[self.pos])
        } else {
            None
        };
    }

    /// Accumulates the maximal run of digit bytes at the lookahead into an
    /// `i64` by repeated `value = value * 10 + digit` with wrap-around, and
    /// leaves the first non-digit byte (or the sentinel) as the lookahead.
    fn get_number(&mut self) -> (n: i64)
        requires
            old(self).inv(),
        ensures
            final(self).inv(),
            final(self).source() == old(self).source(),
            final(self).at() == old(self).at() + digit_run_len(
                old(self).source(),
                old(self).at(),
            ),
            n == i64_specs::signed_crop(
                digits_value(old(self).source().subrange(old(self).at(), final(self).at())),
            ),
    {
        let ghost s = self.source();
        let ghost i0 = self.at();
        let mut number: i64 = 0;
        loop
            invariant
                s == old(self).source(),
                i0 == old(self).at(),
                self.inv(),
                self.source() == s,
                0 <= i0 <= self.at() <= s.len(),
                digit_run_len(s, i0) == (self.at() - i0) + digit_run_len(s, self.at()),
                number == i64_specs::signed_crop(digits_value(s.subrange(i0, self.at()))),
            decreases s.len() - self.at(),
        {
            let c_opt = self.curr_char;
            match c_opt {
                Some(c) => {
                    if 48 <= c && c <= 57 {
                        proof {
                            let j = self.at();
                            let prev = s.subrange(i0, j);
                            let ext = s.subrange(i0, j + 1);
                            assert(ext.drop_last() =~= prev);
                            assert(ext.last() == s[j]);
                            assert(digits_value(ext) == digits_value(prev) * 10 + (s[j] - 48));
                            lemma_crop_unwrap_add(number * 10, (c - 48) as int);
                            lemma_crop_digit_step(digits_value(prev), (c - 48) as int);
                            assert(digit_run_len(s, j) == 1 + digit_run_len(s, j + 1));
                        }
                        number = number.wrapping_mul(10).wrapping_add((c - 48) as i64);
                        self.get_char();
                    } else {
                        assert(digit_run_len(s, self.at()) == 0);
                        return number;
                    }
                },
                None => {
                    assert(digit_run_len(s, self.at()) == 0);
                    return number;
                },
            }
        }
    }

    /// Consumes any run of spaces and returns the next token, exactly as
    /// `spec_scan` describes, advancing the lookahead past all consumed bytes.
    pub fn get_token(&mut self) -> (r: Result<Token, LexError>)
        requires
            old(self).inv(),
        ensures
            final(self).inv(),
            final(self).source() == old(self).source(),
            ({
                let (t, j) = spec_scan(old(self).source(), old(self).at());
                r == t && final(self).at() == j
            }),
    {
        let ghost s = self.source();
        let ghost i0 = self.at();
        loop
            invariant
                s == old(self).source(),
                i0 == old(self).at(),
                self.inv(),
                self.source() == s,
                0 <= self.at() <= s.len(),
                spec_scan(s, self.at()) == spec_scan(s, i0),
            decreases s.len() - self.at(),
        {
            let c_opt = self.curr_char;
            match c_opt {
                None => {
                    return Ok(Token::EOF);
                },
                Some(c) => {
                    if c == 32 {  // space
                        self.get_char();
                    } else if c == 43 {  // '+'
                        self.get_char();
                        return Ok(Token::BinOp(Op::Add));
                    } else if c == 45 {  // '-'
                        self.get_char();
                        return Ok(Token::BinOp(Op::Subtract));
                    } else if c == 42 {  // '*'
                        self.get_char();
                        return Ok(Token::BinOp(Op::Multiply));
                    } else if c == 47 {  // '/'
                        self.get_char();
                        return Ok(Token::BinOp(Op::Divide));
                    } else if c == 37 {  // '%'
                        self.get_char();
                        return Ok(Token::BinOp(Op::Modulo));
                    } else if c == 10 {  // newline
                        self.get_char();
                        return Ok(Token::EOL);
                    } else if 48 <= c && c <= 57 {  // digit
                        let n = self.get_number();
                        return Ok(Token::Number(n));
                    } else {
                        self.get_char();
                        return Err(LexError::UnknownSymbol);
                    }
                },
            }
        }
    }
}

} // verus!
