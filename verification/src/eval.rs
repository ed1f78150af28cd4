//! Stack-based evaluation of the token stream, line by line.
//!
//! The evaluator pulls tokens from the scanner one at a time and drives a
//! stack of `i64` values: a number is pushed, a binary operator pops its two
//! operands and pushes the result, a newline reduces the line — emitting the
//! single remaining value, or nothing for a blank line — and end of input
//! halts the machine. Every error is fatal: nothing is retried or skipped.

use vstd::prelude::*;

verus! {

use vstd::wrapping::i64_specs;
use crate::arith::{
    lemma_crop_in_range, lemma_trunc_div_in_range, lemma_trunc_rem_in_range, trunc_div, trunc_rem,
};
use crate::scanner::{
    digits_value, is_digit, lemma_digit_run_len_exact, lemma_scan_advances, op_symbol, spec_scan,
    LexError, Op, Scanner, Token,
};

/// A fatal evaluation failure; none of these is ever retried or recovered.
#[derive(Clone, Copy, Debug, PartialEq, Eq, Structural)]
pub enum EvalError {
    /// The scanner met a byte outside the token alphabet.
    UnknownSymbol,
    /// A binary operator arrived with fewer than two operands on the stack.
    StackUnderflow,
    /// Division or modulo with a zero right-hand side.
    DivideOrModuloByZero,
    /// A line ended with a stack holding neither zero nor one value.
    MalformedLine,
}

/// Whether `op` demands a nonzero right-hand operand.
pub open spec fn needs_nonzero_rhs(op: Op) -> bool {
    op == Op::Divide || op == Op::Modulo
}

/// The value `lhs op rhs` computes on 64-bit machine integers: exact
/// arithmetic reduced into `i64`'s range by wrap-around, with division and
/// remainder truncating toward zero (their right-hand side must be nonzero).
pub open spec fn apply_op(op: Op, lhs: i64, rhs: i64) -> i64 {
    match op {
        Op::Add => i64_specs::wrapping_add(lhs, rhs),
        Op::Subtract => i64_specs::wrapping_sub(lhs, rhs),
        Op::Multiply => i64_specs::wrapping_mul(lhs, rhs),
        Op::Divide => i64_specs::signed_crop(trunc_div(lhs as int, rhs as int)),
        Op::Modulo => i64_specs::signed_crop(trunc_rem(lhs as int, rhs as int)),
    }
}

/// One evaluator transition on a token: the stack afterwards, whether the
/// machine has halted, and what the step reports — a value to emit for a
/// reduced line, nothing, or a fatal error. On an error the stack is left as
/// it stood.
pub open spec fn spec_step(stack: Seq<i64>, t: Token) -> (Seq<i64>, bool, Result<
    Option<i64>,
    EvalError,
>) {
    match t {
        Token::Number(n) => (stack.push(n), false, Ok(None)),
        Token::BinOp(op) => {
            if stack.len() < 2 {
                (stack, false, Err(EvalError::StackUnderflow))
            } else {
                let rhs = stack[stack.len() - 1];
                let lhs = stack[stack.len() - 2];
                if needs_nonzero_rhs(op) && rhs == 0 {
                    (stack, false, Err(EvalError::DivideOrModuloByZero))
                } else {
                    (
                        stack.take(stack.len() - 2).push(apply_op(op, lhs, rhs)),
                        false,
                        Ok(None),
                    )
                }
            }
        },
        Token::EOL => {
            if stack.len() == 1 {
                (Seq::<i64>::empty(), false, Ok(Some(stack[0])))
            } else if stack.len() == 0 {
                (stack, false, Ok(None))
            } else {
                (stack, false, Err(EvalError::MalformedLine))
            }
        },
        Token::EOF => (stack, true, Ok(None)),
    }
}

/// The whole pipeline over the source bytes from index `i`, with the given
/// stack: the sequence of line results emitted from that point on, and the
/// fatal error that cuts the run short, if any. A scan error surfaces as
/// `UnknownSymbol`; `EOF` ends the run cleanly with whatever was emitted.
pub open spec fn spec_run(s: Seq<u8>, i: int, stack: Seq<i64>) -> (Seq<i64>, Option<EvalError>)
    decreases s.len() - i,
    via spec_run_decreases
{
    let (t, j) = spec_scan(s, i);
    match t {
        Err(_) => (Seq::<i64>::empty(), Some(EvalError::UnknownSymbol)),
        Ok(Token::EOF) => (Seq::<i64>::empty(), None),
        Ok(tok) => {
            let (stack2, _halted, res) = spec_step(stack, tok);
            match res {
                Err(e) => (Seq::<i64>::empty(), Some(e)),
                Ok(out) => {
                    let (rest, err) = spec_run(s, j, stack2);
                    match out {
                        Some(v) => (seq![v] + rest, err),
                        None => (rest, err),
                    }
                },
            }
        },
    }
}

#[via_fn]
proof fn spec_run_decreases(s: Seq<u8>, i: int, stack: Seq<i64>) {
    if 0 <= i <= s.len() {
        lemma_scan_advances(s, i);
    }
}

/// Round-trip law: pushing `n`, pushing `m` and applying `op` on a fresh
/// machine, then ending the line, emits exactly `n op m` — wrapped on
/// overflow, with division truncating toward zero — with no error and an
/// empty stack left behind; provided only that `op` is not a division or
/// modulo with `m == 0`.
pub proof fn lemma_round_trip(n: i64, m: i64, op: Op)
    requires
        !(needs_nonzero_rhs(op) && m == 0),
    ensures
        ({
            let (st1, h1, r1) = spec_step(Seq::<i64>::empty(), Token::Number(n));
            let (st2, h2, r2) = spec_step(st1, Token::Number(m));
            let (st3, h3, r3) = spec_step(st2, Token::BinOp(op));
            let (st4, h4, r4) = spec_step(st3, Token::EOL);
            &&& r1 == Ok::<Option<i64>, EvalError>(None)
            &&& r2 == Ok::<Option<i64>, EvalError>(None)
            &&& r3 == Ok::<Option<i64>, EvalError>(None)
            &&& r4 == Ok::<Option<i64>, EvalError>(Some(apply_op(op, n, m)))
            &&& st4 == Seq::<i64>::empty()
            &&& !h1 && !h2 && !h3 && !h4
        }),
{
    let st2 = Seq::<i64>::empty().push(n).push(m);
    assert(st2.len() == 2 && st2[0] == n && st2[1] == m);
    let st3 = spec_step(st2, Token::BinOp(op)).0;
    assert(st3 =~= Seq::<i64>::empty().push(apply_op(op, n, m)));
}

/// Round-trip law over the textual form: a line that spells two numbers as
/// digit runs and then an operator symbol — "N M op" followed by a newline —
/// scans and evaluates to exactly the one value `N op M`, with no error;
/// provided only that `op` is not a division or modulo whose right-hand
/// number scans to zero.
pub proof fn lemma_round_trip_text(d1: Seq<u8>, d2: Seq<u8>, op: Op)
    requires
        d1.len() >= 1,
        d2.len() >= 1,
        forall|t: int| 0 <= t < d1.len() ==> is_digit(#[trigger] d1[t]),
        forall|t: int| 0 <= t < d2.len() ==> is_digit(#[trigger] d2[t]),
        !(needs_nonzero_rhs(op) && i64_specs::signed_crop(digits_value(d2)) == 0),
    ensures
        ({
            let s = d1 + seq![32u8] + d2 + seq![32u8, op_symbol(op), 10u8];
            let n = i64_specs::signed_crop(digits_value(d1));
            let m = i64_specs::signed_crop(digits_value(d2));
            spec_run(s, 0, Seq::<i64>::empty()) == (
                seq![apply_op(op, n, m)],
                None::<EvalError>,
            )
        }),
{
    let s = d1 + seq![32u8] + d2 + seq![32u8, op_symbol(op), 10u8];
    let n = i64_specs::signed_crop(digits_value(d1));
    let m = i64_specs::signed_crop(digits_value(d2));
    let l1 = d1.len() as int;
    let l2 = d2.len() as int;
    let j2 = l1 + 1 + l2;
    assert(s.len() == l1 + l2 + 4);

    // the first number: a digit run of exactly d1, ended by the space
    assert(forall|t: int| 0 <= t < l1 ==> #[trigger] s[t] == d1[t]);
    assert(s[l1] == 32);
    lemma_digit_run_len_exact(s, 0, l1);
    assert(s.subrange(0, l1) =~= d1);
    assert(spec_scan(s, 0) == (Ok::<Token, LexError>(Token::Number(n)), l1));

    // the second number: a space, then a digit run of exactly d2
    assert(forall|t: int| l1 + 1 <= t < j2 ==> #[trigger] s[t] == d2[t - l1 - 1]);
    assert(s[j2] == 32);
    lemma_digit_run_len_exact(s, l1 + 1, l2);
    assert(s.subrange(l1 + 1, j2) =~= d2);
    assert(spec_scan(s, l1) == spec_scan(s, l1 + 1));
    assert(spec_scan(s, l1) == (Ok::<Token, LexError>(Token::Number(m)), j2));

    // the operator: a space, then its symbol
    assert(s[j2 + 1] == op_symbol(op));
    assert(s[j2 + 2] == 10);
    assert(spec_scan(s, j2) == spec_scan(s, j2 + 1));
    assert(spec_scan(s, j2) == (Ok::<Token, LexError>(Token::BinOp(op)), j2 + 2));

    // the line end, and then nothing
    assert(spec_scan(s, j2 + 2) == (Ok::<Token, LexError>(Token::EOL), j2 + 3));
    assert(spec_scan(s, j2 + 3) == (Ok::<Token, LexError>(Token::EOF), j2 + 3));

    // replay the four tokens through the evaluation
    let st0 = Seq::<i64>::empty();
    let st1 = st0.push(n);
    let st2 = st1.push(m);
    assert(st2.len() == 2 && st2[0] == n && st2[1] == m);
    let result = apply_op(op, n, m);
    let st3 = st2.take(0).push(result);
    assert(st3.len() == 1 && st3[0] == result);
    assert(spec_step(st2, Token::BinOp(op)) == (st3, false, Ok::<Option<i64>, EvalError>(None)));

    assert(spec_run(s, j2 + 3, st0) == (Seq::<i64>::empty(), None::<EvalError>));
    assert(spec_run(s, j2 + 2, st3) == (seq![result] + Seq::<i64>::empty(), None::<EvalError>));
    assert(seq![result] + Seq::<i64>::empty() =~= seq![result]);
    assert(spec_run(s, j2, st2) == (seq![result], None::<EvalError>));
    assert(spec_run(s, l1, st1) == (seq![result], None::<EvalError>));
    assert(spec_run(s, 0, st0) == (seq![result], None::<EvalError>));
}

/// The postfix stack machine: running until `EOF` arrives, halted afterwards.
pub struct Evaluator {
    stack: Vec<i64>,
    halted: bool,
}

impl Evaluator {
    /// The evaluation stack, oldest value first.
    pub closed spec fn stack_view(self) -> Seq<i64> {
        self.stack@
    }

    /// Whether the machine has seen `EOF` and stopped.
    pub closed spec fn is_halted(self) -> bool {
        self.halted
    }

    /// A fresh machine: running, with an empty stack.
    pub fn new() -> (e: Evaluator)
        ensures
            e.stack_view() == Seq::<i64>::empty(),
            !e.is_halted(),
    {
        Evaluator { stack: Vec::new(), halted: false }
    }

    /// Feeds one token to the machine, transitioning exactly as `spec_step`
    /// describes.
    pub fn step(&mut self, t: Token) -> (r: Result<Option<i64>, EvalError>)
        requires
            !old(self).is_halted(),
        ensures
            ({
                let (st, h, res) = spec_step(old(self).stack_view(), t);
                final(self).stack_view() == st && final(self).is_halted() == h && r == res
            }),
    {
        match t {
            Token::Number(n) => {
                self.stack.push(n);
                Ok(None)
            },
            Token::BinOp(op) => {
                let len = self.stack.len();
                if len < 2 {
                    return Err(EvalError::StackUnderflow);
                }
                let rhs = self.stack[len - 1];
                let lhs = self.stack[len - 2];
                let needs_nonzero = match op {
                    Op::Divide => true,
                    Op::Modulo => true,
                    _ => false,
                };
                if needs_nonzero && rhs == 0 {
                    return Err(EvalError::DivideOrModuloByZero);
                }
                let v = apply_op_exec(op, lhs, rhs);
                self.stack.pop();
                self.stack.pop();
                proof {
                    assert(self.stack@ =~= old(self).stack_view().take(len - 2));
                }
                self.stack.push(v);
                Ok(None)
            },
            Token::EOL => {
                let len = self.stack.len();
                if len == 1 {
                    let v = self.stack.pop().unwrap();
                    proof {
                        assert(self.stack@ =~= Seq::<i64>::empty());
                    }
                    Ok(Some(v))
                } else if len == 0 {
                    Ok(None)
                } else {
                    Err(EvalError::MalformedLine)
                }
            },
            Token::EOF => {
                self.halted = true;
                Ok(None)
            },
        }
    }
}

/// Computes `lhs op rhs` on machine integers, wrapping on overflow, with
/// division and remainder truncating toward zero.
fn apply_op_exec(op: Op, lhs: i64, rhs: i64) -> (r: i64)
    requires
        needs_nonzero_rhs(op) ==> rhs != 0,
    ensures
        r == apply_op(op, lhs, rhs),
{
    match op {
        Op::Add => lhs.wrapping_add(rhs),
        Op::Subtract => lhs.wrapping_sub(rhs),
        Op::Multiply => lhs.wrapping_mul(rhs),
        Op::Divide => {
            if lhs == i64::MIN && rhs == -1 {
                proof {
                    assert(trunc_div(lhs as int, rhs as int) == 0x8000_0000_0000_0000);
                    assert(i64_specs::signed_crop(0x8000_0000_0000_0000) == i64::MIN);
                }
                i64::MIN
            } else {
                proof {
                    lemma_trunc_div_in_range(lhs as int, rhs as int);
                    lemma_crop_in_range(trunc_div(lhs as int, rhs as int));
                }
                lhs.checked_div(rhs).unwrap()
            }
        },
        Op::Modulo => {
            if lhs == i64::MIN && rhs == -1 {
                proof {
                    assert(trunc_rem(lhs as int, rhs as int) == 0);
                    assert(i64_specs::signed_crop(0) == 0);
                }
                0
            } else {
                proof {
                    lemma_trunc_rem_in_range(lhs as int, rhs as int);
                    lemma_crop_in_range(trunc_rem(lhs as int, rhs as int));
                }
                lhs.checked_rem(rhs).unwrap()
            }
        },
    }
}

/// Evaluates a whole byte source: pulls tokens one at a time and feeds them
/// to a fresh machine until `EOF` or the first fatal error, collecting every
/// emitted line result in order, exactly as `spec_run` describes.
pub fn run(input: Vec<u8>) -> (r: (Vec<i64>, Option<EvalError>))
    ensures
        (r.0@, r.1) == spec_run(input@, 0, Seq::<i64>::empty()),
{
    let ghost s = input@;
    let mut scanner = Scanner::new(input);
    let mut ev = Evaluator::new();
    let mut outputs: Vec<i64> = Vec::new();
    proof {
        assert(outputs@ + spec_run(s, 0, Seq::<i64>::empty()).0 =~= spec_run(
            s,
            0,
            Seq::<i64>::empty(),
        ).0);
    }
    loop
        invariant
            s == input@,
            scanner.inv(),
            scanner.source() == s,
            0 <= scanner.at() <= s.len(),
            !ev.is_halted(),
            ({
                let (rest, err) = spec_run(s, scanner.at(), ev.stack_view());
                spec_run(s, 0, Seq::<i64>::empty()) == (outputs@ + rest, err)
            }),
        decreases s.len() - scanner.at(),
    {
        let ghost i_before = scanner.at();
        let ghost st_before = ev.stack_view();
        proof {
            lemma_scan_advances(s, i_before);
        }
        let t = scanner.get_token();
        match t {
            Err(_) => {
                proof {
                    assert(outputs@ + Seq::<i64>::empty() =~= outputs@);
                }
                return (outputs, Some(EvalError::UnknownSymbol));
            },
            Ok(tok) => {
                match tok {
                    Token::EOF => {
                        proof {
                            assert(outputs@ + Seq::<i64>::empty() =~= outputs@);
                        }
                        return (outputs, None);
                    },
                    _ => {
                        match ev.step(tok) {
                            Ok(Some(v)) => {
                                proof {
                                    let (rest, _err) = spec_run(s, scanner.at(), ev.stack_view());
                                    assert(outputs@ + (seq![v] + rest) =~= outputs@.push(v) + rest);
                                }
                                outputs.push(v);
                            },
                            Ok(None) => {},
                            Err(e) => {
                                proof {
                                    assert(outputs@ + Seq::<i64>::empty() =~= outputs@);
                                }
                                return (outputs, Some(e));
                            },
                        }
                    },
                }
            },
        }
    }
}

} // verus!
