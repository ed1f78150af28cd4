use postfix::eval::{run, EvalError, Evaluator};
use postfix::scanner::{Op, Token};

#[test]
fn scenario_addition() {
    let (results, error) = run(b"3 4 +\n".to_vec());
    assert_eq!(results, vec![7]);
    assert_eq!(error, None);
}

#[test]
fn scenario_truncating_division() {
    let (results, error) = run(b"10 3 /\n".to_vec());
    assert_eq!(results, vec![3]);
    assert_eq!(error, None);
}

#[test]
fn scenario_modulo() {
    let (results, error) = run(b"10 3 %\n".to_vec());
    assert_eq!(results, vec![1]);
    assert_eq!(error, None);
}

#[test]
fn scenario_divide_by_zero_halts() {
    let (results, error) = run(b"5 0 /\n".to_vec());
    assert_eq!(results, Vec::<i64>::new());
    assert_eq!(error, Some(EvalError::DivideOrModuloByZero));
}

#[test]
fn modulo_by_zero_halts() {
    let (results, error) = run(b"5 0 %\n".to_vec());
    assert_eq!(results, Vec::<i64>::new());
    assert_eq!(error, Some(EvalError::DivideOrModuloByZero));
}

#[test]
fn scenario_blank_line_emits_nothing() {
    let (results, error) = run(b"\n".to_vec());
    assert_eq!(results, Vec::<i64>::new());
    assert_eq!(error, None);
    // a blank line does not halt the run: later input is still evaluated
    let (results, error) = run(b"\n3 4 +\n".to_vec());
    assert_eq!(results, vec![7]);
    assert_eq!(error, None);
}

#[test]
fn scenario_malformed_line() {
    let (results, error) = run(b"3 4 5 +\n".to_vec());
    assert_eq!(results, Vec::<i64>::new());
    assert_eq!(error, Some(EvalError::MalformedLine));
}

#[test]
fn operator_without_operands_underflows() {
    let (results, error) = run(b"3 +\n".to_vec());
    assert_eq!(results, Vec::<i64>::new());
    assert_eq!(error, Some(EvalError::StackUnderflow));
}

#[test]
fn unknown_symbol_is_fatal() {
    let (results, error) = run(b"x\n".to_vec());
    assert_eq!(results, Vec::<i64>::new());
    assert_eq!(error, Some(EvalError::UnknownSymbol));
}

#[test]
fn results_kept_before_fatal_error() {
    let (results, error) = run(b"1 2 +\n5 0 /\n".to_vec());
    assert_eq!(results, vec![3]);
    assert_eq!(error, Some(EvalError::DivideOrModuloByZero));
}

#[test]
fn several_lines_emit_in_order() {
    let (results, error) = run(b"1 2 +\n4 5 *\n9 2 -\n".to_vec());
    assert_eq!(results, vec![3, 20, 7]);
    assert_eq!(error, None);
}

#[test]
fn division_truncates_toward_zero() {
    // -7 / 2 == -3 and -7 % 3 == -1 with truncation toward zero
    let (results, error) = run(b"0 7 - 2 /\n".to_vec());
    assert_eq!(results, vec![-3]);
    assert_eq!(error, None);
    let (results, error) = run(b"0 7 - 3 %\n".to_vec());
    assert_eq!(results, vec![-1]);
    assert_eq!(error, None);
}

#[test]
fn smallest_value_divided_by_minus_one_wraps() {
    // 9223372036854775808 scans to i64::MIN; dividing by -1 wraps back to it
    let (results, error) = run(b"9223372036854775808 0 1 - /\n".to_vec());
    assert_eq!(results, vec![i64::MIN]);
    assert_eq!(error, None);
    let (results, error) = run(b"9223372036854775808 0 1 - %\n".to_vec());
    assert_eq!(results, vec![0]);
    assert_eq!(error, None);
}

#[test]
fn addition_wraps_on_overflow() {
    let (results, error) = run(b"9223372036854775807 1 +\n".to_vec());
    assert_eq!(results, vec![i64::MIN]);
    assert_eq!(error, None);
}

#[test]
fn step_round_trip() {
    let mut ev = Evaluator::new();
    assert_eq!(ev.step(Token::Number(10)), Ok(None));
    assert_eq!(ev.step(Token::Number(3)), Ok(None));
    assert_eq!(ev.step(Token::BinOp(Op::Divide)), Ok(None));
    assert_eq!(ev.step(Token::EOL), Ok(Some(3)));
}

#[test]
fn step_reports_underflow_and_keeps_stack() {
    let mut ev = Evaluator::new();
    assert_eq!(ev.step(Token::Number(1)), Ok(None));
    assert_eq!(ev.step(Token::BinOp(Op::Add)), Err(EvalError::StackUnderflow));
    // the operand is still there: ending the line emits it
    assert_eq!(ev.step(Token::EOL), Ok(Some(1)));
}

#[test]
fn step_end_of_input_reports_nothing() {
    let mut ev = Evaluator::new();
    assert_eq!(ev.step(Token::EOF), Ok(None));
}
