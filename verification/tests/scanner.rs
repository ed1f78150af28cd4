use postfix::scanner::{LexError, Op, Scanner, Token};

#[test]
fn add_token() {
    let mut scanner = Scanner::new(b"+".to_vec());
    let token = scanner.get_token();
    assert_eq!(token, Ok(Token::BinOp(Op::Add)));
}

#[test]
fn whitespace_prefix_is_skipped() {
    let mut bare = Scanner::new(b"+".to_vec());
    let mut padded = Scanner::new(b"  +".to_vec());
    assert_eq!(bare.get_token(), Ok(Token::BinOp(Op::Add)));
    assert_eq!(padded.get_token(), Ok(Token::BinOp(Op::Add)));
}

#[test]
fn every_operator_scans() {
    let mut scanner = Scanner::new(b"+ - * / %".to_vec());
    assert_eq!(scanner.get_token(), Ok(Token::BinOp(Op::Add)));
    assert_eq!(scanner.get_token(), Ok(Token::BinOp(Op::Subtract)));
    assert_eq!(scanner.get_token(), Ok(Token::BinOp(Op::Multiply)));
    assert_eq!(scanner.get_token(), Ok(Token::BinOp(Op::Divide)));
    assert_eq!(scanner.get_token(), Ok(Token::BinOp(Op::Modulo)));
    assert_eq!(scanner.get_token(), Ok(Token::EOF));
}

#[test]
fn number_accumulates_digits() {
    let mut scanner = Scanner::new(b"123".to_vec());
    assert_eq!(scanner.get_token(), Ok(Token::Number(123)));
    assert_eq!(scanner.get_token(), Ok(Token::EOF));
}

#[test]
fn number_stops_at_first_non_digit() {
    let mut scanner = Scanner::new(b"123+45".to_vec());
    assert_eq!(scanner.get_token(), Ok(Token::Number(123)));
    assert_eq!(scanner.get_token(), Ok(Token::BinOp(Op::Add)));
    assert_eq!(scanner.get_token(), Ok(Token::Number(45)));
}

#[test]
fn newline_is_its_own_token() {
    let mut scanner = Scanner::new(b"7\n8".to_vec());
    assert_eq!(scanner.get_token(), Ok(Token::Number(7)));
    assert_eq!(scanner.get_token(), Ok(Token::EOL));
    assert_eq!(scanner.get_token(), Ok(Token::Number(8)));
}

#[test]
fn minus_is_always_an_operator() {
    let mut scanner = Scanner::new(b"-5".to_vec());
    assert_eq!(scanner.get_token(), Ok(Token::BinOp(Op::Subtract)));
    assert_eq!(scanner.get_token(), Ok(Token::Number(5)));
}

#[test]
fn end_of_input_repeats_forever() {
    let mut scanner = Scanner::new(Vec::new());
    assert_eq!(scanner.get_token(), Ok(Token::EOF));
    assert_eq!(scanner.get_token(), Ok(Token::EOF));
    assert_eq!(scanner.get_token(), Ok(Token::EOF));
}

#[test]
fn end_of_input_after_token_repeats() {
    let mut scanner = Scanner::new(b"9".to_vec());
    assert_eq!(scanner.get_token(), Ok(Token::Number(9)));
    assert_eq!(scanner.get_token(), Ok(Token::EOF));
    assert_eq!(scanner.get_token(), Ok(Token::EOF));
}

#[test]
fn unknown_symbol_is_rejected_and_consumed() {
    let mut scanner = Scanner::new(b"a 1".to_vec());
    assert_eq!(scanner.get_token(), Err(LexError::UnknownSymbol));
    assert_eq!(scanner.get_token(), Ok(Token::Number(1)));
}

#[test]
fn digit_accumulation_wraps_around() {
    // 18446744073709551617 == 2^64 + 1, which wraps to 1
    let mut scanner = Scanner::new(b"18446744073709551617".to_vec());
    assert_eq!(scanner.get_token(), Ok(Token::Number(1)));
    // 9223372036854775808 == 2^63, which wraps to i64::MIN
    let mut scanner = Scanner::new(b"9223372036854775808".to_vec());
    assert_eq!(scanner.get_token(), Ok(Token::Number(i64::MIN)));
}
