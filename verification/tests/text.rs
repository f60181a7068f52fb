use arithmetic::common::text::{digit_to_char, push_decimal, push_signed_decimal};
use arithmetic::interpreter::{EvalError, Interpreter};
use arithmetic::lexer::{LexError, Token};
use arithmetic::parser::{Expected, Expression, Operation, ParseError};

fn binary(left: Expression, operation: Operation, right: Expression) -> Expression {
    Expression::BinaryOperation(Box::new(left), operation, Box::new(right))
}

#[test]
fn digits_as_characters() {
    assert_eq!('0', digit_to_char(0));
    assert_eq!('5', digit_to_char(5));
    assert_eq!('9', digit_to_char(9));
}

#[test]
fn decimal_is_appended() {
    let mut text = String::from("n=");
    push_decimal(&mut text, 0);
    assert_eq!("n=0", text);
    push_decimal(&mut text, 9);
    push_decimal(&mut text, 10);
    push_decimal(&mut text, 4294967295);
    assert_eq!("n=09104294967295", text);
    let mut large = String::new();
    push_decimal(&mut large, u64::MAX);
    assert_eq!("18446744073709551615", large);
}

#[test]
fn signed_decimal_is_appended() {
    let mut text = String::new();
    push_signed_decimal(&mut text, -1);
    assert_eq!("-1", text);
    push_signed_decimal(&mut text, 0);
    push_signed_decimal(&mut text, i32::MIN);
    push_signed_decimal(&mut text, i32::MAX);
    assert_eq!("-10-21474836482147483647", text);
}

#[test]
fn tokens_are_written_out() {
    assert_eq!("Integer(12)", Token::Integer(12).to_string());
    assert_eq!("Integer(0)", Token::Integer(0).to_string());
    assert_eq!("Integer(4294967295)", Token::Integer(u32::MAX).to_string());
    assert_eq!("Plus", Token::Plus.to_string());
    assert_eq!("Minus", Token::Minus.to_string());
    assert_eq!("Times", Token::Times.to_string());
    assert_eq!("Div", Token::Div.to_string());
    assert_eq!("LeftParen", Token::LeftParen.to_string());
    assert_eq!("RightParen", Token::RightParen.to_string());
    assert_eq!(format!("{:?}", Token::Integer(305)), Token::Integer(305).to_string());
}

#[test]
fn operations_are_written_out() {
    assert_eq!("Plus", Operation::Plus.to_string());
    assert_eq!("Minus", Operation::Minus.to_string());
    assert_eq!("Times", Operation::Times.name());
    assert_eq!("Div", Operation::Div.name());
}

#[test]
fn expressions_are_written_out() {
    assert_eq!("Integer(42)", Expression::Integer(42).to_string());
    assert_eq!("UnaryMinus(Integer(5))",
               Expression::UnaryMinus(Box::new(Expression::Integer(5))).to_string());
    let sum = binary(Expression::Integer(1), Operation::Plus, Expression::Integer(2));
    assert_eq!("BinaryOperation(Integer(1), Plus, Integer(2))", sum.to_string());
    let nested = binary(sum,
                        Operation::Div,
                        Expression::UnaryMinus(Box::new(Expression::Integer(30))));
    assert_eq!("BinaryOperation(BinaryOperation(Integer(1), Plus, Integer(2)), Div, UnaryMinus(Integer(30)))",
               nested.to_string());
    assert_eq!(format!("{:?}", nested), nested.to_string());
}

#[test]
fn lexical_error_message() {
    assert_eq!("Unknown character: f", LexError::UnknownCharacter('f').to_string());
    assert_eq!("Unknown character: \u{e9}", LexError::UnknownCharacter('\u{e9}').to_string());
}

#[test]
fn syntax_error_messages() {
    assert_eq!("Out of tokens", ParseError::OutOfTokens.to_string());
    assert_eq!("Unexpected token: Integer(2).  Expected right paren",
               ParseError::UnexpectedToken(Token::Integer(2), Expected::RightParen).to_string());
    assert_eq!("Unexpected token: Plus.  Expected left paren; integer; unary minus",
               ParseError::UnexpectedToken(Token::Plus, Expected::Primary).to_string());
    assert_eq!("Extra tokens after position 1", ParseError::ExtraTokensAfter(1).to_string());
    assert_eq!("Extra tokens after position 120", ParseError::ExtraTokensAfter(120).to_string());
    assert_eq!("right paren", Expected::RightParen.description());
    assert_eq!("left paren; integer; unary minus", Expected::Primary.description());
}

#[test]
fn arithmetic_error_messages() {
    assert_eq!("addition overflow", EvalError::Overflow(Operation::Plus).to_string());
    assert_eq!("subtraction overflow", EvalError::Overflow(Operation::Minus).to_string());
    assert_eq!("multiplication overflow", EvalError::Overflow(Operation::Times).to_string());
    assert_eq!("Division overflow / underflow", EvalError::Overflow(Operation::Div).to_string());
    assert_eq!("Division by zero", EvalError::DivisionByZero.message());
}

#[test]
fn outcome_is_shown() {
    let sum = binary(Expression::Integer(1), Operation::Plus, Expression::Integer(6));
    assert_eq!(Ok(7), sum.evaluate_toplevel().result());
    assert_eq!("7", sum.evaluate_toplevel().to_string());
    let negative = Expression::UnaryMinus(Box::new(Expression::Integer(5)));
    assert_eq!("-5", negative.evaluate_toplevel().to_string());
    assert_eq!("0", Expression::Integer(0).evaluate_toplevel().to_string());
    assert_eq!("-2147483648", Expression::Integer(2147483648).evaluate_toplevel().to_string());
    assert_eq!("2147483647", Expression::Integer(2147483647).evaluate_toplevel().to_string());
}

#[test]
fn failed_outcome_is_shown() {
    let zero = binary(Expression::Integer(1), Operation::Div, Expression::Integer(0));
    assert_eq!(Err(EvalError::DivisionByZero), zero.evaluate_toplevel().result());
    assert_eq!("Error: Division by zero", zero.evaluate_toplevel().to_string());
    let over = binary(Expression::Integer(2147483647), Operation::Plus, Expression::Integer(1));
    assert_eq!("Error: addition overflow", over.evaluate_toplevel().to_string());
    let under = binary(Expression::Integer(2147483648), Operation::Minus, Expression::Integer(1));
    assert_eq!("Error: subtraction overflow", under.evaluate_toplevel().to_string());
    let product = binary(Expression::Integer(65536), Operation::Times, Expression::Integer(65536));
    assert_eq!("Error: multiplication overflow", product.evaluate_toplevel().to_string());
    let quotient = binary(Expression::Integer(2147483648), Operation::Div, Expression::Integer(4294967295));
    assert_eq!("Error: Division overflow / underflow", quotient.evaluate_toplevel().to_string());
}

fn line(text: &str) -> String {
    arithmetic::handle_string(text.chars().collect())
}

#[test]
fn report_of_a_value() {
    assert_eq!("Interpreter result: 7", line("1 + 2 * 3"));
    assert_eq!("Interpreter result: 9", line("(1+2)*3"));
    assert_eq!("Interpreter result: -5", line("-5"));
    assert_eq!("Interpreter result: 123", line("123+4-(5*6)/7"));
}

#[test]
fn report_of_an_arithmetic_error() {
    assert_eq!("Interpreter result: Error: Division by zero", line("1/0"));
    assert_eq!("Interpreter result: Error: addition overflow", line("2147483647+1"));
}

#[test]
fn report_of_a_syntax_error() {
    assert_eq!("Parse error: Out of tokens", line(""));
    assert_eq!("Parse error: Out of tokens", line("(1"));
    assert_eq!("Parse error: Extra tokens after position 1", line("1 2"));
    assert_eq!("Parse error: Unexpected token: Integer(2).  Expected right paren", line("(1 2"));
    assert_eq!("Parse error: Unexpected token: Times.  Expected left paren; integer; unary minus",
               line("* 2"));
}

#[test]
fn report_of_a_lexical_error() {
    assert_eq!("Lexer error: Unknown character: x", line("1 + x"));
    assert_eq!("Lexer error: Unknown character: x", line("(x"));
}
