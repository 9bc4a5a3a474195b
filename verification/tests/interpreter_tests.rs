use ornn::interpreter::{binary_rule, fixed_runtime_error, unary_rule, BinaryRule, Interpreter, UnaryRule, ValueKind};
use ornn::token::{Literal, Token, TokenType};
use ValueKind::{Bool, Nil, Number, String};

#[test]
fn truthiness() {
    assert!(!ValueKind::Nil.is_truthy());
    assert!(!ValueKind::Bool(false).is_truthy());
    assert!(ValueKind::Bool(true).is_truthy());
    assert!(ValueKind::Number.is_truthy());
    assert!(ValueKind::String.is_truthy());
}

#[test]
fn unary_rules() {
    assert_eq!(unary_rule(TokenType::MINUS, ValueKind::Number), UnaryRule::Negate);
    assert_eq!(unary_rule(TokenType::MINUS, ValueKind::String), UnaryRule::NotANumber);
    assert_eq!(unary_rule(TokenType::MINUS, ValueKind::Nil), UnaryRule::NotANumber);
    assert_eq!(unary_rule(TokenType::BANG, ValueKind::Number), UnaryRule::Not);
    assert_eq!(unary_rule(TokenType::BANG, ValueKind::Bool(true)), UnaryRule::Not);
}

#[test]
fn binary_rules() {
    assert_eq!(binary_rule(TokenType::EQUAL_EQUAL, Number, String), BinaryRule::Equal);
    assert_eq!(binary_rule(TokenType::BANG_EQUAL, Nil, Bool(true)), BinaryRule::NotEqual);
    assert_eq!(binary_rule(TokenType::PLUS, Number, Number), BinaryRule::Arithmetic);
    assert_eq!(binary_rule(TokenType::SLASH, Number, Number), BinaryRule::Arithmetic);
    assert_eq!(binary_rule(TokenType::LESS_EQUAL, Number, Number), BinaryRule::Compare);
    assert_eq!(binary_rule(TokenType::GREATER, Number, Number), BinaryRule::Compare);
    assert_eq!(binary_rule(TokenType::PLUS, String, String), BinaryRule::Concatenate);
    assert_eq!(binary_rule(TokenType::MINUS, String, String), BinaryRule::UnsupportedStringOperation);
    assert_eq!(binary_rule(TokenType::LESS, String, String), BinaryRule::UnsupportedStringOperation);
    assert_eq!(binary_rule(TokenType::PLUS, String, Number), BinaryRule::UnsupportedOperands);
    assert_eq!(binary_rule(TokenType::STAR, Nil, Nil), BinaryRule::UnsupportedOperands);
}

#[test]
fn fixed_error_messages() {
    let op = Token::new(TokenType::MINUS, "-", Literal::Nil, 4);
    let e = fixed_runtime_error(&op, true);
    assert_eq!(e.message, "Operand must be a number");
    assert_eq!(e.token.lexeme, "-");
    assert_eq!(e.token.line, 4);
    let e = fixed_runtime_error(&op, false);
    assert_eq!(e.message, "Unsupported string operation");
}

#[test]
fn interpreter_can_be_made() {
    let _interpreter = Interpreter::new();
}

#[test]
fn concatenation_joins_left_then_right() {
    assert_eq!(ornn::interpreter::concatenate("ab", "cd"), "abcd");
    assert_eq!(ornn::interpreter::concatenate("", "x"), "x");
    assert_eq!(ornn::interpreter::concatenate("y", ""), "y");
}
