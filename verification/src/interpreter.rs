//! The decisions the evaluator makes about runtime values.
//!
//! Arithmetic on numbers is left to the caller; this module decides, from
//! the operator and the kinds of the operands, what an operation does.

use vstd::prelude::*;

use crate::text::push_str;
use crate::token::{Token, TokenType};

verus! {

/// An error that evaluation reports at an operator token.
pub struct RuntimeError {
    pub token: Token,
    pub message: String,
}

/// Evaluates expressions.
pub struct Interpreter {}

impl Interpreter {
    pub fn new() -> Interpreter {
        Interpreter {}
    }
}

/// The kind of a runtime value; a boolean carries its truth value.
#[derive(Clone, Copy, Debug, PartialEq, Eq, Structural)]
pub enum ValueKind {
    Nil,
    String,
    Number,
    Bool(bool),
}

/// Whether a value of this kind counts as true: `nil` and `false` do not,
/// everything else does.
pub open spec fn truthy(kind: ValueKind) -> bool {
    match kind {
        ValueKind::Nil => false,
        ValueKind::Bool(b) => b,
        _ => true,
    }
}

impl ValueKind {
    pub fn is_truthy(&self) -> (r: bool)
        ensures
            r == truthy(*self),
    {
        match self {
            ValueKind::Nil => false,
            ValueKind::Bool(b) => *b,
            _ => true,
        }
    }
}

/// What a unary operator does with its operand.
#[derive(Clone, Copy, Debug, PartialEq, Eq, Structural)]
pub enum UnaryRule {
    /// Negate the number.
    Negate,
    /// The negation of the operand's truthiness.
    Not,
    /// Report "Operand must be a number".
    NotANumber,
}

/// What the unary operator `op` (`-` or `!`) does with an operand of kind `operand`.
pub open spec fn unary_rule_of(op: TokenType, operand: ValueKind) -> UnaryRule {
    if op == TokenType::MINUS {
        if operand == ValueKind::Number {
            UnaryRule::Negate
        } else {
            UnaryRule::NotANumber
        }
    } else {
        UnaryRule::Not
    }
}

pub fn unary_rule(op: TokenType, operand: ValueKind) -> (r: UnaryRule)
    requires
        op == TokenType::MINUS || op == TokenType::BANG,
    ensures
        r == unary_rule_of(op, operand),
{
    match op {
        TokenType::MINUS => match operand {
            ValueKind::Number => UnaryRule::Negate,
            _ => UnaryRule::NotANumber,
        },
        _ => UnaryRule::Not,
    }
}

/// What a binary operator does with its operands.
#[derive(Clone, Copy, Debug, PartialEq, Eq, Structural)]
pub enum BinaryRule {
    /// Whether the two values are equal.
    Equal,
    /// Whether the two values differ.
    NotEqual,
    /// `-`, `/`, `*` or `+` on two numbers.
    Arithmetic,
    /// `>`, `>=`, `<` or `<=` on two numbers.
    Compare,
    /// `+` on two strings: their concatenation.
    Concatenate,
    /// Report "Unsupported string operation".
    UnsupportedStringOperation,
    /// Report that the operation does not apply to the operands.
    UnsupportedOperands,
}

pub open spec fn is_arithmetic_operator(op: TokenType) -> bool {
    op == TokenType::MINUS || op == TokenType::SLASH || op == TokenType::STAR || op == TokenType::PLUS
}

pub open spec fn is_comparison_operator(op: TokenType) -> bool {
    op == TokenType::GREATER || op == TokenType::GREATER_EQUAL || op == TokenType::LESS || op
        == TokenType::LESS_EQUAL
}

/// What the binary operator `op` does with operands of the given kinds.
pub open spec fn binary_rule_of(op: TokenType, left: ValueKind, right: ValueKind) -> BinaryRule {
    if op == TokenType::EQUAL_EQUAL {
        BinaryRule::Equal
    } else if op == TokenType::BANG_EQUAL {
        BinaryRule::NotEqual
    } else if left == ValueKind::Number && right == ValueKind::Number {
        if is_arithmetic_operator(op) {
            BinaryRule::Arithmetic
        } else {
            BinaryRule::Compare
        }
    } else if left == ValueKind::String && right == ValueKind::String {
        if op == TokenType::PLUS {
            BinaryRule::Concatenate
        } else {
            BinaryRule::UnsupportedStringOperation
        }
    } else {
        BinaryRule::UnsupportedOperands
    }
}

/// Two numbers can only be combined by an equality, arithmetic or
/// comparison operator.
pub fn binary_rule(op: TokenType, left: ValueKind, right: ValueKind) -> (r: BinaryRule)
    requires
        left == ValueKind::Number && right == ValueKind::Number ==> (op == TokenType::EQUAL_EQUAL || op
            == TokenType::BANG_EQUAL || is_arithmetic_operator(op) || is_comparison_operator(op)),
    ensures
        r == binary_rule_of(op, left, right),
{
    match op {
        TokenType::EQUAL_EQUAL => return BinaryRule::Equal,
        TokenType::BANG_EQUAL => return BinaryRule::NotEqual,
        _ => {},
    }
    match (left, right) {
        (ValueKind::Number, ValueKind::Number) => match op {
            TokenType::MINUS | TokenType::SLASH | TokenType::STAR | TokenType::PLUS => BinaryRule::Arithmetic,
            _ => BinaryRule::Compare,
        },
        (ValueKind::String, ValueKind::String) => match op {
            TokenType::PLUS => BinaryRule::Concatenate,
            _ => BinaryRule::UnsupportedStringOperation,
        },
        _ => BinaryRule::UnsupportedOperands,
    }
}

/// `==` and `!=` apply to operands of every kind, mixed kinds included, and
/// never report an error.
pub proof fn lemma_equality_applies_to_all_kinds(left: ValueKind, right: ValueKind)
    ensures
        binary_rule_of(TokenType::EQUAL_EQUAL, left, right) == BinaryRule::Equal,
        binary_rule_of(TokenType::BANG_EQUAL, left, right) == BinaryRule::NotEqual,
{
}

/// On two numbers, `-`, `/`, `*` and `+` compute a number and `>`, `>=`,
/// `<` and `<=` compare.
pub proof fn lemma_number_operations(op: TokenType)
    ensures
        (op == TokenType::MINUS || op == TokenType::SLASH || op == TokenType::STAR || op == TokenType::PLUS)
            ==> binary_rule_of(op, ValueKind::Number, ValueKind::Number) == BinaryRule::Arithmetic,
        (op == TokenType::GREATER || op == TokenType::GREATER_EQUAL || op == TokenType::LESS || op
            == TokenType::LESS_EQUAL) ==> binary_rule_of(op, ValueKind::Number, ValueKind::Number)
            == BinaryRule::Compare,
{
}

/// On two strings, `+` concatenates; every operator but `+`, `==` and `!=`
/// reports "Unsupported string operation".
pub proof fn lemma_string_operations(op: TokenType)
    ensures
        binary_rule_of(TokenType::PLUS, ValueKind::String, ValueKind::String) == BinaryRule::Concatenate,
        op != TokenType::PLUS && op != TokenType::EQUAL_EQUAL && op != TokenType::BANG_EQUAL ==> binary_rule_of(
            op,
            ValueKind::String,
            ValueKind::String,
        ) == BinaryRule::UnsupportedStringOperation,
{
}

/// Operands that are not two numbers or two strings support no operator but
/// `==` and `!=`.
pub proof fn lemma_other_operands_unsupported(op: TokenType, left: ValueKind, right: ValueKind)
    requires
        !(left == ValueKind::Number && right == ValueKind::Number),
        !(left == ValueKind::String && right == ValueKind::String),
        op != TokenType::EQUAL_EQUAL,
        op != TokenType::BANG_EQUAL,
    ensures
        binary_rule_of(op, left, right) == BinaryRule::UnsupportedOperands,
{
}

/// `!` applies to an operand of every kind and never reports an error;
/// `-` negates a number and reports "Operand must be a number" for every
/// other kind.
pub proof fn lemma_unary_operations(operand: ValueKind)
    ensures
        unary_rule_of(TokenType::BANG, operand) == UnaryRule::Not,
        unary_rule_of(TokenType::MINUS, operand) == (if operand == ValueKind::Number {
            UnaryRule::Negate
        } else {
            UnaryRule::NotANumber
        }),
{
}

/// Only `nil` and `false` are false.
pub proof fn lemma_truthiness(kind: ValueKind)
    ensures
        truthy(kind) <==> !(kind == ValueKind::Nil || kind == ValueKind::Bool(false)),
{
}

/// The result of `+` on two strings: the left one followed by the right one.
pub fn concatenate(left: &str, right: &str) -> (s: String)
    ensures
        s@ == left@ + right@,
{
    let mut s = String::new();
    push_str(&mut s, left);
    push_str(&mut s, right);
    s
}

/// The error for a rule that reports one with a fixed message: "Operand
/// must be a number" or "Unsupported string operation", at the operator.
pub fn fixed_runtime_error(operator: &Token, unary: bool) -> (e: RuntimeError)
    ensures
        e.token == *operator,
        e.message@ == (if unary { "Operand must be a number"@ } else { "Unsupported string operation"@ }),
{
    let message = if unary {
        "Operand must be a number".to_owned()
    } else {
        "Unsupported string operation".to_owned()
    };
    RuntimeError { token: operator.clone(), message }
}

} // verus!
