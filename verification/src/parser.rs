//! Lox Expression Grammar
//!
//! ```text
//! expression → equality ;
//! equality → comparison ( ( "!=" | "==" ) comparison )* ;
//! comparison → term ( ( ">" | ">=" | "<" | "<=" ) term )* ;
//! term → factor ( ( "-" | "+" ) factor )* ;
//! factor → unary ( ( "/" | "*" ) unary )* ;
//! unary → ( "!" | "-" ) unary
//! | primary ;
//! primary → NUMBER | STRING | "true" | "false" | "nil"
//! | "(" expression ")" ;
//! ```
//!
//! Each rule has a model function over the token list and a position, which
//! the parsing methods' contracts are stated against. A model gives `None`
//! where the parser would read outside the token list. In the repeated part
//! of a rule the model checks that the position moved forward, which
//! [`lemma_expression_within`] shows it always does.

use vstd::prelude::*;

use crate::ast::expressions::Expr;
use crate::lexer::{lemma_scan_ends_with_single_eof, lex_from, scan_result, token_views};
use crate::token::{Literal, Token, TokenType};

verus! {

// ---------------------------------------------------------------------------
// The model of parsing
// ---------------------------------------------------------------------------

/// What parsing a rule from some position gives: an expression and the
/// position after it, or an error at a token and the position parsing stopped at.
pub enum ParseOutcome {
    Parsed { expr: Expr, next: int },
    Failed { token: Token, message: Seq<char>, next: int },
}

/// Whether the token at `i` is not the end-of-file token and has one of the
/// given types; the parser then consumes it. `None` where looking at the
/// token reads past the end of the list.
pub open spec fn match_any_spec(toks: Seq<Token>, i: int, types: Seq<TokenType>) -> Option<bool> {
    if types.len() == 0 {
        Some(false)
    } else if !(0 <= i < toks.len()) {
        None
    } else {
        Some(toks[i].token_type != TokenType::EOF && types.contains(toks[i].token_type))
    }
}

pub open spec fn equality_ops() -> Seq<TokenType> {
    seq![TokenType::BANG_EQUAL, TokenType::EQUAL_EQUAL]
}

pub open spec fn comparison_ops() -> Seq<TokenType> {
    seq![TokenType::GREATER, TokenType::GREATER_EQUAL, TokenType::LESS, TokenType::LESS_EQUAL]
}

pub open spec fn term_ops() -> Seq<TokenType> {
    seq![TokenType::MINUS, TokenType::PLUS]
}

pub open spec fn factor_ops() -> Seq<TokenType> {
    seq![TokenType::SLASH, TokenType::STAR]
}

pub open spec fn unary_ops() -> Seq<TokenType> {
    seq![TokenType::BANG, TokenType::MINUS]
}

pub open spec fn binary(left: Expr, operator: Token, right: Expr) -> Expr {
    Expr::Binary { left: Box::new(left), right: Box::new(right), operator }
}

/// expression → equality
pub open spec fn expression_spec(toks: Seq<Token>, i: int) -> Option<ParseOutcome>
    decreases toks.len() - i, 10nat,
{
    equality_spec(toks, i)
}

/// equality → comparison ( ( "!=" | "==" ) comparison )*
pub open spec fn equality_spec(toks: Seq<Token>, i: int) -> Option<ParseOutcome>
    decreases toks.len() - i, 9nat,
{
    match comparison_spec(toks, i) {
        Some(ParseOutcome::Parsed { expr, next }) => if i <= next <= toks.len() {
            equality_rest(toks, next, expr)
        } else {
            None
        },
        other => other,
    }
}

/// The repeated part of the equality rule, after `left` has been parsed.
pub open spec fn equality_rest(toks: Seq<Token>, j: int, left: Expr) -> Option<ParseOutcome>
    decreases toks.len() - j, 8nat,
{
    match match_any_spec(toks, j, equality_ops()) {
        None => None,
        Some(false) => Some(ParseOutcome::Parsed { expr: left, next: j }),
        Some(true) => match comparison_spec(toks, j + 1) {
            Some(ParseOutcome::Parsed { expr, next }) => if j < next <= toks.len() {
                equality_rest(toks, next, binary(left, toks[j], expr))
            } else {
                None
            },
            other => other,
        },
    }
}

/// comparison → term ( ( ">" | ">=" | "<" | "<=" ) term )*
pub open spec fn comparison_spec(toks: Seq<Token>, i: int) -> Option<ParseOutcome>
    decreases toks.len() - i, 7nat,
{
    match term_spec(toks, i) {
        Some(ParseOutcome::Parsed { expr, next }) => if i <= next <= toks.len() {
            comparison_rest(toks, next, expr)
        } else {
            None
        },
        other => other,
    }
}

/// The repeated part of the comparison rule, after `left` has been parsed.
pub open spec fn comparison_rest(toks: Seq<Token>, j: int, left: Expr) -> Option<ParseOutcome>
    decreases toks.len() - j, 6nat,
{
    match match_any_spec(toks, j, comparison_ops()) {
        None => None,
        Some(false) => Some(ParseOutcome::Parsed { expr: left, next: j }),
        Some(true) => match term_spec(toks, j + 1) {
            Some(ParseOutcome::Parsed { expr, next }) => if j < next <= toks.len() {
                comparison_rest(toks, next, binary(left, toks[j], expr))
            } else {
                None
            },
            other => other,
        },
    }
}

/// term → factor ( ( "-" | "+" ) factor )*
pub open spec fn term_spec(toks: Seq<Token>, i: int) -> Option<ParseOutcome>
    decreases toks.len() - i, 5nat,
{
    match factor_spec(toks, i) {
        Some(ParseOutcome::Parsed { expr, next }) => if i <= next <= toks.len() {
            term_rest(toks, next, expr)
        } else {
            None
        },
        other => other,
    }
}

/// The repeated part of the term rule, after `left` has been parsed.
pub open spec fn term_rest(toks: Seq<Token>, j: int, left: Expr) -> Option<ParseOutcome>
    decreases toks.len() - j, 4nat,
{
    match match_any_spec(toks, j, term_ops()) {
        None => None,
        Some(false) => Some(ParseOutcome::Parsed { expr: left, next: j }),
        Some(true) => match factor_spec(toks, j + 1) {
            Some(ParseOutcome::Parsed { expr, next }) => if j < next <= toks.len() {
                term_rest(toks, next, binary(left, toks[j], expr))
            } else {
                None
            },
            other => other,
        },
    }
}

/// factor → unary ( ( "/" | "*" ) unary )*
pub open spec fn factor_spec(toks: Seq<Token>, i: int) -> Option<ParseOutcome>
    decreases toks.len() - i, 3nat,
{
    match unary_spec(toks, i) {
        Some(ParseOutcome::Parsed { expr, next }) => if i <= next <= toks.len() {
            factor_rest(toks, next, expr)
        } else {
            None
        },
        other => other,
    }
}

/// The repeated part of the factor rule, after `left` has been parsed.
pub open spec fn factor_rest(toks: Seq<Token>, j: int, left: Expr) -> Option<ParseOutcome>
    decreases toks.len() - j, 2nat,
{
    match match_any_spec(toks, j, factor_ops()) {
        None => None,
        Some(false) => Some(ParseOutcome::Parsed { expr: left, next: j }),
        Some(true) => match unary_spec(toks, j + 1) {
            Some(ParseOutcome::Parsed { expr, next }) => if j < next <= toks.len() {
                factor_rest(toks, next, binary(left, toks[j], expr))
            } else {
                None
            },
            other => other,
        },
    }
}

/// unary → ( "!" | "-" ) unary | primary
pub open spec fn unary_spec(toks: Seq<Token>, i: int) -> Option<ParseOutcome>
    decreases toks.len() - i, 1nat,
{
    match match_any_spec(toks, i, unary_ops()) {
        None => None,
        Some(true) => match unary_spec(toks, i + 1) {
            Some(ParseOutcome::Parsed { expr, next }) => Some(
                ParseOutcome::Parsed { expr: Expr::Unary { operator: toks[i], right: Box::new(expr) }, next },
            ),
            other => other,
        },
        Some(false) => primary_spec(toks, i),
    }
}

/// primary → NUMBER | STRING | "true" | "false" | "nil" | "(" expression ")"
pub open spec fn primary_spec(toks: Seq<Token>, i: int) -> Option<ParseOutcome>
    decreases toks.len() - i, 0nat,
{
    if !(0 <= i < toks.len()) {
        None
    } else {
        let t = toks[i].token_type;
        if t == TokenType::FALSE {
            Some(ParseOutcome::Parsed { expr: Expr::Literal { value: Literal::Bool(false) }, next: i + 1 })
        } else if t == TokenType::TRUE {
            Some(ParseOutcome::Parsed { expr: Expr::Literal { value: Literal::Bool(true) }, next: i + 1 })
        } else if t == TokenType::NIL {
            Some(ParseOutcome::Parsed { expr: Expr::Literal { value: Literal::Nil }, next: i + 1 })
        } else if t == TokenType::STRING || t == TokenType::NUMBER {
            Some(ParseOutcome::Parsed { expr: Expr::Literal { value: toks[i].literal }, next: i + 1 })
        } else if t == TokenType::LEFT_PAREN {
            match expression_spec(toks, i + 1) {
                Some(ParseOutcome::Parsed { expr, next }) => if !(0 <= next < toks.len()) {
                    None
                } else if toks[next].token_type == TokenType::RIGHT_PAREN {
                    Some(ParseOutcome::Parsed { expr: Expr::Grouping { expression: Box::new(expr) }, next: next + 1 })
                } else {
                    Some(ParseOutcome::Failed { token: toks[next], message: "Expect ')' after expression."@, next })
                },
                other => other,
            }
        } else {
            Some(ParseOutcome::Failed { token: toks[i], message: "Expected an expression"@, next: i })
        }
    }
}

/// A parsed result lies after its start and within the list; an error is
/// reported at a token within the list, at or after the start.
pub open spec fn outcome_within(o: Option<ParseOutcome>, i: int, len: int, strict: bool) -> bool {
    match o {
        Some(ParseOutcome::Parsed { next, .. }) => (if strict { i < next } else { i <= next }) && next <= len,
        Some(ParseOutcome::Failed { next, .. }) => i <= next < len,
        None => true,
    }
}

/// Parsing moves forward and stays within the list: an expression parsed
/// from `i` ends after `i` and no further than the end of the list; an error
/// is reported at a token of the list at or after `i`.
pub proof fn lemma_expression_within(toks: Seq<Token>, i: int)
    ensures
        outcome_within(expression_spec(toks, i), i, toks.len() as int, true),
    decreases toks.len() - i, 10nat,
{
    lemma_equality_within(toks, i);
}

proof fn lemma_equality_within(toks: Seq<Token>, i: int)
    ensures
        outcome_within(equality_spec(toks, i), i, toks.len() as int, true),
    decreases toks.len() - i, 9nat,
{
    lemma_comparison_within(toks, i);
    if let Some(ParseOutcome::Parsed { expr, next }) = comparison_spec(toks, i) {
        if i <= next <= toks.len() {
            lemma_equality_rest_within(toks, next, expr);
        }
    }
}

proof fn lemma_equality_rest_within(toks: Seq<Token>, j: int, left: Expr)
    ensures
        outcome_within(equality_rest(toks, j, left), j, toks.len() as int, false),
    decreases toks.len() - j, 8nat,
{
    if match_any_spec(toks, j, equality_ops()) == Some(true) {
        lemma_comparison_within(toks, j + 1);
        if let Some(ParseOutcome::Parsed { expr, next }) = comparison_spec(toks, j + 1) {
            if j < next <= toks.len() {
                lemma_equality_rest_within(toks, next, binary(left, toks[j], expr));
            }
        }
    }
}

proof fn lemma_comparison_within(toks: Seq<Token>, i: int)
    ensures
        outcome_within(comparison_spec(toks, i), i, toks.len() as int, true),
    decreases toks.len() - i, 7nat,
{
    lemma_term_within(toks, i);
    if let Some(ParseOutcome::Parsed { expr, next }) = term_spec(toks, i) {
        if i <= next <= toks.len() {
            lemma_comparison_rest_within(toks, next, expr);
        }
    }
}

proof fn lemma_comparison_rest_within(toks: Seq<Token>, j: int, left: Expr)
    ensures
        outcome_within(comparison_rest(toks, j, left), j, toks.len() as int, false),
    decreases toks.len() - j, 6nat,
{
    if match_any_spec(toks, j, comparison_ops()) == Some(true) {
        lemma_term_within(toks, j + 1);
        if let Some(ParseOutcome::Parsed { expr, next }) = term_spec(toks, j + 1) {
            if j < next <= toks.len() {
                lemma_comparison_rest_within(toks, next, binary(left, toks[j], expr));
            }
        }
    }
}

proof fn lemma_term_within(toks: Seq<Token>, i: int)
    ensures
        outcome_within(term_spec(toks, i), i, toks.len() as int, true),
    decreases toks.len() - i, 5nat,
{
    lemma_factor_within(toks, i);
    if let Some(ParseOutcome::Parsed { expr, next }) = factor_spec(toks, i) {
        if i <= next <= toks.len() {
            lemma_term_rest_within(toks, next, expr);
        }
    }
}

proof fn lemma_term_rest_within(toks: Seq<Token>, j: int, left: Expr)
    ensures
        outcome_within(term_rest(toks, j, left), j, toks.len() as int, false),
    decreases toks.len() - j, 4nat,
{
    if match_any_spec(toks, j, term_ops()) == Some(true) {
        lemma_factor_within(toks, j + 1);
        if let Some(ParseOutcome::Parsed { expr, next }) = factor_spec(toks, j + 1) {
            if j < next <= toks.len() {
                lemma_term_rest_within(toks, next, binary(left, toks[j], expr));
            }
        }
    }
}

proof fn lemma_factor_within(toks: Seq<Token>, i: int)
    ensures
        outcome_within(factor_spec(toks, i), i, toks.len() as int, true),
    decreases toks.len() - i, 3nat,
{
    lemma_unary_within(toks, i);
    if let Some(ParseOutcome::Parsed { expr, next }) = unary_spec(toks, i) {
        if i <= next <= toks.len() {
            lemma_factor_rest_within(toks, next, expr);
        }
    }
}

proof fn lemma_factor_rest_within(toks: Seq<Token>, j: int, left: Expr)
    ensures
        outcome_within(factor_rest(toks, j, left), j, toks.len() as int, false),
    decreases toks.len() - j, 2nat,
{
    if match_any_spec(toks, j, factor_ops()) == Some(true) {
        lemma_unary_within(toks, j + 1);
        if let Some(ParseOutcome::Parsed { expr, next }) = unary_spec(toks, j + 1) {
            if j < next <= toks.len() {
                lemma_factor_rest_within(toks, next, binary(left, toks[j], expr));
            }
        }
    }
}

proof fn lemma_unary_within(toks: Seq<Token>, i: int)
    ensures
        outcome_within(unary_spec(toks, i), i, toks.len() as int, true),
    decreases toks.len() - i, 1nat,
{
    if match_any_spec(toks, i, unary_ops()) == Some(true) {
        lemma_unary_within(toks, i + 1);
    } else {
        lemma_primary_within(toks, i);
    }
}

proof fn lemma_primary_within(toks: Seq<Token>, i: int)
    ensures
        outcome_within(primary_spec(toks, i), i, toks.len() as int, true),
    decreases toks.len() - i, 0nat,
{
    if 0 <= i < toks.len() && toks[i].token_type == TokenType::LEFT_PAREN {
        lemma_expression_within(toks, i + 1);
    }
}

/// Whether a token of this type can begin a statement.
pub open spec fn starts_statement(t: TokenType) -> bool {
    t == TokenType::CLASS || t == TokenType::FUN || t == TokenType::VAR || t == TokenType::FOR || t
        == TokenType::IF || t == TokenType::WHILE || t == TokenType::PRINT || t == TokenType::RETURN
}

/// Where discarding tokens from `j` stops: at the end-of-file token, after a
/// semicolon, or before a token that can begin a statement. `None` where
/// looking at a token reads outside the list.
pub open spec fn sync_from(toks: Seq<Token>, j: int) -> Option<int>
    decreases toks.len() - j,
{
    if !(0 <= j < toks.len()) {
        None
    } else if toks[j].token_type == TokenType::EOF {
        Some(j)
    } else if j < 1 {
        None
    } else if toks[j - 1].token_type == TokenType::SEMICOLON {
        Some(j)
    } else if starts_statement(toks[j].token_type) {
        Some(j)
    } else {
        sync_from(toks, j + 1)
    }
}

/// Where recovering from an error at `i` leaves the parser: the token at `i`
/// is discarded, then tokens up to the next safe place to resume.
pub open spec fn synchronise_spec(toks: Seq<Token>, i: int) -> Option<int> {
    if !(0 <= i < toks.len()) {
        None
    } else {
        sync_from(toks, if toks[i].token_type == TokenType::EOF { i } else { i + 1 })
    }
}

/// The list is not empty and its last token is the end-of-file token, as
/// every list the scanner produces is.
pub open spec fn ends_with_eof(toks: Seq<Token>) -> bool {
    toks.len() > 0 && toks.last().token_type == TokenType::EOF
}

/// The outcome exists, and a parsed result leaves the cursor on a token of the list.
pub open spec fn completes_before(o: Option<ParseOutcome>, len: int) -> bool {
    &&& o is Some
    &&& o matches Some(ParseOutcome::Parsed { next, .. }) ==> next < len
}

/// Parsing a list that ends with the end-of-file token, from any position
/// in it, never reads past the end of the list: the parser returns an
/// expression or an error.
pub proof fn lemma_expression_completes(toks: Seq<Token>, i: int)
    requires
        ends_with_eof(toks),
        0 <= i < toks.len(),
    ensures
        completes_before(expression_spec(toks, i), toks.len() as int),
    decreases toks.len() - i, 10nat,
{
    lemma_equality_completes(toks, i);
}

proof fn lemma_equality_completes(toks: Seq<Token>, i: int)
    requires
        ends_with_eof(toks),
        0 <= i < toks.len(),
    ensures
        completes_before(equality_spec(toks, i), toks.len() as int),
    decreases toks.len() - i, 9nat,
{
    lemma_comparison_completes(toks, i);
    lemma_comparison_within(toks, i);
    if let Some(ParseOutcome::Parsed { expr, next }) = comparison_spec(toks, i) {
        lemma_equality_rest_completes(toks, next, expr);
    }
}

proof fn lemma_equality_rest_completes(toks: Seq<Token>, j: int, left: Expr)
    requires
        ends_with_eof(toks),
        0 <= j < toks.len(),
    ensures
        completes_before(equality_rest(toks, j, left), toks.len() as int),
    decreases toks.len() - j, 8nat,
{
    if match_any_spec(toks, j, equality_ops()) == Some(true) {
        lemma_comparison_completes(toks, j + 1);
        lemma_comparison_within(toks, j + 1);
        if let Some(ParseOutcome::Parsed { expr, next }) = comparison_spec(toks, j + 1) {
            lemma_equality_rest_completes(toks, next, binary(left, toks[j], expr));
        }
    }
}

proof fn lemma_comparison_completes(toks: Seq<Token>, i: int)
    requires
        ends_with_eof(toks),
        0 <= i < toks.len(),
    ensures
        completes_before(comparison_spec(toks, i), toks.len() as int),
    decreases toks.len() - i, 7nat,
{
    lemma_term_completes(toks, i);
    lemma_term_within(toks, i);
    if let Some(ParseOutcome::Parsed { expr, next }) = term_spec(toks, i) {
        lemma_comparison_rest_completes(toks, next, expr);
    }
}

proof fn lemma_comparison_rest_completes(toks: Seq<Token>, j: int, left: Expr)
    requires
        ends_with_eof(toks),
        0 <= j < toks.len(),
    ensures
        completes_before(comparison_rest(toks, j, left), toks.len() as int),
    decreases toks.len() - j, 6nat,
{
    if match_any_spec(toks, j, comparison_ops()) == Some(true) {
        lemma_term_completes(toks, j + 1);
        lemma_term_within(toks, j + 1);
        if let Some(ParseOutcome::Parsed { expr, next }) = term_spec(toks, j + 1) {
            lemma_comparison_rest_completes(toks, next, binary(left, toks[j], expr));
        }
    }
}

proof fn lemma_term_completes(toks: Seq<Token>, i: int)
    requires
        ends_with_eof(toks),
        0 <= i < toks.len(),
    ensures
        completes_before(term_spec(toks, i), toks.len() as int),
    decreases toks.len() - i, 5nat,
{
    lemma_factor_completes(toks, i);
    lemma_factor_within(toks, i);
    if let Some(ParseOutcome::Parsed { expr, next }) = factor_spec(toks, i) {
        lemma_term_rest_completes(toks, next, expr);
    }
}

proof fn lemma_term_rest_completes(toks: Seq<Token>, j: int, left: Expr)
    requires
        ends_with_eof(toks),
        0 <= j < toks.len(),
    ensures
        completes_before(term_rest(toks, j, left), toks.len() as int),
    decreases toks.len() - j, 4nat,
{
    if match_any_spec(toks, j, term_ops()) == Some(true) {
        lemma_factor_completes(toks, j + 1);
        lemma_factor_within(toks, j + 1);
        if let Some(ParseOutcome::Parsed { expr, next }) = factor_spec(toks, j + 1) {
            lemma_term_rest_completes(toks, next, binary(left, toks[j], expr));
        }
    }
}

proof fn lemma_factor_completes(toks: Seq<Token>, i: int)
    requires
        ends_with_eof(toks),
        0 <= i < toks.len(),
    ensures
        completes_before(factor_spec(toks, i), toks.len() as int),
    decreases toks.len() - i, 3nat,
{
    lemma_unary_completes(toks, i);
    lemma_unary_within(toks, i);
    if let Some(ParseOutcome::Parsed { expr, next }) = unary_spec(toks, i) {
        lemma_factor_rest_completes(toks, next, expr);
    }
}

proof fn lemma_factor_rest_completes(toks: Seq<Token>, j: int, left: Expr)
    requires
        ends_with_eof(toks),
        0 <= j < toks.len(),
    ensures
        completes_before(factor_rest(toks, j, left), toks.len() as int),
    decreases toks.len() - j, 2nat,
{
    if match_any_spec(toks, j, factor_ops()) == Some(true) {
        lemma_unary_completes(toks, j + 1);
        lemma_unary_within(toks, j + 1);
        if let Some(ParseOutcome::Parsed { expr, next }) = unary_spec(toks, j + 1) {
            lemma_factor_rest_completes(toks, next, binary(left, toks[j], expr));
        }
    }
}

proof fn lemma_unary_completes(toks: Seq<Token>, i: int)
    requires
        ends_with_eof(toks),
        0 <= i < toks.len(),
    ensures
        completes_before(unary_spec(toks, i), toks.len() as int),
    decreases toks.len() - i, 1nat,
{
    if match_any_spec(toks, i, unary_ops()) == Some(true) {
        lemma_unary_completes(toks, i + 1);
    } else {
        lemma_primary_completes(toks, i);
    }
}

proof fn lemma_primary_completes(toks: Seq<Token>, i: int)
    requires
        ends_with_eof(toks),
        0 <= i < toks.len(),
    ensures
        completes_before(primary_spec(toks, i), toks.len() as int),
    decreases toks.len() - i, 0nat,
{
    assert(toks[toks.len() - 1].token_type == TokenType::EOF);
    if toks[i].token_type != TokenType::EOF {
        assert(i != toks.len() - 1);
        assert(i + 1 < toks.len());
    }
    if toks[i].token_type == TokenType::LEFT_PAREN {
        lemma_expression_completes(toks, i + 1);
        lemma_expression_within(toks, i + 1);
        if let Some(ParseOutcome::Parsed { expr, next }) = expression_spec(toks, i + 1) {
            if toks[next].token_type == TokenType::RIGHT_PAREN {
                assert(next != toks.len() - 1);
            }
        }
    }
}

/// The tokens of a complete scan can always be parsed: the parser returns an
/// expression or an error, and never reads past the end of the list.
pub proof fn lemma_scanned_tokens_parse(src: Seq<char>, cursor: int, line: int, toks: Seq<Token>)
    requires
        lex_from(src, cursor, line) is Some,
        token_views(toks) == scan_result(src, cursor, line).tokens,
    ensures
        ends_with_eof(toks),
        expression_spec(toks, 0) is Some,
{
    lemma_scan_ends_with_single_eof(src, cursor, line);
    let views = scan_result(src, cursor, line).tokens;
    assert(toks.len() == views.len());
    assert(views.last() == toks.last()@);
    lemma_expression_completes(toks, 0);
}

/// Two numbers joined by any binary operator of the grammar parse to one
/// binary node over the two literals: every operator the grammar lists is
/// consumed, and parsing stops at the end-of-file token.
pub proof fn lemma_single_binary_operation(a: Token, op: Token, b: Token, end: Token)
    requires
        a.token_type == TokenType::NUMBER,
        b.token_type == TokenType::NUMBER,
        end.token_type == TokenType::EOF,
        binary_level(op.token_type) >= 1,
    ensures
        expression_spec(seq![a, op, b, end], 0) == Some(
            ParseOutcome::Parsed {
                expr: Expr::Binary {
                    left: Box::new(Expr::Literal { value: a.literal }),
                    right: Box::new(Expr::Literal { value: b.literal }),
                    operator: op,
                },
                next: 3,
            },
        ),
{
    lemma_binary_at(seq![a, op, b, end], 0);
}

/// The level at which the grammar places a binary operator, from the
/// loosest to the tightest: `==` and `!=` at 1; `>`, `>=`, `<` and `<=` at 2;
/// `-` and `+` at 3; `/` and `*` at 4. Any other type is at 0.
pub open spec fn binary_level(t: TokenType) -> int {
    if t == TokenType::BANG_EQUAL || t == TokenType::EQUAL_EQUAL {
        1
    } else if t == TokenType::GREATER || t == TokenType::GREATER_EQUAL || t == TokenType::LESS || t
        == TokenType::LESS_EQUAL {
        2
    } else if t == TokenType::MINUS || t == TokenType::PLUS {
        3
    } else if t == TokenType::SLASH || t == TokenType::STAR {
        4
    } else {
        0
    }
}
/// Two binary operations on numbers where the first operator is at level 1.
#[verifier::spinoff_prover]
#[verifier::rlimit(100)]
proof fn lemma_two_operations_after_equality(a: Token, op1: Token, b: Token, op2: Token, c: Token, end: Token)
    requires
        a.token_type == TokenType::NUMBER,
        b.token_type == TokenType::NUMBER,
        c.token_type == TokenType::NUMBER,
        end.token_type == TokenType::EOF,
        binary_level(op1.token_type) == 1,
        binary_level(op2.token_type) >= 1,
    ensures
        expression_spec(seq![a, op1, b, op2, c, end], 0) == Some(
            ParseOutcome::Parsed {
                expr: if 1 >= binary_level(op2.token_type) {
                    binary(binary(Expr::Literal { value: a.literal }, op1, Expr::Literal { value: b.literal }), op2, Expr::Literal { value: c.literal })
                } else {
                    binary(Expr::Literal { value: a.literal }, op1, binary(Expr::Literal { value: b.literal }, op2, Expr::Literal { value: c.literal }))
                },
                next: 5,
            },
        ),
{
    let toks = seq![a, op1, b, op2, c, end];
    let la = Expr::Literal { value: a.literal };
    let lb = Expr::Literal { value: b.literal };
    let lc = Expr::Literal { value: c.literal };
    let l2 = binary_level(op2.token_type);
    if l2 == 1 {
        assert(match_any_spec(toks, 0, unary_ops()) == Some(false));
        assert(primary_spec(toks, 0) == Some(ParseOutcome::Parsed { expr: la, next: 1 }));
        assert(unary_spec(toks, 0) == Some(ParseOutcome::Parsed { expr: la, next: 1 }));
        assert(match_any_spec(toks, 1, factor_ops()) == Some(false));
        assert(factor_rest(toks, 1, la) == Some(ParseOutcome::Parsed { expr: la, next: 1 }));
        assert(factor_spec(toks, 0) == Some(ParseOutcome::Parsed { expr: la, next: 1 }));
        assert(match_any_spec(toks, 1, term_ops()) == Some(false));
        assert(term_rest(toks, 1, la) == Some(ParseOutcome::Parsed { expr: la, next: 1 }));
        assert(term_spec(toks, 0) == Some(ParseOutcome::Parsed { expr: la, next: 1 }));
        assert(match_any_spec(toks, 1, comparison_ops()) == Some(false));
        assert(comparison_rest(toks, 1, la) == Some(ParseOutcome::Parsed { expr: la, next: 1 }));
        assert(comparison_spec(toks, 0) == Some(ParseOutcome::Parsed { expr: la, next: 1 }));
        assert(match_any_spec(toks, 1, equality_ops()) == Some(true));
        assert(match_any_spec(toks, 2, unary_ops()) == Some(false));
        assert(primary_spec(toks, 2) == Some(ParseOutcome::Parsed { expr: lb, next: 3 }));
        assert(unary_spec(toks, 2) == Some(ParseOutcome::Parsed { expr: lb, next: 3 }));
        assert(match_any_spec(toks, 3, factor_ops()) == Some(false));
        assert(factor_rest(toks, 3, lb) == Some(ParseOutcome::Parsed { expr: lb, next: 3 }));
        assert(factor_spec(toks, 2) == Some(ParseOutcome::Parsed { expr: lb, next: 3 }));
        assert(match_any_spec(toks, 3, term_ops()) == Some(false));
        assert(term_rest(toks, 3, lb) == Some(ParseOutcome::Parsed { expr: lb, next: 3 }));
        assert(term_spec(toks, 2) == Some(ParseOutcome::Parsed { expr: lb, next: 3 }));
        assert(match_any_spec(toks, 3, comparison_ops()) == Some(false));
        assert(comparison_rest(toks, 3, lb) == Some(ParseOutcome::Parsed { expr: lb, next: 3 }));
        assert(comparison_spec(toks, 2) == Some(ParseOutcome::Parsed { expr: lb, next: 3 }));
        assert(match_any_spec(toks, 3, equality_ops()) == Some(true));
        assert(match_any_spec(toks, 4, unary_ops()) == Some(false));
        assert(primary_spec(toks, 4) == Some(ParseOutcome::Parsed { expr: lc, next: 5 }));
        assert(unary_spec(toks, 4) == Some(ParseOutcome::Parsed { expr: lc, next: 5 }));
        assert(match_any_spec(toks, 5, factor_ops()) == Some(false));
        assert(factor_rest(toks, 5, lc) == Some(ParseOutcome::Parsed { expr: lc, next: 5 }));
        assert(factor_spec(toks, 4) == Some(ParseOutcome::Parsed { expr: lc, next: 5 }));
        assert(match_any_spec(toks, 5, term_ops()) == Some(false));
        assert(term_rest(toks, 5, lc) == Some(ParseOutcome::Parsed { expr: lc, next: 5 }));
        assert(term_spec(toks, 4) == Some(ParseOutcome::Parsed { expr: lc, next: 5 }));
        assert(match_any_spec(toks, 5, comparison_ops()) == Some(false));
        assert(comparison_rest(toks, 5, lc) == Some(ParseOutcome::Parsed { expr: lc, next: 5 }));
        assert(comparison_spec(toks, 4) == Some(ParseOutcome::Parsed { expr: lc, next: 5 }));
        assert(match_any_spec(toks, 5, equality_ops()) == Some(false));
        assert(equality_rest(toks, 5, binary(binary(la, toks[1], lb), toks[3], lc)) == Some(ParseOutcome::Parsed { expr: binary(binary(la, toks[1], lb), toks[3], lc), next: 5 }));
        assert(equality_rest(toks, 3, binary(la, toks[1], lb)) == Some(ParseOutcome::Parsed { expr: binary(binary(la, toks[1], lb), toks[3], lc), next: 5 }));
        assert(equality_rest(toks, 1, la) == Some(ParseOutcome::Parsed { expr: binary(binary(la, toks[1], lb), toks[3], lc), next: 5 }));
        assert(equality_spec(toks, 0) == Some(ParseOutcome::Parsed { expr: binary(binary(la, toks[1], lb), toks[3], lc), next: 5 }));
        assert(expression_spec(toks, 0) == Some(ParseOutcome::Parsed { expr: binary(binary(la, toks[1], lb), toks[3], lc), next: 5 }));
    } else if l2 == 2 {
        assert(match_any_spec(toks, 0, unary_ops()) == Some(false));
        assert(primary_spec(toks, 0) == Some(ParseOutcome::Parsed { expr: la, next: 1 }));
        assert(unary_spec(toks, 0) == Some(ParseOutcome::Parsed { expr: la, next: 1 }));
        assert(match_any_spec(toks, 1, factor_ops()) == Some(false));
        assert(factor_rest(toks, 1, la) == Some(ParseOutcome::Parsed { expr: la, next: 1 }));
        assert(factor_spec(toks, 0) == Some(ParseOutcome::Parsed { expr: la, next: 1 }));
        assert(match_any_spec(toks, 1, term_ops()) == Some(false));
        assert(term_rest(toks, 1, la) == Some(ParseOutcome::Parsed { expr: la, next: 1 }));
        assert(term_spec(toks, 0) == Some(ParseOutcome::Parsed { expr: la, next: 1 }));
        assert(match_any_spec(toks, 1, comparison_ops()) == Some(false));
        assert(comparison_rest(toks, 1, la) == Some(ParseOutcome::Parsed { expr: la, next: 1 }));
        assert(comparison_spec(toks, 0) == Some(ParseOutcome::Parsed { expr: la, next: 1 }));
        assert(match_any_spec(toks, 1, equality_ops()) == Some(true));
        assert(match_any_spec(toks, 2, unary_ops()) == Some(false));
        assert(primary_spec(toks, 2) == Some(ParseOutcome::Parsed { expr: lb, next: 3 }));
        assert(unary_spec(toks, 2) == Some(ParseOutcome::Parsed { expr: lb, next: 3 }));
        assert(match_any_spec(toks, 3, factor_ops()) == Some(false));
        assert(factor_rest(toks, 3, lb) == Some(ParseOutcome::Parsed { expr: lb, next: 3 }));
        assert(factor_spec(toks, 2) == Some(ParseOutcome::Parsed { expr: lb, next: 3 }));
        assert(match_any_spec(toks, 3, term_ops()) == Some(false));
        assert(term_rest(toks, 3, lb) == Some(ParseOutcome::Parsed { expr: lb, next: 3 }));
        assert(term_spec(toks, 2) == Some(ParseOutcome::Parsed { expr: lb, next: 3 }));
        assert(match_any_spec(toks, 3, comparison_ops()) == Some(true));
        assert(match_any_spec(toks, 4, unary_ops()) == Some(false));
        assert(primary_spec(toks, 4) == Some(ParseOutcome::Parsed { expr: lc, next: 5 }));
        assert(unary_spec(toks, 4) == Some(ParseOutcome::Parsed { expr: lc, next: 5 }));
        assert(match_any_spec(toks, 5, factor_ops()) == Some(false));
        assert(factor_rest(toks, 5, lc) == Some(ParseOutcome::Parsed { expr: lc, next: 5 }));
        assert(factor_spec(toks, 4) == Some(ParseOutcome::Parsed { expr: lc, next: 5 }));
        assert(match_any_spec(toks, 5, term_ops()) == Some(false));
        assert(term_rest(toks, 5, lc) == Some(ParseOutcome::Parsed { expr: lc, next: 5 }));
        assert(term_spec(toks, 4) == Some(ParseOutcome::Parsed { expr: lc, next: 5 }));
        assert(match_any_spec(toks, 5, comparison_ops()) == Some(false));
        assert(comparison_rest(toks, 5, binary(lb, toks[3], lc)) == Some(ParseOutcome::Parsed { expr: binary(lb, toks[3], lc), next: 5 }));
        assert(comparison_rest(toks, 3, lb) == Some(ParseOutcome::Parsed { expr: binary(lb, toks[3], lc), next: 5 }));
        assert(comparison_spec(toks, 2) == Some(ParseOutcome::Parsed { expr: binary(lb, toks[3], lc), next: 5 }));
        assert(match_any_spec(toks, 5, equality_ops()) == Some(false));
        assert(equality_rest(toks, 5, binary(la, toks[1], binary(lb, toks[3], lc))) == Some(ParseOutcome::Parsed { expr: binary(la, toks[1], binary(lb, toks[3], lc)), next: 5 }));
        assert(equality_rest(toks, 1, la) == Some(ParseOutcome::Parsed { expr: binary(la, toks[1], binary(lb, toks[3], lc)), next: 5 }));
        assert(equality_spec(toks, 0) == Some(ParseOutcome::Parsed { expr: binary(la, toks[1], binary(lb, toks[3], lc)), next: 5 }));
        assert(expression_spec(toks, 0) == Some(ParseOutcome::Parsed { expr: binary(la, toks[1], binary(lb, toks[3], lc)), next: 5 }));
    } else if l2 == 3 {
        assert(match_any_spec(toks, 0, unary_ops()) == Some(false));
        assert(primary_spec(toks, 0) == Some(ParseOutcome::Parsed { expr: la, next: 1 }));
        assert(unary_spec(toks, 0) == Some(ParseOutcome::Parsed { expr: la, next: 1 }));
        assert(match_any_spec(toks, 1, factor_ops()) == Some(false));
        assert(factor_rest(toks, 1, la) == Some(ParseOutcome::Parsed { expr: la, next: 1 }));
        assert(factor_spec(toks, 0) == Some(ParseOutcome::Parsed { expr: la, next: 1 }));
        assert(match_any_spec(toks, 1, term_ops()) == Some(false));
        assert(term_rest(toks, 1, la) == Some(ParseOutcome::Parsed { expr: la, next: 1 }));
        assert(term_spec(toks, 0) == Some(ParseOutcome::Parsed { expr: la, next: 1 }));
        assert(match_any_spec(toks, 1, comparison_ops()) == Some(false));
        assert(comparison_rest(toks, 1, la) == Some(ParseOutcome::Parsed { expr: la, next: 1 }));
        assert(comparison_spec(toks, 0) == Some(ParseOutcome::Parsed { expr: la, next: 1 }));
        assert(match_any_spec(toks, 1, equality_ops()) == Some(true));
        assert(match_any_spec(toks, 2, unary_ops()) == Some(false));
        assert(primary_spec(toks, 2) == Some(ParseOutcome::Parsed { expr: lb, next: 3 }));
        assert(unary_spec(toks, 2) == Some(ParseOutcome::Parsed { expr: lb, next: 3 }));
        assert(match_any_spec(toks, 3, factor_ops()) == Some(false));
        assert(factor_rest(toks, 3, lb) == Some(ParseOutcome::Parsed { expr: lb, next: 3 }));
        assert(factor_spec(toks, 2) == Some(ParseOutcome::Parsed { expr: lb, next: 3 }));
        assert(match_any_spec(toks, 3, term_ops()) == Some(true));
        assert(match_any_spec(toks, 4, unary_ops()) == Some(false));
        assert(primary_spec(toks, 4) == Some(ParseOutcome::Parsed { expr: lc, next: 5 }));
        assert(unary_spec(toks, 4) == Some(ParseOutcome::Parsed { expr: lc, next: 5 }));
        assert(match_any_spec(toks, 5, factor_ops()) == Some(false));
        assert(factor_rest(toks, 5, lc) == Some(ParseOutcome::Parsed { expr: lc, next: 5 }));
        assert(factor_spec(toks, 4) == Some(ParseOutcome::Parsed { expr: lc, next: 5 }));
        assert(match_any_spec(toks, 5, term_ops()) == Some(false));
        assert(term_rest(toks, 5, binary(lb, toks[3], lc)) == Some(ParseOutcome::Parsed { expr: binary(lb, toks[3], lc), next: 5 }));
        assert(term_rest(toks, 3, lb) == Some(ParseOutcome::Parsed { expr: binary(lb, toks[3], lc), next: 5 }));
        assert(term_spec(toks, 2) == Some(ParseOutcome::Parsed { expr: binary(lb, toks[3], lc), next: 5 }));
        assert(match_any_spec(toks, 5, comparison_ops()) == Some(false));
        assert(comparison_rest(toks, 5, binary(lb, toks[3], lc)) == Some(ParseOutcome::Parsed { expr: binary(lb, toks[3], lc), next: 5 }));
        assert(comparison_spec(toks, 2) == Some(ParseOutcome::Parsed { expr: binary(lb, toks[3], lc), next: 5 }));
        assert(match_any_spec(toks, 5, equality_ops()) == Some(false));
        assert(equality_rest(toks, 5, binary(la, toks[1], binary(lb, toks[3], lc))) == Some(ParseOutcome::Parsed { expr: binary(la, toks[1], binary(lb, toks[3], lc)), next: 5 }));
        assert(equality_rest(toks, 1, la) == Some(ParseOutcome::Parsed { expr: binary(la, toks[1], binary(lb, toks[3], lc)), next: 5 }));
        assert(equality_spec(toks, 0) == Some(ParseOutcome::Parsed { expr: binary(la, toks[1], binary(lb, toks[3], lc)), next: 5 }));
        assert(expression_spec(toks, 0) == Some(ParseOutcome::Parsed { expr: binary(la, toks[1], binary(lb, toks[3], lc)), next: 5 }));
    } else if l2 == 4 {
        assert(match_any_spec(toks, 0, unary_ops()) == Some(false));
        assert(primary_spec(toks, 0) == Some(ParseOutcome::Parsed { expr: la, next: 1 }));
        assert(unary_spec(toks, 0) == Some(ParseOutcome::Parsed { expr: la, next: 1 }));
        assert(match_any_spec(toks, 1, factor_ops()) == Some(false));
        assert(factor_rest(toks, 1, la) == Some(ParseOutcome::Parsed { expr: la, next: 1 }));
        assert(factor_spec(toks, 0) == Some(ParseOutcome::Parsed { expr: la, next: 1 }));
        assert(match_any_spec(toks, 1, term_ops()) == Some(false));
        assert(term_rest(toks, 1, la) == Some(ParseOutcome::Parsed { expr: la, next: 1 }));
        assert(term_spec(toks, 0) == Some(ParseOutcome::Parsed { expr: la, next: 1 }));
        assert(match_any_spec(toks, 1, comparison_ops()) == Some(false));
        assert(comparison_rest(toks, 1, la) == Some(ParseOutcome::Parsed { expr: la, next: 1 }));
        assert(comparison_spec(toks, 0) == Some(ParseOutcome::Parsed { expr: la, next: 1 }));
        assert(match_any_spec(toks, 1, equality_ops()) == Some(true));
        assert(match_any_spec(toks, 2, unary_ops()) == Some(false));
        assert(primary_spec(toks, 2) == Some(ParseOutcome::Parsed { expr: lb, next: 3 }));
        assert(unary_spec(toks, 2) == Some(ParseOutcome::Parsed { expr: lb, next: 3 }));
        assert(match_any_spec(toks, 3, factor_ops()) == Some(true));
        assert(match_any_spec(toks, 4, unary_ops()) == Some(false));
        assert(primary_spec(toks, 4) == Some(ParseOutcome::Parsed { expr: lc, next: 5 }));
        assert(unary_spec(toks, 4) == Some(ParseOutcome::Parsed { expr: lc, next: 5 }));
        assert(match_any_spec(toks, 5, factor_ops()) == Some(false));
        assert(factor_rest(toks, 5, binary(lb, toks[3], lc)) == Some(ParseOutcome::Parsed { expr: binary(lb, toks[3], lc), next: 5 }));
        assert(factor_rest(toks, 3, lb) == Some(ParseOutcome::Parsed { expr: binary(lb, toks[3], lc), next: 5 }));
        assert(factor_spec(toks, 2) == Some(ParseOutcome::Parsed { expr: binary(lb, toks[3], lc), next: 5 }));
        assert(match_any_spec(toks, 5, term_ops()) == Some(false));
        assert(term_rest(toks, 5, binary(lb, toks[3], lc)) == Some(ParseOutcome::Parsed { expr: binary(lb, toks[3], lc), next: 5 }));
        assert(term_spec(toks, 2) == Some(ParseOutcome::Parsed { expr: binary(lb, toks[3], lc), next: 5 }));
        assert(match_any_spec(toks, 5, comparison_ops()) == Some(false));
        assert(comparison_rest(toks, 5, binary(lb, toks[3], lc)) == Some(ParseOutcome::Parsed { expr: binary(lb, toks[3], lc), next: 5 }));
        assert(comparison_spec(toks, 2) == Some(ParseOutcome::Parsed { expr: binary(lb, toks[3], lc), next: 5 }));
        assert(match_any_spec(toks, 5, equality_ops()) == Some(false));
        assert(equality_rest(toks, 5, binary(la, toks[1], binary(lb, toks[3], lc))) == Some(ParseOutcome::Parsed { expr: binary(la, toks[1], binary(lb, toks[3], lc)), next: 5 }));
        assert(equality_rest(toks, 1, la) == Some(ParseOutcome::Parsed { expr: binary(la, toks[1], binary(lb, toks[3], lc)), next: 5 }));
        assert(equality_spec(toks, 0) == Some(ParseOutcome::Parsed { expr: binary(la, toks[1], binary(lb, toks[3], lc)), next: 5 }));
        assert(expression_spec(toks, 0) == Some(ParseOutcome::Parsed { expr: binary(la, toks[1], binary(lb, toks[3], lc)), next: 5 }));
    }
}

/// Two binary operations on numbers where the first operator is at level 2.
#[verifier::spinoff_prover]
#[verifier::rlimit(100)]
proof fn lemma_two_operations_after_comparison(a: Token, op1: Token, b: Token, op2: Token, c: Token, end: Token)
    requires
        a.token_type == TokenType::NUMBER,
        b.token_type == TokenType::NUMBER,
        c.token_type == TokenType::NUMBER,
        end.token_type == TokenType::EOF,
        binary_level(op1.token_type) == 2,
        binary_level(op2.token_type) >= 1,
    ensures
        expression_spec(seq![a, op1, b, op2, c, end], 0) == Some(
            ParseOutcome::Parsed {
                expr: if 2 >= binary_level(op2.token_type) {
                    binary(binary(Expr::Literal { value: a.literal }, op1, Expr::Literal { value: b.literal }), op2, Expr::Literal { value: c.literal })
                } else {
                    binary(Expr::Literal { value: a.literal }, op1, binary(Expr::Literal { value: b.literal }, op2, Expr::Literal { value: c.literal }))
                },
                next: 5,
            },
        ),
{
    let toks = seq![a, op1, b, op2, c, end];
    let la = Expr::Literal { value: a.literal };
    let lb = Expr::Literal { value: b.literal };
    let lc = Expr::Literal { value: c.literal };
    let l2 = binary_level(op2.token_type);
    if l2 == 1 {
        assert(match_any_spec(toks, 0, unary_ops()) == Some(false));
        assert(primary_spec(toks, 0) == Some(ParseOutcome::Parsed { expr: la, next: 1 }));
        assert(unary_spec(toks, 0) == Some(ParseOutcome::Parsed { expr: la, next: 1 }));
        assert(match_any_spec(toks, 1, factor_ops()) == Some(false));
        assert(factor_rest(toks, 1, la) == Some(ParseOutcome::Parsed { expr: la, next: 1 }));
        assert(factor_spec(toks, 0) == Some(ParseOutcome::Parsed { expr: la, next: 1 }));
        assert(match_any_spec(toks, 1, term_ops()) == Some(false));
        assert(term_rest(toks, 1, la) == Some(ParseOutcome::Parsed { expr: la, next: 1 }));
        assert(term_spec(toks, 0) == Some(ParseOutcome::Parsed { expr: la, next: 1 }));
        assert(match_any_spec(toks, 1, comparison_ops()) == Some(true));
        assert(match_any_spec(toks, 2, unary_ops()) == Some(false));
        assert(primary_spec(toks, 2) == Some(ParseOutcome::Parsed { expr: lb, next: 3 }));
        assert(unary_spec(toks, 2) == Some(ParseOutcome::Parsed { expr: lb, next: 3 }));
        assert(match_any_spec(toks, 3, factor_ops()) == Some(false));
        assert(factor_rest(toks, 3, lb) == Some(ParseOutcome::Parsed { expr: lb, next: 3 }));
        assert(factor_spec(toks, 2) == Some(ParseOutcome::Parsed { expr: lb, next: 3 }));
        assert(match_any_spec(toks, 3, term_ops()) == Some(false));
        assert(term_rest(toks, 3, lb) == Some(ParseOutcome::Parsed { expr: lb, next: 3 }));
        assert(term_spec(toks, 2) == Some(ParseOutcome::Parsed { expr: lb, next: 3 }));
        assert(match_any_spec(toks, 3, comparison_ops()) == Some(false));
        assert(comparison_rest(toks, 3, binary(la, toks[1], lb)) == Some(ParseOutcome::Parsed { expr: binary(la, toks[1], lb), next: 3 }));
        assert(comparison_rest(toks, 1, la) == Some(ParseOutcome::Parsed { expr: binary(la, toks[1], lb), next: 3 }));
        assert(comparison_spec(toks, 0) == Some(ParseOutcome::Parsed { expr: binary(la, toks[1], lb), next: 3 }));
        assert(match_any_spec(toks, 3, equality_ops()) == Some(true));
        assert(match_any_spec(toks, 4, unary_ops()) == Some(false));
        assert(primary_spec(toks, 4) == Some(ParseOutcome::Parsed { expr: lc, next: 5 }));
        assert(unary_spec(toks, 4) == Some(ParseOutcome::Parsed { expr: lc, next: 5 }));
        assert(match_any_spec(toks, 5, factor_ops()) == Some(false));
        assert(factor_rest(toks, 5, lc) == Some(ParseOutcome::Parsed { expr: lc, next: 5 }));
        assert(factor_spec(toks, 4) == Some(ParseOutcome::Parsed { expr: lc, next: 5 }));
        assert(match_any_spec(toks, 5, term_ops()) == Some(false));
        assert(term_rest(toks, 5, lc) == Some(ParseOutcome::Parsed { expr: lc, next: 5 }));
        assert(term_spec(toks, 4) == Some(ParseOutcome::Parsed { expr: lc, next: 5 }));
        assert(match_any_spec(toks, 5, comparison_ops()) == Some(false));
        assert(comparison_rest(toks, 5, lc) == Some(ParseOutcome::Parsed { expr: lc, next: 5 }));
        assert(comparison_spec(toks, 4) == Some(ParseOutcome::Parsed { expr: lc, next: 5 }));
        assert(match_any_spec(toks, 5, equality_ops()) == Some(false));
        assert(equality_rest(toks, 5, binary(binary(la, toks[1], lb), toks[3], lc)) == Some(ParseOutcome::Parsed { expr: binary(binary(la, toks[1], lb), toks[3], lc), next: 5 }));
        assert(equality_rest(toks, 3, binary(la, toks[1], lb)) == Some(ParseOutcome::Parsed { expr: binary(binary(la, toks[1], lb), toks[3], lc), next: 5 }));
        assert(equality_spec(toks, 0) == Some(ParseOutcome::Parsed { expr: binary(binary(la, toks[1], lb), toks[3], lc), next: 5 }));
        assert(expression_spec(toks, 0) == Some(ParseOutcome::Parsed { expr: binary(binary(la, toks[1], lb), toks[3], lc), next: 5 }));
    } else if l2 == 2 {
        assert(match_any_spec(toks, 0, unary_ops()) == Some(false));
        assert(primary_spec(toks, 0) == Some(ParseOutcome::Parsed { expr: la, next: 1 }));
        assert(unary_spec(toks, 0) == Some(ParseOutcome::Parsed { expr: la, next: 1 }));
        assert(match_any_spec(toks, 1, factor_ops()) == Some(false));
        assert(factor_rest(toks, 1, la) == Some(ParseOutcome::Parsed { expr: la, next: 1 }));
        assert(factor_spec(toks, 0) == Some(ParseOutcome::Parsed { expr: la, next: 1 }));
        assert(match_any_spec(toks, 1, term_ops()) == Some(false));
        assert(term_rest(toks, 1, la) == Some(ParseOutcome::Parsed { expr: la, next: 1 }));
        assert(term_spec(toks, 0) == Some(ParseOutcome::Parsed { expr: la, next: 1 }));
        assert(match_any_spec(toks, 1, comparison_ops()) == Some(true));
        assert(match_any_spec(toks, 2, unary_ops()) == Some(false));
        assert(primary_spec(toks, 2) == Some(ParseOutcome::Parsed { expr: lb, next: 3 }));
        assert(unary_spec(toks, 2) == Some(ParseOutcome::Parsed { expr: lb, next: 3 }));
        assert(match_any_spec(toks, 3, factor_ops()) == Some(false));
        assert(factor_rest(toks, 3, lb) == Some(ParseOutcome::Parsed { expr: lb, next: 3 }));
        assert(factor_spec(toks, 2) == Some(ParseOutcome::Parsed { expr: lb, next: 3 }));
        assert(match_any_spec(toks, 3, term_ops()) == Some(false));
        assert(term_rest(toks, 3, lb) == Some(ParseOutcome::Parsed { expr: lb, next: 3 }));
        assert(term_spec(toks, 2) == Some(ParseOutcome::Parsed { expr: lb, next: 3 }));
        assert(match_any_spec(toks, 3, comparison_ops()) == Some(true));
        assert(match_any_spec(toks, 4, unary_ops()) == Some(false));
        assert(primary_spec(toks, 4) == Some(ParseOutcome::Parsed { expr: lc, next: 5 }));
        assert(unary_spec(toks, 4) == Some(ParseOutcome::Parsed { expr: lc, next: 5 }));
        assert(match_any_spec(toks, 5, factor_ops()) == Some(false));
        assert(factor_rest(toks, 5, lc) == Some(ParseOutcome::Parsed { expr: lc, next: 5 }));
        assert(factor_spec(toks, 4) == Some(ParseOutcome::Parsed { expr: lc, next: 5 }));
        assert(match_any_spec(toks, 5, term_ops()) == Some(false));
        assert(term_rest(toks, 5, lc) == Some(ParseOutcome::Parsed { expr: lc, next: 5 }));
        assert(term_spec(toks, 4) == Some(ParseOutcome::Parsed { expr: lc, next: 5 }));
        assert(match_any_spec(toks, 5, comparison_ops()) == Some(false));
        assert(comparison_rest(toks, 5, binary(binary(la, toks[1], lb), toks[3], lc)) == Some(ParseOutcome::Parsed { expr: binary(binary(la, toks[1], lb), toks[3], lc), next: 5 }));
        assert(comparison_rest(toks, 3, binary(la, toks[1], lb)) == Some(ParseOutcome::Parsed { expr: binary(binary(la, toks[1], lb), toks[3], lc), next: 5 }));
        assert(comparison_rest(toks, 1, la) == Some(ParseOutcome::Parsed { expr: binary(binary(la, toks[1], lb), toks[3], lc), next: 5 }));
        assert(comparison_spec(toks, 0) == Some(ParseOutcome::Parsed { expr: binary(binary(la, toks[1], lb), toks[3], lc), next: 5 }));
        assert(match_any_spec(toks, 5, equality_ops()) == Some(false));
        assert(equality_rest(toks, 5, binary(binary(la, toks[1], lb), toks[3], lc)) == Some(ParseOutcome::Parsed { expr: binary(binary(la, toks[1], lb), toks[3], lc), next: 5 }));
        assert(equality_spec(toks, 0) == Some(ParseOutcome::Parsed { expr: binary(binary(la, toks[1], lb), toks[3], lc), next: 5 }));
        assert(expression_spec(toks, 0) == Some(ParseOutcome::Parsed { expr: binary(binary(la, toks[1], lb), toks[3], lc), next: 5 }));
    } else if l2 == 3 {
        assert(match_any_spec(toks, 0, unary_ops()) == Some(false));
        assert(primary_spec(toks, 0) == Some(ParseOutcome::Parsed { expr: la, next: 1 }));
        assert(unary_spec(toks, 0) == Some(ParseOutcome::Parsed { expr: la, next: 1 }));
        assert(match_any_spec(toks, 1, factor_ops()) == Some(false));
        assert(factor_rest(toks, 1, la) == Some(ParseOutcome::Parsed { expr: la, next: 1 }));
        assert(factor_spec(toks, 0) == Some(ParseOutcome::Parsed { expr: la, next: 1 }));
        assert(match_any_spec(toks, 1, term_ops()) == Some(false));
        assert(term_rest(toks, 1, la) == Some(ParseOutcome::Parsed { expr: la, next: 1 }));
        assert(term_spec(toks, 0) == Some(ParseOutcome::Parsed { expr: la, next: 1 }));
        assert(match_any_spec(toks, 1, comparison_ops()) == Some(true));
        assert(match_any_spec(toks, 2, unary_ops()) == Some(false));
        assert(primary_spec(toks, 2) == Some(ParseOutcome::Parsed { expr: lb, next: 3 }));
        assert(unary_spec(toks, 2) == Some(ParseOutcome::Parsed { expr: lb, next: 3 }));
        assert(match_any_spec(toks, 3, factor_ops()) == Some(false));
        assert(factor_rest(toks, 3, lb) == Some(ParseOutcome::Parsed { expr: lb, next: 3 }));
        assert(factor_spec(toks, 2) == Some(ParseOutcome::Parsed { expr: lb, next: 3 }));
        assert(match_any_spec(toks, 3, term_ops()) == Some(true));
        assert(match_any_spec(toks, 4, unary_ops()) == Some(false));
        assert(primary_spec(toks, 4) == Some(ParseOutcome::Parsed { expr: lc, next: 5 }));
        assert(unary_spec(toks, 4) == Some(ParseOutcome::Parsed { expr: lc, next: 5 }));
        assert(match_any_spec(toks, 5, factor_ops()) == Some(false));
        assert(factor_rest(toks, 5, lc) == Some(ParseOutcome::Parsed { expr: lc, next: 5 }));
        assert(factor_spec(toks, 4) == Some(ParseOutcome::Parsed { expr: lc, next: 5 }));
        assert(match_any_spec(toks, 5, term_ops()) == Some(false));
        assert(term_rest(toks, 5, binary(lb, toks[3], lc)) == Some(ParseOutcome::Parsed { expr: binary(lb, toks[3], lc), next: 5 }));
        assert(term_rest(toks, 3, lb) == Some(ParseOutcome::Parsed { expr: binary(lb, toks[3], lc), next: 5 }));
        assert(term_spec(toks, 2) == Some(ParseOutcome::Parsed { expr: binary(lb, toks[3], lc), next: 5 }));
        assert(match_any_spec(toks, 5, comparison_ops()) == Some(false));
        assert(comparison_rest(toks, 5, binary(la, toks[1], binary(lb, toks[3], lc))) == Some(ParseOutcome::Parsed { expr: binary(la, toks[1], binary(lb, toks[3], lc)), next: 5 }));
        assert(comparison_rest(toks, 1, la) == Some(ParseOutcome::Parsed { expr: binary(la, toks[1], binary(lb, toks[3], lc)), next: 5 }));
        assert(comparison_spec(toks, 0) == Some(ParseOutcome::Parsed { expr: binary(la, toks[1], binary(lb, toks[3], lc)), next: 5 }));
        assert(match_any_spec(toks, 5, equality_ops()) == Some(false));
        assert(equality_rest(toks, 5, binary(la, toks[1], binary(lb, toks[3], lc))) == Some(ParseOutcome::Parsed { expr: binary(la, toks[1], binary(lb, toks[3], lc)), next: 5 }));
        assert(equality_spec(toks, 0) == Some(ParseOutcome::Parsed { expr: binary(la, toks[1], binary(lb, toks[3], lc)), next: 5 }));
        assert(expression_spec(toks, 0) == Some(ParseOutcome::Parsed { expr: binary(la, toks[1], binary(lb, toks[3], lc)), next: 5 }));
    } else if l2 == 4 {
        assert(match_any_spec(toks, 0, unary_ops()) == Some(false));
        assert(primary_spec(toks, 0) == Some(ParseOutcome::Parsed { expr: la, next: 1 }));
        assert(unary_spec(toks, 0) == Some(ParseOutcome::Parsed { expr: la, next: 1 }));
        assert(match_any_spec(toks, 1, factor_ops()) == Some(false));
        assert(factor_rest(toks, 1, la) == Some(ParseOutcome::Parsed { expr: la, next: 1 }));
        assert(factor_spec(toks, 0) == Some(ParseOutcome::Parsed { expr: la, next: 1 }));
        assert(match_any_spec(toks, 1, term_ops()) == Some(false));
        assert(term_rest(toks, 1, la) == Some(ParseOutcome::Parsed { expr: la, next: 1 }));
        assert(term_spec(toks, 0) == Some(ParseOutcome::Parsed { expr: la, next: 1 }));
        assert(match_any_spec(toks, 1, comparison_ops()) == Some(true));
        assert(match_any_spec(toks, 2, unary_ops()) == Some(false));
        assert(primary_spec(toks, 2) == Some(ParseOutcome::Parsed { expr: lb, next: 3 }));
        assert(unary_spec(toks, 2) == Some(ParseOutcome::Parsed { expr: lb, next: 3 }));
        assert(match_any_spec(toks, 3, factor_ops()) == Some(true));
        assert(match_any_spec(toks, 4, unary_ops()) == Some(false));
        assert(primary_spec(toks, 4) == Some(ParseOutcome::Parsed { expr: lc, next: 5 }));
        assert(unary_spec(toks, 4) == Some(ParseOutcome::Parsed { expr: lc, next: 5 }));
        assert(match_any_spec(toks, 5, factor_ops()) == Some(false));
        assert(factor_rest(toks, 5, binary(lb, toks[3], lc)) == Some(ParseOutcome::Parsed { expr: binary(lb, toks[3], lc), next: 5 }));
        assert(factor_rest(toks, 3, lb) == Some(ParseOutcome::Parsed { expr: binary(lb, toks[3], lc), next: 5 }));
        assert(factor_spec(toks, 2) == Some(ParseOutcome::Parsed { expr: binary(lb, toks[3], lc), next: 5 }));
        assert(match_any_spec(toks, 5, term_ops()) == Some(false));
        assert(term_rest(toks, 5, binary(lb, toks[3], lc)) == Some(ParseOutcome::Parsed { expr: binary(lb, toks[3], lc), next: 5 }));
        assert(term_spec(toks, 2) == Some(ParseOutcome::Parsed { expr: binary(lb, toks[3], lc), next: 5 }));
        assert(match_any_spec(toks, 5, comparison_ops()) == Some(false));
        assert(comparison_rest(toks, 5, binary(la, toks[1], binary(lb, toks[3], lc))) == Some(ParseOutcome::Parsed { expr: binary(la, toks[1], binary(lb, toks[3], lc)), next: 5 }));
        assert(comparison_rest(toks, 1, la) == Some(ParseOutcome::Parsed { expr: binary(la, toks[1], binary(lb, toks[3], lc)), next: 5 }));
        assert(comparison_spec(toks, 0) == Some(ParseOutcome::Parsed { expr: binary(la, toks[1], binary(lb, toks[3], lc)), next: 5 }));
        assert(match_any_spec(toks, 5, equality_ops()) == Some(false));
        assert(equality_rest(toks, 5, binary(la, toks[1], binary(lb, toks[3], lc))) == Some(ParseOutcome::Parsed { expr: binary(la, toks[1], binary(lb, toks[3], lc)), next: 5 }));
        assert(equality_spec(toks, 0) == Some(ParseOutcome::Parsed { expr: binary(la, toks[1], binary(lb, toks[3], lc)), next: 5 }));
        assert(expression_spec(toks, 0) == Some(ParseOutcome::Parsed { expr: binary(la, toks[1], binary(lb, toks[3], lc)), next: 5 }));
    }
}

/// Two binary operations on numbers where the first operator is at level 3.
#[verifier::spinoff_prover]
#[verifier::rlimit(100)]
proof fn lemma_two_operations_after_term(a: Token, op1: Token, b: Token, op2: Token, c: Token, end: Token)
    requires
        a.token_type == TokenType::NUMBER,
        b.token_type == TokenType::NUMBER,
        c.token_type == TokenType::NUMBER,
        end.token_type == TokenType::EOF,
        binary_level(op1.token_type) == 3,
        binary_level(op2.token_type) >= 1,
    ensures
        expression_spec(seq![a, op1, b, op2, c, end], 0) == Some(
            ParseOutcome::Parsed {
                expr: if 3 >= binary_level(op2.token_type) {
                    binary(binary(Expr::Literal { value: a.literal }, op1, Expr::Literal { value: b.literal }), op2, Expr::Literal { value: c.literal })
                } else {
                    binary(Expr::Literal { value: a.literal }, op1, binary(Expr::Literal { value: b.literal }, op2, Expr::Literal { value: c.literal }))
                },
                next: 5,
            },
        ),
{
    let toks = seq![a, op1, b, op2, c, end];
    let la = Expr::Literal { value: a.literal };
    let lb = Expr::Literal { value: b.literal };
    let lc = Expr::Literal { value: c.literal };
    let l2 = binary_level(op2.token_type);
    if l2 == 1 {
        assert(match_any_spec(toks, 0, unary_ops()) == Some(false));
        assert(primary_spec(toks, 0) == Some(ParseOutcome::Parsed { expr: la, next: 1 }));
        assert(unary_spec(toks, 0) == Some(ParseOutcome::Parsed { expr: la, next: 1 }));
        assert(match_any_spec(toks, 1, factor_ops()) == Some(false));
        assert(factor_rest(toks, 1, la) == Some(ParseOutcome::Parsed { expr: la, next: 1 }));
        assert(factor_spec(toks, 0) == Some(ParseOutcome::Parsed { expr: la, next: 1 }));
        assert(match_any_spec(toks, 1, term_ops()) == Some(true));
        assert(match_any_spec(toks, 2, unary_ops()) == Some(false));
        assert(primary_spec(toks, 2) == Some(ParseOutcome::Parsed { expr: lb, next: 3 }));
        assert(unary_spec(toks, 2) == Some(ParseOutcome::Parsed { expr: lb, next: 3 }));
        assert(match_any_spec(toks, 3, factor_ops()) == Some(false));
        assert(factor_rest(toks, 3, lb) == Some(ParseOutcome::Parsed { expr: lb, next: 3 }));
        assert(factor_spec(toks, 2) == Some(ParseOutcome::Parsed { expr: lb, next: 3 }));
        assert(match_any_spec(toks, 3, term_ops()) == Some(false));
        assert(term_rest(toks, 3, binary(la, toks[1], lb)) == Some(ParseOutcome::Parsed { expr: binary(la, toks[1], lb), next: 3 }));
        assert(term_rest(toks, 1, la) == Some(ParseOutcome::Parsed { expr: binary(la, toks[1], lb), next: 3 }));
        assert(term_spec(toks, 0) == Some(ParseOutcome::Parsed { expr: binary(la, toks[1], lb), next: 3 }));
        assert(match_any_spec(toks, 3, comparison_ops()) == Some(false));
        assert(comparison_rest(toks, 3, binary(la, toks[1], lb)) == Some(ParseOutcome::Parsed { expr: binary(la, toks[1], lb), next: 3 }));
        assert(comparison_spec(toks, 0) == Some(ParseOutcome::Parsed { expr: binary(la, toks[1], lb), next: 3 }));
        assert(match_any_spec(toks, 3, equality_ops()) == Some(true));
        assert(match_any_spec(toks, 4, unary_ops()) == Some(false));
        assert(primary_spec(toks, 4) == Some(ParseOutcome::Parsed { expr: lc, next: 5 }));
        assert(unary_spec(toks, 4) == Some(ParseOutcome::Parsed { expr: lc, next: 5 }));
        assert(match_any_spec(toks, 5, factor_ops()) == Some(false));
        assert(factor_rest(toks, 5, lc) == Some(ParseOutcome::Parsed { expr: lc, next: 5 }));
        assert(factor_spec(toks, 4) == Some(ParseOutcome::Parsed { expr: lc, next: 5 }));
        assert(match_any_spec(toks, 5, term_ops()) == Some(false));
        assert(term_rest(toks, 5, lc) == Some(ParseOutcome::Parsed { expr: lc, next: 5 }));
        assert(term_spec(toks, 4) == Some(ParseOutcome::Parsed { expr: lc, next: 5 }));
        assert(match_any_spec(toks, 5, comparison_ops()) == Some(false));
        assert(comparison_rest(toks, 5, lc) == Some(ParseOutcome::Parsed { expr: lc, next: 5 }));
        assert(comparison_spec(toks, 4) == Some(ParseOutcome::Parsed { expr: lc, next: 5 }));
        assert(match_any_spec(toks, 5, equality_ops()) == Some(false));
        assert(equality_rest(toks, 5, binary(binary(la, toks[1], lb), toks[3], lc)) == Some(ParseOutcome::Parsed { expr: binary(binary(la, toks[1], lb), toks[3], lc), next: 5 }));
        assert(equality_rest(toks, 3, binary(la, toks[1], lb)) == Some(ParseOutcome::Parsed { expr: binary(binary(la, toks[1], lb), toks[3], lc), next: 5 }));
        assert(equality_spec(toks, 0) == Some(ParseOutcome::Parsed { expr: binary(binary(la, toks[1], lb), toks[3], lc), next: 5 }));
        assert(expression_spec(toks, 0) == Some(ParseOutcome::Parsed { expr: binary(binary(la, toks[1], lb), toks[3], lc), next: 5 }));
    } else if l2 == 2 {
        assert(match_any_spec(toks, 0, unary_ops()) == Some(false));
        assert(primary_spec(toks, 0) == Some(ParseOutcome::Parsed { expr: la, next: 1 }));
        assert(unary_spec(toks, 0) == Some(ParseOutcome::Parsed { expr: la, next: 1 }));
        assert(match_any_spec(toks, 1, factor_ops()) == Some(false));
        assert(factor_rest(toks, 1, la) == Some(ParseOutcome::Parsed { expr: la, next: 1 }));
        assert(factor_spec(toks, 0) == Some(ParseOutcome::Parsed { expr: la, next: 1 }));
        assert(match_any_spec(toks, 1, term_ops()) == Some(true));
        assert(match_any_spec(toks, 2, unary_ops()) == Some(false));
        assert(primary_spec(toks, 2) == Some(ParseOutcome::Parsed { expr: lb, next: 3 }));
        assert(unary_spec(toks, 2) == Some(ParseOutcome::Parsed { expr: lb, next: 3 }));
        assert(match_any_spec(toks, 3, factor_ops()) == Some(false));
        assert(factor_rest(toks, 3, lb) == Some(ParseOutcome::Parsed { expr: lb, next: 3 }));
        assert(factor_spec(toks, 2) == Some(ParseOutcome::Parsed { expr: lb, next: 3 }));
        assert(match_any_spec(toks, 3, term_ops()) == Some(false));
        assert(term_rest(toks, 3, binary(la, toks[1], lb)) == Some(ParseOutcome::Parsed { expr: binary(la, toks[1], lb), next: 3 }));
        assert(term_rest(toks, 1, la) == Some(ParseOutcome::Parsed { expr: binary(la, toks[1], lb), next: 3 }));
        assert(term_spec(toks, 0) == Some(ParseOutcome::Parsed { expr: binary(la, toks[1], lb), next: 3 }));
        assert(match_any_spec(toks, 3, comparison_ops()) == Some(true));
        assert(match_any_spec(toks, 4, unary_ops()) == Some(false));
        assert(primary_spec(toks, 4) == Some(ParseOutcome::Parsed { expr: lc, next: 5 }));
        assert(unary_spec(toks, 4) == Some(ParseOutcome::Parsed { expr: lc, next: 5 }));
        assert(match_any_spec(toks, 5, factor_ops()) == Some(false));
        assert(factor_rest(toks, 5, lc) == Some(ParseOutcome::Parsed { expr: lc, next: 5 }));
        assert(factor_spec(toks, 4) == Some(ParseOutcome::Parsed { expr: lc, next: 5 }));
        assert(match_any_spec(toks, 5, term_ops()) == Some(false));
        assert(term_rest(toks, 5, lc) == Some(ParseOutcome::Parsed { expr: lc, next: 5 }));
        assert(term_spec(toks, 4) == Some(ParseOutcome::Parsed { expr: lc, next: 5 }));
        assert(match_any_spec(toks, 5, comparison_ops()) == Some(false));
        assert(comparison_rest(toks, 5, binary(binary(la, toks[1], lb), toks[3], lc)) == Some(ParseOutcome::Parsed { expr: binary(binary(la, toks[1], lb), toks[3], lc), next: 5 }));
        assert(comparison_rest(toks, 3, binary(la, toks[1], lb)) == Some(ParseOutcome::Parsed { expr: binary(binary(la, toks[1], lb), toks[3], lc), next: 5 }));
        assert(comparison_spec(toks, 0) == Some(ParseOutcome::Parsed { expr: binary(binary(la, toks[1], lb), toks[3], lc), next: 5 }));
        assert(match_any_spec(toks, 5, equality_ops()) == Some(false));
        assert(equality_rest(toks, 5, binary(binary(la, toks[1], lb), toks[3], lc)) == Some(ParseOutcome::Parsed { expr: binary(binary(la, toks[1], lb), toks[3], lc), next: 5 }));
        assert(equality_spec(toks, 0) == Some(ParseOutcome::Parsed { expr: binary(binary(la, toks[1], lb), toks[3], lc), next: 5 }));
        assert(expression_spec(toks, 0) == Some(ParseOutcome::Parsed { expr: binary(binary(la, toks[1], lb), toks[3], lc), next: 5 }));
    } else if l2 == 3 {
        assert(match_any_spec(toks, 0, unary_ops()) == Some(false));
        assert(primary_spec(toks, 0) == Some(ParseOutcome::Parsed { expr: la, next: 1 }));
        assert(unary_spec(toks, 0) == Some(ParseOutcome::Parsed { expr: la, next: 1 }));
        assert(match_any_spec(toks, 1, factor_ops()) == Some(false));
        assert(factor_rest(toks, 1, la) == Some(ParseOutcome::Parsed { expr: la, next: 1 }));
        assert(factor_spec(toks, 0) == Some(ParseOutcome::Parsed { expr: la, next: 1 }));
        assert(match_any_spec(toks, 1, term_ops()) == Some(true));
        assert(match_any_spec(toks, 2, unary_ops()) == Some(false));
        assert(primary_spec(toks, 2) == Some(ParseOutcome::Parsed { expr: lb, next: 3 }));
        assert(unary_spec(toks, 2) == Some(ParseOutcome::Parsed { expr: lb, next: 3 }));
        assert(match_any_spec(toks, 3, factor_ops()) == Some(false));
        assert(factor_rest(toks, 3, lb) == Some(ParseOutcome::Parsed { expr: lb, next: 3 }));
        assert(factor_spec(toks, 2) == Some(ParseOutcome::Parsed { expr: lb, next: 3 }));
        assert(match_any_spec(toks, 3, term_ops()) == Some(true));
        assert(match_any_spec(toks, 4, unary_ops()) == Some(false));
        assert(primary_spec(toks, 4) == Some(ParseOutcome::Parsed { expr: lc, next: 5 }));
        assert(unary_spec(toks, 4) == Some(ParseOutcome::Parsed { expr: lc, next: 5 }));
        assert(match_any_spec(toks, 5, factor_ops()) == Some(false));
        assert(factor_rest(toks, 5, lc) == Some(ParseOutcome::Parsed { expr: lc, next: 5 }));
        assert(factor_spec(toks, 4) == Some(ParseOutcome::Parsed { expr: lc, next: 5 }));
        assert(match_any_spec(toks, 5, term_ops()) == Some(false));
        assert(term_rest(toks, 5, binary(binary(la, toks[1], lb), toks[3], lc)) == Some(ParseOutcome::Parsed { expr: binary(binary(la, toks[1], lb), toks[3], lc), next: 5 }));
        assert(term_rest(toks, 3, binary(la, toks[1], lb)) == Some(ParseOutcome::Parsed { expr: binary(binary(la, toks[1], lb), toks[3], lc), next: 5 }));
        assert(term_rest(toks, 1, la) == Some(ParseOutcome::Parsed { expr: binary(binary(la, toks[1], lb), toks[3], lc), next: 5 }));
        assert(term_spec(toks, 0) == Some(ParseOutcome::Parsed { expr: binary(binary(la, toks[1], lb), toks[3], lc), next: 5 }));
        assert(match_any_spec(toks, 5, comparison_ops()) == Some(false));
        assert(comparison_rest(toks, 5, binary(binary(la, toks[1], lb), toks[3], lc)) == Some(ParseOutcome::Parsed { expr: binary(binary(la, toks[1], lb), toks[3], lc), next: 5 }));
        assert(comparison_spec(toks, 0) == Some(ParseOutcome::Parsed { expr: binary(binary(la, toks[1], lb), toks[3], lc), next: 5 }));
        assert(match_any_spec(toks, 5, equality_ops()) == Some(false));
        assert(equality_rest(toks, 5, binary(binary(la, toks[1], lb), toks[3], lc)) == Some(ParseOutcome::Parsed { expr: binary(binary(la, toks[1], lb), toks[3], lc), next: 5 }));
        assert(equality_spec(toks, 0) == Some(ParseOutcome::Parsed { expr: binary(binary(la, toks[1], lb), toks[3], lc), next: 5 }));
        assert(expression_spec(toks, 0) == Some(ParseOutcome::Parsed { expr: binary(binary(la, toks[1], lb), toks[3], lc), next: 5 }));
    } else if l2 == 4 {
        assert(match_any_spec(toks, 0, unary_ops()) == Some(false));
        assert(primary_spec(toks, 0) == Some(ParseOutcome::Parsed { expr: la, next: 1 }));
        assert(unary_spec(toks, 0) == Some(ParseOutcome::Parsed { expr: la, next: 1 }));
        assert(match_any_spec(toks, 1, factor_ops()) == Some(false));
        assert(factor_rest(toks, 1, la) == Some(ParseOutcome::Parsed { expr: la, next: 1 }));
        assert(factor_spec(toks, 0) == Some(ParseOutcome::Parsed { expr: la, next: 1 }));
        assert(match_any_spec(toks, 1, term_ops()) == Some(true));
        assert(match_any_spec(toks, 2, unary_ops()) == Some(false));
        assert(primary_spec(toks, 2) == Some(ParseOutcome::Parsed { expr: lb, next: 3 }));
        assert(unary_spec(toks, 2) == Some(ParseOutcome::Parsed { expr: lb, next: 3 }));
        assert(match_any_spec(toks, 3, factor_ops()) == Some(true));
        assert(match_any_spec(toks, 4, unary_ops()) == Some(false));
        assert(primary_spec(toks, 4) == Some(ParseOutcome::Parsed { expr: lc, next: 5 }));
        assert(unary_spec(toks, 4) == Some(ParseOutcome::Parsed { expr: lc, next: 5 }));
        assert(match_any_spec(toks, 5, factor_ops()) == Some(false));
        assert(factor_rest(toks, 5, binary(lb, toks[3], lc)) == Some(ParseOutcome::Parsed { expr: binary(lb, toks[3], lc), next: 5 }));
        assert(factor_rest(toks, 3, lb) == Some(ParseOutcome::Parsed { expr: binary(lb, toks[3], lc), next: 5 }));
        assert(factor_spec(toks, 2) == Some(ParseOutcome::Parsed { expr: binary(lb, toks[3], lc), next: 5 }));
        assert(match_any_spec(toks, 5, term_ops()) == Some(false));
        assert(term_rest(toks, 5, binary(la, toks[1], binary(lb, toks[3], lc))) == Some(ParseOutcome::Parsed { expr: binary(la, toks[1], binary(lb, toks[3], lc)), next: 5 }));
        assert(term_rest(toks, 1, la) == Some(ParseOutcome::Parsed { expr: binary(la, toks[1], binary(lb, toks[3], lc)), next: 5 }));
        assert(term_spec(toks, 0) == Some(ParseOutcome::Parsed { expr: binary(la, toks[1], binary(lb, toks[3], lc)), next: 5 }));
        assert(match_any_spec(toks, 5, comparison_ops()) == Some(false));
        assert(comparison_rest(toks, 5, binary(la, toks[1], binary(lb, toks[3], lc))) == Some(ParseOutcome::Parsed { expr: binary(la, toks[1], binary(lb, toks[3], lc)), next: 5 }));
        assert(comparison_spec(toks, 0) == Some(ParseOutcome::Parsed { expr: binary(la, toks[1], binary(lb, toks[3], lc)), next: 5 }));
        assert(match_any_spec(toks, 5, equality_ops()) == Some(false));
        assert(equality_rest(toks, 5, binary(la, toks[1], binary(lb, toks[3], lc))) == Some(ParseOutcome::Parsed { expr: binary(la, toks[1], binary(lb, toks[3], lc)), next: 5 }));
        assert(equality_spec(toks, 0) == Some(ParseOutcome::Parsed { expr: binary(la, toks[1], binary(lb, toks[3], lc)), next: 5 }));
        assert(expression_spec(toks, 0) == Some(ParseOutcome::Parsed { expr: binary(la, toks[1], binary(lb, toks[3], lc)), next: 5 }));
    }
}

/// Two binary operations on numbers where the first operator is at level 4.
#[verifier::spinoff_prover]
#[verifier::rlimit(100)]
proof fn lemma_two_operations_after_factor(a: Token, op1: Token, b: Token, op2: Token, c: Token, end: Token)
    requires
        a.token_type == TokenType::NUMBER,
        b.token_type == TokenType::NUMBER,
        c.token_type == TokenType::NUMBER,
        end.token_type == TokenType::EOF,
        binary_level(op1.token_type) == 4,
        binary_level(op2.token_type) >= 1,
    ensures
        expression_spec(seq![a, op1, b, op2, c, end], 0) == Some(
            ParseOutcome::Parsed {
                expr: if 4 >= binary_level(op2.token_type) {
                    binary(binary(Expr::Literal { value: a.literal }, op1, Expr::Literal { value: b.literal }), op2, Expr::Literal { value: c.literal })
                } else {
                    binary(Expr::Literal { value: a.literal }, op1, binary(Expr::Literal { value: b.literal }, op2, Expr::Literal { value: c.literal }))
                },
                next: 5,
            },
        ),
{
    let toks = seq![a, op1, b, op2, c, end];
    let la = Expr::Literal { value: a.literal };
    let lb = Expr::Literal { value: b.literal };
    let lc = Expr::Literal { value: c.literal };
    let l2 = binary_level(op2.token_type);
    if l2 == 1 {
        assert(match_any_spec(toks, 0, unary_ops()) == Some(false));
        assert(primary_spec(toks, 0) == Some(ParseOutcome::Parsed { expr: la, next: 1 }));
        assert(unary_spec(toks, 0) == Some(ParseOutcome::Parsed { expr: la, next: 1 }));
        assert(match_any_spec(toks, 1, factor_ops()) == Some(true));
        assert(match_any_spec(toks, 2, unary_ops()) == Some(false));
        assert(primary_spec(toks, 2) == Some(ParseOutcome::Parsed { expr: lb, next: 3 }));
        assert(unary_spec(toks, 2) == Some(ParseOutcome::Parsed { expr: lb, next: 3 }));
        assert(match_any_spec(toks, 3, factor_ops()) == Some(false));
        assert(factor_rest(toks, 3, binary(la, toks[1], lb)) == Some(ParseOutcome::Parsed { expr: binary(la, toks[1], lb), next: 3 }));
        assert(factor_rest(toks, 1, la) == Some(ParseOutcome::Parsed { expr: binary(la, toks[1], lb), next: 3 }));
        assert(factor_spec(toks, 0) == Some(ParseOutcome::Parsed { expr: binary(la, toks[1], lb), next: 3 }));
        assert(match_any_spec(toks, 3, term_ops()) == Some(false));
        assert(term_rest(toks, 3, binary(la, toks[1], lb)) == Some(ParseOutcome::Parsed { expr: binary(la, toks[1], lb), next: 3 }));
        assert(term_spec(toks, 0) == Some(ParseOutcome::Parsed { expr: binary(la, toks[1], lb), next: 3 }));
        assert(match_any_spec(toks, 3, comparison_ops()) == Some(false));
        assert(comparison_rest(toks, 3, binary(la, toks[1], lb)) == Some(ParseOutcome::Parsed { expr: binary(la, toks[1], lb), next: 3 }));
        assert(comparison_spec(toks, 0) == Some(ParseOutcome::Parsed { expr: binary(la, toks[1], lb), next: 3 }));
        assert(match_any_spec(toks, 3, equality_ops()) == Some(true));
        assert(match_any_spec(toks, 4, unary_ops()) == Some(false));
        assert(primary_spec(toks, 4) == Some(ParseOutcome::Parsed { expr: lc, next: 5 }));
        assert(unary_spec(toks, 4) == Some(ParseOutcome::Parsed { expr: lc, next: 5 }));
        assert(match_any_spec(toks, 5, factor_ops()) == Some(false));
        assert(factor_rest(toks, 5, lc) == Some(ParseOutcome::Parsed { expr: lc, next: 5 }));
        assert(factor_spec(toks, 4) == Some(ParseOutcome::Parsed { expr: lc, next: 5 }));
        assert(match_any_spec(toks, 5, term_ops()) == Some(false));
        assert(term_rest(toks, 5, lc) == Some(ParseOutcome::Parsed { expr: lc, next: 5 }));
        assert(term_spec(toks, 4) == Some(ParseOutcome::Parsed { expr: lc, next: 5 }));
        assert(match_any_spec(toks, 5, comparison_ops()) == Some(false));
        assert(comparison_rest(toks, 5, lc) == Some(ParseOutcome::Parsed { expr: lc, next: 5 }));
        assert(comparison_spec(toks, 4) == Some(ParseOutcome::Parsed { expr: lc, next: 5 }));
        assert(match_any_spec(toks, 5, equality_ops()) == Some(false));
        assert(equality_rest(toks, 5, binary(binary(la, toks[1], lb), toks[3], lc)) == Some(ParseOutcome::Parsed { expr: binary(binary(la, toks[1], lb), toks[3], lc), next: 5 }));
        assert(equality_rest(toks, 3, binary(la, toks[1], lb)) == Some(ParseOutcome::Parsed { expr: binary(binary(la, toks[1], lb), toks[3], lc), next: 5 }));
        assert(equality_spec(toks, 0) == Some(ParseOutcome::Parsed { expr: binary(binary(la, toks[1], lb), toks[3], lc), next: 5 }));
        assert(expression_spec(toks, 0) == Some(ParseOutcome::Parsed { expr: binary(binary(la, toks[1], lb), toks[3], lc), next: 5 }));
    } else if l2 == 2 {
        assert(match_any_spec(toks, 0, unary_ops()) == Some(false));
        assert(primary_spec(toks, 0) == Some(ParseOutcome::Parsed { expr: la, next: 1 }));
        assert(unary_spec(toks, 0) == Some(ParseOutcome::Parsed { expr: la, next: 1 }));
        assert(match_any_spec(toks, 1, factor_ops()) == Some(true));
        assert(match_any_spec(toks, 2, unary_ops()) == Some(false));
        assert(primary_spec(toks, 2) == Some(ParseOutcome::Parsed { expr: lb, next: 3 }));
        assert(unary_spec(toks, 2) == Some(ParseOutcome::Parsed { expr: lb, next: 3 }));
        assert(match_any_spec(toks, 3, factor_ops()) == Some(false));
        assert(factor_rest(toks, 3, binary(la, toks[1], lb)) == Some(ParseOutcome::Parsed { expr: binary(la, toks[1], lb), next: 3 }));
        assert(factor_rest(toks, 1, la) == Some(ParseOutcome::Parsed { expr: binary(la, toks[1], lb), next: 3 }));
        assert(factor_spec(toks, 0) == Some(ParseOutcome::Parsed { expr: binary(la, toks[1], lb), next: 3 }));
        assert(match_any_spec(toks, 3, term_ops()) == Some(false));
        assert(term_rest(toks, 3, binary(la, toks[1], lb)) == Some(ParseOutcome::Parsed { expr: binary(la, toks[1], lb), next: 3 }));
        assert(term_spec(toks, 0) == Some(ParseOutcome::Parsed { expr: binary(la, toks[1], lb), next: 3 }));
        assert(match_any_spec(toks, 3, comparison_ops()) == Some(true));
        assert(match_any_spec(toks, 4, unary_ops()) == Some(false));
        assert(primary_spec(toks, 4) == Some(ParseOutcome::Parsed { expr: lc, next: 5 }));
        assert(unary_spec(toks, 4) == Some(ParseOutcome::Parsed { expr: lc, next: 5 }));
        assert(match_any_spec(toks, 5, factor_ops()) == Some(false));
        assert(factor_rest(toks, 5, lc) == Some(ParseOutcome::Parsed { expr: lc, next: 5 }));
        assert(factor_spec(toks, 4) == Some(ParseOutcome::Parsed { expr: lc, next: 5 }));
        assert(match_any_spec(toks, 5, term_ops()) == Some(false));
        assert(term_rest(toks, 5, lc) == Some(ParseOutcome::Parsed { expr: lc, next: 5 }));
        assert(term_spec(toks, 4) == Some(ParseOutcome::Parsed { expr: lc, next: 5 }));
        assert(match_any_spec(toks, 5, comparison_ops()) == Some(false));
        assert(comparison_rest(toks, 5, binary(binary(la, toks[1], lb), toks[3], lc)) == Some(ParseOutcome::Parsed { expr: binary(binary(la, toks[1], lb), toks[3], lc), next: 5 }));
        assert(comparison_rest(toks, 3, binary(la, toks[1], lb)) == Some(ParseOutcome::Parsed { expr: binary(binary(la, toks[1], lb), toks[3], lc), next: 5 }));
        assert(comparison_spec(toks, 0) == Some(ParseOutcome::Parsed { expr: binary(binary(la, toks[1], lb), toks[3], lc), next: 5 }));
        assert(match_any_spec(toks, 5, equality_ops()) == Some(false));
        assert(equality_rest(toks, 5, binary(binary(la, toks[1], lb), toks[3], lc)) == Some(ParseOutcome::Parsed { expr: binary(binary(la, toks[1], lb), toks[3], lc), next: 5 }));
        assert(equality_spec(toks, 0) == Some(ParseOutcome::Parsed { expr: binary(binary(la, toks[1], lb), toks[3], lc), next: 5 }));
        assert(expression_spec(toks, 0) == Some(ParseOutcome::Parsed { expr: binary(binary(la, toks[1], lb), toks[3], lc), next: 5 }));
    } else if l2 == 3 {
        assert(match_any_spec(toks, 0, unary_ops()) == Some(false));
        assert(primary_spec(toks, 0) == Some(ParseOutcome::Parsed { expr: la, next: 1 }));
        assert(unary_spec(toks, 0) == Some(ParseOutcome::Parsed { expr: la, next: 1 }));
        assert(match_any_spec(toks, 1, factor_ops()) == Some(true));
        assert(match_any_spec(toks, 2, unary_ops()) == Some(false));
        assert(primary_spec(toks, 2) == Some(ParseOutcome::Parsed { expr: lb, next: 3 }));
        assert(unary_spec(toks, 2) == Some(ParseOutcome::Parsed { expr: lb, next: 3 }));
        assert(match_any_spec(toks, 3, factor_ops()) == Some(false));
        assert(factor_rest(toks, 3, binary(la, toks[1], lb)) == Some(ParseOutcome::Parsed { expr: binary(la, toks[1], lb), next: 3 }));
        assert(factor_rest(toks, 1, la) == Some(ParseOutcome::Parsed { expr: binary(la, toks[1], lb), next: 3 }));
        assert(factor_spec(toks, 0) == Some(ParseOutcome::Parsed { expr: binary(la, toks[1], lb), next: 3 }));
        assert(match_any_spec(toks, 3, term_ops()) == Some(true));
        assert(match_any_spec(toks, 4, unary_ops()) == Some(false));
        assert(primary_spec(toks, 4) == Some(ParseOutcome::Parsed { expr: lc, next: 5 }));
        assert(unary_spec(toks, 4) == Some(ParseOutcome::Parsed { expr: lc, next: 5 }));
        assert(match_any_spec(toks, 5, factor_ops()) == Some(false));
        assert(factor_rest(toks, 5, lc) == Some(ParseOutcome::Parsed { expr: lc, next: 5 }));
        assert(factor_spec(toks, 4) == Some(ParseOutcome::Parsed { expr: lc, next: 5 }));
        assert(match_any_spec(toks, 5, term_ops()) == Some(false));
        assert(term_rest(toks, 5, binary(binary(la, toks[1], lb), toks[3], lc)) == Some(ParseOutcome::Parsed { expr: binary(binary(la, toks[1], lb), toks[3], lc), next: 5 }));
        assert(term_rest(toks, 3, binary(la, toks[1], lb)) == Some(ParseOutcome::Parsed { expr: binary(binary(la, toks[1], lb), toks[3], lc), next: 5 }));
        assert(term_spec(toks, 0) == Some(ParseOutcome::Parsed { expr: binary(binary(la, toks[1], lb), toks[3], lc), next: 5 }));
        assert(match_any_spec(toks, 5, comparison_ops()) == Some(false));
        assert(comparison_rest(toks, 5, binary(binary(la, toks[1], lb), toks[3], lc)) == Some(ParseOutcome::Parsed { expr: binary(binary(la, toks[1], lb), toks[3], lc), next: 5 }));
        assert(comparison_spec(toks, 0) == Some(ParseOutcome::Parsed { expr: binary(binary(la, toks[1], lb), toks[3], lc), next: 5 }));
        assert(match_any_spec(toks, 5, equality_ops()) == Some(false));
        assert(equality_rest(toks, 5, binary(binary(la, toks[1], lb), toks[3], lc)) == Some(ParseOutcome::Parsed { expr: binary(binary(la, toks[1], lb), toks[3], lc), next: 5 }));
        assert(equality_spec(toks, 0) == Some(ParseOutcome::Parsed { expr: binary(binary(la, toks[1], lb), toks[3], lc), next: 5 }));
        assert(expression_spec(toks, 0) == Some(ParseOutcome::Parsed { expr: binary(binary(la, toks[1], lb), toks[3], lc), next: 5 }));
    } else if l2 == 4 {
        assert(match_any_spec(toks, 0, unary_ops()) == Some(false));
        assert(primary_spec(toks, 0) == Some(ParseOutcome::Parsed { expr: la, next: 1 }));
        assert(unary_spec(toks, 0) == Some(ParseOutcome::Parsed { expr: la, next: 1 }));
        assert(match_any_spec(toks, 1, factor_ops()) == Some(true));
        assert(match_any_spec(toks, 2, unary_ops()) == Some(false));
        assert(primary_spec(toks, 2) == Some(ParseOutcome::Parsed { expr: lb, next: 3 }));
        assert(unary_spec(toks, 2) == Some(ParseOutcome::Parsed { expr: lb, next: 3 }));
        assert(match_any_spec(toks, 3, factor_ops()) == Some(true));
        assert(match_any_spec(toks, 4, unary_ops()) == Some(false));
        assert(primary_spec(toks, 4) == Some(ParseOutcome::Parsed { expr: lc, next: 5 }));
        assert(unary_spec(toks, 4) == Some(ParseOutcome::Parsed { expr: lc, next: 5 }));
        assert(match_any_spec(toks, 5, factor_ops()) == Some(false));
        assert(factor_rest(toks, 5, binary(binary(la, toks[1], lb), toks[3], lc)) == Some(ParseOutcome::Parsed { expr: binary(binary(la, toks[1], lb), toks[3], lc), next: 5 }));
        assert(factor_rest(toks, 3, binary(la, toks[1], lb)) == Some(ParseOutcome::Parsed { expr: binary(binary(la, toks[1], lb), toks[3], lc), next: 5 }));
        assert(factor_rest(toks, 1, la) == Some(ParseOutcome::Parsed { expr: binary(binary(la, toks[1], lb), toks[3], lc), next: 5 }));
        assert(factor_spec(toks, 0) == Some(ParseOutcome::Parsed { expr: binary(binary(la, toks[1], lb), toks[3], lc), next: 5 }));
        assert(match_any_spec(toks, 5, term_ops()) == Some(false));
        assert(term_rest(toks, 5, binary(binary(la, toks[1], lb), toks[3], lc)) == Some(ParseOutcome::Parsed { expr: binary(binary(la, toks[1], lb), toks[3], lc), next: 5 }));
        assert(term_spec(toks, 0) == Some(ParseOutcome::Parsed { expr: binary(binary(la, toks[1], lb), toks[3], lc), next: 5 }));
        assert(match_any_spec(toks, 5, comparison_ops()) == Some(false));
        assert(comparison_rest(toks, 5, binary(binary(la, toks[1], lb), toks[3], lc)) == Some(ParseOutcome::Parsed { expr: binary(binary(la, toks[1], lb), toks[3], lc), next: 5 }));
        assert(comparison_spec(toks, 0) == Some(ParseOutcome::Parsed { expr: binary(binary(la, toks[1], lb), toks[3], lc), next: 5 }));
        assert(match_any_spec(toks, 5, equality_ops()) == Some(false));
        assert(equality_rest(toks, 5, binary(binary(la, toks[1], lb), toks[3], lc)) == Some(ParseOutcome::Parsed { expr: binary(binary(la, toks[1], lb), toks[3], lc), next: 5 }));
        assert(equality_spec(toks, 0) == Some(ParseOutcome::Parsed { expr: binary(binary(la, toks[1], lb), toks[3], lc), next: 5 }));
        assert(expression_spec(toks, 0) == Some(ParseOutcome::Parsed { expr: binary(binary(la, toks[1], lb), toks[3], lc), next: 5 }));
    }
}

/// Three numbers joined by two binary operators parse as the grammar's
/// precedence and associativity say: where the second operator binds more
/// tightly than the first, it takes the last two numbers; otherwise (the
/// first binds more tightly, or both stand at one level) the first takes the
/// first two numbers, so operators of one level associate to the left.
pub proof fn lemma_two_binary_operations(a: Token, op1: Token, b: Token, op2: Token, c: Token, end: Token)
    requires
        a.token_type == TokenType::NUMBER,
        b.token_type == TokenType::NUMBER,
        c.token_type == TokenType::NUMBER,
        end.token_type == TokenType::EOF,
        binary_level(op1.token_type) >= 1,
        binary_level(op2.token_type) >= 1,
    ensures
        expression_spec(seq![a, op1, b, op2, c, end], 0) == Some(
            ParseOutcome::Parsed {
                expr: if binary_level(op1.token_type) >= binary_level(op2.token_type) {
                    binary(binary(Expr::Literal { value: a.literal }, op1, Expr::Literal { value: b.literal }), op2, Expr::Literal { value: c.literal })
                } else {
                    binary(Expr::Literal { value: a.literal }, op1, binary(Expr::Literal { value: b.literal }, op2, Expr::Literal { value: c.literal }))
                },
                next: 5,
            },
        ),
{
    let l1 = binary_level(op1.token_type);
    if l1 == 1 {
        lemma_two_operations_after_equality(a, op1, b, op2, c, end);
    } else if l1 == 2 {
        lemma_two_operations_after_comparison(a, op1, b, op2, c, end);
    } else if l1 == 3 {
        lemma_two_operations_after_term(a, op1, b, op2, c, end);
    } else {
        lemma_two_operations_after_factor(a, op1, b, op2, c, end);
    }
}

/// At a token that is no binary operator, every repeated part of a rule
/// stops and hands back what it was given.
#[verifier::spinoff_prover]
#[verifier::rlimit(50)]
proof fn lemma_rests_stop(toks: Seq<Token>, p: int, left: Expr)
    requires
        0 <= p < toks.len(),
        binary_level(toks[p].token_type) == 0,
    ensures
        factor_rest(toks, p, left) == Some(ParseOutcome::Parsed { expr: left, next: p }),
        term_rest(toks, p, left) == Some(ParseOutcome::Parsed { expr: left, next: p }),
        comparison_rest(toks, p, left) == Some(ParseOutcome::Parsed { expr: left, next: p }),
        equality_rest(toks, p, left) == Some(ParseOutcome::Parsed { expr: left, next: p }),
{
    let t = toks[p].token_type;
    assert(!factor_ops().contains(t)) by {
        if factor_ops().contains(t) {
            let k = choose|k: int| 0 <= k < factor_ops().len() && factor_ops()[k] == t;
            assert(k == 0 || k == 1);
        }
    }
    assert(!term_ops().contains(t)) by {
        if term_ops().contains(t) {
            let k = choose|k: int| 0 <= k < term_ops().len() && term_ops()[k] == t;
            assert(k == 0 || k == 1);
        }
    }
    assert(!comparison_ops().contains(t)) by {
        if comparison_ops().contains(t) {
            let k = choose|k: int| 0 <= k < comparison_ops().len() && comparison_ops()[k] == t;
            assert(0 <= k < 4);
        }
    }
    assert(!equality_ops().contains(t)) by {
        if equality_ops().contains(t) {
            let k = choose|k: int| 0 <= k < equality_ops().len() && equality_ops()[k] == t;
            assert(k == 0 || k == 1);
        }
    }
}

/// Where the unary rule reads an expression up to a token that is no binary
/// operator, the whole expression is that one.
#[verifier::spinoff_prover]
#[verifier::rlimit(50)]
proof fn lemma_levels_over_unary(toks: Seq<Token>, i: int, e: Expr, p: int)
    requires
        0 <= i < p < toks.len(),
        unary_spec(toks, i) == Some(ParseOutcome::Parsed { expr: e, next: p }),
        binary_level(toks[p].token_type) == 0,
    ensures
        expression_spec(toks, i) == Some(ParseOutcome::Parsed { expr: e, next: p }),
{
    lemma_rests_stop(toks, p, e);
    assert(factor_spec(toks, i) == Some(ParseOutcome::Parsed { expr: e, next: p }));
    assert(term_spec(toks, i) == Some(ParseOutcome::Parsed { expr: e, next: p }));
    assert(comparison_spec(toks, i) == Some(ParseOutcome::Parsed { expr: e, next: p }));
    assert(equality_spec(toks, i) == Some(ParseOutcome::Parsed { expr: e, next: p }));
}

/// `!` or `-` before a number, followed by a token that is no binary
/// operator, parses to one unary node over the number.
#[verifier::spinoff_prover]
#[verifier::rlimit(50)]
pub proof fn lemma_unary_operation(toks: Seq<Token>)
    requires
        toks.len() >= 3,
        toks[0].token_type == TokenType::BANG || toks[0].token_type == TokenType::MINUS,
        toks[1].token_type == TokenType::NUMBER,
        binary_level(toks[2].token_type) == 0,
    ensures
        expression_spec(toks, 0) == Some(
            ParseOutcome::Parsed {
                expr: Expr::Unary { operator: toks[0], right: Box::new(Expr::Literal { value: toks[1].literal }) },
                next: 2,
            },
        ),
{
    let l = Expr::Literal { value: toks[1].literal };
    assert(match_any_spec(toks, 0, unary_ops()) == Some(true));
    assert(match_any_spec(toks, 1, unary_ops()) == Some(false));
    assert(primary_spec(toks, 1) == Some(ParseOutcome::Parsed { expr: l, next: 2 }));
    assert(unary_spec(toks, 1) == Some(ParseOutcome::Parsed { expr: l, next: 2 }));
    lemma_levels_over_unary(toks, 0, Expr::Unary { operator: toks[0], right: Box::new(l) }, 2);
}

/// A number in parentheses, followed by a token that is no binary operator,
/// parses to a grouping of the number that ends after the `)`.
#[verifier::spinoff_prover]
#[verifier::rlimit(50)]
pub proof fn lemma_grouped_number(toks: Seq<Token>)
    requires
        toks.len() >= 4,
        toks[0].token_type == TokenType::LEFT_PAREN,
        toks[1].token_type == TokenType::NUMBER,
        toks[2].token_type == TokenType::RIGHT_PAREN,
        binary_level(toks[3].token_type) == 0,
    ensures
        expression_spec(toks, 0) == Some(
            ParseOutcome::Parsed {
                expr: Expr::Grouping { expression: Box::new(Expr::Literal { value: toks[1].literal }) },
                next: 3,
            },
        ),
{
    let l = Expr::Literal { value: toks[1].literal };
    assert(match_any_spec(toks, 1, unary_ops()) == Some(false));
    assert(primary_spec(toks, 1) == Some(ParseOutcome::Parsed { expr: l, next: 2 }));
    assert(unary_spec(toks, 1) == Some(ParseOutcome::Parsed { expr: l, next: 2 }));
    lemma_levels_over_unary(toks, 1, l, 2);
    assert(match_any_spec(toks, 0, unary_ops()) == Some(false));
    assert(unary_spec(toks, 0) == Some(
        ParseOutcome::Parsed { expr: Expr::Grouping { expression: Box::new(l) }, next: 3 },
    ));
    lemma_levels_over_unary(toks, 0, Expr::Grouping { expression: Box::new(l) }, 3);
}

/// An opening parenthesis and a number followed by anything but `)` or a
/// binary operator is refused at that token with
/// "Expect ')' after expression.".
#[verifier::spinoff_prover]
#[verifier::rlimit(50)]
pub proof fn lemma_unclosed_group(toks: Seq<Token>)
    requires
        toks.len() >= 3,
        toks[0].token_type == TokenType::LEFT_PAREN,
        toks[1].token_type == TokenType::NUMBER,
        toks[2].token_type != TokenType::RIGHT_PAREN,
        binary_level(toks[2].token_type) == 0,
    ensures
        expression_spec(toks, 0) == Some(
            ParseOutcome::Failed { token: toks[2], message: "Expect ')' after expression."@, next: 2 },
        ),
{
    let l = Expr::Literal { value: toks[1].literal };
    let f = ParseOutcome::Failed { token: toks[2], message: "Expect ')' after expression."@, next: 2 };
    assert(match_any_spec(toks, 1, unary_ops()) == Some(false));
    assert(primary_spec(toks, 1) == Some(ParseOutcome::Parsed { expr: l, next: 2 }));
    assert(unary_spec(toks, 1) == Some(ParseOutcome::Parsed { expr: l, next: 2 }));
    lemma_levels_over_unary(toks, 1, l, 2);
    assert(match_any_spec(toks, 0, unary_ops()) == Some(false));
    assert(unary_spec(toks, 0) == Some(f));
    assert(factor_spec(toks, 0) == Some(f));
    assert(term_spec(toks, 0) == Some(f));
    assert(comparison_spec(toks, 0) == Some(f));
    assert(equality_spec(toks, 0) == Some(f));
}

/// A token that can start no expression (anything but a literal, `(`, `!`
/// or `-`) is refused where it stands with "Expected an expression".
#[verifier::spinoff_prover]
#[verifier::rlimit(50)]
pub proof fn lemma_not_an_expression(toks: Seq<Token>)
    requires
        toks.len() >= 1,
        ({
            let t = toks[0].token_type;
            &&& t != TokenType::NUMBER
            &&& t != TokenType::STRING
            &&& t != TokenType::TRUE
            &&& t != TokenType::FALSE
            &&& t != TokenType::NIL
            &&& t != TokenType::LEFT_PAREN
            &&& t != TokenType::BANG
            &&& t != TokenType::MINUS
        }),
    ensures
        expression_spec(toks, 0) == Some(
            ParseOutcome::Failed { token: toks[0], message: "Expected an expression"@, next: 0 },
        ),
{
    let f = ParseOutcome::Failed { token: toks[0], message: "Expected an expression"@, next: 0 };
    assert(match_any_spec(toks, 0, unary_ops()) == Some(false)) by {
        if unary_ops().contains(toks[0].token_type) {
            let k = choose|k: int| 0 <= k < unary_ops().len() && unary_ops()[k] == toks[0].token_type;
            assert(k == 0 || k == 1);
        }
    }
    assert(unary_spec(toks, 0) == Some(f));
    assert(factor_spec(toks, 0) == Some(f));
    assert(term_spec(toks, 0) == Some(f));
    assert(comparison_spec(toks, 0) == Some(f));
    assert(equality_spec(toks, 0) == Some(f));
}

/// Where the unary rule reads `e` from `i` up to a binary operator that a
/// number and then a token that is no binary operator follow, the whole
/// expression from `i` is one binary node over `e` and that number.
#[verifier::spinoff_prover]
#[verifier::rlimit(50)]
proof fn lemma_binary_after_unary(toks: Seq<Token>, i: int, e: Expr, p: int)
    requires
        0 <= i < p,
        p + 2 < toks.len(),
        unary_spec(toks, i) == Some(ParseOutcome::Parsed { expr: e, next: p }),
        binary_level(toks[p].token_type) >= 1,
        toks[p + 1].token_type == TokenType::NUMBER,
        binary_level(toks[p + 2].token_type) == 0,
    ensures
        expression_spec(toks, i) == Some(
            ParseOutcome::Parsed {
                expr: binary(e, toks[p], Expr::Literal { value: toks[p + 1].literal }),
                next: p + 2,
            },
        ),
{
    let lb = Expr::Literal { value: toks[p + 1].literal };
    let op = toks[p];
    let node = binary(e, op, lb);
    let end = p + 2;
    let parsed_node = Some(ParseOutcome::Parsed { expr: node, next: end });
    let parsed_e = Some(ParseOutcome::Parsed { expr: e, next: p });
    assert(match_any_spec(toks, p + 1, unary_ops()) == Some(false));
    assert(primary_spec(toks, p + 1) == Some(ParseOutcome::Parsed { expr: lb, next: end }));
    assert(unary_spec(toks, p + 1) == Some(ParseOutcome::Parsed { expr: lb, next: end }));
    lemma_rests_stop(toks, end, lb);
    lemma_rests_stop(toks, end, node);
    assert(factor_spec(toks, p + 1) == Some(ParseOutcome::Parsed { expr: lb, next: end }));
    assert(term_spec(toks, p + 1) == Some(ParseOutcome::Parsed { expr: lb, next: end }));
    assert(comparison_spec(toks, p + 1) == Some(ParseOutcome::Parsed { expr: lb, next: end }));
    let t = op.token_type;
    if binary_level(t) == 4 {
        assert(match_any_spec(toks, p, factor_ops()) == Some(true));
        assert(factor_rest(toks, p, e) == parsed_node);
        assert(factor_spec(toks, i) == parsed_node);
        assert(term_spec(toks, i) == parsed_node);
        assert(comparison_spec(toks, i) == parsed_node);
    } else {
        assert(match_any_spec(toks, p, factor_ops()) == Some(false));
        assert(factor_rest(toks, p, e) == parsed_e);
        assert(factor_spec(toks, i) == parsed_e);
        if binary_level(t) == 3 {
            assert(match_any_spec(toks, p, term_ops()) == Some(true));
            assert(term_rest(toks, p, e) == parsed_node);
            assert(term_spec(toks, i) == parsed_node);
            assert(comparison_spec(toks, i) == parsed_node);
        } else {
            assert(match_any_spec(toks, p, term_ops()) == Some(false));
            assert(term_rest(toks, p, e) == parsed_e);
            assert(term_spec(toks, i) == parsed_e);
            if binary_level(t) == 2 {
                assert(match_any_spec(toks, p, comparison_ops()) == Some(true));
                assert(comparison_rest(toks, p, e) == parsed_node);
                assert(comparison_spec(toks, i) == parsed_node);
            } else {
                assert(match_any_spec(toks, p, comparison_ops()) == Some(false));
                assert(comparison_rest(toks, p, e) == parsed_e);
                assert(comparison_spec(toks, i) == parsed_e);
                assert(match_any_spec(toks, p, equality_ops()) == Some(true));
                assert(equality_rest(toks, p, e) == parsed_node);
            }
        }
    }
    assert(equality_spec(toks, i) == parsed_node);
}

/// A number, a binary operator and a number, followed by a token that is no
/// binary operator, parse from `i` to one binary node over the two numbers.
proof fn lemma_binary_at(toks: Seq<Token>, i: int)
    requires
        0 <= i,
        i + 3 < toks.len(),
        toks[i].token_type == TokenType::NUMBER,
        binary_level(toks[i + 1].token_type) >= 1,
        toks[i + 2].token_type == TokenType::NUMBER,
        binary_level(toks[i + 3].token_type) == 0,
    ensures
        expression_spec(toks, i) == Some(
            ParseOutcome::Parsed {
                expr: binary(Expr::Literal { value: toks[i].literal }, toks[i + 1], Expr::Literal {
                    value: toks[i + 2].literal,
                }),
                next: i + 3,
            },
        ),
{
    let la = Expr::Literal { value: toks[i].literal };
    assert(match_any_spec(toks, i, unary_ops()) == Some(false));
    assert(primary_spec(toks, i) == Some(ParseOutcome::Parsed { expr: la, next: i + 1 }));
    assert(unary_spec(toks, i) == Some(ParseOutcome::Parsed { expr: la, next: i + 1 }));
    lemma_binary_after_unary(toks, i, la, i + 1);
}

/// A prefix operator binds more tightly than every binary operator: `!` or
/// `-` before a number applies to that number alone, and the binary
/// operation that follows takes the result as its left operand.
pub proof fn lemma_unary_binds_tighter(toks: Seq<Token>)
    requires
        toks.len() >= 5,
        toks[0].token_type == TokenType::BANG || toks[0].token_type == TokenType::MINUS,
        toks[1].token_type == TokenType::NUMBER,
        binary_level(toks[2].token_type) >= 1,
        toks[3].token_type == TokenType::NUMBER,
        binary_level(toks[4].token_type) == 0,
    ensures
        expression_spec(toks, 0) == Some(
            ParseOutcome::Parsed {
                expr: binary(
                    Expr::Unary { operator: toks[0], right: Box::new(Expr::Literal { value: toks[1].literal }) },
                    toks[2],
                    Expr::Literal { value: toks[3].literal },
                ),
                next: 4,
            },
        ),
{
    let l = Expr::Literal { value: toks[1].literal };
    let u = Expr::Unary { operator: toks[0], right: Box::new(l) };
    assert(match_any_spec(toks, 0, unary_ops()) == Some(true));
    assert(match_any_spec(toks, 1, unary_ops()) == Some(false));
    assert(primary_spec(toks, 1) == Some(ParseOutcome::Parsed { expr: l, next: 2 }));
    assert(unary_spec(toks, 1) == Some(ParseOutcome::Parsed { expr: l, next: 2 }));
    assert(unary_spec(toks, 0) == Some(ParseOutcome::Parsed { expr: u, next: 2 }));
    lemma_binary_after_unary(toks, 0, u, 2);
}

/// A binary operation in parentheses is one grouping: the operation inside
/// is parsed whole, up to the `)`, whatever its operator.
#[verifier::spinoff_prover]
#[verifier::rlimit(50)]
pub proof fn lemma_grouped_binary_operation(toks: Seq<Token>)
    requires
        toks.len() >= 6,
        toks[0].token_type == TokenType::LEFT_PAREN,
        toks[1].token_type == TokenType::NUMBER,
        binary_level(toks[2].token_type) >= 1,
        toks[3].token_type == TokenType::NUMBER,
        toks[4].token_type == TokenType::RIGHT_PAREN,
        binary_level(toks[5].token_type) == 0,
    ensures
        expression_spec(toks, 0) == Some(
            ParseOutcome::Parsed {
                expr: Expr::Grouping {
                    expression: Box::new(
                        binary(Expr::Literal { value: toks[1].literal }, toks[2], Expr::Literal { value: toks[3].literal }),
                    ),
                },
                next: 5,
            },
        ),
{
    lemma_binary_at(toks, 1);
    let inner = binary(Expr::Literal { value: toks[1].literal }, toks[2], Expr::Literal { value: toks[3].literal });
    let g = Expr::Grouping { expression: Box::new(inner) };
    assert(match_any_spec(toks, 0, unary_ops()) == Some(false));
    assert(primary_spec(toks, 0) == Some(ParseOutcome::Parsed { expr: g, next: 5 }));
    assert(unary_spec(toks, 0) == Some(ParseOutcome::Parsed { expr: g, next: 5 }));
    lemma_levels_over_unary(toks, 0, g, 5);
}

/// Two prefix operators before a number nest: the first applies to the
/// result of the second.
#[verifier::spinoff_prover]
#[verifier::rlimit(50)]
pub proof fn lemma_nested_unary_operations(toks: Seq<Token>)
    requires
        toks.len() >= 4,
        toks[0].token_type == TokenType::BANG || toks[0].token_type == TokenType::MINUS,
        toks[1].token_type == TokenType::BANG || toks[1].token_type == TokenType::MINUS,
        toks[2].token_type == TokenType::NUMBER,
        binary_level(toks[3].token_type) == 0,
    ensures
        expression_spec(toks, 0) == Some(
            ParseOutcome::Parsed {
                expr: Expr::Unary {
                    operator: toks[0],
                    right: Box::new(
                        Expr::Unary { operator: toks[1], right: Box::new(Expr::Literal { value: toks[2].literal }) },
                    ),
                },
                next: 3,
            },
        ),
{
    let l = Expr::Literal { value: toks[2].literal };
    let inner = Expr::Unary { operator: toks[1], right: Box::new(l) };
    let outer = Expr::Unary { operator: toks[0], right: Box::new(inner) };
    assert(match_any_spec(toks, 0, unary_ops()) == Some(true));
    assert(match_any_spec(toks, 1, unary_ops()) == Some(true));
    assert(match_any_spec(toks, 2, unary_ops()) == Some(false));
    assert(primary_spec(toks, 2) == Some(ParseOutcome::Parsed { expr: l, next: 3 }));
    assert(unary_spec(toks, 2) == Some(ParseOutcome::Parsed { expr: l, next: 3 }));
    assert(unary_spec(toks, 1) == Some(ParseOutcome::Parsed { expr: inner, next: 3 }));
    assert(unary_spec(toks, 0) == Some(ParseOutcome::Parsed { expr: outer, next: 3 }));
    lemma_levels_over_unary(toks, 0, outer, 3);
}

/// Whether parsing can start afresh at `k`: at the end-of-file token, after
/// a `;` (scanned from `:`), or at a keyword that starts a statement.
pub open spec fn is_statement_boundary(toks: Seq<Token>, k: int) -> bool {
    let t = toks[k].token_type;
    ||| t == TokenType::EOF
    ||| (k >= 1 && toks[k - 1].token_type == TokenType::SEMICOLON)
    ||| t == TokenType::CLASS || t == TokenType::FUN || t == TokenType::VAR || t == TokenType::FOR || t
        == TokenType::IF || t == TokenType::WHILE || t == TokenType::PRINT || t == TokenType::RETURN
}

/// From `j` (at least 1), skipping stops at the first boundary.
proof fn lemma_sync_from_first_boundary(toks: Seq<Token>, j: int)
    requires
        1 <= j < toks.len(),
        ends_with_eof(toks),
    ensures
        sync_from(toks, j) matches Some(r) && {
            &&& j <= r < toks.len()
            &&& is_statement_boundary(toks, r)
            &&& forall|k: int| j <= k < r ==> !is_statement_boundary(toks, k)
        },
    decreases toks.len() - j,
{
    if is_statement_boundary(toks, j) {
    } else {
        assert(j != toks.len() - 1);
        lemma_sync_from_first_boundary(toks, j + 1);
    }
}

/// After an error, the parser skips the token it stands on (unless that is
/// the end-of-file token) and every token after it up to the first place
/// where a statement can start: the end-of-file token, the token after a
/// `;`, or a statement keyword. It never skips past the end of the list.
pub proof fn lemma_synchronise_stops_at_boundary(toks: Seq<Token>, i: int)
    requires
        0 <= i < toks.len(),
        ends_with_eof(toks),
    ensures
        synchronise_spec(toks, i) matches Some(r) && {
            &&& toks[i].token_type == TokenType::EOF ==> r == i
            &&& toks[i].token_type != TokenType::EOF ==> {
                &&& i < r < toks.len()
                &&& is_statement_boundary(toks, r)
                &&& forall|k: int| i < k < r ==> !is_statement_boundary(toks, k)
            }
        },
{
    if toks[i].token_type != TokenType::EOF {
        assert(i != toks.len() - 1);
        lemma_sync_from_first_boundary(toks, i + 1);
    }
}

// ---------------------------------------------------------------------------
// The parser
// ---------------------------------------------------------------------------

/// A token that cannot stand where the parser found it, and why.
pub struct ParseError {
    pub token: Token,
    pub message: String,
}

/// The model of what a parsing method returned, with the position it left
/// the parser at.
pub open spec fn outcome_of(r: Result<Expr, ParseError>, cursor: int) -> ParseOutcome {
    match r {
        Ok(expr) => ParseOutcome::Parsed { expr, next: cursor },
        Err(e) => ParseOutcome::Failed { token: e.token, message: e.message@, next: cursor },
    }
}

/// Top-down recursive descent parser. Each grammar rule is implemented as a
/// method on the `Parser` struct.
pub struct Parser {
    tokens: Vec<Token>,
    cursor: usize,
}

impl Parser {
    /// The tokens being parsed.
    pub closed spec fn token_list(&self) -> Seq<Token> {
        self.tokens@
    }

    /// The index of the next token to be consumed.
    pub closed spec fn cursor_index(&self) -> int {
        self.cursor as int
    }

    pub fn new(tokens: Vec<Token>) -> (p: Self)
        ensures
            p.token_list() == tokens@,
            p.cursor_index() == 0,
    {
        Parser { tokens: tokens, cursor: 0 }
    }

    /// Parses an expression from the cursor on: the expression, or the first
    /// token at which the grammar fails.
    pub fn parse(&mut self) -> (r: Result<Expr, ParseError>)
        requires
            expression_spec(old(self).token_list(), old(self).cursor_index()) is Some,
        ensures
            final(self).token_list() == old(self).token_list(),
            expression_spec(old(self).token_list(), old(self).cursor_index()) == Some(
                outcome_of(r, final(self).cursor_index()),
            ),
    {
        self.parse_expression()
    }

    fn parse_expression(&mut self) -> (r: Result<Expr, ParseError>)
        requires
            expression_spec(old(self).tokens@, old(self).cursor as int) is Some,
        ensures
            final(self).tokens == old(self).tokens,
            expression_spec(old(self).tokens@, old(self).cursor as int) == Some(outcome_of(r, final(self).cursor as int)),
        decreases old(self).tokens@.len() - old(self).cursor, 10nat,
    {
        self.parse_equality()
    }

    fn parse_equality(&mut self) -> (r: Result<Expr, ParseError>)
        requires
            equality_spec(old(self).tokens@, old(self).cursor as int) is Some,
        ensures
            final(self).tokens == old(self).tokens,
            equality_spec(old(self).tokens@, old(self).cursor as int) == Some(outcome_of(r, final(self).cursor as int)),
        decreases old(self).tokens@.len() - old(self).cursor, 9nat,
    {
        let ghost toks = self.tokens@;
        let ghost i = self.cursor as int;
        proof {
            lemma_comparison_within(toks, i);
        }
        let mut expr = match self.parse_comparison() {
            Ok(e) => e,
            Err(err) => return Err(err),
        };
        let ops = [TokenType::BANG_EQUAL, TokenType::EQUAL_EQUAL];
        assert(ops@ =~= equality_ops());
        while self.match_any(&ops)
            invariant_except_break
                self.tokens == old(self).tokens,
                self.tokens@ == toks,
                ops@ == equality_ops(),
                i == old(self).cursor,
                i <= self.cursor <= toks.len(),
                equality_spec(toks, i) is Some,
                equality_spec(toks, i) == equality_rest(toks, self.cursor as int, expr),
            ensures
                self.tokens == old(self).tokens,
                equality_spec(toks, i) == Some(ParseOutcome::Parsed { expr, next: self.cursor as int }),
            decreases toks.len() - self.cursor,
        {
            let ghost j = self.cursor - 1;
            proof {
                assert(match_any_spec(toks, j, equality_ops()) == Some(true));
                lemma_comparison_within(toks, j + 1);
            }
            let operator = self.previous().clone();
            let right = match self.parse_comparison() {
                Ok(e) => e,
                Err(err) => return Err(err),
            };
            proof {
                assert(equality_rest(toks, j, expr) == equality_rest(toks, self.cursor as int, binary(expr, toks[j], right)));
            }
            expr = Expr::Binary { left: Box::new(expr), right: Box::new(right), operator };
        }
        Ok(expr)
    }

    fn parse_comparison(&mut self) -> (r: Result<Expr, ParseError>)
        requires
            comparison_spec(old(self).tokens@, old(self).cursor as int) is Some,
        ensures
            final(self).tokens == old(self).tokens,
            comparison_spec(old(self).tokens@, old(self).cursor as int) == Some(outcome_of(r, final(self).cursor as int)),
        decreases old(self).tokens@.len() - old(self).cursor, 7nat,
    {
        let ghost toks = self.tokens@;
        let ghost i = self.cursor as int;
        proof {
            lemma_term_within(toks, i);
        }
        let mut expr = match self.parse_term() {
            Ok(e) => e,
            Err(err) => return Err(err),
        };
        let ops = [TokenType::GREATER, TokenType::GREATER_EQUAL, TokenType::LESS, TokenType::LESS_EQUAL];
        assert(ops@ =~= comparison_ops());
        while self.match_any(&ops)
            invariant_except_break
                self.tokens == old(self).tokens,
                self.tokens@ == toks,
                ops@ == comparison_ops(),
                i == old(self).cursor,
                i <= self.cursor <= toks.len(),
                comparison_spec(toks, i) is Some,
                comparison_spec(toks, i) == comparison_rest(toks, self.cursor as int, expr),
            ensures
                self.tokens == old(self).tokens,
                comparison_spec(toks, i) == Some(ParseOutcome::Parsed { expr, next: self.cursor as int }),
            decreases toks.len() - self.cursor,
        {
            let ghost j = self.cursor - 1;
            proof {
                assert(match_any_spec(toks, j, comparison_ops()) == Some(true));
                lemma_term_within(toks, j + 1);
            }
            let operator = self.previous().clone();
            let right = match self.parse_term() {
                Ok(e) => e,
                Err(err) => return Err(err),
            };
            proof {
                assert(comparison_rest(toks, j, expr) == comparison_rest(toks, self.cursor as int, binary(expr, toks[j], right)));
            }
            expr = Expr::Binary { left: Box::new(expr), right: Box::new(right), operator };
        }
        Ok(expr)
    }

    fn parse_term(&mut self) -> (r: Result<Expr, ParseError>)
        requires
            term_spec(old(self).tokens@, old(self).cursor as int) is Some,
        ensures
            final(self).tokens == old(self).tokens,
            term_spec(old(self).tokens@, old(self).cursor as int) == Some(outcome_of(r, final(self).cursor as int)),
        decreases old(self).tokens@.len() - old(self).cursor, 5nat,
    {
        let ghost toks = self.tokens@;
        let ghost i = self.cursor as int;
        proof {
            lemma_factor_within(toks, i);
        }
        let mut expr = match self.parse_factor() {
            Ok(e) => e,
            Err(err) => return Err(err),
        };
        let ops = [TokenType::MINUS, TokenType::PLUS];
        assert(ops@ =~= term_ops());
        while self.match_any(&ops)
            invariant_except_break
                self.tokens == old(self).tokens,
                self.tokens@ == toks,
                ops@ == term_ops(),
                i == old(self).cursor,
                i <= self.cursor <= toks.len(),
                term_spec(toks, i) is Some,
                term_spec(toks, i) == term_rest(toks, self.cursor as int, expr),
            ensures
                self.tokens == old(self).tokens,
                term_spec(toks, i) == Some(ParseOutcome::Parsed { expr, next: self.cursor as int }),
            decreases toks.len() - self.cursor,
        {
            let ghost j = self.cursor - 1;
            proof {
                assert(match_any_spec(toks, j, term_ops()) == Some(true));
                lemma_factor_within(toks, j + 1);
            }
            let operator = self.previous().clone();
            let right = match self.parse_factor() {
                Ok(e) => e,
                Err(err) => return Err(err),
            };
            proof {
                assert(term_rest(toks, j, expr) == term_rest(toks, self.cursor as int, binary(expr, toks[j], right)));
            }
            expr = Expr::Binary { left: Box::new(expr), right: Box::new(right), operator };
        }
        Ok(expr)
    }

    fn parse_factor(&mut self) -> (r: Result<Expr, ParseError>)
        requires
            factor_spec(old(self).tokens@, old(self).cursor as int) is Some,
        ensures
            final(self).tokens == old(self).tokens,
            factor_spec(old(self).tokens@, old(self).cursor as int) == Some(outcome_of(r, final(self).cursor as int)),
        decreases old(self).tokens@.len() - old(self).cursor, 3nat,
    {
        let ghost toks = self.tokens@;
        let ghost i = self.cursor as int;
        proof {
            lemma_unary_within(toks, i);
        }
        let mut expr = match self.parse_unary() {
            Ok(e) => e,
            Err(err) => return Err(err),
        };
        let ops = [TokenType::SLASH, TokenType::STAR];
        assert(ops@ =~= factor_ops());
        while self.match_any(&ops)
            invariant_except_break
                self.tokens == old(self).tokens,
                self.tokens@ == toks,
                ops@ == factor_ops(),
                i == old(self).cursor,
                i <= self.cursor <= toks.len(),
                factor_spec(toks, i) is Some,
                factor_spec(toks, i) == factor_rest(toks, self.cursor as int, expr),
            ensures
                self.tokens == old(self).tokens,
                factor_spec(toks, i) == Some(ParseOutcome::Parsed { expr, next: self.cursor as int }),
            decreases toks.len() - self.cursor,
        {
            let ghost j = self.cursor - 1;
            proof {
                assert(match_any_spec(toks, j, factor_ops()) == Some(true));
                lemma_unary_within(toks, j + 1);
            }
            let operator = self.previous().clone();
            let right = match self.parse_unary() {
                Ok(e) => e,
                Err(err) => return Err(err),
            };
            proof {
                assert(factor_rest(toks, j, expr) == factor_rest(toks, self.cursor as int, binary(expr, toks[j], right)));
            }
            expr = Expr::Binary { left: Box::new(expr), right: Box::new(right), operator };
        }
        Ok(expr)
    }

    fn parse_unary(&mut self) -> (r: Result<Expr, ParseError>)
        requires
            unary_spec(old(self).tokens@, old(self).cursor as int) is Some,
        ensures
            final(self).tokens == old(self).tokens,
            unary_spec(old(self).tokens@, old(self).cursor as int) == Some(outcome_of(r, final(self).cursor as int)),
        decreases old(self).tokens@.len() - old(self).cursor, 1nat,
    {
        let ghost toks = self.tokens@;
        let ghost i = self.cursor as int;
        let ops = [TokenType::BANG, TokenType::MINUS];
        assert(ops@ =~= unary_ops());
        if self.match_any(&ops) {
            assert(unary_spec(toks, i) == match unary_spec(toks, i + 1) {
                Some(ParseOutcome::Parsed { expr, next }) => Some(
                    ParseOutcome::Parsed { expr: Expr::Unary { operator: toks[i], right: Box::new(expr) }, next },
                ),
                other => other,
            });
            let operator = self.previous().clone();
            let right = match self.parse_unary() {
                Ok(e) => e,
                Err(err) => return Err(err),
            };
            return Ok(Expr::Unary { operator, right: Box::new(right) });
        }
        self.parse_primary()
    }

    #[verifier::rlimit(30)]
    fn parse_primary(&mut self) -> (r: Result<Expr, ParseError>)
        requires
            primary_spec(old(self).tokens@, old(self).cursor as int) is Some,
        ensures
            final(self).tokens == old(self).tokens,
            primary_spec(old(self).tokens@, old(self).cursor as int) == Some(outcome_of(r, final(self).cursor as int)),
        decreases old(self).tokens@.len() - old(self).cursor, 0nat,
    {
        if self.match_any(&[TokenType::FALSE]) {
            return Ok(Expr::Literal { value: Literal::Bool(false) });
        }
        if self.match_any(&[TokenType::TRUE]) {
            return Ok(Expr::Literal { value: Literal::Bool(true) });
        }
        if self.match_any(&[TokenType::NIL]) {
            return Ok(Expr::Literal { value: Literal::Nil });
        }
        if self.match_any(&[TokenType::STRING]) {
            return Ok(Expr::Literal { value: self.previous().literal.clone() });
        }
        if self.match_any(&[TokenType::NUMBER]) {
            return Ok(Expr::Literal { value: self.previous().literal.clone() });
        }
        if self.match_any(&[TokenType::LEFT_PAREN]) {
            let expr = match self.parse_expression() {
                Ok(e) => e,
                Err(err) => return Err(err),
            };
            proof {
                lemma_expression_within(self.tokens@, old(self).cursor + 1);
            }
            match self.consume(TokenType::RIGHT_PAREN, "Expect ')' after expression.") {
                Ok(_) => {},
                Err(err) => return Err(err),
            }
            return Ok(Expr::Grouping { expression: Box::new(expr) });
        }
        // Hit a token that can't start an expression
        Err(ParseError { token: self.peek().clone(), message: "Expected an expression".to_owned() })
    }

    fn is_at_end(&self) -> (r: bool)
        requires
            self.cursor < self.tokens@.len(),
        ensures
            r == (self.tokens@[self.cursor as int].token_type == TokenType::EOF),
    {
        match self.tokens[self.cursor].token_type {
            TokenType::EOF => true,
            _ => false,
        }
    }

    fn peek(&self) -> (t: &Token)
        requires
            self.cursor < self.tokens@.len(),
        ensures
            *t == self.tokens@[self.cursor as int],
    {
        &self.tokens[self.cursor]
    }

    fn previous(&self) -> (t: &Token)
        requires
            0 < self.cursor <= self.tokens@.len(),
        ensures
            *t == self.tokens@[self.cursor - 1],
    {
        &self.tokens[self.cursor - 1]
    }

    /// Consumes the current token, unless it is the end-of-file token.
    fn advance(&mut self)
        requires
            old(self).cursor < old(self).tokens@.len(),
        ensures
            final(self).tokens == old(self).tokens,
            final(self).cursor == (if old(self).tokens@[old(self).cursor as int].token_type == TokenType::EOF {
                old(self).cursor as int
            } else {
                old(self).cursor + 1
            }),
    {
        assert(self.cursor < self.tokens.len());
        match self.tokens[self.cursor].token_type {
            TokenType::EOF => {},
            _ => {
                self.cursor = self.cursor + 1;
            },
        }
    }

    /// Consumes the current token if it has the expected type; otherwise
    /// reports it with the given message.
    fn consume(&mut self, expected_type: TokenType, error_message: &str) -> (r: Result<&Token, ParseError>)
        requires
            old(self).cursor < old(self).tokens@.len(),
        ensures
            final(self).tokens == old(self).tokens,
            ({
                let t = old(self).tokens@[old(self).cursor as int];
                if t.token_type != TokenType::EOF && t.token_type == expected_type {
                    r matches Ok(c) && *c == t && final(self).cursor == old(self).cursor + 1
                } else {
                    r matches Err(e) && e.token == t && e.message@ == error_message@ && final(self).cursor == old(self).cursor
                }
            }),
    {
        if self.current_is(&expected_type) {
            self.advance();
            Ok(self.previous())
        } else {
            Err(ParseError { token: self.peek().clone(), message: error_message.to_owned() })
        }
    }

    /// After we encounter a parser error, we discard tokens until we can find a
    /// new 'safe/stable' location to begin parsing from again.
    fn synchronise(&mut self)
        requires
            synchronise_spec(old(self).tokens@, old(self).cursor as int) is Some,
        ensures
            final(self).tokens == old(self).tokens,
            synchronise_spec(old(self).tokens@, old(self).cursor as int) == Some(final(self).cursor as int),
    {
        let ghost toks = self.tokens@;
        let ghost goal = synchronise_spec(toks, self.cursor as int);
        self.advance();
        while !self.is_at_end()
            invariant_except_break
                self.tokens == old(self).tokens,
                self.tokens@ == toks,
                goal == synchronise_spec(toks, old(self).cursor as int),
                goal is Some,
                goal == sync_from(toks, self.cursor as int),
            ensures
                self.tokens == old(self).tokens,
                goal == Some(self.cursor as int),
            decreases toks.len() - self.cursor,
        {
            if self.previous().token_type == TokenType::SEMICOLON {
                return;
            }
            match self.peek().token_type {
                TokenType::CLASS
                | TokenType::FUN
                | TokenType::VAR
                | TokenType::FOR
                | TokenType::IF
                | TokenType::WHILE
                | TokenType::PRINT
                | TokenType::RETURN => return,
                _ => {
                    self.advance();
                },
            }
        }
    }

    /// Returns true if current token matches expected type.
    /// Always returns false if parser at EOF.
    fn current_is(&self, expected: &TokenType) -> (r: bool)
        requires
            self.cursor < self.tokens@.len(),
        ensures
            r == (self.tokens@[self.cursor as int].token_type != TokenType::EOF
                && self.tokens@[self.cursor as int].token_type == *expected),
    {
        if self.is_at_end() {
            return false;
        }
        let current_tokens_type = &self.tokens[self.cursor].token_type;
        *current_tokens_type == *expected
    }

    /// Checks if current token matches any of the given types. If so, consumes
    /// token and advances cursor. Otherwise returns false and leaves cursor pos
    /// unchanged.
    fn match_any(&mut self, types: &[TokenType]) -> (matched: bool)
        requires
            match_any_spec(old(self).tokens@, old(self).cursor as int, types@) is Some,
        ensures
            final(self).tokens == old(self).tokens,
            match_any_spec(old(self).tokens@, old(self).cursor as int, types@) == Some(matched),
            final(self).cursor == (if matched { old(self).cursor + 1 } else { old(self).cursor as int }),
    {
        let mut k: usize = 0;
        while k < types.len()
            invariant
                self.tokens == old(self).tokens,
                self.cursor == old(self).cursor,
                k <= types@.len(),
                types@.len() > 0 ==> self.cursor < self.tokens@.len(),
                forall|m: int| 0 <= m < k ==> !(self.tokens@[self.cursor as int].token_type != TokenType::EOF
                    && self.tokens@[self.cursor as int].token_type == #[trigger] types@[m]),
            decreases types@.len() - k,
        {
            if self.current_is(&types[k]) {
                self.advance();
                return true;
            }
            k = k + 1;
        }
        false
    }
}

} // verus!
