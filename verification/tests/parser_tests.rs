use ornn::ast::expressions::Expr;
use ornn::ast::printer::print_expression;
use ornn::lexer::Lexer;
use ornn::parser::{ParseError, Parser};
use ornn::token::{Literal, Token, TokenType};

fn parse_text(text: &str) -> Result<Expr, ParseError> {
    let mut lexer = Lexer::new(text);
    lexer.scan_tokens();
    let mut parser = Parser::new(lexer.into_tokens());
    parser.parse()
}

fn printed(text: &str) -> String {
    match parse_text(text) {
        Ok(e) => print_expression(&e),
        Err(e) => panic!("unexpected parse error: {}", e.message),
    }
}

#[test]
fn literals() {
    assert_eq!(printed("true"), "Bool(true)");
    assert_eq!(printed("false"), "Bool(false)");
    assert_eq!(printed("nil"), "Nil");
    assert_eq!(printed("42"), "Number(42)");
    assert_eq!(printed("\"hi\""), "Str(\"hi\")");
}

#[test]
fn precedence_of_binary_operators() {
    assert_eq!(printed("1 + 2 * 3"), "(+ Number(1) (* Number(2) Number(3)))");
    assert_eq!(printed("1 * 2 + 3"), "(+ (* Number(1) Number(2)) Number(3))");
    assert_eq!(printed("1 < 2 == 3 >= 4"), "(== (< Number(1) Number(2)) (>= Number(3) Number(4)))");
    assert_eq!(printed("1 - 2 / 3 != 4"), "(!= (- Number(1) (/ Number(2) Number(3))) Number(4))");
}

#[test]
fn binary_operators_associate_to_the_left() {
    assert_eq!(printed("1 - 2 - 3"), "(- (- Number(1) Number(2)) Number(3))");
    assert_eq!(printed("8 / 4 / 2"), "(/ (/ Number(8) Number(4)) Number(2))");
    assert_eq!(printed("1 == 2 == 3"), "(== (== Number(1) Number(2)) Number(3))");
    assert_eq!(printed("1 < 2 <= 3"), "(<= (< Number(1) Number(2)) Number(3))");
}

#[test]
fn unary_and_grouping() {
    assert_eq!(printed("-1"), "(- Number(1))");
    assert_eq!(printed("!!true"), "(! (! Bool(true)))");
    assert_eq!(printed("-(1 + 2)"), "(- (group (+ Number(1) Number(2))))");
    assert_eq!(printed("(((nil)))"), "(group (group (group Nil)))");
}

#[test]
fn parsing_stops_after_one_expression() {
    let mut lexer = Lexer::new("1 2");
    lexer.scan_tokens();
    let mut parser = Parser::new(lexer.into_tokens());
    let first = parser.parse().ok().expect("first expression");
    assert_eq!(print_expression(&first), "Number(1)");
    let second = parser.parse().ok().expect("second expression");
    assert_eq!(print_expression(&second), "Number(2)");
}

#[test]
fn missing_closing_paren_is_reported() {
    match parse_text("(1 + 2") {
        Ok(_) => panic!("expected an error"),
        Err(e) => {
            assert_eq!(e.message, "Expect ')' after expression.");
            assert_eq!(e.token.token_type, TokenType::EOF);
        },
    }
    match parse_text("(1 2)") {
        Ok(_) => panic!("expected an error"),
        Err(e) => {
            assert_eq!(e.message, "Expect ')' after expression.");
            assert_eq!(e.token.lexeme, "2");
        },
    }
}

#[test]
fn token_that_cannot_start_an_expression_is_reported() {
    match parse_text("") {
        Ok(_) => panic!("expected an error"),
        Err(e) => {
            assert_eq!(e.message, "Expected an expression");
            assert_eq!(e.token.token_type, TokenType::EOF);
        },
    }
    match parse_text("1 + )") {
        Ok(_) => panic!("expected an error"),
        Err(e) => {
            assert_eq!(e.message, "Expected an expression");
            assert_eq!(e.token.lexeme, ")");
        },
    }
    match parse_text("foo") {
        Ok(_) => panic!("expected an error"),
        Err(e) => assert_eq!(e.token.token_type, TokenType::IDENTIFIER),
    }
}

#[test]
fn a_list_without_eof_can_still_fail_cleanly() {
    let tokens = vec![Token::new(TokenType::RIGHT_PAREN, ")", Literal::Nil, 1)];
    let mut parser = Parser::new(tokens);
    match parser.parse() {
        Ok(_) => panic!("expected an error"),
        Err(e) => assert_eq!(e.message, "Expected an expression"),
    }
}

#[test]
fn operator_token_is_kept_in_the_tree() {
    match parse_text("1\n+ 2") {
        Ok(Expr::Binary { operator, .. }) => {
            assert_eq!(operator.token_type, TokenType::PLUS);
            assert_eq!(operator.line, 2);
        },
        _ => panic!("expected a binary expression"),
    }
}
