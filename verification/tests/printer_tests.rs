use ornn::ast::expressions::Expr;
use ornn::ast::printer::print_expression;
use ornn::token::{Literal, Token, TokenType};

fn tok(t: TokenType, lexeme: &str) -> Token {
    Token::new(t, lexeme, Literal::Nil, 1)
}

fn num(n: &str) -> Expr {
    Expr::Literal { value: Literal::Number(String::from(n)) }
}

fn var(name: &str) -> Expr {
    Expr::Variable { name: tok(TokenType::IDENTIFIER, name) }
}

#[test]
fn prints_every_kind_of_expression() {
    let assign = Expr::Assign { name: tok(TokenType::IDENTIFIER, "a"), value: Box::new(num("1")) };
    assert_eq!(print_expression(&assign), "(a Number(1))");

    let logical = Expr::Logical {
        left: Box::new(var("x")),
        operator: tok(TokenType::AND, "and"),
        right: Box::new(var("y")),
    };
    assert_eq!(print_expression(&logical), "(and x y)");

    let call = Expr::FunctionCall {
        callee: Box::new(var("f")),
        paren: tok(TokenType::RIGHT_PAREN, ")"),
        arguments: vec![num("1"), var("z")],
    };
    assert_eq!(print_expression(&call), "(call f Number(1) z)");

    let call0 = Expr::FunctionCall {
        callee: Box::new(var("g")),
        paren: tok(TokenType::RIGHT_PAREN, ")"),
        arguments: vec![],
    };
    assert_eq!(print_expression(&call0), "(call g)");

    let get = Expr::Get { object: Box::new(var("o")), name: tok(TokenType::IDENTIFIER, "field") };
    assert_eq!(print_expression(&get), "(field o)");

    let set = Expr::SetProperty {
        object: Box::new(var("o")),
        name: tok(TokenType::IDENTIFIER, "field"),
        value: Box::new(num("2")),
    };
    assert_eq!(print_expression(&set), "(field o Number(2))");

    let sup = Expr::Super { keyword: tok(TokenType::SUPER, "super"), method: tok(TokenType::IDENTIFIER, "init") };
    assert_eq!(print_expression(&sup), "(super init)");

    let this = Expr::This { keyword: tok(TokenType::THIS, "this") };
    assert_eq!(print_expression(&this), "this");

    let grouping = Expr::Grouping { expression: Box::new(Expr::Literal { value: Literal::Str(String::from("q\"")) }) };
    assert_eq!(print_expression(&grouping), "(group Str(\"q\\\"\"))");
}

#[test]
fn prints_nested_expressions() {
    let e = Expr::Binary {
        left: Box::new(Expr::Unary { operator: tok(TokenType::MINUS, "-"), right: Box::new(num("123")) }),
        right: Box::new(Expr::Grouping { expression: Box::new(num("45.67")) }),
        operator: tok(TokenType::STAR, "*"),
    };
    assert_eq!(print_expression(&e), "(* (- Number(123)) (group Number(45.67)))");
}
