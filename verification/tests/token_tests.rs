use ornn::token::{Literal, Token, TokenType};

#[test]
fn token_new_keeps_its_parts() {
    let t = Token::new(TokenType::NUMBER, "12.5", Literal::Number(String::from("12.5")), 3);
    assert_eq!(t.token_type, TokenType::NUMBER);
    assert_eq!(t.lexeme, "12.5");
    assert_eq!(t.line, 3);
    match t.literal {
        Literal::Number(n) => assert_eq!(n, "12.5"),
        _ => panic!("wrong literal"),
    }
}

#[test]
fn token_to_string_joins_type_lexeme_and_literal() {
    let t = Token::new(TokenType::STRING, "\"hi\"", Literal::Str(String::from("hi")), 1);
    assert_eq!(t.to_string(), "STRING \"hi\" Str(\"hi\")");
    let t = Token::new(TokenType::LEFT_PAREN, "(", Literal::Nil, 1);
    assert_eq!(t.to_string(), "LEFT_PAREN ( Nil");
    let t = Token::new(TokenType::EOF, "", Literal::Nil, 7);
    assert_eq!(t.to_string(), "EOF  Nil");
}

#[test]
fn type_names_match_debug() {
    let all = [
        TokenType::LEFT_PAREN,
        TokenType::RIGHT_PAREN,
        TokenType::LEFT_BRACE,
        TokenType::RIGHT_BRACE,
        TokenType::COMMA,
        TokenType::DOT,
        TokenType::MINUS,
        TokenType::PLUS,
        TokenType::SEMICOLON,
        TokenType::SLASH,
        TokenType::STAR,
        TokenType::BANG,
        TokenType::BANG_EQUAL,
        TokenType::EQUAL,
        TokenType::EQUAL_EQUAL,
        TokenType::GREATER,
        TokenType::GREATER_EQUAL,
        TokenType::LESS,
        TokenType::LESS_EQUAL,
        TokenType::IDENTIFIER,
        TokenType::STRING,
        TokenType::NUMBER,
        TokenType::AND,
        TokenType::CLASS,
        TokenType::ELSE,
        TokenType::FALSE,
        TokenType::FUN,
        TokenType::FOR,
        TokenType::IF,
        TokenType::NIL,
        TokenType::OR,
        TokenType::PRINT,
        TokenType::RETURN,
        TokenType::SUPER,
        TokenType::THIS,
        TokenType::TRUE,
        TokenType::VAR,
        TokenType::WHILE,
        TokenType::EOF,
    ];
    for t in all.iter() {
        assert_eq!(t.name(), format!("{:?}", t));
    }
}

#[test]
fn literal_debug_strings() {
    assert_eq!(Literal::Nil.debug_string(), "Nil");
    assert_eq!(Literal::Bool(true).debug_string(), "Bool(true)");
    assert_eq!(Literal::Bool(false).debug_string(), "Bool(false)");
    assert_eq!(Literal::Number(String::from("3.25")).debug_string(), "Number(3.25)");
    assert_eq!(Literal::Str(String::from("abc")).debug_string(), "Str(\"abc\")");
}

#[test]
fn string_literals_are_escaped_as_debug_does() {
    let text = "a\tb\nc\rd\\e\"f\u{0}g\u{1}h\u{1f}i\u{7f}j'k";
    let expected = format!("Str({:?})", text);
    assert_eq!(Literal::Str(String::from(text)).debug_string(), expected);
    assert_eq!(
        Literal::Str(String::from(text)).debug_string(),
        "Str(\"a\\tb\\nc\\rd\\\\e\\\"f\\0g\\u{1}h\\u{1f}i\\u{7f}j'k\")"
    );
}

#[test]
fn cloned_tokens_are_equal_in_every_field() {
    let t = Token::new(TokenType::IDENTIFIER, "x", Literal::Nil, 2);
    let c = t.clone();
    assert_eq!(c.token_type, t.token_type);
    assert_eq!(c.lexeme, t.lexeme);
    assert_eq!(c.line, t.line);
}

#[test]
fn characters_beyond_ascii_are_escaped_as_debug_does() {
    for text in ["\u{200b}", "a\u{85}b", "caf\u{e9}", "\u{301}x\u{301}", "\u{10ffff}", "\u{feff}'"] {
        let expected = format!("Str({:?})", text);
        assert_eq!(Literal::Str(String::from(text)).debug_string(), expected);
    }
    assert_eq!(Literal::Str(String::from("\u{200b}")).debug_string(), "Str(\"\\u{200b}\")");
    assert_eq!(Literal::Str(String::from("caf\u{e9}")).debug_string(), "Str(\"caf\u{e9}\")");
}
