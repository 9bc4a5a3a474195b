use ornn::lexer::{scan_tokens, Lexer};
use ornn::token::{Literal, TokenType};

fn scan(text: &str) -> Lexer {
    let mut lexer = Lexer::new(text);
    lexer.scan_tokens();
    lexer
}

fn types(lexer: &Lexer) -> Vec<TokenType> {
    lexer.tokens.iter().map(|t| t.token_type).collect()
}

fn lexemes(lexer: &Lexer) -> Vec<String> {
    lexer.tokens.iter().map(|t| t.lexeme.clone()).collect()
}

#[test]
fn scans_single_character_tokens() {
    let lexer = scan("(){},.-+:*");
    assert_eq!(
        types(&lexer),
        vec![
            TokenType::LEFT_PAREN,
            TokenType::RIGHT_PAREN,
            TokenType::LEFT_BRACE,
            TokenType::RIGHT_BRACE,
            TokenType::COMMA,
            TokenType::DOT,
            TokenType::MINUS,
            TokenType::PLUS,
            TokenType::SEMICOLON,
            TokenType::STAR,
            TokenType::EOF,
        ]
    );
    assert!(lexer.errors.is_empty());
}

#[test]
fn scans_one_and_two_character_operators() {
    let lexer = scan("! != = == < <= > >= /");
    assert_eq!(
        types(&lexer),
        vec![
            TokenType::BANG,
            TokenType::BANG_EQUAL,
            TokenType::EQUAL,
            TokenType::EQUAL_EQUAL,
            TokenType::LESS,
            TokenType::LESS_EQUAL,
            TokenType::GREATER,
            TokenType::GREATER_EQUAL,
            TokenType::SLASH,
            TokenType::EOF,
        ]
    );
    assert_eq!(lexemes(&lexer), vec!["!", "!=", "=", "==", "<", "<=", ">", ">=", "/", ""]);
}

#[test]
fn operator_at_end_of_text_stands_alone() {
    let lexer = scan("=");
    assert_eq!(types(&lexer), vec![TokenType::EQUAL, TokenType::EOF]);
}

#[test]
fn empty_text_gives_only_eof() {
    let lexer = scan("");
    assert_eq!(types(&lexer), vec![TokenType::EOF]);
    assert_eq!(lexer.tokens[0].line, 1);
    assert_eq!(lexer.tokens[0].lexeme, "");
}

#[test]
fn comments_and_whitespace_are_skipped() {
    let lexer = scan("1 // a comment ( ) \"\n\t2\r");
    assert_eq!(types(&lexer), vec![TokenType::NUMBER, TokenType::NUMBER, TokenType::EOF]);
    assert_eq!(lexer.tokens[0].line, 1);
    assert_eq!(lexer.tokens[1].line, 2);
    assert_eq!(lexer.tokens[2].line, 2);
}

#[test]
fn comment_running_to_end_of_text() {
    let lexer = scan("+//");
    assert_eq!(types(&lexer), vec![TokenType::PLUS, TokenType::EOF]);
}

#[test]
fn newlines_advance_the_line() {
    let lexer = scan("a\nb\n\nc");
    let lines: Vec<i32> = lexer.tokens.iter().map(|t| t.line).collect();
    assert_eq!(lines, vec![1, 2, 4, 4]);
}

#[test]
fn numbers_keep_their_numeral() {
    let lexer = scan("123 4.5 6. 7.x");
    assert_eq!(
        types(&lexer),
        vec![
            TokenType::NUMBER,
            TokenType::NUMBER,
            TokenType::NUMBER,
            TokenType::DOT,
            TokenType::NUMBER,
            TokenType::DOT,
            TokenType::IDENTIFIER,
            TokenType::EOF,
        ]
    );
    assert_eq!(lexemes(&lexer), vec!["123", "4.5", "6", ".", "7", ".", "x", ""]);
    match &lexer.tokens[1].literal {
        Literal::Number(n) => assert_eq!(n, "4.5"),
        _ => panic!("expected a number literal"),
    }
}

#[test]
fn strings_carry_their_contents() {
    let lexer = scan("\"hello\" \"a\nb\" x");
    assert_eq!(types(&lexer), vec![TokenType::STRING, TokenType::STRING, TokenType::IDENTIFIER, TokenType::EOF]);
    assert_eq!(lexer.tokens[0].lexeme, "\"hello\"");
    match &lexer.tokens[0].literal {
        Literal::Str(s) => assert_eq!(s, "hello"),
        _ => panic!("expected a string literal"),
    }
    match &lexer.tokens[1].literal {
        Literal::Str(s) => assert_eq!(s, "a\nb"),
        _ => panic!("expected a string literal"),
    }
    // The string's token is on the line where the string ends.
    assert_eq!(lexer.tokens[1].line, 2);
    assert_eq!(lexer.tokens[2].line, 2);
}

#[test]
fn empty_string() {
    let lexer = scan("\"\"");
    assert_eq!(types(&lexer), vec![TokenType::STRING, TokenType::EOF]);
    match &lexer.tokens[0].literal {
        Literal::Str(s) => assert_eq!(s, ""),
        _ => panic!("expected a string literal"),
    }
}

#[test]
fn keywords_and_identifiers() {
    let lexer = scan("and class else false for fun if nil or print return super this true var while andy _x1 While");
    assert_eq!(
        types(&lexer),
        vec![
            TokenType::AND,
            TokenType::CLASS,
            TokenType::ELSE,
            TokenType::FALSE,
            TokenType::FOR,
            TokenType::FUN,
            TokenType::IF,
            TokenType::NIL,
            TokenType::OR,
            TokenType::PRINT,
            TokenType::RETURN,
            TokenType::SUPER,
            TokenType::THIS,
            TokenType::TRUE,
            TokenType::VAR,
            TokenType::WHILE,
            TokenType::IDENTIFIER,
            TokenType::IDENTIFIER,
            TokenType::IDENTIFIER,
            TokenType::EOF,
        ]
    );
    assert!(matches!(lexer.tokens[16].literal, Literal::Nil));
}

#[test]
fn unrecognised_characters_are_reported() {
    let lexer = scan("1;\n#");
    assert_eq!(types(&lexer), vec![TokenType::NUMBER, TokenType::EOF]);
    assert_eq!(lexer.errors.len(), 2);
    assert_eq!(lexer.errors[0].line, 1);
    assert_eq!(lexer.errors[0].message, "Unrecognised character: ;");
    assert_eq!(lexer.errors[1].line, 2);
    assert_eq!(lexer.errors[1].message, "Unrecognised character: #");
}

#[test]
fn try_scan_refuses_an_unterminated_string() {
    let mut lexer = Lexer::new("1 \"abc");
    assert!(!lexer.try_scan_tokens());
}

#[test]
fn try_scan_refuses_text_beyond_ascii() {
    let mut lexer = Lexer::new("a \u{e9}");
    assert!(!lexer.try_scan_tokens());
}

#[test]
fn try_scan_scans_like_scan_tokens() {
    let mut lexer = Lexer::new("(1 + x) // done");
    assert!(lexer.try_scan_tokens());
    assert_eq!(lexemes(&lexer), vec!["(", "1", "+", "x", ")", ""]);
}

#[test]
fn string_inside_comment_is_not_scanned() {
    let mut lexer = Lexer::new("// \"open");
    assert!(lexer.try_scan_tokens());
    assert_eq!(types(&lexer), vec![TokenType::EOF]);
}

#[test]
fn consuming_scan_tokens_hands_the_lexer_back() {
    let lexer = scan_tokens(Lexer::new("true"));
    assert_eq!(types(&lexer), vec![TokenType::TRUE, TokenType::EOF]);
}

#[test]
fn scanning_again_only_adds_another_eof() {
    let mut lexer = scan("x");
    lexer.scan_tokens();
    assert_eq!(types(&lexer), vec![TokenType::IDENTIFIER, TokenType::EOF, TokenType::EOF]);
}

#[test]
fn only_the_last_token_is_eof() {
    let lexer = scan("var x = (1 + 2) * 3 \"s\" != nil\n// c\n!");
    let n = lexer.tokens.len();
    assert_eq!(lexer.tokens[n - 1].token_type, TokenType::EOF);
    for t in &lexer.tokens[..n - 1] {
        assert_ne!(t.token_type, TokenType::EOF);
    }
}

#[test]
fn accessors_agree_with_fields() {
    let lexer = scan("1 $");
    assert_eq!(lexer.error_list().len(), 1);
    let tokens = lexer.into_tokens();
    assert_eq!(tokens.len(), 2);
}

#[test]
fn every_line_break_is_counted_once() {
    let text = "a // note\n\"two\nlines\"\n\n1.5 $\n";
    let lexer = scan(text);
    let breaks = text.matches('\n').count() as i32;
    let last = lexer.tokens.last().expect("an end-of-file token");
    assert_eq!(last.token_type, TokenType::EOF);
    assert_eq!(last.line, 1 + breaks);
    assert_eq!(lexer.errors[0].line, 5);
}

#[test]
fn scanner_output_always_parses() {
    for text in ["", ")", "1 +", "((", "!", "\"s\" == nil", "1 2 3"] {
        let mut lexer = Lexer::new(text);
        lexer.scan_tokens();
        let mut parser = ornn::parser::Parser::new(lexer.into_tokens());
        let _ = parser.parse();
    }
}
