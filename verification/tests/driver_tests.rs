use ornn::driver::{Ornn, RunOutcome};
use ornn::token::{Literal, Token, TokenType};

#[test]
fn run_prints_a_parsed_expression() {
    let mut ornn = Ornn::new();
    match ornn.run("(1 + 2) * -3\n") {
        RunOutcome::Printed(s) => assert_eq!(s, "(* (group (+ Number(1) Number(2))) (- Number(3)))"),
        _ => panic!("expected a printed expression"),
    }
}

#[test]
fn run_reports_scanning_errors_and_skips_parsing() {
    let mut ornn = Ornn::new();
    match ornn.run("1 @\n2 ;") {
        RunOutcome::ScanErrors(lines) => {
            assert_eq!(
                lines,
                vec![
                    String::from("[Line 1] Error: Unrecognised character: @"),
                    String::from("[Line 2] Error: Unrecognised character: ;"),
                ]
            );
        },
        _ => panic!("expected scanning errors"),
    }
}

#[test]
fn run_reports_a_parse_error() {
    let mut ornn = Ornn::new();
    match ornn.run("(1") {
        RunOutcome::ParseFailed(line) => assert_eq!(line, "[Line 1] Error at end: Expect ')' after expression."),
        _ => panic!("expected a parse error"),
    }
    match ornn.run("1 +\n+") {
        RunOutcome::ParseFailed(line) => assert_eq!(line, "[Line 2] Error at '+': Expected an expression"),
        _ => panic!("expected a parse error"),
    }
}

#[test]
fn report_lines() {
    let mut ornn = Ornn::new();
    assert_eq!(ornn.scan_error(12, "bad"), "[Line 12] Error: bad");
    assert_eq!(ornn.scan_error(0, "zero"), "[Line 0] Error: zero");
    assert_eq!(ornn.scan_error(-45, "neg"), "[Line -45] Error: neg");
    assert_eq!(ornn.scan_error(i32::MIN, "min"), "[Line -2147483648] Error: min");
    assert_eq!(ornn.scan_error(i32::MAX, "max"), "[Line 2147483647] Error: max");
    let eof = Token::new(TokenType::EOF, "", Literal::Nil, 3);
    assert_eq!(ornn.parse_error(&eof, "m"), "[Line 3] Error at end: m");
    let word = Token::new(TokenType::IDENTIFIER, "foo", Literal::Nil, 9);
    assert_eq!(ornn.parse_error(&word, "m"), "[Line 9] Error at 'foo': m");
}
