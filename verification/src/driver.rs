//! Runs one command through the scanner and the parser, and words the
//! reports of what went wrong.

use vstd::prelude::*;

use crate::ast::expressions::Expr;
use crate::ast::printer::{lemma_printed_forms, print_expression, printed};
use crate::lexer::{
    eof_token, error_views, lemma_number_token_maximal, lemma_operator_tokens, lemma_single_character_tokens,
    lemma_slash_and_comment, lex_from, lex_step, newline_count, plain_token_step, scan_completes, scan_result,
    step_errors, step_tokens, token_views, LexErrorView, LexOutput, Lexer,
};
use crate::parser::{expression_spec, lemma_scanned_tokens_parse, lemma_single_binary_operation, ParseOutcome, Parser};
use crate::text::{digits_text, push_char, push_digits, push_str};
use crate::token::{LiteralView, Token, TokenType, TokenView};

verus! {

/// `n` in decimal, with a leading `-` where it is negative.
pub open spec fn decimal_text(n: int) -> Seq<char> {
    if n < 0 {
        seq!['-'] + digits_text((-n) as nat)
    } else {
        digits_text(n as nat)
    }
}

/// Appends `n` in decimal.
fn push_decimal(out: &mut String, n: i32)
    ensures
        final(out)@ == old(out)@ + decimal_text(n as int),
{
    if n < 0 {
        push_char(out, '-');
        let magnitude: u64 = (-(n as i64)) as u64;
        push_digits(out, magnitude);
        proof {
            assert(final(out)@ =~= old(out)@ + decimal_text(n as int));
        }
    } else {
        push_digits(out, n as u64);
    }
}

/// The line that reports an error: `[Line 3] Error: message`, or, with a
/// location, `[Line 3] Error at end: message`.
pub open spec fn report_text(line: int, location: Seq<char>, message: Seq<char>) -> Seq<char> {
    if location.len() == 0 {
        "[Line "@ + decimal_text(line) + "] Error: "@ + message
    } else {
        "[Line "@ + decimal_text(line) + "] Error "@ + location + ": "@ + message
    }
}

/// Where a parse error is reported: `at end` for the end-of-file token,
/// otherwise `at '<lexeme>'`.
pub open spec fn parse_error_location(token: TokenView) -> Seq<char> {
    if token.token_type == TokenType::EOF {
        "at end"@
    } else {
        "at '"@ + token.lexeme + "'"@
    }
}

/// A command of one digit, one of the operators `+`, `-`, `*`, `/`, `<` and
/// `>`, and another digit scans without error, and running it prints the
/// operation in prefix form over the two numbers: `1+2` prints
/// `(+ Number(1) Number(2))`.
pub proof fn lemma_run_prints_digit_operation(src: Seq<char>, toks: Seq<Token>)
    requires
        src.len() == 3,
        '0' <= src[0] <= '9',
        '0' <= src[2] <= '9',
        src[1] == '+' || src[1] == '-' || src[1] == '*' || src[1] == '/' || src[1] == '<' || src[1] == '>',
        token_views(toks) == scan_result(src, 0, 1).tokens,
    ensures
        scan_result(src, 0, 1).errors.len() == 0,
        expression_spec(toks, 0) matches Some(ParseOutcome::Parsed { expr, .. }) && printed(expr) == seq!['(', src[1]]
            + " Number("@ + seq![src[0]] + ") Number("@ + seq![src[2]] + "))"@,
{
    reveal_strlit(" Number(");
    reveal_strlit(") Number(");
    reveal_strlit("))");
    reveal_strlit("Number(");
    reveal_strlit(")");
    reveal_strlit(" ");
    // The three steps of the scan.
    lemma_number_token_maximal(src, 0, 1);
    let st0 = lex_step(src, 0, 1)->0;
    if st0.next > 1 {
        assert(!('0' <= src[1] <= '9') && src[1] != '.');
    }
    assert(st0.next == 1);
    let op_type = if src[1] == '+' {
        TokenType::PLUS
    } else if src[1] == '-' {
        TokenType::MINUS
    } else if src[1] == '*' {
        TokenType::STAR
    } else if src[1] == '/' {
        TokenType::SLASH
    } else if src[1] == '<' {
        TokenType::LESS
    } else {
        TokenType::GREATER
    };
    lemma_single_character_tokens(src, 1, 1);
    lemma_operator_tokens(src, 1, 1);
    if src[1] == '/' {
        lemma_slash_and_comment(src, 1, 1);
    }
    assert(lex_step(src, 1, 1) == plain_token_step(2, 1, op_type));
    lemma_number_token_maximal(src, 2, 1);
    let st2 = lex_step(src, 2, 1)->0;
    assert(st2.next == 3);
    let tv0 = TokenView {
        token_type: TokenType::NUMBER,
        lexeme: src.subrange(0, 1),
        literal: LiteralView::Number(src.subrange(0, 1)),
        line: 1,
    };
    let tv1 = TokenView { token_type: op_type, lexeme: src.subrange(1, 2), literal: LiteralView::Nil, line: 1 };
    let tv2 = TokenView {
        token_type: TokenType::NUMBER,
        lexeme: src.subrange(2, 3),
        literal: LiteralView::Number(src.subrange(2, 3)),
        line: 1,
    };
    let none = LexOutput { tokens: Seq::empty(), errors: Seq::empty(), line: 1 };
    assert(lex_from(src, 3, 1) == Some(none));
    assert(step_tokens(src, 2, st2) =~= seq![tv2]);
    assert(lex_from(src, 2, 1) == Some(LexOutput { tokens: seq![tv2], errors: Seq::empty(), line: 1 })) by {
        assert(seq![tv2] + Seq::<TokenView>::empty() =~= seq![tv2]);
        assert(step_errors(st2) + Seq::<LexErrorView>::empty() =~= Seq::<LexErrorView>::empty());
    }
    let st1 = lex_step(src, 1, 1)->0;
    assert(step_tokens(src, 1, st1) =~= seq![tv1]);
    assert(lex_from(src, 1, 1) == Some(LexOutput { tokens: seq![tv1, tv2], errors: Seq::empty(), line: 1 })) by {
        assert(seq![tv1] + seq![tv2] =~= seq![tv1, tv2]);
        assert(step_errors(st1) + Seq::<LexErrorView>::empty() =~= Seq::<LexErrorView>::empty());
    }
    assert(step_tokens(src, 0, st0) =~= seq![tv0]);
    assert(lex_from(src, 0, 1) == Some(LexOutput { tokens: seq![tv0, tv1, tv2], errors: Seq::empty(), line: 1 }))
        by {
        assert(seq![tv0] + seq![tv1, tv2] =~= seq![tv0, tv1, tv2]);
        assert(step_errors(st0) + Seq::<LexErrorView>::empty() =~= Seq::<LexErrorView>::empty());
    }
    let views = scan_result(src, 0, 1).tokens;
    assert(views =~= seq![tv0, tv1, tv2, eof_token(1)]);
    // The tokens the scan recorded.
    assert(toks.len() == 4);
    assert(toks[0]@ == tv0);
    assert(toks[1]@ == tv1);
    assert(toks[2]@ == tv2);
    assert(toks[3]@ == eof_token(1));
    assert(toks =~= seq![toks[0], toks[1], toks[2], toks[3]]);
    lemma_single_binary_operation(toks[0], toks[1], toks[2], toks[3]);
    // What is printed.
    let a = toks[0];
    let b = toks[2];
    let e = Expr::Binary {
        left: Box::new(Expr::Literal { value: a.literal }),
        right: Box::new(Expr::Literal { value: b.literal }),
        operator: toks[1],
    };
    lemma_printed_forms(e);
    lemma_printed_forms(Expr::Literal { value: a.literal });
    lemma_printed_forms(Expr::Literal { value: b.literal });
    assert(a.literal@ == LiteralView::Number(seq![src[0]])) by {
        assert(src.subrange(0, 1) =~= seq![src[0]]);
    }
    assert(b.literal@ == LiteralView::Number(seq![src[2]])) by {
        assert(src.subrange(2, 3) =~= seq![src[2]]);
    }
    assert(toks[1].lexeme@ =~= seq![src[1]]);
    assert(printed(e) =~= seq!['(', src[1]] + " Number("@ + seq![src[0]] + ") Number("@ + seq![src[2]] + "))"@);
}

/// What running a command gives.
pub enum RunOutcome {
    /// Scanning found errors: one report line for each; nothing was parsed.
    ScanErrors(Vec<String>),
    /// The command parsed; this is the expression, printed.
    Printed(String),
    /// Parsing failed; this is the report line.
    ParseFailed(String),
}

/// The report lines for a list of scanning errors.
pub open spec fn scan_error_lines(errors: Seq<LexErrorView>) -> Seq<Seq<char>> {
    errors.map_values(|e: LexErrorView| report_text(e.line, Seq::empty(), e.message))
}

/// What running `command` gives when the scanner recorded `tokens`.
pub open spec fn run_outcome_for(command: Seq<char>, toks: Seq<Token>, outcome: RunOutcome) -> bool {
    let scanned = scan_result(command, 0, 1);
    if scanned.errors.len() > 0 {
        outcome matches RunOutcome::ScanErrors(lines) && lines@.map_values(|l: String| l@)
            == scan_error_lines(scanned.errors)
    } else {
        match expression_spec(toks, 0) {
            Some(ParseOutcome::Parsed { expr, .. }) => outcome matches RunOutcome::Printed(s) && s@
                == printed(expr),
            Some(ParseOutcome::Failed { token, message, .. }) => outcome matches RunOutcome::ParseFailed(
                l,
            ) && l@ == report_text(token.line as int, parse_error_location(token@), message),
            None => false,
        }
    }
}

/// The interpreter's front end: it keeps track of whether an error has been
/// reported.
pub struct Ornn {
    had_error: bool,
}

impl Ornn {
    /// Whether an error has been reported.
    pub closed spec fn has_errored(&self) -> bool {
        self.had_error
    }

    pub fn new() -> (o: Ornn)
        ensures
            !o.has_errored(),
    {
        Ornn { had_error: false }
    }

    /// Scans and parses `command`; returns the report lines for the
    /// scanning errors, or else the printed expression or the report line for
    /// the parse error.
    pub fn run(&mut self, command: &str) -> (outcome: RunOutcome)
        requires
            scan_completes(command@, 0, 1),
            1 + newline_count(command@) <= i32::MAX,
        ensures
            exists|toks: Seq<Token>| #[trigger] token_views(toks) == scan_result(command@, 0, 1).tokens
                && run_outcome_for(command@, toks, outcome),
            final(self).has_errored() == (old(self).has_errored() || !(outcome is Printed)),
    {
        let mut lexer = Lexer::new(command);
        assert(command@.subrange(0, command@.len() as int) =~= command@);
        lexer.scan_tokens();
        let ghost scanned = scan_result(command@, 0, 1);
        let ghost all_toks = lexer.token_list();
        assert(token_views(all_toks) =~= scanned.tokens);
        let errors = lexer.error_list();
        assert(error_views(errors@) =~= scanned.errors);
        if errors.len() > 0 {
            let mut lines: Vec<String> = Vec::new();
            let mut k: usize = 0;
            while k < errors.len()
                invariant
                    k <= errors@.len(),
                    lines@.len() == k,
                    self.has_errored() == (old(self).has_errored() || k > 0),
                    forall|m: int| 0 <= m < k ==> #[trigger] lines@[m]@ == report_text(
                        errors@[m].line as int,
                        Seq::empty(),
                        errors@[m].message@,
                    ),
                decreases errors@.len() - k,
            {
                let line = self.scan_error(errors[k].line, errors[k].message.as_str());
                lines.push(line);
                k = k + 1;
            }
            proof {
                assert(lines@.map_values(|l: String| l@) =~= scan_error_lines(scanned.errors));
                assert(run_outcome_for(command@, all_toks, RunOutcome::ScanErrors(lines)));
            }
            return RunOutcome::ScanErrors(lines);
        }
        let tokens = lexer.into_tokens();
        let ghost toks = tokens@;
        proof {
            lemma_scanned_tokens_parse(command@, 0, 1, toks);
        }
        let mut parser = Parser::new(tokens);
        match parser.parse() {
            Ok(expr) => RunOutcome::Printed(print_expression(&expr)),
            Err(parse_err) => RunOutcome::ParseFailed(self.parse_error(&parse_err.token, parse_err.message.as_str())),
        }
    }

    /// Reports a scanning error on a line.
    pub fn scan_error(&mut self, line: i32, message: &str) -> (report: String)
        ensures
            final(self).has_errored(),
            report@ == report_text(line as int, Seq::empty(), message@),
    {
        proof {
            reveal_strlit("");
        }
        self.report(line, "", message)
    }

    /// Reports a parse error at a token.
    pub fn parse_error(&mut self, token: &Token, message: &str) -> (report: String)
        ensures
            final(self).has_errored(),
            report@ == report_text(token.line as int, parse_error_location(token@), message@),
    {
        if token.token_type == TokenType::EOF {
            self.report(token.line, "at end", message)
        } else {
            let mut location = String::new();
            push_str(&mut location, "at '");
            push_str(&mut location, token.lexeme.as_str());
            push_str(&mut location, "'");
            self.report(token.line, location.as_str(), message)
        }
    }

    fn report(&mut self, line: i32, location: &str, message: &str) -> (report: String)
        ensures
            final(self).has_errored(),
            report@ == report_text(line as int, location@, message@),
    {
        let mut out = String::new();
        push_str(&mut out, "[Line ");
        push_decimal(&mut out, line);
        if location.is_empty() {
            push_str(&mut out, "] Error: ");
        } else {
            push_str(&mut out, "] Error ");
            push_str(&mut out, location);
            push_str(&mut out, ": ");
        }
        push_str(&mut out, message);
        self.had_error = true;
        out
    }
}

} // verus!
