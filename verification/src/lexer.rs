//! The scanner: turns source text into a flat list of tokens.

use vstd::prelude::*;

use crate::text::{chars_of, digits_text, push_char, push_digits, push_str, string_of_range};
use crate::token::{Literal, LiteralView, Token, TokenType, TokenView};

verus! {

// ---------------------------------------------------------------------------
// The model of scanning
// ---------------------------------------------------------------------------

pub open spec fn is_digit_char(c: char) -> bool {
    '0' <= c && c <= '9'
}

pub open spec fn is_alpha_char(c: char) -> bool {
    ('a' <= c && c <= 'z') || ('A' <= c && c <= 'Z') || c == '_'
}

pub open spec fn is_alphanumeric_char(c: char) -> bool {
    is_alpha_char(c) || is_digit_char(c)
}

/// The character at index `i` of `src`, or `'\0'` where there is none.
pub open spec fn char_or_nul(src: Seq<char>, i: int) -> char {
    if 0 <= i < src.len() {
        src[i]
    } else {
        '\0'
    }
}

/// The number of consecutive characters of `src`, starting at `i`, that satisfy `keep`.
pub open spec fn run_while(src: Seq<char>, i: int, keep: spec_fn(char) -> bool) -> nat
    decreases src.len() - i,
{
    if 0 <= i < src.len() && keep(src[i]) {
        1 + run_while(src, i + 1, keep)
    } else {
        0
    }
}

pub open spec fn digit_run(src: Seq<char>, i: int) -> nat {
    run_while(src, i, |c: char| is_digit_char(c))
}

pub open spec fn alphanumeric_run(src: Seq<char>, i: int) -> nat {
    run_while(src, i, |c: char| is_alphanumeric_char(c))
}

/// The number of characters before the next line break (or the end).
pub open spec fn line_rest_run(src: Seq<char>, i: int) -> nat {
    run_while(src, i, |c: char| c != '\n')
}

/// The number of characters before the next double quote (or the end).
pub open spec fn string_body_run(src: Seq<char>, i: int) -> nat {
    run_while(src, i, |c: char| c != '"')
}

/// The number of line breaks in `s`.
pub open spec fn newline_count(s: Seq<char>) -> nat
    decreases s.len(),
{
    if s.len() == 0 {
        0
    } else {
        newline_count(s.drop_last()) + (if s.last() == '\n' { 1nat } else { 0nat })
    }
}

/// Where a number literal whose first digit stands just before `i` ends:
/// a run of digits, then, if a `.` is followed by a digit, the `.` and a
/// second run of digits.
pub open spec fn number_end(src: Seq<char>, i: int) -> int {
    let a = i + digit_run(src, i);
    if char_or_nul(src, a) == '.' && is_digit_char(char_or_nul(src, a + 1)) {
        a + 1 + digit_run(src, a + 1)
    } else {
        a
    }
}

/// The token type of an identifier-like word: its keyword's type, or `IDENTIFIER`.
pub open spec fn word_type(text: Seq<char>) -> TokenType {
    if text == "and"@ {
        TokenType::AND
    } else if text == "class"@ {
        TokenType::CLASS
    } else if text == "else"@ {
        TokenType::ELSE
    } else if text == "false"@ {
        TokenType::FALSE
    } else if text == "for"@ {
        TokenType::FOR
    } else if text == "fun"@ {
        TokenType::FUN
    } else if text == "if"@ {
        TokenType::IF
    } else if text == "nil"@ {
        TokenType::NIL
    } else if text == "or"@ {
        TokenType::OR
    } else if text == "print"@ {
        TokenType::PRINT
    } else if text == "return"@ {
        TokenType::RETURN
    } else if text == "super"@ {
        TokenType::SUPER
    } else if text == "this"@ {
        TokenType::THIS
    } else if text == "true"@ {
        TokenType::TRUE
    } else if text == "var"@ {
        TokenType::VAR
    } else if text == "while"@ {
        TokenType::WHILE
    } else {
        TokenType::IDENTIFIER
    }
}

/// The token type of a character that always forms a token of its own.
pub open spec fn single_char_type(c: char) -> Option<TokenType> {
    if c == '(' {
        Some(TokenType::LEFT_PAREN)
    } else if c == ')' {
        Some(TokenType::RIGHT_PAREN)
    } else if c == '{' {
        Some(TokenType::LEFT_BRACE)
    } else if c == '}' {
        Some(TokenType::RIGHT_BRACE)
    } else if c == ',' {
        Some(TokenType::COMMA)
    } else if c == '.' {
        Some(TokenType::DOT)
    } else if c == '-' {
        Some(TokenType::MINUS)
    } else if c == '+' {
        Some(TokenType::PLUS)
    } else if c == ':' {
        // A colon, not a semicolon, stands for SEMICOLON.
        Some(TokenType::SEMICOLON)
    } else if c == '*' {
        Some(TokenType::STAR)
    } else {
        None
    }
}

/// For `!`, `=`, `<` and `>`: the token types alone and followed by `=`.
pub open spec fn operator_types(c: char) -> Option<(TokenType, TokenType)> {
    if c == '!' {
        Some((TokenType::BANG, TokenType::BANG_EQUAL))
    } else if c == '=' {
        Some((TokenType::EQUAL, TokenType::EQUAL_EQUAL))
    } else if c == '<' {
        Some((TokenType::LESS, TokenType::LESS_EQUAL))
    } else if c == '>' {
        Some((TokenType::GREATER, TokenType::GREATER_EQUAL))
    } else {
        None
    }
}

/// What one scanning step does besides moving on.
pub enum LexAction {
    /// Nothing is recorded (white space, line breaks, comments).
    Skip,
    /// A token of this type and literal is recorded; its lexeme is the text
    /// the step consumed.
    Emit(TokenType, LiteralView),
    /// An error with this message is recorded.
    Fail(Seq<char>),
}

/// One scanning step: where scanning goes on, the line it is then on, and
/// what the step recorded.
pub struct LexStep {
    pub next: int,
    pub line: int,
    pub action: LexAction,
}

/// The model of a scanning error.
pub struct LexErrorView {
    pub line: int,
    pub message: Seq<char>,
}

/// The message for a character that starts no token.
pub open spec fn unrecognised_message(c: char) -> Seq<char> {
    "Unrecognised character: "@.push(c)
}

/// One scanning step from `start` (which is within `src`) on line `line`.
/// `None` where the scanner cannot go on: a string literal that is never
/// closed.
pub open spec fn lex_step(src: Seq<char>, start: int, line: int) -> Option<LexStep> {
    let c = src[start];
    let i = start + 1;
    if single_char_type(c) is Some {
        Some(LexStep { next: i, line, action: LexAction::Emit(single_char_type(c)->0, LiteralView::Nil) })
    } else if operator_types(c) is Some {
        let (alone, with_equal) = operator_types(c)->0;
        if char_or_nul(src, i) == '=' {
            Some(LexStep { next: i + 1, line, action: LexAction::Emit(with_equal, LiteralView::Nil) })
        } else {
            Some(LexStep { next: i, line, action: LexAction::Emit(alone, LiteralView::Nil) })
        }
    } else if c == '/' {
        if char_or_nul(src, i) == '/' {
            Some(LexStep { next: i + line_rest_run(src, i), line, action: LexAction::Skip })
        } else {
            Some(LexStep { next: i, line, action: LexAction::Emit(TokenType::SLASH, LiteralView::Nil) })
        }
    } else if c == ' ' || c == '\r' || c == '\t' {
        Some(LexStep { next: i, line, action: LexAction::Skip })
    } else if c == '\n' {
        Some(LexStep { next: i, line: line + 1, action: LexAction::Skip })
    } else if c == '"' {
        let j = i + string_body_run(src, i);
        if j >= src.len() {
            None
        } else {
            Some(LexStep {
                next: j + 1,
                line: line + newline_count(src.subrange(i, j)),
                action: LexAction::Emit(TokenType::STRING, LiteralView::Str(src.subrange(i, j))),
            })
        }
    } else if is_digit_char(c) {
        let j = number_end(src, i);
        Some(LexStep { next: j, line, action: LexAction::Emit(TokenType::NUMBER, LiteralView::Number(src.subrange(start, j))) })
    } else if is_alpha_char(c) {
        let j = i + alphanumeric_run(src, i);
        Some(LexStep { next: j, line, action: LexAction::Emit(word_type(src.subrange(start, j)), LiteralView::Nil) })
    } else {
        Some(LexStep { next: i, line, action: LexAction::Fail(unrecognised_message(c)) })
    }
}

/// The tokens a step records.
pub open spec fn step_tokens(src: Seq<char>, start: int, st: LexStep) -> Seq<TokenView> {
    match st.action {
        LexAction::Emit(t, lit) => seq![TokenView { token_type: t, lexeme: src.subrange(start, st.next), literal: lit, line: st.line }],
        _ => Seq::empty(),
    }
}

/// The errors a step records.
pub open spec fn step_errors(st: LexStep) -> Seq<LexErrorView> {
    match st.action {
        LexAction::Fail(message) => seq![LexErrorView { line: st.line, message }],
        _ => Seq::empty(),
    }
}

/// What scanning records from one point to the end of the text.
pub struct LexOutput {
    pub tokens: Seq<TokenView>,
    pub errors: Seq<LexErrorView>,
    /// The line scanning ends on.
    pub line: int,
}

/// A run stays within the text, every character in it satisfies `keep`,
/// and the character after it (if any) does not.
proof fn lemma_run_while_bounds(src: Seq<char>, i: int, keep: spec_fn(char) -> bool)
    requires
        0 <= i <= src.len(),
    ensures
        i + run_while(src, i, keep) <= src.len(),
        forall|k: int| i <= k < i + run_while(src, i, keep) ==> keep(#[trigger] src[k]),
        i + run_while(src, i, keep) < src.len() ==> !keep(src[i + run_while(src, i, keep)]),
    decreases src.len() - i,
{
    if i < src.len() && keep(src[i]) {
        lemma_run_while_bounds(src, i + 1, keep);
    }
}

/// A text holds no more line breaks than characters.
proof fn lemma_newline_count_bound(s: Seq<char>)
    ensures
        newline_count(s) <= s.len(),
    decreases s.len(),
{
    if s.len() > 0 {
        lemma_newline_count_bound(s.drop_last());
    }
}

/// A step always moves forward, stays within the text, and moves the line
/// on by no more than the characters it consumed.
pub proof fn lemma_step_bounds(src: Seq<char>, start: int, line: int)
    requires
        0 <= start < src.len(),
    ensures
        lex_step(src, start, line) matches Some(st) ==> {
            &&& start < st.next <= src.len()
            &&& line <= st.line <= line + (st.next - start)
        },
{
    let i = start + 1;
    lemma_run_while_bounds(src, i, |c: char| c != '\n');
    lemma_run_while_bounds(src, i, |c: char| c != '"');
    lemma_run_while_bounds(src, i, |c: char| is_digit_char(c));
    lemma_run_while_bounds(src, i, |c: char| is_alphanumeric_char(c));
    let a = i + digit_run(src, i);
    if a + 1 <= src.len() {
        lemma_run_while_bounds(src, a + 1, |c: char| is_digit_char(c));
    }
    let j = i + string_body_run(src, i);
    if j < src.len() {
        lemma_newline_count_bound(src.subrange(i, j));
    }
}

/// What scanning from `cursor` on line `line` records, up to the end of the
/// text; `None` where the scanner cannot go on.
pub open spec fn lex_from(src: Seq<char>, cursor: int, line: int) -> Option<LexOutput>
    decreases src.len() - cursor,
{
    if cursor < 0 || cursor >= src.len() {
        Some(LexOutput { tokens: Seq::empty(), errors: Seq::empty(), line })
    } else {
        proof {
            lemma_step_bounds(src, cursor, line);
        }
        match lex_step(src, cursor, line) {
            None => None,
            Some(st) => match lex_from(src, st.next, st.line) {
                None => None,
                Some(rest) => Some(
                    LexOutput {
                        tokens: step_tokens(src, cursor, st) + rest.tokens,
                        errors: step_errors(st) + rest.errors,
                        line: rest.line,
                    },
                ),
            },
        }
    }
}

/// The end-of-file token that closes every scan.
pub open spec fn eof_token(line: int) -> TokenView {
    TokenView { token_type: TokenType::EOF, lexeme: Seq::empty(), literal: LiteralView::Nil, line }
}

/// Whether every character of `s` is ASCII.
pub open spec fn is_ascii_text(s: Seq<char>) -> bool {
    forall|i: int| 0 <= i < s.len() ==> #[trigger] s[i] <= '\u{7f}'
}

/// What a complete scan of `src` from `cursor` on line `line` leaves behind:
/// the tokens and errors it recorded, closed by an end-of-file token.
pub open spec fn scan_result(src: Seq<char>, cursor: int, line: int) -> LexOutput {
    let out = lex_from(src, cursor, line)->0;
    LexOutput { tokens: out.tokens.push(eof_token(out.line)), errors: out.errors, line: out.line }
}

/// Whether scanning `src` from `cursor` on line `line` runs to the end: the
/// text is ASCII and every string literal in it is closed.
pub open spec fn scan_completes(src: Seq<char>, cursor: int, line: int) -> bool {
    is_ascii_text(src) && lex_from(src, cursor, line) is Some
}

/// No scanning step records an end-of-file token.
proof fn lemma_step_not_eof(src: Seq<char>, start: int, line: int)
    requires
        0 <= start < src.len(),
    ensures
        lex_step(src, start, line) matches Some(st) ==> forall|k: int|
            0 <= k < step_tokens(src, start, st).len() ==> #[trigger] step_tokens(src, start, st)[k].token_type
                != TokenType::EOF,
{
}

/// Scanning records end-of-file tokens nowhere: only the token that closes a
/// complete scan is one.
proof fn lemma_lex_from_not_eof(src: Seq<char>, cursor: int, line: int)
    ensures
        lex_from(src, cursor, line) matches Some(out) ==> forall|k: int|
            0 <= k < out.tokens.len() ==> #[trigger] out.tokens[k].token_type != TokenType::EOF,
    decreases src.len() - cursor,
{
    if 0 <= cursor < src.len() {
        lemma_step_bounds(src, cursor, line);
        lemma_step_not_eof(src, cursor, line);
        if let Some(st) = lex_step(src, cursor, line) {
            lemma_lex_from_not_eof(src, st.next, st.line);
            if let Some(rest) = lex_from(src, st.next, st.line) {
                let head = step_tokens(src, cursor, st);
                assert forall|k: int| 0 <= k < head.len() + rest.tokens.len() implies #[trigger] (head
                    + rest.tokens)[k].token_type != TokenType::EOF by {
                    if k < head.len() {
                        assert((head + rest.tokens)[k] == head[k]);
                    } else {
                        assert((head + rest.tokens)[k] == rest.tokens[k - head.len()]);
                    }
                }
            }
        }
    }
}

/// A complete scan yields exactly one end-of-file token, and it comes last.
pub proof fn lemma_scan_ends_with_single_eof(src: Seq<char>, cursor: int, line: int)
    requires
        lex_from(src, cursor, line) is Some,
    ensures
        ({
            let toks = scan_result(src, cursor, line).tokens;
            &&& toks.len() > 0
            &&& toks.last().token_type == TokenType::EOF
            &&& forall|k: int| 0 <= k < toks.len() - 1 ==> #[trigger] toks[k].token_type != TokenType::EOF
        }),
{
    lemma_lex_from_not_eof(src, cursor, line);
    let out = lex_from(src, cursor, line)->0;
    assert forall|k: int| 0 <= k < out.tokens.len() implies #[trigger] out.tokens.push(eof_token(out.line))[k].token_type
        != TokenType::EOF by {
        assert(out.tokens.push(eof_token(out.line))[k] == out.tokens[k]);
    }
}

/// The line breaks of a text are its line-feed characters: no other
/// character (a carriage return included) counts.
pub proof fn lemma_newline_count_counts_line_feeds(s: Seq<char>)
    ensures
        newline_count(s) == s.filter(|c: char| c == '\n').len(),
    decreases s.len(),
{
    reveal(Seq::filter);
    if s.len() > 0 {
        lemma_newline_count_counts_line_feeds(s.drop_last());
    }
}

/// Line breaks add up over concatenation.
proof fn lemma_newline_count_concat(a: Seq<char>, b: Seq<char>)
    ensures
        newline_count(a + b) == newline_count(a) + newline_count(b),
    decreases b.len(),
{
    if b.len() == 0 {
        assert(a + b =~= a);
    } else {
        lemma_newline_count_concat(a, b.drop_last());
        assert((a + b).drop_last() =~= a + b.drop_last());
        assert((a + b).last() == b.last());
    }
}

/// A text without line-break characters holds no line breaks.
proof fn lemma_newline_count_none(s: Seq<char>)
    requires
        forall|k: int| 0 <= k < s.len() ==> #[trigger] s[k] != '\n',
    ensures
        newline_count(s) == 0,
    decreases s.len(),
{
    if s.len() > 0 {
        lemma_newline_count_none(s.drop_last());
    }
}

/// The line breaks in `src` from `cursor` to the end.
pub open spec fn breaks_from(src: Seq<char>, cursor: int) -> nat {
    newline_count(src.subrange(cursor, src.len() as int))
}

/// The line breaks ahead of `a` are those between `a` and `b` and those ahead of `b`.
proof fn lemma_breaks_split(src: Seq<char>, a: int, b: int)
    requires
        0 <= a <= b <= src.len(),
    ensures
        breaks_from(src, a) == newline_count(src.subrange(a, b)) + breaks_from(src, b),
{
    assert(src.subrange(a, src.len() as int) =~= src.subrange(a, b) + src.subrange(b, src.len() as int));
    lemma_newline_count_concat(src.subrange(a, b), src.subrange(b, src.len() as int));
}

/// Where the text holds a line break at `c`, at least one line break lies ahead.
proof fn lemma_breaks_at_newline(src: Seq<char>, c: int)
    requires
        0 <= c < src.len(),
        src[c] == '\n',
    ensures
        breaks_from(src, c) >= 1,
{
    lemma_breaks_split(src, c, c + 1);
    let piece = src.subrange(c, c + 1);
    assert(piece.drop_last() =~= Seq::<char>::empty());
    assert(newline_count(Seq::<char>::empty()) == 0);
    assert(newline_count(piece.drop_last()) == 0);
}

/// Where the text holds something other than a line break at `c`, the line
/// breaks ahead of `c` are those ahead of `c + 1`.
proof fn lemma_breaks_past_other(src: Seq<char>, c: int)
    requires
        0 <= c < src.len(),
        src[c] != '\n',
    ensures
        breaks_from(src, c) == breaks_from(src, c + 1),
{
    lemma_breaks_split(src, c, c + 1);
    let piece = src.subrange(c, c + 1);
    assert(piece.drop_last() =~= Seq::<char>::empty());
    assert(newline_count(Seq::<char>::empty()) == 0);
    assert(newline_count(piece.drop_last()) == 0);
}

/// A step moves the line on by exactly the line breaks in the text it consumed.
proof fn lemma_step_lines(src: Seq<char>, start: int, line: int)
    requires
        0 <= start < src.len(),
    ensures
        lex_step(src, start, line) matches Some(st) ==> st.line == line + newline_count(
            src.subrange(start, st.next),
        ),
{
    lemma_step_bounds(src, start, line);
    if let Some(st) = lex_step(src, start, line) {
        let c = src[start];
        let i = start + 1;
        let piece = src.subrange(start, st.next);
        if c == '\n' {
            assert(piece =~= seq!['\n']);
            assert(piece.drop_last() =~= Seq::<char>::empty());
            assert(newline_count(Seq::<char>::empty()) == 0);
            assert(newline_count(piece.drop_last()) == 0);
            assert(piece.last() == '\n');
            assert(newline_count(piece) == 1);
            assert(st.line == line + 1);
        } else if c == '"' {
            let j = i + string_body_run(src, i);
            lemma_run_while_bounds(src, i, |c: char| c != '"');
            assert(src[j] == '"');
            assert(piece =~= seq!['"'] + src.subrange(i, j) + seq!['"']);
            lemma_newline_count_concat(seq!['"'] + src.subrange(i, j), seq!['"']);
            lemma_newline_count_concat(seq!['"'], src.subrange(i, j));
            lemma_newline_count_none(seq!['"']);
            assert(newline_count(piece) == newline_count(src.subrange(i, j)));
        } else {
            lemma_run_while_bounds(src, i, |c: char| c != '\n');
            lemma_run_while_bounds(src, i, |c: char| is_digit_char(c));
            lemma_run_while_bounds(src, i, |c: char| is_alphanumeric_char(c));
            let a = i + digit_run(src, i);
            if a + 1 <= src.len() {
                lemma_run_while_bounds(src, a + 1, |c: char| is_digit_char(c));
            }
            assert forall|k: int| 0 <= k < piece.len() implies #[trigger] piece[k] != '\n' by {
                assert(piece[k] == src[start + k]);
                if k > 0 {
                    let p = start + k;
                    if char_or_nul(src, i) == '/' && c == '/' {
                        assert(src[p] != '\n');
                    } else if is_digit_char(c) {
                        if p < a {
                            assert(is_digit_char(src[p]));
                        } else if p == a {
                            assert(src[p] == '.');
                        } else {
                            assert(is_digit_char(src[p]));
                        }
                    } else if is_alpha_char(c) {
                        assert(is_alphanumeric_char(src[p]));
                    } else {
                        assert(src[p] == '=');
                    }
                }
            }
            lemma_newline_count_none(piece);
            assert(st.line == line);
        }
    }
}

/// Scanning counts every line break of the text exactly once: the line a
/// complete scan ends on is the starting line plus the line breaks in the
/// text scanned.
pub proof fn lemma_lex_counts_lines(src: Seq<char>, cursor: int, line: int)
    requires
        0 <= cursor <= src.len(),
    ensures
        lex_from(src, cursor, line) matches Some(out) ==> out.line == line + newline_count(
            src.subrange(cursor, src.len() as int),
        ),
    decreases src.len() - cursor,
{
    if cursor == src.len() {
        assert(src.subrange(cursor, src.len() as int) =~= Seq::<char>::empty());
    } else {
        lemma_step_bounds(src, cursor, line);
        lemma_step_lines(src, cursor, line);
        if let Some(st) = lex_step(src, cursor, line) {
            lemma_lex_counts_lines(src, st.next, st.line);
            assert(src.subrange(cursor, src.len() as int) =~= src.subrange(cursor, st.next) + src.subrange(
                st.next,
                src.len() as int,
            ));
            lemma_newline_count_concat(src.subrange(cursor, st.next), src.subrange(st.next, src.len() as int));
        }
    }
}

/// A number token is the longest numeral at its start: a run of digits,
/// then, only where a `.` is followed by a digit, that `.` and every digit
/// after it. The token never ends just before a digit, holds at most one
/// `.` and only between two digits, and leaves a `.` that is followed by a
/// digit behind only when it already holds a `.`. Its literal is its
/// lexeme, and it stays on its line.
pub proof fn lemma_number_token_maximal(src: Seq<char>, start: int, line: int)
    requires
        0 <= start < src.len(),
        ('0' <= src[start] <= '9'),
    ensures
        lex_step(src, start, line) is Some,
        lex_step(src, start, line) matches Some(st) ==> {
            &&& start < st.next <= src.len()
            &&& st.line == line
            &&& st.action == LexAction::Emit(TokenType::NUMBER, LiteralView::Number(src.subrange(start, st.next)))
            &&& forall|k: int|
                start <= k < st.next ==> ('0' <= #[trigger] src[k] <= '9') || (src[k] == '.' && start < k && k + 1
                    < st.next && ('0' <= src[k - 1] <= '9') && ('0' <= src[k + 1] <= '9'))
            &&& forall|k1: int, k2: int|
                start <= k1 < k2 < st.next ==> !(#[trigger] src[k1] == '.' && #[trigger] src[k2] == '.')
            &&& st.next < src.len() ==> !('0' <= src[st.next] <= '9')
            &&& (forall|k: int| start <= k < st.next ==> #[trigger] src[k] != '.') ==> !(st.next + 1 < src.len()
                && src[st.next] == '.' && ('0' <= src[st.next + 1] <= '9'))
        },
{
    let i = start + 1;
    lemma_run_while_bounds(src, i, |c: char| is_digit_char(c));
    let a = i + digit_run(src, i);
    assert forall|k: int| start <= k < a implies is_digit_char(#[trigger] src[k]) by {
        if k > start {
            assert(is_digit_char(src[k]) == (|c: char| is_digit_char(c))(src[k]));
        }
    }
    assert(a < src.len() ==> !is_digit_char(src[a])) by {
        if a < src.len() {
            assert(is_digit_char(src[a]) == (|c: char| is_digit_char(c))(src[a]));
        }
    }
    if char_or_nul(src, a) == '.' && is_digit_char(char_or_nul(src, a + 1)) {
        lemma_run_while_bounds(src, a + 1, |c: char| is_digit_char(c));
        let b = a + 1 + digit_run(src, a + 1);
        assert(number_end(src, i) == b);
        assert forall|k: int| a < k < b implies is_digit_char(#[trigger] src[k]) by {
            assert(is_digit_char(src[k]) == (|c: char| is_digit_char(c))(src[k]));
        }
        assert(b < src.len() ==> !is_digit_char(src[b])) by {
            if b < src.len() {
                assert(is_digit_char(src[b]) == (|c: char| is_digit_char(c))(src[b]));
            }
        }
        assert(src[a] == '.');
        assert(is_digit_char(src[a + 1]));
        assert(a + 1 < b);
        assert forall|k: int|
            start <= k < b implies is_digit_char(#[trigger] src[k]) || (src[k] == '.' && start < k && k + 1 < b
                && is_digit_char(src[k - 1]) && is_digit_char(src[k + 1])) by {
            if k < a {
            } else if k == a {
                assert(is_digit_char(src[k - 1]));
            } else {
            }
        }
        assert forall|k1: int, k2: int| start <= k1 < k2 < b implies !(#[trigger] src[k1] == '.'
            && #[trigger] src[k2] == '.') by {
            if k1 != a {
                if k1 < a {
                    assert(is_digit_char(src[k1]));
                } else {
                    assert(is_digit_char(src[k1]));
                }
            } else {
                assert(is_digit_char(src[k2]));
            }
        }
    } else {
        assert(number_end(src, i) == a);
    }
}

/// A numeral of `n` digits, a `.` and `m` more digits, followed by the end
/// of the text or by a character that is not a digit, is scanned as one
/// number token that takes the whole numeral, its fraction included.
pub proof fn lemma_fraction_numeral(src: Seq<char>, n: int, m: int, line: int)
    requires
        n >= 1,
        m >= 1,
        n + 1 + m <= src.len(),
        forall|k: int| 0 <= k < n ==> ('0' <= #[trigger] src[k] <= '9'),
        src[n] == '.',
        forall|k: int| n < k < n + 1 + m ==> ('0' <= #[trigger] src[k] <= '9'),
        n + 1 + m < src.len() ==> !('0' <= src[n + 1 + m] <= '9'),
    ensures
        lex_step(src, 0, line) == Some(
            LexStep {
                next: n + 1 + m,
                line,
                action: LexAction::Emit(TokenType::NUMBER, LiteralView::Number(src.subrange(0, n + 1 + m))),
            },
        ),
{
    lemma_number_token_maximal(src, 0, line);
    let st = lex_step(src, 0, line)->0;
    let e = n + 1 + m;
    if st.next < n {
        assert(is_digit_char(src[st.next]));
    } else if st.next == n {
        assert forall|k: int| 0 <= k < st.next implies #[trigger] src[k] != '.' by {
            assert(is_digit_char(src[k]));
        }
        assert(is_digit_char(src[n + 1]));
    } else if st.next < e {
        assert(is_digit_char(src[st.next]));
    } else if st.next > e {
        assert(src[n] == '.');
        if src[e] == '.' {
            assert(!(src[n] == '.' && src[e] == '.'));
        } else {
            assert(is_digit_char(src[e]) || src[e] == '.');
        }
    }
    assert(st.next == e);
}

/// A step that records a token with no literal and moves on to `next`.
pub open spec fn plain_token_step(next: int, line: int, t: TokenType) -> Option<LexStep> {
    Some(LexStep { next, line, action: LexAction::Emit(t, LiteralView::Nil) })
}

/// Each of `(`, `)`, `{`, `}`, `,`, `.`, `-`, `+`, `:` and `*` is a token of
/// its own, whatever follows it; `:` stands for the semicolon.
pub proof fn lemma_single_character_tokens(src: Seq<char>, start: int, line: int)
    requires
        0 <= start < src.len(),
    ensures
        src[start] == '(' ==> lex_step(src, start, line) == plain_token_step(start + 1, line, TokenType::LEFT_PAREN),
        src[start] == ')' ==> lex_step(src, start, line) == plain_token_step(start + 1, line, TokenType::RIGHT_PAREN),
        src[start] == '{' ==> lex_step(src, start, line) == plain_token_step(start + 1, line, TokenType::LEFT_BRACE),
        src[start] == '}' ==> lex_step(src, start, line) == plain_token_step(start + 1, line, TokenType::RIGHT_BRACE),
        src[start] == ',' ==> lex_step(src, start, line) == plain_token_step(start + 1, line, TokenType::COMMA),
        src[start] == '.' ==> lex_step(src, start, line) == plain_token_step(start + 1, line, TokenType::DOT),
        src[start] == '-' ==> lex_step(src, start, line) == plain_token_step(start + 1, line, TokenType::MINUS),
        src[start] == '+' ==> lex_step(src, start, line) == plain_token_step(start + 1, line, TokenType::PLUS),
        src[start] == ':' ==> lex_step(src, start, line) == plain_token_step(start + 1, line, TokenType::SEMICOLON),
        src[start] == '*' ==> lex_step(src, start, line) == plain_token_step(start + 1, line, TokenType::STAR),
{
}

/// `!`, `=`, `<` and `>` take a following `=` into a two-character token and
/// otherwise stand alone.
pub proof fn lemma_operator_tokens(src: Seq<char>, start: int, line: int)
    requires
        0 <= start < src.len(),
    ensures
        ({
            let eq = start + 1 < src.len() && src[start + 1] == '=';
            &&& src[start] == '!' ==> lex_step(src, start, line) == (if eq {
                plain_token_step(start + 2, line, TokenType::BANG_EQUAL)
            } else {
                plain_token_step(start + 1, line, TokenType::BANG)
            })
            &&& src[start] == '=' ==> lex_step(src, start, line) == (if eq {
                plain_token_step(start + 2, line, TokenType::EQUAL_EQUAL)
            } else {
                plain_token_step(start + 1, line, TokenType::EQUAL)
            })
            &&& src[start] == '<' ==> lex_step(src, start, line) == (if eq {
                plain_token_step(start + 2, line, TokenType::LESS_EQUAL)
            } else {
                plain_token_step(start + 1, line, TokenType::LESS)
            })
            &&& src[start] == '>' ==> lex_step(src, start, line) == (if eq {
                plain_token_step(start + 2, line, TokenType::GREATER_EQUAL)
            } else {
                plain_token_step(start + 1, line, TokenType::GREATER)
            })
        }),
{
}

/// A `/` not followed by another `/` is the division token; `//` starts a
/// comment that is skipped up to the next line break, which it leaves in
/// place (or to the end of the text).
pub proof fn lemma_slash_and_comment(src: Seq<char>, start: int, line: int)
    requires
        0 <= start < src.len(),
        src[start] == '/',
    ensures
        !(start + 1 < src.len() && src[start + 1] == '/') ==> lex_step(src, start, line) == plain_token_step(
            start + 1,
            line,
            TokenType::SLASH,
        ),
        start + 1 < src.len() && src[start + 1] == '/' ==> (lex_step(src, start, line) matches Some(st) && {
            &&& st.action == LexAction::Skip
            &&& st.line == line
            &&& start + 2 <= st.next <= src.len()
            &&& forall|k: int| start <= k < st.next ==> #[trigger] src[k] != '\n'
            &&& st.next < src.len() ==> src[st.next] == '\n'
        }),
{
    let i = start + 1;
    lemma_run_while_bounds(src, i, |c: char| c != '\n');
    if start + 1 < src.len() && src[start + 1] == '/' {
        let n = i + line_rest_run(src, i);
        assert(src[i] != '\n');
        assert(n >= i + 1);
        assert forall|k: int| start <= k < n implies #[trigger] src[k] != '\n' by {
            if k > start {
                assert((|c: char| c != '\n')(src[k]));
            }
        }
        assert(n < src.len() ==> src[n] == '\n') by {
            if n < src.len() {
                assert(!(|c: char| c != '\n')(src[n]));
            }
        }
    }
}

/// Spaces, tabs and carriage returns are skipped; a line break is skipped
/// and moves scanning to the next line.
pub proof fn lemma_whitespace_skipped(src: Seq<char>, start: int, line: int)
    requires
        0 <= start < src.len(),
    ensures
        src[start] == ' ' || src[start] == '\t' || src[start] == '\r' ==> lex_step(src, start, line) == Some(
            LexStep { next: start + 1, line, action: LexAction::Skip },
        ),
        src[start] == '\n' ==> lex_step(src, start, line) == Some(
            LexStep { next: start + 1, line: line + 1, action: LexAction::Skip },
        ),
{
}

/// A string literal runs from its opening `"` to the next `"`; its literal
/// is the text between the quotes, which may span lines, and scanning goes
/// on after the closing quote on the line it stands on. Scanning cannot go
/// on exactly when no closing quote follows.
pub proof fn lemma_string_literal(src: Seq<char>, start: int, line: int)
    requires
        0 <= start < src.len(),
        src[start] == '"',
    ensures
        lex_step(src, start, line) is None <==> forall|k: int| start < k < src.len() ==> #[trigger] src[k] != '"',
        lex_step(src, start, line) matches Some(st) ==> {
            &&& start + 2 <= st.next <= src.len()
            &&& src[st.next - 1] == '"'
            &&& forall|k: int| start < k < st.next - 1 ==> #[trigger] src[k] != '"'
            &&& st.action == LexAction::Emit(TokenType::STRING, LiteralView::Str(src.subrange(start + 1, st.next - 1)))
            &&& st.line == line + newline_count(src.subrange(start + 1, st.next - 1))
        },
{
    let i = start + 1;
    lemma_run_while_bounds(src, i, |c: char| c != '"');
    let j = i + string_body_run(src, i);
    assert forall|k: int| start < k < j implies #[trigger] src[k] != '"' by {
        assert((|c: char| c != '"')(src[k]));
    }
    if j < src.len() {
        assert(!(|c: char| c != '"')(src[j]));
        assert(src[j] == '"');
    }
}

/// A word starting with a letter or `_` takes every letter, digit and `_`
/// that follows; it is a keyword's token where the word is a keyword, and an
/// identifier otherwise.
pub proof fn lemma_word_token_maximal(src: Seq<char>, start: int, line: int)
    requires
        0 <= start < src.len(),
        (('a' <= src[start] <= 'z') || ('A' <= src[start] <= 'Z') || src[start] == '_'),
    ensures
        lex_step(src, start, line) matches Some(st) && {
            &&& start < st.next <= src.len()
            &&& st.line == line
            &&& forall|k: int|
                start <= k < st.next ==> (('a' <= #[trigger] src[k] <= 'z') || ('A' <= src[k] <= 'Z') || src[k]
                    == '_' || ('0' <= src[k] <= '9'))
            &&& st.next < src.len() ==> !(('a' <= src[st.next] <= 'z') || ('A' <= src[st.next] <= 'Z')
                || src[st.next] == '_' || ('0' <= src[st.next] <= '9'))
            &&& st.action == LexAction::Emit(word_type(src.subrange(start, st.next)), LiteralView::Nil)
        },
{
    let i = start + 1;
    lemma_run_while_bounds(src, i, |c: char| is_alphanumeric_char(c));
    let j = i + alphanumeric_run(src, i);
    assert forall|k: int| start <= k < j implies is_alphanumeric_char(#[trigger] src[k]) by {
        if k > start {
            assert((|c: char| is_alphanumeric_char(c))(src[k]));
        }
    }
    assert(j < src.len() ==> !is_alphanumeric_char(src[j])) by {
        if j < src.len() {
            assert(!(|c: char| is_alphanumeric_char(c))(src[j]));
        }
    }
}

/// The sixteen keywords scan to their own token types; any other word is an
/// identifier.
pub proof fn lemma_keywords()
    ensures
        word_type("and"@) == TokenType::AND,
        word_type("class"@) == TokenType::CLASS,
        word_type("else"@) == TokenType::ELSE,
        word_type("false"@) == TokenType::FALSE,
        word_type("for"@) == TokenType::FOR,
        word_type("fun"@) == TokenType::FUN,
        word_type("if"@) == TokenType::IF,
        word_type("nil"@) == TokenType::NIL,
        word_type("or"@) == TokenType::OR,
        word_type("print"@) == TokenType::PRINT,
        word_type("return"@) == TokenType::RETURN,
        word_type("super"@) == TokenType::SUPER,
        word_type("this"@) == TokenType::THIS,
        word_type("true"@) == TokenType::TRUE,
        word_type("var"@) == TokenType::VAR,
        word_type("while"@) == TokenType::WHILE,
        forall|w: Seq<char>|
            w != "and"@ && w != "class"@ && w != "else"@ && w != "false"@ && w != "for"@ && w != "fun"@ && w
                != "if"@ && w != "nil"@ && w != "or"@ && w != "print"@ && w != "return"@ && w != "super"@ && w
                != "this"@ && w != "true"@ && w != "var"@ && w != "while"@ ==> #[trigger] word_type(w)
                == TokenType::IDENTIFIER,
{
    reveal_strlit("and");
    reveal_strlit("class");
    reveal_strlit("else");
    reveal_strlit("false");
    reveal_strlit("for");
    reveal_strlit("fun");
    reveal_strlit("if");
    reveal_strlit("nil");
    reveal_strlit("or");
    reveal_strlit("print");
    reveal_strlit("return");
    reveal_strlit("super");
    reveal_strlit("this");
    reveal_strlit("true");
    reveal_strlit("var");
    reveal_strlit("while");
    assert("false"@[0] != "class"@[0]);
    assert("for"@[0] != "and"@[0]);
    assert("fun"@[0] != "and"@[0]);
    assert("fun"@[1] != "for"@[1]);
    assert("nil"@[0] != "and"@[0]);
    assert("nil"@[0] != "for"@[0]);
    assert("nil"@[0] != "fun"@[0]);
    assert("or"@[0] != "if"@[0]);
    assert("print"@[0] != "class"@[0]);
    assert("print"@[0] != "false"@[0]);
    assert("super"@[0] != "class"@[0]);
    assert("super"@[0] != "false"@[0]);
    assert("super"@[0] != "print"@[0]);
    assert("this"@[0] != "else"@[0]);
    assert("true"@[0] != "else"@[0]);
    assert("true"@[1] != "this"@[1]);
    assert("var"@[0] != "and"@[0]);
    assert("var"@[0] != "for"@[0]);
    assert("var"@[0] != "fun"@[0]);
    assert("var"@[0] != "nil"@[0]);
    assert("while"@[0] != "class"@[0]);
    assert("while"@[0] != "false"@[0]);
    assert("while"@[0] != "print"@[0]);
    assert("while"@[0] != "super"@[0]);
}

/// A character that starts no token is reported as
/// `Unrecognised character: ` followed by it, and scanning goes on with the
/// next character on the same line.
pub proof fn lemma_unrecognised_character(src: Seq<char>, start: int, line: int)
    requires
        0 <= start < src.len(),
        !('0' <= src[start] <= '9'),
        !(('a' <= src[start] <= 'z') || ('A' <= src[start] <= 'Z') || src[start] == '_'),
        !seq!['(', ')', '{', '}', ',', '.', '-', '+', ':', '*', '!', '=', '<', '>', '/', ' ', '\t', '\r', '\n', '"'].contains(
            src[start],
        ),
    ensures
        lex_step(src, start, line) == Some(
            LexStep {
                next: start + 1,
                line,
                action: LexAction::Fail("Unrecognised character: "@ + seq![src[start]]),
            },
        ),
{
    let c = src[start];
    let set = seq!['(', ')', '{', '}', ',', '.', '-', '+', ':', '*', '!', '=', '<', '>', '/', ' ', '\t', '\r', '\n', '"'];
    assert(c != '(') by { assert(set[0] == '('); }
    assert(c != ')') by { assert(set[1] == ')'); }
    assert(c != '{') by { assert(set[2] == '{'); }
    assert(c != '}') by { assert(set[3] == '}'); }
    assert(c != ',') by { assert(set[4] == ','); }
    assert(c != '.') by { assert(set[5] == '.'); }
    assert(c != '-') by { assert(set[6] == '-'); }
    assert(c != '+') by { assert(set[7] == '+'); }
    assert(c != ':') by { assert(set[8] == ':'); }
    assert(c != '*') by { assert(set[9] == '*'); }
    assert(c != '!') by { assert(set[10] == '!'); }
    assert(c != '=') by { assert(set[11] == '='); }
    assert(c != '<') by { assert(set[12] == '<'); }
    assert(c != '>') by { assert(set[13] == '>'); }
    assert(c != '/') by { assert(set[14] == '/'); }
    assert(c != ' ') by { assert(set[15] == ' '); }
    assert(c != '\t') by { assert(set[16] == '\t'); }
    assert(c != '\r') by { assert(set[17] == '\r'); }
    assert(c != '\n') by { assert(set[18] == '\n'); }
    assert(c != '"') by { assert(set[19] == '"'); }
    assert(unrecognised_message(c) =~= "Unrecognised character: "@ + seq![c]);
}

// ---------------------------------------------------------------------------
// The scanner
// ---------------------------------------------------------------------------

/// An error found while scanning.
pub struct LexError {
    pub line: i32,
    pub message: String,
}

impl View for LexError {
    type V = LexErrorView;

    open spec fn view(&self) -> LexErrorView {
        LexErrorView { line: self.line as int, message: self.message@ }
    }
}

/// The models of a list of tokens.
pub open spec fn token_views(ts: Seq<Token>) -> Seq<TokenView> {
    ts.map_values(|t: Token| t@)
}

/// The models of a list of errors.
pub open spec fn error_views(es: Seq<LexError>) -> Seq<LexErrorView> {
    es.map_values(|e: LexError| e@)
}

/// Lexer scans raw source code text to produce flat list of tokens.
pub struct Lexer {
    source_text: Vec<char>,
    pub tokens: Vec<Token>,
    start: usize,
    /// Index of the character we're about to consume
    cursor: usize,
    line: i32,
    pub errors: Vec<LexError>,
}

/// The error for reading past the end of the text.
pub open spec fn char_at_error(text: Seq<char>, index: int) -> Seq<char> {
    "Failed to get character at index "@ + digits_text(index as nat) + " for string "@ + text + "."@
}

/// The character at `index`, or an error naming the index and the text.
fn char_at(text: &Vec<char>, index: usize) -> (r: Result<char, String>)
    ensures
        index < text@.len() ==> r == Ok::<char, String>(text@[index as int]),
        index >= text@.len() ==> (r matches Err(m) && m@ == char_at_error(text@, index as int)),
{
    if index < text.len() {
        Ok(text[index])
    } else {
        let mut message = String::new();
        push_str(&mut message, "Failed to get character at index ");
        push_digits(&mut message, index as u64);
        push_str(&mut message, " for string ");
        let whole = string_of_range(text, 0, text.len());
        push_str(&mut message, whole.as_str());
        push_str(&mut message, ".");
        proof {
            assert(text@.subrange(0, text@.len() as int) =~= text@);
        }
        Err(message)
    }
}

fn is_digit(c: char) -> (r: bool)
    ensures
        r == is_digit_char(c),
{
    c >= '0' && c <= '9'
}

fn is_alpha(c: char) -> (r: bool)
    ensures
        r == is_alpha_char(c),
{
    (c >= 'a' && c <= 'z') || (c >= 'A' && c <= 'Z') || c == '_'
}

fn is_alphanumeric(c: char) -> (r: bool)
    ensures
        r == is_alphanumeric_char(c),
{
    is_alpha(c) || is_digit(c)
}

/// Whether every character of `chars` is ASCII.
fn is_ascii(chars: &Vec<char>) -> (r: bool)
    ensures
        r == is_ascii_text(chars@),
{
    let mut k: usize = 0;
    while k < chars.len()
        invariant
            k <= chars@.len(),
            forall|m: int| 0 <= m < k ==> #[trigger] chars@[m] <= '\u{7f}',
        decreases chars@.len() - k,
    {
        let c = chars[k];
        if c > '\u{7f}' {
            return false;
        }
        k = k + 1;
    }
    true
}

/// Whether `chars[from..to]` spells `word`.
fn span_is(chars: &Vec<char>, from: usize, to: usize, word: &str) -> (r: bool)
    requires
        from <= to <= chars@.len(),
    ensures
        r == (chars@.subrange(from as int, to as int) == word@),
{
    let w = chars_of(word);
    if to - from != w.len() {
        return false;
    }
    let mut k: usize = 0;
    while k < w.len()
        invariant
            from <= to <= chars@.len(),
            to - from == w@.len(),
            w@ == word@,
            k <= w@.len(),
            forall|m: int| 0 <= m < k ==> chars@[from + m] == w@[m],
        decreases w@.len() - k,
    {
        if chars[from + k] != w[k] {
            assert(chars@.subrange(from as int, to as int)[k as int] != w@[k as int]);
            return false;
        }
        k = k + 1;
    }
    assert(chars@.subrange(from as int, to as int) =~= w@);
    true
}

/// The token type of the word `chars[from..to]`: a keyword's own type, or `IDENTIFIER`.
fn reserved_word_type(chars: &Vec<char>, from: usize, to: usize) -> (t: TokenType)
    requires
        from <= to <= chars@.len(),
    ensures
        t == word_type(chars@.subrange(from as int, to as int)),
{
    if span_is(chars, from, to, "and") {
        TokenType::AND
    } else if span_is(chars, from, to, "class") {
        TokenType::CLASS
    } else if span_is(chars, from, to, "else") {
        TokenType::ELSE
    } else if span_is(chars, from, to, "false") {
        TokenType::FALSE
    } else if span_is(chars, from, to, "for") {
        TokenType::FOR
    } else if span_is(chars, from, to, "fun") {
        TokenType::FUN
    } else if span_is(chars, from, to, "if") {
        TokenType::IF
    } else if span_is(chars, from, to, "nil") {
        TokenType::NIL
    } else if span_is(chars, from, to, "or") {
        TokenType::OR
    } else if span_is(chars, from, to, "print") {
        TokenType::PRINT
    } else if span_is(chars, from, to, "return") {
        TokenType::RETURN
    } else if span_is(chars, from, to, "super") {
        TokenType::SUPER
    } else if span_is(chars, from, to, "this") {
        TokenType::THIS
    } else if span_is(chars, from, to, "true") {
        TokenType::TRUE
    } else if span_is(chars, from, to, "var") {
        TokenType::VAR
    } else if span_is(chars, from, to, "while") {
        TokenType::WHILE
    } else {
        TokenType::IDENTIFIER
    }
}

impl Lexer {
    /// The text being scanned.
    pub closed spec fn source(&self) -> Seq<char> {
        self.source_text@
    }

    /// The index of the next character to be consumed.
    pub closed spec fn cursor_index(&self) -> int {
        self.cursor as int
    }

    /// The line the scanner is on.
    pub closed spec fn current_line(&self) -> int {
        self.line as int
    }

    /// The tokens recorded so far.
    pub closed spec fn token_list(&self) -> Seq<Token> {
        self.tokens@
    }

    /// The models of the tokens recorded so far.
    pub open spec fn recorded_tokens(&self) -> Seq<TokenView> {
        token_views(self.token_list())
    }

    /// The models of the errors recorded so far.
    pub closed spec fn recorded_errors(&self) -> Seq<LexErrorView> {
        error_views(self.errors@)
    }

    /// The scanner's positions lie within the text.
    pub closed spec fn wf(&self) -> bool {
        &&& self.start <= self.cursor <= self.source_text@.len()
    }

    /// The errors recorded so far.
    pub fn error_list(&self) -> (errors: &Vec<LexError>)
        ensures
            error_views(errors@) == self.recorded_errors(),
    {
        &self.errors
    }

    /// The tokens recorded so far, taking them out of the lexer.
    pub fn into_tokens(self) -> (tokens: Vec<Token>)
        ensures
            tokens@ == self.token_list(),
    {
        self.tokens
    }

    pub fn new(source_text: &str) -> (lexer: Lexer)
        ensures
            lexer.wf(),
            lexer.source() == source_text@,
            lexer.cursor_index() == 0,
            lexer.current_line() == 1,
            lexer.recorded_tokens() == Seq::<TokenView>::empty(),
            lexer.recorded_errors() == Seq::<LexErrorView>::empty(),
    {
        Lexer {
            source_text: chars_of(source_text),
            tokens: Vec::new(),
            start: 0,
            cursor: 0,
            line: 1,
            errors: Vec::new(),
        }
    }

    fn at_end_of_source_text(&self) -> (r: bool)
        ensures
            r == (self.cursor >= self.source_text@.len()),
    {
        let source_length = self.source_text.len();
        self.cursor >= source_length
    }

    /// Check whether the next character in the source text is equal to some expected character
    fn next_char_has(&self, expected: char) -> (r: bool)
        ensures
            r == (self.cursor < self.source_text@.len() && self.source_text@[self.cursor as int] == expected),
    {
        if self.at_end_of_source_text() {
            return false;
        }
        match char_at(&self.source_text, self.cursor) {
            Ok(c) => c == expected,
            Err(_) => false,
        }
    }

    /// Check the value of the next character in the source text without consuming the character.
    fn peek(&self) -> (c: char)
        ensures
            c == char_or_nul(self.source_text@, self.cursor as int),
    {
        if self.at_end_of_source_text() {
            return '\0';
        }
        match char_at(&self.source_text, self.cursor) {
            Ok(c) => c,
            Err(_) => '\0',
        }
    }

    /// Check the value of the character two positions ahead of the most recently consumed character.
    fn peek_next(&self) -> (c: char)
        ensures
            c == char_or_nul(self.source_text@, self.cursor + 1),
    {
        if self.cursor >= self.source_text.len() || self.cursor + 1 >= self.source_text.len() {
            return '\0';
        }
        match char_at(&self.source_text, self.cursor + 1) {
            Ok(c) => c,
            Err(_) => '\0',
        }
    }

    /// Consumes the character at the cursor and returns it.
    fn advance(&mut self) -> (c: char)
        requires
            old(self).cursor < old(self).source_text@.len(),
        ensures
            c == old(self).source_text@[old(self).cursor as int],
            final(self).cursor == old(self).cursor + 1,
            final(self).source_text == old(self).source_text,
            final(self).start == old(self).start,
            final(self).line == old(self).line,
            final(self).tokens == old(self).tokens,
            final(self).errors == old(self).errors,
    {
        let c = self.source_text[self.cursor];
        assert(self.cursor < self.source_text.len());
        self.cursor = self.cursor + 1;
        c
    }

    /// Scans the rest of the text, recording its tokens (closed by an
    /// end-of-file token) and its errors.
    pub fn scan_tokens(&mut self)
        requires
            old(self).wf(),
            scan_completes(old(self).source(), old(self).cursor_index(), old(self).current_line()),
            old(self).current_line() + breaks_from(old(self).source(), old(self).cursor_index()) <= i32::MAX,
        ensures
            final(self).wf(),
            final(self).source() == old(self).source(),
            final(self).cursor_index() == old(self).source().len(),
            ({
                let out = scan_result(old(self).source(), old(self).cursor_index(), old(self).current_line());
                &&& final(self).recorded_tokens() == old(self).recorded_tokens() + out.tokens
                &&& final(self).recorded_errors() == old(self).recorded_errors() + out.errors
                &&& final(self).current_line() == out.line
            }),
    {
        let completed = self.try_scan_tokens();
        assert(completed);
    }

    /// Scans the rest of the text as [`Lexer::scan_tokens`] does, where that
    /// runs to the end, and returns true. Returns false, with what has been
    /// recorded left unspecified, where the text is not ASCII or holds a
    /// string literal that is never closed.
    pub fn try_scan_tokens(&mut self) -> (completed: bool)
        requires
            old(self).wf(),
            old(self).current_line() + breaks_from(old(self).source(), old(self).cursor_index()) <= i32::MAX,
        ensures
            final(self).wf(),
            final(self).source() == old(self).source(),
            completed == scan_completes(old(self).source(), old(self).cursor_index(), old(self).current_line()),
            completed ==> {
                let out = scan_result(old(self).source(), old(self).cursor_index(), old(self).current_line());
                &&& final(self).cursor_index() == old(self).source().len()
                &&& final(self).recorded_tokens() == old(self).recorded_tokens() + out.tokens
                &&& final(self).recorded_errors() == old(self).recorded_errors() + out.errors
                &&& final(self).current_line() == out.line
            },
    {
        let ghost src = self.source_text@;
        let ghost c0 = self.cursor as int;
        let ghost l0 = self.line as int;
        let ghost t0 = token_views(self.tokens@);
        let ghost e0 = error_views(self.errors@);
        if !is_ascii(&self.source_text) {
            return false;
        }
        let ghost mut done_t: Seq<TokenView> = Seq::empty();
        let ghost mut done_e: Seq<LexErrorView> = Seq::empty();
        assert(t0 + done_t =~= t0);
        assert(e0 + done_e =~= e0);
        while !self.at_end_of_source_text()
            invariant
                src == old(self).source_text@,
                c0 == old(self).cursor,
                l0 == old(self).line,
                t0 == token_views(old(self).tokens@),
                e0 == error_views(old(self).errors@),
                self.source_text@ == src,
                self.start <= self.cursor <= src.len(),
                c0 <= self.cursor,
                self.line + breaks_from(src, self.cursor as int) <= i32::MAX,
                is_ascii_text(src),
                token_views(self.tokens@) == t0 + done_t,
                error_views(self.errors@) == e0 + done_e,
                lex_from(src, c0, l0) is Some <==> lex_from(src, self.cursor as int, self.line as int) is Some,
                lex_from(src, self.cursor as int, self.line as int) matches Some(rest) ==> lex_from(src, c0, l0)
                    == Some(
                    LexOutput { tokens: done_t + rest.tokens, errors: done_e + rest.errors, line: rest.line },
                ),
            decreases src.len() - self.cursor,
        {
            self.start = self.cursor;
            let ghost cur = self.cursor as int;
            let ghost ln = self.line as int;
            let ghost tb = token_views(self.tokens@);
            let ghost eb = error_views(self.errors@);
            proof {
                lemma_step_bounds(src, cur, ln);
                lemma_step_lines(src, cur, ln);
                if let Some(st) = lex_step(src, cur, ln) {
                    lemma_breaks_split(src, cur, st.next);
                }
            }
            if !self.scan_token() {
                return false;
            }
            proof {
                let st = lex_step(src, cur, ln)->0;
                let new_t = done_t + step_tokens(src, cur, st);
                let new_e = done_e + step_errors(st);
                if let Some(rest) = lex_from(src, self.cursor as int, self.line as int) {
                    assert(new_t + rest.tokens =~= done_t + (step_tokens(src, cur, st) + rest.tokens));
                    assert(new_e + rest.errors =~= done_e + (step_errors(st) + rest.errors));
                }
                assert(token_views(self.tokens@) =~= t0 + new_t);
                assert(error_views(self.errors@) =~= e0 + new_e);
                done_t = new_t;
                done_e = new_e;
            }
        }
        let empty = String::new();
        let token = Token::new(TokenType::EOF, empty.as_str(), Literal::Nil, self.line);
        assert(token@ == eof_token(self.line as int));
        let ghost before = self.tokens@;
        self.tokens.push(token);
        proof {
            assert(self.tokens@ == before.push(token));
            assert(token_views(before.push(token)) =~= token_views(before).push(token@));
            assert(token_views(self.tokens@) =~= t0 + done_t.push(eof_token(self.line as int)));
        }
        true
    }

    /// Scans one lexeme starting at the cursor. Returns false where the
    /// lexeme is a string literal that is never closed.
    fn scan_token(&mut self) -> (ok: bool)
        requires
            old(self).start == old(self).cursor < old(self).source_text@.len(),
            old(self).line + breaks_from(old(self).source_text@, old(self).cursor as int) <= i32::MAX,
        ensures
            final(self).source_text == old(self).source_text,
            final(self).start == old(self).start,
            final(self).start <= final(self).cursor <= final(self).source_text@.len(),
            ok == lex_step(old(self).source_text@, old(self).cursor as int, old(self).line as int) is Some,
            ok ==> {
                let st = lex_step(old(self).source_text@, old(self).cursor as int, old(self).line as int)->0;
                &&& final(self).cursor == st.next
                &&& final(self).line == st.line
                &&& token_views(final(self).tokens@) == token_views(old(self).tokens@) + step_tokens(
                    old(self).source_text@,
                    old(self).cursor as int,
                    st,
                )
                &&& error_views(final(self).errors@) == error_views(old(self).errors@) + step_errors(st)
            },
    {
        let ghost src = self.source_text@;
        let ghost start = self.cursor as int;
        let ghost old_tokens = token_views(self.tokens@);
        let ghost old_errors = error_views(self.errors@);
        proof {
            lemma_step_bounds(src, start, self.line as int);
        }
        assert(src.len() == self.source_text.len());
        let c = self.advance();
        match c {
            // These lexemes are only one char
            '(' => self.add_token(TokenType::LEFT_PAREN),
            ')' => self.add_token(TokenType::RIGHT_PAREN),
            '{' => self.add_token(TokenType::LEFT_BRACE),
            '}' => self.add_token(TokenType::RIGHT_BRACE),
            ',' => self.add_token(TokenType::COMMA),
            '.' => self.add_token(TokenType::DOT),
            '-' => self.add_token(TokenType::MINUS),
            '+' => self.add_token(TokenType::PLUS),
            ':' => self.add_token(TokenType::SEMICOLON),
            '*' => self.add_token(TokenType::STAR),
            '!' => {
                if self.next_char_has('=') {
                    self.cursor = self.cursor + 1;
                    self.add_token(TokenType::BANG_EQUAL);
                } else {
                    self.add_token(TokenType::BANG);
                }
            },
            '=' => {
                if self.next_char_has('=') {
                    self.cursor = self.cursor + 1;
                    self.add_token(TokenType::EQUAL_EQUAL);
                } else {
                    self.add_token(TokenType::EQUAL);
                }
            },
            '<' => {
                if self.next_char_has('=') {
                    self.cursor = self.cursor + 1;
                    self.add_token(TokenType::LESS_EQUAL);
                } else {
                    self.add_token(TokenType::LESS);
                }
            },
            '>' => {
                if self.next_char_has('=') {
                    self.cursor = self.cursor + 1;
                    self.add_token(TokenType::GREATER_EQUAL);
                } else {
                    self.add_token(TokenType::GREATER);
                }
            },
            '/' => {
                if self.next_char_has('/') {
                    let ghost i = self.cursor as int;
                    while self.peek() != '\n' && !self.at_end_of_source_text()
                        invariant
                            self.source_text == old(self).source_text,
                            self.source_text@ == src,
                            self.start == old(self).start,
                            self.line == old(self).line,
                            self.tokens == old(self).tokens,
                            self.errors == old(self).errors,
                            i <= self.cursor <= src.len(),
                            self.cursor + line_rest_run(src, self.cursor as int) == i + line_rest_run(src, i),
                        decreases src.len() - self.cursor,
                    {
                        self.advance();
                    }
                } else {
                    self.add_token(TokenType::SLASH);
                }
            },
            // Ignore whitespace
            ' ' | '\r' | '\t' => {},
            '\n' => {
                proof {
                    lemma_breaks_at_newline(src, start);
                }
                self.line = self.line + 1;
            },
            // Literals
            '"' => {
                proof {
                    lemma_breaks_past_other(src, start);
                }
                return self.parse_string();
            },
            _ => {
                if is_digit(c) {
                    self.parse_number();
                } else if is_alpha(c) {
                    self.parse_identifier();
                } else {
                    let mut message = String::new();
                    push_str(&mut message, "Unrecognised character: ");
                    push_char(&mut message, c);
                    let error = LexError { line: self.line, message };
                    self.errors.push(error);
                    proof {
                        assert(error_views(self.errors@) =~= old_errors.push(error@));
                    }
                }
            },
        }
        proof {
            let st = lex_step(src, start, old(self).line as int)->0;
            assert(token_views(self.tokens@) =~= old_tokens + step_tokens(src, start, st));
            assert(error_views(self.errors@) =~= old_errors + step_errors(st));
        }
        true
    }

    /// Consumes the rest of a string literal whose opening quote has just been
    /// consumed. Returns false, having consumed the rest of the text, where the
    /// string is never closed.
    fn parse_string(&mut self) -> (closed: bool)
        requires
            old(self).start + 1 == old(self).cursor <= old(self).source_text@.len(),
            old(self).line + breaks_from(old(self).source_text@, old(self).cursor as int) <= i32::MAX,
        ensures
            final(self).source_text == old(self).source_text,
            final(self).start == old(self).start,
            final(self).errors == old(self).errors,
            old(self).cursor <= final(self).cursor <= final(self).source_text@.len(),
            ({
                let src = old(self).source_text@;
                let i = old(self).cursor as int;
                let j = i + string_body_run(src, i);
                &&& closed == (j < src.len())
                &&& closed ==> {
                    &&& final(self).cursor == j + 1
                    &&& final(self).line == old(self).line + newline_count(src.subrange(i, j))
                    &&& token_views(final(self).tokens@) == token_views(old(self).tokens@).push(
                        TokenView {
                            token_type: TokenType::STRING,
                            lexeme: src.subrange(old(self).start as int, j + 1),
                            literal: LiteralView::Str(src.subrange(i, j)),
                            line: final(self).line as int,
                        },
                    )
                }
            }),
    {
        let ghost src = self.source_text@;
        let ghost i = self.cursor as int;
        proof {
            lemma_run_while_bounds(src, i, |c: char| c != '"');
            lemma_newline_count_bound(src.subrange(i, i));
        }
        while self.peek() != '"' && !self.at_end_of_source_text()
            invariant
                self.source_text == old(self).source_text,
                self.source_text@ == src,
                self.start == old(self).start,
                self.tokens == old(self).tokens,
                self.errors == old(self).errors,
                i == old(self).cursor,
                i <= self.cursor <= src.len(),
                self.cursor + string_body_run(src, self.cursor as int) == i + string_body_run(src, i),
                self.line == old(self).line + newline_count(src.subrange(i, self.cursor as int)),
                old(self).line + breaks_from(src, i) <= i32::MAX,
            decreases src.len() - self.cursor,
        {
            proof {
                let s = src.subrange(i, self.cursor + 1);
                assert(s.drop_last() =~= src.subrange(i, self.cursor as int));
                lemma_breaks_split(src, i, self.cursor as int);
                if src[self.cursor as int] == '\n' {
                    lemma_breaks_at_newline(src, self.cursor as int);
                }
            }
            if self.peek() == '\n' {
                self.line = self.line + 1;
            }
            self.advance();
        }
        if self.at_end_of_source_text() {
            return false;
        }
        self.advance();
        let value = string_of_range(&self.source_text, self.start + 1, self.cursor - 1);
        self.add_token_with_literal(TokenType::STRING, Literal::Str(value));
        true
    }

    /// Consumes the rest of a number literal whose first digit has just been consumed.
    fn parse_number(&mut self)
        requires
            old(self).start + 1 == old(self).cursor <= old(self).source_text@.len(),
        ensures
            final(self).source_text == old(self).source_text,
            final(self).start == old(self).start,
            final(self).line == old(self).line,
            final(self).errors == old(self).errors,
            final(self).cursor == number_end(old(self).source_text@, old(self).cursor as int),
            token_views(final(self).tokens@) == token_views(old(self).tokens@).push(
                TokenView {
                    token_type: TokenType::NUMBER,
                    lexeme: old(self).source_text@.subrange(old(self).start as int, final(self).cursor as int),
                    literal: LiteralView::Number(
                        old(self).source_text@.subrange(old(self).start as int, final(self).cursor as int),
                    ),
                    line: old(self).line as int,
                },
            ),
    {
        let ghost src = self.source_text@;
        let ghost i = self.cursor as int;
        while is_digit(self.peek())
            invariant
                self.source_text == old(self).source_text,
                self.source_text@ == src,
                self.start == old(self).start,
                self.line == old(self).line,
                self.tokens == old(self).tokens,
                self.errors == old(self).errors,
                i <= self.cursor <= src.len(),
                self.cursor + digit_run(src, self.cursor as int) == i + digit_run(src, i),
            decreases src.len() - self.cursor,
        {
            self.advance();
        }
        let ghost a = self.cursor as int;
        assert(a == i + digit_run(src, i));
        if self.peek() == '.' && is_digit(self.peek_next()) {
            self.advance();
            let ghost b = self.cursor as int;
            while is_digit(self.peek())
                invariant
                    self.source_text == old(self).source_text,
                    self.source_text@ == src,
                    self.start == old(self).start,
                    self.line == old(self).line,
                    self.tokens == old(self).tokens,
                    self.errors == old(self).errors,
                    b <= self.cursor <= src.len(),
                    self.cursor + digit_run(src, self.cursor as int) == b + digit_run(src, b),
                decreases src.len() - self.cursor,
            {
                self.advance();
            }
        }
        let number = string_of_range(&self.source_text, self.start, self.cursor);
        self.add_token_with_literal(TokenType::NUMBER, Literal::Number(number));
    }

    /// Consumes the rest of an identifier or keyword whose first character has just been consumed.
    fn parse_identifier(&mut self)
        requires
            old(self).start + 1 == old(self).cursor <= old(self).source_text@.len(),
        ensures
            final(self).source_text == old(self).source_text,
            final(self).start == old(self).start,
            final(self).line == old(self).line,
            final(self).errors == old(self).errors,
            final(self).cursor == old(self).cursor + alphanumeric_run(old(self).source_text@, old(self).cursor as int),
            token_views(final(self).tokens@) == token_views(old(self).tokens@).push(
                TokenView {
                    token_type: word_type(old(self).source_text@.subrange(old(self).start as int, final(self).cursor as int)),
                    lexeme: old(self).source_text@.subrange(old(self).start as int, final(self).cursor as int),
                    literal: LiteralView::Nil,
                    line: old(self).line as int,
                },
            ),
    {
        let ghost src = self.source_text@;
        let ghost i = self.cursor as int;
        while is_alphanumeric(self.peek())
            invariant
                self.source_text == old(self).source_text,
                self.source_text@ == src,
                self.start == old(self).start,
                self.line == old(self).line,
                self.tokens == old(self).tokens,
                self.errors == old(self).errors,
                i <= self.cursor <= src.len(),
                self.cursor + alphanumeric_run(src, self.cursor as int) == i + alphanumeric_run(src, i),
            decreases src.len() - self.cursor,
        {
            self.advance();
        }
        let token_type = reserved_word_type(&self.source_text, self.start, self.cursor);
        self.add_token(token_type);
    }

    fn add_token(&mut self, token_type: TokenType)
        requires
            old(self).start <= old(self).cursor <= old(self).source_text@.len(),
        ensures
            final(self).source_text == old(self).source_text,
            final(self).start == old(self).start,
            final(self).cursor == old(self).cursor,
            final(self).line == old(self).line,
            final(self).errors == old(self).errors,
            token_views(final(self).tokens@) == token_views(old(self).tokens@).push(
                TokenView {
                    token_type,
                    lexeme: old(self).source_text@.subrange(old(self).start as int, old(self).cursor as int),
                    literal: LiteralView::Nil,
                    line: old(self).line as int,
                },
            ),
    {
        self.add_token_with_literal(token_type, Literal::Nil)
    }

    fn add_token_with_literal(&mut self, token_type: TokenType, literal: Literal)
        requires
            old(self).start <= old(self).cursor <= old(self).source_text@.len(),
        ensures
            final(self).source_text == old(self).source_text,
            final(self).start == old(self).start,
            final(self).cursor == old(self).cursor,
            final(self).line == old(self).line,
            final(self).errors == old(self).errors,
            token_views(final(self).tokens@) == token_views(old(self).tokens@).push(
                TokenView {
                    token_type,
                    lexeme: old(self).source_text@.subrange(old(self).start as int, old(self).cursor as int),
                    literal: literal@,
                    line: old(self).line as int,
                },
            ),
    {
        let text = string_of_range(&self.source_text, self.start, self.cursor);
        let token = Token::new(token_type, text.as_str(), literal, self.line);
        self.tokens.push(token);
        proof {
            assert(token_views(self.tokens@) =~= token_views(old(self).tokens@).push(token@));
        }
    }
}

/// Scans the rest of `lexer`'s text, as [`Lexer::scan_tokens`] does, and
/// hands the lexer back.
pub fn scan_tokens(lexer: Lexer) -> (scanned: Lexer)
    requires
        lexer.wf(),
        scan_completes(lexer.source(), lexer.cursor_index(), lexer.current_line()),
        lexer.current_line() + breaks_from(lexer.source(), lexer.cursor_index()) <= i32::MAX,
    ensures
        scanned.wf(),
        scanned.source() == lexer.source(),
        scanned.cursor_index() == lexer.source().len(),
        ({
            let out = scan_result(lexer.source(), lexer.cursor_index(), lexer.current_line());
            &&& scanned.recorded_tokens() == lexer.recorded_tokens() + out.tokens
            &&& scanned.recorded_errors() == lexer.recorded_errors() + out.errors
            &&& scanned.current_line() == out.line
        }),
{
    let mut lexer = lexer;
    lexer.scan_tokens();
    lexer
}

} // verus!
