use vstd::prelude::*;

use crate::text::{push_char, push_str};

verus! {

/// The kinds of token the scanner produces.
#[allow(non_camel_case_types)]
#[derive(Clone, Copy, Debug, PartialEq, Eq, Structural)]
pub enum TokenType {
    // Single-character tokens
    LEFT_PAREN,
    RIGHT_PAREN,
    LEFT_BRACE,
    RIGHT_BRACE,
    COMMA,
    DOT,
    MINUS,
    PLUS,
    SEMICOLON,
    SLASH,
    STAR,
    // One or two character tokens
    BANG,
    BANG_EQUAL,
    EQUAL,
    EQUAL_EQUAL,
    GREATER,
    GREATER_EQUAL,
    LESS,
    LESS_EQUAL,
    // Literals
    IDENTIFIER,
    STRING,
    NUMBER,
    // Keywords
    AND,
    CLASS,
    ELSE,
    FALSE,
    FUN,
    FOR,
    IF,
    NIL,
    OR,
    PRINT,
    RETURN,
    SUPER,
    THIS,
    TRUE,
    VAR,
    WHILE,
    EOF,
}

/// The name of a token type, as `{:?}` writes it.
pub open spec fn type_name_of(t: TokenType) -> Seq<char> {
    match t {
        TokenType::LEFT_PAREN => "LEFT_PAREN"@,
        TokenType::RIGHT_PAREN => "RIGHT_PAREN"@,
        TokenType::LEFT_BRACE => "LEFT_BRACE"@,
        TokenType::RIGHT_BRACE => "RIGHT_BRACE"@,
        TokenType::COMMA => "COMMA"@,
        TokenType::DOT => "DOT"@,
        TokenType::MINUS => "MINUS"@,
        TokenType::PLUS => "PLUS"@,
        TokenType::SEMICOLON => "SEMICOLON"@,
        TokenType::SLASH => "SLASH"@,
        TokenType::STAR => "STAR"@,
        TokenType::BANG => "BANG"@,
        TokenType::BANG_EQUAL => "BANG_EQUAL"@,
        TokenType::EQUAL => "EQUAL"@,
        TokenType::EQUAL_EQUAL => "EQUAL_EQUAL"@,
        TokenType::GREATER => "GREATER"@,
        TokenType::GREATER_EQUAL => "GREATER_EQUAL"@,
        TokenType::LESS => "LESS"@,
        TokenType::LESS_EQUAL => "LESS_EQUAL"@,
        TokenType::IDENTIFIER => "IDENTIFIER"@,
        TokenType::STRING => "STRING"@,
        TokenType::NUMBER => "NUMBER"@,
        TokenType::AND => "AND"@,
        TokenType::CLASS => "CLASS"@,
        TokenType::ELSE => "ELSE"@,
        TokenType::FALSE => "FALSE"@,
        TokenType::FUN => "FUN"@,
        TokenType::FOR => "FOR"@,
        TokenType::IF => "IF"@,
        TokenType::NIL => "NIL"@,
        TokenType::OR => "OR"@,
        TokenType::PRINT => "PRINT"@,
        TokenType::RETURN => "RETURN"@,
        TokenType::SUPER => "SUPER"@,
        TokenType::THIS => "THIS"@,
        TokenType::TRUE => "TRUE"@,
        TokenType::VAR => "VAR"@,
        TokenType::WHILE => "WHILE"@,
        TokenType::EOF => "EOF"@,
    }
}

impl TokenType {
    /// The variant's name, e.g. `"LEFT_PAREN"`.
    pub fn name(&self) -> (s: &'static str)
        ensures
            s@ == type_name_of(*self),
    {
        match self {
            TokenType::LEFT_PAREN => "LEFT_PAREN",
            TokenType::RIGHT_PAREN => "RIGHT_PAREN",
            TokenType::LEFT_BRACE => "LEFT_BRACE",
            TokenType::RIGHT_BRACE => "RIGHT_BRACE",
            TokenType::COMMA => "COMMA",
            TokenType::DOT => "DOT",
            TokenType::MINUS => "MINUS",
            TokenType::PLUS => "PLUS",
            TokenType::SEMICOLON => "SEMICOLON",
            TokenType::SLASH => "SLASH",
            TokenType::STAR => "STAR",
            TokenType::BANG => "BANG",
            TokenType::BANG_EQUAL => "BANG_EQUAL",
            TokenType::EQUAL => "EQUAL",
            TokenType::EQUAL_EQUAL => "EQUAL_EQUAL",
            TokenType::GREATER => "GREATER",
            TokenType::GREATER_EQUAL => "GREATER_EQUAL",
            TokenType::LESS => "LESS",
            TokenType::LESS_EQUAL => "LESS_EQUAL",
            TokenType::IDENTIFIER => "IDENTIFIER",
            TokenType::STRING => "STRING",
            TokenType::NUMBER => "NUMBER",
            TokenType::AND => "AND",
            TokenType::CLASS => "CLASS",
            TokenType::ELSE => "ELSE",
            TokenType::FALSE => "FALSE",
            TokenType::FUN => "FUN",
            TokenType::FOR => "FOR",
            TokenType::IF => "IF",
            TokenType::NIL => "NIL",
            TokenType::OR => "OR",
            TokenType::PRINT => "PRINT",
            TokenType::RETURN => "RETURN",
            TokenType::SUPER => "SUPER",
            TokenType::THIS => "THIS",
            TokenType::TRUE => "TRUE",
            TokenType::VAR => "VAR",
            TokenType::WHILE => "WHILE",
            TokenType::EOF => "EOF",
        }
    }
}

/// The value a literal token carries.
///
/// A number literal holds the numeral exactly as it was written in the
/// source (digits, optionally followed by `.` and more digits); turning it
/// into a machine number is left to the caller.
#[derive(Debug)]
pub enum Literal {
    Nil,
    Bool(bool),
    Number(String),
    Str(String),
}

/// The mathematical model of a [`Literal`].
pub enum LiteralView {
    Nil,
    Bool(bool),
    Number(Seq<char>),
    Str(Seq<char>),
}

impl View for Literal {
    type V = LiteralView;

    open spec fn view(&self) -> LiteralView {
        match self {
            Literal::Nil => LiteralView::Nil,
            Literal::Bool(b) => LiteralView::Bool(*b),
            Literal::Number(n) => LiteralView::Number(n@),
            Literal::Str(s) => LiteralView::Str(s@),
        }
    }
}

impl Clone for Literal {
    fn clone(&self) -> (r: Self)
        ensures
            r == *self,
    {
        match self {
            Literal::Nil => Literal::Nil,
            Literal::Bool(b) => Literal::Bool(*b),
            Literal::Number(n) => Literal::Number(n.clone()),
            Literal::Str(s) => Literal::Str(s.clone()),
        }
    }
}

/// A lexeme of the source text together with what the scanner learnt of it.
#[derive(Debug)]
pub struct Token {
    pub token_type: TokenType,
    pub lexeme: String,
    pub literal: Literal,
    pub line: i32,
}

/// The mathematical model of a [`Token`].
pub struct TokenView {
    pub token_type: TokenType,
    pub lexeme: Seq<char>,
    pub literal: LiteralView,
    pub line: int,
}

impl View for Token {
    type V = TokenView;

    open spec fn view(&self) -> TokenView {
        TokenView {
            token_type: self.token_type,
            lexeme: self.lexeme@,
            literal: self.literal@,
            line: self.line as int,
        }
    }
}

impl Clone for Token {
    fn clone(&self) -> (r: Self)
        ensures
            r == *self,
    {
        Token {
            token_type: self.token_type,
            lexeme: self.lexeme.clone(),
            literal: self.literal.clone(),
            line: self.line,
        }
    }
}


/// The lowercase hexadecimal digit for `d`, which is below 16.
pub open spec fn hex_digit_of(d: int) -> char {
    if d < 10 {
        ('0' as int + d) as char
    } else {
        ('a' as int + (d - 10)) as char
    }
}

/// `n` (below 256) in lowercase hexadecimal, without leading zeros.
pub open spec fn hex_of(n: int) -> Seq<char> {
    if n < 16 {
        seq![hex_digit_of(n)]
    } else {
        seq![hex_digit_of(n / 16), hex_digit_of(n % 16)]
    }
}

/// Whether `c` is an ASCII control character (`\0` to `\x1f`, or DEL).
pub open spec fn is_ascii_control(c: char) -> bool {
    (c as int) < 0x20 || (c as int) == 0x7f
}

/// The characters that Rust's `char::escape_debug` yields for `c`.
pub uninterp spec fn char_escape_debug(c: char) -> Seq<char>;

/// Trusted: calls `char::escape_debug`, which std documents as yielding the
/// escape sequence `{:?}` uses for the character (the character itself where
/// it is printable). The contract only names the result; what it holds for a
/// given character rests on std's Unicode tables and is not stated here.
#[verifier::external_body]
fn escape_debug_char(c: char) -> (s: String)
    ensures
        s@ == char_escape_debug(c),
{
    c.escape_debug().to_string()
}

/// How one character of a string appears inside double quotes when the
/// string is written as Rust's `{:?}` writes it.
///
/// ASCII characters are escaped here; a character beyond ASCII is written as
/// `char::escape_debug` writes it, which is how `{:?}` writes it inside a
/// string (the two differ only on the single quote, which is ASCII).
pub open spec fn escaped_char(c: char) -> Seq<char> {
    if c == '\0' {
        "\\0"@
    } else if c == '\t' {
        "\\t"@
    } else if c == '\r' {
        "\\r"@
    } else if c == '\n' {
        "\\n"@
    } else if c == '\\' {
        "\\\\"@
    } else if c == '"' {
        "\\\""@
    } else if is_ascii_control(c) {
        "\\u{"@ + hex_of(c as int) + "}"@
    } else if c <= '\u{7f}' {
        seq![c]
    } else {
        char_escape_debug(c)
    }
}

/// The characters of `s`, each escaped by [`escaped_char`].
pub open spec fn escaped_text(s: Seq<char>) -> Seq<char>
    decreases s.len(),
{
    if s.len() == 0 {
        Seq::empty()
    } else {
        escaped_text(s.drop_last()) + escaped_char(s.last())
    }
}

/// How a literal is written, in the form `{:?}` gives an enum:
/// `Nil`, `Bool(true)`, `Number(12.5)`, `Str("text")`.
/// A number is written as its numeral.
pub open spec fn literal_text(l: LiteralView) -> Seq<char> {
    match l {
        LiteralView::Nil => "Nil"@,
        LiteralView::Bool(b) => "Bool("@ + (if b { "true"@ } else { "false"@ }) + ")"@,
        LiteralView::Number(n) => "Number("@ + n + ")"@,
        LiteralView::Str(s) => "Str(\""@ + escaped_text(s) + "\")"@,
    }
}

/// The value of one lowercase hexadecimal digit.
pub open spec fn hex_digit_value(c: char) -> int {
    if '0' <= c <= '9' {
        c as int - '0' as int
    } else {
        c as int - 'a' as int + 10
    }
}

/// Whether `c` is a lowercase hexadecimal digit.
pub open spec fn is_lower_hex_digit(c: char) -> bool {
    ('0' <= c <= '9') || ('a' <= c <= 'f')
}

/// The number a string of hexadecimal digits stands for.
pub open spec fn hex_value(s: Seq<char>) -> int
    decreases s.len(),
{
    if s.len() == 0 {
        0
    } else {
        hex_value(s.drop_last()) * 16 + hex_digit_value(s.last())
    }
}

/// `hex_digit_of(d)` is the lowercase hexadecimal digit of `d`.
proof fn lemma_hex_digit_of(d: int)
    requires
        0 <= d < 16,
    ensures
        is_lower_hex_digit(hex_digit_of(d)),
        hex_digit_value(hex_digit_of(d)) == d,
{
}

/// An ASCII control character other than `\0`, tab, line feed and carriage
/// return is written as `\u{..}` with its code in lowercase hexadecimal,
/// without leading zeros.
pub proof fn lemma_control_escape(c: char)
    requires
        (c as int) < 0x20 || (c as int) == 0x7f,
        c != '\0',
        c != '\t',
        c != '\n',
        c != '\r',
    ensures
        exists|h: Seq<char>|
            {
                &&& escaped_char(c) == "\\u{"@ + h + "}"@
                &&& 1 <= h.len() <= 2
                &&& forall|k: int| 0 <= k < h.len() ==> is_lower_hex_digit(#[trigger] h[k])
                &&& h[0] != '0'
                &&& hex_value(h) == c as int
            },
{
    let n = c as int;
    let h = hex_of(n);
    if n < 16 {
        lemma_hex_digit_of(n);
        assert(h.drop_last() =~= Seq::<char>::empty());
        assert(hex_value(h) == hex_value(h.drop_last()) * 16 + hex_digit_value(h.last()));
    } else {
        lemma_hex_digit_of(n / 16);
        lemma_hex_digit_of(n % 16);
        assert(h.drop_last() =~= seq![hex_digit_of(n / 16)]);
        assert(seq![hex_digit_of(n / 16)].drop_last() =~= Seq::<char>::empty());
        assert(hex_value(seq![hex_digit_of(n / 16)]) == hex_value(Seq::<char>::empty()) * 16 + hex_digit_value(
            hex_digit_of(n / 16),
        ));
        assert(hex_value(h) == hex_value(h.drop_last()) * 16 + hex_digit_value(h.last()));
        assert((n / 16) * 16 + n % 16 == n) by (nonlinear_arith);
    }
    assert(escaped_char(c) == "\\u{"@ + h + "}"@);
}

/// The characters `{:?}` writes with a backslash and a letter or symbol:
/// `\0`, tab, carriage return, line feed, the backslash and the double
/// quote.
pub proof fn lemma_backslash_escapes()
    ensures
        escaped_char('\0') == seq!['\\', '0'],
        escaped_char('\t') == seq!['\\', 't'],
        escaped_char('\r') == seq!['\\', 'r'],
        escaped_char('\n') == seq!['\\', 'n'],
        escaped_char('\\') == seq!['\\', '\\'],
        escaped_char('"') == seq!['\\', '"'],
{
    reveal_strlit("\\0");
    reveal_strlit("\\t");
    reveal_strlit("\\r");
    reveal_strlit("\\n");
    reveal_strlit("\\\\");
    reveal_strlit("\\\"");
    assert("\\0"@ =~= seq!['\\', '0']);
    assert("\\t"@ =~= seq!['\\', 't']);
    assert("\\r"@ =~= seq!['\\', 'r']);
    assert("\\n"@ =~= seq!['\\', 'n']);
    assert("\\\\"@ =~= seq!['\\', '\\']);
    assert("\\\""@ =~= seq!['\\', '"']);
}

/// A printable ASCII character (space to `~`) other than `"` and `\` stands
/// for itself inside a string written as `{:?}` writes it.
pub proof fn lemma_printable_ascii_unescaped(c: char)
    requires
        ' ' <= c <= '~',
        c != '"',
        c != '\\',
    ensures
        escaped_char(c) == seq![c],
{
}

/// Escaping a text escapes each part of it: the escaped text of `a + b` is
/// the escaped text of `a` followed by that of `b`.
pub proof fn lemma_escaped_text_concat(a: Seq<char>, b: Seq<char>)
    ensures
        escaped_text(a + b) == escaped_text(a) + escaped_text(b),
    decreases b.len(),
{
    if b.len() == 0 {
        assert(a + b =~= a);
        assert(escaped_text(b) =~= Seq::<char>::empty());
        assert(escaped_text(a) + escaped_text(b) =~= escaped_text(a));
    } else {
        lemma_escaped_text_concat(a, b.drop_last());
        assert((a + b).drop_last() =~= a + b.drop_last());
        assert((a + b).last() == b.last());
        assert(escaped_text(a) + escaped_text(b) =~= escaped_text(a) + escaped_text(b.drop_last())
            + escaped_char(b.last()));
    }
}

/// A text of printable ASCII characters without `"` or `\` is written
/// unchanged between the quotes: a string literal holding it prints as
/// `Str("` + the text + `")`.
pub proof fn lemma_plain_text_unescaped(s: Seq<char>)
    requires
        forall|k: int| 0 <= k < s.len() ==> ' ' <= #[trigger] s[k] <= '~' && s[k] != '"' && s[k] != '\\',
    ensures
        escaped_text(s) == s,
        literal_text(LiteralView::Str(s)) == "Str(\""@ + s + "\")"@,
    decreases s.len(),
{
    if s.len() == 0 {
        assert(escaped_text(s) =~= s);
    } else {
        let init = s.drop_last();
        assert forall|k: int| 0 <= k < init.len() implies ' ' <= #[trigger] init[k] <= '~' && init[k] != '"'
            && init[k] != '\\' by {
            assert(init[k] == s[k]);
        }
        lemma_plain_text_unescaped(init);
        lemma_printable_ascii_unescaped(s.last());
        assert(init.push(s.last()) =~= s);
        assert(escaped_text(s) =~= s);
    }
}

/// The textual form of a token: its type's name, its lexeme and its literal,
/// separated by single spaces.
pub open spec fn token_text(t: TokenView) -> Seq<char> {
    type_name_of(t.token_type) + " "@ + t.lexeme + " "@ + literal_text(t.literal)
}

pub(crate) fn hex_digit(d: u32) -> (c: char)
    requires
        d < 16,
    ensures
        c == hex_digit_of(d as int),
{
    if d < 10 {
        match d {
            0 => '0',
            1 => '1',
            2 => '2',
            3 => '3',
            4 => '4',
            5 => '5',
            6 => '6',
            7 => '7',
            8 => '8',
            _ => '9',
        }
    } else {
        match d {
            10 => 'a',
            11 => 'b',
            12 => 'c',
            13 => 'd',
            14 => 'e',
            _ => 'f',
        }
    }
}

fn push_escaped_char(out: &mut String, c: char)
    ensures
        final(out)@ == old(out)@ + escaped_char(c),
{
    if c == '\0' {
        push_str(out, "\\0");
    } else if c == '\t' {
        push_str(out, "\\t");
    } else if c == '\r' {
        push_str(out, "\\r");
    } else if c == '\n' {
        push_str(out, "\\n");
    } else if c == '\\' {
        push_str(out, "\\\\");
    } else if c == '"' {
        push_str(out, "\\\"");
    } else if (c as u32) < 0x20 || (c as u32) == 0x7f {
        push_str(out, "\\u{");
        let n = c as u32;
        if n < 16 {
            push_char(out, hex_digit(n));
        } else {
            push_char(out, hex_digit(n / 16));
            push_char(out, hex_digit(n % 16));
        }
        push_str(out, "}");
    } else if c <= '\u{7f}' {
        push_char(out, c);
    } else {
        let escaped = escape_debug_char(c);
        push_str(out, escaped.as_str());
    }
}

fn push_escaped_text(out: &mut String, text: &str)
    ensures
        final(out)@ == old(out)@ + escaped_text(text@),
{
    let ghost before = out@;
    let ghost mut seen: Seq<char> = Seq::empty();
    for c in it: text.chars()
        invariant
            seen == it.seq().take(it.index() as int),
            out@ == before + escaped_text(seen),
    {
        proof {
            assert(seen.push(c).drop_last() =~= seen);
            seen = seen.push(c);
        }
        push_escaped_char(out, c);
    }
    assert(seen =~= text@);
}

impl Literal {
    /// The literal written as `{:?}` writes an enum, e.g. `Str("a")`.
    pub fn debug_string(&self) -> (s: String)
        ensures
            s@ == literal_text(self@),
    {
        let mut out = String::new();
        match self {
            Literal::Nil => push_str(&mut out, "Nil"),
            Literal::Bool(b) => {
                push_str(&mut out, "Bool(");
                if *b {
                    push_str(&mut out, "true");
                } else {
                    push_str(&mut out, "false");
                }
                push_str(&mut out, ")");
            },
            Literal::Number(n) => {
                push_str(&mut out, "Number(");
                push_str(&mut out, n.as_str());
                push_str(&mut out, ")");
            },
            Literal::Str(s) => {
                push_str(&mut out, "Str(\"");
                push_escaped_text(&mut out, s.as_str());
                push_str(&mut out, "\")");
            },
        }
        out
    }
}

impl Token {
    pub fn new(token_type: TokenType, lexeme: &str, literal: Literal, line: i32) -> (t: Token)
        ensures
            t.token_type == token_type,
            t.lexeme@ == lexeme@,
            t.literal == literal,
            t.line == line,
    {
        Token { token_type, lexeme: lexeme.to_owned(), literal, line }
    }

    /// The token's type, lexeme and literal, separated by spaces.
    pub fn to_string(&self) -> (s: String)
        ensures
            s@ == token_text(self@),
    {
        let mut out = String::new();
        push_str(&mut out, self.token_type.name());
        push_str(&mut out, " ");
        push_str(&mut out, self.lexeme.as_str());
        push_str(&mut out, " ");
        let lit = self.literal.debug_string();
        push_str(&mut out, lit.as_str());
        out
    }
}

} // verus!
