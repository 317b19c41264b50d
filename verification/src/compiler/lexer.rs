//! The EROX tokenizer: a stateful scanner with a normal mode and a string mode
//! (for `"..."` literals with `${...}` interpolation), tracking line and column.
//!
//! Number literals are kept as the text of their digits and dots; the runtime
//! turns that text into a number.
use vstd::prelude::*;
use crate::text::{
    is_alphabetic, is_alphanumeric, is_numeric, is_whitespace, nth_line, nth_line_spec, push_char,
    spec_is_alphabetic, spec_is_numeric, spec_is_whitespace, str_eq, string_from_range, to_chars,
};

verus! {

/// A token of EROX source.
#[derive(Debug, Clone, PartialEq, Eq)]
pub enum Token {
    // Keywords
    Let, Const, Fn, If, Else, Return, Async, Await, Import, From, While, For,
    Try, Catch,
    // Literals
    Identifier(String),
    /// The literal's text: digits and dots, as written.
    Number(String),
    String(String),
    True, False, NullLiteral,
    // Operators
    Assign, Plus, Minus, Star, Slash, Modulo,
    Bang, Equal, NotEqual, GT, LT, GTE, LTE, Arrow,
    PlusPlus, MinusMinus,
    // Delimiters
    LParen, RParen, LBrace, RBrace, LBracket, RBracket,
    Semicolon, Comma, Colon, Dot,
    // Special
    Dollar,
    InterpolationStart,
    EOF,
}

/// The mathematical value of a token: its text payload as a character sequence.
pub enum SpecToken {
    /// A token without a payload.
    Plain(Token),
    Ident(Seq<char>),
    Num(Seq<char>),
    Str(Seq<char>),
}

impl View for Token {
    type V = SpecToken;

    open spec fn view(&self) -> SpecToken {
        match self {
            Token::Identifier(s) => SpecToken::Ident(s@),
            Token::Number(s) => SpecToken::Num(s@),
            Token::String(s) => SpecToken::Str(s@),
            _ => SpecToken::Plain(*self),
        }
    }
}

/// The keyword token spelled by `s`, or an identifier token.
pub open spec fn spec_lookup_identifier(s: Seq<char>) -> SpecToken {
    if s == "fn"@ { SpecToken::Plain(Token::Fn) }
    else if s == "let"@ { SpecToken::Plain(Token::Let) }
    else if s == "const"@ { SpecToken::Plain(Token::Const) }
    else if s == "true"@ { SpecToken::Plain(Token::True) }
    else if s == "false"@ { SpecToken::Plain(Token::False) }
    else if s == "null"@ { SpecToken::Plain(Token::NullLiteral) }
    else if s == "if"@ { SpecToken::Plain(Token::If) }
    else if s == "else"@ { SpecToken::Plain(Token::Else) }
    else if s == "return"@ { SpecToken::Plain(Token::Return) }
    else if s == "async"@ { SpecToken::Plain(Token::Async) }
    else if s == "await"@ { SpecToken::Plain(Token::Await) }
    else if s == "while"@ { SpecToken::Plain(Token::While) }
    else if s == "for"@ { SpecToken::Plain(Token::For) }
    else if s == "import"@ { SpecToken::Plain(Token::Import) }
    else if s == "from"@ { SpecToken::Plain(Token::From) }
    else if s == "try"@ { SpecToken::Plain(Token::Try) }
    else if s == "catch"@ { SpecToken::Plain(Token::Catch) }
    else { SpecToken::Ident(s) }
}

impl Token {
    /// The keyword token for a reserved word, otherwise an identifier token.
    pub fn lookup_identifier(ident: &str) -> (t: Token)
        ensures
            t@ == spec_lookup_identifier(ident@),
    {
        if str_eq(ident, "fn") { Token::Fn }
        else if str_eq(ident, "let") { Token::Let }
        else if str_eq(ident, "const") { Token::Const }
        else if str_eq(ident, "true") { Token::True }
        else if str_eq(ident, "false") { Token::False }
        else if str_eq(ident, "null") { Token::NullLiteral }
        else if str_eq(ident, "if") { Token::If }
        else if str_eq(ident, "else") { Token::Else }
        else if str_eq(ident, "return") { Token::Return }
        else if str_eq(ident, "async") { Token::Async }
        else if str_eq(ident, "await") { Token::Await }
        else if str_eq(ident, "while") { Token::While }
        else if str_eq(ident, "for") { Token::For }
        else if str_eq(ident, "import") { Token::Import }
        else if str_eq(ident, "from") { Token::From }
        else if str_eq(ident, "try") { Token::Try }
        else if str_eq(ident, "catch") { Token::Catch }
        else { Token::Identifier(String::from_str(ident)) }
    }
}

/// The variant of a token, as a number.
pub open spec fn token_kind(t: Token) -> u8 {
    match t {
        Token::Let => 0,
        Token::Const => 1,
        Token::Fn => 2,
        Token::If => 3,
        Token::Else => 4,
        Token::Return => 5,
        Token::Async => 6,
        Token::Await => 7,
        Token::Import => 8,
        Token::From => 9,
        Token::While => 10,
        Token::For => 11,
        Token::Try => 12,
        Token::Catch => 13,
        Token::Identifier(_) => 14,
        Token::Number(_) => 15,
        Token::String(_) => 16,
        Token::True => 17,
        Token::False => 18,
        Token::NullLiteral => 19,
        Token::Assign => 20,
        Token::Plus => 21,
        Token::Minus => 22,
        Token::Star => 23,
        Token::Slash => 24,
        Token::Modulo => 25,
        Token::Bang => 26,
        Token::Equal => 27,
        Token::NotEqual => 28,
        Token::GT => 29,
        Token::LT => 30,
        Token::GTE => 31,
        Token::LTE => 32,
        Token::Arrow => 33,
        Token::PlusPlus => 34,
        Token::MinusMinus => 35,
        Token::LParen => 36,
        Token::RParen => 37,
        Token::LBrace => 38,
        Token::RBrace => 39,
        Token::LBracket => 40,
        Token::RBracket => 41,
        Token::Semicolon => 42,
        Token::Comma => 43,
        Token::Colon => 44,
        Token::Dot => 45,
        Token::Dollar => 46,
        Token::InterpolationStart => 47,
        Token::EOF => 48,
    }
}

/// Tokens of the same kind are the same variant; without a payload, equal.
pub proof fn lemma_token_kind(a: Token, b: Token)
    requires
        token_kind(a) == token_kind(b),
    ensures
        a is Identifier ==> b is Identifier,
        a is Number ==> b is Number,
        a is String ==> b is String,
        !(a is Identifier || a is Number || a is String) ==> a == b,
{
    match a {
        Token::Let => { assert(b == Token::Let); },
        Token::Const => { assert(b == Token::Const); },
        Token::Fn => { assert(b == Token::Fn); },
        Token::If => { assert(b == Token::If); },
        Token::Else => { assert(b == Token::Else); },
        Token::Return => { assert(b == Token::Return); },
        Token::Async => { assert(b == Token::Async); },
        Token::Await => { assert(b == Token::Await); },
        Token::Import => { assert(b == Token::Import); },
        Token::From => { assert(b == Token::From); },
        Token::While => { assert(b == Token::While); },
        Token::For => { assert(b == Token::For); },
        Token::Try => { assert(b == Token::Try); },
        Token::Catch => { assert(b == Token::Catch); },
        Token::Identifier(_) => { assert(b is Identifier); },
        Token::Number(_) => { assert(b is Number); },
        Token::String(_) => { assert(b is String); },
        Token::True => { assert(b == Token::True); },
        Token::False => { assert(b == Token::False); },
        Token::NullLiteral => { assert(b == Token::NullLiteral); },
        Token::Assign => { assert(b == Token::Assign); },
        Token::Plus => { assert(b == Token::Plus); },
        Token::Minus => { assert(b == Token::Minus); },
        Token::Star => { assert(b == Token::Star); },
        Token::Slash => { assert(b == Token::Slash); },
        Token::Modulo => { assert(b == Token::Modulo); },
        Token::Bang => { assert(b == Token::Bang); },
        Token::Equal => { assert(b == Token::Equal); },
        Token::NotEqual => { assert(b == Token::NotEqual); },
        Token::GT => { assert(b == Token::GT); },
        Token::LT => { assert(b == Token::LT); },
        Token::GTE => { assert(b == Token::GTE); },
        Token::LTE => { assert(b == Token::LTE); },
        Token::Arrow => { assert(b == Token::Arrow); },
        Token::PlusPlus => { assert(b == Token::PlusPlus); },
        Token::MinusMinus => { assert(b == Token::MinusMinus); },
        Token::LParen => { assert(b == Token::LParen); },
        Token::RParen => { assert(b == Token::RParen); },
        Token::LBrace => { assert(b == Token::LBrace); },
        Token::RBrace => { assert(b == Token::RBrace); },
        Token::LBracket => { assert(b == Token::LBracket); },
        Token::RBracket => { assert(b == Token::RBracket); },
        Token::Semicolon => { assert(b == Token::Semicolon); },
        Token::Comma => { assert(b == Token::Comma); },
        Token::Colon => { assert(b == Token::Colon); },
        Token::Dot => { assert(b == Token::Dot); },
        Token::Dollar => { assert(b == Token::Dollar); },
        Token::InterpolationStart => { assert(b == Token::InterpolationStart); },
        Token::EOF => { assert(b == Token::EOF); },
    }
}

impl Token {
    /// The variant of this token, as a number.
    pub fn kind(&self) -> (k: u8)
        ensures
            k == token_kind(*self),
    {
        match self {
            Token::Let => 0,
            Token::Const => 1,
            Token::Fn => 2,
            Token::If => 3,
            Token::Else => 4,
            Token::Return => 5,
            Token::Async => 6,
            Token::Await => 7,
            Token::Import => 8,
            Token::From => 9,
            Token::While => 10,
            Token::For => 11,
            Token::Try => 12,
            Token::Catch => 13,
            Token::Identifier(_) => 14,
            Token::Number(_) => 15,
            Token::String(_) => 16,
            Token::True => 17,
            Token::False => 18,
            Token::NullLiteral => 19,
            Token::Assign => 20,
            Token::Plus => 21,
            Token::Minus => 22,
            Token::Star => 23,
            Token::Slash => 24,
            Token::Modulo => 25,
            Token::Bang => 26,
            Token::Equal => 27,
            Token::NotEqual => 28,
            Token::GT => 29,
            Token::LT => 30,
            Token::GTE => 31,
            Token::LTE => 32,
            Token::Arrow => 33,
            Token::PlusPlus => 34,
            Token::MinusMinus => 35,
            Token::LParen => 36,
            Token::RParen => 37,
            Token::LBrace => 38,
            Token::RBrace => 39,
            Token::LBracket => 40,
            Token::RBracket => 41,
            Token::Semicolon => 42,
            Token::Comma => 43,
            Token::Colon => 44,
            Token::Dot => 45,
            Token::Dollar => 46,
            Token::InterpolationStart => 47,
            Token::EOF => 48,
        }
    }

    /// A copy of this token.
    pub fn duplicate(&self) -> (t: Token)
        ensures
            t@ == self@,
            t == *self,
    {
        match self {
            Token::Let => Token::Let,
            Token::Const => Token::Const,
            Token::Fn => Token::Fn,
            Token::If => Token::If,
            Token::Else => Token::Else,
            Token::Return => Token::Return,
            Token::Async => Token::Async,
            Token::Await => Token::Await,
            Token::Import => Token::Import,
            Token::From => Token::From,
            Token::While => Token::While,
            Token::For => Token::For,
            Token::Try => Token::Try,
            Token::Catch => Token::Catch,
            Token::Identifier(s) => Token::Identifier(s.clone()),
            Token::Number(s) => Token::Number(s.clone()),
            Token::String(s) => Token::String(s.clone()),
            Token::True => Token::True,
            Token::False => Token::False,
            Token::NullLiteral => Token::NullLiteral,
            Token::Assign => Token::Assign,
            Token::Plus => Token::Plus,
            Token::Minus => Token::Minus,
            Token::Star => Token::Star,
            Token::Slash => Token::Slash,
            Token::Modulo => Token::Modulo,
            Token::Bang => Token::Bang,
            Token::Equal => Token::Equal,
            Token::NotEqual => Token::NotEqual,
            Token::GT => Token::GT,
            Token::LT => Token::LT,
            Token::GTE => Token::GTE,
            Token::LTE => Token::LTE,
            Token::Arrow => Token::Arrow,
            Token::PlusPlus => Token::PlusPlus,
            Token::MinusMinus => Token::MinusMinus,
            Token::LParen => Token::LParen,
            Token::RParen => Token::RParen,
            Token::LBrace => Token::LBrace,
            Token::RBrace => Token::RBrace,
            Token::LBracket => Token::LBracket,
            Token::RBracket => Token::RBracket,
            Token::Semicolon => Token::Semicolon,
            Token::Comma => Token::Comma,
            Token::Colon => Token::Colon,
            Token::Dot => Token::Dot,
            Token::Dollar => Token::Dollar,
            Token::InterpolationStart => Token::InterpolationStart,
            Token::EOF => Token::EOF,
        }
    }

    /// Whether two tokens are the same token (same variant and text).
    pub fn same(&self, other: &Token) -> (r: bool)
        ensures
            r == (self@ == other@),
    {
        let ks = self.kind();
        let ko = other.kind();
        if ks != ko {
            proof {
                if self@ == other@ {
                    if self is Identifier || self is Number || self is String {
                    } else {
                        assert(*self == *other);
                    }
                }
            }
            return false;
        }
        proof {
            lemma_token_kind(*self, *other);
        }
        match self {
            Token::Identifier(a) => match other {
                Token::Identifier(b) => *a == *b,
                _ => false,
            },
            Token::Number(a) => match other {
                Token::Number(b) => *a == *b,
                _ => false,
            },
            Token::String(a) => match other {
                Token::String(b) => *a == *b,
                _ => false,
            },
            _ => true,
        }
    }

    /// Whether this is the end-of-input token.
    pub fn is_eof(&self) -> (r: bool)
        ensures
            r == is_eof(self@),
    {
        match self {
            Token::EOF => true,
            _ => false,
        }
    }
}

/// Source position for diagnostic reporting.
#[derive(Debug, Clone, Copy, PartialEq, Eq, Structural)]
pub struct Span {
    pub line: usize,
    pub col: usize,
}

impl Span {
    pub fn new(line: usize, col: usize) -> (s: Self)
        ensures
            s == (Span { line, col }),
    {
        Span { line, col }
    }
}

#[derive(Debug, PartialEq, Eq, Clone, Copy, Structural)]
pub enum LexerMode {
    Normal,
    String,
}

#[derive(Clone)]
pub struct Lexer {
    input: Vec<char>,
    pub source: String,
    position: usize,
    read_position: usize,
    ch: char,
    pub mode: LexerMode,
    pub line: usize,
    pub col: usize,
    pub last_span: Span,
}

/// The state of a lexer, with its input as a character sequence.
pub struct LexState {
    pub input: Seq<char>,
    pub source: Seq<char>,
    pub position: usize,
    pub read_position: usize,
    pub ch: char,
    pub mode: LexerMode,
    pub line: usize,
    pub col: usize,
    pub last_span: Span,
}

impl View for Lexer {
    type V = LexState;

    closed spec fn view(&self) -> LexState {
        LexState {
            input: self.input@,
            source: self.source@,
            position: self.position,
            read_position: self.read_position,
            ch: self.ch,
            mode: self.mode,
            line: self.line,
            col: self.col,
            last_span: self.last_span,
        }
    }
}

/// The character at `i`, or NUL past either end.
pub open spec fn char_at(input: Seq<char>, i: int) -> char {
    if 0 <= i < input.len() { input[i] } else { '\0' }
}

/// The scanner's cursor is consistent: `ch` is the character at `position`,
/// and `read_position` is the next one (both stop at the end of the input).
pub open spec fn lex_wf(s: LexState) -> bool {
    &&& s.input.len() <= usize::MAX
    &&& s.position <= s.input.len()
    &&& s.read_position <= s.input.len()
    &&& (s.position < s.input.len() ==> s.read_position == s.position + 1)
    &&& (s.position == s.input.len() ==> s.read_position == s.input.len())
    &&& s.ch == char_at(s.input, s.position as int)
}

/// Reading moves the cursor one character forward.
pub open spec fn advances(s: LexState) -> bool {
    s.position < s.input.len() && s.read_position == s.position + 1 && s.input.len() <= usize::MAX
}

/// The character after the current one.
pub open spec fn peek(s: LexState) -> char {
    char_at(s.input, s.read_position as int)
}

/// One step of the cursor: the next character becomes current; a newline
/// starts a new line at column 0, any other character (NUL past the end too)
/// advances the column.
pub open spec fn read_char(s: LexState) -> LexState {
    let c = char_at(s.input, s.read_position as int);
    LexState {
        ch: c,
        position: if s.read_position < s.input.len() { s.read_position } else { s.input.len() as usize },
        read_position: if s.read_position < s.input.len() { (s.read_position + 1) as usize } else { s.input.len() as usize },
        line: if c == '\n' { s.line.wrapping_add(1) } else { s.line },
        col: if c == '\n' { 0 } else { s.col.wrapping_add(1) },
        ..s
    }
}

/// Records the current line and column as the start of the next token.
pub open spec fn mark_span(s: LexState) -> LexState {
    LexState { last_span: Span { line: s.line, col: s.col }, ..s }
}

/// Skips whitespace and `//` comments.
pub open spec fn skip_trivia(s: LexState) -> LexState
    decreases s.input.len() - s.position, 0int,
{
    if spec_is_whitespace(s.ch) && advances(s) {
        skip_trivia(read_char(s))
    } else if s.ch == '/' && peek(s) == '/' && advances(s) {
        skip_comment(read_char(s))
    } else {
        s
    }
}

/// Skips the rest of a `//` comment, up to its newline or the end.
pub open spec fn skip_comment(s: LexState) -> LexState
    decreases s.input.len() - s.position, 1int,
{
    if s.ch != '\n' && s.ch != '\0' && advances(s) {
        skip_comment(read_char(s))
    } else {
        skip_trivia(s)
    }
}

/// Reads past identifier characters (alphanumeric or `_`).
pub open spec fn skip_ident_chars(s: LexState) -> LexState
    decreases s.input.len() - s.position,
{
    if (spec_is_alphabetic(s.ch) || spec_is_numeric(s.ch) || s.ch == '_') && advances(s) {
        skip_ident_chars(read_char(s))
    } else {
        s
    }
}

/// Reads past number characters (numeric or `.`).
pub open spec fn skip_number_chars(s: LexState) -> LexState
    decreases s.input.len() - s.position,
{
    if (spec_is_numeric(s.ch) || s.ch == '.') && advances(s) {
        skip_number_chars(read_char(s))
    } else {
        s
    }
}

/// What an escape sequence `\c` stands for inside a string literal.
pub open spec fn escape_text(c: char) -> Seq<char> {
    if c == 'n' { seq!['\n'] }
    else if c == 't' { seq!['\t'] }
    else if c == 'r' { seq!['\r'] }
    else if c == '\\' { seq!['\\'] }
    else if c == '"' { seq!['"'] }
    else if c == '$' { seq!['$'] }
    else { seq!['\\', c] }
}

/// Scans string-literal text, `content` being what was read so far: a closing
/// quote ends the literal, `${` ends a text piece (or, right away, gives an
/// interpolation start), and the end of input gives `EOF`.
pub open spec fn scan_string_from(s: LexState, content: Seq<char>) -> (LexState, SpecToken)
    decreases s.input.len() - s.position,
{
    if s.ch == '\0' || !advances(s) {
        (s, SpecToken::Plain(Token::EOF))
    } else if s.ch == '"' {
        (read_char(LexState { mode: LexerMode::Normal, ..s }), SpecToken::Str(content))
    } else if s.ch == '$' && peek(s) == '{' {
        if content.len() > 0 {
            (s, SpecToken::Str(content))
        } else {
            (LexState { mode: LexerMode::Normal, ..read_char(read_char(s)) }, SpecToken::Plain(Token::InterpolationStart))
        }
    } else if s.ch == '\\' {
        let s1 = read_char(s);
        scan_string_from(read_char(s1), content + escape_text(s1.ch))
    } else {
        scan_string_from(read_char(s), content.push(s.ch))
    }
}

/// The string-mode token at the cursor.
pub open spec fn scan_string(s: LexState) -> (LexState, SpecToken) {
    scan_string_from(mark_span(s), seq![])
}

/// The token of a one-character operator or delimiter.
pub open spec fn single_char_token(c: char) -> Option<Token> {
    if c == '*' { Some(Token::Star) }
    else if c == '/' { Some(Token::Slash) }
    else if c == '%' { Some(Token::Modulo) }
    else if c == '(' { Some(Token::LParen) }
    else if c == ')' { Some(Token::RParen) }
    else if c == '{' { Some(Token::LBrace) }
    else if c == '}' { Some(Token::RBrace) }
    else if c == '[' { Some(Token::LBracket) }
    else if c == ']' { Some(Token::RBracket) }
    else if c == ';' { Some(Token::Semicolon) }
    else if c == ',' { Some(Token::Comma) }
    else if c == ':' { Some(Token::Colon) }
    else if c == '.' { Some(Token::Dot) }
    else if c == '$' { Some(Token::Dollar) }
    else { None }
}

/// A token that is `first` alone, or `second` when the next character is `next`.
pub open spec fn one_or_two(t: LexState, next: char, second: Token, first: Token) -> (LexState, SpecToken) {
    if peek(t) == next {
        (read_char(read_char(t)), SpecToken::Plain(second))
    } else {
        (read_char(t), SpecToken::Plain(first))
    }
}

/// The normal-mode token that starts at the cursor (whitespace and comments
/// already skipped).
pub open spec fn normal_token(t: LexState) -> (LexState, SpecToken) {
    let c = t.ch;
    if c == '=' {
        if peek(t) == '>' {
            (read_char(read_char(t)), SpecToken::Plain(Token::Arrow))
        } else {
            one_or_two(t, '=', Token::Equal, Token::Assign)
        }
    } else if c == '!' {
        one_or_two(t, '=', Token::NotEqual, Token::Bang)
    } else if c == '+' {
        one_or_two(t, '+', Token::PlusPlus, Token::Plus)
    } else if c == '-' {
        one_or_two(t, '-', Token::MinusMinus, Token::Minus)
    } else if c == '>' {
        one_or_two(t, '=', Token::GTE, Token::GT)
    } else if c == '<' {
        one_or_two(t, '=', Token::LTE, Token::LT)
    } else if single_char_token(c) is Some {
        (read_char(t), SpecToken::Plain(single_char_token(c).unwrap()))
    } else if c == '"' {
        scan_string(read_char(LexState { mode: LexerMode::String, ..t }))
    } else if c == '\0' {
        (read_char(t), SpecToken::Plain(Token::EOF))
    } else if spec_is_alphabetic(c) || c == '_' {
        let e = skip_ident_chars(t);
        (e, spec_lookup_identifier(t.input.subrange(t.position as int, e.position as int)))
    } else if spec_is_numeric(c) {
        let e = skip_number_chars(t);
        (e, SpecToken::Num(t.input.subrange(t.position as int, e.position as int)))
    } else {
        (read_char(t), SpecToken::Plain(Token::EOF))
    }
}

pub open spec fn is_eof(t: SpecToken) -> bool {
    t == SpecToken::Plain(Token::EOF)
}

/// How far the cursor may still move.
pub open spec fn remaining(s: LexState) -> int {
    s.input.len() - s.position
}

/// `b` is `a` scanned further: same input, cursor not behind, consistent.
pub open spec fn scanned_from(a: LexState, b: LexState) -> bool {
    &&& b.input == a.input
    &&& b.position >= a.position
    &&& lex_wf(b)
}

pub proof fn lemma_skip_trivia(s: LexState)
    requires
        lex_wf(s),
    ensures
        scanned_from(s, skip_trivia(s)),
    decreases s.input.len() - s.position, 0int,
{
    if spec_is_whitespace(s.ch) && advances(s) {
        lemma_skip_trivia(read_char(s));
    } else if s.ch == '/' && peek(s) == '/' && advances(s) {
        lemma_skip_comment(read_char(s));
    }
}

pub proof fn lemma_skip_comment(s: LexState)
    requires
        lex_wf(s),
    ensures
        scanned_from(s, skip_comment(s)),
    decreases s.input.len() - s.position, 1int,
{
    if s.ch != '\n' && s.ch != '\0' && advances(s) {
        lemma_skip_comment(read_char(s));
    } else {
        lemma_skip_trivia(s);
    }
}

pub proof fn lemma_skip_ident_chars(s: LexState)
    requires
        lex_wf(s),
    ensures
        scanned_from(s, skip_ident_chars(s)),
        (spec_is_alphabetic(s.ch) || spec_is_numeric(s.ch) || s.ch == '_') && advances(s)
            ==> skip_ident_chars(s).position > s.position,
    decreases s.input.len() - s.position,
{
    if (spec_is_alphabetic(s.ch) || spec_is_numeric(s.ch) || s.ch == '_') && advances(s) {
        lemma_skip_ident_chars(read_char(s));
    }
}

pub proof fn lemma_skip_number_chars(s: LexState)
    requires
        lex_wf(s),
    ensures
        scanned_from(s, skip_number_chars(s)),
        (spec_is_numeric(s.ch) || s.ch == '.') && advances(s) ==> skip_number_chars(s).position > s.position,
    decreases s.input.len() - s.position,
{
    if (spec_is_numeric(s.ch) || s.ch == '.') && advances(s) {
        lemma_skip_number_chars(read_char(s));
    }
}

pub proof fn lemma_scan_string_from(s: LexState, content: Seq<char>, p0: usize)
    requires
        lex_wf(s),
        s.position >= p0,
        content.len() > 0 ==> s.position > p0,
    ensures
        scanned_from(s, scan_string_from(s, content).0),
        !is_eof(scan_string_from(s, content).1) ==> scan_string_from(s, content).0.position > p0,
    decreases s.input.len() - s.position,
{
    if s.ch == '\0' || !advances(s) {
    } else if s.ch == '"' {
    } else if s.ch == '$' && peek(s) == '{' {
    } else if s.ch == '\\' {
        let s1 = read_char(s);
        lemma_scan_string_from(read_char(s1), content + escape_text(s1.ch), p0);
    } else {
        lemma_scan_string_from(read_char(s), content.push(s.ch), p0);
    }
}

/// Scanning a token never moves the cursor back, keeps the input, and moves
/// it forward whenever the token is not `EOF`.
pub proof fn lemma_next_token(s: LexState)
    requires
        lex_wf(s),
    ensures
        scanned_from(s, spec_next_token(s).0),
        !is_eof(spec_next_token(s).1) ==> spec_next_token(s).0.position > s.position,
{
    match s.mode {
        LexerMode::String => {
            lemma_scan_string_from(mark_span(s), seq![], s.position);
        },
        LexerMode::Normal => {
            lemma_skip_trivia(s);
            let t = mark_span(skip_trivia(s));
            let c = t.ch;
            if c == '"' {
                let u = read_char(LexState { mode: LexerMode::String, ..t });
                lemma_scan_string_from(mark_span(u), seq![], t.position);
            } else if spec_is_alphabetic(c) || c == '_' {
                lemma_skip_ident_chars(t);
            } else if spec_is_numeric(c) {
                lemma_skip_number_chars(t);
            }
        },
    }
}

/// At the end of the input, in either mode, or in normal mode where only
/// whitespace and `//` comments remain, the next token is `EOF` and the lexer
/// stays at the end, so every later token is `EOF` too.
pub proof fn law_eof_repeats(s: LexState)
    requires
        lex_wf(s),
        s.position == s.input.len() || (s.mode == LexerMode::Normal && skip_trivia(s).position == s.input.len()),
    ensures
        is_eof(spec_next_token(s).1),
        spec_next_token(s).0.input == s.input,
        spec_next_token(s).0.position == s.input.len(),
        lex_wf(spec_next_token(s).0),
{
    lemma_skip_trivia(s);
}

/// The rest of the input, from the cursor on, holds no `"` and no `${`, so
/// nothing in it can end a string or start an interpolation.
pub open spec fn nothing_ends_string(s: LexState) -> bool {
    forall|i: int| s.position <= i < s.input.len() ==>
        #[trigger] s.input[i] != '"' && !(s.input[i] == '$' && i + 1 < s.input.len() && s.input[i + 1] == '{')
}

proof fn lemma_scan_string_to_end(s: LexState, content: Seq<char>)
    requires
        lex_wf(s),
        nothing_ends_string(s),
    ensures
        is_eof(scan_string_from(s, content).1),
        scan_string_from(s, content).0.input == s.input,
        scan_string_from(s, content).0.mode == s.mode,
        scan_string_from(s, content).0.position >= s.position,
        lex_wf(scan_string_from(s, content).0),
        nothing_ends_string(scan_string_from(s, content).0),
    decreases s.input.len() - s.position,
{
    if s.position < s.input.len() {
        assert(s.ch == s.input[s.position as int]);
        if s.read_position < s.input.len() {
            assert(peek(s) == s.input[s.position + 1]);
        }
    }
    if s.ch == '\0' || !advances(s) {
    } else if s.ch == '\\' {
        let s1 = read_char(s);
        let s2 = read_char(s1);
        lemma_scan_string_to_end(s2, content + escape_text(s1.ch));
    } else {
        lemma_scan_string_to_end(read_char(s), content.push(s.ch));
    }
}

/// In string mode, where the rest of the input holds no `"` and no `${`
/// (such as whitespace and comments without them), the unfinished string
/// gives `EOF`, and the lexer stays in string mode with that still true of
/// the rest, so every later token is `EOF` too.
pub proof fn law_eof_repeats_in_string(s: LexState)
    requires
        lex_wf(s),
        s.mode == LexerMode::String,
        nothing_ends_string(s),
    ensures
        is_eof(spec_next_token(s).1),
        spec_next_token(s).0.input == s.input,
        spec_next_token(s).0.mode == LexerMode::String,
        lex_wf(spec_next_token(s).0),
        nothing_ends_string(spec_next_token(s).0),
{
    lemma_scan_string_to_end(mark_span(s), seq![]);
}

/// The cursor moved `n` characters forward.
pub open spec fn read_n(s: LexState, n: nat) -> LexState
    decreases n,
{
    if n == 0 { s } else { read_n(read_char(s), (n - 1) as nat) }
}

/// Text a string literal holds as written: no quote, backslash, `$` or NUL.
pub open spec fn plain_text(a: Seq<char>) -> bool {
    forall|i: int| 0 <= i < a.len() ==> #[trigger] a[i] != '"' && a[i] != '\\' && a[i] != '$' && a[i] != '\0'
}

/// Plain text inside a string literal is taken over character for character.
proof fn lemma_plain_run(s: LexState, content: Seq<char>, a: Seq<char>)
    requires
        lex_wf(s),
        s.position + a.len() < s.input.len(),
        plain_text(a),
        forall|i: int| 0 <= i < a.len() ==> #[trigger] s.input[s.position + i] == a[i],
    ensures
        scan_string_from(s, content) == scan_string_from(read_n(s, a.len()), content + a),
        lex_wf(read_n(s, a.len())),
        read_n(s, a.len()).position == s.position + a.len(),
        read_n(s, a.len()).input == s.input,
        read_n(s, a.len()).mode == s.mode,
    decreases a.len(),
{
    if a.len() == 0 {
        assert(content + a =~= content);
    } else {
        assert(s.input[s.position + 0] == a[0]);
        assert(s.ch == a[0]);
        let s1 = read_char(s);
        let rest = a.drop_first();
        assert forall|i: int| 0 <= i < rest.len() implies #[trigger] s1.input[s1.position + i] == rest[i] by {
            assert(s.input[s.position + (i + 1)] == a[i + 1]);
        }
        assert forall|i: int| 0 <= i < rest.len() implies #[trigger] rest[i] != '"' && rest[i] != '\\'
            && rest[i] != '$' && rest[i] != '\0' by {
            assert(a[i + 1] == rest[i]);
        }
        lemma_plain_run(s1, content.push(a[0]), rest);
        assert(content.push(a[0]) + rest =~= content + a);
        assert(read_n(s, a.len()) == read_n(s1, rest.len()));
    }
}

/// Inside a string literal, an escape stands for one character: `\n` for a
/// newline, `\t` for a tab, `\r` for a carriage return, `\\` for a
/// backslash, `\"` for a quote and `\$` for a dollar sign; the text around it
/// is taken as written. So the literal `"a\eb"` (with `a` and `b` plain) is
/// one string token of `a`, the escaped character, and `b`.
pub proof fn law_string_escapes(s: LexState, a: Seq<char>, e: char, b: Seq<char>)
    requires
        lex_wf(s),
        s.mode == LexerMode::Normal,
        s.position + a.len() + b.len() + 4 <= s.input.len(),
        s.input.subrange(s.position as int, s.position + a.len() + b.len() + 4)
            == seq!['"'] + a + seq!['\\', e] + b + seq!['"'],
        plain_text(a),
        plain_text(b),
    ensures
        e == 'n' ==> spec_next_token(s).1 == SpecToken::Str(a + seq!['\n'] + b),
        e == 't' ==> spec_next_token(s).1 == SpecToken::Str(a + seq!['\t'] + b),
        e == 'r' ==> spec_next_token(s).1 == SpecToken::Str(a + seq!['\r'] + b),
        e == '\\' ==> spec_next_token(s).1 == SpecToken::Str(a + seq!['\\'] + b),
        e == '"' ==> spec_next_token(s).1 == SpecToken::Str(a + seq!['"'] + b),
        e == '$' ==> spec_next_token(s).1 == SpecToken::Str(a + seq!['$'] + b),
        spec_next_token(s).0.mode == LexerMode::Normal,
{
    let p = s.position as int;
    let lit = seq!['"'] + a + seq!['\\', e] + b + seq!['"'];
    assert forall|i: int| 0 <= i < lit.len() implies #[trigger] s.input[p + i] == lit[i] by {
        assert(s.input.subrange(p, p + lit.len())[i] == lit[i]);
    }
    assert(s.input[p + 0] == lit[0]);
    assert(s.ch == '"');
    assert(!spec_is_whitespace('"')) by { reveal(spec_is_whitespace); }
    assert(skip_trivia(s) == s);
    let t = mark_span(s);
    let u = read_char(LexState { mode: LexerMode::String, ..t });
    assert(spec_next_token(s) == scan_string_from(mark_span(u), seq![]));
    let u0 = mark_span(u);
    assert forall|i: int| 0 <= i < a.len() implies #[trigger] u0.input[u0.position + i] == a[i] by {
        assert(s.input[p + (1 + i)] == lit[1 + i]);
    }
    lemma_plain_run(u0, seq![], a);
    let u1 = read_n(u0, a.len());
    assert(seq![] + a =~= a);
    let na = a.len() as int;
    let nb = b.len() as int;
    assert(s.input[p + (1 + na)] == lit[1 + na]);
    assert(s.input[p + (2 + na)] == lit[2 + na]);
    assert(u1.ch == '\\');
    let s1 = read_char(u1);
    assert(s1.ch == e);
    let u2 = read_char(s1);
    let c2 = a + escape_text(e);
    assert(scan_string_from(u1, a) == scan_string_from(u2, c2));
    assert forall|i: int| 0 <= i < b.len() implies #[trigger] u2.input[u2.position + i] == b[i] by {
        assert(s.input[p + (3 + a.len() + i)] == lit[3 + a.len() + i]);
    }
    lemma_plain_run(u2, c2, b);
    let u3 = read_n(u2, b.len());
    assert(s.input[p + (3 + na + nb)] == lit[3 + na + nb]);
    assert(u3.ch == '"');
    assert(scan_string_from(u3, c2 + b).1 == SpecToken::Str(c2 + b));
}

/// The next token and the lexer state after it.
pub open spec fn spec_next_token(s: LexState) -> (LexState, SpecToken) {
    match s.mode {
        LexerMode::String => scan_string(s),
        LexerMode::Normal => normal_token(mark_span(skip_trivia(s))),
    }
}


impl Lexer {
    /// The cursor is consistent (see `lex_wf`).
    pub open spec fn wf(&self) -> bool {
        lex_wf(self@)
    }

    /// A lexer over `input`, positioned on its first character, at line 1.
    pub fn new(input: String) -> (l: Self)
        ensures
            l.wf(),
            l@ == read_char(LexState {
                input: input@,
                source: input@,
                position: 0,
                read_position: 0,
                ch: '\0',
                mode: LexerMode::Normal,
                line: 1,
                col: 0,
                last_span: Span { line: 1, col: 0 },
            }),
    {
        let chars = to_chars(input.as_str());
        let _ = chars.len();
        let mut l = Lexer {
            input: chars,
            source: input,
            position: 0,
            read_position: 0,
            ch: '\0',
            mode: LexerMode::Normal,
            line: 1,
            col: 0,
            last_span: Span::new(1, 0),
        };
        l.read_char();
        l
    }

    /// An independent copy of this lexer, in the same state.
    pub fn snapshot(&self) -> (l: Self)
        ensures
            l@ == self@,
    {
        let input = self.input.clone();
        assert(input@ =~= self.input@);
        Lexer {
            input,
            source: self.source.clone(),
            position: self.position,
            read_position: self.read_position,
            ch: self.ch,
            mode: self.mode,
            line: self.line,
            col: self.col,
            last_span: self.last_span,
        }
    }

    fn read_char(&mut self)
        requires
            old(self)@.read_position <= old(self)@.input.len(),
        ensures
            final(self)@ == read_char(old(self)@),
            lex_wf(final(self)@),
    {
        let len = self.input.len();
        if self.read_position >= len {
            self.ch = '\0';
            self.position = len;
        } else {
            self.ch = self.input[self.read_position];
            self.position = self.read_position;
            self.read_position = self.read_position + 1;
        }
        if self.ch == '\n' {
            self.line = self.line.wrapping_add(1);
            self.col = 0;
        } else {
            self.col = self.col.wrapping_add(1);
        }
    }

    fn peek_char(&self) -> (c: char)
        ensures
            c == peek(self@),
    {
        if self.read_position >= self.input.len() {
            '\0'
        } else {
            self.input[self.read_position]
        }
    }

    fn mark_span(&mut self)
        ensures
            final(self)@ == mark_span(old(self)@),
    {
        self.last_span = Span::new(self.line, self.col);
    }

    /// Scans the next token, in the current mode.
    pub fn next_token(&mut self) -> (t: Token)
        requires
            old(self).wf(),
        ensures
            final(self).wf(),
            (final(self)@, t@) == spec_next_token(old(self)@),
    {
        match self.mode {
            LexerMode::String => self.scan_string_mode(),
            LexerMode::Normal => self.scan_normal_mode(),
        }
    }

    fn scan_normal_mode(&mut self) -> (t: Token)
        requires
            lex_wf(old(self)@),
        ensures
            lex_wf(final(self)@),
            (final(self)@, t@) == normal_token(mark_span(skip_trivia(old(self)@))),
    {
        let ghost target = skip_trivia(self@);
        loop
            invariant
                lex_wf(self@),
                skip_trivia(self@) == target,
                self@.input == old(self)@.input,
            ensures
                lex_wf(self@),
                self@ == target,
            decreases self@.input.len() - self@.position,
        {
            self.skip_whitespace();
            if self.ch == '/' && self.peek_char() == '/' {
                let ghost p0 = self@.position;
                assert(skip_comment(self@) == skip_comment(read_char(self@)));
                while self.ch != '\n' && self.ch != '\0'
                    invariant
                        lex_wf(self@),
                        skip_comment(self@) == target,
                        self@.position > p0 || self@.ch == '/',
                        self@.position >= p0,
                        self@.input == old(self)@.input,
                    decreases self@.input.len() - self@.position,
                {
                    self.read_char();
                }
                continue;
            }
            break;
        }
        self.mark_span();
        let ghost t0 = self@;
        let tok = match self.ch {
            '=' => {
                if self.peek_char() == '>' {
                    self.read_char();
                    Token::Arrow
                } else if self.peek_char() == '=' {
                    self.read_char();
                    Token::Equal
                } else {
                    Token::Assign
                }
            },
            '!' => {
                if self.peek_char() == '=' {
                    self.read_char();
                    Token::NotEqual
                } else {
                    Token::Bang
                }
            },
            '+' => {
                if self.peek_char() == '+' {
                    self.read_char();
                    Token::PlusPlus
                } else {
                    Token::Plus
                }
            },
            '-' => {
                if self.peek_char() == '-' {
                    self.read_char();
                    Token::MinusMinus
                } else {
                    Token::Minus
                }
            },
            '*' => Token::Star,
            '/' => Token::Slash,
            '%' => Token::Modulo,
            '(' => Token::LParen,
            ')' => Token::RParen,
            '{' => Token::LBrace,
            '}' => Token::RBrace,
            '[' => Token::LBracket,
            ']' => Token::RBracket,
            ';' => Token::Semicolon,
            ',' => Token::Comma,
            ':' => Token::Colon,
            '.' => Token::Dot,
            '>' => {
                if self.peek_char() == '=' {
                    self.read_char();
                    Token::GTE
                } else {
                    Token::GT
                }
            },
            '<' => {
                if self.peek_char() == '=' {
                    self.read_char();
                    Token::LTE
                } else {
                    Token::LT
                }
            },
            '$' => Token::Dollar,
            '"' => {
                self.mode = LexerMode::String;
                self.read_char();
                return self.scan_string_mode();
            },
            '\0' => Token::EOF,
            _ => {
                if is_alphabetic(self.ch) || self.ch == '_' {
                    let ident = self.read_identifier();
                    return Token::lookup_identifier(ident.as_str());
                } else if is_numeric(self.ch) {
                    let text = self.read_number();
                    return Token::Number(text);
                } else {
                    Token::EOF
                }
            },
        };
        self.read_char();
        tok
    }

    fn scan_string_mode(&mut self) -> (t: Token)
        requires
            lex_wf(old(self)@),
        ensures
            lex_wf(final(self)@),
            (final(self)@, t@) == scan_string(old(self)@),
    {
        self.mark_span();
        let mut content = String::new();
        let ghost target = scan_string_from(self@, content@);
        assert(content@ =~= seq![]);
        while self.ch != '\0'
            invariant
                lex_wf(self@),
                scan_string_from(self@, content@) == target,
                target == scan_string(old(self)@),
            decreases self@.input.len() - self@.position,
        {
            if self.ch == '"' {
                let ghost s0 = self@;
                self.mode = LexerMode::Normal;
                self.read_char();
                return Token::String(content);
            }
            if self.ch == '$' && self.peek_char() == '{' {
                if !content.as_str().is_empty() {
                    return Token::String(content);
                }
                self.read_char();
                self.read_char();
                self.mode = LexerMode::Normal;
                return Token::InterpolationStart;
            }
            if self.ch == '\\' {
                let ghost s0 = self@;
                let ghost c0 = content@;
                self.read_char();
                match self.ch {
                    'n' => push_char(&mut content, '\n'),
                    't' => push_char(&mut content, '\t'),
                    'r' => push_char(&mut content, '\r'),
                    '\\' => push_char(&mut content, '\\'),
                    '"' => push_char(&mut content, '"'),
                    '$' => push_char(&mut content, '$'),
                    _ => {
                        push_char(&mut content, '\\');
                        push_char(&mut content, self.ch);
                    },
                }
                assert(content@ =~= c0 + escape_text(self@.ch));
                self.read_char();
                continue;
            }
            push_char(&mut content, self.ch);
            self.read_char();
        }
        Token::EOF
    }

    fn read_identifier(&mut self) -> (s: String)
        requires
            lex_wf(old(self)@),
        ensures
            lex_wf(final(self)@),
            final(self)@ == skip_ident_chars(old(self)@),
            s@ == old(self)@.input.subrange(old(self)@.position as int, final(self)@.position as int),
    {
        let pos = self.position;
        let ghost target = skip_ident_chars(self@);
        let ghost input = self@.input;
        while is_alphanumeric(self.ch) || self.ch == '_'
            invariant
                lex_wf(self@),
                skip_ident_chars(self@) == target,
                self@.input == input,
                pos <= self@.position,
            decreases self@.input.len() - self@.position,
        {
            self.read_char();
        }
        string_from_range(&self.input, pos, self.position)
    }

    fn read_number(&mut self) -> (s: String)
        requires
            lex_wf(old(self)@),
        ensures
            lex_wf(final(self)@),
            final(self)@ == skip_number_chars(old(self)@),
            s@ == old(self)@.input.subrange(old(self)@.position as int, final(self)@.position as int),
    {
        let pos = self.position;
        let ghost target = skip_number_chars(self@);
        let ghost input = self@.input;
        while is_numeric(self.ch) || self.ch == '.'
            invariant
                lex_wf(self@),
                skip_number_chars(self@) == target,
                self@.input == input,
                pos <= self@.position,
            decreases self@.input.len() - self@.position,
        {
            self.read_char();
        }
        string_from_range(&self.input, pos, self.position)
    }

    fn skip_whitespace(&mut self)
        requires
            lex_wf(old(self)@),
        ensures
            lex_wf(final(self)@),
            skip_trivia(final(self)@) == skip_trivia(old(self)@),
            !spec_is_whitespace(final(self)@.ch),
            final(self)@.position >= old(self)@.position,
            final(self)@.input == old(self)@.input,
    {
        let ghost target = skip_trivia(self@);
        let ghost p0 = self@.position;
        while is_whitespace(self.ch)
            invariant
                lex_wf(self@),
                skip_trivia(self@) == target,
                self@.position >= p0,
                self@.input == old(self)@.input,
            decreases self@.input.len() - self@.position,
        {
            self.read_char();
        }
    }

    /// The position where the last token started.
    pub fn span(&self) -> (s: Span)
        ensures
            s == self@.last_span,
    {
        self.last_span
    }

    /// The current scanning mode.
    pub fn current_mode(&self) -> (m: LexerMode)
        ensures
            m == self@.mode,
    {
        self.mode
    }

    /// The line and column of the cursor.
    pub fn cursor(&self) -> (r: (usize, usize))
        ensures
            r == (self@.line, self@.col),
    {
        (self.line, self.col)
    }

    /// Switches the lexer to string mode, to scan the rest of a literal after
    /// an interpolated expression.
    pub fn resume_string(&mut self)
        ensures
            final(self)@ == (LexState { mode: LexerMode::String, ..old(self)@ }),
    {
        self.mode = LexerMode::String;
    }

    /// The source line with the given number, counting from 1 (0 is taken as 1).
    pub fn get_source_line(&self, line: usize) -> (r: Option<String>)
        ensures
            match r {
                Some(l) => nth_line_spec(self@.source, if line == 0 { 0 } else { line - 1 }) == Some(l@),
                None => nth_line_spec(self@.source, if line == 0 { 0 } else { line - 1 }) is None,
            },
    {
        let chars = to_chars(self.source.as_str());
        nth_line(&chars, line.saturating_sub(1))
    }
}

} // verus!
