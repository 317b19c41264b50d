//! The text of syntax errors: `[line:col] message`, with tokens shown as their
//! `Debug` form (`RParen`, `Identifier("x")`, `Number(5.0)`), and the report
//! that lists them.
//!
//! A number token shows the value of its literal as an `f64`; that text is
//! handed in by the caller, which can format floating-point values.
use vstd::prelude::*;
use crate::compiler::diagnostics::{error_reports, summary_text, DiagnosticReporter};
use crate::compiler::lexer::{Span, SpecToken, Token};
use crate::compiler::parser::ParseError;
use crate::compiler::syntax::SParseError;
use crate::text::{decimal, push_decimal, push_str};

verus! {

/// The text that `format!("{:?}", s)` gives for a string slice `s`.
pub uninterp spec fn debug_text(s: Seq<char>) -> Seq<char>;

/// Printable ASCII other than `"` and `\`, which `Debug` shows unescaped.
pub open spec fn plain_ascii(s: Seq<char>) -> bool {
    forall|i: int| 0 <= i < s.len() ==> ' ' <= #[trigger] s[i] <= '~' && s[i] != '"' && s[i] != '\\'
}

/// Calls `format!("{:?}", s)`: the string quoted, with escapes. The contract
/// names the result, and states it for printable ASCII without quotes or
/// backslashes, which appears as it is between double quotes.
#[verifier::external_body]
fn debug_quoted(s: &str) -> (r: String)
    ensures
        r@ == debug_text(s@),
        plain_ascii(s@) ==> r@ == seq!['"'] + s@ + seq!['"'],
{
    format!("{:?}", s)
}

/// The name of a token without a payload, as `Debug` shows it.
pub open spec fn plain_token_name(t: Token) -> Seq<char> {
    match t {
        Token::Let => "Let"@,
        Token::Const => "Const"@,
        Token::Fn => "Fn"@,
        Token::If => "If"@,
        Token::Else => "Else"@,
        Token::Return => "Return"@,
        Token::Async => "Async"@,
        Token::Await => "Await"@,
        Token::Import => "Import"@,
        Token::From => "From"@,
        Token::While => "While"@,
        Token::For => "For"@,
        Token::Try => "Try"@,
        Token::Catch => "Catch"@,
        Token::True => "True"@,
        Token::False => "False"@,
        Token::NullLiteral => "NullLiteral"@,
        Token::Assign => "Assign"@,
        Token::Plus => "Plus"@,
        Token::Minus => "Minus"@,
        Token::Star => "Star"@,
        Token::Slash => "Slash"@,
        Token::Modulo => "Modulo"@,
        Token::Bang => "Bang"@,
        Token::Equal => "Equal"@,
        Token::NotEqual => "NotEqual"@,
        Token::GT => "GT"@,
        Token::LT => "LT"@,
        Token::GTE => "GTE"@,
        Token::LTE => "LTE"@,
        Token::Arrow => "Arrow"@,
        Token::PlusPlus => "PlusPlus"@,
        Token::MinusMinus => "MinusMinus"@,
        Token::LParen => "LParen"@,
        Token::RParen => "RParen"@,
        Token::LBrace => "LBrace"@,
        Token::RBrace => "RBrace"@,
        Token::LBracket => "LBracket"@,
        Token::RBracket => "RBracket"@,
        Token::Semicolon => "Semicolon"@,
        Token::Comma => "Comma"@,
        Token::Colon => "Colon"@,
        Token::Dot => "Dot"@,
        Token::Dollar => "Dollar"@,
        Token::InterpolationStart => "InterpolationStart"@,
        Token::EOF => "EOF"@,
        Token::Identifier(_) => "Identifier"@,
        Token::Number(_) => "Number"@,
        Token::String(_) => "String"@,
    }
}

/// A token as error messages show it; `number` is the text of a number
/// token's value.
pub open spec fn token_text(t: SpecToken, number: Seq<char>) -> Seq<char> {
    match t {
        SpecToken::Plain(k) => plain_token_name(k),
        SpecToken::Ident(s) => "Identifier("@ + debug_text(s) + ")"@,
        SpecToken::Num(_) => "Number("@ + number + ")"@,
        SpecToken::Str(s) => "String("@ + debug_text(s) + ")"@,
    }
}

/// The message of a syntax error; `first` and `second` are the texts of the
/// values of number tokens in it (the only token, or `expected`, then `got`).
pub open spec fn message_text(e: SParseError, first: Seq<char>, second: Seq<char>) -> Seq<char> {
    match e {
        SParseError::NoPrefixParse(t) => "No prefix parse function for "@ + token_text(t, first),
        SParseError::UnexpectedToken { expected, got } =>
            "Expected "@ + token_text(expected, first) + ", got "@ + token_text(got, second) + " instead"@,
        SParseError::ExpectedObjectKey(t) =>
            "Expected string or identifier as object key, got "@ + token_text(t, first),
        SParseError::ExpectedFieldName(t) => "Expected field name after `.`, got "@ + token_text(t, first),
        SParseError::UnclosedArray => "Expected `]` to close array literal"@,
        SParseError::ExpectedColon => "Expected `:` after object key"@,
        SParseError::UnclosedObject => "Expected `}` to close object literal"@,
        SParseError::UnclosedIndex => "Expected `]` to close index expression"@,
        SParseError::ForWithoutParen => "Expected `(` after `for`"@,
        SParseError::ForWithoutCloseParen => "Expected `)` after for loop clauses"@,
        SParseError::ForWithoutBody => "Expected `{` for for-loop body"@,
    }
}

/// `[line:col] ` and the message: one line of the parser's error list.
pub open spec fn error_line_text(e: SParseError, span: Span, first: Seq<char>, second: Seq<char>) -> Seq<char> {
    seq!['['] + decimal(span.line as nat) + seq![':'] + decimal(span.col as nat) + seq![']', ' ']
        + message_text(e, first, second)
}

fn push_token(out: &mut String, t: &Token, number: &str)
    ensures
        final(out)@ == old(out)@ + token_text(t@, number@),
{
    match t {
        Token::Identifier(s) => {
            push_str(out, "Identifier(");
            let q = debug_quoted(s.as_str());
            push_str(out, q.as_str());
            push_str(out, ")");
        },
        Token::Number(_) => {
            push_str(out, "Number(");
            push_str(out, number);
            push_str(out, ")");
        },
        Token::String(s) => {
            push_str(out, "String(");
            let q = debug_quoted(s.as_str());
            push_str(out, q.as_str());
            push_str(out, ")");
        },
        Token::Let => push_str(out, "Let"),
        Token::Const => push_str(out, "Const"),
        Token::Fn => push_str(out, "Fn"),
        Token::If => push_str(out, "If"),
        Token::Else => push_str(out, "Else"),
        Token::Return => push_str(out, "Return"),
        Token::Async => push_str(out, "Async"),
        Token::Await => push_str(out, "Await"),
        Token::Import => push_str(out, "Import"),
        Token::From => push_str(out, "From"),
        Token::While => push_str(out, "While"),
        Token::For => push_str(out, "For"),
        Token::Try => push_str(out, "Try"),
        Token::Catch => push_str(out, "Catch"),
        Token::True => push_str(out, "True"),
        Token::False => push_str(out, "False"),
        Token::NullLiteral => push_str(out, "NullLiteral"),
        Token::Assign => push_str(out, "Assign"),
        Token::Plus => push_str(out, "Plus"),
        Token::Minus => push_str(out, "Minus"),
        Token::Star => push_str(out, "Star"),
        Token::Slash => push_str(out, "Slash"),
        Token::Modulo => push_str(out, "Modulo"),
        Token::Bang => push_str(out, "Bang"),
        Token::Equal => push_str(out, "Equal"),
        Token::NotEqual => push_str(out, "NotEqual"),
        Token::GT => push_str(out, "GT"),
        Token::LT => push_str(out, "LT"),
        Token::GTE => push_str(out, "GTE"),
        Token::LTE => push_str(out, "LTE"),
        Token::Arrow => push_str(out, "Arrow"),
        Token::PlusPlus => push_str(out, "PlusPlus"),
        Token::MinusMinus => push_str(out, "MinusMinus"),
        Token::LParen => push_str(out, "LParen"),
        Token::RParen => push_str(out, "RParen"),
        Token::LBrace => push_str(out, "LBrace"),
        Token::RBrace => push_str(out, "RBrace"),
        Token::LBracket => push_str(out, "LBracket"),
        Token::RBracket => push_str(out, "RBracket"),
        Token::Semicolon => push_str(out, "Semicolon"),
        Token::Comma => push_str(out, "Comma"),
        Token::Colon => push_str(out, "Colon"),
        Token::Dot => push_str(out, "Dot"),
        Token::Dollar => push_str(out, "Dollar"),
        Token::InterpolationStart => push_str(out, "InterpolationStart"),
        Token::EOF => push_str(out, "EOF"),
    }
}

/// The message of a syntax error; `first` and `second` are the texts of the
/// `f64` values of its number tokens (the only token, or `expected`, then
/// `got`), used only where such a token occurs.
pub fn error_message(e: &ParseError, first: &str, second: &str) -> (r: String)
    ensures
        r@ == message_text(e@, first@, second@),
{
    let mut out = String::new();
    match e {
        ParseError::NoPrefixParse(t) => {
            push_str(&mut out, "No prefix parse function for ");
            push_token(&mut out, t, first);
        },
        ParseError::UnexpectedToken { expected, got } => {
            push_str(&mut out, "Expected ");
            push_token(&mut out, expected, first);
            push_str(&mut out, ", got ");
            push_token(&mut out, got, second);
            push_str(&mut out, " instead");
        },
        ParseError::ExpectedObjectKey(t) => {
            push_str(&mut out, "Expected string or identifier as object key, got ");
            push_token(&mut out, t, first);
        },
        ParseError::ExpectedFieldName(t) => {
            push_str(&mut out, "Expected field name after `.`, got ");
            push_token(&mut out, t, first);
        },
        ParseError::UnclosedArray => push_str(&mut out, "Expected `]` to close array literal"),
        ParseError::ExpectedColon => push_str(&mut out, "Expected `:` after object key"),
        ParseError::UnclosedObject => push_str(&mut out, "Expected `}` to close object literal"),
        ParseError::UnclosedIndex => push_str(&mut out, "Expected `]` to close index expression"),
        ParseError::ForWithoutParen => push_str(&mut out, "Expected `(` after `for`"),
        ParseError::ForWithoutCloseParen => push_str(&mut out, "Expected `)` after for loop clauses"),
        ParseError::ForWithoutBody => push_str(&mut out, "Expected `{` for for-loop body"),
    }
    out
}

/// One line of the parser's error list: `[line:col] ` and the message.
pub fn error_line(e: &ParseError, span: Span, first: &str, second: &str) -> (r: String)
    ensures
        r@ == error_line_text(e@, span, first@, second@),
{
    let mut out = String::new();
    push_str(&mut out, "[");
    push_decimal(&mut out, span.line);
    push_str(&mut out, ":");
    push_decimal(&mut out, span.col);
    push_str(&mut out, "] ");
    let m = error_message(e, first, second);
    push_str(&mut out, m.as_str());
    proof {
        reveal_strlit("[");
        reveal_strlit(":");
        reveal_strlit("] ");
    }
    out
}

/// The rendered lines of syntax errors, each with its position.
pub open spec fn rendered_errors(
    errors: Seq<(Span, SParseError)>,
    numbers: Seq<(Seq<char>, Seq<char>)>,
) -> Seq<(Span, Seq<char>)> {
    Seq::new(errors.len(), |i: int| (errors[i].0, error_line_text(errors[i].1, errors[i].0, numbers[i].0, numbers[i].1)))
}

/// The report of a program's syntax errors: the diagnostic of each error, its
/// line rendered as the parser lists it, then the count. `numbers[i]` holds
/// the texts of the `f64` values of the number tokens of error `i`.
pub fn syntax_error_report(
    source: &str,
    filename: &str,
    errors: &Vec<(Span, ParseError)>,
    numbers: &Vec<(String, String)>,
) -> (r: String)
    requires
        numbers@.len() == errors@.len(),
    ensures
        r@ == error_reports(
            source@,
            filename@,
            rendered_errors(
                errors@.map_values(|e: (Span, ParseError)| (e.0, e.1@)),
                numbers@.map_values(|n: (String, String)| (n.0@, n.1@)),
            ),
        ) + summary_text(errors@.len()),
{
    let ghost ev = errors@.map_values(|e: (Span, ParseError)| (e.0, e.1@));
    let ghost nv = numbers@.map_values(|n: (String, String)| (n.0@, n.1@));
    let mut lines: Vec<(Span, String)> = Vec::new();
    let mut i: usize = 0;
    while i < errors.len()
        invariant
            i <= errors@.len(),
            numbers@.len() == errors@.len(),
            ev == errors@.map_values(|e: (Span, ParseError)| (e.0, e.1@)),
            nv == numbers@.map_values(|n: (String, String)| (n.0@, n.1@)),
            lines@.len() == i,
            forall|j: int| 0 <= j < i ==> (#[trigger] lines@[j]).0 == ev[j].0
                && lines@[j].1@ == error_line_text(ev[j].1, ev[j].0, nv[j].0, nv[j].1),
        decreases errors@.len() - i,
    {
        let (span, e) = &errors[i];
        let (n1, n2) = &numbers[i];
        let line = error_line(e, *span, n1.as_str(), n2.as_str());
        lines.push((*span, line));
        i = i + 1;
    }
    assert(lines@.map_values(|e: (Span, String)| (e.0, e.1@)) =~= rendered_errors(ev, nv));
    let reporter = DiagnosticReporter::new(source, filename);
    let r = reporter.report_errors(lines.as_slice());
    r
}

} // verus!
